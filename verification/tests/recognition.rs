use voice_assistant::keyboard::{send_text_to_window, TypingEvent, TypingRequest};
use voice_assistant::model::{
    transcript, LoadEvent, LoadRequest, Model, ModelError, ModelLoader, TranscribeRequest,
    WhisperContext, WhisperSamplingStrategy, WhisperState, MODEL_DIR, MODEL_FILE,
};
use voice_assistant::text::{decimal_text, is_whitespace, join_segments, trim};

#[test]
fn white_space_is_what_unicode_says() {
    for n in 0..=0x10ffffu32 {
        if let Some(c) = char::from_u32(n) {
            assert_eq!(is_whitespace(c), c.is_whitespace(), "{:x}", n);
        }
    }
}

#[test]
fn trimming_takes_white_space_off_both_ends() {
    for s in ["", " ", "a", "  a b\t", "\u{3000}привет, мир\n", "\u{200b}x", "\u{a0}\u{2003}"] {
        assert_eq!(trim(s), s.trim());
        assert_eq!(trim(&trim(s)), s.trim());
    }
}

#[test]
fn numbers_are_written_in_decimal() {
    for n in [0usize, 7, 9, 10, 11, 100, 1024, 98765, usize::MAX] {
        assert_eq!(decimal_text(n), n.to_string());
    }
}

#[test]
fn segments_are_joined_with_one_blank() {
    let texts: Vec<Option<String>> = vec![
        Some(" one ".to_string()),
        None,
        Some("  ".to_string()),
        Some("two".to_string()),
        Some("".to_string()),
        Some("three four\n".to_string()),
    ];
    assert_eq!(join_segments(&texts), Some("one two three four".to_string()));
}

#[test]
fn blank_segments_are_no_text() {
    assert_eq!(join_segments(&vec![]), None);
    assert_eq!(join_segments(&vec![None, Some(" \t".to_string())]), None);
}

#[test]
fn a_transcript_is_decoded_trimmed_and_joined() {
    let segments: Vec<Option<Vec<u8>>> =
        vec![Some(" Привет,".as_bytes().to_vec()), None, Some(b" world! ".to_vec())];
    assert_eq!(transcript(&segments), Some("Привет, world!".to_string()));
    assert_eq!(transcript(&vec![Some(b"  ".to_vec()), None]), None);
    assert_eq!(transcript(&vec![]), None);
}

#[test]
fn bytes_that_are_no_text_are_replaced() {
    let segments: Vec<Option<Vec<u8>>> = vec![Some(vec![0x61, 0xff, 0x62, 0xd0])];
    assert_eq!(transcript(&segments), Some("a\u{fffd}b\u{fffd}".to_string()));
}

/// A loader that waits to be told of the file.
fn checking() -> ModelLoader {
    let (mut loader, first) = Model::new();
    assert!(matches!(first, LoadRequest::FindDirectory));
    assert!(!loader.is_awaiting(&LoadEvent::Context { handle: 1 }));
    let found = LoadEvent::Directory { found: true };
    assert!(loader.is_awaiting(&found));
    assert!(matches!(loader.step(found), LoadRequest::CheckFile));
    loader
}

fn file(path: &str, exists: bool) -> LoadEvent {
    LoadEvent::File { path: path.to_string(), exists }
}

/// A loaded recogniser.
fn loaded(ctx: usize, state: usize) -> Model {
    let mut loader = checking();
    loader.step(file("m", true));
    loader.step(LoadEvent::Context { handle: ctx });
    match loader.step(LoadEvent::State { handle: state }) {
        LoadRequest::Loaded(model) => model,
        other => panic!("{:?}", other),
    }
}

#[test]
fn the_model_lies_beside_the_program() {
    assert_eq!((MODEL_DIR, MODEL_FILE), ("models", "ggml-medium.bin"));
}

#[test]
fn a_model_is_loaded_step_by_step() {
    let mut loader = checking();
    match loader.step(file("C:\\models\\я.bin", true)) {
        LoadRequest::MakeContext { c_path } => {
            let mut expected: Vec<u8> = "C:\\models\\я.bin".as_bytes().to_vec();
            expected.push(0);
            assert_eq!(c_path, expected);
        }
        other => panic!("{:?}", other),
    }
    assert!(matches!(
        loader.step(LoadEvent::Context { handle: 17 }),
        LoadRequest::MakeState { ctx } if ctx.handle == 17
    ));
    match loader.step(LoadEvent::State { handle: 23 }) {
        LoadRequest::Loaded(model) => {
            assert_eq!(model.release(), (WhisperState { handle: 23 }, WhisperContext { handle: 17 }))
        }
        other => panic!("{:?}", other),
    }
    assert!(!loader.is_awaiting(&LoadEvent::State { handle: 23 }));
}

#[test]
fn without_a_directory_there_is_no_path() {
    let (mut loader, _) = Model::new();
    assert!(matches!(
        loader.step(LoadEvent::Directory { found: false }),
        LoadRequest::Failed { error: ModelError::InvalidPath, free_context: None }
    ));
}

#[test]
fn a_missing_file_is_named() {
    assert!(matches!(
        checking().step(file("/x/models/ggml-medium.bin", false)),
        LoadRequest::Failed { error: ModelError::ModelNotFound(path), free_context: None }
            if path == "/x/models/ggml-medium.bin"
    ));
    assert!(matches!(
        checking().step(file("a\0b", false)),
        LoadRequest::Failed { error: ModelError::ModelNotFound(_), .. }
    ));
}

#[test]
fn a_path_with_a_zero_cannot_be_handed_on() {
    assert!(matches!(
        checking().step(file("a\0b", true)),
        LoadRequest::Failed { error: ModelError::InvalidPath, free_context: None }
    ));
}

#[test]
fn a_context_that_was_made_is_freed_when_the_state_fails() {
    let mut loader = checking();
    loader.step(file("m", true));
    loader.step(LoadEvent::Context { handle: 5 });
    assert!(matches!(
        loader.step(LoadEvent::State { handle: 0 }),
        LoadRequest::Failed {
            error: ModelError::StateInitFailed,
            free_context: Some(WhisperContext { handle: 5 }),
        }
    ));
}

#[test]
fn without_a_context_there_is_nothing_to_free() {
    let mut loader = checking();
    loader.step(file("m", true));
    assert!(matches!(
        loader.step(LoadEvent::Context { handle: 0 }),
        LoadRequest::Failed { error: ModelError::InitFailed, free_context: None }
    ));
}

#[test]
fn nothing_is_recognised_in_no_samples() {
    assert_eq!(loaded(1, 2).transcribe(&[]), TranscribeRequest::Nothing);
}

#[test]
fn a_phrase_is_recognised_step_by_step() {
    let model = loaded(1, 2);
    assert_eq!(
        model.transcribe(&[7; 480]),
        TranscribeRequest::Infer {
            ctx: WhisperContext { handle: 1 },
            state: WhisperState { handle: 2 },
            strategy: WhisperSamplingStrategy::Greedy,
            samples: vec![7; 480],
            n_samples: 480,
        }
    );
    let state = WhisperState { handle: 2 };
    assert!(matches!(
        model.inferred(0),
        Ok(TranscribeRequest::CountSegments { state: s }) if s == state
    ));
    assert_eq!(model.counted(3), TranscribeRequest::GetSegments { state, count: 3 });
    assert_eq!(model.counted(0), TranscribeRequest::GetSegments { state, count: 0 });
    assert_eq!(model.counted(-4), TranscribeRequest::GetSegments { state, count: 0 });
}

#[test]
fn any_code_but_zero_is_a_failure() {
    for code in [-1i32, 1, i32::MIN, i32::MAX] {
        assert!(matches!(loaded(1, 2).inferred(code), Err(ModelError::InferenceFailed)));
    }
}

#[test]
fn strategies_have_their_numbers() {
    assert_eq!(WhisperSamplingStrategy::Greedy.code(), 0);
    assert_eq!(WhisperSamplingStrategy::BeamSearch.code(), 1);
}

#[test]
fn empty_text_opens_no_keyboard() {
    for event in [TypingEvent::Asked, TypingEvent::Opened { ok: true }, TypingEvent::Typed { ok: false }] {
        assert_eq!(send_text_to_window("", event), TypingRequest::Nothing);
    }
}

#[test]
fn text_is_typed_once_the_keyboard_is_open() {
    let go = |event: TypingEvent| send_text_to_window("текст", event);
    assert_eq!(go(TypingEvent::Asked), TypingRequest::OpenKeyboard);
    assert_eq!(
        go(TypingEvent::Opened { ok: true }),
        TypingRequest::TypeText { text: "текст".to_string() }
    );
    assert_eq!(go(TypingEvent::Opened { ok: false }), TypingRequest::ReportNotOpened);
    assert_eq!(
        go(TypingEvent::Typed { ok: true }),
        TypingRequest::ReportTyped { text: "текст".to_string() }
    );
    assert_eq!(go(TypingEvent::Typed { ok: false }), TypingRequest::ReportNotTyped);
    assert_eq!(send_text_to_window(" ", TypingEvent::Asked), TypingRequest::OpenKeyboard);
}
