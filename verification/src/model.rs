//! The speech recogniser: loading it, running it on a phrase, and putting the
//! recognised text together.
//!
//! The recogniser itself is foreign code behind two handles, a context and a
//! state, which are carried here as numbers that are not zero.
use vstd::prelude::*;
use vstd::slice::slice_to_vec;
use crate::text::{decode_lossy, join_segments};

verus! {

/// The directory beside the program that holds the model.
pub const MODEL_DIR: &'static str = "models";

/// The file in that directory.
pub const MODEL_FILE: &'static str = "ggml-medium.bin";

/// Why the recogniser does not work.
#[derive(Debug)]
pub enum ModelError {
    /// There is no file at this path.
    ModelNotFound(String),
    /// The path of the file is not known, or cannot be handed on.
    InvalidPath,
    /// The context could not be made.
    InitFailed,
    /// The state could not be made.
    StateInitFailed,
    /// The recogniser failed on a phrase.
    InferenceFailed,
}

/// The recogniser with its model.
#[derive(Clone, Copy, Debug, PartialEq, Eq, Structural)]
pub struct WhisperContext {
    pub handle: usize,
}

/// What the recogniser remembers of the phrase that it was run on last.
#[derive(Clone, Copy, Debug, PartialEq, Eq, Structural)]
pub struct WhisperState {
    pub handle: usize,
}

/// How the recogniser chooses among what a sound may mean.
#[derive(Clone, Copy, Debug, PartialEq, Eq, Structural)]
pub enum WhisperSamplingStrategy {
    Greedy,
    BeamSearch,
}

impl WhisperSamplingStrategy {
    /// The number that the recogniser knows the strategy by.
    pub fn code(self) -> (n: i32)
        ensures
            n == (match self {
                WhisperSamplingStrategy::Greedy => 0i32,
                WhisperSamplingStrategy::BeamSearch => 1i32,
            }),
    {
        match self {
            WhisperSamplingStrategy::Greedy => 0,
            WhisperSamplingStrategy::BeamSearch => 1,
        }
    }
}

/// What loading the recogniser waits for.
#[derive(Clone, Copy, Debug, PartialEq, Eq, Structural)]
pub enum LoadStage {
    FindingProgram,
    CheckingFile,
    MakingContext,
    MakingState { ctx: WhisperContext },
    Ended,
}

/// What loading the recogniser is told.
#[derive(Debug)]
pub enum LoadEvent {
    /// Whether the directory of the program is known.
    Directory { found: bool },
    /// The path of the model, and whether there is such a file.
    File { path: String, exists: bool },
    /// The handle of the context, or zero.
    Context { handle: usize },
    /// The handle of the state, or zero.
    State { handle: usize },
}

/// What loading the recogniser asks for.
#[derive(Debug)]
pub enum LoadRequest {
    FindDirectory,
    /// Look for [`MODEL_FILE`] in [`MODEL_DIR`].
    CheckFile,
    /// Make a context of the file at this path, which ends in a zero byte.
    MakeContext { c_path: Vec<u8> },
    MakeState { ctx: WhisperContext },
    /// The recogniser is loaded.
    Loaded(Model),
    /// It is not; the context has to be freed where there is one.
    Failed { error: ModelError, free_context: Option<WhisperContext> },
}

/// The context that is held in a stage.
pub open spec fn held_context(stage: LoadStage) -> Option<WhisperContext> {
    match stage {
        LoadStage::MakingState { ctx } => Some(ctx),
        _ => None,
    }
}

/// Whether an event can follow in a stage.
pub open spec fn awaits(stage: LoadStage, event: LoadEvent) -> bool {
    match stage {
        LoadStage::FindingProgram => event is Directory,
        LoadStage::CheckingFile => event is File,
        LoadStage::MakingContext => event is Context,
        LoadStage::MakingState { .. } => event is State,
        LoadStage::Ended => false,
    }
}

/// Loads the recogniser.
pub struct ModelLoader {
    stage: LoadStage,
}

impl ModelLoader {
    /// What is waited for.
    pub closed spec fn stage(&self) -> LoadStage {
        self.stage
    }

    /// A context that is held has a handle.
    pub open spec fn wf(&self) -> bool {
        held_context(self.stage()) matches Some(ctx) ==> ctx.handle != 0
    }

    /// Whether `event` is what is waited for.
    pub fn is_awaiting(&self, event: &LoadEvent) -> (b: bool)
        ensures
            b == awaits(self.stage(), *event),
    {
        match (self.stage, event) {
            (LoadStage::FindingProgram, LoadEvent::Directory { .. }) => true,
            (LoadStage::CheckingFile, LoadEvent::File { .. }) => true,
            (LoadStage::MakingContext, LoadEvent::Context { .. }) => true,
            (LoadStage::MakingState { .. }, LoadEvent::State { .. }) => true,
            _ => false,
        }
    }

    /// Takes one step.
    ///
    /// A context that was made ends up in the loaded recogniser, or is freed.
    pub fn step(&mut self, event: LoadEvent) -> (request: LoadRequest)
        requires
            old(self).wf(),
            awaits(old(self).stage(), event),
        ensures
            final(self).wf(),
            request matches LoadRequest::Failed { error, free_context } ==> final(self).stage()
                == LoadStage::Ended && free_context == held_context(old(self).stage()),
            request matches LoadRequest::Loaded(model) ==> final(self).stage() == LoadStage::Ended
                && model.wf() && held_context(old(self).stage()) == Some(model.context()),
            match event {
                LoadEvent::Directory { found } => if found {
                    request == LoadRequest::CheckFile && final(self).stage()
                        == LoadStage::CheckingFile
                } else {
                    request matches LoadRequest::Failed { error, .. } && error
                        == ModelError::InvalidPath
                },
                LoadEvent::File { path, exists } => {
                    let bytes = vstd::utf8::encode_utf8(path@);
                    if !exists {
                        request matches LoadRequest::Failed { error, .. } && error
                            == ModelError::ModelNotFound(path)
                    } else if bytes.contains(0) {
                        request matches LoadRequest::Failed { error, .. } && error
                            == ModelError::InvalidPath
                    } else {
                        &&& request matches LoadRequest::MakeContext { c_path }
                        &&& c_path@ == bytes.push(0)
                        &&& final(self).stage() == LoadStage::MakingContext
                    }
                },
                LoadEvent::Context { handle } => if handle == 0 {
                    request matches LoadRequest::Failed { error, .. } && error
                        == ModelError::InitFailed
                } else {
                    let ctx = WhisperContext { handle };
                    (request == LoadRequest::MakeState { ctx }) && (final(self).stage()
                        == LoadStage::MakingState { ctx })
                },
                LoadEvent::State { handle } => if handle == 0 {
                    request matches LoadRequest::Failed { error, .. } && error
                        == ModelError::StateInitFailed
                } else {
                    request matches LoadRequest::Loaded(model) && model.state()
                        == (WhisperState { handle })
                },
            },
    {
        match event {
            LoadEvent::Directory { found } => if found {
                self.stage = LoadStage::CheckingFile;
                LoadRequest::CheckFile
            } else {
                self.fail(ModelError::InvalidPath)
            },
            LoadEvent::File { path, exists } => {
                if !exists {
                    return self.fail(ModelError::ModelNotFound(path));
                }
                match c_string(path.as_str()) {
                    None => self.fail(ModelError::InvalidPath),
                    Some(c_path) => {
                        self.stage = LoadStage::MakingContext;
                        LoadRequest::MakeContext { c_path }
                    },
                }
            },
            LoadEvent::Context { handle } => if handle == 0 {
                self.fail(ModelError::InitFailed)
            } else {
                let ctx = WhisperContext { handle };
                self.stage = LoadStage::MakingState { ctx };
                LoadRequest::MakeState { ctx }
            },
            LoadEvent::State { handle } => {
                if handle == 0 {
                    return self.fail(ModelError::StateInitFailed);
                }
                let ctx: WhisperContext = match self.stage {
                    LoadStage::MakingState { ctx } => ctx,
                    _ => WhisperContext { handle: 0 },
                };
                self.stage = LoadStage::Ended;
                LoadRequest::Loaded(Model { ctx, state: WhisperState { handle } })
            },
        }
    }

    fn fail(&mut self, error: ModelError) -> (request: LoadRequest)
        ensures
            final(self).stage() == LoadStage::Ended,
            (request == LoadRequest::Failed {
                error,
                free_context: held_context(old(self).stage()),
            }),
    {
        let free_context: Option<WhisperContext> = match self.stage {
            LoadStage::MakingState { ctx } => Some(ctx),
            _ => None,
        };
        self.stage = LoadStage::Ended;
        LoadRequest::Failed { error, free_context }
    }
}

/// The bytes of `text` with a zero byte behind them, where they hold none
/// themselves.
fn c_string(text: &str) -> (r: Option<Vec<u8>>)
    ensures
        r is None <==> vstd::utf8::encode_utf8(text@).contains(0),
        r matches Some(bytes) ==> bytes@ == vstd::utf8::encode_utf8(text@).push(0),
{
    let bytes: &[u8] = text.as_bytes();
    let mut i: usize = 0;
    while i < bytes.len()
        invariant
            0 <= i <= bytes@.len(),
            bytes@ == vstd::utf8::encode_utf8(text@),
            forall|j: int| 0 <= j < i ==> bytes@[j] != 0,
        decreases bytes@.len() - i,
    {
        if bytes[i] == 0 {
            return None;
        }
        i = i + 1;
    }
    let mut r: Vec<u8> = slice_to_vec(bytes);
    r.push(0);
    Some(r)
}

/// What running the recogniser on a phrase asks for.
#[derive(Debug, PartialEq, Eq)]
pub enum TranscribeRequest {
    /// There is nothing to recognise.
    Nothing,
    /// Run the recogniser, with the parameters that `strategy` has by default,
    /// on `samples`, of which it is told that there are `n_samples`.
    Infer {
        ctx: WhisperContext,
        state: WhisperState,
        strategy: WhisperSamplingStrategy,
        samples: Vec<u32>,
        n_samples: i32,
    },
    /// Ask how many segments were recognised.
    CountSegments { state: WhisperState },
    /// Get the texts of the first `count` segments.
    GetSegments { state: WhisperState, count: i32 },
}

/// What running the recogniser asks for, as contracts speak of it.
#[verifier::ext_equal]
pub enum TranscribeRequestView {
    Nothing,
    Infer {
        ctx: WhisperContext,
        state: WhisperState,
        strategy: WhisperSamplingStrategy,
        samples: Seq<u32>,
        n_samples: i32,
    },
    CountSegments { state: WhisperState },
    GetSegments { state: WhisperState, count: i32 },
}

impl View for TranscribeRequest {
    type V = TranscribeRequestView;

    open spec fn view(&self) -> TranscribeRequestView {
        match self {
            TranscribeRequest::Nothing => TranscribeRequestView::Nothing,
            TranscribeRequest::Infer { ctx, state, strategy, samples, n_samples } => {
                TranscribeRequestView::Infer {
                    ctx: *ctx,
                    state: *state,
                    strategy: *strategy,
                    samples: samples@,
                    n_samples: *n_samples,
                }
            },
            TranscribeRequest::CountSegments { state } => TranscribeRequestView::CountSegments {
                state: *state,
            },
            TranscribeRequest::GetSegments { state, count } => TranscribeRequestView::GetSegments {
                state: *state,
                count: *count,
            },
        }
    }
}

/// A recogniser that is loaded.
#[derive(Debug)]
pub struct Model {
    ctx: WhisperContext,
    state: WhisperState,
}

impl Model {
    /// The context.
    pub closed spec fn context(&self) -> WhisperContext {
        self.ctx
    }

    /// The state.
    pub closed spec fn state(&self) -> WhisperState {
        self.state
    }

    /// Neither handle is zero.
    pub open spec fn wf(&self) -> bool {
        self.context().handle != 0 && self.state().handle != 0
    }

    /// Starts loading a recogniser.
    pub fn new() -> (r: (ModelLoader, LoadRequest))
        ensures
            r.0.wf(),
            r.0.stage() == LoadStage::FindingProgram,
            r.1 == LoadRequest::FindDirectory,
    {
        (ModelLoader { stage: LoadStage::FindingProgram }, LoadRequest::FindDirectory)
    }

    /// Starts recognising a phrase.  The number of samples is handed on as a
    /// number of thirty-two bits.
    pub fn transcribe(&self, pcm: &[u32]) -> (request: TranscribeRequest)
        ensures
            request@ == (if pcm@.len() == 0 {
                TranscribeRequestView::Nothing
            } else {
                TranscribeRequestView::Infer {
                    ctx: self.context(),
                    state: self.state(),
                    strategy: WhisperSamplingStrategy::Greedy,
                    samples: pcm@,
                    n_samples: pcm@.len() as usize as i32,
                }
            }),
            0 < pcm@.len() <= i32::MAX ==> (request matches TranscribeRequest::Infer {
                samples,
                n_samples,
                ..
            } && samples@ == pcm@ && n_samples == pcm@.len()),
    {
        if pcm.len() == 0 {
            return TranscribeRequest::Nothing;
        }
        let n_samples: i32 = #[verifier::truncate]
        (pcm.len() as i32);
        TranscribeRequest::Infer {
            ctx: self.ctx,
            state: self.state,
            strategy: WhisperSamplingStrategy::Greedy,
            samples: slice_to_vec(pcm),
            n_samples,
        }
    }

    /// Goes on after the recogniser has returned `code`.
    pub fn inferred(&self, code: i32) -> (r: Result<TranscribeRequest, ModelError>)
        ensures
            r == (if code != 0 {
                Err(ModelError::InferenceFailed)
            } else {
                Ok(TranscribeRequest::CountSegments { state: self.state() })
            }),
    {
        if code != 0 {
            Err(ModelError::InferenceFailed)
        } else {
            Ok(TranscribeRequest::CountSegments { state: self.state })
        }
    }

    /// Goes on after the recogniser has reported so many segments; a negative
    /// number is taken for none.
    pub fn counted(&self, reported: i32) -> (request: TranscribeRequest)
        ensures
            (request == TranscribeRequest::GetSegments {
                state: self.state(),
                count: if reported > 0 {
                    reported
                } else {
                    0
                },
            }),
    {
        let count: i32 = if reported > 0 {
            reported
        } else {
            0
        };
        TranscribeRequest::GetSegments { state: self.state, count }
    }

    /// What has to be freed, in this order: the state, then the context.
    pub fn release(self) -> (r: (WhisperState, WhisperContext))
        ensures
            r == (self.state(), self.context()),
    {
        (self.state, self.ctx)
    }
}

/// The texts of segments as they were decoded.
pub open spec fn decoded(segments: Seq<Option<Vec<u8>>>) -> Seq<Seq<char>> {
    segments.map_values(
        |segment: Option<Vec<u8>>|
            match segment {
                Some(bytes) => crate::text::trimmed(crate::text::utf8_lossy(bytes@)),
                None => Seq::empty(),
            },
    )
}

/// The recognised text: the trimmed texts of all segments that have one, joined
/// with blanks; nothing where all are empty.
pub fn transcript(segments: &Vec<Option<Vec<u8>>>) -> (r: Option<String>)
    ensures
        r is Some <==> crate::text::joined(decoded(segments@)).len() > 0,
        r matches Some(text) ==> text@ == crate::text::joined(decoded(segments@)),
{
    let mut texts: Vec<Option<String>> = Vec::new();
    let mut i: usize = 0;
    while i < segments.len()
        invariant
            0 <= i <= segments@.len(),
            crate::text::texts_of(texts@) == decoded(segments@).take(i as int),
        decreases segments@.len() - i,
    {
        let text: Option<String> = match &segments[i] {
            Some(bytes) => Some(decode_lossy(bytes.as_slice())),
            None => None,
        };
        let ghost before = texts@;
        texts.push(text);
        proof {
            assert(crate::text::texts_of(texts@) =~= crate::text::texts_of(before).push(
                decoded(segments@)[i as int],
            ));
            assert(decoded(segments@).take(i + 1) =~= decoded(segments@).take(i as int).push(
                decoded(segments@)[i as int],
            ));
        }
        i = i + 1;
    }
    assert(decoded(segments@).take(segments@.len() as int) =~= decoded(segments@));
    join_segments(&texts)
}

/// A recognised text has no white space at its ends, and there is one exactly
/// when some segment holds more than white space.
pub proof fn lemma_transcript(segments: Seq<Option<Vec<u8>>>)
    ensures
        crate::text::is_trimmed(crate::text::joined(decoded(segments))),
        crate::text::joined(decoded(segments)).len() > 0 <==> exists|i: int|
            0 <= i < segments.len() && (#[trigger] segments[i]) is Some && crate::text::trimmed(
                crate::text::utf8_lossy(segments[i].unwrap()@),
            ).len() > 0,
{
    let texts = decoded(segments);
    assert forall|i: int| 0 <= i < texts.len() implies crate::text::is_trimmed(
        #[trigger] texts[i],
    ) by {
        if let Some(bytes) = segments[i] {
            crate::text::lemma_trimmed(crate::text::utf8_lossy(bytes@));
        }
    }
    crate::text::lemma_joined_is_trimmed(texts);
    crate::text::lemma_joined_is_empty(texts);
    if crate::text::joined(texts).len() > 0 {
        let i = choose|i: int| 0 <= i < texts.len() && (#[trigger] texts[i]).len() > 0;
        assert(segments[i] is Some);
    }
    if exists|i: int|
        0 <= i < segments.len() && (#[trigger] segments[i]) is Some && crate::text::trimmed(
            crate::text::utf8_lossy(segments[i].unwrap()@),
        ).len() > 0 {
        let i = choose|i: int|
            0 <= i < segments.len() && (#[trigger] segments[i]) is Some && crate::text::trimmed(
                crate::text::utf8_lossy(segments[i].unwrap()@),
            ).len() > 0;
        assert(texts[i].len() > 0);
    }
}

/// What was decoded of each segment is its own text, and each of them is in the
/// transcript: segments in two parts are transcribed as both parts with a blank between
/// them, one segment as its own text, and one without text as nothing.
pub proof fn lemma_transcript_holds_all(
    a: Seq<Option<Vec<u8>>>,
    b: Seq<Option<Vec<u8>>>,
    segment: Option<Vec<u8>>,
)
    ensures
        ({
            let first = crate::text::joined(decoded(a));
            let second = crate::text::joined(decoded(b));
            let both = crate::text::joined(decoded(a + b));
            &&& first.len() == 0 ==> both == second
            &&& second.len() == 0 ==> both == first
            &&& first.len() > 0 && second.len() > 0 ==> both == first + seq![' '] + second
        }),
        segment matches Some(bytes) ==> crate::text::joined(decoded(seq![segment]))
            == crate::text::trimmed(crate::text::utf8_lossy(bytes@)),
        segment is None ==> crate::text::joined(decoded(seq![segment])).len() == 0,
        crate::text::joined(decoded(Seq::empty())).len() == 0,
{
    assert(decoded(a + b) =~= decoded(a) + decoded(b));
    crate::text::lemma_joined_concatenates(decoded(a), decoded(b));
    let one = decoded(seq![segment]);
    assert(one =~= seq![one[0]]);
    assert(crate::text::joined(seq![one[0]]) == one[0]);
    assert(decoded(Seq::empty()) =~= Seq::<Seq<char>>::empty());
}

/// What is waited for when: any directory first, then any file, then any context, then
/// any state; a context is held from when it was made until it is loaded or given up.
pub proof fn lemma_load_stages(ctx: WhisperContext, event: LoadEvent)
    ensures
        awaits(LoadStage::FindingProgram, event) <==> event is Directory,
        awaits(LoadStage::CheckingFile, event) <==> event is File,
        awaits(LoadStage::MakingContext, event) <==> event is Context,
        awaits(LoadStage::MakingState { ctx }, event) <==> event is State,
        !awaits(LoadStage::Ended, event),
        held_context(LoadStage::MakingState { ctx }) == Some(ctx),
        held_context(LoadStage::FindingProgram) is None,
        held_context(LoadStage::CheckingFile) is None,
        held_context(LoadStage::MakingContext) is None,
        held_context(LoadStage::Ended) is None,
{
}

} // verus!
