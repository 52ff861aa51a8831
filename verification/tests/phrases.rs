use voice_assistant::cpu::enable_denormal_protection;
use voice_assistant::phrase::PhraseCollector;

/// Pushes `count` frames that all hold `sample` once, and returns the phrases that
/// are over with them.
fn push(c: &mut PhraseCollector, count: usize, sample: u32, is_speech: bool) -> Vec<Vec<u32>> {
    let mut phrases: Vec<Vec<u32>> = vec![];
    for _ in 0..count {
        assert!(c.can_push());
        phrases.extend(c.push(&[sample], is_speech));
    }
    phrases
}

#[test]
fn silence_alone_collects_nothing() {
    let mut c = PhraseCollector::new();
    assert!(push(&mut c, 1000, 1, false).is_empty());
    assert_eq!((c.len(), c.speech_frames()), (0, 0));
}

#[test]
fn a_pause_ends_a_phrase() {
    let mut c = PhraseCollector::new();
    assert!(push(&mut c, 30, 1, true).is_empty());
    assert!(push(&mut c, 24, 2, false).is_empty());
    assert_eq!((c.len(), c.speech_frames()), (35, 30));
    let phrases: Vec<Vec<u32>> = push(&mut c, 1, 3, false);
    let mut expected: Vec<u32> = vec![1; 30];
    expected.extend([2; 5]);
    assert_eq!(phrases, vec![expected]);
    assert_eq!((c.len(), c.speech_frames()), (0, 0));
}

#[test]
fn a_short_sound_waits_for_more() {
    let mut c = PhraseCollector::new();
    assert!(push(&mut c, 29, 1, true).is_empty());
    assert!(push(&mut c, 500, 2, false).is_empty());
    assert_eq!((c.len(), c.speech_frames()), (34, 29));
    assert!(push(&mut c, 1, 1, true).is_empty());
    assert!(push(&mut c, 24, 2, false).is_empty());
    assert_eq!(push(&mut c, 1, 2, false)[0].len(), 40);
}

#[test]
fn a_long_phrase_is_cut() {
    let mut c = PhraseCollector::new();
    assert!(push(&mut c, 199, 1, true).is_empty());
    assert_eq!(push(&mut c, 1, 1, true), vec![vec![1; 200]]);
    assert_eq!(c.len(), 0);
}

#[test]
fn pauses_within_a_phrase_are_cut_short() {
    let mut c = PhraseCollector::new();
    push(&mut c, 20, 1, true);
    push(&mut c, 24, 2, false);
    push(&mut c, 20, 3, true);
    let phrases: Vec<Vec<u32>> = push(&mut c, 25, 4, false);
    let mut expected: Vec<u32> = vec![1; 20];
    expected.extend([2; 5]);
    expected.extend([3; 20]);
    expected.extend([4; 5]);
    assert_eq!(phrases, vec![expected]);
}

#[test]
fn no_phrase_is_longer_than_its_bound() {
    let mut c = PhraseCollector::new();
    let mut phrases: Vec<Vec<u32>> = vec![];
    for _ in 0..200 {
        phrases.extend(push(&mut c, 1, 1, true));
        phrases.extend(push(&mut c, 6, 2, false));
    }
    assert_eq!(phrases.len(), 1);
    assert_eq!(phrases[0].len(), 6 * 199 + 1);
}

#[test]
fn empty_frames_do_not_count() {
    let mut c = PhraseCollector::new();
    push(&mut c, 30, 1, true);
    for _ in 0..100 {
        assert_eq!(c.push(&[], false), None);
    }
    assert_eq!(push(&mut c, 25, 2, false).len(), 1);
}

#[test]
fn denormal_numbers_are_kept_out_and_nothing_else_changes() {
    assert_eq!(enable_denormal_protection(0), (1 << 15) | (1 << 6));
    assert_eq!(enable_denormal_protection(0x1f80), 0x9fc0);
    assert_eq!(enable_denormal_protection(0x9fc0), 0x9fc0);
    assert_eq!(enable_denormal_protection(u32::MAX), u32::MAX);
}
