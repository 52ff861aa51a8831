//! Collecting what is said into phrases.
//!
//! Frames with speech are collected, and so are the first few frames of silence
//! behind them.  A phrase is over when it was long enough and is followed by
//! enough silence, or when it has become too long.
use vstd::prelude::*;
use vstd::slice::slice_to_vec;

verus! {

/// How many frames of silence end a phrase.
pub const MAX_SILENCE_FRAMES: usize = 25;

/// How many frames of speech a phrase has at least.
pub const MIN_SPEECH_FRAMES: usize = 30;

/// How many frames of speech a phrase has at most.
pub const MAX_BUFFER_FRAMES: usize = 200;

/// How many frames of silence are collected behind speech.
pub const TAIL_FRAMES: usize = 5;

/// A phrase so far.
#[verifier::ext_equal]
pub struct PhraseState {
    pub samples: Seq<u32>,
    /// How many frames of speech there were.
    pub speech: int,
    /// How many frames of silence there were since.
    pub silence: int,
}

/// The phrase with one frame more.
pub open spec fn absorbed(s: PhraseState, frame: Seq<u32>, is_speech: bool) -> PhraseState {
    if is_speech {
        PhraseState { samples: s.samples + frame, speech: s.speech + 1, silence: 0 }
    } else {
        PhraseState {
            samples: if s.speech > 0 && s.silence < TAIL_FRAMES {
                s.samples + frame
            } else {
                s.samples
            },
            speech: s.speech,
            silence: s.silence + 1,
        }
    }
}

/// Whether a phrase is over.
pub open spec fn is_over(s: PhraseState) -> bool {
    ||| s.speech >= MIN_SPEECH_FRAMES && s.silence >= MAX_SILENCE_FRAMES
    ||| s.speech >= MAX_BUFFER_FRAMES
}

/// No phrase.
pub open spec fn no_phrase() -> PhraseState {
    PhraseState { samples: Seq::empty(), speech: 0, silence: 0 }
}

/// Collects frames into phrases.
pub struct PhraseCollector {
    speech_buffer: Vec<u32>,
    silence_frames: usize,
    speech_frames: usize,
}

impl View for PhraseCollector {
    type V = PhraseState;

    closed spec fn view(&self) -> PhraseState {
        PhraseState {
            samples: self.speech_buffer@,
            speech: self.speech_frames as int,
            silence: self.silence_frames as int,
        }
    }
}

impl PhraseCollector {
    /// The phrase so far is not over, and there is nothing in it before the
    /// first frame of speech.
    pub open spec fn wf(&self) -> bool {
        &&& 0 <= self@.speech
        &&& 0 <= self@.silence
        &&& !is_over(self@)
        &&& self@.speech == 0 ==> self@.samples.len() == 0
    }

    /// A collector that has heard nothing.
    pub fn new() -> (r: Self)
        ensures
            r.wf(),
            r@ == no_phrase(),
    {
        PhraseCollector { speech_buffer: Vec::new(), silence_frames: 0, speech_frames: 0 }
    }

    /// How many samples were collected.
    pub fn len(&self) -> (n: usize)
        ensures
            n == self@.samples.len(),
    {
        self.speech_buffer.len()
    }

    /// How many frames of speech were collected.
    pub fn speech_frames(&self) -> (n: usize)
        ensures
            n == self@.speech,
    {
        self.speech_frames
    }

    /// Whether another frame of silence can be counted.
    pub fn can_push(&self) -> (b: bool)
        ensures
            b == (self@.silence < usize::MAX),
    {
        self.silence_frames < usize::MAX
    }

    /// Takes a frame, and returns the phrase when it is over with it.  A frame
    /// that is empty changes nothing.
    pub fn push(&mut self, frame: &[u32], is_speech: bool) -> (phrase: Option<Vec<u32>>)
        requires
            old(self).wf(),
            old(self)@.silence < usize::MAX,
        ensures
            final(self).wf(),
            ({
                let after = absorbed(old(self)@, frame@, is_speech);
                if frame@.len() == 0 {
                    phrase is None && final(self)@ == old(self)@
                } else if is_over(after) {
                    &&& phrase matches Some(samples)
                    &&& samples@ == after.samples
                    &&& final(self)@ == no_phrase()
                } else {
                    phrase is None && final(self)@ == after
                }
            }),
    {
        if frame.len() == 0 {
            return None;
        }
        if is_speech {
            let mut more: Vec<u32> = slice_to_vec(frame);
            self.speech_buffer.append(&mut more);
            self.speech_frames = self.speech_frames + 1;
            self.silence_frames = 0;
        } else {
            self.silence_frames = self.silence_frames + 1;
            if self.speech_frames > 0 && self.silence_frames <= TAIL_FRAMES {
                let mut more: Vec<u32> = slice_to_vec(frame);
                self.speech_buffer.append(&mut more);
            }
        }
        let end_of_phrase: bool = self.silence_frames >= MAX_SILENCE_FRAMES && self.speech_frames
            >= MIN_SPEECH_FRAMES;
        let buffer_full: bool = self.speech_frames >= MAX_BUFFER_FRAMES;
        if (end_of_phrase || buffer_full) && self.speech_frames > 0 {
            let mut samples: Vec<u32> = Vec::new();
            std::mem::swap(&mut samples, &mut self.speech_buffer);
            self.speech_frames = 0;
            self.silence_frames = 0;
            Some(samples)
        } else {
            None
        }
    }
}

/// The phrase so far after a run of frames, none of them empty; where a phrase
/// was over, the next one starts.
pub open spec fn phrase_after(frames: Seq<(Seq<u32>, bool)>) -> PhraseState
    decreases frames.len(),
{
    if frames.len() == 0 {
        no_phrase()
    } else {
        let after = absorbed(
            phrase_after(frames.drop_last()),
            frames.last().0,
            frames.last().1,
        );
        if is_over(after) {
            no_phrase()
        } else {
            after
        }
    }
}

/// The phrase that the last frame of a run may end.
pub open spec fn phrase_with(frames: Seq<(Seq<u32>, bool)>) -> PhraseState {
    absorbed(phrase_after(frames.drop_last()), frames.last().0, frames.last().1)
}

/// Every phrase that is over has at least [`MIN_SPEECH_FRAMES`] and at most
/// [`MAX_BUFFER_FRAMES`] frames of speech, and is no longer than six times the
/// most that these can be.
pub proof fn lemma_phrase_is_bounded(frames: Seq<(Seq<u32>, bool)>, frame_len: nat)
    requires
        frames.len() > 0,
        forall|i: int| 0 <= i < frames.len() ==> (#[trigger] frames[i]).0.len() <= frame_len,
        is_over(phrase_with(frames)),
    ensures
        MIN_SPEECH_FRAMES <= phrase_with(frames).speech <= MAX_BUFFER_FRAMES,
        phrase_with(frames).samples.len() <= 6 * MAX_BUFFER_FRAMES * frame_len,
{
    let before = frames.drop_last();
    assert forall|i: int| 0 <= i < before.len() implies (#[trigger] before[i]).0.len()
        <= frame_len by {
        assert(before[i] == frames[i]);
    }
    lemma_frames_collected(before, frame_len);
    let s = phrase_after(before);
    assert(frames[frames.len() - 1].0.len() <= frame_len);
    lemma_absorbed_frames(s, frames.last().0, frames.last().1, frame_len);
    let t = phrase_with(frames);
    assert(collected_frames(t) * frame_len <= 6 * MAX_BUFFER_FRAMES * frame_len)
        by (nonlinear_arith)
        requires
            collected_frames(t) <= 6 * MAX_BUFFER_FRAMES,
    ;
}

/// Silence alone collects nothing, and no phrase is ever over with it.
pub proof fn lemma_silence_is_no_phrase(frames: Seq<(Seq<u32>, bool)>)
    requires
        forall|i: int| 0 <= i < frames.len() ==> !(#[trigger] frames[i]).1,
    ensures
        phrase_after(frames) == (PhraseState {
            samples: Seq::empty(),
            speech: 0,
            silence: frames.len() as int,
        }),
        frames.len() > 0 ==> !is_over(phrase_with(frames)),
    decreases frames.len(),
{
    if frames.len() > 0 {
        let before = frames.drop_last();
        assert forall|i: int| 0 <= i < before.len() implies !(#[trigger] before[i]).1 by {
            assert(before[i] == frames[i]);
        }
        lemma_silence_is_no_phrase(before);
        assert(!frames[frames.len() - 1].1);
    }
}

/// The phrase with a run of frames more, all of them speech or all silence.
pub open spec fn absorbed_all(
    s: PhraseState,
    frames: Seq<Seq<u32>>,
    is_speech: bool,
) -> PhraseState
    decreases frames.len(),
{
    if frames.len() == 0 {
        s
    } else {
        absorbed(absorbed_all(s, frames.drop_last(), is_speech), frames.last(), is_speech)
    }
}

/// All that is said is collected, in order and one frame behind the other.
pub proof fn lemma_speech_is_collected(s: PhraseState, frames: Seq<Seq<u32>>)
    requires
        frames.len() > 0,
    ensures
        absorbed_all(s, frames, true) == (PhraseState {
            samples: s.samples + frames.flatten(),
            speech: s.speech + frames.len(),
            silence: 0,
        }),
    decreases frames.len(),
{
    let before = frames.drop_last();
    assert(frames =~= before.push(frames.last()));
    before.lemma_flatten_push(frames.last());
    if before.len() > 0 {
        lemma_speech_is_collected(s, before);
    } else {
        assert(before.flatten() =~= Seq::empty());
        assert(absorbed_all(s, before, true) == s);
    }
    assert(absorbed_all(s, frames, true).samples =~= s.samples + frames.flatten());
}

/// Of a pause, the first [`TAIL_FRAMES`] frames are collected and the others are
/// not, and a phrase of at least [`MIN_SPEECH_FRAMES`] frames of speech is over
/// with the frame number [`MAX_SILENCE_FRAMES`] of the pause; a shorter one is not
/// over with any.
pub proof fn lemma_pause(s: PhraseState, pause: Seq<Seq<u32>>)
    requires
        0 < s.speech < MAX_BUFFER_FRAMES,
        s.silence == 0,
    ensures
        absorbed_all(s, pause, false) == (PhraseState {
            samples: s.samples + pause.take(
                if pause.len() < TAIL_FRAMES {
                    pause.len() as int
                } else {
                    TAIL_FRAMES as int
                },
            ).flatten(),
            speech: s.speech,
            silence: pause.len() as int,
        }),
        is_over(absorbed_all(s, pause, false)) <==> s.speech >= MIN_SPEECH_FRAMES && pause.len()
            >= MAX_SILENCE_FRAMES,
    decreases pause.len(),
{
    if pause.len() == 0 {
        assert(pause.take(0).flatten() =~= Seq::empty());
        assert(s.samples + Seq::empty() =~= s.samples);
    } else {
        let before = pause.drop_last();
        lemma_pause(s, before);
        if pause.len() <= TAIL_FRAMES {
            assert(before.take(before.len() as int) =~= before);
            assert(pause.take(pause.len() as int) =~= before.push(pause.last()));
            before.lemma_flatten_push(pause.last());
            assert(s.samples + before.push(pause.last()).flatten() =~= s.samples
                + before.flatten() + pause.last());
        } else {
            assert(before.take(TAIL_FRAMES as int) =~= pause.take(TAIL_FRAMES as int));
        }
    }
}

/// How many frames a phrase holds at most: those of speech, the silence between
/// them as far as it was collected, and that behind them.
spec fn collected_frames(s: PhraseState) -> int {
    if s.speech == 0 {
        0
    } else {
        6 * (s.speech - 1) + 1 + if s.silence < TAIL_FRAMES {
            s.silence
        } else {
            TAIL_FRAMES as int
        }
    }
}

proof fn lemma_absorbed_frames(s: PhraseState, frame: Seq<u32>, is_speech: bool, frame_len: nat)
    requires
        0 <= s.speech,
        0 <= s.silence,
        s.samples.len() <= collected_frames(s) * frame_len,
        frame.len() <= frame_len,
    ensures
        ({
            let t = absorbed(s, frame, is_speech);
            t.samples.len() <= collected_frames(t) * frame_len
        }),
{
    let t = absorbed(s, frame, is_speech);
    let a = collected_frames(s);
    let b = collected_frames(t);
    assert((a + 1) * frame_len == a * frame_len + frame_len) by (nonlinear_arith);
    assert(a + 1 <= b ==> (a + 1) * frame_len <= b * frame_len) by (nonlinear_arith);
    assert(a <= b ==> a * frame_len <= b * frame_len) by (nonlinear_arith);
}

proof fn lemma_frames_collected(frames: Seq<(Seq<u32>, bool)>, frame_len: nat)
    requires
        forall|i: int| 0 <= i < frames.len() ==> (#[trigger] frames[i]).0.len() <= frame_len,
    ensures
        ({
            let s = phrase_after(frames);
            &&& 0 <= s.speech < MAX_BUFFER_FRAMES
            &&& 0 <= s.silence
            &&& s.samples.len() <= collected_frames(s) * frame_len
        }),
    decreases frames.len(),
{
    if frames.len() > 0 {
        let before = frames.drop_last();
        assert forall|i: int| 0 <= i < before.len() implies (#[trigger] before[i]).0.len()
            <= frame_len by {
            assert(before[i] == frames[i]);
        }
        lemma_frames_collected(before, frame_len);
        assert(frames[frames.len() - 1].0.len() <= frame_len);
        lemma_absorbed_frames(
            phrase_after(before),
            frames.last().0,
            frames.last().1,
            frame_len,
        );
    }
    assert(0 * frame_len == 0) by (nonlinear_arith);
}

/// While only speech comes, a phrase is over with the frame of speech with which it has
/// [`MAX_BUFFER_FRAMES`], and not before.
pub proof fn lemma_long_phrase(s: PhraseState, frames: Seq<Seq<u32>>)
    requires
        frames.len() > 0,
    ensures
        is_over(absorbed_all(s, frames, true)) <==> s.speech + frames.len() >= 200,
{
    lemma_speech_is_collected(s, frames);
}

/// Silence before anything was said is counted and not collected; silence in a pause
/// counts on, and only what is said starts the count again.
pub proof fn lemma_silence_counts(s: PhraseState, frame: Seq<u32>)
    requires
        0 <= s.speech,
        0 <= s.silence,
    ensures
        ({
            let t = absorbed(s, frame, false);
            &&& (t.speech, t.silence) == (s.speech, s.silence + 1)
            &&& s.speech == 0 || s.silence >= 5 ==> t.samples == s.samples
            &&& s.speech > 0 && s.silence < 5 ==> t.samples == s.samples + frame
        }),
        is_over(s) <==> s.speech >= 200 || (s.speech >= 30 && s.silence >= 25),
{
}

} // verus!
