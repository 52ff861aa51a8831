//! The way of a block of samples from the microphone to the recogniser.
//!
//! A block of interleaved channels is mixed down to one, freed of its constant
//! part, brought to another rate, levelled, and searched for speech.  The
//! pipeline decides what is done in which order; the arithmetic on samples is
//! asked for step by step.
use vstd::prelude::*;
use vstd::slice::slice_to_vec;
use crate::agc::{Agc, AgcEvent, AgcEventView, AgcRequest, AgcRequestView};
use crate::resample::{Resampler, Tap};
use crate::vad::{Vad, VadEvent, VadEventView, VadRequest, VadRequestView};

verus! {

/// What a [`DspPipeline`] waits for.
#[derive(Clone, Copy, Debug, PartialEq, Eq, Structural)]
pub enum DspStage {
    /// The next block.
    Idle,
    /// One sample for each frame.
    Mixing,
    /// The same samples with their mean subtracted from each.
    Centering,
    /// One sample for each tap.
    Interpolating,
    /// What the gain control asked for.
    Levelling,
    /// What the speech detector asked for.
    Detecting,
}

/// What a [`DspPipeline`] is told.
#[derive(Debug)]
pub enum DspEvent {
    /// A block of interleaved samples has come in.
    Input(Vec<u32>),
    /// The channels of each frame mixed into one sample.
    Mixed(Vec<u32>),
    /// The mixed samples with their mean subtracted from each.
    Centered(Vec<u32>),
    /// The sample that each tap comes to.
    Interpolated(Vec<u32>),
    /// What the gain control asked for.
    Agc(AgcEvent),
    /// What the speech detector asked for.
    Vad(VadEvent),
}

/// What a [`DspPipeline`] is told, as contracts speak of it.
#[verifier::ext_equal]
pub enum DspEventView {
    Input(Seq<u32>),
    Mixed(Seq<u32>),
    Centered(Seq<u32>),
    Interpolated(Seq<u32>),
    Agc(AgcEventView),
    Vad(VadEventView),
}

impl View for DspEvent {
    type V = DspEventView;

    open spec fn view(&self) -> DspEventView {
        match self {
            DspEvent::Input(block) => DspEventView::Input(block@),
            DspEvent::Mixed(mono) => DspEventView::Mixed(mono@),
            DspEvent::Centered(mono) => DspEventView::Centered(mono@),
            DspEvent::Interpolated(out) => DspEventView::Interpolated(out@),
            DspEvent::Agc(event) => DspEventView::Agc(event@),
            DspEvent::Vad(event) => DspEventView::Vad(event@),
        }
    }
}

/// What a [`DspPipeline`] asks for.
#[derive(Debug)]
pub enum DspRequest {
    /// Half the sum of each pair.
    MixPairs(Vec<(u32, u32)>),
    /// The mean of each frame.
    MixFrames(Vec<Vec<u32>>),
    /// Subtract from each sample the mean of all.
    Center(Vec<u32>),
    /// The sample between the two of each tap, at its phase out of `ratio_den`.
    Interpolate { taps: Vec<Tap>, ratio_den: u32 },
    /// What the gain control asks for.
    Agc(AgcRequest),
    /// What the speech detector asks for.
    Vad(VadRequest),
    /// The block is done: what it became, and whether that is speech.
    Done { output: Vec<u32>, speech: bool },
}

/// What a [`DspPipeline`] asks for, as contracts speak of it.
#[verifier::ext_equal]
pub enum DspRequestView {
    MixPairs(Seq<(u32, u32)>),
    MixFrames(Seq<Seq<u32>>),
    Center(Seq<u32>),
    Interpolate { taps: Seq<Tap>, ratio_den: int },
    Agc(AgcRequestView),
    Vad(VadRequestView),
    Done { output: Seq<u32>, speech: bool },
}

impl View for DspRequest {
    type V = DspRequestView;

    open spec fn view(&self) -> DspRequestView {
        match self {
            DspRequest::MixPairs(pairs) => DspRequestView::MixPairs(pairs@),
            DspRequest::MixFrames(frames) => DspRequestView::MixFrames(
                frames@.map_values(|frame: Vec<u32>| frame@),
            ),
            DspRequest::Center(mono) => DspRequestView::Center(mono@),
            DspRequest::Interpolate { taps, ratio_den } => DspRequestView::Interpolate {
                taps: taps@,
                ratio_den: *ratio_den as int,
            },
            DspRequest::Agc(request) => DspRequestView::Agc(request@),
            DspRequest::Vad(request) => DspRequestView::Vad(request@),
            DspRequest::Done { output, speech } => DspRequestView::Done {
                output: output@,
                speech: *speech,
            },
        }
    }
}

/// How many whole frames of `channels` samples there are in `samples` samples.
pub open spec fn whole_frames(samples: int, channels: int) -> int {
    if channels == 0 {
        0
    } else {
        samples / channels
    }
}

/// The frames of a block of two channels.
pub open spec fn pairs_in(block: Seq<u32>) -> Seq<(u32, u32)> {
    Seq::new(block.len() / 2, |i: int| (block[2 * i], block[2 * i + 1]))
}

/// The samples of the frame `i`.
pub open spec fn frame_at(block: Seq<u32>, channels: int, i: int) -> Seq<u32> {
    block.subrange(i * channels, (i + 1) * channels)
}

/// The frames of a block of `channels` channels.
pub open spec fn frames_in(block: Seq<u32>, channels: int) -> Seq<Seq<u32>> {
    Seq::new(
        whole_frames(block.len() as int, channels) as nat,
        |i: int| frame_at(block, channels, i),
    )
}

/// What a [`DspPipeline`] remembers.
#[verifier::ext_equal]
pub struct DspState {
    pub resampler: crate::resample::ResamplerState,
    pub agc: crate::agc::AgcState,
    pub vad: crate::vad::VadState,
    /// Whether speech is searched for.
    pub detects: bool,
    /// How many channels are interleaved in a block.
    pub channels: int,
    /// What is waited for.
    pub stage: DspStage,
    /// How many samples the pipeline itself has asked for.
    pub asked: int,
    /// The block that is searched for speech.
    pub levelled: Seq<u32>,
}

/// The state of a pipeline that has processed nothing.
pub open spec fn first_state(
    in_rate: u32,
    out_rate: u32,
    channels: usize,
    enable_vad: bool,
) -> DspState {
    DspState {
        resampler: crate::resample::first_state(in_rate, out_rate),
        agc: crate::agc::first_state(),
        vad: crate::vad::first_state(),
        detects: enable_vad,
        channels: channels as int,
        stage: DspStage::Idle,
        asked: 0,
        levelled: Seq::empty(),
    }
}

/// The gain control and the speech detector are at work in their own stage only,
/// and only on a block that is not empty.
pub open spec fn is_valid(s: DspState) -> bool {
    &&& crate::vad::is_valid(s.vad)
    &&& 0 <= s.channels
    &&& s.stage == DspStage::Levelling <==> s.agc.stage != crate::agc::AgcStage::Idle
    &&& s.stage == DspStage::Detecting <==> s.vad.stage != crate::vad::VadStage::Idle
    &&& s.stage == DspStage::Interpolating ==> s.asked > 0
    &&& s.stage == DspStage::Levelling ==> s.agc.frame.len() > 0
    &&& s.stage == DspStage::Detecting ==> s.detects && s.levelled.len() > 0
        && crate::agc::is_limited(s.levelled)
}

/// Whether an event is what is waited for, of the length that was asked for.
pub open spec fn awaits(s: DspState, event: DspEventView) -> bool {
    match event {
        DspEventView::Input(_) => s.stage == DspStage::Idle,
        DspEventView::Mixed(mono) => s.stage == DspStage::Mixing && mono.len() == s.asked,
        DspEventView::Centered(mono) => s.stage == DspStage::Centering && mono.len() == s.asked,
        DspEventView::Interpolated(out) => s.stage == DspStage::Interpolating && out.len()
            == s.asked,
        DspEventView::Agc(event) => s.stage == DspStage::Levelling && crate::agc::awaits(
            s.agc,
            event,
        ),
        DspEventView::Vad(event) => s.stage == DspStage::Detecting && crate::vad::awaits(
            s.vad,
            event,
        ),
    }
}

/// Whether the resampler's phase can count the samples that an event brings.
pub open spec fn can_count(s: DspState, event: DspEventView) -> bool {
    event matches DspEventView::Centered(mono) ==> crate::resample::can_count(
        s.resampler,
        mono.len() as int,
    )
}

/// Nothing came of a block.
pub open spec fn nothing() -> DspRequestView {
    DspRequestView::Done { output: Seq::empty(), speech: false }
}

/// A block is cut into frames; one channel needs no mixing.
pub open spec fn after_input(s: DspState, block: Seq<u32>) -> (DspState, DspRequestView) {
    let frames = whole_frames(block.len() as int, s.channels);
    if frames == 0 {
        (s, nothing())
    } else if s.channels == 1 {
        (
            DspState { stage: DspStage::Centering, asked: frames, ..s },
            DspRequestView::Center(block),
        )
    } else if s.channels == 2 {
        (
            DspState { stage: DspStage::Mixing, asked: frames, ..s },
            DspRequestView::MixPairs(pairs_in(block)),
        )
    } else {
        (
            DspState { stage: DspStage::Mixing, asked: frames, ..s },
            DspRequestView::MixFrames(frames_in(block, s.channels)),
        )
    }
}

/// The output samples that are due are asked for; where none is, the block is
/// done.
pub open spec fn after_centered(s: DspState, mono: Seq<u32>) -> (DspState, DspRequestView) {
    let due = crate::resample::taps(s.resampler, mono);
    let resampler = crate::resample::advance(s.resampler, mono);
    if due.len() == 0 {
        (DspState { resampler, stage: DspStage::Idle, asked: 0, ..s }, nothing())
    } else {
        (
            DspState {
                resampler,
                stage: DspStage::Interpolating,
                asked: due.len() as int,
                ..s
            },
            DspRequestView::Interpolate { taps: due, ratio_den: s.resampler.den },
        )
    }
}

/// The gain control takes its step; a levelled block is handed to the speech
/// detector, or is speech where none is searched for.
pub open spec fn after_agc(s: DspState, event: AgcEventView) -> (DspState, DspRequestView) {
    let (agc, request) = crate::agc::next(s.agc, event);
    match request {
        AgcRequestView::Done(out) => if s.detects {
            let (vad, request) = crate::vad::next(s.vad, VadEventView::Frame(out));
            (
                DspState { agc, vad, stage: DspStage::Detecting, levelled: out, ..s },
                DspRequestView::Vad(request),
            )
        } else {
            (
                DspState { agc, stage: DspStage::Idle, ..s },
                DspRequestView::Done { output: out, speech: true },
            )
        },
        _ => (DspState { agc, ..s }, DspRequestView::Agc(request)),
    }
}

/// The speech detector takes its step; when it has decided, the block is done.
pub open spec fn after_vad(s: DspState, event: VadEventView) -> (DspState, DspRequestView) {
    let (vad, request) = crate::vad::next(s.vad, event);
    match request {
        VadRequestView::Done(speech) => (
            DspState { vad, stage: DspStage::Idle, levelled: Seq::empty(), ..s },
            DspRequestView::Done { output: s.levelled, speech },
        ),
        _ => (DspState { vad, ..s }, DspRequestView::Vad(request)),
    }
}

/// What a state and an event lead to: the next state and request.
pub open spec fn next(s: DspState, event: DspEventView) -> (DspState, DspRequestView) {
    match event {
        DspEventView::Input(block) => after_input(s, block),
        DspEventView::Mixed(mono) => (
            DspState { stage: DspStage::Centering, asked: mono.len() as int, ..s },
            DspRequestView::Center(mono),
        ),
        DspEventView::Centered(mono) => after_centered(s, mono),
        DspEventView::Interpolated(out) => {
            let (agc, request) = crate::agc::next(s.agc, AgcEventView::Frame(out));
            (
                DspState { agc, stage: DspStage::Levelling, asked: 0, ..s },
                DspRequestView::Agc(request),
            )
        },
        DspEventView::Agc(event) => after_agc(s, event),
        DspEventView::Vad(event) => after_vad(s, event),
    }
}

/// Takes blocks of samples through all steps.
pub struct DspPipeline {
    resampler: Resampler,
    agc: Agc,
    vad: Vad,
    enable_vad: bool,
    channels: usize,
    stage: DspStage,
    asked: usize,
    output: Vec<u32>,
}

impl View for DspPipeline {
    type V = DspState;

    closed spec fn view(&self) -> DspState {
        DspState {
            resampler: self.resampler@,
            agc: self.agc@,
            vad: self.vad@,
            detects: self.enable_vad,
            channels: self.channels as int,
            stage: self.stage,
            asked: self.asked as int,
            levelled: self.output@,
        }
    }
}

impl DspPipeline {
    /// The state is one that a pipeline can be in.
    pub open spec fn wf(&self) -> bool {
        is_valid(self@)
    }

    /// A pipeline from `in_rate` to `out_rate` for blocks of `channels`
    /// interleaved channels.
    pub fn new(in_rate: u32, out_rate: u32, channels: usize, enable_vad: bool) -> (r: Self)
        requires
            in_rate != 0 || out_rate != 0,
            in_rate * 2 <= usize::MAX,
        ensures
            r.wf(),
            r@ == first_state(in_rate, out_rate, channels, enable_vad),
            crate::resample::is_gcd(
                crate::resample::gcd_of(in_rate as int, out_rate as int),
                in_rate as int,
                out_rate as int,
            ),
            in_rate > 0 ==> crate::resample::has_ratio(r@.resampler),
    {
        let r = DspPipeline {
            resampler: Resampler::new(in_rate, out_rate),
            agc: Agc::new(),
            vad: Vad::new(),
            enable_vad,
            channels,
            stage: DspStage::Idle,
            asked: 0,
            output: Vec::new(),
        };
        assert(r@.levelled =~= Seq::empty());
        r
    }

    /// Whether `event` is what is waited for, of the length that was asked for, and
    /// can be counted.
    pub fn is_awaiting(&self, event: &DspEvent) -> (b: bool)
        ensures
            b == (awaits(self@, event@) && can_count(self@, event@)),
    {
        match event {
            DspEvent::Input(_) => self.stage == DspStage::Idle,
            DspEvent::Mixed(mono) => self.stage == DspStage::Mixing && mono.len() == self.asked,
            DspEvent::Centered(mono) => self.stage == DspStage::Centering && mono.len()
                == self.asked && self.resampler.can_take(mono.len()),
            DspEvent::Interpolated(out) => self.stage == DspStage::Interpolating && out.len()
                == self.asked,
            DspEvent::Agc(event) => self.stage == DspStage::Levelling && self.agc.is_awaiting(
                event,
            ),
            DspEvent::Vad(event) => self.stage == DspStage::Detecting && self.vad.is_awaiting(
                event,
            ),
        }
    }

    /// Takes one step.
    ///
    /// A block without a whole frame, and one for which no output sample is due
    /// yet, comes to nothing and is no speech.
    pub fn process(&mut self, event: DspEvent) -> (request: DspRequest)
        requires
            old(self).wf(),
            awaits(old(self)@, event@),
            can_count(old(self)@, event@),
        ensures
            final(self).wf(),
            (final(self)@, request@) == next(old(self)@, event@),
            event matches DspEvent::Input(block) ==> {
                let channels = old(self)@.channels;
                &&& request matches DspRequest::MixPairs(pairs) ==> {
                    &&& channels == 2
                    &&& 2 * pairs@.len() <= block@.len() < 2 * pairs@.len() + 2
                    &&& forall|i: int|
                        0 <= i < pairs@.len() ==> #[trigger] pairs@[i] == (
                            block@[2 * i],
                            block@[2 * i + 1],
                        )
                }
                &&& request matches DspRequest::Center(mono) ==> channels == 1 && mono@ == block@
                &&& request matches DspRequest::MixFrames(_) ==> channels > 2
                &&& request matches DspRequest::Done { output, speech } ==> channels == 0
                    || block@.len() < channels
            },
            event matches DspEvent::Mixed(mono) ==> (request matches DspRequest::Center(same)
                && same@ == mono@),
            event matches DspEvent::Interpolated(out) ==> (request matches DspRequest::Agc(
                AgcRequest::Measure { frame, target },
            ) && frame@ == out@ && target == 0xc1a0_0000),
    {
        proof {
            lemma_step(self@, event@);
            if let DspEventView::Input(block) = event@ {
                lemma_input(self@, block);
            }
        }
        match event {
            DspEvent::Input(block) => self.split(block),
            DspEvent::Mixed(mono) => {
                self.stage = DspStage::Centering;
                self.asked = mono.len();
                DspRequest::Center(mono)
            },
            DspEvent::Centered(mono) => {
                let taps: Vec<Tap> = self.resampler.process(mono.as_slice());
                if taps.len() == 0 {
                    self.stage = DspStage::Idle;
                    self.asked = 0;
                    DspRequest::Done { output: Vec::new(), speech: false }
                } else {
                    self.stage = DspStage::Interpolating;
                    self.asked = taps.len();
                    DspRequest::Interpolate { taps, ratio_den: self.resampler.ratio_den() }
                }
            },
            DspEvent::Interpolated(out) => {
                self.stage = DspStage::Levelling;
                self.asked = 0;
                DspRequest::Agc(self.agc.process(AgcEvent::Frame(out)))
            },
            DspEvent::Agc(event) => {
                match self.agc.process(event) {
                    AgcRequest::Done(out) => {
                        if self.enable_vad {
                            self.stage = DspStage::Detecting;
                            self.output = slice_to_vec(out.as_slice());
                            DspRequest::Vad(self.vad.process(VadEvent::Frame(out)))
                        } else {
                            self.stage = DspStage::Idle;
                            DspRequest::Done { output: out, speech: true }
                        }
                    },
                    request => DspRequest::Agc(request),
                }
            },
            DspEvent::Vad(event) => {
                match self.vad.process(event) {
                    VadRequest::Done(speech) => {
                        self.stage = DspStage::Idle;
                        let mut output: Vec<u32> = Vec::new();
                        std::mem::swap(&mut output, &mut self.output);
                        DspRequest::Done { output, speech }
                    },
                    request => DspRequest::Vad(request),
                }
            },
        }
    }

    /// Cuts a block into frames.
    fn split(&mut self, block: Vec<u32>) -> (request: DspRequest)
        ensures
            (final(self)@, request@) == after_input(old(self)@, block@),
    {
        if block.len() == 0 || self.channels == 0 {
            assert(0int / (self.channels as int) == 0 || self.channels == 0) by (nonlinear_arith);
            return DspRequest::Done { output: Vec::new(), speech: false };
        }
        let frames: usize = block.len() / self.channels;
        if frames == 0 {
            return DspRequest::Done { output: Vec::new(), speech: false };
        }
        self.asked = frames;
        if self.channels == 1 {
            self.stage = DspStage::Centering;
            DspRequest::Center(block)
        } else if self.channels == 2 {
            self.stage = DspStage::Mixing;
            DspRequest::MixPairs(pairs_of(&block))
        } else {
            self.stage = DspStage::Mixing;
            DspRequest::MixFrames(frames_of(&block, self.channels))
        }
    }
}

/// The frames of a block of two channels.
fn pairs_of(block: &Vec<u32>) -> (pairs: Vec<(u32, u32)>)
    ensures
        pairs@ == pairs_in(block@),
{
    let samples: usize = block.len();
    let frames: usize = samples / 2;
    let mut pairs: Vec<(u32, u32)> = Vec::new();
    let mut i: usize = 0;
    while i < frames
        invariant
            samples == block@.len(),
            0 <= i <= frames == samples / 2,
            pairs@.len() == i,
            forall|j: int| 0 <= j < i ==> #[trigger] pairs@[j] == (block@[2 * j], block@[2 * j + 1]),
        decreases frames - i,
    {
        pairs.push((block[2 * i], block[2 * i + 1]));
        i = i + 1;
    }
    pairs
}

/// The frames of a block of `channels` channels.
fn frames_of(block: &Vec<u32>, channels: usize) -> (frames: Vec<Vec<u32>>)
    requires
        channels > 0,
    ensures
        frames@.map_values(|frame: Vec<u32>| frame@) == frames_in(block@, channels as int),
{
    let samples: usize = block.len();
    let count: usize = samples / channels;
    let mut frames: Vec<Vec<u32>> = Vec::new();
    let mut i: usize = 0;
    while i < count
        invariant
            samples == block@.len(),
            0 <= i <= count == samples / channels,
            0 < channels,
            frames@.len() == i,
            forall|j: int|
                0 <= j < i ==> (#[trigger] frames@[j])@ == frame_at(block@, channels as int, j),
        decreases count - i,
    {
        proof {
            assert(0 <= i * channels && (i + 1) * channels == i * channels + channels)
                by (nonlinear_arith);
            assert((i + 1) * channels <= samples) by (nonlinear_arith)
                requires
                    i + 1 <= samples / channels,
                    0 < channels,
            ;
        }
        let start: usize = i * channels;
        let mut frame: Vec<u32> = Vec::new();
        let mut c: usize = 0;
        while c < channels
            invariant
                0 <= c <= channels,
                start == i * channels,
                start + channels <= samples == block@.len(),
                frame@ == block@.subrange(start as int, start + c),
            decreases channels - c,
        {
            frame.push(block[start + c]);
            assert(frame@ =~= block@.subrange(start as int, start + c + 1));
            c = c + 1;
        }
        frames.push(frame);
        i = i + 1;
    }
    frames
}

/// How many steps there are at most until a block is done, the next one among
/// them.
pub open spec fn steps_left(s: DspState) -> nat {
    match s.stage {
        DspStage::Idle => 12,
        DspStage::Mixing => 11,
        DspStage::Centering => 10,
        DspStage::Interpolating => 9,
        DspStage::Levelling => match s.agc.stage {
            crate::agc::AgcStage::Idle => 9,
            crate::agc::AgcStage::Measuring => 8,
            crate::agc::AgcStage::Blending => 7,
            crate::agc::AgcStage::Amplifying => 6,
        },
        DspStage::Detecting => match s.vad.stage {
            crate::vad::VadStage::Idle => 6,
            crate::vad::VadStage::Measuring => 5,
            crate::vad::VadStage::Tracking { .. } => 4,
            crate::vad::VadStage::Gauging { .. } => 3,
            crate::vad::VadStage::Blending => 2,
        },
    }
}

/// Whether an event is of the kind and the length that a request asks for.
pub open spec fn answers(request: DspRequestView, event: DspEventView) -> bool {
    match request {
        DspRequestView::MixPairs(pairs) => event matches DspEventView::Mixed(mono) && mono.len()
            == pairs.len(),
        DspRequestView::MixFrames(frames) => event matches DspEventView::Mixed(mono) && mono.len()
            == frames.len(),
        DspRequestView::Center(mono) => event matches DspEventView::Centered(centered)
            && centered.len() == mono.len(),
        DspRequestView::Interpolate { taps, .. } => event matches DspEventView::Interpolated(out)
            && out.len() == taps.len(),
        DspRequestView::Agc(request) => event matches DspEventView::Agc(event)
            && crate::agc::answers(request, event),
        DspRequestView::Vad(request) => event matches DspEventView::Vad(event)
            && crate::vad::answers(request, event),
        DspRequestView::Done { .. } => true,
    }
}

/// Every step leads to a state that a pipeline can be in.  Until the block is done,
/// what it asks for is what it waits for then, and there is one step less to take.
/// What comes out is never louder than the limit; nothing is no speech, and
/// everything else is where speech is not searched for.
pub proof fn lemma_step(s: DspState, event: DspEventView)
    requires
        is_valid(s),
        awaits(s, event),
    ensures
        ({
            let (t, request) = next(s, event);
            &&& is_valid(t)
            &&& (t.detects, t.channels) == (s.detects, s.channels)
            &&& request !is Done ==> steps_left(t) < steps_left(s) && t.stage != DspStage::Idle
            &&& request !is Done ==> forall|e: DspEventView|
                #[trigger] answers(request, e) ==> awaits(t, e)
            &&& request matches DspRequestView::Done { output, speech } ==> {
                &&& t.stage == DspStage::Idle
                &&& crate::agc::is_limited(output)
                &&& output.len() == 0 ==> !speech
                &&& output.len() > 0 && !s.detects ==> speech
            }
        }),
{
    if let DspEventView::Agc(AgcEventView::Amplified(out)) = event {
        crate::agc::lemma_output_is_limited(out);
    }
    if let DspEventView::Input(block) = event {
        if s.channels > 0 {
            vstd::arithmetic::div_mod::lemma_div_pos_is_pos(block.len() as int, s.channels);
            vstd::arithmetic::div_mod::lemma_div_basics(block.len() as int);
        }
    }
}

/// What a pipeline remembers after an event and all that it asks for then, what the
/// block became, and whether that is speech.
pub open spec fn run(
    s: DspState,
    event: DspEventView,
    arithmetic: spec_fn(DspRequestView) -> DspEventView,
) -> (DspState, Seq<u32>, bool)
    decreases steps_left(s),
    when is_valid(s) && awaits(s, event)
    via run_ends
{
    let (t, request) = next(s, event);
    match request {
        DspRequestView::Done { output, speech } => (t, output, speech),
        _ => run(t, arithmetic(request), arithmetic),
    }
}

#[via_fn]
proof fn run_ends(
    s: DspState,
    event: DspEventView,
    arithmetic: spec_fn(DspRequestView) -> DspEventView,
) {
    lemma_step(s, event);
}

/// What a block leads to.
pub open spec fn run_block(
    s: DspState,
    block: Seq<u32>,
    arithmetic: spec_fn(DspRequestView) -> DspEventView,
) -> (DspState, Seq<u32>, bool) {
    run(s, DspEventView::Input(block), arithmetic)
}

/// Whether every request is answered in kind and in length.
pub open spec fn is_arithmetic(arithmetic: spec_fn(DspRequestView) -> DspEventView) -> bool {
    forall|request: DspRequestView| answers(request, #[trigger] arithmetic(request))
}

/// What a pipeline remembers after a run of blocks.
pub open spec fn after_blocks(
    s: DspState,
    blocks: Seq<Seq<u32>>,
    arithmetic: spec_fn(DspRequestView) -> DspEventView,
) -> DspState
    decreases blocks.len(),
{
    if blocks.len() == 0 {
        s
    } else {
        run_block(after_blocks(s, blocks.drop_last(), arithmetic), blocks.last(), arithmetic).0
    }
}

/// What each of a run of blocks became, and whether it is speech.
pub open spec fn made_of(
    s: DspState,
    blocks: Seq<Seq<u32>>,
    arithmetic: spec_fn(DspRequestView) -> DspEventView,
) -> Seq<(Seq<u32>, bool)>
    decreases blocks.len(),
{
    if blocks.len() == 0 {
        Seq::empty()
    } else {
        let (_, output, speech) = run_block(
            after_blocks(s, blocks.drop_last(), arithmetic),
            blocks.last(),
            arithmetic,
        );
        made_of(s, blocks.drop_last(), arithmetic).push((output, speech))
    }
}

/// Whether two pipelines do the same to the sound, the first of them searching it
/// for speech and the second not.
pub open spec fn same_sound(a: DspState, b: DspState) -> bool {
    &&& a.detects && !b.detects
    &&& a.resampler == b.resampler
    &&& a.agc == b.agc
    &&& a.channels == b.channels
    &&& (a.stage, a.asked) == (b.stage, b.asked)
}

/// Searching for speech never alters the sound: given the same blocks, a pipeline
/// that does returns the same samples as one that does not, and reports speech only
/// where the other does.
pub proof fn lemma_detection_alters_nothing(
    in_rate: u32,
    out_rate: u32,
    channels: usize,
    blocks: Seq<Seq<u32>>,
    arithmetic: spec_fn(DspRequestView) -> DspEventView,
)
    requires
        is_arithmetic(arithmetic),
    ensures
        ({
            let with = made_of(first_state(in_rate, out_rate, channels, true), blocks, arithmetic);
            let without = made_of(
                first_state(in_rate, out_rate, channels, false),
                blocks,
                arithmetic,
            );
            &&& with.len() == without.len() == blocks.len()
            &&& forall|i: int|
                #![trigger with[i]]
                #![trigger without[i]]
                0 <= i < blocks.len() ==> with[i].0 == without[i].0 && (with[i].1 ==> without[i].1)
        }),
{
    lemma_same_blocks(
        first_state(in_rate, out_rate, channels, true),
        first_state(in_rate, out_rate, channels, false),
        blocks,
        arithmetic,
    );
}

/// Two pipelines that do the same to the sound come to the same over a run of
/// blocks.
proof fn lemma_same_blocks(
    a: DspState,
    b: DspState,
    blocks: Seq<Seq<u32>>,
    arithmetic: spec_fn(DspRequestView) -> DspEventView,
)
    requires
        is_valid(a),
        is_valid(b),
        same_sound(a, b),
        a.stage == DspStage::Idle,
        is_arithmetic(arithmetic),
    ensures
        made_of(a, blocks, arithmetic).len() == blocks.len(),
        made_of(b, blocks, arithmetic).len() == blocks.len(),
        forall|i: int|
            #![trigger made_of(a, blocks, arithmetic)[i]]
            #![trigger made_of(b, blocks, arithmetic)[i]]
            0 <= i < blocks.len() ==> {
                let (output, speech) = made_of(a, blocks, arithmetic)[i];
                &&& output == made_of(b, blocks, arithmetic)[i].0
                &&& speech ==> made_of(b, blocks, arithmetic)[i].1
            },
        ({
            let s = after_blocks(a, blocks, arithmetic);
            let t = after_blocks(b, blocks, arithmetic);
            is_valid(s) && is_valid(t) && same_sound(s, t) && s.stage == DspStage::Idle
        }),
    decreases blocks.len(),
{
    if blocks.len() > 0 {
        let front = blocks.drop_last();
        lemma_same_blocks(a, b, front, arithmetic);
        lemma_same_run(
            after_blocks(a, front, arithmetic),
            after_blocks(b, front, arithmetic),
            DspEventView::Input(blocks.last()),
            arithmetic,
        );
    }
}

/// So they do from one event on.
proof fn lemma_same_run(
    a: DspState,
    b: DspState,
    event: DspEventView,
    arithmetic: spec_fn(DspRequestView) -> DspEventView,
)
    requires
        is_valid(a),
        is_valid(b),
        same_sound(a, b),
        a.stage != DspStage::Detecting,
        awaits(a, event),
        is_arithmetic(arithmetic),
    ensures
        ({
            let (s, output, speech) = run(a, event, arithmetic);
            let (t, same_output, said) = run(b, event, arithmetic);
            &&& is_valid(s) && is_valid(t) && same_sound(s, t) && s.stage == DspStage::Idle
            &&& output == same_output
            &&& speech ==> said
        }),
    decreases steps_left(a),
{
    lemma_step(a, event);
    lemma_step(b, event);
    let (s, asked) = next(a, event);
    let (t, same) = next(b, event);
    if s.stage == DspStage::Detecting {
        let out = s.levelled;
        assert(same == DspRequestView::Done { output: out, speech: true });
        assert(answers(asked, arithmetic(asked)));
        lemma_detecting_keeps_sound(s, arithmetic(asked), arithmetic);
    } else if asked !is Done {
        assert(asked == same);
        assert(answers(asked, arithmetic(asked)));
        lemma_same_run(s, t, arithmetic(asked), arithmetic);
    }
}

/// The speech detector leaves the block, the resampler and the gain control as they
/// are.
proof fn lemma_detecting_keeps_sound(
    s: DspState,
    event: DspEventView,
    arithmetic: spec_fn(DspRequestView) -> DspEventView,
)
    requires
        is_valid(s),
        s.stage == DspStage::Detecting,
        awaits(s, event),
        is_arithmetic(arithmetic),
    ensures
        ({
            let (t, output, speech) = run(s, event, arithmetic);
            &&& is_valid(t)
            &&& t.stage == DspStage::Idle
            &&& (t.resampler, t.agc, t.detects, t.channels, t.asked) == (
                s.resampler,
                s.agc,
                s.detects,
                s.channels,
                s.asked,
            )
            &&& output == s.levelled
        }),
    decreases steps_left(s),
{
    lemma_step(s, event);
    let (t, request) = next(s, event);
    if request !is Done {
        assert(answers(request, arithmetic(request)));
        lemma_detecting_keeps_sound(t, arithmetic(request), arithmetic);
    }
}

/// A block is cut into as many frames as it holds whole, each of as many samples as
/// there are channels, and every sample of every whole frame is in the frame and at the
/// place where it was; what is left over is less than a frame.
pub proof fn lemma_input(s: DspState, block: Seq<u32>)
    requires
        0 <= s.channels,
    ensures
        ({
            let (t, request) = next(s, DspEventView::Input(block));
            if s.channels == 0 || block.len() < s.channels {
                t == s && (request == DspRequestView::Done { output: Seq::empty(), speech: false })
            } else {
                &&& (t.resampler, t.agc, t.vad, t.detects, t.channels, t.levelled) == (
                    s.resampler,
                    s.agc,
                    s.vad,
                    s.detects,
                    s.channels,
                    s.levelled,
                )
                &&& s.channels * t.asked <= block.len() < s.channels * t.asked + s.channels
                &&& if s.channels == 1 {
                    request == DspRequestView::Center(block) && t.stage == DspStage::Centering
                } else if s.channels == 2 {
                    &&& t.stage == DspStage::Mixing
                    &&& request matches DspRequestView::MixPairs(pairs)
                    &&& pairs.len() == t.asked
                    &&& forall|i: int|
                        0 <= i < pairs.len() ==> #[trigger] pairs[i] == (
                            block[2 * i],
                            block[2 * i + 1],
                        )
                } else {
                    &&& t.stage == DspStage::Mixing
                    &&& request matches DspRequestView::MixFrames(frames)
                    &&& frames.len() == t.asked
                    &&& forall|i: int|
                        0 <= i < frames.len() ==> (#[trigger] frames[i]).len() == s.channels
                    &&& forall|i: int, c: int|
                        0 <= i < frames.len() && 0 <= c < s.channels ==> #[trigger] frames[i][c]
                            == block[i * s.channels + c]
                }
            }
        }),
{
    let n = block.len() as int;
    let channels = s.channels;
    if channels > 0 {
        vstd::arithmetic::div_mod::lemma_fundamental_div_mod(n, channels);
        vstd::arithmetic::div_mod::lemma_mod_bound(n, channels);
        vstd::arithmetic::div_mod::lemma_div_pos_is_pos(n, channels);
        let q = n / channels;
        if n < channels {
            vstd::arithmetic::div_mod::lemma_small_mod(n as nat, channels as nat);
            assert(q == 0) by (nonlinear_arith)
                requires
                    channels * q == 0,
                    channels > 0,
            ;
        } else {
            assert(q > 0) by (nonlinear_arith)
                requires
                    channels * q + n % channels == n,
                    n % channels < channels <= n,
                    channels > 0,
            ;
        }
        assert((channels == 1 ==> q == n) && (channels == 2 ==> q == n / 2)) by (nonlinear_arith)
            requires
                q == n / channels,
        ;
        let frames = frames_in(block, channels);
        assert forall|i: int| 0 <= i < frames.len() implies (#[trigger] frames[i]).len() == channels
            && forall|c: int|
            0 <= c < channels ==> #[trigger] frames[i][c] == block[i * channels + c] by {
            assert((i + 1) * channels == i * channels + channels && 0 <= i * channels && (i + 1)
                * channels <= channels * q) by (nonlinear_arith)
                requires
                    0 <= i < q,
                    0 < channels,
            ;
        }
    }
}

/// Two blocks of whole frames are cut as one block of both is: where a block ends
/// between two frames makes no difference to the frames.
pub proof fn lemma_pairs_concatenate(a: Seq<u32>, b: Seq<u32>)
    requires
        a.len() % 2 == 0,
    ensures
        pairs_in(a + b) == pairs_in(a) + pairs_in(b),
{
    assert(pairs_in(a + b) =~= pairs_in(a) + pairs_in(b));
}

/// The mixed samples are centred as they are, the centred ones are resampled, what comes
/// of that is levelled, and what is levelled is what is searched for speech and what
/// comes out.
pub proof fn lemma_order_of_steps(s: DspState, event: DspEventView)
    requires
        is_valid(s),
        awaits(s, event),
    ensures
        ({
            let (t, request) = next(s, event);
            match event {
                DspEventView::Input(_) => (t.resampler, t.agc, t.vad) == (
                    s.resampler,
                    s.agc,
                    s.vad,
                ),
                DspEventView::Mixed(mono) => {
                    &&& request == DspRequestView::Center(mono)
                    &&& (t.resampler, t.agc, t.vad) == (s.resampler, s.agc, s.vad)
                    &&& (t.stage, t.asked) == (DspStage::Centering, mono.len() as int)
                },
                DspEventView::Centered(mono) => {
                    let taps = crate::resample::taps(s.resampler, mono);
                    &&& t.resampler == crate::resample::advance(s.resampler, mono)
                    &&& (t.agc, t.vad) == (s.agc, s.vad)
                    &&& taps.len() == 0 <==> request is Done
                    &&& taps.len() == 0 ==> (request == DspRequestView::Done {
                        output: Seq::empty(),
                        speech: false,
                    })
                    &&& taps.len() > 0 ==> (request == DspRequestView::Interpolate {
                        taps,
                        ratio_den: s.resampler.den,
                    })
                },
                DspEventView::Interpolated(out) => {
                    &&& request == DspRequestView::Agc(
                        AgcRequestView::Measure { frame: out, target: 0xc1a0_0000 },
                    )
                    &&& (t.resampler, t.vad) == (s.resampler, s.vad)
                    &&& t.agc == crate::agc::next(s.agc, AgcEventView::Frame(out)).0
                },
                DspEventView::Agc(event) => {
                    let (agc, asked) = crate::agc::next(s.agc, event);
                    &&& (t.resampler, t.agc) == (s.resampler, agc)
                    &&& match asked {
                        AgcRequestView::Done(out) => if s.detects {
                            &&& request == DspRequestView::Vad(
                                VadRequestView::Measure { frame: out },
                            )
                            &&& t.levelled == out
                            &&& t.vad == crate::vad::next(s.vad, VadEventView::Frame(out)).0
                        } else {
                            &&& (request == DspRequestView::Done { output: out, speech: true })
                            &&& t.vad == s.vad
                        },
                        _ => request == DspRequestView::Agc(asked) && t.vad == s.vad,
                    }
                },
                DspEventView::Vad(event) => {
                    let (vad, asked) = crate::vad::next(s.vad, event);
                    &&& (t.resampler, t.agc, t.vad) == (s.resampler, s.agc, vad)
                    &&& match asked {
                        VadRequestView::Done(speech) => (request == DspRequestView::Done {
                            output: s.levelled,
                            speech,
                        }),
                        _ => request == DspRequestView::Vad(asked) && t.levelled == s.levelled,
                    }
                },
            }
        }),
{
    if let DspEventView::Agc(AgcEventView::Amplified(out)) = event {
        crate::agc::lemma_output_is_limited(out);
    }
}

/// The gain control's part of what is answered.
pub open spec fn agc_part(arithmetic: spec_fn(DspRequestView) -> DspEventView) -> spec_fn(
    AgcRequestView,
) -> AgcEventView {
    |request: AgcRequestView| arithmetic(DspRequestView::Agc(request))->Agc_0
}

/// The speech detector's part of what is answered.
pub open spec fn vad_part(arithmetic: spec_fn(DspRequestView) -> DspEventView) -> spec_fn(
    VadRequestView,
) -> VadEventView {
    |request: VadRequestView| arithmetic(DspRequestView::Vad(request))->Vad_0
}

/// What a block becomes: once it is mixed and centred to `mono`, the samples between the
/// taps that are due for `mono` are levelled by the gain control as one frame, and that
/// is what comes out; whether it is speech is what the detector says of it, or yes where
/// there is none.
pub proof fn lemma_block(
    s: DspState,
    mono: Seq<u32>,
    arithmetic: spec_fn(DspRequestView) -> DspEventView,
)
    requires
        is_valid(s),
        awaits(s, DspEventView::Centered(mono)),
        is_arithmetic(arithmetic),
        crate::resample::taps(s.resampler, mono).len() > 0,
    ensures
        ({
            let taps = crate::resample::taps(s.resampler, mono);
            let between = arithmetic(
                DspRequestView::Interpolate { taps, ratio_den: s.resampler.den },
            )->Interpolated_0;
            let (t, output, speech) = run(s, DspEventView::Centered(mono), arithmetic);
            let (agc, levelled) = crate::agc::run(
                s.agc,
                AgcEventView::Frame(between),
                agc_part(arithmetic),
            );
            let (vad, said) = crate::vad::run(
                s.vad,
                VadEventView::Frame(levelled),
                vad_part(arithmetic),
            );
            &&& between.len() == taps.len()
            &&& output == levelled
            &&& output.len() == taps.len()
            &&& t.resampler == crate::resample::advance(s.resampler, mono)
            &&& t.agc == agc
            &&& s.detects ==> t.vad == vad && speech == said
            &&& !s.detects ==> t.vad == s.vad && speech
        }),
{
    let taps = crate::resample::taps(s.resampler, mono);
    let e0 = DspEventView::Centered(mono);
    lemma_step(s, e0);
    let (s1, r1) = next(s, e0);
    let e1 = arithmetic(r1);
    assert(answers(r1, e1));
    let between = e1->Interpolated_0;
    lemma_step(s1, e1);
    let (s2, r2) = next(s1, e1);
    let e2 = arithmetic(r2);
    assert(answers(r2, e2));
    lemma_step(s2, e2);
    let (s3, r3) = next(s2, e2);
    let e3 = arithmetic(r3);
    assert(answers(r3, e3));
    lemma_step(s3, e3);
    let (s4, r4) = next(s3, e3);
    let e4 = arithmetic(r4);
    assert(answers(r4, e4));
    lemma_step(s4, e4);
    let (s5, r5) = next(s4, e4);
    let a = agc_part(arithmetic);
    assert(crate::agc::is_arithmetic(a)) by {
        assert forall|request: AgcRequestView| crate::agc::answers(request, #[trigger] a(request)) by {
            assert(answers(
                DspRequestView::Agc(request),
                arithmetic(DspRequestView::Agc(request)),
            ));
        }
    }
    crate::agc::lemma_frame(s.agc, between, a);
    assert(a(r2->Agc_0) == e2->Agc_0);
    assert(a(r3->Agc_0) == e3->Agc_0);
    assert(a(r4->Agc_0) == e4->Agc_0);
    assert(run(s, e0, arithmetic) == run(s1, e1, arithmetic));
    assert(run(s1, e1, arithmetic) == run(s2, e2, arithmetic));
    assert(run(s2, e2, arithmetic) == run(s3, e3, arithmetic));
    assert(run(s3, e3, arithmetic) == run(s4, e4, arithmetic));
    if s.detects {
        lemma_detects_as_detector(s5, arithmetic(r5), arithmetic);
        lemma_detecting_keeps_sound(s5, arithmetic(r5), arithmetic);
        let v = vad_part(arithmetic);
        assert(v(r5->Vad_0) == arithmetic(r5)->Vad_0);
        assert(run(s4, e4, arithmetic) == run(s5, arithmetic(r5), arithmetic));
    }
}

/// What the detector says within a pipeline is what it says by itself.
proof fn lemma_detects_as_detector(
    s: DspState,
    event: DspEventView,
    arithmetic: spec_fn(DspRequestView) -> DspEventView,
)
    requires
        is_valid(s),
        s.stage == DspStage::Detecting,
        awaits(s, event),
        is_arithmetic(arithmetic),
    ensures
        ({
            let (t, _, speech) = run(s, event, arithmetic);
            (t.vad, speech) == crate::vad::run(s.vad, event->Vad_0, vad_part(arithmetic))
        }),
    decreases steps_left(s),
{
    lemma_step(s, event);
    let (t, request) = next(s, event);
    if request !is Done {
        let answer = arithmetic(request);
        assert(answers(request, answer));
        let v = vad_part(arithmetic);
        assert(v(request->Vad_0) == answer->Vad_0);
        lemma_detects_as_detector(t, answer, arithmetic);
    }
}

/// A new pipeline waits for a block, has the channels and the detector that it was made
/// with, and every part of it is as new.
pub proof fn lemma_first_state(in_rate: u32, out_rate: u32, channels: usize, enable_vad: bool)
    ensures
        ({
            let s = first_state(in_rate, out_rate, channels, enable_vad);
            &&& s.channels == channels
            &&& s.detects == enable_vad
            &&& s.resampler == crate::resample::first_state(in_rate, out_rate)
            &&& s.agc == crate::agc::first_state()
            &&& s.vad == crate::vad::first_state()
            &&& is_valid(s)
            &&& forall|block: Seq<u32>| #[trigger] awaits(s, DspEventView::Input(block))
        }),
{
}

} // verus!
