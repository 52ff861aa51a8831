//! Voice activity detection.
//!
//! The detector keeps the energies of the latest frames, follows their minimum
//! as the level of the noise, and smooths a yes-or-no indicator into the
//! probability of speech.  Once that probability has been high, speech is
//! reported for some frames more.  Energies, levels and probabilities are bit
//! patterns of single-precision numbers; the arithmetic on them is asked for
//! step by step.
use vstd::prelude::*;
use std::collections::VecDeque;
use crate::pattern::{greater, larger, lesser};

verus! {

/// How many frames the minimum is taken over.
pub const WINDOW: usize = 30;

/// How many frames after the last one with a high probability still count as
/// speech.
pub const MAX_HANGOVER: usize = 8;

/// The level of the noise before the first frame: a thousandth.
pub const FIRST_NOISE: u32 = 0x3a83_126f;

/// How much of the level of the noise is kept from one frame to the next: nine
/// tenths.
pub const NOISE_KEPT: u32 = 0x3f66_6666;

/// How much of the smallest energy goes into the level of the noise: a tenth.
pub const FLOOR_TAKEN: u32 = 0x3dcc_cccd;

/// Speech is louder than so many times the noise: four.
pub const NOISE_FACTOR: u32 = 0x4080_0000;

/// No frame of at most this energy, a hundredth, is taken for speech.
pub const ABS_THRESHOLD: u32 = 0x3c23_d70a;

/// The energy of speech is more than this many times the noise: two.
pub const MIN_RATIO: u32 = 0x4000_0000;

/// A probability above this one is high: six tenths.
pub const HIGH_PROBABILITY: u32 = 0x3f19_999a;

/// How much of the way the probability goes in one frame when it rises: a
/// tenth.
pub const RISE: u32 = 0x3dcc_cccd;

/// How much of the way the probability goes in one frame when it does not
/// rise: five thousandths.
pub const FALL: u32 = 0x3ba3_d70a;

/// What a [`Vad`] waits for.
#[derive(Clone, Copy, Debug, PartialEq, Eq, Structural)]
pub enum VadStage {
    /// The next frame.
    Idle,
    /// The energy of the frame.
    Measuring,
    /// The new level of the noise.
    Tracking { energy: u32 },
    /// How the energy compares with the noise.
    Gauging { energy: u32 },
    /// The new probability.
    Blending,
}

/// What a [`Vad`] is told.
#[derive(Debug)]
pub enum VadEvent {
    /// A frame has come in.
    Frame(Vec<u32>),
    /// The root mean square of the frame.
    Energy(u32),
    /// The new level of the noise.
    Noise(u32),
    /// The noise multiplied as was asked for, and the energy divided by the noise.
    Gauged { threshold: u32, ratio: u32 },
    /// The probability that the blend came to.
    Probability(u32),
}

/// What a [`Vad`] is told, as contracts speak of it.
#[verifier::ext_equal]
pub enum VadEventView {
    Frame(Seq<u32>),
    Energy(u32),
    Noise(u32),
    Gauged { threshold: u32, ratio: u32 },
    Probability(u32),
}

impl View for VadEvent {
    type V = VadEventView;

    open spec fn view(&self) -> VadEventView {
        match self {
            VadEvent::Frame(frame) => VadEventView::Frame(frame@),
            VadEvent::Energy(energy) => VadEventView::Energy(*energy),
            VadEvent::Noise(noise) => VadEventView::Noise(*noise),
            VadEvent::Gauged { threshold, ratio } => VadEventView::Gauged {
                threshold: *threshold,
                ratio: *ratio,
            },
            VadEvent::Probability(probability) => VadEventView::Probability(*probability),
        }
    }
}

/// What a [`Vad`] asks for.
#[derive(Debug)]
pub enum VadRequest {
    /// The root mean square of `frame`.
    Measure { frame: Vec<u32> },
    /// Take `kept` of `noise`, and add `taken` of `floor`.
    Track { noise: u32, kept: u32, floor: u32, taken: u32 },
    /// Multiply `noise` by `factor`, and divide `energy` by `noise`.
    Gauge { energy: u32, noise: u32, factor: u32 },
    /// Take `beta` of `indicator` and the rest of `probability`.
    Blend { probability: u32, indicator: u32, beta: u32 },
    /// Whether the frame is speech.
    Done(bool),
}

/// What a [`Vad`] asks for, as contracts speak of it.
#[verifier::ext_equal]
pub enum VadRequestView {
    Measure { frame: Seq<u32> },
    Track { noise: u32, kept: u32, floor: u32, taken: u32 },
    Gauge { energy: u32, noise: u32, factor: u32 },
    Blend { probability: u32, indicator: u32, beta: u32 },
    Done(bool),
}

impl View for VadRequest {
    type V = VadRequestView;

    open spec fn view(&self) -> VadRequestView {
        match self {
            VadRequest::Measure { frame } => VadRequestView::Measure { frame: frame@ },
            VadRequest::Track { noise, kept, floor, taken } => VadRequestView::Track {
                noise: *noise,
                kept: *kept,
                floor: *floor,
                taken: *taken,
            },
            VadRequest::Gauge { energy, noise, factor } => VadRequestView::Gauge {
                energy: *energy,
                noise: *noise,
                factor: *factor,
            },
            VadRequest::Blend { probability, indicator, beta } => VadRequestView::Blend {
                probability: *probability,
                indicator: *indicator,
                beta: *beta,
            },
            VadRequest::Done(speech) => VadRequestView::Done(*speech),
        }
    }
}

/// What a [`Vad`] remembers.
#[verifier::ext_equal]
pub struct VadState {
    /// The latest energies, oldest first.
    pub history: Seq<u32>,
    pub noise: u32,
    pub probability: u32,
    /// How many more frames count as speech.
    pub hangover: int,
    pub stage: VadStage,
}

/// The energies that are kept when `energy` follows `history`.
pub open spec fn kept(history: Seq<u32>, energy: u32) -> Seq<u32> {
    let all = history.push(energy);
    if all.len() > WINDOW {
        all.skip(1)
    } else {
        all
    }
}

/// The smallest number among `energies`, or the largest finite number where
/// none is smaller than that.
pub open spec fn lowest(energies: Seq<u32>) -> u32
    decreases energies.len(),
{
    if energies.len() == 0 {
        crate::pattern::LARGEST
    } else {
        crate::pattern::lesser_of(lowest(energies.drop_last()), energies.last())
    }
}

/// Whether a frame looks like speech: it is louder than both thresholds, and
/// stands out against the noise.  Nothing stands out against noise that is not
/// above zero.
pub open spec fn looks_like_speech(energy: u32, noise: u32, threshold: u32, ratio: u32) -> bool {
    &&& crate::pattern::is_greater(
        energy,
        crate::pattern::larger_of(threshold, ABS_THRESHOLD),
    )
    &&& crate::pattern::is_greater(noise, crate::pattern::ZERO)
    &&& crate::pattern::is_greater(ratio, MIN_RATIO)
}

/// One for what looks like speech, zero for what does not.
pub open spec fn mark_of(speech: bool) -> u32 {
    if speech {
        crate::pattern::ONE
    } else {
        crate::pattern::ZERO
    }
}

/// One where a frame looks like speech, zero where it does not.
pub open spec fn indicator(energy: u32, noise: u32, threshold: u32, ratio: u32) -> u32 {
    mark_of(looks_like_speech(energy, noise, threshold, ratio))
}

/// How much of the way to go from `probability` to `indicator`.
pub open spec fn probability_step(probability: u32, indicator: u32) -> u32 {
    if crate::pattern::is_greater(indicator, probability) {
        RISE
    } else {
        FALL
    }
}

/// Whether a frame counts as speech.
pub open spec fn reports_speech(high: bool, hangover: int) -> bool {
    high || hangover > 0
}

/// How many frames more count as speech.
pub open spec fn next_hangover(high: bool, hangover: int) -> int {
    if high {
        MAX_HANGOVER as int
    } else if hangover > 0 {
        hangover - 1
    } else {
        hangover
    }
}

/// The state of a detector that has heard nothing.
pub open spec fn first_state() -> VadState {
    VadState {
        history: Seq::empty(),
        noise: FIRST_NOISE,
        probability: crate::pattern::ZERO,
        hangover: 0,
        stage: VadStage::Idle,
    }
}

/// No more energies are kept than the window holds, and no more frames count as
/// speech than the hangover allows.
pub open spec fn is_valid(s: VadState) -> bool {
    &&& s.history.len() <= WINDOW
    &&& 0 <= s.hangover <= MAX_HANGOVER
}

/// Whether an event is what is waited for.
pub open spec fn awaits(s: VadState, event: VadEventView) -> bool {
    match event {
        VadEventView::Frame(_) => s.stage == VadStage::Idle,
        VadEventView::Energy(_) => s.stage == VadStage::Measuring,
        VadEventView::Noise(_) => s.stage is Tracking,
        VadEventView::Gauged { .. } => s.stage is Gauging,
        VadEventView::Probability(_) => s.stage == VadStage::Blending,
    }
}

/// What a state and an event lead to: the next state and request.
pub open spec fn next(s: VadState, event: VadEventView) -> (VadState, VadRequestView) {
    match event {
        VadEventView::Frame(frame) => if frame.len() == 0 {
            (s, VadRequestView::Done(false))
        } else {
            (VadState { stage: VadStage::Measuring, ..s }, VadRequestView::Measure { frame })
        },
        VadEventView::Energy(energy) => (
            VadState {
                history: kept(s.history, energy),
                stage: VadStage::Tracking { energy },
                ..s
            },
            VadRequestView::Track {
                noise: s.noise,
                kept: NOISE_KEPT,
                floor: lowest(kept(s.history, energy)),
                taken: FLOOR_TAKEN,
            },
        ),
        VadEventView::Noise(noise) => {
            let energy = s.stage->Tracking_energy;
            (
                VadState { noise, stage: VadStage::Gauging { energy }, ..s },
                VadRequestView::Gauge { energy, noise, factor: NOISE_FACTOR },
            )
        },
        VadEventView::Gauged { threshold, ratio } => {
            let mark = indicator(s.stage->Gauging_energy, s.noise, threshold, ratio);
            (
                VadState { stage: VadStage::Blending, ..s },
                VadRequestView::Blend {
                    probability: s.probability,
                    indicator: mark,
                    beta: probability_step(s.probability, mark),
                },
            )
        },
        VadEventView::Probability(probability) => {
            let high = crate::pattern::is_greater(probability, HIGH_PROBABILITY);
            (
                VadState {
                    probability,
                    hangover: next_hangover(high, s.hangover),
                    stage: VadStage::Idle,
                    ..s
                },
                VadRequestView::Done(reports_speech(high, s.hangover)),
            )
        },
    }
}

/// Tells frames with speech from frames without.
pub struct Vad {
    history: VecDeque<u32>,
    noise: u32,
    speech_prob: u32,
    hangover: usize,
    stage: VadStage,
}

impl View for Vad {
    type V = VadState;

    closed spec fn view(&self) -> VadState {
        VadState {
            history: self.history@,
            noise: self.noise,
            probability: self.speech_prob,
            hangover: self.hangover as int,
            stage: self.stage,
        }
    }
}

impl Vad {
    /// The state is one that a detector can be in.
    pub open spec fn wf(&self) -> bool {
        is_valid(self@)
    }

    /// A detector that has heard nothing.
    pub fn new() -> (r: Self)
        ensures
            r.wf(),
            r@ == first_state(),
    {
        Vad {
            history: VecDeque::with_capacity(WINDOW),
            noise: FIRST_NOISE,
            speech_prob: 0,
            hangover: 0,
            stage: VadStage::Idle,
        }
    }

    /// Whether `event` is what is waited for.
    pub fn is_awaiting(&self, event: &VadEvent) -> (b: bool)
        ensures
            b == awaits(self@, event@),
    {
        match event {
            VadEvent::Frame(_) => self.stage == VadStage::Idle,
            VadEvent::Energy(_) => self.stage == VadStage::Measuring,
            VadEvent::Noise(_) => match self.stage {
                VadStage::Tracking { .. } => true,
                _ => false,
            },
            VadEvent::Gauged { .. } => match self.stage {
                VadStage::Gauging { .. } => true,
                _ => false,
            },
            VadEvent::Probability(_) => self.stage == VadStage::Blending,
        }
    }

    /// Takes one step.
    ///
    /// An empty frame is no speech, and leaves everything as it is.
    pub fn process(&mut self, event: VadEvent) -> (request: VadRequest)
        requires
            old(self).wf(),
            awaits(old(self)@, event@),
        ensures
            final(self).wf(),
            (final(self)@, request@) == next(old(self)@, event@),
            event matches VadEvent::Energy(energy) ==> {
                &&& request matches VadRequest::Track { noise, kept, floor, taken }
                &&& noise == old(self)@.noise == final(self)@.noise
                &&& (kept, taken) == (0x3f66_6666u32, 0x3dcc_cccdu32)
                &&& final(self)@.history.last() == energy
                &&& floor == lowest(final(self)@.history)
            },
            event matches VadEvent::Noise(noise) ==> {
                &&& final(self)@.noise == noise
                &&& request matches VadRequest::Gauge { noise: gauged, factor, .. }
                &&& (gauged, factor) == (noise, 0x4080_0000u32)
            },
            event matches VadEvent::Gauged { threshold, ratio } ==> {
                &&& request matches VadRequest::Blend { probability, indicator, beta }
                &&& probability == old(self)@.probability
                &&& indicator == 0x3f80_0000 || indicator == 0
                &&& indicator == 0x3f80_0000 <==> {
                    let energy = old(self)@.stage->Gauging_energy;
                    &&& crate::pattern::is_greater(energy, 0x3c23_d70a)
                    &&& crate::pattern::is_nan(threshold) || crate::pattern::is_greater(
                        energy,
                        threshold,
                    )
                    &&& crate::pattern::is_greater(old(self)@.noise, 0)
                    &&& crate::pattern::is_greater(ratio, 0x4000_0000)
                }
                &&& beta == if crate::pattern::is_greater(indicator, probability) {
                    0x3dcc_cccd
                } else {
                    0x3ba3_d70au32
                }
            },
            event matches VadEvent::Probability(probability) ==> {
                &&& final(self)@.probability == probability
                &&& request matches VadRequest::Done(speech)
                &&& speech == (crate::pattern::is_greater(probability, 0x3f19_999a)
                    || old(self)@.hangover > 0)
                &&& final(self)@.hangover == if crate::pattern::is_greater(
                    probability,
                    0x3f19_999a,
                ) {
                    8
                } else if old(self)@.hangover > 0 {
                    old(self)@.hangover - 1
                } else {
                    0
                }
            },
    {
        match event {
            VadEvent::Frame(frame) => {
                if frame.len() == 0 {
                    VadRequest::Done(false)
                } else {
                    self.stage = VadStage::Measuring;
                    VadRequest::Measure { frame }
                }
            },
            VadEvent::Energy(energy) => {
                self.history.push_back(energy);
                if self.history.len() > WINDOW {
                    let ghost all = self.history@;
                    let _ = self.history.pop_front();
                    assert(self.history@ =~= all.skip(1));
                }
                self.stage = VadStage::Tracking { energy };
                let floor: u32 = self.floor();
                assert(self@.history.last() == energy);
                VadRequest::Track { noise: self.noise, kept: NOISE_KEPT, floor, taken: FLOOR_TAKEN }
            },
            VadEvent::Noise(noise) => {
                let energy: u32 = match self.stage {
                    VadStage::Tracking { energy } => energy,
                    _ => 0,
                };
                self.noise = noise;
                self.stage = VadStage::Gauging { energy };
                VadRequest::Gauge { energy, noise, factor: NOISE_FACTOR }
            },
            VadEvent::Gauged { threshold, ratio } => {
                let energy: u32 = match self.stage {
                    VadStage::Gauging { energy } => energy,
                    _ => 0,
                };
                let against_noise: u32 = if greater(self.noise, 0) {
                    ratio
                } else {
                    0
                };
                let mark: u32 = if greater(energy, larger(threshold, ABS_THRESHOLD)) && greater(
                    against_noise,
                    MIN_RATIO,
                ) {
                    crate::pattern::ONE
                } else {
                    crate::pattern::ZERO
                };
                let beta: u32 = if greater(mark, self.speech_prob) {
                    RISE
                } else {
                    FALL
                };
                self.stage = VadStage::Blending;
                VadRequest::Blend { probability: self.speech_prob, indicator: mark, beta }
            },
            VadEvent::Probability(probability) => {
                self.speech_prob = probability;
                self.stage = VadStage::Idle;
                if greater(probability, HIGH_PROBABILITY) {
                    self.hangover = MAX_HANGOVER;
                    VadRequest::Done(true)
                } else if self.hangover > 0 {
                    self.hangover = self.hangover - 1;
                    VadRequest::Done(true)
                } else {
                    VadRequest::Done(false)
                }
            },
        }
    }

    /// The smallest energy that is kept.
    fn floor(&self) -> (r: u32)
        ensures
            r == lowest(self@.history),
    {
        let mut r: u32 = crate::pattern::LARGEST;
        let mut i: usize = 0;
        while i < self.history.len()
            invariant
                0 <= i <= self.history@.len(),
                r == lowest(self.history@.take(i as int)),
            decreases self.history@.len() - i,
        {
            r = lesser(r, self.history[i]);
            proof {
                let next = self.history@.take(i + 1);
                assert(next.drop_last() =~= self.history@.take(i as int));
            }
            i = i + 1;
        }
        assert(self.history@.take(self.history@.len() as int) =~= self.history@);
        r
    }
}

/// The noise floor is one of the energies that are kept, and none of them that
/// is a number is smaller; where there is none below the largest finite number,
/// it is that number.
pub proof fn lemma_lowest(energies: Seq<u32>)
    ensures
        !crate::pattern::is_nan(lowest(energies)),
        lowest(energies) == crate::pattern::LARGEST || energies.contains(lowest(energies)),
        lowest(energies) == 0x7f7f_ffff || energies.contains(lowest(energies)),
        crate::pattern::place(lowest(energies)) <= crate::pattern::place(0x7f7f_ffff),
        forall|i: int|
            0 <= i < energies.len() && !crate::pattern::is_nan(#[trigger] energies[i])
                ==> crate::pattern::place(lowest(energies)) <= crate::pattern::place(energies[i]),
    decreases energies.len(),
{
    if energies.len() > 0 {
        let front = energies.drop_last();
        lemma_lowest(front);
        assert(energies.last() == energies[energies.len() - 1]);
        assert forall|i: int|
            0 <= i < energies.len() && !crate::pattern::is_nan(
                #[trigger] energies[i],
            ) implies crate::pattern::place(lowest(energies)) <= crate::pattern::place(
            energies[i],
        ) by {
            if i < front.len() {
                assert(front[i] == energies[i]);
            }
        }
        if front.contains(lowest(front)) {
            let j = choose|j: int| 0 <= j < front.len() && front[j] == lowest(front);
            assert(energies[j] == lowest(front));
        }
    }
}

/// A frame that is no louder than [`ABS_THRESHOLD`] does not look like speech,
/// however much it stands out against the noise.
pub proof fn lemma_quiet_is_marked_zero(energy: u32, noise: u32, threshold: u32, ratio: u32)
    requires
        !crate::pattern::is_greater(energy, ABS_THRESHOLD),
    ensures
        indicator(energy, noise, threshold, ratio) == crate::pattern::ZERO,
{
}

/// Whether an event is of the kind that a request asks for.
pub open spec fn answers(request: VadRequestView, event: VadEventView) -> bool {
    match request {
        VadRequestView::Measure { .. } => event is Energy,
        VadRequestView::Track { .. } => event is Noise,
        VadRequestView::Gauge { .. } => event is Gauged,
        VadRequestView::Blend { .. } => event is Probability,
        VadRequestView::Done(_) => true,
    }
}

/// Whether every request is answered in kind.
pub open spec fn is_arithmetic(arithmetic: spec_fn(VadRequestView) -> VadEventView) -> bool {
    forall|request: VadRequestView| answers(request, #[trigger] arithmetic(request))
}

/// How many steps there are at most until a frame is done, the next one among them.
pub open spec fn steps_left(stage: VadStage) -> nat {
    match stage {
        VadStage::Idle => 5,
        VadStage::Measuring => 4,
        VadStage::Tracking { .. } => 3,
        VadStage::Gauging { .. } => 2,
        VadStage::Blending => 1,
    }
}

/// What a detector remembers after an event and all that it asks for then, and
/// whether it reports speech.
pub open spec fn run(
    s: VadState,
    event: VadEventView,
    arithmetic: spec_fn(VadRequestView) -> VadEventView,
) -> (VadState, bool)
    decreases steps_left(s.stage),
{
    let (t, request) = next(s, event);
    match request {
        VadRequestView::Done(speech) => (t, speech),
        _ => if awaits(s, event) {
            run(t, arithmetic(request), arithmetic)
        } else {
            (s, false)
        },
    }
}

/// What a detector remembers after a run of frames.
pub open spec fn after_frames(
    s: VadState,
    frames: Seq<Seq<u32>>,
    arithmetic: spec_fn(VadRequestView) -> VadEventView,
) -> VadState
    decreases frames.len(),
{
    if frames.len() == 0 {
        s
    } else {
        run(
            after_frames(s, frames.drop_last(), arithmetic),
            VadEventView::Frame(frames.last()),
            arithmetic,
        ).0
    }
}

/// The energy of a frame.
pub open spec fn energy_of(
    frame: Seq<u32>,
    arithmetic: spec_fn(VadRequestView) -> VadEventView,
) -> u32 {
    arithmetic(VadRequestView::Measure { frame })->Energy_0
}

/// What tracking the noise towards `floor` comes to.
pub open spec fn noise_of(
    noise: u32,
    floor: u32,
    arithmetic: spec_fn(VadRequestView) -> VadEventView,
) -> u32 {
    arithmetic(
        VadRequestView::Track { noise, kept: NOISE_KEPT, floor, taken: FLOOR_TAKEN },
    )->Noise_0
}

/// The threshold that goes with a level of noise, and how far the energy stands out.
pub open spec fn gauge_of(
    energy: u32,
    noise: u32,
    arithmetic: spec_fn(VadRequestView) -> VadEventView,
) -> (u32, u32) {
    let gauged = arithmetic(VadRequestView::Gauge { energy, noise, factor: NOISE_FACTOR });
    (gauged->threshold, gauged->ratio)
}

/// What blending a probability with an indicator comes to.
pub open spec fn probability_of(
    probability: u32,
    indicator: u32,
    arithmetic: spec_fn(VadRequestView) -> VadEventView,
) -> u32 {
    arithmetic(
        VadRequestView::Blend {
            probability,
            indicator,
            beta: probability_step(probability, indicator),
        },
    )->Probability_0
}

/// What a frame that is not empty leads to: what the detector remembers then, and
/// whether it reports speech.
pub open spec fn after_frame(
    s: VadState,
    frame: Seq<u32>,
    arithmetic: spec_fn(VadRequestView) -> VadEventView,
) -> (VadState, bool) {
    let energy = energy_of(frame, arithmetic);
    let history = kept(s.history, energy);
    let noise = noise_of(s.noise, lowest(history), arithmetic);
    let (threshold, ratio) = gauge_of(energy, noise, arithmetic);
    let mark = indicator(energy, noise, threshold, ratio);
    let probability = probability_of(s.probability, mark, arithmetic);
    let high = crate::pattern::is_greater(probability, HIGH_PROBABILITY);
    (
        VadState {
            history,
            noise,
            probability,
            hangover: next_hangover(high, s.hangover),
            stage: VadStage::Idle,
        },
        reports_speech(high, s.hangover),
    )
}

/// A frame leads through all steps; an empty one changes nothing and is no speech.
pub proof fn lemma_frame(
    s: VadState,
    frame: Seq<u32>,
    arithmetic: spec_fn(VadRequestView) -> VadEventView,
)
    requires
        s.stage == VadStage::Idle,
        is_arithmetic(arithmetic),
    ensures
        run(s, VadEventView::Frame(frame), arithmetic) == (if frame.len() == 0 {
            (s, false)
        } else {
            after_frame(s, frame, arithmetic)
        }),
{
    if frame.len() > 0 {
        let e1 = VadEventView::Frame(frame);
        let (s1, r1) = next(s, e1);
        let e2 = arithmetic(r1);
        let (s2, r2) = next(s1, e2);
        let e3 = arithmetic(r2);
        let (s3, r3) = next(s2, e3);
        let e4 = arithmetic(r3);
        let (s4, r4) = next(s3, e4);
        let e5 = arithmetic(r4);
        assert(run(s, e1, arithmetic) == run(s1, e2, arithmetic));
        assert(run(s1, e2, arithmetic) == run(s2, e3, arithmetic));
        assert(run(s2, e3, arithmetic) == run(s3, e4, arithmetic));
        assert(run(s3, e4, arithmetic) == run(s4, e5, arithmetic));
    }
}

/// Whether blending zero with zero comes to zero.
pub open spec fn blends_zero(arithmetic: spec_fn(VadRequestView) -> VadEventView) -> bool {
    arithmetic(
        VadRequestView::Blend {
            probability: crate::pattern::ZERO,
            indicator: crate::pattern::ZERO,
            beta: FALL,
        },
    ) == VadEventView::Probability(crate::pattern::ZERO)
}

/// Whether the energy of a frame that is not empty is at most [`ABS_THRESHOLD`].
pub open spec fn is_quiet_frame(
    frame: Seq<u32>,
    arithmetic: spec_fn(VadRequestView) -> VadEventView,
) -> bool {
    frame.len() > 0 ==> {
        &&& arithmetic(VadRequestView::Measure { frame }) matches VadEventView::Energy(energy)
        &&& !crate::pattern::is_greater(energy, ABS_THRESHOLD)
    }
}

/// Sound that was never louder than [`ABS_THRESHOLD`] is never reported as speech,
/// however much it stands out against the noise, so long as blending zero with zero
/// comes to zero.
pub proof fn lemma_quiet_is_no_speech(
    frames: Seq<Seq<u32>>,
    arithmetic: spec_fn(VadRequestView) -> VadEventView,
)
    requires
        frames.len() > 0,
        is_arithmetic(arithmetic),
        blends_zero(arithmetic),
        forall|i: int| 0 <= i < frames.len() ==> is_quiet_frame(#[trigger] frames[i], arithmetic),
    ensures
        ({
            let before = after_frames(first_state(), frames.drop_last(), arithmetic);
            !run(before, VadEventView::Frame(frames.last()), arithmetic).1
        }),
{
    let front = frames.drop_last();
    assert forall|i: int| 0 <= i < front.len() implies is_quiet_frame(
        #[trigger] front[i],
        arithmetic,
    ) by {
        assert(front[i] == frames[i]);
    }
    lemma_quiet_frames(front, arithmetic);
    assert(frames[frames.len() - 1] == frames.last());
    lemma_quiet_frame(after_frames(first_state(), front, arithmetic), frames.last(), arithmetic);
}

/// Whether a detector has never taken anything for speech.
spec fn is_quiet(s: VadState) -> bool {
    s.stage == VadStage::Idle && s.probability == crate::pattern::ZERO && s.hangover == 0
}

/// A quiet frame leaves nothing that counts as speech.
proof fn lemma_quiet_frame(
    s: VadState,
    frame: Seq<u32>,
    arithmetic: spec_fn(VadRequestView) -> VadEventView,
)
    requires
        is_quiet(s),
        is_arithmetic(arithmetic),
        blends_zero(arithmetic),
        is_quiet_frame(frame, arithmetic),
    ensures
        is_quiet(run(s, VadEventView::Frame(frame), arithmetic).0),
        !run(s, VadEventView::Frame(frame), arithmetic).1,
{
    if frame.len() > 0 {
        lemma_frame(s, frame, arithmetic);
        let energy = energy_of(frame, arithmetic);
        let noise = noise_of(s.noise, lowest(kept(s.history, energy)), arithmetic);
        let (threshold, ratio) = gauge_of(energy, noise, arithmetic);
        lemma_quiet_is_marked_zero(energy, noise, threshold, ratio);
    }
}

/// So does a run of them.
proof fn lemma_quiet_frames(
    frames: Seq<Seq<u32>>,
    arithmetic: spec_fn(VadRequestView) -> VadEventView,
)
    requires
        is_arithmetic(arithmetic),
        blends_zero(arithmetic),
        forall|i: int| 0 <= i < frames.len() ==> is_quiet_frame(#[trigger] frames[i], arithmetic),
    ensures
        is_quiet(after_frames(first_state(), frames, arithmetic)),
    decreases frames.len(),
{
    if frames.len() > 0 {
        let front = frames.drop_last();
        assert forall|i: int| 0 <= i < front.len() implies is_quiet_frame(
            #[trigger] front[i],
            arithmetic,
        ) by {
            assert(front[i] == frames[i]);
        }
        lemma_quiet_frames(front, arithmetic);
        assert(frames[frames.len() - 1] == frames.last());
        lemma_quiet_frame(
            after_frames(first_state(), front, arithmetic),
            frames.last(),
            arithmetic,
        );
    }
}

/// Whether `energy` is at most the threshold that goes with the noise `noise`.
pub open spec fn is_covered(
    energy: u32,
    noise: u32,
    arithmetic: spec_fn(VadRequestView) -> VadEventView,
) -> bool {
    let threshold = gauge_of(energy, noise, arithmetic).0;
    !crate::pattern::is_nan(threshold) && crate::pattern::place(energy) <= crate::pattern::place(
        threshold,
    )
}

/// Whether noise that is tracked towards `energy` has a threshold of at least that
/// after three frames, and keeps it from then on.
pub open spec fn is_learned(
    energy: u32,
    arithmetic: spec_fn(VadRequestView) -> VadEventView,
) -> bool {
    let first = noise_of(FIRST_NOISE, energy, arithmetic);
    let second = noise_of(first, energy, arithmetic);
    let third = noise_of(second, energy, arithmetic);
    &&& is_covered(energy, third, arithmetic)
    &&& forall|noise: u32|
        is_covered(energy, noise, arithmetic) ==> is_covered(
            energy,
            #[trigger] noise_of(noise, energy, arithmetic),
            arithmetic,
        )
}

/// Whether a probability is high.
pub open spec fn is_high(probability: u32) -> bool {
    crate::pattern::is_greater(probability, HIGH_PROBABILITY)
}

/// Whether two frames, whatever they look like, do not make the probability high, and
/// frames that do not look like speech never do.
pub open spec fn rises_slowly(arithmetic: spec_fn(VadRequestView) -> VadEventView) -> bool {
    &&& forall|a: bool|
        !is_high(#[trigger] probability_of(crate::pattern::ZERO, mark_of(a), arithmetic))
    &&& forall|a: bool, b: bool|
        !is_high(
            #[trigger] probability_of(
                probability_of(crate::pattern::ZERO, mark_of(a), arithmetic),
                mark_of(b),
                arithmetic,
            ),
        )
    &&& forall|probability: u32|
        !is_high(probability) ==> !is_high(
            #[trigger] probability_of(probability, mark_of(false), arithmetic),
        )
}

/// Sound that is the same in every frame from the first one on is learned as noise,
/// and never reported as speech, however loud it is, so long as the noise is learned
/// within three frames and the probability takes more than two to become high.
pub proof fn lemma_stationary_is_no_speech(
    frame: Seq<u32>,
    count: nat,
    arithmetic: spec_fn(VadRequestView) -> VadEventView,
)
    requires
        frame.len() > 0,
        is_arithmetic(arithmetic),
        !crate::pattern::is_nan(energy_of(frame, arithmetic)),
        crate::pattern::place(energy_of(frame, arithmetic)) <= crate::pattern::place(
            crate::pattern::LARGEST,
        ),
        is_learned(energy_of(frame, arithmetic), arithmetic),
        rises_slowly(arithmetic),
    ensures
        ({
            let before = after_frames(
                first_state(),
                Seq::new(count, |i: int| frame),
                arithmetic,
            );
            !run(before, VadEventView::Frame(frame), arithmetic).1
        }),
{
    lemma_stationary_frames(frame, count, arithmetic);
    lemma_stationary_step(
        after_frames(first_state(), Seq::new(count, |i: int| frame), arithmetic),
        frame,
        count,
        arithmetic,
    );
}

/// What a detector knows after `count` frames that were all the same.
spec fn is_stationary(
    s: VadState,
    energy: u32,
    count: nat,
    arithmetic: spec_fn(VadRequestView) -> VadEventView,
) -> bool {
    let first = noise_of(FIRST_NOISE, energy, arithmetic);
    &&& s.stage == VadStage::Idle
    &&& s.hangover == 0
    &&& !is_high(s.probability)
    &&& forall|i: int| 0 <= i < s.history.len() ==> #[trigger] s.history[i] == energy
    &&& count == 0 ==> s.noise == FIRST_NOISE && s.probability == crate::pattern::ZERO
    &&& count == 1 ==> s.noise == first && exists|a: bool|
        s.probability == #[trigger] probability_of(crate::pattern::ZERO, mark_of(a), arithmetic)
    &&& count == 2 ==> s.noise == noise_of(first, energy, arithmetic)
    &&& count >= 3 ==> is_covered(energy, s.noise, arithmetic)
}

/// One more such frame.
proof fn lemma_stationary_step(
    s: VadState,
    frame: Seq<u32>,
    count: nat,
    arithmetic: spec_fn(VadRequestView) -> VadEventView,
)
    requires
        frame.len() > 0,
        is_arithmetic(arithmetic),
        !crate::pattern::is_nan(energy_of(frame, arithmetic)),
        crate::pattern::place(energy_of(frame, arithmetic)) <= crate::pattern::place(
            crate::pattern::LARGEST,
        ),
        is_learned(energy_of(frame, arithmetic), arithmetic),
        rises_slowly(arithmetic),
        is_stationary(s, energy_of(frame, arithmetic), count, arithmetic),
    ensures
        !run(s, VadEventView::Frame(frame), arithmetic).1,
        is_stationary(
            run(s, VadEventView::Frame(frame), arithmetic).0,
            energy_of(frame, arithmetic),
            count + 1,
            arithmetic,
        ),
{
    lemma_frame(s, frame, arithmetic);
    let energy = energy_of(frame, arithmetic);
    let history = kept(s.history, energy);
    assert forall|i: int| 0 <= i < history.len() implies #[trigger] history[i] == energy by {
        let all = s.history.push(energy);
        assert(all[i] == energy);
        if all.len() > WINDOW {
            assert(history[i] == all[i + 1]);
        }
    }
    lemma_lowest_of_same(history, energy);
    let noise = noise_of(s.noise, energy, arithmetic);
    let (threshold, ratio) = gauge_of(energy, noise, arithmetic);
    let marked = looks_like_speech(energy, noise, threshold, ratio);
    assert(indicator(energy, noise, threshold, ratio) == mark_of(marked));
    if count >= 2 {
        assert(is_covered(energy, noise, arithmetic));
        assert(!marked);
    } else if count == 1 {
        let a = choose|a: bool|
            s.probability == #[trigger] probability_of(
                crate::pattern::ZERO,
                mark_of(a),
                arithmetic,
            );
        assert(!is_high(probability_of(s.probability, mark_of(marked), arithmetic)));
    }
}

/// What a detector knows after such frames.
proof fn lemma_stationary_frames(
    frame: Seq<u32>,
    count: nat,
    arithmetic: spec_fn(VadRequestView) -> VadEventView,
)
    requires
        frame.len() > 0,
        is_arithmetic(arithmetic),
        !crate::pattern::is_nan(energy_of(frame, arithmetic)),
        crate::pattern::place(energy_of(frame, arithmetic)) <= crate::pattern::place(
            crate::pattern::LARGEST,
        ),
        is_learned(energy_of(frame, arithmetic), arithmetic),
        rises_slowly(arithmetic),
    ensures
        is_stationary(
            after_frames(first_state(), Seq::new(count, |i: int| frame), arithmetic),
            energy_of(frame, arithmetic),
            count,
            arithmetic,
        ),
    decreases count,
{
    if count > 0 {
        let before = (count - 1) as nat;
        let frames = Seq::new(count, |i: int| frame);
        assert(frames.drop_last() =~= Seq::new(before, |i: int| frame));
        lemma_stationary_frames(frame, before, arithmetic);
        lemma_stationary_step(
            after_frames(first_state(), frames.drop_last(), arithmetic),
            frame,
            before,
            arithmetic,
        );
    }
}

/// The smallest of energies that are all the same.
proof fn lemma_lowest_of_same(energies: Seq<u32>, energy: u32)
    requires
        energies.len() > 0,
        forall|i: int| 0 <= i < energies.len() ==> #[trigger] energies[i] == energy,
        !crate::pattern::is_nan(energy),
        crate::pattern::place(energy) <= crate::pattern::place(crate::pattern::LARGEST),
    ensures
        lowest(energies) == energy,
    decreases energies.len(),
{
    let front = energies.drop_last();
    assert(energies.last() == energies[energies.len() - 1]);
    if front.len() > 0 {
        assert forall|i: int| 0 <= i < front.len() implies #[trigger] front[i] == energy by {
            assert(front[i] == energies[i]);
        }
        lemma_lowest_of_same(front, energy);
    } else {
        assert(lowest(front) == crate::pattern::LARGEST);
    }
}

/// The energies of the frames that are not empty.
pub open spec fn energies_of(
    frames: Seq<Seq<u32>>,
    arithmetic: spec_fn(VadRequestView) -> VadEventView,
) -> Seq<u32>
    decreases frames.len(),
{
    if frames.len() == 0 {
        Seq::empty()
    } else if frames.last().len() == 0 {
        energies_of(frames.drop_last(), arithmetic)
    } else {
        energies_of(frames.drop_last(), arithmetic).push(energy_of(frames.last(), arithmetic))
    }
}

/// Whether the probability was high after each of the frames that are not empty.
pub open spec fn highs_of(
    frames: Seq<Seq<u32>>,
    arithmetic: spec_fn(VadRequestView) -> VadEventView,
) -> Seq<bool>
    decreases frames.len(),
{
    if frames.len() == 0 {
        Seq::empty()
    } else if frames.last().len() == 0 {
        highs_of(frames.drop_last(), arithmetic)
    } else {
        highs_of(frames.drop_last(), arithmetic).push(
            is_high(after_frames(first_state(), frames, arithmetic).probability),
        )
    }
}

/// After any run of frames a detector keeps the energies of the latest [`WINDOW`]
/// frames that were not empty, and no others.
pub proof fn lemma_window(
    frames: Seq<Seq<u32>>,
    arithmetic: spec_fn(VadRequestView) -> VadEventView,
)
    requires
        is_arithmetic(arithmetic),
    ensures
        ({
            let energies = energies_of(frames, arithmetic);
            let history = after_frames(first_state(), frames, arithmetic).history;
            &&& energies.len() <= WINDOW ==> history == energies
            &&& energies.len() > WINDOW ==> history == energies.skip(energies.len() - WINDOW)
            &&& history.len() <= 30
            &&& energies.len() >= 30 ==> history.len() == 30
            &&& history == energies.skip(energies.len() - history.len())
        }),
{
    lemma_follows_frames(frames, arithmetic);
    lemma_kept_all(energies_of(frames, arithmetic));
}

/// A frame that is not empty is reported as speech exactly when the probability was
/// high after it, or after one of the [`MAX_HANGOVER`] such frames before it.
pub proof fn lemma_hangover(
    frames: Seq<Seq<u32>>,
    arithmetic: spec_fn(VadRequestView) -> VadEventView,
)
    requires
        is_arithmetic(arithmetic),
        frames.len() > 0,
        frames.last().len() > 0,
    ensures
        ({
            let before = after_frames(first_state(), frames.drop_last(), arithmetic);
            let high = highs_of(frames, arithmetic);
            run(before, VadEventView::Frame(frames.last()), arithmetic).1 <==> exists|i: int|
                high.len() - 1 - MAX_HANGOVER <= i < high.len() && 0 <= i && #[trigger] high[i]
        }),
{
    let front = frames.drop_last();
    lemma_follows_frames(front, arithmetic);
    lemma_frame(after_frames(first_state(), front, arithmetic), frames.last(), arithmetic);
    let high = highs_of(frames, arithmetic);
    assert(high.drop_last() =~= highs_of(front, arithmetic));
    lemma_reports(high);
}

/// The history and the hangover of a detector follow from the energies and from
/// whether the probability was high.
proof fn lemma_follows_frames(
    frames: Seq<Seq<u32>>,
    arithmetic: spec_fn(VadRequestView) -> VadEventView,
)
    requires
        is_arithmetic(arithmetic),
    ensures
        ({
            let s = after_frames(first_state(), frames, arithmetic);
            &&& s.stage == VadStage::Idle
            &&& s.history == kept_all(energies_of(frames, arithmetic))
            &&& s.hangover == hangover_after(highs_of(frames, arithmetic))
        }),
    decreases frames.len(),
{
    if frames.len() > 0 {
        let front = frames.drop_last();
        lemma_follows_frames(front, arithmetic);
        lemma_frame(after_frames(first_state(), front, arithmetic), frames.last(), arithmetic);
        if frames.last().len() > 0 {
            let energies = energies_of(frames, arithmetic);
            let high = highs_of(frames, arithmetic);
            assert(energies.drop_last() =~= energies_of(front, arithmetic));
            assert(high.drop_last() =~= highs_of(front, arithmetic));
        }
    }
}

/// The energies that are kept after a run of frames.
pub open spec fn kept_all(energies: Seq<u32>) -> Seq<u32>
    decreases energies.len(),
{
    if energies.len() == 0 {
        energies
    } else {
        kept(kept_all(energies.drop_last()), energies.last())
    }
}

/// Of a run of energies the latest [`WINDOW`] are kept, and no others.
proof fn lemma_kept_all(energies: Seq<u32>)
    ensures
        energies.len() <= WINDOW ==> kept_all(energies) == energies,
        energies.len() > WINDOW ==> kept_all(energies) == energies.skip(energies.len() - WINDOW),
    decreases energies.len(),
{
    if energies.len() > 0 {
        lemma_kept_all(energies.drop_last());
        let before = kept_all(energies.drop_last());
        assert(energies.drop_last().push(energies.last()) =~= energies);
        if energies.len() > WINDOW {
            assert(kept(before, energies.last()) =~= energies.skip(energies.len() - WINDOW));
        }
    }
}

/// How many frames more count as speech after a run of frames, of which those
/// marked had a high probability.
pub open spec fn hangover_after(high: Seq<bool>) -> int
    decreases high.len(),
{
    if high.len() == 0 {
        0
    } else {
        next_hangover(high.last(), hangover_after(high.drop_last()))
    }
}

/// A frame counts as speech exactly when it, or one of the [`MAX_HANGOVER`]
/// frames before it, had a high probability.
proof fn lemma_reports(high: Seq<bool>)
    requires
        high.len() > 0,
    ensures
        reports_speech(high.last(), hangover_after(high.drop_last())) <==> exists|i: int|
            high.len() - 1 - MAX_HANGOVER <= i < high.len() && 0 <= i && #[trigger] high[i],
{
    let n = high.len() as int;
    let before = high.drop_last();
    lemma_hangover_counts(before);
    if reports_speech(high.last(), hangover_after(before)) {
        if high.last() {
            assert(high[n - 1]);
        } else {
            let i = n - 2 - (MAX_HANGOVER - hangover_after(before));
            assert(before[i] && high[i]);
        }
    } else {
        assert forall|i: int|
            n - 1 - MAX_HANGOVER <= i < n && 0 <= i implies !#[trigger] high[i] by {
            if i < n - 1 {
                assert(before[i] == high[i]);
            }
        }
    }
}

/// The hangover counts down from the latest frame with a high probability.
proof fn lemma_hangover_counts(high: Seq<bool>)
    ensures
        0 <= hangover_after(high) <= MAX_HANGOVER,
        ({
            let latest = high.len() - 1 - (MAX_HANGOVER - hangover_after(high));
            &&& hangover_after(high) > 0 ==> 0 <= latest && high[latest]
            &&& forall|i: int| latest < i < high.len() && 0 <= i ==> !#[trigger] high[i]
        }),
    decreases high.len(),
{
    if high.len() > 0 {
        let before = high.drop_last();
        lemma_hangover_counts(before);
        assert(high.last() == high[high.len() - 1]);
        assert forall|i: int| 0 <= i < before.len() implies before[i] == #[trigger] high[i] by {}
    }
}

/// A frame looks like speech exactly when its energy is above a hundredth and above
/// the threshold, the noise is above zero, and the ratio is above two.  A threshold
/// that is not a number does not count.
pub proof fn lemma_looks_like_speech(energy: u32, noise: u32, threshold: u32, ratio: u32)
    ensures
        looks_like_speech(energy, noise, threshold, ratio) <==> {
            &&& crate::pattern::is_greater(energy, 0x3c23_d70a)
            &&& crate::pattern::is_nan(threshold) || crate::pattern::is_greater(energy, threshold)
            &&& crate::pattern::is_greater(noise, 0)
            &&& crate::pattern::is_greater(ratio, 0x4000_0000)
        },
        looks_like_speech(energy, noise, threshold, ratio) ==> indicator(
            energy,
            noise,
            threshold,
            ratio,
        ) == 0x3f80_0000,
        !looks_like_speech(energy, noise, threshold, ratio) ==> indicator(
            energy,
            noise,
            threshold,
            ratio,
        ) == 0,
{
}

/// The probability goes a tenth of the way to an indicator above it, and five
/// thousandths of the way to any other.
pub proof fn lemma_probability_step(probability: u32, indicator: u32)
    ensures
        crate::pattern::is_greater(indicator, probability) ==> probability_step(
            probability,
            indicator,
        ) == 0x3dcc_cccd,
        !crate::pattern::is_greater(indicator, probability) ==> probability_step(
            probability,
            indicator,
        ) == 0x3ba3_d70a,
{
}

/// What each step asks for: the energy of the frame, nine tenths of the noise and one
/// tenth of the smallest energy kept, four times the noise that this came to and how
/// far the energy stands out against it, and the blend of the probability with the
/// indicator.  Nothing else changes what is remembered.
pub proof fn lemma_asks(s: VadState, event: VadEventView)
    requires
        awaits(s, event),
    ensures
        ({
            let (t, request) = next(s, event);
            match event {
                VadEventView::Frame(frame) => {
                    &&& frame.len() == 0 ==> t == s && request == VadRequestView::Done(false)
                    &&& frame.len() > 0 ==> (request == VadRequestView::Measure { frame })
                    &&& (t.history, t.noise, t.probability, t.hangover) == (
                        s.history,
                        s.noise,
                        s.probability,
                        s.hangover,
                    )
                },
                VadEventView::Energy(energy) => {
                    &&& (request == VadRequestView::Track {
                        noise: s.noise,
                        kept: 0x3f66_6666,
                        floor: lowest(t.history),
                        taken: 0x3dcc_cccd,
                    })
                    &&& (t.noise, t.probability, t.hangover) == (
                        s.noise,
                        s.probability,
                        s.hangover,
                    )
                    &&& t.history.last() == energy
                },
                VadEventView::Noise(noise) => {
                    &&& (request == VadRequestView::Gauge {
                        energy: s.stage->Tracking_energy,
                        noise,
                        factor: 0x4080_0000,
                    })
                    &&& (t.history, t.noise, t.probability, t.hangover) == (
                        s.history,
                        noise,
                        s.probability,
                        s.hangover,
                    )
                },
                VadEventView::Gauged { threshold, ratio } => {
                    let mark = indicator(s.stage->Gauging_energy, s.noise, threshold, ratio);
                    &&& request matches VadRequestView::Blend { probability, indicator, beta }
                    &&& (probability, indicator) == (s.probability, mark)
                    &&& beta == probability_step(s.probability, mark)
                    &&& (t.history, t.noise, t.probability, t.hangover) == (
                        s.history,
                        s.noise,
                        s.probability,
                        s.hangover,
                    )
                },
                VadEventView::Probability(probability) => {
                    &&& request is Done
                    &&& (t.history, t.noise, t.probability) == (s.history, s.noise, probability)
                },
            }
        }),
        next(s, event).1 !is Done ==> forall|e: VadEventView|
            #[trigger] answers(next(s, event).1, e) ==> awaits(next(s, event).0, e),
        next(s, event).1 is Done ==> forall|frame: Seq<u32>|
            #[trigger] awaits(next(s, event).0, VadEventView::Frame(frame)),
        first_state() == (VadState {
            history: Seq::empty(),
            noise: 0x3a83_126f,
            probability: 0,
            hangover: 0,
            stage: VadStage::Idle,
        }),
{
    if let VadEventView::Energy(energy) = event {
        let all = s.history.push(energy);
        assert(all.last() == energy);
        if all.len() > WINDOW {
            assert(all.skip(1).last() == all.last());
        }
    }
}

/// What a probability comes to in a pause of `n` frames: with each of them it goes five
/// thousandths of the way to zero.
pub open spec fn fallen(
    probability: u32,
    n: nat,
    arithmetic: spec_fn(VadRequestView) -> VadEventView,
) -> u32
    decreases n,
{
    if n == 0 {
        probability
    } else {
        arithmetic(
            VadRequestView::Blend {
                probability: fallen(probability, (n - 1) as nat, arithmetic),
                indicator: 0,
                beta: 0x3ba3_d70a,
            },
        )->Probability_0
    }
}

/// Whether a frame that is not empty looks like speech to a detector.
pub open spec fn looks_like(
    s: VadState,
    frame: Seq<u32>,
    arithmetic: spec_fn(VadRequestView) -> VadEventView,
) -> bool {
    let energy = energy_of(frame, arithmetic);
    let noise = noise_of(s.noise, lowest(kept(s.history, energy)), arithmetic);
    let (threshold, ratio) = gauge_of(energy, noise, arithmetic);
    looks_like_speech(energy, noise, threshold, ratio)
}

/// Whether no frame of a run is empty or looks like speech.
pub open spec fn is_pause(
    s: VadState,
    frames: Seq<Seq<u32>>,
    arithmetic: spec_fn(VadRequestView) -> VadEventView,
) -> bool {
    forall|i: int|
        #![trigger frames[i]]
        0 <= i < frames.len() ==> frames[i].len() > 0 && !looks_like(
            after_frames(s, frames.take(i), arithmetic),
            frames[i],
            arithmetic,
        )
}

/// After a high probability, frames that do not look like speech lower it by five
/// thousandths of itself each, and they are still reported as speech for as long as it
/// is high, and for eight frames more.
pub proof fn lemma_pause(
    s: VadState,
    frames: Seq<Seq<u32>>,
    arithmetic: spec_fn(VadRequestView) -> VadEventView,
)
    requires
        is_arithmetic(arithmetic),
        s.stage == VadStage::Idle,
        crate::pattern::is_greater(s.probability, 0x3f19_999a),
        s.hangover == 8,
        frames.len() > 0,
        is_pause(s, frames, arithmetic),
        forall|j: nat|
            j <= frames.len() ==> !crate::pattern::is_greater(
                0,
                #[trigger] fallen(s.probability, j, arithmetic),
            ),
    ensures
        after_frames(s, frames, arithmetic).probability == fallen(
            s.probability,
            frames.len(),
            arithmetic,
        ),
        run(
            after_frames(s, frames.drop_last(), arithmetic),
            VadEventView::Frame(frames.last()),
            arithmetic,
        ).1 <==> exists|j: nat|
            frames.len() - 8 <= j <= frames.len() && crate::pattern::is_greater(
                #[trigger] fallen(s.probability, j, arithmetic),
                0x3f19_999a,
            ),
{
    let n = frames.len();
    let front = frames.drop_last();
    let p = s.probability;
    lemma_pause_state(s, frames, arithmetic);
    assert forall|i: int| 0 <= i < front.len() implies #[trigger] front[i].len() > 0
        && !looks_like(after_frames(s, front.take(i), arithmetic), front[i], arithmetic) by {
        assert(front[i] == frames[i]);
        assert(front.take(i) =~= frames.take(i));
    }
    lemma_pause_state(s, front, arithmetic);
    let before = after_frames(s, front, arithmetic);
    assert(frames[n - 1] == frames.last());
    lemma_frame(before, frames.last(), arithmetic);
    let high = pause_highs(p, n, arithmetic);
    assert(high.drop_last() =~= pause_highs(p, (n - 1) as nat, arithmetic));
    lemma_reports(high);
    assert(high.last() == is_high(fallen(p, n, arithmetic)));
    if exists|i: int|
        high.len() - 1 - MAX_HANGOVER <= i < high.len() && 0 <= i && #[trigger] high[i] {
        let i = choose|i: int|
            high.len() - 1 - MAX_HANGOVER <= i < high.len() && 0 <= i && #[trigger] high[i];
        assert(is_high(fallen(p, i as nat, arithmetic)));
    }
    if exists|j: nat|
        n - 8 <= j <= n && crate::pattern::is_greater(
            #[trigger] fallen(p, j, arithmetic),
            0x3f19_999a,
        ) {
        let j = choose|j: nat|
            n - 8 <= j <= n && crate::pattern::is_greater(
                #[trigger] fallen(p, j, arithmetic),
                0x3f19_999a,
            );
        assert(high[j as int]);
    }
}

/// Whether the probability was high at the start of a pause and after each frame of it.
spec fn pause_highs(
    probability: u32,
    n: nat,
    arithmetic: spec_fn(VadRequestView) -> VadEventView,
) -> Seq<bool> {
    Seq::new(n + 1, |j: int| is_high(fallen(probability, j as nat, arithmetic)))
}

/// What a detector remembers in a pause.
proof fn lemma_pause_state(
    s: VadState,
    frames: Seq<Seq<u32>>,
    arithmetic: spec_fn(VadRequestView) -> VadEventView,
)
    requires
        is_arithmetic(arithmetic),
        s.stage == VadStage::Idle,
        is_high(s.probability),
        s.hangover == MAX_HANGOVER,
        is_pause(s, frames, arithmetic),
        forall|j: nat|
            j <= frames.len() ==> !crate::pattern::is_greater(
                0,
                #[trigger] fallen(s.probability, j, arithmetic),
            ),
    ensures
        ({
            let t = after_frames(s, frames, arithmetic);
            &&& t.stage == VadStage::Idle
            &&& t.probability == fallen(s.probability, frames.len(), arithmetic)
            &&& t.hangover == hangover_after(
                pause_highs(s.probability, frames.len(), arithmetic),
            )
        }),
    decreases frames.len(),
{
    let n = frames.len();
    let p = s.probability;
    let high = pause_highs(p, n, arithmetic);
    if n == 0 {
        assert(high.last());
        assert(high.drop_last() =~= Seq::empty());
    } else {
        let front = frames.drop_last();
        assert forall|i: int| 0 <= i < front.len() implies #[trigger] front[i].len() > 0
            && !looks_like(after_frames(s, front.take(i), arithmetic), front[i], arithmetic) by {
            assert(front[i] == frames[i]);
            assert(front.take(i) =~= frames.take(i));
        }
        lemma_pause_state(s, front, arithmetic);
        let before = after_frames(s, front, arithmetic);
        assert(frames[n - 1] == frames.last());
        assert(frames.take(n - 1) =~= front);
        lemma_frame(before, frames.last(), arithmetic);
        assert(!crate::pattern::is_greater(0, fallen(p, (n - 1) as nat, arithmetic)));
        assert(high.drop_last() =~= pause_highs(p, (n - 1) as nat, arithmetic));
        assert(high.last() == is_high(fallen(p, n, arithmetic)));
    }
}

} // verus!
