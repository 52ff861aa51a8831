//! Automatic gain control.
//!
//! The gain follows the level of the frames, fast when it has to rise and
//! slowly when it has to fall, and every sample that comes out is held within a
//! fixed range.  All levels and gains are decibels, carried like the samples as
//! bit patterns of single-precision numbers; the arithmetic on them is asked
//! for step by step.
use vstd::prelude::*;
use vstd::slice::slice_to_vec;
use crate::pattern::{clamp, greater};

verus! {

/// The level that frames are brought to: minus twenty.
pub const TARGET: u32 = 0xc1a0_0000;

/// The largest gain: thirty.
pub const MAX_GAIN: u32 = 0x41f0_0000;

/// The smallest gain: minus twenty.
pub const MIN_GAIN: u32 = 0xc1a0_0000;

/// How much of the way the gain goes in one frame when it rises: a fifth.
pub const ATTACK: u32 = 0x3e4c_cccd;

/// How much of the way the gain goes in one frame when it does not rise: a
/// thousandth.
pub const RELEASE: u32 = 0x3a83_126f;

/// The largest sample that comes out: 0.99.
pub const PEAK: u32 = 0x3f7d_70a4;

/// The smallest sample that comes out: minus 0.99.
pub const TROUGH: u32 = 0xbf7d_70a4;

/// What an [`Agc`] waits for.
#[derive(Clone, Copy, Debug, PartialEq, Eq, Structural)]
pub enum AgcStage {
    /// The next frame.
    Idle,
    /// How far the frame is from the target.
    Measuring,
    /// The new gain.
    Blending,
    /// The frame with the gain applied.
    Amplifying,
}

/// What an [`Agc`] is told.
#[derive(Debug)]
pub enum AgcEvent {
    /// A frame has come in.
    Frame(Vec<u32>),
    /// The target less the frame's level.
    Wanted(u32),
    /// The gain that the blend came to.
    Gain(u32),
    /// The frame's samples, each with the gain applied.
    Amplified(Vec<u32>),
}

/// What an [`Agc`] is told, as contracts speak of it.
#[verifier::ext_equal]
pub enum AgcEventView {
    Frame(Seq<u32>),
    Wanted(u32),
    Gain(u32),
    Amplified(Seq<u32>),
}

impl View for AgcEvent {
    type V = AgcEventView;

    open spec fn view(&self) -> AgcEventView {
        match self {
            AgcEvent::Frame(frame) => AgcEventView::Frame(frame@),
            AgcEvent::Wanted(wanted) => AgcEventView::Wanted(*wanted),
            AgcEvent::Gain(gain) => AgcEventView::Gain(*gain),
            AgcEvent::Amplified(frame) => AgcEventView::Amplified(frame@),
        }
    }
}

/// What an [`Agc`] asks for.
#[derive(Debug)]
pub enum AgcRequest {
    /// Subtract the level of `frame` from `target`.
    Measure { frame: Vec<u32>, target: u32 },
    /// Take `alpha` of `target` and the rest of `gain_db`.
    Blend { gain_db: u32, target: u32, alpha: u32 },
    /// Apply the gain `gain_db` to every sample of `frame`.
    Amplify { frame: Vec<u32>, gain_db: u32 },
    /// The frame is done.
    Done(Vec<u32>),
}

/// What an [`Agc`] asks for, as contracts speak of it.
#[verifier::ext_equal]
pub enum AgcRequestView {
    Measure { frame: Seq<u32>, target: u32 },
    Blend { gain_db: u32, target: u32, alpha: u32 },
    Amplify { frame: Seq<u32>, gain_db: u32 },
    Done(Seq<u32>),
}

impl View for AgcRequest {
    type V = AgcRequestView;

    open spec fn view(&self) -> AgcRequestView {
        match self {
            AgcRequest::Measure { frame, target } => AgcRequestView::Measure {
                frame: frame@,
                target: *target,
            },
            AgcRequest::Blend { gain_db, target, alpha } => AgcRequestView::Blend {
                gain_db: *gain_db,
                target: *target,
                alpha: *alpha,
            },
            AgcRequest::Amplify { frame, gain_db } => AgcRequestView::Amplify {
                frame: frame@,
                gain_db: *gain_db,
            },
            AgcRequest::Done(frame) => AgcRequestView::Done(frame@),
        }
    }
}

/// What an [`Agc`] remembers.
#[verifier::ext_equal]
pub struct AgcState {
    /// The gain that was applied last.
    pub gain: u32,
    /// The frame that is being levelled.
    pub frame: Seq<u32>,
    /// What is waited for.
    pub stage: AgcStage,
}

/// The state of a control that has levelled nothing.
pub open spec fn first_state() -> AgcState {
    AgcState { gain: crate::pattern::ZERO, frame: Seq::empty(), stage: AgcStage::Idle }
}

/// Whether an event is what is waited for, of the length that was asked for.
pub open spec fn awaits(s: AgcState, event: AgcEventView) -> bool {
    match event {
        AgcEventView::Frame(_) => s.stage == AgcStage::Idle,
        AgcEventView::Wanted(_) => s.stage == AgcStage::Measuring,
        AgcEventView::Gain(_) => s.stage == AgcStage::Blending,
        AgcEventView::Amplified(frame) => s.stage == AgcStage::Amplifying && frame.len()
            == s.frame.len(),
    }
}

/// What a state and an event lead to: the next state and request.
pub open spec fn next(s: AgcState, event: AgcEventView) -> (AgcState, AgcRequestView) {
    match event {
        AgcEventView::Frame(frame) => if frame.len() == 0 {
            (s, AgcRequestView::Done(frame))
        } else {
            (
                AgcState { frame, stage: AgcStage::Measuring, ..s },
                AgcRequestView::Measure { frame, target: TARGET },
            )
        },
        AgcEventView::Wanted(wanted) => (
            AgcState { stage: AgcStage::Blending, ..s },
            AgcRequestView::Blend {
                gain_db: s.gain,
                target: gain_aim(wanted),
                alpha: gain_step(s.gain, gain_aim(wanted)),
            },
        ),
        AgcEventView::Gain(gain) => (
            AgcState { gain, stage: AgcStage::Amplifying, ..s },
            AgcRequestView::Amplify { frame: s.frame, gain_db: gain },
        ),
        AgcEventView::Amplified(frame) => (
            AgcState { frame: Seq::empty(), stage: AgcStage::Idle, ..s },
            AgcRequestView::Done(limited(frame)),
        ),
    }
}

/// A frame with every sample held between [`TROUGH`] and [`PEAK`].
pub open spec fn limited(frame: Seq<u32>) -> Seq<u32> {
    frame.map_values(|s: u32| crate::pattern::clamped(s, TROUGH, PEAK))
}

/// Follows the level of a stream of frames.
pub struct Agc {
    gain_db: u32,
    frame: Vec<u32>,
    stage: AgcStage,
}

impl View for Agc {
    type V = AgcState;

    closed spec fn view(&self) -> AgcState {
        AgcState { gain: self.gain_db, frame: self.frame@, stage: self.stage }
    }
}

impl Agc {
    /// A control with no gain, waiting for the first frame.
    pub fn new() -> (r: Self)
        ensures
            r@ == first_state(),
    {
        Agc { gain_db: 0, frame: Vec::new(), stage: AgcStage::Idle }
    }

    /// Whether `event` is what is waited for, of the length that was asked for.
    pub fn is_awaiting(&self, event: &AgcEvent) -> (b: bool)
        ensures
            b == awaits(self@, event@),
    {
        match event {
            AgcEvent::Frame(_) => self.stage == AgcStage::Idle,
            AgcEvent::Wanted(_) => self.stage == AgcStage::Measuring,
            AgcEvent::Gain(_) => self.stage == AgcStage::Blending,
            AgcEvent::Amplified(frame) => self.stage == AgcStage::Amplifying && frame.len()
                == self.frame.len(),
        }
    }

    /// Takes one step.
    ///
    /// An empty frame is done at once, and leaves the gain as it is.
    pub fn process(&mut self, event: AgcEvent) -> (request: AgcRequest)
        requires
            awaits(old(self)@, event@),
        ensures
            (final(self)@, request@) == next(old(self)@, event@),
            event matches AgcEvent::Frame(frame) ==> {
                &&& final(self)@.gain == old(self)@.gain
                &&& frame@.len() == 0 ==> (request matches AgcRequest::Done(out) && out@.len() == 0)
                &&& frame@.len() > 0 ==> (request matches AgcRequest::Measure {
                    frame: measured,
                    target,
                } && measured@ == frame@ && target == 0xc1a0_0000)
            },
            event matches AgcEvent::Wanted(wanted) ==> {
                &&& request matches AgcRequest::Blend { gain_db, target, alpha }
                &&& gain_db == old(self)@.gain == final(self)@.gain
                &&& alpha == if crate::pattern::is_greater(target, gain_db) {
                    0x3e4c_cccd
                } else {
                    0x3a83_126fu32
                }
                &&& if crate::pattern::is_greater(wanted, 0x41f0_0000) {
                    target == 0x41f0_0000
                } else if crate::pattern::is_greater(0xc1a0_0000, wanted) {
                    target == 0xc1a0_0000
                } else {
                    target == wanted
                }
            },
            event matches AgcEvent::Gain(gain) ==> {
                &&& final(self)@.gain == gain
                &&& request matches AgcRequest::Amplify { frame, gain_db }
                &&& frame@ == old(self)@.frame
                &&& gain_db == gain
            },
            event matches AgcEvent::Amplified(frame) ==> {
                &&& final(self)@.gain == old(self)@.gain
                &&& request matches AgcRequest::Done(out)
                &&& out@.len() == frame@.len()
                &&& forall|i: int|
                    0 <= i < out@.len() ==> #[trigger] out@[i] == (
                    if crate::pattern::is_greater(frame@[i], 0x3f7d_70a4) {
                        0x3f7d_70a4
                    } else if crate::pattern::is_greater(0xbf7d_70a4, frame@[i]) {
                        0xbf7d_70a4
                    } else {
                        frame@[i]
                    })
            },
    {
        match event {
            AgcEvent::Frame(frame) => {
                if frame.len() == 0 {
                    AgcRequest::Done(frame)
                } else {
                    self.stage = AgcStage::Measuring;
                    self.frame = slice_to_vec(frame.as_slice());
                    AgcRequest::Measure { frame, target: TARGET }
                }
            },
            AgcEvent::Wanted(wanted) => {
                self.stage = AgcStage::Blending;
                let target: u32 = clamp(wanted, MIN_GAIN, MAX_GAIN);
                let alpha: u32 = if greater(target, self.gain_db) {
                    ATTACK
                } else {
                    RELEASE
                };
                AgcRequest::Blend { gain_db: self.gain_db, target, alpha }
            },
            AgcEvent::Gain(gain) => {
                self.gain_db = gain;
                self.stage = AgcStage::Amplifying;
                AgcRequest::Amplify { frame: slice_to_vec(self.frame.as_slice()), gain_db: gain }
            },
            AgcEvent::Amplified(frame) => {
                self.stage = AgcStage::Idle;
                self.frame = Vec::new();
                AgcRequest::Done(limit(frame))
            },
        }
    }
}

/// The gain to aim at for a frame that is `wanted` below the target.
pub open spec fn gain_aim(wanted: u32) -> u32 {
    crate::pattern::clamped(wanted, MIN_GAIN, MAX_GAIN)
}

/// How much of the way to go from `gain` to `aim`.
pub open spec fn gain_step(gain: u32, aim: u32) -> u32 {
    if crate::pattern::is_greater(aim, gain) {
        ATTACK
    } else {
        RELEASE
    }
}

/// Holds every sample of `frame` between [`TROUGH`] and [`PEAK`].
fn limit(frame: Vec<u32>) -> (out: Vec<u32>)
    ensures
        out@ == limited(frame@),
{
    let mut out: Vec<u32> = Vec::new();
    let mut i: usize = 0;
    while i < frame.len()
        invariant
            0 <= i <= frame@.len(),
            out@ == limited(frame@.take(i as int)),
        decreases frame@.len() - i,
    {
        out.push(clamp(frame[i], TROUGH, PEAK));
        assert(frame@.take(i + 1) =~= frame@.take(i as int).push(frame@[i as int]));
        assert(out@ =~= limited(frame@.take(i + 1)));
        i = i + 1;
    }
    assert(frame@.take(frame@.len() as int) =~= frame@);
    out
}

/// Whether no sample that is a number lies outside [`TROUGH`] to [`PEAK`].
pub open spec fn is_limited(frame: Seq<u32>) -> bool {
    forall|i: int|
        0 <= i < frame.len() && !crate::pattern::is_nan(#[trigger] frame[i])
            ==> crate::pattern::place(TROUGH) <= crate::pattern::place(frame[i])
            <= crate::pattern::place(PEAK)
}

/// Nothing that comes out is louder than the limit, nothing gets lost, and
/// what was within the limit is unchanged.
pub proof fn lemma_output_is_limited(frame: Seq<u32>)
    ensures
        limited(frame).len() == frame.len(),
        is_limited(limited(frame)),
        is_limited(frame) ==> limited(frame) == frame,
{
    assert forall|i: int|
        0 <= i < frame.len() && !crate::pattern::is_nan(
            #[trigger] limited(frame)[i],
        ) implies crate::pattern::place(TROUGH) <= crate::pattern::place(limited(frame)[i])
        <= crate::pattern::place(PEAK) by {
        crate::pattern::lemma_clamped(frame[i], TROUGH, PEAK);
    }
    if is_limited(frame) {
        assert forall|i: int| 0 <= i < frame.len() implies #[trigger] limited(frame)[i]
            == frame[i] by {
            crate::pattern::lemma_clamped(frame[i], TROUGH, PEAK);
        }
        assert(limited(frame) =~= frame);
    }
}

/// The gain aimed at lies within its bounds, whatever was measured, unless that
/// was not a number.
pub proof fn lemma_aim_is_bounded(wanted: u32)
    requires
        !crate::pattern::is_nan(wanted),
    ensures
        crate::pattern::place(MIN_GAIN) <= crate::pattern::place(gain_aim(wanted))
            <= crate::pattern::place(MAX_GAIN),
{
    crate::pattern::lemma_clamped(wanted, MIN_GAIN, MAX_GAIN);
}

/// Whether an event is of the kind and the length that a request asks for.
pub open spec fn answers(request: AgcRequestView, event: AgcEventView) -> bool {
    match request {
        AgcRequestView::Measure { .. } => event is Wanted,
        AgcRequestView::Blend { .. } => event is Gain,
        AgcRequestView::Amplify { frame, .. } => event matches AgcEventView::Amplified(out)
            && out.len() == frame.len(),
        AgcRequestView::Done(_) => true,
    }
}

/// Whether every request is answered in kind and in length.
pub open spec fn is_arithmetic(arithmetic: spec_fn(AgcRequestView) -> AgcEventView) -> bool {
    forall|request: AgcRequestView| answers(request, #[trigger] arithmetic(request))
}

/// How many steps there are at most until a frame is done, the next one among them.
pub open spec fn steps_left(stage: AgcStage) -> nat {
    match stage {
        AgcStage::Idle => 4,
        AgcStage::Measuring => 3,
        AgcStage::Blending => 2,
        AgcStage::Amplifying => 1,
    }
}

/// What a control remembers after an event and all that it asks for then, and what
/// the frame became.
pub open spec fn run(
    s: AgcState,
    event: AgcEventView,
    arithmetic: spec_fn(AgcRequestView) -> AgcEventView,
) -> (AgcState, Seq<u32>)
    decreases steps_left(s.stage),
{
    let (t, request) = next(s, event);
    match request {
        AgcRequestView::Done(out) => (t, out),
        _ => if awaits(s, event) {
            run(t, arithmetic(request), arithmetic)
        } else {
            (s, Seq::empty())
        },
    }
}

/// What a control remembers after a run of frames.
pub open spec fn after_frames(
    s: AgcState,
    frames: Seq<Seq<u32>>,
    arithmetic: spec_fn(AgcRequestView) -> AgcEventView,
) -> AgcState
    decreases frames.len(),
{
    if frames.len() == 0 {
        s
    } else {
        run(
            after_frames(s, frames.drop_last(), arithmetic),
            AgcEventView::Frame(frames.last()),
            arithmetic,
        ).0
    }
}

/// The target less the level of a frame.
pub open spec fn wanted_for(
    frame: Seq<u32>,
    arithmetic: spec_fn(AgcRequestView) -> AgcEventView,
) -> u32 {
    arithmetic(AgcRequestView::Measure { frame, target: TARGET })->Wanted_0
}

/// The gain for a frame that follows on the gain `gain`.
pub open spec fn gain_for(
    gain: u32,
    frame: Seq<u32>,
    arithmetic: spec_fn(AgcRequestView) -> AgcEventView,
) -> u32 {
    blended(gain, gain_aim(wanted_for(frame, arithmetic)), arithmetic)
}

/// Whether a number lies between two others.
pub open spec fn is_between(x: u32, a: u32, b: u32) -> bool {
    &&& !crate::pattern::is_nan(x)
    &&& {
        ||| crate::pattern::place(a) <= crate::pattern::place(x) <= crate::pattern::place(b)
        ||| crate::pattern::place(b) <= crate::pattern::place(x) <= crate::pattern::place(a)
    }
}

/// What blending a gain with another comes to.
pub open spec fn blended(
    gain: u32,
    aim: u32,
    arithmetic: spec_fn(AgcRequestView) -> AgcEventView,
) -> u32 {
    arithmetic(
        AgcRequestView::Blend { gain_db: gain, target: aim, alpha: gain_step(gain, aim) },
    )->Gain_0
}

/// Whether what blending two numbers comes to lies between them.
pub open spec fn blends_between(arithmetic: spec_fn(AgcRequestView) -> AgcEventView) -> bool {
    forall|gain: u32, aim: u32|
        !crate::pattern::is_nan(gain) && !crate::pattern::is_nan(aim) ==> is_between(
            #[trigger] blended(gain, aim, arithmetic),
            gain,
            aim,
        )
}

/// Whether what blending two gains within their bounds comes to lies within them.
/// This leaves room for rounding.
pub open spec fn blends_within(arithmetic: spec_fn(AgcRequestView) -> AgcEventView) -> bool {
    forall|gain: u32, aim: u32|
        is_between(gain, MIN_GAIN, MAX_GAIN) && is_between(aim, MIN_GAIN, MAX_GAIN)
            ==> is_between(#[trigger] blended(gain, aim, arithmetic), MIN_GAIN, MAX_GAIN)
}

/// What lies between two gains within their bounds lies within them.
pub proof fn lemma_between_is_within(arithmetic: spec_fn(AgcRequestView) -> AgcEventView)
    requires
        blends_between(arithmetic),
    ensures
        blends_within(arithmetic),
{
}

/// Every frame that is not empty is amplified with one gain, which is what the blend
/// came to, and then limited; an empty one changes nothing.
pub proof fn lemma_frame(
    s: AgcState,
    frame: Seq<u32>,
    arithmetic: spec_fn(AgcRequestView) -> AgcEventView,
)
    requires
        s.stage == AgcStage::Idle,
        is_arithmetic(arithmetic),
    ensures
        ({
            let (t, out) = run(s, AgcEventView::Frame(frame), arithmetic);
            if frame.len() == 0 {
                t == s && out == frame
            } else {
                let gain = gain_for(s.gain, frame, arithmetic);
                &&& t == (AgcState { gain, frame: Seq::empty(), stage: AgcStage::Idle })
                &&& out == limited(
                    arithmetic(AgcRequestView::Amplify { frame, gain_db: gain })->Amplified_0,
                )
            }
        }),
{
    if frame.len() > 0 {
        let e1 = AgcEventView::Frame(frame);
        let (s1, r1) = next(s, e1);
        let e2 = arithmetic(r1);
        let (s2, r2) = next(s1, e2);
        let e3 = arithmetic(r2);
        let (s3, r3) = next(s2, e3);
        let e4 = arithmetic(r3);
        assert(answers(r1, e2) && answers(r2, e3) && answers(r3, e4));
        assert(run(s, e1, arithmetic) == run(s1, e2, arithmetic));
        assert(run(s1, e2, arithmetic) == run(s2, e3, arithmetic));
        assert(run(s2, e3, arithmetic) == run(s3, e4, arithmetic));
    }
}

/// Over any run of frames whose levels are numbers, the gain stays between
/// [`MIN_GAIN`] and [`MAX_GAIN`], so long as blending two gains within these bounds
/// does not leave them.
pub proof fn lemma_gain_is_bounded(
    frames: Seq<Seq<u32>>,
    arithmetic: spec_fn(AgcRequestView) -> AgcEventView,
)
    requires
        is_arithmetic(arithmetic),
        blends_within(arithmetic),
        forall|i: int|
            0 <= i < frames.len() && frames[i].len() > 0 ==> !crate::pattern::is_nan(
                wanted_for(#[trigger] frames[i], arithmetic),
            ),
    ensures
        after_frames(first_state(), frames, arithmetic).stage == AgcStage::Idle,
        is_between(after_frames(first_state(), frames, arithmetic).gain, MIN_GAIN, MAX_GAIN),
    decreases frames.len(),
{
    if frames.len() > 0 {
        let front = frames.drop_last();
        assert forall|i: int|
            0 <= i < front.len() && front[i].len() > 0 implies !crate::pattern::is_nan(
            wanted_for(#[trigger] front[i], arithmetic),
        ) by {
            assert(front[i] == frames[i]);
        }
        lemma_gain_is_bounded(front, arithmetic);
        let s = after_frames(first_state(), front, arithmetic);
        let frame = frames.last();
        assert(frames[frames.len() - 1] == frame);
        lemma_frame(s, frame, arithmetic);
        if frame.len() > 0 {
            lemma_aim_is_bounded(wanted_for(frame, arithmetic));
        }
    }
}

/// While frames ask for the same gain, the gain moves towards it and never passes it,
/// so long as what blending two numbers comes to lies between them: it lies between
/// what it was before each frame and the gain that is asked for, and so between what
/// it was at first and that.
pub proof fn lemma_gain_approaches(
    s: AgcState,
    frames: Seq<Seq<u32>>,
    aim: u32,
    arithmetic: spec_fn(AgcRequestView) -> AgcEventView,
)
    requires
        s.stage == AgcStage::Idle,
        !crate::pattern::is_nan(s.gain),
        !crate::pattern::is_nan(aim),
        is_arithmetic(arithmetic),
        blends_between(arithmetic),
        forall|i: int|
            0 <= i < frames.len() && frames[i].len() > 0 ==> gain_aim(
                wanted_for(#[trigger] frames[i], arithmetic),
            ) == aim,
    ensures
        ({
            let t = after_frames(s, frames, arithmetic);
            &&& t.stage == AgcStage::Idle
            &&& is_between(t.gain, s.gain, aim)
            &&& frames.len() > 0 ==> is_between(
                t.gain,
                after_frames(s, frames.drop_last(), arithmetic).gain,
                aim,
            )
            &&& frames.len() > 0 && frames.last().len() == 0 ==> t == after_frames(
                s,
                frames.drop_last(),
                arithmetic,
            )
        }),
    decreases frames.len(),
{
    if frames.len() > 0 {
        let front = frames.drop_last();
        assert forall|i: int| 0 <= i < front.len() && front[i].len() > 0 implies gain_aim(
            wanted_for(#[trigger] front[i], arithmetic),
        ) == aim by {
            assert(front[i] == frames[i]);
        }
        lemma_gain_approaches(s, front, aim, arithmetic);
        assert(frames[frames.len() - 1] == frames.last());
        lemma_frame(after_frames(s, front, arithmetic), frames.last(), arithmetic);
    }
}

/// The gain aimed at is what was measured wherever that lies within the bounds, and
/// the nearer bound where it does not: minus twenty or thirty.  What is not a number
/// is aimed at as it is.
pub proof fn lemma_aim(wanted: u32)
    ensures
        crate::pattern::is_nan(wanted) ==> gain_aim(wanted) == wanted,
        !crate::pattern::is_nan(wanted) ==> {
            &&& crate::pattern::place(0xc1a0_0000) <= crate::pattern::place(wanted)
                <= crate::pattern::place(0x41f0_0000) ==> gain_aim(wanted) == wanted
            &&& crate::pattern::place(wanted) > crate::pattern::place(0x41f0_0000) ==> gain_aim(
                wanted,
            ) == 0x41f0_0000
            &&& crate::pattern::place(wanted) < crate::pattern::place(0xc1a0_0000) ==> gain_aim(
                wanted,
            ) == 0xc1a0_0000
        },
{
}

/// The louder a frame is wanted, the more gain is aimed at.
pub proof fn lemma_aim_rises(a: u32, b: u32)
    requires
        !crate::pattern::is_nan(a),
        !crate::pattern::is_nan(b),
        crate::pattern::place(a) <= crate::pattern::place(b),
    ensures
        crate::pattern::place(gain_aim(a)) <= crate::pattern::place(gain_aim(b)),
{
}

/// A gain that is below its aim goes a fifth of the way there, and every other one a
/// thousandth.
pub proof fn lemma_gain_step(gain: u32, aim: u32)
    requires
        !crate::pattern::is_nan(gain),
        !crate::pattern::is_nan(aim),
    ensures
        crate::pattern::place(gain) < crate::pattern::place(aim) ==> gain_step(gain, aim)
            == 0x3e4c_cccd,
        crate::pattern::place(gain) >= crate::pattern::place(aim) ==> gain_step(gain, aim)
            == 0x3a83_126f,
{
}

/// Every sample is limited by itself: one within the limits stays as it is, one beyond
/// them is held at the limit that it lies beyond.
pub proof fn lemma_sample_is_limited(frame: Seq<u32>, i: int)
    requires
        0 <= i < frame.len(),
    ensures
        limited(frame).len() == frame.len(),
        crate::pattern::is_nan(frame[i]) ==> limited(frame)[i] == frame[i],
        !crate::pattern::is_nan(frame[i]) ==> {
            let at = crate::pattern::place(frame[i]);
            &&& crate::pattern::place(0xbf7d_70a4) <= at <= crate::pattern::place(0x3f7d_70a4)
                ==> limited(frame)[i] == frame[i]
            &&& at > crate::pattern::place(0x3f7d_70a4) ==> limited(frame)[i] == 0x3f7d_70a4
            &&& at < crate::pattern::place(0xbf7d_70a4) ==> limited(frame)[i] == 0xbf7d_70a4
        },
{
}

/// How loud a frame is amplified depends on it and on the gain before it alone, and
/// what was measured is aimed at: where the measured gain lies within the bounds, the
/// gain is blended with it, and where the blend comes to its aim, it stays there for
/// as long as frames want the same.
pub proof fn lemma_settles_at_what_is_wanted(
    s: AgcState,
    frame: Seq<u32>,
    arithmetic: spec_fn(AgcRequestView) -> AgcEventView,
)
    requires
        s.stage == AgcStage::Idle,
        frame.len() > 0,
        is_arithmetic(arithmetic),
        blends_between(arithmetic),
        !crate::pattern::is_nan(wanted_for(frame, arithmetic)),
        crate::pattern::place(0xc1a0_0000) <= crate::pattern::place(
            wanted_for(frame, arithmetic),
        ) <= crate::pattern::place(0x41f0_0000),
        !crate::pattern::is_nan(s.gain),
    ensures
        ({
            let wanted = wanted_for(frame, arithmetic);
            let gain = run(s, AgcEventView::Frame(frame), arithmetic).0.gain;
            &&& is_between(gain, s.gain, wanted)
            &&& crate::pattern::place(s.gain) == crate::pattern::place(wanted)
                ==> crate::pattern::place(gain) == crate::pattern::place(wanted)
        }),
{
    lemma_frame(s, frame, arithmetic);
    lemma_aim(wanted_for(frame, arithmetic));
}

/// What each step asks for: the frame is measured against minus twenty, the gain is
/// blended with its aim, the same frame is amplified with what that came to, and what
/// comes back is limited.  Nothing but the blend changes the gain.
pub proof fn lemma_asks(s: AgcState, event: AgcEventView)
    ensures
        ({
            let (t, request) = next(s, event);
            match event {
                AgcEventView::Frame(frame) => t.gain == s.gain && if frame.len() == 0 {
                    t == s && request == AgcRequestView::Done(frame)
                } else {
                    &&& (request == AgcRequestView::Measure { frame, target: 0xc1a0_0000 })
                    &&& t.frame == frame
                },
                AgcEventView::Wanted(wanted) => {
                    &&& request matches AgcRequestView::Blend { gain_db, target, alpha }
                    &&& gain_db == s.gain
                    &&& target == gain_aim(wanted)
                    &&& alpha == gain_step(s.gain, target)
                    &&& (t.gain, t.frame) == (s.gain, s.frame)
                },
                AgcEventView::Gain(gain) => {
                    &&& (request == AgcRequestView::Amplify { frame: s.frame, gain_db: gain })
                    &&& (t.gain, t.frame) == (gain, s.frame)
                },
                AgcEventView::Amplified(frame) => {
                    &&& request == AgcRequestView::Done(limited(frame))
                    &&& t.gain == s.gain
                },
            }
        }),
        awaits(s, event) && next(s, event).1 !is Done ==> forall|e: AgcEventView|
            #[trigger] answers(next(s, event).1, e) ==> awaits(next(s, event).0, e),
        awaits(s, event) && next(s, event).1 is Done ==> forall|frame: Seq<u32>|
            #[trigger] awaits(next(s, event).0, AgcEventView::Frame(frame)),
        first_state() == (AgcState { gain: 0, frame: Seq::empty(), stage: AgcStage::Idle }),
{
}

} // verus!
