//! Capturing sound: what a capture thread does with the audio system, step by
//! step, and what the rest of the program sees of it.
//!
//! The thread opens the device, learns its format, and then takes packets until
//! it is told to stop.  Each step asks for one call and is told how it went.
//! However the thread ends, it gives back what it holds.
use vstd::prelude::*;
use crate::convert::{convert_packet, packet_bytes, Converted, ConvertedView, PacketLayout};
use crate::format::MixFormat;

verus! {

/// The error of a call for a packet that is no cause for a report.
pub const QUIET_ERROR: u32 = 0x8889_0001;

/// How long a wait for a packet lasts, in milliseconds.
pub const WAIT_MILLIS: u32 = 100;

/// What a wait returns when there is a packet.
pub const WAIT_OBJECT_0: u32 = 0;

/// How much the device is to buffer, in units of a hundred nanoseconds: ten
/// milliseconds' worth would be less than the smallest that is asked for.
pub const BUFFER_DURATION: i64 = 2_000_000;

/// Which of its microphones the audio system is asked for.
#[derive(Clone, Copy, Debug, PartialEq, Eq, Structural)]
pub enum EndpointRole {
    Communications,
    Console,
}

/// What a capture thread waits for.
#[derive(Clone, Copy, Debug, PartialEq, Eq, Structural)]
pub enum CaptureStage {
    InitializingCom,
    CreatingEnumerator,
    OpeningEndpoint { role: EndpointRole },
    Activating,
    ReadingFormat,
    Publishing,
    CreatingEvent,
    InitializingClient,
    GettingService,
    SettingEvent,
    Starting,
    CheckingStop,
    Waiting,
    Fetching,
    /// A packet that holds nothing is given back.
    Discarding,
    /// A packet is read.
    Reading,
    /// Its samples are scaled.
    Scaling,
    Releasing,
    Delivering,
    Ended,
}

/// What a capture thread is told.
#[allow(inconsistent_fields)]
#[derive(Debug)]
pub enum CaptureEvent {
    /// The code that initialising the component system returned.
    ComInitialized { code: i32 },
    /// The call went well, and there is no more to tell.
    Completed,
    /// The call failed with this code.
    Failed { code: u32 },
    /// The format of the device.
    FormatRead { format: MixFormat },
    /// The handle of an event object.
    EventCreated { handle: isize },
    /// Whether the thread is to stop.
    StopChecked { requested: bool },
    /// What the wait returned.
    Waited { result: u32 },
    /// A packet of so many frames; `present` tells whether there is data.
    Packet { frames: u32, present: bool, flags: u32 },
    /// The bytes of the packet.
    PacketRead { data: Vec<u8> },
    /// The samples of the packet, scaled as they were to be.
    Scaled { samples: Vec<u32> },
}

/// What a capture thread is told, as contracts speak of it.
#[allow(inconsistent_fields)]
#[verifier::ext_equal]
pub enum CaptureEventView {
    ComInitialized { code: i32 },
    Completed,
    Failed { code: u32 },
    FormatRead { format: MixFormat },
    EventCreated { handle: isize },
    StopChecked { requested: bool },
    Waited { result: u32 },
    Packet { frames: u32, present: bool, flags: u32 },
    PacketRead { data: Seq<u8> },
    Scaled { samples: Seq<u32> },
}

impl View for CaptureEvent {
    type V = CaptureEventView;

    open spec fn view(&self) -> CaptureEventView {
        match self {
            CaptureEvent::ComInitialized { code } => CaptureEventView::ComInitialized {
                code: *code,
            },
            CaptureEvent::Completed => CaptureEventView::Completed,
            CaptureEvent::Failed { code } => CaptureEventView::Failed { code: *code },
            CaptureEvent::FormatRead { format } => CaptureEventView::FormatRead { format: *format },
            CaptureEvent::EventCreated { handle } => CaptureEventView::EventCreated {
                handle: *handle,
            },
            CaptureEvent::StopChecked { requested } => CaptureEventView::StopChecked {
                requested: *requested,
            },
            CaptureEvent::Waited { result } => CaptureEventView::Waited { result: *result },
            CaptureEvent::Packet { frames, present, flags } => CaptureEventView::Packet {
                frames: *frames,
                present: *present,
                flags: *flags,
            },
            CaptureEvent::PacketRead { data } => CaptureEventView::PacketRead { data: data@ },
            CaptureEvent::Scaled { samples } => CaptureEventView::Scaled { samples: samples@ },
        }
    }
}

/// Why a capture thread ended before it was told to.
#[derive(Clone, Copy, Debug, PartialEq, Eq, Structural)]
pub enum CaptureFailure {
    Com,
    Enumerator,
    Endpoint,
    Activation,
    MixFormat,
    Event,
    InvalidEvent,
    Client,
    Service,
    EventHandle,
    Start,
}

/// What a capture thread gives back when it ends: it stops the client, closes
/// the event and frees the format, in this order and as far as marked.
#[derive(Clone, Copy, Debug, PartialEq, Eq, Structural)]
pub struct Cleanup {
    pub failure: Option<CaptureFailure>,
    pub stop_client: bool,
    pub close_event: bool,
    pub free_format: bool,
}

/// What a capture thread asks for.
#[derive(Debug, PartialEq, Eq)]
pub enum CaptureRequest {
    InitializeCom,
    CreateEnumerator,
    OpenEndpoint { role: EndpointRole },
    Activate,
    ReadFormat,
    /// Tell the rest of the program the format.
    Publish { channels: u16, sample_rate: u32 },
    CreateEvent,
    InitializeClient { duration: i64 },
    GetService,
    SetEvent,
    Start,
    /// Look whether to stop; report the error first where there is one.
    CheckStop { report: Option<u32> },
    Wait { millis: u32 },
    GetPacket,
    /// Read so many bytes of the packet.
    ReadPacket { bytes: usize },
    /// Divide the samples of the packet by their full scale.
    Scale { converted: Converted },
    Release { frames: u32 },
    /// Queue the samples of the packet.
    Deliver { samples: Vec<u32> },
    Finish { cleanup: Cleanup },
}

/// What a capture thread asks for, as contracts speak of it.
#[verifier::ext_equal]
pub enum CaptureRequestView {
    InitializeCom,
    CreateEnumerator,
    OpenEndpoint { role: EndpointRole },
    Activate,
    ReadFormat,
    Publish { channels: u16, sample_rate: u32 },
    CreateEvent,
    InitializeClient { duration: i64 },
    GetService,
    SetEvent,
    Start,
    CheckStop { report: Option<u32> },
    Wait { millis: u32 },
    GetPacket,
    ReadPacket { bytes: int },
    Scale { converted: ConvertedView },
    Release { frames: u32 },
    Deliver { samples: Seq<u32> },
    Finish { cleanup: Cleanup },
}

impl View for CaptureRequest {
    type V = CaptureRequestView;

    open spec fn view(&self) -> CaptureRequestView {
        match self {
            CaptureRequest::InitializeCom => CaptureRequestView::InitializeCom,
            CaptureRequest::CreateEnumerator => CaptureRequestView::CreateEnumerator,
            CaptureRequest::OpenEndpoint { role } => CaptureRequestView::OpenEndpoint {
                role: *role,
            },
            CaptureRequest::Activate => CaptureRequestView::Activate,
            CaptureRequest::ReadFormat => CaptureRequestView::ReadFormat,
            CaptureRequest::Publish { channels, sample_rate } => CaptureRequestView::Publish {
                channels: *channels,
                sample_rate: *sample_rate,
            },
            CaptureRequest::CreateEvent => CaptureRequestView::CreateEvent,
            CaptureRequest::InitializeClient { duration } => CaptureRequestView::InitializeClient {
                duration: *duration,
            },
            CaptureRequest::GetService => CaptureRequestView::GetService,
            CaptureRequest::SetEvent => CaptureRequestView::SetEvent,
            CaptureRequest::Start => CaptureRequestView::Start,
            CaptureRequest::CheckStop { report } => CaptureRequestView::CheckStop {
                report: *report,
            },
            CaptureRequest::Wait { millis } => CaptureRequestView::Wait {
                millis: *millis,
            },
            CaptureRequest::GetPacket => CaptureRequestView::GetPacket,
            CaptureRequest::ReadPacket { bytes } => CaptureRequestView::ReadPacket {
                bytes: *bytes as int,
            },
            CaptureRequest::Scale { converted } => CaptureRequestView::Scale {
                converted: converted@,
            },
            CaptureRequest::Release { frames } => CaptureRequestView::Release {
                frames: *frames,
            },
            CaptureRequest::Deliver { samples } => CaptureRequestView::Deliver {
                samples: samples@,
            },
            CaptureRequest::Finish { cleanup } => CaptureRequestView::Finish {
                cleanup: *cleanup,
            },
        }
    }
}

/// A capture thread between two calls.
#[verifier::ext_equal]
pub struct CaptureState {
    pub stage: CaptureStage,
    pub layout: PacketLayout,
    /// How many frames the latest packet had, and its flags.
    pub frames: u32,
    pub flags: u32,
    /// How many bytes or samples were asked for.
    pub asked: int,
    /// Samples that are to be queued.
    pub samples: Seq<u32>,
}

/// How samples lie in the packets of a device with this format.
pub open spec fn layout_of(format: MixFormat) -> PacketLayout {
    PacketLayout {
        channels: format.wave.channels,
        bits: format.bits,
        is_float: format.is_float,
        block_align: format.wave.block_align,
    }
}

/// Whether the thread holds the memory of the format.
pub open spec fn holds_format(stage: CaptureStage) -> bool {
    match stage {
        CaptureStage::InitializingCom
        | CaptureStage::CreatingEnumerator
        | CaptureStage::OpeningEndpoint { .. }
        | CaptureStage::Activating
        | CaptureStage::ReadingFormat
        | CaptureStage::Ended => false,
        _ => true,
    }
}

/// Whether the thread holds an event.
pub open spec fn holds_event(stage: CaptureStage) -> bool {
    holds_format(stage) && stage != CaptureStage::Publishing && stage
        != CaptureStage::CreatingEvent
}

/// Whether the thread has the device running.
pub open spec fn is_streaming(stage: CaptureStage) -> bool {
    match stage {
        CaptureStage::CheckingStop
        | CaptureStage::Waiting
        | CaptureStage::Fetching
        | CaptureStage::Discarding
        | CaptureStage::Reading
        | CaptureStage::Scaling
        | CaptureStage::Releasing
        | CaptureStage::Delivering => true,
        _ => false,
    }
}

/// Whether a number is the handle of anything.
pub open spec fn is_handle(handle: isize) -> bool {
    handle != 0 && handle != -1
}

/// The failure that a failed call amounts to in each stage before the device
/// runs.
pub open spec fn failure_in(stage: CaptureStage) -> CaptureFailure {
    match stage {
        CaptureStage::InitializingCom => CaptureFailure::Com,
        CaptureStage::CreatingEnumerator => CaptureFailure::Enumerator,
        CaptureStage::OpeningEndpoint { .. } => CaptureFailure::Endpoint,
        CaptureStage::Activating => CaptureFailure::Activation,
        CaptureStage::ReadingFormat => CaptureFailure::MixFormat,
        CaptureStage::CreatingEvent => CaptureFailure::Event,
        CaptureStage::InitializingClient => CaptureFailure::Client,
        CaptureStage::GettingService => CaptureFailure::Service,
        CaptureStage::SettingEvent => CaptureFailure::EventHandle,
        _ => CaptureFailure::Start,
    }
}

/// Ending in a stage: what is held is given back.
pub open spec fn ending(
    stage: CaptureStage,
    failure: Option<CaptureFailure>,
) -> CaptureRequestView {
    CaptureRequestView::Finish {
        cleanup: Cleanup {
            failure,
            stop_client: is_streaming(stage),
            close_event: holds_event(stage),
            free_format: holds_format(stage),
        },
    }
}

/// Whether an event can follow, of the length that was asked for.
pub open spec fn awaits(state: CaptureState, event: CaptureEventView) -> bool {
    match state.stage {
        CaptureStage::InitializingCom => event is ComInitialized,
        CaptureStage::CreatingEnumerator
        | CaptureStage::OpeningEndpoint { .. }
        | CaptureStage::Activating
        | CaptureStage::InitializingClient
        | CaptureStage::GettingService
        | CaptureStage::SettingEvent
        | CaptureStage::Starting => event is Completed || event is Failed,
        CaptureStage::ReadingFormat => event is FormatRead || event is Failed,
        CaptureStage::CreatingEvent => event is EventCreated || event is Failed,
        CaptureStage::Publishing
        | CaptureStage::Discarding
        | CaptureStage::Releasing
        | CaptureStage::Delivering => event is Completed,
        CaptureStage::CheckingStop => event is StopChecked,
        CaptureStage::Waiting => event is Waited,
        CaptureStage::Fetching => event is Packet || event is Failed,
        CaptureStage::Reading => event matches CaptureEventView::PacketRead { data } && data.len()
            == state.asked,
        CaptureStage::Scaling => event matches CaptureEventView::Scaled { samples }
            && samples.len() == state.asked,
        CaptureStage::Ended => false,
    }
}

/// Whether a packet that an event tells of can be taken on this machine.
pub open spec fn can_take(state: CaptureState, event: CaptureEventView) -> bool {
    event matches CaptureEventView::Packet { frames, present, flags } ==> frames == 0 || !present
        || (crate::convert::sample_count(state.layout, frames) <= usize::MAX
        && crate::convert::bytes_needed(state.layout, frames, flags) <= usize::MAX)
}

/// A packet that is read can be taken, and is read as far as it is looked at.
pub open spec fn is_valid(state: CaptureState) -> bool {
    state.stage == CaptureStage::Reading ==> {
        &&& crate::convert::sample_count(state.layout, state.frames) <= usize::MAX
        &&& state.asked == crate::convert::bytes_needed(state.layout, state.frames, state.flags)
    }
}

/// What a state and an event lead to: the next stage and request.
pub open spec fn next(state: CaptureState, event: CaptureEventView) -> (
    CaptureStage,
    CaptureRequestView,
) {
    let stage = state.stage;
    match (stage, event) {
        // A code that is not negative is a success, the one for "already
        // initialised" among them.
        (CaptureStage::InitializingCom, CaptureEventView::ComInitialized { code }) => if code < 0 {
            (CaptureStage::Ended, ending(stage, Some(CaptureFailure::Com)))
        } else {
            (CaptureStage::CreatingEnumerator, CaptureRequestView::CreateEnumerator)
        },
        (
            CaptureStage::OpeningEndpoint { role: EndpointRole::Communications },
            CaptureEventView::Failed { .. },
        ) => (
            CaptureStage::OpeningEndpoint { role: EndpointRole::Console },
            CaptureRequestView::OpenEndpoint { role: EndpointRole::Console },
        ),
        // Without the packet there is nothing to give up: the thread waits for
        // the next.
        (CaptureStage::Fetching, CaptureEventView::Failed { code }) => (
            CaptureStage::CheckingStop,
            CaptureRequestView::CheckStop {
                report: if code == QUIET_ERROR {
                    None
                } else {
                    Some(code)
                },
            },
        ),
        (_, CaptureEventView::Failed { .. }) => (
            CaptureStage::Ended,
            ending(stage, Some(failure_in(stage))),
        ),
        (CaptureStage::CreatingEnumerator, _) => (
            CaptureStage::OpeningEndpoint { role: EndpointRole::Communications },
            CaptureRequestView::OpenEndpoint { role: EndpointRole::Communications },
        ),
        (CaptureStage::OpeningEndpoint { .. }, _) => (
            CaptureStage::Activating,
            CaptureRequestView::Activate,
        ),
        (CaptureStage::Activating, _) => (
            CaptureStage::ReadingFormat,
            CaptureRequestView::ReadFormat,
        ),
        (CaptureStage::ReadingFormat, CaptureEventView::FormatRead { format }) => (
            CaptureStage::Publishing,
            CaptureRequestView::Publish {
                channels: format.wave.channels,
                sample_rate: format.wave.samples_per_sec,
            },
        ),
        (CaptureStage::Publishing, _) => (
            CaptureStage::CreatingEvent,
            CaptureRequestView::CreateEvent,
        ),
        (CaptureStage::CreatingEvent, CaptureEventView::EventCreated { handle }) => if is_handle(
            handle,
        ) {
            (
                CaptureStage::InitializingClient,
                CaptureRequestView::InitializeClient { duration: BUFFER_DURATION },
            )
        } else {
            (CaptureStage::Ended, ending(stage, Some(CaptureFailure::InvalidEvent)))
        },
        (CaptureStage::InitializingClient, _) => (
            CaptureStage::GettingService,
            CaptureRequestView::GetService,
        ),
        (CaptureStage::GettingService, _) => (
            CaptureStage::SettingEvent,
            CaptureRequestView::SetEvent,
        ),
        (CaptureStage::SettingEvent, _) => (CaptureStage::Starting, CaptureRequestView::Start),
        (CaptureStage::CheckingStop, CaptureEventView::StopChecked { requested }) => if requested {
            (CaptureStage::Ended, ending(stage, None))
        } else {
            (CaptureStage::Waiting, CaptureRequestView::Wait { millis: WAIT_MILLIS })
        },
        (CaptureStage::Waiting, CaptureEventView::Waited { result }) => if result
            == WAIT_OBJECT_0 {
            (CaptureStage::Fetching, CaptureRequestView::GetPacket)
        } else {
            (CaptureStage::CheckingStop, CaptureRequestView::CheckStop { report: None })
        },
        (CaptureStage::Fetching, CaptureEventView::Packet { frames, present, flags }) => if frames
            == 0 || !present {
            (CaptureStage::Discarding, CaptureRequestView::Release { frames: 0 })
        } else {
            (
                CaptureStage::Reading,
                CaptureRequestView::ReadPacket {
                    bytes: crate::convert::bytes_needed(state.layout, frames, flags),
                },
            )
        },
        (CaptureStage::Reading, CaptureEventView::PacketRead { data }) => (
            CaptureStage::Scaling,
            CaptureRequestView::Scale { converted: packet_samples(state, data) },
        ),
        (CaptureStage::Scaling, _) => (
            CaptureStage::Releasing,
            CaptureRequestView::Release { frames: state.frames },
        ),
        (CaptureStage::Releasing, _) => if state.samples.len() > 0 {
            (CaptureStage::Delivering, CaptureRequestView::Deliver { samples: state.samples })
        } else {
            (CaptureStage::Fetching, CaptureRequestView::GetPacket)
        },
        (CaptureStage::Delivering, _) => (CaptureStage::Fetching, CaptureRequestView::GetPacket),
        // The device runs, or a packet held nothing.
        _ => (CaptureStage::CheckingStop, CaptureRequestView::CheckStop { report: None }),
    }
}

/// The samples in the bytes of the packet that is being taken.
pub open spec fn packet_samples(state: CaptureState, data: Seq<u8>) -> ConvertedView {
    crate::convert::conversion(state.layout, state.frames, state.flags, data)
}

/// The state that a state and an event lead to.
pub open spec fn next_state(state: CaptureState, event: CaptureEventView) -> CaptureState {
    let moved = CaptureState { stage: next(state, event).0, ..state };
    match event {
        CaptureEventView::FormatRead { format } => CaptureState {
            layout: layout_of(format),
            ..moved
        },
        CaptureEventView::Packet { frames, present, flags } => if frames == 0 || !present {
            moved
        } else {
            CaptureState {
                frames,
                flags,
                asked: crate::convert::bytes_needed(state.layout, frames, flags),
                ..moved
            }
        },
        CaptureEventView::PacketRead { data } => CaptureState {
            asked: crate::convert::count_of(packet_samples(state, data)),
            ..moved
        },
        CaptureEventView::Scaled { samples } => CaptureState { samples, ..moved },
        _ => if state.stage == CaptureStage::Releasing {
            CaptureState { samples: Seq::empty(), ..moved }
        } else {
            moved
        },
    }
}

/// Whether a result code tells of a failure, by
/// `windows::core::HRESULT::is_err`: the contract says that these are the
/// negative codes.
#[verifier::external_body]
fn is_failure_code(code: i32) -> (r: bool)
    ensures
        r == (code < 0),
{
    windows::core::HRESULT(code).is_err()
}

/// Whether a number is no handle, by
/// `windows::Win32::Foundation::HANDLE::is_invalid`: the contract says that these
/// are zero and minus one.
#[verifier::external_body]
fn is_invalid_handle(handle: isize) -> (r: bool)
    ensures
        r == !is_handle(handle),
{
    windows::Win32::Foundation::HANDLE(handle).is_invalid()
}

/// A capture thread.
pub struct CaptureSession {
    stage: CaptureStage,
    layout: PacketLayout,
    frames: u32,
    flags: u32,
    asked: usize,
    samples: Vec<u32>,
}

impl View for CaptureSession {
    type V = CaptureState;

    closed spec fn view(&self) -> CaptureState {
        CaptureState {
            stage: self.stage,
            layout: self.layout,
            frames: self.frames,
            flags: self.flags,
            asked: self.asked as int,
            samples: self.samples@,
        }
    }
}

impl CaptureSession {
    /// The state is one that a thread can be in.
    pub open spec fn wf(&self) -> bool {
        is_valid(self@)
    }

    /// A thread that has yet to initialise the component system.
    pub fn new() -> (r: (Self, CaptureRequest))
        ensures
            r.0.wf(),
            r.0@ == first_state(),
            r.1@ == CaptureRequestView::InitializeCom,
    {
        let session = CaptureSession {
            stage: CaptureStage::InitializingCom,
            layout: PacketLayout { channels: 0, bits: 0, is_float: false, block_align: 0 },
            frames: 0,
            flags: 0,
            asked: 0,
            samples: Vec::new(),
        };
        assert(session@.samples =~= Seq::empty());
        (session, CaptureRequest::InitializeCom)
    }

    /// Whether an event can follow, of the length that was asked for, and can be
    /// taken on this machine.
    pub fn is_awaiting(&self, event: &CaptureEvent) -> (b: bool)
        ensures
            b == (awaits(self@, event@) && can_take(self@, event@)),
    {
        match self.stage {
            CaptureStage::InitializingCom => matches!(event, CaptureEvent::ComInitialized { .. }),
            CaptureStage::CreatingEnumerator
            | CaptureStage::OpeningEndpoint { .. }
            | CaptureStage::Activating
            | CaptureStage::InitializingClient
            | CaptureStage::GettingService
            | CaptureStage::SettingEvent
            | CaptureStage::Starting => matches!(
                event,
                CaptureEvent::Completed | CaptureEvent::Failed { .. }
            ),
            CaptureStage::ReadingFormat => matches!(
                event,
                CaptureEvent::FormatRead { .. } | CaptureEvent::Failed { .. }
            ),
            CaptureStage::CreatingEvent => matches!(
                event,
                CaptureEvent::EventCreated { .. } | CaptureEvent::Failed { .. }
            ),
            CaptureStage::Publishing
            | CaptureStage::Discarding
            | CaptureStage::Releasing
            | CaptureStage::Delivering => matches!(event, CaptureEvent::Completed),
            CaptureStage::CheckingStop => matches!(event, CaptureEvent::StopChecked { .. }),
            CaptureStage::Waiting => matches!(event, CaptureEvent::Waited { .. }),
            CaptureStage::Fetching => match event {
                CaptureEvent::Packet { frames, present, flags } => *frames == 0 || !*present
                    || packet_bytes(self.layout, *frames, *flags).is_some(),
                CaptureEvent::Failed { .. } => true,
                _ => false,
            },
            CaptureStage::Reading => match event {
                CaptureEvent::PacketRead { data } => data.len() == self.asked,
                _ => false,
            },
            CaptureStage::Scaling => match event {
                CaptureEvent::Scaled { samples } => samples.len() == self.asked,
                _ => false,
            },
            CaptureStage::Ended => false,
        }
    }

    /// Takes one step.
    pub fn step(&mut self, event: CaptureEvent) -> (request: CaptureRequest)
        requires
            old(self).wf(),
            awaits(old(self)@, event@),
            can_take(old(self)@, event@),
        ensures
            final(self).wf(),
            final(self)@ == next_state(old(self)@, event@),
            request@ == next(old(self)@, event@).1,
            event matches CaptureEvent::FormatRead { format } ==> {
                let layout = final(self)@.layout;
                &&& layout.channels == format.wave.channels
                &&& layout.bits == format.bits
                &&& layout.is_float == format.is_float
                &&& layout.block_align == format.wave.block_align
                &&& request matches CaptureRequest::Publish { channels, sample_rate }
                &&& channels == format.wave.channels
                &&& sample_rate == format.wave.samples_per_sec
            },
            event !is FormatRead ==> final(self)@.layout == old(self)@.layout,
            event matches CaptureEvent::PacketRead { data } ==> (request matches CaptureRequest::Scale {
                converted,
            } && converted@ == crate::convert::conversion(
                old(self)@.layout,
                old(self)@.frames,
                old(self)@.flags,
                data@,
            )),
            event matches CaptureEvent::Scaled { samples } ==> final(self)@.samples == samples@ && (
            request matches CaptureRequest::Release { frames } && frames == old(self)@.frames),
    {
        match event {
            CaptureEvent::ComInitialized { code } => if is_failure_code(code) {
                self.end(Some(CaptureFailure::Com))
            } else {
                self.go(CaptureStage::CreatingEnumerator, CaptureRequest::CreateEnumerator)
            },
            CaptureEvent::Completed => self.complete(),
            CaptureEvent::Failed { code } => self.fail(code),
            CaptureEvent::FormatRead { format } => {
                self.layout = PacketLayout {
                    channels: format.wave.channels,
                    bits: format.bits,
                    is_float: format.is_float,
                    block_align: format.wave.block_align,
                };
                self.go(
                    CaptureStage::Publishing,
                    CaptureRequest::Publish {
                        channels: format.wave.channels,
                        sample_rate: format.wave.samples_per_sec,
                    },
                )
            },
            CaptureEvent::EventCreated { handle } => if is_invalid_handle(handle) {
                self.end(Some(CaptureFailure::InvalidEvent))
            } else {
                self.go(
                    CaptureStage::InitializingClient,
                    CaptureRequest::InitializeClient { duration: BUFFER_DURATION },
                )
            },
            CaptureEvent::StopChecked { requested } => if requested {
                self.end(None)
            } else {
                self.go(CaptureStage::Waiting, CaptureRequest::Wait { millis: WAIT_MILLIS })
            },
            CaptureEvent::Waited { result } => if result == WAIT_OBJECT_0 {
                self.go(CaptureStage::Fetching, CaptureRequest::GetPacket)
            } else {
                self.go(CaptureStage::CheckingStop, CaptureRequest::CheckStop { report: None })
            },
            CaptureEvent::Packet { frames, present, flags } => self.take(frames, present, flags),
            CaptureEvent::PacketRead { data } => {
                let converted: Converted = convert_packet(
                    data.as_slice(),
                    self.frames,
                    self.flags,
                    self.layout,
                );
                self.asked = converted.len();
                self.go(CaptureStage::Scaling, CaptureRequest::Scale { converted })
            },
            CaptureEvent::Scaled { samples } => {
                let frames: u32 = self.frames;
                self.samples = samples;
                self.go(CaptureStage::Releasing, CaptureRequest::Release { frames })
            },
        }
    }

    /// Asks for the bytes of a packet; one that holds nothing is given back.
    fn take(&mut self, frames: u32, present: bool, flags: u32) -> (request: CaptureRequest)
        requires
            old(self)@.stage == CaptureStage::Fetching,
            can_take(old(self)@, CaptureEventView::Packet { frames, present, flags }),
        ensures
            final(self).wf(),
            ({
                let event = CaptureEventView::Packet { frames, present, flags };
                &&& final(self)@ == next_state(old(self)@, event)
                &&& request@ == next(old(self)@, event).1
            }),
    {
        if frames == 0 || !present {
            return self.go(CaptureStage::Discarding, CaptureRequest::Release { frames: 0 });
        }
        let bytes: usize = match packet_bytes(self.layout, frames, flags) {
            Some(bytes) => bytes,
            None => 0,
        };
        self.frames = frames;
        self.flags = flags;
        self.asked = bytes;
        self.go(CaptureStage::Reading, CaptureRequest::ReadPacket { bytes })
    }

    fn go(&mut self, stage: CaptureStage, request: CaptureRequest) -> (r: CaptureRequest)
        ensures
            final(self)@ == (CaptureState { stage, ..old(self)@ }),
            r == request,
    {
        self.stage = stage;
        request
    }

    /// Ends, and gives back what is held.
    fn end(&mut self, failure: Option<CaptureFailure>) -> (request: CaptureRequest)
        ensures
            final(self)@ == (CaptureState { stage: CaptureStage::Ended, ..old(self)@ }),
            request@ == ending(old(self)@.stage, failure),
    {
        let free_format: bool = !matches!(
            self.stage,
            CaptureStage::InitializingCom
            | CaptureStage::CreatingEnumerator
            | CaptureStage::OpeningEndpoint { .. }
            | CaptureStage::Activating
            | CaptureStage::ReadingFormat
            | CaptureStage::Ended
        );
        let close_event: bool = free_format && !matches!(
            self.stage,
            CaptureStage::Publishing | CaptureStage::CreatingEvent
        );
        let stop_client: bool = matches!(
            self.stage,
            CaptureStage::CheckingStop
            | CaptureStage::Waiting
            | CaptureStage::Fetching
            | CaptureStage::Discarding
            | CaptureStage::Reading
            | CaptureStage::Scaling
            | CaptureStage::Releasing
            | CaptureStage::Delivering
        );
        self.stage = CaptureStage::Ended;
        CaptureRequest::Finish {
            cleanup: Cleanup { failure, stop_client, close_event, free_format },
        }
    }

    fn complete(&mut self) -> (request: CaptureRequest)
        requires
            awaits(old(self)@, CaptureEventView::Completed),
        ensures
            final(self)@ == next_state(old(self)@, CaptureEventView::Completed),
            request@ == next(old(self)@, CaptureEventView::Completed).1,
    {
        match self.stage {
            CaptureStage::CreatingEnumerator => self.go(
                CaptureStage::OpeningEndpoint { role: EndpointRole::Communications },
                CaptureRequest::OpenEndpoint { role: EndpointRole::Communications },
            ),
            CaptureStage::OpeningEndpoint { .. } => self.go(
                CaptureStage::Activating,
                CaptureRequest::Activate,
            ),
            CaptureStage::Activating => self.go(
                CaptureStage::ReadingFormat,
                CaptureRequest::ReadFormat,
            ),
            CaptureStage::Publishing => self.go(
                CaptureStage::CreatingEvent,
                CaptureRequest::CreateEvent,
            ),
            CaptureStage::InitializingClient => self.go(
                CaptureStage::GettingService,
                CaptureRequest::GetService,
            ),
            CaptureStage::GettingService => self.go(
                CaptureStage::SettingEvent,
                CaptureRequest::SetEvent,
            ),
            CaptureStage::SettingEvent => self.go(CaptureStage::Starting, CaptureRequest::Start),
            CaptureStage::Releasing => {
                let mut samples: Vec<u32> = Vec::new();
                std::mem::swap(&mut samples, &mut self.samples);
                if samples.len() > 0 {
                    self.go(CaptureStage::Delivering, CaptureRequest::Deliver { samples })
                } else {
                    self.go(CaptureStage::Fetching, CaptureRequest::GetPacket)
                }
            },
            CaptureStage::Delivering => self.go(CaptureStage::Fetching, CaptureRequest::GetPacket),
            _ => self.go(CaptureStage::CheckingStop, CaptureRequest::CheckStop { report: None }),
        }
    }

    fn fail(&mut self, code: u32) -> (request: CaptureRequest)
        requires
            awaits(old(self)@, CaptureEventView::Failed { code }),
        ensures
            final(self)@ == next_state(old(self)@, CaptureEventView::Failed { code }),
            request@ == next(old(self)@, CaptureEventView::Failed { code }).1,
    {
        let failure: CaptureFailure = match self.stage {
            CaptureStage::OpeningEndpoint { role: EndpointRole::Communications } => {
                return self.go(
                    CaptureStage::OpeningEndpoint { role: EndpointRole::Console },
                    CaptureRequest::OpenEndpoint { role: EndpointRole::Console },
                );
            },
            CaptureStage::Fetching => {
                let report: Option<u32> = if code == QUIET_ERROR {
                    None
                } else {
                    Some(code)
                };
                return self.go(CaptureStage::CheckingStop, CaptureRequest::CheckStop { report });
            },
            CaptureStage::CreatingEnumerator => CaptureFailure::Enumerator,
            CaptureStage::OpeningEndpoint { .. } => CaptureFailure::Endpoint,
            CaptureStage::Activating => CaptureFailure::Activation,
            CaptureStage::ReadingFormat => CaptureFailure::MixFormat,
            CaptureStage::CreatingEvent => CaptureFailure::Event,
            CaptureStage::InitializingClient => CaptureFailure::Client,
            CaptureStage::GettingService => CaptureFailure::Service,
            CaptureStage::SettingEvent => CaptureFailure::EventHandle,
            _ => CaptureFailure::Start,
        };
        self.end(Some(failure))
    }
}

/// The state of a thread that has yet to initialise the component system.
pub open spec fn first_state() -> CaptureState {
    CaptureState {
        stage: CaptureStage::InitializingCom,
        layout: PacketLayout { channels: 0, bits: 0, is_float: false, block_align: 0 },
        frames: 0,
        flags: 0,
        asked: 0,
        samples: Seq::empty(),
    }
}

/// The state after a run of events.
#[verifier::opaque]
pub open spec fn state_after(events: Seq<CaptureEventView>) -> CaptureState
    decreases events.len(),
{
    if events.len() == 0 {
        first_state()
    } else {
        next_state(state_after(events.drop_last()), events.last())
    }
}

/// Whether every event of a run was waited for.
pub open spec fn is_run(events: Seq<CaptureEventView>) -> bool {
    forall|i: int|
        0 <= i < events.len() ==> awaits(state_after(events.take(i)), #[trigger] events[i])
}

/// Whether the format's memory was got in a run.
pub open spec fn got_format(events: Seq<CaptureEventView>) -> bool {
    exists|i: int| 0 <= i < events.len() && #[trigger] events[i] is FormatRead
}

/// Whether a thread gets an event with what it is told.
pub open spec fn brings_event(event: CaptureEventView) -> bool {
    event matches CaptureEventView::EventCreated { handle } && is_handle(handle)
}

/// Whether an event was got in a run.
pub open spec fn got_event(events: Seq<CaptureEventView>) -> bool {
    exists|i: int|
        0 <= i < events.len() && brings_event(#[trigger] events[i])
}

/// Whether the device was started in a run.
pub open spec fn got_started(events: Seq<CaptureEventView>) -> bool {
    exists|i: int|
        0 <= i < events.len() && #[trigger] events[i] == CaptureEventView::Completed && state_after(
            events.take(i),
        ).stage == CaptureStage::Starting
}

/// However a capture thread ends, it gives back exactly what it got: it frees
/// the format if it got one, closes the event if it got one, and stops the
/// device if it started it.
pub proof fn lemma_gives_back_what_it_got(events: Seq<CaptureEventView>, last: CaptureEventView)
    requires
        is_run(events.push(last)),
        state_after(events.push(last)).stage == CaptureStage::Ended,
    ensures
        ({
            let all = events.push(last);
            &&& next(state_after(events), last).1 matches CaptureRequestView::Finish { cleanup }
            &&& cleanup.free_format <==> got_format(all)
            &&& cleanup.close_event <==> got_event(all)
            &&& cleanup.stop_client <==> got_started(all)
        }),
{
    lemma_run_of_one_more(events, last);
    lemma_holds_what_it_got(events);
    lemma_got_more(events, last);
    lemma_last_step(state_after(events), last, state_after(events.push(last)));
}

/// Whether an event was waited for in one state, and leads to another.
#[verifier::opaque]
spec fn leads_to(state: CaptureState, event: CaptureEventView, t: CaptureState) -> bool {
    awaits(state, event) && t == next_state(state, event)
}

/// A run with one more event is a run, and one step more.
proof fn lemma_run_of_one_more(events: Seq<CaptureEventView>, last: CaptureEventView)
    requires
        is_run(events.push(last)),
    ensures
        is_run(events),
        leads_to(state_after(events), last, state_after(events.push(last))),
{
    let all = events.push(last);
    assert(all.drop_last() =~= events);
    assert(all.take(events.len() as int) =~= events);
    assert(all[events.len() as int] == last);
    assert forall|i: int| 0 <= i < events.len() implies awaits(
        state_after(events.take(i)),
        #[trigger] events[i],
    ) by {
        assert(all[i] == events[i]);
        assert(all.take(i) =~= events.take(i));
    }
    reveal_with_fuel(state_after, 1);
    reveal(leads_to);
}

/// A step that does not end the thread adds what it gets to what is held.
proof fn lemma_step_keeps_track(state: CaptureState, event: CaptureEventView, t: CaptureState)
    requires
        leads_to(state, event, t),
    ensures
        state.stage != CaptureStage::Ended,
        t.stage != CaptureStage::Ended ==> {
            &&& holds_format(t.stage) == (holds_format(state.stage) || event is FormatRead)
            &&& holds_event(t.stage) == (holds_event(state.stage) || brings_event(event))
            &&& is_streaming(t.stage) == (is_streaming(state.stage) || (event
                == CaptureEventView::Completed && state.stage == CaptureStage::Starting))
        },
{
    reveal(leads_to);
}

/// The step that ends the thread gives all that is held back.
proof fn lemma_last_step(state: CaptureState, event: CaptureEventView, t: CaptureState)
    requires
        leads_to(state, event, t),
        t.stage == CaptureStage::Ended,
    ensures
        ({
            &&& next(state, event).1 matches CaptureRequestView::Finish { cleanup }
            &&& cleanup.free_format == (holds_format(state.stage) || event is FormatRead)
            &&& cleanup.close_event == (holds_event(state.stage) || brings_event(event))
            &&& cleanup.stop_client == (is_streaming(state.stage) || (event
                == CaptureEventView::Completed && state.stage == CaptureStage::Starting))
        }),
        state.stage != CaptureStage::Ended,
{
    reveal(leads_to);
}

/// What a run with one more event got.
proof fn lemma_got_more(events: Seq<CaptureEventView>, last: CaptureEventView)
    ensures
        got_format(events.push(last)) <==> got_format(events) || last is FormatRead,
        got_event(events.push(last)) <==> got_event(events) || brings_event(last),
        got_started(events.push(last)) <==> got_started(events) || (last == CaptureEventView::Completed
            && state_after(events).stage == CaptureStage::Starting),
{
    let all = events.push(last);
    let n = events.len() as int;
    assert(all[n] == last);
    assert(all.take(n) =~= events);
    assert forall|i: int| 0 <= i < n implies #[trigger] all[i] == events[i] && all.take(i)
        == events.take(i) by {
        assert(all.take(i) =~= events.take(i));
    }
    if got_format(events) {
        let i = choose|i: int| 0 <= i < n && #[trigger] events[i] is FormatRead;
        assert(all[i] is FormatRead);
    }
    if got_event(events) {
        let i = choose|i: int| 0 <= i < n && brings_event(#[trigger] events[i]);
        assert(all[i] == events[i]);
    }
    if got_started(events) {
        let i = choose|i: int|
            0 <= i < n && #[trigger] events[i] == CaptureEventView::Completed && state_after(
                events.take(i),
            ).stage == CaptureStage::Starting;
        assert(all[i] == events[i]);
    }
}

/// A thread that has not ended holds what it got.
proof fn lemma_holds_what_it_got(events: Seq<CaptureEventView>)
    requires
        is_run(events),
    ensures
        state_after(events).stage != CaptureStage::Ended ==> {
            let stage = state_after(events).stage;
            &&& holds_format(stage) <==> got_format(events)
            &&& holds_event(stage) <==> got_event(events)
            &&& is_streaming(stage) <==> got_started(events)
        },
    decreases events.len(),
{
    if events.len() > 0 {
        let before = events.drop_last();
        let last = events.last();
        assert(before.push(last) =~= events);
        lemma_run_of_one_more(before, last);
        lemma_holds_what_it_got(before);
        lemma_got_more(before, last);
        lemma_step_keeps_track(state_after(before), last, state_after(events));
    } else {
        reveal_with_fuel(state_after, 1);
    }
}

/// A packet with data is read and converted, given back with all its frames before
/// anything else is asked of the device, and its samples are queued after that, as
/// they were scaled.
pub proof fn lemma_packet_is_given_back(
    state: CaptureState,
    frames: u32,
    flags: u32,
    data: Seq<u8>,
    samples: Seq<u32>,
)
    requires
        state.stage == CaptureStage::Fetching,
        frames > 0,
    ensures
        ({
            let fetched = CaptureEventView::Packet { frames, present: true, flags };
            let read = CaptureEventView::PacketRead { data };
            let scaled = CaptureEventView::Scaled { samples };
            let done = CaptureEventView::Completed;
            let converted = crate::convert::conversion(state.layout, frames, flags, data);
            let s1 = next_state(state, fetched);
            let s2 = next_state(s1, read);
            let s3 = next_state(s2, scaled);
            let s4 = next_state(s3, done);
            let s5 = next_state(s4, done);
            &&& (next(state, fetched).1 == CaptureRequestView::ReadPacket {
                bytes: crate::convert::bytes_needed(state.layout, frames, flags),
            })
            &&& awaits(s1, read) <==> data.len() == crate::convert::bytes_needed(
                state.layout,
                frames,
                flags,
            )
            &&& (next(s1, read).1 == CaptureRequestView::Scale { converted })
            &&& awaits(s2, scaled) <==> samples.len() == crate::convert::count_of(converted)
            &&& (next(s2, scaled).1 == CaptureRequestView::Release { frames })
            &&& samples.len() > 0 ==> {
                &&& (next(s3, done).1 == CaptureRequestView::Deliver { samples })
                &&& next(s4, done).1 == CaptureRequestView::GetPacket
                &&& (s5.stage, s5.layout) == (state.stage, state.layout)
            }
            &&& samples.len() == 0 ==> {
                &&& next(s3, done).1 == CaptureRequestView::GetPacket
                &&& (s4.stage, s4.layout) == (state.stage, state.layout)
            }
        }),
{
}

/// Nothing is queued but the samples of a packet that was given back.
pub proof fn lemma_only_packets_are_queued(state: CaptureState, event: CaptureEventView)
    requires
        awaits(state, event),
    ensures
        next(state, event).1 is Deliver <==> state.stage == CaptureStage::Releasing
            && state.samples.len() > 0,
        next(state, event).1 matches CaptureRequestView::Deliver { samples } ==> samples
            == state.samples,
{
}

/// A thread that is told to stop gives back what it holds, and asks for nothing any
/// more.
pub proof fn lemma_told_to_stop(state: CaptureState)
    requires
        state.stage == CaptureStage::CheckingStop,
    ensures
        ({
            let told = CaptureEventView::StopChecked { requested: true };
            let t = next_state(state, told);
            &&& awaits(state, told)
            &&& (next(state, told).1 == CaptureRequestView::Finish {
                cleanup: Cleanup {
                    failure: None,
                    stop_client: true,
                    close_event: true,
                    free_format: true,
                },
            })
            &&& forall|event: CaptureEventView| !#[trigger] awaits(t, event)
        }),
{
}

/// What the rest of the program sees of a capture thread.
pub struct WasapiCaptureEngine {
    stop_flag: bool,
    thread: bool,
    channels: usize,
    sample_rate: u32,
}

/// What the rest of the program sees of capturing.
pub struct CaptureFlags {
    /// Whether the thread is to stop.
    pub stop: bool,
    /// Whether there is a thread to wait for.
    pub has_thread: bool,
    /// The format that the thread has published; zeros before it has.
    pub format: (usize, u32),
}

/// What is seen after the thread was told to stop.
pub open spec fn after_stop(flags: CaptureFlags) -> CaptureFlags {
    CaptureFlags { stop: true, has_thread: false, ..flags }
}

/// A second stop changes nothing and finds no thread to wait for; the format stays as
/// it was published.
pub proof fn lemma_second_stop(flags: CaptureFlags)
    ensures
        after_stop(after_stop(flags)) == after_stop(flags),
        !after_stop(flags).has_thread,
        after_stop(flags).format == flags.format,
{
}

impl View for WasapiCaptureEngine {
    type V = CaptureFlags;

    closed spec fn view(&self) -> CaptureFlags {
        CaptureFlags {
            stop: self.stop_flag,
            has_thread: self.thread,
            format: (self.channels, self.sample_rate),
        }
    }
}

impl WasapiCaptureEngine {
    /// The number of channels is one that a format can have.
    pub open spec fn wf(&self) -> bool {
        self@.format.0 <= u16::MAX
    }

    /// No thread, no format, and no stop requested.
    pub fn new() -> (r: Self)
        ensures
            r.wf(),
            r@ == (CaptureFlags { stop: false, has_thread: false, format: (0, 0) }),
    {
        WasapiCaptureEngine { stop_flag: false, thread: false, channels: 0, sample_rate: 0 }
    }

    /// Takes note of a thread that is started.  A stop that was requested stays
    /// requested.
    pub fn start(&mut self) -> (r: Result<(), String>)
        ensures
            r is Ok,
            final(self)@ == (CaptureFlags { has_thread: true, ..old(self)@ }),
    {
        self.thread = true;
        Ok(())
    }

    /// Takes note of the format.
    pub fn publish(&mut self, channels: u16, sample_rate: u32)
        ensures
            final(self).wf(),
            final(self)@ == (CaptureFlags {
                format: (channels as usize, sample_rate),
                ..old(self)@
            }),
    {
        self.channels = channels as usize;
        self.sample_rate = sample_rate;
    }

    /// Requests a stop, and returns whether there is a thread to wait for.
    pub fn stop(&mut self) -> (wait: bool)
        ensures
            wait == old(self)@.has_thread,
            final(self)@ == after_stop(old(self)@),
    {
        self.stop_flag = true;
        let wait: bool = self.thread;
        self.thread = false;
        wait
    }

    /// Whether the thread is to stop.
    pub fn is_stopping(&self) -> (b: bool)
        ensures
            b == self@.stop,
    {
        self.stop_flag
    }

    /// The format that the thread has published; zeros before it has.
    pub fn get_format(&self) -> (r: (usize, u32))
        ensures
            r == self@.format,
    {
        (self.channels, self.sample_rate)
    }
}

/// Packets are decoded by the format that the thread was told: it keeps the number of
/// channels, the size and the kind of the samples and the size of a frame as they are,
/// and nothing else that it is told changes them.
pub proof fn lemma_decodes_by_its_format(state: CaptureState, event: CaptureEventView)
    ensures
        event matches CaptureEventView::FormatRead { format } ==> {
            let layout = next_state(state, event).layout;
            &&& layout.channels == format.wave.channels
            &&& layout.bits == format.bits
            &&& layout.is_float == format.is_float
            &&& layout.block_align == format.wave.block_align
        },
        event !is FormatRead ==> next_state(state, event).layout == state.layout,
{
}

/// A thread that was told a format with floating-point numbers of thirty-two bits hands
/// on the patterns of its packets as they are: for each sample of each frame the number
/// of its own four bytes.
pub proof fn lemma_float_packets_are_kept(
    state: CaptureState,
    format: MixFormat,
    between: CaptureState,
    frames: u32,
    flags: u32,
    data: Seq<u8>,
)
    requires
        format.bits == 32,
        format.is_float,
        between.layout == next_state(state, CaptureEventView::FormatRead { format }).layout,
        between.stage == CaptureStage::Fetching,
        frames > 0,
        flags & 2 == 0,
    ensures
        ({
            let t = next_state(between, CaptureEventView::Packet { frames, present: true, flags });
            &&& next(t, CaptureEventView::PacketRead { data }).1 matches CaptureRequestView::Scale {
                converted,
            }
            &&& converted matches ConvertedView::Float(samples)
            &&& samples.len() == frames * format.wave.channels
            &&& forall|i: int|
                0 <= i < samples.len() ==> #[trigger] samples[i] == data[4 * i] + 256 * data[4 * i
                    + 1] + 65536 * data[4 * i + 2] + 16777216 * data[4 * i + 3]
        }),
{
    let t = next_state(between, CaptureEventView::Packet { frames, present: true, flags });
    crate::convert::lemma_encoding(t.layout, frames, flags, data);
    if let ConvertedView::Float(samples) = crate::convert::conversion(
        t.layout,
        frames,
        flags,
        data,
    ) {
        assert forall|i: int| 0 <= i < samples.len() implies #[trigger] samples[i] == data[4 * i]
            + 256 * data[4 * i + 1] + 65536 * data[4 * i + 2] + 16777216 * data[4 * i + 3] by {
            crate::convert::lemma_sample(t.layout, frames, flags, data, i);
        }
    }
}

/// The layout of integer packets is that of the format too: samples are divided by the
/// full scale of the size that the format announces.
pub proof fn lemma_integer_packets(
    state: CaptureState,
    format: MixFormat,
    frames: u32,
    flags: u32,
    data: Seq<u8>,
)
    requires
        format.bits == 16 || format.bits == 24 || format.bits == 32,
        !format.is_float,
        state.layout == next_state(state, CaptureEventView::FormatRead { format }).layout,
        state.stage == CaptureStage::Reading,
        state.frames == frames,
        state.flags == flags,
        flags & 2 == 0,
    ensures
        next(state, CaptureEventView::PacketRead { data }).1 matches CaptureRequestView::Scale {
            converted,
        } && converted matches ConvertedView::Scaled { samples, full_scale } && {
            &&& format.bits == 16 ==> full_scale == 32768
            &&& format.bits == 24 ==> full_scale == 8388608
            &&& format.bits == 32 ==> full_scale == 2147483648
            &&& format.bits != 24 ==> samples.len() == frames * format.wave.channels
        },
{
    crate::convert::lemma_encoding(state.layout, frames, flags, data);
}

/// Opening a device: whatever codes, formats and handles there are, so long as every call
/// goes well the thread asks for the calls in this order, tells the rest of the program
/// the device's own channels and rate, asks for a fifth of a second of buffer, and looks
/// whether to stop once the device runs.
pub proof fn lemma_opening(code: i32, format: MixFormat, handle: isize)
    requires
        code >= 0,
        handle != 0,
        handle != -1,
    ensures
        ({
            let done = CaptureEventView::Completed;
            let told = CaptureEventView::FormatRead { format };
            let s0 = first_state();
            let s1 = next_state(s0, CaptureEventView::ComInitialized { code });
            let s2 = next_state(s1, done);
            let s3 = next_state(s2, done);
            let s4 = next_state(s3, done);
            let s5 = next_state(s4, told);
            let s6 = next_state(s5, done);
            let s7 = next_state(s6, CaptureEventView::EventCreated { handle });
            let s8 = next_state(s7, done);
            let s9 = next_state(s8, done);
            let s10 = next_state(s9, done);
            let s11 = next_state(s10, done);
            &&& awaits(s0, CaptureEventView::ComInitialized { code })
            &&& next(s0, CaptureEventView::ComInitialized { code }).1
                == CaptureRequestView::CreateEnumerator
            &&& awaits(s1, done)
            &&& (next(s1, done).1 == CaptureRequestView::OpenEndpoint {
                role: EndpointRole::Communications,
            })
            &&& awaits(s2, done) && next(s2, done).1 == CaptureRequestView::Activate
            &&& awaits(s3, done) && next(s3, done).1 == CaptureRequestView::ReadFormat
            &&& awaits(s4, told) && (next(s4, told).1 == CaptureRequestView::Publish {
                channels: format.wave.channels,
                sample_rate: format.wave.samples_per_sec,
            })
            &&& awaits(s5, done) && next(s5, done).1 == CaptureRequestView::CreateEvent
            &&& awaits(s6, CaptureEventView::EventCreated { handle })
            &&& (next(s6, CaptureEventView::EventCreated { handle }).1
                == CaptureRequestView::InitializeClient { duration: 2_000_000 })
            &&& awaits(s7, done) && next(s7, done).1 == CaptureRequestView::GetService
            &&& awaits(s8, done) && next(s8, done).1 == CaptureRequestView::SetEvent
            &&& awaits(s9, done) && next(s9, done).1 == CaptureRequestView::Start
            &&& awaits(s10, done) && (next(s10, done).1 == CaptureRequestView::CheckStop {
                report: None,
            })
            &&& s11.stage == CaptureStage::CheckingStop
            &&& s11.layout == s5.layout
        }),
{
}

/// A call that fails while the device is opened ends the thread with that call's failure,
/// but for the first microphone, after which the second is tried; a negative code and a
/// handle of nothing do so too.
pub proof fn lemma_failures(state: CaptureState, code: u32, result: i32, handle: isize)
    ensures
        ({
            let failed = CaptureEventView::Failed { code };
            let request = next(state, failed).1;
            &&& state.stage == (CaptureStage::OpeningEndpoint { role: EndpointRole::Communications })
                ==> (request == CaptureRequestView::OpenEndpoint { role: EndpointRole::Console })
            &&& state.stage == (CaptureStage::OpeningEndpoint { role: EndpointRole::Console })
                ==> failed_with(request) == Some(CaptureFailure::Endpoint)
            &&& state.stage == CaptureStage::CreatingEnumerator ==> failed_with(request) == Some(
                CaptureFailure::Enumerator,
            )
            &&& state.stage == CaptureStage::Activating ==> failed_with(request) == Some(
                CaptureFailure::Activation,
            )
            &&& state.stage == CaptureStage::ReadingFormat ==> failed_with(request) == Some(
                CaptureFailure::MixFormat,
            )
            &&& state.stage == CaptureStage::CreatingEvent ==> failed_with(request) == Some(
                CaptureFailure::Event,
            )
            &&& state.stage == CaptureStage::InitializingClient ==> failed_with(request) == Some(
                CaptureFailure::Client,
            )
            &&& state.stage == CaptureStage::GettingService ==> failed_with(request) == Some(
                CaptureFailure::Service,
            )
            &&& state.stage == CaptureStage::SettingEvent ==> failed_with(request) == Some(
                CaptureFailure::EventHandle,
            )
            &&& state.stage == CaptureStage::Starting ==> failed_with(request) == Some(
                CaptureFailure::Start,
            )
        }),
        state.stage == CaptureStage::InitializingCom ==> {
            let request = next(state, CaptureEventView::ComInitialized { code: result }).1;
            &&& result < 0 ==> failed_with(request) == Some(CaptureFailure::Com)
            &&& result >= 0 ==> request == CaptureRequestView::CreateEnumerator
        },
        state.stage == CaptureStage::CreatingEvent ==> {
            let request = next(state, CaptureEventView::EventCreated { handle }).1;
            failed_with(request) == Some(CaptureFailure::InvalidEvent) <==> handle == 0 || handle
                == -1
        },
{
}

/// The failure that a thread ends with.
pub open spec fn failed_with(request: CaptureRequestView) -> Option<CaptureFailure> {
    match request {
        CaptureRequestView::Finish { cleanup } => cleanup.failure,
        _ => None,
    }
}

/// A running thread waits a tenth of a second for a packet, gets packets until there are
/// no more, gives back one that holds nothing, and reports an error once unless it is the
/// one that is none; no error ends it.
pub proof fn lemma_running(
    state: CaptureState,
    result: u32,
    code: u32,
    frames: u32,
    present: bool,
    flags: u32,
)
    ensures
        state.stage == CaptureStage::CheckingStop ==> (next(
            state,
            CaptureEventView::StopChecked { requested: false },
        ).1 == CaptureRequestView::Wait { millis: 100 }),
        state.stage == CaptureStage::Waiting ==> {
            let request = next(state, CaptureEventView::Waited { result }).1;
            &&& result == 0 ==> request == CaptureRequestView::GetPacket
            &&& result != 0 ==> (request == CaptureRequestView::CheckStop { report: None })
        },
        state.stage == CaptureStage::Fetching ==> {
            let failed = next(state, CaptureEventView::Failed { code }).1;
            let event = CaptureEventView::Packet { frames, present, flags };
            let request = next(state, event).1;
            let t = next_state(state, event);
            &&& awaits(state, event)
            &&& code == 0x8889_0001 ==> (failed == CaptureRequestView::CheckStop { report: None })
            &&& code != 0x8889_0001 ==> (failed == CaptureRequestView::CheckStop {
                report: Some(code),
            })
            &&& frames == 0 || !present ==> {
                &&& (request == CaptureRequestView::Release { frames: 0 })
                &&& (next(t, CaptureEventView::Completed).1 == CaptureRequestView::CheckStop {
                    report: None,
                })
            }
            &&& frames > 0 && present ==> request is ReadPacket && t.stage == CaptureStage::Reading
                && (t.frames, t.flags) == (frames, flags)
        },
{
}

/// Whether an event answers a request: a call that can fail is answered by how it went,
/// a wait and a look by what they found, and what is read or scaled by as much as was
/// asked for.
pub open spec fn is_answer(request: CaptureRequestView, event: CaptureEventView) -> bool {
    match request {
        CaptureRequestView::InitializeCom => event is ComInitialized,
        CaptureRequestView::ReadFormat => event is FormatRead || event is Failed,
        CaptureRequestView::CreateEvent => event is EventCreated || event is Failed,
        CaptureRequestView::CheckStop { .. } => event is StopChecked,
        CaptureRequestView::Wait { .. } => event is Waited,
        CaptureRequestView::GetPacket => event is Packet || event is Failed,
        CaptureRequestView::ReadPacket { bytes } => event matches CaptureEventView::PacketRead {
            data,
        } && data.len() == bytes,
        CaptureRequestView::Scale { converted } => event matches CaptureEventView::Scaled {
            samples,
        } && samples.len() == crate::convert::count_of(converted),
        CaptureRequestView::Publish { .. }
        | CaptureRequestView::Release { .. }
        | CaptureRequestView::Deliver { .. } => event is Completed,
        CaptureRequestView::Finish { .. } => false,
        _ => event is Completed || event is Failed,
    }
}

/// A thread waits for the answers to what it asked for, for all of them and for nothing
/// else.
pub proof fn lemma_waits_for_the_answer(
    state: CaptureState,
    event: CaptureEventView,
    answer: CaptureEventView,
)
    requires
        awaits(state, event),
    ensures
        awaits(next_state(state, event), answer) <==> is_answer(next(state, event).1, answer),
        awaits(first_state(), answer) <==> is_answer(CaptureRequestView::InitializeCom, answer),
{
}

/// What follows a call that went well does not depend on what else the thread has seen:
/// either microphone is activated and its format read, a format that was published is
/// followed by an event, and a device that runs is looked at whether to stop.
pub proof fn lemma_completed(state: CaptureState)
    ensures
        ({
            let request = next(state, CaptureEventView::Completed).1;
            let t = next_state(state, CaptureEventView::Completed);
            &&& state.stage == CaptureStage::CreatingEnumerator ==> (request
                == CaptureRequestView::OpenEndpoint { role: EndpointRole::Communications })
            &&& state.stage is OpeningEndpoint ==> request == CaptureRequestView::Activate
            &&& state.stage == CaptureStage::Activating ==> request
                == CaptureRequestView::ReadFormat
            &&& state.stage == CaptureStage::Publishing ==> request
                == CaptureRequestView::CreateEvent
            &&& state.stage == CaptureStage::InitializingClient ==> request
                == CaptureRequestView::GetService
            &&& state.stage == CaptureStage::GettingService ==> request
                == CaptureRequestView::SetEvent
            &&& state.stage == CaptureStage::SettingEvent ==> request == CaptureRequestView::Start
            &&& state.stage == CaptureStage::Starting || state.stage == CaptureStage::Discarding
                ==> (request == CaptureRequestView::CheckStop { report: None })
            &&& state.stage == CaptureStage::Delivering ==> request
                == CaptureRequestView::GetPacket
            &&& state.stage == CaptureStage::Releasing ==> {
                &&& state.samples.len() > 0 ==> (request == CaptureRequestView::Deliver {
                    samples: state.samples,
                })
                &&& state.samples.len() == 0 ==> request == CaptureRequestView::GetPacket
                &&& t.samples.len() == 0
            }
            &&& state.stage != CaptureStage::Releasing ==> t.samples == state.samples
            &&& (t.frames, t.flags) == (state.frames, state.flags)
        }),
{
}

/// Whatever is not a packet can be taken, and so can every packet whose samples, four
/// bytes for each, have addresses.
pub proof fn lemma_packets_can_be_taken(state: CaptureState, event: CaptureEventView)
    ensures
        event !is Packet ==> can_take(state, event),
        event matches CaptureEventView::Packet { frames, .. } ==> (4 * (frames
            * state.layout.channels) <= usize::MAX ==> can_take(state, event)),
{
    if let CaptureEventView::Packet { frames, .. } = event {
        assert(0 <= frames * state.layout.channels) by (nonlinear_arith);
        assert(0 <= frames * state.layout.block_align) by (nonlinear_arith);
    }
}

} // verus!
