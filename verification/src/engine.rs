//! The audio engine: what is captured, what is processed, and the two threads in
//! between.
use crate::capture::WasapiCaptureEngine;
use crate::pattern::greater;
use crate::ring::AudioRingBuffer;
use crate::text::decimal_text;
use vstd::prelude::*;

verus! {

/// What capturing is asked for.
#[derive(Clone, Copy, Debug, PartialEq, Eq, Structural)]
pub struct WasapiConfig {
    pub sample_rate: u32,
    pub channels: u16,
    pub buffer_duration_ms: u32,
}

/// How long the start waits for a format, in milliseconds.
pub const FORMAT_WAIT_MILLIS: u64 = 5000;

/// How long the start sleeps between two looks, in milliseconds.
pub const FORMAT_POLL_MILLIS: u64 = 10;

/// How long the processing thread sleeps when there is nothing to do, in
/// microseconds.
pub const IDLE_MICROS: u64 = 100;

/// How often the processing thread reports, in seconds.
pub const REPORT_SECONDS: u64 = 5;

/// The level above which what is read counts as speech: 0.001.
pub const SPEECH_LEVEL: u32 = 0x3a83126f;

/// What the processing thread is made with.
#[derive(Clone, Copy, Debug, PartialEq, Eq, Structural)]
pub struct DspSetup {
    pub in_rate: u32,
    pub out_rate: u32,
    pub channels: usize,
    pub enable_vad: bool,
    /// How many samples the thread takes at most at a time: ten milliseconds.
    pub input_samples: u64,
}

/// The next step of a start.
#[derive(Clone, Copy, Debug, PartialEq, Eq, Structural)]
pub enum StartStep {
    /// Look again after so many milliseconds.
    Sleep { millis: u64 },
    /// Start the processing thread.
    Spawn { setup: DspSetup },
}

/// What an engine holds.
#[verifier::ext_equal]
pub struct EngineState {
    /// Whether the capture thread is to stop.
    pub capture_stop: bool,
    /// Whether there is a capture thread to wait for.
    pub has_capture_thread: bool,
    /// The format that the capture thread has published; zeros before it has.
    pub format: (usize, u32),
    /// What was captured and not yet processed.
    pub raw: Seq<u32>,
    pub raw_room: nat,
    /// What was processed and not yet read.
    pub processed: Seq<u32>,
    pub processed_room: nat,
    /// Whether there is a processing thread to wait for.
    pub has_dsp_thread: bool,
    /// Whether the processing thread is to stop.
    pub dsp_stop: bool,
    pub in_rate: u32,
    pub out_rate: u32,
    pub channels: usize,
    pub enable_vad: bool,
}

/// How many samples ten milliseconds are.
pub open spec fn ten_millis(in_rate: u32, channels: usize) -> int {
    (in_rate * 10 / 1000) * channels
}

/// What the processing thread is made with.
pub open spec fn setup_of(s: EngineState) -> DspSetup {
    DspSetup {
        in_rate: s.in_rate,
        out_rate: s.out_rate,
        channels: s.channels,
        enable_vad: s.enable_vad,
        input_samples: ten_millis(s.in_rate, s.channels) as u64,
    }
}

/// The state after samples were captured: they are queued as far as there is room.
pub open spec fn after_captured(s: EngineState, samples: Seq<u32>) -> EngineState {
    EngineState { raw: crate::ring::after_write(s.raw, s.raw_room, samples), ..s }
}

/// The block that the processing thread takes into `room` places.
pub open spec fn block_in(s: EngineState, room: nat) -> Seq<u32> {
    s.raw.take(crate::ring::read_count(s.raw, room) as int)
}

/// The state after that block was taken.
pub open spec fn after_taken(s: EngineState, room: nat) -> EngineState {
    EngineState { raw: s.raw.skip(crate::ring::read_count(s.raw, room) as int), ..s }
}

/// The state after a block was processed to `output`, which is queued as far as there
/// is room.
pub open spec fn after_processed(s: EngineState, output: Seq<u32>) -> EngineState {
    EngineState {
        processed: crate::ring::after_write(s.processed, s.processed_room, output),
        ..s
    }
}

/// What a read into `wanted` places gets.
pub open spec fn read_in(s: EngineState, wanted: nat) -> Seq<u32> {
    s.processed.take(crate::ring::read_count(s.processed, wanted) as int)
}

/// The state after that read.
pub open spec fn after_read(s: EngineState, wanted: nat) -> EngineState {
    EngineState {
        processed: s.processed.skip(crate::ring::read_count(s.processed, wanted) as int),
        ..s
    }
}

/// The state after what was processed and not read was dropped.
pub open spec fn after_skipped(s: EngineState) -> EngineState {
    EngineState { processed: Seq::empty(), ..s }
}

/// The state after both threads were told to stop.
pub open spec fn after_stop(s: EngineState) -> EngineState {
    EngineState {
        capture_stop: true,
        has_capture_thread: false,
        dsp_stop: true,
        has_dsp_thread: false,
        ..s
    }
}

/// Audio that is captured, processed and read.
pub struct ProductionAudioEngine {
    pub capture: WasapiCaptureEngine,
    raw_buffer: AudioRingBuffer,
    processed_buffer: AudioRingBuffer,
    dsp_thread: bool,
    dsp_stop: bool,
    in_rate: u32,
    out_rate: u32,
    channels: usize,
    enable_vad: bool,
}

impl View for ProductionAudioEngine {
    type V = EngineState;

    closed spec fn view(&self) -> EngineState {
        EngineState {
            capture_stop: self.capture@.stop,
            has_capture_thread: self.capture@.has_thread,
            format: self.capture@.format,
            raw: self.raw_buffer@,
            raw_room: self.raw_buffer.room(),
            processed: self.processed_buffer@,
            processed_room: self.processed_buffer.room(),
            has_dsp_thread: self.dsp_thread,
            dsp_stop: self.dsp_stop,
            in_rate: self.in_rate,
            out_rate: self.out_rate,
            channels: self.channels,
            enable_vad: self.enable_vad,
        }
    }
}

/// Whether processing can be started.
pub open spec fn is_format_usable(channels: usize, in_rate: u32) -> bool {
    channels != 0 && in_rate != 0
}

/// Nothing if processing can be started, and else what is wrong.
pub fn check_format(channels: usize, in_rate: u32) -> (r: Result<(), String>)
    ensures
        r is Ok <==> is_format_usable(channels, in_rate),
        r is Ok <==> channels != 0 && in_rate != 0,
        r matches Err(e) ==> e@ == "Failed to get audio format from WASAPI"@,
{
    if channels == 0 || in_rate == 0 {
        Err("Failed to get audio format from WASAPI".to_string())
    } else {
        Ok(())
    }
}

/// Whether `read` samples of the level `rms` are speech.
pub fn is_speech(read: usize, rms: u32) -> (b: bool)
    ensures
        b == (read > 0 && crate::pattern::is_greater(rms, SPEECH_LEVEL)),
        b <==> read > 0 && crate::pattern::is_greater(rms, 0x3a83126f),
{
    read > 0 && greater(rms, SPEECH_LEVEL)
}

impl ProductionAudioEngine {
    /// Both buffers are well-formed.
    pub closed spec fn buffers_wf(&self) -> bool {
        self.raw_buffer.wf() && self.processed_buffer.wf()
    }

    /// The buffers are well-formed, and there always is a format that
    /// processing can be started with.
    pub open spec fn wf(&self) -> bool {
        &&& self.buffers_wf()
        &&& self@.format.0 <= u16::MAX
        &&& self@.raw.len() <= self@.raw_room
        &&& self@.processed.len() <= self@.processed_room
        &&& is_format_usable(self@.channels, self@.in_rate)
        &&& self@.channels <= u16::MAX
    }

    /// An engine that is not started.  It has room for two hundred milliseconds of
    /// stereo sound at 48 kHz, and for one hundred of what comes out.
    pub fn new(_device_id: &str) -> (r: Self)
        ensures
            r.wf(),
            r@ == (EngineState {
                capture_stop: false,
                has_capture_thread: false,
                format: (0, 0),
                raw: Seq::empty(),
                raw_room: 32768,
                processed: Seq::empty(),
                processed_room: 2048,
                has_dsp_thread: false,
                dsp_stop: false,
                in_rate: 48000,
                out_rate: 16000,
                channels: 2,
                enable_vad: true,
            }),
    {
        let raw_buffer = AudioRingBuffer::new(200, 48000, 2);
        let processed_buffer = AudioRingBuffer::new(100, 16000, 1);
        proof {
            crate::ring::lemma_room(raw_buffer);
            crate::ring::lemma_room(processed_buffer);
            assert(vstd::arithmetic::power2::is_pow2(32768) && vstd::arithmetic::power2::is_pow2(
                2048,
            )) by {
                reveal_with_fuel(vstd::arithmetic::power2::is_pow2, 17);
            }
            crate::ring::lemma_one_capacity(19200, raw_buffer.room() as int, 32768);
            crate::ring::lemma_one_capacity(1600, processed_buffer.room() as int, 2048);
        }
        ProductionAudioEngine {
            capture: WasapiCaptureEngine::new(),
            raw_buffer,
            processed_buffer,
            dsp_thread: false,
            dsp_stop: false,
            in_rate: 48000,
            out_rate: 16000,
            channels: 2,
            enable_vad: true,
        }
    }

    /// Begins a start: takes note of whether speech is to be detected, and of a
    /// capture thread.  What `config` asks for makes no difference, as the device
    /// says what its format is.
    pub fn start(&mut self, _config: WasapiConfig, enable_vad: bool) -> (r: Result<(), String>)
        requires
            old(self).wf(),
        ensures
            r is Ok,
            final(self).wf(),
            final(self)@ == (EngineState { enable_vad, has_capture_thread: true, ..old(self)@ }),
    {
        self.enable_vad = enable_vad;
        self.capture.start()
    }

    /// Goes on with a start that began `elapsed_millis` milliseconds ago.  Until
    /// the wait is over it looks whether capturing has published a format, and
    /// takes it over; after the wait it goes on with the format that it has.
    pub fn poll_start(&mut self, elapsed_millis: u64) -> (r: Result<StartStep, String>)
        requires
            old(self).wf(),
        ensures
            final(self).wf(),
            r is Ok,
            ({
                let format = old(self)@.format;
                let waits = elapsed_millis < FORMAT_WAIT_MILLIS;
                if waits && !is_format_usable(format.0, format.1) {
                    &&& final(self)@ == old(self)@
                    &&& r->Ok_0 == (StartStep::Sleep { millis: FORMAT_POLL_MILLIS })
                } else {
                    &&& final(self)@ == (EngineState {
                        channels: if waits {
                            format.0
                        } else {
                            old(self)@.channels
                        },
                        in_rate: if waits {
                            format.1
                        } else {
                            old(self)@.in_rate
                        },
                        has_dsp_thread: true,
                        ..old(self)@
                    })
                    &&& r->Ok_0 == (StartStep::Spawn { setup: setup_of(final(self)@) })
                }
            }),
            r matches Ok(StartStep::Spawn { setup }) ==> setup.input_samples == ten_millis(
                final(self)@.in_rate,
                final(self)@.channels,
            ),
            elapsed_millis < 5000 && (old(self)@.format.0 == 0 || old(self)@.format.1 == 0) ==> (
            r->Ok_0 == StartStep::Sleep { millis: 10 }),
            elapsed_millis >= 5000 || (old(self)@.format.0 != 0 && old(self)@.format.1 != 0) ==> {
                let before = old(self)@;
                &&& r->Ok_0 matches StartStep::Spawn { setup }
                &&& (setup.channels, setup.in_rate) == (if elapsed_millis < 5000 {
                    before.format
                } else {
                    (before.channels, before.in_rate)
                })
                &&& (setup.out_rate, setup.enable_vad) == (before.out_rate, before.enable_vad)
                &&& setup.input_samples == (setup.in_rate as int / 100) * setup.channels
            },
    {
        if elapsed_millis < FORMAT_WAIT_MILLIS {
            let (channels, in_rate) = self.capture.get_format();
            if channels == 0 || in_rate == 0 {
                return Ok(StartStep::Sleep { millis: FORMAT_POLL_MILLIS });
            }
            self.channels = channels;
            self.in_rate = in_rate;
        }
        match check_format(self.channels, self.in_rate) {
            Err(e) => Err(e),
            Ok(()) => {
                let per_channel: u64 = self.in_rate as u64 * 10 / 1000;
                proof {
                    let n = self.channels as int;
                    assert(0 <= per_channel * n <= 42949672 * 65535) by (nonlinear_arith)
                        requires
                            0 <= per_channel <= 42949672,
                            0 <= n <= 65535,
                    ;
                }
                self.dsp_thread = true;
                proof {
                    lemma_setup(self@);
                }
                Ok(
                    StartStep::Spawn {
                        setup: DspSetup {
                            in_rate: self.in_rate,
                            out_rate: self.out_rate,
                            channels: self.channels,
                            enable_vad: self.enable_vad,
                            input_samples: per_channel * self.channels as u64,
                        },
                    },
                )
            },
        }
    }

    /// Takes note of the format that the capture thread has found.
    pub fn publish(&mut self, channels: u16, sample_rate: u32)
        requires
            old(self).wf(),
        ensures
            final(self).wf(),
            final(self)@ == (EngineState {
                format: (channels as usize, sample_rate),
                ..old(self)@
            }),
    {
        self.capture.publish(channels, sample_rate);
    }

    /// Takes over what was captured, as far as there is room.
    pub fn captured(&mut self, samples: &[u32])
        requires
            old(self).wf(),
        ensures
            final(self).wf(),
            final(self)@ == after_captured(old(self)@, samples@),
            final(self)@.raw.take(old(self)@.raw.len() as int) == old(self)@.raw,
            final(self)@.raw.skip(old(self)@.raw.len() as int) == samples@.take(
                final(self)@.raw.len() - old(self)@.raw.len(),
            ),
            old(self)@.raw.len() + samples@.len() <= old(self)@.raw_room ==> final(self)@.raw
                == old(self)@.raw + samples@,
            old(self)@.raw.len() + samples@.len() > old(self)@.raw_room ==> final(self)@.raw.len()
                == old(self)@.raw_room,
    {
        self.raw_buffer.write(samples);
        proof {
            crate::ring::lemma_room(self.raw_buffer);
            lemma_captured(old(self)@, samples@);
        }
    }

    /// Takes what was processed, oldest first, into the front of `dst`, and
    /// returns how many samples there were.
    pub fn read(&mut self, dst: &mut [u32]) -> (n: usize)
        requires
            old(self).wf(),
        ensures
            final(self).wf(),
            n == read_in(old(self)@, old(dst)@.len()).len(),
            final(self)@ == after_read(old(self)@, old(dst)@.len()),
            final(dst)@ == read_in(old(self)@, old(dst)@.len()) + old(dst)@.skip(n as int),
            n <= old(dst)@.len(),
            n == old(dst)@.len() || final(self)@.processed.len() == 0,
            old(self)@.processed == final(dst)@.take(n as int) + final(self)@.processed,
            final(dst)@.skip(n as int) == old(dst)@.skip(n as int),
    {
        proof {
            lemma_taken(old(self)@, old(dst)@.len());
        }
        self.processed_buffer.read(dst)
    }

    /// Drops what was processed and not read.
    pub fn skip_processed(&mut self)
        requires
            old(self).wf(),
        ensures
            final(self).wf(),
            final(self)@ == after_skipped(old(self)@),
    {
        self.processed_buffer.clear();
    }

    /// Requests that both threads stop, and returns which of them there are to
    /// wait for: the one that captures, and the one that processes.
    pub fn stop(&mut self) -> (wait: (bool, bool))
        requires
            old(self).wf(),
        ensures
            final(self).wf(),
            wait == (old(self)@.has_capture_thread, old(self)@.has_dsp_thread),
            final(self)@ == after_stop(old(self)@),
    {
        self.dsp_stop = true;
        let capture: bool = self.capture.stop();
        let dsp: bool = self.dsp_thread;
        self.dsp_thread = false;
        (capture, dsp)
    }

    /// How much is in the two buffers, in words.
    pub fn stats(&self) -> (r: String)
        requires
            self.wf(),
        ensures
            r@ == "raw: "@ + crate::text::decimal(self@.raw.len()) + ", proc: "@
                + crate::text::decimal(self@.processed.len()),
    {
        let mut r: String = "raw: ".to_string();
        let raw: String = decimal_text(self.raw_buffer.available());
        let processed: String = decimal_text(self.processed_buffer.available());
        r.append(raw.as_str());
        r.append(", proc: ");
        r.append(processed.as_str());
        r
    }
}

/// What the processing thread does next.
#[derive(Clone, Copy, Debug, PartialEq, Eq, Structural)]
pub enum DspTurn {
    /// It ends.
    Exit,
    /// It sleeps so many microseconds.
    Sleep { micros: u64 },
    /// It processes so many samples.
    Process { samples: usize },
}

/// What the processing thread reports now and then.
#[derive(Clone, Copy, Debug, PartialEq, Eq, Structural)]
pub struct DspReport {
    pub frames: u64,
    pub raw: usize,
    pub processed: usize,
}

/// The processing thread.
pub struct DspWorker {
    frame_count: u64,
}

impl DspWorker {
    /// How many frames were processed.
    pub closed spec fn frames(&self) -> nat {
        self.frame_count as nat
    }

    /// A thread that has processed nothing.
    pub fn new() -> (r: Self)
        ensures
            r.frames() == 0,
    {
        DspWorker { frame_count: 0 }
    }

    /// The next turn: unless it is to stop, the thread takes what was captured
    /// into the front of `dst`.
    pub fn turn(&self, engine: &mut ProductionAudioEngine, dst: &mut [u32]) -> (turn: DspTurn)
        requires
            old(engine).wf(),
        ensures
            final(engine).wf(),
            ({
                let block = block_in(old(engine)@, old(dst)@.len());
                if old(engine)@.dsp_stop {
                    &&& turn == DspTurn::Exit
                    &&& final(engine)@ == old(engine)@
                    &&& final(dst)@ == old(dst)@
                } else {
                    &&& turn == (if block.len() == 0 {
                        DspTurn::Sleep { micros: IDLE_MICROS }
                    } else {
                        DspTurn::Process { samples: block.len() as usize }
                    })
                    &&& block.len() <= usize::MAX
                    &&& final(engine)@ == after_taken(old(engine)@, old(dst)@.len())
                    &&& final(dst)@ == block + old(dst)@.skip(block.len() as int)
                }
            }),
            turn == DspTurn::Exit <==> old(engine)@.dsp_stop,
            turn matches DspTurn::Sleep { micros } ==> micros == 100 && (old(engine)@.raw.len() == 0
                || old(dst)@.len() == 0),
            turn matches DspTurn::Process { samples } ==> {
                &&& 0 < samples <= old(dst)@.len()
                &&& samples == old(dst)@.len() || final(engine)@.raw.len() == 0
                &&& old(engine)@.raw == final(dst)@.take(samples as int) + final(engine)@.raw
            },
    {
        proof {
            lemma_taken(old(engine)@, old(dst)@.len());
        }
        if engine.dsp_stop {
            return DspTurn::Exit;
        }
        let read: usize = engine.raw_buffer.read(dst);
        if read == 0 {
            DspTurn::Sleep { micros: IDLE_MICROS }
        } else {
            DspTurn::Process { samples: read }
        }
    }

    /// Whether another frame can be counted.
    pub fn can_finish(&self) -> (b: bool)
        ensures
            b == (self.frames() < u64::MAX),
    {
        self.frame_count < u64::MAX
    }

    /// Ends a turn with what the frame was processed to, and returns what there is
    /// to report when the last report was `seconds` seconds ago.
    pub fn finish(
        &mut self,
        engine: &mut ProductionAudioEngine,
        output: &[u32],
        seconds: u64,
    ) -> (report: Option<DspReport>)
        requires
            old(self).frames() < u64::MAX,
            old(engine).wf(),
        ensures
            final(engine).wf(),
            final(self).frames() == old(self).frames() + 1,
            final(engine)@ == after_processed(old(engine)@, output@),
            report is Some <==> seconds >= 5,
            match report {
                None => seconds < REPORT_SECONDS,
                Some(what) => {
                    &&& seconds >= REPORT_SECONDS
                    &&& what.frames == final(self).frames()
                    &&& what.raw == final(engine)@.raw.len()
                    &&& what.processed == final(engine)@.processed.len()
                },
            },
    {
        if output.len() > 0 {
            engine.processed_buffer.write(output);
            proof {
                crate::ring::lemma_room(engine.processed_buffer);
            }
        } else {
            assert(engine@.processed =~= crate::ring::after_write(
                old(engine)@.processed,
                old(engine)@.processed_room,
                output@,
            ));
        }
        self.frame_count = self.frame_count + 1;
        if seconds >= REPORT_SECONDS {
            Some(
                DspReport {
                    frames: self.frame_count,
                    raw: engine.raw_buffer.available(),
                    processed: engine.processed_buffer.available(),
                },
            )
        } else {
            None
        }
    }
}

/// What happens to an engine that is running.
pub enum EngineEvent {
    /// Samples were captured.
    Captured(Seq<u32>),
    /// The processing thread took a turn, and processed the block that it took.
    Turned,
    /// What was processed was read into so many places.
    Read(nat),
    /// What was processed was dropped.
    Skipped,
    /// Both threads were told to stop.
    Stopped,
}

/// What has happened to an engine.
#[verifier::ext_equal]
pub struct EngineRun {
    pub engine: EngineState,
    pub pipeline: crate::pipeline::DspState,
    /// All samples that were captured and queued.
    pub captured: Seq<u32>,
    /// The blocks that the processing thread took.
    pub blocks: Seq<Seq<u32>>,
    /// How much room there was for the output of each block.
    pub free: Seq<int>,
    /// What was queued of the output of each block.
    pub queued: Seq<Seq<u32>>,
    /// What left the queue each time that it was read or dropped.
    pub left: Seq<Seq<u32>>,
    /// Whether it was read.
    pub was_read: Seq<bool>,
}

/// An engine to which nothing has happened.
pub open spec fn first_run(engine: EngineState, pipeline: crate::pipeline::DspState) -> EngineRun {
    EngineRun {
        engine,
        pipeline,
        captured: Seq::empty(),
        blocks: Seq::empty(),
        free: Seq::empty(),
        queued: Seq::empty(),
        left: Seq::empty(),
        was_read: Seq::empty(),
    }
}

/// What one thing more does to a run, where the processing thread takes blocks into
/// `room` places and the pipeline's requests are answered by `arithmetic`.
pub open spec fn after_event(
    r: EngineRun,
    event: EngineEvent,
    room: nat,
    arithmetic: spec_fn(crate::pipeline::DspRequestView) -> crate::pipeline::DspEventView,
) -> EngineRun {
    match event {
        EngineEvent::Captured(samples) => {
            let engine = after_captured(r.engine, samples);
            EngineRun {
                engine,
                captured: r.captured + engine.raw.skip(r.engine.raw.len() as int),
                ..r
            }
        },
        EngineEvent::Turned => {
            let block = block_in(r.engine, room);
            if r.engine.dsp_stop || block.len() == 0 {
                r
            } else {
                let (pipeline, output, _) = crate::pipeline::run_block(
                    r.pipeline,
                    block,
                    arithmetic,
                );
                let engine = after_processed(after_taken(r.engine, room), output);
                EngineRun {
                    engine,
                    pipeline,
                    blocks: r.blocks.push(block),
                    free: r.free.push(r.engine.processed_room - r.engine.processed.len()),
                    queued: r.queued.push(engine.processed.skip(r.engine.processed.len() as int)),
                    ..r
                }
            }
        },
        EngineEvent::Read(wanted) => EngineRun {
            engine: after_read(r.engine, wanted),
            left: r.left.push(read_in(r.engine, wanted)),
            was_read: r.was_read.push(true),
            ..r
        },
        EngineEvent::Skipped => EngineRun {
            engine: after_skipped(r.engine),
            left: r.left.push(r.engine.processed),
            was_read: r.was_read.push(false),
            ..r
        },
        EngineEvent::Stopped => EngineRun { engine: after_stop(r.engine), ..r },
    }
}

/// What a run of events does to an engine.
pub open spec fn after_events(
    engine: EngineState,
    pipeline: crate::pipeline::DspState,
    events: Seq<EngineEvent>,
    room: nat,
    arithmetic: spec_fn(crate::pipeline::DspRequestView) -> crate::pipeline::DspEventView,
) -> EngineRun
    decreases events.len(),
{
    if events.len() == 0 {
        first_run(engine, pipeline)
    } else {
        after_event(
            after_events(engine, pipeline, events.drop_last(), room, arithmetic),
            events.last(),
            room,
            arithmetic,
        )
    }
}

/// The start of `samples`, as far as there is room.
pub open spec fn start_of(samples: Seq<u32>, room: int) -> Seq<u32> {
    if samples.len() < room {
        samples
    } else {
        samples.take(room)
    }
}

/// Whatever happens to an engine in which nothing is queued, in whatever order, what
/// was captured goes through it in order:
///
/// - The blocks that the processing thread takes, none of them empty or larger than
///   its room, are what was captured, up to what is still queued.
/// - What is queued of a block's output is what the pipeline made of it, speech or
///   not, from its start and as far as there was room.
/// - What is read or dropped is what was queued, up to what still is.
///
/// Neither queue ever holds more than it has room for.
pub proof fn lemma_stream(
    engine: EngineState,
    pipeline: crate::pipeline::DspState,
    events: Seq<EngineEvent>,
    room: nat,
    arithmetic: spec_fn(crate::pipeline::DspRequestView) -> crate::pipeline::DspEventView,
)
    requires
        engine.raw.len() == 0,
        engine.processed.len() == 0,
    ensures
        ({
            let r = after_events(engine, pipeline, events, room, arithmetic);
            let made = crate::pipeline::made_of(pipeline, r.blocks, arithmetic);
            &&& r.captured == r.blocks.flatten() + r.engine.raw
            &&& forall|i: int|
                0 <= i < r.blocks.len() ==> 0 < (#[trigger] r.blocks[i]).len() <= room
            &&& r.queued.len() == r.free.len() == made.len() == r.blocks.len()
            &&& forall|i: int|
                0 <= i < r.queued.len() ==> #[trigger] r.queued[i] == start_of(
                    made[i].0,
                    r.free[i],
                )
            &&& r.queued.flatten() == r.left.flatten() + r.engine.processed
            &&& r.left.len() == r.was_read.len()
            &&& r.engine.raw.len() <= r.engine.raw_room
            &&& r.engine.processed.len() <= r.engine.processed_room
        }),
    decreases events.len(),
{
    if events.len() == 0 {
        assert(Seq::<Seq<u32>>::empty().flatten() =~= Seq::<u32>::empty());
        assert(engine.raw =~= Seq::empty());
        assert(engine.processed =~= Seq::empty());
    } else {
        lemma_stream(engine, pipeline, events.drop_last(), room, arithmetic);
        lemma_pipeline_of_run(engine, pipeline, events.drop_last(), room, arithmetic);
        let r = after_events(engine, pipeline, events.drop_last(), room, arithmetic);
        let t = after_event(r, events.last(), room, arithmetic);
        match events.last() {
            EngineEvent::Captured(samples) => {
                let more = t.engine.raw.skip(r.engine.raw.len() as int);
                assert(t.engine.raw =~= r.engine.raw + more);
                assert(t.captured =~= t.blocks.flatten() + t.engine.raw);
            },
            EngineEvent::Turned => {
                let block = block_in(r.engine, room);
                if !r.engine.dsp_stop && block.len() > 0 {
                    r.blocks.lemma_flatten_push(block);
                    assert(r.engine.raw =~= block + t.engine.raw);
                    assert(t.captured =~= t.blocks.flatten() + t.engine.raw);
                    assert(t.blocks.drop_last() =~= r.blocks);
                    let more = t.engine.processed.skip(r.engine.processed.len() as int);
                    r.queued.lemma_flatten_push(more);
                    assert(t.engine.processed =~= r.engine.processed + more);
                    assert(t.queued.flatten() =~= t.left.flatten() + t.engine.processed);
                    let output = crate::pipeline::run_block(r.pipeline, block, arithmetic).1;
                    assert(more =~= start_of(
                        output,
                        r.engine.processed_room - r.engine.processed.len(),
                    ));
                }
            },
            EngineEvent::Read(wanted) => {
                r.left.lemma_flatten_push(read_in(r.engine, wanted));
                assert(r.engine.processed =~= read_in(r.engine, wanted) + t.engine.processed);
                assert(t.queued.flatten() =~= t.left.flatten() + t.engine.processed);
            },
            EngineEvent::Skipped => {
                r.left.lemma_flatten_push(r.engine.processed);
                assert(t.queued.flatten() =~= t.left.flatten() + t.engine.processed);
            },
            EngineEvent::Stopped => {},
        }
    }
}

/// The pipeline of a run is where its blocks have brought it.
proof fn lemma_pipeline_of_run(
    engine: EngineState,
    pipeline: crate::pipeline::DspState,
    events: Seq<EngineEvent>,
    room: nat,
    arithmetic: spec_fn(crate::pipeline::DspRequestView) -> crate::pipeline::DspEventView,
)
    ensures
        ({
            let r = after_events(engine, pipeline, events, room, arithmetic);
            r.pipeline == crate::pipeline::after_blocks(pipeline, r.blocks, arithmetic)
        }),
    decreases events.len(),
{
    if events.len() > 0 {
        lemma_pipeline_of_run(engine, pipeline, events.drop_last(), room, arithmetic);
        let r = after_events(engine, pipeline, events.drop_last(), room, arithmetic);
        let t = after_event(r, events.last(), room, arithmetic);
        if t.blocks.len() > r.blocks.len() {
            assert(t.blocks.drop_last() =~= r.blocks);
        }
    }
}

/// A stop is for good: whatever happens to an engine that was told to stop, no block
/// is taken and nothing is queued any more.  What was captured stays as it is once
/// capturing has ended, what was processed can still be read, and a second stop
/// changes nothing and finds no thread to wait for.
pub proof fn lemma_stop_is_final(
    engine: EngineState,
    pipeline: crate::pipeline::DspState,
    events: Seq<EngineEvent>,
    more: Seq<EngineEvent>,
    room: nat,
    arithmetic: spec_fn(crate::pipeline::DspRequestView) -> crate::pipeline::DspEventView,
)
    requires
        events.len() > 0,
        events.last() == EngineEvent::Stopped,
    ensures
        ({
            let r = after_events(engine, pipeline, events, room, arithmetic);
            let t = after_events(engine, pipeline, events + more, room, arithmetic);
            &&& (t.blocks, t.queued, t.pipeline) == (r.blocks, r.queued, r.pipeline)
            &&& t.engine.processed.len() <= r.engine.processed.len()
            &&& t.engine.processed == r.engine.processed.skip(
                r.engine.processed.len() - t.engine.processed.len(),
            )
            &&& (forall|i: int| 0 <= i < more.len() ==> (#[trigger] more[i]) !is Captured)
                ==> t.engine.raw == r.engine.raw
            &&& after_stop(t.engine) == t.engine
            &&& !t.engine.has_capture_thread && !t.engine.has_dsp_thread
        }),
    decreases more.len(),
{
    let r = after_events(engine, pipeline, events, room, arithmetic);
    if more.len() == 0 {
        assert(events + more =~= events);
        assert(r.engine.processed.skip(0) =~= r.engine.processed);
    } else {
        let front = more.drop_last();
        lemma_stop_is_final(engine, pipeline, events, front, room, arithmetic);
        assert((events + more).drop_last() =~= events + front);
        assert((events + more).last() == more.last());
        assert(more.last() == more[more.len() - 1]);
        let s = after_events(engine, pipeline, events + front, room, arithmetic);
        let t = after_events(engine, pipeline, events + more, room, arithmetic);
        assert(t == after_event(s, more.last(), room, arithmetic));
        if forall|i: int| 0 <= i < more.len() ==> (#[trigger] more[i]) !is Captured {
            assert forall|i: int| 0 <= i < front.len() implies (#[trigger] front[i]) !is Captured by {
                assert(front[i] == more[i]);
            }
        }
        assert(t.engine.processed =~= r.engine.processed.skip(
            r.engine.processed.len() - t.engine.processed.len(),
        ));
    }
}

/// What is captured is queued behind what is queued already, in order, all of it where
/// there is room for it and else as much as there is room for; nothing else changes.
pub proof fn lemma_captured(s: EngineState, samples: Seq<u32>)
    requires
        s.raw.len() <= s.raw_room,
    ensures
        ({
            let t = after_captured(s, samples);
            &&& t == (EngineState { raw: t.raw, ..s })
            &&& t.raw.len() <= s.raw_room
            &&& t.raw.len() >= s.raw.len()
            &&& t.raw.take(s.raw.len() as int) == s.raw
            &&& t.raw.skip(s.raw.len() as int) == samples.take(t.raw.len() - s.raw.len())
            &&& s.raw.len() + samples.len() <= s.raw_room ==> t.raw == s.raw + samples
            &&& s.raw.len() + samples.len() > s.raw_room ==> t.raw.len() == s.raw_room
        }),
{
    let t = after_captured(s, samples);
    assert(t.raw.take(s.raw.len() as int) =~= s.raw);
    assert(t.raw.skip(s.raw.len() as int) =~= samples.take(t.raw.len() - s.raw.len()));
    if s.raw.len() + samples.len() <= s.raw_room {
        assert(t.raw =~= s.raw + samples);
    }
}

/// The same of what is processed.
pub proof fn lemma_processed(s: EngineState, output: Seq<u32>)
    requires
        s.processed.len() <= s.processed_room,
    ensures
        ({
            let t = after_processed(s, output);
            let old_len = s.processed.len();
            &&& t == (EngineState { processed: t.processed, ..s })
            &&& old_len <= t.processed.len() <= s.processed_room
            &&& t.processed.take(old_len as int) == s.processed
            &&& t.processed.skip(old_len as int) == output.take(t.processed.len() - old_len)
            &&& old_len + output.len() <= s.processed_room ==> t.processed == s.processed + output
            &&& old_len + output.len() > s.processed_room ==> t.processed.len()
                == s.processed_room
        }),
{
    let t = after_processed(s, output);
    let old_len = s.processed.len() as int;
    assert(t.processed.take(old_len) =~= s.processed);
    assert(t.processed.skip(old_len) =~= output.take(t.processed.len() - old_len));
    if old_len + output.len() <= s.processed_room {
        assert(t.processed =~= s.processed + output);
    }
}

/// The block that is taken, and what is read, are the oldest samples, as many as there
/// are or as there are places for, and the rest stays; nothing else changes.
pub proof fn lemma_taken(s: EngineState, places: nat)
    ensures
        ({
            let block = block_in(s, places);
            let t = after_taken(s, places);
            &&& s.raw == block + t.raw
            &&& block.len() <= places
            &&& block.len() == places || t.raw.len() == 0
            &&& t == (EngineState { raw: t.raw, ..s })
        }),
        ({
            let read = read_in(s, places);
            let t = after_read(s, places);
            &&& s.processed == read + t.processed
            &&& read.len() <= places
            &&& read.len() == places || t.processed.len() == 0
            &&& t == (EngineState { processed: t.processed, ..s })
        }),
        after_skipped(s) == (EngineState { processed: Seq::empty(), ..s }),
{
    assert(s.raw =~= block_in(s, places) + after_taken(s, places).raw);
    assert(s.processed =~= read_in(s, places) + after_read(s, places).processed);
}

/// A stop tells both threads, leaves none to wait for, and changes nothing else.
pub proof fn lemma_stop(s: EngineState)
    ensures
        ({
            let t = after_stop(s);
            &&& t.capture_stop && t.dsp_stop
            &&& !t.has_capture_thread && !t.has_dsp_thread
            &&& (t.raw, t.processed, t.format, t.in_rate, t.out_rate, t.channels, t.enable_vad) == (
                s.raw,
                s.processed,
                s.format,
                s.in_rate,
                s.out_rate,
                s.channels,
                s.enable_vad,
            )
            &&& (t.raw_room, t.processed_room) == (s.raw_room, s.processed_room)
        }),
{
}

/// The processing thread is made with the engine's own rates, channels and detector, and
/// takes at most ten milliseconds at a time: the samples of one channel are a hundredth
/// of the rate, rounded down.
pub proof fn lemma_setup(s: EngineState)
    requires
        s.channels <= u16::MAX,
    ensures
        ({
            let setup = setup_of(s);
            &&& (setup.in_rate, setup.out_rate) == (s.in_rate, s.out_rate)
            &&& (setup.channels, setup.enable_vad) == (s.channels, s.enable_vad)
            &&& setup.input_samples == (s.in_rate as int / 100) * s.channels
        }),
        is_format_usable(s.channels, s.in_rate) <==> s.channels != 0 && s.in_rate != 0,
{
    let per_channel = s.in_rate * 10 / 1000;
    assert(per_channel == s.in_rate as int / 100);
    assert(0 <= per_channel * s.channels <= 42949672 * 65535) by (nonlinear_arith)
        requires
            0 <= per_channel <= 42949672,
            0 <= s.channels <= 65535,
    ;
}

} // verus!
