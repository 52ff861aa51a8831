use voice_assistant::capture::{
    CaptureEvent, CaptureFailure, CaptureRequest, CaptureSession, Cleanup, EndpointRole,
    WasapiCaptureEngine, BUFFER_DURATION,
};
use voice_assistant::convert::Converted;
use voice_assistant::format::{MixFormat, WaveFormat};

const FORMAT: MixFormat = MixFormat {
    wave: WaveFormat {
        format_tag: 1,
        channels: 2,
        samples_per_sec: 48000,
        avg_bytes_per_sec: 192000,
        block_align: 4,
        bits_per_sample: 16,
    },
    bits: 16,
    is_float: false,
};

/// Takes a new session through `events`, and returns it with all its requests.
fn follow(events: Vec<CaptureEvent>) -> (CaptureSession, Vec<CaptureRequest>) {
    let (mut session, first) = CaptureSession::new();
    let mut requests: Vec<CaptureRequest> = vec![first];
    for event in events {
        assert!(session.is_awaiting(&event));
        requests.push(session.step(event));
    }
    (session, requests)
}

/// The events of a start that goes well.
fn opening() -> Vec<CaptureEvent> {
    vec![
        CaptureEvent::ComInitialized { code: 0 },
        CaptureEvent::Completed,
        CaptureEvent::Completed,
        CaptureEvent::Completed,
        CaptureEvent::FormatRead { format: FORMAT },
        CaptureEvent::Completed,
        CaptureEvent::EventCreated { handle: 64 },
        CaptureEvent::Completed,
        CaptureEvent::Completed,
        CaptureEvent::Completed,
        CaptureEvent::Completed,
    ]
}

#[test]
fn a_start_that_goes_well() {
    let (_, requests) = follow(opening());
    assert_eq!(
        requests,
        vec![
            CaptureRequest::InitializeCom,
            CaptureRequest::CreateEnumerator,
            CaptureRequest::OpenEndpoint { role: EndpointRole::Communications },
            CaptureRequest::Activate,
            CaptureRequest::ReadFormat,
            CaptureRequest::Publish { channels: 2, sample_rate: 48000 },
            CaptureRequest::CreateEvent,
            CaptureRequest::InitializeClient { duration: 2_000_000 },
            CaptureRequest::GetService,
            CaptureRequest::SetEvent,
            CaptureRequest::Start,
            CaptureRequest::CheckStop { report: None },
        ]
    );
    assert_eq!(BUFFER_DURATION, (10_000_000i64 * 10 / 1000).max(2000000));
}

fn ending_of(request: &CaptureRequest) -> Cleanup {
    match request {
        CaptureRequest::Finish { cleanup } => *cleanup,
        other => panic!("{:?}", other),
    }
}

#[test]
fn every_failure_gives_back_what_is_held() {
    let expected: Vec<(usize, CaptureFailure, bool, bool)> = vec![
        (1, CaptureFailure::Enumerator, false, false),
        (3, CaptureFailure::Activation, false, false),
        (4, CaptureFailure::MixFormat, false, false),
        (6, CaptureFailure::Event, false, true),
        (7, CaptureFailure::Client, true, true),
        (8, CaptureFailure::Service, true, true),
        (9, CaptureFailure::EventHandle, true, true),
        (10, CaptureFailure::Start, true, true),
    ];
    for (steps, failure, close_event, free_format) in expected {
        let mut events: Vec<CaptureEvent> = opening().drain(..steps).collect();
        events.push(CaptureEvent::Failed { code: 0x8000_4005 });
        let (session, requests) = follow(events);
        assert_eq!(
            ending_of(&requests[requests.len() - 1]),
            Cleanup { failure: Some(failure), stop_client: false, close_event, free_format }
        );
        assert!(!session.is_awaiting(&CaptureEvent::Completed));
    }
}

#[test]
fn negative_codes_end_the_thread_and_others_do_not() {
    for code in [0i32, 1, 5, i32::MAX] {
        let (_, requests) = follow(vec![CaptureEvent::ComInitialized { code }]);
        assert_eq!(requests[1], CaptureRequest::CreateEnumerator);
    }
    for code in [-1i32, i32::MIN, 0x8001_0106u32 as i32] {
        let (_, requests) = follow(vec![CaptureEvent::ComInitialized { code }]);
        assert_eq!(
            ending_of(&requests[1]),
            Cleanup {
                failure: Some(CaptureFailure::Com),
                stop_client: false,
                close_event: false,
                free_format: false,
            }
        );
    }
}

#[test]
fn the_console_microphone_is_the_second_choice() {
    let failing = |failures: usize| -> Vec<CaptureEvent> {
        let mut events: Vec<CaptureEvent> = opening().drain(..2).collect();
        for _ in 0..failures {
            events.push(CaptureEvent::Failed { code: 1 });
        }
        events
    };
    let (mut session, requests) = follow(failing(1));
    assert_eq!(requests[3], CaptureRequest::OpenEndpoint { role: EndpointRole::Console });
    assert_eq!(session.step(CaptureEvent::Completed), CaptureRequest::Activate);

    let (_, requests) = follow(failing(2));
    assert_eq!(ending_of(&requests[4]).failure, Some(CaptureFailure::Endpoint));
}

#[test]
fn an_event_that_is_not_valid_is_not_closed() {
    for handle in [0isize, -1] {
        let mut events: Vec<CaptureEvent> = opening().drain(..6).collect();
        events.push(CaptureEvent::EventCreated { handle });
        let (_, requests) = follow(events);
        assert_eq!(
            ending_of(&requests[7]),
            Cleanup {
                failure: Some(CaptureFailure::InvalidEvent),
                stop_client: false,
                close_event: false,
                free_format: true,
            }
        );
    }
    for handle in [1isize, -2, isize::MAX] {
        let mut events: Vec<CaptureEvent> = opening().drain(..6).collect();
        events.push(CaptureEvent::EventCreated { handle });
        let (_, requests) = follow(events);
        assert_eq!(requests[7], CaptureRequest::InitializeClient { duration: BUFFER_DURATION });
    }
}

#[test]
fn packets_are_taken_until_there_are_no_more() {
    let (mut session, _) = follow(opening());
    assert_eq!(
        session.step(CaptureEvent::StopChecked { requested: false }),
        CaptureRequest::Wait { millis: 100 }
    );
    assert_eq!(
        session.step(CaptureEvent::Waited { result: 0 }),
        CaptureRequest::GetPacket
    );
    assert_eq!(
        session.step(CaptureEvent::Packet { frames: 2, present: true, flags: 0 }),
        CaptureRequest::ReadPacket { bytes: 8 }
    );
    assert!(!session.is_awaiting(&CaptureEvent::PacketRead { data: vec![0; 7] }));
    let data: Vec<u8> = vec![1, 0, 2, 0, 0xff, 0xff, 0, 0x80];
    assert!(session.is_awaiting(&CaptureEvent::PacketRead { data: data.clone() }));
    assert_eq!(
        session.step(CaptureEvent::PacketRead { data }),
        CaptureRequest::Scale {
            converted: Converted::Scaled { samples: vec![1, 2, -1, -32768], full_scale: 32768 },
        }
    );
    assert!(!session.is_awaiting(&CaptureEvent::Scaled { samples: vec![0; 3] }));
    assert_eq!(
        session.step(CaptureEvent::Scaled { samples: vec![10, 20, 30, 40] }),
        CaptureRequest::Release { frames: 2 }
    );
    assert_eq!(
        session.step(CaptureEvent::Completed),
        CaptureRequest::Deliver { samples: vec![10, 20, 30, 40] }
    );
    assert_eq!(session.step(CaptureEvent::Completed), CaptureRequest::GetPacket);
    assert_eq!(
        session.step(CaptureEvent::Packet { frames: 480, present: true, flags: 2 }),
        CaptureRequest::ReadPacket { bytes: 0 }
    );
    assert_eq!(
        session.step(CaptureEvent::PacketRead { data: vec![] }),
        CaptureRequest::Scale { converted: Converted::Silence(960) }
    );
    assert_eq!(
        session.step(CaptureEvent::Scaled { samples: vec![0; 960] }),
        CaptureRequest::Release { frames: 480 }
    );
    assert_eq!(
        session.step(CaptureEvent::Completed),
        CaptureRequest::Deliver { samples: vec![0; 960] }
    );
    assert_eq!(session.step(CaptureEvent::Completed), CaptureRequest::GetPacket);
    assert_eq!(
        session.step(CaptureEvent::Failed { code: 0x8889_0001 }),
        CaptureRequest::CheckStop { report: None }
    );
    assert_eq!(
        session.step(CaptureEvent::StopChecked { requested: true }),
        CaptureRequest::Finish {
            cleanup: Cleanup {
                failure: None,
                stop_client: true,
                close_event: true,
                free_format: true,
            },
        }
    );
}

#[test]
fn a_wait_in_vain_looks_for_a_stop() {
    for result in [258u32, 128, u32::MAX] {
        let (mut session, _) = follow(opening());
        session.step(CaptureEvent::StopChecked { requested: false });
        assert_eq!(
            session.step(CaptureEvent::Waited { result }),
            CaptureRequest::CheckStop { report: None }
        );
    }
}

/// A session that waits for a packet.
fn fetching() -> CaptureSession {
    let (mut session, _) = follow(opening());
    session.step(CaptureEvent::StopChecked { requested: false });
    session.step(CaptureEvent::Waited { result: 0 });
    session
}

#[test]
fn packets_that_hold_nothing_are_discarded() {
    for (frames, present) in [(0u32, true), (5, false), (0, false)] {
        let mut session = fetching();
        assert_eq!(
            session.step(CaptureEvent::Packet { frames, present, flags: 0 }),
            CaptureRequest::Release { frames: 0 }
        );
        assert_eq!(
            session.step(CaptureEvent::Completed),
            CaptureRequest::CheckStop { report: None }
        );
    }
}

#[test]
fn a_packet_without_samples_is_not_delivered() {
    let mut none: MixFormat = FORMAT;
    none.wave.channels = 0;
    let mut events: Vec<CaptureEvent> = opening();
    events[4] = CaptureEvent::FormatRead { format: none };
    events.push(CaptureEvent::StopChecked { requested: false });
    events.push(CaptureEvent::Waited { result: 0 });
    let (mut session, _) = follow(events);
    session.step(CaptureEvent::Packet { frames: 3, present: true, flags: 0 });
    session.step(CaptureEvent::PacketRead { data: vec![] });
    assert_eq!(
        session.step(CaptureEvent::Scaled { samples: vec![] }),
        CaptureRequest::Release { frames: 3 }
    );
    assert_eq!(session.step(CaptureEvent::Completed), CaptureRequest::GetPacket);
}

#[test]
fn other_errors_are_reported_and_do_not_end_the_thread() {
    let mut session = fetching();
    assert_eq!(
        session.step(CaptureEvent::Failed { code: 0x8889_0004 }),
        CaptureRequest::CheckStop { report: Some(0x8889_0004) }
    );
}

#[test]
fn a_capture_engine_keeps_the_stop_that_was_requested() {
    let mut engine = WasapiCaptureEngine::new();
    assert_eq!(engine.get_format(), (0, 0));
    assert!(!engine.is_stopping());
    assert!(engine.start().is_ok());
    engine.publish(2, 44100);
    assert_eq!(engine.get_format(), (2, 44100));
    assert!(engine.stop());
    assert!(engine.is_stopping());
    assert!(!engine.stop());
    assert!(engine.start().is_ok());
    assert!(engine.is_stopping());
    assert_eq!(engine.get_format(), (2, 44100));
}
