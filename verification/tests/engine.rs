use voice_assistant::engine::{
    check_format, is_speech, DspReport, DspSetup, DspTurn, DspWorker, ProductionAudioEngine,
    StartStep, WasapiConfig, SPEECH_LEVEL,
};

const CONFIG: WasapiConfig = WasapiConfig { sample_rate: 8000, channels: 1, buffer_duration_ms: 1 };

#[test]
fn a_new_engine_is_empty_and_has_its_room() {
    let mut engine = ProductionAudioEngine::new("default");
    assert_eq!(engine.stats(), "raw: 0, proc: 0");
    engine.captured(&vec![1; 40000]);
    assert_eq!(engine.stats(), "raw: 32768, proc: 0");
    let mut worker = DspWorker::new();
    worker.finish(&mut engine, &vec![1; 3000], 0);
    assert_eq!(engine.stats(), "raw: 32768, proc: 2048");
}

#[test]
fn a_start_waits_for_the_format_and_takes_it() {
    let mut engine = ProductionAudioEngine::new("default");
    assert!(engine.start(CONFIG, true).is_ok());
    assert_eq!(engine.poll_start(0), Ok(StartStep::Sleep { millis: 10 }));
    assert_eq!(engine.poll_start(4999), Ok(StartStep::Sleep { millis: 10 }));
    engine.publish(6, 44100);
    assert_eq!(
        engine.poll_start(4999),
        Ok(StartStep::Spawn {
            setup: DspSetup {
                in_rate: 44100,
                out_rate: 16000,
                channels: 6,
                enable_vad: true,
                input_samples: 441 * 6,
            },
        })
    );
}

#[test]
fn half_a_format_is_none() {
    let mut engine = ProductionAudioEngine::new("default");
    engine.publish(2, 0);
    assert_eq!(engine.poll_start(100), Ok(StartStep::Sleep { millis: 10 }));
    engine.publish(0, 48000);
    assert_eq!(engine.poll_start(100), Ok(StartStep::Sleep { millis: 10 }));
}

#[test]
fn after_the_wait_a_start_goes_on_with_what_it_has() {
    let mut engine = ProductionAudioEngine::new("default");
    assert!(engine.start(CONFIG, false).is_ok());
    engine.publish(6, 44100);
    assert_eq!(
        engine.poll_start(5000),
        Ok(StartStep::Spawn {
            setup: DspSetup {
                in_rate: 48000,
                out_rate: 16000,
                channels: 2,
                enable_vad: false,
                input_samples: 960,
            },
        })
    );
}

#[test]
fn processing_cannot_start_without_channels_or_rate() {
    let message = Err("Failed to get audio format from WASAPI".to_string());
    assert_eq!(check_format(2, 48000), Ok(()));
    assert_eq!(check_format(0, 48000), message);
    assert_eq!(check_format(2, 0), message);
    assert_eq!(check_format(0, 0), message);
}

#[test]
fn samples_pass_through_in_order() {
    let mut engine = ProductionAudioEngine::new("default");
    let mut worker = DspWorker::new();
    engine.captured(&[1, 2, 3]);
    engine.captured(&[4, 5]);
    let mut block: Vec<u32> = vec![9; 4];
    assert_eq!(worker.turn(&mut engine, &mut block), DspTurn::Process { samples: 4 });
    assert_eq!(block, vec![1, 2, 3, 4]);
    assert!(worker.can_finish());
    assert_eq!(worker.finish(&mut engine, &[10, 20], 4), None);
    assert_eq!(
        worker.finish(&mut engine, &[], 5),
        Some(DspReport { frames: 2, raw: 1, processed: 2 })
    );
    assert_eq!(worker.turn(&mut engine, &mut block), DspTurn::Process { samples: 1 });
    assert_eq!(worker.turn(&mut engine, &mut block), DspTurn::Sleep { micros: 100 });
    assert_eq!(block, vec![5, 2, 3, 4]);
    let mut dst: Vec<u32> = vec![0; 3];
    assert_eq!(engine.read(&mut dst), 2);
    assert_eq!(dst, vec![10, 20, 0]);
    assert_eq!(engine.read(&mut dst), 0);
}

#[test]
fn a_stop_is_for_good() {
    let mut engine = ProductionAudioEngine::new("default");
    let worker = DspWorker::new();
    assert_eq!(engine.stop(), (false, false));
    assert!(engine.start(CONFIG, true).is_ok());
    engine.captured(&[1]);
    let mut block: Vec<u32> = vec![0; 4];
    assert_eq!(worker.turn(&mut engine, &mut block), DspTurn::Exit);
    assert!(engine.capture.is_stopping());
    assert!(engine.poll_start(5000).is_ok());
    assert_eq!(engine.stop(), (true, true));
    assert_eq!(engine.stop(), (false, false));
}

#[test]
fn speech_is_louder_than_a_thousandth() {
    assert_eq!(SPEECH_LEVEL, 0.001f32.to_bits());
    assert!(is_speech(1, 0.0011f32.to_bits()));
    assert!(!is_speech(1, 0.001f32.to_bits()));
    assert!(!is_speech(1, 0.0f32.to_bits()));
    assert!(!is_speech(1, f32::NAN.to_bits()));
    assert!(!is_speech(0, 0.5f32.to_bits()));
}

#[test]
fn what_was_processed_can_be_skipped() {
    let mut engine = ProductionAudioEngine::new("default");
    let mut worker = DspWorker::new();
    engine.captured(&[1, 2]);
    worker.finish(&mut engine, &[3, 4, 5], 0);
    engine.skip_processed();
    assert_eq!(engine.stats(), "raw: 2, proc: 0");
    worker.finish(&mut engine, &[6], 0);
    let mut dst: Vec<u32> = vec![0; 2];
    assert_eq!(engine.read(&mut dst), 1);
    assert_eq!(dst, vec![6, 0]);
}

#[test]
fn what_finds_no_room_in_the_queue_is_dropped_from_its_end() {
    let mut engine = ProductionAudioEngine::new("default");
    let mut worker = DspWorker::new();
    let first: Vec<u32> = (0..1500u32).collect();
    let second: Vec<u32> = (2000..3000u32).collect();
    worker.finish(&mut engine, &first, 0);
    worker.finish(&mut engine, &second, 0);
    let mut dst: Vec<u32> = vec![0; 3000];
    assert_eq!(engine.read(&mut dst), 2048);
    assert_eq!(dst[..1500].to_vec(), first);
    assert_eq!(dst[1500..2048].to_vec(), second[..548].to_vec());
}
