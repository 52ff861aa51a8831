use voice_assistant::agc::{AgcEvent, AgcRequest};
use voice_assistant::pipeline::{DspEvent, DspPipeline, DspRequest};
use voice_assistant::vad::{VadEvent, VadRequest};

fn bits(x: f32) -> u32 {
    x.to_bits()
}

fn patterns(xs: &[f32]) -> Vec<u32> {
    xs.iter().map(|x| x.to_bits()).collect()
}

fn floats(ps: &[u32]) -> Vec<f32> {
    ps.iter().map(|p| f32::from_bits(*p)).collect()
}

fn rms(xs: &[f32]) -> f32 {
    let sum: f32 = xs.iter().map(|x| x * x).sum();
    (sum / xs.len() as f32).sqrt()
}

/// Performs what a pipeline asks for, and takes a block to its end.
fn run(pipeline: &mut DspPipeline, block: &[f32]) -> (Vec<f32>, bool) {
    let mut request: DspRequest = pipeline.process(DspEvent::Input(patterns(block)));
    for _ in 1..12 {
        let event: DspEvent = match request {
            DspRequest::MixPairs(pairs) => DspEvent::Mixed(
                pairs
                    .iter()
                    .map(|p| bits((f32::from_bits(p.0) + f32::from_bits(p.1)) * 0.5))
                    .collect(),
            ),
            DspRequest::MixFrames(frames) => DspEvent::Mixed(
                frames
                    .iter()
                    .map(|f| bits(floats(f).iter().sum::<f32>() / f.len() as f32))
                    .collect(),
            ),
            DspRequest::Center(mono) => {
                let xs: Vec<f32> = floats(&mono);
                let mean: f32 = xs.iter().sum::<f32>() / xs.len() as f32;
                DspEvent::Centered(xs.iter().map(|x| bits(x - mean)).collect())
            }
            DspRequest::Interpolate { taps, ratio_den } => DspEvent::Interpolated(
                taps.iter()
                    .map(|t| {
                        let part: f32 = t.phase as f32 / ratio_den as f32;
                        bits(f32::from_bits(t.prev) * (1.0 - part) + f32::from_bits(t.next) * part)
                    })
                    .collect(),
            ),
            DspRequest::Agc(AgcRequest::Measure { frame: f, target }) => {
                let level: f32 = 20.0 * (rms(&floats(&f)) + 1e-10).log10();
                DspEvent::Agc(AgcEvent::Wanted(bits(f32::from_bits(target) - level)))
            }
            DspRequest::Agc(AgcRequest::Blend { gain_db, target, alpha }) => {
                let alpha: f32 = f32::from_bits(alpha);
                let gain: f32 =
                    f32::from_bits(gain_db) * (1.0 - alpha) + f32::from_bits(target) * alpha;
                DspEvent::Agc(AgcEvent::Gain(bits(gain)))
            }
            DspRequest::Agc(AgcRequest::Amplify { frame, gain_db }) => {
                let gain: f32 = 10.0_f32.powf(f32::from_bits(gain_db) / 20.0);
                let out: Vec<f32> = floats(&frame).iter().map(|x| x * gain).collect();
                DspEvent::Agc(AgcEvent::Amplified(patterns(&out)))
            }
            DspRequest::Vad(VadRequest::Measure { frame: f }) => {
                DspEvent::Vad(VadEvent::Energy(bits(rms(&floats(&f)))))
            }
            DspRequest::Vad(VadRequest::Track { noise, kept, floor, taken }) => {
                let a: f32 = f32::from_bits(noise) * f32::from_bits(kept);
                let b: f32 = f32::from_bits(floor) * f32::from_bits(taken);
                DspEvent::Vad(VadEvent::Noise(bits(a + b)))
            }
            DspRequest::Vad(VadRequest::Gauge { energy, noise, factor }) => {
                let noise: f32 = f32::from_bits(noise);
                DspEvent::Vad(VadEvent::Gauged {
                    threshold: bits(noise * f32::from_bits(factor)),
                    ratio: bits(f32::from_bits(energy) / noise),
                })
            }
            DspRequest::Vad(VadRequest::Blend { probability, indicator, beta }) => {
                let beta: f32 = f32::from_bits(beta);
                let p: f32 =
                    f32::from_bits(probability) * (1.0 - beta) + f32::from_bits(indicator) * beta;
                DspEvent::Vad(VadEvent::Probability(bits(p)))
            }
            DspRequest::Done { output, speech } => return (floats(&output), speech),
            other => panic!("{:?}", other),
        };
        assert!(pipeline.is_awaiting(&event));
        request = pipeline.process(event);
    }
    match request {
        DspRequest::Done { output, speech } => (floats(&output), speech),
        other => panic!("{:?}", other),
    }
}

#[test]
fn blocks_without_a_whole_frame_come_to_nothing() {
    let mut stereo = DspPipeline::new(48000, 16000, 2, true);
    assert_eq!(run(&mut stereo, &[]), (vec![], false));
    assert_eq!(run(&mut stereo, &[0.5]), (vec![], false));
    let mut none = DspPipeline::new(48000, 16000, 0, false);
    assert_eq!(run(&mut none, &[0.5, 0.5]), (vec![], false));
}

#[test]
fn a_block_for_which_no_sample_is_due_comes_to_nothing() {
    let mut mono = DspPipeline::new(48000, 16000, 1, false);
    assert_eq!(run(&mut mono, &[0.5, 0.25]), (vec![], false));
    let (out, speech) = run(&mut mono, &[0.75, 0.25]);
    assert_eq!(out.len(), 1);
    assert!(speech);
}

#[test]
fn one_channel_is_not_mixed() {
    let mut mono = DspPipeline::new(16000, 16000, 1, false);
    let block: Vec<u32> = patterns(&[0.1, 0.2, 0.3]);
    assert!(matches!(
        mono.process(DspEvent::Input(block.clone())),
        DspRequest::Center(samples) if samples == block
    ));
}

#[test]
fn two_channels_are_mixed_in_pairs() {
    let mut stereo = DspPipeline::new(16000, 16000, 2, false);
    assert!(matches!(
        stereo.process(DspEvent::Input(vec![1, 2, 3, 4, 5])),
        DspRequest::MixPairs(pairs) if pairs == vec![(1, 2), (3, 4)]
    ));
    assert!(stereo.is_awaiting(&DspEvent::Mixed(vec![0; 2])));
    assert!(!stereo.is_awaiting(&DspEvent::Mixed(vec![0; 3])));
    assert!(!stereo.is_awaiting(&DspEvent::Centered(vec![0; 2])));
    assert!(!stereo.is_awaiting(&DspEvent::Input(vec![0; 2])));
}

#[test]
fn more_channels_are_mixed_frame_by_frame() {
    let mut surround = DspPipeline::new(16000, 16000, 3, false);
    assert!(matches!(
        surround.process(DspEvent::Input(vec![1, 2, 3, 4, 5, 6, 7, 8])),
        DspRequest::MixFrames(frames) if frames == vec![vec![1, 2, 3], vec![4, 5, 6]]
    ));
}

#[test]
fn without_a_detector_everything_that_comes_out_is_speech() {
    let mut pipeline = DspPipeline::new(48000, 16000, 2, false);
    let (out, speech) = run(&mut pipeline, &[0.0; 960]);
    assert_eq!(out, vec![0.0; 160]);
    assert!(speech);
}

#[test]
fn with_a_detector_silence_is_no_speech() {
    let mut pipeline = DspPipeline::new(48000, 16000, 2, true);
    for _ in 0..50 {
        let (out, speech) = run(&mut pipeline, &[0.0; 960]);
        assert_eq!(out, vec![0.0; 160]);
        assert!(!speech);
    }
}

/// Ten milliseconds of a tone in stereo.
fn tone(from: usize, loudness: f32) -> Vec<f32> {
    (0..480)
        .flat_map(|i| {
            let x: f32 = loudness * ((from + i) as f32 * 0.05).sin();
            vec![x, x]
        })
        .collect()
}

#[test]
fn a_constant_part_is_taken_out() {
    let mut pipeline = DspPipeline::new(48000, 16000, 2, false);
    let (out, _) = run(&mut pipeline, &[0.5; 960]);
    assert_eq!(out, vec![0.0; 160]);
}

#[test]
fn what_comes_out_is_never_louder_than_the_limit() {
    let mut pipeline = DspPipeline::new(48000, 16000, 2, true);
    for i in 0..40usize {
        let (out, _) = run(&mut pipeline, &tone(480 * i, 3.0));
        assert_eq!(out.len(), 160);
        assert!(out.iter().all(|x| x.abs() <= 0.99));
    }
}

#[test]
fn a_tone_after_silence_is_found() {
    let mut pipeline = DspPipeline::new(48000, 16000, 2, true);
    for _ in 0..30 {
        assert!(!run(&mut pipeline, &[0.0; 960]).1);
    }
    let found: Vec<bool> = (0..25usize).map(|i| run(&mut pipeline, &tone(480 * i, 0.3)).1).collect();
    // A probability that goes a tenth of the way to one passes six tenths with the
    // ninth step.
    assert_eq!(found.iter().position(|b| *b), Some(8));
    assert!(found[8..].iter().all(|b| *b));
}

#[test]
fn searching_for_speech_does_not_alter_the_sound() {
    let mut with = DspPipeline::new(48000, 16000, 2, true);
    let mut without = DspPipeline::new(48000, 16000, 2, false);
    for i in 0..60usize {
        let block: Vec<f32> = tone(480 * i, if i % 7 < 3 { 0.3 } else { 0.0 });
        let (a, speech) = run(&mut with, &block);
        let (b, said) = run(&mut without, &block);
        assert_eq!(a, b);
        assert!(!speech || said);
    }
}
