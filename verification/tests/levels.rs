use voice_assistant::agc::{Agc, AgcEvent, AgcRequest, ATTACK, MAX_GAIN, MIN_GAIN, PEAK, RELEASE, TARGET, TROUGH};
use voice_assistant::pattern::{clamp, greater, larger, lesser, not_a_number, INFINITY, LARGEST, ONE, ZERO};
use voice_assistant::vad::{
    Vad, VadEvent, VadRequest, ABS_THRESHOLD, FALL, FIRST_NOISE, FLOOR_TAKEN, HIGH_PROBABILITY,
    MIN_RATIO, NOISE_FACTOR, NOISE_KEPT, RISE,
};

fn bits(x: f32) -> u32 {
    x.to_bits()
}

/// Numbers of every sort.
fn samples() -> Vec<f32> {
    vec![
        0.0,
        -0.0,
        1.0,
        -1.0,
        0.001,
        -0.99,
        0.99,
        0.9900001,
        f32::MIN_POSITIVE,
        -f32::MIN_POSITIVE,
        1e-42,
        f32::MAX,
        f32::MIN,
        f32::INFINITY,
        f32::NEG_INFINITY,
        f32::NAN,
        -f32::NAN,
    ]
}

#[test]
fn patterns_compare_as_numbers_do() {
    for a in samples() {
        assert_eq!(not_a_number(bits(a)), a.is_nan());
        for b in samples() {
            assert_eq!(greater(bits(a), bits(b)), a > b, "{} > {}", a, b);
        }
    }
}

#[test]
fn the_lesser_and_the_larger_are_those_of_the_numbers() {
    for a in samples() {
        for b in samples() {
            if a.is_nan() && b.is_nan() {
                continue;
            }
            assert_eq!(f32::from_bits(lesser(bits(a), bits(b))), a.min(b));
            assert_eq!(f32::from_bits(larger(bits(a), bits(b))), a.max(b));
        }
    }
}

#[test]
fn clamping_patterns_clamps_numbers() {
    for x in samples() {
        let got: u32 = clamp(bits(x), TROUGH, PEAK);
        if x.is_nan() {
            assert_eq!(got, bits(x));
        } else {
            assert_eq!(got, bits(x.clamp(-0.99, 0.99)));
        }
    }
}

#[test]
fn constants_are_the_numbers_they_stand_for() {
    assert_eq!(INFINITY, bits(f32::INFINITY));
    assert_eq!(LARGEST, bits(f32::MAX));
    assert_eq!(ZERO, bits(0.0));
    assert_eq!(ONE, bits(1.0));
    assert_eq!(TARGET, bits(-20.0));
    assert_eq!(MAX_GAIN, bits(30.0));
    assert_eq!(MIN_GAIN, bits(-20.0));
    assert_eq!(ATTACK, bits(0.2));
    assert_eq!(RELEASE, bits(0.001));
    assert_eq!(PEAK, bits(0.99));
    assert_eq!(TROUGH, bits(-0.99));
    assert_eq!(FIRST_NOISE, bits(0.001));
    assert_eq!(ABS_THRESHOLD, bits(0.01));
    assert_eq!(NOISE_KEPT, bits(0.9));
    assert_eq!(FLOOR_TAKEN, bits(0.1));
    assert_eq!(NOISE_FACTOR, bits(4.0));
    assert_eq!(MIN_RATIO, bits(2.0));
    assert_eq!(HIGH_PROBABILITY, bits(0.6));
    assert_eq!(RISE, bits(0.1));
    assert_eq!(FALL, bits(0.005));
}

#[test]
fn an_empty_frame_needs_no_levelling() {
    let mut agc = Agc::new();
    assert!(matches!(agc.process(AgcEvent::Frame(vec![])), AgcRequest::Done(f) if f.is_empty()));
    assert!(agc.is_awaiting(&AgcEvent::Frame(vec![])));
}

/// Takes a frame through the control, with `wanted` and `gain` for what is measured
/// and blended.
fn level(agc: &mut Agc, frame: Vec<u32>, wanted: f32, gain: f32) -> (f32, f32, f32, Vec<u32>) {
    assert!(matches!(
        agc.process(AgcEvent::Frame(frame.clone())),
        AgcRequest::Measure { frame: f, target } if f == frame && target == bits(-20.0)
    ));
    let blend: (f32, f32, f32) = match agc.process(AgcEvent::Wanted(bits(wanted))) {
        AgcRequest::Blend { gain_db, target, alpha } => {
            (f32::from_bits(gain_db), f32::from_bits(target), f32::from_bits(alpha))
        }
        other => panic!("{:?}", other),
    };
    assert!(matches!(
        agc.process(AgcEvent::Gain(bits(gain))),
        AgcRequest::Amplify { frame: f, gain_db } if f == frame && gain_db == bits(gain)
    ));
    match agc.process(AgcEvent::Amplified(frame)) {
        AgcRequest::Done(out) => (blend.0, blend.1, blend.2, out),
        other => panic!("{:?}", other),
    }
}

#[test]
fn the_gain_rises_fast_and_falls_slowly() {
    let mut agc = Agc::new();
    let frame: Vec<u32> = vec![bits(0.5), bits(-2.0), bits(1.5)];
    let (gain, target, alpha, out) = level(&mut agc, frame.clone(), 12.0, 2.4);
    assert_eq!((gain, target, alpha), (0.0, 12.0, 0.2));
    assert_eq!(out, vec![bits(0.5), bits(-0.99), bits(0.99)]);
    let (gain, target, alpha, _) = level(&mut agc, frame.clone(), -5.0, 2.39);
    assert_eq!((gain, target, alpha), (2.4, -5.0, 0.001));
    let (gain, target, alpha, _) = level(&mut agc, frame, 2.39, 2.39);
    assert_eq!((gain, target, alpha), (2.39, 2.39, 0.001));
}

#[test]
fn the_gain_aims_within_its_bounds() {
    let mut agc = Agc::new();
    assert_eq!(level(&mut agc, vec![0], 180.0, 6.0).1, 30.0);
    assert_eq!(level(&mut agc, vec![0], -21.0, 6.0).1, -20.0);
    assert_eq!(level(&mut agc, vec![0], f32::INFINITY, 6.0).1, 30.0);
}

#[test]
fn the_gain_control_waits_for_its_next_step_only() {
    let mut agc = Agc::new();
    assert!(!agc.is_awaiting(&AgcEvent::Wanted(0)));
    agc.process(AgcEvent::Frame(vec![1]));
    assert!(agc.is_awaiting(&AgcEvent::Wanted(0)));
    assert!(!agc.is_awaiting(&AgcEvent::Gain(0)));
    assert!(!agc.is_awaiting(&AgcEvent::Amplified(vec![])));
    assert!(!agc.is_awaiting(&AgcEvent::Frame(vec![])));
    agc.process(AgcEvent::Wanted(0));
    agc.process(AgcEvent::Gain(0));
    assert!(agc.is_awaiting(&AgcEvent::Amplified(vec![5])));
    assert!(!agc.is_awaiting(&AgcEvent::Amplified(vec![])));
}

/// Takes a frame through the detector, with `energy` measured, `noise` tracked and
/// `probability` blended, and returns the floor, the indicator, the step and the
/// outcome.
fn detect(vad: &mut Vad, energy: f32, noise: f32, probability: f32) -> (f32, f32, f32, bool) {
    assert!(matches!(
        vad.process(VadEvent::Frame(vec![bits(energy)])),
        VadRequest::Measure { frame } if frame == vec![bits(energy)]
    ));
    let floor: f32 = match vad.process(VadEvent::Energy(bits(energy))) {
        VadRequest::Track { floor, kept, taken, .. } => {
            assert_eq!((kept, taken), (bits(0.9), bits(0.1)));
            f32::from_bits(floor)
        }
        other => panic!("{:?}", other),
    };
    assert!(matches!(
        vad.process(VadEvent::Noise(bits(noise))),
        VadRequest::Gauge { energy: e, noise: n, factor }
            if e == bits(energy) && n == bits(noise) && factor == bits(4.0)
    ));
    let gauged = VadEvent::Gauged { threshold: bits(noise * 4.0), ratio: bits(energy / noise) };
    let (indicator, beta) = match vad.process(gauged) {
        VadRequest::Blend { indicator, beta, .. } => {
            (f32::from_bits(indicator), f32::from_bits(beta))
        }
        other => panic!("{:?}", other),
    };
    match vad.process(VadEvent::Probability(bits(probability))) {
        VadRequest::Done(speech) => (floor, indicator, beta, speech),
        other => panic!("{:?}", other),
    }
}

#[test]
fn an_empty_frame_is_no_speech() {
    let mut vad = Vad::new();
    assert!(matches!(vad.process(VadEvent::Frame(vec![])), VadRequest::Done(false)));
    assert!(vad.is_awaiting(&VadEvent::Frame(vec![])));
}

#[test]
fn a_loud_frame_raises_the_probability() {
    let mut vad = Vad::new();
    assert_eq!(detect(&mut vad, 0.5, 0.05, 0.1), (0.5, 1.0, 0.1, false));
    assert_eq!(detect(&mut vad, 0.5, 0.05, 0.19), (0.5, 1.0, 0.1, false));
}

#[test]
fn a_frame_below_a_threshold_lowers_the_probability() {
    let mut vad = Vad::new();
    // Four times the noise.
    assert_eq!(detect(&mut vad, 0.2, 0.05, 0.0).1, 0.0);
    // The absolute threshold.
    assert_eq!(detect(&mut vad, 0.01, 0.0001, 0.0).1, 0.0);
    assert_eq!(detect(&mut vad, 0.010001, 0.0001, 0.0).1, 1.0);
    // No noise, nothing to stand out against.
    assert_eq!(detect(&mut vad, 0.5, 0.0, 0.0), (0.01, 0.0, 0.005, false));
}

#[test]
fn speech_outlasts_the_last_high_probability_by_eight_frames() {
    let mut vad = Vad::new();
    assert!(!detect(&mut vad, 0.5, 0.05, 0.6).3);
    assert!(detect(&mut vad, 0.5, 0.05, 0.61).3);
    for _ in 0..8 {
        assert!(detect(&mut vad, 0.001, 0.05, 0.5).3);
    }
    assert!(!detect(&mut vad, 0.001, 0.05, 0.5).3);
}

#[test]
fn the_floor_is_the_minimum_of_thirty_frames() {
    let mut vad = Vad::new();
    assert_eq!(detect(&mut vad, 0.1, 0.05, 0.0).0, 0.1);
    for _ in 0..29 {
        assert_eq!(detect(&mut vad, 0.3, 0.05, 0.0).0, 0.1);
    }
    assert_eq!(detect(&mut vad, 0.3, 0.05, 0.0).0, 0.3);
}

#[test]
fn what_is_not_a_number_does_not_lower_the_floor() {
    let mut vad = Vad::new();
    vad.process(VadEvent::Frame(vec![1]));
    assert!(matches!(
        vad.process(VadEvent::Energy(bits(f32::NAN))),
        VadRequest::Track { floor, noise, .. } if floor == LARGEST && noise == bits(0.001)
    ));
}

#[test]
fn quiet_sound_is_never_speech() {
    let mut vad = Vad::new();
    for _ in 0..100 {
        // It stands out against the noise a hundred times.
        let (_, mark, beta, speech) = detect(&mut vad, 0.01, 0.0001, 0.0);
        assert_eq!((mark, beta, speech), (0.0, 0.005, false));
    }
}

/// `alpha` of `to` and the rest of `from`.
fn blend(from: u32, to: u32, alpha: u32) -> u32 {
    let alpha: f32 = f32::from_bits(alpha);
    bits(f32::from_bits(from) * (1.0 - alpha) + f32::from_bits(to) * alpha)
}

/// Levels a frame that wants the gain `wanted`, and returns the gain that it gets.
fn gain_after(agc: &mut Agc, wanted: f32) -> f32 {
    agc.process(AgcEvent::Frame(vec![1]));
    let gain: u32 = match agc.process(AgcEvent::Wanted(bits(wanted))) {
        AgcRequest::Blend { gain_db, target, alpha } => blend(gain_db, target, alpha),
        other => panic!("{:?}", other),
    };
    agc.process(AgcEvent::Gain(gain));
    agc.process(AgcEvent::Amplified(vec![1]));
    f32::from_bits(gain)
}

#[test]
fn the_gain_stays_within_its_bounds() {
    let mut agc = Agc::new();
    for i in 0..3000u32 {
        let wanted: f32 = if i % 1000 < 300 { 200.0 } else { -200.0 };
        let gain: f32 = gain_after(&mut agc, wanted);
        assert!((-20.0..=30.0).contains(&gain), "{}", gain);
    }
}

#[test]
fn the_gain_moves_towards_its_aim_and_does_not_pass_it() {
    let mut agc = Agc::new();
    let mut before: f32 = 0.0;
    for i in 0..60u32 {
        let gain: f32 = gain_after(&mut agc, 12.0);
        assert!(before <= gain && gain <= 12.0 + 1e-5);
        if i == 0 {
            assert!((gain - 2.4).abs() < 1e-5);
        }
        before = gain;
    }
    for _ in 0..60 {
        let gain: f32 = gain_after(&mut agc, -12.0);
        assert!(-12.0 < gain && gain < before);
        before = gain;
    }
    agc.process(AgcEvent::Frame(vec![]));
    assert!(gain_after(&mut agc, before) - before < 1e-5);
}

/// Takes a frame of this energy through the detector.
fn hear(vad: &mut Vad, energy: f32) -> bool {
    let mut request: VadRequest = vad.process(VadEvent::Frame(vec![1]));
    loop {
        let event: VadEvent = match request {
            VadRequest::Measure { .. } => VadEvent::Energy(bits(energy)),
            VadRequest::Track { noise, kept, floor, taken } => VadEvent::Noise(bits(
                f32::from_bits(noise) * f32::from_bits(kept)
                    + f32::from_bits(floor) * f32::from_bits(taken),
            )),
            VadRequest::Gauge { energy, noise, factor } => VadEvent::Gauged {
                threshold: bits(f32::from_bits(noise) * f32::from_bits(factor)),
                ratio: bits(f32::from_bits(energy) / f32::from_bits(noise)),
            },
            VadRequest::Blend { probability, indicator, beta } => {
                VadEvent::Probability(blend(probability, indicator, beta))
            }
            VadRequest::Done(speech) => return speech,
        };
        request = vad.process(event);
    }
}

#[test]
fn stationary_sound_is_learned_as_noise() {
    for energy in [0.0f32, 1e-20, 0.005, 0.01, 0.0101, 0.02, 0.1, 0.5, 0.99, 1e6, f32::MAX] {
        let mut vad = Vad::new();
        for _ in 0..200 {
            assert!(!hear(&mut vad, energy), "{}", energy);
        }
    }
}

#[test]
fn sound_after_silence_is_speech() {
    let mut vad = Vad::new();
    for _ in 0..40 {
        assert!(!hear(&mut vad, 0.001));
    }
    let heard: Vec<bool> = (0..12).map(|_| hear(&mut vad, 0.3)).collect();
    assert!(heard[11] && !heard[0]);
}
