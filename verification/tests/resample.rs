use voice_assistant::resample::{Resampler, Tap};

#[test]
fn the_greatest_common_divisor() {
    assert_eq!(Resampler::gcd(0, 0), 0);
    assert_eq!(Resampler::gcd(0, 7), 7);
    assert_eq!(Resampler::gcd(7, 0), 7);
    assert_eq!(Resampler::gcd(44100, 16000), 100);
    assert_eq!(Resampler::gcd(16000, 44100), 100);
    assert_eq!(Resampler::gcd(u32::MAX, 1), 1);
    assert_eq!(Resampler::gcd(u32::MAX, u32::MAX), u32::MAX);
}

#[test]
fn three_to_one_takes_every_third_sample() {
    let mut r = Resampler::new(48000, 16000);
    assert_eq!(r.ratio_den(), 1);
    let taps: Vec<Tap> = r.process(&[1, 2, 3, 4, 5, 6, 7]);
    assert_eq!(
        taps,
        vec![Tap { prev: 2, next: 3, phase: 0 }, Tap { prev: 5, next: 6, phase: 0 }]
    );
}

#[test]
fn the_ratio_is_in_lowest_terms() {
    assert_eq!(Resampler::new(44100, 16000).ratio_den(), 160);
    assert_eq!(Resampler::new(16000, 44100).ratio_den(), 441);
    assert_eq!(Resampler::new(16000, 48000).ratio_den(), 3);
    assert_eq!(Resampler::new(8000, 8000).ratio_den(), 1);
    assert_eq!(Resampler::new(7, 5).ratio_den(), 5);
}

#[test]
fn a_rate_that_is_no_multiple_falls_between_samples() {
    let mut r = Resampler::new(3, 2);
    let taps: Vec<Tap> = r.process(&[10, 20, 30, 40]);
    assert_eq!(
        taps,
        vec![Tap { prev: 10, next: 20, phase: 0 }, Tap { prev: 20, next: 30, phase: 1 }]
    );
    let more: Vec<Tap> = r.process(&[50]);
    assert_eq!(more, vec![Tap { prev: 40, next: 50, phase: 0 }]);
}

#[test]
fn the_first_sample_follows_silence() {
    let mut r = Resampler::new(8000, 8000);
    let taps: Vec<Tap> = r.process(&[5, 6]);
    assert_eq!(taps, vec![Tap { prev: 0, next: 5, phase: 0 }, Tap { prev: 5, next: 6, phase: 0 }]);
}

#[test]
fn a_higher_rate_fills_in_between() {
    let mut r = Resampler::new(1, 2);
    let taps: Vec<Tap> = r.process(&[5]);
    assert_eq!(taps, vec![Tap { prev: 0, next: 5, phase: 0 }, Tap { prev: 0, next: 5, phase: 1 }]);
}

/// The samples that taps between patterns come to.
fn interpolated(taps: &[Tap], ratio_den: u32) -> Vec<f32> {
    taps.iter()
        .map(|t| {
            let part: f32 = t.phase as f32 / ratio_den as f32;
            f32::from_bits(t.prev) * (1.0 - part) + f32::from_bits(t.next) * part
        })
        .collect()
}

#[test]
fn what_comes_out_stays_between_its_neighbours() {
    let mut r = Resampler::new(16000, 48000);
    let taps: Vec<Tap> = r.process(&[1.0f32.to_bits()]);
    let out: Vec<f32> = interpolated(&taps, r.ratio_den());
    assert_eq!(out, vec![0.0, 1.0 / 3.0, 2.0 / 3.0]);
    assert!(out.iter().all(|x| (0.0..=1.0).contains(x)));
    assert!(out[0] <= out[1] && out[1] <= out[2]);
}

#[test]
fn a_ramp_stays_a_ramp() {
    for (from, to) in [(48000u32, 32000u32), (44100, 16000), (48000, 16000), (16001, 16000)] {
        let mut r = Resampler::new(from, to);
        let ramp: Vec<u32> = (0..300u32).map(|i| (i as f32 * 0.5).to_bits()).collect();
        let taps: Vec<Tap> = r.process(&ramp);
        let out: Vec<f32> = interpolated(&taps, r.ratio_den());
        let rise: f32 = 0.5 * from as f32 / to as f32;
        assert!(out.len() > 90);
        for i in 1..out.len() {
            assert!((out[i] - out[i - 1] - rise).abs() < 1e-3, "{} to {}", from, to);
        }
    }
}

#[test]
fn what_finds_no_room_comes_out_later() {
    let mut r = Resampler::new(1000, 24000);
    let calls: [usize; 4] = [3, 1, 1, 1];
    let counts: Vec<usize> = calls.iter().map(|n| r.process(&vec![1; *n]).len()).collect();
    assert_eq!(counts, vec![36, 36, 36, 36]);
    let mut r = Resampler::new(1000, 20000);
    let counts: Vec<usize> = calls.iter().map(|n| r.process(&vec![1; *n]).len()).collect();
    assert_eq!(counts, vec![36, 36, 28, 20]);
    assert_eq!(counts.iter().sum::<usize>(), 6 * 20);
}

#[test]
fn no_input_changes_nothing() {
    let mut r = Resampler::new(3, 2);
    assert_eq!(r.process(&[]), vec![]);
    assert_eq!(r.process(&[10, 20]), vec![Tap { prev: 10, next: 20, phase: 0 }]);
}

#[test]
fn where_the_stream_is_cut_makes_no_difference() {
    let input: Vec<u32> = (0..441u32).collect();
    let mut whole = Resampler::new(44100, 16000);
    let expected: Vec<Tap> = whole.process(&input);
    assert_eq!(expected.len(), 160);
    for cut in [1usize, 2, 7, 220, 440] {
        let mut parts = Resampler::new(44100, 16000);
        let mut got: Vec<Tap> = parts.process(&input[..cut]);
        got.extend(parts.process(&input[cut..]));
        assert_eq!(got, expected);
    }
}

#[test]
fn as_many_samples_come_out_as_the_rates_say() {
    for n in [0usize, 1, 2, 3, 4, 479, 480, 481, 960] {
        let mut r = Resampler::new(48000, 16000);
        let input: Vec<u32> = vec![1; n];
        assert_eq!(r.process(&input).len(), n / 3);
    }
}

#[test]
fn a_call_returns_no_more_than_there_is_room_for() {
    let mut r = Resampler::new(1000, 48000);
    let input: Vec<u32> = vec![1; 2];
    assert_eq!(r.process(&input).len(), 36);
}

#[test]
fn an_input_rate_of_zero_fills_the_room() {
    let mut r = Resampler::new(0, 48000);
    let taps: Vec<Tap> = r.process(&[4]);
    assert_eq!(taps, vec![Tap { prev: 0, next: 4, phase: 0 }; 16]);
}

#[test]
fn an_output_rate_of_zero_brings_nothing() {
    let mut r = Resampler::new(48000, 0);
    assert_eq!(r.process(&[4, 5, 6]), vec![]);
}

#[test]
fn the_phase_can_count_ordinary_blocks() {
    let r = Resampler::new(44100, 16000);
    assert!(r.can_take(4096));
    assert!(!r.can_take(usize::MAX));
    assert!(Resampler::new(1, 1).can_take(usize::MAX));
}
