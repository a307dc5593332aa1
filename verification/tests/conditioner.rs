use aurora::fixed::{floor_div, isqrt, saturate, FULL_SCALE, UNIT};
use aurora::normalizer::audio::{
    level_reaches, rms_i16, soft_clip_i16, Agc, AudioNormalizer, DcBlocker,
};

/// A small generator of repeatable pseudo-random numbers.
struct Lcg(u64);

impl Lcg {
    fn next(&mut self) -> u64 {
        self.0 = self.0.wrapping_mul(6364136223846793005).wrapping_add(1442695040888963407);
        self.0 >> 33
    }

    fn within(&mut self, amplitude: i32) -> i16 {
        let span = 2 * amplitude as u64 + 1;
        ((self.next() % span) as i64 - amplitude as i64) as i16
    }
}

fn sine(amplitude: f64, period: f64, offset: f64, len: usize) -> Vec<i16> {
    (0..len)
        .map(|i| {
            let x = offset + amplitude * (2.0 * std::f64::consts::PI * i as f64 / period).sin();
            x.round().clamp(-32768.0, 32767.0) as i16
        })
        .collect()
}

// The same four stages in single precision.

fn float_clip(x: i16, threshold: i16) -> i16 {
    let t = threshold as f32;
    let xf = x as f32;
    if xf.abs() <= t {
        return x;
    }
    let sign = xf.signum();
    let over = xf.abs() - t;
    let y = t + over / (1.0 + over / t);
    (sign * y).clamp(i16::MIN as f32, i16::MAX as f32) as i16
}

fn float_rms(buf: &[i16]) -> f32 {
    if buf.is_empty() {
        return 0.0;
    }
    let mut sum = 0.0f32;
    for &s in buf {
        let x = s as f32 / i16::MAX as f32;
        sum += x * x;
    }
    (sum / buf.len() as f32).sqrt()
}

struct FloatConditioner {
    mean: f32,
    gain: f32,
}

impl FloatConditioner {
    fn new() -> Self {
        FloatConditioner { mean: 0.0, gain: 1.0 }
    }

    fn block(&mut self, x: i16) -> i16 {
        let xf = x as f32;
        self.mean = 0.999 * self.mean + (1.0 - 0.999) * xf;
        (xf - self.mean).clamp(i16::MIN as f32, i16::MAX as f32) as i16
    }

    fn process(&mut self, buf: &mut [i16]) -> bool {
        for s in buf.iter_mut() {
            *s = self.block(*s);
        }
        if !buf.is_empty() {
            let rms = float_rms(buf).max(1e-6);
            let desired = (0.12f32 / rms).clamp(1.0 / 8.0, 8.0);
            self.gain = 0.95 * self.gain + (1.0 - 0.95) * desired;
            for s in buf.iter_mut() {
                *s = (*s as f32 * self.gain).clamp(i16::MIN as f32, i16::MAX as f32) as i16;
            }
        }
        for s in buf.iter_mut() {
            *s = float_clip(*s, 31128);
        }
        float_rms(buf) >= 0.008
    }
}

#[test]
fn units_are_millionths_of_full_scale() {
    assert_eq!(UNIT, 1_000_000);
    assert_eq!(FULL_SCALE, i16::MAX as u32);
}

#[test]
fn soft_clip_keeps_samples_within_the_threshold() {
    for x in [0i16, 1, -1, 100, -100, 31127, 31128, -31128] {
        assert_eq!(soft_clip_i16(x, 31128), x);
    }
    assert_eq!(soft_clip_i16(0, 0), 0);
    assert_eq!(soft_clip_i16(i16::MAX, i16::MAX), i16::MAX);
}

#[test]
fn soft_clip_presses_samples_above_the_threshold() {
    assert_eq!(soft_clip_i16(31129, 31128), 31128);
    assert_eq!(soft_clip_i16(32000, 31128), 31976);
    assert_eq!(soft_clip_i16(-32000, 31128), -31976);
    assert_eq!(soft_clip_i16(32767, 31128), 32685);
    assert_eq!(soft_clip_i16(-32768, 31128), -32685);
    assert_eq!(soft_clip_i16(20000, 10000), 15000);
    assert_eq!(soft_clip_i16(-20000, 10000), -15000);
}

#[test]
fn soft_clip_never_reaches_twice_the_threshold_and_keeps_the_order() {
    let threshold: i16 = 12000;
    let mut last: i16 = 0;
    for x in 0..=i16::MAX {
        let y = soft_clip_i16(x, threshold);
        assert!(y >= last);
        assert!(y <= x);
        assert!((y as i32) < 2 * threshold as i32);
        assert_eq!(soft_clip_i16(-x, threshold), -y);
        last = y;
    }
}

#[test]
fn soft_clip_with_a_threshold_of_zero_or_less() {
    assert_eq!(soft_clip_i16(5, 0), 0);
    assert_eq!(soft_clip_i16(-5, 0), 0);
    assert_eq!(soft_clip_i16(0, -5), 32767);
    assert_eq!(soft_clip_i16(10, -5), -12);
    assert_eq!(soft_clip_i16(-10, -5), 12);
    assert_eq!(soft_clip_i16(32767, -32768), -32768);
    assert_eq!(soft_clip_i16(-1, -32768), 32767);
}

#[test]
fn soft_clip_agrees_with_single_precision_within_one_step() {
    for threshold in [31128i16, 1000, 1, 20000, 32767, 0, -5, -32768] {
        let mut x: i32 = -32768;
        while x <= 32767 {
            let exact = soft_clip_i16(x as i16, threshold);
            let float = float_clip(x as i16, threshold);
            assert!(
                (exact as i32 - float as i32).abs() <= 1,
                "{x} at {threshold}: {exact} against {float}"
            );
            x += 3;
        }
    }
}

#[test]
fn rms_of_known_chunks() {
    assert_eq!(rms_i16(&[]), 0);
    assert_eq!(rms_i16(&[0, 0]), 0);
    assert_eq!(rms_i16(&[32767; 4]), 1_000_000);
    assert_eq!(rms_i16(&[-32767; 4]), 1_000_000);
    assert_eq!(rms_i16(&[16384; 3]), 500_015);
    assert_eq!(rms_i16(&[-32768]), 1_000_030);
    assert_eq!(rms_i16(&[1]), 30);
    assert_eq!(rms_i16(&[1, 0, 0, 0]), 15);
    assert_eq!(rms_i16(&[3, -4]), 107);
    assert_eq!(rms_i16(&[1000; 10]), 30_518);
    assert_eq!(rms_i16(&sine(8000.0, 64.0, 0.0, 640)), 172_637);
}

#[test]
fn rms_agrees_with_single_precision() {
    let mut rng = Lcg(11);
    for _ in 0..300 {
        let len = 1 + (rng.next() % 300) as usize;
        let amplitude = 32767 >> (rng.next() % 16);
        let buf: Vec<i16> = (0..len).map(|_| rng.within(amplitude)).collect();
        let exact = rms_i16(&buf) as f64 / 1e6;
        let float = float_rms(&buf) as f64;
        assert!((exact - float).abs() < 2e-6, "{exact} against {float}");
    }
}

#[test]
fn integer_helpers_round_as_they_say() {
    assert_eq!(isqrt(0), 0);
    assert_eq!(isqrt(1), 1);
    assert_eq!(isqrt(3), 1);
    assert_eq!(isqrt(4), 2);
    assert_eq!(isqrt(999_999_999_999), 999_999);
    assert_eq!(isqrt(1_000_000_000_000), 1_000_000);
    assert_eq!(isqrt(u64::MAX), 4_294_967_295);
    assert_eq!(floor_div(7, 2), 3);
    assert_eq!(floor_div(-7, 2), -4);
    assert_eq!(floor_div(-8, 2), -4);
    assert_eq!(floor_div(0, 5), 0);
    assert_eq!(floor_div(i64::MIN, 1), i64::MIN);
    assert_eq!(floor_div(i64::MIN, i64::MAX), -2);
    assert_eq!(saturate(40_000), 32767);
    assert_eq!(saturate(-40_000), -32768);
    assert_eq!(saturate(-5), -5);
}

#[test]
fn dc_blocker_first_samples() {
    let mut dc = DcBlocker::new(999_000);
    assert_eq!(dc.running_mean(), 0);
    assert_eq!(dc.process_i16(1000), 999);
    assert_eq!(dc.running_mean(), 1_000_000);
    assert_eq!(dc.process_i16(1000), 998);
    assert_eq!(dc.running_mean(), 1_999_000);

    let mut dc = DcBlocker::new(999_000);
    assert_eq!(dc.process_i16(-1000), -999);
    assert_eq!(dc.running_mean(), -1_000_000);
    assert_eq!(dc.process_i16(-32768), -32734);
    assert_eq!(dc.running_mean(), -33_767_000);
    assert_eq!(dc.process_i16(32767), 32767);
    assert_eq!(dc.running_mean(), -966_233);
}

#[test]
fn dc_blocker_with_the_two_extreme_shares() {
    let mut dc = DcBlocker::new(0);
    assert_eq!(dc.process_i16(1234), 0);
    assert_eq!(dc.running_mean(), 1_234_000_000);
    assert_eq!(dc.process_i16(-5), 0);
    assert_eq!(dc.running_mean(), -5_000_000);

    let mut dc = DcBlocker::new(UNIT);
    assert_eq!(dc.process_i16(1234), 1234);
    assert_eq!(dc.running_mean(), 0);
}

#[test]
fn dc_blocker_follows_a_constant_input() {
    let mut dc = DcBlocker::new(999_000);
    let mut error: i64 = 1000 * UNIT as i64;
    let mut last: i16 = 0;
    for _ in 0..20_000 {
        last = dc.process_i16(1000);
        let now = 1000 * UNIT as i64 - dc.running_mean();
        assert!(now >= 0 && now <= error);
        error = now;
    }
    assert_eq!(last, 0);
    assert_eq!(dc.running_mean(), 999_999_001);
}

#[test]
fn dc_blocker_finds_the_offset_of_a_sine() {
    let input = sine(5000.0, 100.0, 2000.0, 16_000);
    let mut dc = DcBlocker::new(999_000);
    let mut buf = input.clone();
    dc.process_buf(&mut buf);
    assert_eq!(dc.running_mean(), 1_920_386_849);
    let mean = dc.running_mean() as f64 / 1e6;
    assert!((mean - 2000.0).abs() < 100.0);
    let tail: f64 = buf[12_000..].iter().map(|s| *s as f64).sum::<f64>() / 4000.0;
    assert!(tail.abs() < 1.0, "{tail}");
    let head: f64 = input[12_000..].iter().map(|s| *s as f64).sum::<f64>() / 4000.0;
    assert!((head - 2000.0).abs() < 1.0);
}

#[test]
fn dc_blocker_buffer_equals_sample_by_sample() {
    let input = sine(9000.0, 80.0, 1500.0, 500);
    let mut one = DcBlocker::new(990_000);
    let mut many = one.clone();
    let mut buf = input.clone();
    many.process_buf(&mut buf);
    let each: Vec<i16> = input.iter().map(|s| one.process_i16(*s)).collect();
    assert_eq!(buf, each);
    assert_eq!(one.running_mean(), many.running_mean());
}

#[test]
fn agc_first_chunk() {
    let mut agc = Agc::new(120_000, 8_000_000, 950_000);
    assert_eq!(agc.current_gain(), UNIT);
    let mut buf = [1000i16; 8];
    agc.process(&mut buf);
    assert_eq!(agc.current_gain(), 1_146_605);
    assert_eq!(buf, [1146i16; 8]);
}

#[test]
fn agc_leaves_an_empty_chunk_alone() {
    let mut agc = Agc::new(120_000, 8_000_000, 950_000);
    let mut buf: [i16; 0] = [];
    agc.process(&mut buf);
    assert_eq!(agc.current_gain(), UNIT);
}

#[test]
fn agc_on_silence_raises_the_gain_to_the_limit_and_no_further() {
    let mut agc = Agc::new(120_000, 8_000_000, 950_000);
    let mut buf = [0i16; 8];
    agc.process(&mut buf);
    assert_eq!(buf, [0i16; 8]);
    assert_eq!(agc.current_gain(), 1_350_000);
    for _ in 0..299 {
        agc.process(&mut buf);
        assert!(agc.current_gain() <= 8_000_000);
    }
    assert_eq!(agc.current_gain(), 7_999_981);
    assert_eq!(buf, [0i16; 8]);
}

#[test]
fn agc_on_full_scale_lowers_the_gain_to_the_limit_and_no_further() {
    let mut agc = Agc::new(120_000, 8_000_000, 950_000);
    for _ in 0..300 {
        let mut buf = [32767i16, -32768, 32767, -32768];
        agc.process(&mut buf);
        assert!(agc.current_gain() >= 125_000);
    }
    assert_eq!(agc.current_gain(), 125_000);
}

#[test]
fn agc_gain_stays_within_its_limits() {
    let mut rng = Lcg(12);
    for (target, max_gain, smooth) in [
        (120_000u32, 8_000_000u32, 950_000u32),
        (0, 8_000_000, 0),
        (u32::MAX, u32::MAX, 0),
        (u32::MAX, UNIT, 0),
        (500_000, 3_000_000, UNIT),
        (1, 1_000_001, 500_000),
    ] {
        let mut agc = Agc::new(target, max_gain, smooth);
        for _ in 0..500 {
            let len = (rng.next() % 50) as usize;
            let amplitude = 32767 >> (rng.next() % 16);
            let mut buf: Vec<i16> = (0..len).map(|_| rng.within(amplitude)).collect();
            agc.process(&mut buf);
            let gain = agc.current_gain() as u64;
            assert!(gain <= max_gain as u64);
            assert!(gain * max_gain as u64 >= 1_000_000_000_000);
        }
    }
}

#[test]
fn agc_with_extreme_settings() {
    let mut agc = Agc::new(0, 8_000_000, 0);
    agc.process(&mut [32767]);
    assert_eq!(agc.current_gain(), 125_000);

    let mut agc = Agc::new(u32::MAX, u32::MAX, 0);
    let mut buf = [1i16, -1, 32767, -32768];
    agc.process(&mut buf);
    assert_eq!(agc.current_gain(), u32::MAX);
    assert_eq!(buf, [4294, -4294, 32767, -32768]);

    let mut agc = Agc::new(u32::MAX, UNIT, 0);
    let mut buf = [1i16, -1, 32767, -32768];
    agc.process(&mut buf);
    assert_eq!(agc.current_gain(), UNIT);
    assert_eq!(buf, [1, -1, 32767, -32768]);
}

#[test]
fn silence_is_dropped() {
    let mut norm = AudioNormalizer::new();
    for len in [0usize, 1, 160, 1600] {
        let mut buf = vec![0i16; len];
        assert!(!norm.process(&mut buf));
        assert!(buf.iter().all(|s| *s == 0));
        assert_eq!(norm.running_mean(), 0);
    }
    assert_eq!(norm.current_gain(), 1_998_375);
}

#[test]
fn silence_after_a_large_offset_is_not_silent_yet() {
    let mut norm = AudioNormalizer::new();
    let mut buf = vec![10_000i16; 1600];
    assert!(norm.process(&mut buf));
    assert_eq!(norm.running_mean(), 7_982_650_022);
    let mut buf = vec![0i16; 160];
    assert!(norm.process(&mut buf));
    assert_eq!(buf[..3], [-7681, -7673, -7665]);
}

#[test]
fn a_quiet_chunk_is_dropped_and_a_louder_one_is_forwarded() {
    let mut norm = AudioNormalizer::new();
    let mut quiet: Vec<i16> = [20i16, -20].repeat(80);
    assert!(!norm.process(&mut quiet));
    assert_eq!(quiet[..4], [25, -25, 25, -25]);
    assert_eq!(rms_i16(&quiet), 762);

    let mut norm = AudioNormalizer::new();
    let mut louder: Vec<i16> = [300i16, -300].repeat(80);
    assert!(norm.process(&mut louder));
    assert_eq!(louder[..4], [403, -403, 403, -403]);
    assert_eq!(rms_i16(&louder), 12_298);
    assert_eq!(norm.current_gain(), 1_350_000);
}

#[test]
fn the_gate_goes_by_the_level_of_what_comes_out() {
    let mut rng = Lcg(13);
    let mut norm = AudioNormalizer::new();
    for _ in 0..300 {
        let len = (rng.next() % 200) as usize;
        let amplitude = 32767 >> (rng.next() % 16);
        let mut buf: Vec<i16> = (0..len).map(|_| rng.within(amplitude)).collect();
        let forward = norm.process(&mut buf);
        assert_eq!(forward, rms_i16(&buf) >= 8_000);
    }
}

#[test]
fn conditioning_a_sine() {
    let mut buf = sine(8000.0, 64.0, 0.0, 32);
    let mut norm = AudioNormalizer::new();
    assert!(norm.process(&mut buf));
    assert_eq!(
        buf,
        vec![
            0, 771, 1534, 2282, 3007, 3703, 4363, 4979, 5546, 6060, 6514, 6904, 7228, 7481, 7661,
            7766, 7798, 7751, 7630, 7435, 7167, 6829, 6426, 5959, 5434, 4856, 4231, 3563, 2861,
            2131, 1380, 613
        ]
    );
    assert_eq!(norm.current_gain(), 985_225);
    assert_eq!(norm.running_mean(), 160_420_260);
}

#[test]
fn conditioning_full_scale_clips_softly() {
    let mut buf = [32767i16, -32768, 32767, -32768, 32767, -32768, 32767, -32768];
    let mut norm = AudioNormalizer::new();
    assert!(norm.process(&mut buf));
    assert_eq!(buf, [31300, -31331, 31300, -31331, 31300, -31331, 31300, -31331]);
    assert_eq!(norm.current_gain(), 956_250);
}

#[test]
fn conditioning_agrees_with_single_precision() {
    let mut rng = Lcg(14);
    let mut exact = AudioNormalizer::new();
    let mut float = FloatConditioner::new();
    for _ in 0..200 {
        let len = 1 + (rng.next() % 400) as usize;
        let amplitude = [0.0, 5.0, 50.0, 300.0, 3000.0, 20000.0, 32767.0][(rng.next() % 7) as usize];
        let offset = [0.0, 0.0, 100.0, -2000.0][(rng.next() % 4) as usize];
        let mut a = sine(amplitude, 37.0, offset, len);
        for s in a.iter_mut() {
            *s = s.saturating_add(rng.within(3));
        }
        let mut b = a.clone();
        let forward_exact = exact.process(&mut a);
        let forward_float = float.process(&mut b);
        if (float_rms(&b) - 0.008).abs() > 1e-4 {
            assert_eq!(forward_exact, forward_float);
        }
        for (x, y) in a.iter().zip(b.iter()) {
            assert!((*x as i32 - *y as i32).abs() <= 12, "{x} against {y}");
        }
        let gain = exact.current_gain() as f64 / 1e6;
        assert!((gain - float.gain as f64).abs() < 1e-3);
        let mean = exact.running_mean() as f64 / 1e6;
        assert!((mean - float.mean as f64).abs() < 0.5);
    }
}

#[test]
fn a_cloned_conditioner_goes_on_alike() {
    let mut norm = AudioNormalizer::new();
    let mut buf = sine(8000.0, 64.0, 300.0, 320);
    norm.process(&mut buf);
    let mut copy = norm.clone();
    assert_eq!(copy.current_gain(), norm.current_gain());
    assert_eq!(copy.running_mean(), norm.running_mean());
    let mut a = sine(6000.0, 50.0, 300.0, 320);
    let mut b = a.clone();
    assert_eq!(norm.process(&mut a), copy.process(&mut b));
    assert_eq!(a, b);
}

#[test]
fn a_conditioner_of_chosen_parts() {
    // No smoothing, no gain to speak of, a low clip threshold and a level
    // that nothing reaches.
    let dc = DcBlocker::new(UNIT);
    let agc = Agc::new(1_000_000, UNIT, 0);
    let mut norm = AudioNormalizer::from_parts(dc, agc, 1000, u32::MAX);
    let mut buf = [500i16, -500, 2000, -2000, 32767];
    assert!(!norm.process(&mut buf));
    assert_eq!(buf, [500, -500, 1500, -1500, 1969]);
    assert_eq!(norm.current_gain(), UNIT);
    assert_eq!(norm.running_mean(), 0);

    let mut norm =
        AudioNormalizer::from_parts(DcBlocker::new(UNIT), Agc::new(1_000_000, UNIT, 0), 1000, 0);
    assert!(norm.process(&mut []));
    assert!(norm.process(&mut [0, 0]));
}

#[test]
fn a_constant_offset_fades_as_the_powers_of_the_share() {
    for alpha in [0u32, 1, 500_000, 900_000, 990_000, 999_000, 999_999] {
        for offset in [1i16, -1, 100, -100, 2000, -2000, i16::MAX, i16::MIN] {
            let mut dc = DcBlocker::new(alpha);
            let share = alpha as f64 / 1e6;
            let mut bound = (offset as f64).abs();
            for _ in 0..3000 {
                let out = dc.process_i16(offset);
                bound *= share;
                assert!(
                    (out as f64).abs() <= bound + 1.0,
                    "{offset} at {alpha}: {out} beyond {bound}"
                );
                let distance = (dc.running_mean() as f64 / 1e6 - offset as f64).abs();
                assert!(distance <= bound + 1.0);
            }
        }
    }
}

#[test]
fn the_mean_approaches_a_constant_from_wherever_it_stands() {
    let mut dc = DcBlocker::new(990_000);
    for _ in 0..500 {
        dc.process_i16(-20_000);
    }
    let start = (dc.running_mean() as f64 / 1e6 - 5000.0).abs();
    let mut bound = start;
    for _ in 0..2000 {
        dc.process_i16(5000);
        bound *= 0.99;
        let distance = (dc.running_mean() as f64 / 1e6 - 5000.0).abs();
        assert!(distance <= bound + 1.0);
    }
    assert!((dc.running_mean() - 5_000_000_000).abs() < 1_000);
}

#[test]
fn only_silence_has_a_level_of_zero() {
    for len in [0usize, 1, 2, 931, 932, 5000] {
        assert_eq!(rms_i16(&vec![0i16; len]), 0);
    }
    // One step in 931 samples is just above a millionth, in 932 just below;
    // neither is silence.
    for len in [1usize, 931, 932, 933, 5000, 100_000] {
        for sample in [1i16, -1] {
            for at in [0, len / 2, len - 1] {
                let mut buf = vec![0i16; len];
                buf[at] = sample;
                let level = rms_i16(&buf);
                assert!(level >= 1, "{len} samples");
                let exact = (1.0 / len as f64).sqrt() / 32767.0 * 1e6;
                assert_eq!(level, (exact.floor() as u32).max(1));
            }
        }
    }
    let mut buf = vec![0i16; 932];
    buf[17] = 1;
    assert_eq!(rms_i16(&buf), 1);
    assert_eq!(rms_i16(&buf[..931]), 1);
    assert_eq!(rms_i16(&buf[..18]), 7);
}

#[test]
fn the_level_is_at_most_that_of_the_lowest_sample_throughout() {
    assert_eq!(rms_i16(&[i16::MIN; 7]), 1_000_030);
    assert_eq!(rms_i16(&[32767, -32767]), 1_000_000);
    let mut rng = Lcg(21);
    for _ in 0..200 {
        let len = (rng.next() % 64) as usize;
        let buf: Vec<i16> = (0..len).map(|_| rng.within(32767)).collect();
        assert!(rms_i16(&buf) <= 1_000_030);
        assert_eq!(rms_i16(&buf) == 0, buf.iter().all(|s| *s == 0));
    }
}

#[test]
fn a_level_is_held_against_a_threshold_without_loss() {
    let mut quiet = vec![0i16; 932];
    quiet[0] = 1;
    // A sound below one millionth does not reach one millionth.
    assert!(level_reaches(&quiet, 0));
    assert!(!level_reaches(&quiet, 1));
    assert!(level_reaches(&quiet[..931], 1));
    assert!(!level_reaches(&quiet[..931], 2));
    assert!(level_reaches(&[], 0));
    assert!(!level_reaches(&[], 1));
    assert!(level_reaches(&[32767, -32767], 1_000_000));
    assert!(!level_reaches(&[32767, -32767], 1_000_001));
    let mut rng = Lcg(22);
    for _ in 0..300 {
        let len = 1 + (rng.next() % 200) as usize;
        let amplitude = 32767 >> (rng.next() % 16);
        let buf: Vec<i16> = (0..len).map(|_| rng.within(amplitude)).collect();
        let least = (rng.next() % 1_100_000) as u32;
        let squares: u128 = buf.iter().map(|s| (*s as i64 * *s as i64) as u128).sum();
        let exact = squares * 1_000_000_000_000
            >= least as u128 * least as u128 * len as u128 * 32767 * 32767;
        assert_eq!(level_reaches(&buf, least), exact);
    }
}

#[test]
fn the_conditioner_drops_a_sound_below_its_least_level_only() {
    let parts = || (DcBlocker::new(UNIT), Agc::new(1_000_000, UNIT, 0));
    let mut quiet = vec![0i16; 932];
    quiet[0] = 1;
    let (dc, agc) = parts();
    assert!(!AudioNormalizer::from_parts(dc, agc, 1000, 1).process(&mut quiet.clone()));
    let (dc, agc) = parts();
    assert!(AudioNormalizer::from_parts(dc, agc, 1000, 1).process(&mut quiet[..931].to_vec()));
    let (dc, agc) = parts();
    assert!(AudioNormalizer::from_parts(dc, agc, 1000, 0).process(&mut quiet.clone()));
}

#[test]
fn the_mean_of_an_offset_sine_stays_within_its_amplitude_of_the_offset() {
    for (alpha, offset, amplitude) in [
        (999_000u32, 2000.0, 5000.0),
        (990_000, -3000.0, 1000.0),
        (900_000, 12_000.0, 20_000.0),
        (0, 500.0, 300.0),
    ] {
        let input = sine(amplitude, 100.0, offset, 8000);
        let mut dc = DcBlocker::new(alpha);
        let share = alpha as f64 / 1e6;
        let mut fading = offset.abs();
        for sample in input {
            dc.process_i16(sample);
            fading *= share;
            let distance = (dc.running_mean() as f64 / 1e6 - offset).abs();
            assert!(distance <= fading + amplitude + 1.0);
        }
    }
}

#[test]
fn the_outputs_add_up_to_the_way_the_mean_has_gone() {
    let mut rng = Lcg(23);
    for alpha in [0u32, 500_000, 990_000, 999_000, 999_999, UNIT] {
        for _ in 0..20 {
            let len = (rng.next() % 3000) as usize;
            let offset = rng.within(6000) as f64;
            let mut input = sine(4000.0, 64.0, offset, len);
            for s in input.iter_mut() {
                *s += rng.within(50);
            }
            let mut dc = DcBlocker::new(alpha);
            dc.process_buf(&mut [rng.within(5000)]);
            let before = dc.running_mean() as i128;
            let mut buf = input.clone();
            dc.process_buf(&mut buf);
            let after = dc.running_mean() as i128;
            let sum: i128 = buf.iter().map(|s| *s as i128).sum();
            let unit = UNIT as i128;
            let rest = unit - alpha as i128;
            let left = rest * unit * sum.abs();
            let right = alpha as i128 * (after - before).abs()
                + len as i128 * (unit - 1) * (rest + 1);
            assert!(left <= right, "{alpha}: {left} beyond {right}");
        }
    }
    // The longer the run, the nearer to zero is the mean of what comes out:
    // the way that the mean has gone, about 2000 here, counts 999 times and
    // is shared among all samples.
    for len in [20_000usize, 200_000, 2_000_000] {
        let mut buf = sine(5000.0, 100.0, 2000.0, len);
        let mut dc = DcBlocker::new(999_000);
        dc.process_buf(&mut buf);
        let mean = buf.iter().map(|s| *s as f64).sum::<f64>() / len as f64;
        assert!(mean.abs() <= 999.0 * 2100.0 / len as f64 + 1.01, "{len}: {mean}");
    }
}
