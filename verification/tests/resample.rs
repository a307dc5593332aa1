use aurora::audio::resample::{round_div, LinearResampler};

/// A small generator of repeatable pseudo-random numbers.
struct Lcg(u64);

impl Lcg {
    fn next(&mut self) -> u64 {
        self.0 = self.0.wrapping_mul(6364136223846793005).wrapping_add(1442695040888963407);
        self.0 >> 33
    }

    fn sample(&mut self) -> i16 {
        (self.next() % 65536) as u16 as i16
    }

    fn chunk(&mut self, len: usize) -> Vec<i16> {
        (0..len).map(|_| self.sample()).collect()
    }
}

/// Linear interpolation in double precision, with a position that is a
/// double as well.
struct FloatResampler {
    in_rate: u32,
    out_rate: u32,
    pos: f64,
    step: f64,
}

impl FloatResampler {
    fn new(in_rate: u32, out_rate: u32) -> Self {
        FloatResampler { in_rate, out_rate, pos: 0.0, step: in_rate as f64 / out_rate as f64 }
    }

    fn process(&mut self, input: &[i16]) -> Vec<i16> {
        if input.len() < 2 || self.in_rate == self.out_rate {
            return input.to_vec();
        }
        let mut out = Vec::new();
        while (self.pos as usize) + 1 < input.len() {
            let i = self.pos.floor() as usize;
            let frac = self.pos - (i as f64);
            let a = input[i] as f64;
            let b = input[i + 1] as f64;
            let y = a + (b - a) * frac;
            out.push(y.round().clamp(i16::MIN as f64, i16::MAX as f64) as i16);
            self.pos += self.step;
        }
        self.pos -= input.len() as f64;
        if self.pos < 0.0 {
            self.pos = 0.0;
        }
        out
    }
}

fn sine_44100() -> Vec<i16> {
    vec![
        0, 626, 1251, 1870, 2481, 3083, 3673, 4249, 4808, 5347, 5866, 6362, 6833, 7277, 7692,
        8078, 8431, 8751, 9037, 9288, 9502, 9678, 9817, 9917, 9978, 10000, 9983, 9926, 9830,
        9696, 9524, 9314, 9068, 8786, 8469, 8119, 7738, 7326, 6885, 6417,
    ]
}

#[test]
fn equal_rates_pass_every_chunk_unchanged() {
    let mut rng = Lcg(1);
    for rate in [0u32, 1, 8000, 16000, 44100, u32::MAX] {
        let mut rs = LinearResampler::new(rate, rate);
        for len in [0usize, 1, 2, 3, 17, 256] {
            let input = rng.chunk(len);
            assert_eq!(rs.process(&input), input);
            assert_eq!(rs.carried_position(), 0);
        }
    }
}

#[test]
fn chunks_shorter_than_two_samples_pass_unchanged() {
    let mut rs = LinearResampler::new(48000, 16000);
    assert_eq!(rs.process(&[]), Vec::<i16>::new());
    assert_eq!(rs.process(&[1234]), vec![1234]);
    assert_eq!(rs.process(&[-7]), vec![-7]);
    assert_eq!(rs.carried_position(), 0);
}

#[test]
fn three_to_one_keeps_every_third_sample() {
    let input: Vec<i16> = (0..12).map(|i| i * 100).collect();
    let mut rs = LinearResampler::new(48000, 16000);
    assert_eq!(rs.process(&input), vec![0, 300, 600, 900]);
    assert_eq!(rs.carried_position(), 0);
}

#[test]
fn one_to_two_puts_the_mean_between_two_samples() {
    let mut rs = LinearResampler::new(8000, 16000);
    assert_eq!(rs.process(&[0, 100, 200]), vec![0, 50, 100, 150]);
    assert_eq!(rs.carried_position(), 0);
}

#[test]
fn a_half_is_rounded_away_from_zero() {
    let mut rs = LinearResampler::new(8000, 16000);
    assert_eq!(rs.process(&[0, 1]), vec![0, 1]);
    assert_eq!(rs.process(&[0, -1]), vec![0, -1]);
    assert_eq!(rs.process(&[0, 3, -3]), vec![0, 2, 3, 0]);
    assert_eq!(round_div(5, 2), 3);
    assert_eq!(round_div(-5, 2), -3);
    assert_eq!(round_div(4, 3), 1);
    assert_eq!(round_div(-4, 3), -1);
    assert_eq!(round_div(0, 7), 0);
}

#[test]
fn rounding_holds_up_to_the_largest_numbers() {
    assert_eq!(round_div(i64::MAX, 1), i64::MAX);
    assert_eq!(round_div(i64::MIN, 1), i64::MIN);
    assert_eq!(round_div(i64::MAX, i64::MAX), 1);
    assert_eq!(round_div(i64::MIN, i64::MAX), -1);
    assert_eq!(round_div(i64::MAX, 2), 4_611_686_018_427_387_904);
    assert_eq!(round_div(i64::MIN, 2), -4_611_686_018_427_387_904);
    assert_eq!(round_div(-i64::MAX, 2), -4_611_686_018_427_387_904);
    assert_eq!(round_div(1, i64::MAX), 0);
    assert_eq!(round_div(-1, i64::MAX), 0);
    assert_eq!(round_div(i64::MAX / 2, i64::MAX), 0);
    assert_eq!(round_div(i64::MAX / 2 + 1, i64::MAX), 1);
    assert_eq!(round_div(-(i64::MAX / 2) - 1, i64::MAX), -1);
    assert_eq!(round_div(3, 6), 1);
    assert_eq!(round_div(-3, 6), -1);
    assert_eq!(round_div(2, 6), 0);
}

#[test]
fn cd_rate_to_recognizer_rate_gives_known_samples() {
    let input = sine_44100();
    let mut rs = LinearResampler::new(44100, 16000);
    assert_eq!(
        rs.process(&input),
        vec![0, 1719, 3385, 4953, 6374, 7601, 8603, 9351, 9822, 9996, 9872, 9457, 8762, 7802, 6610]
    );
    assert_eq!(rs.carried_position(), 21500);
}

#[test]
fn the_position_is_carried_into_the_next_chunk() {
    let input = sine_44100();
    let mut rs = LinearResampler::new(44100, 16000);
    rs.process(&input);
    assert_eq!(
        rs.process(&input),
        vec![841, 2541, 4166, 5665, 6997, 8122, 9003, 9614, 9941, 9974, 9709, 9151, 8322, 7249]
    );
    assert_eq!(rs.carried_position(), 0);
}

#[test]
fn output_length_is_input_length_over_step_within_one() {
    let mut rng = Lcg(2);
    for (in_rate, out_rate) in
        [(44100u32, 16000u32), (48000, 16000), (22050, 16000), (96000, 16000), (16001, 16000)]
    {
        let mut rs = LinearResampler::new(in_rate, out_rate);
        for _ in 0..200 {
            let len = (rng.next() % 500) as usize;
            let out = rs.process(&rng.chunk(len));
            let expected = len as f64 * out_rate as f64 / in_rate as f64;
            assert!(
                (out.len() as f64 - expected).abs() <= 1.0,
                "{in_rate} -> {out_rate}: {len} in, {} out",
                out.len()
            );
        }
    }
}

#[test]
fn going_up_in_rate_loses_the_samples_after_the_last_one() {
    // Nothing to interpolate toward lies beyond the chunk's last sample, so
    // ten samples at twice the rate give eighteen, not twenty.
    let mut rs = LinearResampler::new(8000, 16000);
    let input: Vec<i16> = (0..10).collect();
    assert_eq!(rs.process(&input).len(), 18);
}

#[test]
fn a_split_stream_equals_the_whole_where_the_seam_is_clear() {
    let whole: Vec<i16> = (0..12).map(|i| i * 10).collect();
    let mut split = LinearResampler::new(48000, 16000);
    let mut joined = split.process(&whole[..6]);
    assert_eq!(split.carried_position(), 0);
    joined.extend(split.process(&whole[6..]));
    let mut one = LinearResampler::new(48000, 16000);
    assert_eq!(joined, one.process(&whole));
    assert_eq!(joined, vec![0, 30, 60, 90]);
    assert_eq!(split.carried_position(), one.carried_position());
}

#[test]
fn a_split_stream_with_a_carried_position_equals_the_whole() {
    let mut rng = Lcg(3);
    let whole = rng.chunk(27);
    // After two samples at 44100 -> 16000 the next output lies 12100 steps
    // into the second chunk; no output falls on the seam.
    let mut split = LinearResampler::new(44100, 16000);
    let mut joined = split.process(&whole[..2]);
    assert_eq!(split.carried_position(), 12100);
    joined.extend(split.process(&whole[2..]));
    let mut one = LinearResampler::new(44100, 16000);
    assert_eq!(joined, one.process(&whole));
    assert_eq!(split.carried_position(), one.carried_position());
}

#[test]
fn an_output_on_the_seam_is_left_out() {
    let whole: Vec<i16> = (0..10).map(|i| i * 10).collect();
    let mut split = LinearResampler::new(32000, 16000);
    assert_eq!(split.process(&whole[..5]), vec![0, 20]);
    assert_eq!(split.carried_position(), 0);
    assert_eq!(split.process(&whole[5..]), vec![50, 70]);
    let mut one = LinearResampler::new(32000, 16000);
    assert_eq!(one.process(&whole), vec![0, 20, 40, 60, 80]);
}

#[test]
fn the_position_never_goes_below_the_next_chunk() {
    let mut rng = Lcg(4);
    for (in_rate, out_rate) in [(8000u32, 16000u32), (11025, 16000), (15999, 16000)] {
        let mut rs = LinearResampler::new(in_rate, out_rate);
        for _ in 0..50 {
            let len = (rng.next() % 40) as usize;
            rs.process(&rng.chunk(len));
            assert_eq!(rs.carried_position(), 0);
        }
    }
    let mut rs = LinearResampler::new(44100, 16000);
    for _ in 0..200 {
        let len = (rng.next() % 40) as usize;
        rs.process(&rng.chunk(len));
        assert!(rs.carried_position() < 44100 - 16000);
    }
}

#[test]
fn exact_positions_agree_with_interpolation_in_doubles() {
    let mut rng = Lcg(5);
    for (in_rate, out_rate) in [
        (44100u32, 16000u32),
        (48000, 16000),
        (8000, 16000),
        (22050, 16000),
        (96000, 16000),
        (11025, 16000),
    ] {
        let mut exact = LinearResampler::new(in_rate, out_rate);
        let mut float = FloatResampler::new(in_rate, out_rate);
        for _ in 0..40 {
            let len = (rng.next() % 300) as usize;
            let input = rng.chunk(len);
            let a = exact.process(&input);
            let b = float.process(&input);
            assert_eq!(a.len(), b.len());
            for (x, y) in a.iter().zip(b.iter()) {
                assert!((*x as i32 - *y as i32).abs() <= 1, "{x} against {y}");
            }
        }
    }
}

#[test]
fn a_clone_goes_on_from_the_same_position() {
    let input = sine_44100();
    let mut rs = LinearResampler::new(44100, 16000);
    rs.process(&input);
    let mut copy = rs.clone();
    assert_eq!(copy.carried_position(), 21500);
    assert_eq!(copy.process(&input), rs.process(&input));
}

#[test]
fn extreme_samples_and_rates_stay_in_range() {
    let mut rs = LinearResampler::new(1, 1000);
    let out = rs.process(&[i16::MIN, i16::MAX]);
    assert_eq!(out.len(), 1000);
    assert_eq!(out[..3], [-32768, -32702, -32637]);
    assert_eq!(out[997..], [32570, 32636, 32701]);
    assert_eq!(rs.carried_position(), 0);
    let mut rs = LinearResampler::new(u32::MAX, 1);
    assert_eq!(rs.process(&[i16::MAX, i16::MIN, 5]), vec![i16::MAX]);
    assert_eq!(rs.carried_position(), u32::MAX as u64 - 3);
    let mut rs = LinearResampler::new(3, 2);
    assert_eq!(rs.process(&[i16::MAX, i16::MIN, i16::MAX, i16::MIN]), vec![32767, -1]);
}
