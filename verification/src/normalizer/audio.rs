//! The signal conditioner: removal of a constant offset, automatic gain,
//! soft clipping and the activity gate, applied to each chunk in this order.
//!
//! Levels, gains and smoothing factors are counts of millionths (see
//! [`crate::fixed`]).

use vstd::prelude::*;
use vstd::arithmetic::power::pow;
use crate::fixed::{
    floor_div, floor_sqrt, isqrt, magnitude, saturate, saturated, toward_zero, UNIT,
};

verus! {

/// A million squared: levels are compared by their squares.
pub const UNIT_SQUARED: u64 = 1_000_000_000_000;

/// The square of the full-scale sample, 32767.
pub const FULL_SCALE_SQUARED: u64 = 1_073_676_289;

/// A sample above the threshold, pressed together by a hyperbolic knee: the
/// part `over` the threshold `t` becomes `over / (1 + over / t)`, so that
/// the result is `t * (t + 2 * over) / (t + over)`, rounded toward zero, with
/// the sign of the sample. A sample within the threshold is kept.
///
/// With a threshold below zero no sample is within it; the formula still
/// holds where the sample is not zero, and a zero sample, for which it
/// divides by zero, goes to the largest sample.
pub open spec fn soft_clipped(x: i16, threshold: i16) -> i16 {
    let size = magnitude(x as int);
    let over = size - threshold;
    if size <= threshold {
        x
    } else if size == 0 {
        32767i16
    } else {
        let pressed = toward_zero(threshold * (size + over), size);
        saturated(
            if x < 0 {
                -pressed
            } else {
                pressed
            },
        )
    }
}

/// With a threshold above zero, clipping never makes a sample larger or
/// changes its sign, and what lies above the threshold comes out between the
/// threshold and twice the threshold: nothing wraps around.
pub proof fn lemma_soft_clip_presses(x: i16, threshold: i16)
    requires
        threshold > 0,
    ensures
        magnitude(soft_clipped(x, threshold) as int) <= magnitude(x as int),
        (x < 0) == (soft_clipped(x, threshold) < 0),
        magnitude(x as int) <= threshold ==> soft_clipped(x, threshold) == x,
        magnitude(x as int) > threshold ==> threshold <= magnitude(
            soft_clipped(x, threshold) as int,
        ) < 2 * threshold,
{
    let size = magnitude(x as int);
    let t = threshold as int;
    if size > t {
        let over = size - t;
        let total = t * (size + over);
        vstd::arithmetic::div_mod::lemma_fundamental_div_mod(total, size);
        let pressed = total / size;
        assert(total >= 0) by (nonlinear_arith)
            requires
                total == t * (size + over),
                t > 0,
                size + over > 0,
        ;
        assert(t <= pressed < 2 * t && pressed < size) by (nonlinear_arith)
            requires
                total == size * pressed + total % size,
                0 <= total % size < size,
                total == t * (size + over),
                over == size - t,
                0 < t < size,
        ;
    }
}

/// Clips one sample softly at `threshold`.
#[inline]
pub fn soft_clip_i16(x: i16, threshold: i16) -> (y: i16)
    ensures
        y == soft_clipped(x, threshold),
{
    let t: i64 = threshold as i64;
    let size: i64 = if x < 0 {
        -(x as i64)
    } else {
        x as i64
    };
    if size <= t {
        return x;
    }
    if size == 0 {
        return 32767;
    }
    let over: i64 = size - t;
    assert(-0x8000 * 0x2_0000 <= t * (size + over) <= 0x8000 * 0x2_0000) by (nonlinear_arith)
        requires
            -0x8000 <= t <= 0x8000,
            0 <= size + over <= 0x2_0000,
    ;
    let pressed: i64 = (t * (size + over)) / size;
    if x < 0 {
        saturate(-pressed)
    } else {
        saturate(pressed)
    }
}

/// The sum of the squares of the samples.
pub open spec fn sum_of_squares(buf: Seq<i16>) -> nat
    decreases buf.len(),
{
    if buf.len() == 0 {
        0
    } else {
        sum_of_squares(buf.drop_last()) + (buf.last() as int * buf.last() as int) as nat
    }
}

/// Whether every sample is zero; a chunk without samples is silent too.
pub open spec fn silent(buf: Seq<i16>) -> bool {
    forall|i: int| 0 <= i < buf.len() ==> buf[i] == 0
}

/// The root of the mean of the squares of the samples, in whole millionths
/// of full scale: what is left of a millionth is dropped. By this number a
/// level is held against a threshold of whole millionths, and exactly so:
/// it reaches the threshold where the level itself does.
pub open spec fn whole_level(buf: Seq<i16>) -> nat {
    if buf.len() == 0 {
        0
    } else {
        floor_sqrt(
            ((sum_of_squares(buf) * UNIT_SQUARED) / (buf.len() * FULL_SCALE_SQUARED) as int) as nat,
        )
    }
}

/// The level of a chunk, in millionths of full scale: the root of the mean
/// of the squares of its samples in whole millionths, but never nothing for
/// a chunk with a sound in it. Only silence has a level of zero; a sound
/// below one millionth reads as one millionth.
pub open spec fn rms_level(buf: Seq<i16>) -> nat {
    if whole_level(buf) == 0 && sum_of_squares(buf) > 0 {
        1
    } else {
        whole_level(buf)
    }
}

/// The squares of the samples add up to nothing for silence only.
pub proof fn lemma_no_squares_in_silence(buf: Seq<i16>)
    ensures
        sum_of_squares(buf) == 0 <==> silent(buf),
    decreases buf.len(),
{
    if buf.len() > 0 {
        lemma_no_squares_in_silence(buf.drop_last());
        let last = buf.last() as int;
        assert(last * last >= 0 && (last * last == 0 <==> last == 0)) by (nonlinear_arith);
        if silent(buf) {
            assert(silent(buf.drop_last())) by {
                assert forall|i: int| 0 <= i < buf.drop_last().len() implies buf.drop_last()[i]
                    == 0 by {
                    assert(buf.drop_last()[i] == buf[i]);
                }
            }
        }
        if sum_of_squares(buf) == 0 {
            assert forall|i: int| 0 <= i < buf.len() implies buf[i] == 0 by {
                if i < buf.len() - 1 {
                    assert(buf.drop_last()[i] == buf[i]);
                }
            }
        }
    }
}

/// Every number has a square root with an integer part.
pub proof fn lemma_sqrt_exists(m: nat)
    ensures
        crate::fixed::is_floor_sqrt(floor_sqrt(m), m),
    decreases m,
{
    if m == 0 {
        let r: nat = 0;
        assert(r * r == 0 && (r + 1) * (r + 1) == 1) by (nonlinear_arith)
            requires
                r == 0,
        ;
        assert(crate::fixed::is_floor_sqrt(r, m));
    } else {
        lemma_sqrt_exists((m - 1) as nat);
        let r = floor_sqrt((m - 1) as nat);
        if (r + 1) * (r + 1) <= m {
            assert((r + 2) * (r + 2) > (r + 1) * (r + 1)) by (nonlinear_arith)
                requires
                    r >= 0,
            ;
            assert(crate::fixed::is_floor_sqrt(r + 1, m));
        } else {
            assert(crate::fixed::is_floor_sqrt(r, m));
        }
    }
}

/// Holding the whole level against a threshold of whole millionths loses
/// nothing: the whole level reaches `least` exactly where the mean of the
/// squares reaches the square of `least`, in the same units.
pub proof fn lemma_whole_level_is_exact(buf: Seq<i16>, least: nat)
    requires
        buf.len() > 0,
    ensures
        whole_level(buf) >= least <==> least * least * (buf.len() * FULL_SCALE_SQUARED)
            <= sum_of_squares(buf) * UNIT_SQUARED,
{
    let total = (sum_of_squares(buf) * UNIT_SQUARED) as int;
    let parts = (buf.len() * FULL_SCALE_SQUARED) as int;
    let mean = total / parts;
    assert(parts > 0) by (nonlinear_arith)
        requires
            parts == buf.len() * FULL_SCALE_SQUARED,
            buf.len() > 0,
            FULL_SCALE_SQUARED > 0,
    ;
    assert(total >= 0) by (nonlinear_arith)
        requires
            total == sum_of_squares(buf) * UNIT_SQUARED,
    ;
    vstd::arithmetic::div_mod::lemma_fundamental_div_mod(total, parts);
    vstd::arithmetic::div_mod::lemma_div_pos_is_pos(total, parts);
    let root = floor_sqrt(mean as nat);
    lemma_sqrt_exists(mean as nat);
    let square = (least * least) as int;
    // The root reaches the threshold where the mean reaches its square.
    assert(root >= least <==> mean >= square) by {
        if root >= least {
            assert(root * root >= least * least) by (nonlinear_arith)
                requires
                    root >= least,
            ;
        } else {
            assert((root + 1) * (root + 1) <= least * least) by (nonlinear_arith)
                requires
                    root + 1 <= least,
            ;
        }
    }
    // The mean reaches a whole number where the sum reaches its multiple.
    assert(mean >= square <==> square * parts <= total) by (nonlinear_arith)
        requires
            total == parts * mean + total % parts,
            0 <= total % parts < parts,
            parts > 0,
    ;
    assert(least * least * (buf.len() * FULL_SCALE_SQUARED) == square * parts) by (nonlinear_arith)
        requires
            square == least * least,
            parts == buf.len() * FULL_SCALE_SQUARED,
    ;
}

/// The integer part of the square root of zero is zero.
pub proof fn lemma_sqrt_of_zero()
    ensures
        floor_sqrt(0) == 0,
{
    assert(crate::fixed::is_floor_sqrt(0, 0)) by {
        let r: nat = 0;
        assert(r * r == 0 && (r + 1) * (r + 1) == 1) by (nonlinear_arith)
            requires
                r == 0,
        ;
    }
    crate::fixed::lemma_sqrt_unique(0, 0, floor_sqrt(0));
}

/// Silence has no level.
pub proof fn lemma_silence_has_no_level(buf: Seq<i16>)
    requires
        silent(buf),
    ensures
        sum_of_squares(buf) == 0,
        whole_level(buf) == 0,
        rms_level(buf) == 0,
{
    lemma_no_squares_in_silence(buf);
    lemma_sqrt_of_zero();
    if buf.len() > 0 {
        assert(0 * UNIT_SQUARED == 0);
        vstd::arithmetic::div_mod::lemma_basic_div(0, (buf.len() * FULL_SCALE_SQUARED) as int);
    }
}

/// A level of zero means silence, and nothing else does.
pub proof fn lemma_level_is_zero_for_silence_only(buf: Seq<i16>)
    ensures
        rms_level(buf) == 0 <==> silent(buf),
{
    lemma_no_squares_in_silence(buf);
    if silent(buf) {
        lemma_silence_has_no_level(buf);
    }
}

/// Measures the level of a chunk. The result is zero for silence only, and
/// at most the level of a chunk that is at the lowest sample throughout.
pub fn rms_i16(buf: &[i16]) -> (level: u32)
    ensures
        level == rms_level(buf@),
        level == 0 <==> silent(buf@),
        level <= 1_000_030,
{
    proof {
        lemma_level_is_zero_for_silence_only(buf@);
    }
    let (sum, whole) = measure(buf);
    if whole == 0 && sum > 0 {
        1
    } else {
        whole
    }
}

/// Tells whether the level of a chunk is at least `least` millionths of
/// full scale.
pub fn level_reaches(buf: &[i16], least: u32) -> (yes: bool)
    ensures
        yes == (whole_level(buf@) >= least),
{
    let (_sum, whole) = measure(buf);
    whole >= least
}

/// Adds up the squares of the samples and takes the root of their mean, in
/// whole millionths of full scale.
fn measure(buf: &[i16]) -> (found: (u128, u32))
    ensures
        found.0 == sum_of_squares(buf@),
        found.1 == whole_level(buf@),
        found.1 <= 1_000_030,
{
    let length = buf.len();
    if length == 0 {
        return (0, 0);
    }
    let mut sum: u128 = 0;
    let mut i: usize = 0;
    while i < length
        invariant
            i <= length == buf@.len(),
            sum == sum_of_squares(buf@.take(i as int)),
            sum <= i * 0x4000_0000,
        decreases length - i,
    {
        let s: i64 = buf[i] as i64;
        proof {
            assert(buf@.take(i + 1).drop_last() =~= buf@.take(i as int));
            assert(0 <= s * s <= 0x4000_0000) by (nonlinear_arith)
                requires
                    -0x8000 <= s <= 0x8000,
            ;
            assert((i + 1) * 0x4000_0000 <= 0xFFFF_FFFF_FFFF_FFFF * 0x4000_0000) by (nonlinear_arith)
                requires
                    i + 1 <= 0xFFFF_FFFF_FFFF_FFFF,
            ;
        }
        sum = sum + (s * s) as u128;
        i += 1;
    }
    proof {
        assert(buf@.take(i as int) =~= buf@);
    }
    let count: u128 = length as u128;
    let whole: u128 = sum / count;
    let rest: u128 = sum % count;
    proof {
        vstd::arithmetic::div_mod::lemma_fundamental_div_mod(sum as int, count as int);
        assert(whole <= 0x4000_0000) by (nonlinear_arith)
            requires
                sum == count * whole + rest,
                sum <= count * 0x4000_0000,
                count > 0,
                rest >= 0,
        ;
        assert(whole * UNIT_SQUARED <= 0x4000_0000 * 1_000_000_000_000) by (nonlinear_arith)
            requires
                0 <= whole <= 0x4000_0000,
                UNIT_SQUARED == 1_000_000_000_000,
        ;
        assert(rest * UNIT_SQUARED <= 0xFFFF_FFFF_FFFF_FFFF * 1_000_000_000_000) by (nonlinear_arith)
            requires
                0 <= rest <= 0xFFFF_FFFF_FFFF_FFFF,
                UNIT_SQUARED == 1_000_000_000_000,
        ;
    }
    let scaled: u128 = whole * (UNIT_SQUARED as u128) + (rest * (UNIT_SQUARED as u128)) / count;
    let mean: u128 = scaled / (FULL_SCALE_SQUARED as u128);
    proof {
        let total = sum as int * UNIT_SQUARED as int;
        assert(total == rest * UNIT_SQUARED + (whole * UNIT_SQUARED) * count) by (nonlinear_arith)
            requires
                sum == count * whole + rest,
                total == sum * UNIT_SQUARED,
        ;
        vstd::arithmetic::div_mod::lemma_hoist_over_denominator(
            rest as int * UNIT_SQUARED as int,
            whole as int * UNIT_SQUARED as int,
            count as nat,
        );
        assert(scaled == total / count as int);
        assert(total >= 0) by (nonlinear_arith)
            requires
                total == sum * UNIT_SQUARED,
                sum >= 0,
        ;
        vstd::arithmetic::div_mod::lemma_div_denominator(
            total,
            count as int,
            FULL_SCALE_SQUARED as int,
        );
        assert(mean == total / (count * FULL_SCALE_SQUARED));
        assert(rest * UNIT_SQUARED / count as int <= UNIT_SQUARED) by {
            assert(rest * UNIT_SQUARED <= count * UNIT_SQUARED) by (nonlinear_arith)
                requires
                    rest < count,
            ;
            vstd::arithmetic::div_mod::lemma_div_is_ordered(
                rest as int * UNIT_SQUARED as int,
                count as int * UNIT_SQUARED as int,
                count as int,
            );
            vstd::arithmetic::div_mod::lemma_div_by_multiple(UNIT_SQUARED as int, count as int);
            assert(UNIT_SQUARED * count == count * UNIT_SQUARED) by (nonlinear_arith);
        }
        assert(scaled <= 0x4000_0000 * 1_000_000_000_000 + 1_000_000_000_000);
        vstd::arithmetic::div_mod::lemma_fundamental_div_mod(
            scaled as int,
            FULL_SCALE_SQUARED as int,
        );
        assert(mean <= 4_000_000_000_000) by (nonlinear_arith)
            requires
                1_073_676_289 * mean <= scaled,
                scaled <= 0x4000_0000 * 1_000_000_000_000 + 1_000_000_000_000,
        ;
        assert(mean as nat == ((sum_of_squares(buf@) * UNIT_SQUARED) / (buf@.len()
            * FULL_SCALE_SQUARED) as int) as nat);
        assert(mean <= 1_000_061_039_821) by (nonlinear_arith)
            requires
                1_073_676_289 * mean <= scaled,
                scaled <= 0x4000_0000 * 1_000_000_000_000 + 1_000_000_000_000,
        ;
    }
    let root = isqrt(mean as u64);
    assert(root <= 1_000_030) by (nonlinear_arith)
        requires
            root * root <= mean,
            mean <= 1_000_061_039_821,
    ;
    (sum, root as u32)
}

/// The running mean after one more sample: `alpha` parts of the mean before
/// and the rest of the sample, rounded down. The mean is counted in
/// millionths of a sample step.
pub open spec fn dc_mean(mean: int, alpha: int, sample: int) -> int {
    (alpha * mean + (UNIT - alpha) * (sample * UNIT)) / (UNIT as int)
}

/// The sample without the running mean, rounded toward zero and held to
/// the range of a sample.
pub open spec fn dc_output(mean: int, sample: int) -> i16 {
    saturated(toward_zero(sample * UNIT - mean, UNIT as int))
}

/// The running mean after a run of samples.
pub open spec fn dc_mean_after(mean: int, alpha: int, input: Seq<i16>) -> int
    decreases input.len(),
{
    if input.len() == 0 {
        mean
    } else {
        dc_mean(dc_mean_after(mean, alpha, input.drop_last()), alpha, input.last() as int)
    }
}

/// A run of samples, each without the running mean that includes it.
pub open spec fn dc_filtered(mean: int, alpha: int, input: Seq<i16>) -> Seq<i16> {
    Seq::new(
        input.len(),
        |i: int| dc_output(dc_mean_after(mean, alpha, input.take(i + 1)), input[i] as int),
    )
}

/// Whether a running mean lies within the range of the samples.
pub open spec fn mean_in_range(mean: int) -> bool {
    -32768 * UNIT <= mean <= 32767 * UNIT
}

/// The running mean stays between the mean before and the sample.
pub proof fn lemma_mean_moves_toward_sample(mean: int, alpha: int, sample: int)
    requires
        0 <= alpha <= UNIT,
    ensures
        mean <= sample * UNIT ==> mean <= dc_mean(mean, alpha, sample) <= sample * UNIT,
        mean >= sample * UNIT ==> sample * UNIT <= dc_mean(mean, alpha, sample) <= mean,
        UNIT * magnitude(dc_mean(mean, alpha, sample) - sample * UNIT) <= alpha * magnitude(
            mean - sample * UNIT,
        ) + UNIT - 1,
{
    let unit = UNIT as int;
    let level = sample * unit;
    let error = mean - level;
    let total = alpha * mean + (unit - alpha) * level;
    assert(total == alpha * error + level * unit) by (nonlinear_arith)
        requires
            error == mean - level,
            total == alpha * mean + (unit - alpha) * level,
    ;
    vstd::arithmetic::div_mod::lemma_hoist_over_denominator(alpha * error, level, unit as nat);
    assert(total / unit == (alpha * error) / unit + level);
    vstd::arithmetic::div_mod::lemma_fundamental_div_mod(alpha * error, unit);
    let moved = (alpha * error) / unit;
    assert(unit * moved <= alpha * error < unit * moved + unit);
    if error >= 0 {
        assert(0 <= alpha * error <= unit * error) by (nonlinear_arith)
            requires
                0 <= alpha <= unit,
                error >= 0,
        ;
        assert(0 <= moved <= error) by (nonlinear_arith)
            requires
                unit * moved <= alpha * error < unit * moved + unit,
                0 <= alpha * error <= unit * error,
                unit > 0,
        ;
    } else {
        assert(unit * error <= alpha * error <= 0) by (nonlinear_arith)
            requires
                0 <= alpha <= unit,
                error < 0,
        ;
        assert(error <= moved <= 0) by (nonlinear_arith)
            requires
                unit * moved <= alpha * error < unit * moved + unit,
                unit * error <= alpha * error <= 0,
                unit > 0,
        ;
        assert(alpha * magnitude(error) == -(alpha * error)) by (nonlinear_arith)
            requires
                magnitude(error) == -error,
        ;
    }
}

/// A run of one sample, said `count` times.
pub open spec fn constant(sample: i16, count: nat) -> Seq<i16> {
    Seq::new(count, |i: int| sample)
}

/// The next power of a number is the power times the number.
pub proof fn lemma_next_power(base: int, exponent: nat)
    ensures
        pow(base, exponent + 1) == base * pow(base, exponent),
        base >= 0 ==> pow(base, exponent) >= 0,
        base > 0 ==> pow(base, exponent) > 0,
    decreases exponent,
{
    reveal(pow);
    if exponent > 0 {
        lemma_next_power(base, (exponent - 1) as nat);
        let before = pow(base, (exponent - 1) as nat);
        assert(base >= 0 ==> base * before >= 0) by (nonlinear_arith)
            requires
                base >= 0 ==> before >= 0,
        ;
        assert(base > 0 ==> base * before > 0) by (nonlinear_arith)
            requires
                base > 0 ==> before > 0,
        ;
    }
}

/// Whether every sample of a run lies within `spread` of `centre`.
pub open spec fn stays_near(input: Seq<i16>, centre: int, spread: nat) -> bool {
    forall|i: int| 0 <= i < input.len() ==> magnitude(#[trigger] input[i] - centre) <= spread
}

/// One sample that lies within `spread` of `centre` leaves the mean at most
/// the share of its distance from `centre`, and the rest of one of the
/// spread, and less than a millionth more for the rounding.
pub proof fn lemma_mean_moves_toward_centre(
    mean: int,
    alpha: int,
    sample: int,
    centre: int,
    spread: nat,
)
    requires
        0 <= alpha <= UNIT,
        magnitude(sample - centre) <= spread,
    ensures
        UNIT * magnitude(dc_mean(mean, alpha, sample) - centre * UNIT) <= alpha * magnitude(
            mean - centre * UNIT,
        ) + (UNIT - alpha) * (spread * UNIT) + UNIT - 1,
{
    let unit = UNIT as int;
    let level = centre * unit;
    let error = mean - level;
    let off = sample - centre;
    let total = alpha * mean + (unit - alpha) * (sample * unit);
    let pull = alpha * error + (unit - alpha) * (off * unit);
    assert(total == pull + level * unit) by (nonlinear_arith)
        requires
            error == mean - level,
            level == centre * unit,
            off == sample - centre,
            total == alpha * mean + (unit - alpha) * (sample * unit),
            pull == alpha * error + (unit - alpha) * (off * unit),
    ;
    vstd::arithmetic::div_mod::lemma_hoist_over_denominator(pull, level, unit as nat);
    assert(total / unit == pull / unit + level);
    vstd::arithmetic::div_mod::lemma_fundamental_div_mod(pull, unit);
    let moved = pull / unit;
    assert(unit * moved <= pull < unit * moved + unit);
    assert(magnitude(pull) <= alpha * magnitude(error) + (unit - alpha) * (spread * unit))
        by (nonlinear_arith)
        requires
            pull == alpha * error + (unit - alpha) * (off * unit),
            0 <= alpha <= unit,
            unit > 0,
            magnitude(off) <= spread,
            magnitude(pull) == pull || magnitude(pull) == -pull,
            magnitude(error) >= error,
            magnitude(error) >= -error,
            magnitude(off) >= off,
            magnitude(off) >= -off,
    ;
    assert(unit * magnitude(moved) <= magnitude(pull) + unit - 1);
}

/// The step of the induction on the number of samples, in plain numbers,
/// for an input that stays within `spread` of its centre.
proof fn lemma_power_step_near(
    unit: int,
    alpha: int,
    spread: int,
    whole: int,
    part: int,
    start: int,
    far: int,
    near: int,
)
    requires
        0 <= alpha < unit,
        spread >= 0,
        whole > 0,
        part >= 0,
        start >= 0,
        far >= 0,
        near >= 0,
        whole * far <= part * start + (spread * unit + unit - 1) * whole,
        unit * near <= alpha * far + (unit - alpha) * (spread * unit) + unit - 1,
    ensures
        (unit * whole) * near <= (alpha * part) * start + (spread * unit + unit - 1) * (unit
            * whole),
{
    let rest = spread * unit + unit - 1;
    let once = (unit - alpha) * (spread * unit) + unit - 1;
    assert((unit * whole) * near == whole * (unit * near)) by (nonlinear_arith);
    assert(whole * (unit * near) <= whole * (alpha * far + once)) by (nonlinear_arith)
        requires
            whole > 0,
            unit * near <= alpha * far + once,
    ;
    assert(whole * (alpha * far + once) == alpha * (whole * far) + once * whole)
        by (nonlinear_arith);
    assert(alpha * (whole * far) <= alpha * (part * start + rest * whole)) by (nonlinear_arith)
        requires
            alpha >= 0,
            whole * far <= part * start + rest * whole,
    ;
    assert(alpha * (part * start + rest * whole) == (alpha * part) * start + (alpha * rest)
        * whole) by (nonlinear_arith);
    assert(alpha * rest + once <= unit * rest) by (nonlinear_arith)
        requires
            rest == spread * unit + unit - 1,
            once == (unit - alpha) * (spread * unit) + unit - 1,
            0 <= alpha < unit,
            spread >= 0,
    ;
    assert((alpha * rest) * whole + once * whole <= (unit * rest) * whole) by (nonlinear_arith)
        requires
            alpha * rest + once <= unit * rest,
            whole > 0,
    ;
    assert((unit * rest) * whole == rest * (unit * whole)) by (nonlinear_arith);
}

/// The running mean finds the offset of a signal: where every sample lies
/// within `spread` of `centre`, as an offset with a sine of that amplitude
/// on it does, the distance of the mean from `centre` after the run is at
/// most the distance at the start times the share to the power of the run's
/// length, and the spread, and less than one sample step for the rounding.
/// In the numbers of this crate, with `n` for the length: `UNIT^n *
/// distance_after <= alpha^n * distance_before + (spread * UNIT + UNIT - 1)
/// * UNIT^n`.
pub proof fn lemma_mean_finds_offset(
    mean: int,
    alpha: int,
    input: Seq<i16>,
    centre: int,
    spread: nat,
)
    requires
        0 <= alpha < UNIT,
        stays_near(input, centre, spread),
    ensures
        pow(UNIT as int, input.len()) * magnitude(
            dc_mean_after(mean, alpha, input) - centre * UNIT,
        ) <= pow(alpha, input.len()) * magnitude(mean - centre * UNIT) + (spread * UNIT + UNIT
            - 1) * pow(UNIT as int, input.len()),
    decreases input.len(),
{
    let unit = UNIT as int;
    let count = input.len();
    let start = magnitude(mean - centre * UNIT);
    lemma_next_power(unit, count);
    lemma_next_power(alpha, count);
    if count == 0 {
        reveal(pow);
        assert(pow(unit, 0) == 1 && pow(alpha, 0) == 1);
        assert((spread * unit + unit - 1) * 1 >= 0) by (nonlinear_arith)
            requires
                spread >= 0,
                unit == 1_000_000,
        ;
    } else {
        let fewer = (count - 1) as nat;
        let head = input.drop_last();
        assert(stays_near(head, centre, spread)) by {
            assert forall|i: int| 0 <= i < head.len() implies magnitude(
                #[trigger] head[i] - centre,
            ) <= spread by {
                assert(head[i] == input[i]);
            }
        }
        lemma_mean_finds_offset(mean, alpha, head, centre, spread);
        lemma_next_power(unit, fewer);
        lemma_next_power(alpha, fewer);
        let before = dc_mean_after(mean, alpha, head);
        let after = dc_mean_after(mean, alpha, input);
        assert(after == dc_mean(before, alpha, input.last() as int));
        assert(magnitude(input[count - 1] - centre) <= spread);
        lemma_mean_moves_toward_centre(before, alpha, input.last() as int, centre, spread);
        lemma_power_step_near(
            unit,
            alpha,
            spread as int,
            pow(unit, fewer),
            pow(alpha, fewer),
            start,
            magnitude(before - centre * UNIT),
            magnitude(after - centre * UNIT),
        );
    }
}

/// The running mean approaches a constant input as the powers of the share
/// fall: after `count` samples of the same value, the distance of the mean
/// from that value is at most the distance at the start times the share to
/// the power of `count`, and less than one sample step more for the
/// rounding. In the numbers of this crate, where one is [`UNIT`]:
/// `UNIT^count * distance_after <= alpha^count * distance_before
/// + (UNIT - 1) * UNIT^count`.
pub proof fn lemma_mean_approaches_constant(mean: int, alpha: int, sample: i16, count: nat)
    requires
        0 <= alpha < UNIT,
    ensures
        pow(UNIT as int, count) * magnitude(
            dc_mean_after(mean, alpha, constant(sample, count)) - sample * UNIT,
        ) <= pow(alpha, count) * magnitude(mean - sample * UNIT) + (UNIT - 1) * pow(
            UNIT as int,
            count,
        ),
{
    let input = constant(sample, count);
    assert(stays_near(input, sample as int, 0));
    lemma_mean_finds_offset(mean, alpha, input, sample as int, 0);
    assert(0 * UNIT + UNIT - 1 == UNIT - 1);
}

/// The sum of the samples of a run.
pub open spec fn sum_of(run: Seq<i16>) -> int
    decreases run.len(),
{
    if run.len() == 0 {
        0
    } else {
        sum_of(run.drop_last()) + run.last()
    }
}

/// What is left of the samples of a run once the running mean is taken from
/// each, added up, in millionths of a sample step and before any rounding.
pub open spec fn left_over(mean: int, alpha: int, input: Seq<i16>) -> int
    decreases input.len(),
{
    if input.len() == 0 {
        0
    } else {
        left_over(mean, alpha, input.drop_last()) + (input.last() * UNIT - dc_mean_after(
            mean,
            alpha,
            input,
        ))
    }
}

/// Whether no output of a run is held to the range of a sample: each
/// sample is less than the range away from the running mean.
pub open spec fn unclipped(mean: int, alpha: int, input: Seq<i16>) -> bool {
    forall|i: int|
        0 <= i < input.len() ==> -32768 * UNIT < #[trigger] input[i] * UNIT - dc_mean_after(
            mean,
            alpha,
            input.take(i + 1),
        ) < 32768 * UNIT
}

/// What is left over of a run is, but for the rounding of the mean, the way
/// that the mean has gone, times the share and divided by the rest of one:
/// `alpha * (mean_after - mean_before) <= (UNIT - alpha) * left_over
/// <= alpha * (mean_after - mean_before) + length * (UNIT - 1)`.
pub proof fn lemma_left_over_follows_mean(mean: int, alpha: int, input: Seq<i16>)
    requires
        0 <= alpha <= UNIT,
    ensures
        alpha * (dc_mean_after(mean, alpha, input) - mean) <= (UNIT - alpha) * left_over(
            mean,
            alpha,
            input,
        ) <= alpha * (dc_mean_after(mean, alpha, input) - mean) + input.len() * (UNIT - 1),
    decreases input.len(),
{
    let unit = UNIT as int;
    if input.len() == 0 {
        assert(alpha * (mean - mean) == 0) by (nonlinear_arith);
        assert((unit - alpha) * 0 == 0);
    } else {
        let head = input.drop_last();
        lemma_left_over_follows_mean(mean, alpha, head);
        let before = dc_mean_after(mean, alpha, head);
        let after = dc_mean_after(mean, alpha, input);
        let level = input.last() * unit;
        let total = alpha * before + (unit - alpha) * level;
        assert(after == total / unit);
        vstd::arithmetic::div_mod::lemma_fundamental_div_mod(total, unit);
        let lost = total % unit;
        assert(0 <= lost < unit);
        assert((unit - alpha) * (level - after) == alpha * (after - before) + lost)
            by (nonlinear_arith)
            requires
                total == unit * after + lost,
                total == alpha * before + (unit - alpha) * level,
        ;
        let earlier = left_over(mean, alpha, head);
        assert((unit - alpha) * (earlier + (level - after)) == (unit - alpha) * earlier + (unit
            - alpha) * (level - after)) by (nonlinear_arith);
        assert(alpha * (before - mean) + alpha * (after - before) == alpha * (after - mean))
            by (nonlinear_arith);
        assert(input.len() * (unit - 1) == head.len() * (unit - 1) + (unit - 1))
            by (nonlinear_arith)
            requires
                input.len() == head.len() + 1,
        ;
    }
}

/// The outputs of a run add up to what is left over, one millionth of a
/// sample step for a millionth, but for the rounding of each output, which
/// is less than one sample step.
pub proof fn lemma_outputs_add_up(mean: int, alpha: int, input: Seq<i16>)
    requires
        unclipped(mean, alpha, input),
    ensures
        magnitude(UNIT * sum_of(dc_filtered(mean, alpha, input)) - left_over(mean, alpha, input))
            <= input.len() * (UNIT - 1),
    decreases input.len(),
{
    let unit = UNIT as int;
    let outputs = dc_filtered(mean, alpha, input);
    if input.len() == 0 {
        assert(outputs.len() == 0);
        assert(input.len() * (unit - 1) == 0) by (nonlinear_arith)
            requires
                input.len() == 0,
        ;
    } else {
        let head = input.drop_last();
        let last = input.len() - 1;
        assert(unclipped(mean, alpha, head)) by {
            assert forall|i: int| 0 <= i < head.len() implies -32768 * UNIT < #[trigger] head[i]
                * UNIT - dc_mean_after(mean, alpha, head.take(i + 1)) < 32768 * UNIT by {
                assert(head.take(i + 1) =~= input.take(i + 1));
                assert(head[i] == input[i]);
            }
        }
        lemma_outputs_add_up(mean, alpha, head);
        assert(outputs.drop_last() =~= dc_filtered(mean, alpha, head)) by {
            assert forall|i: int| 0 <= i < head.len() implies outputs.drop_last()[i]
                == dc_filtered(mean, alpha, head)[i] by {
                assert(head.take(i + 1) =~= input.take(i + 1));
                assert(head[i] == input[i]);
            }
        }
        assert(input.take(last + 1) =~= input);
        let after = dc_mean_after(mean, alpha, input);
        let difference = input.last() * unit - after;
        assert(difference == input[last] * UNIT - dc_mean_after(mean, alpha, input.take(last + 1)));
        assert(outputs.last() == dc_output(after, input.last() as int));
        vstd::arithmetic::div_mod::lemma_fundamental_div_mod(magnitude(difference), unit);
        let whole = toward_zero(difference, unit);
        assert(magnitude(unit * whole - difference) <= unit - 1);
        assert(unit * magnitude(whole) <= magnitude(difference));
        assert(-32768 < whole < 32768) by (nonlinear_arith)
            requires
                unit * magnitude(whole) <= magnitude(difference),
                magnitude(difference) < 32768 * unit,
                magnitude(whole) >= whole,
                magnitude(whole) >= -whole,
                unit == 1_000_000,
        ;
        assert(outputs.last() == whole);
        assert(unit * (sum_of(outputs.drop_last()) + whole) == unit * sum_of(outputs.drop_last())
            + unit * whole) by (nonlinear_arith);
        assert(input.len() * (unit - 1) == head.len() * (unit - 1) + (unit - 1))
            by (nonlinear_arith)
            requires
                input.len() == head.len() + 1,
        ;
    }
}

/// The outputs of a run have a mean that goes to zero, to within the
/// rounding, as the run grows: their sum is held by the way that the running
/// mean has gone, which the offset and the spread of the signal bound, and
/// by a little more than one sample step for each sample. In the numbers of
/// this crate, with `n` for the length: `(UNIT - alpha) * UNIT * |sum of the
/// outputs| <= alpha * |mean_after - mean_before| + n * (UNIT - 1) * (UNIT -
/// alpha + 1)`.
pub proof fn lemma_output_mean_fades(mean: int, alpha: int, input: Seq<i16>)
    requires
        0 <= alpha <= UNIT,
        unclipped(mean, alpha, input),
    ensures
        (UNIT - alpha) * UNIT * magnitude(sum_of(dc_filtered(mean, alpha, input))) <= alpha
            * magnitude(dc_mean_after(mean, alpha, input) - mean) + input.len() * (UNIT - 1) * (
        UNIT - alpha + 1),
{
    let unit = UNIT as int;
    lemma_left_over_follows_mean(mean, alpha, input);
    lemma_outputs_add_up(mean, alpha, input);
    let sum = sum_of(dc_filtered(mean, alpha, input));
    let left = left_over(mean, alpha, input);
    let gone = dc_mean_after(mean, alpha, input) - mean;
    let rest = unit - alpha;
    let slack = input.len() * (unit - 1);
    assert(slack >= 0) by (nonlinear_arith)
        requires
            slack == input.len() * (unit - 1),
            unit == 1_000_000,
    ;
    assert(magnitude(rest * left) <= alpha * magnitude(gone) + slack) by (nonlinear_arith)
        requires
            alpha * gone <= rest * left <= alpha * gone + slack,
            alpha >= 0,
            slack >= 0,
            magnitude(gone) >= gone,
            magnitude(gone) >= -gone,
            magnitude(rest * left) == rest * left || magnitude(rest * left) == -(rest * left),
    ;
    assert(rest * unit * magnitude(sum) <= magnitude(rest * left) + rest * slack)
        by (nonlinear_arith)
        requires
            magnitude(unit * sum - left) <= slack,
            rest >= 0,
            unit > 0,
            slack >= 0,
            magnitude(sum) == sum || magnitude(sum) == -sum,
            magnitude(rest * left) >= rest * left,
            magnitude(rest * left) >= -(rest * left),
            magnitude(unit * sum - left) >= unit * sum - left,
            magnitude(unit * sum - left) >= -(unit * sum - left),
    ;
    assert(slack + rest * slack == input.len() * (unit - 1) * (unit - alpha + 1))
        by (nonlinear_arith)
        requires
            slack == input.len() * (unit - 1),
            rest == unit - alpha,
    ;
}

/// A constant offset fades from the output: where a filter with a mean of
/// zero and a share below one is given the same sample over and over, the
/// output number `k`, counted from one, is at most the sample times the
/// share to the power of `k`, and one more for the rounding. In the numbers
/// of this crate: `UNIT^k * |output| <= alpha^k * |sample| + UNIT^k`.
pub proof fn lemma_constant_offset_fades(alpha: int, sample: i16, count: nat, k: nat)
    requires
        0 <= alpha < UNIT,
        1 <= k <= count,
    ensures
        pow(UNIT as int, k) * magnitude(
            dc_filtered(0, alpha, constant(sample, count))[k - 1] as int,
        ) <= pow(alpha, k) * magnitude(sample as int) + pow(UNIT as int, k),
{
    let unit = UNIT as int;
    let input = constant(sample, count);
    assert(input.take(k as int) =~= constant(sample, k));
    let mean = dc_mean_after(0, alpha, constant(sample, k));
    let output = dc_filtered(0, alpha, input)[k - 1];
    assert(output == dc_output(mean, sample as int));
    lemma_mean_approaches_constant(0, alpha, sample, k);
    lemma_next_power(unit, k);
    lemma_next_power(alpha, k);
    let whole = pow(unit, k);
    let part = pow(alpha, k);
    let distance = magnitude(mean - sample * UNIT);
    let size = magnitude(sample as int);
    assert(magnitude(0 - sample * UNIT) == size * unit);
    // The output is the distance in whole sample steps, rounded toward zero.
    assert(unit * magnitude(output as int) <= distance) by {
        let difference = sample * UNIT - mean;
        vstd::arithmetic::div_mod::lemma_fundamental_div_mod(magnitude(difference), unit);
    }
    assert(whole * magnitude(output as int) <= part * size + whole) by (nonlinear_arith)
        requires
            unit == 1_000_000,
            whole > 0,
            part >= 0,
            size >= 0,
            magnitude(output as int) >= 0,
            unit * magnitude(output as int) <= distance,
            whole * distance <= part * (size * unit) + (unit - 1) * whole,
    ;
}

/// A filter that removes a constant offset: it follows the signal with a
/// slow running mean and takes the mean away.
#[derive(Debug)]
pub struct DcBlocker {
    mean: i64,
    alpha: u32,
}

impl DcBlocker {
    /// The running mean, in millionths of a sample step.
    pub closed spec fn mean(&self) -> int {
        self.mean as int
    }

    /// The share of the old mean in the new one, in millionths.
    pub closed spec fn alpha(&self) -> int {
        self.alpha as int
    }

    /// What holds of every blocker: the share is at most one, and the mean
    /// lies within the range of the samples.
    #[verifier::type_invariant]
    pub closed spec fn well_formed(&self) -> bool {
        self.alpha <= UNIT && mean_in_range(self.mean as int)
    }

    /// A blocker with a mean of zero. `alpha`, in millionths, is the share
    /// that the old mean keeps with each sample: close to one for a mean
    /// that moves slowly.
    pub fn new(alpha: u32) -> (blocker: DcBlocker)
        requires
            alpha <= UNIT,
        ensures
            blocker.mean() == 0,
            blocker.alpha() == alpha,
    {
        DcBlocker { mean: 0, alpha }
    }

    /// The running mean, in millionths of a sample step.
    pub fn running_mean(&self) -> (mean: i64)
        ensures
            mean == self.mean(),
    {
        self.mean
    }

    /// Takes one sample: moves the mean toward it and gives the sample
    /// without the mean.
    #[inline]
    pub fn process_i16(&mut self, x: i16) -> (y: i16)
        ensures
            final(self).alpha() == old(self).alpha(),
            final(self).mean() == dc_mean(old(self).mean(), old(self).alpha(), x as int),
            mean_in_range(final(self).mean()),
            y == dc_output(final(self).mean(), x as int),
    {
        proof {
            use_type_invariant(&*self);
            lemma_mean_moves_toward_sample(self.mean as int, self.alpha as int, x as int);
        }
        let unit: i64 = UNIT as i64;
        let level: i64 = x as i64 * unit;
        let alpha: i64 = self.alpha as i64;
        assert(-32768 * 1_000_000 * 1_000_000 <= alpha * self.mean <= 32768 * 1_000_000 * 1_000_000)
            by (nonlinear_arith)
            requires
                0 <= alpha <= 1_000_000,
                -32768 * 1_000_000 <= self.mean <= 32768 * 1_000_000,
        ;
        assert(-32768 * 1_000_000 * 1_000_000 <= (unit - alpha) * level <= 32768 * 1_000_000
            * 1_000_000) by (nonlinear_arith)
            requires
                0 <= unit - alpha <= 1_000_000,
                -32768 * 1_000_000 <= level <= 32768 * 1_000_000,
        ;
        let mean: i64 = floor_div(alpha * self.mean + (unit - alpha) * level, unit);
        self.mean = mean;
        saturate((level - mean) / unit)
    }

    /// Takes a chunk, sample by sample, in place.
    pub fn process_buf(&mut self, buf: &mut [i16])
        ensures
            final(self).alpha() == old(self).alpha(),
            final(self).mean() == dc_mean_after(old(self).mean(), old(self).alpha(), old(buf)@),
            mean_in_range(final(self).mean()),
            final(buf)@ == dc_filtered(old(self).mean(), old(self).alpha(), old(buf)@),
    {
        proof {
            use_type_invariant(&*self);
        }
        let length = buf.len();
        let mut i: usize = 0;
        while i < length
            invariant
                i <= length == buf@.len() == old(buf)@.len(),
                self.alpha() == old(self).alpha(),
                self.mean() == dc_mean_after(
                    old(self).mean(),
                    old(self).alpha(),
                    old(buf)@.take(i as int),
                ),
                mean_in_range(self.mean()),
                forall|j: int|
                    0 <= j < i ==> buf@[j] == dc_output(
                        dc_mean_after(old(self).mean(), old(self).alpha(), old(buf)@.take(j + 1)),
                        old(buf)@[j] as int,
                    ),
                forall|j: int| i <= j < length ==> buf@[j] == old(buf)@[j],
            decreases length - i,
        {
            proof {
                assert(old(buf)@.take(i + 1).drop_last() =~= old(buf)@.take(i as int));
            }
            let y = self.process_i16(buf[i]);
            buf[i] = y;
            i += 1;
        }
        proof {
            assert(old(buf)@.take(i as int) =~= old(buf)@);
            assert(buf@ =~= dc_filtered(old(self).mean(), old(self).alpha(), old(buf)@));
        }
    }
}

impl Clone for DcBlocker {
    /// A second blocker with the same mean.
    fn clone(&self) -> (copy: DcBlocker)
        ensures
            copy.mean() == self.mean(),
            copy.alpha() == self.alpha(),
    {
        proof {
            use_type_invariant(self);
        }
        DcBlocker { mean: self.mean, alpha: self.alpha }
    }
}

/// The smallest gain that is at least the inverse of `max_gain`.
pub open spec fn gain_floor(max_gain: int) -> int
    recommends
        max_gain > 0,
{
    (UNIT * UNIT + max_gain - 1) / max_gain
}

/// Whether a gain lies between the inverse of `max_gain` and `max_gain`.
pub open spec fn gain_within(gain: int, max_gain: int) -> bool {
    UNIT * UNIT <= gain * max_gain && gain <= max_gain
}

/// The gain that would bring a chunk of the given level to the target
/// level, held between the inverse of `max_gain` and `max_gain`. A level
/// below one millionth counts as one millionth.
pub open spec fn desired_gain(target: int, max_gain: int, level: int) -> int {
    let wanted = (target * UNIT) / (if level < 1 {
        1
    } else {
        level
    });
    if wanted < gain_floor(max_gain) {
        gain_floor(max_gain)
    } else if wanted > max_gain {
        max_gain
    } else {
        wanted
    }
}

/// The gain after smoothing: `smooth` parts of the gain before and the rest
/// of the desired gain, rounded down.
pub open spec fn smoothed_gain(gain: int, desired: int, smooth: int) -> int {
    (smooth * gain + (UNIT - smooth) * desired) / (UNIT as int)
}

/// The gain with which a chunk is amplified, given the gain before.
pub open spec fn next_gain(gain: int, target: int, max_gain: int, smooth: int, buf: Seq<i16>) -> int {
    smoothed_gain(gain, desired_gain(target, max_gain, rms_level(buf) as int), smooth)
}

/// A sample times a gain, rounded toward zero and held to the range of a
/// sample.
pub open spec fn amplified(sample: i16, gain: int) -> i16 {
    saturated(toward_zero(sample * gain, UNIT as int))
}

/// A chunk with every sample amplified.
pub open spec fn amplified_all(buf: Seq<i16>, gain: int) -> Seq<i16> {
    Seq::new(buf.len(), |i: int| amplified(buf[i], gain))
}

/// The floor of the gain is the smallest gain within the limits, and it is
/// at most one.
pub proof fn lemma_gain_floor(max_gain: int)
    requires
        max_gain >= UNIT,
    ensures
        gain_within(gain_floor(max_gain), max_gain),
        0 < gain_floor(max_gain) <= UNIT,
        forall|gain: int| gain_within(gain, max_gain) <==> gain_floor(max_gain) <= gain <= max_gain,
{
    let unit = UNIT as int;
    let least = gain_floor(max_gain);
    vstd::arithmetic::div_mod::lemma_fundamental_div_mod(unit * unit + max_gain - 1, max_gain);
    let rest = (unit * unit + max_gain - 1) % max_gain;
    assert(max_gain * least == least * max_gain) by (nonlinear_arith);
    assert(least * max_gain >= unit * unit);
    assert(least * max_gain <= unit * unit + max_gain - 1);
    assert(least <= unit) by (nonlinear_arith)
        requires
            least * max_gain <= unit * unit + max_gain - 1,
            max_gain >= unit,
            unit == 1_000_000,
    ;
    assert(least > 0) by (nonlinear_arith)
        requires
            least * max_gain >= unit * unit,
            max_gain > 0,
            unit == 1_000_000,
    ;
    assert forall|gain: int| gain_within(gain, max_gain) <==> least <= gain <= max_gain by {
        if least <= gain {
            assert(gain * max_gain >= least * max_gain) by (nonlinear_arith)
                requires
                    least <= gain,
                    max_gain > 0,
            ;
        } else {
            assert(gain * max_gain <= (least - 1) * max_gain) by (nonlinear_arith)
                requires
                    gain <= least - 1,
                    max_gain > 0,
            ;
            assert((least - 1) * max_gain == least * max_gain - max_gain) by (nonlinear_arith);
        }
    }
}

/// Smoothing keeps a gain within its limits.
pub proof fn lemma_smoothed_gain_within(gain: int, desired: int, smooth: int, max_gain: int)
    requires
        max_gain >= UNIT,
        0 <= smooth <= UNIT,
        gain_within(gain, max_gain),
        gain_within(desired, max_gain),
    ensures
        gain_within(smoothed_gain(gain, desired, smooth), max_gain),
{
    let unit = UNIT as int;
    let least = gain_floor(max_gain);
    lemma_gain_floor(max_gain);
    let total = smooth * gain + (unit - smooth) * desired;
    assert(least * unit <= total <= max_gain * unit) by (nonlinear_arith)
        requires
            total == smooth * gain + (unit - smooth) * desired,
            0 <= smooth <= unit,
            least <= gain <= max_gain,
            least <= desired <= max_gain,
    ;
    vstd::arithmetic::div_mod::lemma_div_is_ordered(least * unit, total, unit);
    vstd::arithmetic::div_mod::lemma_div_is_ordered(total, max_gain * unit, unit);
    vstd::arithmetic::div_mod::lemma_div_by_multiple(least, unit);
    vstd::arithmetic::div_mod::lemma_div_by_multiple(max_gain, unit);
}

/// An automatic gain control: it measures the level of each chunk and moves
/// its gain, smoothly, toward the gain that brings the chunk to the target
/// level.
#[derive(Debug)]
pub struct Agc {
    target_rms: u32,
    max_gain: u32,
    gain: u32,
    smooth: u32,
}

impl Agc {
    /// The level that the output is brought to, in millionths of full scale.
    pub closed spec fn target_rms(&self) -> int {
        self.target_rms as int
    }

    /// The largest gain, in millionths; its inverse is the smallest.
    pub closed spec fn max_gain(&self) -> int {
        self.max_gain as int
    }

    /// The gain, in millionths.
    pub closed spec fn gain(&self) -> int {
        self.gain as int
    }

    /// The share of the old gain in the new one, in millionths.
    pub closed spec fn smooth(&self) -> int {
        self.smooth as int
    }

    /// What holds of every gain control: the largest gain is at least one,
    /// the share is at most one, and the gain is within its limits.
    #[verifier::type_invariant]
    pub closed spec fn well_formed(&self) -> bool {
        &&& self.max_gain >= UNIT
        &&& self.smooth <= UNIT
        &&& gain_within(self.gain as int, self.max_gain as int)
    }

    /// A gain control with a gain of one. All three arguments are counts of
    /// millionths.
    pub fn new(target_rms: u32, max_gain: u32, smooth: u32) -> (agc: Agc)
        requires
            max_gain >= UNIT,
            smooth <= UNIT,
        ensures
            agc.target_rms() == target_rms,
            agc.max_gain() == max_gain,
            agc.smooth() == smooth,
            agc.gain() == UNIT,
            gain_within(agc.gain(), agc.max_gain()),
    {
        proof {
            assert(UNIT * UNIT <= UNIT * max_gain) by (nonlinear_arith)
                requires
                    max_gain >= UNIT,
            ;
        }
        Agc { target_rms, max_gain, gain: UNIT, smooth }
    }

    /// The gain, in millionths.
    pub fn current_gain(&self) -> (gain: u32)
        ensures
            gain == self.gain(),
    {
        self.gain
    }

    /// Takes a chunk: moves the gain and amplifies the chunk in place. An
    /// empty chunk changes nothing. The gain never leaves the range from the
    /// inverse of the largest gain to the largest gain.
    pub fn process(&mut self, buf: &mut [i16])
        ensures
            final(self).target_rms() == old(self).target_rms(),
            final(self).max_gain() == old(self).max_gain(),
            final(self).smooth() == old(self).smooth(),
            gain_within(final(self).gain(), final(self).max_gain()),
            old(buf)@.len() == 0 ==> final(self).gain() == old(self).gain() && final(buf)@ == old(
                buf,
            )@,
            old(buf)@.len() > 0 ==> {
                &&& final(self).gain() == next_gain(
                    old(self).gain(),
                    old(self).target_rms(),
                    old(self).max_gain(),
                    old(self).smooth(),
                    old(buf)@,
                )
                &&& final(buf)@ == amplified_all(old(buf)@, final(self).gain())
            },
    {
        proof {
            use_type_invariant(&*self);
            lemma_gain_floor(self.max_gain as int);
        }
        let length = buf.len();
        if length == 0 {
            return;
        }
        let measured: u32 = rms_i16(buf);
        let level: u64 = if measured < 1 {
            1
        } else {
            measured as u64
        };
        let unit: u64 = UNIT as u64;
        let max_gain: u64 = self.max_gain as u64;
        let least: u64 = (unit * unit + max_gain - 1) / max_gain;
        assert(self.target_rms as u64 * unit <= 0xFFFF_FFFF * 1_000_000) by (nonlinear_arith)
            requires
                self.target_rms <= 0xFFFF_FFFF,
                unit == 1_000_000,
        ;
        let wanted: u64 = (self.target_rms as u64 * unit) / level;
        let desired: u64 = if wanted < least {
            least
        } else if wanted > max_gain {
            max_gain
        } else {
            wanted
        };
        let smooth: u64 = self.smooth as u64;
        proof {
            lemma_smoothed_gain_within(
                self.gain as int,
                desired as int,
                smooth as int,
                max_gain as int,
            );
            assert(smooth * self.gain as u64 <= 1_000_000 * 0xFFFF_FFFF) by (nonlinear_arith)
                requires
                    smooth <= 1_000_000,
                    self.gain <= 0xFFFF_FFFF,
            ;
            assert((unit - smooth) * desired <= 1_000_000 * 0xFFFF_FFFF) by (nonlinear_arith)
                requires
                    0 <= unit - smooth <= 1_000_000,
                    desired <= 0xFFFF_FFFF,
            ;
        }
        let gain: u64 = (smooth * self.gain as u64 + (unit - smooth) * desired) / unit;
        self.gain = gain as u32;
        let factor: i64 = gain as i64;
        let mut i: usize = 0;
        while i < length
            invariant
                i <= length == buf@.len() == old(buf)@.len(),
                0 <= factor == gain <= 0xFFFF_FFFF,
                forall|j: int| 0 <= j < i ==> buf@[j] == amplified(old(buf)@[j], gain as int),
                forall|j: int| i <= j < length ==> buf@[j] == old(buf)@[j],
            decreases length - i,
        {
            let sample: i64 = buf[i] as i64;
            assert(-0x8000 * 0xFFFF_FFFF <= sample * factor <= 0x8000 * 0xFFFF_FFFF)
                by (nonlinear_arith)
                requires
                    -0x8000 <= sample <= 0x8000,
                    0 <= factor <= 0xFFFF_FFFF,
            ;
            buf[i] = saturate((sample * factor) / (UNIT as i64));
            i += 1;
        }
        proof {
            assert(buf@ =~= amplified_all(old(buf)@, gain as int));
        }
    }
}

impl Clone for Agc {
    /// A second gain control with the same gain.
    fn clone(&self) -> (copy: Agc)
        ensures
            copy.target_rms() == self.target_rms(),
            copy.max_gain() == self.max_gain(),
            copy.smooth() == self.smooth(),
            copy.gain() == self.gain(),
    {
        proof {
            use_type_invariant(self);
        }
        Agc {
            target_rms: self.target_rms,
            max_gain: self.max_gain,
            gain: self.gain,
            smooth: self.smooth,
        }
    }
}

/// A chunk with every sample clipped softly.
pub open spec fn clipped_all(buf: Seq<i16>, threshold: i16) -> Seq<i16> {
    Seq::new(buf.len(), |i: int| soft_clipped(buf[i], threshold))
}

/// The gain after a chunk that has passed the offset filter.
pub open spec fn gain_after(agc: Agc, centred: Seq<i16>) -> int {
    if centred.len() == 0 {
        agc.gain()
    } else {
        next_gain(agc.gain(), agc.target_rms(), agc.max_gain(), agc.smooth(), centred)
    }
}

/// A chunk after the three stages: without its offset, amplified, clipped.
pub open spec fn conditioned(
    mean: int,
    alpha: int,
    gain: int,
    threshold: i16,
    buf: Seq<i16>,
) -> Seq<i16> {
    clipped_all(amplified_all(dc_filtered(mean, alpha, buf), gain), threshold)
}

/// The conditioner of a session: offset filter, gain control, clipper and
/// activity gate, with the state that they carry from chunk to chunk.
#[derive(Debug)]
pub struct AudioNormalizer {
    dc: DcBlocker,
    agc: Agc,
    clip_threshold: i16,
    min_rms: u32,
}

impl AudioNormalizer {
    /// The offset filter.
    pub closed spec fn blocker(&self) -> DcBlocker {
        self.dc
    }

    /// The gain control.
    pub closed spec fn leveller(&self) -> Agc {
        self.agc
    }

    /// The magnitude above which samples are pressed together.
    pub closed spec fn clip_threshold(&self) -> i16 {
        self.clip_threshold
    }

    /// The level, in millionths of full scale, below which a chunk is
    /// dropped.
    pub closed spec fn min_rms(&self) -> int {
        self.min_rms as int
    }

    /// A conditioner with the settings of the assistant: a mean that keeps
    /// 0.999 of itself with each sample, a target level of 0.12 with a gain
    /// of at most 8 that keeps 0.95 of itself with each chunk, clipping
    /// above 95 % of full scale, and a gate at a level of 0.008.
    pub fn new() -> (normalizer: AudioNormalizer)
        ensures
            normalizer.blocker().mean() == 0,
            normalizer.blocker().alpha() == 999_000,
            normalizer.leveller().target_rms() == 120_000,
            normalizer.leveller().max_gain() == 8_000_000,
            normalizer.leveller().smooth() == 950_000,
            normalizer.leveller().gain() == UNIT,
            normalizer.clip_threshold() == 31128,
            normalizer.min_rms() == 8_000,
    {
        AudioNormalizer {
            dc: DcBlocker::new(999_000),
            agc: Agc::new(120_000, 8_000_000, 950_000),
            clip_threshold: 31128,
            min_rms: 8_000,
        }
    }

    /// A conditioner made of an offset filter and a gain control of the
    /// caller's choice. Samples above `clip_threshold` in magnitude are
    /// pressed together, and a chunk whose level, in millionths of full
    /// scale, stays below `min_rms` is dropped.
    pub fn from_parts(dc: DcBlocker, agc: Agc, clip_threshold: i16, min_rms: u32) -> (normalizer:
        AudioNormalizer)
        ensures
            normalizer.blocker() == dc,
            normalizer.leveller() == agc,
            normalizer.clip_threshold() == clip_threshold,
            normalizer.min_rms() == min_rms,
    {
        AudioNormalizer { dc, agc, clip_threshold, min_rms }
    }

    /// The running mean of the offset filter, in millionths of a sample
    /// step.
    pub fn running_mean(&self) -> (mean: i64)
        ensures
            mean == self.blocker().mean(),
    {
        self.dc.running_mean()
    }

    /// The gain of the gain control, in millionths.
    pub fn current_gain(&self) -> (gain: u32)
        ensures
            gain == self.leveller().gain(),
    {
        self.agc.current_gain()
    }

    /// Conditions a chunk in place and tells whether to pass it on: `false`
    /// means that the chunk is too quiet to hold speech.
    ///
    /// The offset is removed first, then the gain is measured on what is
    /// left and applied, then the result is clipped; the level is measured
    /// last, on what comes out.
    pub fn process(&mut self, buf: &mut [i16]) -> (forward: bool)
        ensures
            final(self).clip_threshold() == old(self).clip_threshold(),
            final(self).min_rms() == old(self).min_rms(),
            final(self).blocker().alpha() == old(self).blocker().alpha(),
            final(self).leveller().target_rms() == old(self).leveller().target_rms(),
            final(self).leveller().max_gain() == old(self).leveller().max_gain(),
            final(self).leveller().smooth() == old(self).leveller().smooth(),
            final(self).blocker().mean() == dc_mean_after(
                old(self).blocker().mean(),
                old(self).blocker().alpha(),
                old(buf)@,
            ),
            final(self).leveller().gain() == gain_after(
                old(self).leveller(),
                dc_filtered(old(self).blocker().mean(), old(self).blocker().alpha(), old(buf)@),
            ),
            gain_within(final(self).leveller().gain(), final(self).leveller().max_gain()),
            final(buf)@ == conditioned(
                old(self).blocker().mean(),
                old(self).blocker().alpha(),
                final(self).leveller().gain(),
                old(self).clip_threshold(),
                old(buf)@,
            ),
            forward == (whole_level(final(buf)@) >= old(self).min_rms()),
    {
        self.dc.process_buf(buf);
        let ghost centred = buf@;
        self.agc.process(buf);
        let ghost levelled = buf@;
        let length = buf.len();
        let mut i: usize = 0;
        while i < length
            invariant
                i <= length == buf@.len() == levelled.len(),
                self.clip_threshold == old(self).clip_threshold,
                forall|j: int|
                    0 <= j < i ==> buf@[j] == soft_clipped(levelled[j], self.clip_threshold),
                forall|j: int| i <= j < length ==> buf@[j] == levelled[j],
            decreases length - i,
        {
            buf[i] = soft_clip_i16(buf[i], self.clip_threshold);
            i += 1;
        }
        proof {
            assert(buf@ =~= clipped_all(levelled, self.clip_threshold));
            if centred.len() == 0 {
                assert(levelled =~= amplified_all(centred, self.agc.gain()));
            }
        }
        level_reaches(buf, self.min_rms)
    }
}

impl Clone for AudioNormalizer {
    /// A second conditioner in the same state.
    fn clone(&self) -> (copy: AudioNormalizer)
        ensures
            copy.blocker().mean() == self.blocker().mean(),
            copy.blocker().alpha() == self.blocker().alpha(),
            copy.leveller().gain() == self.leveller().gain(),
            copy.leveller().target_rms() == self.leveller().target_rms(),
            copy.leveller().max_gain() == self.leveller().max_gain(),
            copy.leveller().smooth() == self.leveller().smooth(),
            copy.clip_threshold() == self.clip_threshold(),
            copy.min_rms() == self.min_rms(),
    {
        AudioNormalizer {
            dc: self.dc.clone(),
            agc: self.agc.clone(),
            clip_threshold: self.clip_threshold,
            min_rms: self.min_rms,
        }
    }
}

/// A mean that is less than one sample step away from silence stays so
/// while silence comes in.
pub proof fn lemma_mean_stays_small_in_silence(mean: int, alpha: int, buf: Seq<i16>)
    requires
        0 <= alpha <= UNIT,
        -UNIT < mean < UNIT,
        silent(buf),
    ensures
        -UNIT < dc_mean_after(mean, alpha, buf) < UNIT,
    decreases buf.len(),
{
    if buf.len() > 0 {
        lemma_mean_stays_small_in_silence(mean, alpha, buf.drop_last());
        lemma_mean_moves_toward_sample(dc_mean_after(mean, alpha, buf.drop_last()), alpha, 0);
    }
}

/// A chunk of silence is dropped: where the running mean is less than one
/// sample step away from zero, the clip threshold is not negative and the
/// least level is above zero, a chunk of zeros comes out as zeros and does
/// not reach the least level, whatever the gain is.
pub proof fn lemma_silence_is_dropped(
    mean: int,
    alpha: int,
    gain: int,
    threshold: i16,
    min_rms: int,
    buf: Seq<i16>,
)
    requires
        0 <= alpha <= UNIT,
        -UNIT < mean < UNIT,
        threshold >= 0,
        min_rms > 0,
        silent(buf),
    ensures
        conditioned(mean, alpha, gain, threshold, buf) == buf,
        rms_level(conditioned(mean, alpha, gain, threshold, buf)) == 0,
        whole_level(conditioned(mean, alpha, gain, threshold, buf)) < min_rms,
{
    let centred = dc_filtered(mean, alpha, buf);
    assert forall|i: int| 0 <= i < buf.len() implies centred[i] == 0 by {
        lemma_mean_stays_small_in_silence(mean, alpha, buf.take(i + 1));
    }
    let levelled = amplified_all(centred, gain);
    assert forall|i: int| 0 <= i < buf.len() implies levelled[i] == 0 by {
        assert(centred[i] * gain == 0) by (nonlinear_arith)
            requires
                centred[i] == 0,
        ;
    }
    assert(conditioned(mean, alpha, gain, threshold, buf) =~= buf);
    lemma_silence_has_no_level(buf);
}

} // verus!
