//! Conversion of a stream of samples from the rate of the device to the rate
//! of the recognizer, chunk by chunk, by linear interpolation.
//!
//! A position in the input is a whole number of steps of `1 / out_rate` of a
//! sample, so that every position is exact: the output sample number `k` of
//! a chunk is read at `position + k * in_rate`.

use vstd::prelude::*;
use vstd::slice::slice_to_vec;
use crate::fixed::{magnitude, saturate, saturated, to_nearest};

verus! {

/// The value of the input at a position between two of its samples: the
/// first one plus the fraction of their difference, rounded to the nearest
/// sample.
pub open spec fn interpolated(input: Seq<i16>, position: int, out_rate: int) -> i16
    recommends
        out_rate > 0,
        0 <= position,
{
    let index = position / out_rate;
    let part = position % out_rate;
    let first = input[index] as int;
    let second = input[index + 1] as int;
    saturated(to_nearest(first * out_rate + (second - first) * part, out_rate))
}

/// The number of output samples that a chunk of `length` samples gives from
/// `position` on: one for each position before the chunk's last sample.
pub open spec fn output_count(length: int, position: int, in_rate: int, out_rate: int) -> int
    recommends
        in_rate > 0,
{
    let limit = (length - 1) * out_rate;
    if position >= limit {
        0
    } else {
        (limit - position + in_rate - 1) / in_rate
    }
}

/// The output for one chunk.
pub open spec fn resampled(input: Seq<i16>, position: int, in_rate: int, out_rate: int) -> Seq<
    i16,
> {
    Seq::new(
        output_count(input.len() as int, position, in_rate, out_rate) as nat,
        |k: int| interpolated(input, position + k * in_rate, out_rate),
    )
}

/// The position in the next chunk at which reading goes on: the first
/// position that was not read, less the chunk's length, and not before the
/// next chunk's first sample.
pub open spec fn carried(length: int, position: int, in_rate: int, out_rate: int) -> int {
    let end = position + output_count(length, position, in_rate, out_rate) * in_rate - length
        * out_rate;
    if end < 0 {
        0
    } else {
        end
    }
}

/// Whether a chunk passes unchanged: the two rates are equal, or the chunk
/// is too short to interpolate in.
pub open spec fn passes_through(length: int, in_rate: int, out_rate: int) -> bool {
    length < 2 || in_rate == out_rate
}

/// The number of samples that come out for a chunk of `length` samples.
pub open spec fn output_length(length: int, position: int, in_rate: int, out_rate: int) -> int {
    if passes_through(length, in_rate, out_rate) {
        length
    } else {
        output_count(length, position, in_rate, out_rate)
    }
}

/// A position before the chunk's last sample gives one output sample, and
/// the rest of the chunk gives the others.
pub proof fn lemma_count_step(length: int, position: int, in_rate: int, out_rate: int)
    requires
        in_rate > 0,
        position < (length - 1) * out_rate,
    ensures
        output_count(length, position, in_rate, out_rate) == 1 + output_count(
            length,
            position + in_rate,
            in_rate,
            out_rate,
        ),
{
    let left = (length - 1) * out_rate - position;
    if left <= in_rate {
        vstd::arithmetic::div_mod::lemma_fundamental_div_mod_converse(
            left + in_rate - 1,
            in_rate,
            1,
            left - 1,
        );
    } else {
        vstd::arithmetic::div_mod::lemma_div_plus_one(left - 1, in_rate);
    }
}

/// A position before the chunk's last sample lies between two samples of
/// the chunk.
pub proof fn lemma_index_in_chunk(length: int, position: int, out_rate: int)
    requires
        out_rate > 0,
        0 <= position < (length - 1) * out_rate,
    ensures
        0 <= position / out_rate < length - 1,
        0 <= position % out_rate < out_rate,
{
    vstd::arithmetic::div_mod::lemma_fundamental_div_mod(position, out_rate);
    vstd::arithmetic::div_mod::lemma_div_pos_is_pos(position, out_rate);
    let index = position / out_rate;
    assert(index < length - 1) by (nonlinear_arith)
        requires
            position == out_rate * index + position % out_rate,
            0 <= position % out_rate,
            position < (length - 1) * out_rate,
            out_rate > 0,
    ;
}

/// The outputs of a chunk, times the step, reach from the position to the
/// chunk's last sample and less than one step beyond.
pub proof fn lemma_count_bounds(length: int, position: int, in_rate: int, out_rate: int)
    requires
        in_rate > 0,
        position < (length - 1) * out_rate,
    ensures
        (length - 1) * out_rate - position <= output_count(length, position, in_rate, out_rate)
            * in_rate < (length - 1) * out_rate - position + in_rate,
        output_count(length, position, in_rate, out_rate) >= 1,
{
    let left = (length - 1) * out_rate - position;
    let count = (left + in_rate - 1) / in_rate;
    vstd::arithmetic::div_mod::lemma_fundamental_div_mod(left + in_rate - 1, in_rate);
    assert(in_rate * count == count * in_rate) by (nonlinear_arith);
    assert(0 <= (left + in_rate - 1) % in_rate < in_rate);
    assert(count >= 1) by (nonlinear_arith)
        requires
            count * in_rate >= left,
            left >= 1,
            in_rate > 0,
    ;
}

/// After some of a chunk's outputs, the rest are those from the position
/// that was reached.
pub proof fn lemma_count_after(length: int, position: int, in_rate: int, out_rate: int, done: int)
    requires
        in_rate > 0,
        0 <= done <= output_count(length, position, in_rate, out_rate),
    ensures
        output_count(length, position, in_rate, out_rate) == done + output_count(
            length,
            position + done * in_rate,
            in_rate,
            out_rate,
        ),
        done < output_count(length, position, in_rate, out_rate) ==> position + done * in_rate < (
        length - 1) * out_rate,
    decreases done,
{
    if done == 0 {
        assert(done * in_rate == 0) by (nonlinear_arith)
            requires
                done == 0,
        ;
    } else {
        lemma_count_after(length, position, in_rate, out_rate, done - 1);
        assert((done - 1) * in_rate + in_rate == done * in_rate) by (nonlinear_arith);
        let reached = position + (done - 1) * in_rate;
        assert(reached < (length - 1) * out_rate);
        lemma_count_step(length, reached, in_rate, out_rate);
    }
}

/// Whether a resampler can stand at `position` between two chunks: at the
/// first sample of the next chunk, or less than one step beyond a sample
/// that came before it.
pub open spec fn rests_at(position: int, in_rate: int, out_rate: int) -> bool {
    position == 0 || (0 < position && position + out_rate < in_rate)
}

/// A streaming converter between two sample rates.
#[derive(Debug)]
pub struct LinearResampler {
    in_rate: u32,
    out_rate: u32,
    pos: u64,
}

impl LinearResampler {
    /// The rate of the input, in samples per second.
    pub closed spec fn in_rate(&self) -> int {
        self.in_rate as int
    }

    /// The rate of the output, in samples per second.
    pub closed spec fn out_rate(&self) -> int {
        self.out_rate as int
    }

    /// Where the next chunk is read from, in steps of `1 / out_rate` of a
    /// sample.
    pub closed spec fn position(&self) -> int {
        self.pos as int
    }

    /// What holds of every resampler: the rates are equal or both positive,
    /// and the position lies less than one step beyond a sample.
    #[verifier::type_invariant]
    pub closed spec fn well_formed(&self) -> bool {
        &&& self.in_rate == self.out_rate || (self.in_rate > 0 && self.out_rate > 0)
        &&& rests_at(self.pos as int, self.in_rate as int, self.out_rate as int)
    }

    /// A resampler from `in_rate` to `out_rate`, at the start of its input.
    pub fn new(in_rate: u32, out_rate: u32) -> (resampler: LinearResampler)
        requires
            in_rate == out_rate || (in_rate > 0 && out_rate > 0),
        ensures
            resampler.in_rate() == in_rate,
            resampler.out_rate() == out_rate,
            resampler.position() == 0,
            rests_at(resampler.position(), resampler.in_rate(), resampler.out_rate()),
    {
        LinearResampler { in_rate, out_rate, pos: 0 }
    }

    /// Where the next chunk is read from, in steps of `1 / out_rate` of a
    /// sample.
    pub fn carried_position(&self) -> (position: u64)
        ensures
            position == self.position(),
    {
        self.pos
    }

    /// Converts one chunk. The position is carried over to the next call, so
    /// that the output of a stream does not depend on the clock of its
    /// chunks more than by the samples at their seams.
    pub fn process(&mut self, input: &[i16]) -> (output: Vec<i16>)
        ensures
            final(self).in_rate() == old(self).in_rate(),
            final(self).out_rate() == old(self).out_rate(),
            rests_at(final(self).position(), final(self).in_rate(), final(self).out_rate()),
            passes_through(input@.len() as int, old(self).in_rate(), old(self).out_rate()) ==> {
                &&& output@ == input@
                &&& final(self).position() == old(self).position()
            },
            !passes_through(input@.len() as int, old(self).in_rate(), old(self).out_rate()) ==> {
                &&& output@ == resampled(
                    input@,
                    old(self).position(),
                    old(self).in_rate(),
                    old(self).out_rate(),
                )
                &&& final(self).position() == carried(
                    input@.len() as int,
                    old(self).position(),
                    old(self).in_rate(),
                    old(self).out_rate(),
                )
            },
    {
        proof {
            use_type_invariant(&*self);
        }
        let length = input.len();
        if length < 2 || self.in_rate == self.out_rate {
            return slice_to_vec(input);
        }
        let step: u128 = self.in_rate as u128;
        let unit: u128 = self.out_rate as u128;
        let start: u128 = self.pos as u128;
        assert((length - 1) * unit <= 0xFFFF_FFFF_FFFF_FFFF * 0xFFFF_FFFF) by (nonlinear_arith)
            requires
                2 <= length <= 0xFFFF_FFFF_FFFF_FFFF,
                0 <= unit <= 0xFFFF_FFFF,
        ;
        let limit: u128 = (length as u128 - 1) * unit;
        let mut output: Vec<i16> = Vec::new();
        let mut position: u128 = start;
        let ghost total = output_count(length as int, start as int, step as int, unit as int);
        assert(output@.len() * step == 0) by (nonlinear_arith)
            requires
                output@.len() == 0,
        ;
        while position < limit
            invariant
                length == input@.len(),
                length >= 2,
                0 < step < 0x1_0000_0000,
                0 < unit < 0x1_0000_0000,
                limit == (length - 1) * unit,
                limit <= 0xFFFF_FFFF_FFFF_FFFF * 0xFFFF_FFFF,
                start < 0x1_0000_0000,
                position == start + output@.len() * step,
                position < limit + step,
                total == output@.len() + output_count(
                    length as int,
                    position as int,
                    step as int,
                    unit as int,
                ),
                forall|k: int|
                    0 <= k < output@.len() ==> output@[k] == interpolated(
                        input@,
                        start + k * step,
                        unit as int,
                    ),
            decreases limit + step - position,
        {
            proof {
                lemma_index_in_chunk(length as int, position as int, unit as int);
                lemma_count_step(length as int, position as int, step as int, unit as int);
            }
            let index: usize = (position / unit) as usize;
            let part: i64 = (position % unit) as i64;
            let first: i64 = input[index] as i64;
            let second: i64 = input[index + 1] as i64;
            assert(-0x8000 * 0x1_0000_0000 <= first * (unit as i64) <= 0x8000 * 0x1_0000_0000)
                by (nonlinear_arith)
                requires
                    -0x8000 <= first <= 0x8000,
                    0 < unit < 0x1_0000_0000,
            ;
            assert(-0x1_0000 * 0x1_0000_0000 <= (second - first) * part <= 0x1_0000
                * 0x1_0000_0000) by (nonlinear_arith)
                requires
                    -0x1_0000 <= second - first <= 0x1_0000,
                    0 <= part < 0x1_0000_0000,
            ;
            let weighted: i64 = first * (unit as i64) + (second - first) * part;
            let sample = saturate(round_div(weighted, unit as i64));
            assert(sample == interpolated(input@, position as int, unit as int));
            let ghost before = output@;
            output.push(sample);
            assert((before.len() + 1) * step == before.len() * step + step) by (nonlinear_arith);
            position = position + step;
        }
        proof {
            assert(output@.len() == total);
            assert(output@ =~= resampled(input@, start as int, step as int, unit as int));
        }
        assert(length * unit == limit + unit) by (nonlinear_arith)
            requires
                limit == (length - 1) * unit,
        ;
        let end: u128 = length as u128 * unit;
        self.pos = if position >= end {
            (position - end) as u64
        } else {
            0
        };
        output
    }
}

/// Going down in rate, the output is as long as the input divided by the
/// ratio of the rates, to within one sample: for every chunk and wherever
/// the resampler stands in its stream.
pub proof fn lemma_output_length_follows_ratio(
    length: nat,
    position: int,
    in_rate: int,
    out_rate: int,
)
    requires
        0 < out_rate <= in_rate,
        rests_at(position, in_rate, out_rate),
    ensures
        magnitude(
            output_length(length as int, position, in_rate, out_rate) * in_rate - length
                * out_rate,
        ) <= in_rate,
{
    let step = in_rate;
    let unit = out_rate;
    if passes_through(length as int, step, unit) {
        if step == unit {
        } else {
            assert(length * step - length * unit <= step) by (nonlinear_arith)
                requires
                    0 <= length < 2,
                    0 < unit <= step,
            ;
            assert(length * step - length * unit >= 0) by (nonlinear_arith)
                requires
                    0 <= length,
                    0 < unit <= step,
            ;
        }
    } else {
        let limit = (length - 1) * unit;
        assert(length * unit == limit + unit) by (nonlinear_arith)
            requires
                limit == (length - 1) * unit,
        ;
        if position >= limit {
            assert(limit >= unit) by (nonlinear_arith)
                requires
                    limit == (length - 1) * unit,
                    length >= 2,
                    unit > 0,
            ;
            let none = output_count(length as int, position, step, unit);
            assert(none * step == 0) by (nonlinear_arith)
                requires
                    none == 0,
            ;
        } else {
            lemma_count_bounds(length as int, position, step, unit);
        }
    }
}

/// What is asked of a stream that is cut in two for the cut to be
/// seamless: no output falls between the last sample of the first chunk and
/// the first sample of the second.
pub open spec fn seam_is_clear(length: int, position: int, in_rate: int, out_rate: int) -> bool {
    position + output_count(length, position, in_rate, out_rate) * in_rate >= length * out_rate
}

/// Over a clear seam the outputs of the two chunks are as many as those of
/// the chunks joined, and the position carried over the seam is where the
/// first chunk stopped.
pub proof fn lemma_counts_add_up(one: int, two: int, position: int, in_rate: int, out_rate: int)
    requires
        in_rate > 0,
        out_rate > 0,
        position >= 0,
        one >= 2,
        two >= 2,
        seam_is_clear(one, position, in_rate, out_rate),
    ensures
        output_count(one, position, in_rate, out_rate) >= 0,
        output_count(two, carried(one, position, in_rate, out_rate), in_rate, out_rate) >= 0,
        carried(one, position, in_rate, out_rate) == position + output_count(
            one,
            position,
            in_rate,
            out_rate,
        ) * in_rate - one * out_rate,
        output_count(one + two, position, in_rate, out_rate) == output_count(
            one,
            position,
            in_rate,
            out_rate,
        ) + output_count(two, carried(one, position, in_rate, out_rate), in_rate, out_rate),
{
    let head = output_count(one, position, in_rate, out_rate);
    let next = carried(one, position, in_rate, out_rate);
    let tail = output_count(two, next, in_rate, out_rate);
    let all = output_count(one + two, position, in_rate, out_rate);
    let first_limit = (one - 1) * out_rate;
    let whole_limit = (one + two - 1) * out_rate;
    let second_limit = (two - 1) * out_rate;
    assert(whole_limit == one * out_rate + second_limit && whole_limit >= first_limit
        && second_limit >= 0) by (nonlinear_arith)
        requires
            first_limit == (one - 1) * out_rate,
            whole_limit == (one + two - 1) * out_rate,
            second_limit == (two - 1) * out_rate,
            one >= 2,
            two >= 2,
            out_rate > 0,
    ;
    if position < first_limit {
        lemma_count_bounds(one, position, in_rate, out_rate);
        lemma_count_bounds(one + two, position, in_rate, out_rate);
        assert(head <= all) by (nonlinear_arith)
            requires
                head * in_rate < first_limit - position + in_rate,
                whole_limit - position <= all * in_rate,
                whole_limit >= first_limit,
                in_rate > 0,
        ;
        lemma_count_after(one + two, position, in_rate, out_rate, head);
    } else {
        assert(head * in_rate == 0) by (nonlinear_arith)
            requires
                head == 0,
        ;
    }
    let reached = position + head * in_rate;
    assert(all == head + output_count(one + two, reached, in_rate, out_rate));
    assert(next == reached - one * out_rate);
    assert(whole_limit - reached == second_limit - next);
    if next < second_limit {
        lemma_count_bounds(two, next, in_rate, out_rate);
    }
}

/// Before the seam the joined chunk is read as the first chunk is.
pub proof fn lemma_read_before_seam(
    first: Seq<i16>,
    second: Seq<i16>,
    position: int,
    in_rate: int,
    out_rate: int,
    k: int,
)
    requires
        in_rate > 0,
        out_rate > 0,
        position >= 0,
        0 <= k < output_count(first.len() as int, position, in_rate, out_rate),
    ensures
        interpolated(first + second, position + k * in_rate, out_rate) == interpolated(
            first,
            position + k * in_rate,
            out_rate,
        ),
{
    let at = position + k * in_rate;
    lemma_count_after(first.len() as int, position, in_rate, out_rate, k);
    assert(k * in_rate >= 0) by (nonlinear_arith)
        requires
            k >= 0,
            in_rate > 0,
    ;
    lemma_index_in_chunk(first.len() as int, at, out_rate);
    let index = at / out_rate;
    assert((first + second)[index] == first[index]);
    assert((first + second)[index + 1] == first[index + 1]);
}

/// Beyond a clear seam the joined chunk is read as the second chunk is, from
/// the position that was carried over.
pub proof fn lemma_read_after_seam(
    first: Seq<i16>,
    second: Seq<i16>,
    next: int,
    in_rate: int,
    out_rate: int,
    j: int,
)
    requires
        in_rate > 0,
        out_rate > 0,
        next >= 0,
        0 <= j < output_count(second.len() as int, next, in_rate, out_rate),
    ensures
        interpolated(
            first + second,
            next + first.len() * out_rate + j * in_rate,
            out_rate,
        ) == interpolated(second, next + j * in_rate, out_rate),
{
    let one = first.len() as int;
    let there = next + j * in_rate;
    let at = there + one * out_rate;
    lemma_count_after(second.len() as int, next, in_rate, out_rate, j);
    assert(j * in_rate >= 0) by (nonlinear_arith)
        requires
            j >= 0,
            in_rate > 0,
    ;
    lemma_index_in_chunk(second.len() as int, there, out_rate);
    vstd::arithmetic::div_mod::lemma_hoist_over_denominator(there, one, out_rate as nat);
    vstd::arithmetic::div_mod::lemma_mod_multiples_vanish(one, there, out_rate);
    assert(out_rate * one == one * out_rate) by (nonlinear_arith);
    assert(at / out_rate == there / out_rate + one);
    assert(at % out_rate == there % out_rate);
    let index = there / out_rate;
    assert((first + second)[one + index] == second[index]);
    assert((first + second)[one + index + 1] == second[index + 1]);
}

/// A stream cut in two gives what the whole gives, where no output falls
/// between the last sample of the first chunk and the first sample of the
/// second: the outputs of the two chunks, one after the other, are the
/// outputs of the chunks joined, and the position carried on is the same.
pub proof fn lemma_split_is_seamless(
    first: Seq<i16>,
    second: Seq<i16>,
    position: int,
    in_rate: int,
    out_rate: int,
)
    requires
        in_rate > 0,
        out_rate > 0,
        position >= 0,
        first.len() >= 2,
        second.len() >= 2,
        seam_is_clear(first.len() as int, position, in_rate, out_rate),
    ensures
        resampled(first + second, position, in_rate, out_rate) == resampled(
            first,
            position,
            in_rate,
            out_rate,
        ) + resampled(
            second,
            carried(first.len() as int, position, in_rate, out_rate),
            in_rate,
            out_rate,
        ),
        carried((first + second).len() as int, position, in_rate, out_rate) == carried(
            second.len() as int,
            carried(first.len() as int, position, in_rate, out_rate),
            in_rate,
            out_rate,
        ),
{
    let one = first.len() as int;
    let two = second.len() as int;
    let whole = first + second;
    let head = output_count(one, position, in_rate, out_rate);
    let next = carried(one, position, in_rate, out_rate);
    let tail = output_count(two, next, in_rate, out_rate);
    lemma_counts_add_up(one, two, position, in_rate, out_rate);
    assert(whole.len() == one + two);
    let left = resampled(whole, position, in_rate, out_rate);
    let right = resampled(first, position, in_rate, out_rate) + resampled(
        second,
        next,
        in_rate,
        out_rate,
    );
    assert(left.len() == head + tail);
    assert(right.len() == head + tail);
    assert forall|k: int| 0 <= k < head + tail implies left[k] == right[k] by {
        if k < head {
            lemma_read_before_seam(first, second, position, in_rate, out_rate, k);
        } else {
            let j = k - head;
            lemma_read_after_seam(first, second, next, in_rate, out_rate, j);
            assert(position + k * in_rate == next + one * out_rate + j * in_rate)
                by (nonlinear_arith)
                requires
                    k == head + j,
                    next == position + head * in_rate - one * out_rate,
            ;
            assert(right[k] == resampled(second, next, in_rate, out_rate)[j]);
        }
    }
    assert(left =~= right);
    assert(position + (head + tail) * in_rate - (one + two) * out_rate == next + tail * in_rate
        - two * out_rate) by (nonlinear_arith)
        requires
            next == position + head * in_rate - one * out_rate,
    ;
}

impl Clone for LinearResampler {
    /// A second resampler at the same place in its input.
    fn clone(&self) -> (copy: LinearResampler)
        ensures
            copy.in_rate() == self.in_rate(),
            copy.out_rate() == self.out_rate(),
            copy.position() == self.position(),
    {
        proof {
            use_type_invariant(self);
        }
        LinearResampler { in_rate: self.in_rate, out_rate: self.out_rate, pos: self.pos }
    }
}

/// Rounding to the nearest integer goes by the remainder: the quotient is
/// one more where twice the remainder reaches the divisor.
pub proof fn lemma_nearest_by_remainder(n: int, d: int)
    requires
        n >= 0,
        d > 0,
    ensures
        to_nearest(n, d) == n / d + if 2 * (n % d) >= d {
            1int
        } else {
            0int
        },
{
    let q = n / d;
    let r = n % d;
    vstd::arithmetic::div_mod::lemma_fundamental_div_mod(n, d);
    assert(d * q == q * d) by (nonlinear_arith);
    if 2 * r >= d {
        assert(2 * n + d == (q + 1) * (2 * d) + (2 * r - d)) by (nonlinear_arith)
            requires
                n == q * d + r,
        ;
        vstd::arithmetic::div_mod::lemma_fundamental_div_mod_converse(
            2 * n + d,
            2 * d,
            q + 1,
            2 * r - d,
        );
    } else {
        assert(2 * n + d == q * (2 * d) + (2 * r + d)) by (nonlinear_arith)
            requires
                n == q * d + r,
        ;
        vstd::arithmetic::div_mod::lemma_fundamental_div_mod_converse(
            2 * n + d,
            2 * d,
            q,
            2 * r + d,
        );
    }
}

/// Divides and rounds to the nearest integer, a half away from zero.
pub fn round_div(a: i64, d: i64) -> (q: i64)
    requires
        d > 0,
    ensures
        q == to_nearest(a as int, d as int),
{
    let whole: i64 = a / d;
    let rest: i64 = a % d;
    if a >= 0 {
        proof {
            lemma_nearest_by_remainder(a as int, d as int);
            vstd::arithmetic::div_mod::lemma_fundamental_div_mod(a as int, d as int);
            assert(whole < i64::MAX || rest == 0) by (nonlinear_arith)
                requires
                    a == d * whole + rest,
                    0 <= rest < d,
                    a <= i64::MAX,
                    whole >= 0,
            ;
        }
        if rest >= d - rest {
            whole + 1
        } else {
            whole
        }
    } else {
        proof {
            let n = -(a as int);
            lemma_nearest_by_remainder(n, d as int);
            vstd::arithmetic::div_mod::lemma_fundamental_div_mod(n, d as int);
            let parts = n / d as int;
            let left = n % d as int;
            assert(whole == -parts);
            assert(rest == -left);
            assert(parts <= i64::MAX || left == 0) by (nonlinear_arith)
                requires
                    n == d * parts + left,
                    0 <= left,
                    left < d,
                    n <= i64::MAX + 1,
                    parts >= 0,
            ;
        }
        if -rest >= d + rest {
            whole - 1
        } else {
            whole
        }
    }
}

} // verus!
