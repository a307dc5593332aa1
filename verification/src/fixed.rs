//! Arithmetic on fractions held as integers.
//!
//! A gain, a smoothing factor or a level is a count of millionths: 1.0 is
//! [`UNIT`]. Samples are signed sixteen-bit integers; a level of 1.0 is the
//! sample [`FULL_SCALE`].

use vstd::prelude::*;

verus! {

/// One, counted in millionths.
pub const UNIT: u32 = 1_000_000;

/// The sample that stands for the level 1.0.
pub const FULL_SCALE: u32 = 32767;

/// The quotient of `a` by `d`, rounded toward zero.
pub open spec fn toward_zero(a: int, d: int) -> int
    recommends
        d > 0,
{
    if a >= 0 {
        a / d
    } else {
        -((-a) / d)
    }
}

/// The quotient of `a` by `d`, rounded to the nearest integer, a half away
/// from zero.
pub open spec fn to_nearest(a: int, d: int) -> int
    recommends
        d > 0,
{
    if a >= 0 {
        (2 * a + d) / (2 * d)
    } else {
        -((2 * (-a) + d) / (2 * d))
    }
}

/// `v` held to the range of a sample.
pub open spec fn saturated(v: int) -> i16 {
    if v < -32768 {
        -32768i16
    } else if v > 32767 {
        32767i16
    } else {
        v as i16
    }
}

/// The magnitude of a number.
pub open spec fn magnitude(v: int) -> int {
    if v < 0 {
        -v
    } else {
        v
    }
}

/// Whether `r` is the integer part of the square root of `m`.
pub open spec fn is_floor_sqrt(r: nat, m: nat) -> bool {
    r * r <= m < (r + 1) * (r + 1)
}

/// The integer part of the square root of `m`.
pub open spec fn floor_sqrt(m: nat) -> nat {
    choose|r: nat| is_floor_sqrt(r, m)
}

/// Two integers whose squares enclose the same number are one.
pub proof fn lemma_sqrt_unique(m: nat, r: nat, s: nat)
    requires
        r * r <= m < (r + 1) * (r + 1),
        s * s <= m < (s + 1) * (s + 1),
    ensures
        r == s,
{
    if r < s {
        assert((r + 1) * (r + 1) <= s * s) by (nonlinear_arith)
            requires
                r + 1 <= s,
        ;
    } else if s < r {
        assert((s + 1) * (s + 1) <= r * r) by (nonlinear_arith)
            requires
                s + 1 <= r,
        ;
    }
}

/// Holds a number to the range of a sample.
pub fn saturate(v: i64) -> (s: i16)
    ensures
        s == saturated(v as int),
{
    if v < -32768 {
        -32768
    } else if v > 32767 {
        32767
    } else {
        v as i16
    }
}

/// Divides and rounds down.
pub fn floor_div(a: i64, d: i64) -> (q: i64)
    requires
        d > 0,
    ensures
        q == a as int / d as int,
{
    if a >= 0 {
        a / d
    } else {
        let q: i64 = a / d;
        let r: i64 = a % d;
        proof {
            let n = -(a as int);
            vstd::arithmetic::div_mod::lemma_fundamental_div_mod(n, d as int);
            assert(q == -(n / d as int));
            assert(r == -(n % d as int));
            assert(d as int * (n / d as int) == (n / d as int) * d as int) by (nonlinear_arith);
            if r == 0 {
                assert(a as int == q * d + 0) by (nonlinear_arith)
                    requires
                        n == (n / d as int) * d as int,
                        q == -(n / d as int),
                        n == -(a as int),
                ;
                vstd::arithmetic::div_mod::lemma_fundamental_div_mod_converse(
                    a as int,
                    d as int,
                    q as int,
                    0,
                );
            } else {
                assert(d >= 2) by {
                    if d == 1 {
                        assert(n % 1 == 0);
                    }
                }
                assert(n / d as int <= 0x4000_0000_0000_0000) by (nonlinear_arith)
                    requires
                        n == d as int * (n / d as int) + (n % d as int),
                        d >= 2,
                        n % d as int >= 0,
                        n <= 0x8000_0000_0000_0000,
                ;
                assert(a as int == (q - 1) * d + (d + r)) by (nonlinear_arith)
                    requires
                        n == (n / d as int) * d as int + (n % d as int),
                        q == -(n / d as int),
                        r == -(n % d as int),
                        n == -(a as int),
                ;
                vstd::arithmetic::div_mod::lemma_fundamental_div_mod_converse(
                    a as int,
                    d as int,
                    q - 1,
                    d + r,
                );
            }
        }
        if r == 0 {
            q
        } else {
            q - 1
        }
    }
}

/// Computes the integer part of a square root.
pub fn isqrt(m: u64) -> (r: u64)
    ensures
        r == floor_sqrt(m as nat),
        r * r <= m < (r + 1) * (r + 1),
        r < 0x1_0000_0000,
{
    let mut low: u64 = 0;
    let mut high: u64 = 0x1_0000_0000;
    assert(high * high > m) by (nonlinear_arith)
        requires
            high == 0x1_0000_0000,
            m <= u64::MAX,
    ;
    while high - low > 1
        invariant
            low < high <= 0x1_0000_0000,
            low * low <= m < high * high,
        decreases high - low,
    {
        let middle: u64 = low + (high - low) / 2;
        assert(middle * middle <= 0xFFFF_FFFF * 0xFFFF_FFFF) by (nonlinear_arith)
            requires
                middle <= 0xFFFF_FFFF,
        ;
        if middle * middle <= m {
            low = middle;
        } else {
            high = middle;
        }
    }
    proof {
        let root = low as nat;
        assert(is_floor_sqrt(root, m as nat));
        lemma_sqrt_unique(m as nat, root, floor_sqrt(m as nat));
    }
    low
}

} // verus!
