//! The Q24.8 fixed-point scalar and its render-boundary conversion.
//!
//! A `FixP` is a signed 32-bit integer read as a binary fraction with 8
//! fractional bits: 256 units are one whole pixel.  The simulation never
//! leaves integer arithmetic; only at the render boundary is a value
//! converted for display, by constructing the IEEE-754 single-precision
//! bit pattern of `value / 256` directly from exponent and mantissa.
//! The caller reinterprets the returned bits as a 32-bit float.

use vstd::prelude::*;

verus! {

use vstd::math::abs;
use vstd::arithmetic::power2::pow2;
use vstd::arithmetic::power2::{
    lemma_pow2_adds, lemma_pow2_strictly_increases, lemma_pow2_pos, lemma2_to64,
};
use vstd::arithmetic::div_mod::{
    lemma_fundamental_div_mod_converse_div, lemma_fundamental_div_mod_converse_mod,
};

/// A Q24.8 fixed-point scalar: 256 units per pixel.
#[derive(Clone, Copy, PartialEq, Eq, Structural, Debug)]
pub struct FixP(pub i32);

/// Floor of the base-two logarithm: the index of the highest set bit.
pub open spec fn log2_floor(n: nat) -> nat
    decreases n,
{
    if n < 2 {
        0
    } else {
        1 + log2_floor(n / 2)
    }
}

/// `pow2(log2_floor(n)) <= n < pow2(log2_floor(n) + 1)` for positive `n`.
pub proof fn lemma_log2_floor_bounds(n: nat)
    requires
        n >= 1,
    ensures
        pow2(log2_floor(n)) <= n < pow2(log2_floor(n) + 1),
    decreases n,
{
    lemma2_to64();
    if n < 2 {
    } else {
        lemma_log2_floor_bounds(n / 2);
        let e = log2_floor(n / 2);
        lemma_pow2_adds(e, 1);
        lemma_pow2_adds(e + 1, 1);
        assert(n == 2 * (n / 2) + n % 2);
    }
}

/// `log2_floor` never decreases when its argument grows.
pub proof fn lemma_log2_floor_mono(a: nat, b: nat)
    requires
        a <= b,
    ensures
        log2_floor(a) <= log2_floor(b),
    decreases b,
{
    if b < 2 {
    } else if a < 2 {
    } else {
        lemma_log2_floor_mono(a / 2, b / 2);
    }
}

/// The IEEE-754 single-precision bit pattern denoting `v / 256`, built
/// from sign, biased exponent and 23-bit mantissa.  The exponent bias of
/// 127 is lowered by the 8 fractional bits of the Q24.8 format.  Truncation
/// of mantissa bits occurs only for magnitudes of 2^24 and above.
pub open spec fn display_bits(v: int) -> int {
    if v == 0 {
        0
    } else {
        let m = abs(v);
        let e = log2_floor(m);
        let frac = m - pow2(e);
        let mant = if e >= 23 {
            frac / pow2((e - 23) as nat) as int
        } else {
            frac * pow2((23 - e) as nat)
        };
        mant + (e + 119) * 0x80_0000 + if v < 0 {
            0x8000_0000int
        } else {
            0
        }
    }
}

/// 2^k as a `u32`.
fn pow2_u32(k: u32) -> (r: u32)
    requires
        k <= 31,
    ensures
        r == pow2(k as nat),
{
    let mut i: u32 = 0;
    let mut p: u32 = 1;
    proof {
        lemma2_to64();
    }
    while i < k
        invariant
            i <= k <= 31,
            p == pow2(i as nat),
        decreases k - i,
    {
        proof {
            lemma2_to64();
            lemma_pow2_adds(i as nat, 1);
            lemma_pow2_strictly_increases(i as nat + 1, 32);
        }
        p = p * 2;
        i = i + 1;
    }
    p
}

impl FixP {
    /// The IEEE-754 single-precision bit pattern of this value divided by
    /// 256, for display at the render boundary.  Zero maps to the exact
    /// positive zero; otherwise the highest set bit of the magnitude is
    /// located by scanning, the 23 mantissa bits below it are aligned into
    /// place, and sign, biased exponent and mantissa are composed.  The
    /// most negative value is left out: its negation overflows.
    pub fn to_display_bits(self) -> (r: u32)
        requires
            self.0 != i32::MIN,
        ensures
            r == display_bits(self.0 as int),
    {
        if self.0 == 0 {
            return 0;
        }
        let neg = self.0 < 0;
        let m: u32 = abs_u32_of(self.0);
        // Find the index of the leading one.
        let mut e: u32 = 0;
        let mut p: u32 = 1;
        proof {
            lemma2_to64();
        }
        while p <= m / 2
            invariant
                1 <= m < 0x8000_0000u32,
                p == pow2(e as nat),
                p <= m,
                e <= 31,
            decreases m - p,
        {
            proof {
                lemma2_to64();
                lemma_pow2_adds(e as nat, 1);
                if e as nat + 1 >= 32 {
                    lemma_pow2_strictly_increases(31, e as nat + 1);
                }
                assert(pow2((e + 1) as nat) <= m);
            }
            p = p * 2;
            e = e + 1;
        }
        proof {
            assert(m < 2 * p);
            lemma2_to64();
            lemma_pow2_adds(e as nat, 1);
            lemma_log2_uniq(m as nat, e as nat);
        }
        // Extract the mantissa bits below the leading one.
        let frac: u32 = m - p;
        let mant: u32 = mantissa_of(frac, e);
        let exp_field: u32 = e + 119;
        let sign_bit: u32 = if neg {
            0x8000_0000u32
        } else {
            0
        };
        mant + exp_field * 0x80_0000 + sign_bit
    }
}

/// The 23-bit mantissa field: the bits of `frac` below the leading one at
/// index `e`, shifted so the highest of them lands at bit 22.
fn mantissa_of(frac: u32, e: u32) -> (r: u32)
    requires
        e <= 31,
        frac < pow2(e as nat),
    ensures
        r < 0x80_0000,
        e >= 23 ==> r == frac as int / pow2((e - 23) as nat) as int,
        e < 23 ==> r == frac * pow2((23 - e) as nat),
{
    proof {
        lemma2_to64();
    }
    if e >= 23 {
        let d = pow2_u32(e - 23);
        proof {
            lemma_pow2_pos((e - 23) as nat);
            lemma_pow2_adds((e - 23) as nat, 23);
            lemma_div_frac_bound(frac as int, pow2((e - 23) as nat) as int, pow2(23) as int);
        }
        frac / d
    } else {
        let s = pow2_u32(23 - e);
        proof {
            lemma_pow2_pos((23 - e) as nat);
            lemma_pow2_adds(e as nat, (23 - e) as nat);
            assert(frac * s < 0x80_0000) by (nonlinear_arith)
                requires
                    0 <= frac,
                    frac < pow2(e as nat),
                    s == pow2((23 - e) as nat),
                    s >= 1,
                    pow2(e as nat) * pow2((23 - e) as nat) == 0x80_0000,
            ;
        }
        frac * s
    }
}

/// Q24.8 fixed-point multiply: `a * b / 256` with truncation toward zero,
/// computed in a 64-bit intermediate so the full product never wraps.  The
/// caller guarantees the final quotient fits back into 32 bits; for the
/// value ranges of this simulation it always does.
pub fn fix_mul(a: i32, b: i32) -> (r: i32)
    requires
        i32::MIN <= crate::arith::div_tz(a as int * b as int, 256) <= i32::MAX,
    ensures
        r == crate::arith::div_tz(a as int * b as int, 256),
{
    proof {
        assert(-0x4000_0000_0000_0000 <= (a as int) * (b as int)
            <= 0x4000_0000_0000_0000) by (nonlinear_arith)
            requires
                -0x8000_0000 <= a < 0x8000_0000,
                -0x8000_0000 <= b < 0x8000_0000,
        ;
    }
    let p: i64 = (a as i64) * (b as i64);
    let q: i64 = crate::arith::div_i64_tz(p, 256);
    q as i32
}

/// Magnitude of a non-minimal `i32` as a `u32`.
fn abs_u32_of(x: i32) -> (r: u32)
    requires
        x != i32::MIN,
    ensures
        r == abs(x as int),
{
    if x < 0 {
        (-x) as u32
    } else {
        x as u32
    }
}

/// `log2_floor` is the unique `e` with `pow2(e) <= n < pow2(e + 1)`.
proof fn lemma_log2_uniq(n: nat, e: nat)
    requires
        pow2(e) <= n < pow2(e + 1),
    ensures
        log2_floor(n) == e,
{
    lemma_pow2_pos(e);
    lemma_log2_floor_bounds(n);
    let f = log2_floor(n);
    if f < e {
        if f + 1 < e {
            lemma_pow2_strictly_increases(f + 1, e);
        }
        assert(pow2(f + 1) <= pow2(e));
    }
    if f > e {
        if e + 1 < f {
            lemma_pow2_strictly_increases(e + 1, f);
        }
        assert(pow2(e + 1) <= pow2(f));
    }
}

/// `x < d * c` implies `x / d < c` for positive `d`.
proof fn lemma_div_frac_bound(x: int, d: int, c: int)
    requires
        0 <= x,
        0 < d,
        0 < c,
        x < d * c,
    ensures
        0 <= x / d < c,
{
    vstd::arithmetic::div_mod::lemma_div_pos_is_pos(x, d);
    if x / d >= c {
        vstd::arithmetic::div_mod::lemma_fundamental_div_mod(x, d);
        assert(x == d * (x / d) + x % d);
        vstd::arithmetic::mul::lemma_mul_inequality(c, x / d, d);
        assert(d * c <= d * (x / d)) by (nonlinear_arith)
            requires
                c <= x / d,
                0 < d,
        ;
    }
}

/// For magnitudes below 2^24 the display pattern is exact: its significand
/// and exponent denote precisely `v / 256`, with no mantissa bit lost.
/// Decoding the pattern of a positive `v` gives the exponent field
/// `log2_floor(v) + 119` and a significand that satisfies
/// `(2^23 + mantissa) * 2^log2_floor(v) == v * 2^23`.
pub proof fn lemma_display_bits_exact(v: int)
    requires
        1 <= v < 0x100_0000,
    ensures
        display_bits(v) / 0x80_0000 == log2_floor(v as nat) + 119,
        (0x80_0000 + display_bits(v) % 0x80_0000) * pow2(log2_floor(v as nat)) == v * 0x80_0000,
        display_bits(-v) == display_bits(v) + 0x8000_0000,
{
    let m = v as nat;
    assert(abs(v) == m);
    let e = log2_floor(m);
    lemma2_to64();
    lemma_log2_floor_bounds(m);
    lemma_log2_floor_mono(m, 0xFF_FFFF);
    lemma_log2_uniq(0xFF_FFFF, 23);
    assert(e <= 23);
    let frac = v - pow2(e);
    let mant = frac * pow2((23 - e) as nat);
    if e == 23 {
        vstd::arithmetic::div_mod::lemma_div_basics(frac);
        assert(mant == frac) by (nonlinear_arith)
            requires
                mant == frac * pow2((23 - e) as nat),
                e == 23,
                pow2(0) == 1,
        ;
        assert(display_bits(v) == mant + (e + 119) * 0x80_0000);
    }
    // mant < 2^23, so the mantissa and exponent fields decode separately.
    lemma_pow2_adds(e, (23 - e) as nat);
    assert(frac < pow2(e)) by {
        lemma_pow2_adds(e, 1);
    }
    assert(mant < pow2(e) * pow2((23 - e) as nat)) by (nonlinear_arith)
        requires
            0 <= frac < pow2(e),
            0 < pow2((23 - e) as nat),
            mant == frac * pow2((23 - e) as nat),
    ;
    assert(0 <= mant);
    assert(display_bits(v) == mant + (e + 119) * 0x80_0000);
    lemma_fundamental_div_mod_converse_div(display_bits(v), 0x80_0000, e as int + 119, mant);
    lemma_fundamental_div_mod_converse_mod(display_bits(v), 0x80_0000, e as int + 119, mant);
    // (2^23 + frac * 2^(23-e)) * 2^e == (2^e + frac) * 2^23 == v * 2^23.
    assert((0x80_0000 + mant) * pow2(e) == pow2(e) * pow2(23) + (frac * pow2((23 - e) as nat))
        * pow2(e)) by (nonlinear_arith)
        requires
            mant == frac * pow2((23 - e) as nat),
            pow2(23) == 0x80_0000,
    ;
    lemma_pow2_adds((23 - e) as nat, e);
    assert((frac * pow2((23 - e) as nat)) * pow2(e) == frac * pow2(23)) by (nonlinear_arith)
        requires
            pow2((23 - e) as nat) * pow2(e) == pow2(23),
    ;
    assert(pow2(e) * pow2(23) + frac * pow2(23) == (pow2(e) + frac) * pow2(23)) by (nonlinear_arith);
    assert(pow2(e) + frac == v);
}

} // verus!
