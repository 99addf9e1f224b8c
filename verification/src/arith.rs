//! Small integer helpers shared by the physics core: sign and absolute
//! value, truncating (round-toward-zero) division as Rust's `/` computes
//! it, and an integer square root.  Everything here is exact integer math.

use vstd::prelude::*;

verus! {

use vstd::math::abs;
use vstd::arithmetic::div_mod::{lemma_div_is_ordered, lemma_div_pos_is_pos, lemma_div_nonincreasing};

/// Sign of an integer: -1, 0 or +1.
pub open spec fn sgn(x: int) -> int {
    if x > 0 {
        1
    } else if x < 0 {
        -1
    } else {
        0
    }
}

/// Truncating division (round toward zero), the semantics of Rust's `/` on
/// signed integers.  Defined for `b != 0` via Euclidean division of the
/// magnitudes.
pub open spec fn div_tz(a: int, b: int) -> int {
    let q = (abs(a) as int) / (abs(b) as int);
    if (a < 0) != (b < 0) {
        -q
    } else {
        q
    }
}

/// The magnitude of a truncating quotient never exceeds the magnitude of
/// the dividend, and its sign follows the signs of the operands.
pub proof fn lemma_div_tz_abs_le(a: int, b: int)
    requires
        b != 0,
    ensures
        abs(div_tz(a, b)) <= abs(a),
        a == 0 ==> div_tz(a, b) == 0,
        a > 0 && b > 0 ==> div_tz(a, b) >= 0,
        a < 0 && b > 0 ==> div_tz(a, b) <= 0,
{
    let q = (abs(a) as int) / (abs(b) as int);
    lemma_div_pos_is_pos(abs(a) as int, abs(b) as int);
    lemma_div_nonincreasing(abs(a) as int, abs(b) as int);
    assert(0 <= q <= abs(a));
    if a == 0 {
        vstd::arithmetic::div_mod::lemma_div_of0(abs(b) as int);
    }
}

/// Dividing a smaller magnitude by the same divisor gives a no-larger
/// quotient magnitude.
pub proof fn lemma_div_tz_mono_abs(a1: int, a2: int, b: int)
    requires
        b != 0,
        abs(a1) <= abs(a2),
    ensures
        abs(div_tz(a1, b)) <= abs(div_tz(a2, b)),
{
    lemma_div_pos_is_pos(abs(a1) as int, abs(b) as int);
    lemma_div_pos_is_pos(abs(a2) as int, abs(b) as int);
    lemma_div_is_ordered(abs(a1) as int, abs(a2) as int, abs(b) as int);
}

/// Absolute value of an `i32`, defined away from the most negative value
/// whose negation would overflow.
pub fn abs_i32(x: i32) -> (r: i32)
    requires
        x != i32::MIN,
    ensures
        r == abs(x as int),
{
    if x < 0 {
        -x
    } else {
        x
    }
}

/// Sign of an `i32`.
pub fn sign_i32(x: i32) -> (r: i32)
    ensures
        r == sgn(x as int),
{
    if x > 0 {
        1
    } else if x < 0 {
        -1
    } else {
        0
    }
}

/// Truncating division on `i32`, the behaviour of Rust's `/`.
pub fn div_i32_tz(a: i32, b: i32) -> (r: i32)
    requires
        b != 0,
        a != i32::MIN,
    ensures
        r == div_tz(a as int, b as int),
        abs(r as int) <= abs(a as int),
{
    let ua: u32 = abs_i32(a) as u32;
    let ub: u32 = if b == i32::MIN {
        0x8000_0000u32
    } else {
        abs_i32(b) as u32
    };
    let q: u32 = ua / ub;
    proof {
        lemma_div_nonincreasing(ua as int, ub as int);
        lemma_div_pos_is_pos(ua as int, ub as int);
        lemma_div_tz_abs_le(a as int, b as int);
    }
    if (a < 0) != (b < 0) {
        -(q as i32)
    } else {
        q as i32
    }
}

/// Truncating division on `i64`, the behaviour of Rust's `/`.
pub fn div_i64_tz(a: i64, b: i64) -> (r: i64)
    requires
        b != 0,
        a != i64::MIN,
    ensures
        r == div_tz(a as int, b as int),
        abs(r as int) <= abs(a as int),
{
    let ua: u64 = if a < 0 {
        (-a) as u64
    } else {
        a as u64
    };
    let ub: u64 = if b == i64::MIN {
        0x8000_0000_0000_0000u64
    } else if b < 0 {
        (-b) as u64
    } else {
        b as u64
    };
    let q: u64 = ua / ub;
    proof {
        lemma_div_nonincreasing(ua as int, ub as int);
        lemma_div_pos_is_pos(ua as int, ub as int);
        lemma_div_tz_abs_le(a as int, b as int);
    }
    if (a < 0) != (b < 0) {
        -(q as i64)
    } else {
        q as i64
    }
}

/// `r` is the integer square root of `n`.
pub open spec fn is_isqrt(n: int, r: int) -> bool {
    0 <= r && r * r <= n && n < (r + 1) * (r + 1)
}

/// Integer square root by binary search: the largest `r` with `r * r <= n`.
pub fn isqrt_u64(n: u64) -> (r: u64)
    ensures
        is_isqrt(n as int, r as int),
{
    let mut lo: u64 = 0;
    let mut hi: u64 = 0x1_0000_0000u64;
    while hi - lo > 1
        invariant
            lo < hi <= 0x1_0000_0000u64,
            lo * lo <= n,
            n < hi * hi,
        decreases hi - lo,
    {
        let mid: u64 = lo + (hi - lo) / 2;
        proof {
            assert(mid * mid < 0x1_0000_0000_0000_0000) by (nonlinear_arith)
                requires
                    0 <= mid < 0x1_0000_0000,
            ;
        }
        if mid * mid <= n {
            lo = mid;
        } else {
            hi = mid;
        }
    }
    lo
}

} // verus!
