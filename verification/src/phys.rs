//! Vectors, axis-aligned boxes and the axis-gap queries of the physics
//! core.  All coordinates are Q24.8 fixed-point subpixel units: 256
//! subpixel units per pixel, 16 pixels per tile.
//!
//! Boxes use an inclusive-extent convention: `right` and `top` are the
//! last occupied subpixel, one below `position + size`.  Two boxes touch
//! with a gap of one unit rather than sharing an edge, which is what lets
//! the resolver settle bodies one unit short of contact.

use vstd::prelude::*;

verus! {

use vstd::math::abs;
use crate::arith::{div_tz, sgn, is_isqrt, div_i32_tz, isqrt_u64};
use crate::fixp::fix_mul;

/// Fixed physics rate: simulation ticks per second.
pub const PHYS_FPS: i32 = 120;

/// A 2D vector of Q24.8 fixed-point scalars.
#[derive(Clone, Copy, PartialEq, Eq, Structural, Debug)]
pub struct PhysVec {
    pub x: i32,
    pub y: i32,
}

/// Tag for an obstacle that may be displaced by a collision instead of
/// blocking; presence or absence is the whole contract.
#[derive(Clone, Copy, PartialEq, Eq, Structural, Debug)]
pub struct Pushable {}

/// An axis-aligned box: position and size, both in subpixel units.
/// Sizes are at least one subpixel; degenerate boxes are left undefined.
#[derive(Clone, Copy, PartialEq, Eq, Structural, Debug)]
pub struct PhysAABB {
    pub pos: PhysVec,
    pub size: PhysVec,
}

/// Per-entity snapshot of the box position at the start of a fixed tick,
/// used only for render-time interpolation, never fed back into the
/// simulation.
#[derive(Clone, Copy, PartialEq, Eq, Structural, Debug)]
pub struct PhysLerpPos {
    pub pos: PhysVec,
}

/// The zero vector.
pub fn zero() -> (r: PhysVec)
    ensures
        r.x == 0 && r.y == 0,
{
    PhysVec { x: 0, y: 0 }
}

/// A vector from its components.
pub fn vec(x: i32, y: i32) -> (r: PhysVec)
    ensures
        r.x == x && r.y == y,
{
    PhysVec { x, y }
}

impl PhysVec {
    /// Componentwise sum.
    pub fn add(self, rhs: PhysVec) -> (r: PhysVec)
        requires
            i32::MIN <= self.x + rhs.x <= i32::MAX,
            i32::MIN <= self.y + rhs.y <= i32::MAX,
        ensures
            r.x == self.x + rhs.x,
            r.y == self.y + rhs.y,
    {
        PhysVec { x: self.x + rhs.x, y: self.y + rhs.y }
    }

    /// Componentwise fixed-point scalar multiply: each component becomes
    /// `component * rhs / 256`.
    pub fn scale(self, rhs: i32) -> (r: PhysVec)
        requires
            i32::MIN <= div_tz(self.x as int * rhs as int, 256) <= i32::MAX,
            i32::MIN <= div_tz(self.y as int * rhs as int, 256) <= i32::MAX,
        ensures
            r.x == div_tz(self.x as int * rhs as int, 256),
            r.y == div_tz(self.y as int * rhs as int, 256),
    {
        PhysVec { x: fix_mul(self.x, rhs), y: fix_mul(self.y, rhs) }
    }

    /// Componentwise integer division, truncating toward zero.
    pub fn div(self, rhs: i32) -> (r: PhysVec)
        requires
            rhs != 0,
            self.x != i32::MIN,
            self.y != i32::MIN,
        ensures
            r.x == div_tz(self.x as int, rhs as int),
            r.y == div_tz(self.y as int, rhs as int),
    {
        PhysVec { x: div_i32_tz(self.x, rhs), y: div_i32_tz(self.y, rhs) }
    }

    /// Clamp the vector's length to `len`: if the squared length exceeds
    /// `len * len`, rescale by `len / sqrt(squared length)`.  Squares are
    /// taken in 64-bit intermediates, which cannot overflow for any
    /// non-minimal components, and the square root is the exact integer
    /// root of the squared length.  A zero root leaves the vector
    /// unchanged.
    pub fn clamp_length(&mut self, len: i32)
        requires
            old(self).x != i32::MIN,
            old(self).y != i32::MIN,
            len >= 0,
        ensures
            ({
                let t = old(self).x * old(self).x + old(self).y * old(self).y;
                if t <= len * len {
                    *final(self) == *old(self)
                } else {
                    exists|s: int|
                        is_isqrt(t, s) && s >= 1 && final(self).x == div_tz(old(self).x * len, s)
                            && final(self).y == div_tz(old(self).y * len, s)
                }
            }),
    {
        let x64: i64 = self.x as i64;
        let y64: i64 = self.y as i64;
        proof {
            assert(x64 * x64 + y64 * y64 < 0x8000_0000_0000_0000
                && x64 * x64 >= 0 && y64 * y64 >= 0) by (nonlinear_arith)
                requires
                    -0x8000_0000 < x64 < 0x8000_0000,
                    -0x8000_0000 < y64 < 0x8000_0000,
            ;
        }
        let test: i64 = x64 * x64 + y64 * y64;
        let len64: i64 = len as i64;
        proof {
            assert(len64 * len64 < 0x8000_0000_0000_0000) by (nonlinear_arith)
                requires
                    0 <= len64 < 0x8000_0000,
            ;
        }
        proof {
            assert(len64 * len64 >= 0) by (nonlinear_arith);
        }
        if test > len64 * len64 {
            let sq_u: u64 = isqrt_u64(test as u64);
            proof {
                assert(sq_u < 0x8000_0000_0000_0000u64) by (nonlinear_arith)
                    requires
                        sq_u * sq_u <= test as u64,
                        test < 0x8000_0000_0000_0000,
                ;
                assert(test as u64 == test);
                if sq_u == 0 {
                    assert((0int + 1) * (0int + 1) == 1) by (nonlinear_arith);
                    assert(test < 1);
                }
            }
            let sqrt: i64 = sq_u as i64;
            if sqrt != 0 {
                proof {
                    lemma_component_le_isqrt(x64 as int, y64 as int, sqrt as int);
                    assert(x64 * len64 <= 0x4000_0000_0000_0000
                        && x64 * len64 >= -0x4000_0000_0000_0000
                        && y64 * len64 <= 0x4000_0000_0000_0000
                        && y64 * len64 >= -0x4000_0000_0000_0000) by (nonlinear_arith)
                        requires
                            -0x8000_0000 < x64 < 0x8000_0000,
                            -0x8000_0000 < y64 < 0x8000_0000,
                            0 <= len64 < 0x8000_0000,
                    ;
                }
                let sx: i64 = crate::arith::div_i64_tz(x64 * len64, sqrt);
                let sy: i64 = crate::arith::div_i64_tz(y64 * len64, sqrt);
                proof {
                    lemma_scaled_fits(x64 as int, len64 as int, sqrt as int);
                    lemma_scaled_fits(y64 as int, len64 as int, sqrt as int);
                }
                self.x = sx as i32;
                self.y = sy as i32;
                proof {
                    assert(is_isqrt(
                        old(self).x * old(self).x + old(self).y * old(self).y,
                        sqrt as int,
                    ));
                }
            }
        }
    }
}

/// A component whose square is within `s * s + ...` is at most `s` in
/// magnitude, where `s` is the integer root of the squared length.
proof fn lemma_component_le_isqrt(x: int, y: int, s: int)
    requires
        is_isqrt(x * x + y * y, s),
    ensures
        abs(x) <= s,
        abs(y) <= s,
{
    let t = x * x + y * y;
    assert(abs(x) <= s && abs(y) <= s) by (nonlinear_arith)
        requires
            0 <= s,
            s * s <= t,
            t < (s + 1) * (s + 1),
            t == x * x + y * y,
    ;
}

/// `|x| <= s` implies the rescaled component `x * len / s` stays within
/// `len`, hence within `i32` range.
proof fn lemma_scaled_fits(x: int, len: int, s: int)
    requires
        s >= 1,
        len >= 0,
        abs(x) <= s,
    ensures
        abs(div_tz(x * len, s)) <= len,
{
    crate::arith::lemma_div_tz_abs_le(x * len, s);
    let p = x * len;
    assert(abs(p) <= s * len) by (nonlinear_arith)
        requires
            abs(x) <= s,
            len >= 0,
            p == x * len,
    ;
    let q = (abs(p) as int) / s;
    assert(q <= (s * len) / s) by {
        vstd::arithmetic::div_mod::lemma_div_is_ordered(abs(p) as int, s * len, s);
    }
    assert((s * len) / s == len) by {
        vstd::arithmetic::div_mod::lemma_div_multiples_vanish(len, s);
    }
    vstd::arithmetic::div_mod::lemma_div_pos_is_pos(abs(p) as int, s);
}

impl PhysAABB {
    /// First occupied subpixel row.
    pub open spec fn bottom_spec(self) -> int {
        self.pos.y as int
    }

    /// Last occupied subpixel row.
    pub open spec fn top_spec(self) -> int {
        self.pos.y + self.size.y - 1
    }

    /// First occupied subpixel column.
    pub open spec fn left_spec(self) -> int {
        self.pos.x as int
    }

    /// Last occupied subpixel column.
    pub open spec fn right_spec(self) -> int {
        self.pos.x + self.size.x - 1
    }

    /// First occupied subpixel row.
    pub fn bottom(&self) -> (r: i32)
        ensures
            r == self.bottom_spec(),
    {
        self.pos.y
    }

    /// Last occupied subpixel row.
    pub fn top(&self) -> (r: i32)
        requires
            i32::MIN + 1 <= self.pos.y + self.size.y <= i32::MAX,
        ensures
            r == self.top_spec(),
    {
        self.pos.y + self.size.y - 1
    }

    /// First occupied subpixel column.
    pub fn left(&self) -> (r: i32)
        ensures
            r == self.left_spec(),
    {
        self.pos.x
    }

    /// Last occupied subpixel column.
    pub fn right(&self) -> (r: i32)
        requires
            i32::MIN + 1 <= self.pos.x + self.size.x <= i32::MAX,
        ensures
            r == self.right_spec(),
    {
        self.pos.x + self.size.x - 1
    }
}

/// The box has sizes of at least one subpixel and both corners within
/// `[-w, w]` on both axes.
pub open spec fn aabb_in(a: PhysAABB, w: int) -> bool {
    &&& 1 <= a.size.x
    &&& 1 <= a.size.y
    &&& -w <= a.pos.x
    &&& a.pos.x + a.size.x <= w
    &&& -w <= a.pos.y
    &&& a.pos.y + a.size.y <= w
}

/// A box from position and size given directly in subpixel units.
pub fn aabb_subpx(x: i32, y: i32, width: i32, height: i32) -> (r: PhysAABB)
    ensures
        r.pos.x == x && r.pos.y == y && r.size.x == width && r.size.y == height,
{
    PhysAABB { pos: PhysVec { x, y }, size: PhysVec { x: width, y: height } }
}

/// A box from position and size in whole tiles: one tile is 16 pixels of
/// 256 subpixel units each.
pub fn aabb_tiles(x: i32, y: i32, width: i32, height: i32) -> (r: PhysAABB)
    requires
        -0x2_0000 <= x <= 0x2_0000,
        -0x2_0000 <= y <= 0x2_0000,
        -0x2_0000 <= width <= 0x2_0000,
        -0x2_0000 <= height <= 0x2_0000,
    ensures
        r.pos.x == x * 4096 && r.pos.y == y * 4096,
        r.size.x == width * 4096 && r.size.y == height * 4096,
{
    let mul: i32 = 256 * 16;
    aabb_subpx(x * mul, y * mul, width * mul, height * mul)
}

/// The boxes occupy disjoint column ranges.
pub open spec fn x_separated(a: PhysAABB, b: PhysAABB) -> bool {
    a.right_spec() < b.left_spec() || b.right_spec() < a.left_spec()
}

/// The boxes occupy disjoint row ranges.
pub open spec fn y_separated(a: PhysAABB, b: PhysAABB) -> bool {
    a.top_spec() < b.bottom_spec() || b.top_spec() < a.bottom_spec()
}

/// Signed column gap from `a` to `b`, meaningful when `x_separated`:
/// positive when `b` lies ahead (to the right) of `a`, negative when
/// behind; never zero.
pub open spec fn x_gap(a: PhysAABB, b: PhysAABB) -> int {
    if a.right_spec() < b.left_spec() {
        b.left_spec() - a.right_spec()
    } else {
        -(a.left_spec() - b.right_spec())
    }
}

/// Signed row gap from `a` to `b`, meaningful when `y_separated`.
pub open spec fn y_gap(a: PhysAABB, b: PhysAABB) -> int {
    if a.top_spec() < b.bottom_spec() {
        b.bottom_spec() - a.top_spec()
    } else {
        -(a.bottom_spec() - b.top_spec())
    }
}

/// A nonzero gap always separates `x_separated` boxes.
pub proof fn lemma_gap_nonzero(a: PhysAABB, b: PhysAABB)
    ensures
        x_separated(a, b) ==> x_gap(a, b) != 0 && sgn(x_gap(a, b)) != 0,
        y_separated(a, b) ==> y_gap(a, b) != 0 && sgn(y_gap(a, b)) != 0,
{
}

/// Signed column distance between two boxes, or `None` when their column
/// ranges already overlap; overlap on an axis is an explicitly unhandled
/// degenerate case for the resolver.
pub fn x_dist(r1: &PhysAABB, r2: &PhysAABB) -> (r: Option<i32>)
    requires
        aabb_in(*r1, 0x2000_0000),
        aabb_in(*r2, 0x2000_0000),
    ensures
        match r {
            Some(g) => x_separated(*r1, *r2) && g == x_gap(*r1, *r2),
            None => !x_separated(*r1, *r2),
        },
{
    if r1.right() < r2.left() {
        return Some(r2.left() - r1.right());
    }
    if r2.right() < r1.left() {
        return Some(-(r1.left() - r2.right()));
    }
    None
}

/// Signed row distance between two boxes, or `None` when their row ranges
/// already overlap.
pub fn y_dist(r1: &PhysAABB, r2: &PhysAABB) -> (r: Option<i32>)
    requires
        aabb_in(*r1, 0x2000_0000),
        aabb_in(*r2, 0x2000_0000),
    ensures
        match r {
            Some(g) => y_separated(*r1, *r2) && g == y_gap(*r1, *r2),
            None => !y_separated(*r1, *r2),
        },
{
    if r1.top() < r2.bottom() {
        return Some(r2.bottom() - r1.top());
    }
    if r2.top() < r1.bottom() {
        return Some(-(r1.bottom() - r2.top()));
    }
    None
}

/// Linear blend of two fixed-point positions by the fraction
/// `num / den`: returns `a + (b - a) * num / den`, truncating toward
/// zero.  Used at the render boundary to blend the pre-tick snapshot with
/// the current authoritative position by the elapsed fraction of a tick;
/// with `num == 0` it returns `a`, with `num == den` it returns `b`.
pub fn lerp_fix(a: i32, b: i32, num: i32, den: i32) -> (r: i32)
    requires
        0 <= num <= den,
        0 < den,
        -0x2000_0000 <= a <= 0x2000_0000,
        -0x2000_0000 <= b <= 0x2000_0000,
    ensures
        r == a + div_tz((b - a) * num, den as int),
        num == 0 ==> r == a,
        num == den ==> r == b,
{
    let d: i64 = (b as i64) - (a as i64);
    proof {
        assert(-0x4000_0000_0000_0000 <= d * (num as i64) <= 0x4000_0000_0000_0000)
            by (nonlinear_arith)
            requires
                -0x4000_0001 < d < 0x4000_0001,
                0 <= num < 0x8000_0000,
        ;
    }
    let scaled: i64 = crate::arith::div_i64_tz(d * (num as i64), den as i64);
    proof {
        lemma_lerp_bounds(d as int, num as int, den as int);
        if num == 0 {
            assert(d * 0 == 0) by (nonlinear_arith);
            crate::arith::lemma_div_tz_abs_le(0, den as int);
        }
        if num == den {
            assert(d * (den as int) == (den as int) * d) by (nonlinear_arith);
            lemma_div_tz_exact(d as int, den as int);
        }
    }
    a + (scaled as i32)
}

/// The blend offset `d * num / den` with `0 <= num <= den` never exceeds
/// `|d|`.
proof fn lemma_lerp_bounds(d: int, num: int, den: int)
    requires
        0 <= num <= den,
        0 < den,
    ensures
        abs(div_tz(d * num, den)) <= abs(d),
{
    crate::arith::lemma_div_tz_abs_le(d * num, den);
    assert(abs(d * num) <= abs(d) * den) by (nonlinear_arith)
        requires
            0 <= num <= den,
    ;
    let p = d * num;
    vstd::arithmetic::div_mod::lemma_div_is_ordered(abs(p) as int, abs(d) * den, den);
    vstd::arithmetic::div_mod::lemma_div_multiples_vanish(abs(d) as int, den);
    assert(abs(d) * den == den * abs(d)) by (nonlinear_arith);
    vstd::arithmetic::div_mod::lemma_div_pos_is_pos(abs(p) as int, den);
}

/// `(d * den) / den == d` for truncating division.
proof fn lemma_div_tz_exact(d: int, den: int)
    requires
        0 < den,
    ensures
        div_tz(d * den, den) == d,
{
    assert(abs(d * den) == abs(d) * den) by (nonlinear_arith)
        requires
            den > 0,
    ;
    vstd::arithmetic::div_mod::lemma_div_multiples_vanish(abs(d) as int, den);
    assert(den * abs(d) == abs(d) * den) by (nonlinear_arith);
    if d >= 0 {
        assert(d * den >= 0) by (nonlinear_arith)
            requires
                den > 0,
                d >= 0,
        ;
    } else {
        assert(d * den < 0) by (nonlinear_arith)
            requires
                den > 0,
                d < 0,
        ;
    }
}

} // verus!
