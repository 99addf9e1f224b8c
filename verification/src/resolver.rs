//! The `move_and_slide` collision resolver.
//!
//! Given a moving entity and a candidate velocity for one tick, the
//! resolver walks every other body in spawn order, clamps the per-axis
//! displacement so the mover settles one subpixel short of contact,
//! re-checks the cross axis at the projected contact position to tell a
//! genuine collision from a near miss, recursively propagates motion into
//! pushable obstacles, and reports the achieved velocity with blocked
//! axes zeroed together with the last confirmed-blocking obstacle.
//!
//! Push propagation is a depth-first walk over "who pushes whom".  A
//! visited set keyed by handle and threaded through the recursion marks
//! every body that has already moved during the current top-level call:
//! a marked body is never pushed again, which caps each obstacle at one
//! push per call and makes cycles of mutually pushable bodies fail
//! closed instead of recursing forever.

use vstd::prelude::*;

verus! {

use vstd::math::abs;
use crate::arith::{div_tz, sgn, abs_i32, sign_i32, div_i32_tz, div_i64_tz, lemma_div_tz_abs_le};
use crate::phys::{
    PhysVec, PhysAABB, aabb_in, x_separated, y_separated, x_gap, y_gap, x_dist, y_dist,
    lemma_gap_nonzero, PHYS_FPS,
};
use crate::world::{PhysWorld, CollisionResult};

/// Every box a caller hands to the resolver lies within this many
/// subpixels of the origin (65536 tiles): the envelope in which all the
/// resolver's 32-bit arithmetic is known exact.
pub const COORD_LIMIT: i32 = 0x1000_0000;

/// Velocities handed to the resolver are at most this many subpixels per
/// second (4096 tiles per second) in each component.
pub const VEL_LIMIT: i32 = 0x100_0000;

/// A box the resolver may have displaced stays within the caller's
/// envelope plus one velocity bound.
pub const COORD_SLACK: i32 = 0x1100_0000;

/// All boxes lie in the caller-facing envelope.
pub open spec fn world_wf(w: PhysWorld) -> bool {
    forall|i: int| 0 <= i < w.n() ==> aabb_in((#[trigger] w.body(i)).aabb, COORD_LIMIT as int)
}

/// Boxes the current call has already moved (visited) lie in the widened
/// envelope; untouched boxes still lie in the caller-facing one.
pub open spec fn vis_bounds(w: PhysWorld, vis: Seq<bool>) -> bool {
    &&& forall|i: int|
        0 <= i < w.n() && vis[i] ==> aabb_in((#[trigger] w.body(i)).aabb, COORD_SLACK as int)
    &&& forall|i: int|
        0 <= i < w.n() && !vis[i] ==> aabb_in((#[trigger] w.body(i)).aabb, COORD_LIMIT as int)
}

/// Everything except box positions is preserved: body count, sizes,
/// pushable tags, velocity markers and interpolation snapshots.
pub open spec fn statics_preserved(w0: PhysWorld, w: PhysWorld) -> bool {
    &&& w.n() == w0.n()
    &&& forall|i: int|
        0 <= i < w0.n() ==> {
            &&& (#[trigger] w.body(i)).pushable == w0.body(i).pushable
            &&& w.body(i).marker == w0.body(i).marker
            &&& w.body(i).lerp == w0.body(i).lerp
            &&& w.body(i).aabb.size == w0.body(i).aabb.size
        }
}

/// Apart from the mover, only bodies that were unvisited, pushable, and
/// are now marked visited may have changed.
pub open spec fn push_frame(
    w0: PhysWorld,
    vis0: Seq<bool>,
    w: PhysWorld,
    vis: Seq<bool>,
    mover: int,
) -> bool {
    forall|i: int|
        0 <= i < w0.n() && i != mover && #[trigger] w.body(i) != w0.body(i) ==> !vis0[i] && vis[i]
            && w0.body(i).pushable
}

/// The visited set only grows.
pub open spec fn vis_mono(a: Seq<bool>, b: Seq<bool>) -> bool {
    a.len() == b.len() && forall|i: int| 0 <= i < a.len() && a[i] ==> b[i]
}

/// How many bodies the current call may still push.
pub open spec fn count_unvisited(s: Seq<bool>) -> nat
    decreases s.len(),
{
    if s.len() == 0 {
        0
    } else {
        count_unvisited(s.drop_last()) + if s.last() {
            0nat
        } else {
            1nat
        }
    }
}

/// Marking an unvisited entry strictly shrinks the count.
proof fn lemma_count_update_true(s: Seq<bool>, i: int)
    requires
        0 <= i < s.len(),
        !s[i],
    ensures
        count_unvisited(s.update(i, true)) < count_unvisited(s),
    decreases s.len(),
{
    let t = s.update(i, true);
    if i == s.len() - 1 {
        assert(t.drop_last() =~= s.drop_last());
    } else {
        assert(t.drop_last() =~= s.drop_last().update(i, true));
        lemma_count_update_true(s.drop_last(), i);
    }
}

/// A pointwise-larger visited set has a no-larger count.
proof fn lemma_count_mono(a: Seq<bool>, b: Seq<bool>)
    requires
        vis_mono(a, b),
    ensures
        count_unvisited(b) <= count_unvisited(a),
    decreases a.len(),
{
    if a.len() > 0 {
        assert(vis_mono(a.drop_last(), b.drop_last()));
        lemma_count_mono(a.drop_last(), b.drop_last());
        assert(a.last() ==> b.last());
    }
}

/// The mover's box, shifted down-range by `dy`, still shares rows with
/// the obstacle: the projected boxes overlap on the Y axis.
pub open spec fn y_overlap_shifted(a: PhysAABB, b: PhysAABB, dy: int) -> bool {
    !(a.top_spec() + dy < b.bottom_spec() || b.top_spec() < a.bottom_spec() + dy)
}

/// The shifted boxes overlap on the X axis.
pub open spec fn x_overlap_shifted(a: PhysAABB, b: PhysAABB, dx: int) -> bool {
    !(a.right_spec() + dx < b.left_spec() || b.right_spec() < a.left_spec() + dx)
}

/// A confirmed X collision of the box `a` moving by `(vx, vy)` this tick
/// against the obstacle `b`: the boxes are column-separated, the gap lies
/// in the direction of motion and would be reached or passed this tick,
/// and at the projected contact position (`a` shifted by the exact
/// cross-computed Y travel `vy * gap / vx`) the boxes overlap on the Y
/// axis, so the near miss does not clear.
pub open spec fn x_confirmed(a: PhysAABB, b: PhysAABB, vx: int, vy: int) -> bool {
    &&& x_separated(a, b)
    &&& sgn(x_gap(a, b)) == sgn(vx)
    &&& abs(vx) > abs(x_gap(a, b)) - 1
    &&& y_overlap_shifted(a, b, div_tz(vy * x_gap(a, b), vx))
}

/// A confirmed Y collision, symmetric to `x_confirmed`.
pub open spec fn y_confirmed(a: PhysAABB, b: PhysAABB, vx: int, vy: int) -> bool {
    &&& y_separated(a, b)
    &&& sgn(y_gap(a, b)) == sgn(vy)
    &&& abs(vy) > abs(y_gap(a, b)) - 1
    &&& x_overlap_shifted(a, b, div_tz(vx * y_gap(a, b), vy))
}

/// The exact fixed-point travel on the cross axis while the primary axis
/// covers `g` of its `v` per-tick units: `c * g / v`, truncating.
fn cross_div(c: i32, g: i32, v: i32) -> (r: i32)
    requires
        v != 0,
        sgn(g as int) == sgn(v as int),
        abs(g as int) <= abs(v as int),
        abs(c as int) <= 0x4000_0000,
        abs(v as int) <= 0x4000_0000,
    ensures
        r == div_tz(c as int * g as int, v as int),
        abs(r as int) <= abs(c as int),
        c >= 0 ==> r >= 0,
        c <= 0 ==> r <= 0,
{
    proof {
        assert(-0x2000_0000_0000_0000 <= (c as int) * (g as int) <= 0x2000_0000_0000_0000)
            by (nonlinear_arith)
            requires
                abs(c as int) <= 0x4000_0000,
                abs(g as int) <= 0x4000_0000,
        ;
    }
    let p: i64 = (c as i64) * (g as i64);
    let q: i64 = div_i64_tz(p, v as i64);
    proof {
        lemma_cross_bound(c as int, g as int, v as int);
    }
    q as i32
}

/// Magnitude and sign of the cross-axis travel: at most `|c|`, and of the
/// sign of `c` because the gap has the sign of `v`.
proof fn lemma_cross_bound(c: int, g: int, v: int)
    requires
        v != 0,
        sgn(g) == sgn(v),
        abs(g) <= abs(v),
    ensures
        abs(div_tz(c * g, v)) <= abs(c),
        c >= 0 ==> div_tz(c * g, v) >= 0,
        c <= 0 ==> div_tz(c * g, v) <= 0,
{
    let p = c * g;
    assert(abs(p) == abs(c) * abs(g)) by (nonlinear_arith)
        requires
            p == c * g,
    ;
    assert(abs(c) * abs(g) <= abs(c) * abs(v)) by (nonlinear_arith)
        requires
            abs(g) <= abs(v),
            0 <= abs(c),
    ;
    vstd::arithmetic::div_mod::lemma_div_is_ordered(
        abs(p) as int,
        (abs(c) * abs(v)) as int,
        abs(v) as int,
    );
    vstd::arithmetic::div_mod::lemma_div_multiples_vanish(abs(c) as int, abs(v) as int);
    assert((abs(c) * abs(v)) as int == (abs(v) as int) * (abs(c) as int)) by (nonlinear_arith);
    vstd::arithmetic::div_mod::lemma_div_pos_is_pos(abs(p) as int, abs(v) as int);
    lemma_div_tz_abs_le(p, v);
    // Sign: g and v share a sign, so p has the sign of c and so does the
    // truncating quotient.
    if c >= 0 {
        if g >= 0 {
            assert(p >= 0) by (nonlinear_arith)
                requires
                    p == c * g,
                    c >= 0,
                    g >= 0,
            ;
        } else {
            assert(p <= 0) by (nonlinear_arith)
                requires
                    p == c * g,
                    c >= 0,
                    g <= 0,
            ;
        }
    } else {
        if g >= 0 {
            assert(p <= 0) by (nonlinear_arith)
                requires
                    p == c * g,
                    c <= 0,
                    g >= 0,
            ;
        } else {
            assert(p >= 0) by (nonlinear_arith)
                requires
                    p == c * g,
                    c <= 0,
                    g <= 0,
            ;
        }
    }
}

/// An obstacle that the loop has already clamped against on the X axis
/// and that can no longer move this call: the mover's remaining X travel
/// stops exactly one subpixel short of it.
spec fn x_witness(snap: PhysAABB, w: PhysWorld, vis: Seq<bool>, j: int, v0x: int, vx: int) -> bool {
    &&& 0 <= j < w.n()
    &&& x_separated(snap, w.body(j).aabb)
    &&& sgn(x_gap(snap, w.body(j).aabb)) == sgn(v0x)
    &&& vx == if v0x > 0 {
        abs(x_gap(snap, w.body(j).aabb)) - 1
    } else {
        -(abs(x_gap(snap, w.body(j).aabb)) - 1)
    }
    &&& vis[j] || !w.body(j).pushable
}

/// The Y-axis counterpart of `x_witness`.
spec fn y_witness(snap: PhysAABB, w: PhysWorld, vis: Seq<bool>, j: int, v0y: int, vy: int) -> bool {
    &&& 0 <= j < w.n()
    &&& y_separated(snap, w.body(j).aabb)
    &&& sgn(y_gap(snap, w.body(j).aabb)) == sgn(v0y)
    &&& vy == if v0y > 0 {
        abs(y_gap(snap, w.body(j).aabb)) - 1
    } else {
        -(abs(y_gap(snap, w.body(j).aabb)) - 1)
    }
    &&& vis[j] || !w.body(j).pushable
}

/// Some obstacle other than the mover is an X-axis blocker witness.
spec fn has_x_witness(
    snap: PhysAABB,
    w: PhysWorld,
    vis: Seq<bool>,
    entity: int,
    v0x: int,
    vx: int,
) -> bool {
    exists|j: int| j != entity && x_witness(snap, w, vis, j, v0x, vx)
}

/// Some obstacle other than the mover is a Y-axis blocker witness.
spec fn has_y_witness(
    snap: PhysAABB,
    w: PhysWorld,
    vis: Seq<bool>,
    entity: int,
    v0y: int,
    vy: int,
) -> bool {
    exists|j: int| j != entity && y_witness(snap, w, vis, j, v0y, vy)
}

/// No obstacle in `w` other than the mover confirms a collision against
/// the snapshot box for the per-tick displacement `(vtx, vty)`: the whole
/// displacement is collision-free.
pub open spec fn non_colliding(
    w: PhysWorld,
    entity: int,
    snap: PhysAABB,
    vtx: int,
    vty: int,
) -> bool {
    forall|j: int|
        0 <= j < w.n() && j != entity ==> !x_confirmed(snap, (#[trigger] w.body(j)).aabb, vtx, vty)
            && !y_confirmed(snap, w.body(j).aabb, vtx, vty)
}

/// Evaluate one obstacle on the X axis.  Returns the signed gap and the
/// cross-projected Y travel when — and only when — the motion `(vx, vy)`
/// is a confirmed X collision of `a` against `b`.
fn x_check(a: &PhysAABB, b: &PhysAABB, vx: i32, vy: i32) -> (r: Option<(i32, i32)>)
    requires
        aabb_in(*a, 0x1800_0000),
        aabb_in(*b, 0x1800_0000),
        abs(vx as int) <= VEL_LIMIT,
        abs(vy as int) <= VEL_LIMIT,
    ensures
        (r is Some) == x_confirmed(*a, *b, vx as int, vy as int),
        r matches Some(gc) ==> {
            &&& gc.0 == x_gap(*a, *b)
            &&& gc.1 == div_tz(vy as int * x_gap(*a, *b), vx as int)
            &&& sgn(gc.0 as int) == sgn(vx as int)
            &&& 1 <= abs(gc.0 as int) <= abs(vx as int)
            &&& abs(gc.1 as int) <= abs(vy as int)
            &&& (vy >= 0 ==> gc.1 >= 0)
            &&& (vy <= 0 ==> gc.1 <= 0)
        },
{
    if let Some(x) = x_dist(a, b) {
        proof {
            lemma_gap_nonzero(*a, *b);
        }
        if sign_i32(x) == sign_i32(vx) {
            if abs_i32(vx) > abs_i32(x) - 1 {
                let y = cross_div(vy, x, vx);
                let test = PhysAABB {
                    pos: PhysVec { x: a.pos.x, y: a.pos.y + y },
                    size: a.size,
                };
                if y_dist(&test, b).is_none() {
                    return Some((x, y));
                }
            }
        }
    }
    None
}

/// Evaluate one obstacle on the Y axis, symmetric to `x_check`.
fn y_check(a: &PhysAABB, b: &PhysAABB, vx: i32, vy: i32) -> (r: Option<(i32, i32)>)
    requires
        aabb_in(*a, 0x1800_0000),
        aabb_in(*b, 0x1800_0000),
        abs(vx as int) <= VEL_LIMIT,
        abs(vy as int) <= VEL_LIMIT,
    ensures
        (r is Some) == y_confirmed(*a, *b, vx as int, vy as int),
        r matches Some(gc) ==> {
            &&& gc.0 == y_gap(*a, *b)
            &&& gc.1 == div_tz(vx as int * y_gap(*a, *b), vy as int)
            &&& sgn(gc.0 as int) == sgn(vy as int)
            &&& 1 <= abs(gc.0 as int) <= abs(vy as int)
            &&& abs(gc.1 as int) <= abs(vx as int)
            &&& (vx >= 0 ==> gc.1 >= 0)
            &&& (vx <= 0 ==> gc.1 <= 0)
        },
{
    if let Some(y) = y_dist(a, b) {
        proof {
            lemma_gap_nonzero(*a, *b);
        }
        if sign_i32(y) == sign_i32(vy) {
            if abs_i32(vy) > abs_i32(y) - 1 {
                let x = cross_div(vx, y, vy);
                let test = PhysAABB {
                    pos: PhysVec { x: a.pos.x + x, y: a.pos.y },
                    size: a.size,
                };
                if x_dist(&test, b).is_none() {
                    return Some((y, x));
                }
            }
        }
    }
    None
}

/// The recursive body of `move_and_slide`, threading the visited set
/// through push propagation.  The visited set caps recursion: every
/// recursive call strictly shrinks the number of unvisited bodies.
#[verifier::rlimit(100)]
fn slide_rec(
    entity: usize,
    velocity: PhysVec,
    world: &mut PhysWorld,
    visited: Vec<bool>,
    depth: usize,
) -> (r: (PhysVec, CollisionResult, Vec<bool>))
    requires
        count_unvisited(visited@) <= depth,
        old(world).n() == visited@.len(),
        entity < old(world).n(),
        visited@[entity as int],
        aabb_in(old(world).body(entity as int).aabb, COORD_LIMIT as int),
        vis_bounds(*old(world), visited@),
        abs(velocity.x as int) <= VEL_LIMIT,
        abs(velocity.y as int) <= VEL_LIMIT,
    ensures
        final(world).n() == old(world).n(),
        r.2@.len() == visited@.len(),
        vis_mono(visited@, r.2@),
        count_unvisited(r.2@) <= count_unvisited(visited@),
        statics_preserved(*old(world), *final(world)),
        push_frame(*old(world), visited@, *final(world), r.2@, entity as int),
        vis_bounds(*final(world), r.2@),
        ({
            let p0 = old(world).body(entity as int).aabb.pos;
            let p1 = final(world).body(entity as int).aabb.pos;
            &&& abs(p1.x - p0.x) <= abs(div_tz(velocity.x as int, PHYS_FPS as int))
            &&& abs(p1.y - p0.y) <= abs(div_tz(velocity.y as int, PHYS_FPS as int))
            &&& (velocity.x >= 0 ==> p1.x >= p0.x)
            &&& (velocity.x <= 0 ==> p1.x <= p0.x)
            &&& (velocity.y >= 0 ==> p1.y >= p0.y)
            &&& (velocity.y <= 0 ==> p1.y <= p0.y)
        }),
        r.0.x == velocity.x || r.0.x == 0,
        r.0.y == velocity.y || r.0.y == 0,
        (r.1 is Nothing) <==> r.0 == velocity,
        r.1 matches CollisionResult::With { other, marked_velocity } ==> other
            < old(world).n() && other != entity && marked_velocity == old(world).body(
            other as int,
        ).marker,
        r.1 matches CollisionResult::With { other, .. } ==> (x_separated(
            final(world).body(entity as int).aabb,
            final(world).body(other as int).aabb,
        ) && x_gap(
            final(world).body(entity as int).aabb,
            final(world).body(other as int).aabb,
        ) == sgn(velocity.x as int)) || (y_separated(
            final(world).body(entity as int).aabb,
            final(world).body(other as int).aabb,
        ) && y_gap(
            final(world).body(entity as int).aabb,
            final(world).body(other as int).aabb,
        ) == sgn(velocity.y as int)),
        non_colliding(
            *old(world),
            entity as int,
            old(world).body(entity as int).aabb,
            div_tz(velocity.x as int, PHYS_FPS as int),
            div_tz(velocity.y as int, PHYS_FPS as int),
        ) ==> ({
            &&& final(world).body(entity as int).aabb.pos.x == old(world).body(
                entity as int,
            ).aabb.pos.x + div_tz(velocity.x as int, PHYS_FPS as int)
            &&& final(world).body(entity as int).aabb.pos.y == old(world).body(
                entity as int,
            ).aabb.pos.y + div_tz(velocity.y as int, PHYS_FPS as int)
            &&& r.0 == velocity
            &&& r.1 is Nothing
            &&& forall|j: int|
                0 <= j < old(world).n() && j != entity ==> final(world).body(j) == old(
                    world,
                ).body(j)
            &&& r.2@ == visited@
        }),
        (r.0.x == 0 && velocity.x != 0) ==> exists|j: int|
            0 <= j < old(world).n() && j != entity && x_separated(
                final(world).body(entity as int).aabb,
                (#[trigger] final(world).body(j)).aabb,
            ) && x_gap(final(world).body(entity as int).aabb, final(world).body(j).aabb) == sgn(
                velocity.x as int,
            ),
        (r.0.y == 0 && velocity.y != 0) ==> exists|j: int|
            0 <= j < old(world).n() && j != entity && y_separated(
                final(world).body(entity as int).aabb,
                (#[trigger] final(world).body(j)).aabb,
            ) && y_gap(final(world).body(entity as int).aabb, final(world).body(j).aabb) == sgn(
                velocity.y as int,
            ),
    decreases depth, 2int,
{
    let ghost w0 = *old(world);
    let ghost vis0 = visited@;
    let n = world.len();
    let vtx = div_i32_tz(velocity.x, PHYS_FPS);
    let vty = div_i32_tz(velocity.y, PHYS_FPS);
    let snap = world.aabb(entity);
    let mut vx: i32 = vtx;
    let mut vy: i32 = vty;
    let mut ret = velocity;
    let mut res = CollisionResult::Nothing;
    let mut vis = visited;
    let mut id: usize = 0;
    proof {
        lemma_div_tz_abs_le(velocity.x as int, PHYS_FPS as int);
        lemma_div_tz_abs_le(velocity.y as int, PHYS_FPS as int);
    }
    while id < n
        invariant
            n == world.n(),
            n == w0.n(),
            vis@.len() == n,
            entity < n,
            id <= n,
            vis@[entity as int],
            vis_mono(vis0, vis@),
            count_unvisited(vis@) <= count_unvisited(vis0),
            count_unvisited(vis0) <= depth,
            statics_preserved(w0, *world),
            push_frame(w0, vis0, *world, vis@, entity as int),
            vis_bounds(*world, vis@),
            world.body(entity as int) == w0.body(entity as int),
            snap == w0.body(entity as int).aabb,
            aabb_in(snap, COORD_LIMIT as int),
            abs(velocity.x as int) <= VEL_LIMIT,
            abs(velocity.y as int) <= VEL_LIMIT,
            vtx == div_tz(velocity.x as int, PHYS_FPS as int),
            vty == div_tz(velocity.y as int, PHYS_FPS as int),
            abs(vtx as int) <= abs(velocity.x as int),
            abs(vty as int) <= abs(velocity.y as int),
            abs(vx as int) <= abs(vtx as int),
            abs(vy as int) <= abs(vty as int),
            velocity.x >= 0 ==> 0 <= vx <= vtx,
            velocity.x <= 0 ==> vtx <= vx <= 0,
            velocity.y >= 0 ==> 0 <= vy <= vty,
            velocity.y <= 0 ==> vty <= vy <= 0,
            ret.x == velocity.x || ret.x == 0,
            ret.y == velocity.y || ret.y == 0,
            (res is Nothing) <==> ret == velocity,
            res matches CollisionResult::With { other, marked_velocity } ==> other < n && other
                != entity && marked_velocity == w0.body(other as int).marker,
            res matches CollisionResult::With { other, .. } ==> x_witness(
                snap,
                *world,
                vis@,
                other as int,
                velocity.x as int,
                vx as int,
            ) || y_witness(snap, *world, vis@, other as int, velocity.y as int, vy as int),
            (forall|j: int|
                0 <= j < id && j != entity ==> !x_confirmed(
                    snap,
                    (#[trigger] w0.body(j)).aabb,
                    vtx as int,
                    vty as int,
                ) && !y_confirmed(snap, w0.body(j).aabb, vtx as int, vty as int)) ==> ({
                &&& vx == vtx
                &&& vy == vty
                &&& ret == velocity
                &&& res is Nothing
                &&& vis@ == vis0
                &&& forall|j: int| 0 <= j < n ==> world.body(j) == w0.body(j)
            }),
            (ret.x == 0 && velocity.x != 0) ==> has_x_witness(
                snap,
                *world,
                vis@,
                entity as int,
                velocity.x as int,
                vx as int,
            ),
            (ret.y == 0 && velocity.y != 0) ==> has_y_witness(
                snap,
                *world,
                vis@,
                entity as int,
                velocity.y as int,
                vy as int,
            ),
        decreases n - id,
    {
        if id != entity {
            let ghost pvx = vx;
            let ghost pvy = vy;
            let ghost pret = ret;
            let ghost pres = res;
            let ghost pw = *world;
            let ghost pvis = vis@;
            let rr = resolve_obstacle(
                entity,
                id,
                velocity,
                snap,
                vtx,
                vty,
                vx,
                vy,
                ret,
                res,
                world,
                vis,
                depth,
                Ghost(w0),
                Ghost(vis0),
            );
            vx = rr.0;
            vy = rr.1;
            ret = rr.2;
            res = rr.3;
            vis = rr.4;
            proof {
                // A collision-free prefix leaves everything untouched.
                if forall|j: int|
                    0 <= j < id + 1 && j != entity ==> !x_confirmed(
                        snap,
                        (#[trigger] w0.body(j)).aabb,
                        vtx as int,
                        vty as int,
                    ) && !y_confirmed(snap, w0.body(j).aabb, vtx as int, vty as int) {
                    assert(pvx == vtx && pvy == vty && pret == velocity && pres is Nothing);
                    assert(!x_confirmed(snap, w0.body(id as int).aabb, vtx as int, vty as int));
                    assert(vx == vtx && vy == vty && ret == velocity && res is Nothing && vis@
                        == vis0);
                }
            }
        }
        id = id + 1;
    }
    // Apply the accumulated per-tick displacement to the mover's box.
    let newbox = PhysAABB {
        pos: PhysVec { x: snap.pos.x + vx, y: snap.pos.y + vy },
        size: snap.size,
    };
    let ghost w_end = *world;
    world.set_aabb(entity, newbox);
    proof {
        assert(aabb_in(world.body(entity as int).aabb, COORD_SLACK as int));
        if ret.x == 0 && velocity.x != 0 {
            let j = choose|j: int|
                j != entity && x_witness(snap, w_end, vis@, j, velocity.x as int, vx as int);
            assert(world.body(j) == w_end.body(j));
            assert(x_separated(newbox, world.body(j).aabb) && x_gap(newbox, world.body(j).aabb)
                == sgn(velocity.x as int));
        }
        if ret.y == 0 && velocity.y != 0 {
            let j = choose|j: int|
                j != entity && y_witness(snap, w_end, vis@, j, velocity.y as int, vy as int);
            assert(world.body(j) == w_end.body(j));
            assert(y_separated(newbox, world.body(j).aabb) && y_gap(newbox, world.body(j).aabb)
                == sgn(velocity.y as int));
        }
        if let CollisionResult::With { other, .. } = res {
            let o = other as int;
            assert(world.body(o) == w_end.body(o));
            if x_witness(snap, w_end, vis@, o, velocity.x as int, vx as int) {
                assert(x_separated(newbox, world.body(o).aabb) && x_gap(
                    newbox,
                    world.body(o).aabb,
                ) == sgn(velocity.x as int));
            } else {
                assert(y_separated(newbox, world.body(o).aabb) && y_gap(
                    newbox,
                    world.body(o).aabb,
                ) == sgn(velocity.y as int));
            }
        }
        if non_colliding(w0, entity as int, snap, vtx as int, vty as int) {
            assert(vx == vtx && vy == vty);
        }
    }
    (ret, res, vis)
}

/// A body that changed hands only to unvisited pushables cannot be a
/// witness body, so a witness survives: its box, its visited-or-immovable
/// status, and hence the clamped travel relation are all preserved.
proof fn lemma_x_witness_carry(
    snap: PhysAABB,
    w1: PhysWorld,
    vis1: Seq<bool>,
    w2: PhysWorld,
    vis2: Seq<bool>,
    j: int,
    v0x: int,
    vx: int,
)
    requires
        w1.n() == w2.n(),
        vis1.len() == w1.n(),
        vis2.len() == vis1.len(),
        vis_mono(vis1, vis2),
        statics_preserved(w1, w2),
        forall|i: int|
            0 <= i < w1.n() && #[trigger] w2.body(i) != w1.body(i) ==> !vis1[i] && w1.body(
                i,
            ).pushable,
        x_witness(snap, w1, vis1, j, v0x, vx),
    ensures
        x_witness(snap, w2, vis2, j, v0x, vx),
        w2.body(j) == w1.body(j),
{
}

/// The Y-axis counterpart of `lemma_x_witness_carry`.
proof fn lemma_y_witness_carry(
    snap: PhysAABB,
    w1: PhysWorld,
    vis1: Seq<bool>,
    w2: PhysWorld,
    vis2: Seq<bool>,
    j: int,
    v0y: int,
    vy: int,
)
    requires
        w1.n() == w2.n(),
        vis1.len() == w1.n(),
        vis2.len() == vis1.len(),
        vis_mono(vis1, vis2),
        statics_preserved(w1, w2),
        forall|i: int|
            0 <= i < w1.n() && #[trigger] w2.body(i) != w1.body(i) ==> !vis1[i] && w1.body(
                i,
            ).pushable,
        y_witness(snap, w1, vis1, j, v0y, vy),
    ensures
        y_witness(snap, w2, vis2, j, v0y, vy),
        w2.body(j) == w1.body(j),
{
}

/// Clamping against a confirmed X collision makes the obstacle a witness:
/// the new travel stops exactly one subpixel short of its gap.
proof fn lemma_clamp_makes_x_witness(
    snap: PhysAABB,
    w: PhysWorld,
    vis: Seq<bool>,
    id: int,
    v0x: int,
    vx_old: int,
    vx_new: int,
    vy: int,
)
    requires
        0 <= id < w.n(),
        vis.len() == w.n(),
        x_confirmed(snap, w.body(id).aabb, vx_old, vy),
        vis[id] || !w.body(id).pushable,
        v0x >= 0 ==> 0 <= vx_old,
        v0x <= 0 ==> vx_old <= 0,
        abs(vx_old) <= abs(v0x),
        vx_new == if vx_old > 0 {
            abs(x_gap(snap, w.body(id).aabb)) - 1
        } else {
            -(abs(x_gap(snap, w.body(id).aabb)) - 1)
        },
    ensures
        x_witness(snap, w, vis, id, v0x, vx_new),
{
    lemma_gap_nonzero(snap, w.body(id).aabb);
}

/// The Y-axis counterpart of `lemma_clamp_makes_x_witness`.
proof fn lemma_clamp_makes_y_witness(
    snap: PhysAABB,
    w: PhysWorld,
    vis: Seq<bool>,
    id: int,
    v0y: int,
    vy_old: int,
    vy_new: int,
    vx: int,
)
    requires
        0 <= id < w.n(),
        vis.len() == w.n(),
        y_confirmed(snap, w.body(id).aabb, vx, vy_old),
        vis[id] || !w.body(id).pushable,
        v0y >= 0 ==> 0 <= vy_old,
        v0y <= 0 ==> vy_old <= 0,
        abs(vy_old) <= abs(v0y),
        vy_new == if vy_old > 0 {
            abs(y_gap(snap, w.body(id).aabb)) - 1
        } else {
            -(abs(y_gap(snap, w.body(id).aabb)) - 1)
        },
    ensures
        y_witness(snap, w, vis, id, v0y, vy_new),
{
    lemma_gap_nonzero(snap, w.body(id).aabb);
}


/// Displace one unvisited pushable obstacle: mark it visited, drive it
/// through the resolver with the remaining approach vector, and hand back
/// the grown visited set.  Bundles the recursion so its caller only sees
/// the frame facts below.
fn push_obstacle(
    entity: usize,
    id: usize,
    pv: PhysVec,
    world: &mut PhysWorld,
    vis: Vec<bool>,
    depth: usize,
    w0g: Ghost<PhysWorld>,
    vis0g: Ghost<Seq<bool>>,
) -> (r: Vec<bool>)
    requires
        old(world).n() == w0g@.n(),
        vis@.len() == w0g@.n(),
        entity < w0g@.n(),
        id < w0g@.n(),
        id != entity,
        vis@[entity as int],
        !vis@[id as int],
        old(world).body(id as int).pushable,
        vis_mono(vis0g@, vis@),
        count_unvisited(vis@) <= count_unvisited(vis0g@),
        count_unvisited(vis0g@) <= depth,
        statics_preserved(w0g@, *old(world)),
        push_frame(w0g@, vis0g@, *old(world), vis@, entity as int),
        vis_bounds(*old(world), vis@),
        old(world).body(entity as int) == w0g@.body(entity as int),
        abs(pv.x as int) <= VEL_LIMIT,
        abs(pv.y as int) <= VEL_LIMIT,
    ensures
        final(world).n() == w0g@.n(),
        r@.len() == w0g@.n(),
        r@[entity as int],
        r@[id as int],
        vis_mono(vis0g@, r@),
        vis_mono(vis@, r@),
        count_unvisited(r@) < count_unvisited(vis0g@),
        statics_preserved(w0g@, *final(world)),
        statics_preserved(*old(world), *final(world)),
        push_frame(w0g@, vis0g@, *final(world), r@, entity as int),
        vis_bounds(*final(world), r@),
        final(world).body(entity as int) == w0g@.body(entity as int),
        forall|i: int|
            0 <= i < w0g@.n() && #[trigger] final(world).body(i) != old(world).body(i)
                ==> !vis@[i] && old(world).body(i).pushable,
    decreases depth, 0int,
{
    let ghost w0 = w0g@;
    let ghost vis0 = vis0g@;
    let ghost w_in = *old(world);
    let ghost vis_in = vis@;
    let ghost n = w0g@.n();
    let mut vis = vis;
    vis[id] = true;
    proof {
        lemma_count_mono(vis0, vis_in);
        lemma_count_update_true(vis_in, id as int);
        assert(vis@ =~= vis_in.update(id as int, true));
        assert(count_unvisited(vis@) < count_unvisited(vis0));
        assert(depth >= 1);
        assert(vis_bounds(*world, vis@)) by {
            assert(forall|i: int|
                0 <= i < n && i != id ==> vis@[i] == vis_in[i] && world.body(i) == w_in.body(i));
            assert(aabb_in(world.body(id as int).aabb, COORD_SLACK as int));
        }
    }
    let rr = slide_rec(id, pv, world, vis, depth - 1);
    let vis = rr.2;
    let ghost vis_mid = vis@;
    proof {
        lemma_count_mono(vis_in.update(id as int, true), vis_mid);
        // The mover's own entry was visited, so the recursion left it
        // alone.
        assert(world.body(entity as int) == w_in.body(entity as int));
        // Transitive frame and statics.
        assert(statics_preserved(w0, *world));
        assert(push_frame(w0, vis0, *world, vis@, entity as int)) by {
            assert forall|i: int|
                0 <= i < n && i != entity && #[trigger] world.body(i) != w0.body(
                    i,
                ) implies !vis0[i] && vis@[i] && w0.body(i).pushable by {
                if world.body(i) != w_in.body(i) {
                    assert(!vis_in.update(id as int, true)[i] || i == id);
                }
            }
        }
        assert(vis_mono(vis0, vis@));
        assert(forall|i: int|
            0 <= i < n && #[trigger] world.body(i) != w_in.body(i) ==> !vis_in[i] && w_in.body(
                i,
            ).pushable) by {
            assert forall|i: int|
                0 <= i < n && #[trigger] world.body(i) != w_in.body(i) implies !vis_in[i]
                    && w_in.body(i).pushable by {
                assert(!vis_in.update(id as int, true)[i] || i == id);
            }
        }
    }
    vis
}

/// Process one obstacle for the resolver loop: evaluate both axis checks
/// against it, push it with the exact remaining approach vector if it is
/// an unvisited pushable body and a collision is confirmed (re-evaluating
/// it afterwards from the top), and apply the per-axis clamps, zeroing
/// the blocked components of the returned velocity and recording the
/// blocker.  Returns the updated per-tick displacement, returned
/// velocity, collision report and visited set.
#[verifier::rlimit(100)]
fn resolve_obstacle(
    entity: usize,
    id: usize,
    velocity: PhysVec,
    snap: PhysAABB,
    vtx: i32,
    vty: i32,
    vx: i32,
    vy: i32,
    ret: PhysVec,
    res: CollisionResult,
    world: &mut PhysWorld,
    vis: Vec<bool>,
    depth: usize,
    w0g: Ghost<PhysWorld>,
    vis0g: Ghost<Seq<bool>>,
) -> (r: (i32, i32, PhysVec, CollisionResult, Vec<bool>))
    requires
        old(world).n() == w0g@.n(),
        vis@.len() == w0g@.n(),
        entity < w0g@.n(),
        id < w0g@.n(),
        id != entity,
        vis@[entity as int],
        vis_mono(vis0g@, vis@),
        count_unvisited(vis@) <= count_unvisited(vis0g@),
        count_unvisited(vis0g@) <= depth,
        statics_preserved(w0g@, *old(world)),
        push_frame(w0g@, vis0g@, *old(world), vis@, entity as int),
        vis_bounds(*old(world), vis@),
        old(world).body(entity as int) == w0g@.body(entity as int),
        snap == w0g@.body(entity as int).aabb,
        aabb_in(snap, COORD_LIMIT as int),
        abs(velocity.x as int) <= VEL_LIMIT,
        abs(velocity.y as int) <= VEL_LIMIT,
        vtx == div_tz(velocity.x as int, PHYS_FPS as int),
        vty == div_tz(velocity.y as int, PHYS_FPS as int),
        abs(vtx as int) <= abs(velocity.x as int),
        abs(vty as int) <= abs(velocity.y as int),
        abs(vx as int) <= abs(vtx as int),
        abs(vy as int) <= abs(vty as int),
        velocity.x >= 0 ==> 0 <= vx <= vtx,
        velocity.x <= 0 ==> vtx <= vx <= 0,
        velocity.y >= 0 ==> 0 <= vy <= vty,
        velocity.y <= 0 ==> vty <= vy <= 0,
        ret.x == velocity.x || ret.x == 0,
        ret.y == velocity.y || ret.y == 0,
        (res is Nothing) <==> ret == velocity,
        res matches CollisionResult::With { other, marked_velocity } ==> other < w0g@.n() && other
            != entity && marked_velocity == w0g@.body(other as int).marker,
        res matches CollisionResult::With { other, .. } ==> x_witness(
            snap,
            *old(world),
            vis@,
            other as int,
            velocity.x as int,
            vx as int,
        ) || y_witness(snap, *old(world), vis@, other as int, velocity.y as int, vy as int),
        (ret.x == 0 && velocity.x != 0) ==> has_x_witness(
            snap,
            *old(world),
            vis@,
            entity as int,
            velocity.x as int,
            vx as int,
        ),
        (ret.y == 0 && velocity.y != 0) ==> has_y_witness(
            snap,
            *old(world),
            vis@,
            entity as int,
            velocity.y as int,
            vy as int,
        ),
    ensures
        final(world).n() == w0g@.n(),
        r.4@.len() == w0g@.n(),
        r.4@[entity as int],
        vis_mono(vis0g@, r.4@),
        count_unvisited(r.4@) <= count_unvisited(vis0g@),
        statics_preserved(w0g@, *final(world)),
        push_frame(w0g@, vis0g@, *final(world), r.4@, entity as int),
        vis_bounds(*final(world), r.4@),
        final(world).body(entity as int) == w0g@.body(entity as int),
        abs(r.0 as int) <= abs(vtx as int),
        abs(r.1 as int) <= abs(vty as int),
        velocity.x >= 0 ==> 0 <= r.0 <= vtx,
        velocity.x <= 0 ==> vtx <= r.0 <= 0,
        velocity.y >= 0 ==> 0 <= r.1 <= vty,
        velocity.y <= 0 ==> vty <= r.1 <= 0,
        r.2.x == velocity.x || r.2.x == 0,
        r.2.y == velocity.y || r.2.y == 0,
        (r.3 is Nothing) <==> r.2 == velocity,
        r.3 matches CollisionResult::With { other, marked_velocity } ==> other < w0g@.n() && other
            != entity && marked_velocity == w0g@.body(other as int).marker,
        r.3 matches CollisionResult::With { other, .. } ==> x_witness(
            snap,
            *final(world),
            r.4@,
            other as int,
            velocity.x as int,
            r.0 as int,
        ) || y_witness(snap, *final(world), r.4@, other as int, velocity.y as int, r.1 as int),
        (r.2.x == 0 && velocity.x != 0) ==> has_x_witness(
            snap,
            *final(world),
            r.4@,
            entity as int,
            velocity.x as int,
            r.0 as int,
        ),
        (r.2.y == 0 && velocity.y != 0) ==> has_y_witness(
            snap,
            *final(world),
            r.4@,
            entity as int,
            velocity.y as int,
            r.1 as int,
        ),
        (!x_confirmed(snap, w0g@.body(id as int).aabb, vtx as int, vty as int) && !y_confirmed(
            snap,
            w0g@.body(id as int).aabb,
            vtx as int,
            vty as int,
        ) && vx == vtx && vy == vty && ret == velocity && res is Nothing && vis@ == vis0g@ && (
        forall|j: int| 0 <= j < w0g@.n() ==> old(world).body(j) == w0g@.body(j))) ==> (r.0 == vtx
            && r.1 == vty && r.2 == velocity && r.3 is Nothing && r.4@ == vis0g@ && forall|j: int|
            0 <= j < w0g@.n() ==> final(world).body(j) == w0g@.body(j)),
    decreases depth, 1int,
{
    let ghost w0 = w0g@;
    let ghost vis0 = vis0g@;
    let ghost w_in = *old(world);
    let ghost vis_in = vis@;
    let ghost vx_in = vx;
    let ghost vy_in = vy;
    let ghost n = w0g@.n();
    let mut vx = vx;
    let mut vy = vy;
    let mut ret = ret;
    let mut res = res;
    let mut vis = vis;
    let other0 = world.aabb(id);
    let can_push = !vis[id] && world.is_pushable(id);
    let xc0 = x_check(&snap, &other0, vx, vy);
    let yc0 = y_check(&snap, &other0, vx, vy);
    let xc: Option<(i32, i32)>;
    let yc: Option<(i32, i32)>;
    if can_push && (xc0.is_some() || yc0.is_some()) {
        // Push the obstacle with the exact remaining approach vector,
        // mark it visited, and re-evaluate it from the top.
        let dvx: i32;
        let dvy: i32;
        if let Some(gc) = xc0 {
            dvx = gc.0;
            dvy = gc.1;
        } else {
            let gc = yc0.unwrap();
            dvx = gc.1;
            dvy = gc.0;
        }
        let pv = PhysVec { x: velocity.x - dvx, y: velocity.y - dvy };
        vis = push_obstacle(entity, id, pv, world, vis, depth, w0g, vis0g);
        let other1 = world.aabb(id);
        xc = x_check(&snap, &other1, vx, vy);
        yc = y_check(&snap, &other1, vx, vy);
    } else {
        xc = xc0;
        yc = yc0;
    }
    let ghost vx_mid = vx;
    let ghost vy_mid = vy;
    proof {
        // Every body that moved between entry and here was an unvisited
        // pushable: either the pushed obstacle itself or something its
        // recursion displaced.
        assert(forall|i: int|
            0 <= i < n && #[trigger] world.body(i) != w_in.body(i) ==> !vis_in[i] && w_in.body(
                i,
            ).pushable);
    }
    if let Some(gc) = xc {
        let mag: i32 = abs_i32(gc.0) - 1;
        vx = if vx > 0 {
            mag
        } else {
            -mag
        };
        ret = PhysVec { x: 0, y: ret.y };
        res = CollisionResult::With { other: id, marked_velocity: world.marker(id) };
        proof {
            lemma_clamp_makes_x_witness(
                snap,
                *world,
                vis@,
                id as int,
                velocity.x as int,
                vx_mid as int,
                vx as int,
                vy_mid as int,
            );
        }
    }
    if let Some(gc) = yc {
        let mag: i32 = abs_i32(gc.0) - 1;
        vy = if vy > 0 {
            mag
        } else {
            -mag
        };
        ret = PhysVec { x: ret.x, y: 0 };
        res = CollisionResult::With { other: id, marked_velocity: world.marker(id) };
        proof {
            lemma_clamp_makes_y_witness(
                snap,
                *world,
                vis@,
                id as int,
                velocity.y as int,
                vy_mid as int,
                vy as int,
                vx_mid as int,
            );
        }
    }
    proof {
        // Carry the blocked-axis witnesses across this call: a witness
        // body is visited or unpushable, so neither the recursion nor
        // anything later moved it.
        if ret.x == 0 && velocity.x != 0 && xc is None {
            let j = choose|j: int|
                j != entity && x_witness(snap, w_in, vis_in, j, velocity.x as int, vx_in as int);
            lemma_x_witness_carry(snap, w_in, vis_in, *world, vis@, j, velocity.x as int, vx_in as int);
        }
        if ret.y == 0 && velocity.y != 0 && yc is None {
            let j = choose|j: int|
                j != entity && y_witness(snap, w_in, vis_in, j, velocity.y as int, vy_in as int);
            lemma_y_witness_carry(snap, w_in, vis_in, *world, vis@, j, velocity.y as int, vy_in as int);
        }
        // The reported blocker also survives untouched when this call
        // clamped nothing.
        if xc is None && yc is None {
            if let CollisionResult::With { other, .. } = res {
                let o = other as int;
                if x_witness(snap, w_in, vis_in, o, velocity.x as int, vx_in as int) {
                    lemma_x_witness_carry(snap, w_in, vis_in, *world, vis@, o, velocity.x as int, vx_in as int);
                } else {
                    lemma_y_witness_carry(snap, w_in, vis_in, *world, vis@, o, velocity.y as int, vy_in as int);
                }
            }
        }
        // Under the collision-free hypothesis nothing here fired.
        if !x_confirmed(snap, w0.body(id as int).aabb, vtx as int, vty as int) && !y_confirmed(
            snap,
            w0.body(id as int).aabb,
            vtx as int,
            vty as int,
        ) && vx_in == vtx && vy_in == vty && vis_in == vis0 && (forall|j: int|
            0 <= j < n ==> w_in.body(j) == w0.body(j)) {
            assert(w_in.body(id as int) == w0.body(id as int));
            assert(xc0 is None && yc0 is None);
        }
        if ret.x == 0 && velocity.x != 0 {
            assert(has_x_witness(snap, *world, vis@, entity as int, velocity.x as int, vx as int));
        }
        if ret.y == 0 && velocity.y != 0 {
            assert(has_y_witness(snap, *world, vis@, entity as int, velocity.y as int, vy as int));
        }
    }
    (vx, vy, ret, res, vis)
}

/// A visited set never counts more unvisited entries than it has entries.
proof fn lemma_count_le_len(s: Seq<bool>)
    ensures
        count_unvisited(s) <= s.len(),
    decreases s.len(),
{
    if s.len() > 0 {
        lemma_count_le_len(s.drop_last());
    }
}

/// Resolve one tick of motion: move `entity` by `velocity / PHYS_FPS`,
/// clamped against every other body in spawn order so that it settles one
/// subpixel short of anything it genuinely collides with, pushing pushable
/// obstacles along with the exact remaining approach vector (each obstacle
/// at most once per call).  Returns the achieved velocity — the input
/// velocity with every blocked axis zeroed — and the last
/// confirmed-blocking obstacle with its velocity marker, or `Nothing` when
/// no axis was blocked.
pub fn move_and_slide(entity: usize, velocity: PhysVec, world: &mut PhysWorld) -> (r: (
    PhysVec,
    CollisionResult,
))
    requires
        entity < old(world).n(),
        world_wf(*old(world)),
        abs(velocity.x as int) <= VEL_LIMIT,
        abs(velocity.y as int) <= VEL_LIMIT,
    ensures
        final(world).n() == old(world).n(),
        statics_preserved(*old(world), *final(world)),
        forall|j: int|
            0 <= j < old(world).n() && j != entity && (#[trigger] final(world).body(j)) != old(
                world,
            ).body(j) ==> old(world).body(j).pushable,
        forall|j: int|
            0 <= j < old(world).n() ==> aabb_in(
                (#[trigger] final(world).body(j)).aabb,
                COORD_SLACK as int,
            ),
        ({
            let p0 = old(world).body(entity as int).aabb.pos;
            let p1 = final(world).body(entity as int).aabb.pos;
            &&& abs(p1.x - p0.x) <= abs(div_tz(velocity.x as int, PHYS_FPS as int))
            &&& abs(p1.y - p0.y) <= abs(div_tz(velocity.y as int, PHYS_FPS as int))
            &&& (velocity.x >= 0 ==> p1.x >= p0.x)
            &&& (velocity.x <= 0 ==> p1.x <= p0.x)
            &&& (velocity.y >= 0 ==> p1.y >= p0.y)
            &&& (velocity.y <= 0 ==> p1.y <= p0.y)
        }),
        r.0.x == velocity.x || r.0.x == 0,
        r.0.y == velocity.y || r.0.y == 0,
        (r.1 is Nothing) <==> r.0 == velocity,
        r.1 matches CollisionResult::With { other, marked_velocity } ==> other
            < old(world).n() && other != entity && marked_velocity == old(world).body(
            other as int,
        ).marker,
        r.1 matches CollisionResult::With { other, .. } ==> (x_separated(
            final(world).body(entity as int).aabb,
            final(world).body(other as int).aabb,
        ) && x_gap(
            final(world).body(entity as int).aabb,
            final(world).body(other as int).aabb,
        ) == sgn(velocity.x as int)) || (y_separated(
            final(world).body(entity as int).aabb,
            final(world).body(other as int).aabb,
        ) && y_gap(
            final(world).body(entity as int).aabb,
            final(world).body(other as int).aabb,
        ) == sgn(velocity.y as int)),
        non_colliding(
            *old(world),
            entity as int,
            old(world).body(entity as int).aabb,
            div_tz(velocity.x as int, PHYS_FPS as int),
            div_tz(velocity.y as int, PHYS_FPS as int),
        ) ==> ({
            &&& final(world).body(entity as int).aabb.pos.x == old(world).body(
                entity as int,
            ).aabb.pos.x + div_tz(velocity.x as int, PHYS_FPS as int)
            &&& final(world).body(entity as int).aabb.pos.y == old(world).body(
                entity as int,
            ).aabb.pos.y + div_tz(velocity.y as int, PHYS_FPS as int)
            &&& r.0 == velocity
            &&& r.1 is Nothing
            &&& forall|j: int|
                0 <= j < old(world).n() && j != entity ==> final(world).body(j) == old(
                    world,
                ).body(j)
        }),
        (r.0.x == 0 && velocity.x != 0) ==> exists|j: int|
            0 <= j < old(world).n() && j != entity && x_separated(
                final(world).body(entity as int).aabb,
                (#[trigger] final(world).body(j)).aabb,
            ) && x_gap(final(world).body(entity as int).aabb, final(world).body(j).aabb) == sgn(
                velocity.x as int,
            ),
        (r.0.y == 0 && velocity.y != 0) ==> exists|j: int|
            0 <= j < old(world).n() && j != entity && y_separated(
                final(world).body(entity as int).aabb,
                (#[trigger] final(world).body(j)).aabb,
            ) && y_gap(final(world).body(entity as int).aabb, final(world).body(j).aabb) == sgn(
                velocity.y as int,
            ),
        velocity.x == 0 && velocity.y == 0 ==> final(world).bodies@ == old(world).bodies@ && r.0
            == velocity && r.1 is Nothing,
{
    let n = world.len();
    let mut visited: Vec<bool> = Vec::new();
    let mut i: usize = 0;
    while i < n
        invariant
            visited@.len() == i,
            i <= n,
            forall|k: int| 0 <= k < i ==> !visited@[k],
        decreases n - i,
    {
        visited.push(false);
        i = i + 1;
    }
    visited[entity] = true;
    proof {
        lemma_count_le_len(visited@);
        assert(vis_bounds(*world, visited@));
    }
    let ghost vis1 = visited@;
    let rr = slide_rec(entity, velocity, world, visited, n);
    proof {
        // With only the mover marked at entry, the frame condition says
        // that any other changed body is pushable.
        assert forall|j: int|
            0 <= j < old(world).n() && j != entity && (#[trigger] world.body(j)) != old(
                world,
            ).body(j) implies old(world).body(j).pushable by {
            assert(!vis1[j]);
        }
        if velocity.x == 0 && velocity.y == 0 {
            let snap = old(world).body(entity as int).aabb;
            lemma_div_tz_abs_le(0, PHYS_FPS as int);
            assert forall|j: int| 0 <= j < old(world).n() && j != entity implies !x_confirmed(
                snap,
                (#[trigger] old(world).body(j)).aabb,
                0,
                0,
            ) && !y_confirmed(snap, old(world).body(j).aabb, 0, 0) by {
                lemma_gap_nonzero(snap, old(world).body(j).aabb);
            }
            assert(non_colliding(*old(world), entity as int, snap, 0, 0));
            assert(world.body(entity as int) == old(world).body(entity as int));
            assert(world.bodies@ =~= old(world).bodies@);
        }
    }
    (rr.0, rr.1)
}

} // verus!
