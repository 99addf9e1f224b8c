//! Per-tick gameplay rules built on the resolver: the player's velocity
//! integration (drag against what was last hit, input acceleration,
//! gravity, jumping) and the back-and-forth moving platform.  Inputs
//! arrive as plain fixed-point values; reading the keyboard and deciding
//! frame timing stay outside the core.

use vstd::prelude::*;

verus! {

use vstd::math::abs;
use crate::arith::{div_tz, sgn, abs_i32, sign_i32, div_i32_tz, lemma_div_tz_abs_le};
use crate::fixp::fix_mul;
use crate::phys::{PhysVec, PHYS_FPS};
use crate::world::{PhysWorld, CollisionResult};
use crate::resolver::{move_and_slide, world_wf, VEL_LIMIT, COORD_SLACK};

/// Player acceleration under full input, in subpixels per second squared.
pub const ACCEL: i32 = 256 * 16 * 64;

/// Drag applied against the surface the player last collided with.
pub const DRAG: i32 = 256 * 16 * 16;

/// Horizontal speed cap and downward terminal velocity, subpixels/second.
pub const MAX_VEL: i32 = 256 * 16 * 16;

/// Gravity, in subpixels per second squared.
pub const GRAVITY: i32 = 256 * 16 * 32;

/// Upward velocity set on a jump, in subpixels per second.
pub const JUMP_VEL: i32 = 256 * 16 * 16;

/// `v` clamped into `[lo, hi]`.
pub open spec fn clamp_spec(v: int, lo: int, hi: int) -> int {
    if v < lo {
        lo
    } else if v > hi {
        hi
    } else {
        v
    }
}

/// `v` clamped into `[lo, hi]`.
pub fn clamp_i32(v: i32, lo: i32, hi: i32) -> (r: i32)
    requires
        lo <= hi,
    ensures
        r == clamp_spec(v as int, lo as int, hi as int),
{
    if v < lo {
        lo
    } else if v > hi {
        hi
    } else {
        v
    }
}

/// The horizontal velocity the drag-and-input rule produces: drag pulls
/// the velocity toward the marked velocity of whatever was last hit (or
/// toward zero), never overshooting it, then input acceleration is added
/// and the result is capped at the speed limit.
pub open spec fn player_vx_spec(
    velocity: PhysVec,
    last_collision: CollisionResult,
    input_x: int,
) -> int {
    let dv = match last_collision {
        CollisionResult::With { marked_velocity, .. } => velocity.x - marked_velocity.x,
        CollisionResult::Nothing => velocity.x as int,
    };
    let drag = clamp_spec(div_tz(sgn(dv) * -DRAG, PHYS_FPS as int), -abs(dv), abs(dv) as int);
    let accel = div_tz(div_tz(input_x * ACCEL, 256), PHYS_FPS as int);
    clamp_spec(velocity.x + drag + accel, -MAX_VEL as int, MAX_VEL as int)
}

/// The vertical velocity after gravity, terminal velocity and jumping.
pub open spec fn player_vy_spec(velocity: PhysVec, jump_pressed: bool) -> int {
    if jump_pressed {
        JUMP_VEL as int
    } else {
        let vy = velocity.y - div_tz(GRAVITY as int, PHYS_FPS as int);
        if vy < -MAX_VEL {
            -MAX_VEL as int
        } else {
            vy
        }
    }
}

/// One tick of the player's velocity update: horizontal drag relative to
/// the velocity marker of the last obstacle hit, clamped so it never
/// reverses the relative motion, then input acceleration and the speed
/// cap; vertically gravity with a terminal velocity, overridden by a
/// jump.  `input` is the frame's direction, scaled so that full
/// deflection is 256.
pub fn player_update(
    velocity: PhysVec,
    last_collision: CollisionResult,
    input: PhysVec,
    jump_pressed: bool,
) -> (r: PhysVec)
    requires
        abs(velocity.x as int) <= VEL_LIMIT,
        abs(velocity.y as int) <= VEL_LIMIT,
        abs(input.x as int) <= 256,
        last_collision matches CollisionResult::With { marked_velocity, .. } ==> abs(
            marked_velocity.x as int,
        ) <= VEL_LIMIT,
    ensures
        r.x == player_vx_spec(velocity, last_collision, input.x as int),
        r.y == player_vy_spec(velocity, jump_pressed),
        abs(r.x as int) <= MAX_VEL,
        abs(r.y as int) <= VEL_LIMIT,
{
    let drag_vec: i32 = match last_collision {
        CollisionResult::With { marked_velocity, .. } => velocity.x - marked_velocity.x,
        CollisionResult::Nothing => velocity.x,
    };
    let drag0: i32 = div_i32_tz(sign_i32(drag_vec) * -DRAG, PHYS_FPS);
    let mag: i32 = abs_i32(drag_vec);
    let drag: i32 = clamp_i32(drag0, -mag, mag);
    let mut vx: i32 = velocity.x + drag;
    proof {
        lemma_small_product_quotients(input.x as int);
    }
    let accel_x: i32 = fix_mul(input.x, ACCEL);
    vx = vx + div_i32_tz(accel_x, PHYS_FPS);
    vx = clamp_i32(vx, -MAX_VEL, MAX_VEL);
    let mut vy: i32 = velocity.y - div_i32_tz(GRAVITY, PHYS_FPS);
    if vy < -MAX_VEL {
        vy = -MAX_VEL;
    }
    if jump_pressed {
        vy = JUMP_VEL;
    }
    PhysVec { x: vx, y: vy }
}

/// Bounds on the drag and acceleration terms of the player update.
proof fn lemma_small_product_quotients(ix: int)
    requires
        abs(ix) <= 256,
    ensures
        abs(div_tz(ix * ACCEL, 256)) <= 0x100_0000,
        abs(div_tz(div_tz(ix * ACCEL, 256), PHYS_FPS as int)) <= 0x100_0000,
{
    assert(abs(ix * ACCEL) <= 256 * ACCEL) by (nonlinear_arith)
        requires
            abs(ix) <= 256,
    ;
    crate::arith::lemma_div_tz_abs_le(ix * ACCEL, 256);
    crate::arith::lemma_div_tz_mono_abs(ix * ACCEL, 256 * ACCEL, 256);
    assert(abs(div_tz(256 * ACCEL, 256)) <= ACCEL) by {
        vstd::arithmetic::div_mod::lemma_div_multiples_vanish(ACCEL as int, 256);
    }
    crate::arith::lemma_div_tz_abs_le(div_tz(ix * ACCEL, 256), PHYS_FPS as int);
}

/// A platform that shuttles back and forth: it moves `length` subpixels
/// in `direction`, then turns around.
pub struct BasicMovingPlatform {
    /// Total travel in subpixels before turning around.
    pub length: i32,
    /// Travel left in the current direction.
    pub length_remaining: i32,
    /// Speed in subpixels per second.
    pub speed: i32,
    /// Current travel direction: +1 or -1.
    pub direction: i32,
}

impl BasicMovingPlatform {
    /// The platform's own invariant: positive bounded travel and speed,
    /// a unit direction, and remaining travel within the total.
    pub open spec fn wf(self) -> bool {
        &&& 0 < self.length <= VEL_LIMIT
        &&& 0 <= self.length_remaining <= self.length
        &&& 0 < self.speed <= VEL_LIMIT
        &&& self.direction == 1 || self.direction == -1
    }
}

/// One tick of a moving platform: drive it at its speed — or just fast
/// enough to finish its remaining travel this tick — through the
/// resolver, consume the travel it achieved, turn it around when the
/// travel is used up, and record the achieved velocity in its marker for
/// entities dragging along on top.  Returns the achieved velocity.
pub fn moving_platform_physics(
    id: usize,
    mp: &mut BasicMovingPlatform,
    world: &mut PhysWorld,
) -> (r: PhysVec)
    requires
        id < old(world).n(),
        world_wf(*old(world)),
        old(mp).wf(),
    ensures
        final(mp).wf(),
        final(mp).length == old(mp).length,
        final(mp).speed == old(mp).speed,
        ({
            let inc = vstd::math::min(
                old(mp).length_remaining * PHYS_FPS,
                old(mp).speed as int,
            );
            &&& (r.x == inc * old(mp).direction || r.x == 0)
            &&& r.y == 0
            &&& (old(mp).length_remaining - abs(r.x as int) <= 0 ==> final(mp).length_remaining == old(mp).length && final(mp).direction == -old(mp).direction)
            &&& (old(mp).length_remaining - abs(r.x as int) > 0 ==> final(mp).length_remaining == old(mp).length_remaining - abs(r.x as int) && final(mp).direction == old(mp).direction)
        }),
        final(world).n() == old(world).n(),
        final(world).body(id as int).marker == (PhysVec { x: r.x, y: 0 }),
        forall|j: int|
            0 <= j < old(world).n() && j != id ==> (#[trigger] final(world).body(j)).marker == old(world).body(j).marker,
        forall|j: int|
            0 <= j < old(world).n() ==> (#[trigger] final(world).body(j)).pushable == old(world).body(j).pushable && final(world).body(j).lerp == old(world).body(j).lerp && final(world).body(j).aabb.size == old(world).body(j).aabb.size,
        forall|j: int|
            0 <= j < old(world).n() && j != id && (#[trigger] final(world).body(j)).aabb != old(world).body(j).aabb ==> old(world).body(j).pushable,
        forall|j: int|
            0 <= j < old(world).n() ==> crate::phys::aabb_in(
                (#[trigger] final(world).body(j)).aabb,
                COORD_SLACK as int,
            ),
        ({
            let inc = vstd::math::min(old(mp).length_remaining * PHYS_FPS, old(mp).speed as int);
            let vx = inc * old(mp).direction;
            crate::resolver::non_colliding(
                *old(world),
                id as int,
                old(world).body(id as int).aabb,
                div_tz(vx, PHYS_FPS as int),
                0,
            ) ==> r.x == vx && final(world).body(id as int).aabb.pos.x == old(world).body(
                id as int,
            ).aabb.pos.x + div_tz(vx, PHYS_FPS as int) && final(world).body(id as int).aabb.pos.y
                == old(world).body(id as int).aabb.pos.y
        }),
{
    let travel: i32 = mp.length_remaining * PHYS_FPS;
    let increment: i32 = if travel < mp.speed {
        travel
    } else {
        mp.speed
    };
    let vel = PhysVec { x: increment * mp.direction, y: 0 };
    proof {
        assert(abs(vel.x as int) <= VEL_LIMIT);
    }
    let rr = move_and_slide(id, vel, world);
    let res = rr.0;
    proof {
        lemma_div_tz_abs_le(0, PHYS_FPS as int);
    }
    let moved: i32 = abs_i32(res.x);
    mp.length_remaining = mp.length_remaining - moved;
    if mp.length_remaining <= 0 {
        mp.length_remaining = mp.length;
        mp.direction = -mp.direction;
    }
    world.set_marker(id, PhysVec { x: res.x, y: 0 });
    res
}

} // verus!
