//! Scenario tests for the resolver: the original corner and pure-vertical
//! cases, zero-velocity idempotence, free motion, and push propagation.

use fixphys::phys;
use fixphys::phys::{aabb_tiles, PhysVec};
use fixphys::resolver::move_and_slide;
use fixphys::world::{CollisionResult, PhysWorld};

/// Drive the fixed-tick loop: one resolver call per tick with a freshly
/// supplied desired velocity, as the fixed-timestep driver does.
fn run_ticks(player: usize, velocity: PhysVec, world: &mut PhysWorld, ticks: u32) {
    let mut i: u32 = 0;
    while i < ticks {
        let _ = move_and_slide(player, velocity, world);
        i += 1;
    }
}

#[test]
fn basic_y() {
    let mut world = PhysWorld::new();

    // Fake player
    let player = world.spawn(aabb_tiles(0, 0, 1, 1));

    // Add obstacle
    world.spawn(aabb_tiles(0, -2, 5, 1));

    run_ticks(player, phys::vec(0, -256 * 16 * 8), &mut world, 200);

    assert_eq!(world.aabb(player).pos, phys::vec(256 * 16 * 0, 256 * 16 * -1));
}

#[test]
fn corner() {
    let mut world = PhysWorld::new();

    // Fake player
    let player = world.spawn(aabb_tiles(0, 0, 1, 1));

    // Add obstacle
    world.spawn(aabb_tiles(2, -2, 1, 1));

    run_ticks(player, phys::vec(256 * 16 * 8, -256 * 16 * 8), &mut world, 200);

    assert_eq!(world.aabb(player).pos, phys::vec(256 * 16 * 1, 256 * 16 * -1));
}

#[test]
fn settled_positions_are_stable() {
    let mut world = PhysWorld::new();
    let player = world.spawn(aabb_tiles(0, 0, 1, 1));
    world.spawn(aabb_tiles(0, -2, 5, 1));
    run_ticks(player, phys::vec(0, -256 * 16 * 8), &mut world, 50);
    let settled = world.aabb(player).pos;
    run_ticks(player, phys::vec(0, -256 * 16 * 8), &mut world, 50);
    assert_eq!(world.aabb(player).pos, settled);
}

#[test]
fn zero_velocity_changes_nothing() {
    let mut world = PhysWorld::new();
    let player = world.spawn(aabb_tiles(0, 0, 1, 1));
    let floor = world.spawn(aabb_tiles(-2, -1, 8, 1));
    let p0 = world.aabb(player).pos;
    let f0 = world.aabb(floor).pos;
    let (ret, res) = move_and_slide(player, phys::vec(0, 0), &mut world);
    assert_eq!(ret, phys::vec(0, 0));
    assert_eq!(res, CollisionResult::Nothing);
    assert_eq!(world.aabb(player).pos, p0);
    assert_eq!(world.aabb(floor).pos, f0);
}

#[test]
fn free_motion_is_exact() {
    let mut world = PhysWorld::new();
    let player = world.spawn(aabb_tiles(0, 0, 1, 1));
    // No obstacles: one tick moves by exactly velocity / 120, with the
    // division truncating toward zero.
    let (ret, res) = move_and_slide(player, phys::vec(1200, -2400), &mut world);
    assert_eq!(world.aabb(player).pos, phys::vec(10, -20));
    assert_eq!(ret, phys::vec(1200, -2400));
    assert_eq!(res, CollisionResult::Nothing);
}

#[test]
fn truncating_tick_division() {
    let mut world = PhysWorld::new();
    let player = world.spawn(aabb_tiles(0, 0, 1, 1));
    // -100 / 120 truncates to zero, not toward negative infinity.
    let (ret, res) = move_and_slide(player, phys::vec(-100, 119), &mut world);
    assert_eq!(world.aabb(player).pos, phys::vec(0, 0));
    assert_eq!(ret, phys::vec(-100, 119));
    assert_eq!(res, CollisionResult::Nothing);
}

#[test]
fn blocked_axis_settles_one_subpixel_short() {
    let mut world = PhysWorld::new();
    let player = world.spawn(aabb_tiles(0, 0, 1, 1));
    let wall = world.spawn(aabb_tiles(1, 0, 1, 1));
    // Gap of one subpixel: any rightward motion confirms and clamps to
    // zero displacement; the returned velocity has X zeroed.
    let (ret, res) = move_and_slide(player, phys::vec(256 * 16 * 8, 0), &mut world);
    assert_eq!(world.aabb(player).pos, phys::vec(0, 0));
    assert_eq!(ret, phys::vec(0, 0));
    assert_eq!(
        res,
        CollisionResult::With { other: wall, marked_velocity: phys::vec(0, 0) }
    );
}

#[test]
fn near_miss_passes_diagonally() {
    let mut world = PhysWorld::new();
    let player = world.spawn(aabb_tiles(0, 0, 1, 1));
    // Obstacle up and to the right; moving right and *down* clears it.
    world.spawn(aabb_tiles(1, 1, 1, 1));
    let (ret, res) = move_and_slide(player, phys::vec(120 * 600, -120 * 600), &mut world);
    assert_eq!(world.aabb(player).pos, phys::vec(600, -600));
    assert_eq!(ret, phys::vec(120 * 600, -120 * 600));
    assert_eq!(res, CollisionResult::Nothing);
}

#[test]
fn push_propagation_moves_both() {
    let mut world = PhysWorld::new();
    let player = world.spawn(aabb_tiles(0, 0, 1, 1));
    let crate_box = world.spawn(aabb_tiles(1, 0, 1, 1));
    world.insert_pushable(crate_box, fixphys::phys::Pushable {});
    // 300 subpixels of travel this tick against a box one subpixel away:
    // the box is pushed with the remaining approach vector (299 subpixels
    // of travel), then the mover settles one subpixel behind it.
    let (ret, res) = move_and_slide(player, phys::vec(36000, 0), &mut world);
    assert_eq!(world.aabb(player).pos, phys::vec(299, 0));
    assert_eq!(world.aabb(crate_box).pos, phys::vec(4096 + 299, 0));
    assert_eq!(ret, phys::vec(0, 0));
    assert_eq!(
        res,
        CollisionResult::With { other: crate_box, marked_velocity: phys::vec(0, 0) }
    );
}

#[test]
fn pushable_blocked_by_wall_blocks_pusher() {
    let mut world = PhysWorld::new();
    let player = world.spawn(aabb_tiles(0, 0, 1, 1));
    let crate_box = world.spawn(aabb_tiles(1, 0, 1, 1));
    let wall = world.spawn(aabb_tiles(2, 0, 1, 6));
    world.insert_pushable(crate_box, fixphys::phys::Pushable {});
    // The crate starts flush against the wall (gap 1): it cannot move, so
    // the player is blocked by it; nobody overlaps anybody.
    let (ret, _res) = move_and_slide(player, phys::vec(256 * 16 * 8, 0), &mut world);
    assert_eq!(ret, phys::vec(0, 0));
    assert_eq!(world.aabb(crate_box).pos, phys::vec(4096, 0));
    assert_eq!(world.aabb(player).pos, phys::vec(0, 0));
    let _ = wall;
}

#[test]
fn push_happens_once_per_call() {
    let mut world = PhysWorld::new();
    let player = world.spawn(aabb_tiles(0, 0, 1, 1));
    let crate_box = world.spawn(aabb_tiles(1, 0, 1, 1));
    world.insert_pushable(crate_box, fixphys::phys::Pushable {});
    // After the single allowed push the crate has exactly the remaining
    // approach travel, not twice it: 36000/120 = 300 of intent, 299
    // remaining after the 1-subpixel gap, so the crate lands at +299.
    let (_ret, _res) = move_and_slide(player, phys::vec(36000, 0), &mut world);
    assert_eq!(world.aabb(crate_box).pos.x - 4096, 299);
}
