//! The world store, the player velocity rule and the moving platform.

use fixphys::gameplay::{moving_platform_physics, player_update, BasicMovingPlatform};
use fixphys::phys;
use fixphys::phys::{aabb_subpx, aabb_tiles, Pushable};
use fixphys::world::{CollisionResult, PhysWorld};

#[test]
fn world_store_roundtrip() {
    let mut world = PhysWorld::new();
    assert_eq!(world.len(), 0);
    let a = world.spawn(aabb_tiles(0, 0, 1, 2));
    let b = world.spawn(aabb_tiles(3, 0, 1, 1));
    assert_eq!(world.len(), 2);
    assert_eq!(world.aabb(a).pos, phys::vec(0, 0));
    assert_eq!(world.aabb(b).pos, phys::vec(3 * 4096, 0));
    assert!(!world.is_pushable(a));
    world.insert_pushable(a, Pushable {});
    assert!(world.is_pushable(a));
    assert!(!world.is_pushable(b));
    assert_eq!(world.marker(b), phys::vec(0, 0));
    world.set_marker(b, phys::vec(7, -7));
    assert_eq!(world.marker(b), phys::vec(7, -7));
    // Snapshots follow the authoritative position when recorded.
    assert_eq!(world.lerp_pos(a), phys::vec(0, 0));
    world.set_aabb(a, aabb_subpx(100, 200, 4096, 8192));
    assert_eq!(world.lerp_pos(a), phys::vec(0, 0));
    world.record_lerp_snapshots();
    assert_eq!(world.lerp_pos(a), phys::vec(100, 200));
}

#[test]
fn player_accelerates_and_falls() {
    let v = player_update(phys::vec(0, 0), CollisionResult::Nothing, phys::vec(256, 0), false);
    // Full input: 256 * ACCEL / 256 / 120 = 2184 to the right; gravity
    // pulls 131072 / 120 = 1092 down.
    assert_eq!(v, phys::vec(2184, -1092));
}

#[test]
fn player_drag_without_input() {
    let v = player_update(phys::vec(1000, 0), CollisionResult::Nothing, phys::vec(0, 0), false);
    assert_eq!(v.x, 1000 - 546);
    let w = player_update(phys::vec(100, 0), CollisionResult::Nothing, phys::vec(0, 0), false);
    // Drag never overshoots the relative velocity.
    assert_eq!(w.x, 0);
}

#[test]
fn player_drag_is_relative_to_marker() {
    let hit = CollisionResult::With { other: 1, marked_velocity: phys::vec(2000, 0) };
    let v = player_update(phys::vec(1000, 0), hit, phys::vec(0, 0), false);
    // Relative velocity is -1000, so drag pushes +546 toward the platform.
    assert_eq!(v.x, 1000 + 546);
}

#[test]
fn player_jump_and_terminal_velocity() {
    let v = player_update(phys::vec(0, 0), CollisionResult::Nothing, phys::vec(0, 0), true);
    assert_eq!(v.y, 256 * 16 * 16);
    let w = player_update(phys::vec(0, -256 * 16 * 16), CollisionResult::Nothing, phys::vec(0, 0), false);
    assert_eq!(w.y, -256 * 16 * 16);
}

#[test]
fn player_speed_cap() {
    let v = player_update(phys::vec(256 * 16 * 16, 0), CollisionResult::Nothing, phys::vec(256, 0), false);
    assert_eq!(v.x, 256 * 16 * 16);
}

#[test]
fn platform_shuttles_and_marks() {
    let mut world = PhysWorld::new();
    let id = world.spawn(aabb_tiles(0, 0, 1, 1));
    let mut mp = BasicMovingPlatform {
        length: 8192,
        length_remaining: 8192,
        speed: 4096,
        direction: 1,
    };
    let r = moving_platform_physics(id, &mut mp, &mut world);
    // Free travel: the full speed is achieved and consumed.
    assert_eq!(r, phys::vec(4096, 0));
    assert_eq!(mp.length_remaining, 4096);
    assert_eq!(mp.direction, 1);
    assert_eq!(world.marker(id), phys::vec(4096, 0));
    assert_eq!(world.aabb(id).pos, phys::vec(4096 / 120, 0));
    let r2 = moving_platform_physics(id, &mut mp, &mut world);
    assert_eq!(r2, phys::vec(4096, 0));
    // Travel used up: the platform turns around and reloads its length.
    assert_eq!(mp.length_remaining, 8192);
    assert_eq!(mp.direction, -1);
}

#[test]
fn platform_blocked_reports_zero() {
    let mut world = PhysWorld::new();
    let id = world.spawn(aabb_tiles(0, 0, 1, 1));
    world.spawn(aabb_tiles(1, 0, 1, 1));
    let mut mp = BasicMovingPlatform {
        length: 8192,
        length_remaining: 8192,
        speed: 4096,
        direction: 1,
    };
    let r = moving_platform_physics(id, &mut mp, &mut world);
    assert_eq!(r, phys::vec(0, 0));
    assert_eq!(mp.length_remaining, 8192);
    assert_eq!(world.marker(id), phys::vec(0, 0));
}
