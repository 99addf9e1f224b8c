//! Vector arithmetic, box edges, axis gaps and the interpolation blend.

use fixphys::phys;
use fixphys::phys::{aabb_subpx, aabb_tiles, lerp_fix, x_dist, y_dist, zero};

#[test]
fn vector_componentwise_ops() {
    assert_eq!(zero(), phys::vec(0, 0));
    assert_eq!(phys::vec(3, -4).add(phys::vec(10, 20)), phys::vec(13, 16));
    // Scalar multiply is a Q24.8 multiply per component: * 2.0 here.
    assert_eq!(phys::vec(300, -500).scale(512), phys::vec(600, -1000));
    // Division truncates toward zero on both signs.
    assert_eq!(phys::vec(-100, 100).div(120), phys::vec(0, 0));
    assert_eq!(phys::vec(-250, 250).div(120), phys::vec(-2, 2));
}

#[test]
fn clamp_length_rescales_long_vectors() {
    let mut v = phys::vec(300, 400);
    v.clamp_length(250);
    assert_eq!(v, phys::vec(150, 200));
    let mut w = phys::vec(30, 40);
    w.clamp_length(50);
    assert_eq!(w, phys::vec(30, 40));
    let mut u = phys::vec(-300, 400);
    u.clamp_length(250);
    assert_eq!(u, phys::vec(-150, 200));
}

#[test]
fn inclusive_edges() {
    let a = aabb_tiles(0, 0, 1, 1);
    assert_eq!(a.left(), 0);
    assert_eq!(a.right(), 4095);
    assert_eq!(a.bottom(), 0);
    assert_eq!(a.top(), 4095);
    let b = aabb_subpx(-10, 5, 3, 7);
    assert_eq!(b.left(), -10);
    assert_eq!(b.right(), -8);
    assert_eq!(b.bottom(), 5);
    assert_eq!(b.top(), 11);
}

#[test]
fn tile_boxes_use_subpixel_scale() {
    let a = aabb_tiles(2, -3, 4, 5);
    assert_eq!(a.pos, phys::vec(2 * 4096, -3 * 4096));
    assert_eq!(a.size, phys::vec(4 * 4096, 5 * 4096));
}

#[test]
fn axis_gaps() {
    let a = aabb_subpx(0, 0, 10, 10);
    let right_of = aabb_subpx(15, 0, 10, 10);
    let left_of = aabb_subpx(-20, 0, 10, 10);
    let above = aabb_subpx(0, 40, 10, 10);
    // Positive gap when the other box is ahead, negative when behind.
    assert_eq!(x_dist(&a, &right_of), Some(6));
    assert_eq!(x_dist(&a, &left_of), Some(-11));
    assert_eq!(y_dist(&a, &above), Some(31));
    assert_eq!(y_dist(&above, &a), Some(-31));
    // Overlap on the axis gives no gap at all.
    assert_eq!(x_dist(&a, &above), None);
    assert_eq!(y_dist(&a, &right_of), None);
    // Exactly adjacent boxes are separated by one subpixel.
    let flush = aabb_subpx(10, 0, 10, 10);
    assert_eq!(x_dist(&a, &flush), Some(1));
}

#[test]
fn lerp_blend() {
    assert_eq!(lerp_fix(0, 100, 0, 2), 0);
    assert_eq!(lerp_fix(0, 100, 1, 2), 50);
    assert_eq!(lerp_fix(0, 100, 2, 2), 100);
    assert_eq!(lerp_fix(-40, 40, 1, 4), -20);
    // The offset truncates toward zero.
    assert_eq!(lerp_fix(0, -5, 1, 2), -2);
}
