//! The display conversion against plain floating-point division, and the
//! fixed-point multiply.

use fixphys::fixp::{fix_mul, FixP};

#[test]
fn display_zero() {
    assert_eq!(f32::from_bits(FixP(0).to_display_bits()), 0.0f32);
}

#[test]
fn display_whole_values() {
    assert_eq!(f32::from_bits(FixP(2304).to_display_bits()), 9.0f32);
    assert_eq!(f32::from_bits(FixP(-2304).to_display_bits()), -9.0f32);
    assert_eq!(f32::from_bits(FixP(256).to_display_bits()), 1.0f32);
    assert_eq!(f32::from_bits(FixP(256 * 16).to_display_bits()), 16.0f32);
}

#[test]
fn display_fractions() {
    assert_eq!(f32::from_bits(FixP(128).to_display_bits()), 0.5f32);
    assert_eq!(f32::from_bits(FixP(1).to_display_bits()), 1.0f32 / 256.0f32);
    assert_eq!(f32::from_bits(FixP(-64).to_display_bits()), -0.25f32);
    assert_eq!(f32::from_bits(FixP(384).to_display_bits()), 1.5f32);
}

#[test]
fn display_matches_float_division_exhaustively() {
    // Below 2^24 the conversion is exact, so it must agree bit for bit
    // with the floating quotient, which is also exact there.
    let mut v: i32 = -300_000;
    while v <= 300_000 {
        assert_eq!(
            f32::from_bits(FixP(v).to_display_bits()),
            (v as f32) / 256.0f32,
            "value {}",
            v
        );
        v += 7;
    }
    // A sample of large magnitudes, still inside the exact window.
    let samples = [
        1, 2, 3, 255, 257, 65535, 1 << 20, (1 << 24) - 1, -((1 << 24) - 1),
    ];
    for s in samples {
        assert_eq!(f32::from_bits(FixP(s).to_display_bits()), (s as f32) / 256.0f32);
    }
}

#[test]
fn display_truncates_above_24_bits() {
    // 2^24 + 3 subpixels: the lowest magnitude bit no longer fits in the
    // 23-bit mantissa and is dropped (round toward zero), giving
    // 65536.0078125 rather than the nearest float 65536.015625.
    assert_eq!(
        f32::from_bits(FixP(16_777_219).to_display_bits()),
        65536.0078125f32
    );
    // Exactly 2^24 needs no low bits at all and stays exact.
    assert_eq!(f32::from_bits(FixP(16_777_216).to_display_bits()), 65536.0f32);
}

#[test]
fn fix_mul_is_q24_8_multiply() {
    // 2.0 * 3.0 = 6.0
    assert_eq!(fix_mul(512, 768), 1536);
    // Sign handling and truncation toward zero.
    assert_eq!(fix_mul(-512, 768), -1536);
    assert_eq!(fix_mul(1, 100), 0);
    assert_eq!(fix_mul(-1, 100), 0);
    // 0.5 * 0.5 = 0.25
    assert_eq!(fix_mul(128, 128), 64);
    // Wide intermediate: 65536.0 * 2.0
    assert_eq!(fix_mul(256 * 65536, 512), 512 * 65536);
}
