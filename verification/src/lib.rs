//! Deterministic fixed-point 2D physics core for a platformer.
//!
//! All simulation quantities are Q24.8 fixed-point integers (256 subpixel
//! units per pixel, 16 pixels per tile); no floating point exists anywhere
//! in the simulation.  The crate provides the numeric type and its display
//! conversion, 2D vectors and axis-aligned boxes over it, axis-gap queries,
//! the `move_and_slide` collision resolver with recursive push propagation,
//! and the fixed-tick/render interpolation helpers.

pub mod arith;
pub mod fixp;
pub mod gameplay;
pub mod phys;
pub mod resolver;
pub mod world;
