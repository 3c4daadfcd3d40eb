//! Object-lifecycle simulation, perspective model and plane-intersection
//! geometry for a frame-driven "cosmic" particle animation.
//!
//! All quantities are fixed-point integers: lengths are thousandths of a
//! world unit, times are milliseconds, and ratios (opacity, scale, fade)
//! are thousandths of one.
pub mod geometry;
pub mod intersection;
pub mod cube;
pub mod space;
pub mod random;
pub mod effects;
pub mod motion;
pub mod objects;
pub mod system;
pub mod registry;
pub mod cubes;
