//! Fixed-point scalars and the vectors built from them.

pub mod fixed_point;
pub mod simd;
pub mod vec2;

pub use fixed_point::FixedPoint;
pub use vec2::Vec2;
