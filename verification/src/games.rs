//! The rules of the example games, apart from their windows and loops.

pub mod fighting;
pub mod massive_sim;
pub mod physics_2d;
