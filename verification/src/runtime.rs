//! Timer, fixed-timestep scheduler and profiler.

pub mod game_loop;
pub mod profiler;
pub mod timing;

pub use game_loop::{ConfigError, FrameTick, GameLoop, LoopState};
pub use profiler::{ProfileSample, Profiler};
pub use timing::{ScopedTimer, Timer};
