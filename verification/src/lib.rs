//! Deterministic 2D simulation core.
//!
//! Every quantity that takes part in the simulation is an integer: positions,
//! velocities and masses are Q16.16 fixed-point numbers, and time is counted
//! in nanoseconds. Two runs that are given the same inputs therefore produce
//! the same bits on every machine.
//!
//! - `math`: fixed-point scalars and vectors
//! - `physics`: bodies, collision tests, contact resolution, broad phase
//! - `runtime`: timer, fixed-timestep scheduler, profiler
//! - `audio`: placeholder for sound
//! - `ecs`: entities and their components
//! - `games`: the rules of the example games
//! - `input`: keyboard and mouse state of one frame
//! - `render`: software renderer that reads the state between steps

pub mod audio;
pub mod ecs;
pub mod games;
pub mod input;
pub mod math;
pub mod physics;
pub mod render;
pub mod runtime;

pub use ecs::World;
pub use input::InputState;
pub use math::{FixedPoint, Vec2};
pub use physics::PhysicsWorld;
pub use render::Renderer;
pub use runtime::{ConfigError, FrameTick, GameLoop, Timer};

use vstd::prelude::*;

verus! {

/// One sixtieth of a second in nanoseconds, rounded down.
pub const DEFAULT_TIMESTEP_NS: i64 = 16_666_666;

/// Engine configuration
#[derive(Clone, Debug)]
pub struct EngineConfig {
    pub title: String,
    pub width: u32,
    pub height: u32,
    /// Length of one simulation step in nanoseconds.
    pub fixed_timestep_ns: i64,
    /// The most simulation steps that one frame may run.
    pub max_frame_skip: u32,
    pub vsync: bool,
}

impl Default for EngineConfig {
    /// A window of 800 by 600 titled "Game Engine X", sixty steps a
    /// second, at most five steps in a frame.
    fn default() -> (r: EngineConfig)
        ensures
            r.title@ == "Game Engine X"@,
            r.width == 800,
            r.height == 600,
            r.fixed_timestep_ns == DEFAULT_TIMESTEP_NS,
            r.max_frame_skip == 5,
            r.vsync,
    {
        EngineConfig {
            title: "Game Engine X".to_owned(),
            width: 800,
            height: 600,
            fixed_timestep_ns: DEFAULT_TIMESTEP_NS,
            max_frame_skip: 5,
            vsync: true,
        }
    }
}

/// What an engine holds.
pub struct EngineState {
    pub config: EngineConfig,
    pub world: ecs::World,
    pub physics: physics::WorldState,
    pub input: input::InputState,
    /// Time not yet turned into steps, in nanoseconds.
    pub accumulator: u128,
    pub frame_count: u64,
    pub running: bool,
}

/// Main engine struct
pub struct Engine {
    pub config: EngineConfig,
    pub world: ecs::World,
    pub physics: physics::PhysicsWorld,
    pub input: input::InputState,
    accumulator: u128,
    frame_count: u64,
    pub running: bool,
}

impl View for Engine {
    type V = EngineState;

    closed spec fn view(&self) -> EngineState {
        EngineState {
            config: self.config,
            world: self.world,
            physics: self.physics@,
            input: self.input,
            accumulator: self.accumulator,
            frame_count: self.frame_count,
            running: self.running,
        }
    }
}

impl EngineState {
    /// The time at hand in a frame of `dt` nanoseconds, at most the
    /// largest 128-bit number.
    pub open spec fn at_hand(self, dt: u64) -> u128 {
        if self.accumulator + dt > u128::MAX {
            u128::MAX
        } else {
            (self.accumulator + dt) as u128
        }
    }

    /// The steps that a frame of `dt` nanoseconds runs: as many as fit
    /// into the time at hand, but no more than the cap, and none where the
    /// timestep is not positive.
    pub open spec fn due(self, dt: u64) -> nat {
        if self.config.fixed_timestep_ns > 0 {
            runtime::game_loop::updates_due(
                self.at_hand(dt) as int,
                self.config.fixed_timestep_ns as int,
                self.config.max_frame_skip as int,
            ) as nat
        } else {
            0
        }
    }

    /// The state after a frame of `dt` nanoseconds: the physics has run the
    /// steps that were due, the accumulator holds the rest and the frame
    /// is counted. Configuration, entities, input and the running flag
    /// stay as they are.
    pub open spec fn updated(self, dt: u64) -> EngineState {
        EngineState {
            accumulator: (self.at_hand(dt) - self.due(dt) * self.config.fixed_timestep_ns) as u128,
            frame_count: runtime::game_loop::wrapping_count(self.frame_count + 1),
            physics: physics::WorldState {
                bodies: physics::run_steps(
                    self.physics.bodies,
                    self.physics.config,
                    self.due(dt),
                ),
                ..self.physics
            },
            ..self
        }
    }
}

impl Engine {
    /// An engine at frame zero with an empty world. A timestep that is
    /// zero or negative is refused.
    pub fn new(config: EngineConfig) -> (r: Result<Self, ConfigError>)
        ensures
            config.fixed_timestep_ns <= 0 ==> r == Err::<Self, ConfigError>(
                ConfigError::NonPositiveTimestep,
            ),
            config.fixed_timestep_ns > 0 ==> r is Ok,
            r matches Ok(engine) ==> {
                &&& engine@.config == config
                &&& engine@.running
                &&& engine@.accumulator == 0
                &&& engine@.frame_count == 0
                &&& engine@.physics == (physics::WorldState {
                    config: physics::PhysicsConfig::spec_default(),
                    bodies: Seq::empty(),
                })
                &&& engine@.input@ == input::InputState::spec_idle()
                &&& engine@.world.entities() == Set::<hecs::Entity>::empty()
                &&& engine@.world.count() == 0
                &&& engine@.world.reservations() == 0
            },
    {
        if config.fixed_timestep_ns <= 0 {
            return Err(ConfigError::NonPositiveTimestep);
        }
        Ok(
            Engine {
                config,
                world: ecs::World::new(),
                physics: physics::PhysicsWorld::new(),
                input: input::InputState::new(),
                accumulator: 0,
                frame_count: 0,
                running: true,
            },
        )
    }

    /// Fixed timestep update - deterministic
    ///
    /// Adds `dt` nanoseconds to the time at hand and runs the physics for
    /// every whole step in it, up to the cap.
    pub fn update(&mut self, dt: u64)
        ensures
            final(self)@ == old(self)@.updated(dt),
    {
        let step: u128 = if self.config.fixed_timestep_ns > 0 {
            self.config.fixed_timestep_ns as u128
        } else {
            0
        };
        let cap: u32 = self.config.max_frame_skip;
        let total: u128 = match self.accumulator.checked_add(dt as u128) {
            Some(sum) => sum,
            None => u128::MAX,
        };
        let mut accumulator: u128 = total;
        let mut updates: u32 = 0;
        while step > 0 && accumulator >= step && updates < cap
            invariant
                updates <= cap,
                cap == self.config.max_frame_skip,
                self.config == old(self).config,
                self.world == old(self).world,
                self.input == old(self).input,
                self.running == old(self).running,
                updates * step + accumulator == total,
                step == 0 ==> updates == 0,
                self.accumulator == old(self).accumulator,
                self.frame_count == old(self).frame_count,
                self.physics@.config == old(self).physics@.config,
                self.physics@.bodies == physics::run_steps(
                    old(self).physics@.bodies,
                    old(self).physics@.config,
                    updates as nat,
                ),
            decreases cap - updates,
        {
            assert((updates + 1) * step == updates * step + step) by (nonlinear_arith);
            self.fixed_update();
            accumulator -= step;
            updates += 1;
        }
        proof {
            assert(total == old(self)@.at_hand(dt));
            if step > 0 {
                assert(step == old(self)@.config.fixed_timestep_ns);
                if accumulator < step {
                    vstd::arithmetic::div_mod::lemma_fundamental_div_mod_converse(
                        total as int,
                        step as int,
                        updates as int,
                        accumulator as int,
                    );
                } else {
                    vstd::arithmetic::div_mod::lemma_div_is_ordered(
                        updates * step,
                        total as int,
                        step as int,
                    );
                    assert((updates * step) / (step as int) == updates) by (nonlinear_arith)
                        requires
                            step > 0,
                    ;
                }
                assert(updates == runtime::game_loop::updates_due(
                    total as int,
                    step as int,
                    cap as int,
                ));
            }
            assert(updates == old(self)@.due(dt));
        }
        self.accumulator = accumulator;
        self.frame_count = self.frame_count.wrapping_add(1);
    }

    /// Fixed update - called at fixed intervals
    fn fixed_update(&mut self)
        ensures
            final(self).config == old(self).config,
            final(self).world == old(self).world,
            final(self).input == old(self).input,
            final(self).running == old(self).running,
            final(self).accumulator == old(self).accumulator,
            final(self).frame_count == old(self).frame_count,
            final(self).physics@.config == old(self).physics@.config,
            final(self).physics@.bodies == physics::step_bodies(
                old(self).physics@.bodies,
                old(self).physics@.config,
            ),
    {
        self.physics.step();
    }

    pub fn frame_count(&self) -> (r: u64)
        ensures
            r == self@.frame_count,
    {
        self.frame_count
    }
}

} // verus!
