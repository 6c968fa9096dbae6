//! Fixed timestep game loop
//!
//! The scheduler turns the irregular time between frames into a whole
//! number of simulation steps of one fixed length. Time that does not fill
//! a step stays in an accumulator for the next frame. No frame is asked to
//! run more steps than the frame-skip cap allows: where the host falls
//! behind, the simulation falls behind the wall clock with it instead of
//! running an unbounded number of steps to catch up, and the time that was
//! not run stays in the accumulator.

use super::timing::Timer;
use crate::math::fixed_point::FixedPoint;
use crate::EngineConfig;
use vstd::arithmetic::div_mod::{
    lemma_div_is_ordered, lemma_fundamental_div_mod, lemma_fundamental_div_mod_converse,
};
use vstd::prelude::*;

verus! {

/// Why a configuration was refused.
#[derive(Clone, Copy, Debug, PartialEq, Eq)]
pub enum ConfigError {
    /// The fixed timestep is zero or negative.
    NonPositiveTimestep,
}

/// Result of one game loop iteration
#[derive(Clone, Copy, Debug)]
pub struct FrameTick {
    /// Current render frame number
    pub frame: u64,
    /// Current simulation tick number
    pub tick: u64,
    /// Number of fixed updates to run this frame
    pub fixed_updates: u32,
    /// Actual time since last frame (variable), in nanoseconds
    pub delta: u64,
    /// Fixed timestep value, in nanoseconds
    pub fixed_dt: u64,
    /// How far the time left over reaches into the next step, for
    /// rendering: 0 up to 1, and the largest number where more than 32767
    /// steps are left over.
    pub interpolation: FixedPoint,
}

impl FrameTick {
    /// The fixed timestep in seconds, rounded down to Q16.16, and the
    /// largest number where the step is longer than that.
    pub open spec fn spec_step_seconds(&self) -> FixedPoint {
        let raw = (self.fixed_dt as int * 65536) / 1_000_000_000;
        if raw > 0x7fff_ffff {
            FixedPoint(0x7fff_ffff)
        } else {
            FixedPoint(raw as i32)
        }
    }

    /// The fixed timestep in seconds.
    pub fn step_seconds(&self) -> (r: FixedPoint)
        ensures
            r == self.spec_step_seconds(),
    {
        let raw: u128 = self.fixed_dt as u128 * 65536 / 1_000_000_000;
        if raw > 0x7fff_ffff {
            FixedPoint(0x7fff_ffff)
        } else {
            FixedPoint(raw as i32)
        }
    }
}

/// What the scheduler carries from one frame to the next.
pub struct LoopState {
    /// The time of the last frame, in nanoseconds since the timer started.
    pub last_time: u64,
    /// Time not yet turned into steps, in nanoseconds.
    pub accumulator: u128,
    /// Length of one step in nanoseconds; never zero.
    pub fixed_dt: u64,
    /// The most steps that one frame may ask for.
    pub max_frame_skip: u32,
    pub frame: u64,
    pub tick: u64,
}

/// The steps that one frame asks for with `accumulator` nanoseconds at
/// hand: as many as fit, but no more than the cap.
pub open spec fn updates_due(accumulator: int, fixed_dt: int, max_frame_skip: int) -> int {
    if accumulator / fixed_dt < max_frame_skip {
        accumulator / fixed_dt
    } else {
        max_frame_skip
    }
}

/// A counter that starts again at zero after the largest 64-bit number.
pub open spec fn wrapping_count(n: int) -> u64 {
    (n % 0x1_0000_0000_0000_0000) as u64
}

/// The left-over share of a step as a Q16.16 fraction, at most the largest
/// number.
pub open spec fn interpolation_of(accumulator: int, fixed_dt: int) -> FixedPoint {
    if accumulator * 65536 / fixed_dt > 0x7fff_ffff {
        FixedPoint(0x7fff_ffff)
    } else {
        FixedPoint((accumulator * 65536 / fixed_dt) as i32)
    }
}

impl LoopState {
    /// The time since the last frame when the timer reads `now`; zero
    /// where the reading went backwards.
    pub open spec fn delta(self, now: u64) -> u64 {
        if now >= self.last_time {
            (now - self.last_time) as u64
        } else {
            0
        }
    }

    /// The time at hand in the frame at `now`, at most the largest 128-bit
    /// number.
    pub open spec fn at_hand(self, now: u64) -> u128 {
        if self.accumulator + self.delta(now) > u128::MAX {
            u128::MAX
        } else {
            (self.accumulator + self.delta(now)) as u128
        }
    }

    /// The steps that the frame at `now` asks for.
    pub open spec fn due(self, now: u64) -> u32 {
        updates_due(
            self.at_hand(now) as int,
            self.fixed_dt as int,
            self.max_frame_skip as int,
        ) as u32
    }

    /// The state after the frame at `now`.
    pub open spec fn advanced(self, now: u64) -> LoopState {
        LoopState {
            last_time: now,
            accumulator: (self.at_hand(now) - self.due(now) * self.fixed_dt) as u128,
            frame: wrapping_count(self.frame + 1),
            tick: wrapping_count(self.tick + self.due(now)),
            ..self
        }
    }

    /// What the frame at `now` reports.
    pub open spec fn report(self, now: u64) -> FrameTick {
        FrameTick {
            frame: self.advanced(now).frame,
            tick: self.advanced(now).tick,
            fixed_updates: self.due(now),
            delta: self.delta(now),
            fixed_dt: self.fixed_dt,
            interpolation: interpolation_of(
                self.advanced(now).accumulator as int,
                self.fixed_dt as int,
            ),
        }
    }
}

/// Game loop state
pub struct GameLoop {
    timer: Timer,
    last_time: u64,
    accumulator: u128,
    fixed_dt: u64,
    max_frame_skip: u32,
    frame: u64,
    tick: u64,
}

impl View for GameLoop {
    type V = LoopState;

    closed spec fn view(&self) -> LoopState {
        LoopState {
            last_time: self.last_time,
            accumulator: self.accumulator,
            fixed_dt: self.fixed_dt,
            max_frame_skip: self.max_frame_skip,
            frame: self.frame,
            tick: self.tick,
        }
    }
}

impl GameLoop {
    #[verifier::type_invariant]
    spec fn well_formed(self) -> bool {
        self.fixed_dt > 0
    }

    /// A loop at frame zero whose timer starts now. A timestep that is
    /// zero or negative is refused.
    pub fn new(config: &EngineConfig) -> (r: Result<Self, ConfigError>)
        ensures
            config.fixed_timestep_ns <= 0 ==> r == Err::<Self, ConfigError>(
                ConfigError::NonPositiveTimestep,
            ),
            config.fixed_timestep_ns > 0 ==> r is Ok && r->Ok_0@ == (LoopState {
                last_time: 0,
                accumulator: 0,
                fixed_dt: config.fixed_timestep_ns as u64,
                max_frame_skip: config.max_frame_skip,
                frame: 0,
                tick: 0,
            }),
    {
        if config.fixed_timestep_ns <= 0 {
            return Err(ConfigError::NonPositiveTimestep);
        }
        let mut timer: Timer = Timer::new();
        timer.start();

        Ok(
            GameLoop {
                timer,
                last_time: 0,
                accumulator: 0,
                fixed_dt: config.fixed_timestep_ns as u64,
                max_frame_skip: config.max_frame_skip,
                frame: 0,
                tick: 0,
            },
        )
    }

    /// Process one frame at the time that the timer shows, returns number
    /// of fixed updates to run. The frame is the one that `advance` would
    /// process at the time which the loop holds as that of its last frame
    /// afterwards.
    pub fn tick(&mut self) -> (r: FrameTick)
        ensures
            final(self)@ == old(self)@.advanced(final(self)@.last_time),
            r == old(self)@.report(final(self)@.last_time),
            r.fixed_updates <= old(self)@.max_frame_skip,
    {
        let current_time: u64 = self.timer.elapsed_ns();
        self.advance(current_time)
    }

    /// Process one frame at the time `current_time`, in nanoseconds since
    /// the timer started, returns number of fixed updates to run.
    pub fn advance(&mut self, current_time: u64) -> (r: FrameTick)
        ensures
            final(self)@ == old(self)@.advanced(current_time),
            r == old(self)@.report(current_time),
            r.fixed_updates <= old(self)@.max_frame_skip,
    {
        proof {
            use_type_invariant(&*self);
        }
        let delta_ns: u64 = current_time.saturating_sub(self.last_time);
        let fixed_dt: u128 = self.fixed_dt as u128;
        let total: u128 = match self.accumulator.checked_add(delta_ns as u128) {
            Some(sum) => sum,
            None => u128::MAX,
        };
        let mut accumulator: u128 = total;
        let mut tick: u64 = self.tick;

        // Count fixed updates needed
        let mut updates: u32 = 0;
        while accumulator >= fixed_dt && updates < self.max_frame_skip
            invariant
                fixed_dt > 0,
                updates <= self.max_frame_skip,
                updates * fixed_dt + accumulator == total,
                tick == wrapping_count(self.tick + updates),
            decreases self.max_frame_skip - updates,
        {
            assert((updates + 1) * fixed_dt == updates * fixed_dt + fixed_dt) by (nonlinear_arith);
            accumulator -= fixed_dt;
            tick = tick.wrapping_add(1);
            updates += 1;
        }
        proof {
            if accumulator < fixed_dt {
                lemma_fundamental_div_mod_converse(
                    total as int,
                    fixed_dt as int,
                    updates as int,
                    accumulator as int,
                );
            } else {
                assert(total >= updates * fixed_dt);
                lemma_div_is_ordered(updates * fixed_dt, total as int, fixed_dt as int);
                assert((updates * fixed_dt) / (fixed_dt as int) == updates) by (nonlinear_arith)
                    requires
                        fixed_dt > 0,
                ;
            }
            assert(updates == updates_due(
                total as int,
                fixed_dt as int,
                self.max_frame_skip as int,
            ));
        }
        let frame: u64 = self.frame.wrapping_add(1);
        let scaled: u128 = match accumulator.checked_mul(65536) {
            Some(product) => product / fixed_dt,
            None => u128::MAX,
        };
        proof {
            if accumulator * 65536 > u128::MAX {
                lemma_div_is_ordered(
                    0x1_0000_0000_0000_0000_0000_0000_0000_0000int,
                    accumulator * 65536,
                    fixed_dt as int,
                );
                assert(0x1_0000_0000_0000_0000_0000_0000_0000_0000int / (fixed_dt as int)
                    >= 0x1_0000_0000_0000_0000) by (nonlinear_arith)
                    requires
                        0 < fixed_dt < 0x1_0000_0000_0000_0000,
                ;
            }
        }
        let interpolation: FixedPoint = if scaled > 0x7fff_ffff {
            FixedPoint::from_raw(0x7fff_ffff)
        } else {
            FixedPoint::from_raw(scaled as i32)
        };

        self.last_time = current_time;
        self.accumulator = accumulator;
        self.tick = tick;
        self.frame = frame;

        FrameTick {
            frame,
            tick,
            fixed_updates: updates,
            delta: delta_ns,
            fixed_dt: self.fixed_dt,
            interpolation,
        }
    }

    pub fn frame(&self) -> (r: u64)
        ensures
            r == self@.frame,
    {
        self.frame
    }

    pub fn tick_count(&self) -> (r: u64)
        ensures
            r == self@.tick,
    {
        self.tick
    }
}

/// The state after the frames at the times `times`, one after the other.
pub open spec fn run_frames(state: LoopState, times: Seq<u64>) -> LoopState
    decreases times.len(),
{
    if times.len() == 0 {
        state
    } else {
        run_frames(state, times.drop_last()).advanced(times.last())
    }
}

/// The time of the frame before frame `i` of `times`.
pub open spec fn time_before(state: LoopState, times: Seq<u64>, i: int) -> u64 {
    if i == 0 {
        state.last_time
    } else {
        times[i - 1]
    }
}

/// The time of the last of the frames.
pub open spec fn end_time(state: LoopState, times: Seq<u64>) -> u64 {
    time_before(state, times, times.len() as int)
}

/// True when the times never go back and no frame has more steps due than
/// the cap lets it run, so that no frame leaves a whole step behind.
pub open spec fn frames_keep_up(state: LoopState, times: Seq<u64>) -> bool {
    forall|i: int|
        0 <= i < times.len() ==> {
            &&& time_before(state, times, i) <= #[trigger] times[i]
            &&& run_frames(state, times.take(i)).at_hand(times[i]) / (state.fixed_dt as u128)
                <= state.max_frame_skip
        }
}

/// Splitting a dividend does not change quotient and remainder of the sum.
proof fn lemma_split_quotient(a: int, b: int, d: int)
    requires
        0 <= a,
        0 <= b,
        0 < d,
    ensures
        a / d + (a % d + b) / d == (a + b) / d,
        (a % d + b) % d == (a + b) % d,
{
    let r = a % d + b;
    lemma_fundamental_div_mod(a, d);
    lemma_fundamental_div_mod(r, d);
    assert(d * (a / d + r / d) == d * (a / d) + d * (r / d)) by (nonlinear_arith);
    assert((a / d + r / d) * d == d * (a / d + r / d)) by (nonlinear_arith);
    lemma_fundamental_div_mod_converse(a + b, d, a / d + r / d, r % d);
}

/// A frame that has no more steps due than the cap lets it run takes
/// every whole step out of the time at hand.
proof fn lemma_frame_keeps_up(prev: LoopState, now: u64)
    requires
        prev.fixed_dt > 0,
        prev.accumulator < prev.fixed_dt,
        prev.last_time <= now,
        prev.at_hand(now) / (prev.fixed_dt as u128) <= prev.max_frame_skip,
        prev.tick + (prev.accumulator + (now - prev.last_time)) / (prev.fixed_dt as int)
            <= u64::MAX,
    ensures
        prev.advanced(now).tick == prev.tick + (prev.accumulator + (now - prev.last_time)) / (
        prev.fixed_dt as int),
        prev.advanced(now).accumulator == (prev.accumulator + (now - prev.last_time)) % (
        prev.fixed_dt as int),
{
    let d = prev.fixed_dt as int;
    let at_hand = prev.accumulator + (now - prev.last_time);
    assert(prev.at_hand(now) == at_hand);
    lemma_fundamental_div_mod(at_hand, d);
    lemma_div_is_ordered(0, at_hand, d);
    assert(0int / d == 0);
    let due = prev.due(now) as int;
    assert(due == at_hand / d);
    assert(due * d == d * (at_hand / d)) by (nonlinear_arith)
        requires
            due == at_hand / d,
    ;
}

/// Frames that keep up leave frames that keep up when the last is taken
/// away.
proof fn lemma_earlier_frames_keep_up(state: LoopState, times: Seq<u64>)
    requires
        times.len() > 0,
        frames_keep_up(state, times),
    ensures
        frames_keep_up(state, times.drop_last()),
        end_time(state, times.drop_last()) <= times.last(),
        run_frames(state, times.drop_last()).at_hand(times.last()) / (state.fixed_dt as u128)
            <= state.max_frame_skip,
{
    let init = times.drop_last();
    assert forall|i: int| 0 <= i < init.len() implies {
        &&& time_before(state, init, i) <= #[trigger] init[i]
        &&& run_frames(state, init.take(i)).at_hand(init[i]) / (state.fixed_dt as u128)
            <= state.max_frame_skip
    } by {
        assert(init[i] == times[i]);
        assert(time_before(state, init, i) == time_before(state, times, i));
        assert(init.take(i) =~= times.take(i));
    }
    assert(times.take(times.len() - 1) =~= init);
    assert(end_time(state, init) == time_before(state, times, times.len() - 1));
    assert(time_before(state, times, times.len() - 1) <= times[times.len() - 1]);
}

/// The ticks count the time that has passed, however it is cut into frames.
///
/// Start with less than a step in the accumulator and run any number of
/// frames, none with more steps due than the cap lets it run. Then the
/// tick counter has gone up by the number of whole steps in the time at
/// hand, the accumulator holds the rest, and neither depends on where the
/// frames fell.
#[verifier::rlimit(40)]
pub proof fn lemma_ticks_count_elapsed_time(state: LoopState, times: Seq<u64>)
    requires
        state.fixed_dt > 0,
        state.accumulator < state.fixed_dt,
        frames_keep_up(state, times),
        state.tick + (state.accumulator + (end_time(state, times) - state.last_time)) / (
        state.fixed_dt as int) <= u64::MAX,
    ensures
        run_frames(state, times).tick == state.tick + (state.accumulator + (end_time(state, times)
            - state.last_time)) / (state.fixed_dt as int),
        run_frames(state, times).accumulator == (state.accumulator + (end_time(state, times)
            - state.last_time)) % (state.fixed_dt as int),
        run_frames(state, times).last_time == end_time(state, times),
        run_frames(state, times).fixed_dt == state.fixed_dt,
        run_frames(state, times).max_frame_skip == state.max_frame_skip,
    decreases times.len(),
{
    let d = state.fixed_dt as int;
    if times.len() == 0 {
        lemma_fundamental_div_mod_converse(
            state.accumulator as int,
            d,
            0,
            state.accumulator as int,
        );
    } else {
        let init = times.drop_last();
        let now = times.last();
        lemma_earlier_frames_keep_up(state, times);
        let before = end_time(state, init);
        lemma_times_never_go_back(state, init);
        let a = state.accumulator + (before - state.last_time);
        let b = now - before;
        lemma_div_is_ordered(a, a + b, d);
        lemma_ticks_count_elapsed_time(state, init);
        let prev = run_frames(state, init);
        lemma_split_quotient(a, b, d);
        assert(prev.accumulator < d);
        lemma_div_is_ordered(0, prev.accumulator + b, d);
        assert(0int / d == 0);
        lemma_frame_keeps_up(prev, now);
    }
}

/// The last of the frames is not earlier than the start.
proof fn lemma_times_never_go_back(state: LoopState, times: Seq<u64>)
    requires
        frames_keep_up(state, times),
    ensures
        state.last_time <= end_time(state, times),
    decreases times.len(),
{
    if times.len() > 0 {
        lemma_earlier_frames_keep_up(state, times);
        lemma_times_never_go_back(state, times.drop_last());
    }
}

/// Frames that are no longer than the steps that the cap lets one frame
/// run keep up, when they start with less than a step in the accumulator.
pub proof fn lemma_short_frames_keep_up(state: LoopState, times: Seq<u64>)
    requires
        state.fixed_dt > 0,
        state.accumulator < state.fixed_dt,
        forall|i: int|
            0 <= i < times.len() ==> {
                &&& time_before(state, times, i) <= #[trigger] times[i]
                &&& times[i] - time_before(state, times, i) <= state.max_frame_skip
                    * state.fixed_dt
            },
    ensures
        frames_keep_up(state, times),
        run_frames(state, times).accumulator < state.fixed_dt,
        run_frames(state, times).last_time == end_time(state, times),
        run_frames(state, times).fixed_dt == state.fixed_dt,
        run_frames(state, times).max_frame_skip == state.max_frame_skip,
    decreases times.len(),
{
    if times.len() > 0 {
        let init = times.drop_last();
        let now = times.last();
        let d = state.fixed_dt as int;
        let cap = state.max_frame_skip as int;
        assert forall|i: int| 0 <= i < init.len() implies {
            &&& time_before(state, init, i) <= #[trigger] init[i]
            &&& init[i] - time_before(state, init, i) <= state.max_frame_skip * state.fixed_dt
        } by {
            assert(init[i] == times[i]);
            assert(time_before(state, init, i) == time_before(state, times, i));
        }
        lemma_short_frames_keep_up(state, init);
        let prev = run_frames(state, init);
        assert(end_time(state, init) == time_before(state, times, times.len() - 1));
        assert(time_before(state, times, times.len() - 1) <= times[times.len() - 1]);
        let at_hand = prev.accumulator + (now - prev.last_time);
        assert(prev.at_hand(now) == at_hand);
        lemma_fundamental_div_mod(at_hand, d);
        assert((cap + 1) * d == d + cap * d) by (nonlinear_arith);
        assert(at_hand / d < cap + 1) by (nonlinear_arith)
            requires
                at_hand == d * (at_hand / d) + at_hand % d,
                0 <= at_hand % d,
                at_hand < (cap + 1) * d,
                d > 0,
        ;
        lemma_div_is_ordered(0, at_hand, d);
        assert(0int / d == 0);
        let due = prev.due(now) as int;
        assert(due == at_hand / d);
        assert(due * d == d * (at_hand / d)) by (nonlinear_arith)
            requires
                due == at_hand / d,
        ;
        assert forall|i: int| 0 <= i < times.len() implies {
            &&& time_before(state, times, i) <= #[trigger] times[i]
            &&& run_frames(state, times.take(i)).at_hand(times[i]) / (state.fixed_dt as u128)
                <= state.max_frame_skip
        } by {
            if i < init.len() {
                assert(init[i] == times[i]);
                assert(time_before(state, init, i) == time_before(state, times, i));
                assert(init.take(i) =~= times.take(i));
            } else {
                assert(times.take(i) =~= init);
            }
        }
    }
}

/// Time that is an exact number of steps gives exactly that many ticks.
///
/// Start with an empty accumulator and run frames, none with more steps
/// due than the cap lets it run, that end `n` steps after the start. Then
/// the tick counter has gone up by exactly `n` and the accumulator is empty
/// again, however the time was cut into frames.
pub proof fn lemma_whole_steps_give_whole_ticks(state: LoopState, times: Seq<u64>, n: nat)
    requires
        state.fixed_dt > 0,
        state.accumulator == 0,
        frames_keep_up(state, times),
        end_time(state, times) - state.last_time == n * state.fixed_dt,
        state.tick + n <= u64::MAX,
    ensures
        run_frames(state, times).tick == state.tick + n,
        run_frames(state, times).accumulator == 0,
{
    let d = state.fixed_dt as int;
    assert(n * d == d * n + 0) by (nonlinear_arith);
    lemma_fundamental_div_mod_converse(n * d, d, n as int, 0);
    lemma_ticks_count_elapsed_time(state, times);
}

} // verus!
