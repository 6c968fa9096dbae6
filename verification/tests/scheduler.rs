use engine::math::fixed_point::FixedPoint;
use engine::runtime::game_loop::{ConfigError, GameLoop};
use engine::runtime::profiler::{ProfileSample, Profiler};
use engine::runtime::timing::{ScopedTimer, Timer};
use engine::{Engine, EngineConfig};
use engine::physics::Body;
use engine::math::vec2::Vec2;

fn config(fixed_timestep_ns: i64, max_frame_skip: u32) -> EngineConfig {
    EngineConfig { fixed_timestep_ns, max_frame_skip, ..EngineConfig::default() }
}

#[test]
fn default_engine_configuration() {
    let c = EngineConfig::default();
    assert_eq!(c.title, "Game Engine X");
    assert_eq!(c.width, 800);
    assert_eq!(c.height, 600);
    assert_eq!(c.fixed_timestep_ns, 16_666_666);
    assert_eq!(c.max_frame_skip, 5);
    assert!(c.vsync);
}

#[test]
fn ten_seconds_at_once_are_capped_at_five_updates() {
    let mut game_loop = GameLoop::new(&config(16_666_666, 5)).expect("the timestep is positive");
    let tick = game_loop.advance(10_000_000_000);
    assert_eq!(tick.fixed_updates, 5);
    assert_eq!(tick.tick, 5);
    assert_eq!(tick.frame, 1);
    assert_eq!(tick.delta, 10_000_000_000);
    assert_eq!(tick.fixed_dt, 16_666_666);
    assert_eq!(game_loop.tick_count(), 5);
    assert_eq!(game_loop.frame(), 1);
    // what was not run stays at hand: the next frame runs five more
    let next = game_loop.advance(10_000_000_000);
    assert_eq!(next.fixed_updates, 5);
    assert_eq!(next.tick, 10);
    assert_eq!(next.delta, 0);
}

#[test]
fn a_zero_or_negative_timestep_is_refused() {
    assert!(matches!(GameLoop::new(&config(0, 5)), Err(ConfigError::NonPositiveTimestep)));
    assert!(matches!(GameLoop::new(&config(-1, 5)), Err(ConfigError::NonPositiveTimestep)));
    assert!(matches!(GameLoop::new(&config(i64::MIN, 5)), Err(ConfigError::NonPositiveTimestep)));
    assert!(GameLoop::new(&config(1, 5)).is_ok());
    assert!(matches!(Engine::new(config(0, 5)), Err(ConfigError::NonPositiveTimestep)));
    assert!(matches!(Engine::new(config(-7, 5)), Err(ConfigError::NonPositiveTimestep)));
}

fn ticks_after(times: &[u64]) -> (u64, u64) {
    let mut game_loop = GameLoop::new(&config(1_000_000, 5)).expect("the timestep is positive");
    let mut updates: u64 = 0;
    for t in times {
        updates += game_loop.advance(*t).fixed_updates as u64;
    }
    (game_loop.tick_count(), updates)
}

#[test]
fn ticks_do_not_depend_on_how_the_time_is_cut() {
    assert_eq!(ticks_after(&[10_000_000]).0, 5);
    let whole = ticks_after(&[5_000_000, 10_000_000]);
    assert_eq!(whole, (10, 10));
    assert_eq!(ticks_after(&[300_000, 1_500_000, 4_000_000, 7_000_000, 10_000_000]), (10, 10));
    assert_eq!(ticks_after(&[999_999, 1_000_000, 5_999_999, 6_000_000, 10_000_000]), (10, 10));
    let mut every_tenth: Vec<u64> = Vec::new();
    for k in 1..=100u64 {
        every_tenth.push(k * 100_000);
    }
    assert_eq!(ticks_after(&every_tenth), (10, 10));
}

#[test]
fn the_rest_of_a_step_is_reported_as_a_fraction() {
    let mut game_loop = GameLoop::new(&config(1_000_000, 5)).expect("the timestep is positive");
    let tick = game_loop.advance(2_500_000);
    assert_eq!(tick.fixed_updates, 2);
    assert_eq!(tick.interpolation, FixedPoint::half());
    let tick = game_loop.advance(2_750_000);
    assert_eq!(tick.fixed_updates, 0);
    assert_eq!(tick.interpolation.raw(), 49152);
    assert_eq!(tick.frame, 2);
    assert_eq!(tick.tick, 2);
    // eight steps behind: five run, three stay
    let tick = game_loop.advance(10_750_000);
    assert_eq!(tick.fixed_updates, 5);
    assert_eq!(tick.interpolation.raw(), 3 * 65536 + 49152);
}

#[test]
fn the_fraction_stops_at_the_largest_number() {
    let mut game_loop = GameLoop::new(&config(1, 0)).expect("the timestep is positive");
    let tick = game_loop.advance(1_000_000);
    assert_eq!(tick.fixed_updates, 0);
    assert_eq!(tick.interpolation.raw(), i32::MAX);
}

#[test]
fn a_clock_that_goes_back_adds_no_time() {
    let mut game_loop = GameLoop::new(&config(1_000_000, 5)).expect("the timestep is positive");
    game_loop.advance(3_000_000);
    let tick = game_loop.advance(1_000_000);
    assert_eq!(tick.delta, 0);
    assert_eq!(tick.fixed_updates, 0);
    let tick = game_loop.advance(2_000_000);
    assert_eq!(tick.delta, 1_000_000);
    assert_eq!(tick.fixed_updates, 1);
}

#[test]
fn a_frame_read_from_the_timer_stays_under_the_cap() {
    let mut game_loop = GameLoop::new(&config(1, 3)).expect("the timestep is positive");
    let tick = game_loop.tick();
    assert!(tick.fixed_updates <= 3);
    assert_eq!(tick.frame, 1);
    assert_eq!(tick.tick, tick.fixed_updates as u64);
    assert_eq!(game_loop.frame(), 1);
}

#[test]
fn frequency_is_cycles_per_microsecond() {
    assert_eq!(Timer::estimate_frequency(30_000_000, 10_000_000), 3000);
    assert_eq!(Timer::estimate_frequency(10_000_000, 10_000_000), 1000);
    assert_eq!(Timer::estimate_frequency(24_999_999, 10_000_000), 2499);
}

#[test]
fn frequency_falls_back_where_nothing_was_measured() {
    assert_eq!(Timer::estimate_frequency(123, 0), 3000);
    assert_eq!(Timer::estimate_frequency(0, 0), 3000);
    assert_eq!(Timer::estimate_frequency(0, 10_000_000), 3000);
    assert_eq!(Timer::estimate_frequency(5, 10_000_000), 3000);
    assert_eq!(Timer::estimate_frequency(u64::MAX, 1), u64::MAX);
}

#[test]
fn elapsed_time_is_cycles_over_frequency() {
    let mut timer = Timer::calibrated(30_000_000, 10_000_000);
    timer.start_at(100);
    assert_eq!(timer.elapsed_ns_at(100), 0);
    assert_eq!(timer.elapsed_ns_at(3100), 1000);
    assert_eq!(timer.elapsed_ns_at(3101), 1000);
    assert_eq!(timer.elapsed_ns_at(3_000_100), 1_000_000);
    assert_eq!(timer.elapsed_us_at(3_000_100), 1000);
    // a reading before the start counts as no time
    assert_eq!(timer.elapsed_ns_at(50), 0);
    // more than 64 bits can hold
    let mut slow = Timer::calibrated(1, 1000);
    slow.start_at(0);
    assert_eq!(slow.elapsed_ns_at(u64::MAX), u64::MAX);
}

#[test]
fn the_portable_clock_does_not_run_backwards() {
    let mut timer = Timer::new();
    timer.start();
    let first = timer.elapsed_ns();
    let second = timer.elapsed_ns();
    assert!(second >= first);
    assert!(timer.elapsed_us() <= timer.elapsed_ns());
    let other = Timer::default();
    let _ = other.elapsed_ns();
}

#[test]
fn scoped_timer_keeps_its_name() {
    let scope = ScopedTimer::new("physics");
    assert_eq!(scope.name(), "physics");
    let first = scope.elapsed_ns();
    assert!(scope.elapsed_ns() >= first);
}

#[test]
fn profiler_keeps_total_count_min_and_max() {
    let mut profiler = Profiler::new();
    assert!(profiler.get("step").is_none());
    profiler.record("step", 300);
    assert_eq!(
        profiler.get("step"),
        Some(&ProfileSample { total_ns: 300, count: 1, min_ns: 300, max_ns: 300 })
    );
    profiler.record("step", 100);
    profiler.record("step", 500);
    profiler.record("draw", 7);
    assert_eq!(
        profiler.get("step"),
        Some(&ProfileSample { total_ns: 900, count: 3, min_ns: 100, max_ns: 500 })
    );
    assert_eq!(
        profiler.get("draw"),
        Some(&ProfileSample { total_ns: 7, count: 1, min_ns: 7, max_ns: 7 })
    );
    assert!(profiler.get("ste").is_none());
    assert_eq!(profiler.get("step").map(|s| s.avg_ns()), Some(300));
    let names: Vec<&str> = profiler.entries().iter().map(|e| e.name.as_str()).collect();
    assert_eq!(names, vec!["step", "draw"]);
    profiler.reset();
    assert!(profiler.get("step").is_none());
    assert!(profiler.entries().is_empty());
}

#[test]
fn profiler_totals_stop_at_the_largest_number() {
    let mut profiler = Profiler::default();
    profiler.record("long", u64::MAX);
    profiler.record("long", 5);
    let sample = *profiler.get("long").expect("recorded");
    assert_eq!(sample.total_ns, u64::MAX);
    assert_eq!(sample.count, 2);
    assert_eq!(sample.min_ns, 5);
    assert_eq!(sample.max_ns, u64::MAX);
    assert_eq!(ProfileSample::default().avg_ns(), 0);
    assert_eq!(ProfileSample::default().min_ns, 0);
}

#[test]
fn engine_update_steps_the_physics_up_to_the_cap() {
    let mut engine = Engine::new(config(1_000_000, 3)).expect("the timestep is positive");
    assert!(engine.running);
    assert_eq!(engine.frame_count(), 0);
    engine.physics.add_body(Body::new(Vec2::zero(), FixedPoint::one()));
    engine.update(999_999);
    assert_eq!(engine.frame_count(), 1);
    assert_eq!(engine.physics.bodies[0].velocity.y.raw(), 0);
    engine.update(1);
    assert_eq!(engine.physics.bodies[0].velocity.y.raw(), 1070160);
    // ten steps of time, three run now and three in each later frame
    engine.update(10_000_000);
    assert_eq!(engine.physics.bodies[0].velocity.y.raw(), 4 * 1070160);
    engine.update(0);
    assert_eq!(engine.physics.bodies[0].velocity.y.raw(), 7 * 1070160);
    assert_eq!(engine.frame_count(), 4);
}

#[test]
fn engine_whose_timestep_was_spoiled_runs_no_step() {
    let mut engine = Engine::new(config(1_000_000, 3)).expect("the timestep is positive");
    engine.physics.add_body(Body::new(Vec2::zero(), FixedPoint::one()));
    engine.config.fixed_timestep_ns = 0;
    engine.update(5_000_000);
    assert_eq!(engine.physics.bodies[0].velocity.y.raw(), 0);
    assert_eq!(engine.frame_count(), 1);
}

#[test]
fn the_step_in_seconds_is_rounded_down() {
    let mut game_loop = GameLoop::new(&EngineConfig::default()).unwrap();
    let tick = game_loop.advance(0);
    assert_eq!(tick.step_seconds().raw(), (tick.fixed_dt as u128 * 65536 / 1_000_000_000) as i32);
    let long = engine::runtime::game_loop::FrameTick { fixed_dt: u64::MAX, ..tick };
    assert_eq!(long.step_seconds().raw(), i32::MAX);
    let second = engine::runtime::game_loop::FrameTick { fixed_dt: 1_000_000_000, ..tick };
    assert_eq!(second.step_seconds().raw(), 65536);
    let sixtieth = engine::runtime::game_loop::FrameTick { fixed_dt: 16_666_667, ..tick };
    assert_eq!(sixtieth.step_seconds().raw(), 1092);
}
