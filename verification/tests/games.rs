use engine::games::fighting::{
    fight_round, Fighter, FighterState, FightingGame, Hitbox, GRAVITY_RAW, GROUND_Y,
    JUMP_FORCE_RAW, WALK_SPEED_RAW,
};
use engine::input::{InputState, Key};
use engine::render::colors::{CYAN, RED};
use engine::render::Renderer;
use engine::runtime::game_loop::ConfigError;
use engine::EngineConfig;
use engine::games::massive_sim::{EntityData, EntityState};
use engine::math::fixed_point::FixedPoint;

fn fx(n: i32) -> FixedPoint {
    FixedPoint::from_int(n)
}

fn live(x: i32, y: i32, w: i32, h: i32) -> Hitbox {
    let mut b = Hitbox::new(x, y, w, h);
    b.active = true;
    b
}

#[test]
fn hitboxes_must_be_live_and_overlap() {
    let a = live(0, 0, 10, 10);
    assert!(a.intersects(&live(5, 5, 10, 10)));
    assert!(!a.intersects(&live(10, 0, 10, 10)));
    assert!(!a.intersects(&live(0, 10, 10, 10)));
    assert!(!a.intersects(&live(-10, 0, 10, 10)));
    assert!(a.intersects(&live(-9, -9, 10, 10)));
    let off = Hitbox::new(5, 5, 10, 10);
    assert!(!off.active);
    assert!(!a.intersects(&off));
    assert!(!off.intersects(&a));
    assert_eq!(off.x, fx(5));
    assert_eq!(off.height, fx(10));
}

#[test]
fn a_new_fighter_stands_idle_on_the_ground() {
    let f = Fighter::new(200, true);
    assert_eq!(f.x, fx(200));
    assert_eq!(f.y, fx(GROUND_Y));
    assert_eq!(f.vel_x, fx(0));
    assert_eq!(f.vel_y, fx(0));
    assert!(f.facing_right);
    assert_eq!(f.state, FighterState::Idle);
    assert_eq!(f.state_frame, 0);
    assert_eq!(f.health, 100);
    assert!(f.grounded);
    assert_eq!(f.hitbox.width, fx(40));
    assert_eq!(f.hurtbox.height, fx(100));
    assert!(!f.hitbox.active && !f.hurtbox.active);
}

#[test]
fn walking_takes_the_walk_speed() {
    let mut f = Fighter::new(200, true);
    f.walk(-1);
    assert_eq!(f.state, FighterState::Walking);
    assert!(!f.facing_right);
    assert_eq!(f.vel_x.raw(), -WALK_SPEED_RAW);
    f.update();
    assert_eq!(f.x, fx(197));
    assert_eq!(f.y, fx(GROUND_Y));
    assert_eq!(f.hurtbox.x, fx(172));
    assert_eq!(f.hurtbox.y, fx(400));
    assert!(f.hurtbox.active);
    f.walk(1);
    assert!(f.facing_right);
    assert_eq!(f.vel_x.raw(), WALK_SPEED_RAW);
    // a direction of zero turns the fighter left and keeps the speed
    f.walk(0);
    assert!(!f.facing_right);
    assert_eq!(f.vel_x.raw(), WALK_SPEED_RAW);
    f.stop();
    assert_eq!(f.state, FighterState::Idle);
    assert_eq!(f.vel_x, fx(0));
    f.stop();
    assert_eq!(f.state, FighterState::Idle);
}

#[test]
fn a_jump_rises_and_lands() {
    let mut f = Fighter::new(200, true);
    f.jump();
    assert_eq!(f.state, FighterState::Jumping);
    assert!(!f.grounded);
    assert_eq!(f.vel_y.raw(), JUMP_FORCE_RAW);
    // no second jump in the air, no attack either
    let mut again = f;
    again.jump();
    again.attack();
    assert_eq!(again.state, FighterState::Jumping);
    assert_eq!(again.vel_y.raw(), JUMP_FORCE_RAW);

    f.update();
    assert_eq!(f.vel_y.raw(), JUMP_FORCE_RAW + GRAVITY_RAW);
    assert_eq!(f.y.raw(), GROUND_Y * 65536 + JUMP_FORCE_RAW + GRAVITY_RAW);
    let mut frames = 1;
    while !f.grounded {
        f.update();
        frames += 1;
        assert!(f.y <= fx(GROUND_Y));
        assert!(frames < 200);
    }
    // up at 12 a frame, slowed by 0.375 a frame: the sum of the speeds
    // -12 + 0.375 k reaches zero with the 63rd frame
    assert_eq!(frames, 63);
    assert_eq!(f.y, fx(GROUND_Y));
    assert_eq!(f.vel_y, fx(0));
    assert_eq!(f.state, FighterState::Idle);
    assert_eq!(f.state_frame, 1);
}

#[test]
fn an_attack_is_live_from_the_third_to_the_sixth_frame() {
    let mut f = Fighter::new(200, true);
    f.walk(1);
    f.attack();
    assert_eq!(f.state, FighterState::Attacking);
    assert_eq!(f.vel_x, fx(0));
    for frame in 1..=14u8 {
        f.update();
        assert_eq!(f.state_frame, frame);
        assert_eq!(f.state, FighterState::Attacking);
        assert_eq!(f.hitbox.active, (3..=6).contains(&frame));
        if f.hitbox.active {
            assert_eq!(f.hitbox.x, fx(230));
            assert_eq!(f.hitbox.y, fx(440));
        }
        // no walking and no jumping during an attack
        f.walk(-1);
        f.jump();
        assert_eq!(f.state, FighterState::Attacking);
    }
    f.update();
    assert_eq!(f.state, FighterState::Idle);
    assert_eq!(f.state_frame, 0);
    let mut left = Fighter::new(200, false);
    left.attack();
    left.update();
    left.update();
    left.update();
    assert!(left.hitbox.active);
    assert_eq!(left.hitbox.x, fx(130));
}

#[test]
fn a_hit_stuns_and_pushes_back() {
    let mut f = Fighter::new(200, true);
    f.attack();
    f.update();
    f.update();
    f.update();
    assert!(f.hitbox.active);
    f.take_hit(10);
    assert_eq!(f.health, 90);
    assert_eq!(f.state, FighterState::Hitstun);
    assert_eq!(f.state_frame, 0);
    assert!(!f.hitbox.active);
    assert_eq!(f.vel_x, fx(-5));
    for _ in 0..19 {
        f.update();
        assert_eq!(f.state, FighterState::Hitstun);
    }
    f.update();
    assert_eq!(f.state, FighterState::Idle);
    assert_eq!(f.x, fx(100));
    let mut other = Fighter::new(600, false);
    other.take_hit(250);
    assert_eq!(other.health, 0);
    assert_eq!(other.vel_x, fx(5));
    other.take_hit(1);
    assert_eq!(other.health, 0);
}

#[test]
fn the_frame_count_stops_at_its_largest() {
    let mut f = Fighter::new(200, true);
    for _ in 0..300 {
        f.update();
    }
    assert_eq!(f.state_frame, 255);
    assert_eq!(f.state, FighterState::Idle);
}

#[test]
fn entity_data_keeps_one_entry_per_entity() {
    let mut data = EntityData::new(8);
    assert_eq!(data.len(), 0);
    data.add(fx(1), fx(2), 0xFF00FF00, fx(3));
    data.add(fx(4), fx(5), 7, fx(6));
    assert_eq!(data.len(), 2);
    assert_eq!(data.positions_x, vec![fx(1), fx(4)]);
    assert_eq!(data.positions_y, vec![fx(2), fx(5)]);
    assert_eq!(data.velocities_x, vec![fx(0), fx(0)]);
    assert_eq!(data.velocities_y, vec![fx(0), fx(0)]);
    assert_eq!(data.colors, vec![0xFF00FF00, 7]);
    assert_eq!(data.radii, vec![fx(3), fx(6)]);
    assert_eq!(data.states, vec![EntityState::Wandering, EntityState::Wandering]);
    assert_ne!(EntityState::Idle, EntityState::Seeking);
    assert_ne!(EntityState::Fleeing, EntityState::Wandering);
}

#[test]
fn a_round_obeys_the_keys_of_the_first_fighter() {
    let mut input = InputState::new();
    input.key_pressed(Key::D);
    let (p1, p2) = fight_round(Fighter::new(200, true), Fighter::new(600, false), &input);
    assert_eq!(p1.state, FighterState::Walking);
    assert_eq!(p1.x, fx(203));
    assert_eq!(p2.x, fx(600));
    assert_eq!(p2.state, FighterState::Idle);
    // A goes before D
    input.key_pressed(Key::A);
    let (p1, _) = fight_round(p1, p2, &input);
    assert!(!p1.facing_right);
    assert_eq!(p1.x, fx(200));
    input.key_released(Key::A);
    input.key_released(Key::D);
    input.begin_frame();
    input.key_pressed(Key::W);
    let (p1, _) = fight_round(p1, p2, &input);
    assert_eq!(p1.state, FighterState::Jumping);
    assert_eq!(p1.vel_x, fx(0));
    // W held, not newly pressed: no second jump on landing
    input.begin_frame();
    let mut airborne = p1;
    for _ in 0..80 {
        airborne = fight_round(airborne, p2, &input).0;
    }
    assert_eq!(airborne.state, FighterState::Idle);
    assert!(airborne.grounded);
}

#[test]
fn an_attack_in_reach_hits_once() {
    let mut input = InputState::new();
    input.key_pressed(Key::Space);
    let mut p1 = Fighter::new(540, true);
    let mut p2 = Fighter::new(600, false);
    (p1, p2) = fight_round(p1, p2, &input);
    assert_eq!(p1.state, FighterState::Attacking);
    input.begin_frame();
    (p1, p2) = fight_round(p1, p2, &input);
    assert_eq!(p2.health, 100);
    // third frame of the attack: the hitbox goes live and lands
    (p1, p2) = fight_round(p1, p2, &input);
    assert_eq!(p2.health, 90);
    assert_eq!(p2.state, FighterState::Hitstun);
    assert_eq!(p2.vel_x, fx(5));
    assert!(!p1.hitbox.active);
    assert_eq!(p1.health, 100);
    // the next live frame lands again on the fighter that was pushed back
    (p1, p2) = fight_round(p1, p2, &input);
    assert_eq!(p2.x, fx(605));
    assert_eq!(p2.health, 80);
    for _ in 0..2 {
        (p1, p2) = fight_round(p1, p2, &input);
    }
    assert_eq!(p2.health, 60);
    for _ in 0..20 {
        (p1, p2) = fight_round(p1, p2, &input);
    }
    assert_eq!(p2.health, 60);
    assert_eq!(p1.state, FighterState::Idle);
}

#[test]
fn a_fight_out_of_reach_hurts_nobody() {
    let mut input = InputState::new();
    input.key_pressed(Key::Space);
    let mut p1 = Fighter::new(200, true);
    let mut p2 = Fighter::new(600, false);
    for _ in 0..30 {
        (p1, p2) = fight_round(p1, p2, &input);
        input.begin_frame();
    }
    assert_eq!((p1.health, p2.health), (100, 100));
}

fn fight_config(fixed_timestep_ns: i64) -> EngineConfig {
    EngineConfig { width: 800, height: 600, fixed_timestep_ns, ..EngineConfig::default() }
}

#[test]
fn a_fight_needs_a_positive_timestep() {
    assert!(matches!(FightingGame::new(fight_config(0)), Err(ConfigError::NonPositiveTimestep)));
    assert!(matches!(FightingGame::new(fight_config(-5)), Err(ConfigError::NonPositiveTimestep)));
    let game = FightingGame::new(fight_config(16_666_666)).ok().expect("positive timestep");
    assert_eq!(game.frame(), 0);
    assert_eq!(game.player1().x, fx(200));
    assert_eq!(game.player2().x, fx(600));
    assert!(game.player1().facing_right && !game.player2().facing_right);
    assert_eq!(game.picture().len(), 800 * 600);
    assert!(game.picture().iter().all(|p| *p == 0));
}

#[test]
fn the_demonstration_draws_the_fighters_as_they_stand() {
    let mut game = FightingGame::new(fight_config(1)).ok().expect("positive timestep");
    game.run();
    assert_eq!(game.frame(), 300);
    game.run();
    assert_eq!(game.frame(), 600);
    let p1 = game.player1();
    let p2 = game.player2();
    assert!(p1.health <= 100 && p2.health <= 100);
    assert!(p1.y <= fx(GROUND_Y) && p2.y <= fx(GROUND_Y));

    // the same scene drawn by hand
    let mut expected = Renderer::new(800, 600);
    expected.clear(0xFF202020);
    expected.fill_rect(0, GROUND_Y, 800, 100, 0xFF404040);
    for (fighter, color) in [(p1, CYAN), (p2, RED)] {
        expected.fill_rect(fighter.x.to_int() - 25, fighter.y.to_int() - 100, 50, 100, color);
        for (area, tint) in [(fighter.hurtbox, 0x4000FF00u32), (fighter.hitbox, 0x40FF0000u32)] {
            if area.active {
                expected.fill_rect(
                    area.x.to_int(),
                    area.y.to_int(),
                    area.width.to_int() as u32,
                    area.height.to_int() as u32,
                    tint,
                );
            }
        }
    }
    for (x, health, color) in [(50, p1.health, CYAN), (550, p2.health, RED)] {
        expected.fill_rect(x, 30, 200, 20, 0xFF333333);
        expected.fill_rect(x, 30, (health as u32 * 2).min(200), 20, color);
    }
    assert!(game.picture() == expected.buffer());
}
