//! Fighting Game Implementation
//!
//! Uses fixed-point math for determinism.
//! Frame-perfect input and hitbox detection.

use crate::input::{InputState, InputView, Key};
use crate::math::fixed_point::{clamp32, FixedPoint};
use crate::render::colors::{CYAN, RED};
use crate::render::{
    everywhere, in_shape, paint, run_commands, CommandBuffer, DrawCommand, Renderer,
};
use crate::runtime::game_loop::{wrapping_count, ConfigError, FrameTick, GameLoop};
use crate::EngineConfig;
use vstd::prelude::*;

verus! {

/// The height of the ground on the screen, in whole units.
pub const GROUND_Y: i32 = 500;

/// What a fighter in the air gains in downward speed each frame: 0.375.
pub const GRAVITY_RAW: i32 = 0x0000_6000;

/// The speed of a walking fighter: 3.
pub const WALK_SPEED_RAW: i32 = 0x0003_0000;

/// The upward speed at the start of a jump: -12.
pub const JUMP_FORCE_RAW: i32 = -786432;

/// The first and the last frame of an attack in which its hitbox is live.
pub const ATTACK_FIRST_ACTIVE: u8 = 3;

pub const ATTACK_LAST_ACTIVE: u8 = 6;

/// The frame at which an attack is over.
pub const ATTACK_RECOVERY: u8 = 15;

/// The frame at which a fighter that was hit can act again.
pub const HITSTUN_FRAMES: u8 = 20;

#[derive(Clone, Copy, Debug, PartialEq, Eq, Structural)]
pub enum FighterState {
    Idle,
    Walking,
    Jumping,
    Attacking,
    Hitstun,
    Blockstun,
}

#[derive(Clone, Copy, Debug)]
pub struct Hitbox {
    pub x: FixedPoint,
    pub y: FixedPoint,
    pub width: FixedPoint,
    pub height: FixedPoint,
    pub active: bool,
}

impl Hitbox {
    /// True when both boxes are live and share more than an edge.
    pub open spec fn spec_intersects(&self, other: &Hitbox) -> bool {
        &&& self.active
        &&& other.active
        &&& self.x@ < other.x.spec_add(other.width)@
        &&& self.x.spec_add(self.width)@ > other.x@
        &&& self.y@ < other.y.spec_add(other.height)@
        &&& self.y.spec_add(self.height)@ > other.y@
    }

    /// A box that is not live, with its corner at `(x, y)`.
    pub fn new(x: i32, y: i32, w: i32, h: i32) -> (r: Self)
        ensures
            r == (Hitbox {
                x: FixedPoint::wrapped(x * 65536),
                y: FixedPoint::wrapped(y * 65536),
                width: FixedPoint::wrapped(w * 65536),
                height: FixedPoint::wrapped(h * 65536),
                active: false,
            }),
    {
        Hitbox {
            x: FixedPoint::from_int(x),
            y: FixedPoint::from_int(y),
            width: FixedPoint::from_int(w),
            height: FixedPoint::from_int(h),
            active: false,
        }
    }

    pub fn intersects(&self, other: &Hitbox) -> (r: bool)
        ensures
            r == self.spec_intersects(other),
    {
        if !self.active || !other.active {
            return false;
        }
        let self_right: FixedPoint = self.x + self.width;
        let self_bottom: FixedPoint = self.y + self.height;
        let other_right: FixedPoint = other.x + other.width;
        let other_bottom: FixedPoint = other.y + other.height;

        self.x.0 < other_right.0 && self_right.0 > other.x.0 && self.y.0 < other_bottom.0
            && self_bottom.0 > other.y.0
    }
}

#[derive(Clone, Copy, Debug)]
pub struct Fighter {
    pub x: FixedPoint,
    pub y: FixedPoint,
    pub vel_x: FixedPoint,
    pub vel_y: FixedPoint,
    pub facing_right: bool,
    pub state: FighterState,
    pub state_frame: u8,
    pub health: u8,
    pub hitbox: Hitbox,
    pub hurtbox: Hitbox,
    pub grounded: bool,
}

/// The whole number `n` as a fixed-point number, for `n` within the range.
pub open spec fn whole(n: int) -> FixedPoint {
    FixedPoint((n * 65536) as i32)
}

/// The ground as a fixed-point height.
pub open spec fn ground() -> FixedPoint {
    whole(500)
}

/// `frame` and one, but no more than the largest count.
pub open spec fn next_frame(frame: u8) -> u8 {
    if frame == 255 {
        255
    } else {
        (frame + 1) as u8
    }
}

impl Fighter {
    /// The fighter after gravity and velocity have acted for one frame and
    /// the ground has stopped the fall: a fighter that reaches the ground
    /// stands on it, and one that was jumping is idle again.
    pub open spec fn spec_moved(self) -> Fighter {
        let vel_y = if self.grounded {
            self.vel_y
        } else {
            self.vel_y.spec_add(FixedPoint(GRAVITY_RAW))
        };
        let y = self.y.spec_add(vel_y);
        let landed = y@ >= ground()@;
        Fighter {
            x: self.x.spec_add(self.vel_x),
            y: if landed {
                ground()
            } else {
                y
            },
            vel_y: if landed {
                FixedPoint(0)
            } else {
                vel_y
            },
            grounded: landed || self.grounded,
            state: if landed && self.state == FighterState::Jumping {
                FighterState::Idle
            } else {
                self.state
            },
            state_frame: if landed && self.state == FighterState::Jumping {
                0
            } else {
                self.state_frame
            },
            ..self
        }
    }

    /// The fighter with its boxes where it stands and one frame further
    /// into its state: the hurtbox is live around the body, and the hitbox
    /// of an attack is live in front of it from the third to the sixth
    /// frame.
    pub open spec fn spec_framed(self) -> Fighter {
        let frame = next_frame(self.state_frame);
        let attacking = self.state == FighterState::Attacking;
        Fighter {
            hurtbox: Hitbox {
                x: self.x.spec_sub(whole(25)),
                y: self.y.spec_sub(whole(100)),
                active: true,
                ..self.hurtbox
            },
            hitbox: if !attacking {
                self.hitbox
            } else if ATTACK_FIRST_ACTIVE <= frame <= ATTACK_LAST_ACTIVE {
                Hitbox {
                    x: self.x.spec_add(
                        if self.facing_right {
                            whole(30)
                        } else {
                            whole(-70)
                        },
                    ),
                    y: self.y.spec_sub(whole(60)),
                    active: true,
                    ..self.hitbox
                }
            } else {
                Hitbox { active: false, ..self.hitbox }
            },
            state_frame: frame,
            ..self
        }
    }

    /// The fighter back to idle where its attack or its hitstun is over.
    pub open spec fn spec_recovered(self) -> Fighter {
        if (self.state == FighterState::Attacking && self.state_frame >= ATTACK_RECOVERY) || (
        self.state == FighterState::Hitstun && self.state_frame >= HITSTUN_FRAMES) {
            Fighter { state: FighterState::Idle, state_frame: 0, ..self }
        } else {
            self
        }
    }

    /// The fighter after one frame.
    pub open spec fn spec_updated(self) -> Fighter {
        self.spec_moved().spec_framed().spec_recovered()
    }

    /// The fighter after it was told to walk: only an idle or walking
    /// fighter obeys; it faces right for a positive direction and left
    /// otherwise, and takes the walking speed unless the direction is zero.
    pub open spec fn spec_walked(self, direction: i32) -> Fighter {
        if self.state != FighterState::Idle && self.state != FighterState::Walking {
            self
        } else {
            Fighter {
                state: FighterState::Walking,
                facing_right: direction > 0,
                vel_x: if direction > 0 {
                    FixedPoint(WALK_SPEED_RAW)
                } else if direction < 0 {
                    FixedPoint(-196608i32)
                } else {
                    self.vel_x
                },
                ..self
            }
        }
    }

    /// A walking fighter stands still and idle; any other stays as it is.
    pub open spec fn spec_stopped(self) -> Fighter {
        if self.state == FighterState::Walking {
            Fighter { state: FighterState::Idle, vel_x: FixedPoint(0), ..self }
        } else {
            self
        }
    }

    /// A fighter on the ground that is not attacking leaves it with the
    /// jump speed; any other stays as it is.
    pub open spec fn spec_jumped(self) -> Fighter {
        if !self.grounded || self.state == FighterState::Attacking {
            self
        } else {
            Fighter {
                state: FighterState::Jumping,
                state_frame: 0,
                vel_y: FixedPoint(JUMP_FORCE_RAW),
                grounded: false,
                ..self
            }
        }
    }

    /// A fighter on the ground that is not attacking yet starts an attack
    /// and stands still; any other stays as it is.
    pub open spec fn spec_attacked(self) -> Fighter {
        if self.state == FighterState::Attacking || !self.grounded {
            self
        } else {
            Fighter {
                state: FighterState::Attacking,
                state_frame: 0,
                vel_x: FixedPoint(0),
                ..self
            }
        }
    }

    /// The fighter after a hit of `damage`: stunned, pushed back against
    /// the way it faces, its own attack broken off.
    pub open spec fn spec_hit(self, damage: u8) -> Fighter {
        Fighter {
            health: if self.health >= damage {
                (self.health - damage) as u8
            } else {
                0
            },
            state: FighterState::Hitstun,
            state_frame: 0,
            hitbox: Hitbox { active: false, ..self.hitbox },
            vel_x: if self.facing_right {
                whole(-5)
            } else {
                whole(5)
            },
            ..self
        }
    }

    /// A fighter at full health standing idle on the ground at `x`.
    pub open spec fn spec_new(x: i32, facing_right: bool) -> Fighter {
        Fighter {
            x: FixedPoint::wrapped(x * 65536),
            y: ground(),
            vel_x: FixedPoint(0),
            vel_y: FixedPoint(0),
            facing_right,
            state: FighterState::Idle,
            state_frame: 0,
            health: 100,
            hitbox: Hitbox {
                x: FixedPoint(0),
                y: FixedPoint(0),
                width: whole(40),
                height: whole(20),
                active: false,
            },
            hurtbox: Hitbox {
                x: FixedPoint(0),
                y: FixedPoint(0),
                width: whole(50),
                height: whole(100),
                active: false,
            },
            grounded: true,
        }
    }

    /// A fighter at full health standing idle on the ground at `x`.
    pub fn new(x: i32, facing_right: bool) -> (r: Self)
        ensures
            r == Fighter::spec_new(x, facing_right),
            r == (Fighter {
                x: FixedPoint::wrapped(x * 65536),
                y: ground(),
                vel_x: FixedPoint(0),
                vel_y: FixedPoint(0),
                facing_right,
                state: FighterState::Idle,
                state_frame: 0,
                health: 100,
                hitbox: Hitbox {
                    x: FixedPoint(0),
                    y: FixedPoint(0),
                    width: whole(40),
                    height: whole(20),
                    active: false,
                },
                hurtbox: Hitbox {
                    x: FixedPoint(0),
                    y: FixedPoint(0),
                    width: whole(50),
                    height: whole(100),
                    active: false,
                },
                grounded: true,
            }),
    {
        Fighter {
            x: FixedPoint::from_int(x),
            y: FixedPoint::from_int(GROUND_Y),
            vel_x: FixedPoint::zero(),
            vel_y: FixedPoint::zero(),
            facing_right,
            state: FighterState::Idle,
            state_frame: 0,
            health: 100,
            hitbox: Hitbox::new(0, 0, 40, 20),
            hurtbox: Hitbox::new(0, 0, 50, 100),
            grounded: true,
        }
    }

    /// One frame of the fighter. Afterwards it is not below the ground.
    pub fn update(&mut self)
        ensures
            *final(self) == old(self).spec_updated(),
            final(self).y@ <= ground()@,
            final(self).hurtbox.active,
    {
        // Apply gravity
        if !self.grounded {
            self.vel_y = self.vel_y + FixedPoint::from_raw(GRAVITY_RAW);
        }
        // Apply velocity

        self.x = self.x + self.vel_x;
        self.y = self.y + self.vel_y;

        // Ground check
        let ground: FixedPoint = FixedPoint::from_int(GROUND_Y);
        if self.y.0 >= ground.0 {
            self.y = ground;
            self.vel_y = FixedPoint::zero();
            self.grounded = true;

            if self.state == FighterState::Jumping {
                self.state = FighterState::Idle;
                self.state_frame = 0;
            }
        }
        assert(*self == old(self).spec_moved());
        let ghost moved = *self;

        // Update hurtbox position
        self.hurtbox.x = self.x - FixedPoint::from_int(25);
        self.hurtbox.y = self.y - FixedPoint::from_int(100);
        self.hurtbox.active = true;

        // Update state
        self.state_frame = self.state_frame.saturating_add(1);

        // Handle attack frames
        if self.state == FighterState::Attacking {
            if self.state_frame >= ATTACK_FIRST_ACTIVE && self.state_frame <= ATTACK_LAST_ACTIVE {
                self.hitbox.active = true;
                let offset: i32 = if self.facing_right { 30 } else { -70 };
                self.hitbox.x = self.x + FixedPoint::from_int(offset);
                self.hitbox.y = self.y - FixedPoint::from_int(60);
            } else {
                self.hitbox.active = false;
            }
        }
        assert(*self == moved.spec_framed());

        // Recovery from an attack or from hitstun
        if (self.state == FighterState::Attacking && self.state_frame >= ATTACK_RECOVERY) || (
        self.state == FighterState::Hitstun && self.state_frame >= HITSTUN_FRAMES) {
            self.state = FighterState::Idle;
            self.state_frame = 0;
        }
    }

    pub fn walk(&mut self, direction: i32)
        ensures
            *final(self) == old(self).spec_walked(direction),
    {
        if self.state != FighterState::Idle && self.state != FighterState::Walking {
            return ;
        }
        self.state = FighterState::Walking;
        self.facing_right = direction > 0;

        if direction > 0 {
            self.vel_x = FixedPoint::from_raw(WALK_SPEED_RAW);
        } else if direction < 0 {
            self.vel_x = FixedPoint::zero() - FixedPoint::from_raw(WALK_SPEED_RAW);
        }
    }

    pub fn stop(&mut self)
        ensures
            *final(self) == old(self).spec_stopped(),
    {
        if self.state == FighterState::Walking {
            self.state = FighterState::Idle;
            self.vel_x = FixedPoint::zero();
        }
    }

    pub fn jump(&mut self)
        ensures
            *final(self) == old(self).spec_jumped(),
    {
        if !self.grounded || self.state == FighterState::Attacking {
            return ;
        }
        self.state = FighterState::Jumping;
        self.state_frame = 0;
        self.vel_y = FixedPoint::from_raw(JUMP_FORCE_RAW);
        self.grounded = false;
    }

    pub fn attack(&mut self)
        ensures
            *final(self) == old(self).spec_attacked(),
    {
        if self.state == FighterState::Attacking || !self.grounded {
            return ;
        }
        self.state = FighterState::Attacking;
        self.state_frame = 0;
        self.vel_x = FixedPoint::zero();
    }

    pub fn take_hit(&mut self, damage: u8)
        ensures
            *final(self) == old(self).spec_hit(damage),
            final(self).health <= old(self).health,
    {
        self.health = self.health.saturating_sub(damage);
        self.state = FighterState::Hitstun;
        self.state_frame = 0;
        self.hitbox.active = false;

        // Knockback
        let knockback: FixedPoint = if self.facing_right {
            FixedPoint::from_int(-5)
        } else {
            FixedPoint::from_int(5)
        };
        self.vel_x = knockback;
    }
}

/// The damage of one hit.
pub const HIT_DAMAGE: u8 = 10;

/// The frames that `FightingGame::run` plays.
pub const DEMO_FRAMES: u32 = 300;

/// The first fighter after it has obeyed the keys: A walks it left, else D
/// walks it right, else it stops; W, newly pressed, makes it jump; Space,
/// newly pressed, makes it attack.
pub open spec fn commanded(fighter: Fighter, input: InputView) -> Fighter {
    let walked = if input.keys_down.contains(Key::A) {
        fighter.spec_walked(-1i32)
    } else if input.keys_down.contains(Key::D) {
        fighter.spec_walked(1)
    } else {
        fighter.spec_stopped()
    };
    let jumped = if input.keys_pressed.contains(Key::W) {
        walked.spec_jumped()
    } else {
        walked
    };
    if input.keys_pressed.contains(Key::Space) {
        jumped.spec_attacked()
    } else {
        jumped
    }
}

/// The two fighters after the hits of a frame: a live hitbox of the first
/// in the hurtbox of the second hits the second and goes out; then the
/// same the other way round.
pub open spec fn exchanged(first: Fighter, second: Fighter) -> (Fighter, Fighter) {
    let (a, b) = if first.hitbox.spec_intersects(&second.hurtbox) {
        (
            Fighter { hitbox: Hitbox { active: false, ..first.hitbox }, ..first },
            second.spec_hit(HIT_DAMAGE),
        )
    } else {
        (first, second)
    };
    if b.hitbox.spec_intersects(&a.hurtbox) {
        (a.spec_hit(HIT_DAMAGE), Fighter { hitbox: Hitbox { active: false, ..b.hitbox }, ..b })
    } else {
        (a, b)
    }
}

/// The two fighters after one fixed update under the given keys.
pub open spec fn round(first: Fighter, second: Fighter, input: InputView) -> (Fighter, Fighter) {
    exchanged(commanded(first, input).spec_updated(), second.spec_updated())
}

/// The commands with those that draw a fighter: its body, then its
/// hurtbox and its hitbox where they are live. A box of a width or height
/// below zero is drawn with none.
pub open spec fn with_fighter(commands: Seq<DrawCommand>, fighter: Fighter, color: u32) -> Seq<
    DrawCommand,
> {
    let body = commands.push(
        DrawCommand::Rect {
            x: (fighter.x@ / 65536 - 25) as i32,
            y: (fighter.y@ / 65536 - 100) as i32,
            w: 50,
            h: 100,
            color,
        },
    );
    let hurt = if fighter.hurtbox.active {
        body.push(box_command(fighter.hurtbox, 0x4000FF00))
    } else {
        body
    };
    if fighter.hitbox.active {
        hurt.push(box_command(fighter.hitbox, 0x40FF0000))
    } else {
        hurt
    }
}

/// The side of a box in whole units; none for a side below zero.
pub open spec fn side_of(length: FixedPoint) -> u32 {
    if length@ / 65536 < 0 {
        0
    } else {
        (length@ / 65536) as u32
    }
}

/// The command that draws a box.
pub open spec fn box_command(area: Hitbox, color: u32) -> DrawCommand {
    DrawCommand::Rect {
        x: (area.x@ / 65536) as i32,
        y: (area.y@ / 65536) as i32,
        w: side_of(area.width),
        h: side_of(area.height),
        color,
    }
}

/// The commands with those that draw a health bar at `(x, y)`: the
/// background, then two units of width for each point of health, up to
/// 200.
pub open spec fn with_health_bar(
    commands: Seq<DrawCommand>,
    x: i32,
    y: i32,
    health: u8,
    color: u32,
) -> Seq<DrawCommand> {
    commands.push(DrawCommand::Rect { x, y, w: 200, h: 20, color: 0xFF333333 }).push(
        DrawCommand::Rect {
            x,
            y,
            w: if health >= 100 {
                200
            } else {
                (health * 2) as u32
            },
            h: 20,
            color,
        },
    )
}

/// The commands that draw a frame of the fight on a buffer `width` wide.
pub open spec fn scene(first: Fighter, second: Fighter, width: u32) -> Seq<DrawCommand> {
    let ground = seq![
        DrawCommand::Clear(0xFF202020),
        DrawCommand::Rect { x: 0, y: GROUND_Y, w: width, h: 100, color: 0xFF404040 },
    ];
    let fighters = with_fighter(with_fighter(ground, first, CYAN), second, RED);
    with_health_bar(
        with_health_bar(fighters, 50, 30, first.health, CYAN),
        clamp32(width - 250) as i32,
        30,
        second.health,
        RED,
    )
}

/// The picture of a frame of the fight on a buffer of `width` by `height`
/// pixels.
pub open spec fn picture(first: Fighter, second: Fighter, width: u32, height: u32) -> Seq<u32> {
    run_commands(
        Seq::new((width * height) as nat, |i: int| 0u32),
        width as int,
        scene(first, second, width),
    )
}

/// Commands that begin by clearing the buffer draw the same picture on
/// whatever was there before.
proof fn lemma_clear_forgets(
    first: Seq<u32>,
    second: Seq<u32>,
    width: int,
    commands: Seq<DrawCommand>,
)
    requires
        first.len() == second.len(),
        commands.len() > 0,
        commands[0] is Clear,
    ensures
        run_commands(first, width, commands) == run_commands(second, width, commands),
    decreases commands.len(),
{
    let init = commands.drop_last();
    if commands.len() == 1 {
        assert(run_commands(first, width, init) == first);
        assert(run_commands(second, width, init) == second);
        assert(commands.last() == commands[0]);
        assert(commands.last().shape() == everywhere());
        assert forall|i: int| 0 <= i < first.len() implies paint(
            first,
            width,
            everywhere(),
            commands.last().color(),
        )[i] == paint(second, width, everywhere(), commands.last().color())[i] by {
            assert(in_shape(everywhere(), i % width, i / width));
        }
        assert(paint(first, width, everywhere(), commands.last().color()) =~= paint(
            second,
            width,
            everywhere(),
            commands.last().color(),
        ));
    } else {
        assert(init[0] == commands[0]);
        lemma_clear_forgets(first, second, width, init);
    }
}

/// The scene begins by clearing the buffer.
proof fn lemma_scene_clears_first(first: Fighter, second: Fighter, width: u32)
    ensures
        scene(first, second, width).len() > 0,
        scene(first, second, width)[0] is Clear,
{
    let ground = seq![
        DrawCommand::Clear(0xFF202020),
        DrawCommand::Rect { x: 0, y: GROUND_Y, w: width, h: 100, color: 0xFF404040 },
    ];
    let one = with_fighter(ground, first, CYAN);
    assert(one.len() >= 2 && one[0] == ground[0]);
    let two = with_fighter(one, second, RED);
    assert(two.len() >= 2 && two[0] == ground[0]);
    let three = with_health_bar(two, 50, 30, first.health, CYAN);
    assert(three.len() >= 2 && three[0] == ground[0]);
}

/// One fixed update of a fight: the first fighter obeys the keys, both
/// fighters live through a frame, and the hits are exchanged.
pub fn fight_round(first: Fighter, second: Fighter, input: &InputState) -> (r: (Fighter, Fighter))
    ensures
        r == round(first, second, input@),
{
    let mut first: Fighter = first;
    let mut second: Fighter = second;
    // the keys steer the first fighter
    if input.is_key_down(Key::A) {
        first.walk(-1);
    } else if input.is_key_down(Key::D) {
        first.walk(1);
    } else {
        first.stop();
    }
    if input.is_key_pressed(Key::W) {
        first.jump();
    }
    if input.is_key_pressed(Key::Space) {
        first.attack();
    }
    // Update fighters

    first.update();
    second.update();

    // Check hit detection
    if first.hitbox.intersects(&second.hurtbox) {
        second.take_hit(HIT_DAMAGE);
        first.hitbox.active = false;
    }
    if second.hitbox.intersects(&first.hurtbox) {
        first.take_hit(HIT_DAMAGE);
        second.hitbox.active = false;
    }
    (first, second)
}

/// What a fight holds.
pub struct FightState {
    pub player1: Fighter,
    pub player2: Fighter,
    pub input: InputView,
    /// The frames drawn so far.
    pub frame: u64,
    pub running: bool,
    /// The picture, row by row.
    pub canvas: Seq<u32>,
    pub width: u32,
    pub height: u32,
}

pub struct FightingGame {
    config: EngineConfig,
    renderer: Renderer,
    input: InputState,
    game_loop: GameLoop,
    player1: Fighter,
    player2: Fighter,
    frame: u64,
    running: bool,
}

impl View for FightingGame {
    type V = FightState;

    closed spec fn view(&self) -> FightState {
        FightState {
            player1: self.player1,
            player2: self.player2,
            input: self.input@,
            frame: self.frame,
            running: self.running,
            canvas: self.renderer.buffer@,
            width: self.renderer.width,
            height: self.renderer.height,
        }
    }
}

/// Records the commands that draw a box.
fn record_box(commands: &mut CommandBuffer, area: &Hitbox, color: u32)
    ensures
        final(commands)@ == old(commands)@.push(box_command(*area, color)),
{
    let w: i32 = area.width.to_int();
    let h: i32 = area.height.to_int();
    commands.rect(
        area.x.to_int(),
        area.y.to_int(),
        if w < 0 { 0 } else { w as u32 },
        if h < 0 { 0 } else { h as u32 },
        color,
    );
}

impl FightingGame {
    /// True when the buffer holds one entry for each pixel.
    pub closed spec fn well_formed(&self) -> bool {
        self.renderer.well_formed()
    }

    /// A fight between a fighter at 200 who faces right and one at 600 who
    /// faces left, on a black picture of the configured size. A timestep
    /// that is zero or negative is refused.
    pub fn new(config: EngineConfig) -> (r: Result<Self, ConfigError>)
        requires
            config.width * config.height <= u32::MAX,
        ensures
            config.fixed_timestep_ns <= 0 ==> r == Err::<Self, ConfigError>(
                ConfigError::NonPositiveTimestep,
            ),
            config.fixed_timestep_ns > 0 ==> r is Ok,
            r matches Ok(game) ==> {
                &&& game.well_formed()
                &&& game@.player1 == Fighter::spec_new(200, true)
                &&& game@.player2 == Fighter::spec_new(600, false)
                &&& game@.input == InputState::spec_idle()
                &&& game@.frame == 0
                &&& game@.running
                &&& game@.width == config.width
                &&& game@.height == config.height
                &&& game@.canvas.len() == config.width * config.height
                &&& forall|i: int| 0 <= i < game@.canvas.len() ==> game@.canvas[i] == 0
            },
    {
        let game_loop: GameLoop = match GameLoop::new(&config) {
            Ok(game_loop) => game_loop,
            Err(error) => {
                return Err(error);
            },
        };
        let renderer: Renderer = Renderer::new(config.width, config.height);
        Ok(
            FightingGame {
                config,
                renderer,
                input: InputState::new(),
                game_loop,
                player1: Fighter::new(200, true),
                player2: Fighter::new(600, false),
                frame: 0,
                running: true,
            },
        )
    }

    /// Plays the demonstration: `DEMO_FRAMES` frames under keys that are
    /// pressed by a fixed script, each with the fixed updates that the
    /// clock asks for, at most the cap, and then drawn. Afterwards the
    /// picture shows the fighters as they stand.
    pub fn run(&mut self)
        requires
            old(self).well_formed(),
        ensures
            final(self).well_formed(),
            final(self)@.frame == wrapping_count(old(self)@.frame + DEMO_FRAMES),
            final(self)@.running == old(self)@.running,
            final(self)@.width == old(self)@.width,
            final(self)@.height == old(self)@.height,
            final(self)@.canvas == picture(
                final(self)@.player1,
                final(self)@.player2,
                final(self)@.width,
                final(self)@.height,
            ),
    {
        let mut frame: u32 = 0;
        while frame < DEMO_FRAMES
            invariant
                frame <= DEMO_FRAMES,
                self.well_formed(),
                self@.frame == wrapping_count(old(self)@.frame + frame),
                self@.running == old(self)@.running,
                self@.width == old(self)@.width,
                self@.height == old(self)@.height,
                frame > 0 ==> self@.canvas == picture(
                    self@.player1,
                    self@.player2,
                    self@.width,
                    self@.height,
                ),
            decreases DEMO_FRAMES - frame,
        {
            self.input.begin_frame();

            // Simulate inputs
            if frame <= 30 {
                self.input.key_pressed(Key::D);
            } else if 40 <= frame && frame <= 45 {
                self.input.key_pressed(Key::Space);
            } else if 60 <= frame && frame <= 90 {
                self.input.key_pressed(Key::A);
            } else if 100 <= frame && frame <= 105 {
                self.input.key_pressed(Key::W);
                self.input.key_pressed(Key::Space);
            }
            let tick: FrameTick = self.game_loop.tick();

            let mut done: u32 = 0;
            while done < tick.fixed_updates
                invariant
                    self.well_formed(),
                    self@.frame == wrapping_count(old(self)@.frame + frame),
                    self@.running == old(self)@.running,
                    self@.width == old(self)@.width,
                    self@.height == old(self)@.height,
                decreases tick.fixed_updates - done,
            {
                self.fixed_update();
                done += 1;
            }
            self.render();
            self.frame = self.frame.wrapping_add(1);
            frame += 1;
        }
    }

    /// One fixed update: the first fighter obeys the keys, both fighters
    /// live through a frame, and the hits are exchanged.
    fn fixed_update(&mut self)
        ensures
            (final(self)@.player1, final(self)@.player2) == round(
                old(self)@.player1,
                old(self)@.player2,
                old(self)@.input,
            ),
            final(self)@ == (FightState {
                player1: final(self)@.player1,
                player2: final(self)@.player2,
                ..old(self)@
            }),
            final(self).well_formed() == old(self).well_formed(),
    {
        let (player1, player2) = fight_round(self.player1, self.player2, &self.input);
        self.player1 = player1;
        self.player2 = player2;
    }

    /// The first fighter, on the left at the start.
    pub fn player1(&self) -> (r: Fighter)
        ensures
            r == self@.player1,
    {
        self.player1
    }

    /// The second fighter, on the right at the start.
    pub fn player2(&self) -> (r: Fighter)
        ensures
            r == self@.player2,
    {
        self.player2
    }

    /// The frames drawn so far.
    pub fn frame(&self) -> (r: u64)
        ensures
            r == self@.frame,
    {
        self.frame
    }

    /// The picture, row by row.
    pub fn picture(&self) -> (r: &[u32])
        ensures
            r@ == self@.canvas,
    {
        self.renderer.buffer()
    }

    /// Draws the frame: the ground, the fighters with their live boxes,
    /// and the health bars, over whatever the picture showed before.
    fn render(&mut self)
        requires
            old(self).well_formed(),
        ensures
            final(self).well_formed(),
            final(self)@ == (FightState {
                canvas: picture(
                    old(self)@.player1,
                    old(self)@.player2,
                    old(self)@.width,
                    old(self)@.height,
                ),
                ..old(self)@
            }),
    {
        let width: u32 = self.renderer.width;
        let mut commands: CommandBuffer = CommandBuffer::new();
        commands.clear(0xFF202020);

        // Draw ground
        commands.rect(0, GROUND_Y, width, 100, 0xFF404040);
        assert(commands@ =~= seq![
            DrawCommand::Clear(0xFF202020),
            DrawCommand::Rect { x: 0, y: GROUND_Y, w: width, h: 100, color: 0xFF404040 },
        ]);

        // Draw fighters
        Self::draw_fighter(&mut commands, &self.player1, CYAN);
        Self::draw_fighter(&mut commands, &self.player2, RED);

        // Draw health bars
        Self::draw_health_bar(&mut commands, 50, 30, self.player1.health, CYAN);
        let right: i64 = width as i64 - 250;
        let right: i32 = if right > 0x7fff_ffff { 0x7fff_ffff } else { right as i32 };
        Self::draw_health_bar(&mut commands, right, 30, self.player2.health, RED);
        assert(commands@ == scene(self.player1, self.player2, width));

        commands.execute(&mut self.renderer);
        proof {
            lemma_scene_clears_first(self.player1, self.player2, width);
            lemma_clear_forgets(
                old(self).renderer.buffer@,
                Seq::new((width * self.renderer.height) as nat, |i: int| 0u32),
                width as int,
                scene(self.player1, self.player2, width),
            );
        }
    }

    fn draw_fighter(commands: &mut CommandBuffer, fighter: &Fighter, color: u32)
        ensures
            final(commands)@ == with_fighter(old(commands)@, *fighter, color),
    {
        let x: i32 = fighter.x.to_int();
        let y: i32 = fighter.y.to_int();

        // Body
        commands.rect(x - 25, y - 100, 50, 100, color);

        // Hurtbox (debug)
        if fighter.hurtbox.active {
            record_box(commands, &fighter.hurtbox, 0x4000FF00);
        }
        // Hitbox (debug)

        if fighter.hitbox.active {
            record_box(commands, &fighter.hitbox, 0x40FF0000);
        }
    }

    fn draw_health_bar(commands: &mut CommandBuffer, x: i32, y: i32, health: u8, color: u32)
        ensures
            final(commands)@ == with_health_bar(old(commands)@, x, y, health, color),
    {
        // Background
        commands.rect(x, y, 200, 20, 0xFF333333);

        // Health
        let health_width: u32 = if health >= 100 { 200 } else { health as u32 * 2 };
        commands.rect(x, y, health_width, 20, color);
    }
}

} // verus!
