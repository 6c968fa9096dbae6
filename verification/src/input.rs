//! Input handling module
//!
//! The state of keyboard and mouse within one frame. The host feeds it the
//! events that it receives; the game asks it what is held, what went down
//! and what came up since the frame began.

use crate::math::fixed_point::FixedPoint;
use crate::math::vec2::Vec2;
use vstd::prelude::*;

verus! {

/// Keyboard key codes (subset)
#[derive(Clone, Copy, Debug, PartialEq, Eq, Structural, Hash)]
pub enum Key {
    W,
    A,
    S,
    D,
    Up,
    Down,
    Left,
    Right,
    Space,
    Enter,
    Escape,
    Shift,
    Ctrl,
    Alt,
    Q,
    E,
    R,
    F,
    Num1,
    Num2,
    Num3,
    Num4,
    Num5,
    Unknown,
}

/// Mouse button
#[derive(Clone, Copy, Debug, PartialEq, Eq, Structural, Hash)]
pub enum MouseButton {
    Left,
    Right,
    Middle,
}

impl Key {
    /// The number of the key, counted from zero in the order of the list.
    pub open spec fn spec_index(self) -> u32 {
        match self {
            Key::W => 0,
            Key::A => 1,
            Key::S => 2,
            Key::D => 3,
            Key::Up => 4,
            Key::Down => 5,
            Key::Left => 6,
            Key::Right => 7,
            Key::Space => 8,
            Key::Enter => 9,
            Key::Escape => 10,
            Key::Shift => 11,
            Key::Ctrl => 12,
            Key::Alt => 13,
            Key::Q => 14,
            Key::E => 15,
            Key::R => 16,
            Key::F => 17,
            Key::Num1 => 18,
            Key::Num2 => 19,
            Key::Num3 => 20,
            Key::Num4 => 21,
            Key::Num5 => 22,
            Key::Unknown => 23,
        }
    }

    #[verifier::when_used_as_spec(spec_index)]
    pub fn index(self) -> (r: u32)
        ensures
            r == self.spec_index(),
            r < 24,
    {
        match self {
            Key::W => 0,
            Key::A => 1,
            Key::S => 2,
            Key::D => 3,
            Key::Up => 4,
            Key::Down => 5,
            Key::Left => 6,
            Key::Right => 7,
            Key::Space => 8,
            Key::Enter => 9,
            Key::Escape => 10,
            Key::Shift => 11,
            Key::Ctrl => 12,
            Key::Alt => 13,
            Key::Q => 14,
            Key::E => 15,
            Key::R => 16,
            Key::F => 17,
            Key::Num1 => 18,
            Key::Num2 => 19,
            Key::Num3 => 20,
            Key::Num4 => 21,
            Key::Num5 => 22,
            Key::Unknown => 23,
        }
    }
}

impl MouseButton {
    /// The number of the button, counted from zero in the order of the
    /// list.
    pub open spec fn spec_index(self) -> u32 {
        match self {
            MouseButton::Left => 0,
            MouseButton::Right => 1,
            MouseButton::Middle => 2,
        }
    }

    #[verifier::when_used_as_spec(spec_index)]
    pub fn index(self) -> (r: u32)
        ensures
            r == self.spec_index(),
            r < 3,
    {
        match self {
            MouseButton::Left => 0,
            MouseButton::Right => 1,
            MouseButton::Middle => 2,
        }
    }
}

/// True when the set of small numbers `bits` holds `index`.
pub open spec fn holds_bit(bits: u32, index: u32) -> bool {
    (bits >> index) & 1 == 1
}

/// The set `bits` with `index` added.
fn with_bit(bits: u32, index: u32) -> (r: u32)
    requires
        index < 32,
    ensures
        forall|other: u32|
            other < 32 ==> #[trigger] holds_bit(r, other) == (holds_bit(bits, other) || other
                == index),
{
    let r: u32 = bits | (1u32 << index);
    assert forall|other: u32| other < 32 implies #[trigger] holds_bit(r, other) == (holds_bit(
        bits,
        other,
    ) || other == index) by {
        assert(((bits | (1u32 << index)) >> other) & 1 == 1 <==> ((bits >> other) & 1 == 1 || other
            == index)) by (bit_vector)
            requires
                index < 32,
                other < 32,
        ;
    }
    r
}

/// The set `bits` with `index` taken out.
fn without_bit(bits: u32, index: u32) -> (r: u32)
    requires
        index < 32,
    ensures
        forall|other: u32|
            other < 32 ==> #[trigger] holds_bit(r, other) == (holds_bit(bits, other) && other
                != index),
{
    let r: u32 = bits & !(1u32 << index);
    assert forall|other: u32| other < 32 implies #[trigger] holds_bit(r, other) == (holds_bit(
        bits,
        other,
    ) && other != index) by {
        assert(((bits & !(1u32 << index)) >> other) & 1 == 1 <==> ((bits >> other) & 1 == 1
            && other != index)) by (bit_vector)
            requires
                index < 32,
                other < 32,
        ;
    }
    r
}

/// True when the set `bits` holds `index`.
fn has_bit(bits: u32, index: u32) -> (r: bool)
    requires
        index < 32,
    ensures
        r == holds_bit(bits, index),
{
    (bits >> index) & 1 == 1
}

/// The empty set holds nothing.
proof fn lemma_no_bits(index: u32)
    requires
        index < 32,
    ensures
        !holds_bit(0, index),
{
    assert((0u32 >> index) & 1 == 0) by (bit_vector);
}

/// What an input state holds.
pub struct InputView {
    /// The keys that are held down.
    pub keys_down: Set<Key>,
    /// The keys that went down in this frame.
    pub keys_pressed: Set<Key>,
    /// The keys that came up in this frame.
    pub keys_released: Set<Key>,
    /// The mouse buttons that are held down.
    pub mouse_buttons: Set<MouseButton>,
    pub mouse_position: Vec2,
    /// How far the mouse moved in this frame.
    pub mouse_delta: Vec2,
    /// How far the wheel turned in this frame.
    pub scroll_delta: FixedPoint,
}

/// Input state for current frame
#[derive(Clone, Copy, Debug)]
pub struct InputState {
    keys_down: u32,
    keys_pressed: u32,
    keys_released: u32,
    mouse_buttons: u32,
    mouse_position: Vec2,
    mouse_delta: Vec2,
    scroll_delta: FixedPoint,
}

/// The keys that the set `bits` holds.
pub open spec fn key_set(bits: u32) -> Set<Key> {
    Set::new(|key: Key| holds_bit(bits, key.spec_index()))
}

/// The mouse buttons that the set `bits` holds.
pub open spec fn button_set(bits: u32) -> Set<MouseButton> {
    Set::new(|button: MouseButton| holds_bit(bits, button.spec_index()))
}

impl View for InputState {
    type V = InputView;

    closed spec fn view(&self) -> InputView {
        InputView {
            keys_down: key_set(self.keys_down),
            keys_pressed: key_set(self.keys_pressed),
            keys_released: key_set(self.keys_released),
            mouse_buttons: button_set(self.mouse_buttons),
            mouse_position: self.mouse_position,
            mouse_delta: self.mouse_delta,
            scroll_delta: self.scroll_delta,
        }
    }
}

impl InputState {
    /// The state in which nothing is held, the mouse rests at the origin
    /// and nothing has happened.
    pub open spec fn spec_idle() -> InputView {
        InputView {
            keys_down: Set::empty(),
            keys_pressed: Set::empty(),
            keys_released: Set::empty(),
            mouse_buttons: Set::empty(),
            mouse_position: Vec2::spec_zero(),
            mouse_delta: Vec2::spec_zero(),
            scroll_delta: FixedPoint(0),
        }
    }

    pub fn new() -> (r: Self)
        ensures
            r@ == InputState::spec_idle(),
    {
        proof {
            assert forall|key: Key| !holds_bit(0, key.spec_index()) by {
                lemma_no_bits(key.spec_index());
            }
            assert forall|button: MouseButton| !holds_bit(0, button.spec_index()) by {
                lemma_no_bits(button.spec_index());
            }
            assert(key_set(0) =~= Set::<Key>::empty());
            assert(button_set(0) =~= Set::<MouseButton>::empty());
        }
        InputState {
            keys_down: 0,
            keys_pressed: 0,
            keys_released: 0,
            mouse_buttons: 0,
            mouse_position: Vec2::zero(),
            mouse_delta: Vec2::zero(),
            scroll_delta: FixedPoint::zero(),
        }
    }

    /// Call at start of frame to clear per-frame state
    pub fn begin_frame(&mut self)
        ensures
            final(self)@ == (InputView {
                keys_pressed: Set::empty(),
                keys_released: Set::empty(),
                mouse_delta: Vec2::spec_zero(),
                scroll_delta: FixedPoint(0),
                ..old(self)@
            }),
    {
        proof {
            assert forall|key: Key| !holds_bit(0, key.spec_index()) by {
                lemma_no_bits(key.spec_index());
            }
            assert(key_set(0) =~= Set::<Key>::empty());
        }
        self.keys_pressed = 0;
        self.keys_released = 0;
        self.mouse_delta = Vec2::zero();
        self.scroll_delta = FixedPoint::zero();
    }

    /// Key pressed this frame
    pub fn key_pressed(&mut self, key: Key)
        ensures
            final(self)@ == (InputView {
                keys_down: old(self)@.keys_down.insert(key),
                keys_pressed: if old(self)@.keys_down.contains(key) {
                    old(self)@.keys_pressed
                } else {
                    old(self)@.keys_pressed.insert(key)
                },
                ..old(self)@
            }),
    {
        let index: u32 = key.index();
        if !has_bit(self.keys_down, index) {
            let ghost before = self.keys_pressed;
            self.keys_pressed = with_bit(self.keys_pressed, index);
            proof {
                lemma_index_names_key(key);
                assert(key_set(self.keys_pressed) =~= key_set(before).insert(key));
            }
        }
        let ghost before = self.keys_down;
        self.keys_down = with_bit(self.keys_down, index);
        proof {
            lemma_index_names_key(key);
            assert(key_set(self.keys_down) =~= key_set(before).insert(key));
        }
    }

    /// Key released this frame
    pub fn key_released(&mut self, key: Key)
        ensures
            final(self)@ == (InputView {
                keys_down: old(self)@.keys_down.remove(key),
                keys_released: old(self)@.keys_released.insert(key),
                ..old(self)@
            }),
    {
        let index: u32 = key.index();
        let ghost down = self.keys_down;
        let ghost released = self.keys_released;
        self.keys_down = without_bit(self.keys_down, index);
        self.keys_released = with_bit(self.keys_released, index);
        proof {
            lemma_index_names_key(key);
            assert(key_set(self.keys_down) =~= key_set(down).remove(key));
            assert(key_set(self.keys_released) =~= key_set(released).insert(key));
        }
    }

    /// Mouse button pressed
    pub fn mouse_pressed(&mut self, button: MouseButton)
        ensures
            final(self)@ == (InputView {
                mouse_buttons: old(self)@.mouse_buttons.insert(button),
                ..old(self)@
            }),
    {
        let ghost before = self.mouse_buttons;
        self.mouse_buttons = with_bit(self.mouse_buttons, button.index());
        proof {
            lemma_index_names_button(button);
            assert(button_set(self.mouse_buttons) =~= button_set(before).insert(button));
        }
    }

    /// Mouse button released
    pub fn mouse_released(&mut self, button: MouseButton)
        ensures
            final(self)@ == (InputView {
                mouse_buttons: old(self)@.mouse_buttons.remove(button),
                ..old(self)@
            }),
    {
        let ghost before = self.mouse_buttons;
        self.mouse_buttons = without_bit(self.mouse_buttons, button.index());
        proof {
            lemma_index_names_button(button);
            assert(button_set(self.mouse_buttons) =~= button_set(before).remove(button));
        }
    }

    /// Mouse moved to `(x, y)`: the way from the last position adds to the
    /// movement of this frame.
    pub fn mouse_moved(&mut self, x: FixedPoint, y: FixedPoint)
        ensures
            final(self)@ == (InputView {
                mouse_position: Vec2 { x, y },
                mouse_delta: old(self)@.mouse_delta.spec_add(
                    (Vec2 { x, y }).spec_sub(old(self)@.mouse_position),
                ),
                ..old(self)@
            }),
    {
        let target: Vec2 = Vec2::new(x, y);
        self.mouse_delta = self.mouse_delta + (target - self.mouse_position);
        self.mouse_position = target;
    }

    /// Mouse scrolled
    pub fn mouse_scrolled(&mut self, delta: FixedPoint)
        ensures
            final(self)@ == (InputView {
                scroll_delta: old(self)@.scroll_delta.spec_add(delta),
                ..old(self)@
            }),
    {
        self.scroll_delta = self.scroll_delta + delta;
    }

    /// Is key currently held down?
    pub fn is_key_down(&self, key: Key) -> (r: bool)
        ensures
            r == self@.keys_down.contains(key),
    {
        has_bit(self.keys_down, key.index())
    }

    /// Was key just pressed this frame?
    pub fn is_key_pressed(&self, key: Key) -> (r: bool)
        ensures
            r == self@.keys_pressed.contains(key),
    {
        has_bit(self.keys_pressed, key.index())
    }

    /// Was key just released this frame?
    pub fn is_key_released(&self, key: Key) -> (r: bool)
        ensures
            r == self@.keys_released.contains(key),
    {
        has_bit(self.keys_released, key.index())
    }

    /// Is mouse button down?
    pub fn is_mouse_down(&self, button: MouseButton) -> (r: bool)
        ensures
            r == self@.mouse_buttons.contains(button),
    {
        has_bit(self.mouse_buttons, button.index())
    }

    /// Get mouse position
    pub fn mouse_position(&self) -> (r: Vec2)
        ensures
            r == self@.mouse_position,
    {
        self.mouse_position
    }

    /// Get mouse delta this frame
    pub fn mouse_delta(&self) -> (r: Vec2)
        ensures
            r == self@.mouse_delta,
    {
        self.mouse_delta
    }

    /// Get scroll delta this frame
    pub fn scroll_delta(&self) -> (r: FixedPoint)
        ensures
            r == self@.scroll_delta,
    {
        self.scroll_delta
    }

    /// The pull along one axis: minus one where a key of the first pair is
    /// down, plus one where a key of the second pair is; both cancel.
    pub open spec fn axis(
        view: InputView,
        back: Key,
        back_alt: Key,
        ahead: Key,
        ahead_alt: Key,
    ) -> FixedPoint {
        let backward = view.keys_down.contains(back) || view.keys_down.contains(back_alt);
        let forward = view.keys_down.contains(ahead) || view.keys_down.contains(ahead_alt);
        if backward && !forward {
            FixedPoint(-65536i32)
        } else if forward && !backward {
            FixedPoint(65536)
        } else {
            FixedPoint(0)
        }
    }

    /// Get horizontal axis (-1, 0, 1) from WASD/Arrows
    pub fn horizontal_axis(&self) -> (r: FixedPoint)
        ensures
            r == InputState::axis(self@, Key::A, Key::Left, Key::D, Key::Right),
    {
        let mut axis: FixedPoint = FixedPoint::zero();
        if self.is_key_down(Key::A) || self.is_key_down(Key::Left) {
            axis = axis - FixedPoint::one();
        }
        if self.is_key_down(Key::D) || self.is_key_down(Key::Right) {
            axis = axis + FixedPoint::one();
        }
        axis
    }

    /// Get vertical axis (-1, 0, 1) from WASD/Arrows
    pub fn vertical_axis(&self) -> (r: FixedPoint)
        ensures
            r == InputState::axis(self@, Key::W, Key::Up, Key::S, Key::Down),
    {
        let mut axis: FixedPoint = FixedPoint::zero();
        if self.is_key_down(Key::W) || self.is_key_down(Key::Up) {
            axis = axis - FixedPoint::one();
        }
        if self.is_key_down(Key::S) || self.is_key_down(Key::Down) {
            axis = axis + FixedPoint::one();
        }
        axis
    }
}

/// No two keys have the same number.
proof fn lemma_index_names_key(key: Key)
    ensures
        forall|other: Key| other.spec_index() == key.spec_index() ==> other == key,
        forall|other: Key| #[trigger] other.spec_index() < 24,
{
}

/// No two mouse buttons have the same number.
proof fn lemma_index_names_button(button: MouseButton)
    ensures
        forall|other: MouseButton| other.spec_index() == button.spec_index() ==> other == button,
        forall|other: MouseButton| #[trigger] other.spec_index() < 3,
{
}

impl Default for InputState {
    fn default() -> (r: InputState)
        ensures
            r@ == InputState::spec_idle(),
    {
        InputState::new()
    }
}

} // verus!
