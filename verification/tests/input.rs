use engine::audio::AudioSystem;
use engine::input::{InputState, Key, MouseButton};
use engine::math::fixed_point::FixedPoint;
use engine::math::vec2::Vec2;

fn fx(n: i32) -> FixedPoint {
    FixedPoint::from_int(n)
}

#[test]
fn nothing_is_held_at_first() {
    let input = InputState::new();
    assert!(!input.is_key_down(Key::W));
    assert!(!input.is_key_pressed(Key::W));
    assert!(!input.is_key_released(Key::W));
    assert!(!input.is_mouse_down(MouseButton::Left));
    assert_eq!(input.mouse_position(), Vec2::zero());
    assert_eq!(input.mouse_delta(), Vec2::zero());
    assert_eq!(input.scroll_delta(), fx(0));
    assert_eq!(input.horizontal_axis(), fx(0));
    assert_eq!(input.vertical_axis(), fx(0));
    let other = InputState::default();
    assert!(!other.is_key_down(Key::Unknown));
}

#[test]
fn a_key_is_pressed_only_in_the_frame_it_went_down() {
    let mut input = InputState::new();
    input.key_pressed(Key::Space);
    assert!(input.is_key_down(Key::Space));
    assert!(input.is_key_pressed(Key::Space));
    assert!(!input.is_key_down(Key::Enter));
    input.begin_frame();
    assert!(input.is_key_down(Key::Space));
    assert!(!input.is_key_pressed(Key::Space));
    // a repeat of a key that is held is no new press
    input.key_pressed(Key::Space);
    assert!(!input.is_key_pressed(Key::Space));
    input.key_released(Key::Space);
    assert!(!input.is_key_down(Key::Space));
    assert!(input.is_key_released(Key::Space));
    input.begin_frame();
    assert!(!input.is_key_released(Key::Space));
}

#[test]
fn every_key_has_its_own_place() {
    let keys = [
        Key::W, Key::A, Key::S, Key::D, Key::Up, Key::Down, Key::Left, Key::Right, Key::Space,
        Key::Enter, Key::Escape, Key::Shift, Key::Ctrl, Key::Alt, Key::Q, Key::E, Key::R, Key::F,
        Key::Num1, Key::Num2, Key::Num3, Key::Num4, Key::Num5, Key::Unknown,
    ];
    for (i, key) in keys.iter().enumerate() {
        assert_eq!(key.index() as usize, i);
        let mut input = InputState::new();
        input.key_pressed(*key);
        for other in keys.iter() {
            assert_eq!(input.is_key_down(*other), other == key);
            assert_eq!(input.is_key_pressed(*other), other == key);
        }
        input.key_released(*key);
        for other in keys.iter() {
            assert!(!input.is_key_down(*other));
            assert_eq!(input.is_key_released(*other), other == key);
        }
    }
}

#[test]
fn mouse_buttons_are_held_until_released() {
    let mut input = InputState::new();
    input.mouse_pressed(MouseButton::Right);
    assert!(input.is_mouse_down(MouseButton::Right));
    assert!(!input.is_mouse_down(MouseButton::Left));
    assert!(!input.is_mouse_down(MouseButton::Middle));
    input.begin_frame();
    assert!(input.is_mouse_down(MouseButton::Right));
    input.mouse_pressed(MouseButton::Middle);
    input.mouse_released(MouseButton::Right);
    assert!(!input.is_mouse_down(MouseButton::Right));
    assert!(input.is_mouse_down(MouseButton::Middle));
    assert_eq!(MouseButton::Left.index(), 0);
    assert_eq!(MouseButton::Right.index(), 1);
    assert_eq!(MouseButton::Middle.index(), 2);
}

#[test]
fn mouse_movement_adds_up_within_a_frame() {
    let mut input = InputState::new();
    input.mouse_moved(fx(10), fx(20));
    assert_eq!(input.mouse_position(), Vec2::new(fx(10), fx(20)));
    assert_eq!(input.mouse_delta(), Vec2::new(fx(10), fx(20)));
    input.mouse_moved(fx(13), fx(18));
    assert_eq!(input.mouse_delta(), Vec2::new(fx(13), fx(18)));
    input.begin_frame();
    assert_eq!(input.mouse_delta(), Vec2::zero());
    assert_eq!(input.mouse_position(), Vec2::new(fx(13), fx(18)));
    input.mouse_moved(fx(12), fx(18));
    assert_eq!(input.mouse_delta(), Vec2::new(fx(-1), fx(0)));
}

#[test]
fn scrolling_adds_up_within_a_frame() {
    let mut input = InputState::new();
    input.mouse_scrolled(fx(2));
    input.mouse_scrolled(fx(-5));
    assert_eq!(input.scroll_delta(), fx(-3));
    input.begin_frame();
    assert_eq!(input.scroll_delta(), fx(0));
}

#[test]
fn axes_follow_wasd_and_the_arrows() {
    let mut input = InputState::new();
    input.key_pressed(Key::A);
    assert_eq!(input.horizontal_axis(), fx(-1));
    input.key_pressed(Key::Right);
    assert_eq!(input.horizontal_axis(), fx(0));
    input.key_released(Key::A);
    assert_eq!(input.horizontal_axis(), fx(1));
    input.key_pressed(Key::D);
    assert_eq!(input.horizontal_axis(), fx(1));
    input.key_released(Key::D);
    input.key_released(Key::Right);
    input.key_pressed(Key::Left);
    assert_eq!(input.horizontal_axis(), fx(-1));
    assert_eq!(input.vertical_axis(), fx(0));

    input.key_pressed(Key::W);
    assert_eq!(input.vertical_axis(), fx(-1));
    input.key_pressed(Key::Up);
    assert_eq!(input.vertical_axis(), fx(-1));
    input.key_pressed(Key::S);
    assert_eq!(input.vertical_axis(), fx(0));
    input.key_released(Key::W);
    input.key_released(Key::Up);
    assert_eq!(input.vertical_axis(), fx(1));
    input.key_released(Key::S);
    input.key_pressed(Key::Down);
    assert_eq!(input.vertical_axis(), fx(1));
}

#[test]
fn audio_keeps_only_its_switch() {
    let mut audio = AudioSystem::new();
    assert!(audio.is_enabled());
    audio.play_sound(1);
    audio.play_music(2);
    audio.stop_music();
    audio.set_volume(FixedPoint::half());
    assert!(audio.is_enabled());
    audio.set_enabled(false);
    assert!(!audio.is_enabled());
    audio.set_volume(FixedPoint::one());
    assert!(!audio.is_enabled());
    audio.set_enabled(true);
    assert!(audio.is_enabled());
    assert!(AudioSystem::default().is_enabled());
}
