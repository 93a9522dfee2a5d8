use axle_ecs::{ButtonState, Input, InputEvent};

#[test]
fn key_press_hold_release() {
    let mut input = Input::new();
    assert!(!input.is_key_pressed(4));
    input.process_event(&InputEvent::KeyDown { keycode: 4, repeat: false });
    assert!(input.is_key_pressed(4));
    assert!(!input.is_key_held(4));
    input.update();
    assert!(!input.is_key_pressed(4));
    assert!(input.is_key_held(4));
    input.process_event(&InputEvent::KeyDown { keycode: 4, repeat: true });
    assert!(input.is_key_held(4));
    input.process_event(&InputEvent::KeyUp { keycode: 4 });
    assert!(input.is_key_released(4));
    input.update();
    assert!(input.is_key_released(4));
}

#[test]
fn mouse_press_hold_release() {
    let mut input = Input::new();
    input.process_event(&InputEvent::MouseButtonDown { mouse_btn: 1 });
    input.process_event(&InputEvent::Other);
    assert!(input.is_mouse_button_pressed(1));
    assert!(!input.is_mouse_button_pressed(3));
    input.update();
    assert!(input.is_mouse_button_held(1));
    input.process_event(&InputEvent::MouseButtonUp { mouse_btn: 1 });
    assert!(input.is_mouse_button_released(1));
    assert!(!input.is_key_released(1));
}

#[test]
fn button_state_equality() {
    assert_eq!(ButtonState::Pressed, ButtonState::Pressed);
    assert_ne!(ButtonState::Pressed, ButtonState::Held);
}
