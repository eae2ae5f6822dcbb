use crile::events::codes::{ButtonState, KeyCode, KeyModifiers, MouseButton};
use crile::events::input::{ClipboardShortcut, Input, InputEvent};

fn key(state: ButtonState, keycode: KeyCode) -> InputEvent {
    InputEvent::KeyInput { state, repeat: false, keycode }
}

#[test]
fn button_state_is_pressed() {
    assert!(ButtonState::Pressed.is_pressed());
    assert!(!ButtonState::Released.is_pressed());
}

#[test]
fn command_key_depends_on_platform() {
    let control = KeyModifiers { control_key: true, ..Default::default() };
    let command = KeyModifiers { super_key: true, ..Default::default() };
    assert!(control.command_key(false));
    assert!(!control.command_key(true));
    assert!(command.command_key(true));
    assert!(!command.command_key(false));
}

#[test]
fn codes_tell_keys_and_buttons_apart() {
    assert_eq!(KeyCode::Backquote.code(), 0);
    assert_ne!(KeyCode::KeyA.code(), KeyCode::KeyB.code());
    assert_ne!(KeyCode::Unknown.code(), KeyCode::F35.code());
    assert_eq!(MouseButton::Left.code(), 0);
    assert_eq!(MouseButton::Other.code(), 5);
}

#[test]
fn press_and_release_keys() {
    let mut input = Input::new();
    input.process_event(&key(ButtonState::Pressed, KeyCode::KeyW));
    assert!(input.key_pressed(KeyCode::KeyW));
    assert!(input.key_just_pressed(KeyCode::KeyW));
    assert!(!input.key_just_released(KeyCode::KeyW));
    assert!(!input.key_pressed(KeyCode::KeyS));

    input.clear();
    assert!(input.key_pressed(KeyCode::KeyW));
    assert!(!input.key_just_pressed(KeyCode::KeyW));

    input.process_event(&key(ButtonState::Released, KeyCode::KeyW));
    assert!(!input.key_pressed(KeyCode::KeyW));
    assert!(input.key_just_released(KeyCode::KeyW));
    input.clear();
    assert!(!input.key_just_released(KeyCode::KeyW));
}

#[test]
fn repeated_keys_change_nothing() {
    let mut input = Input::default();
    input.process_event(&InputEvent::KeyInput { state: ButtonState::Pressed, repeat: true, keycode: KeyCode::Space });
    assert!(!input.key_pressed(KeyCode::Space));
    assert!(!input.key_just_pressed(KeyCode::Space));
}

#[test]
fn mouse_buttons_and_modifiers() {
    let mut input = Input::new();
    input.process_event(&InputEvent::MouseInput { state: ButtonState::Pressed, button: MouseButton::Right });
    assert!(input.mouse_pressed(MouseButton::Right));
    assert!(input.mouse_just_pressed(MouseButton::Right));
    assert!(!input.mouse_pressed(MouseButton::Left));
    input.process_event(&InputEvent::MouseInput { state: ButtonState::Released, button: MouseButton::Right });
    assert!(!input.mouse_pressed(MouseButton::Right));
    assert!(input.mouse_just_released(MouseButton::Right));

    let modifiers = KeyModifiers { shift_key: true, ..Default::default() };
    input.process_event(&InputEvent::KeyModifiersChanged { modifiers });
    assert_eq!(input.key_modifiers(), modifiers);
    input.process_event(&InputEvent::Other);
    assert_eq!(input.key_modifiers(), modifiers);
}

#[test]
fn axes_from_held_keys() {
    let mut input = Input::new();
    let axes = |input: &Input| input.get_axes(KeyCode::KeyA, KeyCode::KeyS, KeyCode::KeyD, KeyCode::KeyW);
    assert_eq!(axes(&input), (0, 0));
    input.process_event(&key(ButtonState::Pressed, KeyCode::KeyW));
    assert_eq!(axes(&input), (0, 1));
    input.process_event(&key(ButtonState::Pressed, KeyCode::KeyD));
    assert_eq!(axes(&input), (1, 1));
    input.process_event(&key(ButtonState::Pressed, KeyCode::KeyA));
    input.process_event(&key(ButtonState::Pressed, KeyCode::KeyS));
    assert_eq!(axes(&input), (0, 0));
    input.process_event(&key(ButtonState::Released, KeyCode::KeyD));
    input.process_event(&key(ButtonState::Released, KeyCode::KeyW));
    assert_eq!(axes(&input), (-1, -1));
}

#[test]
fn clipboard_shortcuts_need_the_command_key() {
    let mut input = Input::new();
    input.process_event(&key(ButtonState::Pressed, KeyCode::KeyC));
    assert_eq!(input.clipboard_shortcut(false), ClipboardShortcut::Nothing);
    let control = KeyModifiers { control_key: true, ..Default::default() };
    input.process_event(&InputEvent::KeyModifiersChanged { modifiers: control });
    assert_eq!(input.clipboard_shortcut(false), ClipboardShortcut::Copy);
    assert_eq!(input.clipboard_shortcut(true), ClipboardShortcut::Nothing);
    input.clear();
    input.process_event(&key(ButtonState::Pressed, KeyCode::KeyV));
    assert_eq!(input.clipboard_shortcut(false), ClipboardShortcut::Paste);
    input.process_event(&key(ButtonState::Pressed, KeyCode::KeyX));
    assert_eq!(input.clipboard_shortcut(false), ClipboardShortcut::Cut);
}
