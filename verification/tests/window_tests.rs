use web_notes::window::{
    Key, Modifiers, WindowAction, WindowInput, should_handle_command_shortcut, window_step,
};

const NONE: Modifiers = Modifiers { super_key: false, shift_key: false };
const COMMAND: Modifiers = Modifiers { super_key: true, shift_key: false };
const COMMAND_SHIFT: Modifiers = Modifiers { super_key: true, shift_key: true };

fn press(key: Key) -> WindowInput {
    WindowInput::Keyboard { key, pressed: true, repeat: false }
}

#[test]
fn command_shortcut_needs_a_fresh_press_with_command_held() {
    assert!(should_handle_command_shortcut(true, false, COMMAND));
    assert!(!should_handle_command_shortcut(false, false, COMMAND));
    assert!(!should_handle_command_shortcut(true, true, COMMAND));
    assert!(!should_handle_command_shortcut(true, false, NONE));
}

#[test]
fn closing_the_window_exits() {
    assert_eq!(window_step(NONE, WindowInput::CloseRequested), (NONE, WindowAction::Exit));
}

#[test]
fn command_q_and_command_x_exit() {
    assert_eq!(window_step(COMMAND, press(Key::Q)), (COMMAND, WindowAction::Exit));
    assert_eq!(window_step(COMMAND, press(Key::X)), (COMMAND, WindowAction::Exit));
}

#[test]
fn command_shift_f_toggles_fullscreen_but_command_f_does_not() {
    assert_eq!(
        window_step(COMMAND_SHIFT, press(Key::F)),
        (COMMAND_SHIFT, WindowAction::ToggleFullscreen)
    );
    assert_eq!(window_step(COMMAND, press(Key::F)), (COMMAND, WindowAction::Continue));
}

#[test]
fn keys_without_command_or_repeated_are_ignored() {
    assert_eq!(window_step(NONE, press(Key::Q)), (NONE, WindowAction::Continue));
    let repeated = WindowInput::Keyboard { key: Key::Q, pressed: true, repeat: true };
    assert_eq!(window_step(COMMAND, repeated), (COMMAND, WindowAction::Continue));
    let released = WindowInput::Keyboard { key: Key::Q, pressed: false, repeat: false };
    assert_eq!(window_step(COMMAND, released), (COMMAND, WindowAction::Continue));
    assert_eq!(window_step(COMMAND, press(Key::Other)), (COMMAND, WindowAction::Continue));
}

#[test]
fn modifier_changes_are_remembered_for_the_next_key() {
    let (held, action) = window_step(NONE, WindowInput::ModifiersChanged(COMMAND));
    assert_eq!((held, action), (COMMAND, WindowAction::Continue));
    assert_eq!(window_step(held, press(Key::Q)), (COMMAND, WindowAction::Exit));
    assert_eq!(window_step(COMMAND, WindowInput::Other), (COMMAND, WindowAction::Continue));
}
