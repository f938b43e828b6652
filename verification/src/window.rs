//! What the app window does with each event it gets: quit, toggle full
//! screen, or note the modifier keys held down.
use vstd::prelude::*;

verus! {

/// The keys that the window's shortcuts use.
#[derive(Debug, Clone, Copy, PartialEq, Eq, Structural)]
pub enum Key {
    Q,
    X,
    F,
    Other,
}

/// The modifier keys held down.
#[derive(Debug, Clone, Copy, PartialEq, Eq, Structural)]
pub struct Modifiers {
    /// The command key.
    pub super_key: bool,
    pub shift_key: bool,
}

/// An event of the window, as far as the shortcuts care.
#[derive(Debug, Clone, Copy, PartialEq, Eq, Structural)]
pub enum WindowInput {
    CloseRequested,
    ModifiersChanged(Modifiers),
    Keyboard { key: Key, pressed: bool, repeat: bool },
    Other,
}

/// What the window is to do next.
#[derive(Debug, Clone, Copy, PartialEq, Eq, Structural)]
pub enum WindowAction {
    Continue,
    Exit,
    ToggleFullscreen,
}

/// A key event is a command shortcut when the key went down (not a repeat)
/// with the command key held.
pub open spec fn spec_is_command_shortcut(pressed: bool, repeat: bool, modifiers: Modifiers) -> bool {
    pressed && !repeat && modifiers.super_key
}

/// Whether a key event with these flags is a command shortcut.
pub fn should_handle_command_shortcut(pressed: bool, repeat: bool, modifiers: Modifiers) -> (r: bool)
    ensures
        r == spec_is_command_shortcut(pressed, repeat, modifiers),
{
    pressed && !repeat && modifiers.super_key
}

/// The modifiers held after an event and what the window does: closing the
/// window or Cmd-Q / Cmd-X exits, Cmd-Shift-F toggles full screen, a change
/// of modifiers is remembered, and anything else is ignored.
pub open spec fn spec_window_step(modifiers: Modifiers, input: WindowInput) -> (Modifiers, WindowAction) {
    match input {
        WindowInput::CloseRequested => (modifiers, WindowAction::Exit),
        WindowInput::ModifiersChanged(next) => (next, WindowAction::Continue),
        WindowInput::Keyboard { key, pressed, repeat } => {
            if !spec_is_command_shortcut(pressed, repeat, modifiers) {
                (modifiers, WindowAction::Continue)
            } else {
                match key {
                    Key::Q => (modifiers, WindowAction::Exit),
                    Key::X => (modifiers, WindowAction::Exit),
                    Key::F => if modifiers.shift_key {
                        (modifiers, WindowAction::ToggleFullscreen)
                    } else {
                        (modifiers, WindowAction::Continue)
                    },
                    Key::Other => (modifiers, WindowAction::Continue),
                }
            }
        },
        WindowInput::Other => (modifiers, WindowAction::Continue),
    }
}

/// One step of the window's event loop.
pub fn window_step(modifiers: Modifiers, input: WindowInput) -> (r: (Modifiers, WindowAction))
    ensures
        r == spec_window_step(modifiers, input),
{
    match input {
        WindowInput::CloseRequested => (modifiers, WindowAction::Exit),
        WindowInput::ModifiersChanged(next) => (next, WindowAction::Continue),
        WindowInput::Keyboard { key, pressed, repeat } => {
            if !should_handle_command_shortcut(pressed, repeat, modifiers) {
                (modifiers, WindowAction::Continue)
            } else {
                match key {
                    Key::Q => (modifiers, WindowAction::Exit),
                    Key::X => (modifiers, WindowAction::Exit),
                    Key::F => if modifiers.shift_key {
                        (modifiers, WindowAction::ToggleFullscreen)
                    } else {
                        (modifiers, WindowAction::Continue)
                    },
                    Key::Other => (modifiers, WindowAction::Continue),
                }
            }
        },
        WindowInput::Other => (modifiers, WindowAction::Continue),
    }
}

} // verus!
