//! Gamepad input: which keyboard key a gamepad button stands for.

use vstd::prelude::*;

use crate::controller::BoardKey;

verus! {

/// A gamepad button
#[derive(PartialEq, Eq, Structural, Clone, Copy, Debug)]
pub enum PadButton {
    /// Bottom face button
    South,
    /// Right face button
    East,
    /// Top face button
    North,
    /// Left face button
    West,
    /// Extra face button
    C,
    /// Extra face button
    Z,
    /// Left shoulder
    LeftTrigger,
    /// Left trigger
    LeftTrigger2,
    /// Right shoulder
    RightTrigger,
    /// Right trigger
    RightTrigger2,
    /// Select
    Select,
    /// Start
    Start,
    /// Mode
    Mode,
    /// Left stick press
    LeftThumb,
    /// Right stick press
    RightThumb,
    /// D-pad up
    DPadUp,
    /// D-pad down
    DPadDown,
    /// D-pad left
    DPadLeft,
    /// D-pad right
    DPadRight,
    /// Anything else
    Unknown,
}

/// A gamepad axis
#[derive(PartialEq, Eq, Structural, Clone, Copy, Debug)]
pub enum PadAxis {
    /// Left stick, horizontal
    LeftStickX,
    /// Left stick, vertical
    LeftStickY,
    /// Left analog trigger
    LeftZ,
    /// Right stick, horizontal
    RightStickX,
    /// Right stick, vertical
    RightStickY,
    /// Right analog trigger
    RightZ,
    /// D-pad, horizontal
    DPadX,
    /// D-pad, vertical
    DPadY,
    /// Anything else
    Unknown,
}

/// A direction of movement on a gamepad
#[derive(PartialEq, Eq, Structural, Clone, Copy, Debug)]
pub enum Axis {
    /// Horizontal
    X,
    /// Vertical
    Y,
}

/// Whether a key went down or up
#[derive(PartialEq, Eq, Structural, Clone, Copy, Debug)]
pub enum KeyState {
    /// Pressed
    Press,
    /// Released
    Release,
}

/// A gamepad event
#[derive(PartialEq, Eq, Structural, Clone, Copy, Debug)]
pub enum PadEvent {
    /// A button was pressed
    ButtonPressed(PadButton),
    /// A held button repeated
    ButtonRepeated(PadButton),
    /// A button was released
    ButtonReleased(PadButton),
    /// Anything else (analog changes, connection changes)
    Other,
}

/// The direction an axis moves along: sticks and the d-pad move horizontally or vertically,
/// analog triggers and unknown axes along neither.
pub fn axis(a: PadAxis) -> (r: Option<Axis>)
    ensures
        r == match a {
            PadAxis::LeftStickX | PadAxis::RightStickX | PadAxis::DPadX => Some(Axis::X),
            PadAxis::LeftStickY | PadAxis::RightStickY | PadAxis::DPadY => Some(Axis::Y),
            _ => None::<Axis>,
        },
{
    match a {
        PadAxis::LeftStickX | PadAxis::RightStickX | PadAxis::DPadX => Some(Axis::X),
        PadAxis::LeftStickY | PadAxis::RightStickY | PadAxis::DPadY => Some(Axis::Y),
        PadAxis::LeftZ | PadAxis::RightZ | PadAxis::Unknown => None,
    }
}

/// The key a button stands for: the shoulders and triggers the shift keys (left and right),
/// the face buttons space, the d-pad the arrow keys; the others none.
pub open spec fn button_key(button: PadButton) -> Option<BoardKey> {
    match button {
        PadButton::LeftTrigger | PadButton::LeftTrigger2 => Some(BoardKey::LShift),
        PadButton::RightTrigger | PadButton::RightTrigger2 => Some(BoardKey::RShift),
        PadButton::North | PadButton::East | PadButton::South | PadButton::West | PadButton::C
        | PadButton::Z => Some(BoardKey::Space),
        PadButton::DPadUp => Some(BoardKey::Up),
        PadButton::DPadDown => Some(BoardKey::Down),
        PadButton::DPadLeft => Some(BoardKey::Left),
        PadButton::DPadRight => Some(BoardKey::Right),
        _ => None,
    }
}

/// Gets the key a button stands for (see `button_key`)
pub fn map_button(button: PadButton) -> (r: Option<BoardKey>)
    ensures
        r == button_key(button),
{
    match button {
        PadButton::LeftTrigger | PadButton::LeftTrigger2 => Some(BoardKey::LShift),
        PadButton::RightTrigger | PadButton::RightTrigger2 => Some(BoardKey::RShift),
        PadButton::North | PadButton::East | PadButton::South | PadButton::West | PadButton::C
        | PadButton::Z => Some(BoardKey::Space),
        PadButton::DPadUp => Some(BoardKey::Up),
        PadButton::DPadDown => Some(BoardKey::Down),
        PadButton::DPadLeft => Some(BoardKey::Left),
        PadButton::DPadRight => Some(BoardKey::Right),
        PadButton::Select | PadButton::Start | PadButton::Mode | PadButton::LeftThumb
        | PadButton::RightThumb | PadButton::Unknown => None,
    }
}

/// The key event a gamepad event stands for: a pressed or repeated button presses its key, a
/// released one releases it; other events and buttons without a key stand for none.
pub fn map_event(event: PadEvent) -> (r: Option<(KeyState, BoardKey)>)
    ensures
        r == match event {
            PadEvent::ButtonPressed(b) | PadEvent::ButtonRepeated(b) => match button_key(b) {
                Some(k) => Some((KeyState::Press, k)),
                None => None,
            },
            PadEvent::ButtonReleased(b) => match button_key(b) {
                Some(k) => Some((KeyState::Release, k)),
                None => None,
            },
            PadEvent::Other => None,
        },
{
    match event {
        PadEvent::ButtonPressed(button) | PadEvent::ButtonRepeated(button) => match map_button(
            button,
        ) {
            Some(key) => Some((KeyState::Press, key)),
            None => None,
        },
        PadEvent::ButtonReleased(button) => match map_button(button) {
            Some(key) => Some((KeyState::Release, key)),
            None => None,
        },
        PadEvent::Other => None,
    }
}

} // verus!
