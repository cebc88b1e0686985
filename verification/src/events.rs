//! The input events the game reacts to, as plain values: the keys it knows,
//! mouse movement and clicks, and a change of the terminal size.

use vstd::prelude::*;

verus! {

/// A key that was pressed.
#[derive(Debug, Clone, Copy, PartialEq, Eq, Structural)]
pub enum Key {
    Tab,
    Esc,
    Up,
    Down,
    Left,
    Right,
    Char(char),
    Other,
}

/// A mouse button.
#[derive(Debug, Clone, Copy, PartialEq, Eq, Structural)]
pub enum MouseButton {
    Left,
    Right,
    Middle,
}

/// What the mouse did.
#[derive(Debug, Clone, Copy, PartialEq, Eq, Structural)]
pub enum MouseEventKind {
    Moved,
    Down(MouseButton),
    Other,
}

/// What the mouse did, and at which cell.
#[derive(Debug, Clone, Copy, PartialEq, Eq, Structural)]
pub struct MouseEvent {
    pub kind: MouseEventKind,
    pub column: u16,
    pub row: u16,
}

/// An input event.
#[derive(Debug, Clone, Copy, PartialEq, Eq, Structural)]
pub enum Event {
    Key(Key),
    Mouse(MouseEvent),
    Resize(u16, u16),
    Other,
}

/// The key submits the highlighted thing (`e`).
pub open spec fn is_submit_key(key: Key) -> bool {
    key == Key::Char('e')
}

/// The mouse event is a click with the left or right button.
pub open spec fn is_click(kind: MouseEventKind) -> bool {
    kind == MouseEventKind::Down(MouseButton::Left) || kind == MouseEventKind::Down(MouseButton::Right)
}

/// Tells whether the event is a click with the left or right button.
pub fn is_left_or_right_click(kind: MouseEventKind) -> (b: bool)
    ensures
        b == is_click(kind),
{
    match kind {
        MouseEventKind::Down(MouseButton::Left) | MouseEventKind::Down(MouseButton::Right) => true,
        _ => false,
    }
}

} // verus!
