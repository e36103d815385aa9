use vstd::prelude::*;

verus! {

/// A keystroke, as the terminal backend delivers it. The surrounding program
/// translates the backend's event type into this closed set; every key the
/// state machines do not list here is simply ignored by them.
#[derive(Clone, Copy, PartialEq, Eq, Structural, Debug)]
pub enum Key {
    Char(char),
    Backspace,
    Enter,
    Left,
    Right,
    Up,
    Down,
    Tab,
    Insert,
    Esc,
}

} // verus!
