//! What the kernel does with a character that arrives on the serial port.

use vstd::prelude::*;

verus! {

/// What to do with a character from the serial port.
#[derive(Copy, Clone, Debug, PartialEq, Eq, Structural)]
pub enum KeyAction {
    /// Stop at a breakpoint, then send the character back.
    BreakThenEcho,
    /// Give up with a panic.
    Panic,
    /// Send the character back.
    Echo,
}

/// What the kernel does with the character `c`: `q` stops it at a
/// breakpoint, `p` makes it panic, and every character but `p` is sent back.
pub fn key_action(c: char) -> (r: KeyAction)
    ensures
        r == if c == 'q' {
            KeyAction::BreakThenEcho
        } else if c == 'p' {
            KeyAction::Panic
        } else {
            KeyAction::Echo
        },
{
    if c == 'q' {
        KeyAction::BreakThenEcho
    } else if c == 'p' {
        KeyAction::Panic
    } else {
        KeyAction::Echo
    }
}

} // verus!
