//! Input devices: the seam that a platform fills.
use vstd::prelude::*;

use crate::text::copy_str;

verus! {

/// Why no event could be had.
#[derive(Debug, Clone, Copy, PartialEq, Eq, Structural)]
pub enum InputError {
    NoBackend,
}

impl InputError {
    /// The text that describes this error.
    pub fn message(&self) -> (r: String)
        ensures
            r@ == "no input backend available for this platform yet"@,
    {
        copy_str("no input backend available for this platform yet")
    }
}

/// An event of a device, not yet encoded.
#[derive(Debug, Clone, Copy, PartialEq, Eq, Structural)]
pub enum InputEvent {
    KeyDown { scancode: u16, modifiers: u16 },
    KeyUp { scancode: u16, modifiers: u16 },
    MouseMoveRelative { dx: i16, dy: i16 },
    MouseButton { button: u8, pressed: bool },
}

/// A source of events.
pub trait InputBackend: Send {
    fn poll_event(&mut self) -> Result<Option<InputEvent>, InputError>;
}

} // verus!
