//! Latch for the currently asserted key of the hexadecimal keypad.  At most
//! one key is modeled as pressed at a time; a new press overwrites any
//! previous one.

use vstd::prelude::*;

verus! {

/// Holds the currently pressed key code, if any.
pub struct Keyboard {
    key_pressed: Option<u8>,
}

impl View for Keyboard {
    type V = Option<u8>;

    closed spec fn view(&self) -> Option<u8> {
        self.key_pressed
    }
}

impl Keyboard {
    /// Creates a latch with no key asserted.
    pub fn new() -> (k: Self)
        ensures
            k@ == None::<u8>,
    {
        Keyboard { key_pressed: None }
    }

    /// The currently pressed key, if any.
    pub fn get_key_pressed(&self) -> (r: Option<u8>)
        ensures
            r == self@,
    {
        self.key_pressed
    }

    /// Asserts `key`, overwriting any previously pressed key.
    pub fn press_key(&mut self, key: u8)
        ensures
            final(self)@ == Some(key),
    {
        self.key_pressed = Some(key);
    }

    /// Clears the latch.
    pub fn release_key(&mut self)
        ensures
            final(self)@ == None::<u8>,
    {
        self.key_pressed = None;
    }
}

} // verus!
