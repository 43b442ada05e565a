//! Key events and how far they have been handled.

use vstd::prelude::*;

verus! {

/// A key as it travels through the handlers: the code it was pressed with,
/// the code it stands for now, the time since the previous event and a flag
/// byte whose lowest bit records that it has been sent.
#[derive(Clone, Copy, PartialEq, Eq, Structural, Debug)]
pub struct Key {
    pub original_keycode: u32,
    pub keycode: u32,
    pub ms_since_last: u16,
    pub flag: u8,
}

impl Key {
    /// A key that has not been remapped nor sent yet.
    pub fn new(keycode: u32, ms_since_last: u16) -> (k: Key)
        ensures
            k.original_keycode == keycode,
            k.keycode == keycode,
            k.ms_since_last == ms_since_last,
            k.flag == 0,
    {
        Key { original_keycode: keycode, keycode, ms_since_last, flag: 0 }
    }
}

/// One event of the key stream.
#[derive(Clone, Copy, PartialEq, Eq, Structural, Debug)]
pub enum Event {
    KeyPress(Key),
    KeyRelease(Key),
    TimeOut(u16),
}

/// How far an event has been handled.
#[derive(Clone, Copy, PartialEq, Eq, Structural, Debug)]
pub enum EventStatus {
    /// No handler has dealt with the event yet.
    Unhandled,
    /// The event is done with and can be dropped from the stream.
    Handled,
    /// The event was acted on but stays in the stream.
    Ignored,
}

} // verus!
