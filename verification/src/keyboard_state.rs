//! The modifier keys and the part of the keyboard state that records which
//! of them are held.

use crate::key_codes::{LALT, LCTRL, LGUI, LSHIFT, RALT, RCTRL, RGUI, RSHIFT};
use vstd::prelude::*;

verus! {

/// The four modifiers of a USB keyboard.
#[derive(Clone, Copy, PartialEq, Eq, Structural, Debug)]
pub enum Modifier {
    Shift,
    Ctrl,
    Alt,
    Gui,
}

/// The position of a modifier in a four-entry table.
pub open spec fn modifier_index(m: Modifier) -> int {
    match m {
        Modifier::Shift => 0,
        Modifier::Ctrl => 1,
        Modifier::Alt => 2,
        Modifier::Gui => 3,
    }
}

/// The modifier whose left or right key has the key code `kc`, if any.
pub open spec fn modifier_of(kc: u32) -> Option<Modifier> {
    if kc == LSHIFT || kc == RSHIFT {
        Some(Modifier::Shift)
    } else if kc == LCTRL || kc == RCTRL {
        Some(Modifier::Ctrl)
    } else if kc == LALT || kc == RALT {
        Some(Modifier::Alt)
    } else if kc == LGUI || kc == RGUI {
        Some(Modifier::Gui)
    } else {
        None
    }
}

/// The key code of the left key of a modifier.
pub open spec fn left_keycode(m: Modifier) -> u32 {
    match m {
        Modifier::Shift => LSHIFT,
        Modifier::Ctrl => LCTRL,
        Modifier::Alt => LALT,
        Modifier::Gui => LGUI,
    }
}

impl Modifier {
    /// The position of this modifier in a four-entry table.
    pub fn index(&self) -> (i: usize)
        ensures
            i == modifier_index(*self),
    {
        match self {
            Modifier::Shift => 0,
            Modifier::Ctrl => 1,
            Modifier::Alt => 2,
            Modifier::Gui => 3,
        }
    }
}

/// The modifier whose left or right key has the key code `kc`, if any.
pub fn modifier_for_keycode(kc: u32) -> (m: Option<Modifier>)
    ensures
        m == modifier_of(kc),
        m is Some ==> 0x1000E0 <= kc && kc <= 0x1000E7,
        (m == Some(Modifier::Ctrl)) == (kc == 0x1000E0 || kc == 0x1000E4),
        (m == Some(Modifier::Shift)) == (kc == 0x1000E1 || kc == 0x1000E5),
        (m == Some(Modifier::Alt)) == (kc == 0x1000E2 || kc == 0x1000E6),
        (m == Some(Modifier::Gui)) == (kc == 0x1000E3 || kc == 0x1000E7),
{
    if kc == LSHIFT || kc == RSHIFT {
        Some(Modifier::Shift)
    } else if kc == LCTRL || kc == RCTRL {
        Some(Modifier::Ctrl)
    } else if kc == LALT || kc == RALT {
        Some(Modifier::Alt)
    } else if kc == LGUI || kc == RGUI {
        Some(Modifier::Gui)
    } else {
        None
    }
}

/// Which modifiers are currently held.
#[derive(Clone, Copy, PartialEq, Eq, Structural, Debug)]
pub struct KeyboardState {
    pub shift: bool,
    pub ctrl: bool,
    pub alt: bool,
    pub gui: bool,
}

impl KeyboardState {
    /// Whether modifier `m` is held.
    pub open spec fn active(self, m: Modifier) -> bool {
        match m {
            Modifier::Shift => self.shift,
            Modifier::Ctrl => self.ctrl,
            Modifier::Alt => self.alt,
            Modifier::Gui => self.gui,
        }
    }

    /// A state in which no modifier is held.
    pub fn new() -> (s: KeyboardState)
        ensures
            forall|m: Modifier| !s.active(m),
    {
        KeyboardState { shift: false, ctrl: false, alt: false, gui: false }
    }

    /// Whether modifier `m` is held.
    pub fn modifier(&self, m: Modifier) -> (b: bool)
        ensures
            b == self.active(m),
    {
        match m {
            Modifier::Shift => self.shift,
            Modifier::Ctrl => self.ctrl,
            Modifier::Alt => self.alt,
            Modifier::Gui => self.gui,
        }
    }

    /// Records whether modifier `m` is held; the other modifiers keep their value.
    pub fn set_modifier(&mut self, m: Modifier, value: bool)
        ensures
            final(self).active(m) == value,
            forall|n: Modifier| n != m ==> final(self).active(n) == old(self).active(n),
    {
        match m {
            Modifier::Shift => self.shift = value,
            Modifier::Ctrl => self.ctrl = value,
            Modifier::Alt => self.alt = value,
            Modifier::Gui => self.gui = value,
        }
    }
}

} // verus!
