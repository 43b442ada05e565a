//! Key codes. Codes from `UNICODE_BELOW_256` on are the USB HID usage ids
//! shifted up by that offset; codes below it stand for unicode characters.

use vstd::prelude::*;

verus! {

/// The offset at which the USB HID key codes start.
pub const UNICODE_BELOW_256: u32 = 0x100000;

pub const A: u32 = UNICODE_BELOW_256 + 0x04;
pub const X: u32 = UNICODE_BELOW_256 + 0x1B;
pub const KB1: u32 = UNICODE_BELOW_256 + 0x1E;
pub const LCTRL: u32 = UNICODE_BELOW_256 + 0xE0;
pub const LSHIFT: u32 = UNICODE_BELOW_256 + 0xE1;
pub const LALT: u32 = UNICODE_BELOW_256 + 0xE2;
pub const LGUI: u32 = UNICODE_BELOW_256 + 0xE3;
pub const RCTRL: u32 = UNICODE_BELOW_256 + 0xE4;
pub const RSHIFT: u32 = UNICODE_BELOW_256 + 0xE5;
pub const RALT: u32 = UNICODE_BELOW_256 + 0xE6;
/// The last USB key code.
pub const RGUI: u32 = UNICODE_BELOW_256 + 0xE7;

/// A key code that a USB keyboard can send: from `UNICODE_BELOW_256` up to
/// and including right gui. Every code in this range is taken to name a USB
/// key and is reported as it is; no code in it is refused.
pub open spec fn usb_keycode(kc: u32) -> bool {
    UNICODE_BELOW_256 <= kc && kc <= UNICODE_BELOW_256 + 0xE7
}

/// Whether `kc` is a key code that a USB keyboard can send.
pub fn is_usb_keycode(kc: u32) -> (b: bool)
    ensures
        b == usb_keycode(kc),
        b == (0x100000 <= kc && kc <= 0x1000E7),
{
    return UNICODE_BELOW_256 <= kc && kc <= UNICODE_BELOW_256 + 0xE7;
}

} // verus!
