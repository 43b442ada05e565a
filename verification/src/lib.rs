//! The USB keyboard layer of a keyboard firmware: it turns a stream of key
//! press and release events into USB HID key reports and keeps track of the
//! modifier keys (shift, control, alt, gui) that are held down.

pub mod bit_vec;
pub mod key_codes;
pub mod key_stream;
pub mod keyboard_state;
pub mod usbkeyboard;
pub mod usbkeyboard_laws;
