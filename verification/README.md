# keytokey (USB keyboard layer)

The bottom layer of a keyboard firmware, written in Verus: it turns pending
key presses and releases into USB key reports and tracks the modifier keys.

- `src/usbkeyboard.rs`: the specification of one pass and `USBKeyboard::process_keys`.
- `src/usbkeyboard_laws.rs`: properties of every pass, proved from that specification.
- `src/key_stream.rs`, `src/keyboard_state.rs`, `src/key_codes.rs`: events, modifiers, key codes.
- `src/bit_vec.rs`: the `smallbitvec` calls the pass makes, with their contracts.
- `app/lib.rs`: the output traits and the glue that sends a pass's report.

Every key code from `UNICODE_BELOW_256` up to right gui is a USB key code
here and is reported as it is; no code in that range is refused.
