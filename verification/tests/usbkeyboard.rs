use keytokey::key_codes::{
    is_usb_keycode, A, KB1, LALT, LCTRL, LGUI, LSHIFT, RALT, RCTRL, RGUI, RSHIFT,
    UNICODE_BELOW_256, X,
};
use keytokey::key_stream::{Event, EventStatus, Key};
use keytokey::keyboard_state::{modifier_for_keycode, KeyboardState, Modifier};
use keytokey::usbkeyboard::USBKeyboard;

use Modifier::{Alt, Ctrl, Gui, Shift};

/// A keyboard with the USB layer as its only handler: it keeps the event
/// stream and the state between passes and records one report per pass.
struct TestKeyboard {
    handler: USBKeyboard,
    events: Vec<(Event, EventStatus)>,
    state: KeyboardState,
    reports: Vec<Vec<u32>>,
}

impl TestKeyboard {
    fn new() -> TestKeyboard {
        TestKeyboard {
            handler: USBKeyboard::new(),
            events: Vec::new(),
            state: KeyboardState::new(),
            reports: Vec::new(),
        }
    }

    fn add_keypress(&mut self, keycode: u32, ms_since_last: u16) {
        self.events
            .push((Event::KeyPress(Key::new(keycode, ms_since_last)), EventStatus::Unhandled));
    }

    fn add_keyrelease(&mut self, keycode: u32, ms_since_last: u16) {
        self.events
            .push((Event::KeyRelease(Key::new(keycode, ms_since_last)), EventStatus::Unhandled));
    }

    /// One pass: every event is offered again, handled ones are dropped, and
    /// an event that no handler took is an error.
    fn handle_keys(&mut self) -> Result<(), String> {
        for entry in self.events.iter_mut() {
            entry.1 = EventStatus::Unhandled;
        }
        let report = self.handler.process_keys(&mut self.events, &mut self.state);
        self.reports.push(report);
        let unhandled = self.events.iter().any(|(_e, s)| *s == EventStatus::Unhandled);
        self.events.retain(|(_e, s)| *s != EventStatus::Handled);
        if unhandled {
            Err("unhandled event".to_string())
        } else {
            Ok(())
        }
    }

    fn clear_output(&mut self) {
        self.reports.clear();
    }
}

/// Each report holds the expected keys, in any order.
fn check_output(keyboard: &TestKeyboard, should: &[&[u32]]) {
    assert_eq!(keyboard.reports.len(), should.len(), "{:?}", keyboard.reports);
    for (report, expected) in keyboard.reports.iter().zip(should.iter()) {
        let mut got = report.clone();
        got.sort();
        let mut want = expected.to_vec();
        want.sort();
        assert_eq!(got, want, "{:?}", keyboard.reports);
    }
}

fn new_keyboard() -> TestKeyboard {
    TestKeyboard::new()
}

#[test]
fn test_usbkeyboard_single_key() {
    let mut keyboard = new_keyboard();
    keyboard.add_keypress(A, 0);
    keyboard.handle_keys().unwrap();
    check_output(&keyboard, &[&[A]]);
    assert!(!keyboard.events.is_empty());
    keyboard.add_keyrelease(A, 20);
    assert!(keyboard.events.len() == 2);
    keyboard.clear_output();
    keyboard.handle_keys().unwrap();
    check_output(&keyboard, &[&[]]);
    assert!(keyboard.events.is_empty());
}

#[test]
fn test_usbkeyboard_multiple_key() {
    let mut keyboard = new_keyboard();
    keyboard.add_keypress(A, 0);
    keyboard.handle_keys().unwrap();
    check_output(&keyboard, &[&[A]]);
    assert!(!keyboard.events.is_empty());
    keyboard.clear_output();
    keyboard.add_keypress(X, 0);
    keyboard.handle_keys().unwrap();
    check_output(&keyboard, &[&[A, X]]);
    assert!(!keyboard.events.is_empty());
    keyboard.clear_output();
    keyboard.add_keyrelease(A, 20);
    assert!(keyboard.events.len() == 3);
    keyboard.handle_keys().unwrap();
    check_output(&keyboard, &[&[X]]);
    assert!(!keyboard.events.is_empty());
    keyboard.clear_output();
    keyboard.add_keyrelease(X, 20);
    assert!(keyboard.events.len() == 2);
    keyboard.handle_keys().unwrap();
    check_output(&keyboard, &[&[]]);
    assert!(keyboard.events.is_empty());
}

#[test]
fn test_panic_on_unhandled() {
    let mut keyboard = new_keyboard();
    keyboard.add_keypress(0xF0000u32, 0);
    assert!(keyboard.handle_keys().is_err());
}

#[test]
fn test_modifiers_add_left_keycodes() {
    let mut keyboard = new_keyboard();
    keyboard.add_keypress(KB1, 0);
    keyboard.handle_keys().unwrap();
    check_output(&keyboard, &[&[KB1]]);
    keyboard.clear_output();
    keyboard.add_keyrelease(KB1, 0);
    keyboard.handle_keys().unwrap();
    check_output(&keyboard, &[&[]]);
    keyboard.clear_output();
    keyboard.state.set_modifier(Shift, true);
    keyboard.add_keypress(KB1, 0);
    keyboard.handle_keys().unwrap();
    check_output(&keyboard, &[&[KB1, LSHIFT]]);
    keyboard.clear_output();
    keyboard.add_keyrelease(KB1, 0);
    keyboard.handle_keys().unwrap();
    check_output(&keyboard, &[&[LSHIFT]]);
    keyboard.clear_output();
    keyboard.state.set_modifier(Shift, false);
    keyboard.state.set_modifier(Ctrl, true);
    keyboard.add_keypress(KB1, 0);
    keyboard.handle_keys().unwrap();
    check_output(&keyboard, &[&[KB1, LCTRL]]);
    keyboard.clear_output();
    keyboard.add_keyrelease(KB1, 0);
    keyboard.handle_keys().unwrap();
    check_output(&keyboard, &[&[LCTRL]]);
    keyboard.clear_output();
    keyboard.state.set_modifier(Ctrl, false);
    keyboard.state.set_modifier(Alt, true);
    keyboard.add_keypress(KB1, 0);
    keyboard.handle_keys().unwrap();
    check_output(&keyboard, &[&[KB1, LALT]]);
    keyboard.clear_output();
    keyboard.add_keyrelease(KB1, 0);
    keyboard.handle_keys().unwrap();
    check_output(&keyboard, &[&[LALT]]);
    keyboard.clear_output();
    keyboard.state.set_modifier(Alt, false);
    keyboard.state.set_modifier(Gui, true);
    keyboard.add_keypress(KB1, 0);
    keyboard.handle_keys().unwrap();
    check_output(&keyboard, &[&[KB1, LGUI]]);
    keyboard.clear_output();
    keyboard.add_keyrelease(KB1, 0);
    keyboard.handle_keys().unwrap();
    check_output(&keyboard, &[&[LGUI]]);
}

fn check_modifiers(keyboard: &TestKeyboard, shift: bool, ctrl: bool, alt: bool, gui: bool) {
    assert_eq!(keyboard.state.modifier(Shift), shift);
    assert_eq!(keyboard.state.modifier(Ctrl), ctrl);
    assert_eq!(keyboard.state.modifier(Alt), alt);
    assert_eq!(keyboard.state.modifier(Gui), gui);
}

#[test]
fn test_modifiers_set_by_keycodes() {
    let mut keyboard = new_keyboard();
    keyboard.add_keypress(LSHIFT, 0);
    keyboard.handle_keys().unwrap();
    check_output(&keyboard, &[&[LSHIFT]]);
    check_modifiers(&keyboard, true, false, false, false);
    keyboard.clear_output();
    keyboard.add_keypress(LALT, 0);
    keyboard.handle_keys().unwrap();
    check_output(&keyboard, &[&[LSHIFT, LALT]]);
    check_modifiers(&keyboard, true, false, true, false);
    keyboard.clear_output();
    keyboard.add_keypress(LCTRL, 0);
    keyboard.handle_keys().unwrap();
    check_output(&keyboard, &[&[LSHIFT, LALT, LCTRL]]);
    check_modifiers(&keyboard, true, true, true, false);
    keyboard.clear_output();
    keyboard.add_keypress(LGUI, 0);
    keyboard.handle_keys().unwrap();
    check_output(&keyboard, &[&[LSHIFT, LALT, LCTRL, LGUI]]);
    check_modifiers(&keyboard, true, true, true, true);
    keyboard.clear_output();
    keyboard.add_keyrelease(LGUI, 0);
    keyboard.handle_keys().unwrap();
    check_output(&keyboard, &[&[LSHIFT, LALT, LCTRL]]);
    check_modifiers(&keyboard, true, true, true, false);
    keyboard.clear_output();
    keyboard.add_keyrelease(LCTRL, 0);
    keyboard.handle_keys().unwrap();
    check_output(&keyboard, &[&[LSHIFT, LALT]]);
    check_modifiers(&keyboard, true, false, true, false);
    keyboard.clear_output();
    keyboard.add_keyrelease(LALT, 0);
    keyboard.handle_keys().unwrap();
    check_output(&keyboard, &[&[LSHIFT]]);
    check_modifiers(&keyboard, true, false, false, false);
    keyboard.clear_output();
    keyboard.add_keyrelease(LSHIFT, 0);
    keyboard.handle_keys().unwrap();
    check_output(&keyboard, &[&[]]);
    check_modifiers(&keyboard, false, false, false, false);
    keyboard.clear_output();
    keyboard.add_keypress(RSHIFT, 0);
    keyboard.handle_keys().unwrap();
    check_output(&keyboard, &[&[RSHIFT]]);
    check_modifiers(&keyboard, true, false, false, false);
    keyboard.clear_output();
    keyboard.add_keypress(RALT, 0);
    keyboard.handle_keys().unwrap();
    check_output(&keyboard, &[&[RSHIFT, RALT]]);
    check_modifiers(&keyboard, true, false, true, false);
    keyboard.clear_output();
    keyboard.add_keypress(RCTRL, 0);
    keyboard.handle_keys().unwrap();
    check_output(&keyboard, &[&[RSHIFT, RALT, RCTRL]]);
    check_modifiers(&keyboard, true, true, true, false);
    keyboard.clear_output();
    keyboard.add_keypress(RGUI, 0);
    keyboard.handle_keys().unwrap();
    check_output(&keyboard, &[&[RSHIFT, RALT, RCTRL, RGUI]]);
    check_modifiers(&keyboard, true, true, true, true);
    keyboard.clear_output();
    keyboard.add_keyrelease(RGUI, 0);
    keyboard.handle_keys().unwrap();
    check_output(&keyboard, &[&[RSHIFT, RALT, RCTRL]]);
    check_modifiers(&keyboard, true, true, true, false);
    keyboard.clear_output();
    keyboard.add_keyrelease(RCTRL, 0);
    keyboard.handle_keys().unwrap();
    check_output(&keyboard, &[&[RSHIFT, RALT]]);
    check_modifiers(&keyboard, true, false, true, false);
    keyboard.clear_output();
    keyboard.add_keyrelease(RALT, 0);
    keyboard.handle_keys().unwrap();
    check_output(&keyboard, &[&[RSHIFT]]);
    check_modifiers(&keyboard, true, false, false, false);
    keyboard.clear_output();
    keyboard.add_keyrelease(RSHIFT, 0);
    keyboard.handle_keys().unwrap();
    check_output(&keyboard, &[&[]]);
    check_modifiers(&keyboard, false, false, false, false);
    keyboard.clear_output();
    keyboard.add_keypress(LSHIFT, 0);
    keyboard.add_keypress(RSHIFT, 0);
    keyboard.handle_keys().unwrap();
    check_output(&keyboard, &[&[LSHIFT, RSHIFT]]);
    check_modifiers(&keyboard, true, false, false, false);
    keyboard.clear_output();
}

#[test]
fn test_unshift() {
    let mut keyboard = new_keyboard();
    keyboard.add_keypress(LSHIFT, 0);
    keyboard.handle_keys().unwrap();
    check_output(&keyboard, &[&[LSHIFT]]);
    keyboard.add_keypress(A, 0);
    keyboard.handle_keys().unwrap();
    check_output(&keyboard, &[&[LSHIFT], &[LSHIFT, A]]);
    keyboard.add_keyrelease(A, 0);
    keyboard.handle_keys().unwrap();
    check_output(&keyboard, &[&[LSHIFT], &[LSHIFT, A], &[LSHIFT]]);
    keyboard.add_keyrelease(LSHIFT, 0);
    keyboard.handle_keys().unwrap();
    assert!(keyboard.state.modifier(Shift) == false);
    check_output(&keyboard, &[&[LSHIFT], &[LSHIFT, A], &[LSHIFT], &[]]);
    keyboard.clear_output();
    keyboard.add_keypress(A, 0);
    keyboard.handle_keys().unwrap();
    check_output(&keyboard, &[&[A]]);
}

#[test]
fn test_unshift2() {
    let mut keyboard = new_keyboard();
    keyboard.add_keypress(LSHIFT, 0);
    keyboard.handle_keys().unwrap();
    check_output(&keyboard, &[&[LSHIFT]]);
    keyboard.add_keyrelease(LSHIFT, 0);
    keyboard.handle_keys().unwrap();
    check_output(&keyboard, &[&[LSHIFT], &[]]);
    keyboard.add_keypress(A, 0);
    keyboard.handle_keys().unwrap();
    check_output(&keyboard, &[&[LSHIFT], &[], &[A]]);
}

fn press(keycode: u32) -> (Event, EventStatus) {
    (Event::KeyPress(Key::new(keycode, 0)), EventStatus::Unhandled)
}

fn release(keycode: u32) -> (Event, EventStatus) {
    (Event::KeyRelease(Key::new(keycode, 0)), EventStatus::Unhandled)
}

fn sent(key: Key) -> Key {
    Key { flag: key.flag | 1, ..key }
}

#[test]
fn test_is_usb_keycode_bounds() {
    assert!(!is_usb_keycode(UNICODE_BELOW_256 - 1));
    assert!(is_usb_keycode(UNICODE_BELOW_256));
    assert!(is_usb_keycode(A));
    assert!(is_usb_keycode(RGUI));
    assert!(!is_usb_keycode(RGUI + 1));
    assert!(!is_usb_keycode(0x41));
}

#[test]
fn test_modifier_for_keycode_and_index() {
    assert_eq!(modifier_for_keycode(LSHIFT), Some(Shift));
    assert_eq!(modifier_for_keycode(RSHIFT), Some(Shift));
    assert_eq!(modifier_for_keycode(LCTRL), Some(Ctrl));
    assert_eq!(modifier_for_keycode(RCTRL), Some(Ctrl));
    assert_eq!(modifier_for_keycode(LALT), Some(Alt));
    assert_eq!(modifier_for_keycode(RALT), Some(Alt));
    assert_eq!(modifier_for_keycode(LGUI), Some(Gui));
    assert_eq!(modifier_for_keycode(RGUI), Some(Gui));
    assert_eq!(modifier_for_keycode(A), None);
    assert_eq!(Shift.index(), 0);
    assert_eq!(Ctrl.index(), 1);
    assert_eq!(Alt.index(), 2);
    assert_eq!(Gui.index(), 3);
}

#[test]
fn test_keyboard_state_set_and_get() {
    let mut state = KeyboardState::new();
    assert!(!state.modifier(Shift) && !state.modifier(Ctrl));
    assert!(!state.modifier(Alt) && !state.modifier(Gui));
    state.set_modifier(Alt, true);
    assert!(state.modifier(Alt));
    assert!(!state.modifier(Shift) && !state.modifier(Ctrl) && !state.modifier(Gui));
    state.set_modifier(Alt, false);
    assert_eq!(state, KeyboardState::new());
}

#[test]
fn test_key_new() {
    let k = Key::new(A, 7);
    assert_eq!(k, Key { original_keycode: A, keycode: A, ms_since_last: 7, flag: 0 });
}

#[test]
fn test_held_key_is_kept_ignored_and_marked_sent() {
    let mut kb = USBKeyboard::new();
    let mut state = KeyboardState::new();
    let mut events = vec![press(A)];
    let report = kb.process_keys(&mut events, &mut state);
    assert_eq!(report, vec![A]);
    assert_eq!(events, vec![(Event::KeyPress(sent(Key::new(A, 0))), EventStatus::Ignored)]);
    // the flag keeps its other bits
    let mut events = vec![(Event::KeyPress(Key { flag: 6, ..Key::new(A, 0) }), EventStatus::Unhandled)];
    kb.process_keys(&mut events, &mut state);
    assert_eq!(events[0].0, Event::KeyPress(Key { flag: 7, ..Key::new(A, 0) }));
}

#[test]
fn test_quick_tap_is_reported_once() {
    let mut kb = USBKeyboard::new();
    let mut state = KeyboardState::new();
    let mut events = vec![press(A), release(A)];
    let report = kb.process_keys(&mut events, &mut state);
    assert_eq!(report, vec![A]);
    assert_eq!(events[0], (Event::KeyPress(sent(Key::new(A, 0))), EventStatus::Handled));
    assert_eq!(events[1], (release(A).0, EventStatus::Handled));
}

#[test]
fn test_sent_key_released_is_not_resent() {
    let mut kb = USBKeyboard::new();
    let mut state = KeyboardState::new();
    let mut events = vec![
        (Event::KeyPress(sent(Key::new(A, 0))), EventStatus::Unhandled),
        release(A),
    ];
    let report = kb.process_keys(&mut events, &mut state);
    assert!(report.is_empty());
    assert_eq!(events[0].1, EventStatus::Handled);
    assert_eq!(events[1].1, EventStatus::Handled);
}

#[test]
fn test_release_ends_only_earlier_presses() {
    let mut kb = USBKeyboard::new();
    let mut state = KeyboardState::new();
    let mut events = vec![press(A), release(A), press(A)];
    let report = kb.process_keys(&mut events, &mut state);
    assert_eq!(report, vec![A, A]);
    assert_eq!(events[0].1, EventStatus::Handled);
    assert_eq!(events[1].1, EventStatus::Handled);
    assert_eq!(events[2].1, EventStatus::Ignored);
}

#[test]
fn test_settled_entries_and_timeouts_untouched() {
    let mut kb = USBKeyboard::new();
    let mut state = KeyboardState::new();
    let before = vec![
        (Event::KeyPress(Key::new(A, 0)), EventStatus::Handled),
        (Event::KeyPress(Key::new(LSHIFT, 0)), EventStatus::Ignored),
        (Event::TimeOut(5), EventStatus::Unhandled),
        (Event::KeyRelease(Key::new(A, 0)), EventStatus::Ignored),
    ];
    let mut events = before.clone();
    let report = kb.process_keys(&mut events, &mut state);
    assert!(report.is_empty());
    assert_eq!(events, before);
    assert_eq!(state, KeyboardState::new());
}

#[test]
fn test_non_usb_keys_left_for_other_handlers() {
    let mut kb = USBKeyboard::new();
    let mut state = KeyboardState::new();
    let mut events = vec![press(0x41), release(0x42)];
    let report = kb.process_keys(&mut events, &mut state);
    assert!(report.is_empty());
    assert_eq!(events, vec![press(0x41), release(0x42)]);
    // a press of another key that a USB release ends is handled
    let mut events = vec![
        press(0x41),
        (Event::KeyRelease(Key { original_keycode: 0x41, keycode: A, ms_since_last: 0, flag: 0 }), EventStatus::Unhandled),
    ];
    let report = kb.process_keys(&mut events, &mut state);
    assert!(report.is_empty());
    assert_eq!(events[0], (press(0x41).0, EventStatus::Handled));
    assert_eq!(events[1].1, EventStatus::Handled);
}

#[test]
fn test_pressed_modifier_not_doubled_by_left_key() {
    let mut kb = USBKeyboard::new();
    let mut state = KeyboardState::new();
    let mut events = vec![press(RCTRL)];
    let report = kb.process_keys(&mut events, &mut state);
    assert_eq!(report, vec![RCTRL]);
    assert!(state.modifier(Ctrl));
}

#[test]
fn test_left_keys_in_modifier_order() {
    let mut kb = USBKeyboard::new();
    let mut state = KeyboardState { shift: true, ctrl: true, alt: true, gui: true };
    let mut events = vec![press(X)];
    let report = kb.process_keys(&mut events, &mut state);
    assert_eq!(report, vec![X, LSHIFT, LCTRL, LALT, LGUI]);
}

#[test]
fn test_released_modifier_is_off_and_untouched_kept() {
    let mut kb = USBKeyboard::new();
    let mut state = KeyboardState { shift: true, ctrl: false, alt: true, gui: false };
    let mut events = vec![release(RSHIFT)];
    let report = kb.process_keys(&mut events, &mut state);
    assert_eq!(state, KeyboardState { shift: false, ctrl: false, alt: true, gui: false });
    assert_eq!(report, vec![LALT]);
}

#[test]
fn test_report_order_last_event_first() {
    let mut kb = USBKeyboard::new();
    let mut state = KeyboardState::new();
    let mut events = vec![press(A), press(X), press(KB1)];
    let report = kb.process_keys(&mut events, &mut state);
    assert_eq!(report, vec![KB1, X, A]);
}

#[test]
fn test_second_pass_repeats_first() {
    let mut kb = USBKeyboard::new();
    let mut state = KeyboardState { shift: false, ctrl: true, alt: false, gui: false };
    let mut events = vec![press(A), press(RALT), (Event::TimeOut(3), EventStatus::Unhandled), press(0x41)];
    let first = kb.process_keys(&mut events, &mut state);
    let after_first = events.clone();
    let state_first = state;
    for entry in events.iter_mut() {
        if entry.1 == EventStatus::Ignored {
            entry.1 = EventStatus::Unhandled;
        }
    }
    let second = kb.process_keys(&mut events, &mut state);
    assert_eq!(first, vec![RALT, A, LCTRL]);
    assert_eq!(second, first);
    assert_eq!(events, after_first);
    assert_eq!(state, state_first);
}

#[test]
fn test_second_pass_repeats_with_handled_entries() {
    let mut kb = USBKeyboard::new();
    let mut state = KeyboardState::new();
    let mut events = vec![
        (Event::KeyRelease(Key::new(X, 0)), EventStatus::Handled),
        press(LGUI),
        (Event::KeyPress(Key::new(A, 0)), EventStatus::Handled),
        press(KB1),
    ];
    let first = kb.process_keys(&mut events, &mut state);
    let after_first = events.clone();
    let state_first = state;
    for entry in events.iter_mut() {
        if entry.1 == EventStatus::Ignored {
            entry.1 = EventStatus::Unhandled;
        }
    }
    let second = kb.process_keys(&mut events, &mut state);
    assert_eq!(first, vec![KB1, LGUI]);
    assert_eq!(second, first);
    assert_eq!(events, after_first);
    assert_eq!(state, state_first);
    assert!(state.modifier(Gui));
}
