//! The bottom layer of a keyboard: it behaves like a plain USB keyboard.
//! Keys mapped to USB key codes are reported as held until they are
//! released, and the modifier keys update the keyboard state.

use crate::bit_vec::{bits_from_elem, bits_index, bits_of, bits_set};
use crate::key_codes::{is_usb_keycode, usb_keycode, LALT, LCTRL, LGUI, LSHIFT};
use crate::key_stream::{Event, EventStatus, Key};
use crate::keyboard_state::{
    left_keycode, modifier_for_keycode, modifier_index, modifier_of, KeyboardState, Modifier,
};
use vstd::prelude::*;

verus! {

/// `entry` is a release, not yet handled, of a USB key that was pressed as `code`.
pub open spec fn releases_code(entry: (Event, EventStatus), code: u32) -> bool {
    &&& entry.1 == EventStatus::Unhandled
    &&& match entry.0 {
        Event::KeyRelease(k) => usb_keycode(k.keycode) && k.original_keycode == code,
        _ => false,
    }
}

/// Some entry at index `from` or later releases the key pressed as `code`.
pub open spec fn released_from(events: Seq<(Event, EventStatus)>, from: int, code: u32) -> bool {
    exists|i: int| from <= i < events.len() && #[trigger] releases_code(events[i], code)
}

/// A flag byte with its lowest bit, the mark of a key that has been sent, set.
pub open spec fn sent_flag(flag: u8) -> u8 {
    if flag % 2 == 0 {
        (flag + 1) as u8
    } else {
        flag
    }
}

/// What the entry at index `j` becomes. Entries that some handler already
/// dealt with stay as they are. A release of a USB key is handled. A press
/// of a USB key gets the lowest bit of its flag set, and is handled if a
/// later entry releases it, else kept (ignored) so that it is reported again
/// next time. A press of another key that a later entry releases is handled.
pub open spec fn processed(events: Seq<(Event, EventStatus)>, j: int) -> (Event, EventStatus) {
    if events[j].1 != EventStatus::Unhandled {
        events[j]
    } else {
        match events[j].0 {
            Event::KeyRelease(k) => (
                events[j].0,
                if usb_keycode(k.keycode) {
                    EventStatus::Handled
                } else {
                    EventStatus::Unhandled
                },
            ),
            Event::KeyPress(k) => {
                let released = released_from(events, j + 1, k.original_keycode);
                if usb_keycode(k.keycode) {
                    (
                        Event::KeyPress(
                            Key {
                                original_keycode: k.original_keycode,
                                keycode: k.keycode,
                                ms_since_last: k.ms_since_last,
                                flag: sent_flag(k.flag),
                            },
                        ),
                        if released {
                            EventStatus::Handled
                        } else {
                            EventStatus::Ignored
                        },
                    )
                } else {
                    (
                        events[j].0,
                        if released {
                            EventStatus::Handled
                        } else {
                            EventStatus::Unhandled
                        },
                    )
                }
            },
            Event::TimeOut(_) => events[j],
        }
    }
}

/// The entry at index `j` is a press, not yet handled, of a USB key that is
/// to be reported: no later entry releases it, or it was never sent.
pub open spec fn sends_key(events: Seq<(Event, EventStatus)>, j: int) -> bool {
    &&& events[j].1 == EventStatus::Unhandled
    &&& match events[j].0 {
        Event::KeyPress(k) => usb_keycode(k.keycode) && (!released_from(
            events,
            j + 1,
            k.original_keycode,
        ) || k.flag % 2 == 0),
        _ => false,
    }
}

/// The key code of a press or release.
pub open spec fn event_keycode(e: Event) -> u32 {
    match e {
        Event::KeyPress(k) => k.keycode,
        Event::KeyRelease(k) => k.keycode,
        Event::TimeOut(_) => 0,
    }
}

/// The key codes reported for the entries at index `i` and later, the last
/// entry first.
pub open spec fn reported_from(events: Seq<(Event, EventStatus)>, i: int) -> Seq<u32>
    decreases events.len() - i,
{
    if i >= events.len() {
        Seq::empty()
    } else {
        reported_from(events, i + 1) + if sends_key(events, i) {
            seq![event_keycode(events[i].0)]
        } else {
            Seq::empty()
        }
    }
}

/// The entry at index `j` is a press, not yet handled, of a key of modifier
/// `m` that no later entry releases.
pub open spec fn holds_modifier(events: Seq<(Event, EventStatus)>, j: int, m: Modifier) -> bool {
    &&& events[j].1 == EventStatus::Unhandled
    &&& match events[j].0 {
        Event::KeyPress(k) => !released_from(events, j + 1, k.original_keycode) && modifier_of(
            k.keycode,
        ) == Some(m),
        _ => false,
    }
}

/// The entry at index `j` is a release, not yet handled, of a key of modifier `m`.
pub open spec fn lets_go_modifier(events: Seq<(Event, EventStatus)>, j: int, m: Modifier) -> bool {
    &&& events[j].1 == EventStatus::Unhandled
    &&& match events[j].0 {
        Event::KeyRelease(k) => modifier_of(k.keycode) == Some(m),
        _ => false,
    }
}

/// Whether modifier `m` is held once the entries at index `i` and later have
/// been processed, the last entry first, starting from `init`: the entry with
/// the lowest index that holds or lets go of `m` decides.
pub open spec fn modifier_from(
    events: Seq<(Event, EventStatus)>,
    i: int,
    m: Modifier,
    init: bool,
) -> bool
    decreases events.len() - i,
{
    if i >= events.len() {
        init
    } else if holds_modifier(events, i, m) {
        true
    } else if lets_go_modifier(events, i, m) {
        false
    } else {
        modifier_from(events, i + 1, m, init)
    }
}

/// Some entry at index `from` or later holds modifier `m`; its key is then
/// in the report.
pub open spec fn sent_from(events: Seq<(Event, EventStatus)>, from: int, m: Modifier) -> bool {
    exists|j: int| from <= j < events.len() && #[trigger] holds_modifier(events, j, m)
}

/// The left key of modifier `m`, where `m` ends up held without any of its
/// keys being reported by a press.
pub open spec fn left_key_if_unsent(
    events: Seq<(Event, EventStatus)>,
    init: KeyboardState,
    m: Modifier,
) -> Seq<u32> {
    if modifier_from(events, 0, m, init.active(m)) && !sent_from(events, 0, m) {
        seq![left_keycode(m)]
    } else {
        Seq::empty()
    }
}

/// The whole report: the keys of the entries, the last entry first, then
/// the left keys of the modifiers that are held but were not reported, in
/// the order shift, control, alt, gui.
pub open spec fn key_report(events: Seq<(Event, EventStatus)>, init: KeyboardState) -> Seq<u32> {
    reported_from(events, 0) + left_key_if_unsent(events, init, Modifier::Shift)
        + left_key_if_unsent(events, init, Modifier::Ctrl) + left_key_if_unsent(
        events,
        init,
        Modifier::Alt,
    ) + left_key_if_unsent(events, init, Modifier::Gui)
}

/// The whole stream after one pass.
pub open spec fn pass_events(events: Seq<(Event, EventStatus)>) -> Seq<(Event, EventStatus)> {
    Seq::new(events.len(), |j: int| processed(events, j))
}

/// The keyboard state after one pass that started from `init`.
pub open spec fn pass_state(events: Seq<(Event, EventStatus)>, init: KeyboardState) -> KeyboardState {
    KeyboardState {
        shift: modifier_from(events, 0, Modifier::Shift, init.shift),
        ctrl: modifier_from(events, 0, Modifier::Ctrl, init.ctrl),
        alt: modifier_from(events, 0, Modifier::Alt, init.alt),
        gui: modifier_from(events, 0, Modifier::Gui, init.gui),
    }
}

/// One step down the entries: index `i` releases `code`, or a later one does.
proof fn lemma_released_from_step(events: Seq<(Event, EventStatus)>, i: int)
    requires
        0 <= i < events.len(),
    ensures
        forall|c: u32|
            released_from(events, i, c) == (releases_code(events[i], c) || released_from(
                events,
                i + 1,
                c,
            )),
{
    assert forall|c: u32|
        released_from(events, i, c) == (releases_code(events[i], c) || released_from(
            events,
            i + 1,
            c,
        )) by {
        if released_from(events, i, c) {
            let w = choose|w: int| i <= w < events.len() && #[trigger] releases_code(events[w], c);
            if w != i {
                assert(i + 1 <= w < events.len() && releases_code(events[w], c));
            }
        }
    }
}

/// One step down the entries: index `i` holds `m`, or a later one does.
pub(crate) proof fn lemma_sent_from_step(events: Seq<(Event, EventStatus)>, i: int)
    requires
        0 <= i < events.len(),
    ensures
        forall|m: Modifier|
            sent_from(events, i, m) == (holds_modifier(events, i, m) || sent_from(
                events,
                i + 1,
                m,
            )),
{
    assert forall|m: Modifier|
        sent_from(events, i, m) == (holds_modifier(events, i, m) || sent_from(
            events,
            i + 1,
            m,
        )) by {
        if sent_from(events, i, m) {
            let w = choose|w: int| i <= w < events.len() && #[trigger] holds_modifier(events, w, m);
            if w != i {
                assert(i + 1 <= w < events.len() && holds_modifier(events, w, m));
            }
        }
    }
}

/// Whether `codes` holds `code`.
fn contains_code(codes: &Vec<u32>, code: u32) -> (b: bool)
    ensures
        b == codes@.contains(code),
{
    let mut i: usize = 0;
    while i < codes.len()
        invariant
            i <= codes.len(),
            forall|j: int| 0 <= j < i ==> codes@[j] != code,
        decreases codes.len() - i,
    {
        if codes[i] == code {
            assert(codes@[i as int] == code);
            return true;
        }
        i = i + 1;
    }
    false
}

/// A keyboard layer that simulates a regular USB keyboard: map your keys to
/// the USB key codes and it reports them as held until they are released.
pub struct USBKeyboard {}

impl USBKeyboard {
    /// The layer; it keeps no state of its own between passes.
    pub fn new() -> (k: USBKeyboard)
        ensures
            k == (USBKeyboard {  }),
    {
        USBKeyboard {  }
    }

    /// Processes the events that no handler has dealt with yet, from the last
    /// to the first, so that a release is seen before the presses it ends.
    /// Every key code in the USB range (see `usb_keycode`) is reported as it
    /// is: none of them is refused, so an unreleased press of one is always
    /// kept as ignored.
    /// Returns the key codes to report to the host, in the order in which
    /// they are registered; the keyboard state records the modifiers held.
    pub fn process_keys(
        &mut self,
        events: &mut Vec<(Event, EventStatus)>,
        state: &mut KeyboardState,
    ) -> (report: Vec<u32>)
        ensures
            final(events)@.len() == old(events)@.len(),
            forall|j: int|
                0 <= j < old(events)@.len() ==> final(events)@[j] == processed(old(events)@, j),
            forall|m: Modifier|
                final(state).active(m) == modifier_from(old(events)@, 0, m, old(state).active(m)),
            report@ == key_report(old(events)@, *old(state)),
            final(events)@ == pass_events(old(events)@),
            *final(state) == pass_state(old(events)@, *old(state)),
    {
        let ghost evs = events@;
        let ghost init = *state;
        // The `original_keycode`s of the keys released further on.
        let mut codes_to_delete: Vec<u32> = Vec::new();
        // Which modifiers a press has reported, by `Modifier::index`.
        let mut modifiers_sent = bits_from_elem(4, false);
        let mut report: Vec<u32> = Vec::new();
        let mut i: usize = events.len();
        while i > 0
            invariant
                i <= evs.len(),
                events@.len() == evs.len(),
                forall|j: int| i <= j < evs.len() ==> events@[j] == processed(evs, j),
                forall|j: int| 0 <= j < i ==> events@[j] == evs[j],
                forall|c: u32| codes_to_delete@.contains(c) <==> released_from(evs, i as int, c),
                bits_of(modifiers_sent).len() == 4,
                forall|m: Modifier|
                    bits_of(modifiers_sent)[modifier_index(m)] == sent_from(evs, i as int, m),
                forall|m: Modifier| state.active(m) == modifier_from(evs, i as int, m, init.active(m)),
                report@ == reported_from(evs, i as int),
            decreases i,
        {
            i = i - 1;
            proof {
                lemma_released_from_step(evs, i as int);
                lemma_sent_from_step(evs, i as int);
            }
            let (e, status) = events[i];
            if status == EventStatus::Unhandled {
                match e {
                    Event::KeyRelease(kc) => {
                        let mut new_status = status;
                        if is_usb_keycode(kc.keycode) {
                            if !contains_code(&codes_to_delete, kc.original_keycode) {
                                let ghost before = codes_to_delete@;
                                codes_to_delete.push(kc.original_keycode);
                                assert forall|c: u32|
                                    codes_to_delete@.contains(c) <==> (before.contains(c) || c
                                        == kc.original_keycode) by {
                                    if c == kc.original_keycode {
                                        assert(codes_to_delete@[before.len() as int] == c);
                                    }
                                    if before.contains(c) {
                                        let w = choose|w: int| 0 <= w < before.len() && before[w] == c;
                                        assert(codes_to_delete@[w] == c);
                                    }
                                }
                            }
                            new_status = EventStatus::Handled;
                        }
                        match modifier_for_keycode(kc.keycode) {
                            Some(m) => state.set_modifier(m, false),
                            None => {},
                        }
                        events.set(i, (e, new_status));
                    },
                    Event::KeyPress(kc) => {
                        let mut new_status = status;
                        let mut send = false;
                        if contains_code(&codes_to_delete, kc.original_keycode) {
                            new_status = EventStatus::Handled;
                            let f = kc.flag;
                            assert(f & 0x1 == 0 <==> f % 2 == 0) by (bit_vector);
                            if kc.flag & 0x1 == 0 {
                                // never sent before
                                send = true;
                            }
                        } else {
                            send = true;
                            match modifier_for_keycode(kc.keycode) {
                                Some(m) => {
                                    state.set_modifier(m, true);
                                    bits_set(&mut modifiers_sent, m.index(), true);
                                },
                                None => {},
                            }
                        }
                        let mut key = kc;
                        if is_usb_keycode(kc.keycode) {
                            if send {
                                report.push(kc.keycode);
                            }
                            if new_status != EventStatus::Handled {
                                // kept, so that it is sent again next time
                                new_status = EventStatus::Ignored;
                            }
                            let f = kc.flag;
                            assert(f | 1 == if f % 2 == 0 {
                                (f + 1) as u8
                            } else {
                                f
                            }) by (bit_vector);
                            key.flag = kc.flag | 1;
                        }
                        events.set(i, (Event::KeyPress(key), new_status));
                    },
                    Event::TimeOut(_) => {},
                }
            }
        }
        assert(events@ =~= pass_events(evs));
        assert(state.active(Modifier::Shift) == modifier_from(evs, 0, Modifier::Shift, init.shift));
        assert(state.active(Modifier::Ctrl) == modifier_from(evs, 0, Modifier::Ctrl, init.ctrl));
        assert(state.active(Modifier::Alt) == modifier_from(evs, 0, Modifier::Alt, init.alt));
        assert(state.active(Modifier::Gui) == modifier_from(evs, 0, Modifier::Gui, init.gui));
        if state.modifier(Modifier::Shift) && !bits_index(&modifiers_sent, 0) {
            report.push(LSHIFT);
        }
        if state.modifier(Modifier::Ctrl) && !bits_index(&modifiers_sent, 1) {
            report.push(LCTRL);
        }
        if state.modifier(Modifier::Alt) && !bits_index(&modifiers_sent, 2) {
            report.push(LALT);
        }
        if state.modifier(Modifier::Gui) && !bits_index(&modifiers_sent, 3) {
            report.push(LGUI);
        }
        report
    }
}

} // verus!
