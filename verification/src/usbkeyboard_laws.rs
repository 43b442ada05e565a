//! What every pass of the USB keyboard layer guarantees, stated over the
//! specification that `USBKeyboard::process_keys` meets.

use crate::key_codes::usb_keycode;
use crate::key_stream::{Event, EventStatus};
use crate::keyboard_state::{left_keycode, modifier_of, KeyboardState, Modifier};
use crate::usbkeyboard::{
    event_keycode, holds_modifier, key_report, left_key_if_unsent, lets_go_modifier,
    lemma_sent_from_step, modifier_from, pass_events, pass_state, processed, released_from,
    releases_code, reported_from, sends_key, sent_flag, sent_from,
};
use vstd::prelude::*;

verus! {

/// Entries that a handler has already dealt with (handled or ignored) are
/// left exactly as they are.
pub proof fn law_settled_entries_untouched(events: Seq<(Event, EventStatus)>, j: int)
    requires
        0 <= j < events.len(),
        events[j].1 != EventStatus::Unhandled,
    ensures
        processed(events, j) == events[j],
{
}

/// A pass never changes what an event is: a press stays a press of the same
/// key codes at the same time, a release stays the same release, a timeout
/// the same timeout. The only change to a press is that the lowest bit of
/// its flag gets set.
pub proof fn law_events_keep_their_keys(events: Seq<(Event, EventStatus)>, j: int)
    requires
        0 <= j < events.len(),
    ensures
        match (events[j].0, processed(events, j).0) {
            (Event::KeyPress(a), Event::KeyPress(b)) => {
                &&& b.original_keycode == a.original_keycode
                &&& b.keycode == a.keycode
                &&& b.ms_since_last == a.ms_since_last
                &&& (b.flag == a.flag || b.flag == sent_flag(a.flag))
            },
            (Event::KeyRelease(a), Event::KeyRelease(b)) => a == b,
            (Event::TimeOut(a), Event::TimeOut(b)) => a == b,
            _ => false,
        },
{
}

/// Every press and release of a USB key that was not yet handled is dealt
/// with; a press or release of another key is left for the other handlers,
/// except a press that a later release of a USB key ends, which is handled.
pub proof fn law_usb_events_are_taken(events: Seq<(Event, EventStatus)>, j: int)
    requires
        0 <= j < events.len(),
        events[j].1 == EventStatus::Unhandled,
    ensures
        match events[j].0 {
            Event::KeyPress(k) => if usb_keycode(k.keycode) || released_from(
                events,
                j + 1,
                k.original_keycode,
            ) {
                processed(events, j).1 != EventStatus::Unhandled
            } else {
                processed(events, j).1 == EventStatus::Unhandled
            },
            Event::KeyRelease(k) => (processed(events, j).1 == EventStatus::Unhandled) == !usb_keycode(
                k.keycode,
            ),
            Event::TimeOut(_) => processed(events, j).1 == EventStatus::Unhandled,
        },
{
}

/// A release of a USB key ends every earlier press of the same key: those
/// presses, like the release itself, are handled and leave the stream.
pub proof fn law_release_ends_earlier_presses(events: Seq<(Event, EventStatus)>, j: int, i: int)
    requires
        0 <= j < i < events.len(),
        events[j].1 == EventStatus::Unhandled,
        events[j].0 is KeyPress,
        releases_code(events[i], events[j].0->KeyPress_0.original_keycode),
    ensures
        processed(events, j).1 == EventStatus::Handled,
        processed(events, i).1 == EventStatus::Handled,
{
    assert(j + 1 <= i < events.len() && releases_code(
        events[i],
        events[j].0->KeyPress_0.original_keycode,
    ));
}

/// `reported_from(events, i)` holds the key of every entry from `i` on that sends one.
proof fn lemma_reported_from_contains(events: Seq<(Event, EventStatus)>, i: int, j: int)
    requires
        0 <= i <= j < events.len(),
        sends_key(events, j),
    ensures
        reported_from(events, i).contains(event_keycode(events[j].0)),
    decreases j - i,
{
    let tail = if sends_key(events, i) {
        seq![event_keycode(events[i].0)]
    } else {
        Seq::<u32>::empty()
    };
    assert(reported_from(events, i) == reported_from(events, i + 1) + tail);
    if i == j {
        let r = reported_from(events, i + 1);
        assert((r + tail)[r.len() as int] == event_keycode(events[j].0));
    } else {
        lemma_reported_from_contains(events, i + 1, j);
        let r = reported_from(events, i + 1);
        let w = choose|w: int| 0 <= w < r.len() && r[w] == event_keycode(events[j].0);
        assert((r + tail)[w] == event_keycode(events[j].0));
    }
}

/// Every key that `reported_from` holds is a USB key code.
proof fn lemma_reported_from_usb(events: Seq<(Event, EventStatus)>, i: int)
    requires
        0 <= i,
    ensures
        forall|k: u32| reported_from(events, i).contains(k) ==> usb_keycode(k),
    decreases events.len() - i,
{
    if i < events.len() {
        lemma_reported_from_usb(events, i + 1);
        let r = reported_from(events, i + 1);
        let tail = if sends_key(events, i) {
            seq![event_keycode(events[i].0)]
        } else {
            Seq::<u32>::empty()
        };
        assert forall|k: u32| reported_from(events, i).contains(k) implies usb_keycode(k) by {
            let w = choose|w: int|
                0 <= w < reported_from(events, i).len() && reported_from(events, i)[w] == k;
            if w < r.len() {
                assert(r[w] == k);
            }
        }
    }
}

/// The whole report is made of the per-entry part and the left modifier keys.
proof fn lemma_key_report_parts(events: Seq<(Event, EventStatus)>, init: KeyboardState, k: u32)
    ensures
        key_report(events, init).contains(k) <==> (reported_from(events, 0).contains(k) || (exists|
            m: Modifier,
        | #[trigger] left_key_if_unsent(events, init, m).contains(k))),
{
    let a = reported_from(events, 0);
    let s = left_key_if_unsent(events, init, Modifier::Shift);
    let c = left_key_if_unsent(events, init, Modifier::Ctrl);
    let l = left_key_if_unsent(events, init, Modifier::Alt);
    let g = left_key_if_unsent(events, init, Modifier::Gui);
    let r = key_report(events, init);
    assert(r == a + s + c + l + g);
    if r.contains(k) {
        let w = choose|w: int| 0 <= w < r.len() && r[w] == k;
        if w < a.len() {
            assert(a[w] == k);
        } else if w < a.len() + s.len() {
            assert(s[w - a.len()] == k);
            assert(left_key_if_unsent(events, init, Modifier::Shift).contains(k));
        } else if w < a.len() + s.len() + c.len() {
            assert(c[w - a.len() - s.len()] == k);
            assert(left_key_if_unsent(events, init, Modifier::Ctrl).contains(k));
        } else if w < a.len() + s.len() + c.len() + l.len() {
            assert(l[w - a.len() - s.len() - c.len()] == k);
            assert(left_key_if_unsent(events, init, Modifier::Alt).contains(k));
        } else {
            assert(g[w - a.len() - s.len() - c.len() - l.len()] == k);
            assert(left_key_if_unsent(events, init, Modifier::Gui).contains(k));
        }
    }
    if a.contains(k) {
        let w = choose|w: int| 0 <= w < a.len() && a[w] == k;
        assert(r[w] == k);
    }
    if exists|m: Modifier| #[trigger] left_key_if_unsent(events, init, m).contains(k) {
        let m = choose|m: Modifier| #[trigger] left_key_if_unsent(events, init, m).contains(k);
        match m {
            Modifier::Shift => {
                assert(s[0] == k);
                assert(r[a.len() as int] == k);
            },
            Modifier::Ctrl => {
                assert(c[0] == k);
                assert(r[(a.len() + s.len()) as int] == k);
            },
            Modifier::Alt => {
                assert(l[0] == k);
                assert(r[(a.len() + s.len() + c.len()) as int] == k);
            },
            Modifier::Gui => {
                assert(g[0] == k);
                assert(r[(a.len() + s.len() + c.len() + l.len()) as int] == k);
            },
        }
    }
}

/// A report only ever holds USB key codes.
pub proof fn law_report_holds_usb_keys(events: Seq<(Event, EventStatus)>, init: KeyboardState, k: u32)
    requires
        key_report(events, init).contains(k),
    ensures
        usb_keycode(k),
{
    lemma_key_report_parts(events, init, k);
    lemma_reported_from_usb(events, 0);
    if !reported_from(events, 0).contains(k) {
        let m = choose|m: Modifier| #[trigger] left_key_if_unsent(events, init, m).contains(k);
        assert(left_key_if_unsent(events, init, m)[0] == k);
    }
}

/// A USB key that is pressed and not released is reported as held, and its
/// press stays in the stream (ignored) so that it is reported again on the
/// next pass.
pub proof fn law_held_keys_are_reported(
    events: Seq<(Event, EventStatus)>,
    init: KeyboardState,
    j: int,
)
    requires
        0 <= j < events.len(),
        events[j].1 == EventStatus::Unhandled,
        events[j].0 is KeyPress,
        usb_keycode(events[j].0->KeyPress_0.keycode),
        !released_from(events, j + 1, events[j].0->KeyPress_0.original_keycode),
    ensures
        key_report(events, init).contains(events[j].0->KeyPress_0.keycode),
        processed(events, j).1 == EventStatus::Ignored,
{
    lemma_reported_from_contains(events, 0, j);
    lemma_key_report_parts(events, init, events[j].0->KeyPress_0.keycode);
}

/// A USB key that is pressed and released within one pass, and was never
/// sent, is still reported once; both events then leave the stream.
pub proof fn law_quick_taps_are_reported(
    events: Seq<(Event, EventStatus)>,
    init: KeyboardState,
    j: int,
)
    requires
        0 <= j < events.len(),
        events[j].1 == EventStatus::Unhandled,
        events[j].0 is KeyPress,
        usb_keycode(events[j].0->KeyPress_0.keycode),
        events[j].0->KeyPress_0.flag % 2 == 0,
    ensures
        key_report(events, init).contains(events[j].0->KeyPress_0.keycode),
        processed(events, j).1 != EventStatus::Unhandled,
{
    lemma_reported_from_contains(events, 0, j);
    lemma_key_report_parts(events, init, events[j].0->KeyPress_0.keycode);
}

/// A USB key that was sent before and whose release comes in this pass is
/// not reported again by its press.
pub proof fn law_released_keys_are_not_resent(events: Seq<(Event, EventStatus)>, j: int)
    requires
        0 <= j < events.len(),
        events[j].0 is KeyPress,
        events[j].0->KeyPress_0.flag % 2 == 1,
        released_from(events, j + 1, events[j].0->KeyPress_0.original_keycode),
    ensures
        !sends_key(events, j),
        events[j].1 == EventStatus::Unhandled ==> processed(events, j).1 == EventStatus::Handled,
{
}

/// Every modifier that is held after a pass is in the report, by the key
/// that was pressed for it or else by its left key.
pub proof fn law_held_modifiers_are_reported(
    events: Seq<(Event, EventStatus)>,
    init: KeyboardState,
    m: Modifier,
)
    requires
        modifier_from(events, 0, m, init.active(m)),
    ensures
        exists|k: u32| key_report(events, init).contains(k) && #[trigger] modifier_of(k) == Some(m),
{
    if sent_from(events, 0, m) {
        let j = choose|j: int| 0 <= j < events.len() && #[trigger] holds_modifier(events, j, m);
        let k = events[j].0->KeyPress_0.keycode;
        assert(sends_key(events, j));
        lemma_reported_from_contains(events, 0, j);
        lemma_key_report_parts(events, init, k);
        assert(key_report(events, init).contains(k) && modifier_of(k) == Some(m));
    } else {
        let k = left_keycode(m);
        assert(left_key_if_unsent(events, init, m)[0] == k);
        assert(left_key_if_unsent(events, init, m).contains(k));
        assert(modifier_of(k) == Some(m)) by {
            match m {
                Modifier::Shift => {},
                Modifier::Ctrl => {},
                Modifier::Alt => {},
                Modifier::Gui => {},
            }
        }
        lemma_key_report_parts(events, init, k);
        assert(key_report(events, init).contains(k) && modifier_of(k) == Some(m));
    }
}

/// A modifier none of whose keys is pressed or released in the pass keeps
/// its state.
pub proof fn law_untouched_modifier_keeps_state(
    events: Seq<(Event, EventStatus)>,
    i: int,
    m: Modifier,
    init: bool,
)
    requires
        0 <= i,
        forall|j: int|
            i <= j < events.len() ==> !holds_modifier(events, j, m) && !lets_go_modifier(
                events,
                j,
                m,
            ),
    ensures
        modifier_from(events, i, m, init) == init,
    decreases events.len() - i,
{
    if i < events.len() {
        law_untouched_modifier_keeps_state(events, i + 1, m, init);
    }
}

/// A modifier whose keys are released in the pass, and not held by a press
/// that stays, is no longer held.
pub proof fn law_released_modifier_is_off(
    events: Seq<(Event, EventStatus)>,
    i: int,
    m: Modifier,
    init: bool,
    r: int,
)
    requires
        0 <= i <= r < events.len(),
        lets_go_modifier(events, r, m),
        forall|j: int| i <= j < events.len() ==> !holds_modifier(events, j, m),
    ensures
        !modifier_from(events, i, m, init),
    decreases r - i,
{
    if i < r && !lets_go_modifier(events, i, m) {
        law_released_modifier_is_off(events, i + 1, m, init, r);
    }
}

/// A modifier whose key is pressed in the pass, and not let go by a release
/// earlier in the stream, is held afterwards.
pub proof fn law_pressed_modifier_is_on(
    events: Seq<(Event, EventStatus)>,
    i: int,
    m: Modifier,
    init: bool,
    p: int,
)
    requires
        0 <= i <= p < events.len(),
        holds_modifier(events, p, m),
        forall|j: int| i <= j < p ==> !lets_go_modifier(events, j, m),
    ensures
        modifier_from(events, i, m, init),
    decreases p - i,
{
    if i < p && !holds_modifier(events, i, m) {
        law_pressed_modifier_is_on(events, i + 1, m, init, p);
    }
}

/// The stream as the next pass sees it: entries kept as ignored are offered
/// again as not yet handled.
pub open spec fn reoffered(events: Seq<(Event, EventStatus)>) -> Seq<(Event, EventStatus)> {
    Seq::new(
        events.len(),
        |j: int|
            if events[j].1 == EventStatus::Ignored {
                (events[j].0, EventStatus::Unhandled)
            } else {
                events[j]
            },
    )
}

/// `reported_from` agrees on two streams whose entries send the same keys.
proof fn lemma_reported_from_same(
    a: Seq<(Event, EventStatus)>,
    b: Seq<(Event, EventStatus)>,
    i: int,
)
    requires
        0 <= i,
        a.len() == b.len(),
        forall|j: int|
            0 <= j < a.len() ==> sends_key(a, j) == sends_key(b, j) && event_keycode(a[j].0)
                == event_keycode(b[j].0),
    ensures
        reported_from(a, i) == reported_from(b, i),
    decreases a.len() - i,
{
    if i < a.len() {
        lemma_reported_from_same(a, b, i + 1);
    }
}

/// With no release of one of its keys, modifier `m` ends held exactly when a
/// press holds it or it was held before.
proof fn lemma_modifier_without_release(
    events: Seq<(Event, EventStatus)>,
    i: int,
    m: Modifier,
    init: bool,
)
    requires
        0 <= i,
        forall|j: int| 0 <= j < events.len() ==> !lets_go_modifier(events, j, m),
    ensures
        modifier_from(events, i, m, init) == (sent_from(events, i, m) || init),
    decreases events.len() - i,
{
    if i < events.len() {
        lemma_modifier_without_release(events, i + 1, m, init);
        lemma_sent_from_step(events, i);
    } else {
        assert(!sent_from(events, i, m));
    }
}

/// A pass over a stream in which no entry is kept as ignored and no release
/// is pending is repeated by the next pass, once the kept entries are offered again: the
/// same keys are reported, the stream comes out the same, and the modifiers
/// stay as the first pass left them. Held keys are thus reported on every
/// pass until they are released.
pub proof fn law_second_pass_repeats(events: Seq<(Event, EventStatus)>, init: KeyboardState)
    requires
        forall|j: int|
            0 <= j < events.len() ==> events[j].1 != EventStatus::Ignored && (events[j].0 is KeyRelease
                ==> events[j].1 == EventStatus::Handled),
    ensures
        key_report(reoffered(pass_events(events)), pass_state(events, init)) == key_report(
            events,
            init,
        ),
        pass_events(reoffered(pass_events(events))) == pass_events(events),
        pass_state(reoffered(pass_events(events)), pass_state(events, init)) == pass_state(
            events,
            init,
        ),
{
    let e1 = pass_events(events);
    let e2 = reoffered(e1);
    let s1 = pass_state(events, init);
    assert forall|j: int, c: u32| 0 <= j < events.len() implies !releases_code(events[j], c)
        && !releases_code(e2[j], c) by {}
    assert forall|i: int, c: u32| 0 <= i implies !released_from(events, i, c) && !released_from(
        e2,
        i,
        c,
    ) by {
        if released_from(events, i, c) {
            let w = choose|w: int| i <= w < events.len() && #[trigger] releases_code(events[w], c);
        }
        if released_from(e2, i, c) {
            let w = choose|w: int| i <= w < e2.len() && #[trigger] releases_code(e2[w], c);
        }
    }
    assert forall|j: int| 0 <= j < events.len() implies {
        &&& e2[j].1 == events[j].1
        &&& processed(e2, j) == processed(events, j)
        &&& sends_key(e2, j) == sends_key(events, j)
        &&& event_keycode(e2[j].0) == event_keycode(events[j].0)
        &&& forall|m: Modifier| #[trigger]
            holds_modifier(e2, j, m) == holds_modifier(events, j, m) && !lets_go_modifier(
                e2,
                j,
                m,
            ) && !lets_go_modifier(events, j, m)
    } by {
        match events[j].0 {
            Event::KeyPress(k) => {
                let f = k.flag;
                assert(sent_flag(sent_flag(f)) == sent_flag(f));
            },
            _ => {},
        }
    }
    assert(pass_events(e2) =~= e1);
    lemma_reported_from_same(e2, events, 0);
    assert forall|m: Modifier|
        #![trigger sent_from(e2, 0, m)]
        sent_from(e2, 0, m) == sent_from(events, 0, m) && modifier_from(
            e2,
            0,
            m,
            s1.active(m),
        ) == modifier_from(events, 0, m, init.active(m)) by {
        assert(sent_from(e2, 0, m) ==> sent_from(events, 0, m)) by {
            if sent_from(e2, 0, m) {
                let j = choose|j: int| 0 <= j < e2.len() && #[trigger] holds_modifier(e2, j, m);
                assert(holds_modifier(events, j, m));
            }
        }
        assert(sent_from(events, 0, m) ==> sent_from(e2, 0, m)) by {
            if sent_from(events, 0, m) {
                let j = choose|j: int|
                    0 <= j < events.len() && #[trigger] holds_modifier(events, j, m);
                assert(holds_modifier(e2, j, m));
            }
        }
        lemma_modifier_without_release(events, 0, m, init.active(m));
        lemma_modifier_without_release(e2, 0, m, s1.active(m));
        assert(s1.active(m) == modifier_from(events, 0, m, init.active(m))) by {
            match m {
                Modifier::Shift => {},
                Modifier::Ctrl => {},
                Modifier::Alt => {},
                Modifier::Gui => {},
            }
        }
    }
    assert(sent_from(e2, 0, Modifier::Shift) == sent_from(events, 0, Modifier::Shift));
    assert(sent_from(e2, 0, Modifier::Ctrl) == sent_from(events, 0, Modifier::Ctrl));
    assert(sent_from(e2, 0, Modifier::Alt) == sent_from(events, 0, Modifier::Alt));
    assert(sent_from(e2, 0, Modifier::Gui) == sent_from(events, 0, Modifier::Gui));
    assert(pass_state(e2, s1) == s1);
    assert(left_key_if_unsent(e2, s1, Modifier::Shift) == left_key_if_unsent(events, init, Modifier::Shift));
    assert(left_key_if_unsent(e2, s1, Modifier::Ctrl) == left_key_if_unsent(events, init, Modifier::Ctrl));
    assert(left_key_if_unsent(e2, s1, Modifier::Alt) == left_key_if_unsent(events, init, Modifier::Alt));
    assert(left_key_if_unsent(e2, s1, Modifier::Gui) == left_key_if_unsent(events, init, Modifier::Gui));
}

/// Every key that `reported_from(events, i)` holds comes from an entry from
/// `i` on that sends it.
proof fn lemma_reported_from_only(events: Seq<(Event, EventStatus)>, i: int, k: u32)
    requires
        0 <= i,
        reported_from(events, i).contains(k),
    ensures
        exists|j: int|
            i <= j < events.len() && #[trigger] sends_key(events, j) && event_keycode(events[j].0)
                == k,
    decreases events.len() - i,
{
    if i < events.len() {
        let r = reported_from(events, i + 1);
        let w = choose|w: int|
            0 <= w < reported_from(events, i).len() && reported_from(events, i)[w] == k;
        if w < r.len() {
            assert(r[w] == k);
            lemma_reported_from_only(events, i + 1, k);
            let j = choose|j: int|
                i + 1 <= j < events.len() && #[trigger] sends_key(events, j) && event_keycode(
                    events[j].0,
                ) == k;
            assert(i <= j < events.len() && sends_key(events, j) && event_keycode(events[j].0)
                == k);
        } else {
            assert(sends_key(events, i) && event_keycode(events[i].0) == k);
        }
    }
}

/// The report holds exactly the keys of the pending presses that send one
/// (not released later, or never sent before) and the left keys of the
/// modifiers that end up held without a press reporting them.
pub proof fn law_report_is_exactly_sent_keys(
    events: Seq<(Event, EventStatus)>,
    init: KeyboardState,
    k: u32,
)
    ensures
        key_report(events, init).contains(k) <==> ((exists|j: int|
            0 <= j < events.len() && #[trigger] sends_key(events, j) && event_keycode(events[j].0)
                == k) || (exists|m: Modifier|
            #[trigger] left_keycode(m) == k && modifier_from(events, 0, m, init.active(m))
                && !sent_from(events, 0, m))),
{
    lemma_key_report_parts(events, init, k);
    if reported_from(events, 0).contains(k) {
        lemma_reported_from_only(events, 0, k);
    }
    if exists|j: int|
        0 <= j < events.len() && #[trigger] sends_key(events, j) && event_keycode(events[j].0)
            == k {
        let j = choose|j: int|
            0 <= j < events.len() && #[trigger] sends_key(events, j) && event_keycode(events[j].0)
                == k;
        lemma_reported_from_contains(events, 0, j);
    }
    if exists|m: Modifier| #[trigger] left_key_if_unsent(events, init, m).contains(k) {
        let m = choose|m: Modifier| #[trigger] left_key_if_unsent(events, init, m).contains(k);
        assert(left_key_if_unsent(events, init, m)[0] == k);
        assert(left_keycode(m) == k);
    }
    if exists|m: Modifier|
        #[trigger] left_keycode(m) == k && modifier_from(events, 0, m, init.active(m)) && !sent_from(
            events,
            0,
            m,
        ) {
        let m = choose|m: Modifier|
            #[trigger] left_keycode(m) == k && modifier_from(events, 0, m, init.active(m))
                && !sent_from(events, 0, m);
        assert(left_key_if_unsent(events, init, m)[0] == k);
        assert(left_key_if_unsent(events, init, m).contains(k));
    }
}

/// The USB key codes, written out: usage ids 0x00 to 0xE7 (right gui) above
/// the offset 0x100000.
pub open spec fn in_usb_range(kc: u32) -> bool {
    0x100000 <= kc && kc <= 0x1000E7
}

/// `kc` is the left or the right key of modifier `m` in the USB usage table
/// (0xE0 to 0xE3 left ctrl, shift, alt, gui; 0xE4 to 0xE7 the right ones).
pub open spec fn is_key_of(kc: u32, m: Modifier) -> bool {
    match m {
        Modifier::Ctrl => kc == 0x1000E0 || kc == 0x1000E4,
        Modifier::Shift => kc == 0x1000E1 || kc == 0x1000E5,
        Modifier::Alt => kc == 0x1000E2 || kc == 0x1000E6,
        Modifier::Gui => kc == 0x1000E3 || kc == 0x1000E7,
    }
}

/// A later entry of the stream is a pending release of a USB key that was
/// pressed as `code`.
pub open spec fn release_follows(events: Seq<(Event, EventStatus)>, j: int, code: u32) -> bool {
    exists|i: int|
        j < i < events.len() && #[trigger] events[i].1 == EventStatus::Unhandled && match events[i].0 {
            Event::KeyRelease(r) => in_usb_range(r.keycode) && r.original_keycode == code,
            _ => false,
        }
}

/// `release_follows` is `released_from` from the next index on.
proof fn lemma_release_follows(events: Seq<(Event, EventStatus)>, j: int, code: u32)
    requires
        0 <= j,
    ensures
        release_follows(events, j, code) == released_from(events, j + 1, code),
{
    if release_follows(events, j, code) {
        let i = choose|i: int|
            j < i < events.len() && #[trigger] events[i].1 == EventStatus::Unhandled && match events[i].0 {
                Event::KeyRelease(r) => in_usb_range(r.keycode) && r.original_keycode == code,
                _ => false,
            };
        assert(releases_code(events[i], code));
    }
    if released_from(events, j + 1, code) {
        let i = choose|i: int| j + 1 <= i < events.len() && #[trigger] releases_code(events[i], code);
        assert(events[i].1 == EventStatus::Unhandled);
    }
}

/// The USB key codes are exactly the codes from 0x100000 to 0x1000E7: every
/// one of them is a key the layer reports, none is refused.
pub proof fn law_usb_range_is_whole(kc: u32)
    ensures
        usb_keycode(kc) == in_usb_range(kc),
{
}

/// Only the eight modifier keys (0x1000E0 to 0x1000E7) stand for a modifier,
/// each for the one the USB usage table gives it.
pub proof fn law_modifier_keys_are_the_table(kc: u32, m: Modifier)
    ensures
        (modifier_of(kc) == Some(m)) == is_key_of(kc, m),
        modifier_of(kc) is Some ==> 0x1000E0 <= kc && kc <= 0x1000E7,
{
}

/// Every pending press of a key code from 0x100000 to 0x1000E7 that no later
/// release ends is in the report and is kept, as ignored, for the next pass.
pub proof fn law_every_usb_key_held_is_reported(
    events: Seq<(Event, EventStatus)>,
    init: KeyboardState,
    j: int,
)
    requires
        0 <= j < events.len(),
        events[j].1 == EventStatus::Unhandled,
        events[j].0 is KeyPress,
        in_usb_range(events[j].0->KeyPress_0.keycode),
        !release_follows(events, j, events[j].0->KeyPress_0.original_keycode),
    ensures
        key_report(events, init).contains(events[j].0->KeyPress_0.keycode),
        processed(events, j).1 == EventStatus::Ignored,
{
    lemma_release_follows(events, j, events[j].0->KeyPress_0.original_keycode);
    law_held_keys_are_reported(events, init, j);
}

/// Every pending press of a key code from 0x100000 to 0x1000E7 leaves the
/// pass marked as sent: the lowest bit of its flag is set, the other bits and
/// the rest of the key stay, whatever key it was first pressed as.
pub proof fn law_usb_presses_are_marked_sent(events: Seq<(Event, EventStatus)>, j: int)
    requires
        0 <= j < events.len(),
        events[j].1 == EventStatus::Unhandled,
        events[j].0 is KeyPress,
        in_usb_range(events[j].0->KeyPress_0.keycode),
    ensures
        processed(events, j).0 is KeyPress,
        processed(events, j).0->KeyPress_0.flag % 2 == 1,
        processed(events, j).0->KeyPress_0.flag == if events[j].0->KeyPress_0.flag % 2 == 0 {
            events[j].0->KeyPress_0.flag + 1
        } else {
            events[j].0->KeyPress_0.flag as int
        },
        processed(events, j).0->KeyPress_0.original_keycode
            == events[j].0->KeyPress_0.original_keycode,
        processed(events, j).0->KeyPress_0.keycode == events[j].0->KeyPress_0.keycode,
        processed(events, j).0->KeyPress_0.ms_since_last == events[j].0->KeyPress_0.ms_since_last,
{
}

/// A pass in which no pending event is a key from 0x1000E0 to 0x1000E7
/// leaves every modifier as it was.
pub proof fn law_other_keys_keep_modifiers(events: Seq<(Event, EventStatus)>, init: KeyboardState)
    requires
        forall|j: int|
            0 <= j < events.len() && #[trigger] events[j].1 == EventStatus::Unhandled ==> match events[j].0 {
                Event::KeyPress(k) => !(0x1000E0 <= k.keycode && k.keycode <= 0x1000E7),
                Event::KeyRelease(k) => !(0x1000E0 <= k.keycode && k.keycode <= 0x1000E7),
                Event::TimeOut(_) => true,
            },
    ensures
        pass_state(events, init) == init,
{
    assert forall|m: Modifier| modifier_from(events, 0, m, init.active(m)) == init.active(m) by {
        assert forall|j: int|
            0 <= j < events.len() implies !holds_modifier(events, j, m) && !lets_go_modifier(
                events,
                j,
                m,
            ) by {
            if events[j].1 == EventStatus::Unhandled {
            }
        }
        law_untouched_modifier_keeps_state(events, 0, m, init.active(m));
    }
    assert(modifier_from(events, 0, Modifier::Shift, init.active(Modifier::Shift)) == init.active(Modifier::Shift));
    assert(modifier_from(events, 0, Modifier::Ctrl, init.active(Modifier::Ctrl)) == init.active(Modifier::Ctrl));
    assert(modifier_from(events, 0, Modifier::Alt, init.active(Modifier::Alt)) == init.active(Modifier::Alt));
    assert(modifier_from(events, 0, Modifier::Gui, init.active(Modifier::Gui)) == init.active(Modifier::Gui));
}

/// Releasing a key that stands for modifier `m` (by the code it stands for
/// now, whatever it was pressed as) turns `m` off, when every pending press
/// of a key of `m` is ended by a later release in the same pass, whether or
/// not it was sent before: no press that is released in the pass holds a
/// modifier.
pub proof fn law_released_modifier_ends_off(
    events: Seq<(Event, EventStatus)>,
    init: KeyboardState,
    m: Modifier,
    r: int,
)
    requires
        0 <= r < events.len(),
        events[r].1 == EventStatus::Unhandled,
        events[r].0 is KeyRelease,
        is_key_of(events[r].0->KeyRelease_0.keycode, m),
        forall|j: int|
            0 <= j < events.len() && #[trigger] events[j].1 == EventStatus::Unhandled && (
            events[j].0 is KeyPress) && is_key_of(events[j].0->KeyPress_0.keycode, m)
                ==> release_follows(events, j, events[j].0->KeyPress_0.original_keycode),
    ensures
        !pass_state(events, init).active(m),
{
    assert(lets_go_modifier(events, r, m));
    assert forall|j: int| 0 <= j < events.len() implies !holds_modifier(events, j, m) by {
        if holds_modifier(events, j, m) {
            let k = events[j].0->KeyPress_0;
            assert(events[j].1 == EventStatus::Unhandled);
            assert(is_key_of(k.keycode, m));
            lemma_release_follows(events, j, k.original_keycode);
        }
    }
    law_released_modifier_is_off(events, 0, m, init.active(m), r);
    assert(pass_state(events, init).active(m) == modifier_from(events, 0, m, init.active(m))) by {
        match m {
            Modifier::Shift => {},
            Modifier::Ctrl => {},
            Modifier::Alt => {},
            Modifier::Gui => {},
        }
    }
}

} // verus!
