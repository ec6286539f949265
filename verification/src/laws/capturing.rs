//! What a capture at a screen edge hands on.
use crate::capture_probe::{Capture, CaptureModel, Event, Options, StopCause, StripPlacement};
use crate::error::Error;
use crate::geometry::Edge;
use crate::number::Binary64;
use crate::protocol::{Axis, InputEvent, ScrollSource};
use vstd::prelude::*;

verus! {

/// A capture that hands input on at once.
pub open spec fn hands_on(m: CaptureModel) -> bool {
    m.requested && m.ready_reported && m.streaming && !m.finished
}

/// A capture that is under way and keeps input until it is complete.
pub open spec fn keeps(m: CaptureModel) -> bool {
    m.requested && !m.ready_reported && m.streaming && !m.finished && m.waiting.len() < 128
}

/// One more input waits, and nothing is handed on.
pub open spec fn waits(before: CaptureModel, after: CaptureModel, events: Seq<Event>, input: InputEvent) -> bool {
    &&& events.len() == 0
    &&& after.waiting.len() == before.waiting.len() + 1
    &&& after.waiting.last() == input
    &&& forall|i: int| 0 <= i < before.waiting.len() ==> #[trigger] after.waiting[i] == before.waiting[i]
}

/// An amount of motion or scrolling that is accepted: at most 32768 either way.
pub open spec fn moderate(amount: Binary64) -> bool {
    amount.finite() && -32768 * vstd::arithmetic::power2::pow2(1074) <= amount.units() <= 32768
        * vstd::arithmetic::power2::pow2(1074)
}

/// Motion is handed on as it was reported: sideways stays sideways, up and down stays up and down.
pub proof fn lemma_motion_is_handed_on(dx: Binary64, dy: Binary64)
    requires
        moderate(dx),
        moderate(dy),
    ensures
        forall|c: &mut Capture, r: Vec<Event>|
            (#[trigger] call_ensures(Capture::motion, (c, dx, dy), r)) && hands_on((*c)@) ==> {
                &&& r@.len() == 1
                &&& r@[0] matches Event::Input(InputEvent::Motion { dx: a, dy: b }) && a == dx && b == dy
                &&& hands_on((*final(c))@)
            },
        forall|c: &mut Capture, r: Vec<Event>|
            (#[trigger] call_ensures(Capture::motion, (c, dx, dy), r)) && keeps((*c)@) ==> waits(
                (*c)@,
                (*final(c))@,
                r@,
                (InputEvent::Motion { dx, dy }),
            ),
        forall|c: &mut Capture, r: Vec<Event>|
            (#[trigger] call_ensures(Capture::motion, (c, dx, dy), r)) && !(*c)@.requested ==> r@.len()
                == 0 && (*final(c))@ == (*c)@,
{
    crate::number::lemma_constants();
}

/// Motion or scrolling of more than the accepted amount ends the capture and is not handed on.
pub proof fn lemma_excessive_amounts_end_the_capture(dx: Binary64, dy: Binary64, axis: Axis)
    requires
        !moderate(dx),
    ensures
        forall|c: &mut Capture, r: Vec<Event>|
            ((#[trigger] call_ensures(Capture::motion, (c, dx, dy), r))) && hands_on((*c)@) ==> r@.len()
                == 0 && (*final(c))@.finished && (*final(c))@.counts.stop_reason == Some(
                StopCause::UnsupportedInput,
            ),
        forall|c: &mut Capture, r: Vec<Event>|
            ((#[trigger] call_ensures(Capture::motion, (c, dy, dx), r))) && hands_on((*c)@) ==> r@.len()
                == 0 && (*final(c))@.finished,
        forall|c: &mut Capture, r: Vec<Event>|
            ((#[trigger] call_ensures(Capture::scroll, (c, axis, dx), r))) && hands_on((*c)@) ==> r@.len()
                == 0 && (*final(c))@.finished,
{
    crate::number::lemma_constants();
}

/// A mouse button is handed on with its code, a press as a press and a release as a release.
pub proof fn lemma_buttons_are_handed_on(button: u32, pressed: bool)
    requires
        272 <= button <= 279,
    ensures
        forall|c: &mut Capture, r: Vec<Event>|
            (#[trigger] call_ensures(Capture::button, (c, button, pressed), r)) && hands_on((*c)@) ==> {
                &&& r@.len() == 1
                &&& r@[0] matches Event::Input(InputEvent::Button { code, pressed: p }) && code == button
                    && p == pressed
                &&& hands_on((*final(c))@)
            },
        forall|c: &mut Capture, r: Vec<Event>|
            (#[trigger] call_ensures(Capture::button, (c, button, pressed), r)) && keeps((*c)@)
                ==> waits(
                (*c)@,
                (*final(c))@,
                r@,
                (InputEvent::Button { code: button as u16, pressed }),
            ),
        forall|c: &mut Capture, r: Vec<Event>|
            (#[trigger] call_ensures(Capture::button, (c, button, pressed), r)) && !(*c)@.requested
                ==> r@.len() == 0,
{
}

/// Scrolling is handed on along its axis, with its amount and the source that was named last; so is
/// its end.
pub proof fn lemma_scrolling_is_handed_on(axis: Axis, amount: Binary64, source: ScrollSource)
    requires
        moderate(amount),
    ensures
        forall|c: &mut Capture, r: ()|
            (#[trigger] call_ensures(Capture::axis_source, (c, source), r)) ==> (
            *final(c))@.scroll_source == source && ((hands_on((*c)@) ==> hands_on((*final(c))@))),
        forall|c: &mut Capture, r: Vec<Event>|
            (#[trigger] call_ensures(Capture::scroll, (c, axis, amount), r)) && hands_on((*c)@) ==> {
                &&& r@.len() == 1
                &&& r@[0] matches Event::Input(InputEvent::Scroll { axis: a, amount: n, source: s }) && a
                    == axis && n == amount && s == (*c)@.scroll_source
                &&& hands_on((*final(c))@)
            },
        forall|c: &mut Capture, r: Vec<Event>|
            (#[trigger] call_ensures(Capture::scroll_stop, (c, axis), r)) && hands_on((*c)@) ==> {
                &&& r@.len() == 1
                &&& r@[0] matches Event::Input(InputEvent::ScrollStop { axis: a, source: s }) && a == axis
                    && s == (*c)@.scroll_source
                &&& hands_on((*final(c))@)
            },
        forall|c: &mut Capture, r: Vec<Event>|
            (#[trigger] call_ensures(Capture::scroll, (c, axis, amount), r)) && keeps((*c)@) ==> waits(
                (*c)@,
                (*final(c))@,
                r@,
                (InputEvent::Scroll { axis, amount, source: (*c)@.scroll_source }),
            ),
        forall|c: &mut Capture, r: Vec<Event>|
            (#[trigger] call_ensures(Capture::scroll_stop, (c, axis), r)) && keeps((*c)@) ==> waits(
                (*c)@,
                (*final(c))@,
                r@,
                (InputEvent::ScrollStop { axis, source: (*c)@.scroll_source }),
            ),
{
    crate::number::lemma_constants();
}

/// Either Control, either Alt and either Shift are among some keys.
pub open spec fn modifiers_down(keys: Set<u16>) -> bool {
    &&& keys.contains(29) || keys.contains(97)
    &&& keys.contains(56) || keys.contains(100)
    &&& keys.contains(42) || keys.contains(54)
}

/// A key is handed on when it goes down and when it comes up, as what it does, and once; Escape with
/// Control, Alt and Shift ends the capture instead.
pub proof fn lemma_keys_are_handed_on(key: u32, pressed: bool)
    requires
        1 <= key <= 255,
    ensures
        forall|c: &mut Capture, r: Vec<Event>|
            (#[trigger] call_ensures(Capture::key, (c, key, pressed), r)) && hands_on((*c)@) ==> {
                let held = (*c)@.pressed;
                let code = key as u16;
                let chord = key == 1 && pressed && modifiers_down(held);
                &&& !chord && held.contains(code) != pressed ==> {
                    &&& r@.len() == 1
                    &&& r@[0] matches Event::Input(InputEvent::Key { code: k, pressed: p }) && k == key
                        && p == pressed
                    &&& hands_on((*final(c))@)
                }
                &&& held.contains(code) == pressed ==> r@.len() == 0
                &&& chord ==> r@.len() == 0 && (*final(c))@.finished && (
                *final(c))@.counts.stop_reason == Some(StopCause::Escape)
                &&& !chord ==> !(*final(c))@.finished
                &&& (*final(c))@.pressed.contains(code) == pressed
                &&& forall|other: u16|
                    other != code ==> (#[trigger] (*final(c))@.pressed.contains(other)
                        == held.contains(other))
            },
        forall|c: &mut Capture, r: Vec<Event>|
            (#[trigger] call_ensures(Capture::key, (c, key, pressed), r)) && !(*c)@.requested ==> r@.len()
                == 0 && (*final(c))@ == (*c)@,
{
}

/// Without a stream Escape alone ends the capture, and nothing is ever handed on.
pub proof fn lemma_a_trial_ends_with_escape(key: u32, pressed: bool)
    ensures
        forall|c: &mut Capture, r: Vec<Event>|
            (#[trigger] call_ensures(Capture::key, (c, key, pressed), r)) && (*c)@.requested && !(
            *c)@.streaming && !(*c)@.finished ==> {
                &&& r@.len() == 0
                &&& key == 1 && pressed ==> (*final(c))@.finished && (
                *final(c))@.counts.stop_reason == Some(StopCause::Escape)
            },
{
}

/// The pointer starts a capture where it crosses an edge that is watched; a pointer that was there
/// when the watch began has to leave first.
pub proof fn lemma_a_watched_edge_starts_a_capture(edge: usize, fraction: Binary64, cancelled: bool, pointer: bool)
    ensures
        forall|c: &mut Capture, r: (bool, bool)|
            (#[trigger] call_ensures(Capture::pointer_enter, (c, edge, fraction, cancelled, pointer), r))
                && edge < (*c)@.strips.len() ==> {
                let m = (*c)@;
                let armed = m.strips[edge as int].armed;
                &&& r.1 <==> armed && !m.requested && !m.finished && !cancelled && pointer
                &&& r.1 ==> (*final(c))@.requested && (*final(c))@.selected == Some(edge)
                &&& r.1 && fraction.finite() && 0 <= fraction.units()
                    <= vstd::arithmetic::power2::pow2(1074) ==> (*final(c))@.start_fraction
                    == fraction
                &&& !r.1 ==> (*final(c))@.requested == m.requested && (*final(c))@.selected
                    == m.selected
                &&& (*final(c))@.strips[edge as int].pointer_inside
                &&& armed && cancelled && !m.requested && !m.finished ==> (*final(c))@.finished
            },
        forall|c: &mut Capture, r: (bool, bool)|
            (#[trigger] call_ensures(Capture::pointer_enter, (c, edge, fraction, cancelled, pointer), r))
                && edge >= (*c)@.strips.len() ==> !r.0 && !r.1 && (*final(c))@ == (*c)@,
        forall|c: &mut Capture, r: ()|
            (#[trigger] call_ensures(Capture::pointer_leave, (c, edge), r)) && edge
                < (*c)@.strips.len() ==> (*final(c))@.strips[edge as int].armed && !(
            *final(c))@.strips[edge as int].pointer_inside && (*final(c))@.requested
                == (*c)@.requested && (*final(c))@.finished == (*c)@.finished,
        forall|c: &mut Capture, r: Vec<Event>|
            (#[trigger] call_ensures(Capture::arm, (c,), r)) ==> {
                &&& edge < (*c)@.strips.len() ==> (*final(c))@.strips[edge as int].armed
                    != (*c)@.strips[edge as int].pointer_inside
                &&& (*c)@.streaming && !(*c)@.finished ==> r@.len() == 1 && r@[0] is Armed
            },
{
    crate::number::lemma_constants();
    assert(Binary64::one().units() == vstd::arithmetic::power2::pow2(1074));
}

/// Input is handed on once pointer, keyboard and shortcuts are captured, whichever comes last: then
/// the start names the edge and the place, and what waited follows in its order.
pub proof fn lemma_a_complete_capture_starts_the_stream(keys: Vec<u32>)
    ensures
        forall|c: &mut Capture, r: Vec<Event>|
            (#[trigger] call_ensures(Capture::pointer_locked, (c,), r)) && underway((*c)@) ==> {
                let m = (*c)@;
                &&& m.counts.keyboard_focus_observed && m.counts.shortcuts_inhibited_observed ==> starts(
                    m,
                    r@,
                ) && hands_on((*final(c))@)
                &&& !(m.counts.keyboard_focus_observed && m.counts.shortcuts_inhibited_observed)
                    ==> r@.len() == 0 && underway((*final(c))@)
                &&& (*final(c))@.counts.pointer_lock_observed
            },
        forall|c: &mut Capture, r: Vec<Event>|
            (#[trigger] call_ensures(Capture::shortcuts_inhibited, (c,), r)) && underway((*c)@) ==> {
                let m = (*c)@;
                &&& m.counts.keyboard_focus_observed && m.counts.pointer_lock_observed ==> starts(
                    m,
                    r@,
                ) && hands_on((*final(c))@)
                &&& !(m.counts.keyboard_focus_observed && m.counts.pointer_lock_observed) ==> r@.len()
                    == 0 && underway((*final(c))@)
                &&& (*final(c))@.counts.shortcuts_inhibited_observed
            },
        forall|c: &mut Capture, r: Vec<Event>|
            (#[trigger] call_ensures(Capture::keyboard_enter, (c, &keys, false), r)) && underway((*c)@)
                ==> r@.len() == 0 && (*final(c))@.finished,
{
    assert forall|m: CaptureModel| underway(m) && m.complete() implies #[trigger] starts(
        m,
        m.report_ready().1,
    ) by {}
}

/// A capture that was asked for and is not complete.
pub open spec fn underway(m: CaptureModel) -> bool {
    m.requested && m.selected is Some && !m.ready_reported && m.streaming && !m.finished
}

/// The start of a stream: the edge and the place, then what has waited, then that it is ready.
pub open spec fn starts(m: CaptureModel, events: Seq<Event>) -> bool {
    &&& events.len() == m.waiting.len() + 2
    &&& events[0] matches Event::Started { edge, fraction } && Some(edge) == m.selected && fraction
        == m.start_fraction
    &&& forall|i: int|
        0 <= i < m.waiting.len() ==> (#[trigger] events[i + 1] matches Event::Input(e) && e
            == m.waiting[i])
    &&& events.last() is Ready
}

/// The press of a key.
pub open spec fn press_of(key: u32) -> InputEvent {
    InputEvent::Key { code: key as u16, pressed: true }
}

/// The keys that are held when the keyboard is captured are pressed first, each once, in the order
/// in which they were named.
pub proof fn lemma_held_keys_are_pressed_first(m: CaptureModel, keys: Seq<u32>)
    requires
        hands_on(m),
        m.pressed == Set::<u16>::empty(),
        forall|i: int| 0 <= i < keys.len() ==> 1 <= #[trigger] keys[i] <= 255,
        keys.no_duplicates(),
    ensures
        m.press_all(keys).1.len() == keys.len(),
        forall|i: int|
            0 <= i < keys.len() ==> ((#[trigger] m.press_all(keys).1[i]) matches Event::Input(
                InputEvent::Key { code, pressed },
            ) && code == keys[i] && pressed),
        hands_on(m.press_all(keys).0),
        forall|code: u16| #[trigger]
            m.press_all(keys).0.pressed.contains(code) <==> keys.contains(code as u32),
    decreases keys.len(),
{
    if keys.len() > 0 {
        let less = keys.drop_last();
        assert forall|i: int| 0 <= i < less.len() implies 1 <= #[trigger] less[i] <= 255 by {
            assert(less[i] == keys[i]);
        }
        lemma_held_keys_are_pressed_first(m, less);
        let key = keys.last();
        assert(keys[keys.len() - 1] == key);
        assert(!less.contains(key)) by {
            if less.contains(key) {
                let k = choose|k: int| 0 <= k < less.len() && less[k] == key;
                assert(keys[k] == key);
            }
        }
        let before = m.press_all(less).0;
        assert(!before.pressed.contains(key as u16));
        assert forall|code: u16| #[trigger] m.press_all(keys).0.pressed.contains(code)
            <==> keys.contains(code as u32) by {
            if less.contains(code as u32) {
                let k = choose|k: int| 0 <= k < less.len() && less[k] == code as u32;
                assert(keys[k] == code as u32);
            }
            if keys.contains(code as u32) && code as u32 != key {
                let k = choose|k: int| 0 <= k < keys.len() && keys[k] == code as u32;
                assert(less[k] == code as u32);
            }
        }
    }
}

/// A capture ends, with the cause that belongs to it, when its keyboard, its shortcuts, its seat or
/// its output is lost; the first cause stays.
pub proof fn lemma_what_ends_a_capture(output_id: u32, pointer: bool, keyboard: bool, cause: StopCause, connected: bool)
    ensures
        forall|c: &mut Capture, r: ()|
            (#[trigger] call_ensures(Capture::finish, (c, cause), r)) ==> (*final(c))@.finished && (
            !(*c)@.finished ==> (*final(c))@.counts.stop_reason == Some(cause)) && ((*c)@.finished
                ==> (*final(c))@ == (*c)@),
        forall|c: &mut Capture, r: ()|
            (#[trigger] call_ensures(Capture::keyboard_leave, (c,), r)) && !(*c)@.finished ==> {
                &&& (*final(c))@.finished == (*c)@.counts.keyboard_focus_observed
                &&& (*final(c))@.finished ==> (*final(c))@.counts.stop_reason == Some(
                    StopCause::KeyboardFocusLost,
                )
            },
        forall|c: &mut Capture, r: ()|
            (#[trigger] call_ensures(Capture::shortcuts_restored, (c,), r)) && !(*c)@.finished ==> {
                &&& (*final(c))@.finished == (*c)@.requested
                &&& (*final(c))@.finished ==> (*final(c))@.counts.stop_reason == Some(
                    StopCause::ShortcutsInhibitorLost,
                )
            },
        forall|c: &mut Capture, r: ()|
            (#[trigger] call_ensures(Capture::seat_changed, (c, pointer, keyboard), r)) && !(
            *c)@.finished ==> {
                &&& (*final(c))@.finished == ((*c)@.requested && !(pointer && keyboard))
                &&& (*final(c))@.finished ==> (*final(c))@.counts.stop_reason == Some(
                    StopCause::SeatRemoved,
                )
            },
        forall|c: &mut Capture, r: ()|
            (#[trigger] call_ensures(Capture::output_changed, (c, output_id), r)) && !(*c)@.finished
                ==> {
                &&& (*final(c))@.finished <==> exists|i: int|
                    0 <= i < (*c)@.strips.len() && (#[trigger] (*c)@.strips[i]).output_id == output_id
            },
        forall|c: &mut Capture, r: StopCause|
            (#[trigger] call_ensures(Capture::close, (c, connected), r)) ==> {
                &&& (*final(c))@.finished
                &&& (*c)@.finished ==> Some(r) == (*c)@.counts.stop_reason
                &&& !(*c)@.finished ==> r == (if connected {
                    StopCause::Timeout
                } else {
                    StopCause::ConnectionError
                })
            },
        forall|c: &Capture, elapsed: u64, seconds: u64, r: bool|
            (#[trigger] call_ensures(Capture::goes_on, (c, elapsed, seconds), r)) ==> {
                &&& c.finished ==> !r
                &&& !c.finished && c.streaming ==> r
                &&& !c.finished && !c.streaming ==> (r <==> elapsed < seconds * 1000)
            },
{
}

/// The causes have different names.
pub proof fn lemma_causes_are_told_apart(a: StopCause, b: StopCause)
    requires
        a.label() == b.label(),
    ensures
        a == b,
{
    reveal_strlit("escape");
    reveal_strlit("timeout");
    reveal_strlit("cancelled");
    reveal_strlit("connection_error");
    reveal_strlit("event_queue_unavailable");
    reveal_strlit("unsupported_input");
    reveal_strlit("output_configuration_changed");
    reveal_strlit("seat_removed");
    reveal_strlit("surface_error");
    reveal_strlit("surface_closed");
    reveal_strlit("invalid_key_state");
    reveal_strlit("keyboard_focus_lost");
    reveal_strlit("pointer_unlocked");
    reveal_strlit("shortcuts_inhibitor_lost");
    assert("escape"@.len() == 6 && "timeout"@.len() == 7 && "cancelled"@.len() == 9);
    assert("connection_error"@.len() == 16 && "event_queue_unavailable"@.len() == 23);
    assert("unsupported_input"@.len() == 17 && "output_configuration_changed"@.len() == 28);
    assert("seat_removed"@.len() == 12 && "surface_error"@.len() == 13);
    assert("surface_closed"@.len() == 14 && "invalid_key_state"@.len() == 17);
    assert("keyboard_focus_lost"@.len() == 19 && "pointer_unlocked"@.len() == 16);
    assert("shortcuts_inhibitor_lost"@.len() == 24);
    assert("connection_error"@[0] == 'c' && "pointer_unlocked"@[0] == 'p');
    assert("unsupported_input"@[0] == 'u' && "invalid_key_state"@[0] == 'i');
}

/// The surface of an edge lies along that edge: it is as long as the span, starts where the span
/// does, and is thin across.
pub proof fn lemma_a_surface_lies_along_its_edge(edge: Edge, offset: i32, extent: u32)
    ensures
        forall|r: Result<StripPlacement, Error>|
            (#[trigger] call_ensures(crate::capture_probe::strip_placement, (edge, offset, extent), r))
                ==> {
                &&& r is Ok <==> extent > 0
                &&& r is Ok && (edge is Top || edge is Bottom) ==> (r->Ok_0).width == extent && (
                r->Ok_0).height == 2 && (r->Ok_0).margin_left == offset && (r->Ok_0).margin_top == 0
                &&& r is Ok && (edge is Left || edge is Right) ==> (r->Ok_0).height == extent && (
                r->Ok_0).width == 2 && (r->Ok_0).margin_top == offset && (r->Ok_0).margin_left == 0
                &&& r is Ok ==> ((r->Ok_0).bottom <==> edge is Bottom) && ((r->Ok_0).right
                    <==> edge is Right)
            },
{
}

/// The picture of a surface takes four bytes a pixel, and not too many.
pub proof fn lemma_a_surface_has_a_bounded_picture(width: u32, height: u32)
    ensures
        forall|r: Result<u64, Error>|
            (#[trigger] call_ensures(crate::capture_probe::strip_bytes, (width, height), r)) ==> {
                &&& r is Ok ==> r->Ok_0 == 4 * width * height && 0 < r->Ok_0 <= 4 * 1024 * 1024
                &&& width == 0 || height == 0 ==> r is Err
                &&& 0 < width <= 32768 && 0 < height <= 32 ==> r is Ok
            },
{
    assert(width > 0 && height > 0 ==> width * height > 0) by (nonlinear_arith);
    assert(width <= 32768 && height <= 32 ==> width * height <= 32768 * 32) by (nonlinear_arith);
    assert(4 * width * height == width * height * 4) by (nonlinear_arith);
}

/// A capture is accepted for one edge, or for several if their input is streamed; each names an
/// output, a span within its edge and a time of one to thirty seconds.
pub proof fn lemma_which_captures_are_accepted(list: Vec<Options>, streaming: bool)
    ensures
        forall|r: Result<(), Error>|
            (#[trigger] call_ensures(crate::capture_probe::check_options, (&list, streaming), r)) ==> (
            r is Ok <==> {
                &&& 1 <= list@.len() <= 16
                &&& streaming || list@.len() == 1
                &&& forall|i: int|
                    0 <= i < list@.len() ==> {
                        &&& (#[trigger] list@[i]).output@.len() > 0
                        &&& 1 <= list@[i].seconds <= 30
                        &&& list@[i].start.finite() && list@[i].end.finite()
                        &&& 0 <= list@[i].start.units() < list@[i].end.units()
                            <= vstd::arithmetic::power2::pow2(1074)
                    }
            }),
{
    crate::number::lemma_constants();
    lemma_first_options(list@);
}

proof fn lemma_first_options(list: Seq<Options>)
    ensures
        crate::capture_probe::first_options_problem(list) is None <==> forall|i: int|
            0 <= i < list.len() ==> (#[trigger] list[i]).problem() is None,
    decreases list.len(),
{
    if list.len() > 0 {
        lemma_first_options(list.drop_first());
        assert forall|i: int| 0 < i < list.len() implies list[i] == #[trigger] list.drop_first()[i - 1] by {}
        if forall|i: int| 0 <= i < list.drop_first().len() ==> (#[trigger] list.drop_first()[i]).problem() is None {
            assert forall|i: int| 0 < i < list.len() implies (#[trigger] list[i]).problem() is None by {
                assert(list.drop_first()[i - 1].problem() is None);
            }
        } else {
            let i = choose|i: int|
                0 <= i < list.drop_first().len() && (#[trigger] list.drop_first()[i]).problem() is Some;
            assert(list[i + 1].problem() is Some);
        }
    }
}

/// The keys that are held when the keyboard is captured are pressed first, each once, in the order
/// in which they were named: behind what waits already, and handed on with it.
pub proof fn lemma_keys_held_at_the_start_are_kept(m: CaptureModel, keys: Seq<u32>)
    requires
        underway(m),
        m.pressed == Set::<u16>::empty(),
        forall|i: int| 0 <= i < keys.len() ==> 1 <= #[trigger] keys[i] <= 255,
        keys.no_duplicates(),
        m.waiting.len() + keys.len() <= 128,
    ensures
        m.press_all(keys).1.len() == 0,
        underway(m.press_all(keys).0),
        m.press_all(keys).0.counts == m.counts,
        m.press_all(keys).0.selected == m.selected,
        m.press_all(keys).0.start_fraction == m.start_fraction,
        m.press_all(keys).0.waiting.len() == m.waiting.len() + keys.len(),
        forall|i: int|
            0 <= i < m.waiting.len() ==> #[trigger] m.press_all(keys).0.waiting[i] == m.waiting[i],
        forall|i: int|
            0 <= i < keys.len() ==> m.press_all(keys).0.waiting[m.waiting.len() + i] == press_of(
                #[trigger] keys[i],
            ),
        forall|code: u16| #[trigger]
            m.press_all(keys).0.pressed.contains(code) <==> keys.contains(code as u32),
    decreases keys.len(),
{
    if keys.len() > 0 {
        let less = keys.drop_last();
        assert forall|i: int| 0 <= i < less.len() implies 1 <= #[trigger] less[i] <= 255 by {
            assert(less[i] == keys[i]);
        }
        lemma_keys_held_at_the_start_are_kept(m, less);
        let key = keys.last();
        assert(keys[keys.len() - 1] == key);
        assert(!less.contains(key)) by {
            if less.contains(key) {
                let k = choose|k: int| 0 <= k < less.len() && less[k] == key;
                assert(keys[k] == key);
            }
        }
        let before = m.press_all(less).0;
        let after = m.press_all(keys).0;
        assert(!before.pressed.contains(key as u16));
        assert(after.waiting == before.waiting.push(
            (InputEvent::Key { code: key as u16, pressed: true }),
        ));
        assert forall|i: int| 0 <= i < keys.len() implies m.press_all(keys).0.waiting[m.waiting.len() + i]
            == press_of(#[trigger] keys[i]) by {
            if i < less.len() {
                assert(less[i] == keys[i]);
                assert(after.waiting[m.waiting.len() + i] == before.waiting[m.waiting.len() + i]);
            }
        }
        assert forall|code: u16| #[trigger] after.pressed.contains(code) <==> keys.contains(code as u32) by {
            if less.contains(code as u32) {
                let k = choose|k: int| 0 <= k < less.len() && less[k] == code as u32;
                assert(keys[k] == code as u32);
            }
            if keys.contains(code as u32) && code as u32 != key {
                let k = choose|k: int| 0 <= k < keys.len() && keys[k] == code as u32;
                assert(less[k] == code as u32);
            }
        }
    }
}

/// Capturing the keyboard last starts the stream: what waited, then the keys that are held.
pub proof fn lemma_capturing_the_keyboard(keys: Vec<u32>)
    requires
        forall|i: int| 0 <= i < keys@.len() ==> 1 <= #[trigger] keys@[i] <= 255,
        keys@.no_duplicates(),
    ensures
        forall|c: &mut Capture, r: Vec<Event>|
            (#[trigger] call_ensures(Capture::keyboard_enter, (c, &keys, true), r)) && underway((*c)@) && (
            *c)@.pressed == Set::<u16>::empty() && (*c)@.waiting.len() + keys@.len() <= 128 ==> {
                let m = (*c)@;
                let n = m.waiting.len();
                let now = m.counts.pointer_lock_observed && m.counts.shortcuts_inhibited_observed;
                &&& (*final(c))@.counts.keyboard_focus_observed
                &&& now ==> {
                    &&& r@.len() == n + keys@.len() + 2
                    &&& r@[0] matches Event::Started { edge, fraction } && Some(edge) == m.selected
                        && fraction == m.start_fraction
                    &&& forall|i: int|
                        0 <= i < n ==> (r@[i + 1] matches Event::Input(e) && e == #[trigger] m.waiting[i])
                    &&& forall|i: int|
                        0 <= i < keys@.len() ==> r@[n + i + 1] == Event::Input(press_of(#[trigger] keys@[i]))
                    &&& r@[r@.len() - 1] is Ready
                    &&& hands_on((*final(c))@)
                }
                &&& !now ==> r@.len() == 0 && (*final(c))@.waiting.len() == n + keys@.len()
            },
{
    assert forall|c: &mut Capture, r: Vec<Event>|
        (#[trigger] call_ensures(Capture::keyboard_enter, (c, &keys, true), r)) && underway((*c)@) && (
        *c)@.pressed == Set::<u16>::empty() && (*c)@.waiting.len() + keys@.len() <= 128 implies {
        let m = (*c)@;
        let n = m.waiting.len();
        let now = m.counts.pointer_lock_observed && m.counts.shortcuts_inhibited_observed;
        &&& (*final(c))@.counts.keyboard_focus_observed
        &&& now ==> {
            &&& r@.len() == n + keys@.len() + 2
            &&& r@[0] matches Event::Started { edge, fraction } && Some(edge) == m.selected && fraction
                == m.start_fraction
            &&& forall|i: int|
                0 <= i < n ==> (r@[i + 1] matches Event::Input(e) && e == #[trigger] m.waiting[i])
            &&& forall|i: int|
                0 <= i < keys@.len() ==> r@[n + i + 1] == Event::Input(press_of(#[trigger] keys@[i]))
            &&& r@[r@.len() - 1] is Ready
            &&& hands_on((*final(c))@)
        }
        &&& !now ==> r@.len() == 0 && (*final(c))@.waiting.len() == n + keys@.len()
    } by {
        let m = (*c)@;
        let focused = CaptureModel {
            counts: crate::capture_probe::Counts { keyboard_focus_observed: true, ..m.counts },
            ..m
        };
        lemma_keys_held_at_the_start_are_kept(focused, keys@);
        let kept = focused.press_all(keys@).0;
        let n = m.waiting.len() as int;
        assert(focused.press_all(keys@).1 =~= Seq::<Event>::empty());
        assert(r@ =~= kept.report_ready().1);
        if kept.complete() {
            assert forall|i: int| 0 <= i < n implies (r@[i + 1] matches Event::Input(e) && e
                == #[trigger] m.waiting[i]) by {
                assert(kept.waiting[i] == focused.waiting[i]);
            }
            assert forall|i: int| 0 <= i < keys@.len() implies r@[n + i + 1] == Event::Input(
                press_of(#[trigger] keys@[i]),
            ) by {
                assert(kept.waiting[n + i] == press_of(keys@[i]));
                assert(r@[n + i + 1] == Event::Input(kept.waiting[n + i]));
            }
        }
    }
}

/// Every motion, button, scrolling and key of a capture is counted, once, and only there.
pub proof fn lemma_events_are_counted(dx: Binary64, dy: Binary64, axis: Axis, button: u32, key: u32, pressed: bool)
    ensures
        forall|c: &mut Capture, r: Vec<Event>|
            (#[trigger] call_ensures(Capture::motion, (c, dx, dy), r)) && (*c)@.requested && (
            *c)@.counts.relative_motion_events < 1_000_000 ==> (*final(c))@.counts.relative_motion_events
                == (*c)@.counts.relative_motion_events + 1 && (*final(c))@.counts.button_events
                == (*c)@.counts.button_events && (*final(c))@.counts.scroll_events
                == (*c)@.counts.scroll_events && (*final(c))@.counts.keyboard_events
                == (*c)@.counts.keyboard_events,
        forall|c: &mut Capture, r: Vec<Event>|
            (#[trigger] call_ensures(Capture::button, (c, button, pressed), r)) && (*c)@.requested && (
            *c)@.counts.button_events < 1_000_000 ==> (*final(c))@.counts.button_events
                == (*c)@.counts.button_events + 1 && (*final(c))@.counts.relative_motion_events
                == (*c)@.counts.relative_motion_events,
        forall|c: &mut Capture, r: Vec<Event>|
            (#[trigger] call_ensures(Capture::scroll, (c, axis, dx), r)) && (*c)@.requested && (
            *c)@.counts.scroll_events < 1_000_000 ==> (*final(c))@.counts.scroll_events
                == (*c)@.counts.scroll_events + 1 && (*final(c))@.counts.button_events
                == (*c)@.counts.button_events,
        forall|c: &mut Capture, r: Vec<Event>|
            (#[trigger] call_ensures(Capture::key, (c, key, pressed), r)) && (*c)@.requested && (
            *c)@.counts.keyboard_events < 1_000_000 ==> (*final(c))@.counts.keyboard_events
                == (*c)@.counts.keyboard_events + 1 && (*final(c))@.counts.scroll_events
                == (*c)@.counts.scroll_events,
{
}

/// A new capture has captured nothing, waits for nothing and is not over.
pub proof fn lemma_a_new_capture(streaming: bool, strips: Vec<crate::capture_probe::Strip>, r: Capture)
    requires
        call_ensures(Capture::new, (streaming, strips), r),
    ensures
        !r.finished && !r.requested && !r.ready_reported,
        r.streaming == streaming,
        r.selected is None,
        r.strips@ == strips@,
        r.pending_inputs@.len() == 0,
        forall|code: u16| !#[trigger] r.pressed_keys@.contains(code),
        r.counts.stop_reason is None,
        r.counts.keyboard_events == 0 && r.counts.button_events == 0 && r.counts.scroll_events == 0
            && r.counts.relative_motion_events == 0,
        !r.counts.pointer_lock_observed && !r.counts.keyboard_focus_observed
            && !r.counts.shortcuts_inhibited_observed,
{
}

} // verus!
