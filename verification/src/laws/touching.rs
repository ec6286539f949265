//! What native touchpads do: what is collected, forwarded, mirrored and carried over.
use crate::error::Error;
use crate::touchpad::clock::RemoteClock;
use crate::touchpad::router::{RawEvent, Router, Sampled};
use crate::touchpad::state::{AxisReading, DeviceReading, TouchModel, TouchState};
use crate::touchpad::virtual_pad::{Emission, VirtualTouchpad};
use crate::touchpad::{AxisInfo, CapturedFrame, Descriptor, Event, KernelEvent, Kind};
use vstd::prelude::*;

verus! {

/// The buttons and finger keys of a touchpad.
pub open spec fn pad_key(code: u16) -> bool {
    code == 272 || code == 273 || code == 274 || code == 325 || code == 328 || code == 330 || code
        == 333 || code == 334 || code == 335
}

/// The axes of a touchpad: two for the pointer, pressure and width, and those of contacts.
pub open spec fn pad_axis(code: u16) -> bool {
    code == 0 || code == 1 || code == 24 || code == 28 || 47 <= code <= 61
}

/// The codes are told from others.
pub proof fn lemma_which_codes_are_a_touchpads(code: u16)
    ensures
        forall|r: bool|
            (#[trigger] call_ensures(crate::touchpad::touch_key, (code,), r)) ==> r == pad_key(code),
        forall|r: bool|
            (#[trigger] call_ensures(crate::touchpad::touch_axis, (code,), r)) ==> r == pad_axis(code),
{
}

/// A router whose touchpad at an index was taken over.
pub open spec fn ready(router: Router, index: usize) -> bool {
    router.wf() && index < router.pads@.len() && router.pads@[index as int].grabbed
}

/// Nothing was refused, and nothing is to be mirrored.
pub open spec fn quiet(r: Result<Sampled, Error>) -> bool {
    r is Ok && (r->Ok_0).mirror is None
}

/// One value was added to the frame of a touchpad, and nothing else has changed.
pub open spec fn adds(before: Router, index: usize, after: Router, kind: Kind, code: u16, value: i32) -> bool {
    let frame = before.pads@[index as int].frame@;
    let longer = after.pads@[index as int].frame@;
    &&& longer.len() == frame.len() + 1
    &&& longer.drop_last() == frame
    &&& longer.last().kind == kind
    &&& longer.last().code == code
    &&& longer.last().value == value
    &&& after.pads@[index as int].state@ == before.pads@[index as int].state@
    &&& after.pending@ == before.pending@
    &&& after.remote == before.remote
    &&& after.pads@.len() == before.pads@.len()
}

/// Going down and coming up of every key of a touchpad is collected, each as what it is; and so is
/// every value of an axis. All of that counts as use of the touchpad.
pub proof fn lemma_every_value_is_collected(index: usize, code: u16, value: i32, time_us: u64, now: u64)
    ensures
        forall|router: &mut Router, r: Result<Sampled, Error>|
            (#[trigger] call_ensures(
                Router::sample,
                (router, index, (RawEvent { event_type: 1, code, value, time_us }), now),
                r,
            )) && room(*router, index) ==> {
                &&& pad_key(code) && (value == 0 || value == 1) ==> quiet(r) && (r->Ok_0).active && adds(
                    *router,
                    index,
                    *final(router),
                    Kind::Key,
                    code,
                    value,
                )
                &&& !pad_key(code) || value == 2 ==> quiet(r) && (
                *final(router)).pads@[index as int].frame@ == (*router).pads@[index as int].frame@
            },
        forall|router: &mut Router, r: Result<Sampled, Error>|
            (#[trigger] call_ensures(
                Router::sample,
                (router, index, (RawEvent { event_type: 3, code, value, time_us }), now),
                r,
            )) && room(*router, index) && pad_axis(code) ==> quiet(r) && (r->Ok_0).active && adds(
                *router,
                index,
                *final(router),
                Kind::Absolute,
                code,
                value,
            ),
{
    assert forall|frame: Seq<Event>, e: Event| (#[trigger] frame.push(e)).drop_last() == frame by {
        assert(frame.push(e).drop_last() =~= frame);
    }
}

/// A touchpad that was taken over, with room in its frame.
pub open spec fn room(router: Router, index: usize) -> bool {
    ready(router, index) && router.pads@[index as int].frame@.len() < 512
}

/// A touchpad that was taken over, with a frame that it can send, and room to forward it.
pub open spec fn complete(router: Router, index: usize) -> bool {
    &&& ready(router, index)
    &&& router.pending@.len() < 128
    &&& router.pads@[index as int].frame@.len() > 0
    &&& router.pads@[index as int].descriptor.frame_valid(router.pads@[index as int].frame@)
}

/// The frame of a touchpad was forwarded: the whole frame, once, behind what waits already, with
/// its time and the touchpad that it came from.
pub open spec fn forwarded(before: Router, index: usize, time_us: u64, after: Router) -> bool {
    &&& after.pending@.len() == before.pending@.len() + 1
    &&& after.pending@.last().0 == index
    &&& after.pending@.last().1 == time_us
    &&& after.pending@.last().2@ == before.pads@[index as int].frame@
    &&& forall|i: int|
        0 <= i < before.pending@.len() ==> (#[trigger] after.pending@[i]).0 == before.pending@[i].0
            && after.pending@[i].1 == before.pending@[i].1 && after.pending@[i].2@
            == before.pending@[i].2@
}

/// The frame of a touchpad is over, and its keys are as the frame says.
pub open spec fn over(before: Router, index: usize, after: Router) -> bool {
    &&& after.pads@.len() == before.pads@.len()
    &&& after.pads@[index as int].frame@.len() == 0
    &&& after.pads@[index as int].grabbed
    &&& after.pads@[index as int].descriptor == before.pads@[index as int].descriptor
    &&& after.remote == before.remote
    &&& forall|code: u16| #[trigger]
        after.pads@[index as int].state@.keys.contains(code) <==> down(
            before.pads@[index as int].state@.keys.contains(code),
            before.pads@[index as int].frame@,
            code,
        )
}

/// The end of a frame forwards it while the other computer is in control. While this computer is in
/// control the same frame goes to the local mirror instead, if it is not too old.
pub proof fn lemma_a_finished_frame_goes_where_control_is(index: usize, time_us: u64, now: u64)
    ensures
        forall|router: &mut Router, r: Result<Sampled, Error>|
            (#[trigger] call_ensures(
                Router::sample,
                (router, index, (RawEvent { event_type: 0, code: 0, value: 0, time_us }), now),
                r,
            )) && complete(*router, index) ==> {
                let pad = (*router).pads@[index as int];
                let timely = time_us <= now && now - time_us <= 200_000;
                &&& over(*router, index, *final(router))
                &&& (*router).remote ==> quiet(r) && forwarded(
                    *router,
                    index,
                    time_us,
                    *final(router),
                )
                &&& !(*router).remote ==> (*final(router)).pending@ == (*router).pending@
                &&& !(*router).remote && timely ==> {
                    &&& r is Ok
                    &&& (r->Ok_0).mirror is Some
                    &&& ((r->Ok_0).mirror->0).frame@ == pad.frame@
                    &&& carries(
                        ((r->Ok_0).mirror->0).emission,
                        pad.frame@,
                        time_us,
                        pad.mirror.last_time,
                        now,
                    )
                }
                &&& !(*router).remote && !timely ==> r is Err
            },
{
    assert forall|d: Descriptor, frame: Seq<Event>| #[trigger] d.frame_valid(frame) implies d.frame_refusal(
        frame,
    ) is None by {
        lemma_valid_is_not_refused(d, frame);
    }
    assert forall|m: TouchModel, frame: Seq<Event>, code: u16| #[trigger] m.apply(frame).keys.contains(
        code,
    ) <==> down(m.keys.contains(code), frame, code) by {
        lemma_keys_after(m, frame, code);
    }
    assert forall|router: &mut Router, r: Result<Sampled, Error>|
        (#[trigger] call_ensures(
            Router::sample,
            (router, index, (RawEvent { event_type: 0, code: 0, value: 0, time_us }), now),
            r,
        )) && complete(*router, index) && (*router).remote implies forwarded(
        *router,
        index,
        time_us,
        *final(router),
    ) by {
        let before = (*router).pending@;
        let after = (*final(router)).pending@;
        let views = crate::touchpad::router::frame_views(before);
        let longer = crate::touchpad::router::frame_views(after);
        assert(longer.len() == after.len() && views.len() == before.len());
        assert(longer == views.push((index as u8, time_us, (*router).pads@[index as int].frame@)));
        assert(longer[views.len() as int] == crate::touchpad::router::frame_view(
            after[views.len() as int],
        ));
        assert forall|i: int| 0 <= i < before.len() implies (#[trigger] after[i]).0 == before[i].0
            && after[i].1 == before[i].1 && after[i].2@ == before[i].2@ by {
            assert(longer[i] == views[i]);
            assert(views[i] == crate::touchpad::router::frame_view(before[i]));
            assert(longer[i] == crate::touchpad::router::frame_view(after[i]));
        }
    }
}

/// The records for a device carry the values of a frame one by one, all at one time: that of the
/// frame, but never before an earlier one and never after now.
pub open spec fn carries(emission: Emission, frame: Seq<Event>, time_us: u64, last: u64, now: u64) -> bool {
    &&& emission.records@.len() == frame.len()
    &&& emission.time_us <= now
    &&& last <= now ==> emission.time_us >= last
    &&& last <= time_us <= now ==> emission.time_us == time_us
    &&& forall|i: int|
        0 <= i < frame.len() ==> record_of(
            #[trigger] emission.records@[i],
            frame[i],
            emission.time_us,
        )
}

pub open spec fn record_of(record: KernelEvent, event: Event, time_us: u64) -> bool {
    &&& record.code == event.code
    &&& record.value == event.value
    &&& event.kind is Key ==> record.event_type == 1
    &&& event.kind is Absolute ==> record.event_type == 3
    &&& record.microseconds < 1_000_000
    &&& record.seconds * 1_000_000 + record.microseconds == time_us
}

/// Whether a key is down after a frame: as the last value of it says, or as before.
pub open spec fn down(before: bool, frame: Seq<Event>, code: u16) -> bool
    decreases frame.len(),
{
    if frame.len() == 0 {
        before
    } else if frame.last().kind is Key && frame.last().code == code {
        frame.last().value != 0
    } else {
        down(before, frame.drop_last(), code)
    }
}

proof fn lemma_keys_after(m: TouchModel, frame: Seq<Event>, code: u16)
    ensures
        m.apply(frame).keys.contains(code) <==> down(m.keys.contains(code), frame, code),
    decreases frame.len(),
{
    if frame.len() > 0 {
        lemma_keys_after(m, frame.drop_last(), code);
    }
}

proof fn lemma_valid_is_not_refused(d: Descriptor, frame: Seq<Event>)
    requires
        d.frame_valid(frame),
    ensures
        d.frame_refusal(frame) is None,
{
    lemma_no_event_problem(d, frame);
}

proof fn lemma_no_event_problem(d: Descriptor, frame: Seq<Event>)
    requires
        forall|i: int| 0 <= i < frame.len() ==> d.event_problem(#[trigger] frame[i]) is None,
    ensures
        d.first_event_problem(frame) is None,
    decreases frame.len(),
{
    if frame.len() > 0 {
        let rest = frame.drop_first();
        assert forall|i: int| 0 <= i < rest.len() implies d.event_problem(#[trigger] rest[i]) is None by {
            assert(rest[i] == frame[i + 1]);
        }
        lemma_no_event_problem(d, rest);
    }
}

/// After a key was pressed, its frame ended, the key let go and its frame ended, it is not down any
/// more: neither here nor where the forwarded frames arrive. In between it is down in both places.
pub proof fn lemma_what_is_pressed_and_let_go_is_up(
    start: Router,
    pressed: Router,
    first: Router,
    released: Router,
    last: Router,
    index: usize,
    code: u16,
    time_us: u64,
    now: u64,
    far: TouchModel,
)
    requires
        ready(start, index),
        start.remote,
        start.pending@.len() < 120,
        start.pads@[index as int].frame@.len() == 0,
        pad_key(code),
        start.pads@[index as int].descriptor.keys@.contains(code),
        pressed.wf(),
        first.wf(),
        released.wf(),
        exists|router: &mut Router, r: Result<Sampled, Error>|
            *router == start && *final(router) == pressed && #[trigger] call_ensures(
                Router::sample,
                (router, index, (RawEvent { event_type: 1, code, value: 1, time_us }), now),
                r,
            ),
        exists|router: &mut Router, r: Result<Sampled, Error>|
            *router == pressed && *final(router) == first && #[trigger] call_ensures(
                Router::sample,
                (router, index, (RawEvent { event_type: 0, code: 0, value: 0, time_us }), now),
                r,
            ),
        exists|router: &mut Router, r: Result<Sampled, Error>|
            *router == first && *final(router) == released && #[trigger] call_ensures(
                Router::sample,
                (router, index, (RawEvent { event_type: 1, code, value: 0, time_us }), now),
                r,
            ),
        exists|router: &mut Router, r: Result<Sampled, Error>|
            *router == released && *final(router) == last && #[trigger] call_ensures(
                Router::sample,
                (router, index, (RawEvent { event_type: 0, code: 0, value: 0, time_us }), now),
                r,
            ),
    ensures
        first.pads@[index as int].state@.keys.contains(code),
        !last.pads@[index as int].state@.keys.contains(code),
        last.pending@.len() == start.pending@.len() + 2,
        far.apply(last.pending@[start.pending@.len() as int].2@).keys.contains(code),
        !far.apply(last.pending@[start.pending@.len() as int].2@).apply(
            last.pending@[start.pending@.len() as int + 1].2@,
        ).keys.contains(code),
{
    let d = start.pads@[index as int].descriptor;
    lemma_every_value_is_collected(index, code, 1, time_us, now);
    lemma_every_value_is_collected(index, code, 0, time_us, now);
    lemma_a_finished_frame_goes_where_control_is(index, time_us, now);
    assert(adds(start, index, pressed, Kind::Key, code, 1));
    let frame = pressed.pads@[index as int].frame@;
    assert(pressed.pads@[index as int].descriptor == d && pressed.pads@[index as int].grabbed);
    assert(frame =~= seq![Event::key(code, 1)]);
    assert(d.frame_valid(frame));
    assert(complete(pressed, index));
    assert(over(pressed, index, first) && forwarded(pressed, index, time_us, first));
    assert(down(pressed.pads@[index as int].state@.keys.contains(code), frame, code));
    assert(adds(first, index, released, Kind::Key, code, 0));
    let second = released.pads@[index as int].frame@;
    assert(second =~= seq![Event::key(code, 0)]);
    assert(released.pads@[index as int].descriptor == d && released.pads@[index as int].grabbed);
    assert(d.frame_valid(second));
    assert(complete(released, index));
    assert(over(released, index, last) && forwarded(released, index, time_us, last));
    assert(!down(released.pads@[index as int].state@.keys.contains(code), second, code));
    let n = start.pending@.len() as int;
    assert(first.pending@[n].2@ == frame);
    assert(last.pending@[n].2@ == frame);
    assert(last.pending@[n + 1].2@ == second);
    lemma_keys_after(far, frame, code);
    assert(down(far.keys.contains(code), frame, code));
    lemma_keys_after(far.apply(frame), second, code);
    assert(!down(far.apply(frame).keys.contains(code), second, code));
}

/// One value does one thing: a key goes down or up; the selection of a contact changes; a value of
/// the selected contact, or of the whole touchpad, is the new one. Everything else stays.
pub proof fn lemma_one_value_does_one_thing(m: TouchModel, event: Event)
    requires
        m.wf(),
    ensures
        ({
            let after = m.apply(seq![event]);
            let contact = event.kind is Absolute && event.code > 47;
            let selects = event.kind is Absolute && event.code == 47;
            &&& forall|code: u16| #[trigger]
                after.keys.contains(code) <==> if event.kind is Key && code == event.code {
                    event.value != 0
                } else {
                    m.keys.contains(code)
                }
            &&& selects ==> after.slot == event.value
            &&& !selects ==> after.slot == m.slot
            &&& after.contacts.len() == m.contacts.len()
            &&& contact ==> after.contacts[m.slot].contains_key(event.code)
                && after.contacts[m.slot][event.code] == event.value
            &&& forall|i: int, code: u16|
                0 <= i < m.contacts.len() && !(contact && i == m.slot && code == event.code) ==> (
                #[trigger] after.contacts[i].contains_key(code) == m.contacts[i].contains_key(code))
                    && after.contacts[i][code] == m.contacts[i][code]
            &&& event.kind is Absolute && event.code < 47 ==> after.axes.contains_key(event.code)
                && after.axes[event.code] == event.value
            &&& forall|code: u16|
                !(event.kind is Absolute && event.code < 47 && code == event.code) ==> (
                #[trigger] after.axes.contains_key(code) == m.axes.contains_key(code))
                    && after.axes[code] == m.axes[code]
        }),
{
    assert(seq![event].drop_last() =~= Seq::<Event>::empty());
    assert(m.apply(Seq::<Event>::empty()) == m);
    assert(m.apply(seq![event]) == m.step(event));
}

/// A snapshot, replayed on an untouched touchpad, brings back what was there: every key, every
/// axis, the selected contact, and every contact that touches; lifted contacts are lifted.
pub proof fn lemma_a_snapshot_brings_everything_back(d: Descriptor, m: TouchModel)
    requires
        d.valid(),
        crate::touchpad::laws::fits(d, m),
    ensures
        ({
            let there = crate::touchpad::state::untouched(d).apply(m.snapshot());
            &&& there.keys == m.keys
            &&& there.axes == m.axes
            &&& there.slot == m.slot
            &&& there.contacts.len() == m.contacts.len()
            &&& forall|i: int|
                0 <= i < m.contacts.len() && m.contacts[i].contains_key(57) && m.contacts[i][57] >= 0
                    ==> #[trigger] there.contacts[i] == m.contacts[i]
            &&& forall|i: int|
                0 <= i < m.contacts.len() && !(m.contacts[i].contains_key(57) && m.contacts[i][57]
                    >= 0) ==> (#[trigger] there.contacts[i]).contains_key(57)
                    && there.contacts[i][57] == -1
        }),
        d.frame_valid(m.snapshot()),
{
    crate::touchpad::laws::lemma_snapshot_replays(d, m);
    crate::touchpad::laws::lemma_snapshot_is_accepted(d, m);
}

/// An untouched touchpad holds no key, all its contacts are lifted, and its axes rest at their
/// smallest values.
pub proof fn lemma_untouched_means_nothing_is_down(d: Descriptor)
    requires
        d.valid(),
    ensures
        ({
            let m = crate::touchpad::state::untouched(d);
            &&& forall|code: u16| !#[trigger] m.keys.contains(code)
            &&& m.slot == 0
            &&& forall|i: int|
                0 <= i < m.contacts.len() ==> (#[trigger] m.contacts[i]).contains_key(57)
                    && m.contacts[i][57] == -1
            &&& forall|i: int|
                0 <= i < d.axes@.len() && (#[trigger] d.axes@[i]).code < 47 ==> m.axes.contains_key(
                    d.axes@[i].code,
                ) && m.axes[d.axes@[i].code] == d.axes@[i].minimum
            &&& forall|i: int|
                0 <= i < d.axes@.len() && (#[trigger] d.axes@[i]).code == 47 ==> m.contacts.len()
                    == d.axes@[i].maximum + 1
        }),
{
    lemma_resting(d.axes@);
    crate::touchpad::lemma_find_axis(d.axes@, 47);
    assert forall|i: int| 0 <= i < d.axes@.len() && (#[trigger] d.axes@[i]).code == 47 implies
        crate::touchpad::find_axis(d.axes@, 47) == Some(d.axes@[i]) by {
        let a = crate::touchpad::find_axis(d.axes@, 47)->0;
        let k = choose|k: int| 0 <= k < d.axes@.len() && d.axes@[k] == a;
        if k < i {
            assert(d.axes@[k].code != d.axes@[i].code);
        }
        if i < k {
            assert(d.axes@[i].code != d.axes@[k].code);
        }
    }
}

proof fn lemma_resting(axes: Seq<AxisInfo>)
    requires
        forall|i: int, j: int|
            0 <= i < j < axes.len() ==> (#[trigger] axes[i]).code != (#[trigger] axes[j]).code,
    ensures
        forall|i: int|
            0 <= i < axes.len() && (#[trigger] axes[i]).code < 47
                ==> crate::touchpad::state::resting_axes(axes).contains_key(axes[i].code)
                && crate::touchpad::state::resting_axes(axes)[axes[i].code] == axes[i].minimum,
    decreases axes.len(),
{
    if axes.len() > 0 {
        let less = axes.drop_last();
        assert forall|i: int, j: int| 0 <= i < j < less.len() implies (#[trigger] less[i]).code != (
        #[trigger] less[j]).code by {
            assert(less[i] == axes[i] && less[j] == axes[j]);
        }
        lemma_resting(less);
        assert forall|i: int| 0 <= i < axes.len() && (#[trigger] axes[i]).code < 47 implies
            crate::touchpad::state::resting_axes(axes).contains_key(axes[i].code)
            && crate::touchpad::state::resting_axes(axes)[axes[i].code] == axes[i].minimum by {
            if i < less.len() {
                assert(less[i] == axes[i]);
                assert(axes[i].code != axes[axes.len() - 1].code);
            }
        }
    }
}

/// Releasing what is down on a touchpad lets every key go and lifts every contact, and the touchpad
/// accepts it.
pub proof fn lemma_releases_let_everything_go(d: Descriptor, m: TouchModel)
    requires
        d.valid(),
        crate::touchpad::laws::fits(d, m),
    ensures
        ({
            let after = m.apply(m.releases());
            &&& forall|code: u16| !#[trigger] after.keys.contains(code)
            &&& after.contacts.len() == m.contacts.len()
            &&& forall|i: int|
                0 <= i < after.contacts.len() ==> !((#[trigger] after.contacts[i]).contains_key(57)
                    && after.contacts[i][57] >= 0)
        }),
        d.frame_valid(m.releases()),
{
    crate::touchpad::laws::lemma_releases_leave_idle(d, m);
    crate::touchpad::laws::lemma_releases_are_accepted(d, m);
    let after = m.apply(m.releases());
    crate::touchpad::laws::lemma_apply_fits(d, m, m.releases());
    assert forall|i: int| 0 <= i < after.contacts.len() implies !((
    #[trigger] after.contacts[i]).contains_key(57) && after.contacts[i][57] >= 0) by {
        assert(crate::touchpad::state::tracking(after.contacts[i]) < 0);
    }
}

/// A change of destination hands over the state of every touchpad that was taken over, in order,
/// and forgets what waited; staying with a destination hands nothing over.
pub proof fn lemma_a_new_destination_continues(before: Router, remote: bool, after: Router, r: Vec<(u8, Vec<Event>)>)
    requires
        before.wf(),
        exists|router: &mut Router|
            *router == before && *final(router) == after && #[trigger] call_ensures(
                Router::route,
                (router, remote),
                r,
            ),
    ensures
        after.remote == remote,
        after.pads == before.pads,
        before.remote == remote ==> r@.len() == 0 && after.pending == before.pending,
        before.remote != remote ==> {
            &&& after.pending@.len() == 0
            &&& forall|k: int|
                0 <= k < r@.len() ==> (#[trigger] r@[k]).0 < before.pads@.len()
                    && before.pads@[r@[k].0 as int].grabbed && r@[k].1@
                    == before.pads@[r@[k].0 as int].state@.snapshot()
            &&& forall|k: int, l: int| 0 <= k < l < r@.len() ==> (#[trigger] r@[k]).0 < (#[trigger] r@[l]).0
            &&& forall|i: int|
                0 <= i < before.pads@.len() && (#[trigger] before.pads@[i]).grabbed ==> exists|k: int|
                    0 <= k < r@.len() && (#[trigger] r@[k]).0 == i
        },
{
    if before.remote != remote {
        let views = r@.map_values(|s: (u8, Vec<Event>)| (s.0, s.1@));
        let list = before.snapshots(before.pads@.len());
        lemma_snapshots(before, before.pads@.len());
        assert(views == list);
        assert forall|k: int| 0 <= k < r@.len() implies (#[trigger] r@[k]).0 == list[k].0 && r@[k].1@
            == list[k].1 by {
            assert(views[k] == (r@[k].0, r@[k].1@));
        }
        assert(list.len() == r@.len());
        assert forall|i: int| 0 <= i < before.pads@.len() && (#[trigger] before.pads@[i]).grabbed implies exists|
            k: int,
        |
            0 <= k < r@.len() && (#[trigger] r@[k]).0 == i by {
            let k = choose|k: int| 0 <= k < list.len() && (#[trigger] list[k]).0 == i;
            assert(r@[k].0 == i);
        }
    }
}

proof fn lemma_snapshots(router: Router, count: nat)
    requires
        count <= router.pads@.len() <= 4,
    ensures
        ({
            let list = router.snapshots(count);
            &&& forall|k: int|
                0 <= k < list.len() ==> (#[trigger] list[k]).0 < count && router.pads@[list[k].0 as int].grabbed
                    && list[k].1 == router.pads@[list[k].0 as int].state@.snapshot()
            &&& forall|k: int, l: int|
                0 <= k < l < list.len() ==> (#[trigger] list[k]).0 < (#[trigger] list[l]).0
            &&& forall|i: int|
                0 <= i < count && (#[trigger] router.pads@[i]).grabbed ==> exists|k: int|
                    0 <= k < list.len() && (#[trigger] list[k]).0 == i
        }),
    decreases count,
{
    if count > 0 {
        lemma_snapshots(router, (count - 1) as nat);
        let before = router.snapshots((count - 1) as nat);
        let list = router.snapshots(count);
        assert forall|i: int| 0 <= i < count && (#[trigger] router.pads@[i]).grabbed implies exists|
            k: int,
        |
            0 <= k < list.len() && (#[trigger] list[k]).0 == i by {
            if i < count - 1 {
                let k = choose|k: int| 0 <= k < before.len() && (#[trigger] before[k]).0 == i;
                assert(list[k].0 == i);
            } else {
                assert(list[before.len() as int].0 == i);
            }
        }
    }
}

/// What waits is handed out once.
pub proof fn lemma_frames_are_handed_out_once()
    ensures
        forall|router: &mut Router, r: Vec<CapturedFrame>|
            (#[trigger] call_ensures(Router::drain, (router,), r)) ==> r@ == (*router).pending@ && (
            *final(router)).pending@.len() == 0 && (*final(router)).pads == (*router).pads && (
            *final(router)).remote == (*router).remote,
{
}

/// A device is taken over only with nothing down on it: no key or button, no contact. Then its state
/// is what it reports.
pub proof fn lemma_only_an_idle_device_is_taken_over(
    before: Router,
    index: usize,
    reading: DeviceReading,
    after: Router,
    r: Result<bool, Error>,
)
    requires
        before.wf(),
        index < before.pads@.len(),
        forall|i: int, j: int|
            0 <= i < j < reading.axes@.len() ==> (#[trigger] reading.axes@[i]).code != (
            #[trigger] reading.axes@[j]).code,
        exists|router: &mut Router|
            *router == before && *final(router) == after && #[trigger] call_ensures(
                Router::take_over,
                (router, index, &reading),
                r,
            ),
    ensures
        r == Ok::<bool, Error>(true) ==> {
            let state = after.pads@[index as int].state@;
            &&& after.pads@[index as int].grabbed
            &&& reading.keys@.len() == 0
            &&& forall|code: u16| !#[trigger] state.keys.contains(code)
            &&& forall|i: int|
                0 <= i < reading.axes@.len() && (#[trigger] reading.axes@[i]).code < 47
                    ==> state.axes.contains_key(reading.axes@[i].code)
                    && state.axes[reading.axes@[i].code] == reading.axes@[i].value
            &&& forall|i: int|
                0 <= i < reading.axes@.len() && (#[trigger] reading.axes@[i]).code == 47 ==> state.slot
                    == reading.axes@[i].value
            &&& forall|i: int, k: int|
                0 <= i < reading.axes@.len() && 0 <= k < state.contacts.len() && (
                #[trigger] reading.axes@[i]).code > 47 ==> (
                #[trigger] state.contacts[k]).contains_key(reading.axes@[i].code)
                    && state.contacts[k][reading.axes@[i].code] == reading.axes@[i].contacts@[k]
            &&& forall|i: int, k: int|
                0 <= i < reading.axes@.len() && 0 <= k < state.contacts.len() && (
                #[trigger] reading.axes@[i]).code == 57 ==> (
                #[trigger] reading.axes@[i].contacts@[k]) < 0
        },
        r != Ok::<bool, Error>(true) ==> after.pads@ == before.pads@,
        reading.keys@.len() > 0 ==> r != Ok::<bool, Error>(true),
        forall|j: int|
            0 <= j < before.pads@.len() && j != index ==> #[trigger] after.pads@[j] == before.pads@[j],
{
    if r == Ok::<bool, Error>(true) {
        let pad = before.pads@[index as int];
        let state = after.pads@[index as int].state@;
        let start = crate::touchpad::state::untouched(pad.descriptor);
        lemma_reading(start, reading.axes@);
        reveal(Seq::filter);
        assert(crate::touchpad::touch_keys(reading.keys@) =~= Seq::<u16>::empty());
        assert(state.contacts == start.read(reading.axes@).contacts);
        assert forall|i: int, k: int|
            0 <= i < reading.axes@.len() && 0 <= k < state.contacts.len() && (
            #[trigger] reading.axes@[i]).code == 57 implies (#[trigger] reading.axes@[i].contacts@[k])
            < 0 by {
            assert(crate::touchpad::state::tracking(state.contacts[k]) < 0);
            assert(state.contacts[k].contains_key(reading.axes@[i].code));
        }
    }
}

proof fn lemma_reading(m: TouchModel, axes: Seq<AxisReading>)
    requires
        forall|i: int, j: int|
            0 <= i < j < axes.len() ==> (#[trigger] axes[i]).code != (#[trigger] axes[j]).code,
    ensures
        ({
            let after = m.read(axes);
            &&& after.contacts.len() == m.contacts.len()
            &&& forall|i: int|
                0 <= i < axes.len() && (#[trigger] axes[i]).code < 47 ==> after.axes.contains_key(
                    axes[i].code,
                ) && after.axes[axes[i].code] == axes[i].value
            &&& forall|i: int|
                0 <= i < axes.len() && (#[trigger] axes[i]).code == 47 ==> after.slot == axes[i].value
            &&& forall|i: int, k: int|
                0 <= i < axes.len() && 0 <= k < m.contacts.len() && (#[trigger] axes[i]).code > 47 ==> (
                #[trigger] after.contacts[k]).contains_key(axes[i].code)
                    && after.contacts[k][axes[i].code] == axes[i].contacts@[k]
        }),
    decreases axes.len(),
{
    if axes.len() > 0 {
        let less = axes.drop_last();
        let last = axes[axes.len() - 1];
        assert forall|i: int| 0 <= i < less.len() implies #[trigger] less[i] == axes[i] by {}
        assert forall|i: int, j: int| 0 <= i < j < less.len() implies (#[trigger] less[i]).code != (
        #[trigger] less[j]).code by {
            assert(less[i] == axes[i] && less[j] == axes[j]);
        }
        lemma_reading(m, less);
        assert forall|i: int| 0 <= i < less.len() implies (#[trigger] axes[i]).code != last.code by {}
        let before = m.read(less);
        let after = m.read(axes);
        assert(after == before.read_step(last));
        assert forall|i: int| 0 <= i < axes.len() && (#[trigger] axes[i]).code < 47 implies
            after.axes.contains_key(axes[i].code) && after.axes[axes[i].code] == axes[i].value by {
            if i < less.len() {
                assert(less[i] == axes[i]);
            }
        }
        assert forall|i: int| 0 <= i < axes.len() && (#[trigger] axes[i]).code == 47 implies after.slot
            == axes[i].value by {
            if i < less.len() {
                assert(less[i] == axes[i]);
            }
        }
        assert forall|i: int, k: int|
            0 <= i < axes.len() && 0 <= k < m.contacts.len() && (#[trigger] axes[i]).code > 47 implies (
        #[trigger] after.contacts[k]).contains_key(axes[i].code)
            && after.contacts[k][axes[i].code] == axes[i].contacts@[k] by {
            if i < less.len() {
                assert(less[i] == axes[i]);
                assert(before.contacts[k].contains_key(less[i].code));
            }
        }
    }
}

/// A device is wanted while it is not taken over and nothing is down on it.
pub proof fn lemma_which_devices_are_wanted(index: usize, held: Vec<u16>)
    ensures
        forall|router: &Router, r: bool|
            (#[trigger] call_ensures(Router::wants_grab, (router, index, &held), r)) ==> (r <==> held@.len()
                == 0 && !router.pads@[index as int].grabbed),
        forall|queued: usize, r: Result<(), Error>|
            (#[trigger] call_ensures(Router::check_queue, (queued,), r)) ==> (r is Ok <==> queued <= 4096),
{
}

/// The records of a touchpad that was not taken over are left alone; lost records are an error.
pub proof fn lemma_other_records_are_left_alone(
    before: Router,
    index: usize,
    event: RawEvent,
    now: u64,
    after: Router,
    r: Result<Sampled, Error>,
)
    requires
        before.wf(),
        index < before.pads@.len(),
        exists|router: &mut Router|
            *router == before && *final(router) == after && #[trigger] call_ensures(
                Router::sample,
                (router, index, event, now),
                r,
            ),
    ensures
        !before.pads@[index as int].grabbed ==> quiet(r) && !(r->Ok_0).active && after.pads@
            == before.pads@ && after.pending == before.pending,
        before.pads@[index as int].grabbed && event.event_type == 0 && event.code == 3 ==> r is Err,
        before.pads@[index as int].grabbed && r is Ok ==> ((r->Ok_0).active <==> event.event_type == 1
            || event.event_type == 3),
        forall|j: int|
            0 <= j < before.pads@.len() && j != index ==> #[trigger] after.pads@[j] == before.pads@[j],
        after.remote == before.remote,
{
}

/// A mirror or a remote touchpad gets a frame that it can send and that is in time, value by value;
/// others are refused.
pub proof fn lemma_frames_are_emitted_as_they_are(pad: VirtualTouchpad, frame: Seq<Event>, time_us: u64, now: u64)
    requires
        pad.wf(),
    ensures
        forall|events: &[Event], r: Result<Emission, Error>|
            (#[trigger] call_ensures(VirtualTouchpad::emit_at, (&pad, events, time_us, now), r))
                && events@ == frame ==> {
                &&& r is Ok <==> pad.descriptor.frame_valid(frame) && time_us <= now && now - time_us
                    <= 200_000
                &&& r is Ok ==> carries(r->Ok_0, frame, time_us, pad.last_time, now)
            },
{
    if pad.descriptor.frame_valid(frame) {
        lemma_valid_is_not_refused(pad.descriptor, frame);
    }
}

/// What was emitted is remembered: the time, and the state that the values lead to.
pub proof fn lemma_what_was_emitted_is_remembered(frame: Seq<Event>, time_us: u64)
    ensures
        forall|pad: &mut VirtualTouchpad, events: &[Event], r: ()|
            (#[trigger] call_ensures(VirtualTouchpad::emitted, (pad, events, time_us), r)) && events@
                == frame ==> {
                &&& (*final(pad)).last_time == time_us
                &&& forall|code: u16| #[trigger]
                    (*final(pad)).state@.keys.contains(code) <==> down(
                        (*pad).state@.keys.contains(code),
                        frame,
                        code,
                    )
            },
        forall|pad: &mut VirtualTouchpad, r: ()|
            (#[trigger] call_ensures(VirtualTouchpad::reset, (pad,), r)) ==> {
                &&& (*final(pad)).remote_clock.offset is None
                &&& (*final(pad)).remote_clock.last == 0
                &&& forall|code: u16| !#[trigger] (*final(pad)).state@.keys.contains(code)
                &&& forall|i: int|
                    0 <= i < (*final(pad)).state@.contacts.len() ==> (
                    #[trigger] (*final(pad)).state@.contacts[i]).contains_key(57)
                        && (*final(pad)).state@.contacts[i][57] == -1
            },
{
    assert forall|m: TouchModel, code: u16| #[trigger] m.apply(frame).keys.contains(code) <==> down(
        m.keys.contains(code),
        frame,
        code,
    ) by {
        lemma_keys_after(m, frame, code);
    }
}

/// The first frame of another computer happens when it arrives; later ones keep their distance to
/// it as long as they are not early, never run backwards and never lie ahead of their arrival.
pub proof fn lemma_remote_times_keep_their_distance(source: u64, now: u64)
    requires
        1 <= now,
    ensures
        forall|clock: &mut RemoteClock, r: u64|
            (#[trigger] call_ensures(RemoteClock::map, (clock, source, now), r)) && (*clock).wf() ==> {
                let shift = (*clock).offset->0;
                &&& r <= now
                &&& (*clock).last <= now ==> r >= (*clock).last
                &&& (*clock).offset is None && (*clock).last <= now ==> r == now
                &&& (*clock).offset is Some && source + shift <= now && source + shift >= 1 && source
                    + shift >= (*clock).last ==> r == source + shift
                &&& (*clock).offset is Some && source + shift > now && (*clock).last <= now ==> r == now
                &&& (*final(clock)).last == r
                &&& (*final(clock)).offset is Some
                &&& source + (*final(clock)).offset->0 <= now
                &&& (*clock).offset is Some ==> (*final(clock)).offset->0 <= shift
                &&& (*clock).offset is Some && source + shift <= now ==> (*final(clock)).offset->0 == shift
            },
{
}

/// A touchpad can be shared exactly if it advertises what a touchpad needs, and only that.
pub proof fn lemma_which_touchpads_can_be_shared(d: Descriptor)
    ensures
        forall|r: Result<(), Error>|
            (#[trigger] call_ensures(Descriptor::validate, (&d,), r)) ==> (r is Ok <==> {
                &&& 2 <= d.keys@.len() <= 16
                &&& forall|i: int| 0 <= i < d.keys@.len() ==> pad_key(#[trigger] d.keys@[i])
                &&& forall|i: int, j: int| 0 <= i < j < d.keys@.len() ==> d.keys@[i] != d.keys@[j]
                &&& d.keys@.contains(330) && d.keys@.contains(325)
                &&& d.properties@.len() <= 5 && d.properties@.contains(0)
                &&& forall|i: int|
                    0 <= i < d.properties@.len() ==> ((#[trigger] d.properties@[i]) == 0
                        || d.properties@[i] == 2 || d.properties@[i] == 3 || d.properties@[i] == 4
                        || d.properties@[i] == 6)
                &&& 4 <= d.axes@.len() <= 20
                &&& forall|i: int| 0 <= i < d.axes@.len() ==> sound_axis(#[trigger] d.axes@[i])
                &&& forall|i: int, j: int|
                    0 <= i < j < d.axes@.len() ==> (#[trigger] d.axes@[i]).code != (
                    #[trigger] d.axes@[j]).code
                &&& advertises(d, 0) && advertises(d, 1) && advertises(d, 47) && advertises(d, 53)
                    && advertises(d, 54) && advertises(d, 57)
                &&& forall|i: int|
                    0 <= i < d.axes@.len() && (#[trigger] d.axes@[i]).code == 47 ==> d.axes@[i].minimum
                        == 0 && 0 <= d.axes@[i].maximum < 32
            }),
{
    crate::touchpad::lemma_find_axis(d.axes@, 47);
    if forall|i: int, j: int|
        0 <= i < j < d.axes@.len() ==> (#[trigger] d.axes@[i]).code != (#[trigger] d.axes@[j]).code {
        assert forall|i: int| 0 <= i < d.axes@.len() && (#[trigger] d.axes@[i]).code == 47 implies
            crate::touchpad::find_axis(d.axes@, 47) == Some(d.axes@[i]) by {
            let a = crate::touchpad::find_axis(d.axes@, 47)->0;
            let k = choose|k: int| 0 <= k < d.axes@.len() && d.axes@[k] == a;
            if k < i {
                assert(d.axes@[k].code != d.axes@[i].code);
            }
            if i < k {
                assert(d.axes@[i].code != d.axes@[k].code);
            }
        }
        if advertises(d, 47) {
            let i = choose|i: int| 0 <= i < d.axes@.len() && (#[trigger] d.axes@[i]).code == 47;
            assert(crate::touchpad::find_axis(d.axes@, 47) == Some(d.axes@[i]));
        }
    }
}

pub open spec fn sound_axis(axis: AxisInfo) -> bool {
    &&& pad_axis(axis.code)
    &&& -1_000_000 <= axis.minimum <= axis.maximum <= 1_000_000
    &&& 0 <= axis.fuzz <= 100_000
    &&& 0 <= axis.flat <= 100_000
    &&& 0 <= axis.resolution <= 100_000
}

pub open spec fn advertises(d: Descriptor, code: u16) -> bool {
    exists|i: int| 0 <= i < d.axes@.len() && (#[trigger] d.axes@[i]).code == code
}

/// A touchpad accepts exactly the frames of one to 512 values that it advertises: keys that go down
/// or up, and values within the limits of their axes; a contact may also be lifted.
pub proof fn lemma_which_frames_are_accepted(d: Descriptor, frame: Seq<Event>)
    requires
        d.valid(),
    ensures
        forall|events: &[Event], r: Result<(), Error>|
            (#[trigger] call_ensures(Descriptor::validate_frame, (&d, events), r)) && events@ == frame ==> (
            r is Ok <==> {
                &&& 1 <= frame.len() <= 512
                &&& forall|i: int|
                    0 <= i < frame.len() && (#[trigger] frame[i]).kind is Key ==> d.keys@.contains(
                        frame[i].code,
                    ) && (frame[i].value == 0 || frame[i].value == 1)
                &&& forall|i: int|
                    0 <= i < frame.len() && (#[trigger] frame[i]).kind is Absolute ==> sent_by_axis(
                        d,
                        frame[i],
                    )
            }),
{
    assert forall|e: Event| e.kind is Absolute implies #[trigger] sent_by_axis(d, e) == (d.event_problem(
        e,
    ) is None) by {
        crate::touchpad::lemma_find_axis(d.axes@, e.code);
        if sent_by_axis(d, e) {
            let i = choose|i: int|
                0 <= i < d.axes@.len() && (#[trigger] d.axes@[i]).code == e.code && (
                d.axes@[i].minimum <= e.value <= d.axes@[i].maximum || (e.code == 57 && e.value == -1));
            let a = crate::touchpad::find_axis(d.axes@, e.code)->0;
            let k = choose|k: int| 0 <= k < d.axes@.len() && d.axes@[k] == a;
            if k < i {
                assert(d.axes@[k].code != d.axes@[i].code);
            }
            if i < k {
                assert(d.axes@[i].code != d.axes@[k].code);
            }
        }
    }
    assert forall|i: int| 0 <= i < frame.len() && (forall|k: int|
        0 <= k < frame.len() && (#[trigger] frame[k]).kind is Key ==> d.keys@.contains(frame[k].code) && (
        frame[k].value == 0 || frame[k].value == 1)) && (forall|k: int|
        0 <= k < frame.len() && (#[trigger] frame[k]).kind is Absolute ==> sent_by_axis(d, frame[k])) implies (
    #[trigger] frame[i]).plausible() && d.event_problem(frame[i]) is None by {
        let e = frame[i];
        if e.kind is Key {
            let k = choose|k: int| 0 <= k < d.keys@.len() && d.keys@[k] == e.code;
            assert(crate::touchpad::is_touch_key(d.keys@[k]));
        } else {
            crate::touchpad::lemma_find_axis(d.axes@, e.code);
            let a = crate::touchpad::find_axis(d.axes@, e.code)->0;
            let k = choose|k: int| 0 <= k < d.axes@.len() && d.axes@[k] == a;
            assert(crate::touchpad::is_touch_axis(d.axes@[k].code));
        }
    }
    if d.frame_valid(frame) {
        assert forall|i: int| 0 <= i < frame.len() && (#[trigger] frame[i]).kind is Absolute implies
            sent_by_axis(d, frame[i]) by {
            assert(d.event_problem(frame[i]) is None);
        }
    }
}

pub open spec fn sent_by_axis(d: Descriptor, e: Event) -> bool {
    exists|i: int|
        0 <= i < d.axes@.len() && (#[trigger] d.axes@[i]).code == e.code && (d.axes@[i].minimum
            <= e.value <= d.axes@[i].maximum || (e.code == 57 && e.value == -1))
}

/// A frame of another computer is emitted as it is, at its time on this computer: at its arrival for
/// the first one, later as far from it as it was sent. It is refused where the frame makes no sense
/// or is late, and neither the state nor the last time changes before it was written.
pub proof fn lemma_remote_frames_are_emitted(frame: Seq<Event>, source: u64, arrival: u64, now: u64)
    requires
        1 <= arrival,
    ensures
        forall|pad: &mut VirtualTouchpad, events: &[Event], r: Result<Emission, Error>|
            (#[trigger] call_ensures(VirtualTouchpad::emit_remote, (pad, events, source, arrival, now), r))
                && events@ == frame && (*pad).wf() ==> {
                let clock = (*pad).remote_clock;
                let shift = clock.offset->0;
                let local = (*final(pad)).remote_clock.last;
                &&& local <= arrival
                &&& clock.offset is None && clock.last <= arrival ==> local == arrival
                &&& clock.offset is Some && 1 <= source + shift <= arrival && clock.last <= source + shift
                    ==> local == source + shift
                &&& r is Ok <==> (*pad).descriptor.frame_valid(frame) && local <= now && now - local
                    <= 200_000
                &&& r is Ok ==> carries(r->Ok_0, frame, local, (*pad).last_time, now)
                &&& (*final(pad)).state == (*pad).state
                &&& (*final(pad)).last_time == (*pad).last_time
            },
{
    assert forall|d: Descriptor| #[trigger] d.frame_valid(frame) implies d.frame_refusal(frame) is None by {
        lemma_valid_is_not_refused(d, frame);
    }
}

/// What was emitted from a physical touchpad changes its mirror alone: the time, and the keys as the
/// last value of each says. A reset mirror is untouched and has forgotten the clock.
pub proof fn lemma_mirrors_follow(index: usize, frame: Seq<Event>, time_us: u64)
    ensures
        forall|router: &mut Router, events: &[Event], r: ()|
            (#[trigger] call_ensures(Router::mirrored, (router, index, events, time_us), r)) && events@
                == frame && index < (*router).pads@.len() ==> {
                let b = (*router).pads@[index as int];
                let a = (*final(router)).pads@[index as int];
                &&& (*final(router)).pads@.len() == (*router).pads@.len()
                &&& (*final(router)).remote == (*router).remote
                &&& forall|i: int|
                    0 <= i < (*router).pads@.len() && i != index ==> #[trigger] (*final(router)).pads@[i]
                        == (*router).pads@[i]
                &&& a.state == b.state && a.grabbed == b.grabbed && a.frame == b.frame
                &&& a.mirror.last_time == time_us
                &&& forall|code: u16| #[trigger]
                    a.mirror.state@.keys.contains(code) <==> down(
                        b.mirror.state@.keys.contains(code),
                        frame,
                        code,
                    )
            },
        forall|router: &mut Router, r: ()|
            (#[trigger] call_ensures(Router::mirror_reset, (router, index), r)) && index < (
            *router).pads@.len() ==> {
                let b = (*router).pads@[index as int];
                let a = (*final(router)).pads@[index as int];
                &&& forall|i: int|
                    0 <= i < (*router).pads@.len() && i != index ==> #[trigger] (*final(router)).pads@[i]
                        == (*router).pads@[i]
                &&& a.state == b.state && a.grabbed == b.grabbed
                &&& a.mirror.remote_clock.offset is None
                &&& forall|code: u16| !#[trigger] a.mirror.state@.keys.contains(code)
            },
        forall|router: &Router, r: Vec<Descriptor>|
            (#[trigger] call_ensures(Router::descriptors, (router,), r)) ==> r@.len() == router.pads@.len()
                && forall|i: int|
                0 <= i < r@.len() ==> (#[trigger] r@[i]).keys@ == router.pads@[i].descriptor.keys@
                    && r@[i].properties@ == router.pads@[i].descriptor.properties@ && r@[i].axes@
                    == router.pads@[i].descriptor.axes@,
{
    assert forall|m: TouchModel, code: u16| #[trigger] m.apply(frame).keys.contains(code) <==> down(
        m.keys.contains(code),
        frame,
        code,
    ) by {
        lemma_keys_after(m, frame, code);
    }
}

/// A virtual touchpad advertises the axes of its descriptor; each starts at its smallest value, and
/// contacts are absent.
pub proof fn lemma_how_axes_start(descriptor: Descriptor, r: Vec<crate::touchpad::virtual_pad::AxisSetup>)
    requires
        call_ensures(VirtualTouchpad::axis_setup, (&descriptor,), r),
    ensures
        r@.len() == descriptor.axes@.len(),
        forall|i: int| 0 <= i < r@.len() ==> (#[trigger] r@[i]).axis == descriptor.axes@[i],
        forall|i: int|
            0 <= i < r@.len() ==> ((#[trigger] r@[i]).axis.code == 57 ==> r@[i].value == -1) && (
            r@[i].axis.code != 57 ==> r@[i].value == r@[i].axis.minimum),
{
}

/// Nothing touches a touchpad exactly if its touch key is up and none of its contacts is tracked.
pub proof fn lemma_when_a_touchpad_is_idle(state: TouchState, r: bool)
    requires
        call_ensures(TouchState::idle, (&state,), r),
    ensures
        r <==> !state@.keys.contains(330) && forall|i: int|
            0 <= i < state@.contacts.len() ==> (#[trigger] state@.contacts[i]).contains_key(57)
                ==> state@.contacts[i][57] < 0,
{
    assert forall|i: int| 0 <= i < state@.contacts.len() implies (crate::touchpad::state::tracking(
        #[trigger] state@.contacts[i],
    ) < 0 <==> (state@.contacts[i].contains_key(57) ==> state@.contacts[i][57] < 0)) by {}
}

} // verus!
