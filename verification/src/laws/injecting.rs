//! How the other computer's input takes effect here, and how everything is released again.
use crate::error::Error;
use crate::input::{ControlState, Mode, PhysicalKeys, StopEffects, StopReason};
use crate::pointer::{Backend, PointerRequest};
use crate::protocol::InputEvent;
use crate::receiver::{Call, InputSink, Receiver, Request};
use crate::uinput::KeyRecord;
use std::collections::BTreeSet;
use vstd::prelude::*;

verus! {

/// A pointer backend is asked for exactly what an event says: a button goes down or up, the pointer
/// moves by or to that position, and scrolling goes along that axis.
pub proof fn lemma_a_pointer_does_what_the_event_says(event: InputEvent, r: Result<PointerRequest, Error>)
    requires
        call_ensures(crate::pointer::pointer_request, (&event,), r),
        event.problem() is None,
    ensures
        match event {
            InputEvent::Button { code, pressed } => r is Ok && (r->Ok_0 matches PointerRequest::Button {
                code: c,
                pressed: p,
            } && c == code && p == pressed),
            InputEvent::Motion { dx, dy } => r is Ok && (r->Ok_0 matches PointerRequest::Motion {
                dx: x,
                dy: y,
            } && x == dx && y == dy),
            InputEvent::Absolute { x, y, width, height } => r is Ok && (
            r->Ok_0 matches PointerRequest::Absolute { x: a, y: b, width: w, height: h } && a == x && b
                == y && w == width && h == height),
            InputEvent::Scroll { axis, amount, source } => r is Ok && (
            r->Ok_0 matches PointerRequest::Scroll { axis: a, amount: n, source: s } && a == axis && n
                == amount && s == source),
            InputEvent::ScrollStop { axis, source } => r is Ok && (
            r->Ok_0 matches PointerRequest::ScrollStop { axis: a, source: s } && a == axis && s == source),
            InputEvent::Key { .. } => r is Err,
            InputEvent::Touchpad { .. } => r is Err,
        },
{
}

/// What a pointer backend is asked for tells the event apart from every other.
pub proof fn lemma_different_events_ask_for_different_things(
    a: InputEvent,
    b: InputEvent,
    ra: Result<PointerRequest, Error>,
    rb: Result<PointerRequest, Error>,
)
    requires
        call_ensures(crate::pointer::pointer_request, (&a,), ra),
        call_ensures(crate::pointer::pointer_request, (&b,), rb),
        ra is Ok,
        rb is Ok,
        ra->Ok_0 == rb->Ok_0,
    ensures
        a == b,
{
}

/// A refused event is asked of no backend.
pub proof fn lemma_refused_events_reach_no_device(event: InputEvent)
    requires
        event.problem() is Some,
    ensures
        forall|r: Result<PointerRequest, Error>|
            (#[trigger] call_ensures(crate::pointer::pointer_request, (&event,), r)) ==> r is Err,
        forall|r: Result<KeyRecord, Error>|
            (#[trigger] call_ensures(crate::uinput::key_record, (&event,), r)) ==> r is Err,
{
}

/// The virtual keyboard presses and releases the very key; other events are not its own.
pub proof fn lemma_a_keyboard_does_what_the_event_says(event: InputEvent, r: Result<KeyRecord, Error>)
    requires
        call_ensures(crate::uinput::key_record, (&event,), r),
    ensures
        event matches InputEvent::Key { code, pressed } ==> (1 <= code <= 255 ==> r is Ok && (
        r->Ok_0).event_type == 1 && (r->Ok_0).code == code && ((r->Ok_0).value == 1 <==> pressed) && (
        (r->Ok_0).value == 0 <==> !pressed)),
        event matches InputEvent::Key { code, .. } ==> (!(1 <= code <= 255) ==> r is Err),
        !(event is Key) ==> r is Err,
{
}

/// Touch frames go to the touchpad that they name, if there is one, keys to the keyboard and the
/// rest to the pointer.
pub proof fn lemma_every_event_has_its_backend(event: InputEvent, touchpads: usize, r: Result<Backend, Error>)
    requires
        call_ensures(crate::pointer::backend_for, (&event, touchpads), r),
    ensures
        event matches InputEvent::Touchpad { device, .. } ==> (if device < touchpads {
            r is Ok && (r->Ok_0 matches Backend::Touchpad(i) && i == device)
        } else {
            r is Err
        }),
        event is Key ==> r is Ok && r->Ok_0 is Keyboard,
        !(event is Key) && !(event is Touchpad) ==> r is Ok && r->Ok_0 is Pointer,
{
}

/// Events are accepted within these limits, and no others.
pub proof fn lemma_which_events_are_accepted(event: InputEvent, r: Result<(), Error>)
    requires
        call_ensures(InputEvent::validate, (&event,), r),
    ensures
        r is Ok <==> match event {
            InputEvent::Key { code, .. } => 1 <= code <= 255,
            InputEvent::Button { code, .. } => 272 <= code <= 279,
            InputEvent::Motion { dx, dy } => super::capturing::moderate(dx)
                && super::capturing::moderate(dy),
            InputEvent::Absolute { x, y, width, height } => x < width && y < height,
            InputEvent::Scroll { amount, .. } => super::capturing::moderate(amount),
            InputEvent::ScrollStop { .. } => true,
            InputEvent::Touchpad { device, time_us, events } => {
                &&& device < 4
                &&& 1 <= time_us <= 1_000_000_000_000_000
                &&& 1 <= events@.len() <= 512
                &&& forall|i: int|
                    0 <= i < events@.len() && (#[trigger] events@[i]).kind is Key
                        ==> super::touching::pad_key(events@[i].code) && 0 <= events@[i].value <= 1
                &&& forall|i: int|
                    0 <= i < events@.len() && (#[trigger] events@[i]).kind is Absolute
                        ==> super::touching::pad_axis(events@[i].code) && -1_000_000 <= events@[i].value
                        <= 1_000_000
            },
        },
{
    crate::number::lemma_constants();
    if let InputEvent::Touchpad { device, time_us, events } = event {
        assert(forall|i: int|
            0 <= i < events@.len() ==> ((#[trigger] events@[i]).plausible() <==> if events@[i].kind is Key {
                super::touching::pad_key(events@[i].code) && 0 <= events@[i].value <= 1
            } else {
                super::touching::pad_axis(events@[i].code) && -1_000_000 <= events@[i].value <= 1_000_000
            }));
    }
}

/// Keys and buttons are held; everything else is not. What releases a code lets that code go.
pub proof fn lemma_releases_undo_presses(event: InputEvent, code: u16)
    ensures
        forall|r: Option<(u16, bool)>|
            (#[trigger] call_ensures(InputEvent::held_transition, (&event,), r)) ==> match event {
                InputEvent::Key { code: c, pressed } => r is Some && (r->0).0 == c && (r->0).1 == pressed,
                InputEvent::Button { code: c, pressed } => r is Some && (r->0).0 == c && (r->0).1
                    == pressed,
                _ => r is None,
            },
        forall|r: InputEvent|
            (#[trigger] call_ensures(InputEvent::release, (code,), r)) ==> {
                &&& 1 <= code <= 255 ==> (r matches InputEvent::Key { code: c, pressed } && c == code
                    && !pressed)
                &&& 272 <= code <= 279 ==> (r matches InputEvent::Button { code: c, pressed } && c == code
                    && !pressed)
            },
{
}

/// A copy of an event says the same.
pub proof fn lemma_a_copy_says_the_same(event: InputEvent, copy: InputEvent)
    requires
        call_ensures(<InputEvent as Clone>::clone, (&event,), copy),
    ensures
        event matches InputEvent::Touchpad { device, time_us, events } ==> (
        copy matches InputEvent::Touchpad { device: d, time_us: t, events: e } && d == device && t
            == time_us && e@ == events@),
        !(event is Touchpad) ==> copy == event,
{
}

/// A backend was asked for something more, and nothing before that was changed.
pub open spec fn asked(before: Seq<Call>, after: Seq<Call>, request: Request) -> bool {
    &&& after.len() == before.len() + 1
    &&& after.last().request == request
    &&& forall|i: int| 0 <= i < before.len() ==> #[trigger] after[i] == before[i]
}

/// An event of the open session is injected as it is, once, if it is the next one; a stale one is
/// not. A press is remembered until it is released.
pub proof fn lemma_input_is_injected_once<S: InputSink>(session: u64, sequence: u64, event: InputEvent)
    ensures
        forall|rx: &mut Receiver<S>, r: Result<bool, Error>|
            (#[trigger] call_ensures(Receiver::<S>::input, (rx, session, sequence, &event), r)) ==> {
                let before = (*rx).sink.log();
                let after = (*final(rx)).sink.log();
                &&& (*rx).session != Some(session) ==> r == Ok::<bool, Error>(false) && *final(rx) == *rx
                &&& (*rx).session == Some(session) && r is Ok ==> {
                    &&& r->Ok_0
                    &&& sequence == (*rx).expected_sequence
                    &&& asked(before, after, Request::Emit(event))
                    &&& (*final(rx)).expected_sequence == sequence + 1
                    &&& (*final(rx)).session == Some(session)
                    &&& forall|code: u16| #[trigger]
                        (*final(rx)).state.held@.contains(code) <==> held_after(
                            (*rx).state.held@.contains(code),
                            event,
                            code,
                        )
                }
                &&& (*rx).session == Some(session) && r is Err ==> (*final(rx)).session is None
                &&& (*rx).session == Some(session) && sequence != (*rx).expected_sequence ==> r is Err
            },
{
}

/// Whether a code is held after an event.
pub open spec fn held_after(before: bool, event: InputEvent, code: u16) -> bool {
    match event {
        InputEvent::Key { code: c, pressed } => if c == code {
            pressed
        } else {
            before
        },
        InputEvent::Button { code: c, pressed } => if c == code {
            pressed
        } else {
            before
        },
        _ => before,
    }
}

/// Every code of a set has been released, and the touchpads were reset last.
pub open spec fn let_go(before: Seq<Call>, after: Seq<Call>, codes: Set<u16>) -> bool {
    &&& after.len() > before.len()
    &&& forall|i: int| 0 <= i < before.len() ==> #[trigger] after[i] == before[i]
    &&& after.last().request is ResetTouchpads
    &&& forall|code: u16| #[trigger]
        codes.contains(code) && 1 <= code <= 255 ==> exists|i: int|
            before.len() <= i < after.len() && (#[trigger] after[i]).request == Request::Emit(
                InputEvent::Key { code, pressed: false },
            )
    &&& forall|code: u16| #[trigger]
        codes.contains(code) && 272 <= code <= 279 ==> exists|i: int|
            before.len() <= i < after.len() && (#[trigger] after[i]).request == Request::Emit(
                InputEvent::Button { code, pressed: false },
            )
    &&& forall|i: int|
        before.len() <= i < after.len() - 1 ==> ((#[trigger] after[i]).request matches Request::Emit(
            event,
        ) && !pressing(event))
}

pub open spec fn pressing(event: InputEvent) -> bool {
    match event {
        InputEvent::Key { pressed, .. } => pressed,
        InputEvent::Button { pressed, .. } => pressed,
        _ => false,
    }
}

proof fn lemma_cleaned_lets_go(before: Seq<Call>, after: Seq<Call>, codes: Set<u16>, left: Set<u16>, failure: Option<Error>)
    requires
        crate::receiver::cleaned(before, after, codes, left, failure),
    ensures
        let_go(before, after, codes),
{
    let list = crate::codes::ascending(codes);
    let calls = after.skip(before.len() as int);
    crate::codes::lemma_codes_below(codes, 65536);
    assert forall|i: int| 0 <= i < before.len() implies #[trigger] after[i] == before[i] by {
        assert(after.take(before.len() as int)[i] == before[i]);
    }
    assert(calls.last() == after.last());
    assert forall|i: int| before.len() <= i < after.len() - 1 implies (
    #[trigger] after[i]).request == Request::Emit(InputEvent::release_of(list[i - before.len()])) by {
        assert(calls.drop_last()[i - before.len()] == after[i]);
        assert(calls.drop_last()[i - before.len()].request == Request::Emit(
            InputEvent::release_of(list[i - before.len()]),
        ));
    }
    assert forall|code: u16| #[trigger] codes.contains(code) implies exists|i: int|
        before.len() <= i < after.len() && (#[trigger] after[i]).request == Request::Emit(
            InputEvent::release_of(code),
        ) by {
        assert(list.contains(code));
        let k = choose|k: int| 0 <= k < list.len() && list[k] == code;
        assert(after[before.len() + k].request == Request::Emit(InputEvent::release_of(list[k])));
    }
    assert forall|code: u16| #[trigger] codes.contains(code) && 1 <= code <= 255 implies exists|i: int|
        before.len() <= i < after.len() && (#[trigger] after[i]).request == Request::Emit(
            (InputEvent::Key { code, pressed: false }),
        ) by {
        assert(InputEvent::release_of(code) == (InputEvent::Key { code, pressed: false }));
    }
    assert forall|code: u16| #[trigger] codes.contains(code) && 272 <= code <= 279 implies exists|i: int|
        before.len() <= i < after.len() && (#[trigger] after[i]).request == Request::Emit(
            (InputEvent::Button { code, pressed: false }),
        ) by {
        assert(InputEvent::release_of(code) == (InputEvent::Button { code, pressed: false }));
    }
}

/// Ending a session, for whatever reason, releases everything that was held or still had to be, and
/// resets the touchpads; nothing is held then.
pub proof fn lemma_the_end_releases_everything<S: InputSink>(session: u64, reason: StopReason)
    ensures
        forall|rx: &mut Receiver<S>, r: Result<(), Error>|
            (#[trigger] call_ensures(Receiver::<S>::stop, (rx, reason), r)) ==> {
                &&& (*final(rx)).session is None
                &&& (*final(rx)).state.held@ == Set::<u16>::empty()
                &&& let_go((*rx).sink.log(), (*final(rx)).sink.log(), (*rx).state.held@)
                &&& let_go((*rx).sink.log(), (*final(rx)).sink.log(), (*rx).pending_releases@)
            },
        forall|rx: &mut Receiver<S>, r: Result<(), Error>|
            (#[trigger] call_ensures(Receiver::<S>::end, (rx, session), r)) ==> {
                &&& (*rx).session == Some(session) ==> (*final(rx)).session is None && let_go(
                    (*rx).sink.log(),
                    (*final(rx)).sink.log(),
                    (*rx).state.held@,
                )
                &&& (*rx).session != Some(session) ==> r is Ok && *final(rx) == *rx
            },
        forall|rx: &mut Receiver<S>, r: Result<(), Error>|
            (#[trigger] call_ensures(Receiver::<S>::physical_activity, (rx,), r)) ==> {
                &&& (*rx).session is Some ==> (*final(rx)).session is None && let_go(
                    (*rx).sink.log(),
                    (*final(rx)).sink.log(),
                    (*rx).state.held@,
                )
                &&& (*rx).session is None ==> r is Ok && *final(rx) == *rx
            },
        forall|rx: &mut Receiver<S>, r: Result<(), Error>|
            (#[trigger] call_ensures(Receiver::<S>::local_lock, (rx, true), r)) ==> (
            *final(rx)).session is None && (*final(rx)).state.local_locked && let_go(
                (*rx).sink.log(),
                (*final(rx)).sink.log(),
                (*rx).state.held@,
            ),
        forall|rx: &mut Receiver<S>, r: Result<(), Error>|
            (#[trigger] call_ensures(Receiver::<S>::peer_lock, (rx, true), r)) ==> (
            *final(rx)).session is None && (*final(rx)).state.peer_locked && let_go(
                (*rx).sink.log(),
                (*final(rx)).sink.log(),
                (*rx).state.held@,
            ),
{
    assert forall|before: Seq<Call>, after: Seq<Call>, codes: Set<u16>, left: Set<u16>, failure: Option<Error>| #[trigger]
        crate::receiver::cleaned(before, after, codes, left, failure) implies let_go(
        before,
        after,
        codes,
    ) by {
        lemma_cleaned_lets_go(before, after, codes, left, failure);
    }
    assert forall|before: Seq<Call>, after: Seq<Call>, a: Set<u16>, b: Set<u16>| #[trigger]
        let_go(before, after, a.union(b)) implies let_go(before, after, a) && let_go(
        before,
        after,
        b,
    ) by {
        lemma_part(before, after, a.union(b), a);
        lemma_part(before, after, a.union(b), b);
    }
}

proof fn lemma_part(before: Seq<Call>, after: Seq<Call>, whole: Set<u16>, part: Set<u16>)
    requires
        let_go(before, after, whole),
        forall|code: u16| part.contains(code) ==> whole.contains(code),
    ensures
        let_go(before, after, part),
{
    assert forall|code: u16| #[trigger] part.contains(code) && 1 <= code <= 255 implies exists|i: int|
        before.len() <= i < after.len() && (#[trigger] after[i]).request == Request::Emit(
            (InputEvent::Key { code, pressed: false }),
        ) by {
        assert(whole.contains(code));
    }
    assert forall|code: u16| #[trigger] part.contains(code) && 272 <= code <= 279 implies exists|i: int|
        before.len() <= i < after.len() && (#[trigger] after[i]).request == Request::Emit(
            (InputEvent::Button { code, pressed: false }),
        ) by {
        assert(whole.contains(code));
    }
}

/// A session is opened under its number, from the first event on, exactly while none is open and
/// neither computer is locked, and nothing still has to be released.
pub proof fn lemma_when_a_session_opens<S: InputSink>(session: u64)
    ensures
        forall|rx: &mut Receiver<S>, r: Result<bool, Error>|
            (#[trigger] call_ensures(Receiver::<S>::begin, (rx, session), r)) && (*rx).wf() ==> {
                let fit = session != 0 && (*rx).pending_releases@ == Set::<u16>::empty() && (
                *rx).session is None && !(*rx).state.local_locked && !(*rx).state.peer_locked;
                &&& fit ==> r == Ok::<bool, Error>(true) && (*final(rx)).session == Some(session) && (
                *final(rx)).expected_sequence == 0
                &&& !fit ==> r != Ok::<bool, Error>(true) && *final(rx) == *rx
                &&& (*final(rx)).sink == (*rx).sink
            },
{
}

/// The pointer is placed with an absolute position, and only with one: on the named output, which
/// is selected first, or where it is.
pub proof fn lemma_placing_selects_the_output_first<S: InputSink>(event: InputEvent)
    ensures
        forall|rx: &mut Receiver<S>, output: &str, r: Result<(), Error>|
            (#[trigger] call_ensures(Receiver::<S>::position_on, (rx, output, &event), r)) ==> {
                let before = (*rx).sink.log();
                let after = (*final(rx)).sink.log();
                &&& r is Ok ==> {
                    &&& event matches InputEvent::Absolute { x, y, width, height } && x < width && y < height
                    &&& after.len() == before.len() + 2
                    &&& after[before.len() as int].request == Request::SelectOutput(output@)
                    &&& after[before.len() as int + 1].request == Request::Emit(event)
                }
                &&& !(event is Absolute) ==> r is Err && (*final(rx)).sink == (*rx).sink
                &&& (*final(rx)).session == (*rx).session
                &&& (*final(rx)).state == (*rx).state
            },
        forall|rx: &mut Receiver<S>, r: Result<(), Error>|
            (#[trigger] call_ensures(Receiver::<S>::position, (rx, &event), r)) ==> {
                &&& r is Ok ==> event is Absolute && asked(
                    (*rx).sink.log(),
                    (*final(rx)).sink.log(),
                    Request::Emit(event),
                )
                &&& !(event is Absolute) ==> r is Err && (*final(rx)).sink == (*rx).sink
            },
{
}

/// Input that has begun keeps its output: it cannot be changed before everything is released.
pub proof fn lemma_an_output_is_kept_while_input_goes_on<S: InputSink>(event: InputEvent)
    ensures
        forall|rx: &mut Receiver<S>, output: &str, r: Result<(), Error>|
            (#[trigger] call_ensures(Receiver::<S>::position_on, (rx, output, &event), r)) && ((
            *rx).pending_releases@ != Set::<u16>::empty() || (*rx).session is Some && (
            *rx).expected_sequence != 0) ==> r is Err && (*final(rx)).sink == (*rx).sink,
{
}

/// A key or button that may be down is one that was pressed and of which no release was accepted
/// since.
pub proof fn lemma_what_may_be_down(log: Seq<Call>, call: Call, code: u16)
    ensures
        ({
            let event = call.request->Emit_0;
            let now = crate::receiver::possibly_down(log.push(call)).contains(code);
            let before = crate::receiver::possibly_down(log).contains(code);
            &&& call.request is Emit && (event == (InputEvent::Key { code, pressed: true }) || event
                == (InputEvent::Button { code, pressed: true })) ==> now
            &&& call.request is Emit && call.failure is None && (event == (InputEvent::Key {
                code,
                pressed: false,
            }) || event == (InputEvent::Button { code, pressed: false })) ==> !now
            &&& call.request is Emit && call.failure is Some && !pressing(event) ==> now == before
            &&& !(call.request is Emit) ==> now == before
        }),
        !crate::receiver::possibly_down(Seq::<Call>::empty()).contains(code),
{
    assert(log.push(call).drop_last() =~= log);
}

/// Sharing starts only where nothing is shared and nobody is locked out, and only for sending or
/// receiving.
pub proof fn lemma_when_sharing_starts(mode: Mode, reason: StopReason)
    ensures
        forall|state: &mut ControlState, r: bool|
            (#[trigger] call_ensures(ControlState::start, (state, mode), r)) ==> {
                &&& r <==> (*state).mode is Local && !(*state).local_locked && !(*state).peer_locked && (
                mode is Sending || mode is Receiving)
                &&& r ==> (*final(state)).mode == mode
                &&& !r ==> *final(state) == *state
            },
        forall|state: &mut ControlState, r: StopEffects|
            (#[trigger] call_ensures(ControlState::stop, (state, reason), r)) ==> {
                &&& (*final(state)).mode is Paused <==> (*state).local_locked || (*state).peer_locked
                &&& !((*final(state)).mode is Paused) ==> (*final(state)).mode is Local
                &&& (*final(state)).held@ == Set::<u16>::empty()
                &&& r.release_capture <==> (*state).mode is Sending
                &&& r.notify_peer <==> ((*state).mode is Sending || (*state).mode is Receiving) && !(
                reason is Disconnected)
                &&& forall|code: u16| #[trigger]
                    r.release_codes@.contains(code) <==> (*state).held@.contains(code)
                &&& forall|i: int, j: int|
                    0 <= i < j < r.release_codes@.len() ==> r.release_codes@[i] < r.release_codes@[j]
            },
        forall|state: &mut ControlState, r: Option<StopEffects>|
            (#[trigger] call_ensures(ControlState::receiver_physical_activity, (state,), r)) ==> {
                &&& r is Some <==> (*state).mode is Receiving
                &&& r is None ==> *final(state) == *state
                &&& r is Some ==> (r->0).notify_peer && !(r->0).release_capture && (
                *final(state)).held@ == Set::<u16>::empty()
            },
{
    assert forall|set: Set<u16>| crate::codes::increasing(#[trigger] crate::codes::ascending(set)) && forall|
        c: u16,
    |
        crate::codes::ascending(set).contains(c) <==> set.contains(c) by {
        crate::codes::lemma_codes_below(set, 65536);
    }
}

/// A change of a lock ends sharing, releases what is held, and pauses while either is locked; no
/// change has no effect.
pub proof fn lemma_locks_pause_sharing(locked: bool)
    ensures
        forall|state: &mut ControlState, r: StopEffects|
            (#[trigger] call_ensures(ControlState::local_lock_changed, (state, locked), r)) ==> {
                &&& (*final(state)).local_locked == locked
                &&& (*final(state)).peer_locked == (*state).peer_locked
                &&& (*state).local_locked == locked ==> *final(state) == *state && r.release_codes@.len()
                    == 0 && !r.notify_peer
                &&& (*state).local_locked != locked ==> {
                    &&& (*final(state)).mode is Paused <==> locked || (*state).peer_locked
                    &&& (*final(state)).held@ == Set::<u16>::empty()
                    &&& forall|code: u16| #[trigger]
                        r.release_codes@.contains(code) <==> (*state).held@.contains(code)
                }
            },
        forall|state: &mut ControlState, r: StopEffects|
            (#[trigger] call_ensures(ControlState::peer_lock_changed, (state, locked), r)) ==> {
                &&& (*final(state)).peer_locked == locked
                &&& (*final(state)).local_locked == (*state).local_locked
                &&& (*state).peer_locked == locked ==> *final(state) == *state && r.release_codes@.len()
                    == 0 && !r.notify_peer
                &&& (*state).peer_locked != locked ==> {
                    &&& (*final(state)).mode is Paused <==> locked || (*state).local_locked
                    &&& (*final(state)).held@ == Set::<u16>::empty()
                    &&& forall|code: u16| #[trigger]
                        r.release_codes@.contains(code) <==> (*state).held@.contains(code)
                }
            },
{
    assert forall|set: Set<u16>| forall|c: u16| #[trigger]
        (#[trigger] crate::codes::ascending(set)).contains(c) <==> set.contains(c) by {
        crate::codes::lemma_codes_below(set, 65536);
    }
}

/// A code is held from its press to its release, and is told to be new or known.
pub proof fn lemma_held_codes(code: u16)
    ensures
        forall|state: &mut ControlState, r: bool|
            (#[trigger] call_ensures(ControlState::press, (state, code), r)) && ((
            *state).mode is Sending || (*state).mode is Receiving) ==> (
            *final(state)).held@.contains(code) && r == !(*state).held@.contains(code) && forall|o: u16|
                o != code ==> (#[trigger] (*final(state)).held@.contains(o)) == (*state).held@.contains(o),
        forall|state: &mut ControlState, r: bool|
            (#[trigger] call_ensures(ControlState::release, (state, code), r)) ==> !(
            *final(state)).held@.contains(code) && r == (*state).held@.contains(code) && forall|o: u16|
                o != code ==> (#[trigger] (*final(state)).held@.contains(o)) == (*state).held@.contains(o),
{
}

/// A key of one keyboard changes what is held there and nowhere else; it is forwarded exactly when
/// it changes whether the key is held at all.
pub proof fn lemma_keyboards_add_up(device: usize, code: u16, pressed: bool)
    ensures
        forall|keys: &mut PhysicalKeys, r: Result<(), Error>|
            (#[trigger] call_ensures(PhysicalKeys::update, (keys, device, code, pressed), r)) && 1 <= code
                <= 255 && (*keys).pending@.len() < 512 ==> {
                let was = held_somewhere(*keys, code);
                let is = held_somewhere(*final(keys), code);
                &&& r is Ok
                &&& crate::input::keys_on((*final(keys)).devices@, device).contains(code) == pressed
                &&& forall|d: usize, c: u16|
                    (d != device || c != code) ==> (#[trigger] crate::input::keys_on(
                        (*final(keys)).devices@,
                        d,
                    ).contains(c)) == crate::input::keys_on((*keys).devices@, d).contains(c)
                &&& was == is ==> (*final(keys)).pending@ == (*keys).pending@
                &&& was != is ==> {
                    &&& (*final(keys)).pending@.len() == (*keys).pending@.len() + 1
                    &&& (*final(keys)).pending@.last() matches InputEvent::Key { code: c, pressed: p } && c
                        == code && p == is
                    &&& forall|i: int|
                        0 <= i < (*keys).pending@.len() ==> #[trigger] (*final(keys)).pending@[i]
                            == (*keys).pending@[i]
                }
            },
        forall|keys: &mut PhysicalKeys, r: Result<(), Error>|
            (#[trigger] call_ensures(PhysicalKeys::update, (keys, device, code, pressed), r)) && !(1
                <= code <= 255) ==> r is Ok && *final(keys) == *keys,
{
    assert forall|keys: &mut PhysicalKeys, r: Result<(), Error>, d: usize, c: u16|
        (#[trigger] call_ensures(PhysicalKeys::update, (keys, device, code, pressed), r)) && 1 <= code
            <= 255 && (d != device || c != code) implies (#[trigger] crate::input::keys_on(
        (*final(keys)).devices@,
        d,
    ).contains(c)) == crate::input::keys_on((*keys).devices@, d).contains(c) by {
        if d != device {
            assert(crate::input::keys_on((*final(keys)).devices@, d) == (*keys).held_on(d));
        } else {
            assert((*final(keys)).held_on(device).contains(c) == (*keys).held_on(device).contains(c));
        }
    }
}

pub open spec fn held_somewhere(keys: PhysicalKeys, code: u16) -> bool {
    exists|d: usize| #[trigger] crate::input::keys_on(keys.devices@, d).contains(code)
}

/// What is held on a keyboard is what its entry lists; on one without an entry, nothing.
pub proof fn lemma_keys_of_a_keyboard(keys: PhysicalKeys, device: usize, code: u16)
    ensures
        crate::input::keys_on(keys.devices@, device).contains(code) <==> keys.devices@.contains_key(
            device,
        ) && keys.devices@[device]@.contains(code),
        forall|r: BTreeSet<u16>|
            (#[trigger] call_ensures(PhysicalKeys::held, (&keys,), r)) ==> (r@.contains(code)
                <==> held_somewhere(keys, code)),
        forall|r: bool|
            (#[trigger] call_ensures(PhysicalKeys::any_holds, (&keys, code), r)) ==> r
                == held_somewhere(keys, code),
{
}

/// A keyboard that is unplugged lets go of what it alone held; the releases are forwarded, and keys
/// that another keyboard holds stay down.
pub proof fn lemma_an_unplugged_keyboard_lets_go(device: usize)
    ensures
        forall|keys: &mut PhysicalKeys, r: Result<(), Error>|
            (#[trigger] call_ensures(PhysicalKeys::disconnect, (keys, device), r)) && r is Ok ==> {
                &&& forall|c: u16| !#[trigger] crate::input::keys_on((*final(keys)).devices@, device).contains(c)
                &&& forall|d: usize, c: u16|
                    d != device ==> (#[trigger] crate::input::keys_on((*final(keys)).devices@, d).contains(
                        c,
                    )) == crate::input::keys_on((*keys).devices@, d).contains(c)
                &&& forall|i: int|
                    (*keys).pending@.len() <= i < (*final(keys)).pending@.len() ==> ((
                    #[trigger] (*final(keys)).pending@[i]) matches InputEvent::Key { code, pressed }
                        && !pressed && held_somewhere(*keys, code) && !held_somewhere(
                        *final(keys),
                        code,
                    ))
                &&& forall|c: u16|
                    held_somewhere(*keys, c) && !held_somewhere(*final(keys), c) ==> exists|i: int|
                        (*keys).pending@.len() <= i < (*final(keys)).pending@.len() && #[trigger] (
                        *final(keys)).pending@[i] == (InputEvent::Key { code: c, pressed: false })
            },
{
    assert forall|devices: vstd::prelude::Map<usize, BTreeSet<u16>>, c: u16| #[trigger]
        crate::input::only_on(devices, device).contains(c) <==> crate::input::keys_on(
        devices,
        device,
    ).contains(c) && !crate::input::held_elsewhere(devices, device, c) by {
        crate::input::lemma_only_on(devices, device);
    }
    assert forall|keys: &mut PhysicalKeys, r: Result<(), Error>|
        (#[trigger] call_ensures(PhysicalKeys::disconnect, (keys, device), r)) && r is Ok implies {
        &&& forall|i: int|
            (*keys).pending@.len() <= i < (*final(keys)).pending@.len() ==> ((
            #[trigger] (*final(keys)).pending@[i]) matches InputEvent::Key { code, pressed } && !pressed
                && held_somewhere(*keys, code) && !held_somewhere(*final(keys), code))
        &&& forall|c: u16|
            held_somewhere(*keys, c) && !held_somewhere(*final(keys), c) ==> exists|i: int|
                (*keys).pending@.len() <= i < (*final(keys)).pending@.len() && #[trigger] (
                *final(keys)).pending@[i] == (InputEvent::Key { code: c, pressed: false })
    } by {
        let before = *keys;
        let after = *final(keys);
        let list = crate::input::only_on(before.devices@, device);
        let n = before.pending@.len() as int;
        assert forall|i: int| n <= i < after.pending@.len() implies ((#[trigger] after.pending@[i])
            matches InputEvent::Key { code, pressed } && !pressed && held_somewhere(before, code)
            && !held_somewhere(after, code)) by {
            let c = list[i - n];
            assert(list.contains(c));
            assert(after.pending@[i] == (InputEvent::Key { code: c, pressed: false }));
            crate::input::lemma_holds_without(before, after, device, c);
        }
        assert forall|c: u16| held_somewhere(before, c) && !held_somewhere(after, c) implies exists|i: int|
            n <= i < after.pending@.len() && #[trigger] after.pending@[i] == (InputEvent::Key {
                code: c,
                pressed: false,
            }) by {
            crate::input::lemma_holds_without(before, after, device, c);
            let k = choose|k: int| 0 <= k < list.len() && list[k] == c;
            assert(after.pending@[n + k] == (InputEvent::Key { code: c, pressed: false }));
        }
    }
}

/// The emergency chord takes one of each kind of modifier, on either side.
pub proof fn lemma_the_emergency_chord(keys: BTreeSet<u16>, r: bool)
    requires
        call_ensures(crate::input::emergency_modifiers, (&keys,), r),
    ensures
        r <==> (keys@.contains(29) || keys@.contains(97)) && (keys@.contains(56) || keys@.contains(100))
            && (keys@.contains(42) || keys@.contains(54)),
{
}

/// What could not be released when a session ended still has to be, and nothing else.
pub proof fn lemma_what_still_has_to_be_released<S: InputSink>(reason: StopReason, code: u16)
    requires
        1 <= code <= 255,
    ensures
        forall|rx: &mut Receiver<S>, r: Result<(), Error>|
            (#[trigger] call_ensures(Receiver::<S>::stop, (rx, reason), r)) ==> {
                let before = (*rx).sink.log();
                let after = (*final(rx)).sink.log();
                &&& r is Ok ==> !(*final(rx)).pending_releases@.contains(code)
                &&& (*final(rx)).pending_releases@.contains(code) ==> exists|i: int|
                    before.len() <= i < after.len() && (#[trigger] after[i]).request == Request::Emit(
                        (InputEvent::Key { code, pressed: false }),
                    ) && after[i].failure is Some
                &&& forall|i: int|
                    before.len() <= i < after.len() && (#[trigger] after[i]).request == Request::Emit(
                        (InputEvent::Key { code, pressed: false }),
                    ) && after[i].failure is Some ==> (*final(rx)).pending_releases@.contains(code)
            },
{
    assert forall|rx: &mut Receiver<S>, r: Result<(), Error>|
        (#[trigger] call_ensures(Receiver::<S>::stop, (rx, reason), r)) implies {
        let before = (*rx).sink.log();
        let after = (*final(rx)).sink.log();
        &&& (*final(rx)).pending_releases@.contains(code) ==> exists|i: int|
            before.len() <= i < after.len() && (#[trigger] after[i]).request == Request::Emit(
                (InputEvent::Key { code, pressed: false }),
            ) && after[i].failure is Some
        &&& forall|i: int|
            before.len() <= i < after.len() && (#[trigger] after[i]).request == Request::Emit(
                (InputEvent::Key { code, pressed: false }),
            ) && after[i].failure is Some ==> (*final(rx)).pending_releases@.contains(code)
    } by {
        let before = (*rx).sink.log();
        let after = (*final(rx)).sink.log();
        let list = crate::codes::ascending((*rx).owed());
        let calls = after.skip(before.len() as int);
        let released = calls.drop_last();
        lemma_failed_releases(released, list, code);
        assert forall|i: int| before.len() <= i < after.len() - 1 implies #[trigger] after[i]
            == released[i - before.len()] by {}
        assert(calls.last() == after.last());
        if (*final(rx)).pending_releases@.contains(code) {
            let k = choose|k: int|
                0 <= k < released.len() && (#[trigger] released[k]).failure is Some && list[k] == code;
            assert(released[k].request == Request::Emit(InputEvent::release_of(list[k])));
            assert(after[before.len() + k] == released[k]);
        }
        assert forall|i: int|
            before.len() <= i < after.len() && (#[trigger] after[i]).request == Request::Emit(
                (InputEvent::Key { code, pressed: false }),
            ) && after[i].failure is Some implies (*final(rx)).pending_releases@.contains(code) by {
            let k = i - before.len();
            assert(i < after.len() - 1);
            assert(released[k].request == Request::Emit(InputEvent::release_of(list[k])));
            assert(released[k].failure is Some && list[k] == code);
        }
    }
}

proof fn lemma_failed_releases(calls: Seq<Call>, codes: Seq<u16>, code: u16)
    requires
        calls.len() == codes.len(),
    ensures
        crate::receiver::unreleased(calls, codes).contains(code) <==> exists|k: int|
            0 <= k < calls.len() && (#[trigger] calls[k]).failure is Some && codes[k] == code,
    decreases calls.len(),
{
    if calls.len() > 0 {
        let less = calls.drop_last();
        let n = calls.len() - 1;
        lemma_failed_releases(less, codes.drop_last(), code);
        assert forall|k: int| 0 <= k < n implies #[trigger] calls[k] == less[k] && codes[k]
            == codes.drop_last()[k] by {}
        if crate::receiver::unreleased(less, codes.drop_last()).contains(code) {
            let k = choose|k: int|
                0 <= k < less.len() && (#[trigger] less[k]).failure is Some && codes.drop_last()[k] == code;
            assert(calls[k].failure is Some && codes[k] == code);
        }
        if exists|k: int| 0 <= k < calls.len() && (#[trigger] calls[k]).failure is Some && codes[k] == code {
            let k = choose|k: int|
                0 <= k < calls.len() && (#[trigger] calls[k]).failure is Some && codes[k] == code;
            if k < n {
                assert(less[k].failure is Some && codes.drop_last()[k] == code);
            }
        }
        assert(calls[n] == calls.last() && codes[n] == codes.last());
    }
}

/// A key whose press failed may be down all the same: it is released with everything else.
pub proof fn lemma_a_failed_press_is_released<S: InputSink>(session: u64, sequence: u64, code: u16)
    requires
        1 <= code <= 255,
        sequence < u64::MAX,
    ensures
        forall|rx: &mut Receiver<S>, r: Result<bool, Error>|
            (#[trigger] call_ensures(
                Receiver::<S>::input,
                (rx, session, sequence, &(InputEvent::Key { code, pressed: true })),
                r,
            )) && (*rx).session == Some(session) && (*rx).state.mode is Receiving
                && (*rx).expected_sequence == sequence && r is Err ==> {
                let n = (*rx).sink.log().len() as int;
                let after = (*final(rx)).sink.log();
                &&& after.len() > n
                &&& after[n].request == Request::Emit((InputEvent::Key { code, pressed: true }))
                &&& let_go(after.take(n + 1), after, set![code])
            },
{
    assert forall|rx: &mut Receiver<S>, r: Result<bool, Error>|
        (#[trigger] call_ensures(
            Receiver::<S>::input,
            (rx, session, sequence, &(InputEvent::Key { code, pressed: true })),
            r,
        )) && (*rx).session == Some(session) && (*rx).state.mode is Receiving && (
        *rx).expected_sequence == sequence && r is Err implies {
        let n = (*rx).sink.log().len() as int;
        let after = (*final(rx)).sink.log();
        &&& after.len() > n
        &&& after[n].request == Request::Emit((InputEvent::Key { code, pressed: true }))
        &&& let_go(after.take(n + 1), after, set![code])
    } by {
        let event = InputEvent::Key { code, pressed: true };
        let n = (*rx).sink.log().len() as int;
        let after = (*final(rx)).sink.log();
        let log = (*rx).sink.log().push(
            Call { request: Request::Emit(event), failure: Some(r->Err_0) },
        );
        let codes = (*rx).owed_with(event);
        let cleanup = choose|cleanup: Option<Error>| #[trigger]
            (*final(rx)).ended(*rx, log, codes, cleanup);
        lemma_cleaned_lets_go(log, after, codes, (*final(rx)).pending_releases@, cleanup);
        lemma_part(log, after, codes, set![code]);
        assert(after.take(n + 1) =~= log);
        assert(after[n] == log[n]);
    }
}

} // verus!
