//! What a connection does while input is shared: what is sent, what ends a session, and how both
//! computers agree on a new layout.
use super::crossing::{ends, hands_on, only_place, places_at, receives, sends};
use crate::capture_probe::StopCause;
use crate::control::{Desktop, LayoutMessage, LayoutRequest};
use crate::coordinator::{Action, Agreement, Coordinator, Ending, Role};
use crate::edges::EdgeConfig;
use crate::error::Error;
use crate::niri::ActiveOutput;
use crate::protocol::{InputEvent, Message};
use crate::receiver::{InputSink, Receiver};
use crate::touchpad::Descriptor;
use vstd::prelude::*;

verus! {

/// Nothing but the number of the next event has changed in the role.
pub open spec fn next_number(before: Role, after: Role) -> bool {
    &&& before matches Role::Sending { session, sequence, origin } && after matches Role::Sending {
        session: s,
        sequence: n,
        origin: o,
    } && s == session && n == sequence + 1 && o == origin
}

/// A touch frame goes to the other computer, as it is, exactly while this one sends; each has the
/// number behind the last one.
pub proof fn lemma_touch_goes_to_the_computer_in_control<S: InputSink>(event: InputEvent)
    ensures
        forall|c: &mut Coordinator<S>, r: Vec<Action>|
            (#[trigger] call_ensures(Coordinator::<S>::on_touch, (c, event), r)) ==> {
                let role = (*c).role;
                &&& role is Sending && role->sequence < u64::MAX ==> {
                    &&& r@.len() == 1
                    &&& hands_on(r@[0], role->Sending_session, role->sequence, event)
                    &&& next_number(role, (*final(c)).role)
                }
                &&& !(role is Sending) ==> r@.len() == 0 && (*final(c)).role == role
            },
{
}

/// Captured input goes to the other computer, as it is, while this one sends; keys do not where
/// they come from physical keyboards, and input that is too old is an error.
pub proof fn lemma_captured_input_is_sent<S: InputSink>(generation: u64, event: InputEvent, age_us: u64)
    ensures
        forall|c: &mut Coordinator<S>, r: Result<Vec<Action>, Error>|
            (#[trigger] call_ensures(Coordinator::<S>::on_captured, (c, generation, event, age_us), r))
                ==> {
                let role = (*c).role;
                let taken = (*c).generation == generation && (*c).capture is Some && role is Sending
                    && !((*c).physical_keyboard && event is Key);
                &&& taken && age_us < 200_000 && role->sequence < u64::MAX ==> {
                    &&& r is Ok
                    &&& r->Ok_0@.len() == 1
                    &&& hands_on(r->Ok_0@[0], role->Sending_session, role->sequence, event)
                    &&& next_number(role, (*final(c)).role)
                }
                &&& taken && age_us >= 200_000 ==> r is Err && (*final(c)).role == role
                &&& !taken ==> r is Ok && r->Ok_0@.len() == 0 && (*final(c)).role == role
            },
{
}

/// The keys that are down once one was pressed or let go.
pub open spec fn down_after(keys: Set<u16>, code: u16, pressed: bool, other: u16) -> bool {
    if other == code {
        pressed
    } else {
        keys.contains(other)
    }
}

/// Control, Alt and Shift, either of each, and Escape is pressed.
pub open spec fn chord(keys: Set<u16>, code: u16, pressed: bool) -> bool {
    &&& code == 1 && pressed
    &&& keys.contains(29) || keys.contains(97)
    &&& keys.contains(56) || keys.contains(100)
    &&& keys.contains(42) || keys.contains(54)
}

/// A key of a physical keyboard goes to the other computer, press as press and release as release;
/// but the emergency chord ends the session at once, puts the pointer where it had left, and its
/// Escape is not sent.
pub proof fn lemma_keys_are_sent_until_the_emergency_chord<S: InputSink>(
    code: u16,
    pressed: bool,
    now: u64,
)
    ensures
        forall|c: &mut Coordinator<S>, r: Result<Vec<Action>, Error>|
            (#[trigger] call_ensures(
                Coordinator::<S>::on_key,
                (c, (InputEvent::Key { code, pressed }), now),
                r,
            )) && (*c).edges@.len() <= usize::MAX ==> {
                let role = (*c).role;
                let keys = (*c).source_keys@;
                &&& !(role is Sending) ==> r is Ok && r->Ok_0@.len() == 0 && *final(c) == *c
                &&& role is Sending && !chord(keys, code, pressed) && role->sequence < u64::MAX ==> {
                    &&& r is Ok
                    &&& r->Ok_0@.len() == 1
                    &&& hands_on(
                        r->Ok_0@[0],
                        role->Sending_session,
                        role->sequence,
                        (InputEvent::Key { code, pressed }),
                    )
                    &&& next_number(role, (*final(c)).role)
                    &&& forall|other: u16| #[trigger]
                        (*final(c)).source_keys@.contains(other) <==> down_after(
                            keys,
                            code,
                            pressed,
                            other,
                        )
                }
                &&& role is Sending && chord(keys, code, pressed) && super::crossing::named(
                    (*c).edges@,
                    role->origin.edge_id@,
                ) ==> {
                    let actions = r->Ok_0@;
                    &&& r is Ok
                    &&& actions.len() > 1
                    &&& ends(actions[0], role->Sending_session)
                    &&& places_at(
                        actions.last(),
                        (*c).edges@,
                        role->origin.edge_id@,
                        role->origin.fraction,
                    )
                    &&& only_place(actions, actions.len() - 1)
                    &&& (*c).capture is Some ==> actions[1] is StopCapture
                    &&& (*final(c)).role is Local
                    &&& (*final(c)).capture is None
                    &&& (*final(c)).source_keys@ == Set::<u16>::empty()
                }
            },
{
    super::crossing::lemma_indices();
}

/// Asking for control back ends the session, stops the capture and puts the pointer where it had
/// left.
pub proof fn lemma_release_gives_control_back<S: InputSink>(now: u64)
    ensures
        forall|c: &mut Coordinator<S>, r: Result<Vec<Action>, Error>|
            (#[trigger] call_ensures(Coordinator::<S>::on_release, (c, now), r)) && (*c).edges@.len()
                <= usize::MAX && r is Ok ==> {
                let role = (*c).role;
                let actions = r->Ok_0@;
                &&& (*final(c)).role is Local
                &&& (*final(c)).capture is None
                &&& (*c).capture is Some ==> exists|i: int|
                    0 <= i < actions.len() && (#[trigger] actions[i]) is StopCapture
                &&& role is Sending && super::crossing::named((*c).edges@, role->origin.edge_id@) ==> {
                    &&& ends(actions[0], role->Sending_session)
                    &&& places_at(
                        actions.last(),
                        (*c).edges@,
                        role->origin.edge_id@,
                        role->origin.fraction,
                    )
                }
                &&& role is Receiving ==> ends(actions[0], role->Receiving_session) && only_place(
                    actions,
                    -1,
                )
                &&& now <= 1_000_000_000_000 ==> (*final(c)).rearm_at == now + 150_000
            },
{
    super::crossing::lemma_indices();
    assert forall|c: &mut Coordinator<S>, r: Result<Vec<Action>, Error>|
        (#[trigger] call_ensures(Coordinator::<S>::on_release, (c, now), r)) && r is Ok && (
        *c).capture is Some implies exists|i: int|
        0 <= i < r->Ok_0@.len() && (#[trigger] r->Ok_0@[i]) is StopCapture by {
        let actions = r->Ok_0@;
        if (*c).role is Local {
            assert(actions[0] is StopCapture);
        } else {
            assert(actions[1] is StopCapture);
        }
    }
}

/// When the capture ends by itself so does the session; the pointer is put back only after Escape.
pub proof fn lemma_the_end_of_a_capture_ends_the_session<S: InputSink>(
    generation: u64,
    reason: StopCause,
    now: u64,
)
    ensures
        forall|c: &mut Coordinator<S>, r: Result<Vec<Action>, Error>|
            (#[trigger] call_ensures(Coordinator::<S>::on_finished, (c, generation, reason, now), r))
                && (*c).wf() && (*c).edges@.len() <= usize::MAX && r is Ok ==> {
                let role = (*c).role;
                let actions = r->Ok_0@;
                let current = (*c).generation == generation && (*c).capture is Some;
                &&& current ==> (*final(c)).role is Local && (*final(c)).capture is None
                &&& current && !(role is Local) ==> actions.len() > 1 && ends(
                    actions[0],
                    role.session_id()->0,
                ) && actions[1] is StopCapture
                &&& current && role is Sending && reason == StopCause::Escape ==> places_at(
                    actions.last(),
                    (*c).edges@,
                    role->origin.edge_id@,
                    role->origin.fraction,
                )
                &&& current && reason != StopCause::Escape ==> only_place(actions, -1)
                &&& !current ==> actions.len() == 0 && *final(c) == *c
            },
{
    super::crossing::lemma_indices();
}

/// Locking this computer tells the other one first, lets go of the devices, ends the session and
/// the capture; unlocking it only tells the other one.
pub proof fn lemma_a_locked_computer_shares_nothing<S: InputSink>(unlocked: bool)
    ensures
        forall|c: &mut Coordinator<S>, r: Result<Vec<Action>, Error>|
            (#[trigger] call_ensures(Coordinator::<S>::on_lock, (c, unlocked), r)) && r is Ok ==> {
                let role = (*c).role;
                let actions = r->Ok_0@;
                &&& actions.len() > 0
                &&& actions[0] matches Action::Send(Message::LockState { locked }) && locked == !unlocked
                &&& (*final(c)).local_ready == unlocked
                &&& unlocked ==> actions.len() == 1 && (*final(c)).role == role && (
                *final(c)).capture == (*c).capture
                &&& !unlocked ==> {
                    &&& actions.len() > 1 && actions[1] is Suspend
                    &&& (*final(c)).role is Local
                    &&& (*final(c)).capture is None
                    &&& !(role is Local) ==> actions.len() > 2 && ends(
                        actions[2],
                        role.session_id()->0,
                    )
                    &&& (*c).capture is Some ==> actions.last() is StopCapture
                }
            },
{
}

/// A locked counterpart ends the session and the capture, and the pointer comes back to where it
/// had left; an unlocked one may share.
pub proof fn lemma_a_locked_counterpart_shares_nothing<S: InputSink>(locked: bool)
    ensures
        forall|c: &mut Coordinator<S>, r: Result<Vec<Action>, Error>|
            (#[trigger] call_ensures(Coordinator::<S>::on_peer_lock, (c, locked), r)) && (*c).wf()
                && (*c).edges@.len() <= usize::MAX && (*c).peer_touchpads_configured && r is Ok ==> {
                let role = (*c).role;
                let actions = r->Ok_0@;
                &&& (*final(c)).peer_ready == !locked
                &&& !locked ==> actions.len() == 0 && (*final(c)).role == role
                &&& locked ==> {
                    &&& actions.len() > 0 && actions[0] is Suspend
                    &&& (*final(c)).role is Local
                    &&& (*final(c)).capture is None
                    &&& !(role is Local) ==> actions.len() > 1 && ends(
                        actions[1],
                        role.session_id()->0,
                    )
                    &&& role is Sending ==> places_at(
                        actions.last(),
                        (*c).edges@,
                        role->origin.edge_id@,
                        role->origin.fraction,
                    )
                }
            },
        forall|c: &mut Coordinator<S>, r: Result<Vec<Action>, Error>|
            (#[trigger] call_ensures(Coordinator::<S>::on_peer_lock, (c, locked), r)) && !(
            *c).peer_touchpads_configured ==> r is Err && *final(c) == *c,
{
    super::crossing::lemma_indices();
}

/// Somebody who uses this computer gets it back from the other one, at once.
pub proof fn lemma_the_person_here_comes_first<S: InputSink>(now: u64)
    ensures
        forall|c: &mut Coordinator<S>, r: Result<Vec<Action>, Error>|
            (#[trigger] call_ensures(Coordinator::<S>::on_physical, (c, now), r)) && r is Ok ==> {
                let role = (*c).role;
                let actions = r->Ok_0@;
                &&& role is Receiving ==> {
                    &&& actions.len() > 0
                    &&& ends(actions[0], role->Receiving_session)
                    &&& (*final(c)).role is Local
                    &&& (*final(c)).capture is None
                    &&& (*c).capture is Some ==> actions.last() is StopCapture
                }
                &&& !(role is Receiving) ==> actions.len() == 0 && *final(c) == *c
            },
{
}

/// An event of the open session reaches the backend, unchanged and once, if it has the expected
/// number and is in time; one of another session does not. Local use ends the session instead.
pub proof fn lemma_received_input_is_injected<S: InputSink>(
    session: u64,
    sequence: u64,
    event: InputEvent,
    age_us: u64,
    physical: bool,
)
    ensures
        forall|c: &mut Coordinator<S>, r: Result<Vec<Action>, Error>|
            (#[trigger] call_ensures(
                Coordinator::<S>::on_input,
                (c, session, sequence, &event, age_us, physical),
                r,
            )) && age_us < 200_000 ==> {
                let before = (*c).receiver.sink.log();
                let after = (*final(c)).receiver.sink.log();
                let current = receives((*c).role, session);
                &&& !current ==> r is Ok && r->Ok_0@.len() == 0 && *final(c) == *c
                &&& current && !physical && r is Ok ==> {
                    &&& sequence == (*c).receiver.expected_sequence
                    &&& after.len() == before.len() + 1
                    &&& after.drop_last() == before
                    &&& after.last().request == crate::receiver::Request::Emit(event)
                    &&& (*final(c)).receiver.expected_sequence == sequence + 1
                    &&& (*final(c)).role == (*c).role
                }
                &&& current && physical && r is Ok ==> {
                    &&& r->Ok_0@.len() > 0 && ends(r->Ok_0@[0], session)
                    &&& (*final(c)).role is Local
                }
                &&& current && !physical && sequence != (*c).receiver.expected_sequence ==> r is Err
            },
        forall|c: &mut Coordinator<S>, r: Result<Vec<Action>, Error>|
            (#[trigger] call_ensures(
                Coordinator::<S>::on_input,
                (c, session, sequence, &event, age_us, physical),
                r,
            )) && age_us >= 200_000 ==> r is Err && *final(c) == *c,
{
    assert forall|c: &mut Coordinator<S>, r: Result<Vec<Action>, Error>|
        (#[trigger] call_ensures(
            Coordinator::<S>::on_input,
            (c, session, sequence, &event, age_us, physical),
            r,
        )) && age_us < 200_000 && receives((*c).role, session) && !physical && r is Ok implies (
    *final(c)).receiver.sink.log().drop_last() == (*c).receiver.sink.log() by {
        assert((*final(c)).receiver.sink.log().drop_last() =~= (*c).receiver.sink.log());
    }
}

/// The edges are watched exactly while both computers are unlocked, some connection can be used,
/// nothing else watches them, no layout changes and the pause is over; and then every connection
/// that can be used is, each once, in order.
pub proof fn lemma_what_is_watched<S: InputSink>(now: u64)
    ensures
        forall|c: &mut Coordinator<S>, r: Option<Vec<usize>>|
            (#[trigger] call_ensures(Coordinator::<S>::arm, (c, now), r)) && (*c).edges@.len()
                <= usize::MAX ==> {
                &&& r is Some <==> (*c).local_ready && (*c).peer_ready && (*c).pending_layout is None && (
                *c).capture is None && now >= (*c).rearm_at && exists|i: int|
                    0 <= i < (*c).edges@.len() && #[trigger] watchable(*c, i)
                &&& r is Some ==> {
                    &&& forall|k: int|
                        0 <= k < (r->0)@.len() ==> (#[trigger] (r->0)@[k]) < (*c).edges@.len()
                            && watchable(*c, (r->0)@[k] as int)
                    &&& forall|i: int|
                        0 <= i < (*c).edges@.len() && #[trigger] watchable(*c, i) ==> (r->0)@.contains(
                            i as usize,
                        )
                    &&& forall|k: int, l: int| 0 <= k < l < (r->0)@.len() ==> (r->0)@[k] < (r->0)@[l]
                    &&& (*final(c)).capture is Some && ((*final(c)).capture->0)@ == (r->0)@
                    &&& (*final(c)).generation != (*c).generation
                }
                &&& r is None ==> *final(c) == *c
            },
{
    assert forall|c: Coordinator<S>| c.edges@.len() <= usize::MAX implies #[trigger] lists_watchable(
        c,
        c.edges@.len(),
    ) by {
        lemma_watchable(c, c.edges@.len());
    }
    assert forall|c: &mut Coordinator<S>, r: Option<Vec<usize>>|
        (#[trigger] call_ensures(Coordinator::<S>::arm, (c, now), r)) && (*c).edges@.len()
            <= usize::MAX implies lists_watchable(*c, (*c).edges@.len()) by {}
}

/// The output of a connection is in use, and so is that of its counterpart.
pub open spec fn watchable<S: InputSink>(c: Coordinator<S>, index: int) -> bool {
    &&& super::crossing::shown(c.desktop.outputs@, c.edges@[index].output@)
    &&& c.peer_desktop matches Some(peer) && exists|j: int| #[trigger]
        super::crossing::first_named(peer.edges@, c.edges@[index].id@, j) && super::crossing::shown(
            peer.outputs@,
            peer.edges@[j].output@,
        )
}

spec fn lists_watchable<S: InputSink>(c: Coordinator<S>, count: nat) -> bool {
    let list = crate::coordinator::connected_among(c.edges@, count, c.desktop, c.peer_desktop);
    &&& list.len() > 0 <==> exists|i: int| 0 <= i < count && #[trigger] watchable(c, i)
    &&& forall|k: int| 0 <= k < list.len() ==> (#[trigger] list[k]) < count && watchable(c, list[k] as int)
    &&& forall|i: int| 0 <= i < count && #[trigger] watchable(c, i) ==> list.contains(i as usize)
    &&& forall|k: int, l: int| 0 <= k < l < list.len() ==> list[k] < list[l]
}

proof fn lemma_watchable<S: InputSink>(c: Coordinator<S>, count: nat)
    requires
        count <= c.edges@.len() <= usize::MAX,
    ensures
        lists_watchable(c, count),
    decreases count,
{
    super::crossing::lemma_indices();
    let list = crate::coordinator::connected_among(c.edges@, count, c.desktop, c.peer_desktop);
    if count > 0 {
        let before = crate::coordinator::connected_among(
            c.edges@,
            (count - 1) as nat,
            c.desktop,
            c.peer_desktop,
        );
        lemma_watchable(c, (count - 1) as nat);
        let edge = c.edges@[count - 1];
        let here = crate::coordinator::connected(edge, c.desktop, c.peer_desktop);
        assert(here == watchable(c, count - 1)) by {
            if c.peer_desktop is Some {
                let peer = c.peer_desktop->0;
                let found = crate::edges::edge_index(peer.edges@, edge.id@);
                if found is Some {
                    assert(super::crossing::first_named(peer.edges@, edge.id@, found->0));
                }
            }
        }
        assert forall|i: int| 0 <= i < count && #[trigger] watchable(c, i) implies list.contains(
            i as usize,
        ) by {
            if i < count - 1 {
                assert(before.contains(i as usize));
                let k = choose|k: int| 0 <= k < before.len() && before[k] == i as usize;
                assert(list[k] == i as usize);
            } else {
                assert(list[before.len() as int] == i as usize);
            }
        }
        if list.len() > 0 {
            assert(watchable(c, list[0] as int));
        }
    }
}

/// A session ends when its connection can no longer be used, on both computers.
pub proof fn lemma_a_session_needs_its_connection<S: InputSink>()
    ensures
        forall|c: &mut Coordinator<S>, r: Result<Vec<Action>, Error>|
            (#[trigger] call_ensures(Coordinator::<S>::refresh, (c,), r)) && r is Ok ==> {
                let role = (*c).role;
                let actions = r->Ok_0@;
                let lost = role.edge_id() is Some && !super::crossing::linked(*c, role.edge_id()->0);
                &&& lost ==> {
                    &&& actions.len() > 0 && ends(actions[0], role.session_id()->0)
                    &&& (*final(c)).role is Local
                    &&& (*final(c)).capture is None
                    &&& (*c).capture is Some ==> actions.last() is StopCapture
                }
                &&& !lost ==> (*final(c)).role == role
            },
{
    assert forall|id: Seq<char>, c: Coordinator<S>| #[trigger] c.usable_id(id)
        <==> super::crossing::linked(c, id) by {
        super::crossing::lemma_usable_means_linked::<S>(id);
    }
}

/// A heartbeat goes out when two hundred milliseconds have passed, under a fresh number, and its
/// answer tells how long it took; a heartbeat of the other computer is answered with its number.
pub proof fn lemma_heartbeats_measure_the_way_there_and_back<S: InputSink>(now: u64, later: u64)
    requires
        now <= later,
    ensures
        forall|c: &mut Coordinator<S>, r: Option<Action>|
            (#[trigger] call_ensures(Coordinator::<S>::beat, (c, now), r)) ==> {
                &&& r is Some <==> now - (*c).last_heartbeat >= 200_000
                &&& r is Some ==> {
                    &&& r->0 matches Action::Send(Message::Ping { nonce }) && nonce == (*c).heartbeat
                    &&& (*final(c)).last_heartbeat == now
                    &&& (*final(c)).heartbeat != (*c).heartbeat
                }
                &&& r is None ==> *final(c) == *c
            },
        forall|c: &mut Coordinator<S>, nonce: u64, r: Option<u64>|
            (#[trigger] call_ensures(Coordinator::<S>::on_pong, (c, nonce, later), r)) ==> {
                &&& r is Some <==> (*c).pings@.contains_key(nonce)
                &&& (*c).pings@.contains_key(nonce) && (*c).pings@[nonce] == now ==> r == Some(
                    (later - now) as u64,
                )
                &&& !(*final(c)).pings@.contains_key(nonce)
                &&& (*final(c)).role == (*c).role
            },
        forall|c: &Coordinator<S>, nonce: u64, r: Action|
            (#[trigger] call_ensures(Coordinator::<S>::on_ping, (c, nonce), r)) ==> (r matches Action::Send(
                Message::Pong { nonce: n },
            ) && n == nonce),
{
}

/// A heartbeat that was sent is remembered with its time, beside those that wait for their answers.
pub proof fn lemma_heartbeats_are_remembered<S: InputSink>(now: u64)
    ensures
        forall|c: &mut Coordinator<S>, r: Option<Action>|
            (#[trigger] call_ensures(Coordinator::<S>::beat, (c, now), r)) && r is Some
                && (*c).pings@.dom().len() < 16 && (*c).pings@.dom().finite() ==> {
                &&& (*final(c)).pings@.contains_key((*c).heartbeat)
                &&& (*final(c)).pings@[(*c).heartbeat] == now
                &&& forall|nonce: u64|
                    nonce != (*c).heartbeat && #[trigger] (*c).pings@.contains_key(nonce) ==> (
                    *final(c)).pings@.contains_key(nonce) && (*final(c)).pings@[nonce]
                        == (*c).pings@[nonce]
            },
{
}

/// A layout that was asked for on this computer is proposed to the other one with the other one's
/// half of it, against the revision that was seen there; sharing stops meanwhile, for six seconds
/// at most.
pub proof fn lemma_a_new_layout_is_proposed<S: InputSink>(id: String, layout: LayoutRequest, now: u64)
    requires
        now <= 1_000_000_000_000,
    ensures
        forall|c: &mut Coordinator<S>, r: Result<Vec<Action>, Error>|
            (#[trigger] call_ensures(Coordinator::<S>::on_apply, (c, id, layout, now), r)) && r is Ok ==> {
                let role = (*c).role;
                let actions = r->Ok_0@;
                &&& actions.len() > 0
                &&& actions.last() matches Action::Send(
                    Message::Layout { message: LayoutMessage::Prepare { id: i, edges, revision } },
                ) && i == id && edges == layout.peer_edges && revision == layout.peer_revision
                &&& !(role is Local) ==> ends(actions[0], role.session_id()->0)
                &&& (*final(c)).role is Local
                &&& (*final(c)).capture is None
                &&& (*final(c)).pending_layout matches Some(p) && p.id == id && p.initiator && p.deadline
                    == now + 6_000_000
            },
{
}

/// A layout that the other computer proposed is answered with its identifier; sharing stops here
/// too.
pub proof fn lemma_a_proposed_layout_is_answered<S: InputSink>(id: String, now: u64)
    requires
        now <= 1_000_000_000_000,
    ensures
        forall|c: &mut Coordinator<S>, r: Result<Vec<Action>, Error>|
            (#[trigger] call_ensures(Coordinator::<S>::on_prepare, (c, id, now), r)) && r is Ok ==> {
                let actions = r->Ok_0@;
                &&& actions.len() > 0
                &&& actions.last() matches Action::Send(
                    Message::Layout { message: LayoutMessage::Prepared { id: i, ok, error } },
                ) && i == id && ok && error is None
                &&& (*final(c)).role is Local
                &&& (*final(c)).capture is None
                &&& (*final(c)).pending_layout matches Some(p) && p.id == id && !p.initiator && p.deadline
                    == now + 6_000_000
            },
        forall|c: &Coordinator<S>, code: String, r: Action|
            (#[trigger] call_ensures(Coordinator::<S>::refuse_prepare, (c, id, code), r)) ==> (
            r matches Action::Send(
                Message::Layout { message: LayoutMessage::Prepared { id: i, ok, error } },
            ) && i == id && !ok && error == Some(code)),
{
}

/// A layout can be applied exactly while none is pending, both computers are unlocked, it is valid,
/// the other computer is there with the revision that was seen, and this one's file can be saved.
pub proof fn lemma_when_a_layout_may_change<S: InputSink>(layout: LayoutRequest)
    ensures
        forall|c: &Coordinator<S>, r: Result<(), Error>|
            (#[trigger] call_ensures(Coordinator::<S>::check_apply, (c, &layout), r)) ==> (r is Ok
                <==> {
                &&& c.pending_layout is None
                &&& c.local_ready
                &&& c.peer_ready
                &&& layout.problem() is None
                &&& c.peer_desktop matches Some(peer) && peer.revision@ == layout.peer_revision@
                &&& c.saveable
            }),
        forall|c: &Coordinator<S>, r: Result<(), Error>|
            (#[trigger] call_ensures(Coordinator::<S>::check_prepare, (c,), r)) ==> (r is Ok <==> {
                &&& c.pending_layout is None
                &&& c.local_ready
                &&& c.peer_ready
                &&& c.saveable
            }),
{
}

/// A layout change under way here has an identifier and comes from this computer or does not.
pub open spec fn changing<S: InputSink>(c: Coordinator<S>, id: Seq<char>, initiator: bool) -> bool {
    c.pending_layout matches Some(p) && p.id@ == id && p.initiator == initiator
}

/// The answer to a proposal counts only for the change that was proposed here: then it leads to a
/// commit where the other computer is ready, and to a refusal with its code where it is not.
pub proof fn lemma_agreement_decides<S: InputSink>(id: String, ok: bool, error: Option<String>)
    ensures
        forall|c: &Coordinator<S>, r: Agreement|
            (#[trigger] call_ensures(Coordinator::<S>::on_prepared, (c, &id, ok, error), r)) ==> {
                &&& r is Ignored <==> !changing(*c, id@, true)
                &&& r is Commit <==> changing(*c, id@, true) && ok
                &&& r matches Agreement::Refused(code) ==> !ok && (error is Some ==> code@ == (
                error->0)@)
            },
        forall|c: &Coordinator<S>, r: bool|
            (#[trigger] call_ensures(Coordinator::<S>::commits, (c, &id), r)) ==> r == changing(
                *c,
                id@,
                false,
            ),
{
}

/// Once this computer has committed, the other one is asked to; where it has not, the change is
/// called off on both, the asker hears why, and what was prepared is discarded.
pub proof fn lemma_a_change_is_committed_on_both_or_none<S: InputSink>(id: String, failure: Option<String>)
    ensures
        forall|c: &mut Coordinator<S>, r: Vec<Action>|
            (#[trigger] call_ensures(Coordinator::<S>::on_agreed, (c, id, failure), r)) ==> {
                &&& failure is None ==> {
                    &&& r@.len() == 1
                    &&& r@[0] matches Action::Send(
                        Message::Layout { message: LayoutMessage::Commit { id: i } },
                    ) && i == id
                    &&& (*final(c)).pending_layout == (*c).pending_layout
                }
                &&& failure is Some ==> {
                    &&& r@.len() == 3
                    &&& r@[0] matches Action::Send(
                        Message::Layout { message: LayoutMessage::Abort { id: i } },
                    ) && i == id
                    &&& r@[1] matches Action::ReplyFailure(code) && code == failure->0
                    &&& r@[2] is DiscardLayout
                    &&& (*final(c)).pending_layout is None
                }
            },
{
}

/// The other computer's request to commit is answered with how it went: with the new revision,
/// which is final then, or with the error, and then nothing is kept.
pub proof fn lemma_a_commit_is_reported<S: InputSink>(id: String, outcome: Result<String, String>)
    ensures
        forall|c: &mut Coordinator<S>, r: Vec<Action>|
            (#[trigger] call_ensures(Coordinator::<S>::on_committed, (c, id, outcome), r)) ==> {
                &&& (*final(c)).pending_layout is None
                &&& outcome is Ok ==> {
                    &&& r@.len() == 3
                    &&& r@[0] is FinishLayout
                    &&& r@[1] matches Action::Send(
                        Message::Layout {
                            message: LayoutMessage::Result { id: i, ok, revision, error },
                        },
                    ) && i == id && ok && revision == Some(outcome->Ok_0) && error is None
                    &&& r@[2] is Reconnect
                }
                &&& outcome is Err ==> {
                    &&& r@.len() == 2
                    &&& r@[0] matches Action::Send(
                        Message::Layout {
                            message: LayoutMessage::Result { id: i, ok, revision, error },
                        },
                    ) && i == id && !ok && revision is None && error == Some(outcome->Err_0)
                    &&& r@[1] is DiscardLayout
                }
            },
{
}

/// The asker hears of success, with the other computer's revision, exactly when the other computer
/// has committed too; otherwise what was prepared is discarded and the asker hears why. What was
/// not asked for here is not answered.
pub proof fn lemma_the_asker_hears_the_result<S: InputSink>(
    id: String,
    ok: bool,
    revision: Option<String>,
    error: Option<String>,
)
    ensures
        forall|c: &mut Coordinator<S>, r: Vec<Action>|
            (#[trigger] call_ensures(
                Coordinator::<S>::on_result,
                (c, &id, ok, revision, error),
                r,
            )) ==> {
                let mine = changing(*c, id@, true);
                &&& mine ==> (*final(c)).pending_layout is None
                &&& mine && ok ==> {
                    &&& r@.len() == 3
                    &&& r@[0] is FinishLayout
                    &&& r@[1] matches Action::ReplyApplied { peer_revision } && peer_revision
                        == revision
                    &&& r@[2] is Reconnect
                }
                &&& mine && !ok ==> {
                    &&& r@.len() == 2
                    &&& r@[0] matches Action::ReplyFailure(code) && (error is Some ==> code@ == (
                    error->0)@)
                    &&& r@[1] is DiscardLayout
                }
                &&& !mine ==> r@.len() == 0 && *final(c) == *c
            },
{
}

/// A change that the other computer calls off, or that is not confirmed in time, is discarded; who
/// asked for it here hears that it was not confirmed. Before its time it stays.
pub proof fn lemma_an_unconfirmed_change_is_called_off<S: InputSink>(id: String, now: u64)
    ensures
        forall|c: &mut Coordinator<S>, r: Vec<Action>|
            (#[trigger] call_ensures(Coordinator::<S>::on_abort, (c, &id), r)) ==> {
                let known = changing(*c, id@, true) || changing(*c, id@, false);
                &&& known ==> {
                    &&& (*final(c)).pending_layout is None
                    &&& r@.len() > 0 && r@.last() is DiscardLayout
                    &&& changing(*c, id@, true) <==> r@[0] is ReplyFailure
                }
                &&& !known ==> r@.len() == 0 && *final(c) == *c
            },
        forall|c: &mut Coordinator<S>, r: Vec<Action>|
            (#[trigger] call_ensures(Coordinator::<S>::expire_layout, (c, now), r)) ==> {
                let over = (*c).pending_layout is Some && now >= ((*c).pending_layout->0).deadline;
                &&& over ==> {
                    let pending = (*c).pending_layout->0;
                    &&& (*final(c)).pending_layout is None
                    &&& r@.len() > 1 && r@.last() is DiscardLayout
                    &&& r@[0] matches Action::Send(
                        Message::Layout { message: LayoutMessage::Abort { id: i } },
                    ) && i == pending.id
                    &&& pending.initiator <==> r@[1] is ReplyFailure
                }
                &&& !over ==> r@.len() == 0 && *final(c) == *c
            },
{
    assert forall|c: &mut Coordinator<S>, r: Vec<Action>|
        (#[trigger] call_ensures(Coordinator::<S>::expire_layout, (c, now), r)) && (
        *c).pending_layout is Some && now >= ((*c).pending_layout->0).deadline implies {
        &&& r@.len() > 1 && r@.last() is DiscardLayout
        &&& ((*c).pending_layout->0).initiator <==> r@[1] is ReplyFailure
    } by {
        let rest = r@.skip(1);
        assert(rest.len() == r@.len() - 1);
        assert(rest[0] == r@[1]);
        assert(rest.last() == r@.last());
    }
}

/// A new connection greets the other computer with this one's desktop, its touchpads and whether it
/// is locked, in this order, and shares nothing yet.
pub proof fn lemma_a_connection_starts_with_what_there_is<S: InputSink>(
    edges: Vec<EdgeConfig>,
    saveable: bool,
    desktop: Desktop,
    sink: S,
    touchpads: Vec<Descriptor>,
    physical_keyboard: bool,
    unlocked: bool,
    now: u64,
)
    ensures
        forall|r: Result<(Coordinator<S>, Vec<Action>), (Receiver<S>, Error)>|
            (#[trigger] call_ensures(
                Coordinator::<S>::new,
                (edges, saveable, desktop, sink, touchpads, physical_keyboard, unlocked, now),
                r,
            )) && r is Ok ==> {
                let c = (r->Ok_0).0;
                let actions = (r->Ok_0).1@;
                &&& actions.len() == 3
                &&& actions[0] matches Action::Send(Message::Desktop { info }) && info.revision@
                    == desktop.revision@ && info.edges@.len() == desktop.edges@.len()
                    && info.outputs@.len() == desktop.outputs@.len()
                &&& actions[1] matches Action::Send(Message::Touchpads { devices }) && devices == touchpads
                &&& actions[2] matches Action::Send(Message::LockState { locked }) && locked == !unlocked
                &&& c.edges == edges
                &&& c.desktop == desktop
                &&& c.saveable == saveable
                &&& c.physical_keyboard == physical_keyboard
                &&& c.local_ready == unlocked
                &&& !c.peer_ready
                &&& c.role is Local
                &&& c.capture is None
                &&& c.pending_layout is None
                &&& c.peer_desktop is None
                &&& c.next_session == 1
            },
{
}

/// What the other computer says of its desktop is kept; this one's outputs are kept and sent on.
pub proof fn lemma_desktops_are_exchanged<S: InputSink>(info: Desktop, outputs: Vec<ActiveOutput>)
    ensures
        forall|c: &mut Coordinator<S>, r: ()|
            (#[trigger] call_ensures(Coordinator::<S>::on_desktop, (c, info), r)) ==> {
                &&& (*final(c)).peer_desktop == Some(info)
                &&& (*final(c)).desktop == (*c).desktop
                &&& (*final(c)).role == (*c).role
            },
        forall|c: &mut Coordinator<S>, r: Action|
            (#[trigger] call_ensures(Coordinator::<S>::on_outputs, (c, outputs), r)) ==> {
                &&& (*final(c)).desktop.outputs == outputs
                &&& (*final(c)).desktop.edges == (*c).desktop.edges
                &&& (*final(c)).peer_desktop == (*c).peer_desktop
                &&& r matches Action::Send(Message::Desktop { info }) && info.outputs@.len()
                    == outputs@.len() && forall|i: int|
                    0 <= i < outputs@.len() ==> (#[trigger] info.outputs@[i]).name@ == outputs@[i].name@
                        && info.outputs@[i].logical == outputs@[i].logical
            },
{
}

/// The backend gets the other computer's touchpads once, before anything is shared.
pub proof fn lemma_touchpads_are_negotiated_once<S: InputSink>(devices: Vec<Descriptor>)
    ensures
        forall|c: &mut Coordinator<S>, r: Result<(), Error>|
            (#[trigger] call_ensures(Coordinator::<S>::on_touchpads, (c, &devices), r)) ==> {
                let before = (*c).receiver.sink.log();
                let after = (*final(c)).receiver.sink.log();
                &&& (*c).peer_touchpads_configured ==> r is Err && *final(c) == *c
                &&& r is Ok ==> {
                    &&& devices@.len() <= 4
                    &&& after.len() == before.len() + 1
                    &&& after.last().request == crate::receiver::Request::ConfigureTouchpads(
                        devices@,
                    )
                    &&& (*final(c)).peer_touchpads_configured
                }
            },
{
}

/// A capture that is gone ends the session that it fed, and only that.
pub proof fn lemma_a_lost_capture_ends_what_it_fed<S: InputSink>(now: u64)
    ensures
        forall|c: &mut Coordinator<S>, r: Vec<Action>|
            (#[trigger] call_ensures(Coordinator::<S>::on_capture_gone, (c, now), r)) ==> {
                let role = (*c).role;
                &&& (*final(c)).capture is None
                &&& (*c).capture is Some ==> r@.len() > 0 && r@[0] is StopCapture
                &&& (*c).capture is Some && role is Sending ==> r@.len() == 2 && ends(
                    r@[1],
                    role->Sending_session,
                ) && (*final(c)).role is Local
                &&& !(role is Sending) ==> (*final(c)).role == role && r@.len() <= 1
            },
{
}

/// Failing to let go of the input outranks what the connection came to, and the capture comes
/// before the backend.
pub proof fn lemma_letting_go_comes_first(capture_released: bool, release: Result<(), Error>)
    ensures
        forall|r: Ending|
            (#[trigger] call_ensures(crate::coordinator::ending, (capture_released, release), r)) ==> {
                &&& r is CaptureStuck <==> !capture_released
                &&& r is Outcome <==> capture_released && release is Ok
                &&& r matches Ending::ReleaseFailed(e) ==> release is Err && release->Err_0 == e
            },
{
}

/// After control has changed hands, for whatever reason, the edges stay quiet for a hundred and fifty
/// milliseconds.
pub proof fn lemma_edges_stay_quiet_for_a_moment<S: InputSink>(
    now: u64,
    session: u64,
    exit: Option<crate::edges::EdgePosition>,
    generation: u64,
    reason: StopCause,
    code: u16,
)
    requires
        now <= 1_000_000_000_000,
    ensures
        forall|c: &mut Coordinator<S>, r: Result<Vec<Action>, Error>|
            (#[trigger] call_ensures(Coordinator::<S>::on_end, (c, session, exit, now), r)) && r is Ok && (
            sends((*c).role, session) || receives((*c).role, session)) ==> (*final(c)).rearm_at == now
                + 150_000,
        forall|c: &mut Coordinator<S>, r: Result<Vec<Action>, Error>|
            (#[trigger] call_ensures(Coordinator::<S>::on_physical, (c, now), r)) && r is Ok && (
            *c).role is Receiving ==> (*final(c)).rearm_at == now + 150_000,
        forall|c: &mut Coordinator<S>, r: Result<Vec<Action>, Error>|
            (#[trigger] call_ensures(Coordinator::<S>::on_finished, (c, generation, reason, now), r))
                && r is Ok && (*c).generation == generation && (*c).capture is Some ==> (
            *final(c)).rearm_at == now + 150_000,
        forall|c: &mut Coordinator<S>, r: Vec<Action>|
            (#[trigger] call_ensures(Coordinator::<S>::on_capture_gone, (c, now), r)) && (
            *c).capture is Some ==> (*final(c)).rearm_at == now + 150_000,
        forall|c: &mut Coordinator<S>, r: Result<Vec<Action>, Error>|
            (#[trigger] call_ensures(
                Coordinator::<S>::on_key,
                (c, (InputEvent::Key { code: 1, pressed: true }), now),
                r,
            )) && (*c).role is Sending && chord((*c).source_keys@, 1, true) ==> (*final(c)).rearm_at
                == now + 150_000,
{
}

/// Crossing an edge with the emergency chord held opens no session: the capture stops instead, and
/// the edges stay quiet. So it does for a crossing that makes no sense; one of an old capture is
/// ignored.
pub proof fn lemma_crossings_that_open_nothing<S: InputSink>(
    generation: u64,
    edge: usize,
    fraction: crate::number::Binary64,
    held: std::collections::BTreeSet<u16>,
    now: u64,
)
    requires
        now <= 1_000_000_000_000,
    ensures
        forall|c: &mut Coordinator<S>, r: Result<Vec<Action>, Error>|
            (#[trigger] call_ensures(
                Coordinator::<S>::on_started,
                (c, generation, edge, fraction, &held, now),
                r,
            )) ==> {
                let current = (*c).generation == generation && (*c).capture is Some;
                let known = (*c).capture is Some && edge < ((*c).capture->0)@.len();
                &&& !current ==> r is Ok && r->Ok_0@.len() == 0 && *final(c) == *c
                &&& current && !known ==> r is Ok && r->Ok_0@.len() == 1 && r->Ok_0@[0] is StopCapture && (
                *final(c)).role == (*c).role && (*final(c)).capture is None
                &&& current && known && (*c).role is Sending ==> r is Ok && r->Ok_0@.len() == 1
                    && r->Ok_0@[0] is StopCapture && (*final(c)).role == (*c).role
                &&& current && known && (*c).role is Local && (*c).local_ready && (*c).peer_ready && chord(
                    held@,
                    1,
                    true,
                ) && held@.contains(1) ==> {
                    &&& r is Ok && r->Ok_0@.len() == 1 && r->Ok_0@[0] is StopCapture
                    &&& (*final(c)).role is Local && (*final(c)).capture is None
                    &&& (*final(c)).rearm_at == now + 150_000
                    &&& (*final(c)).next_session == (*c).next_session
                }
            },
{
}

/// The capture follows the connections that can be used: one that watches others is stopped, unless
/// input depends on it; one that watches the right ones goes on.
pub proof fn lemma_the_capture_follows_the_connections<S: InputSink>()
    ensures
        forall|c: &mut Coordinator<S>, r: Result<Vec<Action>, Error>|
            (#[trigger] call_ensures(Coordinator::<S>::refresh, (c,), r)) && r is Ok && !(*c).cut_off() ==> {
                let stale = (*c).capture is Some && ((*c).capture->0)@ != (*c).usable() && !(
                (*c).role is Sending);
                &&& stale ==> r->Ok_0@.len() == 1 && r->Ok_0@[0] is StopCapture && (
                *final(c)).capture is None
                &&& !stale ==> r->Ok_0@.len() == 0 && *final(c) == *c
            },
        forall|c: Coordinator<S>|
            (#[trigger] c.cut_off()) ==> c.role.edge_id() is Some && !super::crossing::linked(
                c,
                c.role.edge_id()->0,
            ),
{
    assert forall|id: Seq<char>, c: Coordinator<S>| #[trigger] c.usable_id(id)
        <==> super::crossing::linked(c, id) by {
        super::crossing::lemma_usable_means_linked::<S>(id);
    }
}

/// What the coordinator says of itself.
pub proof fn lemma_what_the_coordinator_says_of_itself<S: InputSink>(generation: u64, session: u64, content: Seq<char>)
    ensures
        forall|c: &mut Coordinator<S>, r: ()|
            (#[trigger] call_ensures(Coordinator::<S>::on_armed, (c, generation), r)) && (*c).generation
                == generation && (*c).capture is Some ==> (*final(c)).armed_generation
                == Some(generation) && (*final(c)).role == (*c).role,
        forall|c: &Coordinator<S>, r: bool|
            (#[trigger] call_ensures(Coordinator::<S>::capture_ready, (c,), r)) ==> (r
                <==> c.capture is Some && c.armed_generation == Some(c.generation)),
        forall|c: &Coordinator<S>, r: bool|
            (#[trigger] call_ensures(Coordinator::<S>::starting, (c, generation), r)) ==> (r
                <==> c.generation == generation && c.capture is Some && c.role is Local && c.local_ready
                && c.peer_ready),
        forall|c: &Coordinator<S>, r: bool|
            (#[trigger] call_ensures(Coordinator::<S>::wants_sample, (c,), r)) ==> (r <==> c.local_ready
                && c.peer_ready),
        forall|c: &Coordinator<S>, r: bool|
            (#[trigger] call_ensures(Coordinator::<S>::receiving, (c, session), r)) ==> (r <==> receives(
                c.role,
                session,
            )),
        forall|c: &Coordinator<S>, id: &str, r: bool|
            (#[trigger] call_ensures(Coordinator::<S>::could_receive, (c, id), r)) && id@ == content ==> (r
                <==> c.role is Local && c.local_ready && c.peer_ready && c.pending_layout is None
                && super::crossing::linked(*c, content)),
        forall|c: &Coordinator<S>, r: Error|
            (#[trigger] call_ensures(Coordinator::<S>::on_hello, (c,), r)) ==> r is HandshakeRepeated,
        forall|role: &Role, r: &'static str|
            (#[trigger] call_ensures(Role::name, (role,), r)) ==> {
                &&& role is Local ==> r@ == "local"@
                &&& role is Sending ==> r@ == "sending"@
                &&& role is Receiving ==> r@ == "receiving"@
            },
        forall|role: &Role, r: Option<u64>|
            (#[trigger] call_ensures(Role::session, (role,), r)) ==> {
                &&& r is None <==> role is Local
                &&& r is Some ==> sends(*role, r->0) || receives(*role, r->0)
            },
{
    super::crossing::lemma_usable_means_linked::<S>(content);
}

/// What the status gives as a reason: that no connection can be used, once the other computer is
/// known.
pub proof fn lemma_why_nothing_is_shared<S: InputSink>()
    ensures
        forall|c: &Coordinator<S>, r: Option<&'static str>|
            (#[trigger] call_ensures(Coordinator::<S>::reason, (c,), r)) && c.edges@.len() <= usize::MAX ==> {
                &&& r is Some <==> c.peer_desktop is Some && !(exists|i: int|
                    0 <= i < c.edges@.len() && #[trigger] watchable(*c, i))
                &&& r is Some ==> (r->0)@ == "output_unavailable"@
            },
{
    assert forall|c: Coordinator<S>| c.edges@.len() <= usize::MAX implies #[trigger] lists_watchable(
        c,
        c.edges@.len(),
    ) by {
        lemma_watchable(c, c.edges@.len());
    }
    assert forall|c: &Coordinator<S>, r: Option<&'static str>|
        (#[trigger] call_ensures(Coordinator::<S>::reason, (c,), r)) && c.edges@.len() <= usize::MAX implies
        lists_watchable(*c, c.edges@.len()) by {}
}

/// At most sixteen heartbeats wait for their answers; where there would be more, the one with the
/// smallest number is forgotten.
pub proof fn lemma_the_oldest_heartbeat_is_forgotten<S: InputSink>(now: u64)
    ensures
        forall|c: &mut Coordinator<S>, r: Option<Action>, kept: u64, smaller: u64|
            (#[trigger] call_ensures(Coordinator::<S>::beat, (c, now), r)) && r is Some && (
            #[trigger] (*c).pings@.contains_key(kept)) && kept != (*c).heartbeat && smaller < kept && (
            smaller == (*c).heartbeat || #[trigger] (*c).pings@.contains_key(smaller)) ==> (
            *final(c)).pings@.contains_key(kept) && (*final(c)).pings@[kept] == (*c).pings@[kept],
{
    assert forall|c: &mut Coordinator<S>, r: Option<Action>, kept: u64, smaller: u64|
        (#[trigger] call_ensures(Coordinator::<S>::beat, (c, now), r)) && r is Some && (
        #[trigger] (*c).pings@.contains_key(kept)) && kept != (*c).heartbeat && smaller < kept && (
        smaller == (*c).heartbeat || #[trigger] (*c).pings@.contains_key(smaller)) implies (
    *final(c)).pings@.contains_key(kept) && (*final(c)).pings@[kept] == (*c).pings@[kept] by {
        let all = (*c).pings@.insert((*c).heartbeat, now);
        assert(all.contains_key(smaller) && all.contains_key(kept));
        assert(all[kept] == (*c).pings@[kept]);
    }
}

/// Where a layout change was not confirmed in time or was called off, whoever asked for it is told
/// just that.
pub proof fn lemma_what_is_told_of_an_unconfirmed_change<S: InputSink>(id: String, now: u64)
    ensures
        forall|c: &mut Coordinator<S>, r: Vec<Action>|
            (#[trigger] call_ensures(Coordinator::<S>::on_abort, (c, &id), r)) && changing(*c, id@, true)
                ==> (r@[0] matches Action::ReplyFailure(code) && code@ == "layout_unconfirmed"@),
        forall|c: &mut Coordinator<S>, r: Vec<Action>|
            (#[trigger] call_ensures(Coordinator::<S>::expire_layout, (c, now), r)) && (
            *c).pending_layout is Some && now >= ((*c).pending_layout->0).deadline && ((
            *c).pending_layout->0).initiator ==> (r@[1] matches Action::ReplyFailure(code) && code@
                == "layout_unconfirmed"@),
{
    assert forall|c: &mut Coordinator<S>, r: Vec<Action>|
        (#[trigger] call_ensures(Coordinator::<S>::expire_layout, (c, now), r)) && (
        *c).pending_layout is Some && now >= ((*c).pending_layout->0).deadline && ((
        *c).pending_layout->0).initiator implies (r@[1] matches Action::ReplyFailure(code) && code@
        == "layout_unconfirmed"@) by {
        let rest = r@.skip(1);
        assert(rest[0] == r@[1]);
    }
}

} // verus!
