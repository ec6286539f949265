//! How control moves between two computers, and where the pointer goes.
use crate::coordinator::{Action, Coordinator, Role};
use crate::edges::{EdgeConfig, EdgePosition};
use crate::error::Error;
use crate::niri::ActiveOutput;
use crate::number::Binary64;
use crate::protocol::{InputEvent, Message};
use crate::receiver::InputSink;
use std::collections::BTreeSet;
use vstd::prelude::*;

verus! {

/// An action places the pointer on a connection of a name, at a fraction of its span.
pub open spec fn places_at(action: Action, edges: Seq<EdgeConfig>, id: Seq<char>, fraction: Binary64) -> bool {
    action matches Action::Place { edge, fraction: f } && f == fraction && edge < edges.len()
        && edges[edge as int].id@ == id
}

/// No other action than the one at an index places the pointer.
pub open spec fn only_place(actions: Seq<Action>, index: int) -> bool {
    forall|i: int| 0 <= i < actions.len() && i != index ==> !((#[trigger] actions[i]) is Place)
}

/// An action ends a session for the other computer.
pub open spec fn ends(action: Action, session: u64) -> bool {
    action matches Action::Send(Message::End { session: s, exit }) && s == session && exit is None
}

/// An action hands an event of a session on, under a number.
pub open spec fn hands_on(action: Action, session: u64, sequence: u64, event: InputEvent) -> bool {
    action matches Action::Send(Message::Input { session: s, sequence: n, event: e }) && s == session
        && n == sequence && e == event
}

pub open spec fn shown(outputs: Seq<ActiveOutput>, name: Seq<char>) -> bool {
    exists|i: int| 0 <= i < outputs.len() && (#[trigger] outputs[i]).name@ == name
}

/// The first connection of a name among some.
pub open spec fn first_named(edges: Seq<EdgeConfig>, id: Seq<char>, index: int) -> bool {
    &&& 0 <= index < edges.len()
    &&& edges[index].id@ == id
    &&& forall|j: int| 0 <= j < index ==> (#[trigger] edges[j]).id@ != id
}

pub open spec fn named(edges: Seq<EdgeConfig>, id: Seq<char>) -> bool {
    exists|i: int| #[trigger] first_named(edges, id, i)
}

pub open spec fn sends(role: Role, session: u64) -> bool {
    role matches Role::Sending { session: s, .. } && s == session
}

pub open spec fn receives(role: Role, session: u64) -> bool {
    role matches Role::Receiving { session: s, .. } && s == session
}

/// A connection of a name, and its counterpart on the other computer, are on outputs in use.
pub open spec fn linked<S: InputSink>(c: Coordinator<S>, id: Seq<char>) -> bool {
    &&& exists|i: int| #[trigger]
        first_named(c.edges@, id, i) && shown(c.desktop.outputs@, c.edges@[i].output@)
    &&& c.peer_desktop matches Some(peer) && exists|j: int| #[trigger]
        first_named(peer.edges@, id, j) && shown(peer.outputs@, peer.edges@[j].output@)
}

proof fn lemma_index(edges: Seq<EdgeConfig>, id: Seq<char>)
    ensures
        crate::edges::edge_index(edges, id) matches Some(i) ==> first_named(edges, id, i),
        crate::edges::edge_index(edges, id) is None ==> forall|j: int|
            0 <= j < edges.len() ==> (#[trigger] edges[j]).id@ != id,
    decreases edges.len(),
{
    if edges.len() > 0 && edges[0].id@ != id {
        let rest = edges.drop_first();
        lemma_index(rest, id);
        assert forall|j: int| 0 < j < edges.len() implies edges[j] == #[trigger] rest[j - 1] by {}
        match crate::edges::edge_index(rest, id) {
            Some(i) => {
                assert forall|j: int| 0 <= j < i + 1 implies (#[trigger] edges[j]).id@ != id by {
                    if j > 0 {
                        assert(rest[j - 1].id@ != id);
                    }
                }
            },
            None => {
                assert forall|j: int| 0 <= j < edges.len() implies (#[trigger] edges[j]).id@ != id by {
                    if j > 0 {
                        assert(rest[j - 1].id@ != id);
                    }
                }
            },
        }
    }
}

/// Which connection an identifier stands for.
pub proof fn lemma_indices()
    ensures
        forall|edges: Seq<EdgeConfig>, id: Seq<char>| #[trigger]
            crate::edges::edge_index(edges, id) is Some ==> first_named(
                edges,
                id,
                crate::edges::edge_index(edges, id)->0,
            ),
        forall|edges: Seq<EdgeConfig>, id: Seq<char>, i: int|
            (#[trigger] crate::edges::edge_index(edges, id)) is None ==> !#[trigger] first_named(
                edges,
                id,
                i,
            ),
        forall|edges: Seq<EdgeConfig>, id: Seq<char>, i: int|
            crate::edges::edge_index(edges, id) is Some && #[trigger] first_named(edges, id, i) ==> i
                == crate::edges::edge_index(edges, id)->0,
{
    assert forall|edges: Seq<EdgeConfig>, id: Seq<char>| #[trigger]
        crate::edges::edge_index(edges, id) is Some implies first_named(
        edges,
        id,
        crate::edges::edge_index(edges, id)->0,
    ) by {
        lemma_index(edges, id);
    }
    assert forall|edges: Seq<EdgeConfig>, id: Seq<char>, i: int|
        (#[trigger] crate::edges::edge_index(edges, id)) is None implies !#[trigger] first_named(
        edges,
        id,
        i,
    ) by {
        lemma_index(edges, id);
    }
    assert forall|edges: Seq<EdgeConfig>, id: Seq<char>, i: int|
        crate::edges::edge_index(edges, id) is Some && #[trigger] first_named(
            edges,
            id,
            i,
        ) implies i == crate::edges::edge_index(edges, id)->0 by {
        lemma_index(edges, id);
        let k = crate::edges::edge_index(edges, id)->0;
        if i < k {
            assert(edges[i].id@ != id);
        }
        if k < i {
            assert(edges[k].id@ != id);
        }
    }
}

/// A connection can be used exactly if it and its counterpart are on outputs in use.
pub proof fn lemma_usable_means_linked<S: InputSink>(id: Seq<char>)
    ensures
        forall|c: Coordinator<S>| #[trigger] c.usable_id(id) <==> linked(c, id),
{
    lemma_indices();
    assert forall|c: Coordinator<S>| #[trigger] c.usable_id(id) <==> linked(c, id) by {
        match crate::edges::edge_index(c.edges@, id) {
            Some(i) => {
                assert(first_named(c.edges@, id, i));
                assert(c.edges@[i].id@ == id);
                if c.peer_desktop is Some {
                    let peer = c.peer_desktop->0;
                    match crate::edges::edge_index(peer.edges@, id) {
                        Some(j) => {
                            assert(first_named(peer.edges@, id, j));
                        },
                        None => {},
                    }
                }
            },
            None => {},
        }
    }
}

/// The other computer takes control exactly where this one is idle and unlocked, as the other one
/// is, nobody uses it, no layout changes and the connection can be used. It is told the end of
/// the session it asked for otherwise; a second session is an error.
pub proof fn lemma_who_may_take_control<S: InputSink>(session: u64, entry: EdgePosition, physical: bool)
    ensures
        forall|c: &mut Coordinator<S>, r: Result<Vec<Action>, Error>|
            (#[trigger] call_ensures(Coordinator::<S>::on_begin, (c, session, entry, physical), r))
                && session != 0 && (*c).receiver.pending_releases@ == Set::<u16>::empty() ==> {
                let fit = (*c).role is Local && (*c).local_ready && (*c).peer_ready
                    && (*c).pending_layout is None && !physical && linked(*c, entry.edge_id@);
                &&& fit ==> r is Ok && ((*final(c)).role matches Role::Receiving {
                    session: s,
                    edge_id,
                } && s == session && edge_id@ == entry.edge_id@)
                &&& (*c).role is Receiving ==> r is Err && (*final(c)).role == (*c).role
                &&& !fit && !((*c).role is Receiving) ==> {
                    &&& r is Ok
                    &&& r->Ok_0@.len() == 1
                    &&& ends(r->Ok_0@[0], session)
                    &&& (*final(c)).role == (*c).role
                }
            },
{
    lemma_usable_means_linked::<S>(entry.edge_id@);
}

/// A session that is accepted places the pointer, once, where it crossed: on the connection of that
/// name and at that fraction of it.
pub proof fn lemma_entry_is_where_the_pointer_crossed<S: InputSink>(
    session: u64,
    entry: EdgePosition,
    physical: bool,
)
    ensures
        forall|c: &mut Coordinator<S>, r: Result<Vec<Action>, Error>|
            (#[trigger] call_ensures(Coordinator::<S>::on_begin, (c, session, entry, physical), r))
                && (*c).edges@.len() <= usize::MAX && (*c).role is Local && (*final(c)).role is Receiving
                && r is Ok ==> {
                &&& r->Ok_0@.len() == 1
                &&& places_at(r->Ok_0@[0], (*c).edges@, entry.edge_id@, entry.fraction)
            },
{
    lemma_indices();
}

/// When the other computer ends a session that this one has opened, the pointer is placed, once and
/// last, where it came out: at the named connection and fraction, if that connection is known
/// here, else where it had left. A session that is not open is not ended.
pub proof fn lemma_return_is_where_the_pointer_came_out<S: InputSink>(
    session: u64,
    exit: Option<EdgePosition>,
    now: u64,
)
    ensures
        forall|c: &mut Coordinator<S>, r: Result<Vec<Action>, Error>|
            (#[trigger] call_ensures(Coordinator::<S>::on_end, (c, session, exit, now), r))
                && (*c).edges@.len() <= usize::MAX && r is Ok ==> {
                let actions = r->Ok_0@;
                let origin = (*c).role->origin;
                let came_out = exit is Some && named((*c).edges@, (exit->0).edge_id@);
                &&& sends((*c).role, session) && named((*c).edges@, origin.edge_id@) ==> {
                    &&& actions.len() > 0
                    &&& only_place(actions, actions.len() - 1)
                    &&& (*final(c)).role is Local
                    &&& came_out ==> places_at(
                        actions.last(),
                        (*c).edges@,
                        (exit->0).edge_id@,
                        (exit->0).fraction,
                    )
                    &&& !came_out ==> places_at(
                        actions.last(),
                        (*c).edges@,
                        origin.edge_id@,
                        origin.fraction,
                    )
                }
                &&& receives((*c).role, session) ==> {
                    &&& (*final(c)).role is Local
                    &&& only_place(actions, -1)
                }
                &&& !sends((*c).role, session) && !receives((*c).role, session) ==> {
                    &&& actions.len() == 0
                    &&& *final(c) == *c
                }
            },
{
    lemma_indices();
}

/// Crossing an edge while this computer is in control opens a session: the first message names the
/// connection that was crossed and where, then the held keys follow as presses, smallest first and
/// numbered from zero. The place is remembered for the return.
pub proof fn lemma_crossing_opens_a_session<S: InputSink>(
    generation: u64,
    edge: usize,
    fraction: Binary64,
    held: BTreeSet<u16>,
    now: u64,
)
    ensures
        forall|c: &mut Coordinator<S>, r: Result<Vec<Action>, Error>|
            (#[trigger] call_ensures(
                Coordinator::<S>::on_started,
                (c, generation, edge, fraction, &held, now),
                r,
            )) && (*c).wf() && (*c).role is Local && (*c).local_ready && (*c).peer_ready && (*c).generation
                == generation && ((*c).capture matches Some(armed) && edge < armed@.len())
                && (*c).next_session < u64::MAX && !(held@.contains(1) && (held@.contains(29)
                || held@.contains(97)) && (held@.contains(56) || held@.contains(100)) && (
            held@.contains(42) || held@.contains(54))) ==> {
                let actions = r->Ok_0@;
                let crossed = (*c).edges@[(*c).capture->0@[edge as int] as int].id@;
                let session = (*c).next_session;
                &&& r is Ok
                &&& actions.len() > 0
                &&& actions[0] matches Action::Send(Message::Begin { session: s, entry }) && s
                    == session && entry.edge_id@ == crossed && entry.fraction == fraction
                &&& (*final(c)).role matches Role::Sending { session: s, sequence, origin } && s
                    == session && sequence == actions.len() - 1 && origin.edge_id@ == crossed
                    && origin.fraction == fraction
                &&& (*final(c)).next_session == session + 1
                &&& (*final(c)).source_keys@ == held@
                &&& presses_follow(actions, session, held@)
            },
{
    let codes = crate::codes::ascending(held@);
    crate::codes::lemma_codes_below(held@, 65536);
    lemma_few_codes(codes);
    assert forall|session: u64, first: Action| presses_follow(
        #[trigger] (seq![first] + crate::coordinator::presses(session, codes)),
        session,
        held@,
    ) by {
        let actions = seq![first] + crate::coordinator::presses(session, codes);
        assert forall|i: int| 1 <= i < actions.len() implies is_press(
            #[trigger] actions[i],
            session,
            i - 1,
            held@,
        ) by {
            assert(codes.contains(codes[i - 1]));
        }
        assert forall|code: u16| #[trigger] held@.contains(code) implies exists|i: int|
            1 <= i < actions.len() && #[trigger] presses_key(actions[i], code) by {
            assert(codes.contains(code));
            let k = choose|k: int| 0 <= k < codes.len() && codes[k] == code;
            assert(presses_key(actions[k + 1], code));
        }
    }
}

/// An action presses one of some keys, under a number of a session.
pub open spec fn is_press(action: Action, session: u64, number: int, keys: Set<u16>) -> bool {
    action matches Action::Send(
        Message::Input { session: s, sequence, event: InputEvent::Key { code, pressed } },
    ) && s == session && sequence == number && pressed && keys.contains(code)
}

pub open spec fn presses_key(action: Action, code: u16) -> bool {
    action matches Action::Send(Message::Input { event: InputEvent::Key { code: k, .. }, .. }) && k
        == code
}

/// The key that an action presses.
pub open spec fn key_of(action: Action) -> u16 {
    action->Send_0->event->Key_code
}

/// After the first action every key of a set is pressed, smallest first, and nothing else happens.
pub open spec fn presses_follow(actions: Seq<Action>, session: u64, keys: Set<u16>) -> bool {
    &&& forall|i: int|
        1 <= i < actions.len() ==> is_press(#[trigger] actions[i], session, i - 1, keys)
    &&& forall|code: u16| #[trigger]
        keys.contains(code) ==> exists|i: int|
            1 <= i < actions.len() && #[trigger] presses_key(actions[i], code)
    &&& forall|i: int, j: int|
        1 <= i < j < actions.len() ==> key_of(#[trigger] actions[i]) < key_of(#[trigger] actions[j])
}

proof fn lemma_few_codes(codes: Seq<u16>)
    requires
        crate::codes::increasing(codes),
    ensures
        codes.len() <= 65536,
        codes.len() > 0 ==> codes.last() >= codes.len() - 1,
    decreases codes.len(),
{
    if codes.len() > 1 {
        lemma_few_codes(codes.drop_last());
        assert(codes[codes.len() - 2] < codes[codes.len() - 1]);
    }
}

/// Crossing an edge while the other computer is in control gives control back through that very
/// place: the other computer is told it, and the pointer is placed there.
pub proof fn lemma_crossing_back_returns_control<S: InputSink>(
    generation: u64,
    edge: usize,
    fraction: Binary64,
    held: BTreeSet<u16>,
    now: u64,
)
    ensures
        forall|c: &mut Coordinator<S>, r: Result<Vec<Action>, Error>|
            (#[trigger] call_ensures(
                Coordinator::<S>::on_started,
                (c, generation, edge, fraction, &held, now),
                r,
            )) && (*c).wf() && (*c).edges@.len() <= usize::MAX && (*c).generation == generation && r is Ok
                && ((*c).capture matches Some(armed) && edge < armed@.len()) && (*c).role is Receiving
                ==> {
                let session = (*c).role.session_id()->0;
                let actions = r->Ok_0@;
                let crossed = (*c).edges@[(*c).capture->0@[edge as int] as int].id@;
                &&& actions.len() == 3
                &&& receives((*c).role, session)
                &&& actions[0] matches Action::Send(Message::End { session: s, exit: Some(p) }) && s
                    == session && p.edge_id@ == crossed && p.fraction == fraction
                &&& actions[1] is StopCapture
                &&& places_at(actions[2], (*c).edges@, crossed, fraction)
                &&& (*final(c)).role is Local
                &&& (*final(c)).capture is None
            },
{
    lemma_indices();
    assert forall|c: &mut Coordinator<S>, r: Result<Vec<Action>, Error>|
        (#[trigger] call_ensures(
            Coordinator::<S>::on_started,
            (c, generation, edge, fraction, &held, now),
            r,
        )) && (*c).wf() && (*c).edges@.len() <= usize::MAX && (*c).generation == generation && r is Ok
            && ((*c).capture matches Some(armed) && edge < armed@.len()) && (*c).role is Receiving implies {
        let session = (*c).role.session_id()->0;
        let actions = r->Ok_0@;
        let crossed = (*c).edges@[(*c).capture->0@[edge as int] as int].id@;
        &&& actions.len() == 3
        &&& receives((*c).role, session)
        &&& actions[0] matches Action::Send(Message::End { session: s, exit: Some(p) }) && s
            == session && p.edge_id@ == crossed && p.fraction == fraction
        &&& actions[1] is StopCapture
        &&& places_at(actions[2], (*c).edges@, crossed, fraction)
        &&& (*final(c)).role is Local
        &&& (*final(c)).capture is None
    } by {
        let index = (*c).capture->0@[edge as int] as int;
        lemma_index((*c).edges@, (*c).edges@[index].id@);
    }
}

} // verus!
