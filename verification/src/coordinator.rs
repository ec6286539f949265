//! Decides, event by event, which computer is in control. What a decision asks for is carried out
//! by the caller in order: messages to the other computer, pointer placement, edge capture.
use crate::capture_probe::StopCause;
use crate::control::{Desktop, LayoutMessage, LayoutRequest};
use crate::edges::{find_edge, EdgeConfig};
use crate::error::Error;
use crate::input::{emergency_modifiers, StopReason};
use crate::niri::{find_output, ActiveOutput};
use crate::number::Binary64;
use crate::protocol::{EdgePosition, InputEvent, Message};
use crate::receiver::{InputSink, Receiver};
use crate::touchpad::Descriptor;
use std::collections::{BTreeMap, BTreeSet};
use vstd::prelude::*;

verus! {

broadcast use {vstd::std_specs::btree::group_btree_axioms, vstd::laws_cmp::group_laws_cmp};

/// After control has changed hands the edges stay quiet for this many microseconds.
pub const REARM_DELAY_US: u64 = 150_000;

/// A layout change that is not confirmed within this many microseconds is given up.
pub const LAYOUT_TIMEOUT_US: u64 = 6_000_000;

/// The time between two heartbeats, in microseconds.
pub const HEARTBEAT_US: u64 = 200_000;

/// Input that is this many microseconds old is not used any more.
pub const MAX_INPUT_AGE_US: u64 = 200_000;

/// Heartbeats that may wait for their answer.
pub const MAX_PINGS: usize = 16;

/// Which computer is in control.
pub enum Role {
    Local,
    /// This computer's input goes to the other one, since the pointer left through `origin`.
    Sending { session: u64, sequence: u64, origin: EdgePosition },
    /// The other computer's input comes here, since its pointer entered through an edge.
    Receiving { session: u64, edge_id: String },
}

impl Role {
    pub open spec fn session_id(self) -> Option<u64> {
        match self {
            Role::Local => None,
            Role::Sending { session, .. } => Some(session),
            Role::Receiving { session, .. } => Some(session),
        }
    }

    /// The connection through which control changed hands.
    pub open spec fn edge_id(self) -> Option<Seq<char>> {
        match self {
            Role::Local => None,
            Role::Sending { origin, .. } => Some(origin.edge_id@),
            Role::Receiving { edge_id, .. } => Some(edge_id@),
        }
    }

    pub open spec fn label(self) -> Seq<char> {
        match self {
            Role::Local => "local"@,
            Role::Sending { .. } => "sending"@,
            Role::Receiving { .. } => "receiving"@,
        }
    }

    pub fn session(&self) -> (r: Option<u64>)
        ensures
            r == self.session_id(),
    {
        match self {
            Role::Local => None,
            Role::Sending { session, .. } => Some(*session),
            Role::Receiving { session, .. } => Some(*session),
        }
    }

    pub fn name(&self) -> (r: &'static str)
        ensures
            r@ == self.label(),
    {
        match self {
            Role::Local => "local",
            Role::Sending { .. } => "sending",
            Role::Receiving { .. } => "receiving",
        }
    }
}

/// Something for the caller to do.
pub enum Action {
    /// Send a message to the other computer.
    Send(Message),
    /// End the edge capture and wait until it has let go.
    StopCapture,
    /// Place the pointer on the connection at an index.
    Place { edge: usize, fraction: Binary64 },
    /// Let go of the input devices.
    Suspend,
    /// Put the prepared layout back as it was.
    DiscardLayout,
    /// Make the committed layout final.
    FinishLayout,
    /// Answer the pending request with an error code.
    ReplyFailure(String),
    /// Answer the pending layout request with the other computer's new revision.
    ReplyApplied { peer_revision: Option<String> },
    /// Close the connection, to reconnect with the new layout.
    Reconnect,
    /// Close the connection, for an error.
    Fail(Error),
}

/// A layout change that is under way; `initiator` where it was asked for on this computer.
pub struct PendingLayout {
    pub id: String,
    pub initiator: bool,
    pub deadline: u64,
}

/// What the coordinator knows. Times are microseconds of a clock that never runs backwards.
pub struct Coordinator<S: InputSink> {
    pub edges: Vec<EdgeConfig>,
    /// The configuration comes from a file, so a layout can be saved.
    pub saveable: bool,
    /// Keys come from physical keyboards, not from the edge capture.
    pub physical_keyboard: bool,
    pub desktop: Desktop,
    pub peer_desktop: Option<Desktop>,
    pub pending_layout: Option<PendingLayout>,
    pub pings: BTreeMap<u64, u64>,
    pub receiver: Receiver<S>,
    pub source_keys: BTreeSet<u16>,
    /// The connections that the running capture watches.
    pub capture: Option<Vec<usize>>,
    pub generation: u64,
    /// The generation of the capture that last said that it watches the edges.
    pub armed_generation: Option<u64>,
    pub next_session: u64,
    pub role: Role,
    pub local_ready: bool,
    pub peer_ready: bool,
    pub peer_touchpads_configured: bool,
    pub last_heartbeat: u64,
    pub heartbeat: u64,
    pub rearm_at: u64,
}

/// A time that lies behind another one.
pub open spec fn later_than(now: u64, delay: u64) -> u64 {
    if now + delay <= u64::MAX {
        (now + delay) as u64
    } else {
        u64::MAX
    }
}

pub fn later(now: u64, delay: u64) -> (r: u64)
    ensures
        r == later_than(now, delay),
{
    if delay <= u64::MAX - now {
        now + delay
    } else {
        u64::MAX
    }
}

/// Both computers have a connection of one name, and both its outputs are in use.
pub open spec fn connected(edge: EdgeConfig, desktop: Desktop, peer: Option<Desktop>) -> bool {
    &&& crate::niri::in_use(desktop.outputs@, edge.output@)
    &&& peer matches Some(p) && match crate::edges::edge_index(p.edges@, edge.id@) {
        Some(i) => crate::niri::in_use(p.outputs@, p.edges@[i].output@),
        None => false,
    }
}

/// The indices of the connected edges among the first ones.
pub open spec fn connected_among(
    edges: Seq<EdgeConfig>,
    count: nat,
    desktop: Desktop,
    peer: Option<Desktop>,
) -> Seq<usize>
    decreases count,
{
    if count == 0 {
        Seq::empty()
    } else {
        let before = connected_among(edges, (count - 1) as nat, desktop, peer);
        if connected(edges[count - 1], desktop, peer) {
            before.push((count - 1) as usize)
        } else {
            before
        }
    }
}

impl<S: InputSink> Coordinator<S> {
    /// Input is shared only between unlocked computers and never while the layout changes; a
    /// session of the other computer is open exactly while its input is received.
    pub open spec fn wf(self) -> bool {
        &&& self.receiver.wf()
        &&& self.receiver.session == (match self.role {
            Role::Receiving { session, .. } => Some(session),
            _ => None,
        })
        &&& !(self.role is Local) ==> self.local_ready && self.peer_ready
        &&& self.pending_layout is Some ==> self.role is Local && self.capture is None
        &&& self.receiver.state.local_locked == !self.local_ready
        &&& self.receiver.state.peer_locked ==> !self.peer_ready
        &&& self.next_session >= 1
        &&& self.role.edge_id() matches Some(id) ==> crate::edges::edge_index(
            self.edges@,
            id,
        ) is Some
        &&& self.capture matches Some(armed) ==> forall|i: int|
            0 <= i < armed@.len() ==> (#[trigger] armed@[i]) < self.edges@.len()
    }

    /// The connections that can be used now.
    pub open spec fn usable(self) -> Seq<usize> {
        connected_among(self.edges@, self.edges@.len(), self.desktop, self.peer_desktop)
    }

    /// A connection of a name can be used now.
    pub open spec fn usable_id(self, id: Seq<char>) -> bool {
        match crate::edges::edge_index(self.edges@, id) {
            Some(i) => connected(self.edges@[i], self.desktop, self.peer_desktop),
            None => false,
        }
    }

    fn is_connected(&self, edge: &EdgeConfig) -> (r: bool)
        ensures
            r == connected(*edge, self.desktop, self.peer_desktop),
    {
        if find_output(&self.desktop.outputs, edge.output.as_str()).is_none() {
            return false;
        }
        match &self.peer_desktop {
            None => false,
            Some(peer) => match find_edge(&peer.edges, edge.id.as_str()) {
                None => false,
                Some(i) => find_output(&peer.outputs, peer.edges[i].output.as_str()).is_some(),
            },
        }
    }

    pub fn usable_edges(&self) -> (r: Vec<usize>)
        ensures
            r@ == self.usable(),
            forall|i: int| 0 <= i < r@.len() ==> (#[trigger] r@[i]) < self.edges@.len(),
    {
        let mut list: Vec<usize> = Vec::new();
        for i in 0..self.edges.len()
            invariant
                list@ == connected_among(self.edges@, i as nat, self.desktop, self.peer_desktop),
                forall|j: int| 0 <= j < list@.len() ==> (#[trigger] list@[j]) < i,
        {
            if self.is_connected(&self.edges[i]) {
                list.push(i);
            }
        }
        list
    }

    pub fn is_usable(&self, id: &str) -> (r: bool)
        ensures
            r == self.usable_id(id@),
    {
        match find_edge(&self.edges, id) {
            Some(i) => self.is_connected(&self.edges[i]),
            None => false,
        }
    }

    /// Ends the open session, if there is one, and tells the other computer. The session ends
    /// here even where the backend fails to release what is held.
    fn leave(&mut self, exit: Option<EdgePosition>, actions: &mut Vec<Action>) -> (r: Result<(), Error>)
        requires
            old(self).wf(),
        ensures
            final(self).receiver.wf(),
            final(self).receiver.session is None,
            *final(self) == (Coordinator { receiver: final(self).receiver, ..*old(self) }),
            final(self).receiver_left(*old(self), crate::receiver::failure_of(r)),
            r is Ok ==> final(actions)@ == old(actions)@ + old(self).farewell(exit),
            r is Err ==> final(actions)@ == old(actions)@,
    {
        match self.role.session() {
            None => {
                assert(actions@ + Seq::<Action>::empty() =~= actions@);
                Ok(())
            },
            Some(session) => {
                match self.receiver.end(session) {
                    Err(e) => return Err(e),
                    Ok(()) => {},
                }
                actions.push(Action::Send(Message::End { session, exit }));
                assert(actions@ =~= old(actions)@ + old(self).farewell(exit));
                Ok(())
            },
        }
    }

    /// The message that ends the open session.
    pub open spec fn farewell(self, exit: Option<EdgePosition>) -> Seq<Action> {
        match self.role.session_id() {
            Some(session) => seq![Action::Send(Message::End { session, exit })],
            None => Seq::empty(),
        }
    }

    /// Whatever was received has ended and was released; `failure` says what went wrong.
    pub open spec fn receiver_left(self, before: Coordinator<S>, failure: Option<Error>) -> bool {
        if before.role is Receiving {
            &&& self.receiver.state.stopped(before.receiver.state)
            &&& self.receiver.ended(
                before.receiver,
                before.receiver.sink.log(),
                before.receiver.owed(),
                failure,
            )
        } else {
            failure is None && self.receiver == before.receiver
        }
    }
}

/// Two lists of indices are equal.
fn same_indices(a: &Vec<usize>, b: &Vec<usize>) -> (r: bool)
    ensures
        r == (a@ == b@),
{
    if a.len() != b.len() {
        return false;
    }
    for i in 0..a.len()
        invariant
            a@.len() == b@.len(),
            forall|j: int| 0 <= j < i ==> a@[j] == b@[j],
    {
        if a[i] != b[i] {
            assert(a@[i as int] != b@[i as int]);
            return false;
        }
    }
    assert(a@ =~= b@);
    true
}

impl<S: InputSink> Coordinator<S> {
    /// What ends the running capture.
    pub open spec fn halting(self) -> Seq<Action> {
        if self.capture is Some {
            seq![Action::StopCapture]
        } else {
            Seq::empty()
        }
    }

    fn halt(&mut self, actions: &mut Vec<Action>)
        ensures
            *final(self) == (Coordinator { capture: None, ..*old(self) }),
            final(actions)@ == old(actions)@ + old(self).halting(),
    {
        if self.capture.is_some() {
            actions.push(Action::StopCapture);
        }
        self.capture = None;
        assert(actions@ =~= old(actions)@ + old(self).halting());
    }

    /// What places the pointer on a connection.
    pub open spec fn placing(self, position: EdgePosition) -> Seq<Action> {
        match crate::edges::edge_index(self.edges@, position.edge_id@) {
            Some(i) => seq![Action::Place { edge: i as usize, fraction: position.fraction }],
            None => Seq::empty(),
        }
    }

    fn place(&self, position: &EdgePosition, actions: &mut Vec<Action>)
        ensures
            final(actions)@ == old(actions)@ + self.placing(*position),
    {
        match find_edge(&self.edges, position.edge_id.as_str()) {
            Some(edge) => {
                actions.push(Action::Place { edge, fraction: position.fraction });
            },
            None => {},
        }
        assert(actions@ =~= old(actions)@ + self.placing(*position));
    }

    /// What places the pointer where it left, if this computer was sending.
    pub open spec fn placing_back(self) -> Seq<Action> {
        match self.role {
            Role::Sending { origin, .. } => self.placing(origin),
            _ => Seq::empty(),
        }
    }

    fn place_back(&self, actions: &mut Vec<Action>)
        ensures
            final(actions)@ == old(actions)@ + self.placing_back(),
    {
        match &self.role {
            Role::Sending { origin, .. } => {
                self.place(origin, actions);
            },
            _ => {
                assert(actions@ + Seq::<Action>::empty() =~= actions@);
            },
        }
    }

    /// The connection through which control changed hands can no longer be used.
    pub open spec fn cut_off(self) -> bool {
        self.role.edge_id() matches Some(id) && !self.usable_id(id)
    }

    fn is_cut_off(&self) -> (r: bool)
        ensures
            r == self.cut_off(),
    {
        match &self.role {
            Role::Local => false,
            Role::Sending { origin, .. } => !self.is_usable(origin.edge_id.as_str()),
            Role::Receiving { edge_id, .. } => !self.is_usable(edge_id.as_str()),
        }
    }

    /// The running capture watches other connections than can be used now, and no input depends
    /// on it.
    pub open spec fn outdated(self) -> bool {
        &&& !(self.role is Sending)
        &&& self.capture matches Some(armed) && armed@ != self.usable()
    }

    /// Before anything else: a session ends with the connection that it came through, and the
    /// capture follows the connections that can be used.
    pub fn refresh(&mut self) -> (r: Result<Vec<Action>, Error>)
        requires
            old(self).wf(),
        ensures
            final(self).receiver.wf(),
            match r {
                Ok(actions) => {
                    &&& final(self).wf()
                    &&& if old(self).cut_off() {
                        &&& actions@ == old(self).farewell(None) + old(self).halting()
                        &&& *final(self) == (Coordinator {
                            receiver: final(self).receiver,
                            role: Role::Local,
                            capture: None,
                            ..*old(self)
                        })
                        &&& final(self).receiver_left(*old(self), None)
                    } else if old(self).outdated() {
                        &&& actions@ == seq![Action::StopCapture]
                        &&& *final(self) == (Coordinator { capture: None, ..*old(self) })
                    } else {
                        &&& actions@.len() == 0
                        &&& *final(self) == *old(self)
                    }
                },
                Err(e) => old(self).cut_off() && final(self).receiver_left(*old(self), Some(e)),
            },
    {
        let mut actions: Vec<Action> = Vec::new();
        if self.is_cut_off() {
            match self.leave(None, &mut actions) {
                Err(e) => return Err(e),
                Ok(()) => {},
            }
            self.halt(&mut actions);
            self.role = Role::Local;
            assert(actions@ =~= old(self).farewell(None) + old(self).halting());
            return Ok(actions);
        }
        let sending = match &self.role {
            Role::Sending { .. } => true,
            _ => false,
        };
        let outdated = match &self.capture {
            Some(armed) => !sending && !same_indices(armed, &self.usable_edges()),
            None => false,
        };
        if outdated {
            self.halt(&mut actions);
            assert(actions@ =~= seq![Action::StopCapture]);
        }
        Ok(actions)
    }

    /// The edges may be watched now.
    pub open spec fn may_arm(self, now: u64) -> bool {
        &&& self.local_ready
        &&& self.peer_ready
        &&& self.usable().len() > 0
        &&& self.pending_layout is None
        &&& self.capture is None
        &&& now >= self.rearm_at
    }

    /// Starts to watch the connections that can be used; returns their indices.
    pub fn arm(&mut self, now: u64) -> (r: Option<Vec<usize>>)
        requires
            old(self).wf(),
        ensures
            final(self).wf(),
            !old(self).may_arm(now) ==> r is None && *final(self) == *old(self),
            old(self).may_arm(now) ==> {
                &&& r matches Some(armed) && armed@ == old(self).usable()
                &&& final(self).capture matches Some(armed) && armed@ == old(self).usable()
                &&& final(self).generation == (if old(self).generation == u64::MAX {
                    0
                } else {
                    (old(self).generation + 1) as u64
                })
                &&& *final(self) == (Coordinator {
                    capture: final(self).capture,
                    generation: final(self).generation,
                    ..*old(self)
                })
            },
    {
        if !(self.local_ready && self.peer_ready && self.pending_layout.is_none()
            && self.capture.is_none() && now >= self.rearm_at) {
            return None;
        }
        let armed = self.usable_edges();
        if armed.len() == 0 {
            return None;
        }
        self.generation = if self.generation == u64::MAX {
            0
        } else {
            self.generation + 1
        };
        let copy = armed.clone();
        assert(copy@ =~= armed@);
        self.capture = Some(armed);
        Some(copy)
    }

    /// What the status shows: the reason for which no connection can be used.
    pub fn reason(&self) -> (r: Option<&'static str>)
        ensures
            match r {
                Some(text) => text@ == "output_unavailable"@ && self.usable().len() == 0
                    && self.peer_desktop is Some,
                None => self.usable().len() > 0 || self.peer_desktop is None,
            },
    {
        if self.peer_desktop.is_some() && self.usable_edges().len() == 0 {
            Some("output_unavailable")
        } else {
            None
        }
    }

    /// The outputs of this computer have changed.
    pub fn on_outputs(&mut self, outputs: Vec<ActiveOutput>) -> (r: Action)
        requires
            old(self).wf(),
        ensures
            final(self).wf(),
            final(self).desktop.outputs == outputs,
            final(self).desktop.edges == old(self).desktop.edges,
            final(self).desktop.revision == old(self).desktop.revision,
            *final(self) == (Coordinator { desktop: final(self).desktop, ..*old(self) }),
            r matches Action::Send(Message::Desktop { info }) && info.same(final(self).desktop),
    {
        self.desktop.outputs = outputs;
        Action::Send(Message::Desktop { info: self.desktop.clone() })
    }

    /// The person at this computer asks for control back.
    pub fn on_release(&mut self, now: u64) -> (r: Result<Vec<Action>, Error>)
        requires
            old(self).wf(),
        ensures
            final(self).receiver.wf(),
            match r {
                Ok(actions) => {
                    &&& final(self).wf()
                    &&& actions@ == old(self).farewell(None) + old(self).halting() + old(self).placing_back()
                    &&& *final(self) == (Coordinator {
                        receiver: final(self).receiver,
                        role: Role::Local,
                        capture: None,
                        rearm_at: later_than(now, REARM_DELAY_US),
                        ..*old(self)
                    })
                    &&& final(self).receiver_left(*old(self), None)
                },
                Err(e) => final(self).receiver_left(*old(self), Some(e)),
            },
    {
        let mut actions: Vec<Action> = Vec::new();
        match self.leave(None, &mut actions) {
            Err(e) => return Err(e),
            Ok(()) => {},
        }
        self.halt(&mut actions);
        self.place_back(&mut actions);
        self.role = Role::Local;
        self.rearm_at = later(now, REARM_DELAY_US);
        assert(actions@ =~= old(self).farewell(None) + old(self).halting() + old(self).placing_back());
        Ok(actions)
    }
}

/// The presses of some keys as inputs of a session, numbered from zero.
pub open spec fn presses(session: u64, codes: Seq<u16>) -> Seq<Action> {
    Seq::new(
        codes.len(),
        |i: int|
            Action::Send(
                Message::Input {
                    session,
                    sequence: i as u64,
                    event: InputEvent::Key { code: codes[i], pressed: true },
                },
            ),
    )
}

/// The keys held after one transition.
pub open spec fn after_key(keys: Set<u16>, code: u16, pressed: bool) -> Set<u16> {
    if pressed {
        keys.insert(code)
    } else {
        keys.remove(code)
    }
}

/// Escape is pressed while all the emergency modifiers are held.
pub open spec fn emergency(keys: Set<u16>, code: u16, pressed: bool) -> bool {
    code == 1 && pressed && crate::input::emergency_held(after_key(keys, code, pressed))
}

impl<S: InputSink> Coordinator<S> {
    /// What hands an event on to the other computer while this one is sending. After the event
    /// with the last number the connection cannot go on.
    pub open spec fn forwarding(self, event: InputEvent) -> Seq<Action> {
        match self.role {
            Role::Sending { session, sequence, .. } => {
                let send = Action::Send(Message::Input { session, sequence, event });
                if sequence == u64::MAX {
                    seq![send, Action::Fail(Error::SequenceExhausted)]
                } else {
                    seq![send]
                }
            },
            _ => Seq::empty(),
        }
    }

    /// The role after an event was handed on: the next one has the number that follows.
    pub open spec fn forwarded(self) -> Role {
        match self.role {
            Role::Sending { session, sequence, origin } => Role::Sending {
                session,
                sequence: if sequence == u64::MAX {
                    sequence
                } else {
                    (sequence + 1) as u64
                },
                origin,
            },
            role => role,
        }
    }

    fn forward(&mut self, event: InputEvent) -> (r: Vec<Action>)
        ensures
            r@ == old(self).forwarding(event),
            *final(self) == (Coordinator { role: old(self).forwarded(), ..*old(self) }),
    {
        let mut actions: Vec<Action> = Vec::new();
        match &mut self.role {
            Role::Sending { session, sequence, .. } => {
                actions.push(
                    Action::Send(Message::Input { session: *session, sequence: *sequence, event }),
                );
                if *sequence == u64::MAX {
                    actions.push(Action::Fail(Error::SequenceExhausted));
                } else {
                    *sequence = *sequence + 1;
                }
            },
            _ => {},
        }
        assert(actions@ =~= old(self).forwarding(event));
        actions
    }

    /// A touch frame of this computer's touchpads.
    pub fn on_touch(&mut self, event: InputEvent) -> (r: Vec<Action>)
        requires
            old(self).wf(),
        ensures
            final(self).wf(),
            r@ == old(self).forwarding(event),
            *final(self) == (Coordinator { role: old(self).forwarded(), ..*old(self) }),
    {
        self.forward(event)
    }

    /// A transition of a physical keyboard of this computer. The emergency chord takes control
    /// back at once and is not handed on.
    pub fn on_key(&mut self, event: InputEvent, now: u64) -> (r: Result<Vec<Action>, Error>)
        requires
            old(self).wf(),
        ensures
            final(self).receiver == old(self).receiver,
            r is Ok ==> final(self).wf(),
            match old(self).role {
                Role::Sending { .. } => match event {
                    InputEvent::Key { code, pressed } => {
                        let keys = old(self).source_keys@;
                        if emergency(keys, code, pressed) {
                            &&& r matches Ok(actions) && actions@ == old(self).farewell(None) + old(self).halting() + old(self).placing_back()
                            &&& final(self).source_keys@ == Set::<u16>::empty()
                            &&& *final(self) == (Coordinator {
                                role: Role::Local,
                                capture: None,
                                rearm_at: later_than(now, REARM_DELAY_US),
                                source_keys: final(self).source_keys,
                                ..*old(self)
                            })
                        } else {
                            &&& r matches Ok(actions) && actions@ == old(self).forwarding(event)
                            &&& final(self).source_keys@ == after_key(keys, code, pressed)
                            &&& *final(self) == (Coordinator {
                                role: old(self).forwarded(),
                                source_keys: final(self).source_keys,
                                ..*old(self)
                            })
                        }
                    },
                    _ => r == Err::<Vec<Action>, Error>(Error::NotAKey) && *final(self)
                        == *old(self),
                },
                _ => {
                    &&& r matches Ok(actions) && actions@.len() == 0
                    &&& *final(self) == *old(self)
                },
            },
    {
        let mut actions: Vec<Action> = Vec::new();
        match &self.role {
            Role::Sending { .. } => {},
            _ => return Ok(actions),
        }
        let (code, pressed): (u16, bool) = match &event {
            InputEvent::Key { code, pressed } => (*code, *pressed),
            _ => return Err(Error::NotAKey),
        };
        if pressed {
            self.source_keys.insert(code);
        } else {
            self.source_keys.remove(&code);
        }
        if code == 1 && pressed && emergency_modifiers(&self.source_keys) {
            match self.role.session() {
                Some(session) => {
                    actions.push(Action::Send(Message::End { session, exit: None }));
                },
                None => {},
            }
            self.halt(&mut actions);
            self.place_back(&mut actions);
            self.role = Role::Local;
            self.source_keys.clear();
            self.rearm_at = later(now, REARM_DELAY_US);
            assert(actions@ =~= old(self).farewell(None) + old(self).halting() + old(self).placing_back());
            return Ok(actions);
        }
        Ok(self.forward(event))
    }

    /// An event of the running capture; others are ignored.
    pub open spec fn from_capture(self, generation: u64) -> bool {
        generation == self.generation && self.capture is Some
    }

    /// The running capture watches the edges now.
    pub fn on_armed(&mut self, generation: u64)
        requires
            old(self).wf(),
        ensures
            final(self).wf(),
            *final(self) == (if old(self).from_capture(generation) {
                Coordinator { armed_generation: Some(generation), ..*old(self) }
            } else {
                *old(self)
            }),
    {
        if generation == self.generation && self.capture.is_some() {
            self.armed_generation = Some(generation);
        }
    }

    /// A capture runs and watches the edges.
    pub fn capture_ready(&self) -> (r: bool)
        ensures
            r == (self.capture is Some && self.armed_generation == Some(self.generation)),
    {
        self.capture.is_some() && self.armed_generation == Some(self.generation)
    }

    /// The pointer crossed an edge while this computer is in control, so the held keys are needed.
    pub fn starting(&self, generation: u64) -> (r: bool)
        ensures
            r == (self.from_capture(generation) && self.role is Local && self.local_ready
                && self.peer_ready),
    {
        let local = match &self.role {
            Role::Local => true,
            _ => false,
        };
        generation == self.generation && self.capture.is_some() && local && self.local_ready
            && self.peer_ready
    }

    /// The position that a crossing has: the identifier of the watched connection and where on it.
    pub open spec fn crossing(self, edge: usize, fraction: Binary64) -> Option<EdgePosition> {
        match self.capture {
            Some(armed) => if edge < armed@.len() {
                Some(EdgePosition { edge_id: self.edges@[armed@[edge as int] as int].id, fraction })
            } else {
                None
            },
            None => None,
        }
    }

    fn crossing_at(&self, edge: usize, fraction: Binary64) -> (r: Option<EdgePosition>)
        requires
            self.wf(),
        ensures
            r == self.crossing(edge, fraction),
    {
        match &self.capture {
            Some(armed) => if edge < armed.len() {
                let index: usize = armed[edge];
                Some(EdgePosition { edge_id: self.edges[index].id.clone(), fraction })
            } else {
                None
            },
            None => None,
        }
    }

    /// The pointer crossed a watched edge; `held` are the keys held at that moment. Crossing
    /// starts a session, or ends the one in which the other computer is in control. It starts
    /// none while the emergency chord is held.
    pub fn on_started(
        &mut self,
        generation: u64,
        edge: usize,
        fraction: Binary64,
        held: &BTreeSet<u16>,
        now: u64,
    ) -> (r: Result<Vec<Action>, Error>)
        requires
            old(self).wf(),
        ensures
            final(self).receiver.wf(),
            r is Ok ==> final(self).wf(),
            ({
                let position = old(self).crossing(edge, fraction);
                if !old(self).from_capture(generation) {
                    &&& r matches Ok(actions) && actions@.len() == 0
                    &&& *final(self) == *old(self)
                } else if position is Some && old(self).role is Local && old(self).local_ready
                    && old(self).peer_ready {
                    if held@.contains(1) && crate::input::emergency_held(held@) {
                        &&& r matches Ok(actions) && actions@ == seq![Action::StopCapture]
                        &&& *final(self) == (Coordinator {
                            capture: None,
                            rearm_at: later_than(now, REARM_DELAY_US),
                            ..*old(self)
                        })
                    } else if old(self).next_session == u64::MAX {
                        &&& r == Err::<Vec<Action>, Error>(Error::SessionsExhausted)
                        &&& *final(self) == *old(self)
                    } else {
                        let session = old(self).next_session;
                        let codes = crate::codes::ascending(held@);
                        &&& r matches Ok(actions) && actions@ == seq![
                            Action::Send(Message::Begin { session, entry: position->0 }),
                        ] + presses(session, codes)
                        &&& final(self).source_keys@ == held@
                        &&& *final(self) == (Coordinator {
                            role: Role::Sending {
                                session,
                                sequence: codes.len() as u64,
                                origin: position->0,
                            },
                            next_session: (session + 1) as u64,
                            source_keys: final(self).source_keys,
                            ..*old(self)
                        })
                    }
                } else if position is Some && old(self).role is Receiving {
                    match r {
                        Ok(actions) => {
                            &&& actions@ == old(self).farewell(position) + old(self).halting()
                                + old(self).placing(position->0)
                            &&& *final(self) == (Coordinator {
                                receiver: final(self).receiver,
                                role: Role::Local,
                                capture: None,
                                rearm_at: later_than(now, REARM_DELAY_US),
                                ..*old(self)
                            })
                            &&& final(self).receiver_left(*old(self), None)
                        },
                        Err(e) => final(self).receiver_left(*old(self), Some(e)),
                    }
                } else {
                    &&& r matches Ok(actions) && actions@ == seq![Action::StopCapture]
                    &&& *final(self) == (Coordinator { capture: None, ..*old(self) })
                }
            }),
    {
        let mut actions: Vec<Action> = Vec::new();
        if generation != self.generation || self.capture.is_none() {
            return Ok(actions);
        }
        let starting = self.starting(generation);
        let receiving = match &self.role {
            Role::Receiving { .. } => true,
            _ => false,
        };
        let position = match self.crossing_at(edge, fraction) {
            Some(position) => position,
            None => {
                self.halt(&mut actions);
                assert(actions@ =~= seq![Action::StopCapture]);
                return Ok(actions);
            },
        };
        if starting {
            if held.contains(&1u16) && emergency_modifiers(held) {
                self.halt(&mut actions);
                self.rearm_at = later(now, REARM_DELAY_US);
                assert(actions@ =~= seq![Action::StopCapture]);
                return Ok(actions);
            }
            if self.next_session == u64::MAX {
                return Err(Error::SessionsExhausted);
            }
            let session: u64 = self.next_session;
            self.next_session = session + 1;
            let codes = crate::codes::sorted_codes(held);
            actions.push(Action::Send(Message::Begin { session, entry: position.clone() }));
            let ghost first = actions@;
            for i in 0..codes.len()
                invariant
                    first.len() == 1,
                    actions@ =~= first + presses(session, codes@.take(i as int)),
            {
                actions.push(
                    Action::Send(
                        Message::Input {
                            session,
                            sequence: i as u64,
                            event: InputEvent::Key { code: codes[i], pressed: true },
                        },
                    ),
                );
            }
            assert(codes@.take(codes@.len() as int) == codes@);
            self.source_keys = held.clone();
            proof {
                lemma_first_with_id(self.edges@, self.capture->0@[edge as int] as int);
            }
            self.role = Role::Sending {
                session,
                sequence: codes.len() as u64,
                origin: position,
            };
            return Ok(actions);
        }
        if receiving {
            match self.leave(Some(position.clone()), &mut actions) {
                Err(e) => return Err(e),
                Ok(()) => {},
            }
            self.halt(&mut actions);
            self.place(&position, &mut actions);
            self.role = Role::Local;
            self.rearm_at = later(now, REARM_DELAY_US);
            assert(actions@ =~= old(self).farewell(Some(position)) + old(self).halting() + old(self).placing(position));
            return Ok(actions);
        }
        self.halt(&mut actions);
        assert(actions@ =~= seq![Action::StopCapture]);
        Ok(actions)
    }

    /// An input event of the running capture. Keys are left to the physical keyboards where there
    /// are any.
    pub fn on_captured(&mut self, generation: u64, event: InputEvent, age_us: u64) -> (r: Result<
        Vec<Action>,
        Error,
    >)
        requires
            old(self).wf(),
        ensures
            final(self).receiver == old(self).receiver,
            r is Ok ==> final(self).wf(),
            ({
                let ignored = !old(self).from_capture(generation) || (old(self).physical_keyboard
                    && event is Key);
                match old(self).role {
                    Role::Sending { .. } if !ignored => if age_us >= MAX_INPUT_AGE_US {
                        &&& r == Err::<Vec<Action>, Error>(Error::CaptureDelayed)
                        &&& *final(self) == *old(self)
                    } else {
                        &&& r matches Ok(actions) && actions@ == old(self).forwarding(event)
                        &&& *final(self) == (Coordinator {
                            role: old(self).forwarded(),
                            ..*old(self)
                        })
                    },
                    _ => {
                        &&& r matches Ok(actions) && actions@.len() == 0
                        &&& *final(self) == *old(self)
                    },
                }
            }),
    {
        let mut actions: Vec<Action> = Vec::new();
        if generation != self.generation || self.capture.is_none() {
            return Ok(actions);
        }
        let is_key = match &event {
            InputEvent::Key { .. } => true,
            _ => false,
        };
        if self.physical_keyboard && is_key {
            return Ok(actions);
        }
        match &self.role {
            Role::Sending { .. } => {},
            _ => return Ok(actions),
        }
        if age_us >= MAX_INPUT_AGE_US {
            return Err(Error::CaptureDelayed);
        }
        Ok(self.forward(event))
    }

    /// The running capture has ended for a reason. Only after the escape key is the pointer put
    /// back to where it left.
    pub fn on_finished(&mut self, generation: u64, reason: StopCause, now: u64) -> (r: Result<
        Vec<Action>,
        Error,
    >)
        requires
            old(self).wf(),
        ensures
            final(self).receiver.wf(),
            r is Ok ==> final(self).wf(),
            !old(self).from_capture(generation) ==> {
                &&& r matches Ok(actions) && actions@.len() == 0
                &&& *final(self) == *old(self)
            },
            old(self).from_capture(generation) ==> match r {
                Ok(actions) => {
                    &&& actions@ == old(self).farewell(None) + seq![Action::StopCapture] + (
                    if old(self).local_ready && reason == StopCause::Escape {
                        old(self).placing_back()
                    } else {
                        Seq::empty()
                    })
                    &&& *final(self) == (Coordinator {
                        receiver: final(self).receiver,
                        role: Role::Local,
                        capture: None,
                        rearm_at: later_than(now, REARM_DELAY_US),
                        ..*old(self)
                    })
                    &&& final(self).receiver_left(*old(self), None)
                },
                Err(e) => final(self).receiver_left(*old(self), Some(e)),
            },
    {
        let mut actions: Vec<Action> = Vec::new();
        if generation != self.generation || self.capture.is_none() {
            return Ok(actions);
        }
        match self.leave(None, &mut actions) {
            Err(e) => return Err(e),
            Ok(()) => {},
        }
        self.halt(&mut actions);
        if self.local_ready && reason == StopCause::Escape {
            self.place_back(&mut actions);
        }
        self.role = Role::Local;
        self.rearm_at = later(now, REARM_DELAY_US);
        assert(actions@ =~= old(self).farewell(None) + seq![Action::StopCapture] + (if old(self).local_ready && reason == StopCause::Escape {
            old(self).placing_back()
        } else {
            Seq::empty()
        }));
        Ok(actions)
    }

    /// The running capture is gone, and all its events have been handled.
    pub fn on_capture_gone(&mut self, now: u64) -> (r: Vec<Action>)
        requires
            old(self).wf(),
        ensures
            final(self).wf(),
            old(self).capture is None ==> r@.len() == 0 && *final(self) == *old(self),
            old(self).capture is Some ==> {
                &&& r@ == seq![Action::StopCapture] + (if old(self).role is Sending {
                    old(self).farewell(None)
                } else {
                    Seq::empty()
                })
                &&& *final(self) == (Coordinator {
                    role: if old(self).role is Sending {
                        Role::Local
                    } else {
                        old(self).role
                    },
                    capture: None,
                    rearm_at: later_than(now, REARM_DELAY_US),
                    ..*old(self)
                })
            },
    {
        let mut actions: Vec<Action> = Vec::new();
        if self.capture.is_none() {
            return actions;
        }
        self.halt(&mut actions);
        let sending: Option<u64> = match &self.role {
            Role::Sending { session, .. } => Some(*session),
            _ => None,
        };
        match sending {
            Some(session) => {
                actions.push(Action::Send(Message::End { session, exit: None }));
                self.role = Role::Local;
            },
            None => {},
        }
        self.rearm_at = later(now, REARM_DELAY_US);
        assert(actions@ =~= seq![Action::StopCapture] + (if old(self).role is Sending {
            old(self).farewell(None)
        } else {
            Seq::empty()
        }));
        actions
    }
}

impl<S: InputSink> Coordinator<S> {
    /// Starts to coordinate an authenticated connection; returns the messages that go out first.
    pub fn new(
        edges: Vec<EdgeConfig>,
        saveable: bool,
        desktop: Desktop,
        sink: S,
        touchpads: Vec<Descriptor>,
        physical_keyboard: bool,
        unlocked: bool,
        now: u64,
    ) -> (r: Result<(Coordinator<S>, Vec<Action>), (Receiver<S>, Error)>)
        ensures
            match r {
                Ok((c, actions)) => {
                    &&& c.wf()
                    &&& c.role is Local
                    &&& c.capture is None
                    &&& c.pending_layout is None
                    &&& c.peer_desktop is None
                    &&& c.local_ready == unlocked
                    &&& !c.peer_ready
                    &&& !c.peer_touchpads_configured
                    &&& c.edges == edges
                    &&& c.saveable == saveable
                    &&& c.desktop == desktop
                    &&& c.physical_keyboard == physical_keyboard
                    &&& c.next_session == 1
                    &&& c.generation == 0
                    &&& c.armed_generation is None
                    &&& c.heartbeat == 0
                    &&& c.last_heartbeat == now
                    &&& c.rearm_at == now
                    &&& c.source_keys@ == Set::<u16>::empty()
                    &&& c.pings@ == Map::<u64, u64>::empty()
                    &&& cleaned_at_start(sink, c.receiver, None)
                    &&& actions@.len() == 3
                    &&& actions@[0] matches Action::Send(Message::Desktop { info }) && info.same(
                        desktop,
                    )
                    &&& actions@[1] == Action::Send(Message::Touchpads { devices: touchpads })
                    &&& actions@[2] == Action::Send(Message::LockState { locked: !unlocked })
                },
                Err((receiver, e)) => receiver.wf() && receiver.session is None && cleaned_at_start(
                    sink,
                    receiver,
                    Some(e),
                ),
            },
    {
        let mut receiver = Receiver::new(sink);
        assert(receiver.owed() =~= Set::<u16>::empty());
        match receiver.local_lock(!unlocked) {
            Err(e) => return Err((receiver, e)),
            Ok(()) => {},
        }
        let mut actions: Vec<Action> = Vec::new();
        actions.push(Action::Send(Message::Desktop { info: desktop.clone() }));
        actions.push(Action::Send(Message::Touchpads { devices: touchpads }));
        actions.push(Action::Send(Message::LockState { locked: !unlocked }));
        let coordinator = Coordinator {
            edges,
            saveable,
            physical_keyboard,
            desktop,
            peer_desktop: None,
            pending_layout: None,
            pings: BTreeMap::new(),
            receiver,
            source_keys: BTreeSet::new(),
            capture: None,
            generation: 0,
            armed_generation: None,
            next_session: 1,
            role: Role::Local,
            local_ready: unlocked,
            peer_ready: false,
            peer_touchpads_configured: false,
            last_heartbeat: now,
            heartbeat: 0,
            rearm_at: now,
        };
        Ok((coordinator, actions))
    }

    /// After a lock state was taken over: an open session goes on while the computer is unlocked,
    /// otherwise everything that was owed has been released.
    pub open spec fn receiver_relocked(self, before: Coordinator<S>, unlocked: bool) -> bool {
        if unlocked && before.role is Receiving {
            &&& self.receiver.state == before.receiver.state
            &&& self.receiver.sink == before.receiver.sink
            &&& self.receiver.expected_sequence == before.receiver.expected_sequence
        } else {
            self.receiver.ended(
                before.receiver,
                before.receiver.sink.log(),
                before.receiver.owed(),
                None,
            )
        }
    }

    /// This computer was locked or unlocked.
    pub fn on_lock(&mut self, unlocked: bool) -> (r: Result<Vec<Action>, Error>)
        requires
            old(self).wf(),
        ensures
            final(self).receiver.wf(),
            final(self).receiver.state.local_locked == !unlocked,
            match r {
                Ok(actions) => {
                    &&& final(self).wf()
                    &&& actions@ == seq![
                        Action::Send(Message::LockState { locked: !unlocked }),
                    ] + (if unlocked {
                        Seq::empty()
                    } else {
                        seq![Action::Suspend] + old(self).farewell(None) + old(self).halting()
                    })
                    &&& *final(self) == (Coordinator {
                        receiver: final(self).receiver,
                        local_ready: unlocked,
                        role: if unlocked {
                            old(self).role
                        } else {
                            Role::Local
                        },
                        capture: if unlocked {
                            old(self).capture
                        } else {
                            None
                        },
                        ..*old(self)
                    })
                    &&& final(self).receiver_relocked(*old(self), unlocked)
                },
                Err(e) => final(self).receiver.session is None && final(self).receiver.ended(
                    old(self).receiver,
                    old(self).receiver.sink.log(),
                    old(self).receiver.owed(),
                    Some(e),
                ),
            },
    {
        let mut actions: Vec<Action> = Vec::new();
        self.local_ready = unlocked;
        match self.receiver.local_lock(!unlocked) {
            Err(e) => return Err(e),
            Ok(()) => {},
        }
        actions.push(Action::Send(Message::LockState { locked: !unlocked }));
        if !unlocked {
            actions.push(Action::Suspend);
            match self.role.session() {
                Some(session) => {
                    actions.push(Action::Send(Message::End { session, exit: None }));
                },
                None => {},
            }
            self.role = Role::Local;
            self.halt(&mut actions);
        }
        assert(actions@ =~= seq![Action::Send(Message::LockState { locked: !unlocked })] + (
        if unlocked {
            Seq::empty()
        } else {
            seq![Action::Suspend] + old(self).farewell(None) + old(self).halting()
        }));
        Ok(actions)
    }

    /// The other computer was locked or unlocked.
    pub fn on_peer_lock(&mut self, locked: bool) -> (r: Result<Vec<Action>, Error>)
        requires
            old(self).wf(),
        ensures
            final(self).receiver.wf(),
            !old(self).peer_touchpads_configured ==> r == Err::<Vec<Action>, Error>(
                Error::NegotiationIncomplete,
            ) && *final(self) == *old(self),
            old(self).peer_touchpads_configured ==> match r {
                Ok(actions) => {
                    &&& final(self).wf()
                    &&& actions@ == (if locked {
                        seq![Action::Suspend] + old(self).farewell(None) + old(self).halting()
                            + old(self).placing_back()
                    } else {
                        Seq::empty()
                    })
                    &&& *final(self) == (Coordinator {
                        receiver: final(self).receiver,
                        peer_ready: !locked,
                        role: if locked {
                            Role::Local
                        } else {
                            old(self).role
                        },
                        capture: if locked {
                            None
                        } else {
                            old(self).capture
                        },
                        ..*old(self)
                    })
                    &&& final(self).receiver.state.peer_locked == locked
                    &&& final(self).receiver_relocked(*old(self), !locked)
                },
                Err(e) => final(self).receiver.session is None && final(self).receiver.ended(
                    old(self).receiver,
                    old(self).receiver.sink.log(),
                    old(self).receiver.owed(),
                    Some(e),
                ),
            },
    {
        let mut actions: Vec<Action> = Vec::new();
        if !self.peer_touchpads_configured {
            return Err(Error::NegotiationIncomplete);
        }
        self.peer_ready = !locked;
        match self.receiver.peer_lock(locked) {
            Err(e) => return Err(e),
            Ok(()) => {},
        }
        if locked {
            actions.push(Action::Suspend);
            match self.role.session() {
                Some(session) => {
                    actions.push(Action::Send(Message::End { session, exit: None }));
                },
                None => {},
            }
            self.halt(&mut actions);
            if self.local_ready {
                self.place_back(&mut actions);
            }
            self.role = Role::Local;
        }
        assert(actions@ =~= if locked {
            seq![Action::Suspend] + old(self).farewell(None) + old(self).halting() + old(self).placing_back()
        } else {
            Seq::empty()
        });
        Ok(actions)
    }

    /// Input is sampled only while both computers are unlocked.
    pub fn wants_sample(&self) -> (r: bool)
        ensures
            r == (self.local_ready && self.peer_ready),
    {
        self.local_ready && self.peer_ready
    }

    /// Somebody uses the hardware of this computer: while the other one is in control, that takes
    /// control back.
    pub fn on_physical(&mut self, now: u64) -> (r: Result<Vec<Action>, Error>)
        requires
            old(self).wf(),
        ensures
            final(self).receiver.wf(),
            match r {
                Ok(actions) => {
                    &&& final(self).wf()
                    &&& !(old(self).role is Receiving) ==> actions@.len() == 0 && *final(self)
                        == *old(self)
                    &&& old(self).role is Receiving ==> {
                        &&& actions@ == old(self).farewell(None) + old(self).halting()
                        &&& *final(self) == (Coordinator {
                            receiver: final(self).receiver,
                            role: Role::Local,
                            capture: None,
                            rearm_at: later_than(now, REARM_DELAY_US),
                            ..*old(self)
                        })
                        &&& final(self).receiver_left(*old(self), None)
                    }
                },
                Err(e) => old(self).role is Receiving && final(self).receiver_left(
                    *old(self),
                    Some(e),
                ),
            },
    {
        let mut actions: Vec<Action> = Vec::new();
        let session: u64 = match &self.role {
            Role::Receiving { session, .. } => *session,
            _ => return Ok(actions),
        };
        match self.receiver.physical_activity() {
            Err(e) => return Err(e),
            Ok(()) => {},
        }
        actions.push(Action::Send(Message::End { session, exit: None }));
        self.role = Role::Local;
        self.halt(&mut actions);
        self.rearm_at = later(now, REARM_DELAY_US);
        assert(actions@ =~= old(self).farewell(None) + old(self).halting());
        Ok(actions)
    }

    /// The other computer's desktop.
    pub fn on_desktop(&mut self, info: Desktop)
        requires
            old(self).wf(),
        ensures
            final(self).wf(),
            *final(self) == (Coordinator { peer_desktop: Some(info), ..*old(self) }),
    {
        self.peer_desktop = Some(info);
    }

    /// The other computer's touchpads, which it names once.
    pub fn on_touchpads(&mut self, devices: &Vec<Descriptor>) -> (r: Result<(), Error>)
        requires
            old(self).wf(),
        ensures
            final(self).wf(),
            old(self).peer_touchpads_configured ==> r == Err::<(), Error>(
                Error::NegotiationRepeated,
            ) && *final(self) == *old(self),
            !old(self).peer_touchpads_configured && (old(self).role is Receiving || devices@.len()
                > 4) ==> r == Err::<(), Error>(Error::TouchpadsDuringInput) && *final(self)
                == (Coordinator { receiver: final(self).receiver, ..*old(self) }),
            !old(self).peer_touchpads_configured && !(old(self).role is Receiving)
                && devices@.len() <= 4 ==> {
                &&& final(self).receiver.same_but_sink(old(self).receiver)
                &&& final(self).receiver.sink.log() == old(self).receiver.sink.log().push(
                    crate::receiver::Call {
                        request: crate::receiver::Request::ConfigureTouchpads(devices@),
                        failure: crate::receiver::failure_of(r),
                    },
                )
                &&& *final(self) == (Coordinator {
                    receiver: final(self).receiver,
                    peer_touchpads_configured: r is Ok,
                    ..*old(self)
                })
            },
    {
        if self.peer_touchpads_configured {
            return Err(Error::NegotiationRepeated);
        }
        match self.receiver.configure_touchpads(devices.as_slice()) {
            Err(e) => return Err(e),
            Ok(()) => {},
        }
        self.peer_touchpads_configured = true;
        Ok(())
    }

    /// The other computer may take control through a connection, unless somebody uses this one.
    pub open spec fn may_receive(self, id: Seq<char>) -> bool {
        &&& self.role is Local
        &&& self.local_ready
        &&& self.peer_ready
        &&& self.usable_id(id)
        &&& self.pending_layout is None
    }

    pub fn could_receive(&self, id: &str) -> (r: bool)
        ensures
            r == self.may_receive(id@),
    {
        let local = match &self.role {
            Role::Local => true,
            _ => false,
        };
        local && self.local_ready && self.peer_ready && self.pending_layout.is_none()
            && self.is_usable(id)
    }

    /// The other computer's pointer comes in; `physical` where somebody uses this computer.
    pub fn on_begin(&mut self, session: u64, entry: EdgePosition, physical: bool) -> (r: Result<
        Vec<Action>,
        Error,
    >)
        requires
            old(self).wf(),
        ensures
            final(self).receiver.wf(),
            r is Ok ==> final(self).wf(),
            final(self).receiver.sink == old(self).receiver.sink,
            if old(self).may_receive(entry.edge_id@) && !physical {
                if session == 0 {
                    r == Err::<Vec<Action>, Error>(Error::ZeroSession) && *final(self)
                        == *old(self)
                } else if old(self).receiver.pending_releases@ != Set::<u16>::empty() {
                    r == Err::<Vec<Action>, Error>(Error::CleanupIncomplete) && *final(self)
                        == *old(self)
                } else {
                    &&& r matches Ok(actions) && actions@ == old(self).placing(entry)
                    &&& *final(self) == (Coordinator {
                        receiver: final(self).receiver,
                        role: Role::Receiving { session, edge_id: entry.edge_id },
                        ..*old(self)
                    })
                    &&& final(self).receiver.expected_sequence == 0
                }
            } else if old(self).role is Receiving {
                r == Err::<Vec<Action>, Error>(Error::OverlappingSession) && *final(self)
                    == *old(self)
            } else {
                &&& r matches Ok(actions) && actions@ == seq![
                    Action::Send(Message::End { session, exit: None }),
                ]
                &&& *final(self) == *old(self)
            },
    {
        let mut actions: Vec<Action> = Vec::new();
        if self.could_receive(entry.edge_id.as_str()) && !physical {
            match self.receiver.begin(session) {
                Err(e) => return Err(e),
                Ok(begun) => {
                    if !begun {
                        return Err(Error::ReceiverBusy);
                    }
                },
            }
            self.place(&entry, &mut actions);
            assert(actions@ =~= old(self).placing(entry));
            self.role = Role::Receiving { session, edge_id: entry.edge_id };
            return Ok(actions);
        }
        match &self.role {
            Role::Receiving { .. } => return Err(Error::OverlappingSession),
            _ => {},
        }
        actions.push(Action::Send(Message::End { session, exit: None }));
        assert(actions@ =~= seq![Action::Send(Message::End { session, exit: None })]);
        Ok(actions)
    }

    /// Input of a session belongs to what is received now.
    pub fn receiving(&self, session: u64) -> (r: bool)
        ensures
            r == (self.role is Receiving && self.role.session_id() == Some(session)),
    {
        match &self.role {
            Role::Receiving { session: current, .. } => *current == session,
            _ => false,
        }
    }

    /// An input event of the other computer; `physical` where somebody uses this one, which takes
    /// control back. Stale input is not injected.
    pub fn on_input(
        &mut self,
        session: u64,
        sequence: u64,
        event: &InputEvent,
        age_us: u64,
        physical: bool,
    ) -> (r: Result<Vec<Action>, Error>)
        requires
            old(self).wf(),
        ensures
            final(self).receiver.wf(),
            r is Ok ==> final(self).wf(),
            ({
                let current = old(self).role is Receiving && old(self).role.session_id() == Some(
                    session,
                );
                if age_us >= MAX_INPUT_AGE_US {
                    &&& r == Err::<Vec<Action>, Error>(Error::InputDelayed)
                    &&& *final(self) == *old(self)
                } else if !current {
                    &&& r matches Ok(actions) && actions@.len() == 0
                    &&& *final(self) == *old(self)
                } else if physical {
                    match r {
                        Ok(actions) => {
                            &&& actions@ == old(self).farewell(None) + old(self).halting()
                            &&& *final(self) == (Coordinator {
                                receiver: final(self).receiver,
                                role: Role::Local,
                                capture: None,
                                ..*old(self)
                            })
                            &&& final(self).receiver_left(*old(self), None)
                        },
                        Err(e) => final(self).receiver_left(*old(self), Some(e)),
                    }
                } else if old(self).receiver.refusal(sequence, *event) is Some {
                    &&& r is Err
                    &&& final(self).receiver.session is None
                    &&& exists|cleanup: Option<Error>|
                        {
                            &&& #[trigger] final(self).receiver_left(*old(self), cleanup)
                            &&& r == Err::<Vec<Action>, Error>(
                                match cleanup {
                                    Some(e) => e,
                                    None => old(self).receiver.refusal(sequence, *event)->0,
                                },
                            )
                        }
                } else {
                    match r {
                        Ok(actions) => {
                            &&& actions@.len() == 0
                            &&& *final(self) == (Coordinator {
                                receiver: final(self).receiver,
                                ..*old(self)
                            })
                            &&& final(self).receiver.expected_sequence == sequence + 1
                            &&& final(self).receiver.state.held@ == old(self).receiver.held_with(
                                *event,
                            )
                            &&& final(self).receiver.sink.log() == old(self).receiver.sink.log().push(
                                crate::receiver::Call {
                                    request: crate::receiver::Request::Emit(*event),
                                    failure: None,
                                },
                            )
                        },
                        Err(e) => exists|cleanup: Option<Error>| #[trigger]
                            final(self).receiver.ended(
                                old(self).receiver,
                                old(self).receiver.sink.log().push(
                                    crate::receiver::Call {
                                        request: crate::receiver::Request::Emit(*event),
                                        failure: Some(e),
                                    },
                                ),
                                old(self).receiver.owed_with(*event),
                                cleanup,
                            ),
                    }
                }
            }),
    {
        let mut actions: Vec<Action> = Vec::new();
        if age_us >= MAX_INPUT_AGE_US {
            return Err(Error::InputDelayed);
        }
        if !self.receiving(session) {
            return Ok(actions);
        }
        if physical {
            match self.receiver.physical_activity() {
                Err(e) => return Err(e),
                Ok(()) => {},
            }
            actions.push(Action::Send(Message::End { session, exit: None }));
            self.role = Role::Local;
            self.halt(&mut actions);
            assert(actions@ =~= old(self).farewell(None) + old(self).halting());
            return Ok(actions);
        }
        let outcome = self.receiver.input(session, sequence, event);
        proof {
            if old(self).receiver.refusal(sequence, *event) is Some {
                let cleanup = choose|cleanup: Option<Error>|
                    {
                        &&& #[trigger] self.receiver.ended(
                            old(self).receiver,
                            old(self).receiver.sink.log(),
                            old(self).receiver.owed(),
                            cleanup,
                        )
                        &&& outcome == Err::<bool, Error>(
                            match cleanup {
                                Some(e) => e,
                                None => old(self).receiver.refusal(sequence, *event)->0,
                            },
                        )
                    };
                assert(self.receiver_left(*old(self), cleanup));
            }
        }
        match outcome {
            Err(e) => Err(e),
            Ok(_) => Ok(actions),
        }
    }

    /// Where the pointer goes when the other computer gives control back: to where it came out,
    /// as far as that connection is known here, else to where it left.
    pub open spec fn return_position(self, exit: Option<EdgePosition>) -> Seq<Action> {
        match self.role {
            Role::Sending { origin, .. } => match exit {
                Some(position) => if crate::edges::edge_index(
                    self.edges@,
                    position.edge_id@,
                ) is Some {
                    self.placing(position)
                } else {
                    self.placing(origin)
                },
                None => self.placing(origin),
            },
            _ => Seq::empty(),
        }
    }

    /// The other computer ends a session.
    pub fn on_end(&mut self, session: u64, exit: Option<EdgePosition>, now: u64) -> (r: Result<
        Vec<Action>,
        Error,
    >)
        requires
            old(self).wf(),
        ensures
            final(self).receiver.wf(),
            r is Ok ==> final(self).wf(),
            old(self).role.session_id() != Some(session) ==> {
                &&& r matches Ok(actions) && actions@.len() == 0
                &&& *final(self) == *old(self)
            },
            old(self).role.session_id() == Some(session) ==> match r {
                Ok(actions) => {
                    &&& actions@ == old(self).halting() + old(self).return_position(exit)
                    &&& *final(self) == (Coordinator {
                        receiver: final(self).receiver,
                        role: Role::Local,
                        capture: None,
                        rearm_at: later_than(now, REARM_DELAY_US),
                        ..*old(self)
                    })
                    &&& final(self).receiver_left(*old(self), None)
                },
                Err(e) => final(self).receiver_left(*old(self), Some(e)),
            },
    {
        let mut actions: Vec<Action> = Vec::new();
        if self.role.session() != Some(session) {
            return Ok(actions);
        }
        match self.receiver.end(session) {
            Err(e) => return Err(e),
            Ok(()) => {},
        }
        self.halt(&mut actions);
        match &self.role {
            Role::Sending { origin, .. } => {
                let known = match &exit {
                    Some(position) => find_edge(
                        &self.edges,
                        position.edge_id.as_str(),
                    ).is_some(),
                    None => false,
                };
                match &exit {
                    Some(position) => {
                        if known {
                            self.place(position, &mut actions);
                        } else {
                            self.place(origin, &mut actions);
                        }
                    },
                    None => {
                        self.place(origin, &mut actions);
                    },
                }
            },
            _ => {},
        }
        self.role = Role::Local;
        self.rearm_at = later(now, REARM_DELAY_US);
        assert(actions@ =~= old(self).halting() + old(self).return_position(exit));
        Ok(actions)
    }
}

/// The backend was asked to let go of what an earlier connection left behind; `failure` says what
/// went wrong.
pub open spec fn cleaned_at_start<S: InputSink>(
    sink: S,
    receiver: Receiver<S>,
    failure: Option<Error>,
) -> bool {
    crate::receiver::cleaned(
        sink.log(),
        receiver.sink.log(),
        Set::empty(),
        receiver.pending_releases@,
        failure,
    )
}

/// Forgets the smallest key of a map that is not empty.
fn forget_smallest(map: &mut BTreeMap<u64, u64>)
    requires
        old(map)@.dom().len() > 0,
        old(map)@.dom().finite(),
    ensures
        exists|key: u64|
            {
                &&& old(map)@.contains_key(key)
                &&& forall|other: u64| #[trigger] old(map)@.contains_key(other) ==> key <= other
                &&& final(map)@ == #[trigger] old(map)@.remove(key)
            },
{
    let mut smallest: Option<u64> = None;
    let order = map.iter();
    let ghost all = vstd::std_specs::iter::IteratorSpec::remaining(&order);
    for entry in it: order
        invariant
            it.seq() == all,
            smallest is None <==> it.index() == 0,
            smallest matches Some(key) ==> map@.contains_key(key),
            smallest matches Some(key) ==> forall|i: int|
                0 <= i < it.index() ==> key <= *(#[trigger] all[i]).0,
            forall|i: int| 0 <= i < all.len() ==> map@.contains_key(*(#[trigger] all[i]).0),
    {
        assert(entry == all[it.index()]);
        let key: u64 = *entry.0;
        match smallest {
            Some(current) => {
                if key < current {
                    smallest = Some(key);
                }
            },
            None => {
                smallest = Some(key);
            },
        }
    }
    proof {
        assert forall|other: u64| #[trigger] map@.contains_key(other) implies exists|i: int|
            0 <= i < all.len() && *(#[trigger] all[i]).0 == other by {
            assert(all.contains((&other, &map@[other])));
            let i = choose|i: int| 0 <= i < all.len() && all[i] == (&other, &map@[other]);
            assert(*all[i].0 == other);
        }
        let some = map@.dom().choose();
        assert(map@.dom().contains(some));
        assert(map@.contains_key(some));
    }
    match smallest {
        Some(key) => {
            map.remove(&key);
        },
        None => {},
    }
}

impl<S: InputSink> Coordinator<S> {
    /// The heartbeats that wait for their answer after another one was sent: at most as many as
    /// are kept, the one with the smallest number makes room.
    pub open spec fn pings_after(pings: Map<u64, u64>, now: Map<u64, u64>, nonce: u64, time: u64) -> bool {
        let all = pings.insert(nonce, time);
        if all.dom().len() <= MAX_PINGS {
            now == all
        } else {
            exists|key: u64|
                {
                    &&& all.contains_key(key)
                    &&& forall|other: u64| #[trigger] all.contains_key(other) ==> key <= other
                    &&& now == #[trigger] all.remove(key)
                }
        }
    }

    /// Sends a heartbeat when the last one is old enough.
    pub fn beat(&mut self, now: u64) -> (r: Option<Action>)
        requires
            old(self).wf(),
        ensures
            final(self).wf(),
            now - old(self).last_heartbeat < HEARTBEAT_US ==> r is None && *final(self) == *old(self),
            now - old(self).last_heartbeat >= HEARTBEAT_US ==> {
                &&& r == Some(Action::Send(Message::Ping { nonce: old(self).heartbeat }))
                &&& Self::pings_after(
                    old(self).pings@,
                    final(self).pings@,
                    old(self).heartbeat,
                    now,
                )
                &&& *final(self) == (Coordinator {
                    pings: final(self).pings,
                    last_heartbeat: now,
                    heartbeat: if old(self).heartbeat == u64::MAX {
                        0
                    } else {
                        (old(self).heartbeat + 1) as u64
                    },
                    ..*old(self)
                })
            },
    {
        if now < self.last_heartbeat || now - self.last_heartbeat < HEARTBEAT_US {
            return None;
        }
        let nonce: u64 = self.heartbeat;
        self.pings.insert(nonce, now);
        if self.pings.len() > MAX_PINGS {
            forget_smallest(&mut self.pings);
        }
        self.heartbeat = if nonce == u64::MAX {
            0
        } else {
            nonce + 1
        };
        self.last_heartbeat = now;
        Some(Action::Send(Message::Ping { nonce }))
    }

    /// A heartbeat of the other computer is answered with its number.
    pub fn on_ping(&self, nonce: u64) -> (r: Action)
        ensures
            r == Action::Send(Message::Pong { nonce }),
    {
        Action::Send(Message::Pong { nonce })
    }

    /// The connection is open: another greeting is an error.
    pub fn on_hello(&self) -> (r: Error)
        ensures
            r == Error::HandshakeRepeated,
    {
        Error::HandshakeRepeated
    }

    /// The answer to a heartbeat; returns how long it took.
    pub fn on_pong(&mut self, nonce: u64, now: u64) -> (r: Option<u64>)
        requires
            old(self).wf(),
        ensures
            final(self).wf(),
            final(self).pings@ == old(self).pings@.remove(nonce),
            *final(self) == (Coordinator { pings: final(self).pings, ..*old(self) }),
            match r {
                Some(elapsed) => old(self).pings@.contains_key(nonce) && elapsed == (if now
                    >= old(self).pings@[nonce] {
                    now - old(self).pings@[nonce]
                } else {
                    0
                }),
                None => !old(self).pings@.contains_key(nonce),
            },
    {
        let sent = self.pings.remove(&nonce);
        assert(sent is None ==> self.pings@ =~= old(self).pings@.remove(nonce));
        match sent {
            Some(time) => if now >= time {
                Some(now - time)
            } else {
                Some(0)
            },
            None => None,
        }
    }
}

/// What the answer to a proposed layout asks for.
pub enum Agreement {
    /// It answers nothing that was proposed.
    Ignored,
    /// The other computer is ready: commit here, then report how that went.
    Commit,
    /// The other computer refuses, with an error code.
    Refused(String),
}

impl<S: InputSink> Coordinator<S> {
    /// Why a new layout cannot be applied now.
    pub open spec fn apply_problem(self, layout: LayoutRequest) -> Option<Error> {
        if self.pending_layout is Some {
            Some(Error::SettingsBusy)
        } else if !(self.local_ready && self.peer_ready) {
            Some(Error::SessionLocked)
        } else if layout.problem() is Some {
            layout.problem()
        } else if self.peer_desktop is None {
            Some(Error::PeerOffline)
        } else if self.peer_desktop->0.revision@ != layout.peer_revision@ {
            Some(Error::SettingsConflict)
        } else if !self.saveable {
            Some(Error::ConfigInvalid)
        } else {
            None
        }
    }

    pub fn check_apply(&self, layout: &LayoutRequest) -> (r: Result<(), Error>)
        ensures
            match self.apply_problem(*layout) {
                Some(e) => r == Err::<(), Error>(e),
                None => r is Ok,
            },
    {
        if self.pending_layout.is_some() {
            return Err(Error::SettingsBusy);
        }
        if !(self.local_ready && self.peer_ready) {
            return Err(Error::SessionLocked);
        }
        match layout.validate() {
            Err(e) => return Err(e),
            Ok(()) => {},
        }
        match &self.peer_desktop {
            None => return Err(Error::PeerOffline),
            Some(peer) => {
                if !(peer.revision == layout.peer_revision) {
                    return Err(Error::SettingsConflict);
                }
            },
        }
        if !self.saveable {
            return Err(Error::ConfigInvalid);
        }
        Ok(())
    }

    /// Why a layout that the other computer proposes cannot be prepared now.
    pub open spec fn prepare_problem(self) -> Option<Error> {
        if self.pending_layout is Some {
            Some(Error::SettingsBusy)
        } else if !(self.local_ready && self.peer_ready) {
            Some(Error::SessionLocked)
        } else if !self.saveable {
            Some(Error::ConfigInvalid)
        } else {
            None
        }
    }

    pub fn check_prepare(&self) -> (r: Result<(), Error>)
        ensures
            match self.prepare_problem() {
                Some(e) => r == Err::<(), Error>(e),
                None => r is Ok,
            },
    {
        if self.pending_layout.is_some() {
            return Err(Error::SettingsBusy);
        }
        if !(self.local_ready && self.peer_ready) {
            return Err(Error::SessionLocked);
        }
        if !self.saveable {
            return Err(Error::ConfigInvalid);
        }
        Ok(())
    }

    /// Answers a proposed layout that cannot be prepared here, with an error code.
    pub fn refuse_prepare(&self, id: String, code: String) -> (r: Action)
        ensures
            r == Action::Send(
                Message::Layout {
                    message: LayoutMessage::Prepared { id, ok: false, error: Some(code) },
                },
            ),
    {
        Action::Send(
            Message::Layout {
                message: LayoutMessage::Prepared { id, ok: false, error: Some(code) },
            },
        )
    }

    /// Sharing has stopped for a layout change.
    pub open spec fn suspended(self, before: Coordinator<S>, id: String, initiator: bool, now: u64) -> bool {
        &&& self == (Coordinator {
            receiver: self.receiver,
            role: Role::Local,
            capture: None,
            pending_layout: Some(
                PendingLayout { id, initiator, deadline: later_than(now, LAYOUT_TIMEOUT_US) },
            ),
            ..before
        })
        &&& self.receiver_left(before, None)
    }

    fn suspend(&mut self, id: String, initiator: bool, now: u64, actions: &mut Vec<Action>) -> (r:
        Result<(), Error>)
        requires
            old(self).wf(),
        ensures
            final(self).receiver.wf(),
            match r {
                Ok(_) => {
                    &&& final(self).wf()
                    &&& final(self).suspended(*old(self), id, initiator, now)
                    &&& final(actions)@ == old(actions)@ + old(self).farewell(None) + old(self).halting()
                },
                Err(e) => final(self).receiver_left(*old(self), Some(e)),
            },
    {
        match self.leave(None, actions) {
            Err(e) => return Err(e),
            Ok(()) => {},
        }
        self.halt(actions);
        self.role = Role::Local;
        self.pending_layout = Some(
            PendingLayout { id, initiator, deadline: later(now, LAYOUT_TIMEOUT_US) },
        );
        Ok(())
    }

    /// A new layout was asked for and is prepared here: proposes the other half to the other
    /// computer.
    pub fn on_apply(&mut self, id: String, layout: LayoutRequest, now: u64) -> (r: Result<
        Vec<Action>,
        Error,
    >)
        requires
            old(self).wf(),
            old(self).pending_layout is None,
        ensures
            final(self).receiver.wf(),
            match r {
                Ok(actions) => {
                    &&& final(self).wf()
                    &&& final(self).suspended(*old(self), id, true, now)
                    &&& actions@ == old(self).farewell(None) + old(self).halting() + seq![
                        Action::Send(
                            Message::Layout {
                                message: LayoutMessage::Prepare {
                                    id,
                                    edges: layout.peer_edges,
                                    revision: layout.peer_revision,
                                },
                            },
                        ),
                    ]
                },
                Err(e) => final(self).receiver_left(*old(self), Some(e)),
            },
    {
        let mut actions: Vec<Action> = Vec::new();
        match self.suspend(id.clone(), true, now, &mut actions) {
            Err(e) => return Err(e),
            Ok(()) => {},
        }
        actions.push(
            Action::Send(
                Message::Layout {
                    message: LayoutMessage::Prepare {
                        id,
                        edges: layout.peer_edges,
                        revision: layout.peer_revision,
                    },
                },
            ),
        );
        assert(actions@ =~= old(self).farewell(None) + old(self).halting() + seq![
            Action::Send(
                Message::Layout {
                    message: LayoutMessage::Prepare {
                        id,
                        edges: layout.peer_edges,
                        revision: layout.peer_revision,
                    },
                },
            ),
        ]);
        Ok(actions)
    }

    /// A layout that the other computer proposed is prepared here.
    pub fn on_prepare(&mut self, id: String, now: u64) -> (r: Result<Vec<Action>, Error>)
        requires
            old(self).wf(),
            old(self).pending_layout is None,
        ensures
            final(self).receiver.wf(),
            match r {
                Ok(actions) => {
                    &&& final(self).wf()
                    &&& final(self).suspended(*old(self), id, false, now)
                    &&& actions@ == old(self).farewell(None) + old(self).halting() + seq![
                        Action::Send(
                            Message::Layout {
                                message: LayoutMessage::Prepared { id, ok: true, error: None },
                            },
                        ),
                    ]
                },
                Err(e) => final(self).receiver_left(*old(self), Some(e)),
            },
    {
        let mut actions: Vec<Action> = Vec::new();
        match self.suspend(id.clone(), false, now, &mut actions) {
            Err(e) => return Err(e),
            Ok(()) => {},
        }
        actions.push(
            Action::Send(
                Message::Layout { message: LayoutMessage::Prepared { id, ok: true, error: None } },
            ),
        );
        assert(actions@ =~= old(self).farewell(None) + old(self).halting() + seq![
            Action::Send(
                Message::Layout { message: LayoutMessage::Prepared { id, ok: true, error: None } },
            ),
        ]);
        Ok(actions)
    }

    /// A change that is under way here has an identifier, and was asked for on this computer or
    /// was not.
    pub open spec fn awaits(self, id: Seq<char>, initiator: bool) -> bool {
        self.pending_layout matches Some(pending) && pending.id@ == id && pending.initiator
            == initiator
    }

    fn is_awaiting(&self, id: &String, initiator: bool) -> (r: bool)
        ensures
            r == self.awaits(id@, initiator),
    {
        match &self.pending_layout {
            Some(pending) => pending.id == *id && pending.initiator == initiator,
            None => false,
        }
    }

    /// The other computer answers a proposed layout.
    pub fn on_prepared(&self, id: &String, ok: bool, error: Option<String>) -> (r: Agreement)
        ensures
            !self.awaits(id@, true) ==> r is Ignored,
            self.awaits(id@, true) && ok ==> r is Commit,
            self.awaits(id@, true) && !ok ==> (r matches Agreement::Refused(code) && code@ == (
            match error {
                Some(text) => text@,
                None => "operation_failed"@,
            })),
    {
        if !self.is_awaiting(id, true) {
            return Agreement::Ignored;
        }
        if ok {
            return Agreement::Commit;
        }
        match error {
            Some(text) => Agreement::Refused(text),
            None => Agreement::Refused("operation_failed".to_owned()),
        }
    }

    /// What follows on the answer to a proposed layout: the other computer is asked to commit
    /// where this one has, else the change is given up on both.
    pub fn on_agreed(&mut self, id: String, failure: Option<String>) -> (r: Vec<Action>)
        requires
            old(self).wf(),
            old(self).awaits(id@, true),
        ensures
            final(self).wf(),
            match failure {
                None => {
                    &&& r@ == seq![
                        Action::Send(Message::Layout { message: LayoutMessage::Commit { id } }),
                    ]
                    &&& *final(self) == *old(self)
                },
                Some(code) => {
                    &&& r@ == seq![
                        Action::Send(Message::Layout { message: LayoutMessage::Abort { id } }),
                        Action::ReplyFailure(code),
                        Action::DiscardLayout,
                    ]
                    &&& *final(self) == (Coordinator { pending_layout: None, ..*old(self) })
                },
            },
    {
        let mut actions: Vec<Action> = Vec::new();
        match failure {
            None => {
                actions.push(
                    Action::Send(Message::Layout { message: LayoutMessage::Commit { id } }),
                );
                assert(actions@ =~= seq![
                    Action::Send(Message::Layout { message: LayoutMessage::Commit { id } }),
                ]);
            },
            Some(code) => {
                self.pending_layout = None;
                actions.push(
                    Action::Send(Message::Layout { message: LayoutMessage::Abort { id } }),
                );
                actions.push(Action::ReplyFailure(code));
                actions.push(Action::DiscardLayout);
                assert(actions@ =~= seq![
                    Action::Send(Message::Layout { message: LayoutMessage::Abort { id } }),
                    Action::ReplyFailure(code),
                    Action::DiscardLayout,
                ]);
            },
        }
        actions
    }

    /// The other computer asks to commit the change that it proposed.
    pub fn commits(&self, id: &String) -> (r: bool)
        ensures
            r == self.awaits(id@, false),
    {
        self.is_awaiting(id, false)
    }

    /// How the commit that the other computer asked for went: the new revision, or an error code.
    pub fn on_committed(&mut self, id: String, outcome: Result<String, String>) -> (r: Vec<Action>)
        requires
            old(self).wf(),
            old(self).awaits(id@, false),
        ensures
            final(self).wf(),
            *final(self) == (Coordinator { pending_layout: None, ..*old(self) }),
            match outcome {
                Ok(revision) => r@ == seq![
                    Action::FinishLayout,
                    Action::Send(
                        Message::Layout {
                            message: LayoutMessage::Result {
                                id,
                                ok: true,
                                revision: Some(revision),
                                error: None,
                            },
                        },
                    ),
                    Action::Reconnect,
                ],
                Err(code) => r@ == seq![
                    Action::Send(
                        Message::Layout {
                            message: LayoutMessage::Result {
                                id,
                                ok: false,
                                revision: None,
                                error: Some(code),
                            },
                        },
                    ),
                    Action::DiscardLayout,
                ],
            },
    {
        self.pending_layout = None;
        let mut actions: Vec<Action> = Vec::new();
        match outcome {
            Ok(revision) => {
                actions.push(Action::FinishLayout);
                actions.push(
                    Action::Send(
                        Message::Layout {
                            message: LayoutMessage::Result {
                                id,
                                ok: true,
                                revision: Some(revision),
                                error: None,
                            },
                        },
                    ),
                );
                actions.push(Action::Reconnect);
                assert(actions@ =~= seq![actions@[0], actions@[1], actions@[2]]);
            },
            Err(code) => {
                actions.push(
                    Action::Send(
                        Message::Layout {
                            message: LayoutMessage::Result {
                                id,
                                ok: false,
                                revision: None,
                                error: Some(code),
                            },
                        },
                    ),
                );
                actions.push(Action::DiscardLayout);
                assert(actions@ =~= seq![actions@[0], actions@[1]]);
            },
        }
        actions
    }

    /// The other computer reports how its commit went.
    pub fn on_result(
        &mut self,
        id: &String,
        ok: bool,
        revision: Option<String>,
        error: Option<String>,
    ) -> (r: Vec<Action>)
        requires
            old(self).wf(),
        ensures
            final(self).wf(),
            !old(self).awaits(id@, true) ==> r@.len() == 0 && *final(self) == *old(self),
            old(self).awaits(id@, true) ==> {
                &&& *final(self) == (Coordinator { pending_layout: None, ..*old(self) })
                &&& ok ==> r@ == seq![
                    Action::FinishLayout,
                    Action::ReplyApplied { peer_revision: revision },
                    Action::Reconnect,
                ]
                &&& !ok ==> {
                    &&& r@.len() == 2
                    &&& r@[0] matches Action::ReplyFailure(code) && code@ == (match error {
                        Some(text) => text@,
                        None => "operation_failed"@,
                    })
                    &&& r@[1] is DiscardLayout
                }
            },
    {
        let mut actions: Vec<Action> = Vec::new();
        if !self.is_awaiting(id, true) {
            return actions;
        }
        self.pending_layout = None;
        if ok {
            actions.push(Action::FinishLayout);
            actions.push(Action::ReplyApplied { peer_revision: revision });
            actions.push(Action::Reconnect);
            assert(actions@ =~= seq![
                Action::FinishLayout,
                Action::ReplyApplied { peer_revision: revision },
                Action::Reconnect,
            ]);
        } else {
            let code = match error {
                Some(text) => text,
                None => "operation_failed".to_owned(),
            };
            actions.push(Action::ReplyFailure(code));
            actions.push(Action::DiscardLayout);
        }
        actions
    }

    /// What giving up a change asks for.
    pub open spec fn giving_up(pending: PendingLayout, actions: Seq<Action>) -> bool {
        if pending.initiator {
            &&& actions.len() == 2
            &&& actions[0] matches Action::ReplyFailure(code) && code@ == "layout_unconfirmed"@
            &&& actions[1] is DiscardLayout
        } else {
            actions == seq![Action::DiscardLayout]
        }
    }

    /// The other computer gives a change up.
    pub fn on_abort(&mut self, id: &String) -> (r: Vec<Action>)
        requires
            old(self).wf(),
        ensures
            final(self).wf(),
            !old(self).awaits(id@, true) && !old(self).awaits(id@, false) ==> r@.len() == 0
                && *final(self) == *old(self),
            old(self).awaits(id@, true) || old(self).awaits(id@, false) ==> {
                &&& *final(self) == (Coordinator { pending_layout: None, ..*old(self) })
                &&& Self::giving_up(old(self).pending_layout->0, r@)
            },
    {
        let mut actions: Vec<Action> = Vec::new();
        let initiator = self.is_awaiting(id, true);
        if !initiator && !self.is_awaiting(id, false) {
            return actions;
        }
        self.pending_layout = None;
        if initiator {
            actions.push(Action::ReplyFailure("layout_unconfirmed".to_owned()));
        }
        actions.push(Action::DiscardLayout);
        assert(!initiator ==> actions@ =~= seq![Action::DiscardLayout]);
        actions
    }

    /// Gives a change up that was not confirmed in time.
    pub fn expire_layout(&mut self, now: u64) -> (r: Vec<Action>)
        requires
            old(self).wf(),
        ensures
            final(self).wf(),
            match old(self).pending_layout {
                Some(pending) if now >= pending.deadline => {
                    &&& *final(self) == (Coordinator { pending_layout: None, ..*old(self) })
                    &&& r@.len() > 0
                    &&& r@[0] == Action::Send(
                        Message::Layout { message: LayoutMessage::Abort { id: pending.id } },
                    )
                    &&& Self::giving_up(pending, r@.skip(1))
                },
                _ => r@.len() == 0 && *final(self) == *old(self),
            },
    {
        let mut actions: Vec<Action> = Vec::new();
        let (id, initiator): (String, bool) = match &self.pending_layout {
            Some(pending) => {
                if now < pending.deadline {
                    return actions;
                }
                (pending.id.clone(), pending.initiator)
            },
            None => return actions,
        };
        self.pending_layout = None;
        actions.push(Action::Send(Message::Layout { message: LayoutMessage::Abort { id } }));
        if initiator {
            actions.push(Action::ReplyFailure("layout_unconfirmed".to_owned()));
        }
        actions.push(Action::DiscardLayout);
        assert(!initiator ==> actions@.skip(1) =~= seq![Action::DiscardLayout]);
        actions
    }

    /// The connection was left: whatever was held or owed has been released as far as the backend
    /// let it, and the touchpads were reset. The actions let go of the input devices and end the
    /// capture.
    pub open spec fn left(
        self,
        before: Coordinator<S>,
        actions: Seq<Action>,
        failure: Option<Error>,
    ) -> bool {
        &&& self.receiver.wf()
        &&& self.receiver.state.stopped(before.receiver.state)
        &&& self.receiver.ended(
            before.receiver,
            before.receiver.sink.log(),
            before.receiver.owed(),
            failure,
        )
        &&& self == (Coordinator { receiver: self.receiver, ..before })
        &&& actions == seq![Action::Suspend, Action::StopCapture]
    }

    /// The connection is over, for whatever reason: whatever is still held is released.
    pub fn close(&mut self) -> (r: (Vec<Action>, Result<(), Error>))
        requires
            old(self).receiver.wf(),
        ensures
            final(self).left(*old(self), r.0@, crate::receiver::failure_of(r.1)),
    {
        let release = self.receiver.stop(StopReason::Disconnected);
        let mut actions: Vec<Action> = Vec::new();
        actions.push(Action::Suspend);
        actions.push(Action::StopCapture);
        assert(actions@ =~= seq![Action::Suspend, Action::StopCapture]);
        (actions, release)
    }
}

/// What a connection ends with once everything was let go.
pub enum Ending {
    /// The capture did not end in time, or failed.
    CaptureStuck,
    /// The backend did not release what was held.
    ReleaseFailed(Error),
    /// Whatever the connection came to.
    Outcome,
}

/// Failing to let go of the input comes before what the connection came to.
pub fn ending(capture_released: bool, release: Result<(), Error>) -> (r: Ending)
    ensures
        r == (if !capture_released {
            Ending::CaptureStuck
        } else {
            match release {
                Err(e) => Ending::ReleaseFailed(e),
                Ok(_) => Ending::Outcome,
            }
        }),
{
    if !capture_released {
        return Ending::CaptureStuck;
    }
    match release {
        Err(e) => Ending::ReleaseFailed(e),
        Ok(()) => Ending::Outcome,
    }
}

/// However a connection ends: the release of everything that the backend may hold down has been
/// tried, the touchpads were reset after that, the input devices are let go of and the capture is
/// ended. Where nothing failed, nothing stays down.
pub proof fn lemma_leaving_lets_everything_go<S: InputSink>(
    before: Coordinator<S>,
    after: Coordinator<S>,
    actions: Seq<Action>,
    failure: Option<Error>,
)
    requires
        before.receiver.wf(),
        after.left(before, actions, failure),
    ensures
        ({
            let start = before.receiver.sink.log().len();
            let log = after.receiver.sink.log();
            &&& log.len() > start
            &&& log.take(start as int) == before.receiver.sink.log()
            &&& forall|code: u16| #[trigger]
                crate::receiver::possibly_down(before.receiver.calls()).contains(code)
                    ==> exists|i: int|
                    start <= i < log.len() - 1 && (#[trigger] log[i]).request
                        == crate::receiver::Request::Emit(InputEvent::release_of(code))
            &&& log.last().request == crate::receiver::Request::ResetTouchpads
        }),
        actions.contains(Action::Suspend),
        actions.contains(Action::StopCapture),
        failure is None ==> crate::receiver::possibly_down(after.receiver.calls()) == Set::<
            u16,
        >::empty(),
{
    let start = before.receiver.sink.log().len() as int;
    let log = after.receiver.sink.log();
    let calls = log.skip(start);
    let list = crate::codes::ascending(before.receiver.owed());
    crate::codes::lemma_codes_below(before.receiver.owed(), 65536);
    assert forall|code: u16| #[trigger]
        crate::receiver::possibly_down(before.receiver.calls()).contains(code) implies exists|
        i: int,
    |
        start <= i < log.len() - 1 && (#[trigger] log[i]).request == crate::receiver::Request::Emit(
            InputEvent::release_of(code),
        ) by {
        assert(before.receiver.owed().contains(code));
        assert(list.contains(code));
        let j = choose|j: int| 0 <= j < list.len() && list[j] == code;
        assert(calls.drop_last()[j].request == crate::receiver::Request::Emit(
            InputEvent::release_of(list[j]),
        ));
        assert(calls.drop_last()[j] == log[start + j]);
    }
    assert(calls.last() == log.last());
    assert(actions[0] is Suspend);
    assert(actions[1] is StopCapture);
    if failure is None {
        crate::receiver::lemma_nothing_stays_down(after.receiver);
    }
}

/// Input is shared only while both computers are unlocked and no layout change is under way.
pub proof fn lemma_sharing_needs_unlocked_computers<S: InputSink>(c: Coordinator<S>)
    requires
        c.wf(),
        !(c.role is Local),
    ensures
        c.local_ready,
        c.peer_ready,
        c.pending_layout is None,
        !c.receiver.state.locked(),
{
}

/// Nothing of the other computer's input is held down here unless it is in control.
pub proof fn lemma_only_a_receiver_holds_input<S: InputSink>(c: Coordinator<S>)
    requires
        c.wf(),
        !(c.role is Receiving),
        c.receiver.pending_releases@ == Set::<u16>::empty(),
    ensures
        crate::receiver::possibly_down(c.receiver.calls()) == Set::<u16>::empty(),
{
    crate::receiver::lemma_nothing_stays_down(c.receiver);
}

/// A listed connection is found by its identifier.
proof fn lemma_first_with_id(edges: Seq<EdgeConfig>, index: int)
    requires
        0 <= index < edges.len(),
    ensures
        crate::edges::edge_index(edges, edges[index].id@) is Some,
    decreases index,
{
    if index > 0 && edges[0].id@ != edges[index].id@ {
        lemma_first_with_id(edges.drop_first(), index - 1);
    }
}

} // verus!
