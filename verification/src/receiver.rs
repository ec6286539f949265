//! Injects the input of one authenticated connection and cleans up after it.
use crate::codes::sorted_codes;
use crate::error::Error;
use crate::input::{ControlState, Mode, StopReason};
use crate::protocol::InputEvent;
use crate::touchpad::Descriptor;
use std::collections::BTreeSet;
use vstd::prelude::*;

verus! {

broadcast use {vstd::std_specs::btree::group_btree_axioms, vstd::laws_cmp::group_laws_cmp};

/// Something that an input backend was asked to do.
pub ghost enum Request {
    Emit(InputEvent),
    SelectOutput(Seq<char>),
    ConfigureTouchpads(Seq<Descriptor>),
    ResetTouchpads,
}

/// A request and what the backend answered.
pub ghost struct Call {
    pub request: Request,
    pub failure: Option<Error>,
}

/// Why a request failed, if it did.
pub open spec fn failure_of(r: Result<(), Error>) -> Option<Error> {
    match r {
        Err(e) => Some(e),
        Ok(_) => None,
    }
}

/// An input backend. It may refuse any request.
pub trait InputSink: Sized {
    /// Every request so far, in order. Nothing is known of it but what the methods say.
    closed spec fn log(&self) -> Seq<Call> {
        Seq::empty()
    }

    fn emit(&mut self, event: &InputEvent) -> (r: Result<(), Error>)
        ensures
            final(self).log() == old(self).log().push(
                Call { request: Request::Emit(*event), failure: failure_of(r) },
            ),
    ;

    fn select_output(&mut self, output: &str) -> (r: Result<(), Error>)
        ensures
            final(self).log() == old(self).log().push(
                Call { request: Request::SelectOutput(output@), failure: failure_of(r) },
            ),
    ;

    fn configure_touchpads(&mut self, devices: &[Descriptor]) -> (r: Result<(), Error>)
        ensures
            final(self).log() == old(self).log().push(
                Call { request: Request::ConfigureTouchpads(devices@), failure: failure_of(r) },
            ),
    ;

    fn reset_touchpads(&mut self) -> (r: Result<(), Error>)
        ensures
            final(self).log() == old(self).log().push(
                Call { request: Request::ResetTouchpads, failure: failure_of(r) },
            ),
    ;
}

/// What a backend answers that has one output only.
pub fn refuse_output() -> (r: Result<(), Error>)
    ensures
        r == Err::<(), Error>(Error::OutputSelectionUnsupported),
{
    Err(Error::OutputSelectionUnsupported)
}

/// What a backend answers that has no native touchpads.
pub fn refuse_touchpads(devices: &[Descriptor]) -> (r: Result<(), Error>)
    ensures
        r == (if devices@.len() == 0 {
            Ok(())
        } else {
            Err::<(), Error>(Error::TouchpadsUnsupported)
        }),
{
    if devices.len() == 0 {
        Ok(())
    } else {
        Err(Error::TouchpadsUnsupported)
    }
}

/// The codes that a backend may still hold down: every code that it was asked to press, whatever
/// it answered, until it has accepted a release.
pub open spec fn possibly_down(log: Seq<Call>) -> Set<u16>
    decreases log.len(),
{
    if log.len() == 0 {
        Set::empty()
    } else {
        let before = possibly_down(log.drop_last());
        match log.last().request {
            Request::Emit(event) => match event.transition() {
                Some((code, true)) => before.insert(code),
                Some((code, false)) => if log.last().failure is None {
                    before.remove(code)
                } else {
                    before
                },
                None => before,
            },
            _ => before,
        }
    }
}

/// The requests that release codes, one for each, in order.
pub open spec fn releases(calls: Seq<Call>, codes: Seq<u16>) -> bool {
    &&& calls.len() == codes.len()
    &&& forall|i: int|
        0 <= i < codes.len() ==> (#[trigger] calls[i]).request == Request::Emit(
            InputEvent::release_of(codes[i]),
        )
}

/// The first failure of several requests.
pub open spec fn first_failure(calls: Seq<Call>) -> Option<Error>
    decreases calls.len(),
{
    if calls.len() == 0 {
        None
    } else if first_failure(calls.drop_last()) is Some {
        first_failure(calls.drop_last())
    } else {
        calls.last().failure
    }
}

/// The codes whose releases failed.
pub open spec fn unreleased(calls: Seq<Call>, codes: Seq<u16>) -> Set<u16>
    decreases calls.len(),
{
    if calls.len() == 0 || codes.len() == 0 {
        Set::empty()
    } else {
        let before = unreleased(calls.drop_last(), codes.drop_last());
        if calls.last().failure is None {
            before
        } else {
            before.insert(codes.last())
        }
    }
}

/// Between two states of a backend every code was released, in order, and the touchpads were reset;
/// `left` are the codes whose releases failed, and `failure` is the first failure.
pub open spec fn cleaned(
    before: Seq<Call>,
    after: Seq<Call>,
    codes: Set<u16>,
    left: Set<u16>,
    failure: Option<Error>,
) -> bool {
    let list = crate::codes::ascending(codes);
    let calls = after.skip(before.len() as int);
    &&& after.len() == before.len() + list.len() + 1
    &&& after.take(before.len() as int) == before
    &&& releases(calls.drop_last(), list)
    &&& calls.last().request == Request::ResetTouchpads
    &&& left == unreleased(calls.drop_last(), list)
    &&& failure == first_failure(calls)
}

/// Owns held-input cleanup for one authenticated connection; never logs input payloads.
pub struct Receiver<S: InputSink> {
    pub sink: S,
    pub state: ControlState,
    pub session: Option<u64>,
    pub expected_sequence: u64,
    pub pending_releases: BTreeSet<u16>,
    /// The number of requests that the backend had got before.
    pub since: Ghost<nat>,
}

impl<S: InputSink> Receiver<S> {
    /// What the backend was asked to do on behalf of this connection.
    pub open spec fn calls(self) -> Seq<Call> {
        self.sink.log().skip(self.since@ as int)
    }

    /// Every code that is held or waits to be released.
    pub open spec fn owed(self) -> Set<u16> {
        self.state.held@.union(self.pending_releases@)
    }

    /// What is owed a release once an event has been attempted.
    pub open spec fn owed_with(self, event: InputEvent) -> Set<u16> {
        match event.transition() {
            Some((code, true)) => self.owed().insert(code),
            _ => self.owed(),
        }
    }

    /// What is held once an event has been injected.
    pub open spec fn held_with(self, event: InputEvent) -> Set<u16> {
        match event.transition() {
            Some((code, true)) => self.state.held@.insert(code),
            Some((code, false)) => self.state.held@.remove(code),
            None => self.state.held@,
        }
    }

    /// The backend may hold down only what is owed a release.
    pub open spec fn accounted(self) -> bool {
        &&& self.since@ <= self.sink.log().len()
        &&& possibly_down(self.calls()).subset_of(self.owed())
    }

    /// A session is open exactly while input is received, no release is outstanding then, and
    /// the backend holds down only what is owed a release.
    pub open spec fn wf(self) -> bool {
        &&& self.state.wf()
        &&& self.session is Some <==> self.state.mode == Mode::Receiving
        &&& self.session is Some ==> self.pending_releases@ == Set::<u16>::empty()
        &&& self.state.mode != Mode::Sending
        &&& self.accounted()
    }

    /// Input is no longer received; what was owed has been released as far as the backend let it.
    pub open spec fn ended(
        self,
        before: Receiver<S>,
        log: Seq<Call>,
        codes: Set<u16>,
        failure: Option<Error>,
    ) -> bool {
        &&& self.session is None
        &&& self.since == before.since
        &&& self.expected_sequence == before.expected_sequence
        &&& self.state.held@ == Set::<u16>::empty()
        &&& cleaned(log, self.sink.log(), codes, self.pending_releases@, failure)
        &&& failure is None ==> self.pending_releases@ == Set::<u16>::empty()
    }

    pub fn new(sink: S) -> (r: Receiver<S>)
        ensures
            r.wf(),
            r.sink == sink,
            r.calls() == Seq::<Call>::empty(),
            r.state.mode == Mode::Local,
            !r.state.local_locked,
            !r.state.peer_locked,
            r.session is None,
            r.expected_sequence == 0,
            r.pending_releases@ == Set::<u16>::empty(),
    {
        let ghost count = sink.log().len();
        let receiver = Receiver {
            sink,
            state: ControlState::default(),
            session: None,
            expected_sequence: 0,
            pending_releases: BTreeSet::new(),
            since: Ghost(count),
        };
        assert(receiver.calls() =~= Seq::<Call>::empty());
        receiver
    }

    /// Opens a session, unless sharing is paused or one is open.
    pub fn begin(&mut self, session: u64) -> (r: Result<bool, Error>)
        requires
            old(self).wf(),
        ensures
            final(self).wf(),
            final(self).sink == old(self).sink,
            final(self).since == old(self).since,
            session == 0 ==> r == Err::<bool, Error>(Error::ZeroSession) && *final(self) == *old(self),
            session != 0 && old(self).pending_releases@ != Set::<u16>::empty() ==> r == Err::<
                bool,
                Error,
            >(Error::CleanupIncomplete) && *final(self) == *old(self),
            session != 0 && old(self).pending_releases@ == Set::<u16>::empty() ==> {
                &&& r == Ok::<bool, Error>(old(self).state.mode == Mode::Local)
                &&& old(self).state.mode == Mode::Local ==> {
                    &&& final(self).session == Some(session)
                    &&& final(self).expected_sequence == 0
                    &&& final(self).state.mode == Mode::Receiving
                    &&& final(self).state.held@ == Set::<u16>::empty()
                    &&& !final(self).state.locked()
                    &&& final(self).pending_releases == old(self).pending_releases
                }
                &&& old(self).state.mode != Mode::Local ==> *final(self) == *old(self)
            },
    {
        if session == 0 {
            return Err(Error::ZeroSession);
        }
        let outstanding = !self.pending_releases.is_empty();
        assert(self.pending_releases@.is_empty() <==> self.pending_releases@ =~= Set::<
            u16,
        >::empty());
        if outstanding {
            return Err(Error::CleanupIncomplete);
        }
        if !self.state.start(Mode::Receiving) {
            return Ok(false);
        }
        self.session = Some(session);
        self.expected_sequence = 0;
        Ok(true)
    }

    fn release(&mut self, codes: Vec<u16>) -> (r: Result<(), Error>)
        requires
            old(self).since@ <= old(self).sink.log().len(),
            possibly_down(old(self).calls()).subset_of(old(self).owed().union(codes@.to_set())),
        ensures
            final(self).state == old(self).state,
            final(self).session == old(self).session,
            final(self).expected_sequence == old(self).expected_sequence,
            final(self).since == old(self).since,
            final(self).accounted(),
            ({
                let before = old(self).sink.log();
                let after = final(self).sink.log();
                let list = crate::codes::ascending(
                    old(self).pending_releases@.union(codes@.to_set()),
                );
                let calls = after.skip(before.len() as int);
                &&& after.len() == before.len() + list.len()
                &&& after.take(before.len() as int) == before
                &&& releases(calls, list)
                &&& final(self).pending_releases@ == unreleased(calls, list)
                &&& failure_of(r) == first_failure(calls)
            }),
    {
        for i in 0..codes.len()
            invariant
                self.sink == old(self).sink,
                self.state == old(self).state,
                self.session == old(self).session,
                self.expected_sequence == old(self).expected_sequence,
                self.since == old(self).since,
                self.pending_releases@ =~= old(self).pending_releases@.union(
                    codes@.take(i as int).to_set(),
                ),
        {
            self.pending_releases.insert(codes[i]);
            proof {
                assert(codes@.take(i + 1) == codes@.take(i as int).push(codes@[i as int]));
                codes@.take(i as int).lemma_push_to_set_commute(codes@[i as int]);
            }
        }
        assert(codes@.take(codes@.len() as int) == codes@);
        let list = sorted_codes(&self.pending_releases);
        let mut failure: Result<(), Error> = Ok(());
        let ghost before = self.sink.log();
        let ghost all = self.pending_releases@;
        proof {
            crate::codes::lemma_codes_below(all, 65536);
            assert(self.accounted());
            assert(before.skip(before.len() as int) =~= Seq::<Call>::empty());
            assert(before.take(before.len() as int) =~= before);
            assert forall|c: u16| #[trigger] all.contains(c) <==> exists|j: int|
                0 <= j < list@.len() && list@[j] == c by {
                assert(list@.contains(c) <==> all.contains(c));
            }
        }
        for i in 0..list.len()
            invariant
                list@ == crate::codes::ascending(all),
                crate::codes::increasing(list@),
                before == old(self).sink.log(),
                self.state == old(self).state,
                self.session == old(self).session,
                self.expected_sequence == old(self).expected_sequence,
                self.since == old(self).since,
                self.accounted(),
                self.sink.log().len() == before.len() + i,
                self.sink.log().take(before.len() as int) == before,
                releases(self.sink.log().skip(before.len() as int), list@.take(i as int)),
                failure_of(failure) == first_failure(self.sink.log().skip(before.len() as int)),
                forall|c: u16| #[trigger]
                    self.pending_releases@.contains(c) <==> unreleased(
                        self.sink.log().skip(before.len() as int),
                        list@.take(i as int),
                    ).contains(c) || exists|j: int| i <= j < list@.len() && list@[j] == c,
        {
            let code: u16 = list[i];
            let ghost log = self.sink.log();
            let ghost pending = self.pending_releases@;
            let ghost calls = log.skip(before.len() as int);
            let outcome = self.sink.emit(&InputEvent::release(code));
            proof {
                let call = Call {
                    request: Request::Emit(InputEvent::release_of(code)),
                    failure: failure_of(outcome),
                };
                let now = self.sink.log().skip(before.len() as int);
                assert(now =~= calls.push(call));
                assert(now.drop_last() =~= calls);
                assert(now.last() == call);
                assert(list@.take(i + 1).drop_last() =~= list@.take(i as int));
                assert(self.sink.log().take(before.len() as int) =~= before);
                assert(self.calls() =~= log.skip(self.since@ as int).push(call));
                lemma_down_push(log.skip(self.since@ as int), call);
                assert forall|c: u16| #[trigger] pending.contains(c) && c != code implies (
                unreleased(now, list@.take(i + 1)).contains(c) || exists|j: int|
                    i + 1 <= j < list@.len() && list@[j] == c) by {
                    if !unreleased(calls, list@.take(i as int)).contains(c) {
                        let j = choose|j: int| i <= j < list@.len() && list@[j] == c;
                        assert(i + 1 <= j < list@.len() && list@[j] == c);
                    }
                }
                assert(pending.contains(code)) by {
                    assert(list@[i as int] == code);
                }
                lemma_unreleased_among(calls, list@.take(i as int));
                assert(!unreleased(calls, list@.take(i as int)).contains(code)) by {
                    if unreleased(calls, list@.take(i as int)).contains(code) {
                        let k = choose|k: int|
                            0 <= k < list@.take(i as int).len() && list@.take(i as int)[k] == code;
                        assert(list@[k] == code);
                    }
                }
            }
            match outcome {
                Ok(()) => {
                    self.pending_releases.remove(&code);
                },
                Err(error) => {
                    if failure.is_ok() {
                        failure = Err(error);
                    }
                },
            }
        }
        proof {
            assert(list@.take(list@.len() as int) == list@);
            assert(self.pending_releases@ =~= unreleased(
                self.sink.log().skip(before.len() as int),
                list@,
            ));
        }
        failure
    }

    fn release_with_touchpads(&mut self, codes: Vec<u16>) -> (r: Result<(), Error>)
        requires
            old(self).since@ <= old(self).sink.log().len(),
            old(self).state.held@ == Set::<u16>::empty(),
            possibly_down(old(self).calls()).subset_of(old(self).owed().union(codes@.to_set())),
        ensures
            final(self).state == old(self).state,
            final(self).session == old(self).session,
            final(self).expected_sequence == old(self).expected_sequence,
            final(self).since == old(self).since,
            final(self).accounted(),
            cleaned(
                old(self).sink.log(),
                final(self).sink.log(),
                old(self).pending_releases@.union(codes@.to_set()),
                final(self).pending_releases@,
                failure_of(r),
            ),
            r is Ok ==> final(self).pending_releases@ == Set::<u16>::empty(),
    {
        let ghost before = self.sink.log();
        let keys = self.release(codes);
        let ghost middle = self.sink.log();
        let pads = self.sink.reset_touchpads();
        proof {
            let after = self.sink.log();
            let last = Call { request: Request::ResetTouchpads, failure: failure_of(pads) };
            assert(after == middle.push(last));
            assert(after.take(before.len() as int) =~= before);
            assert(after.skip(before.len() as int) =~= middle.skip(before.len() as int).push(last));
            assert(after.skip(before.len() as int).drop_last() =~= middle.skip(
                before.len() as int,
            ));
            assert(self.calls() =~= middle.skip(self.since@ as int).push(last));
            lemma_down_push(middle.skip(self.since@ as int), last);
            let list = crate::codes::ascending(
                old(self).pending_releases@.union(codes@.to_set()),
            );
            lemma_no_failure(middle.skip(before.len() as int), list);
        }
        match keys {
            Err(error) => Err(error),
            Ok(()) => pads,
        }
    }

    /// Ends whatever is received and releases what is held.
    pub fn stop(&mut self, reason: StopReason) -> (r: Result<(), Error>)
        requires
            old(self).wf(),
        ensures
            final(self).wf(),
            final(self).state.stopped(old(self).state),
            final(self).ended(*old(self), old(self).sink.log(), old(self).owed(), failure_of(r)),
    {
        self.session = None;
        let effects = self.state.stop(reason);
        proof {
            lemma_ascending_set(old(self).state.held@);
            assert(old(self).owed() =~= self.pending_releases@.union(
                effects.release_codes@.to_set(),
            ));
            assert(self.owed().union(effects.release_codes@.to_set()) =~= old(self).owed());
        }
        self.release_with_touchpads(effects.release_codes)
    }

    /// Returns false for a stale or inactive session without injecting its events.
    pub fn input(&mut self, session: u64, sequence: u64, event: &InputEvent) -> (r: Result<bool, Error>)
        requires
            old(self).wf(),
        ensures
            final(self).wf(),
            old(self).session != Some(session) ==> r == Ok::<bool, Error>(false) && *final(self)
                == *old(self),
            old(self).session == Some(session) ==> {
                let refusal = old(self).refusal(sequence, *event);
                if refusal is Some {
                    &&& final(self).state.stopped(old(self).state)
                    &&& exists|cleanup: Option<Error>|
                        {
                            &&& #[trigger] final(self).ended(
                                *old(self),
                                old(self).sink.log(),
                                old(self).owed(),
                                cleanup,
                            )
                            &&& r == Err::<bool, Error>(
                                match cleanup {
                                    Some(e) => e,
                                    None => refusal->0,
                                },
                            )
                        }
                } else {
                    match r {
                        Ok(injected) => {
                            &&& injected
                            &&& final(self).sink.log() == old(self).sink.log().push(
                                Call { request: Request::Emit(*event), failure: None },
                            )
                            &&& final(self).session == old(self).session
                            &&& final(self).since == old(self).since
                            &&& final(self).expected_sequence == sequence + 1
                            &&& final(self).state.held@ == old(self).held_with(*event)
                        },
                        Err(e) => {
                            &&& final(self).state.stopped(old(self).state)
                            &&& exists|cleanup: Option<Error>| #[trigger]
                                final(self).ended(
                                    *old(self),
                                    old(self).sink.log().push(
                                        Call {
                                            request: Request::Emit(*event),
                                            failure: Some(e),
                                        },
                                    ),
                                    old(self).owed_with(*event),
                                    cleanup,
                                )
                        },
                    }
                }
            },
    {
        if self.session != Some(session) || self.state.mode() != Mode::Receiving {
            return Ok(false);
        }
        if sequence != self.expected_sequence {
            let cleanup = self.stop(StopReason::Disconnected);
            assert(self.ended(*old(self), old(self).sink.log(), old(self).owed(), failure_of(cleanup)));
            return match cleanup {
                Err(error) => Err(error),
                Ok(()) => Err(Error::SequenceMismatch),
            };
        }
        match event.validate() {
            Err(problem) => {
                let cleanup = self.stop(StopReason::Disconnected);
                assert(self.ended(*old(self), old(self).sink.log(), old(self).owed(), failure_of(cleanup)));
                return match cleanup {
                    Err(error) => Err(error),
                    Ok(()) => Err(problem),
                };
            },
            Ok(()) => {},
        }
        if self.expected_sequence == u64::MAX {
            let cleanup = self.stop(StopReason::Disconnected);
            assert(self.ended(*old(self), old(self).sink.log(), old(self).owed(), failure_of(cleanup)));
            return match cleanup {
                Err(error) => Err(error),
                Ok(()) => Err(Error::SequenceExhausted),
            };
        }
        let transition = event.held_transition();
        match transition {
            Some((code, true)) => {
                self.state.press(code);
            },
            _ => {},
        }
        let ghost before = old(self).sink.log().skip(self.since@ as int);
        // A press is remembered before it is attempted, so that a write which succeeds in part
        // is still followed by a release.
        let outcome = self.sink.emit(event);
        let ghost call = Call { request: Request::Emit(*event), failure: failure_of(outcome) };
        proof {
            assert(self.calls() =~= before.push(call));
            lemma_down_push(before, call);
        }
        match outcome {
            Err(error) => {
                let ghost held = *self;
                let cleanup = self.stop(StopReason::Disconnected);
                assert(held.owed() =~= old(self).owed_with(*event));
                assert(self.ended(*old(self), held.sink.log(), held.owed(), failure_of(cleanup)));
                return Err(error);
            },
            Ok(()) => {},
        }
        match transition {
            Some((code, false)) => {
                self.state.release(code);
            },
            _ => {},
        }
        self.expected_sequence = self.expected_sequence + 1;
        Ok(true)
    }

    /// Why an input of the open session ends it.
    pub open spec fn refusal(self, sequence: u64, event: InputEvent) -> Option<Error> {
        if sequence != self.expected_sequence {
            Some(Error::SequenceMismatch)
        } else if event.problem() is Some {
            event.problem()
        } else if sequence == u64::MAX {
            Some(Error::SequenceExhausted)
        } else {
            None
        }
    }

    pub fn end(&mut self, session: u64) -> (r: Result<(), Error>)
        requires
            old(self).wf(),
        ensures
            final(self).wf(),
            old(self).session == Some(session) ==> final(self).state.stopped(old(self).state)
                && final(self).ended(*old(self), old(self).sink.log(), old(self).owed(), failure_of(r)),
            old(self).session != Some(session) ==> r is Ok && *final(self) == *old(self),
    {
        if self.session == Some(session) {
            self.stop(StopReason::Returned)
        } else {
            Ok(())
        }
    }

    /// Takes over whether this computer is locked.
    pub fn local_lock(&mut self, locked: bool) -> (r: Result<(), Error>)
        requires
            old(self).wf(),
        ensures
            final(self).wf(),
            final(self).state.local_locked == locked,
            final(self).state.peer_locked == old(self).state.peer_locked,
            old(self).session is Some && !locked ==> {
                &&& r is Ok
                &&& final(self).session == old(self).session
                &&& final(self).expected_sequence == old(self).expected_sequence
                &&& final(self).state == old(self).state
                &&& final(self).sink == old(self).sink
                &&& final(self).since == old(self).since
            },
            old(self).session is None || locked ==> final(self).ended(
                *old(self),
                old(self).sink.log(),
                old(self).owed(),
                failure_of(r),
            ),
    {
        let effects = self.state.local_lock_changed(locked);
        proof {
            lemma_ascending_set(old(self).state.held@);
            assert(effects.none() ==> effects.release_codes@.to_set() =~= Set::<u16>::empty());
            assert(old(self).owed() =~= self.pending_releases@.union(
                effects.release_codes@.to_set(),
            ) || old(self).session is Some && !locked);
            assert(self.owed().union(effects.release_codes@.to_set()) =~= old(self).owed());
        }
        if self.state.mode() != Mode::Receiving {
            self.session = None;
            return self.release_with_touchpads(effects.release_codes);
        }
        Ok(())
    }

    /// Takes over whether the other computer is locked.
    pub fn peer_lock(&mut self, locked: bool) -> (r: Result<(), Error>)
        requires
            old(self).wf(),
        ensures
            final(self).wf(),
            final(self).state.peer_locked == locked,
            final(self).state.local_locked == old(self).state.local_locked,
            old(self).session is Some && !locked ==> {
                &&& r is Ok
                &&& final(self).session == old(self).session
                &&& final(self).expected_sequence == old(self).expected_sequence
                &&& final(self).state == old(self).state
                &&& final(self).sink == old(self).sink
                &&& final(self).since == old(self).since
            },
            old(self).session is None || locked ==> final(self).ended(
                *old(self),
                old(self).sink.log(),
                old(self).owed(),
                failure_of(r),
            ),
    {
        let effects = self.state.peer_lock_changed(locked);
        proof {
            lemma_ascending_set(old(self).state.held@);
            assert(effects.none() ==> effects.release_codes@.to_set() =~= Set::<u16>::empty());
            assert(old(self).owed() =~= self.pending_releases@.union(
                effects.release_codes@.to_set(),
            ) || old(self).session is Some && !locked);
            assert(self.owed().union(effects.release_codes@.to_set()) =~= old(self).owed());
        }
        if self.state.mode() != Mode::Receiving {
            self.session = None;
            return self.release_with_touchpads(effects.release_codes);
        }
        Ok(())
    }

    /// Gives control back to the person at this computer.
    pub fn physical_activity(&mut self) -> (r: Result<(), Error>)
        requires
            old(self).wf(),
        ensures
            final(self).wf(),
            old(self).session is Some ==> final(self).state.stopped(old(self).state) && final(self).ended(*old(self), old(self).sink.log(), old(self).owed(), failure_of(r)),
            old(self).session is None ==> r is Ok && *final(self) == *old(self),
    {
        match self.state.receiver_physical_activity() {
            Some(effects) => {
                self.session = None;
                proof {
                    lemma_ascending_set(old(self).state.held@);
                    assert(old(self).owed() =~= self.pending_releases@.union(
                        effects.release_codes@.to_set(),
                    ));
                    assert(self.owed().union(effects.release_codes@.to_set()) =~= old(self).owed());
                }
                self.release_with_touchpads(effects.release_codes)
            },
            None => Ok(()),
        }
    }

    /// The touchpads of the other computer can change only while no session is open.
    pub fn configure_touchpads(&mut self, devices: &[Descriptor]) -> (r: Result<(), Error>)
        requires
            old(self).wf(),
        ensures
            final(self).wf(),
            final(self).same_but_sink(*old(self)),
            old(self).session is Some || devices@.len() > 4 ==> r == Err::<(), Error>(
                Error::TouchpadsDuringInput,
            ) && final(self).sink == old(self).sink,
            old(self).session is None && devices@.len() <= 4 ==> final(self).sink.log() == old(self).sink.log().push(
                Call { request: Request::ConfigureTouchpads(devices@), failure: failure_of(r) },
            ),
    {
        if self.session.is_some() || devices.len() > 4 {
            return Err(Error::TouchpadsDuringInput);
        }
        let ghost before = self.calls();
        let outcome = self.sink.configure_touchpads(devices);
        proof {
            let call = Call { request: Request::ConfigureTouchpads(devices@), failure: failure_of(outcome) };
            assert(self.calls() =~= before.push(call));
            lemma_down_push(before, call);
        }
        outcome
    }

    /// Nothing but the backend has changed.
    pub open spec fn same_but_sink(self, other: Receiver<S>) -> bool {
        &&& self.state == other.state
        &&& self.session == other.session
        &&& self.expected_sequence == other.expected_sequence
        &&& self.pending_releases == other.pending_releases
        &&& self.since == other.since
    }

    /// Why a placement of the pointer is refused.
    pub open spec fn placement_refusal(event: InputEvent) -> Option<Error> {
        if !(event is Absolute) {
            Some(Error::NotAbsolute)
        } else {
            event.problem()
        }
    }

    /// Places the pointer on the selected output.
    pub fn position(&mut self, event: &InputEvent) -> (r: Result<(), Error>)
        requires
            old(self).wf(),
        ensures
            final(self).wf(),
            final(self).same_but_sink(*old(self)),
            match Self::placement_refusal(*event) {
                Some(e) => r == Err::<(), Error>(e) && final(self).sink == old(self).sink,
                None => final(self).sink.log() == old(self).sink.log().push(
                    Call { request: Request::Emit(*event), failure: failure_of(r) },
                ),
            },
    {
        match event {
            InputEvent::Absolute { .. } => {},
            _ => return Err(Error::NotAbsolute),
        }
        match event.validate() {
            Err(problem) => return Err(problem),
            Ok(()) => {},
        }
        let ghost before = self.calls();
        let outcome = self.sink.emit(event);
        proof {
            let call = Call { request: Request::Emit(*event), failure: failure_of(outcome) };
            assert(self.calls() =~= before.push(call));
            lemma_down_push(before, call);
        }
        outcome
    }

    /// Input that is under way keeps its output.
    pub open spec fn output_fixed(self) -> bool {
        ||| self.pending_releases@ != Set::<u16>::empty()
        ||| self.session is Some && self.expected_sequence != 0
    }

    /// Places the pointer on an output, which becomes the selected one.
    pub fn position_on(&mut self, output: &str, event: &InputEvent) -> (r: Result<(), Error>)
        requires
            old(self).wf(),
        ensures
            final(self).wf(),
            final(self).same_but_sink(*old(self)),
            ({
                let refusal = if old(self).output_fixed() {
                    Some(Error::ReleaseBeforeOutput)
                } else {
                    Self::placement_refusal(*event)
                };
                match refusal {
                    Some(e) => r == Err::<(), Error>(e) && final(self).sink == old(self).sink,
                    None => {
                        ||| r is Err && final(self).sink.log() == old(self).sink.log().push(
                            Call {
                                request: Request::SelectOutput(output@),
                                failure: failure_of(r),
                            },
                        )
                        ||| final(self).sink.log() == old(self).sink.log().push(
                            Call { request: Request::SelectOutput(output@), failure: None },
                        ).push(Call { request: Request::Emit(*event), failure: failure_of(r) })
                    },
                }
            }),
    {
        let clean = self.pending_releases.is_empty();
        assert(self.pending_releases@.is_empty() <==> self.pending_releases@ =~= Set::<
            u16,
        >::empty());
        if !(clean && (self.session.is_none() || self.expected_sequence == 0)) {
            return Err(Error::ReleaseBeforeOutput);
        }
        match event {
            InputEvent::Absolute { .. } => {},
            _ => return Err(Error::NotAbsolute),
        }
        match event.validate() {
            Err(problem) => return Err(problem),
            Ok(()) => {},
        }
        let ghost before = self.calls();
        let selected = self.sink.select_output(output);
        let ghost call = Call { request: Request::SelectOutput(output@), failure: failure_of(selected) };
        proof {
            assert(self.calls() =~= before.push(call));
            lemma_down_push(before, call);
        }
        match selected {
            Err(error) => return Err(error),
            Ok(()) => {},
        }
        let outcome = self.sink.emit(event);
        proof {
            let next = Call { request: Request::Emit(*event), failure: failure_of(outcome) };
            assert(self.calls() =~= before.push(call).push(next));
            lemma_down_push(before.push(call), next);
        }
        outcome
    }
}

/// Once nothing is held and no release is outstanding, the backend holds nothing down.
pub proof fn lemma_nothing_stays_down<S: InputSink>(receiver: Receiver<S>)
    requires
        receiver.wf(),
        receiver.session is None,
        receiver.pending_releases@ == Set::<u16>::empty(),
    ensures
        possibly_down(receiver.calls()) == Set::<u16>::empty(),
{
    assert(possibly_down(receiver.calls()) =~= Set::<u16>::empty());
}

proof fn lemma_ascending_set(set: Set<u16>)
    ensures
        crate::codes::ascending(set).to_set() == set,
{
    crate::codes::lemma_codes_below(set, 65536);
    assert(crate::codes::ascending(set).to_set() =~= set);
}

/// Where every release was accepted, none is outstanding.
proof fn lemma_no_failure(calls: Seq<Call>, codes: Seq<u16>)
    requires
        calls.len() == codes.len(),
    ensures
        first_failure(calls) is None ==> unreleased(calls, codes) == Set::<u16>::empty(),
    decreases calls.len(),
{
    if calls.len() > 0 {
        lemma_no_failure(calls.drop_last(), codes.drop_last());
    }
}

proof fn lemma_down_push(log: Seq<Call>, call: Call)
    ensures
        possibly_down(log.push(call)) == (match call.request {
            Request::Emit(event) => match event.transition() {
                Some((code, true)) => possibly_down(log).insert(code),
                Some((code, false)) => if call.failure is None {
                    possibly_down(log).remove(code)
                } else {
                    possibly_down(log)
                },
                None => possibly_down(log),
            },
            _ => possibly_down(log),
        }),
{
    assert(log.push(call).drop_last() =~= log);
}

proof fn lemma_unreleased_among(calls: Seq<Call>, codes: Seq<u16>)
    ensures
        forall|c: u16| #[trigger] unreleased(calls, codes).contains(c) ==> codes.contains(c),
    decreases calls.len(),
{
    if calls.len() > 0 && codes.len() > 0 {
        lemma_unreleased_among(calls.drop_last(), codes.drop_last());
        assert forall|c: u16| #[trigger] unreleased(calls, codes).contains(c) implies codes.contains(
            c,
        ) by {
            if c == codes.last() {
                assert(codes[codes.len() - 1] == c);
            } else {
                assert(unreleased(calls.drop_last(), codes.drop_last()).contains(c));
                assert(codes.drop_last().contains(c));
                let k = choose|k: int|
                    0 <= k < codes.drop_last().len() && codes.drop_last()[k] == c;
                assert(codes[k] == c);
            }
        }
    }
}

} // verus!
