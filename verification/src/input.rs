//! Held keys and buttons, and which computer is in control.
use crate::codes::sorted_codes;
use crate::error::Error;
use crate::protocol::InputEvent;
use std::collections::{BTreeMap, BTreeSet};
use vstd::prelude::*;

verus! {

broadcast use {vstd::std_specs::btree::group_btree_axioms, vstd::laws_cmp::group_laws_cmp};

/// Keyboard transitions that may wait to be forwarded.
pub const MAX_PENDING_KEYS: usize = 512;

/// Aggregates selected physical keyboards without duplicating a key held on two devices.
/// Values remain in memory and are never part of diagnostics.
pub struct PhysicalKeys {
    pub devices: BTreeMap<usize, BTreeSet<u16>>,
    pub pending: Vec<InputEvent>,
}

/// Codes of keyboard keys.
pub open spec fn is_key(code: u16) -> bool {
    1 <= code <= 255
}

/// The keys held on one device.
pub open spec fn keys_on(devices: Map<usize, BTreeSet<u16>>, device: usize) -> Set<u16> {
    if devices.contains_key(device) {
        devices[device]@
    } else {
        Set::empty()
    }
}

/// A key is held on some device.
pub open spec fn held_anywhere(devices: Map<usize, BTreeSet<u16>>, code: u16) -> bool {
    exists|device: usize| #[trigger] keys_on(devices, device).contains(code)
}

impl PhysicalKeys {
    pub open spec fn held_on(self, device: usize) -> Set<u16> {
        keys_on(self.devices@, device)
    }

    pub open spec fn holds(self, code: u16) -> bool {
        held_anywhere(self.devices@, code)
    }

    pub fn any_holds(&self, code: u16) -> (r: bool)
        ensures
            r == self.holds(code),
    {
        let order = self.devices.iter();
        let ghost all = vstd::std_specs::iter::IteratorSpec::remaining(&order);
        for entry in it: order
            invariant
                it.seq() == all,
                forall|i: int| 0 <= i < it.index() ==> !(#[trigger] all[i]).1@.contains(code),
                forall|i: int|
                    0 <= i < all.len() ==> self.devices@.contains_key(*(#[trigger] all[i]).0)
                        && self.devices@[*all[i].0] == *all[i].1,
        {
            if entry.1.contains(&code) {
                assert(self.held_on(*entry.0).contains(code));
                return true;
            }
        }
        assert(!self.holds(code)) by {
            if self.holds(code) {
                let device = choose|device: usize| #[trigger]
                    keys_on(self.devices@, device).contains(code);
                assert(all.contains((&device, &self.devices@[device])));
                let i = choose|i: int|
                    0 <= i < all.len() && all[i] == (&device, &self.devices@[device]);
                assert(all[i].1@.contains(code));
            }
        }
        false
    }

    /// One device holds a key or has let go of it, and nothing else has changed on any device.
    pub open spec fn noted(self, before: PhysicalKeys, device: usize, code: u16, pressed: bool) -> bool {
        &&& self.held_on(device) == (if pressed {
            before.held_on(device).insert(code)
        } else {
            before.held_on(device).remove(code)
        })
        &&& self.devices@.contains_key(device)
        &&& self.devices@.remove(device) == before.devices@.remove(device)
        &&& forall|other: usize|
            other != device ==> #[trigger] keys_on(self.devices@, other) == before.held_on(other)
        &&& forall|other: u16|
            other != code ==> #[trigger] held_anywhere(self.devices@, other) == before.holds(other)
    }

    /// A transition of one device was taken over. Codes that are no keys are ignored. A transition
    /// that changes whether any device holds the key waits to be forwarded.
    pub open spec fn updated(self, before: PhysicalKeys, device: usize, code: u16, pressed: bool) -> bool {
        if !is_key(code) {
            self == before
        } else {
            &&& self.noted(before, device, code, pressed)
            &&& if before.holds(code) == self.holds(code) {
                self.pending@ == before.pending@
            } else {
                &&& before.pending@.len() < MAX_PENDING_KEYS
                &&& self.pending@ == before.pending@.push(
                    InputEvent::Key { code, pressed: self.holds(code) },
                )
            }
        }
    }

    /// A transition of one device was taken over, but there was no room for what it changes.
    pub open spec fn overflowed(self, before: PhysicalKeys, device: usize, code: u16, pressed: bool) -> bool {
        &&& is_key(code)
        &&& self.noted(before, device, code, pressed)
        &&& before.holds(code) != self.holds(code)
        &&& before.pending@.len() >= MAX_PENDING_KEYS
        &&& self.pending@ == before.pending@
    }

    /// A device holds, besides what it held, those of some codes that are keys; the other devices
    /// hold what they held.
    pub open spec fn adds_keys(self, before: PhysicalKeys, device: usize, codes: Seq<u16>) -> bool {
        &&& forall|code: u16| #[trigger]
            self.held_on(device).contains(code) <==> before.held_on(device).contains(code) || (
            is_key(code) && codes.contains(code))
        &&& forall|other: usize|
            other != device ==> #[trigger] self.held_on(other) == before.held_on(other)
    }

    /// Takes one transition of one device over. Fails when the queue is full.
    pub fn update(&mut self, device: usize, code: u16, pressed: bool) -> (r: Result<(), Error>)
        ensures
            old(self).wf() ==> final(self).wf(),
            match r {
                Ok(_) => final(self).updated(*old(self), device, code, pressed),
                Err(e) => e == Error::KeyboardQueueFull && final(self).overflowed(
                    *old(self),
                    device,
                    code,
                    pressed,
                ),
            },
    {
        if !(1 <= code && code <= 255) {
            return Ok(());
        }
        let before = self.any_holds(code);
        let mut keys: BTreeSet<u16> = match self.devices.remove(&device) {
            Some(keys) => keys,
            None => BTreeSet::new(),
        };
        assert(keys@ == old(self).held_on(device));
        if pressed {
            keys.insert(code);
        } else {
            keys.remove(&code);
        }
        self.devices.insert(device, keys);
        assert(self.devices@.remove(device) =~= old(self).devices@.remove(device));
        proof {
            assert forall|other: u16| other != code implies #[trigger] held_anywhere(
                self.devices@,
                other,
            ) == old(self).holds(other) by {
                if self.holds(other) {
                    let d = choose|d: usize| #[trigger] keys_on(self.devices@, d).contains(other);
                    assert(keys_on(old(self).devices@, d).contains(other));
                }
                if old(self).holds(other) {
                    let d = choose|d: usize| #[trigger]
                        keys_on(old(self).devices@, d).contains(other);
                    assert(keys_on(self.devices@, d).contains(other));
                }
            }
            if old(self).wf() {
                assert forall|d: usize, c: u16| #[trigger]
                    keys_on(self.devices@, d).contains(c) implies is_key(c) by {
                    if d != device || c != code {
                        assert(keys_on(old(self).devices@, d).contains(c));
                    }
                }
            }
        }
        let after = self.any_holds(code);
        if before != after {
            if self.pending.len() >= MAX_PENDING_KEYS {
                return Err(Error::KeyboardQueueFull);
            }
            self.pending.push(InputEvent::Key { code, pressed: after });
        }
        Ok(())
    }
}

/// A key is held on another device.
pub open spec fn held_elsewhere(
    devices: Map<usize, BTreeSet<u16>>,
    device: usize,
    code: u16,
) -> bool {
    exists|other: usize| other != device && #[trigger] keys_on(devices, other).contains(code)
}

/// The keys that are held on one device alone, in the order of their codes.
pub open spec fn only_on(devices: Map<usize, BTreeSet<u16>>, device: usize) -> Seq<u16> {
    crate::codes::ascending(keys_on(devices, device)).filter(
        |code: u16| !held_elsewhere(devices, device, code),
    )
}

pub open spec fn key_releases(codes: Seq<u16>) -> Seq<InputEvent> {
    codes.map_values(|code: u16| InputEvent::Key { code, pressed: false })
}

impl PhysicalKeys {
    /// Only keys are held, and the queue is bounded.
    pub open spec fn wf(self) -> bool {
        &&& forall|device: usize, code: u16| #[trigger]
            keys_on(self.devices@, device).contains(code) ==> is_key(code)
        &&& self.pending@.len() <= MAX_PENDING_KEYS
    }

    /// How many transitions still find room.
    pub open spec fn room(self) -> int {
        MAX_PENDING_KEYS - self.pending@.len()
    }

    /// A device is gone. What it alone held waits to be released.
    pub open spec fn disconnected(self, before: PhysicalKeys, device: usize) -> bool {
        let released = only_on(before.devices@, device);
        &&& released.len() <= before.room()
        &&& self.devices@ == before.devices@.remove(device)
        &&& self.pending@ == before.pending@ + key_releases(released)
    }

    /// A device is gone, but there was no room for all that it alone held: the key whose release
    /// found no room is forgotten, larger ones stay held.
    pub open spec fn cut_short(self, before: PhysicalKeys, device: usize) -> bool {
        let released = only_on(before.devices@, device);
        let room = before.room();
        &&& released.len() > room
        &&& self.pending@ == before.pending@ + key_releases(released.take(room))
        &&& forall|code: u16|
            self.held_on(device).contains(code) <==> before.held_on(device).contains(code) && code
                > released[room]
        &&& forall|other: usize|
            other != device ==> #[trigger] self.held_on(other) == before.held_on(other)
    }

    /// Releases what a device held, as far as no other device holds it. Fails when the queue is
    /// full.
    pub fn disconnect(&mut self, device: usize) -> (r: Result<(), Error>)
        requires
            old(self).wf(),
        ensures
            final(self).wf(),
            match r {
                Ok(_) => final(self).disconnected(*old(self), device),
                Err(e) => e == Error::KeyboardQueueFull && final(self).cut_short(
                    *old(self),
                    device,
                ),
            },
    {
        let codes: Vec<u16> = match self.devices.get(&device) {
            Some(held) => sorted_codes(held),
            None => Vec::new(),
        };
        let ghost start = self.devices@;
        let ghost keep = |code: u16| !held_elsewhere(start, device, code);
        let ghost all = crate::codes::ascending(keys_on(start, device));
        let ghost released = only_on(start, device);
        proof {
            crate::codes::lemma_codes_below(keys_on(start, device), 65536);
            if !start.contains_key(device) {
                if all.len() > 0 {
                    assert(all.contains(all[0]));
                }
                assert(codes@ =~= all);
            }
            assert forall|c: u16| #[trigger] self.held_on(device).contains(c) implies exists|j: int|
                0 <= j < all.len() && all[j] == c by {
                assert(all.contains(c));
            }
            reveal(Seq::filter);
            assert(self.pending@ =~= old(self).pending@ + key_releases(
                codes@.take(0).filter(keep),
            ));
        }
        for i in 0..codes.len()
            invariant
                old(self).wf(),
                self.wf(),
                start == old(self).devices@,
                codes@ == all,
                all == crate::codes::ascending(keys_on(start, device)),
                crate::codes::increasing(all),
                forall|c: u16| #[trigger] all.contains(c) <==> keys_on(start, device).contains(c),
                keep == |code: u16| !held_elsewhere(start, device, code),
                released == all.filter(keep),
                released == only_on(start, device),
                self.devices@.remove(device) =~= start.remove(device),
                forall|other: usize|
                    other != device ==> #[trigger] keys_on(self.devices@, other) == keys_on(start, other),
                forall|c: u16| #[trigger]
                    self.held_on(device).contains(c) <==> keys_on(start, device).contains(c) && (
                    exists|j: int| i <= j < all.len() && all[j] == c),
                self.pending@ == old(self).pending@ + key_releases(all.take(i as int).filter(keep)),
        {
            let code: u16 = codes[i];
            let ghost before = *self;
            proof {
                assert(all.contains(code));
                assert(old(self).held_on(device).contains(code));
                assert(all[i as int] == code);
                assert(self.held_on(device).contains(code));
                assert(self.holds(code));
                reveal(Seq::filter);
                assert(all.take(i + 1).drop_last() == all.take(i as int));
            }
            let result = self.update(device, code, false);
            proof {
                assert(self.holds(code) == held_elsewhere(start, device, code)) by {
                    if held_elsewhere(start, device, code) {
                        let other = choose|other: usize|
                            other != device && #[trigger] keys_on(start, other).contains(code);
                        assert(before.held_on(other).contains(code));
                        assert(keys_on(self.devices@, other) == self.held_on(other));
                    }
                    if self.holds(code) {
                        let other = choose|other: usize| #[trigger]
                            keys_on(self.devices@, other).contains(code);
                        assert(self.held_on(other).contains(code));
                        assert(other != device);
                        assert(keys_on(start, other).contains(code));
                    }
                }
                assert forall|c: u16| #[trigger]
                    self.held_on(device).contains(c) <==> keys_on(start, device).contains(c) && (
                    exists|j: int| i + 1 <= j < all.len() && all[j] == c) by {
                    if before.held_on(device).contains(c) && c != code {
                        let j = choose|j: int| i <= j < all.len() && all[j] == c;
                        assert(i + 1 <= j < all.len() && all[j] == c);
                    }
                }
            }
            if result.is_err() {
                proof {
                    lemma_filter_prefix(all, keep, i as int);
                    let part = all.take(i as int).filter(keep);
                    assert(part.len() == released.take(part.len() as int).len());
                    assert forall|c: u16|
                        self.held_on(device).contains(c) <==> old(self).held_on(device).contains(c)
                            && c > code by {
                        if old(self).held_on(device).contains(c) && c > code {
                            assert(all.contains(c));
                            let j = choose|j: int| 0 <= j < all.len() && all[j] == c;
                            assert(i + 1 <= j < all.len() && all[j] == c);
                        }
                    }
                }
                return result;
            }
            assert(self.pending@ =~= old(self).pending@ + key_releases(
                all.take(i + 1).filter(keep),
            ));
        }
        assert(all.take(all.len() as int) == all);
        let ghost before = *self;
        self.devices.remove(&device);
        assert forall|d: usize, c: u16| #[trigger] keys_on(self.devices@, d).contains(
            c,
        ) implies is_key(c) by {
            assert(keys_on(before.devices@, d).contains(c));
        }
        Ok(())
    }
}

/// Filtering a prefix gives a prefix of what filtering gives, and the next member that passes
/// comes right behind it.
proof fn lemma_filter_prefix(s: Seq<u16>, keep: spec_fn(u16) -> bool, n: int)
    requires
        0 <= n < s.len(),
        keep(s[n]),
    ensures
        s.take(n).filter(keep).len() < s.filter(keep).len(),
        s.filter(keep).take(s.take(n).filter(keep).len() as int) == s.take(n).filter(keep),
        s.filter(keep)[s.take(n).filter(keep).len() as int] == s[n],
    decreases s.len(),
{
    reveal(Seq::filter);
    if n == s.len() - 1 {
        assert(s.drop_last() == s.take(n));
        assert(s.filter(keep) == s.take(n).filter(keep).push(s[n]));
        assert(s.filter(keep).take(s.take(n).filter(keep).len() as int) =~= s.take(n).filter(keep));
    } else {
        lemma_filter_prefix(s.drop_last(), keep, n);
        assert(s.drop_last().take(n) == s.take(n));
        let shorter = s.drop_last().filter(keep);
        let k = s.take(n).filter(keep).len() as int;
        assert(s.filter(keep).take(k) =~= shorter.take(k));
    }
}

impl Default for PhysicalKeys {
    fn default() -> (r: PhysicalKeys)
        ensures
            r.devices@ == Map::<usize, BTreeSet<u16>>::empty(),
            r.pending@.len() == 0,
    {
        PhysicalKeys { devices: BTreeMap::new(), pending: Vec::new() }
    }
}

impl PhysicalKeys {
    /// The keys that are held on any device.
    pub fn held(&self) -> (r: BTreeSet<u16>)
        ensures
            forall|code: u16| #[trigger] r@.contains(code) <==> self.holds(code),
    {
        let mut keys: BTreeSet<u16> = BTreeSet::new();
        let order = self.devices.iter();
        let ghost all = vstd::std_specs::iter::IteratorSpec::remaining(&order);
        for entry in it: order
            invariant
                it.seq() == all,
                forall|code: u16| #[trigger]
                    keys@.contains(code) <==> exists|i: int|
                        0 <= i < it.index() && (#[trigger] all[i]).1@.contains(code),
        {
            let codes = sorted_codes(entry.1);
            let ghost before = keys@;
            proof {
                crate::codes::lemma_codes_below(entry.1@, 65536);
            }
            for j in 0..codes.len()
                invariant
                    forall|code: u16| #[trigger]
                        keys@.contains(code) <==> before.contains(code) || codes@.take(
                            j as int,
                        ).contains(code),
            {
                keys.insert(codes[j]);
                proof {
                    let less = codes@.take(j as int);
                    let more = codes@.take(j + 1);
                    assert(more == less.push(codes@[j as int]));
                    assert forall|code: u16| #[trigger] keys@.contains(code) <==> before.contains(code)
                        || more.contains(code) by {
                        assert(more[j as int] == codes@[j as int]);
                        if less.contains(code) {
                            let k = choose|k: int| 0 <= k < less.len() && less[k] == code;
                            assert(more[k] == code);
                        }
                    }
                }
            }
            proof {
                assert(codes@.take(codes@.len() as int) == codes@);
                assert(all[it.index()] == entry);
                assert forall|code: u16| #[trigger]
                    keys@.contains(code) <==> exists|i: int|
                        0 <= i < it.index() + 1 && (#[trigger] all[i]).1@.contains(code) by {
                    if before.contains(code) {
                        let i = choose|i: int|
                            0 <= i < it.index() && (#[trigger] all[i]).1@.contains(code);
                        assert(0 <= i < it.index() + 1 && all[i].1@.contains(code));
                    }
                }
            }
        }
        proof {
            assert forall|code: u16| #[trigger] keys@.contains(code) <==> self.holds(code) by {
                if keys@.contains(code) {
                    let i = choose|i: int| 0 <= i < all.len() && (#[trigger] all[i]).1@.contains(code);
                    assert(keys_on(self.devices@, *all[i].0).contains(code));
                }
                if self.holds(code) {
                    let device = choose|device: usize| #[trigger]
                        keys_on(self.devices@, device).contains(code);
                    assert(all.contains((&device, &self.devices@[device])));
                    let i = choose|i: int|
                        0 <= i < all.len() && all[i] == (&device, &self.devices@[device]);
                    assert(all[i].1@.contains(code));
                }
            }
        }
        keys
    }

    /// Nothing waits any more; the same keys are held.
    pub open spec fn drained(self, before: PhysicalKeys) -> bool {
        &&& self.pending@.len() == 0
        &&& self.devices == before.devices
    }

    /// Hands out the transitions that wait to be forwarded.
    pub fn drain(&mut self) -> (r: Vec<InputEvent>)
        ensures
            r == old(self).pending,
            final(self).drained(*old(self)),
    {
        let mut events: Vec<InputEvent> = Vec::new();
        std::mem::swap(&mut events, &mut self.pending);
        events
    }
}

/// The keys that are down after some transitions, none of them at first.
pub open spec fn replayed(events: Seq<InputEvent>) -> Set<u16>
    decreases events.len(),
{
    if events.len() == 0 {
        Set::empty()
    } else {
        let before = replayed(events.drop_last());
        match events.last() {
            InputEvent::Key { code, pressed } => if pressed {
                before.insert(code)
            } else {
                before.remove(code)
            },
            _ => before,
        }
    }
}

/// Every transition presses a key that is up or releases one that is down.
pub open spec fn alternating(events: Seq<InputEvent>) -> bool {
    forall|i: int|
        0 <= i < events.len() ==> ((#[trigger] events[i]) matches InputEvent::Key { code, pressed }
            && pressed != replayed(events.take(i)).contains(code))
}

/// A successful call on the aggregated keyboards.
pub ghost enum KeyCall {
    Update { device: usize, code: u16, pressed: bool },
    Disconnect { device: usize },
    Drain,
}

/// What a successful call does.
pub open spec fn called(before: PhysicalKeys, call: KeyCall, after: PhysicalKeys) -> bool {
    match call {
        KeyCall::Update { device, code, pressed } => after.updated(before, device, code, pressed),
        KeyCall::Disconnect { device } => after.disconnected(before, device),
        KeyCall::Drain => after.drained(before),
    }
}

/// Each state follows from the one before by a successful call; at first nothing is held.
pub open spec fn key_history(states: Seq<PhysicalKeys>, calls: Seq<KeyCall>) -> bool {
    &&& states.len() == calls.len() + 1
    &&& states[0].devices@ == Map::<usize, BTreeSet<u16>>::empty()
    &&& states[0].pending@.len() == 0
    &&& forall|i: int| 0 <= i < calls.len() ==> called(states[i], #[trigger] calls[i], states[i + 1])
}

/// The transitions that some calls handed out, in order.
pub open spec fn handed_out(states: Seq<PhysicalKeys>, calls: Seq<KeyCall>) -> Seq<InputEvent>
    decreases calls.len(),
{
    if calls.len() == 0 {
        Seq::empty()
    } else {
        let before = handed_out(states.drop_last(), calls.drop_last());
        if calls.last() is Drain {
            before + states[calls.len() - 1].pending@
        } else {
            before
        }
    }
}

/// Replaying the transitions that were handed out, and then those that still wait, gives exactly
/// the keys that are held, whatever was called before. Every transition changes that set, and only
/// keys are in it.
pub proof fn lemma_transitions_replay_the_held_keys(
    states: Seq<PhysicalKeys>,
    calls: Seq<KeyCall>,
)
    requires
        key_history(states, calls),
    ensures
        ({
            let events = handed_out(states, calls) + states.last().pending@;
            &&& forall|code: u16| #[trigger]
                replayed(events).contains(code) <==> states.last().holds(code)
            &&& alternating(events)
        }),
        states.last().wf(),
        forall|code: u16| #[trigger] states.last().holds(code) ==> is_key(code),
    decreases calls.len(),
{
    let last = states.last();
    if calls.len() == 0 {
        let events = handed_out(states, calls) + last.pending@;
        assert(events =~= Seq::<InputEvent>::empty());
    } else {
        let earlier = states.drop_last();
        let before = earlier.last();
        assert forall|i: int| 0 <= i < calls.drop_last().len() implies called(
            earlier[i],
            #[trigger] calls.drop_last()[i],
            earlier[i + 1],
        ) by {
            assert(calls.drop_last()[i] == calls[i]);
        }
        lemma_transitions_replay_the_held_keys(earlier, calls.drop_last());
        let old_events = handed_out(earlier, calls.drop_last()) + before.pending@;
        let events = handed_out(states, calls) + last.pending@;
        assert(called(before, calls.last(), last));
        match calls.last() {
            KeyCall::Update { device, code, pressed } => {
                if !is_key(code) || before.holds(code) == last.holds(code) {
                    assert(events =~= old_events);
                } else {
                    let event = InputEvent::Key { code, pressed: last.holds(code) };
                    assert(events =~= old_events.push(event));
                    lemma_one_more(old_events, code, last.holds(code));
                }
                if is_key(code) {
                    assert forall|c: u16| #[trigger]
                        replayed(events).contains(c) <==> last.holds(c) by {
                        if c != code {
                            assert(held_anywhere(last.devices@, c) == before.holds(c));
                        }
                    }
                    lemma_noted_keeps_keys(before, last, device, code, pressed);
                }
            },
            KeyCall::Disconnect { device } => {
                let released = only_on(before.devices@, device);
                assert(events =~= old_events + key_releases(released));
                lemma_only_on(before.devices@, device);
                lemma_releases(old_events, released);
                assert forall|c: u16| #[trigger] replayed(events).contains(c) <==> last.holds(c) by {
                    lemma_holds_without(before, last, device, c);
                }
                assert forall|d: usize, c: u16| #[trigger]
                    keys_on(last.devices@, d).contains(c) implies is_key(c) by {
                    assert(keys_on(before.devices@, d).contains(c));
                }
            },
            KeyCall::Drain => {
                assert(events =~= old_events);
            },
        }
        assert forall|c: u16| #[trigger] last.holds(c) implies is_key(c) by {
            let d = choose|d: usize| #[trigger] keys_on(last.devices@, d).contains(c);
            assert(is_key(c));
        }
    }
}

/// Noting a key keeps it so that only keys are held.
proof fn lemma_noted_keeps_keys(
    before: PhysicalKeys,
    after: PhysicalKeys,
    device: usize,
    code: u16,
    pressed: bool,
)
    requires
        before.wf(),
        is_key(code),
        after.noted(before, device, code, pressed),
    ensures
        forall|d: usize, c: u16| #[trigger] keys_on(after.devices@, d).contains(c) ==> is_key(c),
{
    assert forall|d: usize, c: u16| #[trigger] keys_on(after.devices@, d).contains(
        c,
    ) implies is_key(c) by {
        if d != device || c != code {
            assert(keys_on(before.devices@, d).contains(c));
        }
    }
}

/// A transition that changes the set carries alternation on.
proof fn lemma_one_more(events: Seq<InputEvent>, code: u16, pressed: bool)
    requires
        alternating(events),
        pressed != replayed(events).contains(code),
    ensures
        alternating(events.push(InputEvent::Key { code, pressed })),
        replayed(events.push(InputEvent::Key { code, pressed })) == (if pressed {
            replayed(events).insert(code)
        } else {
            replayed(events).remove(code)
        }),
{
    let more = events.push(InputEvent::Key { code, pressed });
    assert(more.drop_last() =~= events);
    assert forall|i: int| 0 <= i < more.len() implies ((#[trigger] more[i]) matches InputEvent::Key {
        code,
        pressed,
    } && pressed != replayed(more.take(i)).contains(code)) by {
        if i < events.len() {
            assert(more[i] == events[i]);
            assert(more.take(i) =~= events.take(i));
        } else {
            assert(more.take(i) =~= events);
        }
    }
}

/// Releasing different keys that are down, one after the other.
proof fn lemma_releases(events: Seq<InputEvent>, codes: Seq<u16>)
    requires
        alternating(events),
        crate::codes::increasing(codes),
        forall|i: int| 0 <= i < codes.len() ==> replayed(events).contains(#[trigger] codes[i]),
    ensures
        alternating(events + key_releases(codes)),
        forall|c: u16| #[trigger]
            replayed(events + key_releases(codes)).contains(c) <==> replayed(events).contains(c)
                && !codes.contains(c),
    decreases codes.len(),
{
    if codes.len() == 0 {
        assert(events + key_releases(codes) =~= events);
    } else {
        let fewer = codes.drop_last();
        let code = codes.last();
        assert forall|i: int| 0 <= i < fewer.len() implies replayed(events).contains(
            #[trigger] fewer[i],
        ) by {
            assert(fewer[i] == codes[i]);
        }
        lemma_releases(events, fewer);
        let part = events + key_releases(fewer);
        assert(events + key_releases(codes) =~= part.push(InputEvent::Key { code, pressed: false }));
        assert(codes[codes.len() - 1] == code);
        assert(!fewer.contains(code)) by {
            if fewer.contains(code) {
                let k = choose|k: int| 0 <= k < fewer.len() && fewer[k] == code;
                assert(codes[k] == code);
            }
        }
        lemma_one_more(part, code, false);
        assert forall|c: u16| #[trigger] codes.contains(c) <==> fewer.contains(c) || c == code by {
            if codes.contains(c) && c != code {
                let k = choose|k: int| 0 <= k < codes.len() && codes[k] == c;
                assert(fewer[k] == c);
            }
            if fewer.contains(c) {
                let k = choose|k: int| 0 <= k < fewer.len() && fewer[k] == c;
                assert(codes[k] == c);
            }
        }
    }
}

/// What one device alone holds is listed in order, and is held.
pub proof fn lemma_only_on(devices: Map<usize, BTreeSet<u16>>, device: usize)
    ensures
        crate::codes::increasing(only_on(devices, device)),
        forall|c: u16| #[trigger]
            only_on(devices, device).contains(c) <==> keys_on(devices, device).contains(c)
                && !held_elsewhere(devices, device, c),
        forall|i: int|
            0 <= i < only_on(devices, device).len() ==> held_anywhere(
                devices,
                #[trigger] only_on(devices, device)[i],
            ),
{
    let keep = |code: u16| !held_elsewhere(devices, device, code);
    let all = crate::codes::ascending(keys_on(devices, device));
    crate::codes::lemma_codes_below(keys_on(devices, device), 65536);
    lemma_filter_increasing(all, keep);
    let list = only_on(devices, device);
    assert forall|i: int| 0 <= i < list.len() implies held_anywhere(devices, #[trigger] list[i]) by {
        assert(list.contains(list[i]));
        assert(keys_on(devices, device).contains(list[i]));
    }
}

/// Filtering keeps the order.
proof fn lemma_filter_increasing(s: Seq<u16>, keep: spec_fn(u16) -> bool)
    requires
        crate::codes::increasing(s),
    ensures
        crate::codes::increasing(s.filter(keep)),
        forall|c: u16| #[trigger] s.filter(keep).contains(c) <==> s.contains(c) && keep(c),
    decreases s.len(),
{
    reveal(Seq::filter);
    if s.len() > 0 {
        let less = s.drop_last();
        let part = less.filter(keep);
        lemma_filter_increasing(less, keep);
        assert forall|i: int| 0 <= i < part.len() implies part[i] < s.last() by {
            assert(part.contains(part[i]));
            let k = choose|k: int| 0 <= k < less.len() && less[k] == part[i];
            assert(s[k] == part[i]);
        }
        assert forall|c: u16| #[trigger] s.filter(keep).contains(c) <==> s.contains(c) && keep(c) by {
            if s.contains(c) && keep(c) && c != s.last() {
                let k = choose|k: int| 0 <= k < s.len() && s[k] == c;
                assert(less[k] == c);
                assert(part.contains(c));
            }
            if part.contains(c) {
                let k = choose|k: int| 0 <= k < part.len() && part[k] == c;
                assert(s.filter(keep)[k] == c);
                let j = choose|j: int| 0 <= j < less.len() && less[j] == c;
                assert(s[j] == c);
            }
            if s.filter(keep).contains(c) && !part.contains(c) {
                let k = choose|k: int| 0 <= k < s.filter(keep).len() && s.filter(keep)[k] == c;
                if k < part.len() {
                    assert(part[k] == c);
                }
                assert(s[s.len() - 1] == c);
            }
            if c == s.last() && keep(c) {
                assert(s.filter(keep)[part.len() as int] == c);
            }
        }
    }
}

/// After a device is gone a key is held as far as another device holds it.
pub proof fn lemma_holds_without(before: PhysicalKeys, after: PhysicalKeys, device: usize, code: u16)
    requires
        after.devices@ == before.devices@.remove(device),
    ensures
        after.holds(code) <==> before.holds(code) && !only_on(before.devices@, device).contains(
            code,
        ),
{
    lemma_only_on(before.devices@, device);
    if after.holds(code) {
        let d = choose|d: usize| #[trigger] keys_on(after.devices@, d).contains(code);
        assert(d != device && keys_on(before.devices@, d).contains(code));
        assert(held_elsewhere(before.devices@, device, code));
    }
    if before.holds(code) && !only_on(before.devices@, device).contains(code) {
        let d = choose|d: usize| #[trigger] keys_on(before.devices@, d).contains(code);
        if d == device {
            let other = choose|other: usize|
                other != device && #[trigger] keys_on(before.devices@, other).contains(code);
            assert(keys_on(after.devices@, other).contains(code));
        } else {
            assert(keys_on(after.devices@, d).contains(code));
        }
    }
}

/// Control, Alt and Shift are held, each on either side of the keyboard.
pub open spec fn emergency_held(keys: Set<u16>) -> bool {
    &&& keys.contains(29) || keys.contains(97)
    &&& keys.contains(56) || keys.contains(100)
    &&& keys.contains(42) || keys.contains(54)
}

pub fn emergency_modifiers(keys: &BTreeSet<u16>) -> (r: bool)
    ensures
        r == emergency_held(keys@),
{
    (keys.contains(&29u16) || keys.contains(&97u16)) && (keys.contains(&56u16) || keys.contains(
        &100u16,
    )) && (keys.contains(&42u16) || keys.contains(&54u16))
}

/// Held-state tracking shared by keyboard keys and pointer buttons.
/// Values are kept in memory only; this type deliberately does not implement `Debug`.
pub struct HeldInputs {
    pub keys: BTreeSet<u16>,
}

impl View for HeldInputs {
    type V = Set<u16>;

    open spec fn view(&self) -> Set<u16> {
        self.keys@
    }
}

impl HeldInputs {
    pub fn press(&mut self, code: u16) -> (r: bool)
        ensures
            r == !old(self)@.contains(code),
            final(self)@ == old(self)@.insert(code),
    {
        self.keys.insert(code)
    }

    pub fn release(&mut self, code: u16) -> (r: bool)
        ensures
            r == old(self)@.contains(code),
            final(self)@ == old(self)@.remove(code),
    {
        self.keys.remove(&code)
    }

    /// Forgets every held code and returns them, smallest first.
    pub fn release_all(&mut self) -> (r: Vec<u16>)
        ensures
            r@ == crate::codes::ascending(old(self)@),
            final(self)@ == Set::<u16>::empty(),
    {
        let codes = sorted_codes(&self.keys);
        self.keys = BTreeSet::new();
        codes
    }

    pub fn is_empty(&self) -> (r: bool)
        ensures
            r == (self@ == Set::<u16>::empty()),
    {
        let empty = self.keys.is_empty();
        assert(self@.is_empty() <==> self@ =~= Set::<u16>::empty());
        empty
    }
}

impl Default for HeldInputs {
    fn default() -> (r: HeldInputs)
        ensures
            r@ == Set::<u16>::empty(),
    {
        HeldInputs { keys: BTreeSet::new() }
    }
}

#[derive(Debug, Clone, Copy, PartialEq, Eq, Structural)]
pub enum Mode {
    Local,
    Sending,
    Receiving,
    Paused,
}

#[derive(Debug, Clone, Copy, PartialEq, Eq, Structural)]
pub enum StopReason {
    Returned,
    Disconnected,
    Emergency,
    LocalTakeover,
    Locked,
}

pub struct StopEffects {
    pub release_codes: Vec<u16>,
    pub release_capture: bool,
    pub notify_peer: bool,
}

impl StopEffects {
    /// Nothing is to be done.
    pub open spec fn none(self) -> bool {
        &&& self.release_codes@.len() == 0
        &&& !self.release_capture
        &&& !self.notify_peer
    }

    /// What ending a state for a reason takes.
    pub open spec fn ends(self, state: ControlState, reason: StopReason) -> bool {
        &&& self.release_codes@ == crate::codes::ascending(state.held@)
        &&& self.release_capture == (state.mode == Mode::Sending)
        &&& self.notify_peer == (state.active() && reason != StopReason::Disconnected)
    }
}

/// One machine's control state; remote sessions are only started after authentication.
/// Lock state and physical activity must come from trusted local backends.
pub struct ControlState {
    pub mode: Mode,
    pub local_locked: bool,
    pub peer_locked: bool,
    pub held: HeldInputs,
}

impl Default for ControlState {
    fn default() -> (r: ControlState)
        ensures
            r.wf(),
            r.mode == Mode::Local,
            !r.local_locked,
            !r.peer_locked,
            r.held@ == Set::<u16>::empty(),
    {
        ControlState {
            mode: Mode::Local,
            local_locked: false,
            peer_locked: false,
            held: HeldInputs::default(),
        }
    }
}

impl ControlState {
    pub open spec fn active(self) -> bool {
        self.mode == Mode::Sending || self.mode == Mode::Receiving
    }

    pub open spec fn locked(self) -> bool {
        self.local_locked || self.peer_locked
    }

    /// Sharing is paused exactly while a computer is locked, and nothing is held unless input is
    /// being shared.
    pub open spec fn wf(self) -> bool {
        &&& self.mode == Mode::Paused <==> self.locked()
        &&& !self.active() ==> self.held@ == Set::<u16>::empty()
    }

    /// The state after input is no longer shared.
    pub open spec fn stopped(self, before: ControlState) -> bool {
        &&& self.local_locked == before.local_locked
        &&& self.peer_locked == before.peer_locked
        &&& self.held@ == Set::<u16>::empty()
        &&& self.mode == (if before.locked() {
            Mode::Paused
        } else {
            Mode::Local
        })
    }

    pub fn mode(&self) -> (r: Mode)
        ensures
            r == self.mode,
    {
        self.mode
    }

    /// Starts to send or to receive, unless that happens already or a computer is locked.
    pub fn start(&mut self, mode: Mode) -> (r: bool)
        requires
            old(self).wf(),
        ensures
            final(self).wf(),
            r == (old(self).mode == Mode::Local && !old(self).locked() && (mode == Mode::Sending
                || mode == Mode::Receiving)),
            r ==> final(self).mode == mode && final(self).held == old(self).held
                && final(self).local_locked == old(self).local_locked && final(self).peer_locked
                == old(self).peer_locked,
            !r ==> *final(self) == *old(self),
    {
        if self.mode != Mode::Local || self.local_locked || self.peer_locked || !(mode
            == Mode::Sending || mode == Mode::Receiving) {
            return false;
        }
        self.mode = mode;
        true
    }

    /// Notes a press while input is shared; says whether the code was not held before.
    pub fn press(&mut self, code: u16) -> (r: bool)
        requires
            old(self).wf(),
        ensures
            final(self).wf(),
            r == (old(self).active() && !old(self).held@.contains(code)),
            final(self).mode == old(self).mode,
            final(self).local_locked == old(self).local_locked,
            final(self).peer_locked == old(self).peer_locked,
            final(self).held@ == (if old(self).active() {
                old(self).held@.insert(code)
            } else {
                old(self).held@
            }),
    {
        if self.mode == Mode::Sending || self.mode == Mode::Receiving {
            self.held.press(code)
        } else {
            false
        }
    }

    pub fn release(&mut self, code: u16) -> (r: bool)
        requires
            old(self).wf(),
        ensures
            final(self).wf(),
            r == old(self).held@.contains(code),
            final(self).mode == old(self).mode,
            final(self).local_locked == old(self).local_locked,
            final(self).peer_locked == old(self).peer_locked,
            final(self).held@ == old(self).held@.remove(code),
    {
        let released = self.held.release(code);
        assert(!self.active() ==> self.held@ =~= Set::<u16>::empty());
        released
    }

    /// Ends sharing and says what has to be undone.
    pub fn stop(&mut self, reason: StopReason) -> (r: StopEffects)
        ensures
            final(self).wf(),
            final(self).stopped(*old(self)),
            r.ends(*old(self), reason),
    {
        let active = self.mode == Mode::Sending || self.mode == Mode::Receiving;
        let release_capture = self.mode == Mode::Sending;
        let release_codes = self.held.release_all();
        self.mode = if self.local_locked || self.peer_locked {
            Mode::Paused
        } else {
            Mode::Local
        };
        StopEffects {
            release_codes,
            release_capture,
            notify_peer: active && reason != StopReason::Disconnected,
        }
    }

    /// Takes over whether this computer is locked. Only a change has an effect.
    pub fn local_lock_changed(&mut self, locked: bool) -> (r: StopEffects)
        requires
            old(self).wf(),
        ensures
            final(self).wf(),
            old(self).local_locked == locked ==> r.none() && *final(self) == *old(self),
            old(self).local_locked != locked ==> {
                &&& final(self).stopped(ControlState { local_locked: locked, ..*old(self) })
                &&& r.ends(*old(self), StopReason::Locked)
            },
    {
        if self.local_locked == locked {
            return StopEffects {
                release_codes: Vec::new(),
                release_capture: false,
                notify_peer: false,
            };
        }
        self.local_locked = locked;
        self.stop(StopReason::Locked)
    }

    /// Takes over whether the other computer is locked. Only a change has an effect.
    pub fn peer_lock_changed(&mut self, locked: bool) -> (r: StopEffects)
        requires
            old(self).wf(),
        ensures
            final(self).wf(),
            old(self).peer_locked == locked ==> r.none() && *final(self) == *old(self),
            old(self).peer_locked != locked ==> {
                &&& final(self).stopped(ControlState { peer_locked: locked, ..*old(self) })
                &&& r.ends(*old(self), StopReason::Locked)
            },
    {
        if self.peer_locked == locked {
            return StopEffects {
                release_codes: Vec::new(),
                release_capture: false,
                notify_peer: false,
            };
        }
        self.peer_locked = locked;
        self.stop(StopReason::Locked)
    }

    /// Must be called only for hardware-originated input at the receiver, never injected input.
    pub fn receiver_physical_activity(&mut self) -> (r: Option<StopEffects>)
        requires
            old(self).wf(),
        ensures
            final(self).wf(),
            match r {
                Some(effects) => old(self).mode == Mode::Receiving && final(self).stopped(
                    *old(self),
                ) && effects.ends(*old(self), StopReason::LocalTakeover),
                None => old(self).mode != Mode::Receiving && *final(self) == *old(self),
            },
    {
        if self.mode == Mode::Receiving {
            Some(self.stop(StopReason::LocalTakeover))
        } else {
            None
        }
    }
}

} // verus!
