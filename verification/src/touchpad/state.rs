//! The contacts, keys and axes that are current on a touchpad.
use super::{Descriptor, Event, Kind, SLOT, TOUCH, TRACKING};
use crate::codes::{sorted_codes, sorted_entries};
use crate::error::Error;
use std::collections::{BTreeMap, BTreeSet};
use vstd::prelude::*;

verus! {

broadcast use {vstd::std_specs::btree::group_btree_axioms, vstd::laws_cmp::group_laws_cmp};

/// What is current on a touchpad: the selected contact, the held keys, the single-touch axes and
/// the axes of each contact.
pub ghost struct TouchModel {
    pub slot: int,
    pub keys: Set<u16>,
    pub axes: Map<u16, i32>,
    pub contacts: Seq<Map<u16, i32>>,
}

pub open spec fn lifted_contact() -> Map<u16, i32> {
    Map::empty().insert(TRACKING, (-1) as i32)
}

/// The tracking identity of a contact, negative while it is lifted.
pub open spec fn tracking(contact: Map<u16, i32>) -> int {
    if contact.contains_key(TRACKING) {
        contact[TRACKING] as int
    } else {
        -1
    }
}

/// A touchpad that nothing touches yet.
pub open spec fn untouched(d: Descriptor) -> TouchModel {
    TouchModel {
        slot: 0,
        keys: Set::empty(),
        axes: resting_axes(d.axes@),
        contacts: Seq::new(d.contact_count(), |i: int| lifted_contact()),
    }
}

/// Each single-touch axis at its minimum.
pub open spec fn resting_axes(axes: Seq<super::AxisInfo>) -> Map<u16, i32>
    decreases axes.len(),
{
    if axes.len() == 0 {
        Map::empty()
    } else if axes.last().code < SLOT {
        resting_axes(axes.drop_last()).insert(axes.last().code, axes.last().minimum)
    } else {
        resting_axes(axes.drop_last())
    }
}

impl TouchModel {
    pub open spec fn wf(self) -> bool {
        0 <= self.slot < self.contacts.len()
    }

    /// The effect of one value.
    pub open spec fn step(self, event: Event) -> TouchModel {
        match event.kind {
            Kind::Key => if event.value == 0 {
                TouchModel { keys: self.keys.remove(event.code), ..self }
            } else {
                TouchModel { keys: self.keys.insert(event.code), ..self }
            },
            Kind::Absolute => if event.code == SLOT {
                TouchModel { slot: event.value as int, ..self }
            } else if event.code > SLOT {
                TouchModel {
                    contacts: self.contacts.update(
                        self.slot,
                        self.contacts[self.slot].insert(event.code, event.value),
                    ),
                    ..self
                }
            } else {
                TouchModel { axes: self.axes.insert(event.code, event.value), ..self }
            },
        }
    }

    /// The effect of a sequence of values, one after the other.
    pub open spec fn apply(self, events: Seq<Event>) -> TouchModel
        decreases events.len(),
    {
        if events.len() == 0 {
            self
        } else {
            self.apply(events.drop_last()).step(events.last())
        }
    }

    pub open spec fn idle(self) -> bool {
        &&& !self.keys.contains(TOUCH)
        &&& forall|i: int|
            0 <= i < self.contacts.len() ==> tracking(#[trigger] self.contacts[i]) < 0
    }

    /// The values that bring one touching contact back, none for a lifted one.
    pub open spec fn contact_values(self, index: int) -> Seq<Event> {
        let contact = self.contacts[index];
        if tracking(contact) >= 0 {
            seq![Event::abs(SLOT, index as i32), Event::abs(TRACKING, contact[TRACKING])]
                + abs_values(contact_rest(contact))
        } else {
            Seq::empty()
        }
    }

    pub open spec fn contacts_values(self, count: nat) -> Seq<Event>
        decreases count,
    {
        if count == 0 {
            Seq::empty()
        } else {
            self.contacts_values((count - 1) as nat) + self.contact_values(count - 1)
        }
    }

    /// The values that bring an untouched touchpad to this one.
    pub open spec fn snapshot(self) -> Seq<Event> {
        seq![Event::key(TOUCH, if self.keys.contains(TOUCH) {
            1
        } else {
            0
        })] + self.contacts_values(self.contacts.len()) + abs_values(
            crate::codes::entries(self.axes),
        ) + key_values(other_keys(self.keys), 1) + seq![Event::abs(SLOT, self.slot as i32)]
    }

    pub open spec fn lift_values(count: nat) -> Seq<Event>
        decreases count,
    {
        if count == 0 {
            Seq::empty()
        } else {
            Self::lift_values((count - 1) as nat) + seq![
                Event::abs(SLOT, (count - 1) as i32),
                Event::abs(TRACKING, (-1) as i32),
            ]
        }
    }

    /// The values that lift every contact and release every key.
    pub open spec fn releases(self) -> Seq<Event> {
        seq![Event::key(TOUCH, 0)] + Self::lift_values(self.contacts.len()) + key_values(
            other_keys(self.keys),
            0,
        )
    }
}

pub open spec fn abs_values(list: Seq<(u16, i32)>) -> Seq<Event> {
    list.map_values(|entry: (u16, i32)| Event::abs(entry.0, entry.1))
}

pub open spec fn key_values(codes: Seq<u16>, value: i32) -> Seq<Event> {
    codes.map_values(|code: u16| Event::key(code, value))
}

/// The entries of a contact but for its tracking identity, in the order of their codes.
pub open spec fn contact_rest(contact: Map<u16, i32>) -> Seq<(u16, i32)> {
    crate::codes::entries(contact).filter(|entry: (u16, i32)| entry.0 != TRACKING)
}

/// The held keys but for the contact key, in the order of their codes.
pub open spec fn other_keys(keys: Set<u16>) -> Seq<u16> {
    crate::codes::ascending(keys).filter(|code: u16| code != TOUCH)
}

/// Every value that selects a contact selects one that exists.
pub open spec fn selects_existing(events: Seq<Event>, contacts: nat) -> bool {
    forall|i: int|
        0 <= i < events.len() && (#[trigger] events[i]).kind == Kind::Absolute && events[i].code
            == SLOT ==> 0 <= events[i].value < contacts
}

/// Current contacts only, used to preserve a stroke as its destination changes.
pub struct TouchState {
    pub slot: usize,
    pub keys: BTreeSet<u16>,
    pub axes: BTreeMap<u16, i32>,
    pub contacts: Vec<BTreeMap<u16, i32>>,
}

impl View for TouchState {
    type V = TouchModel;

    open spec fn view(&self) -> TouchModel {
        TouchModel {
            slot: self.slot as int,
            keys: self.keys@,
            axes: self.axes@,
            contacts: self.contacts@.map_values(|contact: BTreeMap<u16, i32>| contact@),
        }
    }
}

impl TouchState {
    pub fn new(descriptor: &Descriptor) -> (r: TouchState)
        requires
            descriptor.valid(),
        ensures
            r@ == untouched(*descriptor),
            r@.wf(),
    {
        let mut axes: BTreeMap<u16, i32> = BTreeMap::new();
        for i in 0..descriptor.axes.len()
            invariant
                axes@ == resting_axes(descriptor.axes@.take(i as int)),
        {
            assert(descriptor.axes@.take(i + 1).drop_last() == descriptor.axes@.take(i as int));
            let axis = descriptor.axes[i];
            if axis.code < SLOT {
                axes.insert(axis.code, axis.minimum);
            }
        }
        assert(descriptor.axes@.take(descriptor.axes@.len() as int) == descriptor.axes@);
        let count: usize = descriptor.slots();
        let mut contacts: Vec<BTreeMap<u16, i32>> = Vec::new();
        for i in 0..count
            invariant
                contacts@.len() == i,
                forall|j: int| 0 <= j < i ==> (#[trigger] contacts@[j])@ == lifted_contact(),
        {
            let mut contact: BTreeMap<u16, i32> = BTreeMap::new();
            contact.insert(TRACKING, -1);
            contacts.push(contact);
        }
        let state = TouchState { slot: 0, keys: BTreeSet::new(), axes, contacts };
        assert(state@.contacts =~= untouched(*descriptor).contacts);
        state
    }

    /// Takes a frame over into the current state.
    pub fn apply(&mut self, events: &[Event])
        requires
            old(self)@.wf(),
            selects_existing(events@, old(self)@.contacts.len()),
        ensures
            final(self)@ == old(self)@.apply(events@),
            final(self)@.wf(),
            final(self)@.contacts.len() == old(self)@.contacts.len(),
    {
        for i in 0..events.len()
            invariant
                self@ == old(self)@.apply(events@.take(i as int)),
                self@.wf(),
                self@.contacts.len() == old(self)@.contacts.len(),
                selects_existing(events@, old(self)@.contacts.len()),
        {
            assert(events@.take(i + 1).drop_last() == events@.take(i as int));
            let ghost before = self@;
            let event: Event = events[i];
            assert(event == events@[i as int]);
            match event.kind {
                Kind::Key => {
                    if event.value == 0 {
                        self.keys.remove(&event.code);
                    } else {
                        self.keys.insert(event.code);
                    }
                },
                Kind::Absolute => {
                    if event.code == SLOT {
                        self.slot = event.value as usize;
                    } else if event.code > SLOT {
                        self.contacts[self.slot].insert(event.code, event.value);
                        assert(self@.contacts =~= before.step(event).contacts);
                    } else {
                        self.axes.insert(event.code, event.value);
                    }
                },
            }
            assert(self@ == before.step(event));
        }
        assert(events@.take(events@.len() as int) == events@);
    }

    /// No finger touches the pad.
    pub fn idle(&self) -> (r: bool)
        ensures
            r == self@.idle(),
    {
        if self.keys.contains(&TOUCH) {
            return false;
        }
        for i in 0..self.contacts.len()
            invariant
                forall|j: int| 0 <= j < i ==> tracking(#[trigger] self@.contacts[j]) < 0,
        {
            let contact = &self.contacts[i];
            assert(self@.contacts[i as int] == contact@);
            match contact.get(&TRACKING) {
                Some(value) => if *value >= 0 {
                    return false;
                },
                None => {},
            }
        }
        true
    }

    fn push_contact(&self, index: usize, events: &mut Vec<Event>)
        requires
            index < self@.contacts.len() <= super::MAX_CONTACTS,
        ensures
            final(events)@ == old(events)@ + self@.contact_values(index as int),
    {
        let contact = &self.contacts[index];
        assert(self@.contacts[index as int] == contact@);
        let identity: i32 = match contact.get(&TRACKING) {
            Some(value) => *value,
            None => -1,
        };
        if identity < 0 {
            assert(old(events)@ + Seq::<Event>::empty() =~= old(events)@);
            return;
        }
        events.push(Event::abs(SLOT, index as i32));
        events.push(Event::abs(TRACKING, identity));
        let ghost start = events@;
        let list = sorted_entries(contact);
        let ghost keep = |entry: (u16, i32)| entry.0 != TRACKING;
        proof {
            reveal(Seq::filter);
            assert(events@ =~= start + abs_values(list@.take(0).filter(keep)));
        }
        for i in 0..list.len()
            invariant
                keep == |entry: (u16, i32)| entry.0 != TRACKING,
                events@ == start + abs_values(list@.take(i as int).filter(keep)),
        {
            proof {
                reveal(Seq::filter);
                assert(list@.take(i + 1).drop_last() == list@.take(i as int));
            }
            let entry: (u16, i32) = list[i];
            if entry.0 != TRACKING {
                events.push(Event::abs(entry.0, entry.1));
            }
            assert(events@ =~= start + abs_values(list@.take(i + 1).filter(keep)));
        }
        assert(list@.take(list@.len() as int) == list@);
        assert(events@ =~= old(events)@ + self@.contact_values(index as int));
    }

    fn push_axes(&self, events: &mut Vec<Event>)
        ensures
            final(events)@ == old(events)@ + abs_values(crate::codes::entries(self@.axes)),
    {
        let list = sorted_entries(&self.axes);
        for i in 0..list.len()
            invariant
                events@ =~= old(events)@ + abs_values(list@.take(i as int)),
        {
            events.push(Event::abs(list[i].0, list[i].1));
        }
        assert(list@.take(list@.len() as int) == list@);
    }

    fn push_other_keys(&self, value: i32, events: &mut Vec<Event>)
        ensures
            final(events)@ == old(events)@ + key_values(other_keys(self@.keys), value),
    {
        let list = sorted_codes(&self.keys);
        let ghost keep = |code: u16| code != TOUCH;
        proof {
            reveal(Seq::filter);
            assert(events@ =~= old(events)@ + key_values(list@.take(0).filter(keep), value));
        }
        for i in 0..list.len()
            invariant
                keep == |code: u16| code != TOUCH,
                events@ == old(events)@ + key_values(list@.take(i as int).filter(keep), value),
        {
            proof {
                reveal(Seq::filter);
                assert(list@.take(i + 1).drop_last() == list@.take(i as int));
            }
            if list[i] != TOUCH {
                events.push(Event::key(list[i], value));
            }
            assert(events@ =~= old(events)@ + key_values(list@.take(i + 1).filter(keep), value));
        }
        assert(list@.take(list@.len() as int) == list@);
    }

    /// The values that bring an untouched touchpad to this state.
    pub fn snapshot(&self) -> (r: Vec<Event>)
        requires
            self@.wf(),
            self@.contacts.len() <= super::MAX_CONTACTS,
        ensures
            r@ == self@.snapshot(),
    {
        let touching: i32 = if self.keys.contains(&TOUCH) {
            1
        } else {
            0
        };
        let mut events: Vec<Event> = Vec::new();
        events.push(Event::key(TOUCH, touching));
        let ghost start = events@;
        for i in 0..self.contacts.len()
            invariant
                self@.contacts.len() <= super::MAX_CONTACTS,
                self@.contacts.len() == self.contacts@.len(),
                events@ =~= start + self@.contacts_values(i as nat),
        {
            self.push_contact(i, &mut events);
        }
        self.push_axes(&mut events);
        self.push_other_keys(1, &mut events);
        events.push(Event::abs(SLOT, self.slot as i32));
        assert(events@ =~= self@.snapshot());
        events
    }

    /// The values that lift every contact and release every key.
    pub fn releases(&self) -> (r: Vec<Event>)
        requires
            self@.contacts.len() <= super::MAX_CONTACTS,
        ensures
            r@ == self@.releases(),
    {
        let mut events: Vec<Event> = Vec::new();
        events.push(Event::key(TOUCH, 0));
        let ghost start = events@;
        assert(self@.contacts.len() == self.contacts@.len());
        for i in 0..self.contacts.len()
            invariant
                self@.contacts.len() <= super::MAX_CONTACTS,
                self@.contacts.len() == self.contacts@.len(),
                events@ =~= start + TouchModel::lift_values(i as nat),
        {
            events.push(Event::abs(SLOT, i as i32));
            events.push(Event::abs(TRACKING, -1));
        }
        self.push_other_keys(0, &mut events);
        assert(events@ =~= self@.releases());
        events
    }

    fn set_axis(&mut self, code: u16, values: &Vec<i32>)
        requires
            values@.len() == old(self)@.contacts.len(),
        ensures
            final(self)@ == (TouchModel {
                contacts: Seq::new(
                    old(self)@.contacts.len(),
                    |i: int| old(self)@.contacts[i].insert(code, values@[i]),
                ),
                ..old(self)@
            }),
    {
        let ghost before = self@.contacts;
        for j in 0..values.len()
            invariant
                values@.len() == before.len(),
                before == old(self)@.contacts,
                self@.contacts.len() == before.len(),
                self@ == (TouchModel { contacts: self@.contacts, ..old(self)@ }),
                forall|k: int|
                    0 <= k < j ==> #[trigger] self@.contacts[k] == before[k].insert(code, values@[k]),
                forall|k: int| j <= k < before.len() ==> #[trigger] self@.contacts[k] == before[k],
        {
            let ghost current = self@.contacts;
            assert(current[j as int] == before[j as int]);
            self.contacts[j].insert(code, values[j]);
            assert(self@.contacts =~= current.update(
                j as int,
                before[j as int].insert(code, values@[j as int]),
            ));
        }
        assert(self@.contacts =~= Seq::new(
            before.len(),
            |i: int| before[i].insert(code, values@[i]),
        ));
    }

    /// Takes over what a device reports as current.
    pub fn read(descriptor: &Descriptor, reading: &DeviceReading) -> (r: Result<TouchState, Error>)
        requires
            descriptor.valid(),
        ensures
            match r {
                Ok(state) => contacts_readable(reading.axes@, descriptor.contact_count()) && state@
                    == (TouchModel {
                    keys: super::touch_keys(reading.keys@).to_set(),
                    ..untouched(*descriptor).read(reading.axes@)
                }) && state@.wf() && state@.contacts.len() == descriptor.contact_count(),
                Err(e) => if contacts_readable(reading.axes@, descriptor.contact_count()) {
                    e == Error::InvalidCurrentSlot && !untouched(*descriptor).read(
                        reading.axes@,
                    ).wf()
                } else {
                    e == Error::ContactsUnreadable
                },
            },
    {
        let mut state = TouchState::new(descriptor);
        let count: usize = state.contacts.len();
        let listed = super::keep_touch_keys(&reading.keys);
        assert(listed@.take(0).to_set() =~= Set::<u16>::empty());
        for i in 0..listed.len()
            invariant
                state@ == (TouchModel {
                    keys: listed@.take(i as int).to_set(),
                    ..untouched(*descriptor)
                }),
        {
            state.keys.insert(listed[i]);
            assert(listed@.take(i + 1) == listed@.take(i as int).push(listed@[i as int]));
            assert(listed@.take(i + 1).to_set() =~= listed@.take(i as int).to_set().insert(
                listed@[i as int],
            )) by {
                listed@.take(i as int).lemma_push_to_set_commute(listed@[i as int]);
            }
        }
        assert(listed@.take(listed@.len() as int) == listed@);
        let ghost keys = state@.keys;
        let mut slot: i32 = 0;
        for i in 0..reading.axes.len()
            invariant
                count == descriptor.contact_count(),
                count == state@.contacts.len(),
                contacts_readable(reading.axes@.take(i as int), count as nat),
                (TouchModel { slot: slot as int, ..state@ }) == (TouchModel {
                    keys,
                    ..untouched(*descriptor).read(reading.axes@.take(i as int))
                }),
        {
            assert(reading.axes@.take(i + 1).drop_last() == reading.axes@.take(i as int));
            let axis = &reading.axes[i];
            let ghost before = (TouchModel { slot: slot as int, ..state@ });
            if axis.code < SLOT {
                state.axes.insert(axis.code, axis.value);
            } else if axis.code == SLOT {
                slot = axis.value;
            } else {
                if axis.contacts.len() != count {
                    assert(!contacts_readable(reading.axes@, count as nat)) by {
                        assert(reading.axes@[i as int].contacts@.len() != count);
                    }
                    return Err(Error::ContactsUnreadable);
                }
                state.set_axis(axis.code, &axis.contacts);
            }
            assert((TouchModel { slot: slot as int, ..state@ }) == before.read_step(*axis));
            assert(contacts_readable(reading.axes@.take(i + 1), count as nat));
        }
        assert(reading.axes@.take(reading.axes@.len() as int) == reading.axes@);
        if slot < 0 || slot as usize >= count {
            return Err(Error::InvalidCurrentSlot);
        }
        state.slot = slot as usize;
        Ok(state)
    }
}

/// What a device reports as current on one axis: a value, and for a multi-touch axis one value
/// for each contact.
pub struct AxisReading {
    pub code: u16,
    pub value: i32,
    pub contacts: Vec<i32>,
}

/// What a device reports as current.
pub struct DeviceReading {
    pub keys: Vec<u16>,
    pub axes: Vec<AxisReading>,
}

/// Every multi-touch axis has been read for every contact.
pub open spec fn contacts_readable(axes: Seq<AxisReading>, count: nat) -> bool {
    forall|i: int|
        0 <= i < axes.len() && (#[trigger] axes[i]).code > SLOT ==> axes[i].contacts@.len() == count
}

impl TouchModel {
    pub open spec fn read_step(self, axis: AxisReading) -> TouchModel {
        if axis.code < SLOT {
            TouchModel { axes: self.axes.insert(axis.code, axis.value), ..self }
        } else if axis.code == SLOT {
            TouchModel { slot: axis.value as int, ..self }
        } else {
            TouchModel {
                contacts: Seq::new(
                    self.contacts.len(),
                    |i: int| self.contacts[i].insert(axis.code, axis.contacts@[i]),
                ),
                ..self
            }
        }
    }

    /// The state after every reported axis has been taken over.
    pub open spec fn read(self, axes: Seq<AxisReading>) -> TouchModel
        decreases axes.len(),
    {
        if axes.len() == 0 {
            self
        } else {
            self.read(axes.drop_last()).read_step(axes.last())
        }
    }
}

} // verus!
