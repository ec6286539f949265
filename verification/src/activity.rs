//! Selected physical inputs: who uses this computer, and which keys are held.
use crate::error::Error;
use crate::input::PhysicalKeys;
use crate::protocol::InputEvent;
use crate::text::{same_text, starts_with};
use crate::touchpad::{AxisInfo, CapturedFrame, Descriptor};
use std::collections::BTreeSet;
use vstd::prelude::*;

verus! {

pub const KEY_EVENT: u16 = 1;

pub const RELATIVE_EVENT: u16 = 2;

pub const ABSOLUTE_EVENT: u16 = 3;

/// One record of an input device.
#[derive(Clone, Copy, PartialEq, Eq, Structural)]
pub struct Record {
    pub event_type: u16,
    pub code: u16,
    pub value: i32,
}

/// A record that shows that somebody uses the device.
pub open spec fn shows_use(record: Record) -> bool {
    ||| record.event_type == KEY_EVENT
    ||| record.event_type == ABSOLUTE_EVENT
    ||| record.event_type == RELATIVE_EVENT && record.value != 0
}

/// A record that presses or releases a key; repetitions do neither.
pub open spec fn changes_key(record: Record) -> bool {
    record.event_type == KEY_EVENT && record.value != 2
}

/// A device that this program made itself.
pub open spec fn own_device(physical_path: Option<Seq<char>>, name: Option<Seq<char>>) -> bool {
    ||| physical_path matches Some(path) && crate::text::has_prefix(
        path,
        crate::touchpad::router::VIRTUAL_PATH@,
    )
    ||| name matches Some(text) && text == crate::uinput::DEVICE_NAME@
}

/// The selected devices, the keys held on them and the touchpads that were negotiated.
pub struct ActivityMonitor {
    pub paths: Vec<String>,
    pub open: Vec<bool>,
    pub keyboard: PhysicalKeys,
    pub native_touchpads: bool,
    pub touchpads: bool,
    pub touchpad_profiles: Option<Vec<Descriptor>>,
}

pub open spec fn text_of(text: Option<&str>) -> Option<Seq<char>> {
    match text {
        Some(t) => Some(t@),
        None => None,
    }
}

/// Two lists of touchpads that advertise the same.
pub open spec fn same_profiles(a: Seq<Descriptor>, b: Seq<Descriptor>) -> bool {
    &&& a.len() == b.len()
    &&& forall|i: int| 0 <= i < a.len() ==> (#[trigger] a[i]).same(b[i])
}

fn same_codes(a: &Vec<u16>, b: &Vec<u16>) -> (r: bool)
    ensures
        r == (a@ == b@),
{
    if a.len() != b.len() {
        return false;
    }
    for i in 0..a.len()
        invariant
            a@.len() == b@.len(),
            forall|j: int| 0 <= j < i ==> a@[j] == b@[j],
    {
        if a[i] != b[i] {
            assert(a@[i as int] != b@[i as int]);
            return false;
        }
    }
    assert(a@ =~= b@);
    true
}

fn same_axes(a: &Vec<AxisInfo>, b: &Vec<AxisInfo>) -> (r: bool)
    ensures
        r == (a@ == b@),
{
    if a.len() != b.len() {
        return false;
    }
    for i in 0..a.len()
        invariant
            a@.len() == b@.len(),
            forall|j: int| 0 <= j < i ==> a@[j] == b@[j],
    {
        if a[i] != b[i] {
            assert(a@[i as int] != b@[i as int]);
            return false;
        }
    }
    assert(a@ =~= b@);
    true
}

pub fn profiles_match(a: &Vec<Descriptor>, b: &Vec<Descriptor>) -> (r: bool)
    ensures
        r == same_profiles(a@, b@),
{
    if a.len() != b.len() {
        return false;
    }
    for i in 0..a.len()
        invariant
            a@.len() == b@.len(),
            forall|j: int| 0 <= j < i ==> (#[trigger] a@[j]).same(b@[j]),
    {
        if !(same_codes(&a[i].keys, &b[i].keys) && same_codes(&a[i].properties, &b[i].properties)
            && same_axes(&a[i].axes, &b[i].axes)) {
            assert(!a@[i as int].same(b@[i as int]));
            return false;
        }
    }
    true
}

/// The input events that carry touch frames.
pub open spec fn touch_events(frames: Seq<CapturedFrame>) -> Seq<InputEvent> {
    frames.map_values(
        |frame: CapturedFrame|
            InputEvent::Touchpad { device: frame.0, time_us: frame.1, events: frame.2 },
    )
}

/// Turns touch frames into input events.
pub fn frame_events(frames: Vec<CapturedFrame>) -> (r: Vec<InputEvent>)
    ensures
        r@ == touch_events(frames@),
{
    let mut events: Vec<InputEvent> = Vec::new();
    for frame in it: frames
        invariant
            it.seq() == frames@,
            events@ =~= touch_events(frames@.take(it.index())),
    {
        events.push(
            InputEvent::Touchpad { device: frame.0, time_us: frame.1, events: frame.2 },
        );
    }
    events
}

/// The keys of a list that no device holds, each once, in the order of the list.
pub open spec fn fresh_keys(devices: Map<usize, BTreeSet<u16>>, held: Seq<u16>) -> Seq<u16>
    decreases held.len(),
{
    if held.len() == 0 {
        Seq::empty()
    } else {
        let before = fresh_keys(devices, held.drop_last());
        let code = held.last();
        if crate::input::is_key(code) && !crate::input::held_anywhere(devices, code)
            && !before.contains(code) {
            before.push(code)
        } else {
            before
        }
    }
}

pub open spec fn key_presses(codes: Seq<u16>) -> Seq<InputEvent> {
    codes.map_values(|code: u16| InputEvent::Key { code, pressed: true })
}

/// The fresh keys of a prefix come first.
proof fn lemma_fresh_prefix(devices: Map<usize, BTreeSet<u16>>, held: Seq<u16>, count: int)
    requires
        0 <= count <= held.len(),
    ensures
        fresh_keys(devices, held.take(count)).len() <= fresh_keys(devices, held).len(),
        fresh_keys(devices, held).take(fresh_keys(devices, held.take(count)).len() as int)
            == fresh_keys(devices, held.take(count)),
    decreases held.len() - count,
{
    let part = fresh_keys(devices, held.take(count));
    if count == held.len() {
        assert(held.take(count) =~= held);
        assert(part.take(part.len() as int) =~= part);
    } else {
        lemma_fresh_prefix(devices, held, count + 1);
        assert(held.take(count + 1).drop_last() =~= held.take(count));
        let more = fresh_keys(devices, held.take(count + 1));
        assert(more.take(part.len() as int) =~= part);
        assert(fresh_keys(devices, held).take(part.len() as int) =~= fresh_keys(
            devices,
            held,
        ).take(more.len() as int).take(part.len() as int));
    }
}

/// The fresh keys of a list are the members that are keys and that no device holds.
proof fn lemma_fresh_members(devices: Map<usize, BTreeSet<u16>>, held: Seq<u16>)
    ensures
        forall|code: u16| #[trigger]
            fresh_keys(devices, held).contains(code) <==> crate::input::is_key(code)
                && !crate::input::held_anywhere(devices, code) && held.contains(code),
    decreases held.len(),
{
    if held.len() > 0 {
        let less = held.drop_last();
        let before = fresh_keys(devices, less);
        let fresh = fresh_keys(devices, held);
        lemma_fresh_members(devices, less);
        assert forall|code: u16| #[trigger] held.contains(code) <==> less.contains(code) || code
            == held.last() by {
            if held.contains(code) && code != held.last() {
                let k = choose|k: int| 0 <= k < held.len() && held[k] == code;
                assert(less[k] == code);
            }
            if less.contains(code) {
                let k = choose|k: int| 0 <= k < less.len() && less[k] == code;
                assert(held[k] == code);
            }
            assert(held[held.len() - 1] == held.last());
        }
        assert forall|code: u16| #[trigger] fresh.contains(code) <==> before.contains(code) || (
        fresh.len() > before.len() && code == held.last()) by {
            if before.contains(code) {
                let k = choose|k: int| 0 <= k < before.len() && before[k] == code;
                assert(fresh[k] == code);
            }
            if fresh.contains(code) && !before.contains(code) {
                let k = choose|k: int| 0 <= k < fresh.len() && fresh[k] == code;
                if k < before.len() {
                    assert(before[k] == code);
                }
            }
            if fresh.len() > before.len() {
                assert(fresh[before.len() as int] == held.last());
            }
        }
    }
}

/// Pressing one more key on a device that has taken some keys over.
proof fn lemma_added(
    start: PhysicalKeys,
    before: PhysicalKeys,
    after: PhysicalKeys,
    index: usize,
    held: Seq<u16>,
    code: u16,
)
    requires
        before.adds_keys(start, index, held),
        after.updated(before, index, code, true) || after.overflowed(before, index, code, true),
    ensures
        after.adds_keys(start, index, held.push(code)),
        crate::input::is_key(code) ==> after.holds(code),
        crate::input::is_key(code) ==> (before.holds(code) <==> start.holds(code) || held.contains(
            code,
        )),
{
    let more = held.push(code);
    assert forall|c: u16| #[trigger] more.contains(c) <==> held.contains(c) || c == code by {
        assert(more[held.len() as int] == code);
        if held.contains(c) {
            let k = choose|k: int| 0 <= k < held.len() && held[k] == c;
            assert(more[k] == c);
        }
        if more.contains(c) && c != code {
            let k = choose|k: int| 0 <= k < more.len() && more[k] == c;
            assert(held[k] == c);
        }
    }
    assert forall|other: usize| other != index implies #[trigger] after.held_on(other)
        == start.held_on(other) by {
        assert(before.held_on(other) == start.held_on(other));
        assert(crate::input::keys_on(after.devices@, other) == before.held_on(other));
    }
    if crate::input::is_key(code) {
        assert(crate::input::keys_on(after.devices@, index).contains(code));
        if before.holds(code) {
            let d = choose|d: usize| #[trigger]
                crate::input::keys_on(before.devices@, d).contains(code);
            assert(before.held_on(d).contains(code));
            if d != index {
                assert(before.held_on(d) == start.held_on(d));
            }
            if d != index || !held.contains(code) {
                assert(crate::input::keys_on(start.devices@, d).contains(code));
            }
        }
        if held.contains(code) {
            assert(before.held_on(index).contains(code));
        }
        if start.holds(code) {
            let d = choose|d: usize| #[trigger]
                crate::input::keys_on(start.devices@, d).contains(code);
            assert(start.held_on(d).contains(code));
            if d != index {
                assert(before.held_on(d) == start.held_on(d));
            }
            assert(before.held_on(d).contains(code));
        }
    }
}

impl ActivityMonitor {
    pub open spec fn wf(self) -> bool {
        &&& 1 <= self.paths@.len() <= crate::bridge::MAX_ACTIVITY_DEVICES
        &&& self.open@.len() == self.paths@.len()
        &&& self.keyboard.wf()
    }

    pub fn new(paths: Vec<String>, native_touchpads: bool) -> (r: Result<ActivityMonitor, Error>)
        ensures
            1 <= paths@.len() <= crate::bridge::MAX_ACTIVITY_DEVICES ==> (r matches Ok(monitor)
                && monitor.wf() && monitor.paths == paths && monitor.native_touchpads
                == native_touchpads && !monitor.touchpads && monitor.touchpad_profiles is None
                && monitor.keyboard.pending@.len() == 0 && monitor.keyboard.devices@ == Map::<
                usize,
                BTreeSet<u16>,
            >::empty() && (forall|i: int|
                0 <= i < monitor.open@.len() ==> !#[trigger] monitor.open@[i])),
            !(1 <= paths@.len() <= crate::bridge::MAX_ACTIVITY_DEVICES) ==> r == Err::<
                ActivityMonitor,
                Error,
            >(Error::InvalidDeviceCount),
    {
        if paths.len() < 1 || paths.len() > crate::bridge::MAX_ACTIVITY_DEVICES {
            return Err(Error::InvalidDeviceCount);
        }
        let mut open: Vec<bool> = Vec::new();
        for i in 0..paths.len()
            invariant
                open@.len() == i,
                forall|j: int| 0 <= j < i ==> !#[trigger] open@[j],
        {
            open.push(false);
        }
        Ok(
            ActivityMonitor {
                paths,
                open,
                keyboard: PhysicalKeys::default(),
                native_touchpads,
                touchpads: false,
                touchpad_profiles: None,
            },
        )
    }

    /// Nothing but the keyboard and which devices are open has changed.
    pub open spec fn same_selection(self, other: ActivityMonitor) -> bool {
        &&& self.paths == other.paths
        &&& self.native_touchpads == other.native_touchpads
        &&& self.touchpads == other.touchpads
        &&& self.touchpad_profiles == other.touchpad_profiles
    }

    /// A device holds some more keys; those that no device held before wait to be forwarded.
    pub open spec fn takes_keys(self, before: ActivityMonitor, index: usize, held: Seq<u16>) -> bool {
        &&& self.keyboard.pending@ == before.keyboard.pending@ + key_presses(
            fresh_keys(before.keyboard.devices@, held),
        )
        &&& self.keyboard.adds_keys(before.keyboard, index, held)
    }

    /// The key at an index found no room; those before it were taken over, the later ones were not
    /// looked at.
    pub open spec fn stops_at(
        self,
        before: ActivityMonitor,
        index: usize,
        held: Seq<u16>,
        count: int,
    ) -> bool {
        let devices = before.keyboard.devices@;
        let fresh = fresh_keys(devices, held);
        let room = before.keyboard.room();
        &&& 0 <= count < held.len()
        &&& fresh_keys(devices, held.take(count)) == fresh.take(room)
        &&& fresh_keys(devices, held.take(count + 1)) == fresh.take(room + 1)
        &&& self.keyboard.pending@ == before.keyboard.pending@ + key_presses(fresh.take(room))
        &&& self.keyboard.adds_keys(before.keyboard, index, held.take(count + 1))
    }

    /// A selected device was opened; `held` are the keys that it reports as held.
    pub fn opened(
        &mut self,
        index: usize,
        physical_path: Option<&str>,
        name: Option<&str>,
        held: &Vec<u16>,
    ) -> (r: Result<(), Error>)
        requires
            old(self).wf(),
            index < old(self).paths@.len(),
        ensures
            final(self).wf(),
            final(self).same_selection(*old(self)),
            own_device(text_of(physical_path), text_of(name)) ==> r == Err::<(), Error>(
                Error::OwnDevice,
            ) && *final(self) == *old(self),
            !own_device(text_of(physical_path), text_of(name)) ==> {
                let fresh = fresh_keys(old(self).keyboard.devices@, held@);
                if fresh.len() <= old(self).keyboard.room() {
                    &&& r is Ok
                    &&& final(self).open@ == old(self).open@.update(index as int, true)
                    &&& final(self).takes_keys(*old(self), index, held@)
                } else {
                    &&& r == Err::<(), Error>(Error::KeyboardQueueFull)
                    &&& final(self).open@ == old(self).open@
                    &&& exists|count: int| #[trigger]
                        final(self).stops_at(*old(self), index, held@, count)
                }
            },
    {
        let from_here = match physical_path {
            Some(path) => starts_with(path, crate::touchpad::router::VIRTUAL_PATH),
            None => false,
        };
        let named = match name {
            Some(text) => same_text(text, crate::uinput::DEVICE_NAME),
            None => false,
        };
        if from_here || named {
            return Err(Error::OwnDevice);
        }
        let ghost devices = self.keyboard.devices@;
        let ghost fresh = fresh_keys(devices, held@);
        proof {
            assert(key_presses(fresh_keys(devices, held@.take(0))) =~= Seq::<InputEvent>::empty());
            assert(self.keyboard.pending@ =~= old(self).keyboard.pending@ + Seq::<
                InputEvent,
            >::empty());
        }
        for i in 0..held.len()
            invariant
                self.wf(),
                index < self.paths@.len(),
                self.same_selection(*old(self)),
                self.open == old(self).open,
                !own_device(text_of(physical_path), text_of(name)),
                devices == old(self).keyboard.devices@,
                fresh == fresh_keys(devices, held@),
                self.takes_keys(*old(self), index, held@.take(i as int)),
        {
            let ghost before = self.keyboard;
            let ghost less = held@.take(i as int);
            let ghost more = held@.take(i + 1);
            let code: u16 = held[i];
            let result = self.keyboard.update(index, code, true);
            proof {
                assert(more.drop_last() =~= less);
                assert(more == less.push(code));
                lemma_fresh_members(devices, less);
                lemma_added(old(self).keyboard, before, self.keyboard, index, less, code);
                lemma_fresh_prefix(devices, held@, i as int);
                lemma_fresh_prefix(devices, held@, i + 1);
                assert(key_presses(fresh_keys(devices, less).push(code)) =~= key_presses(
                    fresh_keys(devices, less),
                ).push(InputEvent::Key { code, pressed: true }));
            }
            match result {
                Err(e) => {
                    assert(self.stops_at(*old(self), index, held@, i as int));
                    return Err(e);
                },
                Ok(()) => {},
            }
            assert(self.keyboard.pending@ =~= old(self).keyboard.pending@ + key_presses(
                fresh_keys(devices, more),
            ));
        }
        assert(held@.take(held@.len() as int) == held@);
        self.open.set(index, true);
        Ok(())
    }

    /// One record of an open device: says whether somebody uses the device.
    pub fn record(&mut self, index: usize, record: Record) -> (r: Result<bool, Error>)
        requires
            old(self).wf(),
            index < old(self).paths@.len(),
        ensures
            final(self).wf(),
            final(self).same_selection(*old(self)),
            final(self).open == old(self).open,
            r is Err <==> changes_key(record) && crate::input::is_key(record.code)
                && old(self).keyboard.holds(record.code) != final(self).keyboard.holds(record.code)
                && old(self).keyboard.pending@.len() >= crate::input::MAX_PENDING_KEYS,
            match r {
                Ok(active) => {
                    &&& active == shows_use(record)
                    &&& if changes_key(record) {
                        final(self).keyboard.updated(
                            old(self).keyboard,
                            index,
                            record.code,
                            record.value != 0,
                        )
                    } else {
                        final(self).keyboard == old(self).keyboard
                    }
                },
                Err(e) => {
                    &&& e == Error::KeyboardQueueFull
                    &&& final(self).keyboard.overflowed(
                        old(self).keyboard,
                        index,
                        record.code,
                        record.value != 0,
                    )
                },
            },
    {
        if record.event_type == KEY_EVENT && record.value != 2 {
            match self.keyboard.update(index, record.code, record.value != 0) {
                Err(e) => return Err(e),
                Ok(()) => {},
            }
        }
        let active = record.event_type == KEY_EVENT || record.event_type == ABSOLUTE_EVENT || (
        record.event_type == RELATIVE_EVENT && record.value != 0);
        Ok(active)
    }

    /// An open device is gone.
    pub fn closed(&mut self, index: usize) -> (r: Result<(), Error>)
        requires
            old(self).wf(),
            index < old(self).paths@.len(),
        ensures
            final(self).wf(),
            final(self).same_selection(*old(self)),
            final(self).open@ == old(self).open@.update(index as int, false),
            r is Ok <==> crate::input::only_on(old(self).keyboard.devices@, index).len() <= old(
                self,
            ).keyboard.room(),
            match r {
                Ok(_) => final(self).keyboard.disconnected(old(self).keyboard, index),
                Err(e) => e == Error::KeyboardQueueFull && final(self).keyboard.cut_short(
                    old(self).keyboard,
                    index,
                ),
            },
    {
        self.open.set(index, false);
        self.keyboard.disconnect(index)
    }

    /// Lets go of everything.
    pub fn suspend(&mut self)
        requires
            old(self).wf(),
        ensures
            final(self).wf(),
            final(self).paths == old(self).paths,
            final(self).native_touchpads == old(self).native_touchpads,
            final(self).touchpad_profiles == old(self).touchpad_profiles,
            !final(self).touchpads,
            final(self).keyboard.devices@ == Map::<usize, BTreeSet<u16>>::empty(),
            final(self).keyboard.pending@.len() == 0,
            forall|i: int| 0 <= i < final(self).open@.len() ==> !#[trigger] final(self).open@[i],
    {
        let count: usize = self.open.len();
        for i in 0..count
            invariant
                count == self.open@.len(),
                self.paths == old(self).paths,
                self.open@.len() == self.paths@.len(),
                self.same_selection(*old(self)),
                1 <= self.paths@.len() <= crate::bridge::MAX_ACTIVITY_DEVICES,
                forall|j: int| 0 <= j < i ==> !#[trigger] self.open@[j],
        {
            self.open.set(i, false);
        }
        self.keyboard = PhysicalKeys::default();
        self.touchpads = false;
    }

    /// The touchpads have to be opened again.
    pub fn wants_touchpads(&self) -> (r: bool)
        ensures
            r == (self.native_touchpads && !self.touchpads && self.touchpad_profiles is Some),
    {
        self.native_touchpads && !self.touchpads && self.touchpad_profiles.is_some()
    }

    /// The touchpads were opened: the first time they are negotiated, later on they must be the
    /// same again.
    pub fn touchpads_opened(&mut self, profiles: Vec<Descriptor>) -> (r: Result<(), Error>)
        requires
            old(self).wf(),
        ensures
            final(self).wf(),
            final(self).paths == old(self).paths,
            final(self).open == old(self).open,
            final(self).keyboard == old(self).keyboard,
            final(self).native_touchpads == old(self).native_touchpads,
            final(self).touchpads,
            final(self).touchpad_profiles == Some(profiles),
            match old(self).touchpad_profiles {
                Some(previous) => r == (if same_profiles(previous@, profiles@) {
                    Ok(())
                } else {
                    Err::<(), Error>(Error::TouchpadsChanged)
                }),
                None => r is Ok,
            },
    {
        let same = match &self.touchpad_profiles {
            Some(previous) => profiles_match(previous, &profiles),
            None => true,
        };
        self.touchpad_profiles = Some(profiles);
        self.touchpads = true;
        if same {
            Ok(())
        } else {
            Err(Error::TouchpadsChanged)
        }
    }

    /// The keys that are held on any device.
    pub fn keyboard_state(&self) -> (r: BTreeSet<u16>)
        ensures
            forall|code: u16| #[trigger] r@.contains(code) <==> self.keyboard.holds(code),
    {
        self.keyboard.held()
    }

    /// Hands out the key transitions that wait to be forwarded.
    pub fn take_keyboard_events(&mut self) -> (r: Vec<InputEvent>)
        requires
            old(self).wf(),
        ensures
            final(self).wf(),
            final(self).same_selection(*old(self)),
            final(self).open == old(self).open,
            r == old(self).keyboard.pending,
            final(self).keyboard.pending@.len() == 0,
            final(self).keyboard.devices == old(self).keyboard.devices,
    {
        self.keyboard.drain()
    }
}

} // verus!
