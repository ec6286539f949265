//! Native multi-touch forwarding: what a touchpad advertises and which frames it may send.
use crate::error::Error;
use vstd::prelude::*;

pub mod clock;
pub mod laws;
pub mod router;
pub mod state;
pub mod virtual_pad;

verus! {

/// The key that is held while any finger touches the pad.
pub const TOUCH: u16 = 330;

/// The key that is held while exactly one finger touches the pad.
pub const TOOL_FINGER: u16 = 325;

/// Selects the contact that the following values belong to.
pub const SLOT: u16 = 47;

/// The identity of a contact; negative while the contact is lifted.
pub const TRACKING: u16 = 57;

/// Axis bounds lie between the negative and the positive of this value.
pub const AXIS_LIMIT: i32 = 1_000_000;

/// Axis calibration values lie between zero and this value.
pub const CALIBRATION_LIMIT: i32 = 100_000;

pub const MAX_FRAME_EVENTS: usize = 512;

pub const MAX_CONTACTS: i32 = 32;

/// The name under which a virtual touchpad is announced.
pub const DEVICE_NAME: &'static str = "NiriBridge Virtual Touchpad";

pub open spec fn is_touch_key(code: u16) -> bool {
    ||| 272 <= code <= 274
    ||| code == TOOL_FINGER
    ||| code == 328
    ||| code == TOUCH
    ||| 333 <= code <= 335
}

pub open spec fn is_touch_axis(code: u16) -> bool {
    ||| code == 0
    ||| code == 1
    ||| code == 24
    ||| code == 28
    ||| SLOT <= code <= 61
}

pub fn touch_key(code: u16) -> (r: bool)
    ensures
        r == is_touch_key(code),
{
    (272 <= code && code <= 274) || code == TOOL_FINGER || code == 328 || code == TOUCH || (333
        <= code && code <= 335)
}

pub fn touch_axis(code: u16) -> (r: bool)
    ensures
        r == is_touch_axis(code),
{
    code == 0 || code == 1 || code == 24 || code == 28 || (SLOT <= code && code <= 61)
}

/// One absolute axis of a touchpad.
#[derive(Clone, Copy, PartialEq, Eq, Structural)]
pub struct AxisInfo {
    pub code: u16,
    pub minimum: i32,
    pub maximum: i32,
    pub fuzz: i32,
    pub flat: i32,
    pub resolution: i32,
}

impl AxisInfo {
    pub open spec fn range_valid(self) -> bool {
        -AXIS_LIMIT <= self.minimum <= self.maximum <= AXIS_LIMIT
    }

    pub open spec fn calibration_valid(self) -> bool {
        &&& 0 <= self.fuzz <= CALIBRATION_LIMIT
        &&& 0 <= self.flat <= CALIBRATION_LIMIT
        &&& 0 <= self.resolution <= CALIBRATION_LIMIT
    }
}

/// What a touchpad advertises: keys, properties and axes.
pub struct Descriptor {
    pub keys: Vec<u16>,
    pub properties: Vec<u16>,
    pub axes: Vec<AxisInfo>,
}

/// The first axis with a code.
pub open spec fn find_axis(axes: Seq<AxisInfo>, code: u16) -> Option<AxisInfo>
    decreases axes.len(),
{
    if axes.len() == 0 {
        None
    } else if axes[0].code == code {
        Some(axes[0])
    } else {
        find_axis(axes.drop_first(), code)
    }
}

pub open spec fn has_axis(axes: Seq<AxisInfo>, code: u16) -> bool {
    exists|i: int| 0 <= i < axes.len() && (#[trigger] axes[i]).code == code
}

pub open spec fn allowed_property(property: u16) -> bool {
    property == 0 || property == 2 || property == 3 || property == 4 || property == 6
}

/// What is wrong with the axis at an index, the axes before it being in order.
pub open spec fn axis_problem(axes: Seq<AxisInfo>, index: int) -> Option<Error> {
    let axis = axes[index];
    if !is_touch_axis(axis.code) || has_axis(axes.take(index), axis.code) {
        Some(Error::UnsupportedAxis)
    } else if !axis.range_valid() {
        Some(Error::InvalidAxisRange)
    } else if !axis.calibration_valid() {
        Some(Error::InvalidAxisCalibration)
    } else {
        None
    }
}

/// What is wrong with the first axis, from an index on, with which anything is wrong.
pub open spec fn first_axis_problem(axes: Seq<AxisInfo>, from: int) -> Option<Error>
    decreases axes.len() - from,
{
    if from < 0 || from >= axes.len() {
        None
    } else if axis_problem(axes, from) is Some {
        axis_problem(axes, from)
    } else {
        first_axis_problem(axes, from + 1)
    }
}

pub open spec fn keys_supported(keys: Seq<u16>) -> bool {
    &&& 2 <= keys.len() <= 16
    &&& forall|i: int| 0 <= i < keys.len() ==> is_touch_key(#[trigger] keys[i])
}

pub open spec fn properties_supported(properties: Seq<u16>) -> bool {
    &&& properties.len() <= 5
    &&& properties.contains(0)
    &&& forall|i: int| 0 <= i < properties.len() ==> allowed_property(#[trigger] properties[i])
}

pub open spec fn multi_touch(axes: Seq<AxisInfo>) -> bool {
    &&& has_axis(axes, 0)
    &&& has_axis(axes, 1)
    &&& has_axis(axes, SLOT)
    &&& has_axis(axes, 53)
    &&& has_axis(axes, 54)
    &&& has_axis(axes, TRACKING)
}

pub open spec fn contact_count_supported(axes: Seq<AxisInfo>) -> bool {
    match find_axis(axes, SLOT) {
        Some(slot) => slot.minimum == 0 && 0 <= slot.maximum < MAX_CONTACTS,
        None => false,
    }
}

/// The first reason, in the order of the checks, for which a touchpad that advertises these keys,
/// properties and axes cannot be shared.
pub open spec fn touchpad_problem(
    keys: Seq<u16>,
    properties: Seq<u16>,
    axes: Seq<AxisInfo>,
) -> Option<Error> {
    if !keys_supported(keys) {
        Some(Error::UnsupportedTouchpadKeys)
    } else if !keys.no_duplicates() {
        Some(Error::DuplicateTouchpadKey)
    } else if !keys.contains(TOUCH) || !keys.contains(TOOL_FINGER) {
        Some(Error::MissingContactKeys)
    } else if !properties_supported(properties) {
        Some(Error::UnsupportedTouchpadProperties)
    } else if !(4 <= axes.len() <= 20) {
        Some(Error::InvalidAxisCount)
    } else if first_axis_problem(axes, 0) is Some {
        first_axis_problem(axes, 0)
    } else if !multi_touch(axes) {
        Some(Error::NotMultiTouch)
    } else if !contact_count_supported(axes) {
        Some(Error::UnsupportedContactCount)
    } else {
        None
    }
}

impl Descriptor {
    /// A touchpad that can be shared.
    pub open spec fn valid(self) -> bool {
        &&& keys_supported(self.keys@)
        &&& self.keys@.no_duplicates()
        &&& self.keys@.contains(TOUCH)
        &&& self.keys@.contains(TOOL_FINGER)
        &&& properties_supported(self.properties@)
        &&& 4 <= self.axes@.len() <= 20
        &&& forall|i: int|
            0 <= i < self.axes@.len() ==> {
                &&& is_touch_axis((#[trigger] self.axes@[i]).code)
                &&& self.axes@[i].range_valid()
                &&& self.axes@[i].calibration_valid()
            }
        &&& forall|i: int, j: int|
            0 <= i < j < self.axes@.len() ==> (#[trigger] self.axes@[i]).code != (
            #[trigger] self.axes@[j]).code
        &&& multi_touch(self.axes@)
        &&& contact_count_supported(self.axes@)
    }

    /// The first reason, in the order of the checks, for which a touchpad cannot be shared.
    pub open spec fn problem(self) -> Option<Error> {
        touchpad_problem(self.keys@, self.properties@, self.axes@)
    }

    /// The number of contacts that a valid touchpad can follow.
    pub open spec fn contact_count(self) -> nat {
        match find_axis(self.axes@, SLOT) {
            Some(slot) => (slot.maximum + 1) as nat,
            None => 0,
        }
    }

    fn keys_are_supported(&self) -> (r: bool)
        ensures
            r == keys_supported(self.keys@),
    {
        if self.keys.len() < 2 || self.keys.len() > 16 {
            return false;
        }
        for i in 0..self.keys.len()
            invariant
                forall|j: int| 0 <= j < i ==> is_touch_key(#[trigger] self.keys@[j]),
        {
            if !touch_key(self.keys[i]) {
                return false;
            }
        }
        true
    }

    fn keys_are_distinct(&self) -> (r: bool)
        ensures
            r == self.keys@.no_duplicates(),
    {
        for i in 0..self.keys.len()
            invariant
                forall|a: int, b: int|
                    0 <= a < i && 0 <= b < self.keys@.len() && a != b ==> self.keys@[a]
                        != self.keys@[b],
        {
            for j in 0..self.keys.len()
                invariant
                    i < self.keys@.len(),
                    forall|b: int| 0 <= b < j && i != b ==> self.keys@[i as int] != self.keys@[b],
            {
                if i != j && self.keys[i] == self.keys[j] {
                    return false;
                }
            }
        }
        true
    }

    fn properties_are_supported(&self) -> (r: bool)
        ensures
            r == properties_supported(self.properties@),
    {
        if self.properties.len() > 5 || !contains_code(&self.properties, 0) {
            return false;
        }
        for i in 0..self.properties.len()
            invariant
                forall|j: int| 0 <= j < i ==> allowed_property(#[trigger] self.properties@[j]),
        {
            let property: u16 = self.properties[i];
            if !(property == 0 || property == 2 || property == 3 || property == 4 || property == 6) {
                return false;
            }
        }
        true
    }

    fn check_axes(&self) -> (r: Result<(), Error>)
        ensures
            match first_axis_problem(self.axes@, 0) {
                Some(e) => r == Err::<(), Error>(e),
                None => r is Ok,
            },
    {
        for i in 0..self.axes.len()
            invariant
                first_axis_problem(self.axes@, 0) == first_axis_problem(self.axes@, i as int),
        {
            let axis: AxisInfo = self.axes[i];
            let mut repeated = false;
            for j in 0..i
                invariant
                    i < self.axes@.len(),
                    axis == self.axes@[i as int],
                    repeated == has_axis(self.axes@.take(j as int), axis.code),
            {
                proof {
                    let before = self.axes@.take(j as int);
                    let after = self.axes@.take(j + 1);
                    assert(after[j as int] == self.axes@[j as int]);
                    if has_axis(before, axis.code) {
                        let k = choose|k: int|
                            0 <= k < before.len() && (#[trigger] before[k]).code == axis.code;
                        assert(after[k] == before[k]);
                    }
                    if has_axis(after, axis.code) {
                        let k = choose|k: int|
                            0 <= k < after.len() && (#[trigger] after[k]).code == axis.code;
                        if k < j {
                            assert(before[k] == after[k]);
                        }
                    }
                }
                if self.axes[j].code == axis.code {
                    repeated = true;
                }
            }
            if !touch_axis(axis.code) || repeated {
                return Err(Error::UnsupportedAxis);
            }
            if !(-AXIS_LIMIT <= axis.minimum && axis.minimum <= axis.maximum && axis.maximum
                <= AXIS_LIMIT) {
                return Err(Error::InvalidAxisRange);
            }
            if !(0 <= axis.fuzz && axis.fuzz <= CALIBRATION_LIMIT && 0 <= axis.flat && axis.flat
                <= CALIBRATION_LIMIT && 0 <= axis.resolution && axis.resolution
                <= CALIBRATION_LIMIT) {
                return Err(Error::InvalidAxisCalibration);
            }
        }
        Ok(())
    }

    fn advertises_axis(&self, code: u16) -> (r: bool)
        ensures
            r == has_axis(self.axes@, code),
    {
        for i in 0..self.axes.len()
            invariant
                forall|j: int| 0 <= j < i ==> (#[trigger] self.axes@[j]).code != code,
        {
            if self.axes[i].code == code {
                assert(self.axes@[i as int].code == code);
                return true;
            }
        }
        false
    }

    /// Looks up an axis by its code; the first one counts.
    pub fn axis(&self, code: u16) -> (r: Option<AxisInfo>)
        ensures
            r == find_axis(self.axes@, code),
    {
        let mut i: usize = 0;
        assert(self.axes@.skip(0) == self.axes@);
        while i < self.axes.len()
            invariant
                i <= self.axes@.len(),
                find_axis(self.axes@, code) == find_axis(self.axes@.skip(i as int), code),
            decreases self.axes@.len() - i,
        {
            assert(self.axes@.skip(i as int).drop_first() == self.axes@.skip(i + 1));
            if self.axes[i].code == code {
                return Some(self.axes[i]);
            }
            i = i + 1;
        }
        None
    }

    /// Accepts a touchpad that can be shared.
    pub fn validate(&self) -> (r: Result<(), Error>)
        ensures
            r is Ok <==> self.valid(),
            match self.problem() {
                Some(e) => r == Err::<(), Error>(e),
                None => r is Ok,
            },
    {
        proof {
            lemma_problem_iff_invalid(*self);
        }
        if !self.keys_are_supported() {
            return Err(Error::UnsupportedTouchpadKeys);
        }
        if !self.keys_are_distinct() {
            return Err(Error::DuplicateTouchpadKey);
        }
        if !contains_code(&self.keys, TOUCH) || !contains_code(&self.keys, TOOL_FINGER) {
            return Err(Error::MissingContactKeys);
        }
        if !self.properties_are_supported() {
            return Err(Error::UnsupportedTouchpadProperties);
        }
        if self.axes.len() < 4 || self.axes.len() > 20 {
            return Err(Error::InvalidAxisCount);
        }
        match self.check_axes() {
            Err(e) => return Err(e),
            Ok(()) => {},
        }
        if !(self.advertises_axis(0) && self.advertises_axis(1) && self.advertises_axis(SLOT)
            && self.advertises_axis(53) && self.advertises_axis(54) && self.advertises_axis(
            TRACKING,
        )) {
            return Err(Error::NotMultiTouch);
        }
        match self.axis(SLOT) {
            Some(slot) => if slot.minimum == 0 && 0 <= slot.maximum && slot.maximum < MAX_CONTACTS {
                Ok(())
            } else {
                Err(Error::UnsupportedContactCount)
            },
            None => Err(Error::UnsupportedContactCount),
        }
    }

    /// The number of contacts that the touchpad follows.
    pub fn slots(&self) -> (r: usize)
        requires
            self.valid(),
        ensures
            r == self.contact_count(),
            1 <= r <= MAX_CONTACTS,
    {
        match self.axis(SLOT) {
            Some(slot) => (slot.maximum + 1) as usize,
            None => 0,
        }
    }
}

/// What the host reports of an input device.
pub struct DeviceInfo {
    pub keys: Option<Vec<u16>>,
    pub properties: Vec<u16>,
    pub axes: Vec<AxisInfo>,
}

/// The codes that are touchpad keys, in order.
pub open spec fn touch_keys(codes: Seq<u16>) -> Seq<u16> {
    codes.filter(|code: u16| is_touch_key(code))
}

/// The first reason, in the order of the checks, for which a device cannot be shared as a touchpad.
/// Keys that a touchpad does not have are left out.
pub open spec fn device_problem(device: DeviceInfo) -> Option<Error> {
    match device.keys {
        None => Some(Error::TouchpadKeysMissing),
        Some(keys) => touchpad_problem(touch_keys(keys@), device.properties@, device.axes@),
    }
}

/// A touchpad whose device advertises these keys, properties and axes.
pub open spec fn describes(d: Descriptor, device: DeviceInfo) -> bool {
    &&& device.keys matches Some(keys) && d.keys@ == touch_keys(keys@)
    &&& d.properties@ == device.properties@
    &&& d.axes@ == device.axes@
}

pub(crate) fn keep_touch_keys(codes: &Vec<u16>) -> (r: Vec<u16>)
    ensures
        r@ == touch_keys(codes@),
{
    let mut kept: Vec<u16> = Vec::new();
    assert(codes@.take(0).filter(|code: u16| is_touch_key(code)) =~= Seq::<u16>::empty()) by {
        reveal(Seq::filter);
    }
    for i in 0..codes.len()
        invariant
            kept@ == touch_keys(codes@.take(i as int)),
    {
        proof {
            reveal(Seq::filter);
            assert(codes@.take(i + 1).drop_last() == codes@.take(i as int));
        }
        if touch_key(codes[i]) {
            kept.push(codes[i]);
        }
    }
    assert(codes@.take(codes@.len() as int) == codes@);
    kept
}

impl Descriptor {
    /// Two touchpads that advertise the same.
    pub open spec fn same(self, other: Descriptor) -> bool {
        &&& self.keys@ == other.keys@
        &&& self.properties@ == other.properties@
        &&& self.axes@ == other.axes@
    }

    /// Reads what a device advertises, leaving out keys that a touchpad does not have.
    pub fn from_device(device: &DeviceInfo) -> (r: Result<Descriptor, Error>)
        ensures
            match device_problem(*device) {
                Some(e) => r == Err::<Descriptor, Error>(e),
                None => r matches Ok(d) && d.valid() && describes(d, *device),
            },
    {
        match &device.keys {
            None => Err(Error::TouchpadKeysMissing),
            Some(keys) => {
                let value = Descriptor {
                    keys: keep_touch_keys(keys),
                    properties: device.properties.clone(),
                    axes: copy_axes(&device.axes),
                };
                match value.validate() {
                    Ok(()) => Ok(value),
                    Err(e) => Err(e),
                }
            },
        }
    }
}

fn copy_axes(axes: &Vec<AxisInfo>) -> (r: Vec<AxisInfo>)
    ensures
        r@ == axes@,
{
    let mut copy: Vec<AxisInfo> = Vec::new();
    for i in 0..axes.len()
        invariant
            copy@ == axes@.take(i as int),
    {
        copy.push(axes[i]);
        assert(axes@.take(i + 1) == axes@.take(i as int).push(axes@[i as int]));
    }
    assert(axes@.take(axes@.len() as int) == axes@);
    copy
}

impl Clone for Descriptor {
    fn clone(&self) -> (r: Descriptor)
        ensures
            r.same(*self),
    {
        Descriptor {
            keys: self.keys.clone(),
            properties: self.properties.clone(),
            axes: copy_axes(&self.axes),
        }
    }
}

#[derive(Clone, Copy, PartialEq, Eq, Structural)]
pub enum Kind {
    Key,
    Absolute,
}

/// One value of a touchpad frame.
#[derive(Clone, Copy, PartialEq, Eq, Structural)]
pub struct Event {
    pub kind: Kind,
    pub code: u16,
    pub value: i32,
}

/// One time-stamped record in the layout of the input subsystem.
#[derive(Clone, Copy, PartialEq, Eq, Structural)]
pub struct KernelEvent {
    pub seconds: u64,
    pub microseconds: u64,
    pub event_type: u16,
    pub code: u16,
    pub value: i32,
}

pub type CapturedFrame = (u8, u64, Vec<Event>);

impl Event {
    #[verifier::allow_in_spec]
    pub fn key(code: u16, value: i32) -> Event
        returns
            (Event { kind: Kind::Key, code, value }),
    {
        Event { kind: Kind::Key, code, value }
    }

    #[verifier::allow_in_spec]
    pub fn abs(code: u16, value: i32) -> Event
        returns
            (Event { kind: Kind::Absolute, code, value }),
    {
        Event { kind: Kind::Absolute, code, value }
    }

    pub fn kernel(&self, time_us: u64) -> (r: KernelEvent)
        ensures
            r.seconds * 1_000_000 + r.microseconds == time_us,
            r.microseconds < 1_000_000,
            r.event_type == (if self.kind == Kind::Key {
                1u16
            } else {
                3u16
            }),
            r.code == self.code,
            r.value == self.value,
    {
        KernelEvent {
            seconds: time_us / 1_000_000,
            microseconds: time_us % 1_000_000,
            event_type: match self.kind {
                Kind::Key => 1,
                Kind::Absolute => 3,
            },
            code: self.code,
            value: self.value,
        }
    }

    /// A value that some touchpad can send.
    pub open spec fn plausible(self) -> bool {
        match self.kind {
            Kind::Key => is_touch_key(self.code) && 0 <= self.value <= 1,
            Kind::Absolute => is_touch_axis(self.code) && -AXIS_LIMIT <= self.value <= AXIS_LIMIT,
        }
    }
}

pub open spec fn frame_plausible(events: Seq<Event>) -> bool {
    &&& 1 <= events.len() <= MAX_FRAME_EVENTS
    &&& forall|i: int| 0 <= i < events.len() ==> (#[trigger] events[i]).plausible()
}

/// Accepts a frame that some touchpad can send.
pub fn validate_frame(events: &[Event]) -> (r: Result<(), Error>)
    ensures
        r is Ok <==> frame_plausible(events@),
        r matches Err(e) ==> e == (if 1 <= events@.len() <= MAX_FRAME_EVENTS {
            Error::InvalidTouchEvent
        } else {
            Error::InvalidFrameSize
        }),
{
    if events.len() == 0 || events.len() > MAX_FRAME_EVENTS {
        return Err(Error::InvalidFrameSize);
    }
    for i in 0..events.len()
        invariant
            1 <= events@.len() <= MAX_FRAME_EVENTS,
            forall|j: int| 0 <= j < i ==> (#[trigger] events@[j]).plausible(),
    {
        let e: Event = events[i];
        let plausible = match e.kind {
            Kind::Key => touch_key(e.code) && 0 <= e.value && e.value <= 1,
            Kind::Absolute => touch_axis(e.code) && -AXIS_LIMIT <= e.value && e.value
                <= AXIS_LIMIT,
        };
        if !plausible {
            assert(!events@[i as int].plausible());
            return Err(Error::InvalidTouchEvent);
        }
    }
    Ok(())
}

impl Descriptor {
    /// What keeps this touchpad from sending a plausible value.
    pub open spec fn event_problem(self, event: Event) -> Option<Error> {
        match event.kind {
            Kind::Key => if self.keys@.contains(event.code) {
                None
            } else {
                Some(Error::KeyNotAdvertised)
            },
            Kind::Absolute => match find_axis(self.axes@, event.code) {
                None => Some(Error::AxisNotAdvertised),
                Some(axis) => if axis.minimum <= event.value <= axis.maximum || (event.code
                    == TRACKING && event.value == -1) {
                    None
                } else {
                    Some(Error::ValueOutsideAxis)
                },
            },
        }
    }

    pub open spec fn first_event_problem(self, events: Seq<Event>) -> Option<Error>
        decreases events.len(),
    {
        if events.len() == 0 {
            None
        } else if self.event_problem(events[0]) is Some {
            self.event_problem(events[0])
        } else {
            self.first_event_problem(events.drop_first())
        }
    }

    /// A frame that this touchpad can send.
    pub open spec fn frame_valid(self, events: Seq<Event>) -> bool {
        &&& frame_plausible(events)
        &&& forall|i: int|
            0 <= i < events.len() ==> self.event_problem(#[trigger] events[i]) is None
    }

    /// The first reason, in the order of the checks, for which a frame is refused.
    pub open spec fn frame_refusal(self, frame: Seq<Event>) -> Option<Error> {
        if !(1 <= frame.len() <= MAX_FRAME_EVENTS) {
            Some(Error::InvalidFrameSize)
        } else if !frame_plausible(frame) {
            Some(Error::InvalidTouchEvent)
        } else {
            self.first_event_problem(frame)
        }
    }

    /// Accepts a frame that this touchpad can send.
    pub fn validate_frame(&self, frame: &[Event]) -> (r: Result<(), Error>)
        ensures
            r is Ok <==> self.frame_valid(frame@),
            match self.frame_refusal(frame@) {
                Some(e) => r == Err::<(), Error>(e),
                None => r is Ok,
            },
    {
        match validate_frame(frame) {
            Err(e) => return Err(e),
            Ok(()) => {},
        }
        assert(frame@.skip(0) == frame@);
        for i in 0..frame.len()
            invariant
                frame_plausible(frame@),
                forall|j: int| 0 <= j < i ==> self.event_problem(#[trigger] frame@[j]) is None,
                self.first_event_problem(frame@) == self.first_event_problem(
                    frame@.skip(i as int),
                ),
        {
            assert(frame@.skip(i as int).drop_first() == frame@.skip(i + 1));
            let event: Event = frame[i];
            assert(event == frame@[i as int]);
            match event.kind {
                Kind::Key => if !contains_code(&self.keys, event.code) {
                    return Err(Error::KeyNotAdvertised);
                },
                Kind::Absolute => match self.axis(event.code) {
                    None => return Err(Error::AxisNotAdvertised),
                    Some(axis) => if !((axis.minimum <= event.value && event.value <= axis.maximum)
                        || (event.code == TRACKING && event.value == -1)) {
                        return Err(Error::ValueOutsideAxis);
                    },
                },
            }
        }
        Ok(())
    }
}

pub proof fn lemma_find_axis(axes: Seq<AxisInfo>, code: u16)
    ensures
        find_axis(axes, code) is Some <==> has_axis(axes, code),
        find_axis(axes, code) matches Some(a) ==> a.code == code && axes.contains(a),
    decreases axes.len(),
{
    if axes.len() > 0 {
        let rest = axes.drop_first();
        lemma_find_axis(rest, code);
        if axes[0].code != code {
            if has_axis(axes, code) {
                let i = choose|i: int| 0 <= i < axes.len() && (#[trigger] axes[i]).code == code;
                assert(rest[i - 1].code == code);
            }
            if has_axis(rest, code) {
                let i = choose|i: int| 0 <= i < rest.len() && (#[trigger] rest[i]).code == code;
                assert(axes[i + 1].code == code);
                let a = find_axis(rest, code)->0;
                let k = choose|k: int| 0 <= k < rest.len() && rest[k] == a;
                assert(axes[k + 1] == a);
            }
        } else {
            assert(axes.contains(axes[0]));
        }
    }
}

proof fn lemma_first_axis_problem(axes: Seq<AxisInfo>, from: int)
    requires
        0 <= from,
    ensures
        first_axis_problem(axes, from) is None <==> (forall|i: int|
            from <= i < axes.len() ==> #[trigger] axis_problem(axes, i) is None),
    decreases axes.len() - from,
{
    if from < axes.len() {
        lemma_first_axis_problem(axes, from + 1);
        if axis_problem(axes, from) is Some {
        } else if first_axis_problem(axes, from + 1) is None {
            assert forall|i: int| from <= i < axes.len() implies #[trigger] axis_problem(
                axes,
                i,
            ) is None by {
                if i > from {
                    assert(axis_problem(axes, i) is None);
                }
            }
        }
    }
}

/// A touchpad is refused exactly when something is wrong with it.
pub proof fn lemma_problem_iff_invalid(d: Descriptor)
    ensures
        d.problem() is None <==> d.valid(),
{
    let axes = d.axes@;
    lemma_first_axis_problem(axes, 0);
    if first_axis_problem(axes, 0) is None {
        assert forall|i: int| 0 <= i < axes.len() implies {
            &&& is_touch_axis((#[trigger] axes[i]).code)
            &&& axes[i].range_valid()
            &&& axes[i].calibration_valid()
        } by {
            assert(axis_problem(axes, i) is None);
        }
        assert forall|i: int, j: int| 0 <= i < j < axes.len() implies (#[trigger] axes[i]).code != (
        #[trigger] axes[j]).code by {
            assert(axis_problem(axes, j) is None);
            assert(axes.take(j)[i] == axes[i]);
        }
    }
    if d.valid() {
        assert forall|i: int| 0 <= i < axes.len() implies #[trigger] axis_problem(
            axes,
            i,
        ) is None by {
            if has_axis(axes.take(i), axes[i].code) {
                let k = choose|k: int|
                    0 <= k < axes.take(i).len() && (#[trigger] axes.take(i)[k]).code
                        == axes[i].code;
                assert(axes.take(i)[k] == axes[k]);
            }
        }
    }
}

pub fn contains_code(codes: &Vec<u16>, code: u16) -> (r: bool)
    ensures
        r == codes@.contains(code),
{
    for i in 0..codes.len()
        invariant
            forall|j: int| 0 <= j < i ==> codes@[j] != code,
    {
        if codes[i] == code {
            return true;
        }
    }
    false
}

} // verus!
