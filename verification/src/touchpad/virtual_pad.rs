//! The touchpad that stands in for a real one towards the compositor.
use super::clock::RemoteClock;
use super::state::TouchState;
use super::{Descriptor, Event, KernelEvent, TRACKING};
use crate::error::Error;
use vstd::prelude::*;

verus! {

/// Frames older than this many microseconds are not emitted any more.
pub const MAX_FRAME_AGE_US: u64 = 200_000;

/// The initial value and the limits of one axis of a new device.
#[derive(Clone, Copy, PartialEq, Eq, Structural)]
pub struct AxisSetup {
    pub value: i32,
    pub axis: super::AxisInfo,
}

/// What a virtual touchpad keeps beside its device.
pub struct VirtualTouchpad {
    pub descriptor: Descriptor,
    pub state: TouchState,
    pub remote_clock: RemoteClock,
    pub last_time: u64,
}

/// A frame that is ready for the device, and the time that it carries.
pub struct Emission {
    pub time_us: u64,
    pub records: Vec<KernelEvent>,
}

pub open spec fn stamped(record: KernelEvent, event: Event, time_us: u64) -> bool {
    &&& record.seconds * 1_000_000 + record.microseconds == time_us
    &&& record.microseconds < 1_000_000
    &&& record.event_type == (if event.kind == super::Kind::Key {
        1u16
    } else {
        3u16
    })
    &&& record.code == event.code
    &&& record.value == event.value
}

pub open spec fn all_stamped(records: Seq<KernelEvent>, events: Seq<Event>, time_us: u64) -> bool {
    &&& records.len() == events.len()
    &&& forall|i: int|
        0 <= i < events.len() ==> stamped(#[trigger] records[i], events[i], time_us)
}

impl VirtualTouchpad {
    pub open spec fn wf(self) -> bool {
        &&& self.descriptor.valid()
        &&& super::laws::fits(self.descriptor, self.state@)
        &&& self.remote_clock.wf()
    }

    /// The frame was accepted too late, or claims a time that has not come yet.
    pub open spec fn untimely(time_us: u64, now: u64) -> bool {
        time_us > now || now - time_us > MAX_FRAME_AGE_US
    }

    /// The time that a frame carries: never before the frame that came before it.
    pub open spec fn emission_time(self, time_us: u64, now: u64) -> int {
        super::clock::smaller(
            super::clock::larger(time_us as int, self.last_time as int),
            now as int,
        )
    }

    pub fn create(descriptor: &Descriptor) -> (r: Result<VirtualTouchpad, Error>)
        ensures
            match descriptor.problem() {
                Some(e) => r == Err::<VirtualTouchpad, Error>(e),
                None => r is Ok,
            },
            r matches Ok(pad) ==> {
                &&& pad.wf()
                &&& pad.descriptor.same(*descriptor)
                &&& pad.state@ == super::state::untouched(*descriptor)
                &&& pad.remote_clock.offset is None
                &&& pad.last_time == 0
            },
    {
        match descriptor.validate() {
            Err(e) => Err(e),
            Ok(()) => {
                let copy = descriptor.clone();
                proof {
                    super::laws::lemma_untouched_fits(copy);
                }
                Ok(
                    VirtualTouchpad {
                        state: TouchState::new(descriptor),
                        descriptor: copy,
                        remote_clock: RemoteClock::default(),
                        last_time: 0,
                    },
                )
            },
        }
    }

    /// The axes that the device is created with: every contact starts out lifted.
    pub fn axis_setup(descriptor: &Descriptor) -> (r: Vec<AxisSetup>)
        ensures
            r@.len() == descriptor.axes@.len(),
            forall|i: int|
                0 <= i < r@.len() ==> #[trigger] r@[i] == (AxisSetup {
                    value: if descriptor.axes@[i].code == TRACKING {
                        (-1) as i32
                    } else {
                        descriptor.axes@[i].minimum
                    },
                    axis: descriptor.axes@[i],
                }),
    {
        let mut list: Vec<AxisSetup> = Vec::new();
        for i in 0..descriptor.axes.len()
            invariant
                list@.len() == i,
                forall|j: int|
                    0 <= j < i ==> #[trigger] list@[j] == (AxisSetup {
                        value: if descriptor.axes@[j].code == TRACKING {
                            (-1) as i32
                        } else {
                            descriptor.axes@[j].minimum
                        },
                        axis: descriptor.axes@[j],
                    }),
        {
            let axis = descriptor.axes[i];
            let value: i32 = if axis.code == TRACKING {
                -1
            } else {
                axis.minimum
            };
            list.push(AxisSetup { value, axis });
        }
        list
    }

    /// Prepares a frame of a local time for the device.
    pub fn emit_at(&self, events: &[Event], time_us: u64, now: u64) -> (r: Result<Emission, Error>)
        requires
            self.wf(),
        ensures
            match self.descriptor.frame_refusal(events@) {
                Some(e) => r == Err::<Emission, Error>(e),
                None => if Self::untimely(time_us, now) {
                    r == Err::<Emission, Error>(Error::TouchpadDelayed)
                } else {
                    r is Ok
                },
            },
            r matches Ok(emission) ==> {
                &&& self.descriptor.frame_valid(events@)
                &&& emission.time_us == self.emission_time(time_us, now)
                &&& all_stamped(emission.records@, events@, emission.time_us)
            },
    {
        match self.descriptor.validate_frame(events) {
            Err(e) => return Err(e),
            Ok(()) => {},
        }
        if time_us > now || now - time_us > MAX_FRAME_AGE_US {
            return Err(Error::TouchpadDelayed);
        }
        let ordered: u64 = if time_us >= self.last_time {
            time_us
        } else {
            self.last_time
        };
        let time: u64 = if ordered <= now {
            ordered
        } else {
            now
        };
        let mut records: Vec<KernelEvent> = Vec::new();
        for i in 0..events.len()
            invariant
                records@.len() == i,
                forall|j: int| 0 <= j < i ==> stamped(#[trigger] records@[j], events@[j], time),
        {
            records.push(events[i].kernel(time));
        }
        Ok(Emission { time_us: time, records })
    }

    /// Prepares a frame of another computer, which came in at `arrival`, for the device.
    pub fn emit_remote(&mut self, events: &[Event], time_us: u64, arrival: u64, now: u64) -> (r:
        Result<Emission, Error>)
        requires
            old(self).wf(),
        ensures
            final(self).wf(),
            final(self).descriptor == old(self).descriptor,
            final(self).state == old(self).state,
            final(self).last_time == old(self).last_time,
            final(self).remote_clock.offset matches Some(offset) && offset
                == old(self).remote_clock.next_offset(time_us, arrival),
            final(self).remote_clock.last == old(self).remote_clock.local_time(time_us, arrival),
            ({
                let local = old(self).remote_clock.local_time(time_us, arrival) as u64;
                &&& match old(self).descriptor.frame_refusal(events@) {
                    Some(e) => r == Err::<Emission, Error>(e),
                    None => if Self::untimely(local, now) {
                        r == Err::<Emission, Error>(Error::TouchpadDelayed)
                    } else {
                        r is Ok
                    },
                }
                &&& r matches Ok(emission) ==> {
                    &&& old(self).descriptor.frame_valid(events@)
                    &&& emission.time_us == old(self).emission_time(local, now)
                    &&& all_stamped(emission.records@, events@, emission.time_us)
                }
            }),
    {
        let local: u64 = self.remote_clock.map(time_us, arrival);
        self.emit_at(events, local, now)
    }

    /// Takes over a frame that the device has accepted.
    pub fn emitted(&mut self, events: &[Event], time_us: u64)
        requires
            old(self).wf(),
            old(self).descriptor.frame_valid(events@),
        ensures
            final(self).wf(),
            final(self).descriptor == old(self).descriptor,
            final(self).remote_clock == old(self).remote_clock,
            final(self).last_time == time_us,
            final(self).state@ == old(self).state@.apply(events@),
    {
        proof {
            super::laws::lemma_accepted_frames_select_existing(self.descriptor, events@);
            super::laws::lemma_apply_fits(self.descriptor, self.state@, events@);
        }
        self.last_time = time_us;
        self.state.apply(events);
    }

    /// The frame that makes the device neutral.
    pub fn releases(&self) -> (r: Vec<Event>)
        requires
            self.wf(),
        ensures
            r@ == self.state@.releases(),
            self.descriptor.frame_valid(r@),
    {
        proof {
            super::laws::lemma_releases_are_accepted(self.descriptor, self.state@);
        }
        self.state.releases()
    }

    /// Starts anew after the device has accepted its releases.
    pub fn reset(&mut self)
        requires
            old(self).wf(),
        ensures
            final(self).wf(),
            final(self).descriptor == old(self).descriptor,
            final(self).last_time == old(self).last_time,
            final(self).state@ == super::state::untouched(old(self).descriptor),
            final(self).remote_clock.offset is None,
            final(self).remote_clock.last == 0,
    {
        proof {
            super::laws::lemma_untouched_fits(self.descriptor);
        }
        self.state = TouchState::new(&self.descriptor);
        self.remote_clock = RemoteClock::default();
    }
}

} // verus!
