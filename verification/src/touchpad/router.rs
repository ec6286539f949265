//! Mirrors touchpads locally while idle and forwards the same native touch data while sharing.
//! A touchpad is taken over only with all fingers and buttons up, so the compositor's device is
//! neutral.
use super::state::{DeviceReading, TouchState};
use super::virtual_pad::{Emission, VirtualTouchpad};
use super::{touch_axis, touch_key, CapturedFrame, Descriptor, DeviceInfo, Event};
use crate::error::Error;
use vstd::prelude::*;

verus! {

pub const MAX_TOUCHPADS: usize = 4;

/// Frames that wait to be forwarded.
pub const MAX_PENDING_FRAMES: usize = 128;

/// Values that may be read from a touchpad in one go.
pub const MAX_QUEUED_EVENTS: usize = 4096;

/// The name that virtual devices carry in their physical path.
pub const VIRTUAL_PATH: &'static str = "niri-bridge/";

/// One record of a touchpad with the time at which the device reported it.
#[derive(Clone, Copy, PartialEq, Eq, Structural)]
pub struct RawEvent {
    pub event_type: u16,
    pub code: u16,
    pub value: i32,
    pub time_us: u64,
}

/// A shared touchpad without its device.
pub struct PhysicalTouchpad {
    pub descriptor: Descriptor,
    pub state: TouchState,
    pub mirror: VirtualTouchpad,
    pub grabbed: bool,
    pub frame: Vec<Event>,
}

impl PhysicalTouchpad {
    pub open spec fn wf(self) -> bool {
        &&& self.descriptor.valid()
        &&& self.state@.wf()
        &&& self.state@.contacts.len() == self.descriptor.contact_count()
        &&& self.mirror.wf()
        &&& self.mirror.descriptor.same(self.descriptor)
    }
}

/// A finished frame that is to be written to the local mirror.
pub struct MirrorFrame {
    pub frame: Vec<Event>,
    pub emission: Emission,
}

/// What came of one record: whether it counts as local activity, and what is left to do.
pub struct Sampled {
    pub active: bool,
    pub mirror: Option<MirrorFrame>,
}

pub struct Router {
    pub pads: Vec<PhysicalTouchpad>,
    pub remote: bool,
    pub pending: Vec<CapturedFrame>,
}

/// A captured frame by its contents.
pub open spec fn frame_view(frame: CapturedFrame) -> (u8, u64, Seq<Event>) {
    (frame.0, frame.1, frame.2@)
}

pub open spec fn frame_views(frames: Seq<CapturedFrame>) -> Seq<(u8, u64, Seq<Event>)> {
    frames.map_values(|frame: CapturedFrame| frame_view(frame))
}

/// The value that a record adds to the current frame.
pub open spec fn frame_value(event: RawEvent) -> Option<Event> {
    if event.event_type == 1 && super::is_touch_key(event.code) && event.value != 2 {
        Some(Event::key(event.code, event.value))
    } else if event.event_type == 3 && super::is_touch_axis(event.code) {
        Some(Event::abs(event.code, event.value))
    } else {
        None
    }
}

/// The device lost records.
pub open spec fn reports_loss(event: RawEvent) -> bool {
    event.event_type == 0 && event.code == 3
}

/// The device has finished a frame.
pub open spec fn ends_frame(event: RawEvent) -> bool {
    event.event_type == 0 && event.code == 0
}

pub open spec fn is_touchpad(device: DeviceInfo) -> bool {
    &&& device.properties@.contains(0)
    &&& !device.properties@.contains(1)
    &&& device.keys matches Some(keys) && keys@.contains(super::TOOL_FINGER)
}

impl Router {
    pub open spec fn wf(self) -> bool {
        &&& self.pads@.len() <= MAX_TOUCHPADS
        &&& self.pending@.len() <= MAX_PENDING_FRAMES
        &&& forall|i: int| 0 <= i < self.pads@.len() ==> (#[trigger] self.pads@[i]).wf()
    }

    pub fn new() -> (r: Router)
        ensures
            r.wf(),
            r.pads@.len() == 0,
            !r.remote,
            r.pending@.len() == 0,
    {
        Router { pads: Vec::new(), remote: false, pending: Vec::new() }
    }

    /// Adds a device, unless it is no touchpad: says whether it was added.
    pub fn add_device(&mut self, device: &DeviceInfo, physical_path: Option<&str>) -> (r: Result<
        bool,
        Error,
    >)
        requires
            old(self).wf(),
        ensures
            final(self).wf(),
            final(self).remote == old(self).remote,
            final(self).pending == old(self).pending,
            r == Ok::<bool, Error>(true) || final(self).pads@ == old(self).pads@,
            ({
                let is_virtual = physical_path matches Some(path) && crate::text::has_prefix(
                    path@,
                    VIRTUAL_PATH@,
                );
                if !is_touchpad(*device) {
                    r == Ok::<bool, Error>(false)
                } else if is_virtual {
                    r == Err::<bool, Error>(Error::VirtualSource)
                } else if old(self).pads@.len() >= MAX_TOUCHPADS {
                    r == Err::<bool, Error>(Error::TooManyTouchpads)
                } else {
                    match super::device_problem(*device) {
                        Some(e) => r == Err::<bool, Error>(e),
                        None => {
                            let pad = final(self).pads@.last();
                            &&& r == Ok::<bool, Error>(true)
                            &&& final(self).pads@.len() == old(self).pads@.len() + 1
                            &&& final(self).pads@.drop_last() == old(self).pads@
                            &&& super::describes(pad.descriptor, *device)
                            &&& pad.state@ == super::state::untouched(pad.descriptor)
                            &&& pad.mirror.descriptor.same(pad.descriptor)
                            &&& pad.mirror.state@ == super::state::untouched(pad.descriptor)
                            &&& pad.mirror.remote_clock.offset is None
                            &&& pad.mirror.last_time == 0
                            &&& !pad.grabbed
                            &&& pad.frame@.len() == 0
                        },
                    }
                }
            }),
    {
        let has_finger = match &device.keys {
            Some(keys) => super::contains_code(keys, super::TOOL_FINGER),
            None => false,
        };
        if !(super::contains_code(&device.properties, 0) && !super::contains_code(
            &device.properties,
            1,
        ) && has_finger) {
            return Ok(false);
        }
        let is_virtual = match physical_path {
            Some(path) => crate::text::starts_with(path, VIRTUAL_PATH),
            None => false,
        };
        if is_virtual {
            return Err(Error::VirtualSource);
        }
        if self.pads.len() >= MAX_TOUCHPADS {
            return Err(Error::TooManyTouchpads);
        }
        let descriptor = match Descriptor::from_device(device) {
            Ok(d) => d,
            Err(e) => return Err(e),
        };
        proof {
            super::lemma_problem_iff_invalid(descriptor);
        }
        let mirror = match VirtualTouchpad::create(&descriptor) {
            Ok(m) => m,
            Err(e) => return Err(e),
        };
        let state = TouchState::new(&descriptor);
        self.pads.push(
            PhysicalTouchpad { descriptor, state, mirror, grabbed: false, frame: Vec::new() },
        );
        assert(self.pads@.drop_last() =~= old(self).pads@);
        Ok(true)
    }

    pub fn descriptors(&self) -> (r: Vec<Descriptor>)
        ensures
            r@.len() == self.pads@.len(),
            forall|i: int| 0 <= i < r@.len() ==> (#[trigger] r@[i]).same(self.pads@[i].descriptor),
    {
        let mut list: Vec<Descriptor> = Vec::new();
        for i in 0..self.pads.len()
            invariant
                list@.len() == i,
                forall|j: int|
                    0 <= j < i ==> (#[trigger] list@[j]).same(self.pads@[j].descriptor),
        {
            list.push(self.pads[i].descriptor.clone());
        }
        list
    }

    /// Whether a device should be acquired now: it is not yet, and neither a finger nor a button
    /// is down. `held` are the keys and buttons that the device reports as held.
    pub fn wants_grab(&self, index: usize, held: &Vec<u16>) -> (r: bool)
        requires
            index < self.pads@.len(),
        ensures
            r == (!self.pads@[index as int].grabbed && held@.len() == 0),
    {
        !self.pads[index].grabbed && held.len() == 0
    }

    /// What one record does to the frame that is being collected.
    pub open spec fn collected(pad: PhysicalTouchpad, event: RawEvent) -> Seq<Event> {
        match frame_value(event) {
            Some(value) => pad.frame@.push(value),
            None => pad.frame@,
        }
    }

    /// Nothing but the touchpad at an index has changed, and of that one only the state and the
    /// frame.
    pub open spec fn only_pad_changed(self, before: Router, index: int) -> bool {
        &&& self.remote == before.remote
        &&& self.pads@ == before.pads@.update(index, self.pads@[index])
        &&& self.pads@[index].descriptor == before.pads@[index].descriptor
        &&& self.pads@[index].mirror == before.pads@[index].mirror
        &&& self.pads@[index].grabbed == before.pads@[index].grabbed
    }

    /// Takes one record of a touchpad at the local time `now`.
    pub fn sample(&mut self, index: usize, event: RawEvent, now: u64) -> (r: Result<Sampled, Error>)
        requires
            old(self).wf(),
            index < old(self).pads@.len(),
        ensures
            final(self).wf(),
            final(self).only_pad_changed(*old(self), index as int),
            r matches Ok(sampled) ==> sampled.active == (old(self).pads@[index as int].grabbed && (
            event.event_type == 1 || event.event_type == 3)),
            ({
                let pad = old(self).pads@[index as int];
                let after = final(self).pads@[index as int];
                let none = r matches Ok(sampled) && sampled.mirror is None;
                if !pad.grabbed {
                    &&& none
                    &&& final(self).pads@ == old(self).pads@
                    &&& final(self).pending == old(self).pending
                } else if reports_loss(event) {
                    &&& r == Err::<Sampled, Error>(Error::TouchpadEventsLost)
                    &&& final(self).pads@ == old(self).pads@
                    &&& final(self).pending == old(self).pending
                } else if !ends_frame(event) || pad.frame@.len() == 0 {
                    &&& after.state == pad.state
                    &&& after.frame@ == Self::collected(pad, event)
                    &&& final(self).pending == old(self).pending
                    &&& if after.frame@.len() > super::MAX_FRAME_EVENTS {
                        r == Err::<Sampled, Error>(Error::FrameTooLarge)
                    } else {
                        none
                    }
                } else if old(self).pending@.len() >= MAX_PENDING_FRAMES {
                    &&& r == Err::<Sampled, Error>(Error::ForwardingQueueFull)
                    &&& final(self).pads@ == old(self).pads@
                    &&& final(self).pending == old(self).pending
                } else if pad.descriptor.frame_refusal(pad.frame@) is Some {
                    &&& r == Err::<Sampled, Error>(pad.descriptor.frame_refusal(pad.frame@)->0)
                    &&& after.state == pad.state
                    &&& after.frame@.len() == 0
                    &&& final(self).pending == old(self).pending
                } else {
                    &&& after.state@ == pad.state@.apply(pad.frame@)
                    &&& after.frame@.len() == 0
                    &&& if old(self).remote {
                        &&& none
                        &&& frame_views(final(self).pending@) == frame_views(
                            old(self).pending@,
                        ).push((index as u8, event.time_us, pad.frame@))
                    } else {
                        &&& final(self).pending == old(self).pending
                        &&& if VirtualTouchpad::untimely(event.time_us, now) {
                            r == Err::<Sampled, Error>(Error::TouchpadDelayed)
                        } else {
                            r matches Ok(Sampled { mirror: Some(m), .. }) && m.frame@ == pad.frame@
                                && m.emission.time_us == pad.mirror.emission_time(
                                event.time_us,
                                now,
                            ) && super::virtual_pad::all_stamped(
                                m.emission.records@,
                                pad.frame@,
                                m.emission.time_us,
                            )
                        }
                    }
                }
            }),
    {
        let pad = &mut self.pads[index];
        if !pad.grabbed {
            assert(self.pads@ =~= old(self).pads@);
            return Ok(Sampled { active: false, mirror: None });
        }
        let active = event.event_type == 1 || event.event_type == 3;
        if event.event_type == 0 && event.code == 3 {
            assert(self.pads@ =~= old(self).pads@);
            return Err(Error::TouchpadEventsLost);
        }
        if event.event_type == 0 && event.code == 0 && pad.frame.len() > 0 {
            if self.pending.len() >= MAX_PENDING_FRAMES {
                assert(self.pads@ =~= old(self).pads@);
                return Err(Error::ForwardingQueueFull);
            }
            let mut frame: Vec<Event> = Vec::new();
            std::mem::swap(&mut frame, &mut pad.frame);
            match pad.descriptor.validate_frame(frame.as_slice()) {
                Err(e) => return Err(e),
                Ok(()) => {},
            }
            proof {
                super::laws::lemma_accepted_frames_select_existing(pad.descriptor, frame@);
            }
            pad.state.apply(frame.as_slice());
            if self.remote {
                self.pending.push((index as u8, event.time_us, frame));
                assert(frame_views(self.pending@) =~= frame_views(old(self).pending@).push(
                    (index as u8, event.time_us, old(self).pads@[index as int].frame@),
                ));
                return Ok(Sampled { active, mirror: None });
            }
            proof {
                lemma_same_refusal(pad.mirror.descriptor, pad.descriptor, frame@);
            }
            return match pad.mirror.emit_at(frame.as_slice(), event.time_us, now) {
                Ok(emission) => Ok(
                    Sampled { active, mirror: Some(MirrorFrame { frame, emission }) },
                ),
                Err(e) => Err(e),
            };
        }
        if event.event_type == 1 && touch_key(event.code) && event.value != 2 {
            pad.frame.push(Event::key(event.code, event.value));
        } else if event.event_type == 3 && touch_axis(event.code) {
            pad.frame.push(Event::abs(event.code, event.value));
        }
        if pad.frame.len() > super::MAX_FRAME_EVENTS {
            return Err(Error::FrameTooLarge);
        }
        Ok(Sampled { active, mirror: None })
    }

    /// Refuses to collect more records than one round may bring.
    pub fn check_queue(queued: usize) -> (r: Result<(), Error>)
        ensures
            r == (if queued > MAX_QUEUED_EVENTS {
                Err::<(), Error>(Error::TouchpadQueueFull)
            } else {
                Ok(())
            }),
    {
        if queued > MAX_QUEUED_EVENTS {
            Err(Error::TouchpadQueueFull)
        } else {
            Ok(())
        }
    }

    /// Takes over an acquired device by what it reports as current. A device on which a finger or a
    /// button is down after all is not taken over, and is to be let go.
    pub fn take_over(&mut self, index: usize, reading: &DeviceReading) -> (r: Result<bool, Error>)
        requires
            old(self).wf(),
            index < old(self).pads@.len(),
        ensures
            final(self).wf(),
            final(self).remote == old(self).remote,
            final(self).pending == old(self).pending,
            ({
                let pad = old(self).pads@[index as int];
                let after = final(self).pads@[index as int];
                let current = (super::state::TouchModel {
                    keys: super::touch_keys(reading.keys@).to_set(),
                    ..super::state::untouched(pad.descriptor).read(reading.axes@)
                });
                if !super::state::contacts_readable(reading.axes@, pad.descriptor.contact_count()) {
                    r == Err::<bool, Error>(Error::ContactsUnreadable) && final(self).pads@
                        == old(self).pads@
                } else if !current.wf() {
                    r == Err::<bool, Error>(Error::InvalidCurrentSlot) && final(self).pads@
                        == old(self).pads@
                } else if !current.idle() || reading.keys@.len() > 0 {
                    r == Ok::<bool, Error>(false) && final(self).pads@ == old(self).pads@
                } else {
                    &&& r == Ok::<bool, Error>(true)
                    &&& final(self).pads@ == old(self).pads@.update(index as int, after)
                    &&& after.grabbed
                    &&& after.state@ == current
                    &&& after.descriptor == pad.descriptor
                    &&& after.mirror == pad.mirror
                    &&& after.frame == pad.frame
                }
            }),
    {
        match TouchState::read(&self.pads[index].descriptor, reading) {
            Err(e) => Err(e),
            Ok(state) => {
                if state.idle() && reading.keys.len() == 0 {
                    let pad = &mut self.pads[index];
                    pad.state = state;
                    pad.grabbed = true;
                    Ok(true)
                } else {
                    Ok(false)
                }
            },
        }
    }

    /// Notes that the local mirror has accepted a frame.
    pub fn mirrored(&mut self, index: usize, frame: &[Event], time_us: u64)
        requires
            old(self).wf(),
            index < old(self).pads@.len(),
            old(self).pads@[index as int].descriptor.frame_valid(frame@),
        ensures
            final(self).wf(),
            final(self).remote == old(self).remote,
            final(self).pending == old(self).pending,
            ({
                let before = old(self).pads@[index as int];
                let after = final(self).pads@[index as int];
                &&& final(self).pads@ == old(self).pads@.update(index as int, after)
                &&& after.descriptor == before.descriptor
                &&& after.state == before.state
                &&& after.grabbed == before.grabbed
                &&& after.frame == before.frame
                &&& after.mirror.state@ == before.mirror.state@.apply(frame@)
                &&& after.mirror.last_time == time_us
                &&& after.mirror.remote_clock == before.mirror.remote_clock
            }),
    {
        let pad = &mut self.pads[index];
        proof {
            lemma_same_refusal(pad.mirror.descriptor, pad.descriptor, frame@);
        }
        pad.mirror.emitted(frame, time_us);
    }

    /// Notes that the local mirror has accepted its releases.
    pub fn mirror_reset(&mut self, index: usize)
        requires
            old(self).wf(),
            index < old(self).pads@.len(),
        ensures
            final(self).wf(),
            final(self).remote == old(self).remote,
            final(self).pending == old(self).pending,
            ({
                let before = old(self).pads@[index as int];
                let after = final(self).pads@[index as int];
                &&& final(self).pads@ == old(self).pads@.update(index as int, after)
                &&& after.descriptor == before.descriptor
                &&& after.state == before.state
                &&& after.grabbed == before.grabbed
                &&& after.frame == before.frame
                &&& after.mirror.state@ == super::state::untouched(before.mirror.descriptor)
                &&& after.mirror.last_time == before.mirror.last_time
                &&& after.mirror.remote_clock.offset is None
            }),
    {
        let pad = &mut self.pads[index];
        pad.mirror.reset();
    }

    /// The snapshots of the first touchpads that have been taken over, with their indices.
    pub open spec fn snapshots(self, count: nat) -> Seq<(u8, Seq<Event>)>
        decreases count,
    {
        if count == 0 {
            Seq::empty()
        } else if self.pads@[count - 1].grabbed {
            self.snapshots((count - 1) as nat).push(
                ((count - 1) as u8, self.pads@[count - 1].state@.snapshot()),
            )
        } else {
            self.snapshots((count - 1) as nat)
        }
    }

    /// Turns touch input to the other computer or back. Returns the current state of every
    /// touchpad that has been taken over, for the new destination to continue with; nothing when
    /// the destination stays the same.
    pub fn route(&mut self, remote: bool) -> (r: Vec<(u8, Vec<Event>)>)
        requires
            old(self).wf(),
        ensures
            final(self).wf(),
            final(self).remote == remote,
            final(self).pads == old(self).pads,
            old(self).remote == remote ==> r@.len() == 0 && final(self).pending
                == old(self).pending,
            old(self).remote != remote ==> {
                &&& final(self).pending@.len() == 0
                &&& r@.map_values(|s: (u8, Vec<Event>)| (s.0, s.1@)) == old(self).snapshots(
                    old(self).pads@.len(),
                )
            },
    {
        let mut list: Vec<(u8, Vec<Event>)> = Vec::new();
        if self.remote == remote {
            return list;
        }
        self.remote = remote;
        self.pending.clear();
        let ghost start = *self;
        for i in 0..self.pads.len()
            invariant
                *self == start,
                self.wf(),
                self.pads == old(self).pads,
                list@.map_values(|s: (u8, Vec<Event>)| (s.0, s.1@)) =~= old(self).snapshots(
                    i as nat,
                ),
        {
            let pad = &self.pads[i];
            assert(pad.wf());
            if pad.grabbed {
                list.push((i as u8, pad.state.snapshot()));
            }
        }
        list
    }

    /// Hands out the frames that wait to be forwarded.
    pub fn drain(&mut self) -> (r: Vec<CapturedFrame>)
        requires
            old(self).wf(),
        ensures
            final(self).wf(),
            r == old(self).pending,
            final(self).pending@.len() == 0,
            final(self).pads == old(self).pads,
            final(self).remote == old(self).remote,
    {
        let mut frames: Vec<CapturedFrame> = Vec::new();
        std::mem::swap(&mut frames, &mut self.pending);
        frames
    }
}

/// What a touchpad refuses depends only on what it advertises.
pub proof fn lemma_same_refusal(a: Descriptor, b: Descriptor, events: Seq<Event>)
    requires
        a.same(b),
    ensures
        a.frame_refusal(events) == b.frame_refusal(events),
        a.first_event_problem(events) == b.first_event_problem(events),
        a.frame_valid(events) == b.frame_valid(events),
    decreases events.len(),
{
    if events.len() > 0 {
        lemma_same_refusal(a, b, events.drop_first());
    }
    assert forall|e: Event| #[trigger] a.event_problem(e) == b.event_problem(e) by {}
}

} // verus!
