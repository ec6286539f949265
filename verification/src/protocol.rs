//! Versioned input frames. Payloads deliberately do not implement `Debug`.
use crate::control::{Desktop, LayoutMessage};
use crate::error::Error;
use crate::number::Binary64;
use crate::touchpad::{validate_frame, Descriptor, Event};
use vstd::prelude::*;

pub use crate::edges::EdgePosition;

verus! {

pub const VERSION: u16 = 5;

pub const MAX_FRAME_BYTES: usize = 65536;

/// Touch times lie between one and this many microseconds.
pub const MAX_TOUCH_TIME_US: u64 = 1_000_000_000_000_000;

/// Held codes from here on are pointer buttons, smaller ones are keys.
pub const FIRST_BUTTON: u16 = 272;

#[derive(Clone, Copy, PartialEq, Eq, Structural)]
pub enum Axis {
    Horizontal,
    Vertical,
}

#[derive(Clone, Copy, PartialEq, Eq, Structural)]
pub enum ScrollSource {
    Wheel,
    Finger,
    Continuous,
}

#[derive(PartialEq, Eq)]
pub enum InputEvent {
    Touchpad { device: u8, time_us: u64, events: Vec<Event> },
    Key { code: u16, pressed: bool },
    Button { code: u16, pressed: bool },
    Motion { dx: Binary64, dy: Binary64 },
    Absolute { x: u32, y: u32, width: u32, height: u32 },
    Scroll { axis: Axis, amount: Binary64, source: ScrollSource },
    ScrollStop { axis: Axis, source: ScrollSource },
}

impl InputEvent {
    /// The first reason, in the order of the checks, for which an event is refused.
    pub open spec fn problem(self) -> Option<Error> {
        match self {
            InputEvent::Touchpad { device, time_us, events } => if device >= 4 {
                Some(Error::InvalidTouchpadIndex)
            } else if !(1 <= time_us <= MAX_TOUCH_TIME_US) {
                Some(Error::InvalidTouchTime)
            } else if !(1 <= events@.len() <= crate::touchpad::MAX_FRAME_EVENTS) {
                Some(Error::InvalidFrameSize)
            } else if !crate::touchpad::frame_plausible(events@) {
                Some(Error::InvalidTouchEvent)
            } else {
                None
            },
            InputEvent::Key { code, .. } => if 1 <= code <= 255 {
                None
            } else {
                Some(Error::UnsupportedKey)
            },
            InputEvent::Button { code, .. } => if 272 <= code <= 279 {
                None
            } else {
                Some(Error::UnsupportedButton)
            },
            InputEvent::Motion { dx, dy } => if dx.bounded(Binary64::motion_limit()) && dy.bounded(
                Binary64::motion_limit(),
            ) {
                None
            } else {
                Some(Error::InvalidMotion)
            },
            InputEvent::Absolute { x, y, width, height } => if x < width && y < height {
                None
            } else {
                Some(Error::InvalidAbsolutePosition)
            },
            InputEvent::Scroll { amount, .. } => if amount.bounded(Binary64::motion_limit()) {
                None
            } else {
                Some(Error::InvalidScroll)
            },
            InputEvent::ScrollStop { .. } => None,
        }
    }

    pub fn validate(&self) -> (r: Result<(), Error>)
        ensures
            match self.problem() {
                Some(e) => r == Err::<(), Error>(e),
                None => r is Ok,
            },
    {
        match self {
            InputEvent::Touchpad { device, time_us, events } => {
                if *device >= 4 {
                    return Err(Error::InvalidTouchpadIndex);
                }
                if !(1 <= *time_us && *time_us <= MAX_TOUCH_TIME_US) {
                    return Err(Error::InvalidTouchTime);
                }
                validate_frame(events.as_slice())
            },
            InputEvent::Key { code, .. } => if 1 <= *code && *code <= 255 {
                Ok(())
            } else {
                Err(Error::UnsupportedKey)
            },
            InputEvent::Button { code, .. } => if 272 <= *code && *code <= 279 {
                Ok(())
            } else {
                Err(Error::UnsupportedButton)
            },
            InputEvent::Motion { dx, dy } => if dx.is_bounded(Binary64::motion_limit())
                && dy.is_bounded(Binary64::motion_limit()) {
                Ok(())
            } else {
                Err(Error::InvalidMotion)
            },
            InputEvent::Absolute { x, y, width, height } => if *width > 0 && *height > 0 && *x
                < *width && *y < *height {
                Ok(())
            } else {
                Err(Error::InvalidAbsolutePosition)
            },
            InputEvent::Scroll { amount, .. } => if amount.is_bounded(Binary64::motion_limit()) {
                Ok(())
            } else {
                Err(Error::InvalidScroll)
            },
            InputEvent::ScrollStop { .. } => Ok(()),
        }
    }

    /// The key or button that the event presses or releases.
    pub open spec fn transition(self) -> Option<(u16, bool)> {
        match self {
            InputEvent::Key { code, pressed } => Some((code, pressed)),
            InputEvent::Button { code, pressed } => Some((code, pressed)),
            _ => None,
        }
    }

    pub fn held_transition(&self) -> (r: Option<(u16, bool)>)
        ensures
            r == self.transition(),
    {
        match self {
            InputEvent::Key { code, pressed } => Some((*code, *pressed)),
            InputEvent::Button { code, pressed } => Some((*code, *pressed)),
            _ => None,
        }
    }

    /// The event that releases a held key or button.
    pub open spec fn release_of(code: u16) -> InputEvent {
        if code >= FIRST_BUTTON {
            InputEvent::Button { code, pressed: false }
        } else {
            InputEvent::Key { code, pressed: false }
        }
    }

    pub fn release(code: u16) -> (r: InputEvent)
        ensures
            r == InputEvent::release_of(code),
    {
        if code >= FIRST_BUTTON {
            InputEvent::Button { code, pressed: false }
        } else {
            InputEvent::Key { code, pressed: false }
        }
    }
}

impl Clone for InputEvent {
    fn clone(&self) -> (r: InputEvent)
        ensures
            r.same(*self),
    {
        match self {
            InputEvent::Touchpad { device, time_us, events } => InputEvent::Touchpad {
                device: *device,
                time_us: *time_us,
                events: copy_events(events),
            },
            InputEvent::Key { code, pressed } => InputEvent::Key { code: *code, pressed: *pressed },
            InputEvent::Button { code, pressed } => InputEvent::Button {
                code: *code,
                pressed: *pressed,
            },
            InputEvent::Motion { dx, dy } => InputEvent::Motion { dx: *dx, dy: *dy },
            InputEvent::Absolute { x, y, width, height } => InputEvent::Absolute {
                x: *x,
                y: *y,
                width: *width,
                height: *height,
            },
            InputEvent::Scroll { axis, amount, source } => InputEvent::Scroll {
                axis: *axis,
                amount: *amount,
                source: *source,
            },
            InputEvent::ScrollStop { axis, source } => InputEvent::ScrollStop {
                axis: *axis,
                source: *source,
            },
        }
    }
}

fn copy_events(events: &Vec<Event>) -> (r: Vec<Event>)
    ensures
        r@ == events@,
{
    let mut copy: Vec<Event> = Vec::new();
    for i in 0..events.len()
        invariant
            copy@ == events@.take(i as int),
    {
        copy.push(events[i]);
        assert(events@.take(i + 1) == events@.take(i as int).push(events@[i as int]));
    }
    assert(events@.take(events@.len() as int) == events@);
    copy
}

impl InputEvent {
    /// Two events with the same contents.
    pub open spec fn same(self, other: InputEvent) -> bool {
        match (self, other) {
            (
                InputEvent::Touchpad { device, time_us, events },
                InputEvent::Touchpad { device: d, time_us: t, events: e },
            ) => device == d && time_us == t && events@ == e@,
            _ => self == other,
        }
    }
}

pub enum Message {
    Desktop { info: Desktop },
    Layout { message: LayoutMessage },
    Touchpads { devices: Vec<Descriptor> },
    Hello { version: u16 },
    Begin { session: u64, entry: EdgePosition },
    Input { session: u64, sequence: u64, event: InputEvent },
    End { session: u64, exit: Option<EdgePosition> },
    Ping { nonce: u64 },
    Pong { nonce: u64 },
    LockState { locked: bool },
}

/// What is wrong with the first touchpad with which anything is wrong.
pub open spec fn first_descriptor_problem(devices: Seq<Descriptor>) -> Option<Error>
    decreases devices.len(),
{
    if devices.len() == 0 {
        None
    } else if devices[0].problem() is Some {
        devices[0].problem()
    } else {
        first_descriptor_problem(devices.drop_first())
    }
}

impl Message {
    /// The first reason, in the order of the checks, for which a message is refused.
    pub open spec fn problem(self) -> Option<Error> {
        match self {
            Message::Desktop { info } => info.problem(),
            Message::Layout { message } => message.problem(),
            Message::Hello { version } => if version == VERSION {
                None
            } else {
                Some(Error::UnsupportedVersion)
            },
            Message::Touchpads { devices } => if devices@.len() > 4 {
                Some(Error::TooManyRemoteTouchpads)
            } else {
                first_descriptor_problem(devices@)
            },
            Message::Begin { session, entry } => if session == 0 {
                Some(Error::ZeroSession)
            } else {
                entry.problem()
            },
            Message::Input { session, event, .. } => if session == 0 {
                Some(Error::ZeroSession)
            } else {
                event.problem()
            },
            Message::End { session, exit } => if session == 0 {
                Some(Error::ZeroSession)
            } else {
                match exit {
                    Some(position) => position.problem(),
                    None => None,
                }
            },
            _ => None,
        }
    }

    pub fn validate(&self) -> (r: Result<(), Error>)
        ensures
            match self.problem() {
                Some(e) => r == Err::<(), Error>(e),
                None => r is Ok,
            },
    {
        match self {
            Message::Desktop { info } => info.validate(),
            Message::Layout { message } => message.validate(),
            Message::Hello { version } => if *version == VERSION {
                Ok(())
            } else {
                Err(Error::UnsupportedVersion)
            },
            Message::Touchpads { devices } => {
                if devices.len() > 4 {
                    return Err(Error::TooManyRemoteTouchpads);
                }
                assert(devices@.skip(0) == devices@);
                for i in 0..devices.len()
                    invariant
                        devices@.len() <= 4,
                        *self == (Message::Touchpads { devices: *devices }),
                        first_descriptor_problem(devices@) == first_descriptor_problem(
                            devices@.skip(i as int),
                        ),
                {
                    assert(devices@.skip(i as int).drop_first() == devices@.skip(i + 1));
                    match devices[i].validate() {
                        Err(e) => return Err(e),
                        Ok(()) => {},
                    }
                }
                Ok(())
            },
            Message::Begin { session, entry } => {
                if *session == 0 {
                    return Err(Error::ZeroSession);
                }
                entry.validate()
            },
            Message::Input { session, event, .. } => {
                if *session == 0 {
                    return Err(Error::ZeroSession);
                }
                event.validate()
            },
            Message::End { session, exit } => {
                if *session == 0 {
                    return Err(Error::ZeroSession);
                }
                match exit {
                    Some(position) => position.validate(),
                    None => Ok(()),
                }
            },
            _ => Ok(()),
        }
    }
}

/// The number that four bytes stand for, the most significant one first.
pub open spec fn big_endian(bytes: Seq<u8>) -> int {
    bytes[0] * 0x100_0000 + bytes[1] * 0x1_0000 + bytes[2] * 0x100 + bytes[3]
}

/// A payload with its length in front of it.
pub open spec fn framed(frame: Seq<u8>, payload: Seq<u8>) -> bool {
    &&& frame.len() == 4 + payload.len()
    &&& big_endian(frame) == payload.len()
    &&& frame.skip(4) == payload
}

/// Puts the length of an encoded message in front of it.
pub fn encode_frame(payload: &[u8]) -> (r: Result<Vec<u8>, Error>)
    ensures
        payload@.len() > MAX_FRAME_BYTES ==> r == Err::<Vec<u8>, Error>(Error::FrameTooLong),
        payload@.len() <= MAX_FRAME_BYTES ==> r is Ok && framed(r->Ok_0@, payload@),
{
    let length: usize = payload.len();
    if length > MAX_FRAME_BYTES {
        return Err(Error::FrameTooLong);
    }
    let mut frame: Vec<u8> = Vec::with_capacity(4 + length);
    frame.push(0);
    frame.push((length / 0x1_0000) as u8);
    frame.push((length / 0x100 % 0x100) as u8);
    frame.push((length % 0x100) as u8);
    for i in 0..payload.len()
        invariant
            length == payload@.len(),
            length <= MAX_FRAME_BYTES,
            frame@.len() == 4 + i,
            big_endian(frame@) == length,
            forall|j: int| 0 <= j < i ==> frame@[4 + j] == payload@[j],
    {
        frame.push(payload[i]);
    }
    assert(frame@.skip(4) =~= payload@);
    Ok(frame)
}

/// Reads the length of a message from the first four bytes of a frame.
pub fn frame_length(header: &[u8]) -> (r: Result<usize, Error>)
    requires
        header@.len() >= 4,
    ensures
        1 <= big_endian(header@) <= MAX_FRAME_BYTES ==> (r matches Ok(length) && length
            == big_endian(header@)),
        !(1 <= big_endian(header@) <= MAX_FRAME_BYTES) ==> r == Err::<usize, Error>(
            Error::InvalidFrameLength,
        ),
{
    let length: u32 = header[0] as u32 * 0x100_0000 + header[1] as u32 * 0x1_0000 + header[2] as u32
        * 0x100 + header[3] as u32;
    if length > 0 && length as usize <= MAX_FRAME_BYTES {
        Ok(length as usize)
    } else {
        Err(Error::InvalidFrameLength)
    }
}

/// Whatever payload of at least one byte is framed, its length is read back from the first four
/// bytes and the payload from the ones behind them; and no other payload has the same frame.
pub proof fn lemma_frame_round_trip(frame: Seq<u8>, payload: Seq<u8>, other: Seq<u8>)
    requires
        framed(frame, payload),
        1 <= payload.len() <= MAX_FRAME_BYTES,
    ensures
        1 <= big_endian(frame) <= MAX_FRAME_BYTES,
        frame.subrange(4, 4 + big_endian(frame)) == payload,
        framed(frame, other) ==> other == payload,
{
    assert(frame.subrange(4, 4 + big_endian(frame)) =~= frame.skip(4));
}

/// A frame that arrives in pieces of any size, with anything behind it, is read back from exactly
/// the bytes that it takes: the length from four of them, the payload from as many as it says.
pub proof fn lemma_fragmented_frame_is_read_back(
    frame: Seq<u8>,
    payload: Seq<u8>,
    rest: Seq<u8>,
    arrivals: Seq<Seq<u8>>,
)
    requires
        framed(frame, payload),
        1 <= payload.len() <= MAX_FRAME_BYTES,
        arrivals.flatten() == frame + rest,
    ensures
        ({
            let stream = arrivals.flatten();
            let end = 4 + big_endian(stream.take(4));
            &&& 1 <= big_endian(stream.take(4)) <= MAX_FRAME_BYTES
            &&& stream.subrange(4, end) == payload
            &&& stream.skip(end) == rest
        }),
{
    let stream = arrivals.flatten();
    assert(stream.take(4) =~= frame.take(4));
    assert(stream.subrange(4, frame.len() as int) =~= frame.skip(4));
    assert(stream.skip(frame.len() as int) =~= rest);
}

} // verus!
