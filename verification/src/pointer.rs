//! Which backend an input event goes to, and how a pointer position is put onto a turned output.
use crate::error::Error;
use crate::niri::Transform;
use crate::number::Binary64;
use crate::protocol::{Axis, InputEvent, ScrollSource};
use vstd::prelude::*;

verus! {

/// The touchpads that one computer can have.
pub const MAX_TOUCHPADS: usize = 4;

/// One coordinate of a turned output: a coordinate of the picture, or what is left of it.
#[derive(Clone, Copy, Debug, PartialEq, Eq, Structural)]
pub enum Coordinate {
    X,
    Y,
    FlippedX,
    FlippedY,
}

/// Where the two coordinates of a position come from.
#[derive(Clone, Copy, Debug, PartialEq, Eq, Structural)]
pub struct AxisMap {
    pub first: Coordinate,
    pub second: Coordinate,
}

impl Coordinate {
    /// The value of a coordinate of a position in a square of side `one`.
    pub open spec fn of(self, x: int, y: int, one: int) -> int {
        match self {
            Coordinate::X => x,
            Coordinate::Y => y,
            Coordinate::FlippedX => one - x,
            Coordinate::FlippedY => one - y,
        }
    }
}

impl AxisMap {
    pub open spec fn apply(self, x: int, y: int, one: int) -> (int, int) {
        (self.first.of(x, y, one), self.second.of(x, y, one))
    }
}

/// Where a position of the turned picture lies in the picture as it is shown.
pub open spec fn shown_position(transform: Transform) -> AxisMap {
    match transform {
        Transform::Normal => AxisMap { first: Coordinate::X, second: Coordinate::Y },
        Transform::Rotate90 => AxisMap { first: Coordinate::FlippedY, second: Coordinate::X },
        Transform::Rotate180 => AxisMap {
            first: Coordinate::FlippedX,
            second: Coordinate::FlippedY,
        },
        Transform::Rotate270 => AxisMap { first: Coordinate::Y, second: Coordinate::FlippedX },
        Transform::Flipped => AxisMap { first: Coordinate::FlippedX, second: Coordinate::Y },
        Transform::Flipped90 => AxisMap { first: Coordinate::Y, second: Coordinate::X },
        Transform::Flipped180 => AxisMap { first: Coordinate::X, second: Coordinate::FlippedY },
        Transform::Flipped270 => AxisMap {
            first: Coordinate::FlippedY,
            second: Coordinate::FlippedX,
        },
    }
}

/// The map from a position as it is shown to the one that the compositor turns into it.
pub open spec fn inverse_of(transform: Transform) -> AxisMap {
    match transform {
        Transform::Normal => AxisMap { first: Coordinate::X, second: Coordinate::Y },
        Transform::Rotate90 => AxisMap { first: Coordinate::Y, second: Coordinate::FlippedX },
        Transform::Rotate180 => AxisMap {
            first: Coordinate::FlippedX,
            second: Coordinate::FlippedY,
        },
        Transform::Rotate270 => AxisMap { first: Coordinate::FlippedY, second: Coordinate::X },
        Transform::Flipped => AxisMap { first: Coordinate::FlippedX, second: Coordinate::Y },
        Transform::Flipped90 => AxisMap { first: Coordinate::Y, second: Coordinate::X },
        Transform::Flipped180 => AxisMap { first: Coordinate::X, second: Coordinate::FlippedY },
        Transform::Flipped270 => AxisMap {
            first: Coordinate::FlippedY,
            second: Coordinate::FlippedX,
        },
    }
}

pub fn inverse_normalized(transform: Transform) -> (r: AxisMap)
    ensures
        r == inverse_of(transform),
{
    match transform {
        Transform::Normal => AxisMap { first: Coordinate::X, second: Coordinate::Y },
        Transform::Rotate90 => AxisMap { first: Coordinate::Y, second: Coordinate::FlippedX },
        Transform::Rotate180 => AxisMap {
            first: Coordinate::FlippedX,
            second: Coordinate::FlippedY,
        },
        Transform::Rotate270 => AxisMap { first: Coordinate::FlippedY, second: Coordinate::X },
        Transform::Flipped => AxisMap { first: Coordinate::FlippedX, second: Coordinate::Y },
        Transform::Flipped90 => AxisMap { first: Coordinate::Y, second: Coordinate::X },
        Transform::Flipped180 => AxisMap { first: Coordinate::X, second: Coordinate::FlippedY },
        Transform::Flipped270 => AxisMap {
            first: Coordinate::FlippedY,
            second: Coordinate::FlippedX,
        },
    }
}

/// On every output, however it is turned, the pointer appears where it is meant to: the compositor
/// turns the mapped position into the meant one.
pub proof fn lemma_inverse_restores_position(transform: Transform, x: int, y: int, one: int)
    ensures
        ({
            let mapped = inverse_of(transform).apply(x, y, one);
            shown_position(transform).apply(mapped.0, mapped.1, one) == (x, y)
        }),
        ({
            let shown = shown_position(transform).apply(x, y, one);
            inverse_of(transform).apply(shown.0, shown.1, one) == (x, y)
        }),
{
}

/// The backend for an event.
#[derive(Clone, Copy, PartialEq, Eq, Structural)]
pub enum Backend {
    Touchpad(usize),
    Keyboard,
    Pointer,
}

/// Chooses the backend for an event; `touchpads` have been negotiated.
pub fn backend_for(event: &InputEvent, touchpads: usize) -> (r: Result<Backend, Error>)
    ensures
        r == (match *event {
            InputEvent::Touchpad { device, .. } => if device < touchpads {
                Ok::<Backend, Error>(Backend::Touchpad(device as usize))
            } else {
                Err::<Backend, Error>(Error::TouchpadNotNegotiated)
            },
            InputEvent::Key { .. } => Ok::<Backend, Error>(Backend::Keyboard),
            _ => Ok::<Backend, Error>(Backend::Pointer),
        }),
{
    match event {
        InputEvent::Touchpad { device, .. } => if (*device as usize) < touchpads {
            Ok(Backend::Touchpad(*device as usize))
        } else {
            Err(Error::TouchpadNotNegotiated)
        },
        InputEvent::Key { .. } => Ok(Backend::Keyboard),
        _ => Ok(Backend::Pointer),
    }
}

/// The touchpads of the other computer are negotiated once.
pub fn check_negotiation(devices: usize, negotiated: usize) -> (r: Result<(), Error>)
    ensures
        r == (if devices <= MAX_TOUCHPADS && negotiated == 0 {
            Ok(())
        } else {
            Err::<(), Error>(Error::NegotiationTwice)
        }),
{
    if devices <= MAX_TOUCHPADS && negotiated == 0 {
        Ok(())
    } else {
        Err(Error::NegotiationTwice)
    }
}

/// What a pointer backend is asked to do.
#[derive(Clone, Copy, PartialEq, Eq, Structural)]
pub enum PointerRequest {
    Button { code: u32, pressed: bool },
    Motion { dx: Binary64, dy: Binary64 },
    Absolute { x: u32, y: u32, width: u32, height: u32 },
    Scroll { axis: Axis, amount: Binary64, source: ScrollSource },
    ScrollStop { axis: Axis, source: ScrollSource },
}

pub open spec fn request_of(event: InputEvent) -> Option<PointerRequest> {
    match event {
        InputEvent::Button { code, pressed } => Some(
            PointerRequest::Button { code: code as u32, pressed },
        ),
        InputEvent::Motion { dx, dy } => Some(PointerRequest::Motion { dx, dy }),
        InputEvent::Absolute { x, y, width, height } => Some(
            PointerRequest::Absolute { x, y, width, height },
        ),
        InputEvent::Scroll { axis, amount, source } => Some(
            PointerRequest::Scroll { axis, amount, source },
        ),
        InputEvent::ScrollStop { axis, source } => Some(PointerRequest::ScrollStop { axis, source }),
        _ => None,
    }
}

/// Turns an event into what a pointer backend is asked to do.
pub fn pointer_request(event: &InputEvent) -> (r: Result<PointerRequest, Error>)
    ensures
        match event.problem() {
            Some(e) => r == Err::<PointerRequest, Error>(e),
            None => match request_of(*event) {
                Some(request) => r == Ok::<PointerRequest, Error>(request),
                None => r == Err::<PointerRequest, Error>(Error::NotAPointerEvent),
            },
        },
{
    match event.validate() {
        Err(e) => return Err(e),
        Ok(()) => {},
    }
    match event {
        InputEvent::Button { code, pressed } => Ok(
            PointerRequest::Button { code: *code as u32, pressed: *pressed },
        ),
        InputEvent::Motion { dx, dy } => Ok(PointerRequest::Motion { dx: *dx, dy: *dy }),
        InputEvent::Absolute { x, y, width, height } => Ok(
            PointerRequest::Absolute { x: *x, y: *y, width: *width, height: *height },
        ),
        InputEvent::Scroll { axis, amount, source } => Ok(
            PointerRequest::Scroll { axis: *axis, amount: *amount, source: *source },
        ),
        InputEvent::ScrollStop { axis, source } => Ok(
            PointerRequest::ScrollStop { axis: *axis, source: *source },
        ),
        _ => Err(Error::NotAPointerEvent),
    }
}

/// The time of an event in milliseconds, as far as it fits in 32 bits.
pub fn event_time(seconds: u64, nanoseconds: u64) -> (r: u32)
    requires
        seconds * 1000 + nanoseconds / 1_000_000 <= u64::MAX,
    ensures
        r == (seconds * 1000 + nanoseconds / 1_000_000) % 0x1_0000_0000,
{
    ((seconds * 1000 + nanoseconds / 1_000_000) % 0x1_0000_0000) as u32
}

} // verus!
