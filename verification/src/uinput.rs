//! The virtual keyboard: which events it takes, and when the compositor has opened it.
use crate::error::Error;
use crate::protocol::InputEvent;
use crate::text::starts_with;
use vstd::prelude::*;

verus! {

pub const DEVICE_NAME: &'static str = "NiriBridge Virtual Keyboard";

pub const DEVICE_PHYS: &'static str = "niri-bridge/keyboard";

pub const FIRST_KEY: u16 = 1;

pub const LAST_KEY: u16 = 255;

/// One record for the virtual keyboard.
#[derive(Clone, Copy, PartialEq, Eq, Structural)]
pub struct KeyRecord {
    pub event_type: u16,
    pub code: u16,
    pub value: i32,
}

/// Turns an event into a record for the virtual keyboard.
pub fn key_record(event: &InputEvent) -> (r: Result<KeyRecord, Error>)
    ensures
        match event.problem() {
            Some(e) => r == Err::<KeyRecord, Error>(e),
            None => match *event {
                InputEvent::Key { code, pressed } => r == Ok::<KeyRecord, Error>(
                    KeyRecord {
                        event_type: 1,
                        code,
                        value: if pressed {
                            1
                        } else {
                            0
                        },
                    },
                ),
                _ => r == Err::<KeyRecord, Error>(Error::NotAKeyboardEvent),
            },
        },
{
    match event.validate() {
        Err(e) => return Err(e),
        Ok(()) => {},
    }
    match event {
        InputEvent::Key { code, pressed } => Ok(
            KeyRecord {
                event_type: 1,
                code: *code,
                value: if *pressed {
                    1
                } else {
                    0
                },
            },
        ),
        _ => Err(Error::NotAKeyboardEvent),
    }
}

/// Some event node of the device is among the ones that the compositor knows.
pub open spec fn node_known(names: Seq<String>, known: Seq<String>) -> bool {
    exists|i: int, j: int|
        0 <= i < names.len() && 0 <= j < known.len() && crate::text::has_prefix(
            (#[trigger] names[i])@,
            "event"@,
        ) && names[i]@ == (#[trigger] known[j])@
}

/// Tells whether the compositor has opened a device, by the names in its directory and the names
/// of the nodes that the compositor has opened.
pub fn is_opened(names: &Vec<String>, known: &Vec<String>) -> (r: bool)
    ensures
        r == node_known(names@, known@),
{
    for i in 0..names.len()
        invariant
            forall|a: int, b: int|
                0 <= a < i && 0 <= b < known@.len() && crate::text::has_prefix(
                    (#[trigger] names@[a])@,
                    "event"@,
                ) ==> names@[a]@ != (#[trigger] known@[b])@,
    {
        if starts_with(names[i].as_str(), "event") {
            for j in 0..known.len()
                invariant
                    i < names@.len(),
                    crate::text::has_prefix(names@[i as int]@, "event"@),
                    forall|b: int|
                        0 <= b < j ==> names@[i as int]@ != (#[trigger] known@[b])@,
            {
                if names[i] == known[j] {
                    assert(names@[i as int]@ == known@[j as int]@);
                    return true;
                }
            }
        }
    }
    false
}

} // verus!
