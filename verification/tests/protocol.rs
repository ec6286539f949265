use niri_bridge::control::{Desktop, LayoutMessage};
use niri_bridge::error::Error;
use niri_bridge::number::Binary64;
use niri_bridge::protocol::{
    encode_frame, frame_length, Axis, EdgePosition, InputEvent, Message, ScrollSource,
    MAX_FRAME_BYTES, VERSION,
};
use niri_bridge::touchpad::{Descriptor, Event};

fn number(value: f64) -> Binary64 {
    Binary64 {
        bits: value.to_bits(),
    }
}

#[test]
fn oversize_header_is_rejected_without_reading_the_body() {
    let data = (MAX_FRAME_BYTES as u32 + 1).to_be_bytes();
    assert!(frame_length(&data).is_err());
}

#[test]
fn invalid_numeric_values_never_reach_a_backend() {
    assert!(
        InputEvent::Motion {
            dx: number(f64::NAN),
            dy: number(0.0)
        }
        .validate()
        .is_err()
    );
    assert!(
        InputEvent::Key {
            code: 0,
            pressed: true
        }
        .validate()
        .is_err()
    );
    assert!(
        InputEvent::Absolute {
            x: 100,
            y: 0,
            width: 100,
            height: 100
        }
        .validate()
        .is_err()
    );
    assert!(
        Message::Hello {
            version: VERSION + 1
        }
        .validate()
        .is_err()
    );
}

#[test]
fn entry_and_return_positions_require_bounded_ids_and_finite_fractions() {
    let valid = EdgePosition {
        edge_id: "side-connection".into(),
        fraction: number(0.75),
    };
    assert!(
        Message::Begin {
            session: 1,
            entry: valid.clone()
        }
        .validate()
        .is_ok()
    );
    assert!(
        Message::End {
            session: 1,
            exit: Some(valid)
        }
        .validate()
        .is_ok()
    );
    for (id, fraction) in [
        ("".into(), 0.5),
        ("x".repeat(65), 0.5),
        ("../edge".into(), 0.5),
        ("side".into(), f64::NAN),
        ("side".into(), 1.1),
    ] {
        let position = EdgePosition {
            edge_id: id,
            fraction: number(fraction),
        };
        assert!(
            Message::Begin {
                session: 1,
                entry: position.clone()
            }
            .validate()
            .is_err()
        );
        assert!(
            Message::End {
                session: 1,
                exit: Some(position)
            }
            .validate()
            .is_err()
        );
    }
}

#[test]
fn frames_are_read_back_as_they_were_written() {
    for length in [1usize, 2, 255, 256, 65535, 65536] {
        let payload: Vec<u8> = (0..length).map(|i| (i % 251) as u8).collect();
        let frame = encode_frame(&payload).unwrap();
        assert_eq!(frame[..4], (length as u32).to_be_bytes());
        assert_eq!(frame_length(&frame), Ok(length));
        assert_eq!(&frame[4..], &payload[..]);
    }
    assert_eq!(encode_frame(&vec![0; 65537]), Err(Error::FrameTooLong));
    assert_eq!(frame_length(&[0, 0, 0, 0]), Err(Error::InvalidFrameLength));
    assert_eq!(frame_length(&[1, 0, 0, 0]), Err(Error::InvalidFrameLength));
}

#[test]
fn each_flaw_of_an_event_has_its_own_reason() {
    let touch = |device: u8, time_us: u64, events: Vec<Event>| {
        InputEvent::Touchpad {
            device,
            time_us,
            events,
        }
        .validate()
    };
    assert_eq!(touch(4, 1, vec![Event::abs(0, 1)]), Err(Error::InvalidTouchpadIndex));
    assert_eq!(touch(0, 0, vec![Event::abs(0, 1)]), Err(Error::InvalidTouchTime));
    assert_eq!(touch(0, 1, vec![]), Err(Error::InvalidFrameSize));
    assert_eq!(touch(0, 1, vec![Event::key(30, 1)]), Err(Error::InvalidTouchEvent));
    assert_eq!(touch(3, 1_000_000_000_000_000, vec![Event::abs(0, 1)]), Ok(()));
    let button = |code: u16| {
        InputEvent::Button {
            code,
            pressed: true,
        }
        .validate()
    };
    assert_eq!(button(271), Err(Error::UnsupportedButton));
    assert_eq!(button(279), Ok(()));
    assert_eq!(button(280), Err(Error::UnsupportedButton));
    let key = |code: u16| {
        InputEvent::Key {
            code,
            pressed: true,
        }
        .validate()
    };
    assert_eq!(key(255), Ok(()));
    assert_eq!(key(256), Err(Error::UnsupportedKey));
    let scroll = |amount: f64| {
        InputEvent::Scroll {
            axis: Axis::Vertical,
            amount: number(amount),
            source: ScrollSource::Finger,
        }
        .validate()
    };
    assert_eq!(scroll(-32768.0), Ok(()));
    assert_eq!(scroll(32768.0001), Err(Error::InvalidScroll));
    let motion = |dx: f64, dy: f64| {
        InputEvent::Motion {
            dx: number(dx),
            dy: number(dy),
        }
        .validate()
    };
    assert_eq!(motion(-0.0, 1e-300), Ok(()));
    assert_eq!(motion(0.0, f64::INFINITY), Err(Error::InvalidMotion));
    assert_eq!(
        InputEvent::ScrollStop {
            axis: Axis::Horizontal,
            source: ScrollSource::Wheel
        }
        .validate(),
        Ok(())
    );
}

#[test]
fn held_codes_are_released_by_their_kind() {
    assert!(
        InputEvent::release(272)
            == InputEvent::Button {
                code: 272,
                pressed: false
            }
    );
    assert!(
        InputEvent::release(29)
            == InputEvent::Key {
                code: 29,
                pressed: false
            }
    );
    assert_eq!(InputEvent::release(29).held_transition(), Some((29, false)));
    assert_eq!(
        InputEvent::Absolute {
            x: 0,
            y: 0,
            width: 1,
            height: 1
        }
        .held_transition(),
        None
    );
}

#[test]
fn each_flaw_of_a_message_has_its_own_reason() {
    assert_eq!(
        Message::Hello { version: 4 }.validate(),
        Err(Error::UnsupportedVersion)
    );
    let none = Descriptor {
        keys: Vec::new(),
        properties: Vec::new(),
        axes: Vec::new(),
    };
    assert_eq!(
        Message::Touchpads {
            devices: vec![none.clone()]
        }
        .validate(),
        Err(Error::UnsupportedTouchpadKeys)
    );
    assert_eq!(
        Message::Touchpads {
            devices: vec![none.clone(), none.clone(), none.clone(), none.clone(), none]
        }
        .validate(),
        Err(Error::TooManyRemoteTouchpads)
    );
    assert_eq!(
        Message::End {
            session: 0,
            exit: None
        }
        .validate(),
        Err(Error::ZeroSession)
    );
    assert_eq!(
        Message::Input {
            session: 0,
            sequence: 0,
            event: InputEvent::release(30)
        }
        .validate(),
        Err(Error::ZeroSession)
    );
    assert_eq!(
        Message::Input {
            session: 1,
            sequence: 9,
            event: InputEvent::release(400)
        }
        .validate(),
        Err(Error::UnsupportedButton)
    );
    assert_eq!(
        Message::Layout {
            message: LayoutMessage::Commit { id: "x".into() }
        }
        .validate(),
        Err(Error::InvalidTransaction)
    );
    assert_eq!(
        Message::Desktop {
            info: Desktop {
                edges: Vec::new(),
                revision: String::new(),
                outputs: Vec::new()
            }
        }
        .validate(),
        Err(Error::InvalidEdgeCount)
    );
    assert_eq!(Message::Ping { nonce: 1 }.validate(), Ok(()));
}
