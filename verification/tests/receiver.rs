use niri_bridge::error::Error;
use niri_bridge::input::StopReason;
use niri_bridge::number::Binary64;
use niri_bridge::protocol::InputEvent;
use niri_bridge::receiver::{refuse_output, refuse_touchpads, InputSink, Receiver};
use niri_bridge::touchpad::Descriptor;
use std::sync::{Arc, Mutex};

struct Sink(Arc<Mutex<Vec<InputEvent>>>);

impl InputSink for Sink {
    fn emit(&mut self, event: &InputEvent) -> Result<(), Error> {
        self.0.lock().unwrap().push(event.clone());
        Ok(())
    }
    fn select_output(&mut self, _output: &str) -> Result<(), Error> {
        refuse_output()
    }
    fn configure_touchpads(&mut self, devices: &[Descriptor]) -> Result<(), Error> {
        refuse_touchpads(devices)
    }
    fn reset_touchpads(&mut self) -> Result<(), Error> {
        Ok(())
    }
}

/// Releases what is held when the connection goes away. The library has no `Drop` of its own: the
/// program holds its receivers in guards like this one, so what is tested with it is that `stop`
/// releases everything.
struct Connection<S: InputSink>(Receiver<S>);

impl<S: InputSink> Drop for Connection<S> {
    fn drop(&mut self) {
        let _ = self.0.stop(StopReason::Disconnected);
    }
}

#[test]
fn output_switches_require_releasing_active_input_and_select_the_requested_display() {
    struct SelectingSink(Arc<Mutex<Vec<String>>>);
    impl InputSink for SelectingSink {
        fn select_output(&mut self, output: &str) -> Result<(), Error> {
            self.0.lock().unwrap().push(format!("output:{output}"));
            Ok(())
        }
        fn emit(&mut self, event: &InputEvent) -> Result<(), Error> {
            self.0.lock().unwrap().push(match event {
                InputEvent::Button { pressed, .. } => format!("button:{pressed}"),
                InputEvent::Absolute { .. } => "position".into(),
                _ => unreachable!(),
            });
            Ok(())
        }
        fn configure_touchpads(&mut self, devices: &[Descriptor]) -> Result<(), Error> {
            refuse_touchpads(devices)
        }
        fn reset_touchpads(&mut self) -> Result<(), Error> {
            Ok(())
        }
    }
    let events = Arc::new(Mutex::new(Vec::new()));
    let mut receiver = Receiver::new(SelectingSink(events.clone()));
    let position = InputEvent::Absolute {
        x: 4,
        y: 600,
        width: 1080,
        height: 1920,
    };
    receiver.begin(1).unwrap();
    receiver
        .input(
            1,
            0,
            &InputEvent::Button {
                code: 272,
                pressed: true,
            },
        )
        .unwrap();
    assert!(receiver.position_on("portrait", &position).is_err());
    receiver.end(1).unwrap();
    receiver.position_on("portrait", &position).unwrap();
    receiver.position_on("landscape", &position).unwrap();
    assert_eq!(
        *events.lock().unwrap(),
        [
            "button:true",
            "button:false",
            "output:portrait",
            "position",
            "output:landscape",
            "position"
        ]
    );
}

#[test]
fn dropping_connection_releases_both_modifier_and_mouse_button() {
    let events = Arc::new(Mutex::new(Vec::new()));
    {
        let mut rx = Connection(Receiver::new(Sink(events.clone())));
        rx.0.begin(1).unwrap();
        rx.0.input(
            1,
            0,
            &InputEvent::Key {
                code: 29,
                pressed: true,
            },
        )
        .unwrap();
        rx.0.input(
            1,
            1,
            &InputEvent::Button {
                code: 272,
                pressed: true,
            },
        )
        .unwrap();
    }
    let actual = events.lock().unwrap();
    assert!(
        actual.as_slice()
            == [
                InputEvent::Key {
                    code: 29,
                    pressed: true
                },
                InputEvent::Button {
                    code: 272,
                    pressed: true
                },
                InputEvent::Key {
                    code: 29,
                    pressed: false
                },
                InputEvent::Button {
                    code: 272,
                    pressed: false
                }
            ]
    );
}

#[test]
fn stale_input_and_end_cannot_change_a_new_session() {
    let events = Arc::new(Mutex::new(Vec::new()));
    let mut rx = Receiver::new(Sink(events.clone()));
    rx.begin(2).unwrap();
    assert!(
        !rx.input(
            1,
            0,
            &InputEvent::Key {
                code: 30,
                pressed: true
            }
        )
        .unwrap()
    );
    rx.end(1).unwrap();
    assert!(
        rx.input(
            2,
            0,
            &InputEvent::Key {
                code: 30,
                pressed: true
            }
        )
        .unwrap()
    );
    assert_eq!(events.lock().unwrap().len(), 1);
}

#[test]
fn invalid_sequence_releases_before_returning_an_error() {
    let events = Arc::new(Mutex::new(Vec::new()));
    let mut rx = Receiver::new(Sink(events.clone()));
    rx.begin(1).unwrap();
    rx.input(
        1,
        0,
        &InputEvent::Key {
            code: 125,
            pressed: true,
        },
    )
    .unwrap();
    assert!(
        rx.input(
            1,
            3,
            &InputEvent::Key {
                code: 30,
                pressed: true
            }
        )
        .is_err()
    );
    assert!(matches!(
        events.lock().unwrap().last(),
        Some(InputEvent::Key {
            code: 125,
            pressed: false
        })
    ));
}

#[test]
fn physical_takeover_and_lock_reject_further_input() {
    let events = Arc::new(Mutex::new(Vec::new()));
    let mut rx = Receiver::new(Sink(events));
    rx.begin(1).unwrap();
    rx.physical_activity().unwrap();
    assert!(
        !rx.input(
            1,
            0,
            &InputEvent::Key {
                code: 30,
                pressed: true
            }
        )
        .unwrap()
    );
    rx.local_lock(true).unwrap();
    assert!(!rx.begin(2).unwrap());
    rx.local_lock(false).unwrap();
    assert!(rx.begin(3).unwrap());
}

/// A backend that accepts a number of events and then refuses.
struct Stubborn {
    accepts: usize,
    seen: Arc<Mutex<Vec<InputEvent>>>,
}

impl InputSink for Stubborn {
    fn emit(&mut self, event: &InputEvent) -> Result<(), Error> {
        self.seen.lock().unwrap().push(event.clone());
        if self.accepts == 0 {
            return Err(Error::Backend("refused".into()));
        }
        self.accepts -= 1;
        Ok(())
    }
    fn select_output(&mut self, _output: &str) -> Result<(), Error> {
        refuse_output()
    }
    fn configure_touchpads(&mut self, devices: &[Descriptor]) -> Result<(), Error> {
        refuse_touchpads(devices)
    }
    fn reset_touchpads(&mut self) -> Result<(), Error> {
        Ok(())
    }
}

#[test]
fn a_press_that_failed_is_released_and_outstanding_releases_block_a_session() {
    let seen = Arc::new(Mutex::new(Vec::new()));
    let mut rx = Receiver::new(Stubborn {
        accepts: 0,
        seen: seen.clone(),
    });
    rx.begin(1).unwrap();
    let press = InputEvent::Key {
        code: 30,
        pressed: true,
    };
    assert_eq!(rx.input(1, 0, &press), Err(Error::Backend("refused".into())));
    assert_eq!(seen.lock().unwrap().len(), 2);
    assert!(seen.lock().unwrap()[1] == InputEvent::release(30));
    assert_eq!(rx.begin(2), Err(Error::CleanupIncomplete));
    rx.sink.accepts = 5;
    rx.stop(StopReason::Disconnected).unwrap();
    assert_eq!(rx.begin(2), Ok(true));
}

#[test]
fn each_refusal_has_its_own_reason() {
    let events = Arc::new(Mutex::new(Vec::new()));
    let mut rx = Receiver::new(Sink(events));
    assert_eq!(rx.begin(0), Err(Error::ZeroSession));
    let key = InputEvent::Key {
        code: 30,
        pressed: true,
    };
    assert_eq!(rx.position(&key), Err(Error::NotAbsolute));
    let outside = InputEvent::Absolute {
        x: 5,
        y: 0,
        width: 5,
        height: 5,
    };
    assert_eq!(rx.position(&outside), Err(Error::InvalidAbsolutePosition));
    let inside = InputEvent::Absolute {
        x: 4,
        y: 0,
        width: 5,
        height: 5,
    };
    assert_eq!(rx.position(&inside), Ok(()));
    assert_eq!(
        rx.position_on("DP-1", &inside),
        Err(Error::OutputSelectionUnsupported)
    );
    assert_eq!(rx.configure_touchpads(&[]), Ok(()));
    rx.begin(1).unwrap();
    assert_eq!(rx.configure_touchpads(&[]), Err(Error::TouchpadsDuringInput));
    let wild = InputEvent::Motion {
        dx: Binary64 {
            bits: f64::NAN.to_bits(),
        },
        dy: Binary64 { bits: 0 },
    };
    assert_eq!(rx.input(1, 0, &wild), Err(Error::InvalidMotion));
    rx.begin(2).unwrap();
    assert_eq!(rx.input(2, 1, &key), Err(Error::SequenceMismatch));
    rx.begin(3).unwrap();
    rx.expected_sequence = u64::MAX;
    assert_eq!(rx.input(3, u64::MAX, &key), Err(Error::SequenceExhausted));
    assert_eq!(
        refuse_touchpads(&[Descriptor {
            keys: Vec::new(),
            properties: Vec::new(),
            axes: Vec::new(),
        }]),
        Err(Error::TouchpadsUnsupported)
    );
}
