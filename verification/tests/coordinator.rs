use niri_bridge::capture_probe::StopCause;
use niri_bridge::control::{Desktop, LayoutMessage, LayoutRequest};
use niri_bridge::bridge::capture_overdue;
use niri_bridge::coordinator::{ending, Action, Agreement, Coordinator, Ending, Role};
use niri_bridge::edges::{EdgeConfig, EdgePosition};
use niri_bridge::error::Error;
use niri_bridge::geometry::{Boundary, Edge};
use niri_bridge::niri::{ActiveOutput, LogicalOutput, Transform};
use niri_bridge::number::Binary64;
use niri_bridge::protocol::{InputEvent, Message};
use niri_bridge::receiver::{refuse_output, refuse_touchpads, InputSink};
use niri_bridge::touchpad::Descriptor;
use std::collections::BTreeSet;

fn number(value: f64) -> Binary64 {
    Binary64 {
        bits: value.to_bits(),
    }
}

struct Sink(Vec<InputEvent>);

impl InputSink for Sink {
    fn emit(&mut self, event: &InputEvent) -> Result<(), Error> {
        self.0.push(event.clone());
        Ok(())
    }
    fn select_output(&mut self, _output: &str) -> Result<(), Error> {
        refuse_output()
    }
    fn configure_touchpads(&mut self, devices: &[Descriptor]) -> Result<(), Error> {
        refuse_touchpads(devices)
    }
    fn reset_touchpads(&mut self) -> Result<(), Error> {
        Ok(())
    }
}

fn output(name: &str) -> ActiveOutput {
    ActiveOutput {
        name: name.into(),
        logical: LogicalOutput {
            x: 0,
            y: 0,
            width: 1920,
            height: 1200,
            scale: number(1.0),
            transform: Transform::Normal,
        },
    }
}

fn edge(id: &str, output: &str, side: Edge) -> EdgeConfig {
    EdgeConfig {
        id: id.into(),
        output: output.into(),
        boundary: Boundary {
            edge: side,
            start: number(0.0),
            end: number(1.0),
        },
    }
}

fn desktop(outputs: &[&str]) -> Desktop {
    Desktop {
        edges: vec![edge("main", "A", Edge::Top), edge("side", "B", Edge::Left)],
        revision: "0".repeat(64),
        outputs: outputs.iter().map(|name| output(name)).collect(),
    }
}

fn connected() -> Coordinator<Sink> {
    let Ok((mut c, actions)) = Coordinator::new(
        desktop(&[]).edges,
        true,
        desktop(&["A", "B"]),
        Sink(Vec::new()),
        Vec::new(),
        true,
        true,
        0,
    ) else {
        panic!("the backend accepts everything");
    };
    assert_eq!(actions.len(), 3);
    assert!(matches!(actions[0], Action::Send(Message::Desktop { .. })));
    assert!(matches!(actions[1], Action::Send(Message::Touchpads { .. })));
    assert!(matches!(
        actions[2],
        Action::Send(Message::LockState { locked: false })
    ));
    c.on_desktop(desktop(&["A", "B"]));
    assert_eq!(c.on_touchpads(&Vec::new()), Ok(()));
    assert!(c.on_peer_lock(false).unwrap().is_empty());
    c
}

fn position(id: &str, fraction: f64) -> EdgePosition {
    EdgePosition {
        edge_id: id.into(),
        fraction: number(fraction),
    }
}

fn sending() -> Coordinator<Sink> {
    let mut c = connected();
    assert_eq!(c.arm(0), Some(vec![0, 1]));
    assert!(c.starting(1));
    let actions = c
        .on_started(1, 1, number(0.25), &BTreeSet::new(), 0)
        .unwrap();
    assert!(matches!(
        &actions[..],
        [Action::Send(Message::Begin { session: 1, entry })] if entry.edge_id == "side"
    ));
    c
}

fn receiving() -> Coordinator<Sink> {
    let mut c = connected();
    c.arm(0).unwrap();
    assert!(c.could_receive("side"));
    let actions = c.on_begin(7, position("side", 0.5), false).unwrap();
    assert!(matches!(&actions[..], [Action::Place { edge: 1, .. }]));
    c
}

fn key(code: u16, pressed: bool) -> InputEvent {
    InputEvent::Key { code, pressed }
}

#[test]
fn a_crossing_starts_a_session_with_the_keys_that_are_held() {
    let mut c = connected();
    c.arm(0).unwrap();
    let actions = c
        .on_started(1, 0, number(0.5), &BTreeSet::from([42, 29]), 0)
        .unwrap();
    assert_eq!(actions.len(), 3);
    for (index, code) in [29, 42].into_iter().enumerate() {
        assert!(matches!(
            &actions[index + 1],
            Action::Send(Message::Input { session: 1, sequence, event })
                if *sequence == index as u64 && *event == key(code, true)
        ));
    }
    assert_eq!(c.role.name(), "sending");
    let next = c.on_key(key(30, true), 0).unwrap();
    assert!(matches!(
        &next[..],
        [Action::Send(Message::Input { sequence: 2, .. })]
    ));
    assert_eq!(c.next_session, 2);
}

#[test]
fn the_emergency_chord_takes_control_back_and_is_not_sent() {
    let mut c = sending();
    for code in [29, 56, 42] {
        c.on_key(key(code, true), 0).unwrap();
    }
    let actions = c.on_key(key(1, true), 100).unwrap();
    assert!(matches!(
        &actions[..],
        [
            Action::Send(Message::End { session: 1, exit: None }),
            Action::StopCapture,
            Action::Place { edge: 1, .. }
        ]
    ));
    assert!(matches!(c.role, Role::Local));
    assert_eq!(c.rearm_at, 150_100);
    assert!(c.on_key(key(30, true), 100).unwrap().is_empty());
    assert!(c.arm(150_099).is_none());
    assert!(c.arm(150_100).is_some());
    let held = BTreeSet::from([1, 29, 56, 42]);
    let refused = c.on_started(2, 0, number(0.5), &held, 150_300).unwrap();
    assert!(matches!(&refused[..], [Action::StopCapture]));
    assert!(matches!(c.role, Role::Local));
}

#[test]
fn crossing_back_returns_control_through_another_connection() {
    let mut c = receiving();
    let press = key(30, true);
    assert!(c.on_input(7, 0, &press, 0, false).unwrap().is_empty());
    let actions = c
        .on_started(1, 0, number(0.75), &BTreeSet::new(), 10)
        .unwrap();
    assert!(matches!(
        &actions[..],
        [
            Action::Send(Message::End { session: 7, exit: Some(exit) }),
            Action::StopCapture,
            Action::Place { edge: 0, .. }
        ] if exit.edge_id == "main"
    ));
    assert!(c.receiver.sink.0 == vec![press, key(30, false)]);
    let mut sender = sending();
    let placed = sender.on_end(1, Some(position("main", 0.75)), 10).unwrap();
    assert!(matches!(
        &placed[..],
        [Action::StopCapture, Action::Place { edge: 0, .. }]
    ));
    let mut unknown = sending();
    let fallback = unknown.on_end(1, Some(position("gone", 0.75)), 10).unwrap();
    assert!(matches!(
        &fallback[..],
        [Action::StopCapture, Action::Place { edge: 1, .. }]
    ));
    assert!(sender.on_end(1, None, 10).unwrap().is_empty());
}

#[test]
fn somebody_at_this_computer_takes_control_back() {
    let mut c = receiving();
    let actions = c.on_physical(50).unwrap();
    assert!(matches!(
        &actions[..],
        [
            Action::Send(Message::End { session: 7, exit: None }),
            Action::StopCapture
        ]
    ));
    assert!(c.on_physical(50).unwrap().is_empty());
    let mut other = receiving();
    let during = other.on_input(7, 0, &key(30, true), 0, true).unwrap();
    assert_eq!(during.len(), 2);
    assert!(other.receiver.sink.0.is_empty());
    assert!(!other.receiving(7));
}

#[test]
fn either_lock_ends_sharing() {
    let mut c = sending();
    let actions = c.on_lock(false).unwrap();
    assert!(matches!(
        &actions[..],
        [
            Action::Send(Message::LockState { locked: true }),
            Action::Suspend,
            Action::Send(Message::End { session: 1, exit: None }),
            Action::StopCapture
        ]
    ));
    assert!(!c.wants_sample());
    assert_eq!(c.on_lock(true).unwrap().len(), 1);
    let mut c = sending();
    let actions = c.on_peer_lock(true).unwrap();
    assert!(matches!(
        &actions[..],
        [
            Action::Suspend,
            Action::Send(Message::End { session: 1, exit: None }),
            Action::StopCapture,
            Action::Place { edge: 1, .. }
        ]
    ));
    assert!(c.arm(1_000_000).is_none());
}

#[test]
fn a_connection_without_its_output_is_not_used_while_others_are() {
    let mut c = receiving();
    let Action::Send(Message::Desktop { info }) = c.on_outputs(vec![output("A")]) else {
        panic!("the outputs are announced");
    };
    assert_eq!(info.outputs.len(), 1);
    let actions = c.refresh().unwrap();
    assert!(matches!(
        &actions[..],
        [
            Action::Send(Message::End { session: 7, exit: None }),
            Action::StopCapture
        ]
    ));
    assert_eq!(c.usable_edges(), vec![0]);
    assert_eq!(c.arm(1_000_000), Some(vec![0]));
    assert!(c.refresh().unwrap().is_empty());
    c.on_outputs(vec![output("A"), output("B")]);
    assert!(matches!(&c.refresh().unwrap()[..], [Action::StopCapture]));
    assert_eq!(c.reason(), None);
    c.on_outputs(Vec::new());
    assert_eq!(c.reason(), Some("output_unavailable"));
    assert!(c.arm(1_000_000).is_none());
}

#[test]
fn events_of_an_old_capture_are_ignored() {
    let mut c = connected();
    c.arm(0).unwrap();
    assert!(!c.capture_ready());
    c.on_armed(0);
    assert!(!c.capture_ready());
    c.on_armed(1);
    assert!(c.capture_ready());
    assert!(!c.starting(0));
    assert!(c.on_started(0, 0, number(0.5), &BTreeSet::new(), 0).unwrap().is_empty());
    assert!(c.on_finished(0, StopCause::Escape, 0).unwrap().is_empty());
    assert!(matches!(
        &c.on_started(1, 9, number(0.5), &BTreeSet::new(), 0).unwrap()[..],
        [Action::StopCapture]
    ));
    assert!(!c.capture_ready());
}

#[test]
fn the_end_of_a_capture_ends_the_session() {
    let mut c = sending();
    let escaped = c.on_finished(1, StopCause::Escape, 10).unwrap();
    assert!(matches!(
        &escaped[..],
        [
            Action::Send(Message::End { session: 1, exit: None }),
            Action::StopCapture,
            Action::Place { edge: 1, .. }
        ]
    ));
    let mut c = sending();
    assert_eq!(c.on_finished(1, StopCause::UnsupportedInput, 10).unwrap().len(), 2);
    let mut c = sending();
    assert!(matches!(
        &c.on_capture_gone(10)[..],
        [
            Action::StopCapture,
            Action::Send(Message::End { session: 1, exit: None })
        ]
    ));
    assert!(c.on_capture_gone(10).is_empty());
    let mut c = sending();
    let released = c.on_release(10).unwrap();
    assert_eq!(released.len(), 3);
}

#[test]
fn input_is_numbered_and_late_input_is_refused() {
    let mut c = sending();
    let motion = || InputEvent::Motion {
        dx: number(1.0),
        dy: number(2.0),
    };
    for sequence in 0..3 {
        let actions = c.on_captured(1, motion(), 199_999).unwrap();
        assert!(matches!(
            &actions[..],
            [Action::Send(Message::Input { sequence: s, .. })] if *s == sequence
        ));
    }
    assert!(c.on_captured(1, key(30, true), 0).unwrap().is_empty());
    assert!(matches!(
        &c.on_touch(motion())[..],
        [Action::Send(Message::Input { sequence: 3, .. })]
    ));
    assert!(matches!(
        c.on_captured(1, motion(), 200_000),
        Err(Error::CaptureDelayed)
    ));
    assert!(matches!(c.on_key(motion(), 0), Err(Error::NotAKey)));
    let mut r = receiving();
    assert!(matches!(
        r.on_input(7, 0, &key(30, true), 200_000, false),
        Err(Error::InputDelayed)
    ));
    assert!(r.on_input(8, 0, &key(30, true), 0, false).unwrap().is_empty());
    assert!(matches!(
        r.on_input(7, 5, &key(30, true), 0, false),
        Err(Error::SequenceMismatch)
    ));
}

#[test]
fn the_last_number_is_used_before_the_connection_fails() {
    let mut c = sending();
    c.role = Role::Sending {
        session: 1,
        sequence: u64::MAX,
        origin: position("main", 0.5),
    };
    assert!(matches!(
        &c.on_key(key(30, true), 0).unwrap()[..],
        [
            Action::Send(Message::Input {
                sequence: u64::MAX,
                ..
            }),
            Action::Fail(Error::SequenceExhausted)
        ]
    ));
}

#[test]
fn a_session_is_refused_while_another_one_is_open() {
    let mut c = receiving();
    assert!(matches!(
        c.on_begin(8, position("main", 0.5), false),
        Err(Error::OverlappingSession)
    ));
    let mut s = sending();
    assert!(matches!(
        &s.on_begin(8, position("main", 0.5), false).unwrap()[..],
        [Action::Send(Message::End { session: 8, exit: None })]
    ));
    let mut busy = connected();
    assert!(matches!(
        &busy.on_begin(8, position("main", 0.5), true).unwrap()[..],
        [Action::Send(Message::End { session: 8, exit: None })]
    ));
    assert!(matches!(
        &busy.on_begin(8, position("gone", 0.5), false).unwrap()[..],
        [Action::Send(Message::End { session: 8, exit: None })]
    ));
    assert!(matches!(
        busy.on_begin(0, position("main", 0.5), false),
        Err(Error::ZeroSession)
    ));
    busy.next_session = u64::MAX;
    busy.arm(0).unwrap();
    assert!(matches!(
        busy.on_started(1, 0, number(0.5), &BTreeSet::new(), 0),
        Err(Error::SessionsExhausted)
    ));
}

#[test]
fn touchpads_are_negotiated_once_and_before_the_lock_state() {
    let Ok((mut c, _)) = Coordinator::new(
        desktop(&[]).edges,
        false,
        desktop(&["A"]),
        Sink(Vec::new()),
        Vec::new(),
        false,
        false,
        0,
    ) else {
        panic!("the backend accepts everything");
    };
    assert!(matches!(c.on_peer_lock(false), Err(Error::NegotiationIncomplete)));
    assert_eq!(c.on_touchpads(&Vec::new()), Ok(()));
    assert_eq!(c.on_touchpads(&Vec::new()), Err(Error::NegotiationRepeated));
}

#[test]
fn greetings_and_heartbeats_of_the_other_computer_are_answered() {
    let c = sending();
    assert_eq!(c.on_hello(), Error::HandshakeRepeated);
    assert!(matches!(
        c.on_ping(9),
        Action::Send(Message::Pong { nonce: 9 })
    ));
    let refusal = c.refuse_prepare("0".repeat(32), "settings_busy".into());
    match refusal {
        Action::Send(Message::Layout {
            message: LayoutMessage::Prepared { id, ok, error },
        }) => {
            assert_eq!(id.len(), 32);
            assert!(!ok);
            assert_eq!(error.as_deref(), Some("settings_busy"));
        }
        _ => panic!("unexpected action"),
    }
}

#[test]
fn heartbeats_are_sent_in_time_and_answered() {
    let mut c = connected();
    assert!(c.beat(199_999).is_none());
    for round in 0..18u64 {
        let now = 200_000 * (round + 1);
        assert!(matches!(
            c.beat(now),
            Some(Action::Send(Message::Ping { nonce })) if nonce == round
        ));
    }
    assert_eq!(c.on_pong(0, 4_000_000), None);
    assert_eq!(c.on_pong(1, 4_000_000), None);
    assert_eq!(c.on_pong(2, 4_000_000), Some(3_400_000));
    assert_eq!(c.on_pong(2, 4_000_000), None);
}

fn layout() -> LayoutRequest {
    LayoutRequest {
        local_edges: desktop(&[]).edges,
        peer_edges: desktop(&[]).edges,
        local_revision: "0".repeat(64),
        peer_revision: "0".repeat(64),
    }
}

#[test]
fn a_layout_change_is_agreed_on_by_both_computers() {
    let id = || "0123456789abcdef0123456789abcdef".to_string();
    let mut asking = sending();
    assert_eq!(asking.check_apply(&layout()), Ok(()));
    let actions = asking.on_apply(id(), layout(), 0).unwrap();
    assert!(matches!(
        &actions[..],
        [
            Action::Send(Message::End { session: 1, exit: None }),
            Action::StopCapture,
            Action::Send(Message::Layout { message: LayoutMessage::Prepare { .. } })
        ]
    ));
    assert_eq!(asking.check_apply(&layout()), Err(Error::SettingsBusy));
    assert!(asking.arm(1_000_000).is_none());
    let mut asked = connected();
    assert_eq!(asked.check_prepare(), Ok(()));
    assert!(matches!(
        &asked.on_prepare(id(), 0).unwrap()[..],
        [Action::Send(Message::Layout {
            message: LayoutMessage::Prepared { ok: true, .. }
        })]
    ));
    assert!(matches!(asking.on_prepared(&id(), true, None), Agreement::Commit));
    assert!(matches!(
        asking.on_prepared(&"other".to_string(), true, None),
        Agreement::Ignored
    ));
    assert!(matches!(
        &asking.on_agreed(id(), None)[..],
        [Action::Send(Message::Layout {
            message: LayoutMessage::Commit { .. }
        })]
    ));
    assert!(asked.commits(&id()));
    assert!(!asking.commits(&id()));
    let done = asked.on_committed(id(), Ok("1".repeat(64)));
    assert!(matches!(
        &done[..],
        [
            Action::FinishLayout,
            Action::Send(Message::Layout { message: LayoutMessage::Result { ok: true, .. } }),
            Action::Reconnect
        ]
    ));
    let applied = asking.on_result(&id(), true, Some("1".repeat(64)), None);
    assert!(matches!(
        &applied[..],
        [
            Action::FinishLayout,
            Action::ReplyApplied { .. },
            Action::Reconnect
        ]
    ));
}

#[test]
fn a_layout_change_that_fails_is_given_up_on_both_computers() {
    let id = || "0123456789abcdef0123456789abcdef".to_string();
    let mut asking = connected();
    asking.on_apply(id(), layout(), 0).unwrap();
    assert!(matches!(
        asking.on_prepared(&id(), false, None),
        Agreement::Refused(code) if code == "operation_failed"
    ));
    assert!(matches!(
        &asking.on_agreed(id(), Some("settings_conflict".into()))[..],
        [
            Action::Send(Message::Layout { message: LayoutMessage::Abort { .. } }),
            Action::ReplyFailure(code),
            Action::DiscardLayout
        ] if code == "settings_conflict"
    ));
    let mut late = connected();
    late.on_apply(id(), layout(), 0).unwrap();
    assert!(late.expire_layout(5_999_999).is_empty());
    assert!(matches!(
        &late.expire_layout(6_000_000)[..],
        [
            Action::Send(Message::Layout { message: LayoutMessage::Abort { .. } }),
            Action::ReplyFailure(code),
            Action::DiscardLayout
        ] if code == "layout_unconfirmed"
    ));
    let mut asked = connected();
    asked.on_prepare(id(), 0).unwrap();
    assert!(asked.on_abort(&"other".to_string()).is_empty());
    assert!(matches!(&asked.on_abort(&id())[..], [Action::DiscardLayout]));
    let mut failing = connected();
    failing.on_prepare(id(), 0).unwrap();
    assert!(matches!(
        &failing.on_committed(id(), Err("output_unavailable".into()))[..],
        [
            Action::Send(Message::Layout { message: LayoutMessage::Result { ok: false, .. } }),
            Action::DiscardLayout
        ]
    ));
    let mut refused = connected();
    refused.on_apply(id(), layout(), 0).unwrap();
    assert!(matches!(
        &refused.on_result(&id(), false, None, Some("layout_invalid".into()))[..],
        [Action::ReplyFailure(code), Action::DiscardLayout] if code == "layout_invalid"
    ));
}

#[test]
fn each_reason_against_a_layout_change_is_told() {
    let mut c = connected();
    let mut stale = layout();
    stale.peer_revision = "1".repeat(64);
    assert_eq!(c.check_apply(&stale), Err(Error::SettingsConflict));
    let mut short = layout();
    short.local_revision.clear();
    assert_eq!(c.check_apply(&short), Err(Error::InvalidRevision));
    c.saveable = false;
    assert_eq!(c.check_apply(&layout()), Err(Error::ConfigInvalid));
    assert_eq!(c.check_prepare(), Err(Error::ConfigInvalid));
    c.peer_desktop = None;
    assert_eq!(c.check_apply(&layout()), Err(Error::PeerOffline));
    c.on_peer_lock(true).unwrap();
    assert_eq!(c.check_apply(&layout()), Err(Error::SessionLocked));
    assert_eq!(c.check_prepare(), Err(Error::SessionLocked));
}

#[test]
fn closing_the_connection_releases_what_is_held() {
    let mut c = receiving();
    c.on_input(7, 0, &key(29, true), 0, false).unwrap();
    let (actions, release) = c.close();
    assert!(matches!(
        &actions[..],
        [Action::Suspend, Action::StopCapture]
    ));
    assert_eq!(release, Ok(()));
    assert!(c.receiver.sink.0 == vec![key(29, true), key(29, false)]);
}

#[test]
fn failing_to_let_go_comes_before_the_outcome_of_a_connection() {
    assert!(matches!(ending(true, Ok(())), Ending::Outcome));
    assert!(matches!(
        ending(true, Err(Error::CleanupIncomplete)),
        Ending::ReleaseFailed(Error::CleanupIncomplete)
    ));
    assert!(matches!(
        ending(false, Err(Error::CleanupIncomplete)),
        Ending::CaptureStuck
    ));
    assert!(!capture_overdue(2_000_000));
    assert!(capture_overdue(2_000_001));
}
