use niri_bridge::error::Error;
use niri_bridge::input::{
    emergency_modifiers, ControlState, HeldInputs, Mode, PhysicalKeys, StopReason,
};
use niri_bridge::protocol::InputEvent;
use std::collections::BTreeSet;

#[test]
fn physical_key_aggregation_preserves_fast_taps_and_overlapping_devices() {
    let mut keys = PhysicalKeys::default();
    keys.update(0, 42, true).unwrap();
    keys.update(1, 42, true).unwrap();
    keys.update(0, 42, false).unwrap();
    assert!(keys.held().contains(&42));
    keys.disconnect(1).unwrap();
    keys.update(0, 30, true).unwrap();
    keys.update(0, 30, false).unwrap();
    let events = keys.drain();
    assert!(
        events
            == [(42, true), (42, false), (30, true), (30, false)]
                .map(|(code, pressed)| InputEvent::Key { code, pressed })
    );
    assert!(keys.held().is_empty());
    assert!(keys.drain().is_empty());
}

#[test]
fn physical_keys_ignore_pointer_buttons_and_bound_the_queue() {
    let mut keys = PhysicalKeys::default();
    keys.update(0, 272, true).unwrap();
    assert!(keys.held().is_empty());
    for index in 0..512 {
        keys.update(0, 30, index % 2 == 0).unwrap();
    }
    assert!(keys.update(0, 30, true).is_err());
}

#[test]
fn disconnect_releases_modifiers_and_buttons_once() {
    let mut state = ControlState::default();
    assert!(state.start(Mode::Receiving));
    state.press(29);
    state.press(272);
    state.press(29);
    let effects = state.stop(StopReason::Disconnected);
    assert_eq!(effects.release_codes, vec![29, 272]);
    assert!(!effects.notify_peer);
    assert_eq!(state.mode(), Mode::Local);
    assert!(
        state
            .stop(StopReason::Disconnected)
            .release_codes
            .is_empty()
    );
}

#[test]
fn receiver_physical_input_ends_remote_control() {
    let mut state = ControlState::default();
    state.start(Mode::Receiving);
    state.press(42);
    let effects = state.receiver_physical_activity().unwrap();
    assert_eq!(effects.release_codes, vec![42]);
    assert!(effects.notify_peer);
    assert_eq!(state.mode(), Mode::Local);
}

#[test]
fn source_physical_input_does_not_end_its_own_sending_session() {
    let mut state = ControlState::default();
    state.start(Mode::Sending);
    assert!(state.receiver_physical_activity().is_none());
    assert_eq!(state.mode(), Mode::Sending);
}

#[test]
fn repeated_unlocked_notification_preserves_an_active_session() {
    let mut state = ControlState::default();
    state.start(Mode::Sending);
    state.press(29);
    assert!(!state.local_lock_changed(false).release_capture);
    assert!(!state.peer_lock_changed(false).notify_peer);
    assert_eq!(state.mode(), Mode::Sending);
    assert_eq!(state.stop(StopReason::Emergency).release_codes, vec![29]);
}

#[test]
fn either_lock_stops_capture_and_unlock_does_not_restart_sharing() {
    let mut state = ControlState::default();
    state.start(Mode::Sending);
    state.press(125);
    let effects = state.peer_lock_changed(true);
    assert!(effects.release_capture);
    assert_eq!(effects.release_codes, vec![125]);
    assert_eq!(state.mode(), Mode::Paused);
    assert!(!state.start(Mode::Sending));
    state.local_lock_changed(true);
    state.peer_lock_changed(false);
    assert_eq!(state.mode(), Mode::Paused);
    state.local_lock_changed(false);
    assert_eq!(state.mode(), Mode::Local);
}

#[test]
fn a_full_queue_names_its_reason() {
    let mut keys = PhysicalKeys::default();
    for index in 0..512 {
        keys.update(0, 30, index % 2 == 0).unwrap();
    }
    keys.update(0, 30, true).unwrap_err();
    keys.update(0, 31, true).unwrap_err();
    assert_eq!(keys.disconnect(0), Err(Error::KeyboardQueueFull));
    let held = keys.held();
    assert!(!held.contains(&30) && held.contains(&31));
}

#[test]
fn the_emergency_chord_takes_a_modifier_of_each_kind() {
    let left = BTreeSet::from([29u16, 56, 42]);
    let mixed = BTreeSet::from([97u16, 100, 54, 30]);
    let partial = BTreeSet::from([29u16, 97, 42]);
    assert!(emergency_modifiers(&left));
    assert!(emergency_modifiers(&mixed));
    assert!(!emergency_modifiers(&partial));
}

#[test]
fn held_inputs_are_released_in_order() {
    let mut held = HeldInputs::default();
    assert!(held.is_empty());
    assert!(held.press(272));
    assert!(held.press(29));
    assert!(!held.press(29));
    assert!(!held.release(30));
    assert_eq!(held.release_all(), vec![29, 272]);
    assert!(held.is_empty());
}
