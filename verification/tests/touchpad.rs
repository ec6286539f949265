use niri_bridge::error::Error;
use niri_bridge::touchpad::clock::{monotonic_us, RemoteClock};
use niri_bridge::touchpad::router::{RawEvent, Router};
use niri_bridge::touchpad::state::{AxisReading, DeviceReading, TouchState};
use niri_bridge::touchpad::virtual_pad::VirtualTouchpad;
use niri_bridge::touchpad::{validate_frame, AxisInfo, Descriptor, DeviceInfo, Event};

#[test]
fn batched_arrivals_keep_hardware_frame_intervals_for_pointer_acceleration() {
    let mut clock = RemoteClock::default();
    assert_eq!(clock.map(100_000, 2_000_000), 2_000_000);
    assert_eq!(clock.map(108_000, 2_010_000), 2_008_000);
    assert_eq!(clock.map(116_000, 2_018_000), 2_016_000);
    let first = clock.map(124_000, 2_040_000);
    let second = clock.map(132_000, 2_040_000);
    assert_eq!(second - first, 8_000);
    assert!(second <= 2_040_000);
}

#[test]
fn clock_rebasing_handles_different_uptimes_and_never_moves_backwards() {
    let mut clock = RemoteClock::default();
    let first = clock.map(9_000_000, 10_000);
    let second = clock.map(9_008_000, 18_001);
    assert_eq!(second - first, 8_000);
    let third = clock.map(9_016_000, 24_000);
    assert!((second..=24_000).contains(&third));
    assert!(clock.map(9_015_000, 25_000) >= third);
}

fn descriptor() -> Descriptor {
    Descriptor {
        keys: vec![272, 325, 328, 330, 333, 334, 335],
        properties: vec![0, 2],
        axes: [
            (0, 1000),
            (1, 1000),
            (47, 4),
            (53, 1000),
            (54, 1000),
            (57, 65535),
        ]
        .map(|(code, maximum)| AxisInfo {
            code,
            minimum: 0,
            maximum,
            fuzz: 0,
            flat: 0,
            resolution: if matches!(code, 0 | 1 | 53 | 54) {
                10
            } else {
                0
            },
        })
        .to_vec(),
    }
}

#[test]
fn native_contact_snapshot_preserves_each_finger_and_releases_all() {
    let descriptor = descriptor();
    descriptor.validate().unwrap();
    let mut state = TouchState::new(&descriptor);
    let frame = vec![
        Event::key(330, 1),
        Event::key(334, 1),
        Event::abs(47, 0),
        Event::abs(57, 12),
        Event::abs(53, 250),
        Event::abs(54, 600),
        Event::abs(47, 1),
        Event::abs(57, 13),
        Event::abs(53, 650),
        Event::abs(54, 600),
        Event::abs(0, 250),
        Event::abs(1, 600),
    ];
    descriptor.validate_frame(&frame).unwrap();
    state.apply(&frame);
    let snapshot = state.snapshot();
    descriptor.validate_frame(&snapshot).unwrap();
    let mut destination = TouchState::new(&descriptor);
    destination.apply(&snapshot);
    assert!(
        destination.contacts == state.contacts
            && destination.keys == state.keys
            && destination.axes == state.axes
    );
    let releases = destination.releases();
    descriptor.validate_frame(&releases).unwrap();
    destination.apply(&releases);
    assert!(destination.idle());
    assert!(destination.keys.is_empty());
}

#[test]
fn rejects_touchscreen_keyboard_keys_and_unbounded_axes() {
    let mut d = descriptor();
    d.properties.push(1);
    assert!(d.validate().is_err());
    let mut d = descriptor();
    d.keys.push(116);
    assert!(d.validate().is_err());
    let mut d = descriptor();
    d.axes.iter_mut().find(|a| a.code == 47).unwrap().maximum = 128;
    assert!(d.validate().is_err());
    let mut d = descriptor();
    d.axes[0].maximum = i32::MAX;
    assert!(d.validate().is_err());
}

#[test]
fn rejects_frames_before_they_can_index_a_slot_or_emit_unsupported_input() {
    let d = descriptor();
    assert!(d.validate_frame(&[Event::abs(47, 5)]).is_err());
    assert!(d.validate_frame(&[Event::abs(53, -1)]).is_err());
    assert!(d.validate_frame(&[Event::abs(57, -1)]).is_ok());
    assert!(d.validate_frame(&[Event::key(116, 1)]).is_err());
    assert!(d.validate_frame(&[Event::key(330, 2)]).is_err());
    assert!(d.validate_frame(&vec![Event::abs(0, 1); 513]).is_err());
}

#[test]
fn each_flaw_of_a_touchpad_has_its_own_reason() {
    let mut d = descriptor();
    d.keys.push(116);
    assert_eq!(d.validate(), Err(Error::UnsupportedTouchpadKeys));
    let mut d = descriptor();
    d.keys.push(330);
    assert_eq!(d.validate(), Err(Error::DuplicateTouchpadKey));
    let mut d = descriptor();
    d.keys = vec![272, 330];
    assert_eq!(d.validate(), Err(Error::MissingContactKeys));
    let mut d = descriptor();
    d.properties = vec![2];
    assert_eq!(d.validate(), Err(Error::UnsupportedTouchpadProperties));
    let mut d = descriptor();
    d.axes.truncate(3);
    assert_eq!(d.validate(), Err(Error::InvalidAxisCount));
    let mut d = descriptor();
    d.axes[1].code = 0;
    assert_eq!(d.validate(), Err(Error::UnsupportedAxis));
    let mut d = descriptor();
    d.axes[0].minimum = 2000;
    assert_eq!(d.validate(), Err(Error::InvalidAxisRange));
    let mut d = descriptor();
    d.axes[0].fuzz = 100_001;
    assert_eq!(d.validate(), Err(Error::InvalidAxisCalibration));
    let mut d = descriptor();
    d.axes.remove(3);
    assert_eq!(d.validate(), Err(Error::NotMultiTouch));
    let mut d = descriptor();
    d.axes[2].maximum = 32;
    assert_eq!(d.validate(), Err(Error::UnsupportedContactCount));
    assert_eq!(descriptor().slots(), 5);
}

#[test]
fn each_flaw_of_a_frame_has_its_own_reason() {
    let d = descriptor();
    assert_eq!(d.validate_frame(&[]), Err(Error::InvalidFrameSize));
    assert_eq!(d.validate_frame(&[Event::key(330, 2)]), Err(Error::InvalidTouchEvent));
    assert_eq!(d.validate_frame(&[Event::key(273, 1)]), Err(Error::KeyNotAdvertised));
    assert_eq!(d.validate_frame(&[Event::abs(24, 1)]), Err(Error::AxisNotAdvertised));
    assert_eq!(d.validate_frame(&[Event::abs(0, 1001)]), Err(Error::ValueOutsideAxis));
    assert_eq!(validate_frame(&[Event::abs(0, 1_000_001)]), Err(Error::InvalidTouchEvent));
    assert!(validate_frame(&[Event::abs(24, 1)]).is_ok());
}

#[test]
fn kernel_records_carry_kind_and_time() {
    let record = Event::key(330, 1).kernel(3_000_007);
    assert_eq!((record.seconds, record.microseconds), (3, 7));
    assert_eq!((record.event_type, record.code, record.value), (1, 330, 1));
    assert_eq!(Event::abs(53, 250).kernel(0).event_type, 3);
    assert_eq!(monotonic_us(2, 5_999), 2_000_005);
}

fn device() -> DeviceInfo {
    let d = descriptor();
    let mut keys = d.keys.clone();
    keys.push(116);
    DeviceInfo {
        keys: Some(keys),
        properties: d.properties,
        axes: d.axes,
    }
}

#[test]
fn a_device_is_described_by_its_touch_keys_only() {
    let d = Descriptor::from_device(&device()).unwrap();
    assert_eq!(d.keys, descriptor().keys);
    let mut silent = device();
    silent.keys = None;
    assert!(matches!(
        Descriptor::from_device(&silent),
        Err(Error::TouchpadKeysMissing)
    ));
}

fn raw(event_type: u16, code: u16, value: i32, time_us: u64) -> RawEvent {
    RawEvent {
        event_type,
        code,
        value,
        time_us,
    }
}

fn idle_reading() -> DeviceReading {
    let axis = |code: u16, value: i32| AxisReading {
        code,
        value,
        contacts: if code > 47 { vec![value; 5] } else { Vec::new() },
    };
    DeviceReading {
        keys: Vec::new(),
        axes: vec![axis(0, 10), axis(1, 20), axis(47, 0), axis(53, 0), axis(54, 0), axis(57, -1)],
    }
}

fn router() -> Router {
    let mut router = Router::new();
    assert_eq!(router.add_device(&device(), None), Ok(true));
    assert!(router.take_over(0, &idle_reading()).unwrap());
    router
}

#[test]
fn only_touchpads_that_are_no_virtual_devices_are_shared() {
    let mut router = Router::new();
    let mut screen = device();
    screen.properties.push(1);
    assert_eq!(router.add_device(&screen, None), Ok(false));
    assert_eq!(
        router.add_device(&device(), Some("niri-bridge/touchpad")),
        Err(Error::VirtualSource)
    );
    for _ in 0..4 {
        assert_eq!(router.add_device(&device(), Some("usb-1")), Ok(true));
    }
    assert_eq!(router.add_device(&device(), None), Err(Error::TooManyTouchpads));
    assert_eq!(router.descriptors().len(), 4);
    let mut broken = device();
    broken.axes[0].fuzz = -1;
    let mut other = Router::new();
    assert_eq!(
        other.add_device(&broken, None),
        Err(Error::InvalidAxisCalibration)
    );
}

#[test]
fn a_touched_device_is_not_taken_over() {
    let mut router = Router::new();
    router.add_device(&device(), None).unwrap();
    assert!(router.wants_grab(0, &vec![]));
    assert!(!router.wants_grab(0, &vec![330]));
    assert!(!router.wants_grab(0, &vec![272]));
    for held in [330, 272, 116] {
        let mut touched = idle_reading();
        touched.keys.push(held);
        assert_eq!(router.take_over(0, &touched), Ok(false));
    }
    let mut contact = idle_reading();
    contact.axes[5].contacts[2] = 9;
    assert_eq!(router.take_over(0, &contact), Ok(false));
    assert!(!router.pads[0].grabbed);
    let mut lost = idle_reading();
    lost.axes[2].value = 7;
    assert_eq!(router.take_over(0, &lost), Err(Error::InvalidCurrentSlot));
    let mut short = idle_reading();
    short.axes[3].contacts.pop();
    assert_eq!(router.take_over(0, &short), Err(Error::ContactsUnreadable));
    assert_eq!(router.take_over(0, &idle_reading()), Ok(true));
    assert!(!router.wants_grab(0, &vec![]));
}

#[test]
fn a_finished_frame_goes_to_the_mirror_or_waits_to_be_forwarded() {
    let mut router = router();
    assert!(router.sample(0, raw(3, 53, 100, 900), 1000).unwrap().active);
    assert!(router.sample(0, raw(1, 330, 1, 900), 1000).unwrap().active);
    let mirrored = router.sample(0, raw(0, 0, 0, 900), 1000).unwrap();
    assert!(!mirrored.active);
    let mirror = mirrored.mirror.unwrap();
    assert_eq!(mirror.emission.time_us, 900);
    assert!(mirror.frame == vec![Event::abs(53, 100), Event::key(330, 1)]);
    router.mirrored(0, &mirror.frame, mirror.emission.time_us);
    let snapshots = router.route(true);
    assert_eq!(snapshots.len(), 1);
    assert!(snapshots[0].1[0] == Event::key(330, 1));
    assert!(router.route(true).is_empty());
    router.sample(0, raw(3, 53, 120, 950), 1000).unwrap();
    assert!(router.sample(0, raw(0, 0, 0, 950), 1000).unwrap().mirror.is_none());
    let pending = router.drain();
    assert_eq!(pending.len(), 1);
    assert_eq!((pending[0].0, pending[0].1), (0, 950));
    assert!(router.drain().is_empty());
}

#[test]
fn lost_late_and_oversized_touch_input_is_refused() {
    let mut lossy = router();
    assert!(matches!(
        lossy.sample(0, raw(0, 3, 0, 0), 0),
        Err(Error::TouchpadEventsLost)
    ));
    let mut late = router();
    late.sample(0, raw(3, 53, 1, 0), 300_000).unwrap();
    assert!(matches!(
        late.sample(0, raw(0, 0, 0, 99_999), 300_000),
        Err(Error::TouchpadDelayed)
    ));
    let mut large = router();
    for _ in 0..512 {
        large.sample(0, raw(3, 53, 1, 0), 0).unwrap();
    }
    assert!(matches!(
        large.sample(0, raw(3, 53, 1, 0), 0),
        Err(Error::FrameTooLarge)
    ));
    let mut full = router();
    full.route(true);
    for _ in 0..128 {
        full.sample(0, raw(3, 53, 1, 0), 0).unwrap();
        full.sample(0, raw(0, 0, 0, 0), 0).unwrap();
    }
    full.sample(0, raw(3, 53, 1, 0), 0).unwrap();
    assert!(matches!(
        full.sample(0, raw(0, 0, 0, 0), 0),
        Err(Error::ForwardingQueueFull)
    ));
    assert_eq!(Router::check_queue(4096), Ok(()));
    assert_eq!(Router::check_queue(4097), Err(Error::TouchpadQueueFull));
}

#[test]
fn a_virtual_touchpad_orders_its_frames_and_starts_out_lifted() {
    let mut pad = VirtualTouchpad::create(&descriptor()).unwrap();
    let setup = VirtualTouchpad::axis_setup(&descriptor());
    assert_eq!(setup[5].value, -1);
    assert_eq!(setup[0].value, 0);
    let frame = [Event::abs(53, 10)];
    let first = pad.emit_at(&frame, 900, 1000).unwrap();
    assert_eq!(first.time_us, 900);
    assert_eq!(first.records.len(), 1);
    pad.emitted(&frame, first.time_us);
    assert_eq!(pad.emit_at(&frame, 800, 1000).unwrap().time_us, 900);
    assert!(matches!(
        pad.emit_at(&frame, 1001, 1000),
        Err(Error::TouchpadDelayed)
    ));
    assert!(matches!(
        pad.emit_remote(&[Event::abs(53, -1)], 5, 1000, 1000),
        Err(Error::ValueOutsideAxis)
    ));
    assert_eq!(pad.emit_remote(&frame, 5, 1000, 1000).unwrap().time_us, 1000);
    let releases = pad.releases();
    assert!(releases[0] == Event::key(330, 0));
    pad.reset();
    assert!(pad.state.idle());
}
