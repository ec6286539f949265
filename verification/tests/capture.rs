use niri_bridge::capture_probe::{
    check_options, strip_bytes, strip_placement, Capture, Event, Options, StopCause, Strip,
};
use niri_bridge::error::Error;
use niri_bridge::geometry::Edge;
use niri_bridge::number::Binary64;
use niri_bridge::protocol::{Axis, InputEvent, ScrollSource};
use niri_bridge::verify_input::Sightings;

fn number(value: f64) -> Binary64 {
    Binary64 {
        bits: value.to_bits(),
    }
}

fn strip() -> Strip {
    Strip {
        output_id: 3,
        horizontal: true,
        extent: 100,
        armed: false,
        pointer_inside: false,
    }
}

fn crossed() -> Capture {
    let mut capture = Capture::new(true, vec![strip(), strip()]);
    assert!(matches!(&capture.arm()[..], [Event::Armed]));
    assert_eq!(capture.pointer_enter(1, number(1.5), false, true), (true, true));
    capture
}

fn complete() -> Capture {
    let mut capture = crossed();
    capture.keyboard_enter(&Vec::new(), true);
    capture.pointer_locked();
    assert_eq!(capture.shortcuts_inhibited().len(), 2);
    capture
}

#[test]
fn a_capture_starts_once_pointer_keyboard_and_shortcuts_are_held() {
    let mut capture = crossed();
    assert!(capture.button(272, true).is_empty());
    assert!(capture.keyboard_enter(&vec![42, 42, 70000], true).is_empty());
    assert!(capture.pointer_locked().is_empty());
    let events = capture.shortcuts_inhibited();
    assert_eq!(events.len(), 4);
    assert!(matches!(
        events[0],
        Event::Started { edge: 1, fraction } if fraction == number(1.0)
    ));
    assert!(matches!(
        events[1],
        Event::Input(InputEvent::Button { code: 272, pressed: true })
    ));
    assert!(matches!(
        events[2],
        Event::Input(InputEvent::Key { code: 42, pressed: true })
    ));
    assert!(matches!(events[3], Event::Ready));
    assert!(matches!(
        &capture.key(30, true)[..],
        [Event::Input(InputEvent::Key { code: 30, pressed: true })]
    ));
    assert!(capture.key(30, true).is_empty());
    assert_eq!(capture.counts.keyboard_events, 2);
    assert_eq!(capture.counts.button_events, 1);
}

#[test]
fn a_pointer_at_the_edge_has_to_leave_first() {
    let mut capture = Capture::new(true, vec![strip()]);
    assert_eq!(capture.pointer_enter(0, number(0.5), false, true), (false, false));
    capture.arm();
    assert_eq!(capture.pointer_enter(0, number(0.5), false, true), (false, false));
    capture.pointer_leave(0);
    assert_eq!(capture.pointer_enter(0, number(0.5), false, false), (true, false));
    assert_eq!(capture.pointer_enter(0, number(0.5), false, true), (true, true));
    assert_eq!(capture.pointer_enter(9, number(0.5), false, true), (false, false));
}

#[test]
fn the_emergency_chord_ends_a_stream_and_escape_a_probe() {
    let mut capture = complete();
    assert_eq!(capture.key(1, true).len(), 1);
    assert!(!capture.finished);
    assert_eq!(capture.key(1, false).len(), 1);
    for code in [29, 56, 42] {
        capture.key(code, true);
    }
    assert!(capture.key(1, true).is_empty());
    assert_eq!(capture.counts.stop_reason, Some(StopCause::Escape));
    assert!(capture.key(30, true).is_empty());
    let mut probe = Capture::new(false, vec![Strip { armed: true, ..strip() }]);
    probe.pointer_enter(0, number(0.5), false, true);
    assert!(probe.key(1, true).is_empty());
    assert_eq!(probe.close(true), StopCause::Escape);
    assert_eq!(probe.close(false).as_str(), "escape");
}

#[test]
fn each_end_of_a_capture_has_its_cause() {
    let cause = |change: fn(&mut Capture)| {
        let mut capture = complete();
        change(&mut capture);
        capture.counts.stop_reason
    };
    assert_eq!(cause(|c| drop(c.key(70000, true))), Some(StopCause::UnsupportedInput));
    assert_eq!(cause(|c| drop(c.button(100, true))), Some(StopCause::UnsupportedInput));
    assert_eq!(cause(|c| drop(c.button(70000, true))), None);
    assert_eq!(
        cause(|c| drop(c.keyboard_enter(&Vec::new(), false))),
        Some(StopCause::InvalidKeyState)
    );
    assert_eq!(cause(|c| c.keyboard_leave()), Some(StopCause::KeyboardFocusLost));
    assert_eq!(cause(|c| c.shortcuts_restored()), Some(StopCause::ShortcutsInhibitorLost));
    assert_eq!(cause(|c| c.output_changed(4)), None);
    assert_eq!(cause(|c| c.output_changed(3)), Some(StopCause::OutputConfigurationChanged));
    assert_eq!(cause(|c| c.seat_changed(true, true)), None);
    assert_eq!(cause(|c| c.seat_changed(true, false)), Some(StopCause::SeatRemoved));
    assert_eq!(cause(|c| c.finish(StopCause::PointerUnlocked)), Some(StopCause::PointerUnlocked));
    let mut idle = Capture::new(true, vec![Strip { armed: true, ..strip() }]);
    assert_eq!(idle.pointer_enter(0, number(0.5), true, true), (true, false));
    assert_eq!(idle.counts.stop_reason, Some(StopCause::Cancelled));
    let mut silent = Capture::new(false, vec![strip()]);
    assert!(silent.goes_on(14_999, 15));
    assert!(!silent.goes_on(15_000, 15));
    assert_eq!(silent.close(false), StopCause::ConnectionError);
    let mut timed = Capture::new(false, vec![strip()]);
    assert_eq!(timed.close(true), StopCause::Timeout);
    let mut full = crossed();
    for _ in 0..128 {
        full.motion(number(1.0), number(1.0));
    }
    assert!(!full.finished);
    full.motion(number(1.0), number(1.0));
    assert_eq!(full.counts.stop_reason, Some(StopCause::EventQueueUnavailable));
}

#[test]
fn scrolling_carries_its_source() {
    let mut capture = complete();
    capture.axis_source(ScrollSource::Finger);
    assert!(matches!(
        &capture.scroll(Axis::Vertical, number(2.0))[..],
        [Event::Input(InputEvent::Scroll { source: ScrollSource::Finger, .. })]
    ));
    assert!(matches!(
        &capture.scroll_stop(Axis::Horizontal)[..],
        [Event::Input(InputEvent::ScrollStop {
            axis: Axis::Horizontal,
            source: ScrollSource::Finger
        })]
    ));
    assert_eq!(capture.counts.scroll_events, 1);
}

fn options() -> Options {
    Options {
        output: "eDP-1".into(),
        edge: Edge::Left,
        start: number(0.0),
        end: number(1.0),
        seconds: 15,
    }
}

#[test]
fn each_flaw_of_the_options_has_its_own_reason() {
    assert_eq!(check_options(&vec![options()], false), Ok(()));
    assert_eq!(check_options(&vec![options(), options()], true), Ok(()));
    assert_eq!(
        check_options(&vec![options(), options()], false),
        Err(Error::ProbeNeedsOneEdge)
    );
    assert_eq!(check_options(&Vec::new(), true), Err(Error::InvalidCaptureCount));
    let mut o = options();
    o.seconds = 31;
    assert_eq!(o.validate(), Err(Error::InvalidDuration));
    let mut o = options();
    o.output.clear();
    assert_eq!(o.validate(), Err(Error::OutputNotChosen));
    let mut o = options();
    o.end = number(2.0);
    assert_eq!(check_options(&vec![o], true), Err(Error::InvalidBoundary));
}

#[test]
fn strips_lie_along_their_edge() {
    let left = strip_placement(Edge::Left, 10, 300).unwrap();
    assert_eq!((left.margin_top, left.margin_left), (10, 0));
    assert_eq!((left.width, left.height), (2, 300));
    let bottom = strip_placement(Edge::Bottom, 10, 300).unwrap();
    assert!(bottom.bottom && !bottom.right);
    assert_eq!((bottom.margin_top, bottom.margin_left), (0, 10));
    assert_eq!((bottom.width, bottom.height), (300, 2));
    assert!(matches!(strip_placement(Edge::Top, 0, 0), Err(Error::SpanTooNarrow)));
    assert_eq!(strip_bytes(1920, 2), Ok(15360));
    assert_eq!(strip_bytes(0, 2), Err(Error::InvalidStripSize));
    assert_eq!(strip_bytes(32768, 33), Err(Error::StripTooLarge));
}

#[test]
fn probe_events_are_ticked_off() {
    let mut seen = Sightings::new();
    for (code, pressed) in [(42, true), (42, false), (194, true), (194, false)] {
        seen.note(&Event::Input(InputEvent::Key { code, pressed })).unwrap();
    }
    seen.note(&Event::Input(InputEvent::Motion {
        dx: number(7.0),
        dy: number(5.0),
    }))
    .unwrap();
    seen.note(&Event::Input(InputEvent::Scroll {
        axis: Axis::Vertical,
        amount: number(2.0),
        source: ScrollSource::Wheel,
    }))
    .unwrap();
    assert!(!seen.complete());
    seen.note(&Event::Input(InputEvent::Scroll {
        axis: Axis::Vertical,
        amount: number(2.0),
        source: ScrollSource::Finger,
    }))
    .unwrap();
    assert!(seen.complete());
    assert_eq!(
        seen.note(&Event::Finished {
            reason: StopCause::Escape
        }),
        Err(Error::CaptureInterrupted)
    );
}
