use niri_bridge::edges::{
    find_edge, valid_edge_id, validate_edges, EdgeConfig, EdgePosition,
};
use niri_bridge::error::Error;
use niri_bridge::geometry::{Boundary, Edge, Endpoint, Layout, Link, Rect, Screen};
use niri_bridge::number::Binary64;

fn number(value: f64) -> Binary64 {
    Binary64 {
        bits: value.to_bits(),
    }
}

fn rect(x: f64, y: f64, width: f64, height: f64) -> Rect {
    Rect {
        x: number(x),
        y: number(y),
        width: number(width),
        height: number(height),
    }
}

fn boundary(edge: Edge, start: f64, end: f64) -> Boundary {
    Boundary {
        edge,
        start: number(start),
        end: number(end),
    }
}

#[test]
fn invalid_coordinates_and_empty_spans_are_rejected() {
    let r = rect(0.0, 0.0, f64::INFINITY, 100.0);
    assert!(r.validate().is_err());
    assert!(boundary(Edge::Top, 0.5, 0.5).validate().is_err());
    assert!(boundary(Edge::Top, f64::NAN, 1.0).validate().is_err());
}

#[test]
fn a_screen_must_not_reach_beyond_the_largest_number() {
    assert_eq!(rect(f64::MAX, 0.0, 1.0, 1.0).validate(), Ok(()));
    assert_eq!(
        rect(f64::MAX, 0.0, f64::MAX, 1.0).validate(),
        Err(Error::InfiniteCoordinates)
    );
    assert_eq!(rect(-f64::MAX, 0.0, f64::MAX, 1.0).validate(), Ok(()));
    assert_eq!(rect(0.0, 0.0, 0.999, 1.0).validate(), Err(Error::ScreenTooSmall));
}

#[test]
fn overflow_of_a_sum_is_told_exactly() {
    let values = [
        0.0,
        -0.0,
        1.0,
        -1.0,
        f64::MIN_POSITIVE,
        5e-324,
        f64::MAX,
        -f64::MAX,
        f64::MAX / 2.0,
        9.9e291,
        9.979201547673598e291,
        9.9792015476736e291,
        1.0e292,
        1.99e292,
        1.9958403095347198e292,
        2.0e292,
        8.98846567431158e307,
        f64::INFINITY,
        f64::NEG_INFINITY,
        f64::NAN,
    ];
    for a in values {
        for b in values {
            assert_eq!(
                number(a).sum_is_finite(number(b)),
                a.is_finite() && b.is_finite() && (a + b).is_finite(),
                "{a} + {b}"
            );
        }
    }
}

#[test]
fn numbers_are_ordered_as_values() {
    let values = [-2.5, -1.0, -5e-324, -0.0, 0.0, 5e-324, 0.3, 1.0, 32768.0, 1e300];
    for a in values {
        for b in values {
            assert_eq!(number(a).at_most(number(b)), a <= b);
            assert_eq!(number(a).less_than(number(b)), a < b);
        }
        assert_eq!(number(a).is_within(number(0.0), number(1.0)), (0.0..=1.0).contains(&a));
        assert_eq!(number(a).is_bounded(number(1.0)), a.abs() <= 1.0);
    }
    for a in [-3.0, -0.0, 0.25, 1.0, 7.0, f64::INFINITY, f64::NEG_INFINITY] {
        assert_eq!(number(a).clamp_to_unit(), number(a.clamp(0.0, 1.0)));
    }
    assert_eq!(number(f64::NAN).clamp_to_unit(), number(f64::NAN));
    assert!(!number(f64::NAN).is_finite());
    assert!(!number(f64::NAN).is_bounded(number(1.0)));
}

#[test]
fn crossings_and_entries_are_checked_before_they_are_computed() {
    let span = boundary(Edge::Left, 0.2, 0.8);
    let screen = rect(-1490.0, -579.0, 1489.0, 2648.0);
    assert_eq!(span.check_crossing(screen, number(0.0), number(1.0)), Ok(()));
    assert_eq!(
        span.check_crossing(screen, number(f64::NAN), number(1.0)),
        Err(Error::PointerNotFinite)
    );
    assert_eq!(
        boundary(Edge::Left, 0.8, 0.2).check_crossing(screen, number(0.0), number(1.0)),
        Err(Error::InvalidBoundary)
    );
    assert_eq!(span.check_entry(screen, number(0.5), number(4.0)), Ok(()));
    assert_eq!(
        span.check_entry(screen, number(1.5), number(4.0)),
        Err(Error::InvalidFraction)
    );
    assert_eq!(
        span.check_entry(screen, number(0.5), number(0.0)),
        Err(Error::InvalidInset)
    );
    assert_eq!(
        span.check_entry(rect(0.0, 0.0, 0.0, 1.0), number(0.5), number(1.0)),
        Err(Error::ScreenTooSmall)
    );
}

fn screen(device: &str, output: &str) -> Screen {
    Screen {
        device: device.into(),
        output: output.into(),
        rect: rect(0.0, 0.0, 1920.0, 1200.0),
    }
}

fn endpoint(device: &str, output: &str) -> Endpoint {
    Endpoint {
        device: device.into(),
        output: output.into(),
        boundary: boundary(Edge::Top, 0.0, 1.0),
    }
}

fn layout() -> Layout {
    Layout {
        screens: vec![screen("desktop", "DP-2"), screen("laptop", "eDP-1")],
        link: Link {
            a: endpoint("desktop", "DP-2"),
            b: endpoint("laptop", "eDP-1"),
        },
    }
}

#[test]
fn each_flaw_of_a_layout_has_its_own_reason() {
    assert_eq!(layout().validate(), Ok(()));
    let mut l = layout();
    l.screens[1].output = " \u{3000}\t".into();
    assert_eq!(l.validate(), Err(Error::EmptyScreenName));
    let mut l = layout();
    l.screens[0].rect = rect(0.0, 0.0, 0.5, 1.0);
    assert_eq!(l.validate(), Err(Error::ScreenTooSmall));
    let mut l = layout();
    l.screens.push(screen("desktop", "DP-2"));
    assert_eq!(l.validate(), Err(Error::DuplicateScreen));
    let mut l = layout();
    l.link.b.device = "desktop".into();
    assert_eq!(l.validate(), Err(Error::LinkWithinDevice));
    let mut l = layout();
    l.link.b.output = "HDMI-1".into();
    assert_eq!(l.validate(), Err(Error::UnknownScreen));
    let mut l = layout();
    l.link.a.boundary = boundary(Edge::Top, -0.1, 1.0);
    assert_eq!(l.validate(), Err(Error::InvalidBoundary));
}

#[test]
fn edges_have_names() {
    for edge in [Edge::Top, Edge::Bottom, Edge::Left, Edge::Right] {
        assert_eq!(Edge::from_name(edge.as_str()), Some(edge));
    }
    assert_eq!(Edge::Right.as_str(), "right");
    assert_eq!(Edge::from_name("upper"), None);
}

fn edge(id: &str, output: &str, side: Edge, start: f64, end: f64) -> EdgeConfig {
    EdgeConfig {
        id: id.into(),
        output: output.into(),
        boundary: boundary(side, start, end),
    }
}

#[test]
fn connections_are_distinct_and_do_not_overlap() {
    let good = vec![
        edge("primary", "DP-1", Edge::Top, 0.0, 0.5),
        edge("side", "DP-1", Edge::Top, 0.5, 1.0),
        edge("other", "DP-1", Edge::Left, 0.0, 1.0),
        edge("screen", "DP-2", Edge::Top, 0.0, 1.0),
    ];
    assert_eq!(validate_edges(&good), Ok(()));
    assert_eq!(find_edge(&good, "other"), Some(2));
    assert_eq!(find_edge(&good, "missing"), None);
    assert_eq!(validate_edges(&Vec::new()), Err(Error::InvalidEdgeCount));
    let many: Vec<EdgeConfig> = (0..17)
        .map(|i| edge(&format!("e{i}"), &format!("o{i}"), Edge::Top, 0.0, 1.0))
        .collect();
    assert_eq!(validate_edges(&many), Err(Error::InvalidEdgeCount));
    let twice = vec![
        edge("a", "DP-1", Edge::Top, 0.0, 0.5),
        edge("a", "DP-2", Edge::Top, 0.0, 0.5),
    ];
    assert_eq!(validate_edges(&twice), Err(Error::DuplicateEdgeId));
    let overlapping = vec![
        edge("a", "DP-1", Edge::Top, 0.0, 0.51),
        edge("b", "DP-1", Edge::Top, 0.5, 1.0),
    ];
    assert_eq!(validate_edges(&overlapping), Err(Error::OverlappingEdges));
    let nameless = vec![edge("", "DP-1", Edge::Top, 0.0, 1.0)];
    assert_eq!(validate_edges(&nameless), Err(Error::InvalidEdgeId));
    let inverted = vec![edge("a", "DP-1", Edge::Top, 1.0, 0.0)];
    assert_eq!(validate_edges(&inverted), Err(Error::InvalidBoundary));
    assert!(valid_edge_id(&"x".repeat(64)));
    assert!(!valid_edge_id("caf\u{e9}"));
    let outside = EdgePosition {
        edge_id: "a".into(),
        fraction: number(-0.5),
    };
    assert_eq!(outside.validate(), Err(Error::InvalidEdgePosition));
}
