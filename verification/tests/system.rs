use niri_bridge::activity::{profiles_match, ActivityMonitor, Record};
use niri_bridge::control::Desktop;
use niri_bridge::desktop::{
    check_owner, complete_outputs, compositor_pid, detect, is_niri, output_manager, output_names,
    Global, Kind, Metadata, Process,
};
use niri_bridge::doctor::{
    check_probe, inspect, portal_capabilities, relevant, wayland_capabilities, DeviceAccess,
    Protocol,
};
use niri_bridge::edges::EdgeConfig;
use niri_bridge::ei::{check_point, Devices, Step};
use niri_bridge::error::Error;
use niri_bridge::geometry::{Boundary, Edge};
use niri_bridge::hex::encode;
use niri_bridge::identity::{certificate_request, check_directory, create, is_label, DirectoryFacts, Usage};
use niri_bridge::net_probe::{answer, check_answer, sorted, summarize};
use niri_bridge::niri::{
    accept_reply, active_outputs, decode_reply, outputs_of, same_outputs, version_of,
    LogicalOutput, Mode, Output, Transform,
};
use niri_bridge::number::Binary64;
use niri_bridge::pointer::{
    backend_for, check_negotiation, event_time, inverse_normalized, pointer_request, Backend,
    Coordinate, PointerRequest,
};
use niri_bridge::portal::{
    check_granted, check_response, request_path, request_token, session_token,
};
use niri_bridge::protocol::{InputEvent, Message};
use niri_bridge::session::{announce, is_known, is_unlocked, read_status, SessionFacts, Status};
use niri_bridge::text::{decimal, signed_decimal};
use niri_bridge::transport::{
    check_greeting, check_key_file, check_protocol, check_server_name, greeting, load_certificate,
    load_private_key, FileFacts, KeyKind,
};
use niri_bridge::uinput::{is_opened, key_record};
use niri_bridge::verify_input::{
    any_own_layer, chord, chord_strokes, focused_window, has_own_layer, is_own_layer, keys_idle,
    overview_open,
};

fn number(value: f64) -> Binary64 {
    Binary64 {
        bits: value.to_bits(),
    }
}

#[test]
fn does_not_report_an_error_reply_as_a_success() {
    assert!(decode_reply(r#"{"Err":"private detail"}"#).is_err());
}

#[test]
fn a_successful_reply_is_taken_apart() {
    assert_eq!(
        accept_reply("{\"Ok\":{\"Version\":\"example\"}}\n"),
        Ok("{\"Version\":\"example\"}".to_string())
    );
    assert_eq!(accept_reply("{\"Ok\":1}"), Err(Error::IncompleteReply));
    assert_eq!(decode_reply("{"), Err(Error::InvalidReply));
    assert_eq!(decode_reply("[1]"), Err(Error::NiriRejected));
    assert_eq!(outputs_of("{\"Outputs\":{}}"), Ok("{}".to_string()));
    assert_eq!(outputs_of("{\"Windows\":{}}"), Err(Error::NoOutputs));
}

fn apply(map: (Coordinate, Coordinate), x: f64, y: f64) -> (f64, f64) {
    let value = |coordinate: Coordinate| match coordinate {
        Coordinate::X => x,
        Coordinate::Y => y,
        Coordinate::FlippedX => 1.0 - x,
        Coordinate::FlippedY => 1.0 - y,
    };
    (value(map.0), value(map.1))
}

#[test]
fn inverse_mapping_preserves_logical_positions_on_rotated_and_flipped_outputs() {
    for transform in [
        Transform::Normal,
        Transform::Rotate90,
        Transform::Rotate180,
        Transform::Rotate270,
        Transform::Flipped,
        Transform::Flipped90,
        Transform::Flipped180,
        Transform::Flipped270,
    ] {
        let map = inverse_normalized(transform);
        let (x, y) = apply((map.first, map.second), 0.2, 0.7);
        let point = match transform {
            Transform::Normal => (x, y),
            Transform::Rotate90 => (1.0 - y, x),
            Transform::Rotate180 => (1.0 - x, 1.0 - y),
            Transform::Rotate270 => (y, 1.0 - x),
            Transform::Flipped => (1.0 - x, y),
            Transform::Flipped90 => (y, x),
            Transform::Flipped180 => (x, 1.0 - y),
            Transform::Flipped270 => (1.0 - y, 1.0 - x),
        };
        assert!((point.0 - 0.2).abs() < 1e-12 && (point.1 - 0.7).abs() < 1e-12);
    }
}

#[test]
fn events_find_their_backend() {
    let key = InputEvent::Key {
        code: 30,
        pressed: true,
    };
    let button = InputEvent::Button {
        code: 272,
        pressed: true,
    };
    let touch = InputEvent::Touchpad {
        device: 1,
        time_us: 1,
        events: Vec::new(),
    };
    assert!(matches!(backend_for(&key, 0), Ok(Backend::Keyboard)));
    assert!(matches!(backend_for(&button, 0), Ok(Backend::Pointer)));
    assert!(matches!(backend_for(&touch, 2), Ok(Backend::Touchpad(1))));
    assert!(matches!(backend_for(&touch, 1), Err(Error::TouchpadNotNegotiated)));
    assert!(matches!(
        pointer_request(&button),
        Ok(PointerRequest::Button {
            code: 272,
            pressed: true
        })
    ));
    assert!(matches!(pointer_request(&key), Err(Error::NotAPointerEvent)));
    assert!(matches!(
        pointer_request(&InputEvent::release(300)),
        Err(Error::UnsupportedButton)
    ));
    let record = key_record(&key).unwrap();
    assert_eq!((record.event_type, record.code, record.value), (1, 30, 1));
    assert!(matches!(key_record(&button), Err(Error::NotAKeyboardEvent)));
    assert_eq!(check_negotiation(4, 0), Ok(()));
    assert_eq!(check_negotiation(1, 1), Err(Error::NegotiationTwice));
    assert_eq!(event_time(4_294_968, 500_000_000), 1_204);
}

#[test]
fn the_compositor_opens_an_event_node() {
    let list = |names: &[&str]| names.iter().map(|n| n.to_string()).collect::<Vec<_>>();
    assert!(is_opened(&list(&["name", "event7"]), &list(&["event3", "event7"])));
    assert!(!is_opened(&list(&["name", "event7"]), &list(&["event3", "name"])));
}

#[test]
fn emulation_devices_follow_the_desktop() {
    let mut devices = Devices::new();
    assert_eq!(devices.check(), Ok(()));
    assert!(matches!(devices.on_event(3, 0), Step::BindSeat));
    assert!(matches!(devices.on_event(5, 0), Step::Nothing));
    assert!(matches!(devices.on_event(5, 40), Step::Keep));
    assert!(matches!(devices.on_event(5, 50), Step::Keep));
    assert_eq!(devices.device(&vec![true, true]), Err(Error::DesktopInputPaused));
    assert!(matches!(devices.on_event(8, 50), Step::StartEmulating));
    assert!(matches!(devices.on_event(8, 60), Step::Nothing));
    assert_eq!(devices.device(&vec![true, true]), Ok(50));
    assert_eq!(devices.device(&vec![true, false]), Err(Error::DesktopInputPaused));
    assert!(matches!(devices.on_event(7, 50), Step::Nothing));
    assert_eq!(devices.device(&vec![true, true]), Err(Error::DesktopInputPaused));
    assert!(matches!(devices.on_event(6, 40), Step::Forget));
    assert_eq!(devices.list.len(), 1);
    devices.on_event(2, 0);
    assert_eq!(devices.check(), Err(Error::DesktopInputEnded));
    assert_eq!(check_point(1199, 0, 1200, 1920), Ok(()));
    assert_eq!(check_point(1200, 0, 1200, 1920), Err(Error::InvalidPoint));
    assert_eq!(check_point(0, 0, 0, 0), Err(Error::InvalidPoint));
}

#[test]
fn compositors_are_told_by_their_process() {
    assert_eq!(detect("niri\n"), Ok(Kind::Niri));
    assert_eq!(detect("kwin_wayland_wr\n"), Ok(Kind::Kde));
    assert_eq!(detect("sway"), Err(Error::UnsupportedCompositor));
    assert!(is_niri(" niri") && !is_niri("kwin_wayland"));
    assert_eq!(check_owner(5, true), Ok(5));
    assert_eq!(check_owner(5, false), Err(Error::ForeignCompositor));
    let process = |pid: i32, name: Option<&str>| Process {
        pid,
        name: name.map(str::to_string),
    };
    let children = vec![process(8, None), process(9, Some("kwin_wayland\n"))];
    assert_eq!(
        compositor_pid(Kind::Niri, &process(5, None), Some(5), &Vec::new()),
        Ok(5)
    );
    assert_eq!(
        compositor_pid(Kind::Niri, &process(5, None), Some(6), &Vec::new()),
        Err(Error::OtherSession)
    );
    assert_eq!(
        compositor_pid(Kind::Kde, &process(5, Some("kwin_wayland")), None, &children),
        Ok(5)
    );
    assert_eq!(
        compositor_pid(Kind::Kde, &process(5, Some("kwin_wayland_wr")), None, &children),
        Ok(9)
    );
    assert_eq!(
        compositor_pid(Kind::Kde, &process(5, None), None, &Vec::new()),
        Err(Error::KwinNotFound)
    );
}

fn metadata() -> Metadata {
    let mut m = Metadata::new();
    m.name = Some("DP-2".into());
    m.position = Some((-1490, -579));
    m.size = Some((1489, 2648));
    m.transform = Some(Transform::Rotate90);
    m.note_mode(false, 1, 1, 1);
    m.note_mode(true, 3840, 2160, 119993);
    m.note_mode(true, 0, 2160, 119993);
    m
}

#[test]
fn outputs_are_put_together_from_their_metadata() {
    let outputs = complete_outputs(&vec![metadata()]).unwrap();
    assert_eq!(outputs[0].name, "DP-2");
    assert_eq!((outputs[0].width, outputs[0].physical_width), (1489, 2160));
    let refusal = |change: fn(&mut Metadata)| {
        let mut m = metadata();
        change(&mut m);
        complete_outputs(&vec![metadata(), m]).err()
    };
    assert_eq!(refusal(|m| m.name = None), Some(Error::OutputNameMissing));
    assert_eq!(refusal(|m| m.position = None), Some(Error::OutputPositionMissing));
    assert_eq!(refusal(|m| m.size = None), Some(Error::OutputSizeMissing));
    assert_eq!(refusal(|m| m.size = Some((0, 1))), Some(Error::InvalidOutputSize));
    assert_eq!(refusal(|m| m.mode = None), Some(Error::OutputModeMissing));
    assert_eq!(refusal(|m| m.transform = None), Some(Error::OutputTransformMissing));
    let global = |name: u32, interface: &str, version: u32| Global {
        name,
        interface: interface.into(),
        version,
    };
    let list = vec![
        global(1, "zxdg_output_manager_v1", 2),
        global(2, "wl_output", 4),
        global(3, "zxdg_output_manager_v1", 3),
        global(4, "wl_output", 3),
    ];
    assert_eq!(output_manager(&list), Ok(3));
    assert_eq!(output_manager(&Vec::new()), Err(Error::NoOutputManager));
    assert_eq!(output_names(&list), vec![2]);
}

fn output(name: &str, on: bool) -> Output {
    Output {
        name: name.into(),
        logical: on.then_some(LogicalOutput {
            x: -1490,
            y: 40,
            width: 1489,
            height: 2648,
            scale: number(1.45),
            transform: Transform::Rotate90,
        }),
        current_mode: Some(0),
        modes: vec![Mode {
            width: 3840,
            height: 2160,
            refresh_rate: 119993,
        }],
    }
}

#[test]
fn a_desktop_lists_outputs_in_use_within_bounds() {
    let edges = vec![EdgeConfig {
        id: "main".into(),
        output: "DP-2".into(),
        boundary: Boundary {
            edge: Edge::Top,
            start: number(0.0),
            end: number(1.0),
        },
    }];
    let outputs = vec![output("DP-1", false), output("DP-2", true)];
    let desktop = Desktop::assemble(&edges, "r".into(), &outputs);
    assert_eq!(desktop.outputs.len(), 1);
    assert_eq!(desktop.outputs[0].name, "DP-2");
    assert_eq!(desktop.validate(), Ok(()));
    let refusal = |change: fn(&mut Desktop)| {
        let mut d = desktop.clone();
        change(&mut d);
        d.validate().err()
    };
    assert_eq!(refusal(|d| d.revision = "x".repeat(65)), Some(Error::InvalidDesktop));
    assert_eq!(
        refusal(|d| d.outputs[0].logical.width = 32769),
        Some(Error::InvalidDesktopOutput)
    );
    assert_eq!(
        refusal(|d| d.outputs[0].logical.scale = number(0.0)),
        Some(Error::InvalidDesktopOutput)
    );
    assert_eq!(
        refusal(|d| d.outputs[0].name = "x".repeat(129)),
        Some(Error::InvalidDesktopOutput)
    );
    assert!(same_outputs(&active_outputs(&outputs), &desktop.outputs));
    assert!(!same_outputs(&Vec::new(), &desktop.outputs));
}

#[test]
fn a_report_says_what_was_found() {
    let protocol = |name: &str| Protocol {
        name: name.into(),
        version: 1,
    };
    let globals = vec![
        protocol("zwlr_layer_shell_v1"),
        protocol("zwp_relative_pointer_manager_v1"),
        protocol("zwp_pointer_constraints_v1"),
        protocol("zwp_keyboard_shortcuts_inhibit_manager_v1"),
        protocol("zwlr_virtual_pointer_manager_v1"),
        protocol("xdg_wm_base"),
    ];
    let wayland = wayland_capabilities(&globals);
    assert_eq!(wayland.protocols.len(), 5);
    assert!(wayland.layer_shell_capture_interfaces_present);
    assert!(!wayland.virtual_input_interfaces_present);
    assert!(relevant("wl_seat") && !relevant("wl_drm"));
    let portal = portal_capabilities(
        &Some("<interface name=\"org.freedesktop.portal.InputCapture\">".into()),
        &Some("  org.gnome.Mutter.RemoteDesktop 1\norg.gnome.Shell 2\r\n".into()),
    );
    assert!(portal.input_capture_advertised && !portal.remote_desktop_advertised);
    assert_eq!(portal.mutter_input_capture_running, Some(false));
    assert_eq!(portal.mutter_remote_desktop_running, Some(true));
    let uinput = DeviceAccess {
        exists: true,
        writable: false,
    };
    let outputs = vec![output("DP-1", false), output("DP-2", true)];
    let report = inspect(Some("25.11".into()), Some(outputs), Some(wayland), portal, uinput);
    let text = report.summary(&vec!["1".into(), "1.45".into()]);
    let lines: Vec<&str> = text.lines().collect();
    assert_eq!(
        lines,
        [
            "NiriBridge read-only capability report",
            "Niri: 25.11",
            "Active outputs: 1",
            "  DP-2: 1489x2648 logical, scale 1.45, position (-1490, 40)",
            "Layer-shell capture interfaces: present (behavior unverified)",
            "Virtual input interfaces: incomplete",
            "InputCapture portal advertised: true",
            "RemoteDesktop portal advertised: false",
            "uinput: exists=true, writable=false",
            "Input capture, injection and portal sessions have NOT been exercised.",
            "InputCapture is advertised, but the Mutter InputCapture service is not running. Advertisement does not prove a usable backend.",
            "uinput is present but not writable; a reviewed permission setup is needed before testing this backend.",
        ]
    );
    let bare = inspect(None, None, None, portal_capabilities(&None, &None), DeviceAccess {
        exists: false,
        writable: false,
    });
    let text = bare.summary(&Vec::new());
    assert!(text.contains("Niri: unavailable"));
    assert!(text.contains("Wayland registry: unavailable"));
    assert_eq!(bare.notes.len(), 2);
    assert_eq!(check_probe(false, 0), Err(Error::ProbeFailed));
    assert_eq!(check_probe(true, 1_048_577), Err(Error::ProbeTooLarge));
    assert_eq!(check_probe(true, 1_048_576), Ok(()));
}

#[test]
fn a_shortcut_is_a_chord_of_known_keys() {
    assert_eq!(chord("Super+Shift+O"), Ok(vec![125, 42, 24]));
    assert_eq!(chord("Ctrl+Alt+F5"), Ok(vec![29, 56, 63]));
    assert_eq!(chord("O"), Err(Error::ShortcutLength));
    assert_eq!(chord("a+b+c+d+e+f"), Err(Error::ShortcutLength));
    assert_eq!(chord("o+super"), Err(Error::ShortcutOrder));
    assert_eq!(chord("super+nothing"), Err(Error::ShortcutKeyUnknown));
    assert_eq!(chord("super+mod"), Err(Error::ShortcutInvalid));
    assert_eq!(
        chord_strokes(&vec![125, 24]),
        vec![(125, true), (24, true), (24, false), (125, false)]
    );
    assert!(keys_idle(&vec![280, 0]));
    assert!(!keys_idle(&vec![279]));
    assert!(is_own_layer("niri-bridge-edge") && !is_own_layer("panel"));
}

#[test]
fn measurements_are_answered_and_summarized() {
    assert!(matches!(
        answer(&Message::Ping { nonce: 4 }, 999),
        Ok(Message::Pong { nonce: 4 })
    ));
    assert!(matches!(
        answer(&Message::Ping { nonce: 4 }, 1000),
        Err(Error::MeasurementLimit)
    ));
    assert!(matches!(
        answer(&Message::Pong { nonce: 4 }, 0),
        Err(Error::MeasurementsOnly)
    ));
    assert_eq!(check_answer(&Message::Pong { nonce: 4 }, 4), Ok(()));
    assert_eq!(
        check_answer(&Message::Pong { nonce: 5 }, 4),
        Err(Error::UnexpectedAnswer)
    );
    assert_eq!(sorted(&vec![3, 1, 2, 1]), vec![1, 1, 2, 3]);
    let summary = summarize(&vec![9, 1, 5, 7]).unwrap();
    assert_eq!((summary.count, summary.median, summary.largest), (4, 7, 9));
    assert!(summarize(&Vec::new()).is_none());
}

#[test]
fn only_an_unlocked_session_of_this_user_allows_sharing() {
    let facts = |kind: &str, own: bool, active: bool, locked: bool| SessionFacts {
        kind: kind.into(),
        own,
        active,
        locked,
    };
    assert_eq!(read_status(&facts("wayland", true, true, false)), Ok(Status::Unlocked));
    assert_eq!(read_status(&facts("wayland", true, true, true)), Ok(Status::Unavailable));
    assert_eq!(read_status(&facts("wayland", true, false, false)), Ok(Status::Unavailable));
    assert_eq!(read_status(&facts("x11", true, true, false)), Err(Error::ForeignSession));
    let mut status = Status::Unknown;
    assert!(!is_known(status));
    assert!(announce(&mut status, Status::Unlocked));
    assert!(!announce(&mut status, Status::Unlocked));
    assert!(is_unlocked(status));
}

#[test]
fn answers_of_the_compositor_are_read() {
    assert_eq!(version_of(r#"{"Version":"25.08 \"x\""}"#).as_deref(), Some("25.08 \"x\""));
    assert_eq!(version_of(r#"{"Version":5}"#), None);
    assert_eq!(version_of("[]"), None);
    let layers = r#"{"Layers":[{"namespace":"panel"},5,{"namespace":7},{"namespace":"niri-bridge-edge"}]}"#;
    assert_eq!(has_own_layer(layers), Ok(true));
    assert_eq!(has_own_layer(r#"{"Layers":[{"namespace":"a-niri-bridge-"}]}"#), Ok(false));
    assert_eq!(has_own_layer(r#"{"Layers":[]}"#), Ok(false));
    assert_eq!(has_own_layer(r#"{"Layers":{}}"#), Err(Error::LayersUnreadable));
    assert_eq!(has_own_layer("{}"), Err(Error::LayersUnreadable));
    assert!(any_own_layer(&vec![None, Some("niri-bridge-x".into())]));
    assert!(!any_own_layer(&vec![None, Some("other".into())]));
    assert_eq!(focused_window(r#"{"FocusedWindow":{"id":12,"title":"t"}}"#), Some(12));
    assert_eq!(focused_window(r#"{"FocusedWindow":null}"#), None);
    assert_eq!(focused_window(r#"{"FocusedWindow":{"id":-1}}"#), None);
    assert_eq!(overview_open(r#"{"OverviewState":{"is_open":true}}"#), Ok(true));
    assert_eq!(overview_open(r#"{"OverviewState":{"is_open":false}}"#), Ok(false));
    assert_eq!(
        overview_open(r#"{"OverviewState":{"is_open":1}}"#),
        Err(Error::OverviewUnreadable)
    );
}

#[test]
fn an_identity_is_made_for_a_label() {
    for name in ["desktop", "a", "my-pc-2"] {
        assert!(is_label(name));
    }
    for name in ["", "-a", "a-", "Desktop", "a.b", "caf\u{e9}"] {
        assert!(!is_label(name));
    }
    assert!(!is_label(&"x".repeat(64)));
    assert!(matches!(create("Desktop", 0), Err(Error::InvalidIdentityName)));
    assert!(matches!(create("desktop", 300_000_000_000), Err(Error::ClockImplausible)));
    let request = certificate_request("desktop", 100_000).unwrap();
    assert_eq!(request.name, "desktop");
    assert_eq!((request.not_before, request.not_after), (13_600, 31_636_000));
    assert!(request.usages == [Usage::Server, Usage::Client]);
    let identity = create("desktop", 1_900_000_000).unwrap();
    assert_eq!(identity.request.name, "desktop");
    assert_eq!(identity.request.not_before, 1_899_913_600);
    assert_eq!(identity.request.not_after, 1_931_536_000);
    assert!(identity.request.usages == [Usage::Server, Usage::Client]);
    let certificate = load_certificate(identity.certificate.as_bytes()).unwrap();
    assert_eq!(certificate[0], 0x30);
    let private = FileFacts {
        regular: true,
        size: identity.key.len() as u64,
        mode: 0o100600,
        own: true,
    };
    let key = load_private_key(&private, identity.key.as_bytes()).unwrap();
    assert!(key.kind == KeyKind::Pkcs8);
    assert_eq!(key.der[0], 0x30);
    assert!(matches!(
        load_private_key(&private, b"nothing"),
        Err(Error::KeyUnreadable)
    ));
    let two = format!("{}{}", identity.certificate, identity.certificate);
    assert_eq!(load_certificate(two.as_bytes()), Err(Error::NotOneCertificate));
    assert_eq!(load_certificate(b""), Err(Error::NotOneCertificate));
    assert_eq!(
        load_certificate(b"-----BEGIN CERTIFICATE-----\n!!!\n-----END CERTIFICATE-----\n"),
        Err(Error::CertificateUnreadable)
    );
    assert_eq!(load_certificate(&vec![0; 65537]), Err(Error::CertificateTooLarge));
}

#[test]
fn files_with_secrets_are_private() {
    let facts = |regular: bool, size: u64, mode: u32, own: bool| FileFacts {
        regular,
        size,
        mode,
        own,
    };
    assert_eq!(check_key_file(&facts(true, 65536, 0o100400, true)), Ok(()));
    assert_eq!(
        check_key_file(&facts(true, 65537, 0o100400, true)),
        Err(Error::KeyFileUnsafe)
    );
    assert_eq!(
        check_key_file(&facts(true, 1, 0o100640, true)),
        Err(Error::KeyFileUnsafe)
    );
    assert_eq!(
        check_key_file(&facts(true, 1, 0o100600, false)),
        Err(Error::KeyFileForeign)
    );
    let directory = |mode: u32, key_exists: bool| DirectoryFacts {
        directory: true,
        mode,
        own: true,
        key_exists,
        certificate_exists: false,
    };
    assert_eq!(check_directory(&directory(0o40700, false)), Ok(()));
    assert_eq!(check_directory(&directory(0o40755, false)), Err(Error::DirectoryUnsafe));
    assert_eq!(check_directory(&directory(0o40700, true)), Err(Error::IdentityExists));
}

#[test]
fn both_computers_agree_on_the_protocol() {
    assert_eq!(check_protocol(Some(b"niri-bridge/5")), Ok(()));
    assert_eq!(check_protocol(Some(b"niri-bridge/4")), Err(Error::ProtocolMismatch));
    assert_eq!(check_protocol(None), Err(Error::ProtocolMismatch));
    assert_eq!(check_greeting(&greeting()), Ok(()));
    assert_eq!(
        check_greeting(&Message::Ping { nonce: 1 }),
        Err(Error::GreetingExpected)
    );
    assert_eq!(check_server_name("desktop"), Ok(()));
    assert_eq!(check_server_name("::1"), Ok(()));
    assert_eq!(check_server_name("bad name"), Err(Error::InvalidServerName));
}

#[test]
fn portal_requests_have_their_path() {
    assert_eq!(session_token(42), "niribridge_42");
    assert_eq!(request_token(42, "start"), "niribridge_42_start");
    assert_eq!(
        request_path(":1.204", "niribridge_42_start"),
        "/org/freedesktop/portal/desktop/request/1_204/niribridge_42_start"
    );
    assert_eq!(check_response("/a", "/a", 0), Ok(()));
    assert_eq!(check_response("/a", "/b", 0), Err(Error::PortalPathUnexpected));
    assert_eq!(check_response("/a", "/a", 1), Err(Error::PortalDenied));
    assert_eq!(check_granted(3), Ok(()));
    assert_eq!(check_granted(1), Err(Error::PointerNotGranted));
    assert_eq!(decimal(0), "0");
    assert_eq!(decimal(u64::MAX), u64::MAX.to_string());
    assert_eq!(signed_decimal(i32::MIN), i32::MIN.to_string());
    assert_eq!(encode(&[0, 0x0f, 0xa5]), "000fa5");
}

fn monitor() -> ActivityMonitor {
    ActivityMonitor::new(vec!["/dev/input/event3".into(), "/dev/input/event4".into()], true).unwrap()
}

#[test]
fn activity_shows_in_keys_and_motion() {
    let mut m = monitor();
    let record = |event_type: u16, code: u16, value: i32| Record {
        event_type,
        code,
        value,
    };
    assert_eq!(
        m.opened(0, Some("niri-bridge/keyboard"), None, &Vec::new()),
        Err(Error::OwnDevice)
    );
    assert_eq!(
        m.opened(0, None, Some("NiriBridge Virtual Keyboard"), &Vec::new()),
        Err(Error::OwnDevice)
    );
    assert_eq!(m.opened(0, Some("usb-1"), Some("Keyboard"), &vec![42, 272]), Ok(()));
    assert!(m.open[0] && !m.open[1]);
    assert_eq!(m.record(0, record(1, 30, 1)), Ok(true));
    assert_eq!(m.record(0, record(1, 30, 2)), Ok(true));
    assert_eq!(m.record(0, record(2, 0, 0)), Ok(false));
    assert_eq!(m.record(0, record(2, 0, -1)), Ok(true));
    assert_eq!(m.record(0, record(3, 0, 0)), Ok(true));
    assert_eq!(m.record(0, record(4, 4, 9)), Ok(false));
    assert!(m.keyboard_state().into_iter().eq([30, 42]));
    assert_eq!(m.take_keyboard_events().len(), 2);
    m.closed(0).unwrap();
    assert_eq!(m.take_keyboard_events().len(), 2);
    m.opened(1, None, None, &vec![30]).unwrap();
    m.suspend();
    assert!(m.keyboard_state().is_empty() && !m.open[1]);
    assert!(ActivityMonitor::new(Vec::new(), false).is_err());
}

#[test]
fn a_full_queue_refuses_more_key_transitions() {
    let press = |code: u16, pressed: bool| Record {
        event_type: 1,
        code,
        value: i32::from(pressed),
    };
    let mut m = monitor();
    m.opened(0, None, None, &vec![30]).unwrap();
    for round in 0..509 {
        m.record(0, press(31, round % 2 == 0)).unwrap();
    }
    assert_eq!(
        m.opened(1, None, None, &vec![30, 40, 300, 40, 41, 42, 43]),
        Err(Error::KeyboardQueueFull)
    );
    assert!(!m.open[1]);
    assert!(m.keyboard_state().into_iter().eq([30, 31, 40, 41, 42]));
    assert_eq!(m.record(0, press(32, true)), Err(Error::KeyboardQueueFull));
    assert_eq!(m.record(1, press(30, false)), Ok(true));
    assert_eq!(m.closed(0), Err(Error::KeyboardQueueFull));
    assert!(!m.open[0]);
    let events = m.take_keyboard_events();
    assert_eq!(events.len(), 512);
    assert!(
        events[510..]
            == [40, 41].map(|code| InputEvent::Key {
                code,
                pressed: true
            })
    );
}

#[test]
fn transitions_replay_the_held_keys() {
    let mut keys = niri_bridge::input::PhysicalKeys::default();
    let mut events = Vec::new();
    keys.update(0, 30, true).unwrap();
    keys.update(1, 30, true).unwrap();
    events.extend(keys.drain());
    keys.update(0, 30, false).unwrap();
    keys.update(1, 42, true).unwrap();
    keys.update(0, 31, true).unwrap();
    keys.disconnect(1).unwrap();
    events.extend(keys.pending.clone());
    let mut down = std::collections::BTreeSet::new();
    for event in events {
        match event {
            InputEvent::Key { code, pressed } => {
                assert!(if pressed {
                    down.insert(code)
                } else {
                    down.remove(&code)
                });
            }
            _ => panic!("not a key"),
        }
    }
    assert_eq!(down, keys.held());
    assert!(down.into_iter().eq([31]));
}

#[test]
fn touchpads_must_stay_the_same() {
    let pad = |code: u16| niri_bridge::touchpad::Descriptor {
        keys: vec![code],
        properties: vec![0],
        axes: Vec::new(),
    };
    let mut m = monitor();
    assert!(!m.wants_touchpads());
    assert_eq!(m.touchpads_opened(vec![pad(330)]), Ok(()));
    assert!(!m.wants_touchpads());
    m.suspend();
    assert!(m.wants_touchpads());
    assert_eq!(m.touchpads_opened(vec![pad(330)]), Ok(()));
    assert_eq!(m.touchpads_opened(vec![pad(325)]), Err(Error::TouchpadsChanged));
    assert!(profiles_match(&vec![pad(1)], &vec![pad(1)]));
    assert!(!profiles_match(&vec![pad(1)], &Vec::new()));
}
