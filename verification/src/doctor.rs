//! A report of what this computer offers. Nothing is captured or injected.
use crate::error::Error;
use crate::niri::Output;
use crate::text::{
    characters, contains, decimal, is_white_space, join_lines, same_characters, same_text,
    signed_decimal, split,
};
use vstd::prelude::*;
use vstd::string::*;

verus! {

/// The longest output of a probe.
pub const MAX_PROBE_BYTES: usize = 1_048_576;

pub const SCHEMA_VERSION: u32 = 1;

/// An interface of the compositor and its version.
pub struct Protocol {
    pub name: String,
    pub version: u32,
}

pub struct WaylandCapabilities {
    pub protocols: Vec<Protocol>,
    pub layer_shell_capture_interfaces_present: bool,
    pub virtual_input_interfaces_present: bool,
    pub input_behavior_tested: bool,
}

#[derive(Clone, Copy, Debug, PartialEq, Eq, Structural)]
pub struct PortalCapabilities {
    pub introspection_ok: bool,
    pub input_capture_advertised: bool,
    pub remote_desktop_advertised: bool,
    pub mutter_input_capture_running: Option<bool>,
    pub mutter_remote_desktop_running: Option<bool>,
    pub session_creation_tested: bool,
}

#[derive(Clone, Copy, Debug, PartialEq, Eq, Structural)]
pub struct DeviceAccess {
    pub exists: bool,
    pub writable: bool,
}

pub struct Report {
    pub schema_version: u32,
    pub niri_version: Option<String>,
    pub outputs: Vec<Output>,
    pub niri_query_ok: bool,
    pub wayland: Option<WaylandCapabilities>,
    pub portal: PortalCapabilities,
    pub uinput: DeviceAccess,
    pub notes: Vec<String>,
}

/// What is needed to capture input.
pub open spec fn is_capture_protocol(name: Seq<char>) -> bool {
    ||| name == "zwlr_layer_shell_v1"@
    ||| name == "zwp_relative_pointer_manager_v1"@
    ||| name == "zwp_pointer_constraints_v1"@
    ||| name == "zwp_keyboard_shortcuts_inhibit_manager_v1"@
}

/// What is needed to emulate input.
pub open spec fn is_emulation_protocol(name: Seq<char>) -> bool {
    ||| name == "zwlr_virtual_pointer_manager_v1"@
    ||| name == "zwp_virtual_keyboard_manager_v1"@
}

/// What is listed in a report.
pub open spec fn is_relevant(name: Seq<char>) -> bool {
    ||| is_capture_protocol(name)
    ||| is_emulation_protocol(name)
    ||| name == "wl_seat"@
    ||| name == "wl_compositor"@
    ||| name == "wl_shm"@
    ||| name == "zxdg_output_manager_v1"@
}

pub fn relevant(name: &str) -> (r: bool)
    ensures
        r == is_relevant(name@),
{
    same_text(name, "zwlr_layer_shell_v1") || same_text(name, "zwp_relative_pointer_manager_v1")
        || same_text(name, "zwp_pointer_constraints_v1") || same_text(
        name,
        "zwp_keyboard_shortcuts_inhibit_manager_v1",
    ) || same_text(name, "zwlr_virtual_pointer_manager_v1") || same_text(
        name,
        "zwp_virtual_keyboard_manager_v1",
    ) || same_text(name, "wl_seat") || same_text(name, "wl_compositor") || same_text(name, "wl_shm")
        || same_text(name, "zxdg_output_manager_v1")
}

pub open spec fn listed(protocols: Seq<Protocol>, name: Seq<char>) -> bool {
    exists|i: int| 0 <= i < protocols.len() && (#[trigger] protocols[i]).name@ == name
}

fn is_listed(protocols: &Vec<Protocol>, name: &str) -> (r: bool)
    ensures
        r == listed(protocols@, name@),
{
    for i in 0..protocols.len()
        invariant
            forall|j: int| 0 <= j < i ==> (#[trigger] protocols@[j]).name@ != name@,
    {
        if same_text(protocols[i].name.as_str(), name) {
            assert(protocols@[i as int].name@ == name@);
            return true;
        }
    }
    false
}

pub open spec fn capture_listed(protocols: Seq<Protocol>) -> bool {
    &&& listed(protocols, "zwlr_layer_shell_v1"@)
    &&& listed(protocols, "zwp_relative_pointer_manager_v1"@)
    &&& listed(protocols, "zwp_pointer_constraints_v1"@)
    &&& listed(protocols, "zwp_keyboard_shortcuts_inhibit_manager_v1"@)
}

pub open spec fn emulation_listed(protocols: Seq<Protocol>) -> bool {
    &&& listed(protocols, "zwlr_virtual_pointer_manager_v1"@)
    &&& listed(protocols, "zwp_virtual_keyboard_manager_v1"@)
}

/// The relevant ones among the interfaces of a compositor, in order.
pub open spec fn relevant_among(globals: Seq<Protocol>) -> Seq<Protocol>
    decreases globals.len(),
{
    if globals.len() == 0 {
        Seq::empty()
    } else if is_relevant(globals.last().name@) {
        relevant_among(globals.drop_last()).push(globals.last())
    } else {
        relevant_among(globals.drop_last())
    }
}

/// What a compositor offers, by the list of its interfaces.
pub fn wayland_capabilities(globals: &Vec<Protocol>) -> (r: WaylandCapabilities)
    ensures
        r.protocols@ == relevant_among(globals@),
        r.layer_shell_capture_interfaces_present == capture_listed(r.protocols@),
        r.virtual_input_interfaces_present == emulation_listed(r.protocols@),
        !r.input_behavior_tested,
{
    let mut protocols: Vec<Protocol> = Vec::new();
    for i in 0..globals.len()
        invariant
            protocols@ == relevant_among(globals@.take(i as int)),
    {
        assert(globals@.take(i + 1).drop_last() == globals@.take(i as int));
        if relevant(globals[i].name.as_str()) {
            protocols.push(
                Protocol { name: globals[i].name.clone(), version: globals[i].version },
            );
        }
    }
    assert(globals@.take(globals@.len() as int) == globals@);
    let capture = is_listed(&protocols, "zwlr_layer_shell_v1") && is_listed(
        &protocols,
        "zwp_relative_pointer_manager_v1",
    ) && is_listed(&protocols, "zwp_pointer_constraints_v1") && is_listed(
        &protocols,
        "zwp_keyboard_shortcuts_inhibit_manager_v1",
    );
    let emulation = is_listed(&protocols, "zwlr_virtual_pointer_manager_v1") && is_listed(
        &protocols,
        "zwp_virtual_keyboard_manager_v1",
    );
    WaylandCapabilities {
        protocols,
        layer_shell_capture_interfaces_present: capture,
        virtual_input_interfaces_present: emulation,
        input_behavior_tested: false,
    }
}

/// The first word of a line.
pub open spec fn first_word(line: Seq<char>) -> Seq<char> {
    leading_word(crate::text::trim_start(line))
}

/// What stands before the first white space.
pub open spec fn leading_word(text: Seq<char>) -> Seq<char>
    decreases text.len(),
{
    if text.len() == 0 || crate::text::white_space(text[0]) {
        Seq::empty()
    } else {
        seq![text[0]] + leading_word(text.drop_first())
    }
}

fn word_of(line: &Vec<char>) -> (r: Vec<char>)
    ensures
        r@ == first_word(line@),
{
    let mut start: usize = 0;
    assert(line@.skip(0) == line@);
    while start < line.len() && is_white_space(line[start])
        invariant
            start <= line@.len(),
            crate::text::trim_start(line@) == crate::text::trim_start(line@.skip(start as int)),
        decreases line@.len() - start,
    {
        assert(line@.skip(start as int).drop_first() == line@.skip(start + 1));
        start = start + 1;
    }
    let ghost rest = line@.skip(start as int);
    let mut word: Vec<char> = Vec::new();
    let mut at: usize = start;
    assert(line@.skip(at as int) == rest);
    assert(word@ + leading_word(rest) =~= leading_word(rest));
    while at < line.len() && !is_white_space(line[at])
        invariant
            start <= at <= line@.len(),
            word@ + leading_word(line@.skip(at as int)) == leading_word(rest),
        decreases line@.len() - at,
    {
        assert(line@.skip(at as int).drop_first() == line@.skip(at + 1));
        let ghost before = word@;
        word.push(line[at]);
        assert(before + (seq![line@[at as int]] + leading_word(line@.skip(at + 1))) =~= word@
            + leading_word(line@.skip(at + 1)));
        at = at + 1;
    }
    assert(word@ + Seq::<char>::empty() =~= word@);
    word
}

/// A listing has a line whose first word is a name.
pub open spec fn names_service(listing: Seq<char>, name: Seq<char>) -> bool {
    exists|i: int|
        0 <= i < crate::text::pieces(listing, '\n', '\n').len() && first_word(
            #[trigger] crate::text::pieces(listing, '\n', '\n')[i],
        ) == name
}

fn lists_service(listing: &str, name: &str) -> (r: bool)
    ensures
        r == names_service(listing@, name@),
{
    let lines = split(&characters(listing), '\n', '\n');
    let ghost all = crate::text::views(lines@);
    let wanted = characters(name);
    for i in 0..lines.len()
        invariant
            wanted@ == name@,
            all == crate::text::views(lines@),
            all == crate::text::pieces(listing@, '\n', '\n'),
            forall|j: int| 0 <= j < i ==> first_word(#[trigger] all[j]) != name@,
    {
        assert(all[i as int] == lines@[i as int]@);
        if same_characters(&word_of(&lines[i]), &wanted) {
            return true;
        }
    }
    assert(all.len() == lines@.len());
    false
}

pub const INPUT_CAPTURE_MARK: &'static str =
    "<interface name=\"org.freedesktop.portal.InputCapture\">";

pub const REMOTE_DESKTOP_MARK: &'static str =
    "<interface name=\"org.freedesktop.portal.RemoteDesktop\">";

pub open spec fn running(names: Option<String>, name: Seq<char>) -> Option<bool> {
    match names {
        Some(listing) => Some(names_service(listing@, name)),
        None => None,
    }
}

fn is_running(names: &Option<String>, name: &str) -> (r: Option<bool>)
    ensures
        r == running(*names, name@),
{
    match names {
        Some(listing) => Some(lists_service(listing.as_str(), name)),
        None => None,
    }
}

/// What the portal offers, by its description and by the list of services, where they could be
/// read.
pub fn portal_capabilities(description: &Option<String>, names: &Option<String>) -> (r:
    PortalCapabilities)
    ensures
        r == (PortalCapabilities {
            introspection_ok: description is Some,
            input_capture_advertised: description is Some && crate::text::contains_text(
                description->0@,
                INPUT_CAPTURE_MARK@,
            ),
            remote_desktop_advertised: description is Some && crate::text::contains_text(
                description->0@,
                REMOTE_DESKTOP_MARK@,
            ),
            mutter_input_capture_running: running(*names, "org.gnome.Mutter.InputCapture"@),
            mutter_remote_desktop_running: running(*names, "org.gnome.Mutter.RemoteDesktop"@),
            session_creation_tested: false,
        }),
{
    let (capture, remote): (bool, bool) = match description {
        Some(text) => (
            contains(text.as_str(), INPUT_CAPTURE_MARK),
            contains(text.as_str(), REMOTE_DESKTOP_MARK),
        ),
        None => (false, false),
    };
    PortalCapabilities {
        introspection_ok: description.is_some(),
        input_capture_advertised: capture,
        remote_desktop_advertised: remote,
        mutter_input_capture_running: is_running(names, "org.gnome.Mutter.InputCapture"),
        mutter_remote_desktop_running: is_running(names, "org.gnome.Mutter.RemoteDesktop"),
        session_creation_tested: false,
    }
}

pub const NOTE_NIRI: &'static str =
    "Niri outputs could not be queried; run from the graphical session.";

pub const NOTE_WAYLAND: &'static str =
    "Wayland registry inspection failed or timed out; no input was captured.";

pub const NOTE_CAPTURE: &'static str =
    "InputCapture is advertised, but the Mutter InputCapture service is not running. Advertisement does not prove a usable backend.";

pub const NOTE_UINPUT: &'static str =
    "uinput is present but not writable; a reviewed permission setup is needed before testing this backend.";

pub open spec fn note_if(condition: bool, note: Seq<char>) -> Seq<Seq<char>> {
    if condition {
        seq![note]
    } else {
        Seq::empty()
    }
}

/// What is worth a note.
pub open spec fn notes_for(
    niri_query_ok: bool,
    wayland: bool,
    portal: PortalCapabilities,
    uinput: DeviceAccess,
) -> Seq<Seq<char>> {
    note_if(!niri_query_ok, NOTE_NIRI@) + note_if(!wayland, NOTE_WAYLAND@) + note_if(
        portal.input_capture_advertised && portal.mutter_input_capture_running == Some(false),
        NOTE_CAPTURE@,
    ) + note_if(uinput.exists && !uinput.writable, NOTE_UINPUT@)
}

/// Puts a report together.
pub fn inspect(
    niri_version: Option<String>,
    outputs: Option<Vec<Output>>,
    wayland: Option<WaylandCapabilities>,
    portal: PortalCapabilities,
    uinput: DeviceAccess,
) -> (r: Report)
    ensures
        r.schema_version == SCHEMA_VERSION,
        r.niri_version == niri_version,
        r.niri_query_ok == (outputs is Some),
        match outputs {
            Some(list) => r.outputs == list,
            None => r.outputs@.len() == 0,
        },
        r.wayland == wayland,
        r.portal == portal,
        r.uinput == uinput,
        crate::text::string_views(r.notes@) == notes_for(
            outputs is Some,
            wayland is Some,
            portal,
            uinput,
        ),
{
    let mut notes: Vec<String> = Vec::new();
    let niri_query_ok = outputs.is_some();
    if !niri_query_ok {
        notes.push(NOTE_NIRI.to_owned());
    }
    assert(crate::text::string_views(notes@) =~= note_if(!niri_query_ok, NOTE_NIRI@));
    let ghost first = notes@;
    if wayland.is_none() {
        notes.push(NOTE_WAYLAND.to_owned());
    }
    assert(crate::text::string_views(notes@) =~= crate::text::string_views(first) + note_if(
        wayland is None,
        NOTE_WAYLAND@,
    ));
    let ghost second = notes@;
    if portal.input_capture_advertised && portal.mutter_input_capture_running == Some(false) {
        notes.push(NOTE_CAPTURE.to_owned());
    }
    assert(crate::text::string_views(notes@) =~= crate::text::string_views(second) + note_if(
        portal.input_capture_advertised && portal.mutter_input_capture_running == Some(false),
        NOTE_CAPTURE@,
    ));
    let ghost third = notes@;
    if uinput.exists && !uinput.writable {
        notes.push(NOTE_UINPUT.to_owned());
    }
    assert(crate::text::string_views(notes@) =~= crate::text::string_views(third) + note_if(
        uinput.exists && !uinput.writable,
        NOTE_UINPUT@,
    ));
    Report {
        schema_version: SCHEMA_VERSION,
        niri_version,
        outputs: match outputs {
            Some(list) => list,
            None => Vec::new(),
        },
        niri_query_ok,
        wayland,
        portal,
        uinput,
        notes,
    }
}

/// Accepts the output of a probe that ended well and said no more than allowed.
pub fn check_probe(succeeded: bool, size: usize) -> (r: Result<(), Error>)
    ensures
        r == (if !succeeded {
            Err::<(), Error>(Error::ProbeFailed)
        } else if size > MAX_PROBE_BYTES {
            Err::<(), Error>(Error::ProbeTooLarge)
        } else {
            Ok(())
        }),
{
    if !succeeded {
        return Err(Error::ProbeFailed);
    }
    if size > MAX_PROBE_BYTES {
        return Err(Error::ProbeTooLarge);
    }
    Ok(())
}

pub open spec fn presence(value: bool) -> Seq<char> {
    if value {
        "present (behavior unverified)"@
    } else {
        "incomplete"@
    }
}

fn present(value: bool) -> (r: &'static str)
    ensures
        r@ == presence(value),
{
    if value {
        "present (behavior unverified)"
    } else {
        "incomplete"
    }
}

pub open spec fn truth(value: bool) -> Seq<char> {
    if value {
        "true"@
    } else {
        "false"@
    }
}

fn truth_text(value: bool) -> (r: &'static str)
    ensures
        r@ == truth(value),
{
    if value {
        "true"
    } else {
        "false"
    }
}

/// The line for an output in use; `scale` is its scale in decimal digits.
pub open spec fn output_line(output: Output, scale: Seq<char>) -> Seq<char> {
    let logical = output.logical->0;
    "  "@ + output.name@ + ": "@ + crate::text::decimal_of(logical.width as nat) + "x"@
        + crate::text::decimal_of(logical.height as nat) + " logical, scale "@ + scale
        + ", position ("@ + crate::text::signed_decimal_of(logical.x as int) + ", "@
        + crate::text::signed_decimal_of(logical.y as int) + ")"@
}

fn line_for(output: &Output, scale: &str) -> (r: String)
    requires
        output.logical is Some,
    ensures
        r@ == output_line(*output, scale@),
{
    let mut line = "  ".to_owned();
    match output.logical {
        Some(logical) => {
            line.append(output.name.as_str());
            line.append(": ");
            line.append(decimal(logical.width as u64).as_str());
            line.append("x");
            line.append(decimal(logical.height as u64).as_str());
            line.append(" logical, scale ");
            line.append(scale);
            line.append(", position (");
            line.append(signed_decimal(logical.x).as_str());
            line.append(", ");
            line.append(signed_decimal(logical.y).as_str());
            line.append(")");
        },
        None => {},
    }
    line
}

/// The number of outputs in use.
pub open spec fn active_count(outputs: Seq<Output>) -> nat
    decreases outputs.len(),
{
    if outputs.len() == 0 {
        0
    } else {
        active_count(outputs.drop_last()) + (if outputs.last().logical is Some {
            1nat
        } else {
            0nat
        })
    }
}

/// The lines for the outputs in use.
pub open spec fn output_lines(outputs: Seq<Output>, scales: Seq<String>) -> Seq<Seq<char>>
    decreases outputs.len(),
{
    if outputs.len() == 0 {
        Seq::empty()
    } else {
        let before = output_lines(outputs.drop_last(), scales);
        if outputs.last().logical is Some {
            before.push(output_line(outputs.last(), scales[outputs.len() - 1]@))
        } else {
            before
        }
    }
}

impl Report {
    pub open spec fn wayland_lines(self) -> Seq<Seq<char>> {
        match self.wayland {
            Some(w) => seq![
                "Layer-shell capture interfaces: "@ + presence(
                    w.layer_shell_capture_interfaces_present,
                ),
                "Virtual input interfaces: "@ + presence(w.virtual_input_interfaces_present),
            ],
            None => seq!["Wayland registry: unavailable"@],
        }
    }

    /// The lines of a report.
    pub open spec fn lines(self, scales: Seq<String>) -> Seq<Seq<char>> {
        seq![
            "NiriBridge read-only capability report"@,
            "Niri: "@ + (match self.niri_version {
                Some(version) => version@,
                None => "unavailable"@,
            }),
            "Active outputs: "@ + crate::text::decimal_of(active_count(self.outputs@)),
        ] + output_lines(self.outputs@, scales) + self.wayland_lines() + seq![
            "InputCapture portal advertised: "@ + truth(self.portal.input_capture_advertised),
            "RemoteDesktop portal advertised: "@ + truth(self.portal.remote_desktop_advertised),
            "uinput: exists="@ + truth(self.uinput.exists) + ", writable="@ + truth(
                self.uinput.writable,
            ),
            "Input capture, injection and portal sessions have NOT been exercised."@,
        ] + crate::text::string_views(self.notes@)
    }

    fn count_active(&self) -> (r: u64)
        ensures
            r == active_count(self.outputs@),
    {
        let mut count: u64 = 0;
        for i in 0..self.outputs.len()
            invariant
                count == active_count(self.outputs@.take(i as int)),
                count <= i,
        {
            assert(self.outputs@.take(i + 1).drop_last() == self.outputs@.take(i as int));
            if self.outputs[i].logical.is_some() {
                count = count + 1;
            }
        }
        assert(self.outputs@.take(self.outputs@.len() as int) == self.outputs@);
        count
    }

    fn push_outputs(&self, scales: &Vec<String>, lines: &mut Vec<String>)
        requires
            scales@.len() == self.outputs@.len(),
        ensures
            crate::text::string_views(final(lines)@) == crate::text::string_views(old(lines)@)
                + output_lines(self.outputs@, scales@),
    {
        let ghost start = crate::text::string_views(lines@);
        assert(start =~= start + output_lines(self.outputs@.take(0), scales@));
        for i in 0..self.outputs.len()
            invariant
                scales@.len() == self.outputs@.len(),
                crate::text::string_views(lines@) == start + output_lines(
                    self.outputs@.take(i as int),
                    scales@,
                ),
        {
            assert(self.outputs@.take(i + 1).drop_last() == self.outputs@.take(i as int));
            let ghost before = lines@;
            if self.outputs[i].logical.is_some() {
                let line = line_for(&self.outputs[i], scales[i].as_str());
                let ghost added = line@;
                lines.push(line);
                assert(crate::text::string_views(lines@) =~= crate::text::string_views(before).push(
                    added,
                ));
            }
            assert(crate::text::string_views(lines@) =~= start + output_lines(
                self.outputs@.take(i + 1),
                scales@,
            ));
        }
        assert(self.outputs@.take(self.outputs@.len() as int) == self.outputs@);
    }

    fn push_wayland(&self, lines: &mut Vec<String>)
        ensures
            crate::text::string_views(final(lines)@) == crate::text::string_views(old(lines)@)
                + self.wayland_lines(),
    {
        match &self.wayland {
            Some(w) => {
                let mut capture = "Layer-shell capture interfaces: ".to_owned();
                capture.append(present(w.layer_shell_capture_interfaces_present));
                lines.push(capture);
                let mut emulation = "Virtual input interfaces: ".to_owned();
                emulation.append(present(w.virtual_input_interfaces_present));
                lines.push(emulation);
            },
            None => {
                lines.push("Wayland registry: unavailable".to_owned());
            },
        }
        assert(crate::text::string_views(lines@) =~= crate::text::string_views(old(lines)@)
            + self.wayland_lines());
    }

    fn push_head(&self, lines: &mut Vec<String>)
        requires
            old(lines)@.len() == 0,
        ensures
            crate::text::string_views(final(lines)@) == seq![
                "NiriBridge read-only capability report"@,
                "Niri: "@ + (match self.niri_version {
                    Some(version) => version@,
                    None => "unavailable"@,
                }),
                "Active outputs: "@ + crate::text::decimal_of(active_count(self.outputs@)),
            ],
    {
        lines.push("NiriBridge read-only capability report".to_owned());
        let mut version = "Niri: ".to_owned();
        match &self.niri_version {
            Some(text) => {
                version.append(text.as_str());
            },
            None => {
                version.append("unavailable");
            },
        }
        lines.push(version);
        let mut count = "Active outputs: ".to_owned();
        count.append(decimal(self.count_active()).as_str());
        lines.push(count);
        assert(crate::text::string_views(lines@) =~= seq![
            "NiriBridge read-only capability report"@,
            "Niri: "@ + (match self.niri_version {
                Some(version) => version@,
                None => "unavailable"@,
            }),
            "Active outputs: "@ + crate::text::decimal_of(active_count(self.outputs@)),
        ]);
    }

    fn push_tail(&self, lines: &mut Vec<String>)
        ensures
            crate::text::string_views(final(lines)@) == crate::text::string_views(old(lines)@)
                + seq![
                "InputCapture portal advertised: "@ + truth(self.portal.input_capture_advertised),
                "RemoteDesktop portal advertised: "@ + truth(self.portal.remote_desktop_advertised),
                "uinput: exists="@ + truth(self.uinput.exists) + ", writable="@ + truth(
                    self.uinput.writable,
                ),
                "Input capture, injection and portal sessions have NOT been exercised."@,
            ],
    {
        let mut capture = "InputCapture portal advertised: ".to_owned();
        capture.append(truth_text(self.portal.input_capture_advertised));
        lines.push(capture);
        let mut remote = "RemoteDesktop portal advertised: ".to_owned();
        remote.append(truth_text(self.portal.remote_desktop_advertised));
        lines.push(remote);
        let mut device = "uinput: exists=".to_owned();
        device.append(truth_text(self.uinput.exists));
        device.append(", writable=");
        device.append(truth_text(self.uinput.writable));
        lines.push(device);
        lines.push("Input capture, injection and portal sessions have NOT been exercised.".to_owned());
        assert(crate::text::string_views(lines@) =~= crate::text::string_views(old(lines)@) + seq![
            "InputCapture portal advertised: "@ + truth(self.portal.input_capture_advertised),
            "RemoteDesktop portal advertised: "@ + truth(self.portal.remote_desktop_advertised),
            "uinput: exists="@ + truth(self.uinput.exists) + ", writable="@ + truth(
                self.uinput.writable,
            ),
            "Input capture, injection and portal sessions have NOT been exercised."@,
        ]);
    }

    /// The report as text; `scales` are the scales of the outputs in decimal digits.
    pub fn summary(&self, scales: &Vec<String>) -> (r: String)
        requires
            scales@.len() == self.outputs@.len(),
        ensures
            r@ == crate::text::joined(self.lines(scales@)),
    {
        let mut lines: Vec<String> = Vec::new();
        self.push_head(&mut lines);
        self.push_outputs(scales, &mut lines);
        self.push_wayland(&mut lines);
        self.push_tail(&mut lines);
        let ghost start = crate::text::string_views(lines@);
        for i in 0..self.notes.len()
            invariant
                crate::text::string_views(lines@) =~= start + crate::text::string_views(
                    self.notes@.take(i as int),
                ),
        {
            let ghost before = lines@;
            lines.push(self.notes[i].clone());
            proof {
                let note = self.notes@[i as int];
                assert(crate::text::string_views(lines@) =~= crate::text::string_views(before).push(
                    note@,
                ));
                assert(crate::text::string_views(self.notes@.take(i + 1))
                    =~= crate::text::string_views(self.notes@.take(i as int)).push(note@));
            }
        }
        assert(self.notes@.take(self.notes@.len() as int) == self.notes@);
        assert(crate::text::string_views(lines@) =~= self.lines(scales@));
        join_lines(&lines)
    }
}

} // verus!
