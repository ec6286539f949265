//! What is observed of this computer: who uses it, what its desktop offers, and trials of input.
use crate::activity::{ActivityMonitor, Record};
use crate::capture_probe::Event;
use crate::doctor::{DeviceAccess, PortalCapabilities, Protocol, Report, WaylandCapabilities};
use crate::error::Error;
use crate::niri::{Member, Output};
use crate::protocol::InputEvent;
use crate::touchpad::{CapturedFrame, Descriptor};
use crate::verify_input::Sightings;
use vstd::prelude::*;

verus! {

/// Keys, positions and real motion show that somebody uses the computer; nothing else does.
pub proof fn lemma_what_shows_use(index: usize, record: Record)
    ensures
        forall|m: &mut ActivityMonitor, r: Result<bool, Error>|
            (#[trigger] call_ensures(ActivityMonitor::record, (m, index, record), r)) && r is Ok ==> (
            r->Ok_0 <==> record.event_type == 1 || record.event_type == 3 || (record.event_type == 2
                && record.value != 0)),
{
}

/// A key is noted as pressed or let go on the keyboard that it belongs to; a repetition, and
/// anything that is no key, changes nothing.
pub proof fn lemma_keys_are_noted(index: usize, code: u16, value: i32, event_type: u16)
    ensures
        forall|m: &mut ActivityMonitor, r: Result<bool, Error>|
            (#[trigger] call_ensures(
                ActivityMonitor::record,
                (m, index, (Record { event_type, code, value })),
                r,
            )) ==> {
                let noted = event_type == 1 && value != 2 && 1 <= code <= 255;
                &&& noted ==> crate::input::keys_on((*final(m)).keyboard.devices@, index).contains(code)
                    == (value != 0)
                &&& !noted ==> r is Ok && (*final(m)).keyboard == (*m).keyboard
                &&& forall|d: usize|
                    d != index ==> #[trigger] crate::input::keys_on((*final(m)).keyboard.devices@, d)
                        == crate::input::keys_on((*m).keyboard.devices@, d)
                &&& (*final(m)).open == (*m).open
            },
{
}

/// A device of this program is never used; any other is open once it is opened, and its held keys
/// are noted.
pub proof fn lemma_which_devices_are_observed(index: usize, held: Vec<u16>, path: Seq<char>, title: Seq<char>)
    ensures
        forall|m: &mut ActivityMonitor, physical: &str, name: &str, r: Result<(), Error>|
            (#[trigger] call_ensures(
                ActivityMonitor::opened,
                (m, index, Some(physical), Some(name), &held),
                r,
            )) && physical@ == path && name@ == title && index < (*m).open@.len() ==> {
                let own = title == "NiriBridge Virtual Keyboard"@ || (path.len() >= 12 && path.take(12)
                    == "niri-bridge/"@);
                &&& own ==> r is Err && *final(m) == *m
                &&& !own && r is Ok ==> {
                    &&& (*final(m)).open@[index as int]
                    &&& forall|k: int|
                        0 <= k < held@.len() && 1 <= #[trigger] held@[k] <= 255 ==> crate::input::keys_on(
                            (*final(m)).keyboard.devices@,
                            index,
                        ).contains(held@[k])
                }
            },
{
    reveal_strlit("niri-bridge/");
    assert("niri-bridge/"@.len() == 12);
    assert forall|m: &mut ActivityMonitor, physical: &str, name: &str, r: Result<(), Error>, k: int|
        (#[trigger] call_ensures(
            ActivityMonitor::opened,
            (m, index, Some(physical), Some(name), &held),
            r,
        )) && r is Ok && 0 <= k < held@.len() && 1 <= #[trigger] held@[k] <= 255 && physical@ == path
            && name@ == title implies crate::input::keys_on((*final(m)).keyboard.devices@, index).contains(
        held@[k],
    ) by {
        assert(held@.contains(held@[k]));
        assert((*final(m)).keyboard.held_on(index).contains(held@[k]));
    }
}

/// Letting go closes every device and forgets every key; a monitor starts so.
pub proof fn lemma_letting_go_forgets_everything(paths: Vec<String>, native: bool)
    ensures
        forall|m: &mut ActivityMonitor, r: ()|
            (#[trigger] call_ensures(ActivityMonitor::suspend, (m,), r)) ==> {
                &&& forall|i: int| 0 <= i < (*final(m)).open@.len() ==> !#[trigger] (*final(m)).open@[i]
                &&& forall|d: usize, c: u16|
                    !#[trigger] crate::input::keys_on((*final(m)).keyboard.devices@, d).contains(c)
                &&& (*final(m)).keyboard.pending@.len() == 0
                &&& !(*final(m)).touchpads
                &&& (*final(m)).paths == (*m).paths
            },
        forall|r: Result<ActivityMonitor, Error>|
            (#[trigger] call_ensures(ActivityMonitor::new, (paths, native), r)) ==> {
                &&& r is Ok <==> 1 <= paths@.len() <= 32
                &&& r is Ok ==> (r->Ok_0).paths == paths && (r->Ok_0).native_touchpads == native
                    && (r->Ok_0).open@.len() == paths@.len() && !(r->Ok_0).touchpads
                &&& r is Ok ==> forall|i: int| 0 <= i < (r->Ok_0).open@.len() ==> !#[trigger] (r->Ok_0).open@[i]
            },
{
}

/// A closed device is closed, and touchpads must come back as they were negotiated.
pub proof fn lemma_touchpads_come_back_the_same(index: usize, profiles: Vec<Descriptor>)
    ensures
        forall|m: &mut ActivityMonitor, r: Result<(), Error>|
            (#[trigger] call_ensures(ActivityMonitor::closed, (m, index), r)) && index < (*m).open@.len()
                ==> !(*final(m)).open@[index as int],
        forall|m: &mut ActivityMonitor, r: Result<(), Error>|
            (#[trigger] call_ensures(ActivityMonitor::touchpads_opened, (m, profiles), r)) ==> {
                &&& (*final(m)).touchpads
                &&& (*m).touchpad_profiles is None ==> r is Ok
                &&& (*m).touchpad_profiles is Some && r is Ok ==> {
                    let known = ((*m).touchpad_profiles->0)@;
                    &&& known.len() == profiles@.len()
                    &&& forall|i: int|
                        0 <= i < known.len() ==> (#[trigger] known[i]).keys@ == profiles@[i].keys@
                            && known[i].properties@ == profiles@[i].properties@ && known[i].axes@
                            == profiles@[i].axes@
                }
            },
        forall|m: &ActivityMonitor, r: bool|
            (#[trigger] call_ensures(ActivityMonitor::wants_touchpads, (m,), r)) ==> (r
                <==> m.native_touchpads && !m.touchpads && m.touchpad_profiles is Some),
{
}

/// Touch frames become events one by one, with device, time and values.
pub proof fn lemma_frames_become_events(frames: Vec<CapturedFrame>, r: Vec<InputEvent>)
    requires
        call_ensures(crate::activity::frame_events, (frames,), r),
    ensures
        r@.len() == frames@.len(),
        forall|i: int|
            0 <= i < r@.len() ==> ((#[trigger] r@[i]) matches InputEvent::Touchpad {
                device,
                time_us,
                events,
            } && device == frames@[i].0 && time_us == frames@[i].1 && events@ == frames@[i].2@),
{
}

/// The keys of a chord are pressed in their order and let go in the opposite one.
pub proof fn lemma_a_chord_is_pressed_and_let_go(codes: Vec<u16>, r: Vec<(u16, bool)>)
    requires
        codes@.len() <= 5,
        call_ensures(crate::verify_input::chord_strokes, (&codes,), r),
    ensures
        r@.len() == 2 * codes@.len(),
        forall|i: int| 0 <= i < codes@.len() ==> #[trigger] codes@[i] == r@[i].0 && r@[i].1,
        forall|i: int|
            0 <= i < codes@.len() ==> #[trigger] codes@[i] == r@[r@.len() - 1 - i].0 && !r@[r@.len() - 1
                - i].1,
{
}

/// Accepted keys of a chord are real keys, each once.
pub proof fn lemma_a_chord_has_each_key_once(content: Seq<char>)
    ensures
        forall|value: &str, r: Result<Vec<u16>, Error>|
            (#[trigger] call_ensures(crate::verify_input::chord, (value,), r)) && value@ == content
                && r is Ok ==> {
                let codes = (r->Ok_0)@;
                &&& 2 <= codes.len() <= 5
                &&& codes.len() == crate::text::pieces(content, '+', '+').len()
                &&& forall|i: int| 0 <= i < codes.len() ==> 1 <= #[trigger] codes[i] <= 255
                &&& forall|i: int, j: int| 0 <= i < j < codes.len() ==> codes[i] != codes[j]
            },
        forall|found: Option<u16>, before: &Vec<u16>, r: Result<u16, Error>|
            (#[trigger] call_ensures(crate::verify_input::accept_key, (found, before), r)) ==> {
                &&& r is Ok <==> found is Some && 1 <= found->0 <= 255 && !before@.contains(found->0)
                &&& r is Ok ==> r->Ok_0 == found->0
            },
{
    let parts = crate::text::pieces(content, '+', '+');
    lemma_codes_of(parts, parts.len());
}

proof fn lemma_codes_of(parts: Seq<Seq<char>>, count: nat)
    ensures
        crate::verify_input::codes_of(parts, count) matches Ok(codes) ==> {
            &&& codes.len() == count
            &&& forall|i: int| 0 <= i < codes.len() ==> 1 <= #[trigger] codes[i] <= 255
            &&& forall|i: int, j: int| 0 <= i < j < codes.len() ==> codes[i] != codes[j]
        },
    decreases count,
{
    if count > 0 {
        lemma_codes_of(parts, (count - 1) as nat);
        if crate::verify_input::codes_of(parts, count) is Ok {
            let before = crate::verify_input::codes_of(parts, (count - 1) as nat)->Ok_0;
            let codes = crate::verify_input::codes_of(parts, count)->Ok_0;
            assert(!before.contains(codes.last()));
            assert forall|i: int, j: int| 0 <= i < j < codes.len() implies codes[i] != codes[j] by {
                assert(codes[i] == before[i]);
                if j == codes.len() - 1 {
                    if codes[i] == codes[j] {
                        assert(before.contains(codes[j]));
                    }
                }
            }
        }
    }
}

/// A trial is complete once both keys were seen to go down and come up, and motion and finger
/// scrolling were seen; what was seen stays seen, and the end of the capture is a failure.
pub proof fn lemma_what_a_trial_has_seen(event: Event)
    ensures
        forall|s: &Sightings, r: bool|
            (#[trigger] call_ensures(Sightings::complete, (s,), r)) ==> (r <==> s.key_down && s.key_up
                && s.modifier_down && s.modifier_up && s.motion && s.scroll),
        forall|s: &mut Sightings, r: Result<(), Error>|
            (#[trigger] call_ensures(Sightings::note, (s, &event), r)) ==> {
                let b = *s;
                let a = *final(s);
                &&& r is Err <==> event is Finished
                &&& a.key_down <==> b.key_down || event == Event::Input(
                    (InputEvent::Key { code: 194, pressed: true }),
                )
                &&& a.key_up <==> b.key_up || event == Event::Input(
                    (InputEvent::Key { code: 194, pressed: false }),
                )
                &&& a.modifier_down <==> b.modifier_down || event == Event::Input(
                    (InputEvent::Key { code: 42, pressed: true }),
                )
                &&& a.modifier_up <==> b.modifier_up || event == Event::Input(
                    (InputEvent::Key { code: 42, pressed: false }),
                )
                &&& a.motion <==> b.motion || (event matches Event::Input(i) && i is Motion)
                &&& a.scroll <==> b.scroll || (event matches Event::Input(
                    InputEvent::Scroll { source, .. },
                ) && source is Finger)
            },
        forall|r: Sightings|
            (#[trigger] call_ensures(Sightings::new, (), r)) ==> !r.key_down && !r.key_up
                && !r.modifier_down && !r.modifier_up && !r.motion && !r.scroll,
{
}

/// The interfaces that are listed are the ones that matter, in order, and all of those; capturing
/// and emulation are offered exactly if every interface that they need is.
pub proof fn lemma_what_the_compositor_offers(globals: Vec<Protocol>, r: WaylandCapabilities)
    requires
        call_ensures(crate::doctor::wayland_capabilities, (&globals,), r),
    ensures
        !r.input_behavior_tested,
        r.layer_shell_capture_interfaces_present <==> offered(globals@, "zwlr_layer_shell_v1"@) && offered(
            globals@,
            "zwp_relative_pointer_manager_v1"@,
        ) && offered(globals@, "zwp_pointer_constraints_v1"@) && offered(
            globals@,
            "zwp_keyboard_shortcuts_inhibit_manager_v1"@,
        ),
        r.virtual_input_interfaces_present <==> offered(globals@, "zwlr_virtual_pointer_manager_v1"@)
            && offered(globals@, "zwp_virtual_keyboard_manager_v1"@),
        forall|k: int|
            0 <= k < r.protocols@.len() ==> exists|i: int|
                0 <= i < globals@.len() && (#[trigger] globals@[i]) == (#[trigger] r.protocols@[k]),
{
    lemma_relevant(globals@);
}

pub open spec fn offered(globals: Seq<Protocol>, name: Seq<char>) -> bool {
    exists|i: int| 0 <= i < globals.len() && (#[trigger] globals[i]).name@ == name
}

proof fn lemma_relevant(globals: Seq<Protocol>)
    ensures
        ({
            let list = crate::doctor::relevant_among(globals);
            &&& forall|k: int|
                0 <= k < list.len() ==> exists|i: int|
                    0 <= i < globals.len() && (#[trigger] globals[i]) == (#[trigger] list[k])
            &&& forall|name: Seq<char>|
                crate::doctor::is_relevant(name) ==> (#[trigger] crate::doctor::listed(list, name)
                    <==> offered(globals, name))
        }),
    decreases globals.len(),
{
    let list = crate::doctor::relevant_among(globals);
    if globals.len() > 0 {
        let less = globals.drop_last();
        lemma_relevant(less);
        let before = crate::doctor::relevant_among(less);
        let last = globals[globals.len() - 1];
        assert forall|k: int| 0 <= k < list.len() implies exists|i: int|
            0 <= i < globals.len() && (#[trigger] globals[i]) == (#[trigger] list[k]) by {
            if k < before.len() {
                assert(list[k] == before[k]);
                let i = choose|i: int| 0 <= i < less.len() && (#[trigger] less[i]) == before[k];
                assert(globals[i] == list[k]);
            } else {
                assert(globals[globals.len() - 1] == list[k]);
            }
        }
        assert forall|name: Seq<char>| crate::doctor::is_relevant(name) implies (
        #[trigger] crate::doctor::listed(list, name) <==> offered(globals, name)) by {
            assert(crate::doctor::listed(before, name) <==> offered(less, name));
            if crate::doctor::listed(list, name) {
                let k = choose|k: int| 0 <= k < list.len() && (#[trigger] list[k]).name@ == name;
                let i = choose|i: int| 0 <= i < globals.len() && (#[trigger] globals[i]) == list[k];
                assert(globals[i].name@ == name);
            }
            if offered(globals, name) {
                let i = choose|i: int| 0 <= i < globals.len() && (#[trigger] globals[i]).name@ == name;
                if i < less.len() {
                    assert(less[i].name@ == name);
                    assert(offered(less, name));
                    let k = choose|k: int| 0 <= k < before.len() && (#[trigger] before[k]).name@ == name;
                    assert(list[k].name@ == name);
                } else {
                    assert(list[before.len() as int].name@ == name);
                }
            }
        }
    }
}

/// The report repeats what was found out, and notes what is missing or not to be relied on.
pub proof fn lemma_the_report_repeats_what_was_found(
    niri_version: Option<String>,
    outputs: Option<Vec<Output>>,
    wayland: Option<WaylandCapabilities>,
    portal: PortalCapabilities,
    uinput: DeviceAccess,
    r: Report,
)
    requires
        call_ensures(crate::doctor::inspect, (niri_version, outputs, wayland, portal, uinput), r),
    ensures
        r.schema_version == 1,
        r.niri_version == niri_version,
        r.niri_query_ok <==> outputs is Some,
        outputs is Some ==> r.outputs == outputs->0,
        outputs is None ==> r.outputs@.len() == 0,
        r.wayland == wayland,
        r.portal == portal,
        r.uinput == uinput,
        r.notes@.len() == number(outputs is None) + number(wayland is None) + number(
            portal.input_capture_advertised && portal.mutter_input_capture_running == Some(false),
        ) + number(uinput.exists && !uinput.writable),
{
    let notes = crate::text::string_views(r.notes@);
    assert(notes.len() == r.notes@.len());
}

pub open spec fn number(condition: bool) -> int {
    if condition {
        1
    } else {
        0
    }
}

/// What the portals advertise is read from their description, and which services run from the list
/// of names; without either nothing is claimed.
pub proof fn lemma_what_the_portals_advertise(description: Option<String>, names: Option<String>, r: PortalCapabilities)
    requires
        call_ensures(crate::doctor::portal_capabilities, (&description, &names), r),
    ensures
        r.introspection_ok <==> description is Some,
        description is None ==> !r.input_capture_advertised && !r.remote_desktop_advertised,
        names is None ==> r.mutter_input_capture_running is None
            && r.mutter_remote_desktop_running is None,
        names is Some ==> r.mutter_input_capture_running is Some
            && r.mutter_remote_desktop_running is Some,
        !r.session_creation_tested,
{
}

/// The result of a probe counts if it succeeded and is not too large.
pub proof fn lemma_which_probes_count(succeeded: bool, size: usize, r: Result<(), Error>)
    requires
        call_ensures(crate::doctor::check_probe, (succeeded, size), r),
    ensures
        r is Ok <==> succeeded && size <= 1_048_576,
{
}

/// A reply of the compositor counts if it is a whole line and holds an answer; the answer is what is
/// under its name.
pub proof fn lemma_replies_hold_an_answer(content: Seq<char>, members: Vec<Member>, name: Seq<char>)
    ensures
        forall|reply: &str, r: Result<String, Error>|
            (#[trigger] call_ensures(crate::niri::accept_reply, (reply,), r)) && reply@ == content ==> {
                &&& r is Ok ==> content.len() > 0 && content[content.len() - 1] == '\n'
                &&& r is Ok ==> under(crate::niri::json_members(content), "Ok"@, (r->Ok_0)@)
            },
        forall|answer: &str, r: Result<String, Error>|
            (#[trigger] call_ensures(crate::niri::outputs_of, (answer,), r)) && answer@ == content
                && r is Ok ==> under(crate::niri::json_members(content), "Outputs"@, (r->Ok_0)@),
        forall|wanted: &str, r: Option<String>|
            (#[trigger] call_ensures(crate::niri::find_member, (&members, wanted), r)) && wanted@ == name
                ==> {
                &&& r is Some ==> exists|i: int|
                    0 <= i < members@.len() && (#[trigger] members@[i]).name@ == name
                        && members@[i].value@ == (r->0)@
                &&& r is None ==> forall|i: int|
                    0 <= i < members@.len() ==> (#[trigger] members@[i]).name@ != name
            },
{
    if crate::niri::json_members(content) is Some {
        lemma_member(crate::niri::json_members(content)->0, "Ok"@);
        lemma_member(crate::niri::json_members(content)->0, "Outputs"@);
    }
    let views = crate::niri::member_views(members@);
    lemma_member(views, name);
    assert forall|i: int| 0 <= i < members@.len() implies #[trigger] views[i] == (
        members@[i].name@,
        members@[i].value@,
    ) by {}
    assert(views.len() == members@.len());
    if crate::niri::member_value(views, name) is None {
        assert forall|i: int| 0 <= i < members@.len() implies (#[trigger] members@[i]).name@ != name by {
            assert(views[i].0 != name);
        }
    } else {
        let i = choose|i: int|
            0 <= i < views.len() && (#[trigger] views[i]).0 == name && Some(views[i].1)
                == crate::niri::member_value(views, name);
        assert(members@[i].name@ == name);
    }
}

/// A value is under a name among the members of an object.
pub open spec fn under(members: Option<Seq<(Seq<char>, Seq<char>)>>, name: Seq<char>, value: Seq<char>) -> bool {
    members is Some && exists|i: int|
        0 <= i < (members->0).len() && (#[trigger] (members->0)[i]).0 == name && (members->0)[i].1 == value
}

pub proof fn lemma_member(members: Seq<(Seq<char>, Seq<char>)>, name: Seq<char>)
    ensures
        crate::niri::member_value(members, name) matches Some(value) ==> exists|i: int|
            0 <= i < members.len() && (#[trigger] members[i]).0 == name && members[i].1 == value,
        crate::niri::member_value(members, name) is None ==> forall|i: int|
            0 <= i < members.len() ==> (#[trigger] members[i]).0 != name,
    decreases members.len(),
{
    if members.len() > 0 {
        let rest = members.drop_first();
        lemma_member(rest, name);
        if members[0].0 == name {
            assert(members[0].1 == members[0].1);
        } else if crate::niri::member_value(rest, name) is Some {
            let i = choose|i: int|
                0 <= i < rest.len() && (#[trigger] rest[i]).0 == name && Some(rest[i].1)
                    == crate::niri::member_value(rest, name);
            assert(members[i + 1] == rest[i]);
        } else {
            assert forall|i: int| 0 <= i < members.len() implies (#[trigger] members[i]).0 != name by {
                if i > 0 {
                    assert(rest[i - 1] == members[i]);
                }
            }
        }
    }
}

/// A permission of the desktop counts if the expected request was answered with success and the
/// pointer was granted.
pub proof fn lemma_which_permissions_count(wanted: Seq<char>, got: Seq<char>, code: u32, granted: u32)
    ensures
        forall|expected: &str, returned: &str, r: Result<(), Error>|
            (#[trigger] call_ensures(crate::portal::check_response, (expected, returned, code), r))
                && expected@ == wanted && returned@ == got ==> (r is Ok <==> got == wanted && code == 0),
        forall|r: Result<(), Error>|
            (#[trigger] call_ensures(crate::portal::check_granted, (granted,), r)) ==> (r is Ok <==> granted
                & 2 != 0),
{
}

/// A compositor has opened a device once it has opened one of the device's event nodes.
pub proof fn lemma_when_a_device_is_opened(names: Vec<String>, known: Vec<String>, r: bool)
    requires
        call_ensures(crate::uinput::is_opened, (&names, &known), r),
    ensures
        r ==> exists|i: int, j: int|
            0 <= i < names@.len() && 0 <= j < known@.len() && (#[trigger] names@[i])@ == (
            #[trigger] known@[j])@ && names@[i]@.len() >= 5 && names@[i]@.take(5) == "event"@,
        !r ==> forall|i: int, j: int|
            0 <= i < names@.len() && 0 <= j < known@.len() && names@[i]@.len() >= 5 && names@[i]@.take(5)
                == "event"@ ==> (#[trigger] names@[i])@ != (#[trigger] known@[j])@,
{
    reveal_strlit("event");
    assert("event"@.len() == 5);
}

/// The keys that a keyboard has down when it is opened are reported as pressed, each once, behind
/// what waits already: those, and only those, that no keyboard had down before.
pub proof fn lemma_held_keys_of_a_new_keyboard_are_pressed(index: usize, held: Vec<u16>)
    ensures
        forall|m: &mut ActivityMonitor, r: Result<(), Error>|
            (#[trigger] call_ensures(ActivityMonitor::opened, (m, index, None, None, &held), r)) && r is Ok
                ==> {
                let before = (*m).keyboard.pending@;
                let after = (*final(m)).keyboard.pending@;
                &&& before.len() <= after.len()
                &&& forall|i: int| 0 <= i < before.len() ==> #[trigger] after[i] == before[i]
                &&& forall|i: int|
                    before.len() <= i < after.len() ==> (#[trigger] after[i] matches InputEvent::Key {
                        code,
                        pressed,
                    } && pressed && held@.contains(code) && 1 <= code <= 255
                        && !crate::input::held_anywhere((*m).keyboard.devices@, code))
            },
{
    assert forall|m: &mut ActivityMonitor, r: Result<(), Error>|
        (#[trigger] call_ensures(ActivityMonitor::opened, (m, index, None, None, &held), r)) && r is Ok
            implies {
        let before = (*m).keyboard.pending@;
        let after = (*final(m)).keyboard.pending@;
        &&& before.len() <= after.len()
        &&& forall|i: int| 0 <= i < before.len() ==> #[trigger] after[i] == before[i]
        &&& forall|i: int|
            before.len() <= i < after.len() ==> (#[trigger] after[i] matches InputEvent::Key {
                code,
                pressed,
            } && pressed && held@.contains(code) && 1 <= code <= 255 && !crate::input::held_anywhere(
                (*m).keyboard.devices@,
                code,
            ))
    } by {
        let devices = (*m).keyboard.devices@;
        let before = (*m).keyboard.pending@;
        let after = (*final(m)).keyboard.pending@;
        let fresh = crate::activity::fresh_keys(devices, held@);
        lemma_fresh(devices, held@);
        assert(after == before + crate::activity::key_presses(fresh));
        assert forall|i: int| before.len() <= i < after.len() implies (
        #[trigger] after[i] matches InputEvent::Key { code, pressed } && pressed && held@.contains(code)
            && 1 <= code <= 255 && !crate::input::held_anywhere(devices, code)) by {
            let k = i - before.len();
            assert(after[i] == crate::activity::key_presses(fresh)[k]);
            assert(fresh.contains(fresh[k]));
        }
    }
}

proof fn lemma_fresh(devices: Map<usize, std::collections::BTreeSet<u16>>, held: Seq<u16>)
    ensures
        forall|code: u16| #[trigger]
            crate::activity::fresh_keys(devices, held).contains(code) ==> held.contains(code) && 1 <= code
                <= 255 && !crate::input::held_anywhere(devices, code),
    decreases held.len(),
{
    if held.len() > 0 {
        let less = held.drop_last();
        let before = crate::activity::fresh_keys(devices, less);
        let all = crate::activity::fresh_keys(devices, held);
        lemma_fresh(devices, less);
        assert forall|code: u16| #[trigger] all.contains(code) implies held.contains(code) && 1 <= code
            <= 255 && !crate::input::held_anywhere(devices, code) by {
            let k = choose|k: int| 0 <= k < all.len() && all[k] == code;
            if k < before.len() {
                assert(before[k] == code);
                assert(before.contains(code));
                let i = choose|i: int| 0 <= i < less.len() && less[i] == code;
                assert(held[i] == code);
            } else {
                assert(held[held.len() - 1] == code);
            }
        }
    }
}

/// Opening a keyboard notes nothing but keys, and nothing on another keyboard.
pub proof fn lemma_only_keys_are_noted(index: usize, held: Vec<u16>, code: u16)
    ensures
        forall|m: &mut ActivityMonitor, r: Result<(), Error>|
            (#[trigger] call_ensures(ActivityMonitor::opened, (m, index, None, None, &held), r)) && r is Ok
                && !(1 <= code <= 255 && held@.contains(code)) ==> crate::input::keys_on(
                (*final(m)).keyboard.devices@,
                index,
            ).contains(code) == crate::input::keys_on((*m).keyboard.devices@, index).contains(code),
{
    assert forall|m: &mut ActivityMonitor, r: Result<(), Error>|
        (#[trigger] call_ensures(ActivityMonitor::opened, (m, index, None, None, &held), r)) && r is Ok
            && !(1 <= code <= 255 && held@.contains(code)) implies crate::input::keys_on(
        (*final(m)).keyboard.devices@,
        index,
    ).contains(code) == crate::input::keys_on((*m).keyboard.devices@, index).contains(code) by {
        assert((*final(m)).keyboard.held_on(index).contains(code) <==> (*m).keyboard.held_on(
            index,
        ).contains(code));
    }
}

} // verus!
