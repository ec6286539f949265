//! Live validation of input delivery: the shortcut that is tried, and what has been seen so far.
use crate::capture_probe::Event;
use crate::error::Error;
use crate::niri::{member, parse_flag, parse_items, parse_string, parse_unsigned};
use crate::protocol::{InputEvent, ScrollSource};
use crate::text::{
    characters, from_characters, same_characters, split, starts_with, to_lower_case, to_upper_case,
};
use vstd::prelude::*;
use vstd::string::*;

verus! {

/// The keys that are tried: one that types nothing, and a modifier.
pub const PROBE_KEY: u16 = 194;

pub const PROBE_MODIFIER: u16 = 42;

/// What the live validation found.
#[derive(Clone, Copy, PartialEq, Eq, Structural)]
pub struct Report {
    pub kernel_keyboard_verified: bool,
    pub pointer_motion_verified: bool,
    pub scroll_verified: bool,
    pub capture_released: bool,
    pub original_focus_restored: bool,
    pub shortcut_verified: Option<bool>,
    pub overview_restored: Option<bool>,
    pub temporary_keyboard_removed: bool,
}

/// The code of the key with a name of the input subsystem.
pub uninterp spec fn key_named(name: Seq<char>) -> Option<u16>;

/// Looks a key up by its name with `str::parse::<evdev::KeyCode>`, a fixed table.
#[verifier::external_body]
fn find_key(name: &str) -> (r: Option<u16>)
    ensures
        r == key_named(name@),
{
    name.parse::<evdev::KeyCode>().ok().map(|key| key.code())
}

/// The name of a modifier key.
pub open spec fn modifier_name(part: Seq<char>) -> Option<Seq<char>> {
    let name = crate::text::lower_case(part);
    if name == "super"@ || name == "mod"@ {
        Some("KEY_LEFTMETA"@)
    } else if name == "ctrl"@ || name == "control"@ {
        Some("KEY_LEFTCTRL"@)
    } else if name == "alt"@ {
        Some("KEY_LEFTALT"@)
    } else if name == "shift"@ {
        Some("KEY_LEFTSHIFT"@)
    } else {
        None
    }
}

/// The name of the key that a part of a shortcut stands for.
pub open spec fn part_name(part: Seq<char>) -> Seq<char> {
    match modifier_name(part) {
        Some(name) => name,
        None => "KEY_"@ + crate::text::upper_case(part),
    }
}

/// What is wrong with a part of a shortcut, the codes of the parts before it being given.
pub open spec fn part_problem(parts: Seq<Seq<char>>, index: int, before: Seq<u16>) -> Option<Error> {
    if modifier_name(parts[index]) is None && index != parts.len() - 1 {
        Some(Error::ShortcutOrder)
    } else {
        match key_named(part_name(parts[index])) {
            None => Some(Error::ShortcutKeyUnknown),
            Some(code) => if !(1 <= code <= 255) || before.contains(code) {
                Some(Error::ShortcutInvalid)
            } else {
                None
            },
        }
    }
}

/// The codes of the first parts of a shortcut, or what is wrong with the first wrong one.
pub open spec fn codes_of(parts: Seq<Seq<char>>, count: nat) -> Result<Seq<u16>, Error>
    decreases count,
{
    if count == 0 {
        Ok(Seq::empty())
    } else {
        match codes_of(parts, (count - 1) as nat) {
            Err(e) => Err(e),
            Ok(before) => match part_problem(parts, count - 1, before) {
                Some(e) => Err(e),
                None => Ok(before.push(key_named(part_name(parts[count - 1]))->0)),
            },
        }
    }
}

fn is_word(list: &Vec<char>, word: &str) -> (r: bool)
    ensures
        r == (list@ == word@),
{
    same_characters(list, &characters(word))
}

fn find_modifier(part: &Vec<char>) -> (r: Option<&'static str>)
    ensures
        match modifier_name(part@) {
            Some(name) => r matches Some(found) && found@ == name,
            None => r is None,
        },
{
    let name = to_lower_case(part);
    if is_word(&name, "super") || is_word(&name, "mod") {
        Some("KEY_LEFTMETA")
    } else if is_word(&name, "ctrl") || is_word(&name, "control") {
        Some("KEY_LEFTCTRL")
    } else if is_word(&name, "alt") {
        Some("KEY_LEFTALT")
    } else if is_word(&name, "shift") {
        Some("KEY_LEFTSHIFT")
    } else {
        None
    }
}

/// The codes of a shortcut such as `Super+Shift+O`: two to five keys, modifiers first.
pub fn chord(value: &str) -> (r: Result<Vec<u16>, Error>)
    ensures
        ({
            let parts = crate::text::pieces(value@, '+', '+');
            if !(2 <= parts.len() <= 5) {
                r == Err::<Vec<u16>, Error>(Error::ShortcutLength)
            } else {
                match codes_of(parts, parts.len()) {
                    Ok(codes) => r matches Ok(list) && list@ == codes,
                    Err(e) => r == Err::<Vec<u16>, Error>(e),
                }
            }
        }),
{
    let parts = split(&characters(value), '+', '+');
    let ghost all = crate::text::views(parts@);
    assert(all.len() == parts@.len());
    if parts.len() < 2 || parts.len() > 5 {
        return Err(Error::ShortcutLength);
    }
    let mut codes: Vec<u16> = Vec::new();
    assert(codes@ =~= Seq::<u16>::empty());
    for i in 0..parts.len()
        invariant
            all == crate::text::views(parts@),
            all == crate::text::pieces(value@, '+', '+'),
            2 <= all.len() <= 5,
            all.len() == parts@.len(),
            codes_of(all, i as nat) == Ok::<Seq<u16>, Error>(codes@),
    {
        assert(all[i as int] == parts@[i as int]@);
        let ghost before = codes@;
        let step = chord_part(&parts[i], i == parts.len() - 1, &codes);
        proof {
            lemma_prefix_failure(all, i as nat + 1, all.len());
        }
        match step {
            Err(e) => return Err(e),
            Ok(code) => {
                codes.push(code);
            },
        }
    }
    Ok(codes)
}

fn chord_part(part: &Vec<char>, last: bool, before: &Vec<u16>) -> (r: Result<u16, Error>)
    ensures
        if modifier_name(part@) is None && !last {
            r == Err::<u16, Error>(Error::ShortcutOrder)
        } else {
            match key_named(part_name(part@)) {
                None => r == Err::<u16, Error>(Error::ShortcutKeyUnknown),
                Some(code) => if !(1 <= code <= 255) || before@.contains(code) {
                    r == Err::<u16, Error>(Error::ShortcutInvalid)
                } else {
                    r == Ok::<u16, Error>(code)
                },
            }
        },
{
    let name = match find_modifier(part) {
        Some(name) => name.to_owned(),
        None => {
            if !last {
                return Err(Error::ShortcutOrder);
            }
            let mut name = "KEY_".to_owned();
            name.append(from_characters(&to_upper_case(part)).as_str());
            name
        },
    };
    accept_key(find_key(name.as_str()), before)
}

/// Accepts the code of a key of a shortcut: a keyboard key that is not in it yet.
pub fn accept_key(found: Option<u16>, before: &Vec<u16>) -> (r: Result<u16, Error>)
    ensures
        match found {
            None => r == Err::<u16, Error>(Error::ShortcutKeyUnknown),
            Some(code) => if !(1 <= code <= 255) || before@.contains(code) {
                r == Err::<u16, Error>(Error::ShortcutInvalid)
            } else {
                r == Ok::<u16, Error>(code)
            },
        },
{
    match found {
        None => Err(Error::ShortcutKeyUnknown),
        Some(code) => if !(1 <= code && code <= 255) || crate::touchpad::contains_code(
            before,
            code,
        ) {
            Err(Error::ShortcutInvalid)
        } else {
            Ok(code)
        },
    }
}

/// What is wrong with a prefix of a shortcut is wrong with the whole.
proof fn lemma_prefix_failure(parts: Seq<Seq<char>>, shorter: nat, longer: nat)
    requires
        shorter <= longer,
    ensures
        codes_of(parts, shorter) is Err ==> codes_of(parts, longer) == codes_of(parts, shorter),
    decreases longer,
{
    if shorter < longer {
        lemma_prefix_failure(parts, shorter, (longer - 1) as nat);
    }
}

/// The transitions of a shortcut: every key is pressed in order and released in the reverse order.
pub open spec fn strokes(codes: Seq<u16>) -> Seq<(u16, bool)> {
    Seq::new(
        2 * codes.len(),
        |i: int|
            if i < codes.len() {
                (codes[i], true)
            } else {
                (codes[2 * codes.len() - 1 - i], false)
            },
    )
}

pub fn chord_strokes(codes: &Vec<u16>) -> (r: Vec<(u16, bool)>)
    requires
        codes@.len() <= 5,
    ensures
        r@ == strokes(codes@),
{
    let mut list: Vec<(u16, bool)> = Vec::new();
    for i in 0..codes.len()
        invariant
            list@.len() == i,
            forall|j: int| 0 <= j < i ==> #[trigger] list@[j] == (codes@[j], true),
    {
        list.push((codes[i], true));
    }
    let count: usize = codes.len();
    for i in 0..count
        invariant
            count == codes@.len(),
            list@.len() == count + i,
            forall|j: int| 0 <= j < count ==> #[trigger] list@[j] == (codes@[j], true),
            forall|j: int|
                count <= j < count + i ==> #[trigger] list@[j] == (codes@[2 * count - 1 - j], false),
    {
        list.push((codes[count - 1 - i], false));
    }
    assert(list@ =~= strokes(codes@));
    list
}

/// What has been seen of the tried events.
#[derive(Clone, Copy, PartialEq, Eq, Structural)]
pub struct Sightings {
    pub key_down: bool,
    pub key_up: bool,
    pub modifier_down: bool,
    pub modifier_up: bool,
    pub motion: bool,
    pub scroll: bool,
}

impl Sightings {
    pub open spec fn everything(self) -> bool {
        self.key_down && self.key_up && self.modifier_down && self.modifier_up && self.motion
            && self.scroll
    }

    pub fn new() -> (r: Sightings)
        ensures
            r == (Sightings {
                key_down: false,
                key_up: false,
                modifier_down: false,
                modifier_up: false,
                motion: false,
                scroll: false,
            }),
    {
        Sightings {
            key_down: false,
            key_up: false,
            modifier_down: false,
            modifier_up: false,
            motion: false,
            scroll: false,
        }
    }

    pub fn complete(&self) -> (r: bool)
        ensures
            r == self.everything(),
    {
        self.key_down && self.key_up && self.modifier_down && self.modifier_up && self.motion
            && self.scroll
    }

    /// What has been seen after one more event.
    pub open spec fn after(self, event: InputEvent) -> Sightings {
        match event {
            InputEvent::Key { code, pressed } => Sightings {
                key_down: self.key_down || (code == PROBE_KEY && pressed),
                key_up: self.key_up || (code == PROBE_KEY && !pressed),
                modifier_down: self.modifier_down || (code == PROBE_MODIFIER && pressed),
                modifier_up: self.modifier_up || (code == PROBE_MODIFIER && !pressed),
                ..self
            },
            InputEvent::Motion { .. } => Sightings { motion: true, ..self },
            InputEvent::Scroll { source, .. } => Sightings {
                scroll: self.scroll || source == ScrollSource::Finger,
                ..self
            },
            _ => self,
        }
    }

    /// Notes an event of the capture; its end is a failure.
    pub fn note(&mut self, event: &Event) -> (r: Result<(), Error>)
        ensures
            match *event {
                Event::Finished { .. } => r == Err::<(), Error>(Error::CaptureInterrupted)
                    && *final(self) == *old(self),
                Event::Input(input) => r is Ok && *final(self) == old(self).after(input),
                _ => r is Ok && *final(self) == *old(self),
            },
    {
        match event {
            Event::Finished { .. } => return Err(Error::CaptureInterrupted),
            Event::Input(input) => match input {
                InputEvent::Key { code, pressed } => {
                    if *code == PROBE_KEY {
                        if *pressed {
                            self.key_down = true;
                        } else {
                            self.key_up = true;
                        }
                    } else if *code == PROBE_MODIFIER {
                        if *pressed {
                            self.modifier_down = true;
                        } else {
                            self.modifier_up = true;
                        }
                    }
                },
                InputEvent::Motion { .. } => {
                    self.motion = true;
                },
                InputEvent::Scroll { source, .. } => {
                    if *source == ScrollSource::Finger {
                        self.scroll = true;
                    }
                },
                _ => {},
            },
            _ => {},
        }
        Ok(())
    }
}

/// No key or button is held on a device.
pub fn keys_idle(held: &Vec<u16>) -> (r: bool)
    ensures
        r == forall|i: int| 0 <= i < held@.len() ==> !(1 <= #[trigger] held@[i] <= 279),
{
    for i in 0..held.len()
        invariant
            forall|j: int| 0 <= j < i ==> !(1 <= #[trigger] held@[j] <= 279),
    {
        if 1 <= held[i] && held[i] <= 279 {
            assert(1 <= held@[i as int] <= 279);
            return false;
        }
    }
    true
}

/// A surface of this program.
pub fn is_own_layer(namespace: &str) -> (r: bool)
    ensures
        r == crate::text::has_prefix(namespace@, "niri-bridge-"@),
{
    starts_with(namespace, "niri-bridge-")
}

/// Some surface of this program is among those with given namespaces.
pub open spec fn own_layer_in(namespaces: Seq<Option<Seq<char>>>) -> bool {
    exists|i: int|
        0 <= i < namespaces.len() && ((#[trigger] namespaces[i]) matches Some(namespace)
            && crate::text::has_prefix(namespace, "niri-bridge-"@))
}

pub open spec fn optional_views(list: Seq<Option<String>>) -> Seq<Option<Seq<char>>> {
    list.map_values(
        |text: Option<String>|
            match text {
                Some(t) => Some(t@),
                None => None,
            },
    )
}

/// Says whether one of some surfaces is this program's, by their namespaces.
pub fn any_own_layer(namespaces: &Vec<Option<String>>) -> (r: bool)
    ensures
        r == own_layer_in(optional_views(namespaces@)),
{
    for i in 0..namespaces.len()
        invariant
            forall|j: int|
                0 <= j < i ==> !((#[trigger] optional_views(namespaces@)[j]) matches Some(namespace)
                    && crate::text::has_prefix(namespace, "niri-bridge-"@)),
    {
        match &namespaces[i] {
            Some(namespace) => {
                if is_own_layer(namespace.as_str()) {
                    assert(optional_views(namespaces@)[i as int] == Some(namespace@));
                    return true;
                }
            },
            None => {},
        }
    }
    false
}

/// The namespace of a surface that the compositor describes.
pub open spec fn namespace_of(layer: Seq<char>) -> Option<Seq<char>> {
    match crate::niri::member_in(layer, "namespace"@) {
        Some(value) => crate::niri::json_string(value),
        None => None,
    }
}

/// The surfaces in the answer to the request for them.
pub open spec fn layers_in(answer: Seq<char>) -> Option<Seq<Seq<char>>> {
    match crate::niri::member_in(answer, "Layers"@) {
        Some(value) => crate::niri::json_items(value),
        None => None,
    }
}

/// Says whether a surface of this program is among those of the compositor.
pub fn has_own_layer(answer: &str) -> (r: Result<bool, Error>)
    ensures
        match layers_in(answer@) {
            Some(layers) => r == Ok::<bool, Error>(
                own_layer_in(layers.map_values(|layer: Seq<char>| namespace_of(layer))),
            ),
            None => r == Err::<bool, Error>(Error::LayersUnreadable),
        },
{
    let value = match member(answer, "Layers") {
        Some(value) => value,
        None => return Err(Error::LayersUnreadable),
    };
    let layers = match parse_items(value.as_str()) {
        Some(layers) => layers,
        None => return Err(Error::LayersUnreadable),
    };
    let ghost all = crate::text::string_views(layers@);
    let ghost wanted = all.map_values(|layer: Seq<char>| namespace_of(layer));
    let mut namespaces: Vec<Option<String>> = Vec::new();
    for i in 0..layers.len()
        invariant
            all == crate::text::string_views(layers@),
            wanted == all.map_values(|layer: Seq<char>| namespace_of(layer)),
            optional_views(namespaces@) =~= wanted.take(i as int),
    {
        let ghost before = namespaces@;
        let namespace = match member(layers[i].as_str(), "namespace") {
            Some(value) => parse_string(value.as_str()),
            None => None,
        };
        namespaces.push(namespace);
        proof {
            assert(all[i as int] == layers@[i as int]@);
            assert(optional_views(namespaces@) =~= optional_views(before).push(
                namespace_of(all[i as int]),
            ));
            assert(wanted.take(i + 1) =~= wanted.take(i as int).push(wanted[i as int]));
        }
    }
    assert(wanted.take(wanted.len() as int) =~= wanted);
    Ok(any_own_layer(&namespaces))
}

/// The identifier of the window in the answer to the request for the focused one.
pub open spec fn focus_in(answer: Seq<char>) -> Option<u64> {
    match crate::niri::member_in(answer, "FocusedWindow"@) {
        Some(window) => match crate::niri::member_in(window, "id"@) {
            Some(value) => crate::niri::json_number(value),
            None => None,
        },
        None => None,
    }
}

pub fn focused_window(answer: &str) -> (r: Option<u64>)
    ensures
        r == focus_in(answer@),
{
    match member(answer, "FocusedWindow") {
        Some(window) => match member(window.as_str(), "id") {
            Some(value) => parse_unsigned(value.as_str()),
            None => None,
        },
        None => None,
    }
}

/// Whether the overview is open, in the answer to the request for its state.
pub open spec fn overview_in(answer: Seq<char>) -> Option<bool> {
    match crate::niri::member_in(answer, "OverviewState"@) {
        Some(state) => match crate::niri::member_in(state, "is_open"@) {
            Some(value) => crate::niri::json_flag(value),
            None => None,
        },
        None => None,
    }
}

pub fn overview_open(answer: &str) -> (r: Result<bool, Error>)
    ensures
        r == (match overview_in(answer@) {
            Some(open) => Ok::<bool, Error>(open),
            None => Err::<bool, Error>(Error::OverviewUnreadable),
        }),
{
    let open = match member(answer, "OverviewState") {
        Some(state) => match member(state.as_str(), "is_open") {
            Some(value) => parse_flag(value.as_str()),
            None => None,
        },
        None => None,
    };
    match open {
        Some(open) => Ok(open),
        None => Err(Error::OverviewUnreadable),
    }
}

} // verus!
