//! Screens, connections and positions.
use crate::desktop::{KnownOutput, Kind, Metadata, Process};
use crate::edges::{EdgeConfig, EdgePosition};
use crate::ei::{Devices, Step};
use crate::error::Error;
use crate::geometry::{Boundary, Edge, Endpoint, Layout, Rect};
use crate::niri::{ActiveOutput, LogicalOutput, Transform};
use crate::number::Binary64;
use crate::pointer::AxisMap;
use vstd::arithmetic::power2::pow2;
use vstd::prelude::*;

verus! {

/// A span of an edge: it starts at zero or later, ends at one or before, and is not empty.
pub open spec fn sound_span(b: Boundary) -> bool {
    b.start.finite() && b.end.finite() && 0 <= b.start.units() < b.end.units() <= pow2(1074)
}

/// A name of a connection: one to 64 letters, digits, hyphens and underscores.
pub open spec fn sound_id(id: Seq<char>) -> bool {
    1 <= id.len() <= 64 && forall|i: int|
        0 <= i < id.len() ==> ('a' <= (#[trigger] id[i]) <= 'z' || 'A' <= id[i] <= 'Z' || '0' <= id[i]
            <= '9' || id[i] == '-' || id[i] == '_')
}

/// Two spans of one edge of one output that share more than an end.
pub open spec fn collide(a: EdgeConfig, b: EdgeConfig) -> bool {
    &&& a.output@ == b.output@
    &&& a.boundary.edge == b.boundary.edge
    &&& a.boundary.start.units() < b.boundary.end.units()
    &&& b.boundary.start.units() < a.boundary.end.units()
}

/// One to sixteen connections with sound and different names and sound spans that do not collide.
pub open spec fn sound_edges(edges: Seq<EdgeConfig>) -> bool {
    &&& 1 <= edges.len() <= 16
    &&& forall|i: int|
        0 <= i < edges.len() ==> sound_id((#[trigger] edges[i]).id@) && sound_span(edges[i].boundary)
    &&& forall|i: int, j: int|
        0 <= i < j < edges.len() ==> (#[trigger] edges[i]).id@ != (#[trigger] edges[j]).id@ && !collide(
            edges[i],
            edges[j],
        )
}

/// Connections are accepted exactly if they are sound.
pub proof fn lemma_sound_edges(edges: Seq<EdgeConfig>)
    ensures
        crate::edges::edges_problem(edges) is None <==> sound_edges(edges),
{
    crate::number::lemma_constants();
    crate::edges::lemma_edges_problem(edges);
    assert forall|i: int| 0 <= i < edges.len() implies sound_id((#[trigger] edges[i]).id@)
        == crate::edges::edge_id_valid(edges[i].id@) && sound_span(edges[i].boundary)
        == edges[i].boundary.valid() by {
        let id = edges[i].id@;
        assert(forall|k: int|
            0 <= k < id.len() ==> (crate::edges::edge_id_char(#[trigger] id[k]) <==> ('a' <= id[k] <= 'z'
                || 'A' <= id[k] <= 'Z' || '0' <= id[k] <= '9' || id[k] == '-' || id[k] == '_')));
    }
    assert forall|i: int, j: int| 0 <= i < j < edges.len() implies #[trigger] edges[i].overlaps(edges[j])
        == collide(edges[i], edges[j]) by {}
}

/// The same of the functions that check them.
pub proof fn lemma_which_connections_are_accepted(edges: Vec<EdgeConfig>, position: EdgePosition, content: Seq<char>)
    ensures
        forall|r: Result<(), Error>|
            (#[trigger] call_ensures(crate::edges::validate_edges, (&edges,), r)) ==> (r is Ok
                <==> sound_edges(edges@)),
        forall|r: Result<(), Error>|
            (#[trigger] call_ensures(EdgePosition::validate, (&position,), r)) ==> (r is Ok <==> sound_id(
                position.edge_id@,
            ) && position.fraction.finite() && 0 <= position.fraction.units() <= pow2(1074)),
        forall|id: &str, r: bool|
            (#[trigger] call_ensures(crate::edges::valid_edge_id, (id,), r)) && id@ == content ==> r
                == sound_id(content),
{
    lemma_sound_edges(edges@);
    crate::number::lemma_constants();
}

/// An output in use is found by its name.
pub proof fn lemma_outputs_are_found_by_name(outputs: Vec<ActiveOutput>, content: Seq<char>)
    ensures
        forall|name: &str, r: Option<LogicalOutput>|
            (#[trigger] call_ensures(crate::niri::find_output, (&outputs, name), r)) && name@ == content
                ==> {
                &&& r is Some <==> super::crossing::shown(outputs@, content)
                &&& r is Some ==> exists|i: int|
                    0 <= i < outputs@.len() && (#[trigger] outputs@[i]).name@ == content
                        && outputs@[i].logical == r->0
            },
{
    lemma_lookup(outputs@, content);
}

proof fn lemma_lookup(outputs: Seq<ActiveOutput>, name: Seq<char>)
    ensures
        crate::niri::lookup(outputs, name) matches Some(found) ==> exists|i: int|
            0 <= i < outputs.len() && (#[trigger] outputs[i]).name@ == name && outputs[i].logical == found,
    decreases outputs.len(),
{
    if outputs.len() > 0 && outputs[0].name@ != name {
        let rest = outputs.drop_first();
        lemma_lookup(rest, name);
        if crate::niri::lookup(rest, name) is Some {
            let i = choose|i: int|
                0 <= i < rest.len() && (#[trigger] rest[i]).name@ == name && Some(rest[i].logical)
                    == crate::niri::lookup(rest, name);
            assert(outputs[i + 1] == rest[i]);
        }
    } else if outputs.len() > 0 {
        assert(outputs[0].name@ == name);
    }
}

/// A span is accepted exactly if it is sound; positions on it exactly from zero to one.
pub proof fn lemma_which_spans_are_accepted(b: Boundary, rect: Rect, x: Binary64, y: Binary64)
    ensures
        forall|r: Result<(), Error>|
            (#[trigger] call_ensures(Boundary::validate, (b,), r)) ==> (r is Ok <==> sound_span(b)),
        forall|r: Result<(), Error>|
            (#[trigger] call_ensures(Boundary::check_crossing, (b, rect, x, y), r)) ==> (r is Ok
                <==> sound_span(b) && rect.valid() && x.finite() && y.finite()),
        forall|r: Result<(), Error>|
            (#[trigger] call_ensures(Boundary::check_entry, (b, rect, x, y), r)) ==> (r is Ok
                <==> sound_span(b) && rect.valid() && x.finite() && 0 <= x.units() <= pow2(1074)
                && y.finite() && y.units() > 0),
        forall|r: Result<(), Error>|
            (#[trigger] call_ensures(Rect::validate, (rect,), r)) && r is Ok ==> rect.x.finite()
                && rect.y.finite() && rect.width.finite() && rect.height.finite() && rect.width.units()
                >= pow2(1074) && rect.height.units() >= pow2(1074),
{
    crate::number::lemma_constants();
}

/// A layout joins two different computers, by screens that it lists, each once.
pub proof fn lemma_which_layouts_are_accepted(layout: Layout, r: Result<(), Error>)
    requires
        call_ensures(Layout::validate, (&layout,), r),
        r is Ok,
    ensures
        layout.link.a.device@ != layout.link.b.device@,
        on_a_screen(layout, layout.link.a),
        on_a_screen(layout, layout.link.b),
        forall|i: int, j: int|
            0 <= i < j < layout.screens@.len() ==> (#[trigger] layout.screens@[i]).device@ != (
            #[trigger] layout.screens@[j]).device@ || layout.screens@[i].output@
                != layout.screens@[j].output@,
        forall|i: int|
            0 <= i < layout.screens@.len() ==> (#[trigger] layout.screens@[i]).device@.len() > 0
                && layout.screens@[i].output@.len() > 0 && layout.screens@[i].rect.valid(),
{
    crate::geometry::lemma_layout_problem(layout);
    crate::number::lemma_constants();
}

pub open spec fn on_a_screen(layout: Layout, end: Endpoint) -> bool {
    sound_span(end.boundary) && exists|i: int|
        0 <= i < layout.screens@.len() && (#[trigger] layout.screens@[i]).device@ == end.device@
            && layout.screens@[i].output@ == end.output@
}

/// The edges have these names.
pub proof fn lemma_edges_have_names(side: Edge, r: &'static str)
    requires
        call_ensures(Edge::as_str, (side,), r),
    ensures
        side is Top ==> r@ == "top"@,
        side is Bottom ==> r@ == "bottom"@,
        side is Left ==> r@ == "left"@,
        side is Right ==> r@ == "right"@,
        r@ == side.name(),
{
}

/// The bits of a number are a sign, an exponent of eleven bits and 52 bits of a fraction: its value,
/// in units of two to the power of minus 1074.
pub proof fn lemma_bits_are_a_number(n: Binary64)
    ensures
        ({
            let plain = if n.bits < 0x8000_0000_0000_0000 {
                n.bits as int
            } else {
                n.bits - 0x8000_0000_0000_0000
            };
            let exponent = plain / 0x10_0000_0000_0000;
            let fraction = plain % 0x10_0000_0000_0000;
            let amount = if exponent == 0 {
                fraction
            } else {
                (0x10_0000_0000_0000 + fraction) * pow2((exponent - 1) as nat)
            };
            &&& n.finite() <==> exponent < 2047
            &&& n.bits < 0x8000_0000_0000_0000 ==> n.units() == amount
            &&& n.bits >= 0x8000_0000_0000_0000 ==> n.units() == -amount
        }),
{
}

/// Numbers are compared by value.
pub proof fn lemma_numbers_are_compared(a: Binary64, b: Binary64)
    ensures
        forall|r: bool|
            (#[trigger] call_ensures(Binary64::at_most, (a, b), r)) ==> (r <==> a.units() <= b.units()),
        forall|r: bool|
            (#[trigger] call_ensures(Binary64::less_than, (a, b), r)) ==> (r <==> a.units() < b.units()),
        forall|r: bool|
            (#[trigger] call_ensures(Binary64::is_finite, (a,), r)) ==> (r <==> a.finite()),
        forall|r: Binary64|
            (#[trigger] call_ensures(Binary64::clamp_to_unit, (a,), r)) && a.finite() ==> {
                &&& 0 <= r.units() <= pow2(1074)
                &&& 0 <= a.units() <= pow2(1074) ==> r == a
                &&& a.units() < 0 ==> r.units() == 0
                &&& a.units() > pow2(1074) ==> r.units() == pow2(1074)
            },
{
    crate::number::lemma_constants();
    vstd::arithmetic::power2::lemma_pow2_pos(1074);
}

/// On an output that is turned by a quarter to the left the top of the picture is its left side;
/// a flipped one is mirrored. The pointer is put where it appears at the meant place.
pub proof fn lemma_turned_outputs(transform: Transform, x: int, y: int, r: AxisMap)
    requires
        call_ensures(crate::pointer::inverse_normalized, (transform,), r),
    ensures
        transform is Normal ==> r.apply(x, y, 1) == (x, y),
        transform is Rotate90 ==> r.apply(x, y, 1) == (y, 1 - x),
        transform is Rotate180 ==> r.apply(x, y, 1) == (1 - x, 1 - y),
        transform is Rotate270 ==> r.apply(x, y, 1) == (1 - y, x),
        transform is Flipped ==> r.apply(x, y, 1) == (1 - x, y),
        transform is Flipped90 ==> r.apply(x, y, 1) == (y, x),
        transform is Flipped180 ==> r.apply(x, y, 1) == (x, 1 - y),
        transform is Flipped270 ==> r.apply(x, y, 1) == (1 - y, 1 - x),
{
}

/// The time of an event wraps around in 32 bits of milliseconds.
pub proof fn lemma_event_times(seconds: u64, nanoseconds: u64, r: u32)
    requires
        call_ensures(crate::pointer::event_time, (seconds, nanoseconds), r),
    ensures
        seconds < 4_000_000 && nanoseconds < 1_000_000_000 ==> r == seconds * 1000 + nanoseconds
            / 1_000_000,
        exists|k: int|
            r + k * 4_294_967_296 == seconds * 1000 + nanoseconds / 1_000_000 && #[trigger] (k * 1) >= 0,
{
    let total = seconds * 1000 + nanoseconds / 1_000_000;
    let k = total / 4_294_967_296;
    assert(r + k * 4_294_967_296 == total);
    assert((k * 1) >= 0);
}

/// A desktop is known by the name of its compositor, white space aside.
pub proof fn lemma_desktops_are_known_by_name(content: Seq<char>)
    ensures
        forall|name: &str, r: Result<Kind, Error>|
            (#[trigger] call_ensures(crate::desktop::detect, (name,), r)) && name@ == content ==> {
                let bare = crate::text::trimmed(content);
                &&& bare == "niri"@ ==> r is Ok && r->Ok_0 is Niri
                &&& bare == "kwin_wayland"@ || bare == "kwin_wayland_wr"@ ==> r is Ok && r->Ok_0 is Kde
                &&& r is Ok ==> bare == "niri"@ || bare == "kwin_wayland"@ || bare == "kwin_wayland_wr"@
            },
        forall|name: &str, r: bool|
            (#[trigger] call_ensures(crate::desktop::is_niri, (name,), r)) && name@ == content ==> (r
                <==> crate::text::trimmed(content) == "niri"@),
{
    reveal_strlit("niri");
    reveal_strlit("kwin_wayland");
    reveal_strlit("kwin_wayland_wr");
    assert("niri"@.len() == 4 && "kwin_wayland"@.len() == 12 && "kwin_wayland_wr"@.len() == 15);
}

/// The compositor is the owner of the socket, or, behind KWin's wrapper, its child of that name; on
/// Niri only if its own interface agrees.
pub proof fn lemma_which_process_is_the_compositor(
    kind: Kind,
    owner: Process,
    niri_pid: Option<i32>,
    children: Vec<Process>,
    r: Result<i32, Error>,
)
    requires
        call_ensures(crate::desktop::compositor_pid, (kind, &owner, niri_pid, &children), r),
    ensures
        kind is Niri ==> (r is Ok <==> niri_pid == Some(owner.pid)),
        kind is Niri && r is Ok ==> r->Ok_0 == owner.pid,
        kind is Kde && named_kwin(owner) ==> r is Ok && r->Ok_0 == owner.pid,
        kind is Kde && !named_kwin(owner) && r is Ok ==> exists|i: int|
            0 <= i < children@.len() && named_kwin(#[trigger] children@[i]) && children@[i].pid == r->Ok_0,
        kind is Kde && !named_kwin(owner) && r is Err ==> forall|i: int|
            0 <= i < children@.len() ==> !named_kwin(#[trigger] children@[i]),
{
    lemma_kwin(children@);
}

pub open spec fn named_kwin(process: Process) -> bool {
    process.name is Some && crate::text::trimmed((process.name->0)@) == "kwin_wayland"@
}

proof fn lemma_kwin(list: Seq<Process>)
    ensures
        crate::desktop::first_kwin(list) matches Some(pid) ==> exists|i: int|
            0 <= i < list.len() && named_kwin(#[trigger] list[i]) && list[i].pid == pid,
        crate::desktop::first_kwin(list) is None ==> forall|i: int|
            0 <= i < list.len() ==> !named_kwin(#[trigger] list[i]),
    decreases list.len(),
{
    if list.len() > 0 {
        let rest = list.drop_first();
        lemma_kwin(rest);
        if named_kwin(list[0]) {
            assert(named_kwin(list[0]));
        } else if crate::desktop::first_kwin(rest) is Some {
            let i = choose|i: int|
                0 <= i < rest.len() && named_kwin(#[trigger] rest[i]) && Some(rest[i].pid)
                    == crate::desktop::first_kwin(rest);
            assert(list[i + 1] == rest[i]);
        } else {
            assert forall|i: int| 0 <= i < list.len() implies !named_kwin(#[trigger] list[i]) by {
                if i > 0 {
                    assert(rest[i - 1] == list[i]);
                }
            }
        }
    }
}

/// Of an output the current mode is kept, and the rest as it was said; a quarter turn swaps its
/// sides.
pub proof fn lemma_what_is_learnt_of_an_output(list: Vec<Metadata>, current: bool, width: i32, height: i32, refresh: i32)
    ensures
        forall|m: &mut Metadata, r: ()|
            (#[trigger] call_ensures(Metadata::note_mode, (m, current, width, height, refresh), r)) ==> {
                &&& current && width > 0 && height > 0 && refresh >= 0 ==> (*final(m)).mode is Some && ((
                *final(m)).mode->0).width == width && ((*final(m)).mode->0).height == height && ((
                *final(m)).mode->0).refresh_rate == refresh
                &&& !current ==> *final(m) == *m
            },
        forall|r: Result<Vec<KnownOutput>, Error>|
            (#[trigger] call_ensures(crate::desktop::complete_outputs, (&list,), r)) && r is Ok ==> {
                &&& (r->Ok_0)@.len() == list@.len()
                &&& forall|i: int|
                    0 <= i < list@.len() ==> known_of((r->Ok_0)@[i], #[trigger] list@[i])
            },
{
    lemma_no_metadata_problem(list@);
}

proof fn lemma_no_metadata_problem(list: Seq<Metadata>)
    ensures
        crate::desktop::first_metadata_problem(list) is None ==> forall|i: int|
            0 <= i < list.len() ==> (#[trigger] list[i]).problem() is None,
    decreases list.len(),
{
    if list.len() > 0 {
        let rest = list.drop_first();
        lemma_no_metadata_problem(rest);
        if crate::desktop::first_metadata_problem(list) is None {
            assert forall|i: int| 0 <= i < list.len() implies (#[trigger] list[i]).problem() is None by {
                if i > 0 {
                    assert(rest[i - 1] == list[i]);
                }
            }
        }
    }
}

pub open spec fn known_of(output: KnownOutput, m: Metadata) -> bool {
    &&& m.name is Some && output.name@ == (m.name->0)@
    &&& m.position == Some((output.x, output.y))
    &&& m.size is Some && output.width == (m.size->0).0 && output.height == (m.size->0).1
    &&& output.width > 0 && output.height > 0
    &&& m.mode == Some(output.mode)
    &&& m.transform == Some(output.transform)
    &&& (output.transform is Rotate90 || output.transform is Rotate270 || output.transform is Flipped90
        || output.transform is Flipped270) ==> output.physical_width == output.mode.height
    &&& (output.transform is Normal || output.transform is Rotate180 || output.transform is Flipped
        || output.transform is Flipped180) ==> output.physical_width == output.mode.width
}

/// Devices of the desktop come, go, pause and resume one by one; the first that is resumed and able
/// is used.
pub proof fn lemma_desktop_devices(kind: i32, address: u64, capable: Vec<bool>)
    ensures
        forall|d: &mut Devices, r: Step|
            (#[trigger] call_ensures(Devices::on_event, (d, kind, address), r)) ==> {
                let before = (*d).list@;
                let after = (*final(d)).list@;
                &&& kind == 2 ==> (*final(d)).disconnected && after == before
                &&& kind != 2 ==> (*final(d)).disconnected == (*d).disconnected
                &&& kind == 3 ==> r is BindSeat && after == before
                &&& kind == 5 && address != 0 ==> {
                    &&& r is Keep
                    &&& after.len() == before.len() + 1
                    &&& after.last().address == address && !after.last().active
                }
                &&& kind == 6 ==> r is Forget && forall|i: int|
                    0 <= i < after.len() ==> (#[trigger] after[i]).address != address
            },
        forall|d: &Devices, r: Result<u64, Error>|
            (#[trigger] call_ensures(Devices::device, (d, &capable), r)) && capable@.len() == d.list@.len()
                ==> {
                &&& r is Ok ==> exists|i: int|
                    0 <= i < d.list@.len() && (#[trigger] d.list@[i]).address == r->Ok_0
                        && d.list@[i].active && capable@[i]
                &&& r is Err ==> forall|i: int|
                    0 <= i < d.list@.len() ==> !((#[trigger] d.list@[i]).active && capable@[i])
            },
        forall|d: &Devices, r: Result<(), Error>|
            (#[trigger] call_ensures(Devices::check, (d,), r)) ==> (r is Ok <==> !d.disconnected),
{
    assert forall|d: &Devices, r: Result<u64, Error>|
        (#[trigger] call_ensures(Devices::device, (d, &capable), r)) && capable@.len() == d.list@.len() implies {
        &&& r is Ok ==> exists|i: int|
            0 <= i < d.list@.len() && (#[trigger] d.list@[i]).address == r->Ok_0 && d.list@[i].active
                && capable@[i]
        &&& r is Err ==> forall|i: int|
            0 <= i < d.list@.len() ==> !((#[trigger] d.list@[i]).active && capable@[i])
    } by {
        lemma_first_active(*d, capable@, 0);
    }
    assert forall|d: &mut Devices, r: Step, i: int|
        (#[trigger] call_ensures(Devices::on_event, (d, kind, address), r)) && kind == 6 && 0 <= i
            < (*final(d)).list@.len() implies (#[trigger] (*final(d)).list@[i]).address != address by {
        lemma_without((*d).list@, address);
    }
}

proof fn lemma_first_active(d: Devices, capable: Seq<bool>, from: int)
    requires
        0 <= from,
    ensures
        d.first_active(capable, from) matches Some(address) ==> exists|i: int|
            from <= i < d.list@.len() && (#[trigger] d.list@[i]).address == address && d.list@[i].active
                && capable[i],
        d.first_active(capable, from) is None ==> forall|i: int|
            from <= i < d.list@.len() ==> !((#[trigger] d.list@[i]).active && capable[i]),
    decreases d.list@.len() - from,
{
    if from < d.list@.len() {
        lemma_first_active(d, capable, from + 1);
        if d.list@[from].active && capable[from] {
            assert(d.list@[from].address == d.list@[from].address);
        }
    }
}

proof fn lemma_without(list: Seq<crate::ei::Device>, address: u64)
    ensures
        forall|i: int|
            0 <= i < crate::ei::without(list, address).len() ==> (#[trigger] crate::ei::without(
                list,
                address,
            )[i]).address != address,
    decreases list.len(),
{
    reveal(Seq::filter);
    if list.len() > 0 {
        lemma_without(list.drop_last(), address);
        let before = crate::ei::without(list.drop_last(), address);
        let after = crate::ei::without(list, address);
        assert forall|i: int| 0 <= i < after.len() implies (#[trigger] after[i]).address != address by {
            if i < before.len() {
                assert(after[i] == before[i]);
            }
        }
    }
}

} // verus!
