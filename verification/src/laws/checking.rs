//! What is checked before it is believed: addresses, paths, layouts, devices and descriptions.
use crate::comments::{comments, Place};
use crate::doctor::Report;
use crate::edges::EdgeConfig;
use crate::error::Error;
use crate::manager::Settings;
use crate::net_probe::Summary;
use crate::niri::{ActiveOutput, Output};
use crate::touchpad::{Descriptor, DeviceInfo};
use vstd::prelude::*;

verus! {

/// The digits of a port, which a plus sign may precede.
pub open spec fn digits_of(port: Seq<char>) -> Seq<char> {
    if port.len() > 0 && port[0] == '+' {
        port.skip(1)
    } else {
        port
    }
}

/// A text ends in a colon and the number of a port.
pub open spec fn ends_in_a_port(address: Seq<char>) -> bool {
    exists|at: int|
        {
            let digits = digits_of(address.skip(at + 1));
            &&& 0 <= at < address.len()
            &&& #[trigger] address[at] == ':'
            &&& digits.len() > 0
            &&& super::plain::decimal_digits(digits)
            &&& 1 <= super::plain::reads(digits) <= 65535
        }
}

/// An address ends in a colon and a port between one and the largest one, is short, and holds no
/// space.
pub proof fn lemma_which_addresses_are_accepted(content: Seq<char>)
    ensures
        forall|address: &str, r: bool|
            (#[trigger] call_ensures(crate::manager::is_address, (address,), r)) && address@ == content
                ==> {
                &&& r ==> ends_in_a_port(content)
                &&& r ==> vstd::utf8::encode_utf8(content).len() <= 300
                &&& r ==> forall|i: int|
                    0 <= i < content.len() ==> !super::plain::common_space(#[trigger] content[i])
                &&& ends_in_a_port(content) && vstd::utf8::encode_utf8(content).len() <= 300 && (forall|i: int|
                    0 <= i < content.len() ==> ' ' < (#[trigger] content[i]) <= '~') ==> r
            },
{
    lemma_port(content);
    match crate::manager::after_colon(content) {
        Some(port) => {
            let at = choose|at: int|
                0 <= at < content.len() && #[trigger] content[at] == ':' && content.skip(at + 1) == port && (
                forall|i: int| at < i < content.len() ==> #[trigger] content[i] != ':');
            let digits = digits_of(port);
            assert(port.len() > 0 ==> port.skip(1) =~= port.drop_first());
            if super::plain::decimal_digits(digits) {
                super::plain::lemma_reads(digits);
            }
            if crate::text::number_of(port) is Some {
                assert(super::plain::decimal_digits(digits));
                assert(content[at] == ':' && digits_of(content.skip(at + 1)) == digits);
            }
            if ends_in_a_port(content) {
                let other = choose|other: int|
                    {
                        let digits = digits_of(content.skip(other + 1));
                        &&& 0 <= other < content.len()
                        &&& #[trigger] content[other] == ':'
                        &&& digits.len() > 0
                        &&& super::plain::decimal_digits(digits)
                        &&& 1 <= super::plain::reads(digits) <= 65535
                    };
                let rest = content.skip(other + 1);
                if other < at {
                    assert(rest[at - other - 1] == ':');
                    if rest[0] == '+' {
                        assert(rest.skip(1)[at - other - 2] == ':');
                    }
                }
                assert(other == at);
            }
        },
        None => {},
    }
}

proof fn lemma_port(text: Seq<char>)
    ensures
        crate::manager::after_colon(text) is None ==> forall|i: int|
            0 <= i < text.len() ==> #[trigger] text[i] != ':',
        crate::manager::after_colon(text) matches Some(port) ==> exists|at: int|
            0 <= at < text.len() && #[trigger] text[at] == ':' && text.skip(at + 1) == port && (
            forall|i: int| at < i < text.len() ==> #[trigger] text[i] != ':'),
    decreases text.len(),
{
    if text.len() > 0 {
        let less = text.drop_last();
        let n = text.len() - 1;
        lemma_port(less);
        assert forall|i: int| 0 <= i < n implies #[trigger] text[i] == less[i] by {}
        if text.last() == ':' {
            assert(text[n] == ':');
            assert(text.skip(n + 1) =~= Seq::<char>::empty());
        } else if crate::manager::after_colon(less) is Some {
            let port = crate::manager::after_colon(less)->0;
            let at = choose|at: int|
                0 <= at < less.len() && #[trigger] less[at] == ':' && less.skip(at + 1) == port && (
                forall|i: int| at < i < less.len() ==> #[trigger] less[i] != ':');
            assert(text[at] == ':');
            assert(text.skip(at + 1) =~= less.skip(at + 1).push(text.last()));
            assert forall|i: int| at < i < text.len() implies #[trigger] text[i] != ':' by {
                if i < n {
                    assert(less[i] != ':');
                }
            }
        }
    }
}

/// An output of a name is among those in use.
pub open spec fn has_output(outputs: Seq<ActiveOutput>, name: Seq<char>) -> bool {
    exists|i: int| 0 <= i < outputs.len() && (#[trigger] outputs[i]).name@ == name
}

/// A connection fits: its output is in use, and its span covers a pixel.
pub open spec fn fits(edges: Seq<EdgeConfig>, outputs: Seq<ActiveOutput>, wide: Seq<bool>, at: int) -> bool {
    has_output(outputs, edges[at].output@) && wide[at]
}

/// The first connection that does not fit.
pub open spec fn first_misfit(edges: Seq<EdgeConfig>, outputs: Seq<ActiveOutput>, wide: Seq<bool>, at: int) -> bool {
    &&& 0 <= at < edges.len()
    &&& !fits(edges, outputs, wide, at)
    &&& forall|i: int| 0 <= i < at ==> #[trigger] fits(edges, outputs, wide, i)
}

/// A sound new layout is accepted exactly if each of its connections fits; the first one that does
/// not decides what is reported. One that is not sound is refused.
pub proof fn lemma_which_layouts_fit(edges: Vec<EdgeConfig>, outputs: Vec<ActiveOutput>, wide: Vec<bool>, r: Result<(), Error>)
    requires
        wide@.len() == edges@.len(),
        call_ensures(crate::manager::check_layout, (&edges, &outputs, &wide), r),
    ensures
        !crate::edges::edges_valid(edges@) ==> r == Err::<(), Error>(Error::LayoutInvalid),
        crate::edges::edges_valid(edges@) ==> {
            &&& r is Ok <==> forall|i: int|
                0 <= i < edges@.len() ==> #[trigger] fits(edges@, outputs@, wide@, i)
            &&& forall|at: int| #[trigger]
                first_misfit(edges@, outputs@, wide@, at) ==> r == Err::<(), Error>(
                    if has_output(outputs@, edges@[at].output@) {
                        Error::LayoutInvalid
                    } else {
                        Error::OutputUnavailable
                    },
                )
        },
{
    let problem = crate::manager::first_new_edge_problem(edges@, outputs@, wide@, 0);
    assert(problem is None <==> forall|i: int|
        0 <= i < edges@.len() ==> #[trigger] fits(edges@, outputs@, wide@, i)) by {
        lemma_misfits(edges@, outputs@, wide@, 0);
    }
    assert forall|at: int| #[trigger] first_misfit(edges@, outputs@, wide@, at) implies problem == Some(
        if has_output(outputs@, edges@[at].output@) {
            Error::LayoutInvalid
        } else {
            Error::OutputUnavailable
        },
    ) by {
        lemma_first_misfit(edges@, outputs@, wide@, 0, at);
    }
}

proof fn lemma_misfits(edges: Seq<EdgeConfig>, outputs: Seq<ActiveOutput>, wide: Seq<bool>, from: int)
    requires
        0 <= from <= edges.len(),
    ensures
        crate::manager::first_new_edge_problem(edges, outputs, wide, from) is None <==> forall|i: int|
            from <= i < edges.len() ==> #[trigger] fits(edges, outputs, wide, i),
    decreases edges.len() - from,
{
    if from < edges.len() {
        let name = edges[from].output@;
        assert(crate::niri::in_use(outputs, name) <==> has_output(outputs, name));
        assert(fits(edges, outputs, wide, from) <==> crate::manager::new_edge_problem(
            edges[from],
            outputs,
            wide[from],
        ) is None);
        lemma_misfits(edges, outputs, wide, from + 1);
    }
}

proof fn lemma_first_misfit(edges: Seq<EdgeConfig>, outputs: Seq<ActiveOutput>, wide: Seq<bool>, from: int, at: int)
    requires
        0 <= from <= at,
        first_misfit(edges, outputs, wide, at),
    ensures
        crate::manager::first_new_edge_problem(edges, outputs, wide, from) == Some(
            if has_output(outputs, edges[at].output@) {
                Error::LayoutInvalid
            } else {
                Error::OutputUnavailable
            },
        ),
    decreases at - from,
{
    let name = edges[from].output@;
    assert(crate::niri::in_use(outputs, name) <==> has_output(outputs, name));
    if from < at {
        assert(fits(edges, outputs, wide, from));
        lemma_first_misfit(edges, outputs, wide, from + 1, at);
    }
}

/// A shared touchpad keeps the properties and axes of its device, and those of its keys that a
/// touchpad has; a device can be shared exactly if what would be shared of it is accepted.
pub proof fn lemma_what_is_shared_of_a_device(device: DeviceInfo, r: Result<Descriptor, Error>)
    requires
        call_ensures(Descriptor::from_device, (&device,), r),
    ensures
        device.keys is None ==> r == Err::<Descriptor, Error>(Error::TouchpadKeysMissing),
        r is Ok ==> keeps(r->Ok_0, device),
        forall|d: Descriptor, v: Result<(), Error>|
            (#[trigger] call_ensures(Descriptor::validate, (&d,), v)) && keeps(d, device) ==> (r is Ok
                <==> v is Ok) && (r is Err ==> r->Err_0 == v->Err_0),
{
    if device.keys is Some {
        lemma_touch_keys((device.keys->0)@);
    }
}

/// What is shared of a device: its properties, its axes, and the keys that a touchpad has, in
/// order.
pub open spec fn keeps(d: Descriptor, device: DeviceInfo) -> bool {
    &&& d.properties@ == device.properties@
    &&& d.axes@ == device.axes@
    &&& device.keys matches Some(keys) && d.keys@ == keys@.filter(
        |code: u16| crate::touchpad::is_touch_key(code),
    )
}

proof fn lemma_touch_keys(keys: Seq<u16>)
    ensures
        crate::touchpad::touch_keys(keys) == keys.filter(|code: u16| crate::touchpad::is_touch_key(code)),
{
}

/// Two lists of outputs are the same exactly if they have the same names and places, one by one.
pub proof fn lemma_when_outputs_are_the_same(a: Vec<ActiveOutput>, b: Vec<ActiveOutput>, r: bool)
    requires
        call_ensures(crate::niri::same_outputs, (&a, &b), r),
    ensures
        r <==> a@.len() == b@.len() && forall|i: int|
            0 <= i < a@.len() ==> (#[trigger] a@[i]).name@ == b@[i].name@ && a@[i].logical.x
                == b@[i].logical.x && a@[i].logical.y == b@[i].logical.y && a@[i].logical.width
                == b@[i].logical.width && a@[i].logical.height == b@[i].logical.height
                && a@[i].logical == b@[i].logical,
{
}

/// Two lists of touchpads are the same exactly if they advertise the same, one by one.
pub proof fn lemma_when_touchpads_are_the_same(a: Vec<Descriptor>, b: Vec<Descriptor>, r: bool)
    requires
        call_ensures(crate::activity::profiles_match, (&a, &b), r),
    ensures
        r <==> a@.len() == b@.len() && forall|i: int|
            0 <= i < a@.len() ==> (#[trigger] a@[i]).keys@ == b@[i].keys@ && a@[i].properties@
                == b@[i].properties@ && a@[i].axes@ == b@[i].axes@,
{
}

/// Of measurements in ascending order, the one in the middle is reported, the later one of two.
pub proof fn lemma_the_middle_measurement(values: Vec<u64>, order: Seq<u64>, r: Option<Summary>)
    requires
        call_ensures(crate::net_probe::summarize, (&values,), r),
        values@.len() > 0,
        order.to_multiset() == values@.to_multiset(),
        forall|i: int, j: int| 0 <= i < j < order.len() ==> order[i] <= order[j],
    ensures
        r is Some,
        (r->0).median == order[(order.len() / 2) as int],
        (r->0).largest == order.last(),
{
    broadcast use vstd::seq_lib::group_to_multiset_ensures;

    let summary = r->0;
    let found = choose|found: Seq<u64>|
        {
            &&& #[trigger] crate::net_probe::ascending_values(found)
            &&& found.to_multiset() == values@.to_multiset()
            &&& found.len() == values@.len()
            &&& summary.count == values@.len()
            &&& summary.median == found[(values@.len() / 2) as int]
            &&& summary.largest == found.last()
        };
    let leq = |a: u64, b: u64| a <= b;
    assert(vstd::relations::sorted_by(found, leq));
    assert(vstd::relations::sorted_by(order, leq));
    vstd::seq_lib::lemma_sorted_unique(found, order, leq);
    assert(found == order);
}

/// A point lies on an output exactly if it is within both of its sides.
pub proof fn lemma_which_points_are_on_an_output(x: u32, y: u32, width: u32, height: u32, r: Result<(), Error>)
    requires
        call_ensures(crate::ei::check_point, (x, y, width, height), r),
    ensures
        r is Ok <==> x < width && y < height,
{
}

/// Touchpads are negotiated once, at most four.
pub proof fn lemma_when_touchpads_may_be_negotiated(devices: usize, negotiated: usize, r: Result<(), Error>)
    requires
        call_ensures(crate::pointer::check_negotiation, (devices, negotiated), r),
    ensures
        r is Ok <==> devices <= 4 && negotiated == 0,
{
}

/// A compositor is accepted exactly if it is a process of this user.
pub proof fn lemma_whose_compositor_is_accepted(pid: i32, own: bool, r: Result<i32, Error>)
    requires
        call_ensures(crate::desktop::check_owner, (pid, own), r),
    ensures
        r is Ok <==> own && pid > 0,
        r is Ok ==> r->Ok_0 == pid,
{
}

/// A piece of a path that names a directory or a file.
pub open spec fn names_something(list: Seq<Seq<char>>, at: int) -> bool {
    list[at].len() > 0 && list[at] != seq!['.']
}

/// The first two pieces of a path that name something.
pub open spec fn first_two(list: Seq<Seq<char>>, i: int, j: int) -> bool {
    &&& 0 <= i < j < list.len()
    &&& names_something(list, i) && names_something(list, j)
    &&& forall|k: int| 0 <= k < j && k != i ==> !#[trigger] names_something(list, k)
}

/// The only piece of a path that names something.
pub open spec fn only_one(list: Seq<Seq<char>>, i: int) -> bool {
    &&& 0 <= i < list.len()
    &&& names_something(list, i)
    &&& forall|k: int| 0 <= k < list.len() && k != i ==> !#[trigger] names_something(list, k)
}

/// A path leads to an input device exactly if it is absolute and the first directories that it
/// names are those of the devices and of input.
pub proof fn lemma_which_paths_are_input_devices(content: Seq<char>)
    ensures
        forall|path: &str, r: bool|
            (#[trigger] call_ensures(crate::manager::is_input_path, (path,), r)) && path@ == content ==> {
                let list = crate::text::pieces(content, '/', '/');
                r <==> content.len() > 0 && content[0] == '/' && exists|i: int, j: int| #[trigger]
                    first_two(list, i, j) && list[i] == "dev"@ && list[j] == "input"@
            },
{
    let list = crate::text::pieces(content, '/', '/');
    lemma_named(list);
    let keep = |piece: Seq<char>| piece.len() > 0 && piece != seq!['.'];
    let named = list.filter(keep);
    assert(crate::manager::components(content) == named);
    assert forall|i: int, j: int| #[trigger] first_two(list, i, j) implies named.len() >= 2 && named[0]
        == list[i] && named[1] == list[j] by {
        if named.len() < 2 {
            if named.len() == 1 {
                let k = choose|k: int| #[trigger] only_one(list, k) && named[0] == list[k];
                assert(names_something(list, i) && names_something(list, j));
            }
            assert(names_something(list, i));
        }
        let (a, b) = choose|a: int, b: int| #[trigger]
            first_two(list, a, b) && named[0] == list[a] && named[1] == list[b];
        assert(names_something(list, i) && names_something(list, j) && names_something(list, a)
            && names_something(list, b));
        assert(i == a && j == b);
    }
}

proof fn lemma_named(list: Seq<Seq<char>>)
    ensures
        ({
            let named = list.filter(|piece: Seq<char>| piece.len() > 0 && piece != seq!['.']);
            &&& named.len() == 0 ==> forall|k: int|
                0 <= k < list.len() ==> !#[trigger] names_something(list, k)
            &&& named.len() == 1 ==> exists|i: int| #[trigger] only_one(list, i) && named[0] == list[i]
            &&& named.len() >= 2 ==> exists|i: int, j: int| #[trigger]
                first_two(list, i, j) && named[0] == list[i] && named[1] == list[j]
        }),
    decreases list.len(),
{
    reveal(Seq::filter);
    let keep = |piece: Seq<char>| piece.len() > 0 && piece != seq!['.'];
    let named = list.filter(keep);
    if list.len() > 0 {
        let less = list.drop_last();
        let before = less.filter(keep);
        let n = list.len() - 1;
        lemma_named(less);
        assert forall|k: int| 0 <= k < n implies #[trigger] names_something(list, k) == names_something(
            less,
            k,
        ) by {
            assert(list[k] == less[k]);
        }
        assert(keep(list.last()) == names_something(list, n));
        if before.len() >= 2 {
            let (i, j) = choose|i: int, j: int| #[trigger]
                first_two(less, i, j) && before[0] == less[i] && before[1] == less[j];
            assert(first_two(list, i, j));
        } else if before.len() == 1 {
            let i = choose|i: int| #[trigger] only_one(less, i) && before[0] == less[i];
            if keep(list.last()) {
                assert(first_two(list, i, n));
            } else {
                assert(only_one(list, i));
            }
        } else if keep(list.last()) {
            assert(only_one(list, n));
        }
    }
}

/// Settings are accepted exactly if they name one to thirty-two input devices, each by a path that
/// leads to one, and an address that a connection can have; else the first of these that is missing
/// is reported.
pub proof fn lemma_which_settings_are_accepted(settings: Settings, r: Result<(), Error>)
    requires
        call_ensures(crate::manager::check_settings, (&settings,), r),
    ensures
        ({
            let count = settings.activity_devices@.len();
            let paths = forall|i: int|
                0 <= i < count ==> crate::manager::input_path(
                    (#[trigger] settings.activity_devices@[i])@,
                );
            let address = crate::manager::address_valid(
                match settings.connection {
                    crate::bridge::Connection::Listen { address } => address@,
                    crate::bridge::Connection::Connect { address } => address@,
                },
            );
            &&& r is Ok <==> 1 <= count <= 32 && paths && address
            &&& !(1 <= count <= 32) ==> r == Err::<(), Error>(Error::InputSelectionEmpty)
            &&& 1 <= count <= 32 && !paths ==> r == Err::<(), Error>(Error::InputPathInvalid)
            &&& 1 <= count <= 32 && paths && !address ==> r == Err::<(), Error>(Error::AddressInvalid)
        }),
{
}

/// The manager of outputs is the first interface of its name that is new enough, and the outputs
/// are all those of theirs.
pub proof fn lemma_which_interfaces_are_used(list: Vec<crate::desktop::Global>)
    ensures
        forall|r: Result<u32, Error>|
            (#[trigger] call_ensures(crate::desktop::output_manager, (&list,), r)) ==> {
                &&& r is Ok <==> exists|i: int| #[trigger]
                    offered(list@, "zxdg_output_manager_v1"@, 3, i)
                &&& r is Ok ==> exists|i: int| #[trigger]
                    offered(list@, "zxdg_output_manager_v1"@, 3, i) && r->Ok_0 == list@[i].name && (
                    forall|k: int| 0 <= k < i ==> !#[trigger] offered(list@, "zxdg_output_manager_v1"@, 3, k))
            },
        forall|r: Vec<u32>|
            (#[trigger] call_ensures(crate::desktop::output_names, (&list,), r)) ==> {
                &&& forall|name: u32| #[trigger]
                    r@.contains(name) <==> exists|i: int| #[trigger]
                        offered(list@, "wl_output"@, 4, i) && list@[i].name == name
            },
{
    lemma_first_offer(list@, "zxdg_output_manager_v1"@, 3);
    lemma_outputs_among(list@);
}

/// An interface of a name, at some place of a list and new enough.
pub open spec fn offered(list: Seq<crate::desktop::Global>, name: Seq<char>, version: u32, at: int) -> bool {
    0 <= at < list.len() && list[at].interface@ == name && list[at].version >= version
}

proof fn lemma_first_offer(list: Seq<crate::desktop::Global>, name: Seq<char>, version: u32)
    ensures
        crate::desktop::first_offer(list, name, version) is None ==> forall|i: int|
            !#[trigger] offered(list, name, version, i),
        crate::desktop::first_offer(list, name, version) matches Some(found) ==> exists|i: int| #[trigger]
            offered(list, name, version, i) && found == list[i].name && (forall|k: int|
                0 <= k < i ==> !#[trigger] offered(list, name, version, k)),
    decreases list.len(),
{
    if list.len() > 0 {
        let rest = list.drop_first();
        lemma_first_offer(rest, name, version);
        assert forall|i: int| 0 < i < list.len() implies #[trigger] offered(list, name, version, i)
            == offered(rest, name, version, i - 1) by {
            assert(list[i] == rest[i - 1]);
        }
        if offered(list, name, version, 0) {
        } else if crate::desktop::first_offer(rest, name, version) is Some {
            let found = crate::desktop::first_offer(rest, name, version)->0;
            let i = choose|i: int| #[trigger]
                offered(rest, name, version, i) && found == rest[i].name && (forall|k: int|
                    0 <= k < i ==> !#[trigger] offered(rest, name, version, k));
            assert(offered(list, name, version, i + 1));
            assert(list[i + 1] == rest[i]);
        } else {
            assert forall|i: int| !#[trigger] offered(list, name, version, i) by {
                if 0 < i < list.len() {
                    assert(!offered(rest, name, version, i - 1));
                }
            }
        }
    }
}

proof fn lemma_outputs_among(list: Seq<crate::desktop::Global>)
    ensures
        forall|name: u32| #[trigger]
            crate::desktop::outputs_among(list).contains(name) <==> exists|i: int| #[trigger]
                offered(list, "wl_output"@, 4, i) && list[i].name == name,
    decreases list.len(),
{
    let found = crate::desktop::outputs_among(list);
    if list.len() > 0 {
        let less = list.drop_last();
        let before = crate::desktop::outputs_among(less);
        let n = list.len() - 1;
        lemma_outputs_among(less);
        assert forall|i: int| 0 <= i < n implies #[trigger] offered(list, "wl_output"@, 4, i) == offered(
            less,
            "wl_output"@,
            4,
            i,
        ) by {
            assert(list[i] == less[i]);
        }
        assert forall|name: u32| #[trigger] found.contains(name) <==> exists|i: int| #[trigger]
            offered(list, "wl_output"@, 4, i) && list[i].name == name by {
            if found.contains(name) {
                let k = choose|k: int| 0 <= k < found.len() && found[k] == name;
                if k < before.len() {
                    assert(before[k] == name);
                    assert(before.contains(name));
                    let i = choose|i: int| #[trigger]
                        offered(less, "wl_output"@, 4, i) && less[i].name == name;
                    assert(offered(list, "wl_output"@, 4, i));
                } else {
                    assert(offered(list, "wl_output"@, 4, n));
                }
            }
            if exists|i: int| #[trigger] offered(list, "wl_output"@, 4, i) && list[i].name == name {
                let i = choose|i: int| #[trigger]
                    offered(list, "wl_output"@, 4, i) && list[i].name == name;
                if i < n {
                    assert(offered(less, "wl_output"@, 4, i) && less[i].name == name);
                    assert(before.contains(name));
                    let k = choose|k: int| 0 <= k < before.len() && before[k] == name;
                    assert(found[k] == name);
                } else {
                    assert(found[found.len() - 1] == name);
                }
            }
        }
    } else {
        assert forall|name: u32| !found.contains(name) by {}
    }
}

/// What fails is reported by a code that both programs know.
pub proof fn lemma_failures_have_codes()
    ensures
        forall|e: &Error, r: String|
            (#[trigger] call_ensures(Error::text, (e,), r)) ==> {
                &&& *e is SettingsBusy ==> r@ == "settings_busy"@
                &&& *e is SessionLocked ==> r@ == "session_locked"@
                &&& *e is PeerOffline ==> r@ == "peer_offline"@
                &&& *e is SettingsConflict ==> r@ == "settings_conflict"@
                &&& *e is ConfigInvalid ==> r@ == "config_invalid"@
                &&& *e is InputSelectionEmpty ==> r@ == "input_selection_empty"@
                &&& *e is InputPathInvalid ==> r@ == "input_path_invalid"@
                &&& *e is AddressInvalid ==> r@ == "address_invalid"@
                &&& *e is LayoutInvalid ==> r@ == "layout_invalid"@
                &&& *e is OutputUnavailable ==> r@ == "output_unavailable"@
                &&& *e is CertificateInvalid ==> r@ == "certificate_invalid"@
                &&& *e is CertificateChanged ==> r@ == "certificate_changed"@
                &&& *e is PrivateKeySelected ==> r@ == "private_key_selected"@
                &&& *e is CertificateNameAmbiguous ==> r@ == "certificate_name_ambiguous"@
                &&& *e is PairSameDevice ==> r@ == "pair_same_device"@
                &&& *e is ConfigExists ==> r@ == "config_exists"@
                &&& *e is SettingsPermissions ==> r@ == "settings_permissions"@
                &&& *e matches Error::Backend(text) ==> r@ == text@
            },
{
}

/// The name of the key that a part of a shortcut stands for.
pub open spec fn stands_for(part: Seq<char>) -> Seq<char> {
    let name = crate::text::lower_case(part);
    if name == "super"@ || name == "mod"@ {
        "KEY_LEFTMETA"@
    } else if name == "ctrl"@ || name == "control"@ {
        "KEY_LEFTCTRL"@
    } else if name == "alt"@ {
        "KEY_LEFTALT"@
    } else if name == "shift"@ {
        "KEY_LEFTSHIFT"@
    } else {
        "KEY_"@ + crate::text::upper_case(part)
    }
}

/// A shortcut gives the keys of its parts, in order.
pub proof fn lemma_a_shortcut_names_its_keys(content: Seq<char>)
    ensures
        forall|value: &str, r: Result<Vec<u16>, Error>|
            (#[trigger] call_ensures(crate::verify_input::chord, (value,), r)) && value@ == content
                && r is Ok ==> {
                let parts = crate::text::pieces(content, '+', '+');
                &&& (r->Ok_0)@.len() == parts.len()
                &&& forall|i: int|
                    0 <= i < parts.len() ==> crate::verify_input::key_named(
                        stands_for(#[trigger] parts[i]),
                    ) == Some((r->Ok_0)@[i])
            },
{
    let parts = crate::text::pieces(content, '+', '+');
    lemma_codes(parts, parts.len());
}

proof fn lemma_codes(parts: Seq<Seq<char>>, count: nat)
    requires
        count <= parts.len(),
    ensures
        crate::verify_input::codes_of(parts, count) matches Ok(codes) ==> codes.len() == count && (
        forall|i: int|
            0 <= i < count ==> crate::verify_input::key_named(stands_for(#[trigger] parts[i])) == Some(
                codes[i],
            )),
    decreases count,
{
    if count > 0 {
        lemma_codes(parts, (count - 1) as nat);
    }
}

/// The tokens and paths of a permission of the desktop.
pub proof fn lemma_names_of_a_permission(pid: u32, content: Seq<char>, name: Seq<char>)
    ensures
        forall|suffix: &str, r: String|
            (#[trigger] call_ensures(crate::portal::request_token, (pid, suffix), r)) && suffix@ == content
                ==> r@ == "niribridge_"@ + crate::text::decimal_of(pid as nat) + "_"@ + content,
        forall|r: String|
            (#[trigger] call_ensures(crate::portal::session_token, (pid,), r)) ==> r@ == "niribridge_"@
                + crate::text::decimal_of(pid as nat),
        forall|sender: &str, token: &str, r: String|
            (#[trigger] call_ensures(crate::portal::request_path, (sender, token), r)) && sender@ == name
                && token@ == content ==> crate::text::has_prefix(
                r@,
                "/org/freedesktop/portal/desktop/request/"@,
            ) && r@.len() >= content.len() + 1 && r@.skip(r@.len() - content.len()) == content && r@[r@.len()
                - content.len() - 1] == '/',
{
    reveal_strlit("/");
    assert forall|sender: &str, token: &str, r: String|
        (#[trigger] call_ensures(crate::portal::request_path, (sender, token), r)) && sender@ == name
            && token@ == content implies crate::text::has_prefix(
        r@,
        "/org/freedesktop/portal/desktop/request/"@,
    ) && r@.len() >= content.len() + 1 && r@.skip(r@.len() - content.len()) == content && r@[r@.len()
        - content.len() - 1] == '/' by {
        let start = "/org/freedesktop/portal/desktop/request/"@;
        assert(r@.skip(r@.len() - content.len()) =~= content);
        assert(r@.take(start.len() as int) =~= start);
    }
}

/// A physical touchpad is added unless it is none, is one of this program's own, is one too many or
/// cannot be shared; then it stands behind the others, untouched and not taken over.
pub proof fn lemma_which_touchpads_are_added(device: DeviceInfo, path: Option<&str>)
    ensures
        forall|router: &mut crate::touchpad::router::Router, r: Result<bool, Error>|
            (#[trigger] call_ensures(
                crate::touchpad::router::Router::add_device,
                (router, &device, path),
                r,
            )) ==> {
                let before = (*router).pads@;
                let after = (*final(router)).pads@;
                let touchpad = device.properties@.contains(0) && !device.properties@.contains(1)
                    && device.keys is Some && (device.keys->0)@.contains(325);
                &&& !touchpad ==> r == Ok::<bool, Error>(false)
                &&& r == Ok::<bool, Error>(true) ==> {
                    &&& touchpad && before.len() < 4
                    &&& after.len() == before.len() + 1
                    &&& forall|i: int| 0 <= i < before.len() ==> #[trigger] after[i] == before[i]
                    &&& keeps(after[before.len() as int].descriptor, device)
                    &&& !after[before.len() as int].grabbed
                }
                &&& r != Ok::<bool, Error>(true) ==> after == before
                &&& touchpad && path is None && before.len() < 4 && crate::touchpad::device_problem(device)
                    is None ==> r == Ok::<bool, Error>(true)
                &&& (*final(router)).remote == (*router).remote && (*final(router)).pending
                    == (*router).pending
            },
{
    assert forall|router: &mut crate::touchpad::router::Router, r: Result<bool, Error>|
        (#[trigger] call_ensures(
            crate::touchpad::router::Router::add_device,
            (router, &device, path),
            r,
        )) && r == Ok::<bool, Error>(true) implies forall|i: int|
        0 <= i < (*router).pads@.len() ==> #[trigger] (*final(router)).pads@[i] == (*router).pads@[i] by {
        assert forall|i: int| 0 <= i < (*router).pads@.len() implies #[trigger] (*final(router)).pads@[i]
            == (*router).pads@[i] by {
            assert((*final(router)).pads@.drop_last()[i] == (*router).pads@[i]);
        }
    }
}

/// A text without quotes.
pub open spec fn unquoted(text: Seq<char>) -> bool {
    forall|i: int| 0 <= i < text.len() ==> (#[trigger] text[i]) != '"' && text[i] != '\''
}

/// A text without hash signs has no comments.
pub proof fn lemma_no_sign_no_comment(text: Seq<char>)
    requires
        forall|i: int| 0 <= i < text.len() ==> (#[trigger] text[i]) != '#',
    ensures
        comments(text).len() == 0,
{
    lemma_no_sign(text, 0, Place::Outside);
}

proof fn lemma_no_sign(text: Seq<char>, at: int, place: Place)
    requires
        forall|i: int| 0 <= i < text.len() ==> (#[trigger] text[i]) != '#',
    ensures
        crate::comments::comments_from(text, at, place).len() == 0,
    decreases crate::comments::rest_len(text, at),
{
    if 0 <= at < text.len() {
        let next = crate::comments::step(text, at, place);
        if next.at > at {
            lemma_no_sign(text, next.at, next.place);
        }
    }
}

/// Outside strings, the first hash sign of a line starts a comment that goes to the end of the line,
/// and the strings of a text without quotes are closed.
pub proof fn lemma_where_comments_are(before: Seq<char>, comment: Seq<char>, rest: Seq<char>)
    requires
        unquoted(before),
        forall|i: int| 0 <= i < before.len() ==> (#[trigger] before[i]) != '#',
        comment.len() > 0,
        comment[0] == '#',
        forall|i: int| 0 <= i < comment.len() ==> (#[trigger] comment[i]) != '\n' && comment[i] != '\r',
        rest.len() > 0 ==> rest[0] == '\n',
    ensures
        comments(before + comment + rest) == seq![comment] + comments(rest),
        crate::comments::closed(before),
{
    let text = before + comment + rest;
    assert(text.take(before.len() as int) =~= before);
    lemma_up_to(text, before, 0);
    let n = before.len() as int;
    let end = n + comment.len();
    lemma_end_of_line(text, n, end);
    assert(text[n] == comment[0]);
    assert(text.subrange(n, end) =~= comment);
    assert(text =~= (before + comment) + rest);
    crate::comments::lemma_behind(before + comment, rest, 0, Place::Outside);
}

proof fn lemma_up_to(text: Seq<char>, before: Seq<char>, at: int)
    requires
        0 <= at <= before.len() <= text.len(),
        text.take(before.len() as int) == before,
        unquoted(before),
        forall|i: int| 0 <= i < before.len() ==> (#[trigger] before[i]) != '#',
    ensures
        crate::comments::comments_from(text, at, Place::Outside) == crate::comments::comments_from(
            text,
            before.len() as int,
            Place::Outside,
        ),
        crate::comments::final_place(before, at, Place::Outside) == Place::Outside,
    decreases before.len() - at,
{
    if at < before.len() {
        assert(text[at] == text.take(before.len() as int)[at]);
        assert(before[at] != '#');
        lemma_up_to(text, before, at + 1);
    }
}

proof fn lemma_end_of_line(text: Seq<char>, at: int, end: int)
    requires
        0 <= at <= end <= text.len(),
        forall|i: int| at <= i < end ==> (#[trigger] text[i]) != '\n' && text[i] != '\r',
        end < text.len() ==> text[end] == '\n',
    ensures
        crate::comments::line_end(text, at) == end,
    decreases end - at,
{
    if at < end {
        lemma_end_of_line(text, at + 1, end);
    }
}

/// A hash sign in a string of one line starts no comment.
pub proof fn lemma_strings_hold_no_comments(value: Seq<char>, quote: char)
    requires
        quote == '"' || quote == '\'',
        value.len() > 0,
        forall|i: int|
            0 <= i < value.len() ==> (#[trigger] value[i]) != quote && value[i] != '\n' && value[i] != '\\',
    ensures
        comments(seq![quote] + value + seq![quote]).len() == 0,
        crate::comments::closed(seq![quote] + value + seq![quote]),
{
    let text = seq![quote] + value + seq![quote];
    let place = if quote == '"' {
        Place::Basic
    } else {
        Place::Literal
    };
    assert(text[0] == quote);
    assert(text[1] == value[0]);
    assert(text[text.len() - 1] == quote);
    assert forall|i: int| 1 <= i < text.len() - 1 implies (#[trigger] text[i]) != quote && text[i] != '\n'
        && text[i] != '\\' by {
        assert(text[i] == value[i - 1]);
    }
    lemma_inside(text, 1, place, quote);
}

proof fn lemma_inside(text: Seq<char>, at: int, place: Place, quote: char)
    requires
        1 <= at < text.len(),
        quote == '"' && place == Place::Basic || quote == '\'' && place == Place::Literal,
        text[text.len() - 1] == quote,
        forall|i: int|
            1 <= i < text.len() - 1 ==> (#[trigger] text[i]) != quote && text[i] != '\n' && text[i] != '\\',
    ensures
        crate::comments::comments_from(text, at, place).len() == 0,
        crate::comments::final_place(text, at, place) == Place::Outside,
    decreases text.len() - at,
{
    let n = text.len() as int;
    if at < n - 1 {
        lemma_inside(text, at + 1, place, quote);
    } else {
        assert(crate::comments::comments_from(text, n, Place::Outside).len() == 0);
        assert(crate::comments::final_place(text, n, Place::Outside) == Place::Outside);
    }
}

/// What a change of a file has lost is written behind it: afterwards every comment that was there is
/// there, and what is added is made of comments.
pub proof fn lemma_no_comment_is_lost(first: Seq<char>, second: Seq<char>, comment: Seq<char>)
    ensures
        forall|before: &str, after: &str, r: Result<Option<Vec<char>>, Error>|
            (#[trigger] call_ensures(crate::comments::lost_comments, (before, after), r)) && before@
                == first && after@ == second && r is Ok && comments(first).contains(comment) ==> comments(
                match r->Ok_0 {
                    Some(added) => second + added@,
                    None => second,
                },
            ).contains(comment),
        forall|before: &str, after: &str, r: Result<Option<Vec<char>>, Error>|
            (#[trigger] call_ensures(crate::comments::lost_comments, (before, after), r)) && before@
                == first && after@ == second && r is Ok && r->Ok_0 is Some ==> {
                let added = (r->Ok_0->0)@;
                &&& added.len() > 0 && added[0] == '\n'
                &&& forall|i: int|
                    0 < i < added.len() && added[i - 1] == '\n' ==> (#[trigger] added[i]) == '\n' || added[i]
                        == '#'
            },
{
}

/// A value is under a name of the object that is under another name.
pub open spec fn found_under(text: Seq<char>, name: Seq<char>, value: Seq<char>) -> bool {
    super::probing::under(crate::niri::json_members(text), name, value)
}

/// What the compositor says of its windows and its overview is read from where it says it.
pub proof fn lemma_what_the_compositor_says(content: Seq<char>)
    ensures
        forall|answer: &str, r: Option<u64>|
            (#[trigger] call_ensures(crate::verify_input::focused_window, (answer,), r)) && answer@
                == content && r is Some ==> exists|window: Seq<char>, value: Seq<char>|
                found_under(content, "FocusedWindow"@, window) && #[trigger] found_under(
                    window,
                    "id"@,
                    value,
                ) && crate::niri::json_number(value) == r,
        forall|answer: &str, r: Result<bool, Error>|
            (#[trigger] call_ensures(crate::verify_input::overview_open, (answer,), r)) && answer@
                == content && r is Ok ==> exists|state: Seq<char>, value: Seq<char>|
                found_under(content, "OverviewState"@, state) && #[trigger] found_under(
                    state,
                    "is_open"@,
                    value,
                ) && crate::niri::json_flag(value) == Some(r->Ok_0),
        forall|answer: &str, r: Option<String>|
            (#[trigger] call_ensures(crate::niri::version_of, (answer,), r)) && answer@ == content
                && r is Some ==> exists|value: Seq<char>| #[trigger]
                found_under(content, "Version"@, value) && crate::niri::json_string(value) == Some(
                    (r->0)@,
                ),
        forall|reply: &str, r: Result<String, Error>|
            (#[trigger] call_ensures(crate::niri::decode_reply, (reply,), r)) && reply@ == content
                && r is Ok ==> found_under(content, "Ok"@, (r->Ok_0)@),
        forall|namespace: &str, r: bool|
            (#[trigger] call_ensures(crate::verify_input::is_own_layer, (namespace,), r)) && namespace@
                == content ==> (r <==> content.len() >= 12 && content.take(12) == "niri-bridge-"@),
        forall|list: &Vec<Option<String>>, r: bool|
            (#[trigger] call_ensures(crate::verify_input::any_own_layer, (list,), r)) ==> (r <==> exists|
                i: int,
            |
                0 <= i < list@.len() && (#[trigger] list@[i]) is Some && crate::text::has_prefix(
                    (list@[i]->0)@,
                    "niri-bridge-"@,
                )),
{
    reveal_strlit("niri-bridge-");
    lemma_reads_under(content, "FocusedWindow"@);
    lemma_reads_under(content, "OverviewState"@);
    lemma_reads_under(content, "Version"@);
    lemma_reads_under(content, "Ok"@);
    match crate::niri::member_in(content, "FocusedWindow"@) {
        Some(window) => lemma_reads_under(window, "id"@),
        None => {},
    }
    match crate::niri::member_in(content, "OverviewState"@) {
        Some(state) => lemma_reads_under(state, "is_open"@),
        None => {},
    }
    assert forall|list: &Vec<Option<String>>, r: bool|
        (#[trigger] call_ensures(crate::verify_input::any_own_layer, (list,), r)) implies (r <==> exists|
        i: int,
    |
        0 <= i < list@.len() && (#[trigger] list@[i]) is Some && crate::text::has_prefix(
            (list@[i]->0)@,
            "niri-bridge-"@,
        )) by {
        let views = crate::verify_input::optional_views(list@);
        assert(views.len() == list@.len());
        assert forall|i: int| 0 <= i < list@.len() implies #[trigger] views[i] == (match list@[i] {
            Some(text) => Some(text@),
            None => None::<Seq<char>>,
        }) by {}
        if r {
            let i = choose|i: int|
                0 <= i < views.len() && (#[trigger] views[i] matches Some(name)
                    && crate::text::has_prefix(name, "niri-bridge-"@));
            assert(list@[i] is Some);
        } else {
            assert forall|i: int| 0 <= i < list@.len() && list@[i] is Some implies !crate::text::has_prefix(
                ((#[trigger] list@[i])->0)@,
                "niri-bridge-"@,
            ) by {
                assert(views[i] is Some);
            }
        }
    }
}

proof fn lemma_reads_under(text: Seq<char>, name: Seq<char>)
    ensures
        crate::niri::member_in(text, name) matches Some(value) ==> found_under(text, name, value),
{
    if crate::niri::json_members(text) is Some {
        super::probing::lemma_member(crate::niri::json_members(text)->0, name);
    }
}

/// A piece of a listing marks a name.
pub open spec fn marks(list: Seq<Seq<char>>, at: int) -> bool {
    let text = crate::text::trimmed(list[at]);
    text.len() >= 4 && text.take(4) == "DNS:"@
}

/// The only piece of a listing that marks a name.
pub open spec fn only_mark(list: Seq<Seq<char>>, at: int) -> bool {
    &&& 0 <= at < list.len()
    &&& marks(list, at)
    &&& forall|i: int| 0 <= i < list.len() && i != at ==> !#[trigger] marks(list, i)
}

/// The name of a computer is the one that its certificate is marked with; it is refused where there
/// is none or more than one, where it is no name, where it holds a star and where it is too long.
pub proof fn lemma_whose_certificate_it_is(content: Seq<char>)
    ensures
        forall|listing: &str, r: Result<String, Error>|
            (#[trigger] call_ensures(crate::manager::certificate_name, (listing,), r)) && listing@
                == content ==> {
                let list = crate::text::pieces(content, ',', '\n');
                &&& r == Err::<String, Error>(Error::CertificateNameAmbiguous) <==> forall|i: int|
                    !#[trigger] only_mark(list, i)
                &&& forall|i: int| #[trigger]
                    only_mark(list, i) ==> {
                        let name = crate::text::trimmed(crate::text::trimmed(list[i]).skip(4));
                        let good = crate::manager::dns_name(name) && !name.contains('*')
                            && vstd::utf8::encode_utf8(name).len() <= 253;
                        &&& r is Ok <==> good
                        &&& r is Ok ==> (r->Ok_0)@ == name
                        &&& !good ==> r == Err::<String, Error>(Error::CertificateInvalid)
                    }
            },
{
    lemma_marks(crate::text::pieces(content, ',', '\n'));
}

proof fn lemma_marks(list: Seq<Seq<char>>)
    ensures
        ({
            let names = crate::manager::marked_names(list);
            &&& names.len() == 0 <==> forall|i: int| 0 <= i < list.len() ==> !#[trigger] marks(list, i)
            &&& names.len() == 1 <==> exists|i: int| #[trigger] only_mark(list, i)
            &&& names.len() == 1 ==> forall|i: int| #[trigger]
                only_mark(list, i) ==> names[0] == crate::text::trimmed(list[i]).skip(4)
        }),
    decreases list.len(),
{
    reveal_strlit("DNS:");
    if list.len() > 0 {
        let less = list.drop_last();
        let n = list.len() - 1;
        let before = crate::manager::marked_names(less);
        lemma_marks(less);
        assert forall|i: int| 0 <= i < n implies #[trigger] marks(list, i) == marks(less, i) by {
            assert(list[i] == less[i]);
        }
        assert forall|i: int| 0 <= i < n implies #[trigger] marks(less, i) == marks(list, i) by {
            assert(list[i] == less[i]);
        }
        assert(marks(list, n) == (crate::manager::marked_name(list.last()) is Some));
        if marks(list, n) {
            if before.len() == 0 {
                assert(only_mark(list, n));
            } else {
                let k = choose|k: int| 0 <= k < less.len() && #[trigger] marks(less, k);
                assert(marks(list, k));
                assert forall|i: int| !#[trigger] only_mark(list, i) by {
                    if only_mark(list, i) {
                        assert(marks(list, k) && marks(list, n));
                    }
                }
            }
        } else {
            assert forall|i: int| #[trigger] only_mark(list, i) implies only_mark(less, i) by {
                assert(i != n);
                assert(marks(less, i));
                assert forall|k: int| 0 <= k < less.len() && k != i implies !#[trigger] marks(less, k) by {
                    assert(!marks(list, k));
                }
            }
            if before.len() == 1 {
                let i = choose|i: int| #[trigger] only_mark(less, i);
                assert(only_mark(list, i));
            }
        }
    }
}

/// The date of expiry is what is behind the mark, or the whole line where there is no mark.
pub proof fn lemma_when_a_certificate_expires(content: Seq<char>, date: Seq<char>)
    requires
        crate::text::trimmed(content) == "notAfter="@ + date || crate::text::trimmed(content) == date,
        !crate::text::has_prefix(date, "notAfter="@),
    ensures
        forall|line: &str, r: String|
            (#[trigger] call_ensures(crate::manager::expiry_date, (line,), r)) && line@ == content ==> r@
                == date,
{
    reveal_strlit("notAfter=");
    reveal_with_fuel(crate::manager::strip_repeated, 3);
    let mark = "notAfter="@;
    assert((mark + date).skip(mark.len() as int) =~= date);
    assert((mark + date).take(mark.len() as int) =~= mark);
}

/// What a report says of an output.
pub open spec fn described(output: Output, scale: Seq<char>) -> Seq<char> {
    let place = output.logical->0;
    "  "@ + output.name@ + ": "@ + crate::text::decimal_of(place.width as nat) + "x"@
        + crate::text::decimal_of(place.height as nat) + " logical, scale "@ + scale + ", position ("@
        + crate::text::signed_decimal_of(place.x as int) + ", "@ + crate::text::signed_decimal_of(
        place.y as int,
    ) + ")"@
}

/// A report in words has a line for the version, for each output in use, for the interfaces, for each
/// portal and for the device of input, and one for each note.
pub proof fn lemma_what_a_report_says(report: Report, scales: Vec<String>, r: String)
    requires
        scales@.len() == report.outputs@.len(),
        call_ensures(Report::summary, (&report, &scales), r),
    ensures
        exists|lines: Seq<Seq<char>>|
            {
                &&& r@ == #[trigger] crate::text::joined(lines)
                &&& lines[0] == "NiriBridge read-only capability report"@
                &&& report.niri_version is Some ==> lines[1] == "Niri: "@ + (report.niri_version->0)@
                &&& report.niri_version is None ==> lines[1] == "Niri: "@ + "unavailable"@
                &&& forall|i: int|
                    0 <= i < report.outputs@.len() && (#[trigger] report.outputs@[i]).logical is Some
                        ==> lines.contains(described(report.outputs@[i], scales@[i]@))
                &&& report.wayland is None ==> lines.contains("Wayland registry: unavailable"@)
                &&& report.wayland matches Some(w) ==> {
                    &&& lines.contains(
                        "Layer-shell capture interfaces: "@ + (
                        if w.layer_shell_capture_interfaces_present {
                            "present (behavior unverified)"@
                        } else {
                            "incomplete"@
                        }),
                    )
                    &&& lines.contains(
                        "Virtual input interfaces: "@ + (if w.virtual_input_interfaces_present {
                            "present (behavior unverified)"@
                        } else {
                            "incomplete"@
                        }),
                    )
                }
                &&& lines.contains(
                    "InputCapture portal advertised: "@ + yes_or_no(report.portal.input_capture_advertised),
                )
                &&& lines.contains(
                    "RemoteDesktop portal advertised: "@ + yes_or_no(
                        report.portal.remote_desktop_advertised,
                    ),
                )
                &&& lines.contains(
                    "uinput: exists="@ + yes_or_no(report.uinput.exists) + ", writable="@ + yes_or_no(
                        report.uinput.writable,
                    ),
                )
                &&& forall|i: int|
                    0 <= i < report.notes@.len() ==> lines.contains((#[trigger] report.notes@[i])@)
            },
{
    let lines = report.lines(scales@);
    let outputs = crate::doctor::output_lines(report.outputs@, scales@);
    let wayland = report.wayland_lines();
    let notes = crate::text::string_views(report.notes@);
    lemma_output_lines(report.outputs@, scales@);
    let n: int = 3 + outputs.len() as int;
    let m: int = n + wayland.len();
    assert forall|i: int| 0 <= i < outputs.len() implies lines[3 + i] == #[trigger] outputs[i] by {}
    assert forall|i: int|
        0 <= i < report.outputs@.len() && (#[trigger] report.outputs@[i]).logical is Some implies lines.contains(
        described(report.outputs@[i], scales@[i]@),
    ) by {
        let line = described(report.outputs@[i], scales@[i]@);
        assert(outputs.contains(line));
        let k = choose|k: int| 0 <= k < outputs.len() && outputs[k] == line;
        assert(lines[3 + k] == line);
    }
    assert(lines[n] == wayland[0]);
    if report.wayland is Some {
        assert(lines[n + 1] == wayland[1]);
    }
    assert(lines[m] == "InputCapture portal advertised: "@ + yes_or_no(
        report.portal.input_capture_advertised,
    ));
    assert(lines[m + 1] == "RemoteDesktop portal advertised: "@ + yes_or_no(
        report.portal.remote_desktop_advertised,
    ));
    assert(lines[m + 2] == "uinput: exists="@ + yes_or_no(report.uinput.exists) + ", writable="@
        + yes_or_no(report.uinput.writable));
    assert forall|i: int| 0 <= i < report.notes@.len() implies lines.contains(
        (#[trigger] report.notes@[i])@,
    ) by {
        assert(notes[i] == report.notes@[i]@);
        assert(lines[m + 4 + i] == notes[i]);
    }
    assert(r@ == crate::text::joined(lines));
}

pub open spec fn yes_or_no(value: bool) -> Seq<char> {
    if value {
        "true"@
    } else {
        "false"@
    }
}

proof fn lemma_output_lines(outputs: Seq<Output>, scales: Seq<String>)
    ensures
        forall|i: int|
            0 <= i < outputs.len() && (#[trigger] outputs[i]).logical is Some
                ==> crate::doctor::output_lines(outputs, scales).contains(
                described(outputs[i], scales[i]@),
            ),
    decreases outputs.len(),
{
    if outputs.len() > 0 {
        let less = outputs.drop_last();
        let before = crate::doctor::output_lines(less, scales);
        let all = crate::doctor::output_lines(outputs, scales);
        lemma_output_lines(less, scales);
        assert forall|i: int|
            0 <= i < outputs.len() && (#[trigger] outputs[i]).logical is Some implies all.contains(
            described(outputs[i], scales[i]@),
        ) by {
            let line = described(outputs[i], scales[i]@);
            if i < less.len() {
                assert(less[i] == outputs[i]);
                assert(before.contains(line));
                let k = choose|k: int| 0 <= k < before.len() && before[k] == line;
                assert(all[k] == line);
            } else {
                assert(all[all.len() - 1] == line);
            }
        }
    }
}

} // verus!
