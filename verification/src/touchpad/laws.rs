//! What holds of every touchpad state that came from accepted frames.
use super::state::{TouchModel};
use super::{Descriptor, Event, Kind, SLOT, TOUCH, TRACKING};
use vstd::prelude::*;

verus! {

/// A state that a touchpad can be in: every key and value is one that it advertises.
pub open spec fn fits(d: Descriptor, m: TouchModel) -> bool {
    &&& m.wf()
    &&& m.contacts.len() == d.contact_count()
    &&& forall|c: u16| #[trigger] m.keys.contains(c) ==> d.keys@.contains(c)
    &&& forall|c: u16| #[trigger]
        m.axes.contains_key(c) <==> c < SLOT && super::has_axis(d.axes@, c)
    &&& forall|c: u16| #[trigger]
        m.axes.contains_key(c) ==> d.event_problem(Event::abs(c, m.axes[c])) is None
    &&& forall|i: int, c: u16|
        0 <= i < m.contacts.len() && #[trigger] m.contacts[i].contains_key(c) ==> c > SLOT
            && d.event_problem(Event::abs(c, m.contacts[i][c])) is None
}

/// Applying two frames one after the other is applying their concatenation.
pub proof fn lemma_apply_concat(m: TouchModel, a: Seq<Event>, b: Seq<Event>)
    ensures
        m.apply(a + b) == m.apply(a).apply(b),
    decreases b.len(),
{
    if b.len() == 0 {
        assert(a + b =~= a);
    } else {
        lemma_apply_concat(m, a, b.drop_last());
        assert((a + b).drop_last() =~= a + b.drop_last());
    }
}

/// A value that a touchpad advertises is one that some touchpad can send.
proof fn lemma_advertised_is_plausible(d: Descriptor, e: Event)
    requires
        d.valid(),
        d.event_problem(e) is None,
        e.kind == Kind::Key ==> 0 <= e.value <= 1,
    ensures
        e.plausible(),
{
    match e.kind {
        Kind::Key => {
            let i = choose|i: int| 0 <= i < d.keys@.len() && d.keys@[i] == e.code;
            assert(super::is_touch_key(d.keys@[i]));
        },
        Kind::Absolute => {
            super::lemma_find_axis(d.axes@, e.code);
            let axis = super::find_axis(d.axes@, e.code)->0;
            let i = choose|i: int| 0 <= i < d.axes@.len() && d.axes@[i] == axis;
            assert(d.axes@[i].range_valid());
        },
    }
}

/// The slot values that a valid touchpad advertises are the indices of its contacts.
proof fn lemma_slot_value(d: Descriptor, value: i32)
    requires
        d.valid(),
    ensures
        d.event_problem(Event::abs(SLOT, value)) is None <==> 0 <= value < d.contact_count(),
        1 <= d.contact_count() <= super::MAX_CONTACTS,
{
}

/// An accepted frame selects only contacts that exist.
pub proof fn lemma_accepted_frames_select_existing(d: Descriptor, events: Seq<Event>)
    requires
        d.valid(),
        d.frame_valid(events),
    ensures
        super::state::selects_existing(events, d.contact_count()),
{
    assert forall|i: int|
        0 <= i < events.len() && (#[trigger] events[i]).kind == Kind::Absolute && events[i].code
            == SLOT implies 0 <= events[i].value < d.contact_count() by {
        assert(d.event_problem(events[i]) is None);
        assert(events[i] == Event::abs(SLOT, events[i].value));
        lemma_slot_value(d, events[i].value);
    }
}

proof fn lemma_resting_axes(d: Descriptor, n: int)
    requires
        d.valid(),
        0 <= n <= d.axes@.len(),
    ensures
        forall|c: u16| #[trigger]
            super::state::resting_axes(d.axes@.take(n)).contains_key(c) ==> c < SLOT
                && d.event_problem(
                Event::abs(c, super::state::resting_axes(d.axes@.take(n))[c]),
            ) is None,
        forall|c: u16| #[trigger]
            super::state::resting_axes(d.axes@.take(n)).contains_key(c) <==> c < SLOT
                && super::has_axis(d.axes@.take(n), c),
    decreases n,
{
    if n > 0 {
        lemma_resting_axes(d, n - 1);
        assert(d.axes@.take(n).drop_last() == d.axes@.take(n - 1));
        let last = d.axes@[n - 1];
        assert(last.range_valid());
        super::lemma_find_axis(d.axes@, last.code);
        let found = super::find_axis(d.axes@, last.code)->0;
        assert(super::has_axis(d.axes@, last.code));
        let i = choose|i: int| 0 <= i < d.axes@.len() && d.axes@[i] == found;
        assert(i == n - 1);
        assert forall|c: u16| super::has_axis(d.axes@.take(n), c) <==> super::has_axis(
            d.axes@.take(n - 1),
            c,
        ) || c == last.code by {
            let more = d.axes@.take(n);
            let less = d.axes@.take(n - 1);
            assert(more[n - 1].code == last.code);
            if super::has_axis(less, c) {
                let k = choose|k: int| 0 <= k < less.len() && (#[trigger] less[k]).code == c;
                assert(more[k].code == c);
            }
            if super::has_axis(more, c) {
                let k = choose|k: int| 0 <= k < more.len() && (#[trigger] more[k]).code == c;
                if k < n - 1 {
                    assert(less[k].code == c);
                }
            }
        }
    }
}

/// An untouched touchpad is in a state that it can be in.
pub proof fn lemma_untouched_fits(d: Descriptor)
    requires
        d.valid(),
    ensures
        fits(d, super::state::untouched(d)),
{
    lemma_slot_value(d, 0);
    lemma_resting_axes(d, d.axes@.len() as int);
    assert(d.axes@.take(d.axes@.len() as int) == d.axes@);
    super::lemma_find_axis(d.axes@, TRACKING);
}

proof fn lemma_step_fits(d: Descriptor, m: TouchModel, e: Event)
    requires
        d.valid(),
        fits(d, m),
        d.event_problem(e) is None,
    ensures
        fits(d, m.step(e)),
{
    let after = m.step(e);
    if e.kind == Kind::Absolute {
        assert(e == Event::abs(e.code, e.value));
        if e.code == SLOT {
            lemma_slot_value(d, e.value);
        } else if e.code > SLOT {
            assert forall|i: int, c: u16|
                0 <= i < after.contacts.len() && #[trigger] after.contacts[i].contains_key(
                    c,
                ) implies c > SLOT && d.event_problem(
                Event::abs(c, after.contacts[i][c]),
            ) is None by {
                if i != m.slot || c != e.code {
                    assert(m.contacts[i].contains_key(c));
                }
            }
        } else {
            super::lemma_find_axis(d.axes@, e.code);
        }
    }
}

/// Every accepted frame leads from a state that the touchpad can be in to another one.
pub proof fn lemma_apply_fits(d: Descriptor, m: TouchModel, events: Seq<Event>)
    requires
        d.valid(),
        fits(d, m),
        forall|i: int| 0 <= i < events.len() ==> d.event_problem(#[trigger] events[i]) is None,
    ensures
        fits(d, m.apply(events)),
    decreases events.len(),
{
    if events.len() > 0 {
        assert forall|i: int| 0 <= i < events.drop_last().len() implies d.event_problem(
            #[trigger] events.drop_last()[i],
        ) is None by {
            assert(events.drop_last()[i] == events[i]);
        }
        lemma_apply_fits(d, m, events.drop_last());
        lemma_step_fits(d, m.apply(events.drop_last()), events.last());
    }
}

/// Every value of a sequence is advertised, and keys are only pressed or released.
spec fn sendable(d: Descriptor, events: Seq<Event>) -> bool {
    forall|i: int|
        0 <= i < events.len() ==> d.event_problem(#[trigger] events[i]) is None && (events[i].kind
            == Kind::Key ==> 0 <= events[i].value <= 1)
}

proof fn lemma_sendable_concat(d: Descriptor, a: Seq<Event>, b: Seq<Event>)
    requires
        sendable(d, a),
        sendable(d, b),
    ensures
        sendable(d, a + b),
{
    assert forall|i: int| 0 <= i < (a + b).len() implies d.event_problem(#[trigger] (a + b)[i]) is None
        && ((a + b)[i].kind == Kind::Key ==> 0 <= (a + b)[i].value <= 1) by {
        if i < a.len() {
            assert((a + b)[i] == a[i]);
        } else {
            assert((a + b)[i] == b[i - a.len()]);
        }
    }
}

/// A list of distinct members of a finite set is no longer than the set is large.
proof fn lemma_bounded_length(s: Seq<u16>, allowed: Set<u16>)
    requires
        s.no_duplicates(),
        allowed.finite(),
        forall|i: int| 0 <= i < s.len() ==> allowed.contains(#[trigger] s[i]),
    ensures
        s.len() <= allowed.len(),
{
    s.unique_seq_to_set();
    assert(s.to_set().subset_of(allowed));
    vstd::set_lib::lemma_len_subset(s.to_set(), allowed);
}

proof fn lemma_ascending(set: Set<u16>)
    ensures
        crate::codes::ascending(set).no_duplicates(),
        forall|c: u16| #[trigger]
            crate::codes::ascending(set).contains(c) <==> set.contains(c),
{
    crate::codes::lemma_codes_below(set, 65536);
}

/// A filtered list keeps its order and holds the members that pass.
proof fn lemma_filtered<A>(s: Seq<A>, keep: spec_fn(A) -> bool)
    requires
        s.no_duplicates(),
    ensures
        s.filter(keep).no_duplicates(),
        forall|x: A| #[trigger] s.filter(keep).contains(x) <==> s.contains(x) && keep(x),
    decreases s.len(),
{
    reveal(Seq::filter);
    if s.len() > 0 {
        let rest = s.drop_last();
        lemma_filtered(rest, keep);
        assert(s.filter(keep) == if keep(s.last()) {
            rest.filter(keep).push(s.last())
        } else {
            rest.filter(keep)
        });
        assert(!rest.contains(s.last()));
        assert(!rest.filter(keep).contains(s.last()));
        assert(s.filter(keep).no_duplicates()) by {
            let f = rest.filter(keep);
            assert forall|i: int| 0 <= i < f.len() implies f[i] != s.last() by {
                assert(f.contains(f[i]));
            }
        }
        assert forall|x: A| #[trigger] s.filter(keep).contains(x) <==> s.contains(x) && keep(x) by {
            let f = rest.filter(keep);
            assert(s.contains(x) <==> rest.contains(x) || x == s.last()) by {
                assert(s =~= rest.push(s.last()));
                if rest.contains(x) {
                    let i = choose|i: int| 0 <= i < rest.len() && rest[i] == x;
                    assert(s[i] == x);
                }
                assert(s[s.len() - 1] == s.last());
            }
            if keep(s.last()) {
                assert(f.push(s.last()).contains(x) <==> f.contains(x) || x == s.last()) by {
                    let p = f.push(s.last());
                    assert(p[f.len() as int] == s.last());
                    if f.contains(x) {
                        let i = choose|i: int| 0 <= i < f.len() && f[i] == x;
                        assert(p[i] == x);
                    }
                }
            }
        }
    }
}

/// The members of a set that pass, in order.
proof fn lemma_other_keys(d: Descriptor, keys: Set<u16>)
    requires
        d.valid(),
        forall|c: u16| #[trigger] keys.contains(c) ==> d.keys@.contains(c),
    ensures
        super::state::other_keys(keys).len() <= 8,
        forall|c: u16| #[trigger]
            super::state::other_keys(keys).contains(c) <==> keys.contains(c) && c != TOUCH,
{
    lemma_ascending(keys);
    lemma_filtered(crate::codes::ascending(keys), |code: u16| code != TOUCH);
    let allowed = set![272u16, 273u16, 274u16, 325u16, 328u16, 333u16, 334u16, 335u16];
    let list = super::state::other_keys(keys);
    assert forall|i: int| 0 <= i < list.len() implies allowed.contains(#[trigger] list[i]) by {
        assert(list.contains(list[i]));
        assert(d.keys@.contains(list[i]));
        let k = choose|k: int| 0 <= k < d.keys@.len() && d.keys@[k] == list[i];
        assert(super::is_touch_key(d.keys@[k]));
    }
    lemma_bounded_length(list, allowed);
}

proof fn lemma_entries(map: Map<u16, i32>)
    ensures
        crate::codes::entries(map).no_duplicates(),
        forall|c: u16, v: i32| #[trigger]
            crate::codes::entries(map).contains((c, v)) <==> map.contains_key(c) && map[c] == v,
{
    let order = crate::codes::ascending(map.dom());
    let list = crate::codes::entries(map);
    lemma_ascending(map.dom());
    assert forall|i: int, j: int| 0 <= i < list.len() && 0 <= j < list.len() && i != j implies list[i]
        != list[j] by {
        assert(order[i] != order[j]);
    }
    assert forall|c: u16, v: i32| #[trigger]
        list.contains((c, v)) <==> map.contains_key(c) && map[c] == v by {
        if list.contains((c, v)) {
            let i = choose|i: int| 0 <= i < list.len() && list[i] == (c, v);
            assert(order.contains(order[i]));
        }
        if map.contains_key(c) && map[c] == v {
            assert(order.contains(c));
            let i = choose|i: int| 0 <= i < order.len() && order[i] == c;
            assert(list[i] == (c, v));
        }
    }
}

/// The codes of a list of entries, none of which occurs with two values.
proof fn lemma_entry_codes(list: Seq<(u16, i32)>, map: Map<u16, i32>, allowed: Set<u16>)
    requires
        list.no_duplicates(),
        allowed.finite(),
        forall|i: int|
            0 <= i < list.len() ==> map.contains_key((#[trigger] list[i]).0) && map[list[i].0]
                == list[i].1 && allowed.contains(list[i].0),
    ensures
        list.len() <= allowed.len(),
{
    let codes = list.map_values(|entry: (u16, i32)| entry.0);
    assert forall|i: int, j: int| 0 <= i < codes.len() && 0 <= j < codes.len() && i
        != j implies codes[i] != codes[j] by {
        assert(list[i] != list[j]);
    }
    assert forall|i: int| 0 <= i < codes.len() implies allowed.contains(#[trigger] codes[i]) by {
        assert(codes[i] == list[i].0);
    }
    lemma_bounded_length(codes, allowed);
}

proof fn lemma_contact_rest(d: Descriptor, contact: Map<u16, i32>)
    requires
        d.valid(),
        forall|c: u16| #[trigger]
            contact.contains_key(c) ==> c > SLOT && d.event_problem(
                Event::abs(c, contact[c]),
            ) is None,
    ensures
        super::state::contact_rest(contact).len() <= 13,
        forall|c: u16, v: i32| #[trigger]
            super::state::contact_rest(contact).contains((c, v)) <==> contact.contains_key(c)
                && contact[c] == v && c != TRACKING,
{
    lemma_entries(contact);
    lemma_filtered(crate::codes::entries(contact), |entry: (u16, i32)| entry.0 != TRACKING);
    let allowed = set![
        48u16,
        49u16,
        50u16,
        51u16,
        52u16,
        53u16,
        54u16,
        55u16,
        56u16,
        58u16,
        59u16,
        60u16,
        61u16,
    ];
    let list = super::state::contact_rest(contact);
    assert forall|i: int| 0 <= i < list.len() implies contact.contains_key((#[trigger] list[i]).0)
        && contact[list[i].0] == list[i].1 && allowed.contains(list[i].0) by {
        assert(list.contains((list[i].0, list[i].1)));
        lemma_advertised_is_plausible(d, Event::abs(list[i].0, list[i].1));
    }
    lemma_entry_codes(list, contact, allowed);
}

proof fn lemma_contacts_sendable(d: Descriptor, m: TouchModel, count: nat)
    requires
        d.valid(),
        fits(d, m),
        count <= m.contacts.len(),
    ensures
        sendable(d, m.contacts_values(count)),
        m.contacts_values(count).len() <= 15 * count,
    decreases count,
{
    if count > 0 {
        let before = (count - 1) as nat;
        let index = count - 1;
        lemma_contacts_sendable(d, m, before);
        let contact = m.contacts[index];
        let values = m.contact_values(index);
        assert(forall|c: u16| #[trigger]
            contact.contains_key(c) ==> c > SLOT && d.event_problem(
                Event::abs(c, contact[c]),
            ) is None);
        lemma_contact_rest(d, contact);
        lemma_slot_value(d, index as i32);
        let rest = super::state::contact_rest(contact);
        assert forall|i: int| 0 <= i < values.len() implies d.event_problem(
            #[trigger] values[i],
        ) is None && (values[i].kind == Kind::Key ==> 0 <= values[i].value <= 1) by {
            if i >= 2 {
                assert(rest.contains((rest[i - 2].0, rest[i - 2].1)));
                assert(values[i] == Event::abs(rest[i - 2].0, rest[i - 2].1));
            }
        }
        lemma_sendable_concat(d, m.contacts_values(before), values);
    }
}

proof fn lemma_lifts_sendable(d: Descriptor, count: nat)
    requires
        d.valid(),
        count <= d.contact_count(),
    ensures
        sendable(d, TouchModel::lift_values(count)),
        TouchModel::lift_values(count).len() == 2 * count,
    decreases count,
{
    if count > 0 {
        lemma_lifts_sendable(d, (count - 1) as nat);
        lemma_slot_value(d, (count - 1) as i32);
        super::lemma_find_axis(d.axes@, TRACKING);
        let values = seq![Event::abs(SLOT, (count - 1) as i32), Event::abs(TRACKING, (-1) as i32)];
        lemma_sendable_concat(d, TouchModel::lift_values((count - 1) as nat), values);
    }
}

proof fn lemma_keys_sendable(d: Descriptor, m: TouchModel, value: i32)
    requires
        d.valid(),
        fits(d, m),
        0 <= value <= 1,
    ensures
        sendable(d, super::state::key_values(super::state::other_keys(m.keys), value)),
        super::state::key_values(super::state::other_keys(m.keys), value).len() <= 8,
{
    lemma_other_keys(d, m.keys);
    let list = super::state::other_keys(m.keys);
    let values = super::state::key_values(list, value);
    assert forall|i: int| 0 <= i < values.len() implies d.event_problem(#[trigger] values[i]) is None
        && (values[i].kind == Kind::Key ==> 0 <= values[i].value <= 1) by {
        assert(list.contains(list[i]));
        assert(values[i] == Event::key(list[i], value));
    }
}

proof fn lemma_sendable_frame(d: Descriptor, events: Seq<Event>)
    requires
        d.valid(),
        sendable(d, events),
        1 <= events.len() <= super::MAX_FRAME_EVENTS,
    ensures
        d.frame_valid(events),
{
    assert forall|i: int| 0 <= i < events.len() implies (#[trigger] events[i]).plausible() by {
        lemma_advertised_is_plausible(d, events[i]);
    }
}

proof fn lemma_axes_sendable(d: Descriptor, m: TouchModel)
    requires
        d.valid(),
        fits(d, m),
    ensures
        sendable(d, super::state::abs_values(crate::codes::entries(m.axes))),
        super::state::abs_values(crate::codes::entries(m.axes)).len() <= 4,
{
    lemma_entries(m.axes);
    let list = crate::codes::entries(m.axes);
    let values = super::state::abs_values(list);
    let allowed = set![0u16, 1u16, 24u16, 28u16];
    assert forall|i: int| 0 <= i < list.len() implies m.axes.contains_key((#[trigger] list[i]).0)
        && m.axes[list[i].0] == list[i].1 && allowed.contains(list[i].0) && values[i] == Event::abs(
        list[i].0,
        list[i].1,
    ) && d.event_problem(values[i]) is None by {
        assert(list.contains((list[i].0, list[i].1)));
        lemma_advertised_is_plausible(d, Event::abs(list[i].0, list[i].1));
    }
    lemma_entry_codes(list, m.axes, allowed);
    assert forall|i: int| 0 <= i < values.len() implies d.event_problem(#[trigger] values[i]) is None
        && (values[i].kind == Kind::Key ==> 0 <= values[i].value <= 1) by {
        assert(m.axes.contains_key(list[i].0));
    }
}

/// A snapshot is a frame that the touchpad itself accepts, so it can always be handed on.
pub proof fn lemma_snapshot_is_accepted(d: Descriptor, m: TouchModel)
    requires
        d.valid(),
        fits(d, m),
    ensures
        d.frame_valid(m.snapshot()),
{
    let first = seq![Event::key(TOUCH, if m.keys.contains(TOUCH) {
        1
    } else {
        0
    })];
    let contacts = m.contacts_values(m.contacts.len());
    let axes = super::state::abs_values(crate::codes::entries(m.axes));
    let keys = super::state::key_values(super::state::other_keys(m.keys), 1);
    let last = seq![Event::abs(SLOT, m.slot as i32)];
    lemma_slot_value(d, m.slot as i32);
    lemma_contacts_sendable(d, m, m.contacts.len());
    lemma_axes_sendable(d, m);
    lemma_keys_sendable(d, m, 1);
    lemma_sendable_concat(d, first, contacts);
    lemma_sendable_concat(d, first + contacts, axes);
    lemma_sendable_concat(d, first + contacts + axes, keys);
    lemma_sendable_concat(d, first + contacts + axes + keys, last);
    lemma_sendable_frame(d, m.snapshot());
}

/// The releases are a frame that the touchpad itself accepts, so it can always be made neutral.
pub proof fn lemma_releases_are_accepted(d: Descriptor, m: TouchModel)
    requires
        d.valid(),
        fits(d, m),
    ensures
        d.frame_valid(m.releases()),
{
    let first = seq![Event::key(TOUCH, 0)];
    let lifts = TouchModel::lift_values(m.contacts.len());
    let keys = super::state::key_values(super::state::other_keys(m.keys), 0);
    lemma_slot_value(d, 0);
    lemma_lifts_sendable(d, m.contacts.len());
    lemma_keys_sendable(d, m, 0);
    lemma_sendable_concat(d, first, lifts);
    lemma_sendable_concat(d, first + lifts, keys);
    lemma_sendable_frame(d, m.releases());
}

/// A map after a list of entries has been written into it, in order.
spec fn overlay(map: Map<u16, i32>, list: Seq<(u16, i32)>) -> Map<u16, i32>
    decreases list.len(),
{
    if list.len() == 0 {
        map
    } else {
        overlay(map, list.drop_last()).insert(list.last().0, list.last().1)
    }
}

spec fn drawn_from(list: Seq<(u16, i32)>, full: Map<u16, i32>) -> bool {
    forall|i: int|
        0 <= i < list.len() ==> full.contains_key((#[trigger] list[i]).0) && full[list[i].0]
            == list[i].1
}

proof fn lemma_overlay(map: Map<u16, i32>, list: Seq<(u16, i32)>, full: Map<u16, i32>)
    requires
        drawn_from(list, full),
    ensures
        forall|c: u16| #[trigger]
            overlay(map, list).contains_key(c) <==> map.contains_key(c) || (full.contains_key(c)
                && list.contains((c, full[c]))),
        forall|c: u16| #[trigger]
            overlay(map, list).contains_key(c) ==> overlay(map, list)[c] == (if full.contains_key(c)
                && list.contains((c, full[c])) {
                full[c]
            } else {
                map[c]
            }),
    decreases list.len(),
{
    if list.len() > 0 {
        let rest = list.drop_last();
        assert forall|i: int| 0 <= i < rest.len() implies full.contains_key((#[trigger] rest[i]).0)
            && full[rest[i].0] == rest[i].1 by {
            assert(rest[i] == list[i]);
        }
        lemma_overlay(map, rest, full);
        let last = list.last();
        assert(list[list.len() - 1] == last);
        assert(full.contains_key(last.0) && full[last.0] == last.1);
        assert(overlay(map, list) == overlay(map, rest).insert(last.0, last.1));
        assert forall|x: (u16, i32)| #[trigger]
            list.contains(x) <==> rest.contains(x) || x == last by {
            if rest.contains(x) {
                let i = choose|i: int| 0 <= i < rest.len() && rest[i] == x;
                assert(list[i] == x);
            }
            if list.contains(x) {
                let i = choose|i: int| 0 <= i < list.len() && list[i] == x;
                if i < rest.len() {
                    assert(rest[i] == x);
                }
            }
        }
    }
}

proof fn lemma_apply_contact_entries(m: TouchModel, list: Seq<(u16, i32)>)
    requires
        m.wf(),
        forall|i: int| 0 <= i < list.len() ==> (#[trigger] list[i]).0 > SLOT,
    ensures
        m.apply(super::state::abs_values(list)) == (TouchModel {
            contacts: m.contacts.update(m.slot, overlay(m.contacts[m.slot], list)),
            ..m
        }),
    decreases list.len(),
{
    let values = super::state::abs_values(list);
    if list.len() == 0 {
        assert(m.contacts.update(m.slot, m.contacts[m.slot]) =~= m.contacts);
    } else {
        let rest = list.drop_last();
        assert forall|i: int| 0 <= i < rest.len() implies (#[trigger] rest[i]).0 > SLOT by {
            assert(rest[i] == list[i]);
        }
        lemma_apply_contact_entries(m, rest);
        assert(values.drop_last() =~= super::state::abs_values(rest));
        assert(list[list.len() - 1] == list.last());
        assert(m.apply(values).contacts =~= m.contacts.update(
            m.slot,
            overlay(m.contacts[m.slot], list),
        ));
    }
}

proof fn lemma_apply_axis_entries(m: TouchModel, list: Seq<(u16, i32)>)
    requires
        forall|i: int| 0 <= i < list.len() ==> (#[trigger] list[i]).0 < SLOT,
    ensures
        m.apply(super::state::abs_values(list)) == (TouchModel { axes: overlay(m.axes, list), ..m }),
    decreases list.len(),
{
    let values = super::state::abs_values(list);
    if list.len() > 0 {
        let rest = list.drop_last();
        assert forall|i: int| 0 <= i < rest.len() implies (#[trigger] rest[i]).0 < SLOT by {
            assert(rest[i] == list[i]);
        }
        lemma_apply_axis_entries(m, rest);
        assert(values.drop_last() =~= super::state::abs_values(rest));
        assert(list[list.len() - 1] == list.last());
    }
}

proof fn lemma_apply_keys(m: TouchModel, list: Seq<u16>, value: i32)
    ensures
        m.apply(super::state::key_values(list, value)) == (TouchModel {
            keys: if value == 0 {
                m.keys.difference(list.to_set())
            } else {
                m.keys.union(list.to_set())
            },
            ..m
        }),
    decreases list.len(),
{
    let values = super::state::key_values(list, value);
    if list.len() == 0 {
        assert(m.keys.difference(list.to_set()) =~= m.keys);
        assert(m.keys.union(list.to_set()) =~= m.keys);
    } else {
        let rest = list.drop_last();
        lemma_apply_keys(m, rest, value);
        assert(values.drop_last() =~= super::state::key_values(rest, value));
        assert(list =~= rest.push(list.last()));
        rest.lemma_push_to_set_commute(list.last());
        assert(m.apply(values).keys =~= if value == 0 {
            m.keys.difference(list.to_set())
        } else {
            m.keys.union(list.to_set())
        });
    }
}

/// A contact as a snapshot brings it back.
pub open spec fn revived(contact: Map<u16, i32>) -> Map<u16, i32> {
    if super::state::tracking(contact) >= 0 {
        contact
    } else {
        super::state::lifted_contact()
    }
}

proof fn lemma_contact_replay(d: Descriptor, m: TouchModel, at: TouchModel, index: int)
    requires
        d.valid(),
        fits(d, m),
        at.wf(),
        at.contacts.len() == m.contacts.len(),
        0 <= index < m.contacts.len(),
        at.contacts[index] == super::state::lifted_contact(),
    ensures
        ({
            let after = at.apply(m.contact_values(index));
            after.wf() && after == (TouchModel {
                slot: after.slot,
                contacts: at.contacts.update(index, revived(m.contacts[index])),
                ..at
            })
        }),
{
    let contact = m.contacts[index];
    lemma_slot_value(d, index as i32);
    if super::state::tracking(contact) >= 0 {
        let head = seq![Event::abs(SLOT, index as i32), Event::abs(TRACKING, contact[TRACKING])];
        let rest = super::state::contact_rest(contact);
        lemma_contact_rest(d, contact);
        let selected = at.apply(head);
        assert(head.drop_last() =~= seq![Event::abs(SLOT, index as i32)]);
        assert(head.drop_last().drop_last() =~= Seq::<Event>::empty());
        assert(at.apply(head.drop_last().drop_last()) == at);
        assert(at.apply(head.drop_last()) == (TouchModel { slot: index, ..at }));
        assert(selected == (TouchModel {
            slot: index,
            contacts: at.contacts.update(
                index,
                at.contacts[index].insert(TRACKING, contact[TRACKING]),
            ),
            ..at
        }));
        assert forall|i: int| 0 <= i < rest.len() implies (#[trigger] rest[i]).0 > SLOT
            && contact.contains_key(rest[i].0) && contact[rest[i].0] == rest[i].1 by {
            assert(rest.contains((rest[i].0, rest[i].1)));
        }
        lemma_apply_concat(at, head, super::state::abs_values(rest));
        lemma_apply_contact_entries(selected, rest);
        lemma_overlay(selected.contacts[index], rest, contact);
        assert(overlay(selected.contacts[index], rest) =~= contact) by {
            assert forall|c: u16| contact.contains_key(c) && c != TRACKING implies rest.contains(
                (c, contact[c]),
            ) by {}
        }
        assert(at.apply(m.contact_values(index)).contacts =~= at.contacts.update(index, contact));
    } else {
        assert(at.contacts.update(index, at.contacts[index]) =~= at.contacts);
    }
}

proof fn lemma_contacts_replay(d: Descriptor, m: TouchModel, at: TouchModel, count: nat)
    requires
        d.valid(),
        fits(d, m),
        at.wf(),
        at.contacts == super::state::untouched(d).contacts,
        count <= m.contacts.len(),
    ensures
        ({
            let after = at.apply(m.contacts_values(count));
            after.wf() && after == (TouchModel {
                slot: after.slot,
                contacts: Seq::new(
                    m.contacts.len(),
                    |i: int|
                        if i < count {
                            revived(m.contacts[i])
                        } else {
                            super::state::lifted_contact()
                        },
                ),
                ..at
            })
        }),
    decreases count,
{
    let after = at.apply(m.contacts_values(count));
    if count == 0 {
        assert(after.contacts =~= Seq::new(
            m.contacts.len(),
            |i: int| super::state::lifted_contact(),
        ));
        assert(after.contacts =~= Seq::new(
            m.contacts.len(),
            |i: int|
                if i < count {
                    revived(m.contacts[i])
                } else {
                    super::state::lifted_contact()
                },
        ));
    } else {
        let before = (count - 1) as nat;
        lemma_contacts_replay(d, m, at, before);
        let mid = at.apply(m.contacts_values(before));
        lemma_contact_replay(d, m, mid, count - 1);
        lemma_apply_concat(at, m.contacts_values(before), m.contact_values(count - 1));
        assert(after.contacts =~= Seq::new(
            m.contacts.len(),
            |i: int|
                if i < count {
                    revived(m.contacts[i])
                } else {
                    super::state::lifted_contact()
                },
        ));
    }
}

/// A snapshot brings an untouched touchpad to the state that it was taken of: the same selected
/// contact, keys and axes, and every finger that touches the pad; a lifted contact stays lifted.
pub proof fn lemma_snapshot_replays(d: Descriptor, m: TouchModel)
    requires
        d.valid(),
        fits(d, m),
    ensures
        super::state::untouched(d).apply(m.snapshot()) == (TouchModel {
            contacts: m.contacts.map_values(|contact: Map<u16, i32>| revived(contact)),
            ..m
        }),
{
    let start = super::state::untouched(d);
    let touch: i32 = if m.keys.contains(TOUCH) {
        1
    } else {
        0
    };
    let first = seq![Event::key(TOUCH, touch)];
    let contacts = m.contacts_values(m.contacts.len());
    let axes = super::state::abs_values(crate::codes::entries(m.axes));
    let keys = super::state::key_values(super::state::other_keys(m.keys), 1);
    let last = seq![Event::abs(SLOT, m.slot as i32)];
    lemma_untouched_fits(d);
    lemma_apply_concat(start, first + contacts + axes + keys, last);
    lemma_apply_concat(start, first + contacts + axes, keys);
    lemma_apply_concat(start, first + contacts, axes);
    lemma_apply_concat(start, first, contacts);
    let s1 = start.apply(first);
    assert(first.drop_last() =~= Seq::<Event>::empty());
    assert(start.apply(first.drop_last()) == start);
    assert(s1 == start.step(Event::key(TOUCH, touch)));
    lemma_contacts_replay(d, m, s1, m.contacts.len());
    let s2 = s1.apply(contacts);
    let list = crate::codes::entries(m.axes);
    lemma_entries(m.axes);
    assert forall|i: int| 0 <= i < list.len() implies (#[trigger] list[i]).0 < SLOT
        && m.axes.contains_key(list[i].0) && m.axes[list[i].0] == list[i].1 by {
        assert(list.contains((list[i].0, list[i].1)));
    }
    lemma_apply_axis_entries(s2, list);
    lemma_overlay(s2.axes, list, m.axes);
    let s3 = s2.apply(axes);
    assert(s3.axes =~= m.axes) by {
        assert forall|c: u16| m.axes.contains_key(c) implies list.contains((c, m.axes[c])) by {}
    }
    lemma_other_keys(d, m.keys);
    lemma_apply_keys(s3, super::state::other_keys(m.keys), 1);
    let s4 = s3.apply(keys);
    assert(s4.keys =~= m.keys);
    assert(last.drop_last() =~= Seq::<Event>::empty());
    assert(s4.apply(last.drop_last()) == s4);
    assert(s4.contacts =~= m.contacts.map_values(|contact: Map<u16, i32>| revived(contact)));
}

proof fn lemma_lifts(m: TouchModel, count: nat)
    requires
        m.wf(),
        count <= m.contacts.len() <= super::MAX_CONTACTS,
    ensures
        ({
            let after = m.apply(TouchModel::lift_values(count));
            after.wf() && after == (TouchModel {
                slot: after.slot,
                contacts: Seq::new(
                    m.contacts.len(),
                    |i: int|
                        if i < count {
                            m.contacts[i].insert(TRACKING, (-1) as i32)
                        } else {
                            m.contacts[i]
                        },
                ),
                ..m
            })
        }),
    decreases count,
{
    let after = m.apply(TouchModel::lift_values(count));
    if count == 0 {
        assert(after.contacts =~= Seq::new(
            m.contacts.len(),
            |i: int|
                if i < count {
                    m.contacts[i].insert(TRACKING, (-1) as i32)
                } else {
                    m.contacts[i]
                },
        ));
    } else {
        let before = (count - 1) as nat;
        lemma_lifts(m, before);
        let mid = m.apply(TouchModel::lift_values(before));
        let pair = seq![Event::abs(SLOT, (count - 1) as i32), Event::abs(TRACKING, (-1) as i32)];
        lemma_apply_concat(m, TouchModel::lift_values(before), pair);
        assert(pair.drop_last() =~= seq![Event::abs(SLOT, (count - 1) as i32)]);
        assert(pair.drop_last().drop_last() =~= Seq::<Event>::empty());
        assert(mid.apply(pair.drop_last().drop_last()) == mid);
        assert(mid.apply(pair.drop_last()) == (TouchModel { slot: count - 1, ..mid }));
        assert(after.contacts =~= Seq::new(
            m.contacts.len(),
            |i: int|
                if i < count {
                    m.contacts[i].insert(TRACKING, (-1) as i32)
                } else {
                    m.contacts[i]
                },
        ));
    }
}

/// After its releases a touchpad is idle, no key is held and no axis has moved.
pub proof fn lemma_releases_leave_idle(d: Descriptor, m: TouchModel)
    requires
        d.valid(),
        fits(d, m),
    ensures
        m.apply(m.releases()).idle(),
        m.apply(m.releases()).keys == Set::<u16>::empty(),
        m.apply(m.releases()).axes == m.axes,
{
    let first = seq![Event::key(TOUCH, 0)];
    let lifts = TouchModel::lift_values(m.contacts.len());
    let keys = super::state::key_values(super::state::other_keys(m.keys), 0);
    lemma_slot_value(d, 0);
    lemma_apply_concat(m, first + lifts, keys);
    lemma_apply_concat(m, first, lifts);
    assert(first.drop_last() =~= Seq::<Event>::empty());
    assert(m.apply(first.drop_last()) == m);
    let s1 = m.apply(first);
    lemma_lifts(s1, m.contacts.len());
    let s2 = s1.apply(lifts);
    lemma_other_keys(d, m.keys);
    lemma_apply_keys(s2, super::state::other_keys(m.keys), 0);
    assert(s2.apply(keys).keys =~= Set::<u16>::empty());
}

} // verus!
