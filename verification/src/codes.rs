//! Ordered enumeration of key, button and axis codes.
use std::collections::{BTreeMap, BTreeSet};
use vstd::prelude::*;

verus! {

broadcast use {vstd::std_specs::btree::group_btree_axioms, vstd::laws_cmp::group_laws_cmp};

/// The members of `set` that are smaller than `limit`, smallest first.
pub open spec fn codes_below(set: Set<u16>, limit: nat) -> Seq<u16>
    decreases limit,
{
    if limit == 0 {
        Seq::empty()
    } else {
        let rest = codes_below(set, (limit - 1) as nat);
        if set.contains((limit - 1) as u16) {
            rest.push((limit - 1) as u16)
        } else {
            rest
        }
    }
}

/// Every member of `set`, smallest first.
pub open spec fn ascending(set: Set<u16>) -> Seq<u16> {
    codes_below(set, 65536)
}

pub open spec fn increasing(s: Seq<u16>) -> bool {
    forall|i: int, j: int| 0 <= i < j < s.len() ==> s[i] < s[j]
}

/// The members below a limit are listed in order, each exactly once.
pub proof fn lemma_codes_below(set: Set<u16>, limit: nat)
    requires
        limit <= 65536,
    ensures
        increasing(codes_below(set, limit)),
        forall|c: u16| #[trigger]
            codes_below(set, limit).contains(c) <==> set.contains(c) && c < limit,
    decreases limit,
{
    if limit > 0 {
        let rest = codes_below(set, (limit - 1) as nat);
        let top = (limit - 1) as u16;
        lemma_codes_below(set, (limit - 1) as nat);
        assert forall|i: int| 0 <= i < rest.len() implies rest[i] < top by {
            assert(rest.contains(rest[i]));
        }
        let all = codes_below(set, limit);
        assert forall|c: u16| #[trigger] all.contains(c) <==> set.contains(c) && c < limit by {
            if set.contains(top) {
                assert(all == rest.push(top));
                if c == top {
                    assert(all[rest.len() as int] == c);
                }
                if rest.contains(c) {
                    let i = choose|i: int| 0 <= i < rest.len() && rest[i] == c;
                    assert(all[i] == c);
                }
                if all.contains(c) {
                    let i = choose|i: int| 0 <= i < all.len() && all[i] == c;
                    if i < rest.len() {
                        assert(rest[i] == c);
                    }
                }
            }
        }
    }
}

/// An increasing sequence is determined by its members.
pub proof fn lemma_increasing_unique(a: Seq<u16>, b: Seq<u16>)
    requires
        increasing(a),
        increasing(b),
        forall|c: u16| a.contains(c) <==> b.contains(c),
    ensures
        a == b,
    decreases a.len(),
{
    if a.len() == 0 {
        if b.len() > 0 {
            assert(b.contains(b[0]));
        }
    } else {
        assert(a.contains(a.last()));
        assert(b.len() > 0);
        assert(b.contains(b.last()));
        assert(a.last() == b.last());
        let ra = a.drop_last();
        let rb = b.drop_last();
        assert forall|c: u16| ra.contains(c) <==> rb.contains(c) by {
            if ra.contains(c) {
                let i = choose|i: int| 0 <= i < ra.len() && ra[i] == c;
                assert(a[i] == c);
                assert(a.contains(c));
                let j = choose|j: int| 0 <= j < b.len() && b[j] == c;
                assert(rb[j] == c);
            }
            if rb.contains(c) {
                let i = choose|i: int| 0 <= i < rb.len() && rb[i] == c;
                assert(b[i] == c);
                assert(b.contains(c));
                let j = choose|j: int| 0 <= j < a.len() && a[j] == c;
                assert(ra[j] == c);
            }
        }
        lemma_increasing_unique(ra, rb);
        assert(a == ra.push(a.last()));
        assert(b == rb.push(b.last()));
    }
}

proof fn lemma_value_order(s: Seq<u16>)
    requires
        vstd::std_specs::btree::increasing_seq(s),
    ensures
        increasing(s),
{
    assert forall|i: int, j: int| 0 <= i < j < s.len() implies s[i] < s[j] by {
        assert(vstd::std_specs::cmp::OrdSpec::cmp_spec(&s[i], &s[j]) is Less);
    }
}

proof fn lemma_reference_order(s: Seq<&u16>)
    requires
        vstd::std_specs::btree::increasing_seq(s),
    ensures
        increasing(s.unref()),
{
    broadcast use vstd::laws_eq::group_laws_eq;

    assert(vstd::laws_cmp::obeys_cmp::<&u16>()) by {
        reveal(vstd::laws_eq::obeys_eq_spec_properties);
        reveal(vstd::laws_cmp::obeys_partial_cmp_spec_properties);
        reveal(vstd::laws_cmp::obeys_cmp_partial_ord);
        reveal(vstd::laws_cmp::obeys_cmp_ord);
    }
    let t = s.unref();
    assert forall|i: int, j: int| 0 <= i < j < t.len() implies t[i] < t[j] by {
        assert(vstd::std_specs::cmp::OrdSpec::cmp_spec(&s[i], &s[j]) is Less);
    }
}

/// The entries of a map in the order of their codes.
pub open spec fn entries(map: Map<u16, i32>) -> Seq<(u16, i32)> {
    ascending(map.dom()).map_values(|code: u16| (code, map[code]))
}

/// Copies the entries of a map into a vector, smallest code first.
pub fn sorted_entries(map: &BTreeMap<u16, i32>) -> (list: Vec<(u16, i32)>)
    ensures
        list@ == entries(map@),
{
    let mut list: Vec<(u16, i32)> = Vec::new();
    let order = map.iter();
    let ghost all = vstd::std_specs::iter::IteratorSpec::remaining(&order);
    let ghost codes = all.map_values(|entry: (&u16, &i32)| *entry.0);
    proof {
        assert(codes =~= all.map_values(|kv: (&u16, &i32)| *kv.0));
        lemma_value_order(codes);
    }
    for entry in it: order
        invariant
            it.seq() == all,
            list@.len() == it.index(),
            forall|i: int| 0 <= i < list@.len() ==> list@[i] == (*all[i].0, *all[i].1),
    {
        list.push((*entry.0, *entry.1));
    }
    proof {
        lemma_codes_below(map@.dom(), 65536);
        assert forall|c: u16| codes.contains(c) <==> ascending(map@.dom()).contains(c) by {
            if map@.contains_key(c) {
                assert(all.contains((&c, &map@[c])));
                let i = choose|i: int| 0 <= i < all.len() && all[i] == (&c, &map@[c]);
                assert(codes[i] == c);
            }
            if codes.contains(c) {
                let i = choose|i: int| 0 <= i < codes.len() && codes[i] == c;
                assert(map@.contains_key(*all[i].0));
            }
        }
        lemma_increasing_unique(codes, ascending(map@.dom()));
        assert forall|i: int| 0 <= i < list@.len() implies list@[i] == entries(map@)[i] by {
            assert(codes[i] == *all[i].0);
            assert(map@[*all[i].0] == *all[i].1);
        }
        assert(list@ =~= entries(map@));
    }
    list
}

/// Copies the members of a set into a vector, smallest first.
pub fn sorted_codes(set: &BTreeSet<u16>) -> (codes: Vec<u16>)
    ensures
        codes@ == ascending(set@),
{
    let mut codes: Vec<u16> = Vec::new();
    let ghost all = vstd::std_specs::iter::IteratorSpec::remaining(&set.iter()).unref();
    proof {
        lemma_reference_order(vstd::std_specs::iter::IteratorSpec::remaining(&set.iter()));
    }
    for code in it: set.iter()
        invariant
            it.seq().unref() == all,
            codes@ == all.take(it.index()),
    {
        codes.push(*code);
    }
    proof {
        assert(codes@ == all);
        lemma_codes_below(set@, 65536);
        assert forall|c: u16| codes@.contains(c) <==> ascending(set@).contains(c) by {
            assert(all.to_set().contains(c) <==> set@.contains(c));
        }
        lemma_increasing_unique(codes@, ascending(set@));
    }
    codes
}

} // verus!
