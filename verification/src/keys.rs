//! Ordered key listings of the identifier-keyed tables.

use vstd::prelude::*;
use std::collections::{BTreeMap, BTreeSet};
use vstd::std_specs::btree::{spec_keys_iter, spec_btree_keys_iter};
use vstd::std_specs::iter::IteratorSpec;
use vstd::std_specs::btree::increasing_seq;
use vstd::std_specs::cmp::OrdSpec;

verus! {

broadcast use {vstd::std_specs::btree::group_btree_axioms, vstd::laws_cmp::group_laws_cmp};

pub open spec fn strictly_increasing_u32(s: Seq<u32>) -> bool {
    forall|i: int, j: int| 0 <= i < j < s.len() ==> s[i] < s[j]
}

/// Strictly increasing identifiers.
pub open spec fn strictly_increasing(s: Seq<u64>) -> bool {
    forall|i: int, j: int| 0 <= i < j < s.len() ==> s[i] < s[j]
}

/// The identifiers of a finite set in ascending order.
pub open spec fn sorted_ids(s: Set<u64>) -> Seq<u64> {
    choose|q: Seq<u64>| strictly_increasing(q) && q.to_set() == s
}

/// Two ascending listings of one set are the same listing.
pub proof fn lemma_ascending_listing_unique(a: Seq<u64>, b: Seq<u64>)
    requires
        strictly_increasing(a),
        strictly_increasing(b),
        a.to_set() == b.to_set(),
    ensures
        a == b,
    decreases a.len(),
{
    if a.len() == 0 {
        if b.len() > 0 {
            assert(b.to_set().contains(b[0]));
            assert(a.to_set().contains(b[0]));
        }
        assert(a =~= b);
    } else {
        assert(a.to_set().contains(a[0]));
        assert(b.to_set().contains(a[0]));
        assert(b.len() > 0);
        assert(b.to_set().contains(b[0]));
        assert(a.to_set().contains(b[0]));
        let j = choose|j: int| 0 <= j < b.len() && b[j] == a[0];
        let k = choose|k: int| 0 <= k < a.len() && a[k] == b[0];
        if j > 0 { assert(b[0] < b[j]); }
        if k > 0 { assert(a[0] < a[k]); }
        assert(a[0] == b[0]);
        let ta = a.drop_first();
        let tb = b.drop_first();
        assert forall|x: u64| ta.to_set().contains(x) implies tb.to_set().contains(x) by {
            let i = choose|i: int| 0 <= i < ta.len() && ta[i] == x;
            assert(a[i + 1] == x);
            assert(a.to_set().contains(x));
            let t = choose|t: int| 0 <= t < b.len() && b[t] == x;
            assert(x > a[0]);
            assert(t > 0);
            assert(tb[t - 1] == x);
        }
        assert forall|x: u64| tb.to_set().contains(x) implies ta.to_set().contains(x) by {
            let i = choose|i: int| 0 <= i < tb.len() && tb[i] == x;
            assert(b[i + 1] == x);
            assert(b.to_set().contains(x));
            let t = choose|t: int| 0 <= t < a.len() && a[t] == x;
            assert(x > b[0]);
            assert(t > 0);
            assert(ta[t - 1] == x);
        }
        assert(ta.to_set() =~= tb.to_set());
        lemma_ascending_listing_unique(ta, tb);
        assert(a =~= b) by {
            assert forall|i: int| 0 <= i < a.len() implies a[i] == b[i] by {
                if i > 0 { assert(a[i] == ta[i - 1]); assert(b[i] == tb[i - 1]); }
            }
        }
    }
}

/// An ascending listing of a set is its sorted identifier sequence.
pub proof fn lemma_sorted_ids(q: Seq<u64>, s: Set<u64>)
    requires
        strictly_increasing(q),
        q.to_set() == s,
    ensures
        sorted_ids(s) == q,
{
    let c = sorted_ids(s);
    assert(strictly_increasing(c) && c.to_set() == s);
    lemma_ascending_listing_unique(c, q);
}

/// The creature identifiers of a finite set in ascending order.
pub open spec fn sorted_u32(s: Set<u32>) -> Seq<u32> {
    choose|q: Seq<u32>| strictly_increasing_u32(q) && q.to_set() == s
}

/// Two ascending listings of one creature set are the same listing.
pub proof fn lemma_ascending_listing_unique_u32(a: Seq<u32>, b: Seq<u32>)
    requires
        strictly_increasing_u32(a),
        strictly_increasing_u32(b),
        a.to_set() == b.to_set(),
    ensures
        a == b,
    decreases a.len(),
{
    if a.len() == 0 {
        if b.len() > 0 {
            assert(b.to_set().contains(b[0]));
            assert(a.to_set().contains(b[0]));
        }
        assert(a =~= b);
    } else {
        assert(a.to_set().contains(a[0]));
        assert(b.to_set().contains(a[0]));
        assert(b.len() > 0);
        assert(b.to_set().contains(b[0]));
        assert(a.to_set().contains(b[0]));
        let j = choose|j: int| 0 <= j < b.len() && b[j] == a[0];
        let k = choose|k: int| 0 <= k < a.len() && a[k] == b[0];
        if j > 0 { assert(b[0] < b[j]); }
        if k > 0 { assert(a[0] < a[k]); }
        assert(a[0] == b[0]);
        let ta = a.drop_first();
        let tb = b.drop_first();
        assert forall|x: u32| ta.to_set().contains(x) implies tb.to_set().contains(x) by {
            let i = choose|i: int| 0 <= i < ta.len() && ta[i] == x;
            assert(a[i + 1] == x);
            assert(a.to_set().contains(x));
            let t = choose|t: int| 0 <= t < b.len() && b[t] == x;
            assert(x > a[0]);
            assert(t > 0);
            assert(tb[t - 1] == x);
        }
        assert forall|x: u32| tb.to_set().contains(x) implies ta.to_set().contains(x) by {
            let i = choose|i: int| 0 <= i < tb.len() && tb[i] == x;
            assert(b[i + 1] == x);
            assert(b.to_set().contains(x));
            let t = choose|t: int| 0 <= t < a.len() && a[t] == x;
            assert(x > b[0]);
            assert(t > 0);
            assert(ta[t - 1] == x);
        }
        assert(ta.to_set() =~= tb.to_set());
        lemma_ascending_listing_unique_u32(ta, tb);
        assert(a =~= b) by {
            assert forall|i: int| 0 <= i < a.len() implies a[i] == b[i] by {
                if i > 0 { assert(a[i] == ta[i - 1]); assert(b[i] == tb[i - 1]); }
            }
        }
    }
}

/// An ascending listing of a creature set is its sorted sequence.
pub proof fn lemma_sorted_u32(q: Seq<u32>, s: Set<u32>)
    requires
        strictly_increasing_u32(q),
        q.to_set() == s,
    ensures
        sorted_u32(s) == q,
{
    let c = sorted_u32(s);
    assert(strictly_increasing_u32(c) && c.to_set() == s);
    lemma_ascending_listing_unique_u32(c, q);
}

/// A finite non-empty creature identifier set has a least element.
proof fn lemma_least_u32_exists(s: Set<u32>)
    requires
        s.finite(),
        s != Set::<u32>::empty(),
    ensures
        exists|x: u32| s.contains(x) && forall|y: u32| #[trigger] s.contains(y) ==> x <= y,
    decreases s.len(),
{
    let a = s.choose();
    if s.len() == 0 {
        assert(s =~= Set::<u32>::empty());
    }
    assert(s.contains(a));
    let r = s.remove(a);
    if r =~= Set::<u32>::empty() {
        assert(forall|y: u32| #[trigger] s.contains(y) ==> a <= y);
    } else {
        lemma_least_u32_exists(r);
        let b = choose|b: u32| r.contains(b) && forall|y: u32| #[trigger] r.contains(y) ==> b <= y;
        if a < b {
            assert(forall|y: u32| #[trigger] s.contains(y) ==> a <= y);
        } else {
            assert(forall|y: u32| #[trigger] s.contains(y) ==> b <= y);
        }
    }
}

/// A finite creature identifier set is listed by its sorted sequence.
pub proof fn lemma_sorted_u32_list(s: Set<u32>)
    requires
        s.finite(),
    ensures
        strictly_increasing_u32(sorted_u32(s)),
        sorted_u32(s).to_set() == s,
    decreases s.len(),
{
    if s =~= Set::<u32>::empty() {
        let q = Seq::<u32>::empty();
        assert(q.to_set() =~= s);
        lemma_sorted_u32(q, s);
    } else {
        lemma_least_u32_exists(s);
        let x = choose|x: u32| s.contains(x) && forall|y: u32| #[trigger] s.contains(y) ==> x <= y;
        let r = s.remove(x);
        lemma_sorted_u32_list(r);
        let q0 = sorted_u32(r);
        let q = seq![x] + q0;
        assert forall|i: int, j: int| 0 <= i < j < q.len() implies q[i] < q[j] by {
            assert(q[j] == q0[j - 1]);
            assert(q0.to_set().contains(q0[j - 1]));
            if i > 0 {
                assert(q[i] == q0[i - 1]);
            }
        }
        assert(q.to_set() =~= s) by {
            assert forall|y: u32| q.to_set().contains(y) <==> s.contains(y) by {
                if s.contains(y) {
                    if y == x {
                        assert(q[0] == y);
                    } else {
                        assert(r.contains(y));
                        assert(q0.to_set().contains(y));
                        let k = choose|k: int| 0 <= k < q0.len() && q0[k] == y;
                        assert(q[k + 1] == y);
                    }
                    assert(q.contains(y));
                }
                if q.to_set().contains(y) {
                    assert(q.contains(y));
                    let k = choose|k: int| 0 <= k < q.len() && q[k] == y;
                    if k > 0 {
                        assert(q0[k - 1] == y);
                        assert(q0.contains(y));
                        assert(q0.to_set().contains(y));
                    } else {
                        assert(q[0] == x);
                    }
                }
            }
        }
        lemma_sorted_u32(q, s);
    }
}

/// The keys of a table in ascending order.
pub fn map_keys<V>(m: &BTreeMap<u64, V>) -> (r: Vec<u64>)
    ensures
        r@.to_set() == m@.dom(),
        strictly_increasing(r@),
        r@.len() == m@.dom().len(),
        forall|i: int| 0 <= i < r@.len() ==> m@.contains_key(#[trigger] r@[i]),
        forall|k: u64| #[trigger] m@.contains_key(k) ==> r@.contains(k),
{
    let mut out: Vec<u64> = Vec::new();
    let ghost g = spec_keys_iter(m).remaining();
    for k in it: m.keys()
        invariant
            it.seq() == g,
            out.len() == it.index(),
            it.index() <= g.len(),
            forall|i: int| 0 <= i < out.len() ==> out@[i] == *g[i],
    {
        out.push(*k);
    }
    proof {
        assert(out@ =~= g.unref());
        assert(vstd::laws_cmp::obeys_cmp::<u64>());
        broadcast use vstd::laws_cmp::lemma_ref_obeys_cmp_spec;
        assert(vstd::laws_cmp::obeys_cmp::<&u64>());
        assert(increasing_seq(g));
        vstd::std_specs::btree::axiom_increasing_seq_meaning(g);
        assert forall|i: int, j: int| 0 <= i < j < out@.len() implies out@[i] < out@[j] by {
            assert(OrdSpec::cmp_spec(&g[i], &g[j]) is Less);
        }
    }
    out
}

/// The keys of a creature table in ascending order.
pub fn map_keys_u32<V>(m: &BTreeMap<u32, V>) -> (r: Vec<u32>)
    ensures
        r@.to_set() == m@.dom(),
        strictly_increasing_u32(r@),
        r@.len() == m@.dom().len(),
        forall|i: int| 0 <= i < r@.len() ==> m@.contains_key(#[trigger] r@[i]),
        forall|k: u32| #[trigger] m@.contains_key(k) ==> r@.contains(k),
{
    let mut out: Vec<u32> = Vec::new();
    let ghost g = spec_keys_iter(m).remaining();
    for k in it: m.keys()
        invariant
            it.seq() == g,
            out.len() == it.index(),
            it.index() <= g.len(),
            forall|i: int| 0 <= i < out.len() ==> out@[i] == *g[i],
    {
        out.push(*k);
    }
    proof {
        assert(out@ =~= g.unref());
        assert(vstd::laws_cmp::obeys_cmp::<u32>());
        broadcast use vstd::laws_cmp::lemma_ref_obeys_cmp_spec;
        assert(vstd::laws_cmp::obeys_cmp::<&u32>());
        assert(increasing_seq(g));
        vstd::std_specs::btree::axiom_increasing_seq_meaning(g);
        assert forall|i: int, j: int| 0 <= i < j < out@.len() implies out@[i] < out@[j] by {
            assert(OrdSpec::cmp_spec(&g[i], &g[j]) is Less);
        }
    }
    out
}

/// The members of an identifier set in ascending order.
pub fn set_keys(m: &BTreeSet<u64>) -> (r: Vec<u64>)
    ensures
        r@.to_set() == m@,
        strictly_increasing(r@),
        r@.len() == m@.len(),
        forall|i: int| 0 <= i < r@.len() ==> m@.contains(#[trigger] r@[i]),
        forall|k: u64| #[trigger] m@.contains(k) ==> r@.contains(k),
{
    let mut out: Vec<u64> = Vec::new();
    let ghost g = spec_btree_keys_iter(m).remaining();
    for k in it: m.iter()
        invariant
            it.seq() == g,
            out.len() == it.index(),
            it.index() <= g.len(),
            forall|i: int| 0 <= i < out.len() ==> out@[i] == *g[i],
    {
        out.push(*k);
    }
    proof {
        assert(out@ =~= g.unref());
        assert(vstd::laws_cmp::obeys_cmp::<u64>());
        broadcast use vstd::laws_cmp::lemma_ref_obeys_cmp_spec;
        assert(vstd::laws_cmp::obeys_cmp::<&u64>());
        assert(increasing_seq(g));
        vstd::std_specs::btree::axiom_increasing_seq_meaning(g);
        assert forall|i: int, j: int| 0 <= i < j < out@.len() implies out@[i] < out@[j] by {
            assert(OrdSpec::cmp_spec(&g[i], &g[j]) is Less);
        }
    }
    out
}

/// The members of a creature identifier set in ascending order.
pub fn set_keys_u32(m: &BTreeSet<u32>) -> (r: Vec<u32>)
    ensures
        r@.to_set() == m@,
        strictly_increasing_u32(r@),
        r@.len() == m@.len(),
        forall|i: int| 0 <= i < r@.len() ==> m@.contains(#[trigger] r@[i]),
        forall|k: u32| #[trigger] m@.contains(k) ==> r@.contains(k),
{
    let mut out: Vec<u32> = Vec::new();
    let ghost g = spec_btree_keys_iter(m).remaining();
    for k in it: m.iter()
        invariant
            it.seq() == g,
            out.len() == it.index(),
            it.index() <= g.len(),
            forall|i: int| 0 <= i < out.len() ==> out@[i] == *g[i],
    {
        out.push(*k);
    }
    proof {
        assert(out@ =~= g.unref());
        assert(vstd::laws_cmp::obeys_cmp::<u32>());
        broadcast use vstd::laws_cmp::lemma_ref_obeys_cmp_spec;
        assert(vstd::laws_cmp::obeys_cmp::<&u32>());
        assert(increasing_seq(g));
        vstd::std_specs::btree::axiom_increasing_seq_meaning(g);
        assert forall|i: int, j: int| 0 <= i < j < out@.len() implies out@[i] < out@[j] by {
            assert(OrdSpec::cmp_spec(&g[i], &g[j]) is Less);
        }
    }
    out
}

/// Lexicographic order of position keys (x, then y, then floor).
pub open spec fn key_lt(a: (u16, u16, u8), b: (u16, u16, u8)) -> bool {
    a.0 < b.0 || (a.0 == b.0 && (a.1 < b.1 || (a.1 == b.1 && a.2 < b.2)))
}

/// The position keys of a tile table in ascending order.
pub fn map_keys_pos<V>(m: &BTreeMap<(u16, u16, u8), V>) -> (r: Vec<(u16, u16, u8)>)
    ensures
        r@.to_set() == m@.dom(),
        r@.len() == m@.dom().len(),
        forall|i: int, j: int| 0 <= i < j < r@.len() ==> key_lt(r@[i], r@[j]),
        forall|i: int| 0 <= i < r@.len() ==> m@.contains_key(#[trigger] r@[i]),
        forall|k: (u16, u16, u8)| #[trigger] m@.contains_key(k) ==> r@.contains(k),
{
    let mut out: Vec<(u16, u16, u8)> = Vec::new();
    let ghost g = spec_keys_iter(m).remaining();
    for k in it: m.keys()
        invariant
            it.seq() == g,
            out.len() == it.index(),
            it.index() <= g.len(),
            forall|i: int| 0 <= i < out.len() ==> out@[i] == *g[i],
    {
        out.push(*k);
    }
    proof {
        assert(out@ =~= g.unref());
        assert(vstd::laws_cmp::obeys_cmp::<(u16, u16, u8)>());
        broadcast use vstd::laws_cmp::lemma_ref_obeys_cmp_spec;
        assert(vstd::laws_cmp::obeys_cmp::<&(u16, u16, u8)>());
        assert(increasing_seq(g));
        vstd::std_specs::btree::axiom_increasing_seq_meaning(g);
        assert forall|i: int, j: int| 0 <= i < j < out@.len() implies key_lt(out@[i], out@[j]) by {
            assert(OrdSpec::cmp_spec(&g[i], &g[j]) is Less);
        }
    }
    out
}

/// Position keys in strictly ascending order.
pub open spec fn pos_increasing(s: Seq<(u16, u16, u8)>) -> bool {
    forall|i: int, j: int| 0 <= i < j < s.len() ==> key_lt(s[i], s[j])
}

/// The position keys of a finite set in ascending order.
pub open spec fn sorted_pos(s: Set<(u16, u16, u8)>) -> Seq<(u16, u16, u8)> {
    choose|q: Seq<(u16, u16, u8)>| pos_increasing(q) && q.to_set() == s
}

/// Two ascending listings of one set of position keys are the same listing.
pub proof fn lemma_ascending_positions_unique(a: Seq<(u16, u16, u8)>, b: Seq<(u16, u16, u8)>)
    requires
        pos_increasing(a),
        pos_increasing(b),
        a.to_set() == b.to_set(),
    ensures
        a == b,
    decreases a.len(),
{
    if a.len() == 0 {
        if b.len() > 0 {
            assert(b.to_set().contains(b[0]));
            assert(a.to_set().contains(b[0]));
        }
        assert(a =~= b);
    } else {
        assert(a.to_set().contains(a[0]));
        assert(b.to_set().contains(a[0]));
        assert(b.len() > 0);
        assert(b.to_set().contains(b[0]));
        assert(a.to_set().contains(b[0]));
        let j = choose|j: int| 0 <= j < b.len() && b[j] == a[0];
        let k = choose|k: int| 0 <= k < a.len() && a[k] == b[0];
        if j > 0 { assert(key_lt(b[0], b[j])); }
        if k > 0 { assert(key_lt(a[0], a[k])); }
        assert(a[0] == b[0]);
        let ta = a.drop_first();
        let tb = b.drop_first();
        assert forall|x: (u16, u16, u8)| ta.to_set().contains(x) implies tb.to_set().contains(x) by {
            let i = choose|i: int| 0 <= i < ta.len() && ta[i] == x;
            assert(a[i + 1] == x);
            assert(a.to_set().contains(x));
            let t = choose|t: int| 0 <= t < b.len() && b[t] == x;
            assert(key_lt(a[0], x));
            assert(t > 0);
            assert(tb[t - 1] == x);
        }
        assert forall|x: (u16, u16, u8)| tb.to_set().contains(x) implies ta.to_set().contains(x) by {
            let i = choose|i: int| 0 <= i < tb.len() && tb[i] == x;
            assert(b[i + 1] == x);
            assert(b.to_set().contains(x));
            let t = choose|t: int| 0 <= t < a.len() && a[t] == x;
            assert(key_lt(b[0], x));
            assert(t > 0);
            assert(ta[t - 1] == x);
        }
        assert(ta.to_set() =~= tb.to_set());
        lemma_ascending_positions_unique(ta, tb);
        assert(ta.len() == tb.len());
        assert(a.len() == b.len());
        assert(a =~= b) by {
            assert forall|i: int| 0 <= i < a.len() implies a[i] == b[i] by {
                if i > 0 { assert(a[i] == ta[i - 1]); assert(b[i] == tb[i - 1]); }
            }
        }
    }
}

/// An ascending listing of position keys is their sorted sequence.
pub proof fn lemma_sorted_pos(q: Seq<(u16, u16, u8)>, s: Set<(u16, u16, u8)>)
    requires
        pos_increasing(q),
        q.to_set() == s,
    ensures
        sorted_pos(s) == q,
{
    let c = sorted_pos(s);
    assert(pos_increasing(c) && c.to_set() == s);
    lemma_ascending_positions_unique(c, q);
}


/// `BTreeMap::get_mut`: for a present key, a mutable reference to its value, and afterwards the
/// table holds whatever was left behind that reference under the same key; for an absent key,
/// nothing, and the table is unchanged.
#[verifier::external_body]
pub(crate) fn map_entry_mut<'a, K: Ord, V>(m: &'a mut BTreeMap<K, V>, k: &K) -> (r: Option<&'a mut V>)
    requires
        vstd::laws_cmp::obeys_cmp::<K>(),
    ensures
        old(m)@.contains_key(*k) <==> r is Some,
        r is None ==> final(m)@ == old(m)@,
        r is Some ==> *r->0 == old(m)@[*k] && final(m)@ == old(m)@.insert(*k, *final(r->0)),
{
    m.get_mut(k)
}
} // verus!
