//! A directory's node does not depend on the order in which its entries are
//! listed, at any depth: listings whose entries correspond one to one, each
//! pair building alike, give the same node.

use vstd::prelude::*;

use crate::content::merkle::{
    build_spec, dag_spec, distinct_names, entry_name, lemma_visit_order, lemma_visited_members,
    lemma_visited_strict, lemma_walks_agree, name_key, visit_order, visited, FsEntry,
};
use crate::content::order::{bytes_lt, lemma_bytes_lt_order};

verus! {

/// Two entries build alike: both unreadable, or both readable with the same
/// name (as text and as the file system holds it) and the same outcome of
/// building them.
pub open spec fn entries_agree(x: FsEntry, y: FsEntry) -> bool {
    &&& (x is Broken) == (y is Broken)
    &&& !(x is Broken) ==> entry_name(x) == entry_name(y) && name_key(x) == name_key(y) && build_spec(x)
        == build_spec(y)
}

/// `p` pairs the indices `0..n` one to one with themselves.
pub open spec fn is_bijection(p: Seq<int>, n: int) -> bool {
    &&& p.len() == n
    &&& forall|i: int| 0 <= i < n ==> 0 <= #[trigger] p[i] < n
    &&& forall|i: int, j: int| 0 <= i < n && 0 <= j < n && i != j ==> #[trigger] p[i] != #[trigger] p[j]
    &&& forall|j: int| 0 <= j < n ==> #[trigger] p.contains(j)
}

/// Strictly increasing sequences of keys that hold the same keys are equal.
proof fn lemma_sorted_keys_unique(s: Seq<Seq<u8>>, t: Seq<Seq<u8>>)
    requires
        forall|x: Seq<u8>| s.contains(x) <==> t.contains(x),
        forall|p: int, q: int| 0 <= p < q < s.len() ==> bytes_lt(#[trigger] s[p], #[trigger] s[q]),
        forall|p: int, q: int| 0 <= p < q < t.len() ==> bytes_lt(#[trigger] t[p], #[trigger] t[q]),
    ensures
        s == t,
    decreases s.len() + t.len(),
{
    if s.len() == 0 {
        if t.len() > 0 {
            assert(t.contains(t[0]));
        }
        assert(s =~= t);
    } else if t.len() == 0 {
        assert(s.contains(s[0]));
    } else {
        assert(s.contains(s[0]));
        assert(t.contains(t[0]));
        let j = choose|j: int| 0 <= j < t.len() && t[j] == s[0];
        let i = choose|i: int| 0 <= i < s.len() && s[i] == t[0];
        if i > 0 {
            lemma_bytes_lt_order(s[0], s[i], s[i]);
        }
        if j > 0 {
            lemma_bytes_lt_order(t[0], t[j], t[j]);
        }
        if i > 0 && j > 0 {
            lemma_bytes_lt_order(s[0], s[i], t[j]);
        }
        assert(s[0] == t[0]);
        let s1 = s.drop_first();
        let t1 = t.drop_first();
        assert forall|x: Seq<u8>| s1.contains(x) <==> t1.contains(x) by {
            if s1.contains(x) {
                let p = choose|p: int| 0 <= p < s1.len() && s1[p] == x;
                assert(s.contains(x));
                let q = choose|q: int| 0 <= q < t.len() && t[q] == x;
                if q == 0 {
                    lemma_bytes_lt_order(s[0], s[p + 1], s[0]);
                }
                assert(t1[q - 1] == x);
            }
            if t1.contains(x) {
                let p = choose|p: int| 0 <= p < t1.len() && t1[p] == x;
                assert(t.contains(x));
                let q = choose|q: int| 0 <= q < s.len() && s[q] == x;
                if q == 0 {
                    lemma_bytes_lt_order(t[0], t[p + 1], t[0]);
                }
                assert(s1[q - 1] == x);
            }
        }
        lemma_sorted_keys_unique(s1, t1);
        assert(s =~= seq![s[0]] + s1);
        assert(t =~= seq![t[0]] + t1);
    }
}

/// The name keys of some entries.
spec fn keys_of(entries: Seq<FsEntry>) -> Seq<Seq<u8>> {
    entries.map_values(|e: FsEntry| name_key(e))
}

/// Each visited entry of the first listing has its partner at the same
/// place among the visited entries of the second.
proof fn lemma_visited_partners(va: Seq<FsEntry>, vb: Seq<FsEntry>, p: Seq<int>)
    requires
        va.len() == vb.len(),
        is_bijection(p, va.len() as int),
        forall|i: int| 0 <= i < va.len() ==> entries_agree(#[trigger] va[i], vb[p[i]]),
        distinct_names(va),
        distinct_names(vb),
    ensures
        visited(va).len() == visited(vb).len(),
        forall|t: int|
            0 <= t < visited(va).len() ==> build_spec(#[trigger] visited(va)[t]) == build_spec(visited(vb)[t]),
{
    let ua = visited(va);
    let ub = visited(vb);
    lemma_visited_members(va);
    lemma_visited_members(vb);
    lemma_visited_strict(va);
    lemma_visited_strict(vb);
    let ka = keys_of(ua);
    let kb = keys_of(ub);
    assert forall|x: Seq<u8>| ka.contains(x) implies kb.contains(x) by {
        let t = choose|t: int| 0 <= t < ka.len() && ka[t] == x;
        assert(ua.contains(ua[t]));
        let i = choose|i: int| 0 <= i < va.len() && va[i] == ua[t];
        let y = vb[p[i]];
        assert(entries_agree(va[i], y));
        assert(vb.contains(y));
        assert(ub.contains(y));
        let u = choose|u: int| 0 <= u < ub.len() && ub[u] == y;
        assert(kb[u] == x);
    }
    assert forall|x: Seq<u8>| kb.contains(x) implies ka.contains(x) by {
        let t = choose|t: int| 0 <= t < kb.len() && kb[t] == x;
        assert(ub.contains(ub[t]));
        let j = choose|j: int| 0 <= j < vb.len() && vb[j] == ub[t];
        assert(p.contains(j));
        let i = choose|i: int| 0 <= i < p.len() && p[i] == j;
        assert(entries_agree(va[i], vb[p[i]]));
        assert(va.contains(va[i]));
        assert(ua.contains(va[i]));
        let u = choose|u: int| 0 <= u < ua.len() && ua[u] == va[i];
        assert(ka[u] == x);
    }
    assert forall|a: int, b: int| 0 <= a < b < ka.len() implies bytes_lt(#[trigger] ka[a], #[trigger] ka[b]) by {
        assert(ka[a] == name_key(ua[a]) && ka[b] == name_key(ua[b]));
    }
    assert forall|a: int, b: int| 0 <= a < b < kb.len() implies bytes_lt(#[trigger] kb[a], #[trigger] kb[b]) by {
        assert(kb[a] == name_key(ub[a]) && kb[b] == name_key(ub[b]));
    }
    lemma_sorted_keys_unique(ka, kb);
    assert forall|t: int| 0 <= t < ua.len() implies build_spec(#[trigger] ua[t]) == build_spec(ub[t]) by {
        assert(ua.contains(ua[t]));
        let i = choose|i: int| 0 <= i < va.len() && va[i] == ua[t];
        let y = vb[p[i]];
        assert(entries_agree(va[i], y));
        assert(vb.contains(y));
        assert(ub.contains(y));
        let u = choose|u: int| 0 <= u < ub.len() && ub[u] == y;
        assert(kb[u] == ka[t]);
        if u < t {
            assert(bytes_lt(kb[u], kb[t]));
            lemma_bytes_lt_order(kb[u], kb[u], kb[u]);
        } else if t < u {
            assert(bytes_lt(kb[t], kb[u]));
            lemma_bytes_lt_order(kb[t], kb[t], kb[t]);
        }
    }
}

/// The DAG does not depend on how directories are listed, at any depth: two
/// directories of the same name whose listings pair up one to one (each
/// readable name once in each), every pair being unreadable or having the
/// same name and building alike, build the same node, the same nodes below
/// it and the same chunks. Since entries that build alike may themselves be
/// directories listed in other orders, this carries up the whole tree.
pub proof fn lemma_dir_built_from_entries(a: FsEntry, b: FsEntry, p: Seq<int>)
    requires
        a matches FsEntry::Dir { listing: Ok(va), .. },
        b matches FsEntry::Dir { listing: Ok(vb), .. },
        a->Dir_name@ == b->Dir_name@,
        a->listing->Ok_0@.len() == b->listing->Ok_0@.len(),
        is_bijection(p, a->listing->Ok_0@.len() as int),
        forall|i: int|
            0 <= i < a->listing->Ok_0@.len() ==> entries_agree(
                #[trigger] a->listing->Ok_0@[i],
                b->listing->Ok_0@[p[i]],
            ),
        distinct_names(a->listing->Ok_0@),
        distinct_names(b->listing->Ok_0@),
    ensures
        build_spec(a) == build_spec(b),
        dag_spec(a) == dag_spec(b),
{
    let va = a->listing->Ok_0@;
    let vb = b->listing->Ok_0@;
    lemma_visited_partners(va, vb, p);
    lemma_visit_order(va);
    lemma_visit_order(vb);
    lemma_visited_members(va);
    lemma_visited_members(vb);
    lemma_walks_agree(a, b, visit_order(va).len() as int);
}

} // verus!
