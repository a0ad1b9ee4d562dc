//! Byte-wise ordering of names, and the stable insertion sort of indices by it
//! that puts the entries of a directory in a fixed order.

use vstd::prelude::*;

verus! {

/// `a` comes strictly before `b` in byte-wise lexicographic order.
pub open spec fn bytes_lt(a: Seq<u8>, b: Seq<u8>) -> bool
    decreases a.len(),
{
    if a.len() == 0 {
        b.len() > 0
    } else if b.len() == 0 {
        false
    } else if a[0] != b[0] {
        a[0] < b[0]
    } else {
        bytes_lt(a.drop_first(), b.drop_first())
    }
}

proof fn lemma_bytes_lt_skip(a: Seq<u8>, b: Seq<u8>, i: int)
    requires
        0 <= i <= a.len(),
        i <= b.len(),
        a.take(i) == b.take(i),
    ensures
        bytes_lt(a, b) == bytes_lt(a.skip(i), b.skip(i)),
    decreases i,
{
    if i > 0 {
        assert(a[0] == a.take(i)[0]);
        assert(b[0] == b.take(i)[0]);
        assert(a.drop_first().take(i - 1) =~= a.take(i).drop_first());
        assert(b.drop_first().take(i - 1) =~= b.take(i).drop_first());
        lemma_bytes_lt_skip(a.drop_first(), b.drop_first(), i - 1);
        assert(a.drop_first().skip(i - 1) =~= a.skip(i));
        assert(b.drop_first().skip(i - 1) =~= b.skip(i));
    } else {
        assert(a.skip(0) =~= a);
        assert(b.skip(0) =~= b);
    }
}

/// Strict byte-wise comparison of `a` and `b`.
pub fn bytes_less(a: &[u8], b: &[u8]) -> (lt: bool)
    ensures
        lt == bytes_lt(a@, b@),
{
    let mut i: usize = 0;
    while i < a.len() && i < b.len()
        invariant
            i <= a@.len(),
            i <= b@.len(),
            a@.take(i as int) == b@.take(i as int),
        decreases a@.len() - i,
    {
        if a[i] != b[i] {
            proof {
                lemma_bytes_lt_skip(a@, b@, i as int);
            }
            return a[i] < b[i];
        }
        assert(a@.take(i + 1) =~= a@.take(i as int).push(a@[i as int]));
        assert(b@.take(i + 1) =~= b@.take(i as int).push(b@[i as int]));
        i = i + 1;
    }
    proof {
        lemma_bytes_lt_skip(a@, b@, i as int);
    }
    i < b.len() && i == a.len()
}

/// Properties of `bytes_lt`: irreflexive, transitive, and total on distinct sequences.
pub proof fn lemma_bytes_lt_order(a: Seq<u8>, b: Seq<u8>, c: Seq<u8>)
    ensures
        !bytes_lt(a, a),
        bytes_lt(a, b) && bytes_lt(b, c) ==> bytes_lt(a, c),
        !bytes_lt(a, b) && !bytes_lt(b, a) ==> a == b,
        bytes_lt(a, b) ==> !bytes_lt(b, a),
    decreases a.len(),
{
    if a.len() > 0 && b.len() > 0 && c.len() > 0 {
        lemma_bytes_lt_order(a.drop_first(), b.drop_first(), c.drop_first());
    } else if a.len() > 0 && b.len() > 0 {
        lemma_bytes_lt_order(a.drop_first(), b.drop_first(), b.drop_first());
    } else if a.len() > 0 {
        lemma_bytes_lt_order(a.drop_first(), a.drop_first(), a.drop_first());
    }
    if a.len() > 0 && b.len() > 0 && a[0] == b[0] && a.drop_first() == b.drop_first() {
        assert(a =~= seq![a[0]] + a.drop_first());
        assert(b =~= seq![b[0]] + b.drop_first());
    }
    if a.len() == 0 && b.len() == 0 {
        assert(a =~= b);
    }
}

/// Inserts index `j` into `order` before the first index whose key is greater
/// than the key of `j` (after all the equal ones, so the sort is stable).
pub open spec fn insert_sorted(order: Seq<int>, j: int, keys: Seq<Seq<u8>>) -> Seq<int>
    decreases order.len(),
{
    if order.len() == 0 {
        seq![j]
    } else if bytes_lt(keys[j], keys[order[0]]) {
        seq![j] + order
    } else {
        seq![order[0]] + insert_sorted(order.drop_first(), j, keys)
    }
}

/// The indices `idx`, stably sorted by their keys.
pub open spec fn sort_indices(idx: Seq<int>, keys: Seq<Seq<u8>>) -> Seq<int>
    decreases idx.len(),
{
    if idx.len() == 0 {
        Seq::empty()
    } else {
        insert_sorted(sort_indices(idx.drop_last(), keys), idx.last(), keys)
    }
}

/// `order` is sorted by the keys.
pub open spec fn sorted_by(order: Seq<int>, keys: Seq<Seq<u8>>) -> bool {
    forall|p: int, q: int|
        0 <= p < q < order.len() ==> !bytes_lt(#[trigger] keys[order[q]], #[trigger] keys[order[p]])
}

proof fn lemma_insert_at(order: Seq<int>, j: int, keys: Seq<Seq<u8>>, p: int)
    requires
        0 <= p <= order.len(),
        forall|q: int| 0 <= q < p ==> !bytes_lt(keys[j], #[trigger] keys[order[q]]),
        p < order.len() ==> bytes_lt(keys[j], keys[order[p]]),
    ensures
        insert_sorted(order, j, keys) == order.take(p) + seq![j] + order.skip(p),
    decreases p,
{
    if p == 0 {
        if order.len() == 0 {
            assert(order.take(0) + seq![j] + order.skip(0) =~= seq![j]);
        } else {
            assert(order.take(0) + seq![j] + order.skip(0) =~= seq![j] + order);
        }
    } else {
        assert(!bytes_lt(keys[j], keys[order[0]]));
        let rest = order.drop_first();
        assert forall|q: int| 0 <= q < p - 1 implies !bytes_lt(keys[j], #[trigger] keys[rest[q]]) by {
            assert(rest[q] == order[q + 1]);
        }
        lemma_insert_at(rest, j, keys, p - 1);
        assert(seq![order[0]] + (rest.take(p - 1) + seq![j] + rest.skip(p - 1)) =~= order.take(p)
            + seq![j] + order.skip(p));
    }
}

/// Sorting keeps exactly the given indices, and puts them in key order.
pub proof fn lemma_sort_indices(idx: Seq<int>, keys: Seq<Seq<u8>>)
    ensures
        sort_indices(idx, keys).to_multiset() == idx.to_multiset(),
        sort_indices(idx, keys).len() == idx.len(),
        sorted_by(sort_indices(idx, keys), keys),
    decreases idx.len(),
{
    broadcast use vstd::seq_lib::group_to_multiset_ensures;

    if idx.len() > 0 {
        let rest = sort_indices(idx.drop_last(), keys);
        lemma_sort_indices(idx.drop_last(), keys);
        lemma_insert_sorted(rest, idx.last(), keys);
        assert(idx =~= idx.drop_last().push(idx.last()));
    } else {
        assert(sort_indices(idx, keys) =~= idx);
    }
}

proof fn lemma_insert_sorted(order: Seq<int>, j: int, keys: Seq<Seq<u8>>)
    requires
        sorted_by(order, keys),
    ensures
        insert_sorted(order, j, keys).to_multiset() == order.to_multiset().insert(j),
        insert_sorted(order, j, keys).len() == order.len() + 1,
        sorted_by(insert_sorted(order, j, keys), keys),
    decreases order.len(),
{
    broadcast use vstd::seq_lib::group_to_multiset_ensures;

    let r = insert_sorted(order, j, keys);
    if order.len() == 0 {
        assert(r =~= seq![j]);
        assert(seq![j] =~= Seq::<int>::empty().push(j));
    } else if bytes_lt(keys[j], keys[order[0]]) {
        assert(r =~= seq![j] + order);
        vstd::seq_lib::lemma_multiset_commutative(seq![j], order);
        assert(seq![j] =~= Seq::<int>::empty().push(j));
        assert forall|p: int, q: int| 0 <= p < q < r.len() implies !bytes_lt(
            #[trigger] keys[r[q]],
            #[trigger] keys[r[p]],
        ) by {
            if p == 0 {
                lemma_bytes_lt_order(keys[j], keys[order[0]], keys[order[q - 1]]);
                lemma_bytes_lt_order(keys[order[q - 1]], keys[j], keys[order[0]]);
                if q - 1 > 0 {
                    assert(!bytes_lt(keys[order[q - 1]], keys[order[0]]));
                }
                lemma_bytes_lt_order(keys[order[0]], keys[order[q - 1]], keys[j]);
            }
        }
    } else {
        let rest = order.drop_first();
        assert(sorted_by(rest, keys)) by {
            assert forall|p: int, q: int| 0 <= p < q < rest.len() implies !bytes_lt(
                #[trigger] keys[rest[q]],
                #[trigger] keys[rest[p]],
            ) by {
                assert(rest[q] == order[q + 1] && rest[p] == order[p + 1]);
            }
        }
        lemma_insert_sorted(rest, j, keys);
        let ins = insert_sorted(rest, j, keys);
        assert(r =~= seq![order[0]] + ins);
        vstd::seq_lib::lemma_multiset_commutative(seq![order[0]], ins);
        vstd::seq_lib::lemma_multiset_commutative(seq![order[0]], rest);
        assert(order =~= seq![order[0]] + rest);
        assert forall|p: int, q: int| 0 <= p < q < r.len() implies !bytes_lt(
            #[trigger] keys[r[q]],
            #[trigger] keys[r[p]],
        ) by {
            if p == 0 {
                // r[q] is either j or an element of rest; both are not below order[0].
                let x = ins[q - 1];
                assert(ins.to_multiset().count(x) > 0);
                assert(rest.to_multiset().insert(j).count(x) > 0);
                if x == j {
                    lemma_bytes_lt_order(keys[j], keys[order[0]], keys[j]);
                } else {
                    assert(rest.to_multiset().count(x) > 0);
                    assert(rest.contains(x));
                    let t = choose|t: int| 0 <= t < rest.len() && rest[t] == x;
                    assert(order[t + 1] == x);
                }
            }
        }
    }
}

/// The keys, as sequences of bytes.
pub open spec fn key_seqs(keys: Seq<Vec<u8>>) -> Seq<Seq<u8>> {
    keys.map_values(|k: Vec<u8>| k@)
}

/// The indices, as integers.
pub open spec fn int_seq(idx: Seq<usize>) -> Seq<int> {
    idx.map_values(|x: usize| x as int)
}

/// Stably sorts the indices `idx` by the keys they point at.
pub fn sort_indices_by_keys(keys: &Vec<Vec<u8>>, idx: &Vec<usize>) -> (order: Vec<usize>)
    requires
        forall|t: int| 0 <= t < idx@.len() ==> #[trigger] idx@[t] < keys@.len(),
    ensures
        int_seq(order@) == sort_indices(int_seq(idx@), key_seqs(keys@)),
{
    let ghost ks = key_seqs(keys@);
    let mut order: Vec<usize> = Vec::new();
    let n = idx.len();
    for t in 0..n
        invariant
            n == idx@.len(),
            ks == key_seqs(keys@),
            forall|u: int| 0 <= u < idx@.len() ==> #[trigger] idx@[u] < keys@.len(),
            int_seq(order@) == sort_indices(int_seq(idx@.take(t as int)), ks),
            forall|q: int| 0 <= q < order@.len() ==> #[trigger] order@[q] < keys@.len(),
    {
        let j = idx[t];
        let mut p: usize = 0;
        while p < order.len() && !bytes_less(keys[j].as_slice(), keys[order[p]].as_slice())
            invariant
                p <= order@.len(),
                j < keys@.len(),
                ks == key_seqs(keys@),
                int_seq(order@) == sort_indices(int_seq(idx@.take(t as int)), ks),
                forall|q: int| 0 <= q < p ==> !bytes_lt(ks[j as int], #[trigger] ks[order@[q] as int]),
                forall|u: int| 0 <= u < idx@.len() ==> #[trigger] idx@[u] < keys@.len(),
                forall|q: int| 0 <= q < order@.len() ==> #[trigger] order@[q] < keys@.len(),
            decreases order@.len() - p,
        {
            p = p + 1;
        }
        let ghost before = int_seq(order@);
        proof {
            assert forall|q: int| 0 <= q < p implies !bytes_lt(ks[j as int], #[trigger] ks[before[q]]) by {
                assert(before[q] == order@[q] as int);
            }
            lemma_insert_at(before, j as int, ks, p as int);
        }
        order.insert(p, j);
        proof {
            let prefix = int_seq(idx@.take(t + 1));
            assert(prefix.drop_last() =~= int_seq(idx@.take(t as int)));
            assert(prefix.last() == j as int);
            assert(int_seq(order@) =~= before.take(p as int) + seq![j as int] + before.skip(p as int));
        }
    }
    assert(idx@.take(n as int) =~= idx@);
    order
}

} // verus!
