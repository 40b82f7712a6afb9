//! Sorting identifiers ascending in the identifier total order.

use vstd::prelude::*;
use vstd::relations::{sorted_by, total_ordering};
use vstd::seq_lib::{lemma_sorted_unique, to_multiset_insert, to_multiset_remove};
use crate::index::{
    id_le, id_le_fn, index_le, lemma_id_le_connected, lemma_id_le_total_ordering,
    lemma_id_le_trans, IdView, Index,
};

verus! {

/// The views of the elements of an identifier sequence.
pub open spec fn views_of(v: Seq<Index>) -> Seq<IdView> {
    v.map_values(|i: Index| i@)
}

/// Sorts identifiers ascending: by name lexicographically, then by date when
/// the names are equal. The result is sorted in the identifier total order
/// and holds exactly the input identifiers; because the order is total, any
/// two such sequences are equal, so the result is fully determined.
pub fn sort_indices(v: Vec<Index>) -> (r: Vec<Index>)
    ensures
        sorted_by(views_of(r@), id_le_fn()),
        views_of(r@).to_multiset() == views_of(v@).to_multiset(),
{
    proof {
        lemma_id_le_total_ordering();
    }
    let ghost leq = id_le_fn();
    let mut w = v;
    if w.len() == 0 {
        return w;
    }
    let mut i: usize = 1;
    while i < w.len()
        invariant
            1 <= i <= w.len(),
            w.len() == v@.len(),
            total_ordering(leq),
            leq == id_le_fn(),
            sorted_by(views_of(w@).subrange(0, i as int), leq),
            views_of(w@).to_multiset() == views_of(v@).to_multiset(),
        decreases w.len() - i,
    {
        let ghost vs = views_of(w@);
        let mut k: usize = 0;
        loop
            invariant
                0 <= k <= i < w.len(),
                views_of(w@) == vs,
                forall|j: int| 0 <= j < k ==> id_le(vs[j], vs[i as int]),
            ensures
                0 <= k <= i < w.len(),
                views_of(w@) == vs,
                forall|j: int| 0 <= j < k ==> id_le(vs[j], vs[i as int]),
                k < i ==> !id_le(vs[k as int], vs[i as int]),
            decreases i - k,
        {
            if k >= i {
                break;
            }
            if !index_le(&w[k], &w[i]) {
                break;
            }
            k += 1;
        }
        let ghost x = vs[i as int];
        proof {
            // Everything at or after the insertion point, up to `i`, lies at
            // or above the element being inserted.
            let pre = vs.subrange(0, i as int);
            assert forall|j: int| k <= j < i implies id_le(x, vs[j]) by {
                lemma_id_le_connected(vs[k as int], x);
                assert(id_le(x, vs[k as int]));
                if j > k {
                    assert(leq(pre[k as int], pre[j]));
                    assert(id_le(vs[k as int], vs[j]));
                    lemma_id_le_trans(x, vs[k as int], vs[j]);
                }
            }
        }
        let elem = w.remove(i);
        w.insert(k, elem);
        proof {
            let nvs = views_of(w@);
            assert(nvs =~= vs.remove(i as int).insert(k as int, x));
            to_multiset_remove(vs, i as int);
            to_multiset_insert(vs.remove(i as int), k as int, x);
            broadcast use vstd::multiset::group_multiset_axioms;
            assert(vs.contains(x)) by {
                assert(vs[i as int] == x);
            }
            vstd::seq_lib::to_multiset_contains(vs, x);
            assert(nvs.to_multiset() =~= vs.to_multiset());
            // Indices of the new prefix map back to the old one around the
            // insertion point.
            assert(nvs[k as int] == x);
            assert(forall|j: int| 0 <= j < k ==> nvs[j] == vs[j]);
            assert(forall|j: int| k < j <= i ==> nvs[j] == vs[j - 1]);
            let np = nvs.subrange(0, i + 1);
            let pre = vs.subrange(0, i as int);
            assert forall|a: int, b: int| 0 <= a < b < np.len() implies #[trigger] leq(
                np[a],
                np[b],
            ) by {
                if b < k {
                    assert(leq(pre[a], pre[b]));
                } else if b == k {
                    assert(id_le(vs[a], x));
                    assert(leq(np[a], np[b]) == id_le(vs[a], x));
                } else if a < k {
                    assert(leq(pre[a], pre[b - 1]));
                    assert(np[a] == vs[a] && np[b] == vs[b - 1]);
                } else if a == k {
                    assert(id_le(x, vs[b - 1]));
                    assert(np[a] == x && np[b] == vs[b - 1]);
                    assert(leq(np[a], np[b]) == id_le(x, vs[b - 1]));
                } else {
                    assert(leq(pre[a - 1], pre[b - 1]));
                    assert(np[a] == vs[a - 1] && np[b] == vs[b - 1]);
                }
            }
            assert(sorted_by(np, leq));
        }
        i += 1;
    }
    proof {
        assert(views_of(w@).subrange(0, i as int) =~= views_of(w@));
    }
    w
}

/// Sorting is canonical: any two sequences of identifiers that are sorted in
/// the identifier total order and that hold the same identifiers are the
/// same sequence, so a sorted listing does not depend on how it was reached.
pub proof fn lemma_sorted_views_unique(x: Seq<IdView>, y: Seq<IdView>)
    requires
        sorted_by(x, id_le_fn()),
        sorted_by(y, id_le_fn()),
        x.to_multiset() == y.to_multiset(),
    ensures
        x == y,
{
    lemma_id_le_total_ordering();
    lemma_sorted_unique(x, y, id_le_fn());
}

} // verus!
