//! Ids in ascending order.
use std::collections::BTreeMap;

use vstd::prelude::*;
use vstd::std_specs::cmp::OrdSpec;
use vstd::std_specs::iter::IteratorSpec;

verus! {

/// The ids of a set that are less than `n`, ascending.
pub open spec fn ids_below(set: Set<u32>, n: nat) -> Seq<u32>
    decreases n,
{
    if n == 0 {
        Seq::empty()
    } else {
        let before = ids_below(set, (n - 1) as nat);
        if set.contains((n - 1) as u32) {
            before.push((n - 1) as u32)
        } else {
            before
        }
    }
}

/// The ids of a set, ascending.
pub open spec fn ascending_ids(set: Set<u32>) -> Seq<u32> {
    ids_below(set, 0x1_0000_0000)
}

/// Each id of a list is less than those after it.
pub open spec fn is_rising(list: Seq<u32>) -> bool {
    forall|i: int, j: int| 0 <= i < j < list.len() ==> list[i] < list[j]
}

proof fn lemma_ids_below(set: Set<u32>, n: nat)
    requires
        n <= 0x1_0000_0000,
    ensures
        is_rising(ids_below(set, n)),
        forall|id: u32| #[trigger]
            ids_below(set, n).contains(id) <==> set.contains(id) && id < n,
    decreases n,
{
    if n > 0 {
        lemma_ids_below(set, (n - 1) as nat);
        let before = ids_below(set, (n - 1) as nat);
        let after = ids_below(set, n);
        let last = (n - 1) as u32;
        assert forall|i: int| 0 <= i < before.len() implies before[i] < last by {
            assert(before.contains(before[i]));
        }
        assert forall|id: u32| #[trigger] after.contains(id) <==> set.contains(id) && id < n by {
            if before.contains(id) {
                let k = choose|k: int| 0 <= k < before.len() && before[k] == id;
                assert(after[k] == id);
            }
            if set.contains(last) {
                assert(after[before.len() as int] == last);
            }
        }
    }
}

/// The ids of a set are listed ascending, each once.
pub proof fn lemma_ascending_ids(set: Set<u32>)
    ensures
        is_rising(ascending_ids(set)),
        forall|id: u32| #[trigger] ascending_ids(set).contains(id) <==> set.contains(id),
{
    lemma_ids_below(set, 0x1_0000_0000);
}

proof fn lemma_rising_unique(a: Seq<u32>, b: Seq<u32>)
    requires
        is_rising(a),
        is_rising(b),
        forall|id: u32| #[trigger] a.contains(id) <==> b.contains(id),
    ensures
        a == b,
    decreases a.len(),
{
    if a.len() == 0 {
        if b.len() > 0 {
            assert(b.contains(b[0]) && !a.contains(b[0]));
        }
        assert(a =~= b);
    } else {
        assert(a.contains(a.last()));
        assert(b.contains(b.last()) && a.contains(b.last()));
        let i = choose|i: int| 0 <= i < b.len() && b[i] == a.last();
        let j = choose|j: int| 0 <= j < a.len() && a[j] == b.last();
        assert(a.last() == b.last());
        assert forall|id: u32| #[trigger]
            a.drop_last().contains(id) <==> b.drop_last().contains(id) by {
            if a.drop_last().contains(id) {
                let k = choose|k: int| 0 <= k < a.len() - 1 && a[k] == id;
                assert(a.contains(id));
                let m = choose|m: int| 0 <= m < b.len() && b[m] == id;
                assert(b.drop_last()[m] == id);
            }
            if b.drop_last().contains(id) {
                let k = choose|k: int| 0 <= k < b.len() - 1 && b[k] == id;
                assert(b.contains(id) && a.contains(id));
                let m = choose|m: int| 0 <= m < a.len() && a[m] == id;
                assert(a.drop_last()[m] == id);
            }
        }
        lemma_rising_unique(a.drop_last(), b.drop_last());
        assert(a =~= a.drop_last().push(a.last()));
        assert(b =~= b.drop_last().push(b.last()));
    }
}

/// The keys of a map, ascending.
pub fn ids_of<V>(map: &BTreeMap<u32, V>) -> (r: Vec<u32>)
    ensures
        r@ == ascending_ids(map@.dom()),
{
    broadcast use vstd::std_specs::btree::group_btree_axioms;
    broadcast use vstd::laws_cmp::group_laws_cmp;

    assert forall|i: int, j: int| 0 <= i < j < map.keys().remaining().len() implies
        *map.keys().remaining()[i] < *map.keys().remaining()[j] by {
        assert(vstd::laws_cmp::obeys_cmp::<&u32>());
        assert(OrdSpec::cmp_spec(&map.keys().remaining()[i], &map.keys().remaining()[j]) is Less);
    }
    let mut r: Vec<u32> = Vec::new();
    for id in iter: map.keys()
        invariant
            forall|i: int, j: int|
                0 <= i < j < iter.seq().len() ==> *iter.seq()[i] < *iter.seq()[j],
            iter.seq().unref().to_set() == map@.dom(),
            r@ == iter.seq().unref().take(iter.index()),
            iter.index() == iter.seq().len() ==> r@.to_set() == map@.dom(),
    {
        r.push(*id);
        assert(iter.index() + 1 == iter.seq().len() ==> r@ =~= iter.seq().unref());
    }
    assert(r@.to_set() =~= map@.dom());
    proof {
        lemma_ascending_ids(map@.dom());
        assert forall|id: u32| #[trigger] r@.contains(id) <==> map@.dom().contains(id) by {
            assert(r@.to_set().contains(id) == map@.dom().contains(id));
        }
        lemma_rising_unique(r@, ascending_ids(map@.dom()));
    }
    r
}

} // verus!
