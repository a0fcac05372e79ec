//! An index of the participants sorted by address, so that the participants
//! with a given address are found by binary search.

use vstd::prelude::*;

use crate::address::{address_lt, lemma_address_order, Address};
use crate::ranking::lemma_swap_multiset;

verus! {

broadcast use vstd::seq_lib::group_to_multiset_ensures, vstd::multiset::group_multiset_axioms;

/// Every participant paired with its position.
pub open spec fn keyed_participants(participants: Seq<Address>) -> Seq<(Address, usize)> {
    Seq::new(participants.len(), |i: int| (participants[i], i as usize))
}

/// Position `j` occurs in `index`.
pub open spec fn index_covers(index: Seq<(Address, usize)>, j: int) -> bool {
    exists|k: int| 0 <= k < index.len() && (#[trigger] index[k]).1 == j
}

/// `index` lists every position of `participants` exactly once, each with
/// its address, in address order.
pub open spec fn is_participant_index(index: Seq<(Address, usize)>, participants: Seq<Address>) -> bool {
    &&& index.len() == participants.len()
    &&& forall|k: int|
        0 <= k < index.len() ==> (#[trigger] index[k]).1 < participants.len() && index[k].0
            == participants[index[k].1 as int]
    &&& forall|k: int, l: int|
        0 <= k < l < index.len() ==> (#[trigger] index[k]).1 != (#[trigger] index[l]).1
    &&& forall|j: int| 0 <= j < participants.len() ==> #[trigger] index_covers(index, j)
    &&& forall|k: int, l: int|
        0 <= k < l < index.len() ==> !address_lt((#[trigger] index[l]).0, (#[trigger] index[k]).0)
}

/// Builds the address index of `participants` (insertion sort by address).
pub fn build_participant_index(participants: &Vec<Address>) -> (r: Vec<(Address, usize)>)
    ensures
        is_participant_index(r@, participants@),
{
    let n = participants.len();
    let ghost keyed = keyed_participants(participants@);
    let mut v: Vec<(Address, usize)> = Vec::new();
    let mut i: usize = 0;
    while i < n
        invariant
            n == participants.len(),
            keyed == keyed_participants(participants@),
            i <= n,
            v@ =~= keyed.take(i as int),
        decreases n - i,
    {
        v.push((participants[i], i));
        i = i + 1;
    }
    assert(v@ =~= keyed);
    if n >= 2 {
        let mut i: usize = 1;
        while i < n
            invariant
                v.len() == n,
                1 <= i <= n,
                v@.to_multiset() == keyed.to_multiset(),
                forall|a: int, b: int|
                    0 <= a < b < i ==> !address_lt((#[trigger] v[b]).0, (#[trigger] v[a]).0),
            decreases n - i,
        {
            let mut j: usize = i;
            let mut done = false;
            while j > 0 && !done
                invariant
                    v.len() == n,
                    1 <= i < n,
                    j <= i,
                    v@.to_multiset() == keyed.to_multiset(),
                    forall|a: int, b: int|
                        0 <= a < b <= i && a != j && b != j ==> !address_lt(
                            (#[trigger] v[b]).0,
                            (#[trigger] v[a]).0,
                        ),
                    forall|b: int| j < b <= i ==> !address_lt((#[trigger] v[b]).0, v[j as int].0),
                    done ==> j > 0 && !address_lt(v[j as int].0, v[j - 1].0),
                decreases j + (if done {
                    0int
                } else {
                    1int
                }),
            {
                let prev = v[j - 1];
                let curr = v[j];
                if !curr.0.precedes(&prev.0) {
                    done = true;
                } else {
                    proof {
                        lemma_swap_multiset(v@, j - 1, j as int);
                        lemma_address_order(curr.0, prev.0, curr.0);
                    }
                    v.set(j - 1, curr);
                    v.set(j, prev);
                    j = j - 1;
                }
            }
            proof {
                assert forall|a: int, b: int| 0 <= a < b <= i implies !address_lt(
                    (#[trigger] v[b]).0,
                    (#[trigger] v[a]).0,
                ) by {
                    if b == j && a < j {
                        let k = j - 1;
                        lemma_address_order(v[b].0, v[k].0, v[a].0);
                        lemma_address_order(v[a].0, v[b].0, v[k].0);
                        lemma_address_order(v[b].0, v[a].0, v[k].0);
                    }
                }
            }
            i = i + 1;
        }
    }
    proof {
        let r = v@;
        assert(keyed.no_duplicates());
        keyed.lemma_multiset_has_no_duplicates();
        r.lemma_multiset_has_no_duplicates_conv();
        assert forall|k: int| 0 <= k < r.len() implies (#[trigger] r[k]).1 < participants.len()
            && r[k].0 == participants@[r[k].1 as int] by {
            assert(r.to_multiset().count(r[k]) > 0);
            assert(keyed.contains(r[k]));
            let q = choose|q: int| 0 <= q < keyed.len() && keyed[q] == r[k];
        }
        assert forall|k: int, l: int| 0 <= k < l < r.len() implies (#[trigger] r[k]).1 != (
        #[trigger] r[l]).1 by {
            assert(r[k] != r[l]);
        }
        assert forall|j: int| 0 <= j < participants.len() implies #[trigger] index_covers(r, j) by {
            assert(keyed[j] == (participants@[j], j as usize));
            assert(keyed.to_multiset().count(keyed[j]) > 0);
            assert(r.contains(keyed[j]));
            let k = choose|k: int| 0 <= k < r.len() && r[k] == keyed[j];
            assert(r[k].1 == j);
        }
        if n < 2 {
            assert forall|k: int, l: int| 0 <= k < l < r.len() implies !address_lt(
                (#[trigger] r[l]).0,
                (#[trigger] r[k]).0,
            ) by {}
        }
    }
    v
}

/// The first position of `index` whose address is not before `key`.
pub fn first_not_before(index: &Vec<(Address, usize)>, key: &Address) -> (lo: usize)
    requires
        forall|k: int, l: int|
            0 <= k < l < index.len() ==> !address_lt((#[trigger] index[l]).0, (#[trigger] index[k]).0),
    ensures
        lo <= index.len(),
        forall|k: int| 0 <= k < lo ==> address_lt((#[trigger] index[k]).0, *key),
        forall|k: int| lo <= k < index.len() ==> !address_lt((#[trigger] index[k]).0, *key),
{
    let mut lo: usize = 0;
    let mut hi: usize = index.len();
    while lo < hi
        invariant
            lo <= hi <= index.len(),
            forall|k: int, l: int|
                0 <= k < l < index.len() ==> !address_lt(
                    (#[trigger] index[l]).0,
                    (#[trigger] index[k]).0,
                ),
            forall|k: int| 0 <= k < lo ==> address_lt((#[trigger] index[k]).0, *key),
            forall|k: int| hi <= k < index.len() ==> !address_lt((#[trigger] index[k]).0, *key),
        decreases hi - lo,
    {
        let mid = lo + (hi - lo) / 2;
        if index[mid].0.precedes(key) {
            proof {
                assert forall|k: int| 0 <= k <= mid implies address_lt((#[trigger] index[k]).0, *key) by {
                    lemma_address_order(index[k].0, index[mid as int].0, *key);
                    lemma_address_order(index[mid as int].0, index[k].0, *key);
                }
            }
            lo = mid + 1;
        } else {
            proof {
                assert forall|k: int| mid <= k < index.len() implies !address_lt(
                    (#[trigger] index[k]).0,
                    *key,
                ) by {
                    lemma_address_order(index[k].0, index[mid as int].0, *key);
                    lemma_address_order(index[mid as int].0, index[k].0, *key);
                }
            }
            hi = mid;
        }
    }
    lo
}

} // verus!
