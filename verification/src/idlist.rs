//! Small operations on lists of node ids.
//!
//! Uniqueness and sorting come from itertools, through two functions whose
//! contracts are taken on trust; the rest is verified.

use itertools::Itertools;
use vstd::prelude::*;
use vstd::relations::*;
use vstd::seq_lib::*;

verus! {

/// Ascending order, equal neighbors allowed.
pub open spec fn ascending(ids: Seq<u8>) -> bool {
    forall|i: int, j: int| 0 <= i < j < ids.len() ==> ids[i] <= ids[j]
}

/// `Itertools::all_unique` on the items of a slice: whether no id occurs
/// twice.
#[verifier::external_body]
pub(crate) fn all_unique(ids: &[u8]) -> (r: bool)
    ensures
        r == ids@.no_duplicates(),
{
    ids.iter().all_unique()
}

/// `Itertools::sorted` on the items of a vector: the same ids, each as often
/// as before, in ascending order.
#[verifier::external_body]
pub(crate) fn sorted(ids: Vec<u8>) -> (r: Vec<u8>)
    ensures
        r@.to_multiset() == ids@.to_multiset(),
        ascending(r@),
{
    ids.into_iter().sorted().collect()
}

/// Whether `id` occurs in `ids`.
pub fn contains_id(ids: &[u8], id: u8) -> (r: bool)
    ensures
        r == ids@.contains(id),
{
    let mut i: usize = 0;
    while i < ids.len()
        invariant
            0 <= i <= ids.len(),
            forall|k: int| 0 <= k < i ==> ids@[k] != id,
        decreases ids.len() - i,
    {
        if ids[i] == id {
            return true;
        }
        i += 1;
    }
    false
}

/// Whether two lists hold the same ids in the same order.
pub fn same_ids(a: &Vec<u8>, b: &Vec<u8>) -> (r: bool)
    ensures
        r == (a@ == b@),
{
    if a.len() != b.len() {
        return false;
    }
    let mut i: usize = 0;
    while i < a.len()
        invariant
            0 <= i <= a.len(),
            a.len() == b.len(),
            forall|k: int| 0 <= k < i ==> a@[k] == b@[k],
        decreases a.len() - i,
    {
        if a[i] != b[i] {
            return false;
        }
        i += 1;
    }
    assert(a@ =~= b@);
    true
}

/// Two duplicate-free lists with the same members hold each id equally often.
pub proof fn lemma_same_members_same_multiset(x: Seq<u8>, y: Seq<u8>)
    requires
        x.no_duplicates(),
        y.no_duplicates(),
        forall|a: u8| x.contains(a) <==> y.contains(a),
    ensures
        x.to_multiset() == y.to_multiset(),
{
    x.lemma_multiset_has_no_duplicates();
    y.lemma_multiset_has_no_duplicates();
    x.to_multiset_ensures();
    y.to_multiset_ensures();
    assert forall|a: u8| x.to_multiset().count(a) == y.to_multiset().count(a) by {
        if x.contains(a) {
            assert(x.to_multiset().contains(a));
            assert(y.to_multiset().contains(a));
        }
    }
    assert(x.to_multiset() =~= y.to_multiset());
}

/// Two ascending lists that hold each id equally often are the same list.
pub proof fn lemma_ascending_unique(x: Seq<u8>, y: Seq<u8>)
    requires
        ascending(x),
        ascending(y),
        x.to_multiset() == y.to_multiset(),
    ensures
        x == y,
{
    let leq = |a: u8, b: u8| a <= b;
    assert(sorted_by(x, leq));
    assert(sorted_by(y, leq));
    assert(total_ordering(leq));
    lemma_sorted_unique(x, y, leq);
}

} // verus!
