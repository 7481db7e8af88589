//! Sorting, as far as the passes need it.

use vstd::prelude::*;

verus! {

/// The order of pairs of numbers: by the first number, and by the second
/// where the first numbers are equal.
pub open spec fn pair_le(a: (i32, i32), b: (i32, i32)) -> bool {
    a.0 < b.0 || (a.0 == b.0 && a.1 <= b.1)
}

/// `slice::sort_unstable` on pairs of numbers: the same pairs, each as often
/// as before, in ascending order. Pairs are ordered as tuples are: by the
/// first number, then by the second.
#[verifier::external_body]
pub(crate) fn sort_pairs(pairs: &mut Vec<(i32, i32)>)
    ensures
        final(pairs)@.to_multiset() == old(pairs)@.to_multiset(),
        forall|i: int, j: int|
            0 <= i <= j < final(pairs)@.len() ==> pair_le(
                #[trigger] final(pairs)@[i],
                #[trigger] final(pairs)@[j],
            ),
{
    pairs.sort_unstable();
}

/// Pairs that were all different are, once sorted, in strictly ascending
/// order, and they are still the same pairs.
pub proof fn lemma_sorted_distinct(before: Seq<(i32, i32)>, after: Seq<(i32, i32)>)
    requires
        before.no_duplicates(),
        after.to_multiset() == before.to_multiset(),
        forall|i: int, j: int|
            0 <= i <= j < after.len() ==> pair_le(#[trigger] after[i], #[trigger] after[j]),
    ensures
        after.no_duplicates(),
        forall|p: (i32, i32)| after.contains(p) <==> before.contains(p),
        forall|i: int, j: int|
            0 <= i < j < after.len() ==> pair_le(#[trigger] after[i], #[trigger] after[j])
                && after[i] != after[j],
{
    broadcast use vstd::seq_lib::group_to_multiset_ensures;

    before.lemma_multiset_has_no_duplicates();
    after.lemma_multiset_has_no_duplicates_conv();
    assert forall|p: (i32, i32)| after.contains(p) <==> before.contains(p) by {
        assert(after.contains(p) <==> after.to_multiset().count(p) > 0);
        assert(before.contains(p) <==> before.to_multiset().count(p) > 0);
    }
}

} // verus!
