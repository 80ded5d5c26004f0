//! Sorting keeps the order of what has the same rank.
use vstd::prelude::*;

use crate::order::{in_order, lemma_sorted, place, sorted, Ranked};

verus! {

/// Whether two items have the same rank.
pub open spec fn same_rank<T: Ranked>(a: T::V, b: T::V) -> bool {
    !T::ranks_before(a, b) && !T::ranks_before(b, a)
}

/// The items of a list with the rank of one.
pub open spec fn of_rank<T: Ranked>(s: Seq<T::V>, z: T::V) -> Seq<T::V> {
    s.filter(|y: T::V| same_rank::<T>(y, z))
}

/// One more item behind a list.
proof fn lemma_of_rank_push<T: Ranked>(s: Seq<T::V>, x: T::V, z: T::V)
    ensures
        of_rank::<T>(s.push(x), z) == if same_rank::<T>(x, z) {
            of_rank::<T>(s, z).push(x)
        } else {
            of_rank::<T>(s, z)
        },
{
    reveal(Seq::filter);
    assert(s.push(x).drop_last() =~= s);
}

/// An item comes behind those of its rank.
proof fn lemma_place_of_rank<T: Ranked>(s: Seq<T::V>, x: T::V, z: T::V)
    ensures
        of_rank::<T>(place::<T>(s, x), z) == if same_rank::<T>(x, z) {
            of_rank::<T>(s, z).push(x)
        } else {
            of_rank::<T>(s, z)
        },
    decreases s.len(),
{
    lemma_of_rank_push::<T>(s, x, z);
    if s.len() > 0 && T::ranks_before(x, s.last()) {
        let t = s.drop_last();
        let last = s.last();
        lemma_place_of_rank::<T>(t, x, z);
        lemma_of_rank_push::<T>(place::<T>(t, x), last, z);
        lemma_of_rank_push::<T>(t, last, z);
        assert(t.push(last) =~= s);
        if same_rank::<T>(x, z) && same_rank::<T>(last, z) {
            T::lemma_rank(x, z, last);
            T::lemma_rank(last, z, x);
        }
    }
}

/// A sorted list is in order, and the items of one rank stand in it as they stood
/// before: all of them, and in the same order.
pub proof fn law_sorted<T: Ranked>(s: Seq<T::V>, z: T::V)
    ensures
        in_order::<T>(sorted::<T>(s)),
        forall|i: int, j: int|
            0 <= i < j < sorted::<T>(s).len() ==> !T::ranks_before(
                #[trigger] sorted::<T>(s)[j],
                #[trigger] sorted::<T>(s)[i],
            ),
        of_rank::<T>(sorted::<T>(s), z) == of_rank::<T>(s, z),
        sorted::<T>(s).to_multiset() == s.to_multiset(),
    decreases s.len(),
{
    lemma_sorted::<T>(s);
    if s.len() > 0 {
        let t = s.drop_last();
        law_sorted::<T>(t, z);
        lemma_place_of_rank::<T>(sorted::<T>(t), s.last(), z);
        lemma_of_rank_push::<T>(t, s.last(), z);
        assert(t.push(s.last()) =~= s);
    } else {
        assert(sorted::<T>(s) =~= s);
    }
}

} // verus!
