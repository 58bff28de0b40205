//! Face counts of a dice configuration.
//!
//! A hand is five dice, each showing a face 0..5. Classification depends
//! only on how many dice show each face, never on the order of the dice:
//! the face-count multiset is the canonical form of a hand.

use vstd::prelude::*;

verus! {

/// A well-formed hand: five dice, each face between 0 and 5.
pub open spec fn valid_dice(s: Seq<i8>) -> bool {
    &&& s.len() == 5
    &&& forall|i: int| 0 <= i < s.len() ==> 0 <= #[trigger] s[i] <= 5
}

/// How many dice of the hand show face `f`.
pub open spec fn count_face(s: Seq<i8>, f: int) -> nat
    decreases s.len(),
{
    if s.len() == 0 {
        0
    } else {
        count_face(s.drop_last(), f) + if s.last() as int == f {
            1nat
        } else {
            0nat
        }
    }
}

/// No face is shown by more dice than the hand has.
pub proof fn lemma_count_le_len(s: Seq<i8>, f: int)
    ensures
        count_face(s, f) <= s.len(),
    decreases s.len(),
{
    if s.len() > 0 {
        lemma_count_le_len(s.drop_last(), f);
    }
}

/// Appending one die raises exactly that die's face count by one.
pub proof fn lemma_count_push(s: Seq<i8>, x: i8, f: int)
    ensures
        count_face(s.push(x), f) == count_face(s, f) + if x as int == f {
            1int
        } else {
            0int
        },
{
    assert(s.push(x).drop_last() =~= s);
}

/// Sum of the face counts over the faces `lo..6`.
pub open spec fn sum_counts(s: Seq<i8>, lo: int) -> int
    decreases 6 - lo,
{
    if lo >= 6 {
        0
    } else {
        count_face(s, lo) + sum_counts(s, lo + 1)
    }
}

/// Dropping the last die lowers the count sum by one when its face lies in
/// `lo..6`, and not at all otherwise.
proof fn lemma_sum_counts_drop(s: Seq<i8>, lo: int)
    requires
        s.len() > 0,
    ensures
        lo <= s.last() as int && (s.last() as int) < 6 ==> sum_counts(s, lo) == sum_counts(
            s.drop_last(),
            lo,
        ) + 1,
        !(lo <= s.last() as int && (s.last() as int) < 6) ==> sum_counts(s, lo) == sum_counts(
            s.drop_last(),
            lo,
        ),
    decreases 6 - lo,
{
    if lo < 6 {
        lemma_sum_counts_drop(s, lo + 1);
    }
}

/// The face counts of a well-formed sequence of dice sum to its length.
pub proof fn lemma_total_count(s: Seq<i8>)
    requires
        forall|i: int| 0 <= i < s.len() ==> 0 <= #[trigger] s[i] <= 5,
    ensures
        sum_counts(s, 0) == s.len(),
    decreases s.len(),
{
    if s.len() == 0 {
        lemma_sum_unfold(s);
    } else {
        let t = s.drop_last();
        assert(forall|i: int| 0 <= i < t.len() ==> 0 <= #[trigger] t[i] <= 5);
        lemma_total_count(t);
        lemma_sum_counts_drop(s, 0);
        assert(0 <= s.last() as int && (s.last() as int) < 6);
    }
}

/// The count sum written out face by face.
pub proof fn lemma_sum_unfold(s: Seq<i8>)
    ensures
        sum_counts(s, 0) == count_face(s, 0) + count_face(s, 1) + count_face(s, 2) + count_face(
            s,
            3,
        ) + count_face(s, 4) + count_face(s, 5),
{
    assert(sum_counts(s, 6) == 0);
    assert(sum_counts(s, 5) == count_face(s, 5) + sum_counts(s, 6));
    assert(sum_counts(s, 4) == count_face(s, 4) + sum_counts(s, 5));
    assert(sum_counts(s, 3) == count_face(s, 3) + sum_counts(s, 4));
    assert(sum_counts(s, 2) == count_face(s, 2) + sum_counts(s, 3));
    assert(sum_counts(s, 1) == count_face(s, 1) + sum_counts(s, 2));
    assert(sum_counts(s, 0) == count_face(s, 0) + sum_counts(s, 1));
}

/// The face count agrees with the multiset view of the hand.
pub proof fn lemma_count_eq_multiset(s: Seq<i8>, f: int)
    requires
        -128 <= f <= 127,
    ensures
        count_face(s, f) == s.to_multiset().count(f as i8),
    decreases s.len(),
{
    broadcast use vstd::multiset::group_multiset_axioms;

    s.to_multiset_ensures();
    if s.len() == 0 {
        assert(s.to_multiset().len() == 0);
        assert(s.to_multiset().count(f as i8) <= s.to_multiset().len());
    } else {
        let t = s.drop_last();
        lemma_count_eq_multiset(t, f);
        t.to_multiset_ensures();
        assert(t.push(s.last()) =~= s);
        assert(s.to_multiset() =~= t.to_multiset().insert(s.last()));
    }
}

/// Two hands with the same multiset of faces have the same face counts:
/// the counts, and so the classification built on them, are invariant
/// under any permutation of the dice.
pub proof fn lemma_counts_permutation(s1: Seq<i8>, s2: Seq<i8>)
    requires
        s1.to_multiset() == s2.to_multiset(),
    ensures
        forall|f: int| 0 <= f < 6 ==> count_face(s1, f) == count_face(s2, f),
{
    assert forall|f: int| 0 <= f < 6 implies count_face(s1, f) == count_face(s2, f) by {
        lemma_count_eq_multiset(s1, f);
        lemma_count_eq_multiset(s2, f);
    }
}

} // verus!
