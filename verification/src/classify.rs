//! The hand classifier and scorer.
//!
//! A hand of five dice is classified into one of the nine categories and
//! given a numeric score. Both are functions of the face counts alone.
//! The score formulas follow the fixed multipliers 50000 / 4000 / 300 /
//! 20 / 1, so that within a category the score orders hands by their
//! defining faces.

use vstd::prelude::*;
use crate::hand::Hand;
use crate::hand::min_score;
use crate::hand::max_score;
use crate::counts::valid_dice;
use crate::counts::count_face;
use crate::counts::lemma_count_le_len;
use crate::counts::lemma_count_push;
use crate::counts::lemma_sum_unfold;
use crate::counts::lemma_total_count;
use crate::counts::lemma_counts_permutation;

verus! {

/// Least face in `lo..6` shown by exactly `c` dice, or -1 if there is none.
pub open spec fn first_face_from(s: Seq<i8>, c: nat, lo: int) -> int
    decreases 6 - lo,
{
    if lo >= 6 {
        -1
    } else if count_face(s, lo) == c {
        lo
    } else {
        first_face_from(s, c, lo + 1)
    }
}

/// Greatest face in `0..=hi` shown by exactly `c` dice, or -1 if there is none.
pub open spec fn last_face_from(s: Seq<i8>, c: nat, hi: int) -> int
    decreases hi + 1,
{
    if hi < 0 {
        -1
    } else if count_face(s, hi) == c {
        hi
    } else {
        last_face_from(s, c, hi - 1)
    }
}

/// The face shown by all five dice, or -1.
pub open spec fn repoker_face(s: Seq<i8>) -> int {
    first_face_from(s, 5, 0)
}

/// The face shown by exactly four dice, or -1.
pub open spec fn poker_face(s: Seq<i8>) -> int {
    first_face_from(s, 4, 0)
}

/// The face shown by exactly three dice, or -1.
pub open spec fn trio_face(s: Seq<i8>) -> int {
    first_face_from(s, 3, 0)
}

/// The least face shown by exactly two dice, or -1.
pub open spec fn pair1_face(s: Seq<i8>) -> int {
    first_face_from(s, 2, 0)
}

/// The second-least face shown by exactly two dice, or -1.
pub open spec fn pair2_face(s: Seq<i8>) -> int {
    if pair1_face(s) >= 0 {
        first_face_from(s, 2, pair1_face(s) + 1)
    } else {
        -1
    }
}

/// The greatest face shown by exactly one die, or -1: the kicker.
pub open spec fn kicker_face(s: Seq<i8>) -> int {
    last_face_from(s, 1, 5)
}

/// What the high straight demands of face `f`: face 0 absent, every other
/// face shown exactly once.
pub open spec fn high_straight_ok(s: Seq<i8>, f: int) -> bool {
    if f == 0 {
        count_face(s, 0) == 0
    } else {
        count_face(s, f) == 1
    }
}

/// What the low straight demands of face `f`: face 5 absent, every other
/// face shown exactly once.
pub open spec fn low_straight_ok(s: Seq<i8>, f: int) -> bool {
    if f == 5 {
        count_face(s, 5) == 0
    } else {
        count_face(s, f) == 1
    }
}

/// The hand is a permutation of the faces 1..=5.
pub open spec fn straight_high(s: Seq<i8>) -> bool {
    forall|f: int| 0 <= f < 6 ==> high_straight_ok(s, f)
}

/// The hand is a permutation of the faces 0..=4.
pub open spec fn straight_low(s: Seq<i8>) -> bool {
    forall|f: int| 0 <= f < 6 ==> low_straight_ok(s, f)
}

/// Category of a hand: the first match, in decreasing priority, of
/// five equal faces, four, three plus a pair, three, two pairs, one pair,
/// the high straight, the low straight, and the null hand.
pub open spec fn spec_hand(s: Seq<i8>) -> Hand {
    if repoker_face(s) >= 0 {
        Hand::Repoker
    } else if poker_face(s) >= 0 {
        Hand::Poker
    } else if trio_face(s) >= 0 && pair1_face(s) >= 0 {
        Hand::Full
    } else if trio_face(s) >= 0 {
        Hand::Trio
    } else if pair1_face(s) >= 0 && pair2_face(s) >= 0 {
        Hand::DoblePareja
    } else if pair1_face(s) >= 0 {
        Hand::Pareja
    } else if straight_high(s) {
        Hand::EscaleraMayor
    } else if straight_low(s) {
        Hand::EscaleraMenor
    } else {
        Hand::Violin
    }
}

/// Score of a hand. A face worth is its value plus one (faces are shown
/// as 1..6); the category fixes the multipliers.
pub open spec fn spec_score(s: Seq<i8>) -> int {
    if repoker_face(s) >= 0 {
        (repoker_face(s) + 1) * 50000
    } else if poker_face(s) >= 0 {
        (poker_face(s) + 1) * 4000 + kicker_face(s) + 1
    } else if trio_face(s) >= 0 && pair1_face(s) >= 0 {
        (trio_face(s) + 1) * 300 + (pair1_face(s) + 1) * 20
    } else if trio_face(s) >= 0 {
        (trio_face(s) + 1) * 300 + kicker_face(s) + 1
    } else if pair1_face(s) >= 0 && pair2_face(s) >= 0 {
        (pair1_face(s) + 1) * 20 + (pair2_face(s) + 1) * 20 + kicker_face(s) + 1
    } else if pair1_face(s) >= 0 {
        (pair1_face(s) + 1) * 20 + kicker_face(s) + 1
    } else if straight_high(s) || straight_low(s) {
        1
    } else {
        0
    }
}

/// What `first_face_from` returns: -1 when no face of `lo..6` has count
/// `c`, else the least such face.
pub proof fn lemma_first_face_char(s: Seq<i8>, c: nat, lo: int)
    requires
        0 <= lo,
    ensures
        first_face_from(s, c, lo) == -1 ==> forall|f: int|
            lo <= f < 6 ==> count_face(s, f) != c,
        first_face_from(s, c, lo) != -1 ==> lo <= first_face_from(s, c, lo) < 6 && count_face(
            s,
            first_face_from(s, c, lo),
        ) == c && forall|f: int| lo <= f < first_face_from(s, c, lo) ==> count_face(s, f) != c,
    decreases 6 - lo,
{
    if lo < 6 && count_face(s, lo) != c {
        lemma_first_face_char(s, c, lo + 1);
    }
}

/// What `last_face_from` returns: -1 when no face of `0..=hi` has count
/// `c`, else the greatest such face.
pub proof fn lemma_last_face_char(s: Seq<i8>, c: nat, hi: int)
    requires
        hi <= 5,
    ensures
        last_face_from(s, c, hi) == -1 ==> forall|f: int|
            0 <= f <= hi ==> count_face(s, f) != c,
        last_face_from(s, c, hi) != -1 ==> 0 <= last_face_from(s, c, hi) <= hi && count_face(
            s,
            last_face_from(s, c, hi),
        ) == c && forall|f: int| last_face_from(s, c, hi) < f <= hi ==> count_face(s, f) != c,
    decreases hi + 1,
{
    if hi >= 0 && count_face(s, hi) != c {
        lemma_last_face_char(s, c, hi - 1);
    }
}

/// The arithmetic of a well-formed hand's counts: they sum to five, each
/// is at most five.
pub proof fn lemma_counts_facts(s: Seq<i8>)
    requires
        valid_dice(s),
    ensures
        count_face(s, 0) + count_face(s, 1) + count_face(s, 2) + count_face(s, 3) + count_face(
            s,
            4,
        ) + count_face(s, 5) == 5,
        forall|f: int| #[trigger] count_face(s, f) <= 5,
{
    lemma_sum_unfold(s);
    lemma_total_count(s);
    assert forall|f: int| #[trigger] count_face(s, f) <= 5 by {
        lemma_count_le_len(s, f);
    }
}

/// Wherever the score table asks for a kicker, the hand has one: a face
/// shown by exactly one die, of which the kicker is the greatest.
pub proof fn lemma_kicker_defined(s: Seq<i8>)
    requires
        valid_dice(s),
        spec_hand(s) is Poker || spec_hand(s) is Trio || spec_hand(s) is DoblePareja
            || spec_hand(s) is Pareja,
    ensures
        0 <= kicker_face(s) < 6,
        count_face(s, kicker_face(s)) == 1,
        forall|f: int| kicker_face(s) < f < 6 ==> count_face(s, f) != 1,
{
    lemma_counts_facts(s);
    lemma_first_face_char(s, 5, 0);
    lemma_first_face_char(s, 4, 0);
    lemma_first_face_char(s, 3, 0);
    lemma_first_face_char(s, 2, 0);
    if pair1_face(s) >= 0 {
        lemma_first_face_char(s, 2, pair1_face(s) + 1);
    }
    assert(exists|f: int| 0 <= f < 6 && count_face(s, f) == 1);
    lemma_last_face_char(s, 1, 5);
}

/// The greatest face whose entry in the count table is exactly one.
fn find_biggest_single(face_count: [i8; 6]) -> (r: u32)
    requires
        exists|f: int| 0 <= f < 6 && face_count@[f] == 1,
    ensures
        r < 6,
        face_count@[r as int] == 1,
        forall|f: int| r < f < 6 ==> face_count@[f] != 1,
{
    let mut face: usize = 5;
    while face_count[face] != 1
        invariant
            face < 6,
            exists|f: int| 0 <= f <= face && face_count@[f] == 1,
            forall|f: int| face < f < 6 ==> face_count@[f] != 1,
        decreases face,
    {
        assert(face > 0);
        face = face - 1;
    }
    face as u32
}

/// Classify a hand and score it.
///
/// Returns the hand's category together with its score; both depend only
/// on the face counts of the dice, never on their order.
#[verifier::rlimit(50)]
pub fn get_hand(dice: [i8; 5]) -> (res: (Hand, u32))
    requires
        valid_dice(dice@),
    ensures
        res.0 == spec_hand(dice@),
        res.1 as int == spec_score(dice@),
{
    let mut face_count: [i8; 6] = [0, 0, 0, 0, 0, 0];

    for j in 0..5
        invariant
            valid_dice(dice@),
            forall|f: int| 0 <= f < 6 ==> face_count@[f] as int == count_face(
                dice@.take(j as int),
                f,
            ),
    {
        let d = dice[j];
        proof {
            let pre = dice@.take(j as int);
            assert forall|f: int| 0 <= f < 6 implies count_face(pre, f) <= 5 by {
                lemma_count_le_len(pre, f);
            }
            assert(dice@.take(j as int + 1) =~= pre.push(dice@[j as int]));
            assert forall|f: int| 0 <= f < 6 implies count_face(dice@.take(j as int + 1), f)
                == count_face(pre, f) + (if d as int == f {
                1int
            } else {
                0int
            }) by {
                lemma_count_push(pre, dice@[j as int], f);
            }
        }
        face_count[d as usize] = face_count[d as usize] + 1;
    }
    proof {
        assert(dice@.take(5) =~= dice@);
    }

    let mut repoker: i8 = -1;
    let mut poker: i8 = -1;
    let mut trio: i8 = -1;
    let mut pareja1: i8 = -1;
    let mut pareja2: i8 = -1;
    let mut is_escalera_mayor = true;
    let mut is_escalera_menor = true;
    proof {
        lemma_counts_facts(dice@);
    }
    for face in 0..6
        invariant
            valid_dice(dice@),
            forall|f: int| 0 <= f < 6 ==> face_count@[f] as int == count_face(dice@, f),
            count_face(dice@, 0) + count_face(dice@, 1) + count_face(dice@, 2) + count_face(
                dice@,
                3,
            ) + count_face(dice@, 4) + count_face(dice@, 5) == 5,
            forall|f: int| #[trigger] count_face(dice@, f) <= 5,
            repoker == -1 ==> (forall|f: int| 0 <= f < face ==> count_face(dice@, f) != 5),
            repoker != -1 ==> 0 <= repoker < face && count_face(dice@, repoker as int) == 5 && (
            forall|f: int| 0 <= f < repoker ==> count_face(dice@, f) != 5),
            poker == -1 ==> (forall|f: int| 0 <= f < face ==> count_face(dice@, f) != 4),
            poker != -1 ==> 0 <= poker < face && count_face(dice@, poker as int) == 4 && (forall|
                f: int,
            | 0 <= f < poker ==> count_face(dice@, f) != 4),
            trio == -1 ==> (forall|f: int| 0 <= f < face ==> count_face(dice@, f) != 3),
            trio != -1 ==> 0 <= trio < face && count_face(dice@, trio as int) == 3 && (forall|
                f: int,
            | 0 <= f < trio ==> count_face(dice@, f) != 3),
            pareja1 == -1 ==> (forall|f: int| 0 <= f < face ==> count_face(dice@, f) != 2),
            pareja1 != -1 ==> 0 <= pareja1 < face && count_face(dice@, pareja1 as int) == 2 && (
            forall|f: int| 0 <= f < pareja1 ==> count_face(dice@, f) != 2),
            pareja1 != -1 && pareja2 == -1 ==> (forall|f: int|
                pareja1 < f < face ==> count_face(dice@, f) != 2),
            pareja2 != -1 ==> pareja1 != -1 && pareja1 < pareja2 && pareja2 < face && count_face(
                dice@,
                pareja2 as int,
            ) == 2 && (forall|f: int| pareja1 < f < pareja2 ==> count_face(dice@, f) != 2),
            is_escalera_mayor == (forall|f: int| 0 <= f < face ==> high_straight_ok(dice@, f)),
            is_escalera_menor == (forall|f: int|
                0 <= f < face ==> (high_straight_ok(dice@, f) ==> low_straight_ok(dice@, f))),
    {
        let count = face_count[face];
        let ghost old_mayor = is_escalera_mayor;
        let ghost old_menor = is_escalera_menor;
        if count == 5 {
            repoker = face as i8;
        }
        if count == 4 {
            poker = face as i8;
        }
        if count == 3 {
            trio = face as i8;
        } else if count == 2 {
            if pareja1 > -1 {
                pareja2 = face as i8;
            } else {
                pareja1 = face as i8;
            }
        }
        if (face == 0 && count != 0) || (face != 0 && count != 1) {
            is_escalera_mayor = false;
        } else if (face == 5 && count != 0) || (face != 5 && count != 1) {
            is_escalera_menor = false;
        }
        proof {
            let fi = face as int;
            assert(count as int == count_face(dice@, fi));
            assert(is_escalera_mayor == (old_mayor && high_straight_ok(dice@, fi)));
            assert(is_escalera_menor == (old_menor && (high_straight_ok(dice@, fi)
                ==> low_straight_ok(dice@, fi))));
            if is_escalera_mayor {
                assert(forall|f: int| 0 <= f < fi + 1 ==> high_straight_ok(dice@, f));
            } else {
                assert(!(forall|f: int| 0 <= f < fi + 1 ==> high_straight_ok(dice@, f))) by {
                    if forall|f: int| 0 <= f < fi + 1 ==> high_straight_ok(dice@, f) {
                        assert(forall|f: int| 0 <= f < fi ==> high_straight_ok(dice@, f));
                        assert(high_straight_ok(dice@, fi));
                    }
                }
            }
            if is_escalera_menor {
                assert(forall|f: int|
                    0 <= f < fi + 1 ==> (high_straight_ok(dice@, f) ==> low_straight_ok(
                        dice@,
                        f,
                    )));
            } else {
                assert(!(forall|f: int|
                    0 <= f < fi + 1 ==> (high_straight_ok(dice@, f) ==> low_straight_ok(
                        dice@,
                        f,
                    )))) by {
                    if forall|f: int|
                        0 <= f < fi + 1 ==> (high_straight_ok(dice@, f) ==> low_straight_ok(
                            dice@,
                            f,
                        )) {
                        assert(forall|f: int|
                            0 <= f < fi ==> (high_straight_ok(dice@, f) ==> low_straight_ok(
                                dice@,
                                f,
                            )));
                        assert(high_straight_ok(dice@, fi) ==> low_straight_ok(dice@, fi));
                    }
                }
            }
        }
    }

    proof {
        lemma_first_face_char(dice@, 5, 0);
        lemma_first_face_char(dice@, 4, 0);
        lemma_first_face_char(dice@, 3, 0);
        lemma_first_face_char(dice@, 2, 0);
        assert(repoker as int == repoker_face(dice@));
        assert(poker as int == poker_face(dice@));
        assert(trio as int == trio_face(dice@));
        assert(pareja1 as int == pair1_face(dice@));
        if pareja1 > -1 {
            lemma_first_face_char(dice@, 2, pareja1 as int + 1);
            assert(pareja2 as int == pair2_face(dice@));
        } else {
            assert(pareja2 as int == pair2_face(dice@));
        }
        assert(is_escalera_mayor == straight_high(dice@));
    }

    if repoker > -1 {
        let repoker_value = (repoker as u32 + 1) * 50000;
        return (Hand::Repoker, repoker_value);
    }

    if poker > -1 {
        proof {
            assert(spec_hand(dice@) is Poker);
            lemma_kicker_defined(dice@);
            assert(face_count@[kicker_face(dice@)] == 1);
        }
        let poker_value = (poker as u32 + 1) * 4000;
        let single_value = find_biggest_single(face_count) + 1;
        return (Hand::Poker, poker_value + single_value);
    }

    if trio > -1 {
        let trio_value = (trio as u32 + 1) * 300;
        if pareja1 > -1 {
            return (Hand::Full, trio_value + (pareja1 as u32 + 1) * 20);
        } else {
            proof {
                assert(spec_hand(dice@) is Trio);
                lemma_kicker_defined(dice@);
                assert(face_count@[kicker_face(dice@)] == 1);
            }
            let single_value = find_biggest_single(face_count) + 1;
            return (Hand::Trio, trio_value + single_value);
        }
    }

    if pareja1 > -1 {
        if pareja2 > -1 {
            proof {
                assert(spec_hand(dice@) is DoblePareja);
                lemma_kicker_defined(dice@);
                assert(face_count@[kicker_face(dice@)] == 1);
            }
            let pareja1_value = (pareja1 as u32 + 1) * 20;
            let pareja2_value = (pareja2 as u32 + 1) * 20;
            let single_value = find_biggest_single(face_count) + 1;
            return (Hand::DoblePareja, pareja1_value + pareja2_value + single_value);
        } else {
            proof {
                assert(spec_hand(dice@) is Pareja);
                lemma_kicker_defined(dice@);
                assert(face_count@[kicker_face(dice@)] == 1);
            }
            let pareja_value = (pareja1 as u32 + 1) * 20;
            let single_value = find_biggest_single(face_count) + 1;
            return (Hand::Pareja, pareja_value + single_value);
        }
    }

    if is_escalera_mayor {
        return (Hand::EscaleraMayor, 1);
    }

    if is_escalera_menor {
        proof {
            lemma_counts_facts(dice@);
            assert(count_face(dice@, 5) == 0) by {
                if count_face(dice@, 5) == 1 {
                    assert(high_straight_ok(dice@, 5));
                    assert(low_straight_ok(dice@, 5));
                }
            }
            assert(count_face(dice@, 0) == 1 && count_face(dice@, 1) == 1 && count_face(dice@, 2)
                == 1 && count_face(dice@, 3) == 1 && count_face(dice@, 4) == 1);
            assert(straight_low(dice@));
        }
        return (Hand::EscaleraMenor, 1);
    }

    proof {
        assert(!straight_low(dice@)) by {
            if straight_low(dice@) {
                assert(forall|f: int|
                    0 <= f < 6 ==> (high_straight_ok(dice@, f) ==> low_straight_ok(dice@, f)));
                assert(false);
            }
        }
    }
    return (Hand::Violin, 0);
}

/// Equal counts give equal scans of `first_face_from`.
proof fn lemma_first_face_congruence(s1: Seq<i8>, s2: Seq<i8>, c: nat, lo: int)
    requires
        0 <= lo,
        forall|f: int| 0 <= f < 6 ==> count_face(s1, f) == count_face(s2, f),
    ensures
        first_face_from(s1, c, lo) == first_face_from(s2, c, lo),
    decreases 6 - lo,
{
    if lo < 6 {
        lemma_first_face_congruence(s1, s2, c, lo + 1);
    }
}

/// Equal counts give equal scans of `last_face_from`.
proof fn lemma_last_face_congruence(s1: Seq<i8>, s2: Seq<i8>, c: nat, hi: int)
    requires
        hi <= 5,
        forall|f: int| 0 <= f < 6 ==> count_face(s1, f) == count_face(s2, f),
    ensures
        last_face_from(s1, c, hi) == last_face_from(s2, c, hi),
    decreases hi + 1,
{
    if hi >= 0 {
        lemma_last_face_congruence(s1, s2, c, hi - 1);
    }
}

/// Classification is order-invariant: two hands with the same multiset
/// of faces fall in the same category and score the same. In particular
/// any permutation of the dice leaves category and score unchanged.
pub proof fn lemma_classify_permutation(s1: Seq<i8>, s2: Seq<i8>)
    requires
        s1.to_multiset() == s2.to_multiset(),
    ensures
        spec_hand(s1) == spec_hand(s2),
        spec_score(s1) == spec_score(s2),
{
    lemma_counts_permutation(s1, s2);
    lemma_first_face_congruence(s1, s2, 5, 0);
    lemma_first_face_congruence(s1, s2, 4, 0);
    lemma_first_face_congruence(s1, s2, 3, 0);
    lemma_first_face_congruence(s1, s2, 2, 0);
    if pair1_face(s1) >= 0 {
        lemma_first_face_congruence(s1, s2, 2, pair1_face(s1) + 1);
    }
    lemma_last_face_congruence(s1, s2, 1, 5);
    assert(straight_high(s1) ==> straight_high(s2)) by {
        if straight_high(s1) {
            assert forall|f: int| 0 <= f < 6 implies high_straight_ok(s2, f) by {
                assert(high_straight_ok(s1, f));
            }
        }
    }
    assert(straight_high(s2) ==> straight_high(s1)) by {
        if straight_high(s2) {
            assert forall|f: int| 0 <= f < 6 implies high_straight_ok(s1, f) by {
                assert(high_straight_ok(s2, f));
            }
        }
    }
    assert(straight_low(s1) ==> straight_low(s2)) by {
        if straight_low(s1) {
            assert forall|f: int| 0 <= f < 6 implies low_straight_ok(s2, f) by {
                assert(low_straight_ok(s1, f));
            }
        }
    }
    assert(straight_low(s2) ==> straight_low(s1)) by {
        if straight_low(s2) {
            assert forall|f: int| 0 <= f < 6 implies low_straight_ok(s1, f) by {
                assert(low_straight_ok(s2, f));
            }
        }
    }
}

/// The score of every hand lies within the score range of its category.
pub proof fn lemma_score_in_range(s: Seq<i8>)
    requires
        valid_dice(s),
    ensures
        min_score(spec_hand(s)) <= spec_score(s) <= max_score(spec_hand(s)),
{
    lemma_counts_facts(s);
    lemma_first_face_char(s, 5, 0);
    lemma_first_face_char(s, 4, 0);
    lemma_first_face_char(s, 3, 0);
    lemma_first_face_char(s, 2, 0);
    if pair1_face(s) >= 0 {
        lemma_first_face_char(s, 2, pair1_face(s) + 1);
    }
    if spec_hand(s) is Poker || spec_hand(s) is Trio || spec_hand(s) is DoblePareja || spec_hand(
        s,
    ) is Pareja {
        lemma_kicker_defined(s);
    }
}

/// The face that gives a category its score: the face of the five, four
/// or three equal dice, or the least paired face of a single pair.
pub open spec fn main_face(s: Seq<i8>) -> int {
    match spec_hand(s) {
        Hand::Repoker => repoker_face(s),
        Hand::Poker => poker_face(s),
        Hand::Full => trio_face(s),
        Hand::Trio => trio_face(s),
        Hand::Pareja => pair1_face(s),
        _ => -1,
    }
}

/// The category's tie-breaking face: the pair of a full house, else the
/// kicker.
pub open spec fn second_face(s: Seq<i8>) -> int {
    match spec_hand(s) {
        Hand::Poker => kicker_face(s),
        Hand::Full => pair1_face(s),
        Hand::Trio => kicker_face(s),
        Hand::Pareja => kicker_face(s),
        _ => -1,
    }
}

/// Within each of the categories whose score is built from a main face
/// and at most one tie-breaking face, the score strictly increases with
/// the lexicographic order of those faces.
pub proof fn lemma_score_lex_monotone(s1: Seq<i8>, s2: Seq<i8>)
    requires
        valid_dice(s1),
        valid_dice(s2),
        spec_hand(s1) == spec_hand(s2),
        spec_hand(s1) is Repoker || spec_hand(s1) is Poker || spec_hand(s1) is Full || spec_hand(
            s1,
        ) is Trio || spec_hand(s1) is Pareja,
        main_face(s1) < main_face(s2) || (main_face(s1) == main_face(s2) && second_face(s1)
            < second_face(s2)),
    ensures
        spec_score(s1) < spec_score(s2),
{
    lemma_score_in_range_parts(s1);
    lemma_score_in_range_parts(s2);
}

/// The bounds of every score component of a hand.
proof fn lemma_score_in_range_parts(s: Seq<i8>)
    requires
        valid_dice(s),
    ensures
        repoker_face(s) >= 0 ==> 0 <= repoker_face(s) < 6,
        poker_face(s) >= 0 ==> 0 <= poker_face(s) < 6,
        trio_face(s) >= 0 ==> 0 <= trio_face(s) < 6,
        pair1_face(s) >= 0 ==> 0 <= pair1_face(s) < 6,
        pair2_face(s) >= 0 ==> pair1_face(s) < pair2_face(s) < 6,
        spec_hand(s) is Poker || spec_hand(s) is Trio || spec_hand(s) is DoblePareja || spec_hand(
            s,
        ) is Pareja ==> 0 <= kicker_face(s) < 6,
{
    lemma_first_face_char(s, 5, 0);
    lemma_first_face_char(s, 4, 0);
    lemma_first_face_char(s, 3, 0);
    lemma_first_face_char(s, 2, 0);
    if pair1_face(s) >= 0 {
        lemma_first_face_char(s, 2, pair1_face(s) + 1);
    }
    if spec_hand(s) is Poker || spec_hand(s) is Trio || spec_hand(s) is DoblePareja || spec_hand(
        s,
    ) is Pareja {
        lemma_kicker_defined(s);
    }
}

/// Within the two-pair category the score strictly increases with the
/// lexicographic order of (sum of the paired faces, kicker).
pub proof fn lemma_double_pair_score_monotone(s1: Seq<i8>, s2: Seq<i8>)
    requires
        valid_dice(s1),
        valid_dice(s2),
        spec_hand(s1) is DoblePareja,
        spec_hand(s2) is DoblePareja,
        pair1_face(s1) + pair2_face(s1) < pair1_face(s2) + pair2_face(s2) || (pair1_face(s1)
            + pair2_face(s1) == pair1_face(s2) + pair2_face(s2) && kicker_face(s1) < kicker_face(
            s2,
        )),
    ensures
        spec_score(s1) < spec_score(s2),
{
    lemma_score_in_range_parts(s1);
    lemma_score_in_range_parts(s2);
}

} // verus!
