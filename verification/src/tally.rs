//! Per-category tally of simulated games.
//!
//! A tally maps every one of the nine categories to how many games fell
//! in it and to the sum of their scores. The map is dense: it is stored
//! as two nine-entry tables indexed by the category's ordinal, so every
//! category is present from the start and absence is not representable.

use vstd::prelude::*;
use crate::hand::Hand;
use crate::hand::hand_ordinal;
use crate::hand::hand_of_ordinal;
use crate::hand::min_score;
use crate::hand::max_score;
use crate::hand::lemma_max_score_bound;

verus! {

/// Sum of the first `n` entries of a count table.
pub open spec fn sum_counts_upto(c: Seq<u64>, n: int) -> int
    decreases n,
{
    if n <= 0 {
        0
    } else {
        sum_counts_upto(c, n - 1) + c[n - 1]
    }
}

/// A prefix sum of counts is never negative.
proof fn lemma_sum_upto_nonneg(c: Seq<u64>, n: int)
    requires
        n <= c.len(),
    ensures
        sum_counts_upto(c, n) >= 0,
    decreases n,
{
    if n > 0 {
        lemma_sum_upto_nonneg(c, n - 1);
    }
}

/// Prefix sums of counts grow with the prefix.
proof fn lemma_sum_upto_mono(c: Seq<u64>, i: int, j: int)
    requires
        0 <= i <= j <= c.len(),
    ensures
        sum_counts_upto(c, i) <= sum_counts_upto(c, j),
    decreases j,
{
    if i < j {
        lemma_sum_upto_mono(c, i, j - 1);
    }
}

/// The nine-entry count sum written out entry by entry.
proof fn lemma_sum_unfold9(c: Seq<u64>)
    requires
        c.len() == 9,
    ensures
        sum_counts_upto(c, 9) == c[0] + c[1] + c[2] + c[3] + c[4] + c[5] + c[6] + c[7] + c[8],
{
    assert(sum_counts_upto(c, 0) == 0);
    assert(sum_counts_upto(c, 1) == sum_counts_upto(c, 0) + c[0]);
    assert(sum_counts_upto(c, 2) == sum_counts_upto(c, 1) + c[1]);
    assert(sum_counts_upto(c, 3) == sum_counts_upto(c, 2) + c[2]);
    assert(sum_counts_upto(c, 4) == sum_counts_upto(c, 3) + c[3]);
    assert(sum_counts_upto(c, 5) == sum_counts_upto(c, 4) + c[4]);
    assert(sum_counts_upto(c, 6) == sum_counts_upto(c, 5) + c[5]);
    assert(sum_counts_upto(c, 7) == sum_counts_upto(c, 6) + c[6]);
    assert(sum_counts_upto(c, 8) == sum_counts_upto(c, 7) + c[7]);
    assert(sum_counts_upto(c, 9) == sum_counts_upto(c, 8) + c[8]);
}

/// Tally of games per category: for each category, how many games fell
/// in it and the sum of their scores.
pub struct Tally {
    counts: [u64; 9],
    sums: [i128; 9],
}

impl Tally {
    /// How many recorded games fell in category `h`.
    pub closed spec fn spec_count(self, h: Hand) -> u64 {
        self.counts@[hand_ordinal(h)]
    }

    /// Sum of the scores of the recorded games of category `h`.
    pub closed spec fn spec_sum(self, h: Hand) -> i128 {
        self.sums@[hand_ordinal(h)]
    }

    /// How many games the tally records in all.
    pub closed spec fn spec_total(self) -> int {
        sum_counts_upto(self.counts@, 9)
    }

    /// Well-formed tally: the total fits a count, and each category's
    /// score sum lies between its count times the least and the count
    /// times the greatest score of the category.
    pub closed spec fn wf(self) -> bool {
        &&& self.spec_total() <= u64::MAX
        &&& forall|i: int|
            0 <= i < 9 ==> min_score(hand_of_ordinal(i)) * self.counts@[i] <= #[trigger] self.sums@[i]
                && self.sums@[i] <= max_score(hand_of_ordinal(i)) * self.counts@[i]
    }

    /// A tally never records a negative number of games.
    pub proof fn lemma_total_nonneg(self)
        ensures
            self.spec_total() >= 0,
    {
        lemma_sum_upto_nonneg(self.counts@, 9);
    }

    /// No single category holds more games than the tally in all.
    pub proof fn lemma_count_le_total(self, h: Hand)
        ensures
            self.spec_count(h) <= self.spec_total(),
    {
        lemma_sum_unfold9(self.counts@);
    }

    /// A category's score sum lies between its count times the least and
    /// its count times the greatest score of the category.
    pub proof fn lemma_sum_bounds(self, h: Hand)
        requires
            self.wf(),
        ensures
            min_score(h) * self.spec_count(h) <= self.spec_sum(h) <= max_score(h)
                * self.spec_count(h),
    {
        assert(hand_of_ordinal(hand_ordinal(h)) == h);
    }

    /// The empty tally: every category present, each with count zero and
    /// score sum zero.
    pub fn new() -> (t: Tally)
        ensures
            t.wf(),
            t.spec_total() == 0,
            forall|h: Hand| #[trigger] t.spec_count(h) == 0,
            forall|h: Hand| #[trigger] t.spec_sum(h) == 0,
    {
        let t = Tally { counts: [0, 0, 0, 0, 0, 0, 0, 0, 0], sums: [0, 0, 0, 0, 0, 0, 0, 0, 0] };
        proof {
            lemma_sum_unfold9(t.counts@);
            assert forall|i: int| 0 <= i < 9 implies min_score(hand_of_ordinal(i)) * t.counts@[i]
                <= #[trigger] t.sums@[i] && t.sums@[i] <= max_score(hand_of_ordinal(i))
                * t.counts@[i] by {
                assert(t.counts@[i] == 0);
                assert(min_score(hand_of_ordinal(i)) * 0 == 0) by (nonlinear_arith);
                assert(max_score(hand_of_ordinal(i)) * 0 == 0) by (nonlinear_arith);
            }
        }
        t
    }

    /// Record one game of category `h` with score `value`.
    pub fn record(&mut self, h: Hand, value: u32)
        requires
            old(self).wf(),
            old(self).spec_total() < u64::MAX,
            min_score(h) <= value as int <= max_score(h),
        ensures
            final(self).wf(),
            final(self).spec_total() == old(self).spec_total() + 1,
            final(self).spec_count(h) == old(self).spec_count(h) + 1,
            final(self).spec_sum(h) == old(self).spec_sum(h) + value,
            forall|g: Hand|
                g != h ==> #[trigger] final(self).spec_count(g) == old(self).spec_count(g)
                    && final(self).spec_sum(g) == old(self).spec_sum(g),
    {
        let i = h.ordinal();
        let ghost oldc = self.counts@;
        let ghost olds = self.sums@;
        proof {
            lemma_sum_unfold9(oldc);
            lemma_sum_upto_nonneg(oldc, 9);
            lemma_max_score_bound(h);
            self.lemma_sum_bounds(h);
            assert(min_score(h) * self.counts@[i as int] >= 0) by (nonlinear_arith)
                requires
                    min_score(h) >= 0,
                    self.counts@[i as int] >= 0,
            ;
            assert(max_score(h) * self.counts@[i as int] <= 300000 * self.counts@[i as int]) by (nonlinear_arith)
                requires
                    max_score(h) <= 300000,
                    self.counts@[i as int] >= 0,
            ;
            assert(300000 * self.counts@[i as int] <= 300000 * (u64::MAX as int)) by (nonlinear_arith)
                requires
                    self.counts@[i as int] <= u64::MAX as int,
            ;
        }
        self.counts[i] = self.counts[i] + 1;
        self.sums[i] = self.sums[i] + value as i128;
        proof {
            let fi = i as int;
            lemma_sum_unfold9(self.counts@);
            lemma_max_score_bound(h);
            assert(min_score(h) * (oldc[fi] + 1) == min_score(h) * oldc[fi] + min_score(h))
                by (nonlinear_arith);
            assert(max_score(h) * (oldc[fi] + 1) == max_score(h) * oldc[fi] + max_score(h))
                by (nonlinear_arith);
            assert forall|j: int| 0 <= j < 9 && j != fi implies min_score(hand_of_ordinal(j))
                * self.counts@[j] <= #[trigger] self.sums@[j] && self.sums@[j] <= max_score(
                hand_of_ordinal(j),
            ) * self.counts@[j] by {
                assert(self.counts@[j] == oldc[j]);
                assert(self.sums@[j] == olds[j]);
            }
            assert forall|g: Hand| g != h implies #[trigger] self.spec_count(g) == oldc[hand_ordinal(
                g,
            )] && self.spec_sum(g) == olds[hand_ordinal(g)] by {
                assert(hand_ordinal(g) != hand_ordinal(h));
            }
        }
    }

    /// Add another tally into this one, category by category.
    pub fn merge(&mut self, other: &Tally)
        requires
            old(self).wf(),
            other.wf(),
            old(self).spec_total() + other.spec_total() <= u64::MAX,
        ensures
            final(self).wf(),
            final(self).spec_total() == old(self).spec_total() + other.spec_total(),
            forall|h: Hand| #[trigger]
                final(self).spec_count(h) == old(self).spec_count(h) + other.spec_count(h),
            forall|h: Hand| #[trigger]
                final(self).spec_sum(h) == old(self).spec_sum(h) + other.spec_sum(h),
    {
        let ghost oldc = self.counts@;
        let ghost olds = self.sums@;
        proof {
            lemma_sum_unfold9(oldc);
            lemma_sum_unfold9(other.counts@);
            lemma_sum_upto_nonneg(oldc, 9);
            lemma_sum_upto_nonneg(other.counts@, 9);
        }
        for i in 0..9
            invariant
                self.counts@.len() == 9,
                self.sums@.len() == 9,
                oldc.len() == 9,
                olds.len() == 9,
                other.wf(),
                forall|j: int| i <= j < 9 ==> self.counts@[j] == oldc[j],
                forall|j: int| i <= j < 9 ==> self.sums@[j] == olds[j],
                forall|j: int|
                    0 <= j < i ==> self.counts@[j] == oldc[j] + other.counts@[j],
                forall|j: int| 0 <= j < i ==> self.sums@[j] == olds[j] + other.sums@[j],
                sum_counts_upto(oldc, 9) + sum_counts_upto(other.counts@, 9) <= u64::MAX,
                sum_counts_upto(oldc, 9) == oldc[0] + oldc[1] + oldc[2] + oldc[3] + oldc[4]
                    + oldc[5] + oldc[6] + oldc[7] + oldc[8],
                sum_counts_upto(other.counts@, 9) == other.counts@[0] + other.counts@[1]
                    + other.counts@[2] + other.counts@[3] + other.counts@[4] + other.counts@[5]
                    + other.counts@[6] + other.counts@[7] + other.counts@[8],
                sum_counts_upto(oldc, 9) >= 0,
                sum_counts_upto(other.counts@, 9) >= 0,
                forall|j: int|
                    0 <= j < 9 ==> min_score(hand_of_ordinal(j)) * oldc[j] <= #[trigger] olds[j]
                        && olds[j] <= max_score(hand_of_ordinal(j)) * oldc[j],
        {
            let fi = i;
            proof {
                let j = fi as int;
                lemma_max_score_bound(hand_of_ordinal(j));
                assert(min_score(hand_of_ordinal(j)) * oldc[j] >= 0) by (nonlinear_arith)
                    requires
                        min_score(hand_of_ordinal(j)) >= 0,
                        oldc[j] >= 0,
                ;
                assert(min_score(hand_of_ordinal(j)) * other.counts@[j] >= 0) by (nonlinear_arith)
                    requires
                        min_score(hand_of_ordinal(j)) >= 0,
                        other.counts@[j] >= 0,
                ;
                assert(max_score(hand_of_ordinal(j)) * oldc[j] <= 300000 * oldc[j])
                    by (nonlinear_arith)
                    requires
                        max_score(hand_of_ordinal(j)) <= 300000,
                        oldc[j] >= 0,
                ;
                assert(max_score(hand_of_ordinal(j)) * other.counts@[j] <= 300000
                    * other.counts@[j]) by (nonlinear_arith)
                    requires
                        max_score(hand_of_ordinal(j)) <= 300000,
                        other.counts@[j] >= 0,
                ;
                assert(300000 * oldc[j] <= 300000 * (u64::MAX as int)) by (nonlinear_arith)
                    requires
                        oldc[j] <= u64::MAX as int,
                ;
                assert(300000 * other.counts@[j] <= 300000 * (u64::MAX as int))
                    by (nonlinear_arith)
                    requires
                        other.counts@[j] <= u64::MAX as int,
                ;
                assert(min_score(hand_of_ordinal(j)) * oldc[j] <= olds[j] && olds[j] <= max_score(
                    hand_of_ordinal(j),
                ) * oldc[j]);
                assert(min_score(hand_of_ordinal(j)) * other.counts@[j] <= other.sums@[j]
                    && other.sums@[j] <= max_score(hand_of_ordinal(j)) * other.counts@[j]);
            }
            self.counts[fi] = self.counts[fi] + other.counts[fi];
            self.sums[fi] = self.sums[fi] + other.sums[fi];
            proof {
                let j = fi as int;
                assert(min_score(hand_of_ordinal(j)) * (oldc[j] + other.counts@[j]) == min_score(
                    hand_of_ordinal(j),
                ) * oldc[j] + min_score(hand_of_ordinal(j)) * other.counts@[j])
                    by (nonlinear_arith);
                assert(max_score(hand_of_ordinal(j)) * (oldc[j] + other.counts@[j]) == max_score(
                    hand_of_ordinal(j),
                ) * oldc[j] + max_score(hand_of_ordinal(j)) * other.counts@[j])
                    by (nonlinear_arith);
            }
        }
        proof {
            lemma_sum_unfold9(self.counts@);
            assert forall|i: int| 0 <= i < 9 implies min_score(hand_of_ordinal(i)) * self.counts@[i]
                <= #[trigger] self.sums@[i] && self.sums@[i] <= max_score(hand_of_ordinal(i))
                * self.counts@[i] by {
                let j = i;
                assert(other.wf());
                assert(min_score(hand_of_ordinal(j)) * other.counts@[j] <= other.sums@[j]
                    <= max_score(hand_of_ordinal(j)) * other.counts@[j]);
                assert(min_score(hand_of_ordinal(j)) * (oldc[j] + other.counts@[j]) == min_score(
                    hand_of_ordinal(j),
                ) * oldc[j] + min_score(hand_of_ordinal(j)) * other.counts@[j])
                    by (nonlinear_arith);
                assert(max_score(hand_of_ordinal(j)) * (oldc[j] + other.counts@[j]) == max_score(
                    hand_of_ordinal(j),
                ) * oldc[j] + max_score(hand_of_ordinal(j)) * other.counts@[j])
                    by (nonlinear_arith);
            }
        }
    }

    /// How many games category `h` holds.
    pub fn count_of(&self, h: Hand) -> (c: u64)
        ensures
            c == self.spec_count(h),
    {
        self.counts[h.ordinal()]
    }

    /// Sum of the scores of the games category `h` holds.
    pub fn sum_of(&self, h: Hand) -> (s: i128)
        ensures
            s == self.spec_sum(h),
    {
        self.sums[h.ordinal()]
    }

    /// How many games the tally records in all: the sum of the nine
    /// per-category counts.
    pub fn total(&self) -> (t: u64)
        requires
            self.wf(),
        ensures
            t as int == self.spec_total(),
    {
        let mut t: u64 = 0;
        for i in 0..9
            invariant
                self.wf(),
                self.counts@.len() == 9,
                t as int == sum_counts_upto(self.counts@, i as int),
        {
            proof {
                lemma_sum_upto_mono(self.counts@, i as int + 1, 9);
                lemma_sum_upto_nonneg(self.counts@, i as int);
            }
            t = t + self.counts[i];
        }
        t
    }
}

} // verus!
