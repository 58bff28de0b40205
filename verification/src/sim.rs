//! The simulation loop.
//!
//! A hold pattern fixes which dice positions keep their seeded face and
//! which are re-rolled before every game. The play loop rolls the free
//! positions, classifies the hand and tallies it; the driver repeats
//! that over several rounds and merges the tallies.

use vstd::prelude::*;
use rand::Rng;
use crate::hand::Hand;
use crate::counts::valid_dice;
use crate::classify::get_hand;
use crate::classify::spec_hand;
use crate::classify::lemma_score_in_range;
use crate::tally::Tally;

verus! {

/// Relies on rand::Rng::gen_range over the range 0..=5: the sampled
/// value lies in that range. Nothing is assumed about which value of the
/// range comes back.
#[verifier::external_body]
pub fn roll() -> (r: i8)
    ensures
        0 <= r <= 5,
{
    let mut rng = rand::thread_rng();
    rng.gen_range(0..=5)
}

/// Which dice are re-rolled each game: positions from `start` on are
/// re-rolled, positions before it keep the face seeded in `seed`.
pub struct HoldPattern {
    pub start: usize,
    pub seed: [i8; 5],
}

impl HoldPattern {
    /// Well-formed pattern: the held prefix lies within the hand and the
    /// seed is a valid hand.
    pub open spec fn wf(self) -> bool {
        self.start <= 5 && valid_dice(self.seed@)
    }

    /// Re-roll all five dice.
    pub fn roll_all() -> (p: HoldPattern)
        ensures
            p.wf(),
            p.start == 0,
    {
        HoldPattern { start: 0, seed: [5, 5, 5, 5, 5] }
    }

    /// Hold the first die at the top face and re-roll the other four.
    pub fn save_ace() -> (p: HoldPattern)
        ensures
            p.wf(),
            p.start == 1,
            p.seed@[0] == 5,
    {
        HoldPattern { start: 1, seed: [5, 5, 5, 5, 5] }
    }

    /// From a two-pair hand, re-roll only the odd die.
    pub fn reroll_orphan() -> (p: HoldPattern)
        ensures
            p.wf(),
            p.start == 4,
            p.seed@ =~= seq![3i8, 3i8, 4i8, 4i8, 5i8],
    {
        let p = HoldPattern { start: 4, seed: [3, 3, 4, 4, 5] };
        proof {
            assert(p.seed@ =~= seq![3i8, 3i8, 4i8, 4i8, 5i8]);
        }
        p
    }

    /// From the same seed, re-roll the three positions a three-of-a-kind
    /// player would free.
    pub fn reroll_trio_position() -> (p: HoldPattern)
        ensures
            p.wf(),
            p.start == 2,
            p.seed@ =~= seq![3i8, 3i8, 4i8, 4i8, 5i8],
    {
        let p = HoldPattern { start: 2, seed: [3, 3, 4, 4, 5] };
        proof {
            assert(p.seed@ =~= seq![3i8, 3i8, 4i8, 4i8, 5i8]);
        }
        p
    }
}

/// A hand a pattern can produce: a valid hand that keeps the pattern's
/// held faces.
pub open spec fn respects_pattern(s: Seq<i8>, p: HoldPattern) -> bool {
    valid_dice(s) && forall|k: int| 0 <= k < p.start ==> s[k] == p.seed@[k]
}

/// Roll `games` hands under the pattern and tally them.
///
/// Exactly `games` games are recorded, and every category that holds a
/// game was produced by a hand that kept the pattern's held faces.
pub fn play(pattern: &HoldPattern, games: u64) -> (t: Tally)
    requires
        pattern.wf(),
    ensures
        t.wf(),
        t.spec_total() == games,
        forall|h: Hand|
            #[trigger] t.spec_count(h) != 0 ==> exists|s: Seq<i8>|
                #[trigger] respects_pattern(s, *pattern) && spec_hand(s) == h,
{
    let mut t = Tally::new();
    let mut dice = pattern.seed;
    let mut i: u64 = 0;
    while i < games
        invariant
            pattern.wf(),
            t.wf(),
            t.spec_total() == i,
            i <= games,
            valid_dice(dice@),
            forall|k: int| 0 <= k < pattern.start ==> dice@[k] == pattern.seed@[k],
            forall|h: Hand|
                #[trigger] t.spec_count(h) != 0 ==> exists|s: Seq<i8>|
                    #[trigger] respects_pattern(s, *pattern) && spec_hand(s) == h,
        decreases games - i,
    {
        let mut j = pattern.start;
        while j < 5
            invariant
                pattern.wf(),
                pattern.start <= j <= 5,
                valid_dice(dice@),
                forall|k: int| 0 <= k < pattern.start ==> dice@[k] == pattern.seed@[k],
            decreases 5 - j,
        {
            dice[j] = roll();
            j = j + 1;
        }
        let (hand, value) = get_hand(dice);
        proof {
            lemma_score_in_range(dice@);
            assert(respects_pattern(dice@, *pattern));
        }
        t.record(hand, value);
        i = i + 1;
    }
    t
}

/// Roll `rounds` rounds of `games` hands each under the pattern and
/// merge the tallies: exactly `rounds * games` games in all.
pub fn run_games(pattern: &HoldPattern, rounds: u64, games: u64) -> (t: Tally)
    requires
        pattern.wf(),
        rounds * games <= u64::MAX,
    ensures
        t.wf(),
        t.spec_total() == rounds * games,
        forall|h: Hand|
            #[trigger] t.spec_count(h) != 0 ==> exists|s: Seq<i8>|
                #[trigger] respects_pattern(s, *pattern) && spec_hand(s) == h,
{
    let mut t = Tally::new();
    let mut k: u64 = 0;
    while k < rounds
        invariant
            pattern.wf(),
            t.wf(),
            t.spec_total() == k * games,
            k <= rounds,
            rounds * games <= u64::MAX,
            forall|h: Hand|
                #[trigger] t.spec_count(h) != 0 ==> exists|s: Seq<i8>|
                    #[trigger] respects_pattern(s, *pattern) && spec_hand(s) == h,
        decreases rounds - k,
    {
        let part = play(pattern, games);
        proof {
            assert((k + 1) * games == k * games + games) by (nonlinear_arith);
            assert((k + 1) * games <= rounds * games) by (nonlinear_arith)
                requires
                    k + 1 <= rounds,
                    games >= 0,
            ;
        }
        t.merge(&part);
        k = k + 1;
    }
    t
}

/// Number of games recorded by the first `n` tallies together.
pub open spec fn total_of(ts: Seq<Tally>, n: int) -> int
    decreases n,
{
    if n <= 0 {
        0
    } else {
        total_of(ts, n - 1) + ts[n - 1].spec_total()
    }
}

/// Games of category `h` recorded by the first `n` tallies together.
pub open spec fn count_of_all(ts: Seq<Tally>, h: Hand, n: int) -> int
    decreases n,
{
    if n <= 0 {
        0
    } else {
        count_of_all(ts, h, n - 1) + ts[n - 1].spec_count(h)
    }
}

/// Score sums of category `h` over the first `n` tallies together.
pub open spec fn sum_of_all(ts: Seq<Tally>, h: Hand, n: int) -> int
    decreases n,
{
    if n <= 0 {
        0
    } else {
        sum_of_all(ts, h, n - 1) + ts[n - 1].spec_sum(h)
    }
}

/// A prefix of tallies records no more games than the whole of them.
proof fn lemma_total_of_mono(ts: Seq<Tally>, i: int, j: int)
    requires
        0 <= i <= j <= ts.len(),
    ensures
        total_of(ts, i) <= total_of(ts, j),
    decreases j,
{
    if i < j {
        lemma_total_of_mono(ts, i, j - 1);
        ts[j - 1].lemma_total_nonneg();
    }
}

/// Merge a batch of tallies into one: counts, score sums and the total
/// add up category by category.
pub fn reduce(tallies: &Vec<Tally>) -> (t: Tally)
    requires
        forall|i: int| 0 <= i < tallies@.len() ==> (#[trigger] tallies@[i]).wf(),
        total_of(tallies@, tallies@.len() as int) <= u64::MAX,
    ensures
        t.wf(),
        t.spec_total() == total_of(tallies@, tallies@.len() as int),
        forall|h: Hand| #[trigger]
            t.spec_count(h) == count_of_all(tallies@, h, tallies@.len() as int),
        forall|h: Hand| #[trigger] t.spec_sum(h) == sum_of_all(tallies@, h, tallies@.len() as int),
{
    let mut t = Tally::new();
    let n = tallies.len();
    for i in 0..n
        invariant
            n == tallies@.len(),
            forall|k: int| 0 <= k < tallies@.len() ==> (#[trigger] tallies@[k]).wf(),
            total_of(tallies@, tallies@.len() as int) <= u64::MAX,
            t.wf(),
            t.spec_total() == total_of(tallies@, i as int),
            forall|h: Hand| #[trigger] t.spec_count(h) == count_of_all(tallies@, h, i as int),
            forall|h: Hand| #[trigger] t.spec_sum(h) == sum_of_all(tallies@, h, i as int),
    {
        proof {
            lemma_total_of_mono(tallies@, i as int + 1, tallies@.len() as int);
        }
        t.merge(&tallies[i]);
    }
    t
}

} // verus!
