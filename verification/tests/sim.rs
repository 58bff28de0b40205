use dice_poker::play;
use dice_poker::reduce;
use dice_poker::roll;
use dice_poker::run_games;
use dice_poker::Hand;
use dice_poker::HoldPattern;
use dice_poker::Tally;

#[test]
fn roll_stays_on_the_die() {
    for _ in 0..10000 {
        let r = roll();
        assert!((0..=5).contains(&r));
    }
}

#[test]
fn roll_reaches_every_face() {
    let mut seen = [false; 6];
    for _ in 0..10000 {
        seen[roll() as usize] = true;
    }
    assert!(seen.iter().all(|&s| s));
}

#[test]
fn play_records_exactly_n_games() {
    let t = play(&HoldPattern::roll_all(), 2000);
    assert_eq!(t.total(), 2000);
    let mut by_hand: u64 = 0;
    for h in Hand::all() {
        by_hand += t.count_of(h);
    }
    assert_eq!(by_hand, 2000);
}

#[test]
fn orphan_pattern_keeps_both_pairs() {
    // seed [3,3,4,4,5] with only the last die re-rolled: every game holds
    // at least the two pairs, so only DoblePareja and Full can come up
    let t = play(&HoldPattern::reroll_orphan(), 1000);
    assert_eq!(t.total(), 1000);
    assert_eq!(
        t.count_of(Hand::DoblePareja) + t.count_of(Hand::Full),
        1000
    );
    assert_eq!(t.count_of(Hand::Violin), 0);
    assert_eq!(t.count_of(Hand::Pareja), 0);
    assert_eq!(t.count_of(Hand::Repoker), 0);
}

#[test]
fn save_ace_pattern_never_sees_a_low_straight() {
    // the held six rules out the hand 1..5 of faces 0..4
    let t = play(&HoldPattern::save_ace(), 3000);
    assert_eq!(t.total(), 3000);
    assert_eq!(t.count_of(Hand::EscaleraMenor), 0);
}

#[test]
fn run_games_totals_rounds_times_games() {
    let t = run_games(&HoldPattern::roll_all(), 4, 250);
    assert_eq!(t.total(), 1000);
}

#[test]
fn reduce_merges_a_batch() {
    let mut parts: Vec<Tally> = Vec::new();
    for _ in 0..4 {
        parts.push(play(&HoldPattern::roll_all(), 500));
    }
    let whole = reduce(&parts);
    assert_eq!(whole.total(), 2000);
    for h in Hand::all() {
        let mut count: u64 = 0;
        let mut sum: i128 = 0;
        for p in &parts {
            count += p.count_of(h);
            sum += p.sum_of(h);
        }
        assert_eq!(whole.count_of(h), count);
        assert_eq!(whole.sum_of(h), sum);
    }
}

#[test]
fn roll_all_distribution_is_roughly_uniform() {
    // with 200_000 games the pareja share must lie well within a few
    // points of its exact probability 3600/7776
    let games: u64 = 200_000;
    let t = play(&HoldPattern::roll_all(), games);
    let pareja = t.count_of(Hand::Pareja) as f64 / games as f64;
    assert!((pareja - 3600.0 / 7776.0).abs() < 0.02);
    let repoker = t.count_of(Hand::Repoker) as f64 / games as f64;
    assert!(repoker < 0.01);
}
