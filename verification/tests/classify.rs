use dice_poker::get_hand;
use dice_poker::Hand;

#[test]
fn repoker_of_sixes() {
    assert_eq!(get_hand([5, 5, 5, 5, 5]), (Hand::Repoker, 300000));
}

#[test]
fn poker_of_ones_with_two_kicker() {
    assert_eq!(get_hand([0, 0, 0, 0, 1]), (Hand::Poker, 4002));
}

#[test]
fn full_threes_over_fours() {
    assert_eq!(get_hand([2, 2, 2, 3, 3]), (Hand::Full, 980));
}

#[test]
fn trio_of_fives_with_three_kicker() {
    assert_eq!(get_hand([4, 4, 4, 0, 2]), (Hand::Trio, 1503));
}

#[test]
fn double_pair_ones_twos_three_kicker() {
    assert_eq!(get_hand([0, 0, 1, 1, 2]), (Hand::DoblePareja, 63));
}

#[test]
fn high_straight() {
    assert_eq!(get_hand([1, 2, 3, 4, 5]), (Hand::EscaleraMayor, 1));
}

#[test]
fn low_straight() {
    assert_eq!(get_hand([0, 1, 2, 3, 4]), (Hand::EscaleraMenor, 1));
}

#[test]
fn poker_of_sixes_with_five_kicker() {
    assert_eq!(get_hand([5, 5, 5, 5, 4]), (Hand::Poker, 24005));
}

#[test]
fn violin_no_pair_no_straight() {
    assert_eq!(get_hand([0, 2, 3, 4, 5]), (Hand::Violin, 0));
}

#[test]
fn pareja_with_kicker() {
    // pair of sixes, kicker five: 6*20 + 5 = 125, the top of the range
    assert_eq!(get_hand([5, 5, 4, 1, 0]), (Hand::Pareja, 125));
    // pair of ones: the kicker is the greatest of three singletons, so
    // the least reachable pareja is 1*20 + 4 = 24
    assert_eq!(get_hand([0, 0, 1, 2, 3]), (Hand::Pareja, 24));
}

#[test]
fn classification_is_order_invariant() {
    let base = [4, 4, 4, 0, 2];
    let perms = [
        [4, 4, 4, 0, 2],
        [4, 4, 4, 2, 0],
        [0, 4, 4, 4, 2],
        [2, 0, 4, 4, 4],
        [4, 0, 4, 2, 4],
    ];
    let expected = get_hand(base);
    for p in perms {
        assert_eq!(get_hand(p), expected);
    }
    let straight = [
        [1, 2, 3, 4, 5],
        [5, 4, 3, 2, 1],
        [3, 1, 5, 2, 4],
    ];
    for p in straight {
        assert_eq!(get_hand(p), (Hand::EscaleraMayor, 1));
    }
}

#[test]
fn scores_stay_in_category_range() {
    // walk every hand and check the score against the category's range
    for a in 0..6i8 {
        for b in 0..6i8 {
            for c in 0..6i8 {
                for d in 0..6i8 {
                    for e in 0..6i8 {
                        let (h, v) = get_hand([a, b, c, d, e]);
                        assert!(h.min_score_value() <= v);
                        assert!(v <= h.max_score_value());
                    }
                }
            }
        }
    }
}

#[test]
fn extreme_scores_are_reached() {
    assert_eq!(get_hand([0, 0, 0, 1, 1]).1, 340); // least full house
    assert_eq!(get_hand([5, 5, 5, 4, 4]).1, 1900); // greatest full house
    assert_eq!(get_hand([0, 0, 0, 0, 0]).1, 50000); // least repoker
    assert_eq!(get_hand([0, 0, 0, 1, 2]).1, 303); // least reachable trio
    assert_eq!(get_hand([5, 5, 5, 4, 0]).1, 1805); // greatest trio
    assert_eq!(get_hand([4, 4, 5, 5, 3]).1, 224); // greatest double pair
}
