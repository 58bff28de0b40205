use dice_poker::Hand;
use dice_poker::Tally;

#[test]
fn every_category_present_from_the_start() {
    let t = Tally::new();
    assert_eq!(t.total(), 0);
    for h in Hand::all() {
        assert_eq!(t.count_of(h), 0);
        assert_eq!(t.sum_of(h), 0);
    }
}

#[test]
fn record_counts_one_game() {
    let mut t = Tally::new();
    t.record(Hand::Pareja, 22);
    t.record(Hand::Pareja, 125);
    t.record(Hand::Repoker, 300000);
    assert_eq!(t.total(), 3);
    assert_eq!(t.count_of(Hand::Pareja), 2);
    assert_eq!(t.sum_of(Hand::Pareja), 147);
    assert_eq!(t.count_of(Hand::Repoker), 1);
    assert_eq!(t.sum_of(Hand::Repoker), 300000);
    assert_eq!(t.count_of(Hand::Violin), 0);
}

#[test]
fn merge_adds_category_by_category() {
    let mut a = Tally::new();
    a.record(Hand::Trio, 302);
    a.record(Hand::Violin, 0);
    let mut b = Tally::new();
    b.record(Hand::Trio, 1805);
    b.record(Hand::Poker, 4002);
    a.merge(&b);
    assert_eq!(a.total(), 4);
    assert_eq!(a.count_of(Hand::Trio), 2);
    assert_eq!(a.sum_of(Hand::Trio), 2107);
    assert_eq!(a.count_of(Hand::Poker), 1);
    assert_eq!(a.count_of(Hand::Violin), 1);
    assert_eq!(a.count_of(Hand::Repoker), 0);
}

#[test]
fn category_order_and_labels() {
    let all = Hand::all();
    assert_eq!(all.len(), 9);
    assert_eq!(all[0], Hand::Violin);
    assert_eq!(all[8], Hand::Repoker);
    for (i, h) in all.iter().enumerate() {
        assert_eq!(h.ordinal(), i);
    }
    assert_eq!(Hand::EscaleraMayor.name(), "EscaleraMayor");
    assert_eq!(Hand::Violin.name(), "Violin");
}

#[test]
fn score_range_table() {
    assert_eq!(Hand::Violin.min_score_value(), 0);
    assert_eq!(Hand::Violin.max_score_value(), 0);
    assert_eq!(Hand::Pareja.min_score_value(), 22);
    assert_eq!(Hand::Pareja.max_score_value(), 125);
    assert_eq!(Hand::DoblePareja.min_score_value(), 63);
    assert_eq!(Hand::DoblePareja.max_score_value(), 224);
    assert_eq!(Hand::Trio.min_score_value(), 302);
    assert_eq!(Hand::Trio.max_score_value(), 1805);
    assert_eq!(Hand::EscaleraMenor.min_score_value(), 1);
    assert_eq!(Hand::EscaleraMayor.max_score_value(), 1);
    assert_eq!(Hand::Full.min_score_value(), 340);
    assert_eq!(Hand::Full.max_score_value(), 1900);
    assert_eq!(Hand::Poker.min_score_value(), 4002);
    assert_eq!(Hand::Poker.max_score_value(), 24005);
    assert_eq!(Hand::Repoker.min_score_value(), 50000);
    assert_eq!(Hand::Repoker.max_score_value(), 300000);
}
