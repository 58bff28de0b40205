use dice_poker::get_hand;
use dice_poker::Hand;

// Exact distribution over all 6^5 = 7776 equally likely hands, counted by
// walking every hand once.
#[test]
fn exact_reference_distribution() {
    let mut counts = [0u64; 9];
    for a in 0..6i8 {
        for b in 0..6i8 {
            for c in 0..6i8 {
                for d in 0..6i8 {
                    for e in 0..6i8 {
                        let (h, _) = get_hand([a, b, c, d, e]);
                        counts[h.ordinal()] += 1;
                    }
                }
            }
        }
    }
    assert_eq!(counts.iter().sum::<u64>(), 7776);
    assert_eq!(counts[Hand::Violin.ordinal()], 480);
    assert_eq!(counts[Hand::Pareja.ordinal()], 3600);
    assert_eq!(counts[Hand::DoblePareja.ordinal()], 1800);
    assert_eq!(counts[Hand::Trio.ordinal()], 1200);
    assert_eq!(counts[Hand::EscaleraMenor.ordinal()], 120);
    assert_eq!(counts[Hand::EscaleraMayor.ordinal()], 120);
    assert_eq!(counts[Hand::Full.ordinal()], 300);
    assert_eq!(counts[Hand::Poker.ordinal()], 150);
    assert_eq!(counts[Hand::Repoker.ordinal()], 6);
}

// Within a category, scores strictly follow the defining faces: spot
// checks of the lexicographic order.
#[test]
fn score_orders_within_category() {
    // pareja: pair face first, then kicker
    assert!(get_hand([0, 0, 1, 2, 3]).1 < get_hand([0, 0, 1, 2, 4]).1);
    assert!(get_hand([0, 0, 1, 2, 4]).1 < get_hand([1, 1, 0, 2, 3]).1);
    // trio: trio face first, then kicker
    assert!(get_hand([2, 2, 2, 0, 1]).1 < get_hand([2, 2, 2, 0, 3]).1);
    assert!(get_hand([2, 2, 2, 4, 5]).1 < get_hand([3, 3, 3, 0, 1]).1);
    // poker: poker face first, then kicker
    assert!(get_hand([1, 1, 1, 1, 0]).1 < get_hand([1, 1, 1, 1, 2]).1);
    assert!(get_hand([1, 1, 1, 1, 5]).1 < get_hand([2, 2, 2, 2, 0]).1);
    // full: trio face first, then pair face
    assert!(get_hand([1, 1, 1, 0, 0]).1 < get_hand([1, 1, 1, 2, 2]).1);
    assert!(get_hand([1, 1, 1, 5, 5]).1 < get_hand([2, 2, 2, 0, 0]).1);
    // repoker: the face alone
    assert!(get_hand([3, 3, 3, 3, 3]).1 < get_hand([4, 4, 4, 4, 4]).1);
    // double pair: sum of the pairs first, then kicker
    assert!(get_hand([0, 0, 1, 1, 2]).1 < get_hand([0, 0, 1, 1, 3]).1);
    assert!(get_hand([0, 0, 3, 3, 4]).1 < get_hand([1, 1, 3, 3, 0]).1);
}
