use bartog::card::{get_suit, Suit};
use bartog::rules::{BaseRule, Rules};

#[test]
fn suit_or_rank_with_eights_wild() {
    let r = Rules::new(BaseRule::SuitOrRank);
    assert!(r.is_playable(None, Some(0), 13));
    assert!(r.is_playable(None, Some(0), 1));
    assert!(!r.is_playable(None, Some(0), 14));
    assert!(r.is_playable(None, Some(0), 46));
    assert!(r.is_playable(None, None, 14));
    assert!(r.is_wild_exec(7) && r.is_wild_exec(20) && r.is_wild_exec(33) && r.is_wild_exec(46));
    assert!(!r.is_wild_exec(8));
    assert_eq!(r.skips_exec(10), 0);
}

#[test]
fn suit_only_and_rank_only() {
    let s = Rules::new(BaseRule::SuitOnly);
    assert!(s.is_playable(None, Some(0), 1));
    assert!(!s.is_playable(None, Some(0), 13));
    let k = Rules::new(BaseRule::RankOnly);
    assert!(!k.is_playable(None, Some(0), 1));
    assert!(k.is_playable(None, Some(0), 13));
}

#[test]
fn wild_top_asks_for_the_declared_suit_whatever_the_rank() {
    let r = Rules::new(BaseRule::SuitOrRank);
    for top in [7u8, 20] {
        for candidate in 0..52u8 {
            if r.is_wild_exec(candidate) {
                assert!(r.is_playable(Some(Suit::Spades), Some(top), candidate));
            } else {
                assert_eq!(
                    r.is_playable(Some(Suit::Spades), Some(top), candidate),
                    get_suit(candidate) == Suit::Spades
                );
            }
        }
    }
    // A declared suit matters only on a wild top card.
    assert!(!r.is_playable(Some(Suit::Spades), Some(0), 40));
    assert!(r.is_playable(Some(Suit::Spades), Some(0), 1));
}

#[test]
fn graph_edits_apply_in_order_and_skip_non_cards() {
    let mut r = Rules::new(BaseRule::SuitOrRank);
    r.apply_graph_edits(&vec![(0, 14, true), (60, 1, true), (0, 1, false), (0, 1, true), (0, 2, false)]);
    assert!(r.is_playable(None, Some(0), 14));
    assert!(r.is_playable(None, Some(0), 1));
    assert!(!r.is_playable(None, Some(0), 2));
    assert!(!r.is_playable(None, Some(1), 15));
}

#[test]
fn wild_and_when_played_edits() {
    let mut r = Rules::new(BaseRule::SuitOrRank);
    r.apply_wild_edits(&vec![(0, true), (7, false), (99, true)]);
    assert!(r.is_wild_exec(0));
    assert!(!r.is_wild_exec(7));
    assert!(r.is_playable(None, Some(14), 0));
    assert!(!r.is_playable(None, Some(14), 7));
    r.apply_when_played_edits(&vec![(10, 1), (11, 2), (10, 3), (200, 1)]);
    assert_eq!(r.skips_exec(10), 3);
    assert_eq!(r.skips_exec(11), 2);
    assert_eq!(r.skips_exec(12), 0);
}
