use bartog::card::{get_card_offset, get_card_position, get_rank, get_suit, Spread, Suit};
use bartog::hand::{fresh_deck, Hand};

#[test]
fn suits_and_ranks_cover_the_deck_once() {
    assert_eq!(get_suit(0), Suit::Clubs);
    assert_eq!(get_suit(12), Suit::Clubs);
    assert_eq!(get_suit(13), Suit::Diamonds);
    assert_eq!(get_suit(26), Suit::Hearts);
    assert_eq!(get_suit(51), Suit::Spades);
    assert_eq!(get_rank(14), 1);
    assert_eq!(get_rank(51), 12);
    let mut seen = std::collections::HashSet::new();
    for c in 0..52u8 {
        assert!(seen.insert((get_suit(c) as u8, get_rank(c))));
    }
    assert_eq!(seen.len(), 52);
}

#[test]
fn card_offset_shares_room_and_is_capped() {
    let ltr = Spread::LTR((24, 104), 98);
    assert_eq!(get_card_offset(ltr, 0), 0);
    assert_eq!(get_card_offset(ltr, 1), 20);
    assert_eq!(get_card_offset(ltr, 5), 12);
    assert_eq!(get_card_offset(ltr, 60), 1);
    let ttb = Spread::TTB((14, 114), 0);
    assert_eq!(get_card_offset(ttb, 5), 14);
    assert_eq!(get_card_offset(ttb, 2), 30);
    let narrow = Spread::LTR((50, 40), 0);
    assert_eq!(get_card_offset(narrow, 3), 0);
}

#[test]
fn card_positions_follow_the_spread() {
    assert_eq!(get_card_position(Spread::LTR((24, 104), 98), 5, 2), (48, 98));
    assert_eq!(get_card_position(Spread::TTB((14, 114), 0), 5, 3), (0, 56));
    assert_eq!(get_card_position(Spread::LTR((250, 255), 7), 1, 200), (250, 7));
    assert_eq!(get_card_position(Spread::LTR((200, 255), 7), 1, 200), (255, 7));
}

#[test]
fn stack_is_one_card_wide() {
    assert_eq!(Spread::stack(40, 49), Spread::LTR((40, 60), 49));
    assert_eq!(Spread::stack(250, 7), Spread::LTR((250, 255), 7));
}

#[test]
fn fresh_deck_is_in_order() {
    assert_eq!(fresh_deck(), (0..52).collect::<Vec<u8>>());
}

#[test]
fn hand_transfers_keep_cards() {
    let mut a = Hand::new(Spread::stack(0, 0));
    let mut b = Hand::new(Spread::stack(0, 0));
    b.draw_from(&mut a);
    assert_eq!(b.len(), 0);
    a.push(5);
    a.push(9);
    a.push(11);
    b.draw_from(&mut a);
    assert_eq!(a.iter(), &[5, 9]);
    assert_eq!(b.iter(), &[11]);
    a.discard_to(&mut b, 7);
    assert_eq!(a.iter(), &[5, 9]);
    a.discard_to(&mut b, 0);
    assert_eq!(a.iter(), &[9]);
    assert_eq!(b.iter(), &[11, 5]);
    assert_eq!(b.draw(), Some(5));
    assert_eq!(a.last(), Some(9));
    assert_eq!(a.get(3), None);
}

#[test]
fn hand_len_saturates() {
    let mut h = Hand::new(Spread::stack(0, 0));
    for i in 0..300u32 {
        h.push((i % 52) as u8);
    }
    assert_eq!(h.len(), 255);
    assert_eq!(h.size(), 300);
}

#[test]
fn remove_if_present_gives_where_the_card_was() {
    let mut h = Hand::new(Spread::LTR((24, 104), 98));
    for c in [3u8, 4, 5, 6, 7] {
        h.push(c);
    }
    let pc = h.remove_if_present(2).unwrap();
    assert_eq!((pc.card, pc.x, pc.y), (5, 48, 98));
    assert_eq!(h.iter(), &[3, 4, 6, 7]);
    assert!(h.remove_if_present(4).is_none());
    assert_eq!(h.size(), 4);
}

#[test]
fn shuffled_deck_and_random_discard_keep_every_card() {
    let mut state = bartog::game_state::GameState::new([7; 16]);
    let mut deck = Hand::new_shuffled_deck(&mut state.rng);
    let mut sorted = deck.iter().to_vec();
    sorted.sort();
    assert_eq!(sorted, (0..52).collect::<Vec<u8>>());
    let mut other = Hand::new(Spread::stack(0, 0));
    deck.discard_randomly_to(&mut other, &mut state.rng);
    assert_eq!(deck.size(), 51);
    assert_eq!(other.size(), 1);
    assert!(!deck.iter().contains(&other.iter()[0]));
}

#[test]
fn shuffled_deck_is_not_in_order_and_follows_the_seed() {
    let mut a = bartog::game_state::GameState::new([1; 16]);
    let mut b = bartog::game_state::GameState::new([1; 16]);
    let mut c = bartog::game_state::GameState::new([2; 16]);
    let da = Hand::new_shuffled_deck(&mut a.rng);
    let db = Hand::new_shuffled_deck(&mut b.rng);
    let dc = Hand::new_shuffled_deck(&mut c.rng);
    assert_ne!(da.iter(), fresh_deck().as_slice());
    assert_eq!(da.iter(), db.iter());
    assert_ne!(da.iter(), dc.iter());
}

#[test]
fn random_discard_from_an_empty_hand_draws_no_number() {
    let mut rng = bartog::game_state::GameState::new([5; 16]).rng;
    let mut copy = rng.clone();
    let mut empty = Hand::new(Spread::stack(0, 0));
    let mut other = Hand::new(Spread::stack(0, 0));
    empty.discard_randomly_to(&mut other, &mut rng);
    assert_eq!(other.size(), 0);
    assert_eq!(
        Hand::new_shuffled_deck(&mut rng).iter(),
        Hand::new_shuffled_deck(&mut copy).iter()
    );
}

#[test]
fn set_spread_keeps_the_cards() {
    let mut h = Hand::new(Spread::stack(0, 0));
    h.push(4);
    h.set_spread(Spread::TTB((14, 114), 0));
    assert_eq!(h.spread(), Spread::TTB((14, 114), 0));
    assert_eq!(h.iter(), &[4]);
}
