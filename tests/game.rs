use bartog::animation::Action;
use bartog::card::{Card, Suit, DISCARD_X, DISCARD_Y, HUMAN_PLAYER};
use bartog::arrival::most_common_suit;
use bartog::frame::{Choice, Input, Sfx};
use bartog::game_state::{GameState, Status};
use bartog::hand::Hand;
use bartog::rules::BaseRule;

fn pile_mut(state: &mut GameState, k: usize) -> &mut Hand {
    match k {
        0 => &mut state.deck,
        1 => &mut state.discard,
        2 | 3 | 4 => &mut state.cpu_hands[k - 2],
        _ => &mut state.hand,
    }
}

const DECK: usize = 0;
const DISCARD: usize = 1;
const HUMAN: usize = 5;

fn cpu(i: usize) -> usize {
    2 + i
}

/// Moves `card` from wherever it lies onto the pile numbered `to`.
fn move_card(state: &mut GameState, card: Card, to: usize) {
    for k in 0..6 {
        let pile = pile_mut(state, k);
        if let Some(i) = pile.iter().iter().position(|&c| c == card) {
            let pc = pile.remove_if_present(i as u8).unwrap();
            pile_mut(state, to).push(pc.card);
            return;
        }
    }
    panic!("card {} is nowhere", card);
}

/// Moves every card of pile `from` onto pile `to`.
fn empty_pile(state: &mut GameState, from: usize, to: usize) {
    while let Some(c) = pile_mut(state, from).draw() {
        pile_mut(state, to).push(c);
    }
}

fn in_game(seed: u8) -> GameState {
    let mut state = GameState::new([seed; 16]);
    let mut sounds = Vec::new();
    state.update(Input::default(), Some(Choice::BaseRule(BaseRule::SuitOrRank)), &mut sounds);
    state.update(Input::default(), Some(Choice::GraphEdits(vec![])), &mut sounds);
    state.update(Input::default(), Some(Choice::WildEdits(vec![])), &mut sounds);
    state.update(Input::default(), Some(Choice::WhenPlayedEdits(vec![])), &mut sounds);
    assert_eq!(state.status, Status::InGame);
    state
}

fn press_a() -> Input {
    Input { a: true, ..Input::default() }
}

fn press_b() -> Input {
    Input { b: true, ..Input::default() }
}

fn settle(state: &mut GameState, choice: Option<Suit>) {
    let mut sounds = Vec::new();
    for _ in 0..300 {
        if state.card_animations.is_empty() {
            return;
        }
        state.update(Input::default(), choice.map(Choice::Suit), &mut sounds);
    }
}

#[test]
fn new_game_is_dealt_and_complete() {
    let state = GameState::new([3; 16]);
    assert!(state.missing_cards().is_empty());
    assert_eq!(state.deck.size(), 32);
    assert_eq!(state.discard.size(), 0);
    for i in 0..4u8 {
        assert_eq!(state.get_hand(i).size(), 5);
    }
    assert_eq!(state.current_player, HUMAN_PLAYER);
    assert_eq!(state.status, Status::ChooseBaseRule);
    assert!(state.winners.is_empty());
}

#[test]
fn same_seed_same_deal() {
    let a = GameState::new([9; 16]);
    let b = GameState::new([9; 16]);
    assert_eq!(a.deck.iter(), b.deck.iter());
    assert_eq!(a.hand.iter(), b.hand.iter());
}

#[test]
fn missing_cards_names_what_is_gone() {
    let mut state = GameState::new([4; 16]);
    let a = state.deck.draw().unwrap();
    let b = state.hand.draw().unwrap();
    let mut expected = vec![a, b];
    expected.sort();
    assert_eq!(state.missing_cards(), expected);
}

#[test]
fn rule_dialogs_wait_for_their_choice() {
    let mut state = GameState::new([5; 16]);
    let mut sounds = Vec::new();
    state.update(press_a(), None, &mut sounds);
    assert_eq!(state.status, Status::ChooseBaseRule);
    state.update(Input::default(), Some(Choice::Suit(Suit::Hearts)), &mut sounds);
    assert_eq!(state.status, Status::ChooseBaseRule);
    state.update(Input::default(), Some(Choice::BaseRule(BaseRule::RankOnly)), &mut sounds);
    assert_eq!(state.status, Status::ChooseGraphEdits);
    assert!(!state.rules.is_playable(None, Some(0), 1));
    state.update(Input::default(), Some(Choice::GraphEdits(vec![(0, 1, true)])), &mut sounds);
    assert_eq!(state.status, Status::ChooseWildEdits);
    assert!(state.rules.is_playable(None, Some(0), 1));
    state.update(Input::default(), Some(Choice::WildEdits(vec![(7, false)])), &mut sounds);
    assert_eq!(state.status, Status::ChooseWhenPlayedEdits);
    assert!(!state.rules.is_wild_exec(7));
    state.update(Input::default(), Some(Choice::WhenPlayedEdits(vec![(5, 1)])), &mut sounds);
    assert_eq!(state.status, Status::InGame);
    assert_eq!(state.rules.skips_exec(5), 1);
}

#[test]
fn empty_deck_reshuffles_all_but_the_top_discard() {
    let mut state = in_game(6);
    empty_pile(&mut state, DECK, HUMAN);
    for c in [Card::from(30u8), 31, 32] {
        move_card(&mut state, c, DISCARD);
    }
    let drawn = state.draw_card().unwrap();
    assert_eq!(state.discard.iter(), &[32]);
    assert_eq!(state.deck.size(), 1);
    assert!(drawn.card == 30 || drawn.card == 31);
    assert_ne!(state.deck.iter()[0], drawn.card);
    assert!(state.deck.iter()[0] == 30 || state.deck.iter()[0] == 31);
}

#[test]
fn nothing_to_draw_is_a_no_op() {
    let mut state = in_game(7);
    empty_pile(&mut state, DECK, HUMAN);
    move_card(&mut state, 30, DISCARD);
    assert!(state.draw_card().is_none());
    assert!(!state.start_draw(0));
    assert!(state.card_animations.is_empty());
    assert_eq!(state.discard.iter(), &[30]);
}

#[test]
fn emptying_a_hand_wins_in_the_same_update() {
    let mut state = in_game(8);
    while state.hand.size() > 1 {
        let c = state.hand.iter()[0];
        move_card(&mut state, c, DECK);
    }
    state.current_player = HUMAN_PLAYER;
    state.hand_index = 0;
    let mut sounds = Vec::new();
    state.update(press_a(), None, &mut sounds);
    assert_eq!(state.hand.size(), 0);
    assert_eq!(state.winners, vec![HUMAN_PLAYER]);
    assert_eq!(state.current_player, 0);
    assert_eq!(sounds, vec![Sfx::CardSlide]);
}

#[test]
fn cpu_without_a_legal_card_draws_and_passes_on() {
    let mut state = in_game(9);
    // Ace of Clubs on top; CPU 1 holds only diamonds that match neither suit nor rank.
    move_card(&mut state, 0, DISCARD);
    empty_pile(&mut state, cpu(1), DECK);
    for c in [14u8, 15, 16] {
        move_card(&mut state, c, cpu(1));
    }
    state.current_player = 1;
    let deck_before = state.deck.size();
    let top = state.deck.last().unwrap();
    let mut sounds = Vec::new();
    state.update(Input::default(), None, &mut sounds);
    assert_eq!(state.current_player, 2);
    assert_eq!(state.card_animations[0].card.card, top);
    assert_eq!(state.cpu_hands[1].iter(), &[14, 15, 16]);
    assert_eq!(state.deck.size(), deck_before - 1);
    assert_eq!(state.card_animations.len(), 1);
    assert_eq!(state.card_animations[0].completion_action, Action::MoveToHand(1));
    settle(&mut state, None);
    assert_eq!(state.cpu_hands[1].size(), 4);
    assert!(state.missing_cards().is_empty());
}

#[test]
fn cpu_with_a_legal_card_plays_it() {
    let mut state = in_game(10);
    move_card(&mut state, 0, DISCARD);
    empty_pile(&mut state, cpu(0), DECK);
    for c in [14u8, 1, 15] {
        move_card(&mut state, c, cpu(0));
    }
    state.current_player = 0;
    let mut sounds = Vec::new();
    state.update(Input::default(), None, &mut sounds);
    assert_eq!(state.current_player, 1);
    assert_eq!(state.cpu_hands[0].iter(), &[14, 15]);
    assert_eq!(state.card_animations[0].completion_action, Action::MoveToDiscard);
    assert_eq!((state.card_animations[0].x, state.card_animations[0].y), (DISCARD_X, DISCARD_Y));
    settle(&mut state, None);
    assert_eq!(state.discard.last(), Some(1));
    assert!(state.log.visible().iter().any(|l| l == "Cpu 0 played a Two of Clubs"));
}

#[test]
fn human_play_and_draw_hand_the_turn_to_the_first_cpu() {
    let mut state = in_game(11);
    move_card(&mut state, 0, DISCARD);
    move_card(&mut state, 1, HUMAN);
    let index = state.hand.iter().iter().position(|&c| c == 1).unwrap() as u8;
    state.current_player = HUMAN_PLAYER;
    state.hand_index = index;
    let mut sounds = Vec::new();
    state.update(press_a(), None, &mut sounds);
    assert_eq!(state.current_player, 0);
    assert!(!state.hand.iter().contains(&1));
    settle(&mut state, None);
    state.current_player = HUMAN_PLAYER;
    let size = state.hand.size();
    state.update(press_b(), None, &mut sounds);
    assert_eq!(state.current_player, 0);
    settle(&mut state, None);
    assert_eq!(state.hand.size(), size + 1);
    assert!(state.missing_cards().is_empty());
}

#[test]
fn illegal_human_play_does_nothing() {
    let mut state = in_game(12);
    move_card(&mut state, 0, DISCARD);
    empty_pile(&mut state, HUMAN, DECK);
    move_card(&mut state, 14, HUMAN);
    state.current_player = HUMAN_PLAYER;
    state.hand_index = 0;
    let mut sounds = Vec::new();
    state.update(press_a(), None, &mut sounds);
    assert_eq!(state.current_player, HUMAN_PLAYER);
    assert_eq!(state.hand.iter(), &[14]);
    assert!(state.card_animations.is_empty());
    assert!(sounds.is_empty());
}

#[test]
fn cursor_stays_within_the_hand() {
    let mut state = in_game(13);
    state.current_player = HUMAN_PLAYER;
    let mut sounds = Vec::new();
    let right = Input { right: true, ..Input::default() };
    let left = Input { left: true, ..Input::default() };
    for _ in 0..10 {
        state.update(right, None, &mut sounds);
        assert!((state.hand_index as usize) < state.hand.size());
    }
    assert_eq!(state.hand_index as usize, state.hand.size() - 1);
    for _ in 0..10 {
        state.update(left, None, &mut sounds);
    }
    assert_eq!(state.hand_index, 0);
    assert_eq!(sounds.len(), 20);
    assert!(sounds.iter().all(|s| *s == Sfx::ButtonPress));
}

#[test]
fn human_wild_waits_for_a_suit() {
    let mut state = in_game(14);
    empty_pile(&mut state, HUMAN, DECK);
    move_card(&mut state, 7, HUMAN);
    move_card(&mut state, 8, HUMAN);
    state.current_player = HUMAN_PLAYER;
    state.hand_index = 0;
    let mut sounds = Vec::new();
    state.update(press_a(), None, &mut sounds);
    assert_eq!(state.card_animations[0].completion_action, Action::SelectWild(HUMAN_PLAYER));
    settle(&mut state, None);
    assert!(state.awaiting_suit);
    assert_eq!(state.card_animations.len(), 1);
    assert!(state.card_animations[0].is_complete());
    state.update(Input::default(), None, &mut sounds);
    assert_eq!(state.card_animations.len(), 1);
    state.update(Input::default(), Some(Choice::Suit(Suit::Hearts)), &mut sounds);
    assert!(state.card_animations.is_empty());
    assert!(!state.awaiting_suit);
    assert_eq!(state.wild_suit, Some(Suit::Hearts));
    assert_eq!(state.discard.last(), Some(7));
    assert!(state.can_play(27));
    assert!(!state.can_play(8));
    assert_eq!(state.log.len(), 2);
}

#[test]
fn cpu_wild_names_its_most_common_suit() {
    assert_eq!(most_common_suit(&[0, 1, 14, 27, 28]), Suit::Clubs);
    assert_eq!(most_common_suit(&[40, 14, 41]), Suit::Spades);
    assert_eq!(most_common_suit(&[]), Suit::Clubs);
    let mut state = in_game(15);
    move_card(&mut state, 0, DISCARD);
    empty_pile(&mut state, cpu(2), DECK);
    for c in [46u8, 27, 28, 1] {
        move_card(&mut state, c, cpu(2));
    }
    // Only the wild Eight of Spades may follow the Ace of Clubs but for the Two of Clubs:
    // make the Two unplayable by a graph edit.
    state.rules.apply_graph_edits(&vec![(0, 1, false)]);
    state.current_player = 2;
    let mut sounds = Vec::new();
    state.update(Input::default(), None, &mut sounds);
    assert_eq!(state.cpu_hands[2].iter(), &[27, 28, 1]);
    settle(&mut state, None);
    assert_eq!(state.wild_suit, Some(Suit::Hearts));
    assert_eq!(state.discard.last(), Some(46));
    // A card that is not wild ends the declared suit.
    assert_eq!(state.current_player, HUMAN_PLAYER);
    move_card(&mut state, 26, HUMAN);
    let index = state.hand.iter().iter().position(|&c| c == 26).unwrap() as u8;
    state.hand_index = index;
    state.update(press_a(), None, &mut sounds);
    settle(&mut state, None);
    assert_eq!(state.wild_suit, None);
}

#[test]
fn skip_effect_passes_over_players() {
    let mut state = in_game(16);
    state.rules.apply_when_played_edits(&vec![(1, 1)]);
    move_card(&mut state, 0, DISCARD);
    move_card(&mut state, 1, HUMAN);
    let index = state.hand.iter().iter().position(|&c| c == 1).unwrap() as u8;
    state.current_player = HUMAN_PLAYER;
    state.hand_index = index;
    let mut sounds = Vec::new();
    state.update(press_a(), None, &mut sounds);
    assert_eq!(state.current_player, 0);
    while !state.card_animations.is_empty() {
        state.update(Input::default(), None, &mut sounds);
    }
    assert_eq!(state.current_player, 1);
    assert_eq!(state.discard.last(), Some(1));
    assert!(sounds.contains(&Sfx::CardPlace));
}

#[test]
fn open_log_takes_the_input() {
    let mut state = in_game(17);
    state.current_player = HUMAN_PLAYER;
    let mut sounds = Vec::new();
    state.update(Input { select: true, ..Input::default() }, None, &mut sounds);
    assert!(state.log_height > 0);
    state.update(press_b(), None, &mut sounds);
    assert!(state.card_animations.is_empty());
    assert_eq!(state.current_player, HUMAN_PLAYER);
    state.update(Input { select: true, ..Input::default() }, None, &mut sounds);
    assert_eq!(state.log_height, 0);
    state.update(press_b(), None, &mut sounds);
    assert_eq!(state.card_animations.len(), 1);
}

#[test]
fn whole_games_keep_every_card() {
    for seed in 0..4u8 {
        let mut state = in_game(seed);
        let mut sounds = Vec::new();
        let mut finished = false;
        for frame in 0..20000u32 {
            let input = match frame % 3 {
                0 => press_a(),
                1 => Input { right: true, ..Input::default() },
                _ => press_b(),
            };
            let input = if frame % 97 == 0 { press_b() } else { input };
            state.update(input, Some(Choice::Suit(Suit::Spades)), &mut sounds);
            if state.card_animations.is_empty() {
                assert!(state.missing_cards().is_empty());
                if !state.winners.is_empty() {
                    finished = true;
                    for &w in state.winners.iter() {
                        assert_eq!(state.get_hand(w).size(), 0);
                    }
                    break;
                }
            }
        }
        assert!(finished, "game {} did not finish", seed);
        state.update(Input { start: true, ..Input::default() }, None, &mut sounds);
        assert_eq!(state.status, Status::ChooseBaseRule);
        assert!(state.missing_cards().is_empty());
        assert!(state.log.len() > 0);
    }
}
