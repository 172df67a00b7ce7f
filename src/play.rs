use vstd::prelude::*;

use crate::animation::{Action, CardAnimation};
use crate::card::{
    is_card, is_cpu, is_player, Card, PlayerID, PositionedCard, DECK_SIZE,
    DECK_X, DECK_Y, DISCARD_X, DISCARD_Y, get_card_position,
};
use crate::game_state::{
    anim_cards, lemma_conserved_bounds, lemma_held_card, lemma_pile_card, lemma_resting_swap,
    lemma_same_hands, GameState,
};
use crate::log::{describe_draw, describe_play, draw_line, play_line};
use crate::random::random_index;
use crate::rules::playable;

verus! {

broadcast use vstd::seq_lib::group_to_multiset_ensures;

impl GameState {
    pub open spec fn top_card(&self) -> Option<Card> {
        if self.discard@.len() > 0 {
            Some(self.discard@.last())
        } else {
            None
        }
    }

    /// Whether `card` may be played on the discard pile now.
    pub open spec fn playable_now(&self, card: Card) -> bool {
        playable(self.rules, self.wild_suit, self.top_card(), card)
    }

    pub fn top_of_discard(&self) -> (r: Option<Card>)
        ensures
            r == self.top_card(),
    {
        self.discard.last()
    }

    /// Whether `card` may be played on the discard pile now.
    pub fn can_play(&self, card: Card) -> (r: bool)
        requires
            self.wf(),
            is_card(card),
        ensures
            r == self.playable_now(card),
    {
        let top = self.top_of_discard();
        proof {
            lemma_conserved_bounds(*self);
            if self.discard@.len() > 0 {
                lemma_pile_card(*self, self.discard@.len() - 1);
            }
        }
        self.rules.is_playable(self.wild_suit, top, card)
    }

    /// The indices of the cards of player `p` that may be played now, in increasing order.
    pub fn legal_moves(&self, p: PlayerID) -> (r: Vec<u8>)
        requires
            self.wf(),
            is_player(p),
        ensures
            forall|i: u8| #[trigger] r@.contains(i) <==> i < self.hand_of(p)@.len()
                && self.playable_now(self.hand_of(p)@[i as int]),
            forall|i: int, j: int| 0 <= i < j < r@.len() ==> r@[i] < r@[j],
    {
        proof {
            lemma_conserved_bounds(*self);
        }
        let hand = self.get_hand(p);
        let len = hand.size();
        let mut moves: Vec<u8> = Vec::new();
        let mut i: usize = 0;
        while i < len
            invariant
                self.wf(),
                is_player(p),
                *hand == self.hand_of(p),
                len == hand@.len(),
                len <= DECK_SIZE,
                i <= len,
                forall|k: u8| #[trigger] moves@.contains(k) <==> k < i && self.playable_now(hand@[k as int]),
                forall|a: int, b: int| 0 <= a < b < moves@.len() ==> moves@[a] < moves@[b],
                forall|a: int| 0 <= a < moves@.len() ==> moves@[a] < i,
            decreases len - i,
        {
            let card = hand.iter()[i];
            proof {
                lemma_held_card(*self, p, i as int);
                lemma_conserved_bounds(*self);
            }
            if self.can_play(card) {
                let ghost before = moves@;
                moves.push(i as u8);
                proof {
                    assert forall|k: u8| #[trigger] moves@.contains(k) <==> k < i + 1 && self.playable_now(hand@[k as int]) by {
                        crate::game_state::lemma_push_contains(before, i as u8, k);
                    };
                }
            }
            i = i + 1;
        }
        moves
    }

    /// Takes the top card of the deck. When the deck is empty, every card of the
    /// discard pile but its top one is first shuffled into the deck.
    pub fn draw_card(&mut self) -> (r: Option<PositionedCard>)
        requires
            old(self).wf(),
        ensures
            GameState::table_agrees(*old(self), *final(self)),
            forall|q: PlayerID| is_player(q) ==> #[trigger] final(self).hand_of(q) == old(self).hand_of(q),
            final(self).deck.layout() == old(self).deck.layout(),
            final(self).discard.layout() == old(self).discard.layout(),
            r.is_some() <==> old(self).deck@.len() > 0 || old(self).discard@.len() >= 2,
            r.is_none() ==> final(self).deck@ == old(self).deck@ && final(self).discard@ == old(self).discard@,
            r.is_none() || old(self).deck@.len() > 0 ==> final(self).rng == old(self).rng,
            r matches Some(pc) ==> pc.x == DECK_X && pc.y == DECK_Y
                && final(self).resting_cards().insert(pc.card) == old(self).resting_cards(),
            old(self).deck@.len() > 0 ==> r == Some(PositionedCard { card: old(self).deck@.last(), x: DECK_X, y: DECK_Y })
                && final(self).deck@ == old(self).deck@.drop_last()
                && final(self).discard@ == old(self).discard@,
            old(self).deck@.len() == 0 && old(self).discard@.len() >= 2 ==>
                final(self).discard@ == seq![old(self).discard@.last()]
                && final(self).deck@.len() == old(self).discard@.len() - 2
                && final(self).deck@.to_multiset().insert(r.unwrap().card) == old(self).discard@.drop_last().to_multiset(),
    {
        if self.deck.size() == 0 && self.discard.size() >= 2 {
            let ghost old_discard = self.discard@;
            let top = self.discard.draw();
            let rest = self.discard.take_all();
            self.deck.extend(rest);
            self.deck.shuffle(&mut self.rng);
            match top {
                Some(card) => self.discard.push(card),
                None => {},
            }
            proof {
                assert(self.discard@ =~= seq![old_discard.last()]);
                assert(old_discard =~= old_discard.drop_last().push(old_discard.last()));
                assert(self.deck@.to_multiset() == old_discard.drop_last().to_multiset());
            }
        }
        let ghost mid = *self;
        let drawn = self.deck.draw();
        match drawn {
            Some(card) => {
                proof {
                    assert(mid.deck@ =~= mid.deck@.drop_last().push(card));
                    assert(mid.resting_cards() =~= self.resting_cards().insert(card));
                    assert(old(self).resting_cards() =~= mid.resting_cards());
                }
                Some(PositionedCard { card, x: DECK_X, y: DECK_Y })
            },
            None => None,
        }
    }
}

impl GameState {
    /// Whether a player has a card that may be played now.
    pub open spec fn has_legal_move(&self, p: PlayerID) -> bool {
        exists|i: int| 0 <= i < self.hand_of(p)@.len() && self.playable_now(self.hand_of(p)@[i])
    }

    /// `s2` is `s1` after player `p` drew. The hands stay as they are. When
    /// there is a card to draw, one animation is added that carries it to `p`'s
    /// hand: the top card of the deck or, from an empty deck, one of the discard
    /// pile's cards but its top one, which stays alone on the pile while the
    /// others become the deck. Otherwise nothing changes.
    pub open spec fn drew(s1: GameState, s2: GameState, p: PlayerID) -> bool {
        &&& forall|q: PlayerID| is_player(q) ==> #[trigger] s2.hand_of(q) == s1.hand_of(q)
        &&& if s1.deck@.len() > 0 || s1.discard@.len() >= 2 {
            let a = s2.card_animations@.last();
            &&& s2.card_animations@.len() == s1.card_animations@.len() + 1
            &&& s2.card_animations@.drop_last() == s1.card_animations@
            &&& a.completion_action == Action::MoveToHand(p)
            &&& a.card.x == DECK_X && a.card.y == DECK_Y
            &&& s2.log.lines() == s1.log.lines().push(draw_line(p))
            &&& s1.deck@.len() > 0 ==> a.card.card == s1.deck@.last()
                && s2.deck@ == s1.deck@.drop_last() && s2.discard@ == s1.discard@
                && s2.rng == s1.rng
            &&& s1.deck@.len() == 0 ==> s2.discard@ == seq![s1.discard@.last()]
                && s2.deck@.len() == s1.discard@.len() - 2
                && s2.deck@.to_multiset().insert(a.card.card) == s1.discard@.drop_last().to_multiset()
        } else {
            &&& s2.card_animations == s1.card_animations
            &&& s2.log == s1.log
            &&& s2.deck@ == s1.deck@
            &&& s2.discard@ == s1.discard@
            &&& s2.rng == s1.rng
        }
    }

    /// `s2` is `s1` after player `p` played the card at `i` of their hand: the
    /// card left the hand and one animation was added that carries it to the
    /// discard pile, by way of a suit choice when it is wild.
    pub open spec fn played(s1: GameState, s2: GameState, p: PlayerID, i: int) -> bool {
        let c = s1.hand_of(p)@[i];
        &&& 0 <= i < s1.hand_of(p)@.len()
        &&& GameState::hands_agree_except(s1, s2, p)
        &&& s2.hand_of(p)@ == s1.hand_of(p)@.remove(i)
        &&& s2.card_animations@.len() == s1.card_animations@.len() + 1
        &&& s2.card_animations@.drop_last() == s1.card_animations@
        &&& s2.card_animations@.last().card.card == c
        &&& s2.card_animations@.last().completion_action == (if s1.rules.is_wild(c) {
            Action::SelectWild(p)
        } else {
            Action::MoveToDiscard
        })
        &&& s2.log.lines() == s1.log.lines().push(play_line(p, c))
    }
}

impl GameState {
    /// Starts the top card of the deck (refilled from the discard pile when
    /// empty) on its way to player `p`'s hand. Returns false when there is no
    /// card to draw.
    pub fn start_draw(&mut self, p: PlayerID) -> (r: bool)
        requires
            old(self).wf(),
            is_player(p),
        ensures
            final(self).wf(),
            GameState::settings_agree(*old(self), *final(self)),
            r == (old(self).deck@.len() > 0 || old(self).discard@.len() >= 2),
            GameState::drew(*old(self), *final(self), p),
    {
        let drawn = self.draw_card();
        let ghost mid = *self;
        match drawn {
            Some(pc) => {
                proof {
                    lemma_conserved_bounds(*old(self));
                }
                let hand = self.get_hand(p);
                let len = hand.len();
                let (x, y) = get_card_position(hand.spread(), len + 1, len);
                let ghost before = self.card_animations@;
                self.card_animations.push(CardAnimation::new(pc, x, y, Action::MoveToHand(p)));
                self.log.push(describe_draw(p));
                proof {
                    lemma_same_hands(mid, *self);
                    assert(anim_cards(self.card_animations@) =~= anim_cards(before).push(pc.card));
                    assert(self.all_cards() =~= old(self).all_cards());
                    assert(self.card_animations@.drop_last() =~= before);
                }
                true
            },
            None => {
                proof {
                    assert(mid.hand_of(0) == old(self).hand_of(0));
                    assert(mid.hand_of(1) == old(self).hand_of(1));
                    assert(mid.hand_of(2) == old(self).hand_of(2));
                    assert(mid.hand_of(3) == old(self).hand_of(3));
                    assert(mid.resting_cards() =~= old(self).resting_cards());
                }
                false
            },
        }
    }

    /// Starts the card at `index` of player `p`'s hand on its way to the discard
    /// pile; a wild card will first have its suit chosen. Returns false when
    /// there is no card there.
    pub fn start_discard(&mut self, p: PlayerID, index: u8) -> (r: bool)
        requires
            old(self).wf(),
            is_player(p),
        ensures
            final(self).wf(),
            GameState::settings_agree(*old(self), *final(self)),
            GameState::hands_agree_except(*old(self), *final(self), p),
            r == (index < old(self).hand_of(p)@.len()),
            r ==> GameState::played(*old(self), *final(self), p, index as int),
            final(self).rng == old(self).rng,
            !r ==> *final(self) == *old(self),
    {
        proof {
            lemma_conserved_bounds(*self);
        }
        if index as usize >= self.get_hand(p).size() {
            return false;
        }
        proof {
            lemma_held_card(*self, p, index as int);
        }
        let removed = self.remove_positioned_card(p, index);
        let ghost mid = *self;
        match removed {
            Some(pc) => {
                let wild = self.rules.is_wild_exec(pc.card);
                let action = if wild {
                    Action::SelectWild(p)
                } else {
                    Action::MoveToDiscard
                };
                let ghost before = self.card_animations@;
                self.card_animations.push(CardAnimation::new(pc, DISCARD_X, DISCARD_Y, action));
                self.log.push(describe_play(p, pc.card));
                proof {
                    let c = pc.card;
                    let old_hand = old(self).hand_of(p)@;
                    lemma_same_hands(mid, *self);
                    lemma_resting_swap(*old(self), mid, p);
                    assert(old_hand.to_multiset() =~= mid.hand_of(p)@.to_multiset().insert(c));
                    assert(anim_cards(self.card_animations@) =~= anim_cards(before).push(c));
                    let a = mid.resting_cards().add(old_hand.to_multiset());
                    let b = old(self).resting_cards().add(mid.hand_of(p)@.to_multiset());
                    assert forall|x: Card| #[trigger] mid.resting_cards().insert(c).count(x) == old(self).resting_cards().count(x) by {
                        assert(a.count(x) == b.count(x));
                    };
                    assert(mid.resting_cards().insert(c) =~= old(self).resting_cards());
                    assert(self.all_cards() =~= old(self).all_cards());
                    assert(self.card_animations@.drop_last() =~= before);
                }
                true
            },
            None => false,
        }
    }

    /// Records as winners the players whose hands are empty.
    pub fn update_winners(&mut self)
        requires
            old(self).wf(),
        ensures
            final(self).wf(),
            *final(self) == (GameState { winners: final(self).winners, ..*old(self) }),
            forall|q: PlayerID| #[trigger] final(self).winners@.contains(q) <==> old(self).winners@.contains(q)
                || (is_player(q) && old(self).hand_of(q)@.len() == 0),
    {
        let mut p: u8 = 0;
        while p <= 3
            invariant
                p <= 4,
                self.wf(),
                *self == (GameState { winners: self.winners, ..*old(self) }),
                forall|q: PlayerID| #[trigger] self.winners@.contains(q) <==> old(self).winners@.contains(q)
                    || (q < p && old(self).hand_of(q)@.len() == 0),
            decreases 4 - p,
        {
            if self.get_hand(p).size() == 0 && !contains_player(&self.winners, p) {
                let ghost before = self.winners@;
                self.winners.push(p);
                proof {
                    assert forall|q: PlayerID| #[trigger] self.winners@.contains(q) <==> before.contains(q) || q == p by {
                        crate::game_state::lemma_push_contains(before, p, q);
                    };
                }
            }
            p = p + 1;
        }
    }

    /// A CPU player's turn: it plays a legal card chosen at random, or draws
    /// when it has none; either way the turn passes to the next player.
    pub fn cpu_turn(&mut self)
        requires
            old(self).wf(),
            is_cpu(old(self).current_player),
        ensures
            final(self).wf(),
            final(self).current_player == old(self).current_player + 1,
            final(self).status == old(self).status,
            final(self).winners == old(self).winners,
            final(self).hand_index == old(self).hand_index,
            final(self).rules == old(self).rules,
            final(self).wild_suit == old(self).wild_suit,
            final(self).awaiting_suit == old(self).awaiting_suit,
            final(self).log_height == old(self).log_height,
            !old(self).has_legal_move(old(self).current_player) ==> GameState::drew(
                *old(self),
                *final(self),
                old(self).current_player,
            ),
            old(self).has_legal_move(old(self).current_player) ==> exists|i: int|
                old(self).playable_now(#[trigger] old(self).hand_of(old(self).current_player)@[i])
                    && GameState::played(*old(self), *final(self), old(self).current_player, i),
    {
        let p = self.current_player;
        let moves = self.legal_moves(p);
        if moves.len() > 0 {
            let k = random_index(&mut self.rng, moves.len());
            let index = moves[k];
            proof {
                assert(moves@.contains(index));
                lemma_same_hands(*old(self), *self);
                assert(self.playable_now(old(self).hand_of(p)@[index as int]));
            }
            let ghost mid = *self;
            self.start_discard(p, index);
            proof {
                assert forall|q: PlayerID| is_player(q) && q != p implies #[trigger] self.hand_of(q) == old(self).hand_of(q) by {
                    assert(self.hand_of(q) == mid.hand_of(q));
                };
            }
        } else {
            proof {
                assert forall|i: int| 0 <= i < old(self).hand_of(p)@.len() implies !old(self).playable_now(old(self).hand_of(p)@[i]) by {
                    lemma_conserved_bounds(*old(self));
                    if old(self).playable_now(old(self).hand_of(p)@[i]) {
                        assert(moves@.contains(i as u8));
                    }
                };
            }
            self.start_draw(p);
        }
        let ghost before = *self;
        self.current_player = p + 1;
        proof {
            lemma_same_hands(before, *self);
        }
    }
}

fn contains_player(players: &Vec<PlayerID>, p: PlayerID) -> (r: bool)
    ensures
        r == players@.contains(p),
{
    let mut i: usize = 0;
    while i < players.len()
        invariant
            i <= players@.len(),
            forall|j: int| 0 <= j < i ==> players@[j] != p,
        decreases players@.len() - i,
    {
        if players[i] == p {
            return true;
        }
        i = i + 1;
    }
    false
}

} // verus!
