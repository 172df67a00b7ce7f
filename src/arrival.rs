use vstd::multiset::Multiset;
use vstd::prelude::*;

use crate::animation::{Action, CardAnimation};
use crate::card::{get_suit, is_card, is_player, suit_of, Card, PlayerID, Suit, HUMAN_PLAYER, PLAYER_COUNT};
use crate::frame::Sfx;
use crate::game_state::{anim_cards, anims_valid, lemma_resting_swap, lemma_same_hands, GameState};
use crate::hand::full_deck;
use crate::log::{describe_wild, wild_line};
use crate::rules::Rules;

verus! {

broadcast use vstd::seq_lib::group_to_multiset_ensures;
/// How many of `cards` are of `suit`.
pub open spec fn suit_count(cards: Seq<Card>, suit: Suit) -> nat
    decreases cards.len(),
{
    if cards.len() == 0 {
        0
    } else {
        suit_count(cards.drop_last(), suit) + if suit_of(cards.last()) == suit {
            1nat
        } else {
            0nat
        }
    }
}

/// The suit most of `cards` have; ties go to the suit that comes first.
pub open spec fn favourite_suit(cards: Seq<Card>) -> Suit {
    let c = suit_count(cards, Suit::Clubs);
    let d = suit_count(cards, Suit::Diamonds);
    let h = suit_count(cards, Suit::Hearts);
    let s = suit_count(cards, Suit::Spades);
    if c >= d && c >= h && c >= s {
        Suit::Clubs
    } else if d >= h && d >= s {
        Suit::Diamonds
    } else if h >= s {
        Suit::Hearts
    } else {
        Suit::Spades
    }
}

/// The player whose turn it is once `skips` players after `p` have been passed over.
pub open spec fn after_skips(p: PlayerID, skips: u8) -> PlayerID {
    ((p + skips) % (PLAYER_COUNT as int)) as PlayerID
}

proof fn lemma_suit_count_le(cards: Seq<Card>, suit: Suit)
    ensures
        suit_count(cards, suit) <= cards.len(),
    decreases cards.len(),
{
    if cards.len() > 0 {
        lemma_suit_count_le(cards.drop_last(), suit);
    }
}

/// The suit most of `cards` have, ties going to the suit that comes first.
pub fn most_common_suit(cards: &[Card]) -> (r: Suit)
    requires
        forall|i: int| 0 <= i < cards@.len() ==> is_card(#[trigger] cards@[i]),
    ensures
        r == favourite_suit(cards@),
{
    let mut counts: [usize; 4] = [0, 0, 0, 0];
    let mut i: usize = 0;
    while i < cards.len()
        invariant
            i <= cards@.len(),
            forall|k: int| 0 <= k < cards@.len() ==> is_card(#[trigger] cards@[k]),
            counts[0] == suit_count(cards@.take(i as int), Suit::Clubs),
            counts[1] == suit_count(cards@.take(i as int), Suit::Diamonds),
            counts[2] == suit_count(cards@.take(i as int), Suit::Hearts),
            counts[3] == suit_count(cards@.take(i as int), Suit::Spades),
        decreases cards@.len() - i,
    {
        proof {
            assert(cards@.take(i + 1).drop_last() =~= cards@.take(i as int));
            lemma_suit_count_le(cards@.take(i as int), Suit::Clubs);
            lemma_suit_count_le(cards@.take(i as int), Suit::Diamonds);
            lemma_suit_count_le(cards@.take(i as int), Suit::Hearts);
            lemma_suit_count_le(cards@.take(i as int), Suit::Spades);
        }
        match get_suit(cards[i]) {
            Suit::Clubs => counts[0] = counts[0] + 1,
            Suit::Diamonds => counts[1] = counts[1] + 1,
            Suit::Hearts => counts[2] = counts[2] + 1,
            Suit::Spades => counts[3] = counts[3] + 1,
        }
        i = i + 1;
    }
    proof {
        assert(cards@.take(i as int) =~= cards@);
    }
    let (c, d, h, s) = (counts[0], counts[1], counts[2], counts[3]);
    if c >= d && c >= h && c >= s {
        Suit::Clubs
    } else if d >= h && d >= s {
        Suit::Diamonds
    } else if h >= s {
        Suit::Hearts
    } else {
        Suit::Spades
    }
}

/// Taking the first of the remaining cards out of a sequence takes it out of its multiset.
proof fn lemma_skip_multiset(s: Seq<Card>, i: int)
    requires
        0 <= i < s.len(),
    ensures
        s.skip(i).to_multiset() == s.skip(i + 1).to_multiset().insert(s[i]),
{
    assert(s.skip(i).remove(0) =~= s.skip(i + 1));
    assert(s.skip(i).contains(s[i])) by {
        assert(s.skip(i)[0] == s[i]);
    };
    assert(s.skip(i).to_multiset() =~= s.skip(i + 1).to_multiset().insert(s[i]));
}

impl GameState {
    /// Every card is in the game once, with `extra` still to be put back.
    pub open spec fn conserved_but(&self, extra: Multiset<Card>) -> bool {
        self.all_cards().add(extra) == full_deck().to_multiset()
    }

    /// The invariant, but for the cards of `extra`, which are out of the game for now.
    pub open spec fn wf_but(&self, extra: Multiset<Card>) -> bool {
        &&& self.conserved_but(extra)
        &&& self.rules.wf()
        &&& self.log.wf()
        &&& is_player(self.current_player)
        &&& anims_valid(self.card_animations@)
    }

    /// Puts `card` on top of the discard pile: a card that is not wild ends the
    /// declared suit, and the players the card skips are passed over.
    fn finish_discard(&mut self, card: Card, Ghost(extra): Ghost<Multiset<Card>>)
        requires
            old(self).wf_but(extra.insert(card)),
            is_card(card),
        ensures
            final(self).wf_but(extra),
            final(self).discard@ == old(self).discard@.push(card),
            final(self).deck == old(self).deck,
            final(self).cpu_hands == old(self).cpu_hands,
            final(self).hand == old(self).hand,
            final(self).card_animations == old(self).card_animations,
            final(self).wild_suit == (if old(self).rules.is_wild(card) {
                old(self).wild_suit
            } else {
                None
            }),
            final(self).current_player == after_skips(
                old(self).current_player,
                old(self).rules.skips(card),
            ),
            final(self).log == old(self).log,
            final(self).rng == old(self).rng,
            final(self).status == old(self).status,
            final(self).winners == old(self).winners,
            final(self).hand_index == old(self).hand_index,
            final(self).awaiting_suit == old(self).awaiting_suit,
            final(self).log_height == old(self).log_height,
            final(self).rules == old(self).rules,
    {
        self.discard.push(card);
        if !self.rules.is_wild_exec(card) {
            self.wild_suit = None;
        }
        let skips = self.rules.skips_exec(card);
        self.current_player = ((self.current_player as u16 + skips as u16) % (PLAYER_COUNT as u16)) as u8;
        proof {
            assert(self.all_cards() =~= old(self).all_cards().insert(card));
            assert(self.all_cards().add(extra) =~= old(self).all_cards().add(extra.insert(card)));
        }
    }

    /// Carries out what an arrived animation asks for. Returns false when the
    /// animation must wait: a wild card of the human whose suit is not chosen yet.
    fn complete_animation(
        &mut self,
        anim: CardAnimation,
        suit_choice: Option<Suit>,
        Ghost(extra): Ghost<Multiset<Card>>,
    ) -> (done: bool)
        requires
            old(self).wf_but(extra.insert(anim.card.card)),
            crate::game_state::action_valid(anim.completion_action),
        ensures
            done ==> final(self).wf_but(extra),
            !done ==> final(self).wf_but(extra.insert(anim.card.card)) && final(self).resting_cards() == old(self).resting_cards(),
            done == !(anim.completion_action == Action::SelectWild(HUMAN_PLAYER) && suit_choice.is_none()),
            final(self).card_animations == old(self).card_animations,
            final(self).status == old(self).status,
            final(self).winners == old(self).winners,
            final(self).hand_index == old(self).hand_index,
            final(self).log_height == old(self).log_height,
            final(self).rules == old(self).rules,
            final(self).deck == old(self).deck,
            final(self).rng == old(self).rng,
            final(self).table() == arrive(old(self).table(), old(self).rules, anim, suit_choice),
    {
        let card = anim.card.card;
        proof {
            let full = full_deck().to_multiset();
            assert(old(self).all_cards().add(extra.insert(card)).count(card) > 0);
            assert(full.count(card) > 0);
            assert(full_deck().contains(card));
            let k = choose|k: int| 0 <= k < full_deck().len() && full_deck()[k] == card;
            assert(is_card(card));
        }
        match anim.completion_action {
            Action::MoveToDiscard => {
                let ghost before = *self;
                self.finish_discard(card, Ghost(extra));
                proof {
                    lemma_same_players(before, *self);
                    assert(self.table() == arrive(old(self).table(), old(self).rules, anim, suit_choice));
                }
                true
            },
            Action::MoveToHand(p) => {
                let ghost before = *self;
                let hand = self.get_hand_mut(p);
                hand.push(card);
                proof {
                    lemma_resting_swap(before, *self, p);
                    assert(before.hand_of(p)@.push(card).to_multiset() =~= before.hand_of(p)@.to_multiset().insert(card));
                    let a = self.resting_cards().add(before.hand_of(p)@.to_multiset());
                    let b = before.resting_cards().add(self.hand_of(p)@.to_multiset());
                    assert forall|x: Card| #[trigger] self.resting_cards().count(x) == before.resting_cards().insert(card).count(x) by {
                        assert(a.count(x) == b.count(x));
                    };
                    assert(self.resting_cards() =~= before.resting_cards().insert(card));
                    assert(self.all_cards() =~= before.all_cards().insert(card));
                    assert(self.all_cards().add(extra) =~= before.all_cards().add(extra.insert(card)));
                    assert(self.hand_of(0) == before.hand_of(0) || p == 0);
                    assert(self.hand_of(1) == before.hand_of(1) || p == 1);
                    assert(self.hand_of(2) == before.hand_of(2) || p == 2);
                    assert(self.hand_of(3) == before.hand_of(3) || p == 3);
                    assert(self.table().hands =~= before.table().hands.update(p as int, before.table().hands[p as int].push(card)));
                }
                true
            },
            Action::SelectWild(p) => {
                if p < HUMAN_PLAYER {
                    proof {
                        lemma_cards_of_hand(*self, p, extra.insert(card));
                    }
                    let suit = most_common_suit(self.get_hand(p).iter());
                    self.log.push(describe_wild(p, suit));
                    let ghost before = *self;
                    self.finish_discard(card, Ghost(extra));
                    self.wild_suit = Some(suit);
                    proof {
                        lemma_same_players(*old(self), *self);
                        assert(old(self).table().hands[p as int] == old(self).hand_of(p)@);
                    }
                    true
                } else {
                    match suit_choice {
                        Some(suit) => {
                            self.awaiting_suit = false;
                            self.log.push(describe_wild(p, suit));
                            self.finish_discard(card, Ghost(extra));
                            self.wild_suit = Some(suit);
                            proof {
                                lemma_same_players(*old(self), *self);
                            }
                            true
                        },
                        None => {
                            let ghost before = *self;
                            self.awaiting_suit = true;
                            proof {
                                lemma_same_hands(before, *self);
                                assert(self.table() == arrive(old(self).table(), old(self).rules, anim, suit_choice));
                            }
                            false
                        },
                    }
                }
            },
        }
    }
}

/// Two states whose players hold the same hands.
proof fn lemma_same_players(s1: GameState, s2: GameState)
    requires
        s2.cpu_hands == s1.cpu_hands,
        s2.hand == s1.hand,
    ensures
        forall|q: PlayerID| #[trigger] s2.hand_of(q) == s1.hand_of(q),
        s2.table().hands == s1.table().hands,
{
}

/// The part of a game that arriving cards change: the discard pile, every
/// player's hand, whose turn it is, the declared and the awaited suit, and the log.
pub struct Table {
    pub discard: Seq<Card>,
    pub hands: Seq<Seq<Card>>,
    pub current_player: PlayerID,
    pub wild_suit: Option<Suit>,
    pub awaiting_suit: bool,
    pub log: Seq<Seq<char>>,
}

/// `card` put on top of the discard pile: a card that is not wild ends the
/// declared suit, and the players the card skips are passed over.
pub open spec fn discarded(t: Table, rules: Rules, card: Card) -> Table {
    Table {
        discard: t.discard.push(card),
        wild_suit: if rules.is_wild(card) {
            t.wild_suit
        } else {
            None
        },
        current_player: after_skips(t.current_player, rules.skips(card)),
        ..t
    }
}

/// What the arrival of `a` does. A discard goes on the pile; a drawn card joins
/// its player's hand; a wild card of a CPU player declares the suit most of
/// that hand has, one of the human declares the chosen suit, and then it is
/// discarded; with no suit chosen the human's wild card waits.
pub open spec fn arrive(t: Table, rules: Rules, a: CardAnimation, suit_choice: Option<Suit>) -> Table {
    let c = a.card.card;
    match a.completion_action {
        Action::MoveToDiscard => discarded(t, rules, c),
        Action::MoveToHand(p) => Table { hands: t.hands.update(p as int, t.hands[p as int].push(c)), ..t },
        Action::SelectWild(p) => if p < HUMAN_PLAYER {
            let s = favourite_suit(t.hands[p as int]);
            Table { wild_suit: Some(s), ..discarded(Table { log: t.log.push(wild_line(p, s)), ..t }, rules, c) }
        } else {
            match suit_choice {
                Some(s) => Table {
                    wild_suit: Some(s),
                    awaiting_suit: false,
                    ..discarded(Table { log: t.log.push(wild_line(p, s)), ..t }, rules, c)
                },
                None => Table { awaiting_suit: true, ..t },
            }
        },
    }
}

/// The table after one sweep of `anims`: each moved one step, in order, and
/// those that arrived carried out.
pub open spec fn swept_table(
    t: Table,
    rules: Rules,
    anims: Seq<CardAnimation>,
    suit_choice: Option<Suit>,
) -> Table
    decreases anims.len(),
{
    if anims.len() == 0 {
        t
    } else {
        let before = swept_table(t, rules, anims.drop_last(), suit_choice);
        let a = anims.last().approached();
        if a.complete() {
            arrive(before, rules, a, suit_choice)
        } else {
            before
        }
    }
}

impl GameState {
    pub open spec fn table(&self) -> Table {
        Table {
            discard: self.discard@,
            hands: seq![self.hand_of(0)@, self.hand_of(1)@, self.hand_of(2)@, self.hand_of(3)@],
            current_player: self.current_player,
            wild_suit: self.wild_suit,
            awaiting_suit: self.awaiting_suit,
            log: self.log.lines(),
        }
    }
}

/// Whether an animation stays in the sweep after its step: it has not arrived,
/// or it is a wild card of the human and no suit has been chosen.
pub open spec fn stays(a: CardAnimation, suit_choice: Option<Suit>) -> bool {
    !a.complete() || (a.completion_action == Action::SelectWild(HUMAN_PLAYER)
        && suit_choice.is_none())
}

/// The animations left after one sweep: each moved one step, in their order,
/// without those that were carried out.
pub open spec fn swept(anims: Seq<CardAnimation>, suit_choice: Option<Suit>) -> Seq<CardAnimation>
    decreases anims.len(),
{
    if anims.len() == 0 {
        anims
    } else {
        let rest = swept(anims.drop_last(), suit_choice);
        let a = anims.last().approached();
        if stays(a, suit_choice) {
            rest.push(a)
        } else {
            rest
        }
    }
}

impl GameState {
    /// Sweeps every animation one step toward its target; those that arrive are
    /// carried out and removed, but for a wild card of the human still waiting
    /// for its suit, which stays in the sweep.
    pub fn advance_card_animations(&mut self, suit_choice: Option<Suit>, speaker: &mut Vec<Sfx>)
        requires
            old(self).wf(),
        ensures
            final(self).wf(),
            final(self).card_animations@ == swept(old(self).card_animations@, suit_choice),
            final(self).table() == swept_table(
                old(self).table(),
                old(self).rules,
                old(self).card_animations@,
                suit_choice,
            ),
            final(self).deck == old(self).deck,
            final(self).rng == old(self).rng,
            final(self).status == old(self).status,
            final(self).winners == old(self).winners,
            final(self).hand_index == old(self).hand_index,
            final(self).log_height == old(self).log_height,
            final(self).rules == old(self).rules,
    {
        let mut pending: Vec<CardAnimation> = Vec::new();
        pending.append(&mut self.card_animations);
        let ghost pend = pending@;
        let ghost cards = anim_cards(pend);
        proof {
            assert(anim_cards(self.card_animations@) =~= Seq::<Card>::empty());
            assert(pend.take(0) =~= Seq::<CardAnimation>::empty());
            lemma_same_players(*old(self), *self);
            assert(cards.skip(0) =~= cards);
            assert(self.all_cards().add(cards.skip(0).to_multiset()) =~= old(self).all_cards());
        }
        let mut i: usize = 0;
        while i < pending.len()
            invariant
                pending@ == pend,
                pend == old(self).card_animations@,
                cards == anim_cards(pend),
                anims_valid(pend),
                i <= pend.len(),
                self.wf_but(cards.skip(i as int).to_multiset()),
                self.card_animations@ == swept(pend.take(i as int), suit_choice),
                self.table() == swept_table(old(self).table(), old(self).rules, pend.take(i as int), suit_choice),
                self.deck == old(self).deck,
                self.rng == old(self).rng,
                self.status == old(self).status,
                self.winners == old(self).winners,
                self.hand_index == old(self).hand_index,
                self.log_height == old(self).log_height,
                self.rules == old(self).rules,
            decreases pend.len() - i,
        {
            let mut anim = pending[i];
            anim.approach_target();
            let ghost rest = cards.skip(i + 1).to_multiset();
            proof {
                assert(pend.take(i + 1).drop_last() =~= pend.take(i as int));
                lemma_skip_multiset(cards, i as int);
                assert(cards[i as int] == anim.card.card);
                assert(self.all_cards().add(rest.insert(anim.card.card)) =~= self.all_cards().add(cards.skip(i as int).to_multiset()));
            }
            let ghost before = *self;
            let mut keep = true;
            if anim.is_complete() {
                let done = self.complete_animation(anim, suit_choice, Ghost(rest));
                if done {
                    speaker.push(Sfx::CardPlace);
                    keep = false;
                }
            }
            if keep {
                let ghost mid = *self;
                self.card_animations.push(anim);
                proof {
                    assert(anim_cards(self.card_animations@) =~= anim_cards(mid.card_animations@).push(anim.card.card));
                    assert(self.resting_cards() == mid.resting_cards()) by {
                        lemma_same_hands(mid, *self);
                    };
                    lemma_same_players(mid, *self);
                    assert(self.all_cards().add(rest) =~= mid.all_cards().add(rest.insert(anim.card.card)));
                }
            }
            i = i + 1;
        }
        proof {
            assert(pend.take(i as int) =~= pend);
            assert(cards.skip(i as int) =~= Seq::<Card>::empty());
            assert(self.all_cards().add(cards.skip(i as int).to_multiset()) =~= self.all_cards());
        }
    }

}

/// Every card of a hand is a card of the deck, while the cards of `extra` are out of the game.
proof fn lemma_cards_of_hand(s: GameState, p: PlayerID, extra: Multiset<Card>)
    requires
        is_player(p),
        s.conserved_but(extra),
    ensures
        forall|i: int| 0 <= i < s.hand_of(p)@.len() ==> is_card(#[trigger] s.hand_of(p)@[i]),
{
    assert forall|i: int| 0 <= i < s.hand_of(p)@.len() implies is_card(#[trigger] s.hand_of(p)@[i]) by {
        let c = s.hand_of(p)@[i];
        crate::game_state::lemma_held_card(s, p, i);
        assert(full_deck().to_multiset().count(c) > 0);
        assert(full_deck().contains(c));
        let k = choose|k: int| 0 <= k < full_deck().len() && full_deck()[k] == c;
    };
}

} // verus!
