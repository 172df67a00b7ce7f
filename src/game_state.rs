use vstd::multiset::Multiset;
use vstd::prelude::*;

use rand::prng::XorShiftRng;

use crate::animation::{Action, CardAnimation};
use crate::card::{
    card_position, is_card, DECK_X, DECK_Y, is_player, Card, PlayerID, PositionedCard, Spread, Suit, CPU_COUNT,
    DECK_SIZE, DISCARD_X, DISCARD_Y, HUMAN_PLAYER, LEFT_AND_RIGHT_HAND_MAX, LEFT_AND_RIGHT_HAND_MIN,
    LEFT_CPU_HAND_X, MIDDLE_CPU_HAND_HEIGHT, PLAYER_HAND_HEIGHT, RIGHT_CPU_HAND_X,
    TOP_AND_BOTTOM_HAND_MAX, TOP_AND_BOTTOM_HAND_MIN,
};
use crate::hand::{full_deck, Hand};
use crate::log::EventLog;
use crate::random::rng_from_seed;
use crate::rules::{BaseRule, Rules};

verus! {

broadcast use vstd::seq_lib::group_to_multiset_ensures;

/// Which phase the game is in: one of the rule choices made before a match, or the match.
#[derive(Clone, Copy, Debug, PartialEq, Eq, Structural)]
pub enum Status {
    ChooseBaseRule,
    ChooseGraphEdits,
    ChooseWildEdits,
    ChooseWhenPlayedEdits,
    InGame,
}

/// The whole state of a game.
pub struct GameState {
    pub deck: Hand,
    pub discard: Hand,
    pub cpu_hands: [Hand; 3],
    pub hand: Hand,
    /// The cursor into the human's hand.
    pub hand_index: u8,
    pub current_player: PlayerID,
    pub card_animations: Vec<CardAnimation>,
    pub rng: XorShiftRng,
    pub rules: Rules,
    /// The suit declared for the wild card on top of the discard pile, if any.
    pub wild_suit: Option<Suit>,
    pub status: Status,
    /// Set while a wild card of the human waits for a suit to be chosen.
    pub awaiting_suit: bool,
    pub log: EventLog,
    /// The number of log lines shown; 0 when the log is collapsed.
    pub log_height: u8,
    pub winners: Vec<PlayerID>,
}

/// The cards that animations carry, in the animations' order.
pub open spec fn anim_cards(anims: Seq<CardAnimation>) -> Seq<Card> {
    anims.map_values(|a: CardAnimation| a.card.card)
}

/// The player an action names, if any, is one of the game's players.
pub open spec fn action_valid(a: Action) -> bool {
    match a {
        Action::MoveToDiscard => true,
        Action::SelectWild(p) => is_player(p),
        Action::MoveToHand(p) => is_player(p),
    }
}

/// Every animation has positive rates and names a real player.
pub open spec fn anims_valid(anims: Seq<CardAnimation>) -> bool {
    forall|i: int|
        0 <= i < anims.len() ==> action_valid(#[trigger] anims[i].completion_action)
            && anims[i].wf()
}

impl GameState {
    pub open spec fn hand_of(&self, p: PlayerID) -> Hand {
        if p < CPU_COUNT {
            self.cpu_hands[p as int]
        } else {
            self.hand
        }
    }

    /// The cards at rest: in the deck, the discard pile and every hand.
    pub open spec fn resting_cards(&self) -> Multiset<Card> {
        self.deck@.to_multiset().add(self.discard@.to_multiset()).add(
            self.cpu_hands[0]@.to_multiset(),
        ).add(self.cpu_hands[1]@.to_multiset()).add(self.cpu_hands[2]@.to_multiset()).add(
            self.hand@.to_multiset(),
        )
    }

    /// Every card of the game, at rest or in flight.
    pub open spec fn all_cards(&self) -> Multiset<Card> {
        self.resting_cards().add(anim_cards(self.card_animations@).to_multiset())
    }

    /// Every card of the deck is somewhere in the game, exactly once.
    pub open spec fn conserved(&self) -> bool {
        self.all_cards() == full_deck().to_multiset()
    }

    pub open spec fn wf(&self) -> bool {
        &&& self.conserved()
        &&& self.rules.wf()
        &&& self.log.wf()
        &&& is_player(self.current_player)
        &&& anims_valid(self.card_animations@)
    }

    /// `s2` has the same deck, discard pile and hands as `s1`, but for player `p`'s hand.
    pub open spec fn hands_agree_except(s1: GameState, s2: GameState, p: PlayerID) -> bool {
        &&& s2.deck == s1.deck
        &&& s2.discard == s1.discard
        &&& forall|q: PlayerID| is_player(q) && q != p ==> #[trigger] s2.hand_of(q) == s1.hand_of(q)
    }

    /// `s2` agrees with `s1` on everything but the piles, hands, animations, log and generator.
    pub open spec fn settings_agree(s1: GameState, s2: GameState) -> bool {
        &&& s2.hand_index == s1.hand_index
        &&& s2.current_player == s1.current_player
        &&& s2.rules == s1.rules
        &&& s2.wild_suit == s1.wild_suit
        &&& s2.status == s1.status
        &&& s2.awaiting_suit == s1.awaiting_suit
        &&& s2.log_height == s1.log_height
        &&& s2.winners == s1.winners
    }

    /// `s2` agrees with `s1` on everything but the piles, hands and generator.
    pub open spec fn table_agrees(s1: GameState, s2: GameState) -> bool {
        &&& GameState::settings_agree(s1, s2)
        &&& s2.card_animations == s1.card_animations
        &&& s2.log == s1.log
    }

    /// The hand of player `p`: a CPU hand, or the human's.
    pub fn get_hand(&self, p: PlayerID) -> (r: &Hand)
        requires
            is_player(p),
        ensures
            *r == self.hand_of(p),
    {
        if p < CPU_COUNT {
            &self.cpu_hands[p as usize]
        } else {
            &self.hand
        }
    }

    /// The hand of player `p`, to change; the rest of the game stays as it is.
    pub fn get_hand_mut(&mut self, p: PlayerID) -> (r: &mut Hand)
        requires
            is_player(p),
        ensures
            *r == old(self).hand_of(p),
            final(self).hand_of(p) == *final(r),
            GameState::hands_agree_except(*old(self), *final(self), p),
            GameState::table_agrees(*old(self), *final(self)),
            final(self).rng == old(self).rng,
    {
        if p < CPU_COUNT {
            &mut self.cpu_hands[p as usize]
        } else {
            &mut self.hand
        }
    }
}

/// How many cards each player is dealt.
pub const HAND_SIZE: u8 = 5;

/// Replacing one hand changes the cards at rest by exactly the cards of the two hands.
pub proof fn lemma_resting_swap(s1: GameState, s2: GameState, p: PlayerID)
    requires
        is_player(p),
        GameState::hands_agree_except(s1, s2, p),
    ensures
        s2.resting_cards().add(s1.hand_of(p)@.to_multiset()) == s1.resting_cards().add(
            s2.hand_of(p)@.to_multiset(),
        ),
{
    assert(p != 0 ==> s2.hand_of(0) == s1.hand_of(0));
    assert(p != 1 ==> s2.hand_of(1) == s1.hand_of(1));
    assert(p != 2 ==> s2.hand_of(2) == s1.hand_of(2));
    assert(p != 3 ==> s2.hand_of(3) == s1.hand_of(3));
    assert(s2.resting_cards().add(s1.hand_of(p)@.to_multiset()) =~= s1.resting_cards().add(
        s2.hand_of(p)@.to_multiset(),
    ));
}

/// In a well-formed game with no card in flight, the deck, the discard pile and
/// the hands together hold every card of the deck exactly once. Every state the
/// game reaches is well formed: `new` makes it so and every step keeps it.
pub proof fn cards_conserved_at_rest(s: GameState)
    requires
        s.wf(),
        s.card_animations@.len() == 0,
    ensures
        s.resting_cards() == full_deck().to_multiset(),
        forall|c: Card| is_card(c) ==> #[trigger] s.resting_cards().count(c) == 1,
        forall|c: Card| !is_card(c) ==> #[trigger] s.resting_cards().count(c) == 0,
{
    assert(anim_cards(s.card_animations@) =~= Seq::<Card>::empty());
    assert(s.all_cards() =~= s.resting_cards());
    assert forall|c: Card| is_card(c) implies #[trigger] s.resting_cards().count(c) == 1 by {
        lemma_full_deck_count(c);
    };
    assert forall|c: Card| !is_card(c) implies #[trigger] s.resting_cards().count(c) == 0 by {
        lemma_full_deck_count(c);
    };
}

/// The full deck holds each card once and nothing else.
pub proof fn lemma_full_deck_count(c: Card)
    ensures
        full_deck().to_multiset().count(c) == (if is_card(c) {
            1nat
        } else {
            0nat
        }),
{
    let d = full_deck();
    assert forall|i: int, j: int| 0 <= i < j < d.len() implies d[i] != d[j] by {};
    assert(d.no_duplicates());
    if is_card(c) {
        assert(d[c as int] == c);
        assert(d.contains(c));
        d.lemma_multiset_has_no_duplicates();
    } else {
        if d.contains(c) {
            let i = choose|i: int| 0 <= i < d.len() && d[i] == c;
        }
    }
}

/// Two states with the same piles and hands hold the same cards at rest.
pub proof fn lemma_same_hands(s1: GameState, s2: GameState)
    requires
        s2.deck == s1.deck,
        s2.discard == s1.discard,
        s2.cpu_hands == s1.cpu_hands,
        s2.hand == s1.hand,
    ensures
        forall|q: PlayerID| #[trigger] s2.hand_of(q) == s1.hand_of(q),
        s2.resting_cards() == s1.resting_cards(),
{
}

/// In a conserved game only cards of the deck occur, and no pile holds more than all of them.
pub proof fn lemma_conserved_bounds(s: GameState)
    requires
        s.conserved(),
    ensures
        forall|p: PlayerID| is_player(p) ==> #[trigger] s.hand_of(p)@.len() <= DECK_SIZE,
        s.deck@.len() <= DECK_SIZE,
        s.discard@.len() <= DECK_SIZE,
        s.card_animations@.len() <= DECK_SIZE,
        forall|c: Card| s.all_cards().count(c) > 0 ==> is_card(c),
{
    assert(full_deck().to_multiset().len() == DECK_SIZE);
    assert forall|c: Card| s.all_cards().count(c) > 0 implies is_card(c) by {
        assert(full_deck().contains(c));
        let i = choose|i: int| 0 <= i < full_deck().len() && full_deck()[i] == c;
    };
    assert(anim_cards(s.card_animations@).len() == s.card_animations@.len());
    assert forall|p: PlayerID| is_player(p) implies #[trigger] s.hand_of(p)@.len() <= DECK_SIZE by {
        assert(p < 3 ==> s.hand_of(p) == s.cpu_hands[p as int]);
    };
}

/// A card of the deck or of the discard pile counts among all the cards.
pub proof fn lemma_pile_card(s: GameState, i: int)
    ensures
        0 <= i < s.deck@.len() ==> s.all_cards().count(s.deck@[i]) > 0,
        0 <= i < s.discard@.len() ==> s.all_cards().count(s.discard@[i]) > 0,
{
    if 0 <= i < s.deck@.len() {
        assert(s.deck@.contains(s.deck@[i]));
    }
    if 0 <= i < s.discard@.len() {
        assert(s.discard@.contains(s.discard@[i]));
    }
}

/// A card held anywhere at rest counts among all the cards.
pub proof fn lemma_held_card(s: GameState, p: PlayerID, i: int)
    requires
        is_player(p),
        0 <= i < s.hand_of(p)@.len(),
    ensures
        s.all_cards().count(s.hand_of(p)@[i]) > 0,
{
    let c = s.hand_of(p)@[i];
    assert(s.hand_of(p)@.contains(c));
    assert(p < 3 ==> s.hand_of(p) == s.cpu_hands[p as int]);
}

impl GameState {
    /// A game whose random choices all follow from `seed`, dealt and waiting for
    /// the rules to be chosen; the human plays first.
    pub fn new(seed: [u8; 16]) -> (r: GameState)
        ensures
            r.wf(),
            r.status == Status::ChooseBaseRule,
            r.current_player == HUMAN_PLAYER,
            r.hand_index == 0,
            r.card_animations@.len() == 0,
            r.winners@.len() == 0,
            r.wild_suit.is_none(),
            !r.awaiting_suit,
            r.discard@.len() == 0,
            r.deck@.len() == DECK_SIZE - 4 * HAND_SIZE,
            forall|p: PlayerID| is_player(p) ==> #[trigger] r.hand_of(p)@.len() == HAND_SIZE,
            r.log.lines().len() == 0,
            r.log_height == 0,
    {
        let mut state = GameState {
            deck: Hand::new(Spread::stack(DECK_X, DECK_Y)),
            discard: Hand::new(Spread::stack(DISCARD_X, DISCARD_Y)),
            cpu_hands: [
                Hand::new(Spread::stack(DECK_X, DECK_Y)),
                Hand::new(Spread::stack(DECK_X, DECK_Y)),
                Hand::new(Spread::stack(DECK_X, DECK_Y)),
            ],
            hand: Hand::new(Spread::stack(DECK_X, DECK_Y)),
            hand_index: 0,
            current_player: HUMAN_PLAYER,
            card_animations: Vec::new(),
            rng: rng_from_seed(seed),
            rules: Rules::new(BaseRule::SuitOrRank),
            wild_suit: None,
            status: Status::ChooseBaseRule,
            awaiting_suit: false,
            log: EventLog::new(),
            log_height: 0,
            winners: Vec::new(),
        };
        state.reset();
        state
    }

    /// Gathers every card into a fresh shuffled deck, deals again and goes back
    /// to choosing the rules; the log is kept.
    pub fn reset(&mut self)
        requires
            old(self).log.wf(),
        ensures
            final(self).wf(),
            final(self).status == Status::ChooseBaseRule,
            final(self).current_player == HUMAN_PLAYER,
            final(self).hand_index == 0,
            final(self).card_animations@.len() == 0,
            final(self).winners@.len() == 0,
            final(self).wild_suit.is_none(),
            !final(self).awaiting_suit,
            final(self).discard@.len() == 0,
            final(self).deck@.len() == DECK_SIZE - 4 * HAND_SIZE,
            forall|p: PlayerID| is_player(p) ==> #[trigger] final(self).hand_of(p)@.len() == HAND_SIZE,
            final(self).log == old(self).log,
            final(self).log_height == 0,
    {
        let mut deck = Hand::new_shuffled_deck(&mut self.rng);
        let ghost full = deck@;
        let hand = dealt_hand(
            &mut deck,
            Spread::LTR((TOP_AND_BOTTOM_HAND_MIN, TOP_AND_BOTTOM_HAND_MAX), PLAYER_HAND_HEIGHT),
        );
        let left = dealt_hand(
            &mut deck,
            Spread::TTB((LEFT_AND_RIGHT_HAND_MIN, LEFT_AND_RIGHT_HAND_MAX), LEFT_CPU_HAND_X),
        );
        let middle = dealt_hand(
            &mut deck,
            Spread::LTR((TOP_AND_BOTTOM_HAND_MIN, TOP_AND_BOTTOM_HAND_MAX), MIDDLE_CPU_HAND_HEIGHT),
        );
        let right = dealt_hand(
            &mut deck,
            Spread::TTB((LEFT_AND_RIGHT_HAND_MIN, LEFT_AND_RIGHT_HAND_MAX), RIGHT_CPU_HAND_X),
        );
        self.deck = deck;
        self.discard = Hand::new(Spread::stack(DISCARD_X, DISCARD_Y));
        self.cpu_hands = [left, middle, right];
        self.hand = hand;
        self.hand_index = 0;
        self.current_player = HUMAN_PLAYER;
        self.card_animations = Vec::new();
        self.rules = Rules::new(BaseRule::SuitOrRank);
        self.wild_suit = None;
        self.status = Status::ChooseBaseRule;
        self.awaiting_suit = false;
        self.log_height = 0;
        self.winners = Vec::new();
        proof {
            assert(anim_cards(self.card_animations@) =~= Seq::<Card>::empty());
            assert(self.all_cards() =~= full_deck().to_multiset());
            assert forall|p: PlayerID| is_player(p) implies #[trigger] self.hand_of(p)@.len() == HAND_SIZE by {
                assert(p < 3 ==> self.hand_of(p) == self.cpu_hands[p as int]);
            };
        }
    }

    /// Takes the card at `card_index` out of player `p`'s hand, at the place it was drawn.
    pub fn remove_positioned_card(&mut self, p: PlayerID, card_index: u8) -> (r: Option<
        PositionedCard,
    >)
        requires
            is_player(p),
            old(self).hand_of(p)@.len() < 255,
        ensures
            GameState::hands_agree_except(*old(self), *final(self), p),
            GameState::table_agrees(*old(self), *final(self)),
            final(self).rng == old(self).rng,
            final(self).hand_of(p).layout() == old(self).hand_of(p).layout(),
            card_index >= old(self).hand_of(p)@.len() ==> r.is_none() && final(self).hand_of(p)@
                == old(self).hand_of(p)@,
            card_index < old(self).hand_of(p)@.len() ==> r == Some(
                PositionedCard {
                    card: old(self).hand_of(p)@[card_index as int],
                    x: card_position(
                        old(self).hand_of(p).layout(),
                        old(self).hand_of(p)@.len() as u8,
                        card_index,
                    ).0,
                    y: card_position(
                        old(self).hand_of(p).layout(),
                        old(self).hand_of(p)@.len() as u8,
                        card_index,
                    ).1,
                },
            ) && final(self).hand_of(p)@ == old(self).hand_of(p)@.remove(card_index as int),
    {
        let hand = self.get_hand_mut(p);
        hand.remove_if_present(card_index)
    }

    /// The cards of the deck that are nowhere in the game, in increasing order.
    pub fn missing_cards(&self) -> (r: Vec<Card>)
        ensures
            forall|c: Card| r@.contains(c) <==> is_card(c) && self.all_cards().count(c) == 0,
            forall|i: int, j: int| 0 <= i < j < r@.len() ==> r@[i] < r@[j],
            self.conserved() ==> r@.len() == 0,
    {
        let mut seen: Vec<bool> = Vec::new();
        let mut i: u8 = 0;
        while i < DECK_SIZE
            invariant
                i <= DECK_SIZE,
                seen@.len() == i,
                forall|c: int| 0 <= c < i ==> !#[trigger] seen@[c],
            decreases DECK_SIZE - i,
        {
            seen.push(false);
            i = i + 1;
        }
        mark_seen(&mut seen, self.deck.iter());
        mark_seen(&mut seen, self.discard.iter());
        mark_seen(&mut seen, self.cpu_hands[0].iter());
        mark_seen(&mut seen, self.cpu_hands[1].iter());
        mark_seen(&mut seen, self.cpu_hands[2].iter());
        mark_seen(&mut seen, self.hand.iter());
        let ghost resting = seen@;
        let mut k: usize = 0;
        while k < self.card_animations.len()
            invariant
                k <= self.card_animations@.len(),
                seen@.len() == DECK_SIZE,
                forall|c: int|
                    0 <= c < DECK_SIZE ==> #[trigger] seen@[c] == (resting[c] || anim_cards(
                        self.card_animations@,
                    ).take(k as int).contains(c as Card)),
            decreases self.card_animations@.len() - k,
        {
            let card = self.card_animations[k].card.card;
            if card < DECK_SIZE {
                seen.set(card as usize, true);
            }
            proof {
                let cs = anim_cards(self.card_animations@);
                assert(cs.take(k + 1) =~= cs.take(k as int).push(card));
                assert forall|c: Card| #[trigger] cs.take(k + 1).contains(c) <==> cs.take(k as int).contains(c) || c == card by {
                    lemma_push_contains(cs.take(k as int), card, c);
                };
            }
            k = k + 1;
        }
        proof {
            let cs = anim_cards(self.card_animations@);
            assert(cs.take(k as int) =~= cs);
        }
        let mut missing: Vec<Card> = Vec::new();
        let mut c: u8 = 0;
        while c < DECK_SIZE
            invariant
                c <= DECK_SIZE,
                seen@.len() == DECK_SIZE,
                forall|d: Card| missing@.contains(d) <==> d < c && !seen@[d as int],
                forall|i: int, j: int| 0 <= i < j < missing@.len() ==> missing@[i] < missing@[j],
                forall|i: int| 0 <= i < missing@.len() ==> missing@[i] < c,
            decreases DECK_SIZE - c,
        {
            if !seen[c as usize] {
                let ghost before = missing@;
                missing.push(c);
                proof {
                    assert forall|d: Card| missing@.contains(d) <==> d < c + 1 && !seen@[d as int] by {
                        lemma_push_contains(before, c, d);
                    };
                }
            } else {
                assert forall|d: Card| missing@.contains(d) <==> d < c + 1 && !seen@[d as int] by {
                    if missing@.contains(d) {
                        let i = choose|i: int| 0 <= i < missing@.len() && missing@[i] == d;
                    }
                };
            }
            c = c + 1;
        }
        proof {
            let cs = anim_cards(self.card_animations@);
            assert forall|d: Card| missing@.contains(d) <==> is_card(d) && self.all_cards().count(d) == 0 by {
                if is_card(d) {
                    assert(seen@[d as int] == (self.deck@.contains(d) || self.discard@.contains(d)
                        || self.cpu_hands[0]@.contains(d) || self.cpu_hands[1]@.contains(d)
                        || self.cpu_hands[2]@.contains(d) || self.hand@.contains(d)
                        || cs.contains(d)));
                }
            };
            if self.conserved() {
                if missing@.len() > 0 {
                    let d = missing@[0];
                    assert(missing@.contains(d));
                    assert(full_deck()[d as int] == d);
                    assert(full_deck().contains(d));
                    assert(full_deck().to_multiset().count(d) > 0);
                    assert(self.all_cards().count(d) == 0);
                }
            }
        }
        missing
    }
}

pub proof fn lemma_push_contains<A>(s: Seq<A>, x: A, y: A)
    ensures
        s.push(x).contains(y) <==> s.contains(y) || y == x,
{
    if s.contains(y) {
        let j = choose|j: int| 0 <= j < s.len() && s[j] == y;
        assert(s.push(x)[j] == y);
    }
    if y == x {
        assert(s.push(x)[s.len() as int] == y);
    }
    if s.push(x).contains(y) && y != x {
        let j = choose|j: int| 0 <= j < s.len() + 1 && s.push(x)[j] == y;
        assert(s[j] == y);
    }
}

/// A new hand of `HAND_SIZE` cards from the top of `deck`.
fn dealt_hand(deck: &mut Hand, spread: Spread) -> (r: Hand)
    requires
        old(deck)@.len() >= HAND_SIZE,
    ensures
        r.layout() == spread,
        r@.len() == HAND_SIZE,
        final(deck)@.len() == old(deck)@.len() - HAND_SIZE,
        final(deck).layout() == old(deck).layout(),
        r@.to_multiset().add(final(deck)@.to_multiset()) == old(deck)@.to_multiset(),
{
    let mut hand = Hand::new(spread);
    let mut i: u8 = 0;
    while i < HAND_SIZE
        invariant
            i <= HAND_SIZE,
            old(deck)@.len() >= HAND_SIZE,
            hand.layout() == spread,
            hand@.len() == i,
            deck.layout() == old(deck).layout(),
            deck@.len() == old(deck)@.len() - i,
            hand@.to_multiset().add(deck@.to_multiset()) == old(deck)@.to_multiset(),
        decreases HAND_SIZE - i,
    {
        hand.draw_from(deck);
        i = i + 1;
    }
    hand
}

/// Marks every card of `cards` as seen.
fn mark_seen(seen: &mut Vec<bool>, cards: &[Card])
    requires
        old(seen)@.len() == DECK_SIZE,
    ensures
        final(seen)@.len() == DECK_SIZE,
        forall|c: int|
            0 <= c < DECK_SIZE ==> #[trigger] final(seen)@[c] == (old(seen)@[c] || cards@.contains(
                c as Card,
            )),
{
    let mut i: usize = 0;
    while i < cards.len()
        invariant
            i <= cards@.len(),
            seen@.len() == DECK_SIZE,
            forall|c: int|
                0 <= c < DECK_SIZE ==> #[trigger] seen@[c] == (old(seen)@[c] || cards@.take(
                    i as int,
                ).contains(c as Card)),
        decreases cards@.len() - i,
    {
        let card = cards[i];
        if card < DECK_SIZE {
            seen.set(card as usize, true);
        }
        proof {
            assert(cards@.take(i + 1) =~= cards@.take(i as int).push(card));
            assert forall|c: Card| #[trigger] cards@.take(i + 1).contains(c) <==> cards@.take(i as int).contains(c) || c == card by {
                lemma_push_contains(cards@.take(i as int), card, c);
            };
        }
        i = i + 1;
    }
    assert(cards@.take(i as int) =~= cards@);
}

} // verus!
