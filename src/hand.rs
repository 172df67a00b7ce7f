use vstd::prelude::*;

use rand::prng::XorShiftRng;

use crate::card::{
    card_position, Card, PositionedCard, Spread, DECK_SIZE, DECK_X, DECK_Y,
    get_card_position, sat_add, CARD_WIDTH,
};
use crate::random::{random_index, shuffle_cards};

verus! {

broadcast use vstd::seq_lib::group_to_multiset_ensures;

/// Every card once, in order.
pub open spec fn full_deck() -> Seq<Card> {
    Seq::new(DECK_SIZE as nat, |i: int| i as Card)
}

/// The cards held by one slot of the game, bottom (index 0) to top, and how they are laid out.
pub struct Hand {
    cards: Vec<Card>,
    spread: Spread,
}

impl View for Hand {
    type V = Seq<Card>;

    closed spec fn view(&self) -> Seq<Card> {
        self.cards@
    }
}

pub fn fresh_deck() -> (r: Vec<Card>)
    ensures
        r@ == full_deck(),
{
    let mut deck: Vec<Card> = Vec::with_capacity(DECK_SIZE as usize);
    let mut i: u8 = 0;
    while i < DECK_SIZE
        invariant
            i <= DECK_SIZE,
            deck@ == full_deck().take(i as int),
        decreases DECK_SIZE - i,
    {
        deck.push(i);
        i = i + 1;
        assert(deck@ =~= full_deck().take(i as int));
    }
    assert(deck@ =~= full_deck());
    deck
}

/// Moving one card from one sequence to another keeps the cards of the two together.
pub proof fn lemma_move_card(a: Seq<Card>, b: Seq<Card>, i: int)
    requires
        0 <= i < a.len(),
    ensures
        a.remove(i).to_multiset().add(b.push(a[i]).to_multiset()) =~= a.to_multiset().add(
            b.to_multiset(),
        ),
{
}

impl Hand {
    /// The hand's layout.
    pub closed spec fn layout(&self) -> Spread {
        self.spread
    }

    pub fn spread(&self) -> (r: Spread)
        ensures
            r == self.layout(),
    {
        self.spread
    }

    /// Lays the same cards out another way.
    pub fn set_spread(&mut self, spread: Spread)
        ensures
            final(self)@ == old(self)@,
            final(self).layout() == spread,
    {
        self.spread = spread;
    }

    pub fn new(spread: Spread) -> (r: Self)
        ensures
            r@ == Seq::<Card>::empty(),
            r.layout() == spread,
    {
        Hand { cards: Vec::with_capacity(DECK_SIZE as usize), spread }
    }

    /// All the cards once each, in an order drawn from `rng`, stacked where the deck lies.
    pub fn new_shuffled_deck(rng: &mut XorShiftRng) -> (r: Self)
        ensures
            r@.to_multiset() == full_deck().to_multiset(),
            r@.len() == DECK_SIZE,
            r.layout() == Spread::LTR((DECK_X, sat_add(DECK_X, CARD_WIDTH)), DECK_Y),
    {
        let mut deck = fresh_deck();
        shuffle_cards(rng, &mut deck);
        Hand { cards: deck, spread: Spread::stack(DECK_X, DECK_Y) }
    }

    /// The number of cards, saturating at 255.
    pub fn len(&self) -> (r: u8)
        ensures
            r == (if self@.len() >= 255 {
                255
            } else {
                self@.len()
            }),
    {
        let len = self.cards.len();
        if len >= 255 {
            255
        } else {
            len as u8
        }
    }

    /// The exact number of cards.
    pub fn size(&self) -> (r: usize)
        ensures
            r == self@.len(),
    {
        self.cards.len()
    }

    /// The cards, bottom first.
    pub fn iter(&self) -> (r: &[Card])
        ensures
            r@ == self@,
    {
        self.cards.as_slice()
    }

    pub fn get(&self, index: usize) -> (r: Option<Card>)
        ensures
            r == (if index < self@.len() {
                Some(self@[index as int])
            } else {
                None::<Card>
            }),
    {
        if index < self.cards.len() {
            Some(self.cards[index])
        } else {
            None
        }
    }

    pub fn last(&self) -> (r: Option<Card>)
        ensures
            r == (if self@.len() > 0 {
                Some(self@.last())
            } else {
                None::<Card>
            }),
    {
        let len = self.cards.len();
        if len > 0 {
            Some(self.cards[len - 1])
        } else {
            None
        }
    }

    /// Takes the top card, if there is one.
    pub fn draw(&mut self) -> (r: Option<Card>)
        ensures
            final(self).layout() == old(self).layout(),
            old(self)@.len() == 0 ==> r.is_none() && final(self)@ == old(self)@,
            old(self)@.len() > 0 ==> r == Some(old(self)@.last()) && final(self)@ == old(self)@.drop_last(),
    {
        self.cards.pop()
    }

    pub fn push(&mut self, card: Card)
        ensures
            final(self)@ == old(self)@.push(card),
            final(self).layout() == old(self).layout(),
    {
        self.cards.push(card);
    }

    /// Moves the top card of `other`, if any, onto this hand.
    pub fn draw_from(&mut self, other: &mut Hand)
        ensures
            final(self).layout() == old(self).layout(),
            final(other).layout() == old(other).layout(),
            old(other)@.len() == 0 ==> final(self)@ == old(self)@ && final(other)@ == old(other)@,
            old(other)@.len() > 0 ==> final(self)@ == old(self)@.push(old(other)@.last())
                && final(other)@ == old(other)@.drop_last(),
            final(self)@.to_multiset().add(final(other)@.to_multiset()) == old(self)@.to_multiset().add(old(other)@.to_multiset()),
    {
        if let Some(card) = other.cards.pop() {
            self.cards.push(card);
            proof {
                lemma_move_card(old(other)@, old(self)@, old(other)@.len() - 1);
                assert(old(other)@.remove(old(other)@.len() - 1) =~= old(other)@.drop_last());
            }
        }
    }

    /// Moves the card at `index`, if there is one there, onto `other`.
    pub fn discard_to(&mut self, other: &mut Hand, index: usize)
        ensures
            final(self).layout() == old(self).layout(),
            final(other).layout() == old(other).layout(),
            index >= old(self)@.len() ==> final(self)@ == old(self)@ && final(other)@ == old(other)@,
            index < old(self)@.len() ==> final(self)@ == old(self)@.remove(index as int)
                && final(other)@ == old(other)@.push(old(self)@[index as int]),
            final(self)@.to_multiset().add(final(other)@.to_multiset()) == old(self)@.to_multiset().add(old(other)@.to_multiset()),
    {
        if index < self.cards.len() {
            let card = self.cards.remove(index);
            other.cards.push(card);
            proof {
                lemma_move_card(old(self)@, old(other)@, index as int);
            }
        }
    }

    /// Moves a card chosen by `rng`, if this hand has any, onto `other`.
    pub fn discard_randomly_to(&mut self, other: &mut Hand, rng: &mut XorShiftRng)
        ensures
            final(self).layout() == old(self).layout(),
            final(other).layout() == old(other).layout(),
            old(self)@.len() == 0 ==> final(self)@ == old(self)@ && final(other)@ == old(other)@
                && *final(rng) == *old(rng),
            old(self)@.len() > 0 ==> exists|i: int|
                0 <= i < old(self)@.len() && final(self)@ == old(self)@.remove(i) && final(other)@ == old(other)@.push(old(self)@[i]),
            final(self)@.to_multiset().add(final(other)@.to_multiset()) == old(self)@.to_multiset().add(old(other)@.to_multiset()),
    {
        let len = self.cards.len();
        if len > 0 {
            let index = random_index(rng, len);
            self.discard_to(other, index);
        }
    }

    /// Takes the card at `index` out of the hand, at the place where it was drawn.
    pub fn remove_if_present(&mut self, index: u8) -> (r: Option<PositionedCard>)
        requires
            old(self)@.len() < 255,
        ensures
            final(self).layout() == old(self).layout(),
            index >= old(self)@.len() ==> r.is_none() && final(self)@ == old(self)@,
            index < old(self)@.len() ==> r == Some(
                PositionedCard {
                    card: old(self)@[index as int],
                    x: card_position(old(self).layout(), old(self)@.len() as u8, index).0,
                    y: card_position(old(self).layout(), old(self)@.len() as u8, index).1,
                },
            ) && final(self)@ == old(self)@.remove(index as int),
    {
        let len = self.len();
        if index < len {
            let (x, y) = get_card_position(self.spread, len, index);
            let card = self.cards.remove(index as usize);
            Some(PositionedCard { card, x, y })
        } else {
            None
        }
    }

    /// Hands over every card, leaving the hand empty.
    pub fn take_all(&mut self) -> (r: Vec<Card>)
        ensures
            r@ == old(self)@,
            final(self)@ == Seq::<Card>::empty(),
            final(self).layout() == old(self).layout(),
    {
        let mut taken: Vec<Card> = Vec::new();
        taken.append(&mut self.cards);
        taken
    }

    /// Puts `cards` on top of this hand's cards.
    pub fn extend(&mut self, cards: Vec<Card>)
        ensures
            final(self)@ == old(self)@ + cards@,
            final(self).layout() == old(self).layout(),
    {
        let mut cards = cards;
        self.cards.append(&mut cards);
    }

    pub fn shuffle(&mut self, rng: &mut XorShiftRng)
        ensures
            final(self)@.to_multiset() == old(self)@.to_multiset(),
            final(self)@.len() == old(self)@.len(),
            final(self).layout() == old(self).layout(),
    {
        shuffle_cards(rng, &mut self.cards);
    }
}

} // verus!
