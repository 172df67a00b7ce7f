use vstd::prelude::*;

verus! {

/// A card is a number below `DECK_SIZE`: its suit is `card / 13`, its rank `card % 13`.
pub type Card = u8;

/// Identifies a player: `0 .. CPU_COUNT` are the CPU hands, `CPU_COUNT` is the human.
pub type PlayerID = u8;

pub const DECK_SIZE: u8 = 52;

pub const RANK_COUNT: u8 = 13;

pub const CPU_COUNT: u8 = 3;

pub const HUMAN_PLAYER: PlayerID = 3;

pub const PLAYER_COUNT: u8 = 4;

pub const CARD_WIDTH: u8 = 20;

pub const CARD_HEIGHT: u8 = 30;

/// The side length of the square screen, in pixels.
pub const SCREEN_LENGTH: u8 = 128;

pub const DECK_X: u8 = 40;

pub const DECK_Y: u8 = 49;

pub const DISCARD_X: u8 = 68;

pub const DISCARD_Y: u8 = 49;

/// Left and right edges of the hands at the top and at the bottom of the screen.
pub const TOP_AND_BOTTOM_HAND_MIN: u8 = 24;

pub const TOP_AND_BOTTOM_HAND_MAX: u8 = 104;

/// Top and bottom edges of the hands at the left and at the right of the screen.
pub const LEFT_AND_RIGHT_HAND_MIN: u8 = 14;

pub const LEFT_AND_RIGHT_HAND_MAX: u8 = 114;

pub const PLAYER_HAND_HEIGHT: u8 = 98;

pub const MIDDLE_CPU_HAND_HEIGHT: u8 = 0;

pub const LEFT_CPU_HAND_X: u8 = 0;

pub const RIGHT_CPU_HAND_X: u8 = 108;

#[derive(Clone, Copy, Debug, PartialEq, Eq, Structural)]
pub enum Suit {
    Clubs,
    Diamonds,
    Hearts,
    Spades,
}

pub open spec fn is_card(c: Card) -> bool {
    c < DECK_SIZE
}

pub open spec fn rank_of(c: Card) -> u8 {
    c % RANK_COUNT
}

pub open spec fn suit_of(c: Card) -> Suit {
    if c / RANK_COUNT == 0 {
        Suit::Clubs
    } else if c / RANK_COUNT == 1 {
        Suit::Diamonds
    } else if c / RANK_COUNT == 2 {
        Suit::Hearts
    } else {
        Suit::Spades
    }
}

pub open spec fn is_cpu(p: PlayerID) -> bool {
    p < CPU_COUNT
}

pub open spec fn is_player(p: PlayerID) -> bool {
    p <= HUMAN_PLAYER
}

pub fn get_suit(card: Card) -> (r: Suit)
    requires
        is_card(card),
    ensures
        r == suit_of(card),
{
    let s: u8 = card / RANK_COUNT;
    if s == 0 {
        Suit::Clubs
    } else if s == 1 {
        Suit::Diamonds
    } else if s == 2 {
        Suit::Hearts
    } else {
        Suit::Spades
    }
}

pub fn get_rank(card: Card) -> (r: u8)
    ensures
        r == rank_of(card),
        r < RANK_COUNT,
{
    card % RANK_COUNT
}

/// A card detached from any hand, at its current screen coordinates.
#[derive(Clone, Copy, Debug, PartialEq, Eq, Structural)]
pub struct PositionedCard {
    pub card: Card,
    pub x: u8,
    pub y: u8,
}

/// How a hand lays its cards out: along one axis between two edges, at a fixed
/// coordinate on the other axis.
#[derive(Clone, Copy, Debug, PartialEq, Eq)]
pub enum Spread {
    /// Left to right between `(min x, max x)`, at height `y`.
    LTR((u8, u8), u8),
    /// Top to bottom between `(min y, max y)`, at column `x`.
    TTB((u8, u8), u8),
}

pub open spec fn sat_add(a: u8, b: u8) -> u8 {
    if a + b > 255 { 255 } else { (a + b) as u8 }
}

pub open spec fn sat_sub(a: u8, b: u8) -> u8 {
    if a < b { 0 } else { (a - b) as u8 }
}

pub open spec fn sat_mul(a: u8, b: u8) -> u8 {
    if a * b > 255 { 255 } else { (a * b) as u8 }
}

pub open spec fn min_u8(a: u8, b: u8) -> u8 {
    if a <= b { a } else { b }
}

impl Spread {
    pub open spec fn span(self) -> u8 {
        match self {
            Spread::LTR(_, _) => CARD_WIDTH,
            Spread::TTB(_, _) => CARD_HEIGHT,
        }
    }

    pub open spec fn edges(self) -> (u8, u8) {
        match self {
            Spread::LTR(e, _) => e,
            Spread::TTB(e, _) => e,
        }
    }

    /// A spread just wide enough for one card: a pile such as the deck.
    pub fn stack(x: u8, y: u8) -> (r: Self)
        ensures
            r == Spread::LTR((x, sat_add(x, CARD_WIDTH)), y),
    {
        Spread::LTR((x, x.saturating_add(CARD_WIDTH)), y)
    }
}

/// The distance between neighbouring cards of a hand of `len` cards.
pub open spec fn card_offset(spread: Spread, len: u8) -> u8 {
    if len == 0 {
        0
    } else {
        let usable = sat_sub(sat_sub(spread.edges().1, spread.edges().0), spread.span());
        min_u8((usable / len) as u8, spread.span())
    }
}

pub open spec fn card_position(spread: Spread, len: u8, index: u8) -> (u8, u8) {
    let along = sat_add(spread.edges().0, sat_mul(card_offset(spread, len), index));
    match spread {
        Spread::LTR(_, y) => (along, y),
        Spread::TTB(_, x) => (x, along),
    }
}

/// The offset between cards: the free room beyond one card shared out evenly,
/// never more than a card's own width (or height).
pub fn get_card_offset(spread: Spread, len: u8) -> (r: u8)
    ensures
        r == card_offset(spread, len),
        r <= spread.span(),
{
    if len == 0 {
        return 0;
    }
    let (min_edge, max_edge, span) = match spread {
        Spread::LTR(edges, _) => (edges.0, edges.1, CARD_WIDTH),
        Spread::TTB(edges, _) => (edges.0, edges.1, CARD_HEIGHT),
    };
    let full_width = max_edge.saturating_sub(min_edge);
    let usable_width = full_width.saturating_sub(span);
    let share = usable_width / len;
    if share <= span {
        share
    } else {
        span
    }
}

/// Where the card at `index` of a hand of `len` cards is drawn.
pub fn get_card_position(spread: Spread, len: u8, index: u8) -> (r: (u8, u8))
    ensures
        r == card_position(spread, len, index),
{
    let offset = get_card_offset(spread, len);
    assert(offset as u16 * index as u16 <= 255 * 255) by (nonlinear_arith)
        requires
            offset <= 255,
            index <= 255,
    ;
    let product: u16 = offset as u16 * index as u16;
    let step: u8 = if product > 255 { 255 } else { product as u8 };
    match spread {
        Spread::LTR(edges, y) => (edges.0.saturating_add(step), y),
        Spread::TTB(edges, x) => (x, edges.0.saturating_add(step)),
    }
}

} // verus!
