use vstd::prelude::*;

use crate::card::{get_rank, get_suit, is_card, rank_of, suit_of, Card, PlayerID, Suit};

verus! {

/// How many lines the expanded log shows at once.
pub const LOG_WINDOW: usize = 8;

/// An append-only record of the game's events, one line each, read through a
/// window that scrolls.
pub struct EventLog {
    lines: Vec<String>,
    top: usize,
}

pub open spec fn player_name(p: PlayerID) -> Seq<char> {
    if p == 0 {
        "Cpu 0"@
    } else if p == 1 {
        "Cpu 1"@
    } else if p == 2 {
        "Cpu 2"@
    } else {
        "You"@
    }
}

pub open spec fn rank_name(rank: u8) -> Seq<char> {
    if rank == 0 {
        "Ace"@
    } else if rank == 1 {
        "Two"@
    } else if rank == 2 {
        "Three"@
    } else if rank == 3 {
        "Four"@
    } else if rank == 4 {
        "Five"@
    } else if rank == 5 {
        "Six"@
    } else if rank == 6 {
        "Seven"@
    } else if rank == 7 {
        "Eight"@
    } else if rank == 8 {
        "Nine"@
    } else if rank == 9 {
        "Ten"@
    } else if rank == 10 {
        "Jack"@
    } else if rank == 11 {
        "Queen"@
    } else {
        "King"@
    }
}

pub open spec fn suit_name(suit: Suit) -> Seq<char> {
    match suit {
        Suit::Clubs => "Clubs"@,
        Suit::Diamonds => "Diamonds"@,
        Suit::Hearts => "Hearts"@,
        Suit::Spades => "Spades"@,
    }
}

/// "an" before the ranks whose names start with a vowel (Ace, Eight), "a" before the rest.
pub open spec fn article(rank: u8) -> Seq<char> {
    if rank == 0 || rank == 7 {
        "an"@
    } else {
        "a"@
    }
}

pub open spec fn card_phrase(card: Card) -> Seq<char> {
    article(rank_of(card)) + " "@ + rank_name(rank_of(card)) + " of "@ + suit_name(suit_of(card))
}

pub open spec fn play_line(p: PlayerID, card: Card) -> Seq<char> {
    player_name(p) + " played "@ + card_phrase(card)
}

pub open spec fn draw_line(p: PlayerID) -> Seq<char> {
    player_name(p) + " drew a card"@
}

pub open spec fn wild_line(p: PlayerID, suit: Suit) -> Seq<char> {
    player_name(p) + " selected "@ + suit_name(suit)
}

pub fn get_player_name(p: PlayerID) -> (r: &'static str)
    ensures
        r@ == player_name(p),
{
    if p == 0 {
        "Cpu 0"
    } else if p == 1 {
        "Cpu 1"
    } else if p == 2 {
        "Cpu 2"
    } else {
        "You"
    }
}

pub fn get_rank_name(rank: u8) -> (r: &'static str)
    ensures
        r@ == rank_name(rank),
{
    if rank == 0 {
        "Ace"
    } else if rank == 1 {
        "Two"
    } else if rank == 2 {
        "Three"
    } else if rank == 3 {
        "Four"
    } else if rank == 4 {
        "Five"
    } else if rank == 5 {
        "Six"
    } else if rank == 6 {
        "Seven"
    } else if rank == 7 {
        "Eight"
    } else if rank == 8 {
        "Nine"
    } else if rank == 9 {
        "Ten"
    } else if rank == 10 {
        "Jack"
    } else if rank == 11 {
        "Queen"
    } else {
        "King"
    }
}

pub fn get_suit_name(suit: Suit) -> (r: &'static str)
    ensures
        r@ == suit_name(suit),
{
    match suit {
        Suit::Clubs => "Clubs",
        Suit::Diamonds => "Diamonds",
        Suit::Hearts => "Hearts",
        Suit::Spades => "Spades",
    }
}

pub fn get_article(rank: u8) -> (r: &'static str)
    ensures
        r@ == article(rank),
{
    if rank == 0 || rank == 7 {
        "an"
    } else {
        "a"
    }
}

/// "<player> played <article> <rank> of <suit>".
pub fn describe_play(p: PlayerID, card: Card) -> (r: String)
    requires
        is_card(card),
    ensures
        r@ == play_line(p, card),
{
    let rank = get_rank(card);
    let mut line = String::from_str(get_player_name(p));
    line.append(" played ");
    line.append(get_article(rank));
    line.append(" ");
    line.append(get_rank_name(rank));
    line.append(" of ");
    line.append(get_suit_name(get_suit(card)));
    proof {
        assert(line@ =~= play_line(p, card));
    }
    line
}

/// "<player> drew a card".
pub fn describe_draw(p: PlayerID) -> (r: String)
    ensures
        r@ == draw_line(p),
{
    let mut line = String::from_str(get_player_name(p));
    line.append(" drew a card");
    line
}

/// "<player> selected <suit>".
pub fn describe_wild(p: PlayerID, suit: Suit) -> (r: String)
    ensures
        r@ == wild_line(p, suit),
{
    let mut line = String::from_str(get_player_name(p));
    line.append(" selected ");
    line.append(get_suit_name(suit));
    line
}

impl EventLog {
    pub closed spec fn lines(&self) -> Seq<Seq<char>> {
        self.lines@.map_values(|s: String| s@)
    }

    /// The index of the first line in the window.
    pub closed spec fn top(&self) -> nat {
        self.top as nat
    }

    pub closed spec fn wf(&self) -> bool {
        self.top == 0 || self.top < self.lines@.len()
    }

    pub fn new() -> (r: Self)
        ensures
            r.lines() == Seq::<Seq<char>>::empty(),
            r.top() == 0,
            r.wf(),
    {
        let r = EventLog { lines: Vec::new(), top: 0 };
        assert(r.lines() =~= Seq::<Seq<char>>::empty());
        r
    }

    pub fn len(&self) -> (r: usize)
        ensures
            r == self.lines().len(),
    {
        self.lines.len()
    }

    pub fn push(&mut self, line: String)
        requires
            old(self).wf(),
        ensures
            final(self).wf(),
            final(self).lines() == old(self).lines().push(line@),
            final(self).top() == old(self).top(),
    {
        self.lines.push(line);
        assert(self.lines() =~= old(self).lines().push(line@));
    }

    /// Moves the window one line toward the oldest line, stopping at the first.
    pub fn scroll_up(&mut self)
        requires
            old(self).wf(),
        ensures
            final(self).wf(),
            final(self).lines() == old(self).lines(),
            final(self).top() == (if old(self).top() == 0 {
                0
            } else {
                old(self).top() - 1
            }),
    {
        if self.top > 0 {
            self.top = self.top - 1;
        }
    }

    /// Moves the window one line toward the newest line, stopping at the last.
    pub fn scroll_down(&mut self)
        requires
            old(self).wf(),
        ensures
            final(self).wf(),
            final(self).lines() == old(self).lines(),
            final(self).top() == (if old(self).top() + 1 < old(self).lines().len() {
                old(self).top() + 1
            } else {
                old(self).top()
            }),
    {
        if self.top < self.lines.len() && self.lines.len() - self.top > 1 {
            self.top = self.top + 1;
        }
    }

    /// The lines in the window: at most `LOG_WINDOW` of them, from `top` on.
    pub fn visible(&self) -> (r: Vec<String>)
        requires
            self.wf(),
        ensures
            r@.map_values(|s: String| s@) == self.lines().subrange(
                self.top() as int,
                if self.top() + LOG_WINDOW < self.lines().len() {
                    self.top() + LOG_WINDOW
                } else {
                    self.lines().len() as int
                },
            ),
    {
        let end: usize = if self.lines.len() - self.top > LOG_WINDOW {
            self.top + LOG_WINDOW
        } else {
            self.lines.len()
        };
        let mut out: Vec<String> = Vec::new();
        let mut i: usize = self.top;
        while i < end
            invariant
                self.top <= i <= end <= self.lines@.len(),
                out@.map_values(|s: String| s@) == self.lines().subrange(self.top as int, i as int),
            decreases end - i,
        {
            let line = self.lines[i].clone();
            let ghost before = out@;
            out.push(line);
            assert(out@ == before.push(line));
            assert(line@ == self.lines()[i as int]);
            assert(out@.map_values(|s: String| s@) =~= before.map_values(|s: String| s@).push(line@));
            assert(self.lines().subrange(self.top as int, i + 1) =~= self.lines().subrange(self.top as int, i as int).push(self.lines()[i as int]));
            assert(out@.map_values(|s: String| s@) =~= self.lines().subrange(self.top as int, i + 1));
            i = i + 1;
        }
        out
    }
}

} // verus!
