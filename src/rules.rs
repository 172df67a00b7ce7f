use vstd::prelude::*;

use crate::card::{
    get_rank, get_suit, is_card, rank_of, suit_of, Card, Suit, DECK_SIZE,
};

verus! {

/// The rank that is wild before any customisation: the eights.
pub const DEFAULT_WILD_RANK: u8 = 7;

/// The rule a rule graph starts from, before customisation.
#[derive(Clone, Copy, Debug, PartialEq, Eq, Structural)]
pub enum BaseRule {
    /// A card may follow one of the same suit or of the same rank.
    SuitOrRank,
    /// A card may follow one of the same suit.
    SuitOnly,
    /// A card may follow one of the same rank.
    RankOnly,
}

pub open spec fn base_allows(base: BaseRule, top: Card, candidate: Card) -> bool {
    match base {
        BaseRule::SuitOrRank => suit_of(top) == suit_of(candidate) || rank_of(top) == rank_of(
            candidate,
        ),
        BaseRule::SuitOnly => suit_of(top) == suit_of(candidate),
        BaseRule::RankOnly => rank_of(top) == rank_of(candidate),
    }
}

/// The edits of a table, applied in order; an edit whose index is out of range
/// changes nothing.
pub open spec fn edited<T>(table: Seq<T>, edits: Seq<(int, T)>) -> Seq<T>
    decreases edits.len(),
{
    if edits.len() == 0 {
        table
    } else {
        let before = edited(table, edits.drop_last());
        let e = edits.last();
        if 0 <= e.0 < before.len() {
            before.update(e.0, e.1)
        } else {
            before
        }
    }
}

proof fn lemma_edited_len<T>(table: Seq<T>, edits: Seq<(int, T)>)
    ensures
        edited(table, edits).len() == table.len(),
    decreases edits.len(),
{
    if edits.len() > 0 {
        lemma_edited_len(table, edits.drop_last());
    }
}

/// The rules of play: which card may follow which, which cards are wild, and
/// how many players each card skips when it is discarded.
pub struct Rules {
    can_play: Vec<Vec<bool>>,
    wild: Vec<bool>,
    when_played: Vec<u8>,
}

impl Rules {
    pub closed spec fn wf(&self) -> bool {
        &&& self.can_play@.len() == DECK_SIZE
        &&& forall|t: int| 0 <= t < DECK_SIZE ==> #[trigger] self.can_play@[t]@.len() == DECK_SIZE
        &&& self.wild@.len() == DECK_SIZE
        &&& self.when_played@.len() == DECK_SIZE
    }

    /// Whether `candidate` may be played on `top` by the rule graph.
    pub closed spec fn can_follow(&self, top: Card, candidate: Card) -> bool {
        self.can_play@[top as int]@[candidate as int]
    }

    pub closed spec fn is_wild(&self, card: Card) -> bool {
        self.wild@[card as int]
    }

    /// How many players are skipped when `card` is discarded.
    pub closed spec fn skips(&self, card: Card) -> u8 {
        self.when_played@[card as int]
    }

    /// The graph as a table, row `top * 52 + candidate`.
    pub closed spec fn graph_table(&self) -> Seq<bool> {
        Seq::new(
            (DECK_SIZE * DECK_SIZE) as nat,
            |k: int| self.can_play@[k / (DECK_SIZE as int)]@[k % (DECK_SIZE as int)],
        )
    }

    pub closed spec fn wild_table(&self) -> Seq<bool> {
        self.wild@
    }

    pub closed spec fn skip_table(&self) -> Seq<u8> {
        self.when_played@
    }

    /// The rules of `base`, with the eights wild and no card skipping anyone.
    pub fn new(base: BaseRule) -> (r: Self)
        ensures
            r.wf(),
            forall|t: Card, c: Card|
                is_card(t) && is_card(c) ==> (#[trigger] r.can_follow(t, c) == base_allows(
                    base,
                    t,
                    c,
                )),
            forall|c: Card| is_card(c) ==> (#[trigger] r.is_wild(c) == (rank_of(c) == DEFAULT_WILD_RANK)),
            forall|c: Card| is_card(c) ==> #[trigger] r.skips(c) == 0,
    {
        let mut can_play: Vec<Vec<bool>> = Vec::new();
        let mut wild: Vec<bool> = Vec::new();
        let mut when_played: Vec<u8> = Vec::new();
        let mut top: u8 = 0;
        while top < DECK_SIZE
            invariant
                top <= DECK_SIZE,
                can_play@.len() == top,
                wild@.len() == top,
                when_played@.len() == top,
                forall|t: int| 0 <= t < top ==> #[trigger] can_play@[t]@.len() == DECK_SIZE,
                forall|t: int, c: int|
                    0 <= t < top && 0 <= c < DECK_SIZE ==> #[trigger] can_play@[t]@[c]
                        == base_allows(base, t as Card, c as Card),
                forall|c: int| 0 <= c < top ==> #[trigger] wild@[c] == (rank_of(c as Card) == DEFAULT_WILD_RANK),
                forall|c: int| 0 <= c < top ==> #[trigger] when_played@[c] == 0,
            decreases DECK_SIZE - top,
        {
            let top_suit = get_suit(top);
            let top_rank = get_rank(top);
            let mut row: Vec<bool> = Vec::new();
            let mut candidate: u8 = 0;
            while candidate < DECK_SIZE
                invariant
                    top < DECK_SIZE,
                    candidate <= DECK_SIZE,
                    top_suit == suit_of(top),
                    top_rank == rank_of(top),
                    row@.len() == candidate,
                    forall|c: int|
                        0 <= c < candidate ==> #[trigger] row@[c] == base_allows(
                            base,
                            top,
                            c as Card,
                        ),
                decreases DECK_SIZE - candidate,
            {
                let same_suit = get_suit(candidate) == top_suit;
                let same_rank = get_rank(candidate) == top_rank;
                let allowed = match base {
                    BaseRule::SuitOrRank => same_suit || same_rank,
                    BaseRule::SuitOnly => same_suit,
                    BaseRule::RankOnly => same_rank,
                };
                row.push(allowed);
                candidate = candidate + 1;
            }
            can_play.push(row);
            wild.push(get_rank(top) == DEFAULT_WILD_RANK);
            when_played.push(0);
            top = top + 1;
        }
        Rules { can_play, wild, when_played }
    }

    pub fn can_follow_exec(&self, top: Card, candidate: Card) -> (r: bool)
        requires
            self.wf(),
            is_card(top),
            is_card(candidate),
        ensures
            r == self.can_follow(top, candidate),
    {
        self.can_play[top as usize][candidate as usize]
    }

    pub fn is_wild_exec(&self, card: Card) -> (r: bool)
        requires
            self.wf(),
            is_card(card),
        ensures
            r == self.is_wild(card),
    {
        self.wild[card as usize]
    }

    pub fn skips_exec(&self, card: Card) -> (r: u8)
        requires
            self.wf(),
            is_card(card),
        ensures
            r == self.skips(card),
    {
        self.when_played[card as usize]
    }

    /// Whether `candidate` may be played now. A wild card always may. On a wild
    /// top card whose suit has been declared, only that suit may; on any other
    /// top card the rule graph decides; on an empty pile every card may.
    pub fn is_playable(&self, declared: Option<Suit>, top: Option<Card>, candidate: Card) -> (r:
        bool)
        requires
            self.wf(),
            is_card(candidate),
            top matches Some(t) ==> is_card(t),
        ensures
            r == playable(*self, declared, top, candidate),
    {
        if self.is_wild_exec(candidate) {
            return true;
        }
        match top {
            None => true,
            Some(t) => {
                if self.is_wild_exec(t) {
                    if let Some(suit) = declared {
                        return get_suit(candidate) == suit;
                    }
                }
                self.can_follow_exec(t, candidate)
            },
        }
    }

    /// Sets `can_follow(top, candidate)` to `allowed` for each edit in turn;
    /// edits naming no card are passed over.
    pub fn apply_graph_edits(&mut self, edits: &Vec<(Card, Card, bool)>)
        requires
            old(self).wf(),
        ensures
            final(self).wf(),
            final(self).graph_table() == edited(old(self).graph_table(), graph_edits(edits@)),
            final(self).wild_table() == old(self).wild_table(),
            final(self).skip_table() == old(self).skip_table(),
    {
        let mut i: usize = 0;
        while i < edits.len()
            invariant
                i <= edits@.len(),
                self.wf(),
                self.graph_table() == edited(old(self).graph_table(), graph_edits(edits@.take(i as int))),
                self.wild_table() == old(self).wild_table(),
                self.skip_table() == old(self).skip_table(),
            decreases edits@.len() - i,
        {
            let (top, candidate, allowed) = edits[i];
            proof {
                assert(graph_edits(edits@.take(i + 1)).drop_last() =~= graph_edits(edits@.take(i as int)));
                lemma_edited_len(old(self).graph_table(), graph_edits(edits@.take(i as int)));
            }
            let ghost before = self.graph_table();
            if top < DECK_SIZE && candidate < DECK_SIZE {
                self.can_play[top as usize].set(candidate as usize, allowed);
                proof {
                    let k = top * DECK_SIZE + candidate;
                    lemma_graph_index(top as int, candidate as int);
                    assert forall|j: int| 0 <= j < DECK_SIZE * DECK_SIZE implies #[trigger] self.graph_table()[j] == before.update(k, allowed)[j] by {
                        lemma_graph_split(j);
                    };
                    assert(self.graph_table() =~= before.update(k, allowed));
                }
            } else {
                proof {
                    let e = graph_edits(edits@.take(i + 1)).last();
                    assert(e.0 == -1);
                }
            }
            i = i + 1;
        }
        assert(edits@.take(edits@.len() as int) =~= edits@);
    }

    /// Sets the wildness of each card named, in turn; edits naming no card are passed over.
    pub fn apply_wild_edits(&mut self, edits: &Vec<(Card, bool)>)
        requires
            old(self).wf(),
        ensures
            final(self).wf(),
            final(self).graph_table() == old(self).graph_table(),
            final(self).wild_table() == edited(old(self).wild_table(), card_edits(edits@)),
            final(self).skip_table() == old(self).skip_table(),
    {
        let mut i: usize = 0;
        while i < edits.len()
            invariant
                i <= edits@.len(),
                self.wf(),
                self.graph_table() == old(self).graph_table(),
                self.wild_table() == edited(old(self).wild_table(), card_edits(edits@.take(i as int))),
                self.skip_table() == old(self).skip_table(),
            decreases edits@.len() - i,
        {
            let (card, wild) = edits[i];
            proof {
                assert(card_edits(edits@.take(i + 1)).drop_last() =~= card_edits(edits@.take(i as int)));
                lemma_edited_len(old(self).wild_table(), card_edits(edits@.take(i as int)));
            }
            if card < DECK_SIZE {
                self.wild.set(card as usize, wild);
            }
            i = i + 1;
        }
        assert(edits@.take(edits@.len() as int) =~= edits@);
    }

    /// Sets how many players each card named skips, in turn; edits naming no card are passed over.
    pub fn apply_when_played_edits(&mut self, edits: &Vec<(Card, u8)>)
        requires
            old(self).wf(),
        ensures
            final(self).wf(),
            final(self).graph_table() == old(self).graph_table(),
            final(self).wild_table() == old(self).wild_table(),
            final(self).skip_table() == edited(old(self).skip_table(), card_edits(edits@)),
    {
        let mut i: usize = 0;
        while i < edits.len()
            invariant
                i <= edits@.len(),
                self.wf(),
                self.graph_table() == old(self).graph_table(),
                self.wild_table() == old(self).wild_table(),
                self.skip_table() == edited(old(self).skip_table(), card_edits(edits@.take(i as int))),
            decreases edits@.len() - i,
        {
            let (card, skips) = edits[i];
            proof {
                assert(card_edits(edits@.take(i + 1)).drop_last() =~= card_edits(edits@.take(i as int)));
                lemma_edited_len(old(self).skip_table(), card_edits(edits@.take(i as int)));
            }
            if card < DECK_SIZE {
                self.when_played.set(card as usize, skips);
            }
            i = i + 1;
        }
        assert(edits@.take(edits@.len() as int) =~= edits@);
    }
}

/// Graph edits as edits of the flat table; one that names no card gets index -1.
pub open spec fn graph_edits(edits: Seq<(Card, Card, bool)>) -> Seq<(int, bool)> {
    edits.map_values(
        |e: (Card, Card, bool)|
            if is_card(e.0) && is_card(e.1) {
                (e.0 * DECK_SIZE + e.1, e.2)
            } else {
                (-1int, e.2)
            },
    )
}

pub open spec fn card_edits<T>(edits: Seq<(Card, T)>) -> Seq<(int, T)> {
    edits.map_values(|e: (Card, T)| if is_card(e.0) { (e.0 as int, e.1) } else { (-1int, e.1) })
}

proof fn lemma_graph_index(t: int, c: int)
    requires
        0 <= t < DECK_SIZE,
        0 <= c < DECK_SIZE,
    ensures
        (t * DECK_SIZE + c) / (DECK_SIZE as int) == t,
        (t * DECK_SIZE + c) % (DECK_SIZE as int) == c,
        0 <= t * DECK_SIZE + c < DECK_SIZE * DECK_SIZE,
{
    vstd::arithmetic::div_mod::lemma_fundamental_div_mod_converse(t * DECK_SIZE + c, (DECK_SIZE as int), t, c);
    assert(t * DECK_SIZE + c < DECK_SIZE * DECK_SIZE) by (nonlinear_arith)
        requires
            0 <= t < 52,
            0 <= c < 52,
    ;
}

proof fn lemma_graph_split(k: int)
    requires
        0 <= k < DECK_SIZE * DECK_SIZE,
    ensures
        0 <= k / (DECK_SIZE as int) < DECK_SIZE,
        0 <= k % (DECK_SIZE as int) < DECK_SIZE,
        k == (k / (DECK_SIZE as int)) * DECK_SIZE + k % (DECK_SIZE as int),
{
    vstd::arithmetic::div_mod::lemma_fundamental_div_mod(k, (DECK_SIZE as int));
    vstd::arithmetic::div_mod::lemma_div_pos_is_pos(k, (DECK_SIZE as int));
    vstd::arithmetic::div_mod::lemma_div_by_multiple_is_strongly_ordered(k, DECK_SIZE * DECK_SIZE, (DECK_SIZE as int), (DECK_SIZE as int));
}

/// Whether `candidate` may be played on `top` under `rules`, with `declared`
/// the suit named for a wild top card.
pub open spec fn playable(rules: Rules, declared: Option<Suit>, top: Option<Card>, candidate: Card) -> bool {
    if rules.is_wild(candidate) {
        true
    } else {
        match top {
            None => true,
            Some(t) => if rules.is_wild(t) && declared.is_some() {
                suit_of(candidate) == declared.unwrap()
            } else {
                rules.can_follow(t, candidate)
            },
        }
    }
}

/// On a wild top card with a declared suit, a card that is not wild itself may be
/// played exactly when it is of the declared suit: its rank does not matter.
pub proof fn wild_top_asks_for_declared_suit(
    rules: Rules,
    suit: Suit,
    top: Card,
    candidate: Card,
    other: Card,
)
    requires
        rules.is_wild(top),
        !rules.is_wild(candidate),
        !rules.is_wild(other),
        suit_of(candidate) == suit_of(other),
    ensures
        playable(rules, Some(suit), Some(top), candidate) <==> suit_of(candidate) == suit,
        playable(rules, Some(suit), Some(top), candidate) == playable(rules, Some(suit), Some(top), other),
{
}

} // verus!
