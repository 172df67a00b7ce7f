use vstd::prelude::*;

use crate::animation::Action;
use crate::arrival::{swept, swept_table};
use crate::card::{is_card, is_cpu, is_player, rank_of, Card, PlayerID, Suit, HUMAN_PLAYER};
use crate::game_state::{lemma_conserved_bounds, lemma_held_card, lemma_same_hands, GameState, Status};
use crate::log::LOG_WINDOW;
use crate::rules::{base_allows, card_edits, edited, graph_edits, BaseRule, Rules, DEFAULT_WILD_RANK};

verus! {

broadcast use vstd::seq_lib::group_to_multiset_ensures;

/// A sound the engine asks the platform to play.
#[derive(Clone, Copy, Debug, PartialEq, Eq, Structural)]
pub enum Sfx {
    ButtonPress,
    CardSlide,
    CardPlace,
}

/// The buttons pressed during one frame.
#[derive(Clone, Copy, Debug, Default, PartialEq, Eq, Structural)]
pub struct Input {
    pub left: bool,
    pub right: bool,
    pub up: bool,
    pub down: bool,
    /// The primary button: play the card under the cursor.
    pub a: bool,
    /// The secondary button: draw a card.
    pub b: bool,
    pub start: bool,
    /// Shows or hides the event log.
    pub select: bool,
}

/// A choice committed by the player through one of the dialogs.
pub enum Choice {
    BaseRule(BaseRule),
    GraphEdits(Vec<(Card, Card, bool)>),
    WildEdits(Vec<(Card, bool)>),
    WhenPlayedEdits(Vec<(Card, u8)>),
    Suit(Suit),
}

/// The highest cursor position in a hand of `len` cards.
pub open spec fn last_index(len: nat) -> nat {
    if len == 0 {
        0
    } else {
        (len - 1) as nat
    }
}

pub open spec fn min_nat(a: nat, b: nat) -> nat {
    if a <= b {
        a
    } else {
        b
    }
}

/// The cursor after one move to the left in a hand of `len` cards.
pub open spec fn cursor_left(i: nat, len: nat) -> nat {
    min_nat(if i == 0 { 0 } else { (i - 1) as nat }, last_index(len))
}

/// The cursor after one move to the right in a hand of `len` cards.
pub open spec fn cursor_right(i: nat, len: nat) -> nat {
    min_nat(i + 1, last_index(len))
}

pub open spec fn cursor_lefts(i: nat, len: nat, n: nat) -> nat
    decreases n,
{
    if n == 0 {
        i
    } else {
        cursor_left(cursor_lefts(i, len, (n - 1) as nat), len)
    }
}

pub open spec fn cursor_rights(i: nat, len: nat, n: nat) -> nat
    decreases n,
{
    if n == 0 {
        i
    } else {
        cursor_right(cursor_rights(i, len, (n - 1) as nat), len)
    }
}

/// However many times the cursor moves right, it stays on the last card or
/// before it; moving left, likewise, and never below the first card. Once on
/// the last card, moving right keeps it there.
pub proof fn cursor_stays_in_hand(i: nat, len: nat, n: nat)
    requires
        n >= 1,
    ensures
        cursor_rights(i, len, n) <= last_index(len),
        cursor_lefts(i, len, n) <= last_index(len),
        i == last_index(len) ==> cursor_rights(i, len, n) == last_index(len),
    decreases n,
{
    if n > 1 {
        cursor_stays_in_hand(i, len, (n - 1) as nat);
    } else {
        assert(cursor_rights(i, len, 0) == i);
        assert(cursor_lefts(i, len, 0) == i);
    }
}

impl GameState {
    /// Moves the cursor one card to the left, keeping it within the hand.
    pub fn move_cursor_left(&mut self)
        requires
            old(self).wf(),
        ensures
            *final(self) == (GameState {
                hand_index: cursor_left(old(self).hand_index as nat, old(self).hand@.len()) as u8,
                ..*old(self)
            }),
            final(self).hand_index <= last_index(final(self).hand@.len()),
    {
        proof {
            lemma_conserved_bounds(*self);
            assert(self.hand_of(HUMAN_PLAYER) == self.hand);
        }
        let len = self.hand.size();
        let last: usize = if len == 0 {
            0
        } else {
            len - 1
        };
        let moved: usize = if self.hand_index == 0 {
            0
        } else {
            (self.hand_index - 1) as usize
        };
        self.hand_index = if moved <= last {
            moved as u8
        } else {
            last as u8
        };
    }

    /// Moves the cursor one card to the right, never past the last card.
    pub fn move_cursor_right(&mut self)
        requires
            old(self).wf(),
        ensures
            *final(self) == (GameState {
                hand_index: cursor_right(old(self).hand_index as nat, old(self).hand@.len()) as u8,
                ..*old(self)
            }),
            final(self).hand_index <= last_index(final(self).hand@.len()),
    {
        proof {
            lemma_conserved_bounds(*self);
            assert(self.hand_of(HUMAN_PLAYER) == self.hand);
        }
        let len = self.hand.size();
        let last: usize = if len == 0 {
            0
        } else {
            len - 1
        };
        let moved: usize = self.hand_index as usize + 1;
        self.hand_index = if moved <= last {
            moved as u8
        } else {
            last as u8
        };
    }

    /// Whether the human may play the card under the cursor.
    pub open spec fn cursor_card_playable(&self) -> bool {
        self.hand_index < self.hand@.len() && self.playable_now(self.hand@[self.hand_index as int])
    }

    /// The human's turn: the primary button plays the card under the cursor if
    /// it may be played, the secondary one draws, left and right move the cursor.
    /// A play or a draw hands the turn to the first CPU player.
    pub fn human_turn(&mut self, input: Input, speaker: &mut Vec<Sfx>)
        requires
            old(self).wf(),
            old(self).current_player == HUMAN_PLAYER,
        ensures
            final(self).wf(),
            final(self).winners == old(self).winners,
            GameState::human_moved(*old(self), *final(self), input),
    {
        if input.a {
            let index = self.hand_index;
            if (index as usize) < self.hand.size() {
                proof {
                    assert(self.hand_of(HUMAN_PLAYER) == self.hand);
                    lemma_held_card(*self, HUMAN_PLAYER, index as int);
                    lemma_conserved_bounds(*self);
                }
                let card = self.hand.iter()[index as usize];
                if self.can_play(card) {
                    self.start_discard(HUMAN_PLAYER, index);
                    let ghost mid = *self;
                    self.current_player = 0;
                    proof {
                        lemma_same_hands(mid, *self);
                        assert(GameState::played(*old(self), *self, HUMAN_PLAYER, index as int));
                    }
                    speaker.push(Sfx::CardSlide);
                }
            }
        } else if input.b {
            self.start_draw(HUMAN_PLAYER);
            let ghost mid = *self;
            self.current_player = 0;
            proof {
                lemma_same_hands(mid, *self);
                assert(GameState::drew(*old(self), *self, HUMAN_PLAYER));
            }
            speaker.push(Sfx::CardSlide);
        } else if input.left {
            self.move_cursor_left();
            speaker.push(Sfx::ButtonPress);
        } else if input.right {
            self.move_cursor_right();
            speaker.push(Sfx::ButtonPress);
        }
    }
}

/// The suit a choice names, if it names one.
pub open spec fn chosen_suit(choice: Option<Choice>) -> Option<Suit> {
    match choice {
        Some(Choice::Suit(s)) => Some(s),
        _ => None,
    }
}

impl GameState {
    /// Whether this frame's update takes a turn: the game is on, the log is
    /// closed, no suit is awaited, no card is in flight and nobody has won.
    pub open spec fn turn_due(&self, input: Input, choice: Option<Choice>) -> bool {
        &&& self.status == Status::InGame
        &&& self.log_height == 0
        &&& !input.select
        &&& !(self.awaiting_suit && chosen_suit(choice).is_none())
        &&& self.card_animations@.len() == 0
        &&& self.winners@.len() == 0
    }

    /// One turn of the current player, after which every player whose hand is
    /// empty is recorded as a winner.
    pub fn take_turn(&mut self, input: Input, speaker: &mut Vec<Sfx>)
        requires
            old(self).wf(),
        ensures
            final(self).wf(),
            GameState::turn_taken(*old(self), *final(self), input),
    {
        if self.current_player < crate::card::CPU_COUNT {
            self.cpu_turn();
        } else {
            self.human_turn(input, speaker);
        }
        let ghost mid = *self;
        self.update_winners();
        proof {
            lemma_same_hands(mid, *self);
            let p = old(self).current_player;
            if is_cpu(p) && old(self).has_legal_move(p) {
                let i = choose|i: int|
                    old(self).playable_now(#[trigger] old(self).hand_of(p)@[i])
                        && GameState::played(*old(self), mid, p, i);
                assert(GameState::played(*old(self), *self, p, i));
            }
        }
    }

    /// One frame of the game. While the rules are being chosen, a committed
    /// choice of the current dialog is applied and the next dialog opens. In the
    /// game, an open log takes the input; else, unless a suit is awaited, a turn
    /// is taken when no card is in flight, or the cards in flight move on.
    pub fn update(&mut self, input: Input, choice: Option<Choice>, speaker: &mut Vec<Sfx>)
        requires
            old(self).wf(),
        ensures
            final(self).wf(),
            old(self).status == Status::ChooseBaseRule ==> (choice matches Some(Choice::BaseRule(b)) ==>
                final(self).status == Status::ChooseGraphEdits
                && (forall|t: Card, c: Card| is_card(t) && is_card(c) ==> #[trigger] final(self).rules.can_follow(t, c) == base_allows(b, t, c))
                && (forall|c: Card| is_card(c) ==> #[trigger] final(self).rules.is_wild(c) == (rank_of(c) == DEFAULT_WILD_RANK))
                && (forall|c: Card| is_card(c) ==> #[trigger] final(self).rules.skips(c) == 0)),
            old(self).status == Status::ChooseGraphEdits ==> (choice matches Some(Choice::GraphEdits(e)) ==>
                final(self).status == Status::ChooseWildEdits
                && final(self).rules.graph_table() == edited(old(self).rules.graph_table(), graph_edits(e@))
                && final(self).rules.wild_table() == old(self).rules.wild_table()
                && final(self).rules.skip_table() == old(self).rules.skip_table()),
            old(self).status == Status::ChooseWildEdits ==> (choice matches Some(Choice::WildEdits(e)) ==>
                final(self).status == Status::ChooseWhenPlayedEdits
                && final(self).rules.graph_table() == old(self).rules.graph_table()
                && final(self).rules.wild_table() == edited(old(self).rules.wild_table(), card_edits(e@))
                && final(self).rules.skip_table() == old(self).rules.skip_table()),
            old(self).status == Status::ChooseWhenPlayedEdits ==> (choice matches Some(Choice::WhenPlayedEdits(e)) ==>
                final(self).status == Status::InGame
                && final(self).rules.graph_table() == old(self).rules.graph_table()
                && final(self).rules.wild_table() == old(self).rules.wild_table()
                && final(self).rules.skip_table() == edited(old(self).rules.skip_table(), card_edits(e@))),
            old(self).status != Status::InGame && !dialog_answered(old(self).status, choice) ==> *final(self) == *old(self),
            old(self).status == Status::InGame ==> GameState::frame_done(*old(self), *final(self), input, choice),
    {
        match self.status {
            Status::ChooseBaseRule => {
                if let Some(Choice::BaseRule(base)) = choice {
                    self.rules = Rules::new(base);
                    self.status = Status::ChooseGraphEdits;
                }
            },
            Status::ChooseGraphEdits => {
                if let Some(Choice::GraphEdits(edits)) = &choice {
                    self.rules.apply_graph_edits(edits);
                    self.status = Status::ChooseWildEdits;
                }
            },
            Status::ChooseWildEdits => {
                if let Some(Choice::WildEdits(edits)) = &choice {
                    self.rules.apply_wild_edits(edits);
                    self.status = Status::ChooseWhenPlayedEdits;
                }
            },
            Status::ChooseWhenPlayedEdits => {
                if let Some(Choice::WhenPlayedEdits(edits)) = &choice {
                    self.rules.apply_when_played_edits(edits);
                    self.status = Status::InGame;
                }
            },
            Status::InGame => {
                self.play_frame(input, choice, speaker);
            },
        }
    }

    fn play_frame(&mut self, input: Input, choice: Option<Choice>, speaker: &mut Vec<Sfx>)
        requires
            old(self).wf(),
            old(self).status == Status::InGame,
        ensures
            final(self).wf(),
            GameState::frame_done(*old(self), *final(self), input, choice),
    {
        if self.log_height > 0 {
            if input.up {
                self.log.scroll_up();
            } else if input.down {
                self.log.scroll_down();
            }
            if input.select {
                self.log_height = 0;
            }
            return;
        }
        if input.select {
            self.log_height = LOG_WINDOW as u8;
            return;
        }
        let suit = match choice {
            Some(Choice::Suit(s)) => Some(s),
            _ => None,
        };
        if self.awaiting_suit && suit.is_none() {
            return;
        }
        if self.card_animations.len() == 0 {
            if self.winners.len() == 0 {
                self.take_turn(input, speaker);
            } else if input.start {
                self.reset();
            }
        } else {
            self.advance_card_animations(suit, speaker);
            if input.left {
                self.move_cursor_left();
                speaker.push(Sfx::ButtonPress);
            } else if input.right {
                self.move_cursor_right();
                speaker.push(Sfx::ButtonPress);
            }
        }
    }
}

impl GameState {
    /// `s2` keeps the phase of `s1`: its status, rules, declared and awaited
    /// suit, and whether the log is open.
    pub open spec fn keeps_phase(s1: GameState, s2: GameState) -> bool {
        &&& s2.status == s1.status
        &&& s2.rules == s1.rules
        &&& s2.wild_suit == s1.wild_suit
        &&& s2.awaiting_suit == s1.awaiting_suit
        &&& s2.log_height == s1.log_height
    }

    /// What the human's turn made of `s1`, all but the winners. The primary
    /// button plays the card under the cursor when it may be played and does
    /// nothing else otherwise; else the secondary button draws; a play or a draw
    /// passes the turn to the first CPU player. Else left or right moves the cursor.
    pub open spec fn human_moved(s1: GameState, s2: GameState, input: Input) -> bool {
        &&& input.a && s1.cursor_card_playable() ==> s2.current_player == 0
            && s2.hand_index == s1.hand_index && GameState::keeps_phase(s1, s2)
            && GameState::played(s1, s2, HUMAN_PLAYER, s1.hand_index as int) && s2.rng == s1.rng
        &&& input.a && !s1.cursor_card_playable() ==> s2 == (GameState { winners: s2.winners, ..s1 })
        &&& !input.a && input.b ==> s2.current_player == 0 && s2.hand_index == s1.hand_index
            && GameState::keeps_phase(s1, s2) && GameState::drew(s1, s2, HUMAN_PLAYER)
        &&& !input.a && !input.b && input.left ==> s2 == (GameState {
            hand_index: cursor_left(s1.hand_index as nat, s1.hand@.len()) as u8,
            winners: s2.winners,
            ..s1
        })
        &&& !input.a && !input.b && !input.left && input.right ==> s2 == (GameState {
            hand_index: cursor_right(s1.hand_index as nat, s1.hand@.len()) as u8,
            winners: s2.winners,
            ..s1
        })
        &&& !input.a && !input.b && !input.left && !input.right ==> s2 == (GameState {
            winners: s2.winners,
            ..s1
        })
    }

    /// What a turn made of `s1`. A CPU player plays one of its legal cards, or
    /// draws when it has none, and the turn passes to the next player; the
    /// human's turn is `human_moved`. Afterwards the winners are those there
    /// were and every player whose hand is empty.
    pub open spec fn turn_taken(s1: GameState, s2: GameState, input: Input) -> bool {
        let p = s1.current_player;
        &&& is_cpu(p) ==> s2.current_player == p + 1 && s2.hand_index == s1.hand_index
            && GameState::keeps_phase(s1, s2)
            && (!s1.has_legal_move(p) ==> GameState::drew(s1, s2, p))
            && (s1.has_legal_move(p) ==> exists|i: int|
                s1.playable_now(#[trigger] s1.hand_of(p)@[i]) && GameState::played(s1, s2, p, i))
        &&& p == HUMAN_PLAYER ==> GameState::human_moved(s1, s2, input)
        &&& forall|q: PlayerID| #[trigger] s2.winners@.contains(q) <==> s1.winners@.contains(q)
            || (is_player(q) && s2.hand_of(q)@.len() == 0)
    }

    /// What one frame of the game made of `s1`. An open log takes the input:
    /// up and down scroll it, select closes it, nothing else changes. Select
    /// opens a closed log. While a suit is awaited and none is chosen nothing
    /// changes. Else a turn is taken when no card is in flight and nobody has
    /// won; after a win, start deals a new game; cards in flight move on and
    /// those that arrive are carried out (`swept_table`).
    pub open spec fn frame_done(s1: GameState, s2: GameState, input: Input, choice: Option<Choice>) -> bool {
        let open_play = s1.log_height == 0 && !input.select
            && !(s1.awaiting_suit && chosen_suit(choice).is_none());
        &&& s2.status == Status::InGame || (s1.winners@.len() > 0 && s2.status == Status::ChooseBaseRule)
        &&& s1.log_height > 0 ==> s2 == (GameState {
            log: s2.log,
            log_height: if input.select { 0 } else { s1.log_height },
            ..s1
        }) && s2.log.lines() == s1.log.lines()
        &&& s1.log_height == 0 && input.select ==> s2 == (GameState { log_height: LOG_WINDOW as u8, ..s1 })
        &&& s1.log_height == 0 && !input.select && s1.awaiting_suit && chosen_suit(choice).is_none()
            ==> s2 == s1
        &&& s1.turn_due(input, choice) ==> GameState::turn_taken(s1, s2, input)
        &&& open_play && s1.card_animations@.len() == 0 && s1.winners@.len() > 0 ==>
            (input.start ==> s2.status == Status::ChooseBaseRule && s2.winners@.len() == 0)
            && (!input.start ==> s2 == s1)
        &&& open_play && s1.card_animations@.len() > 0 ==>
            s2.card_animations@ == swept(s1.card_animations@, chosen_suit(choice))
            && s2.table() == swept_table(s1.table(), s1.rules, s1.card_animations@, chosen_suit(choice))
            && s2.deck == s1.deck && s2.rng == s1.rng && s2.rules == s1.rules
    }
}

/// Whether `choice` answers the dialog that `status` shows.
pub open spec fn dialog_answered(status: Status, choice: Option<Choice>) -> bool {
    match status {
        Status::ChooseBaseRule => choice matches Some(Choice::BaseRule(_)),
        Status::ChooseGraphEdits => choice matches Some(Choice::GraphEdits(_)),
        Status::ChooseWildEdits => choice matches Some(Choice::WildEdits(_)),
        Status::ChooseWhenPlayedEdits => choice matches Some(Choice::WhenPlayedEdits(_)),
        Status::InGame => false,
    }
}

} // verus!
