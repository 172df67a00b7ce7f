use vstd::prelude::*;

use crate::card::{PlayerID, PositionedCard};

verus! {

/// What happens to a card when its animation arrives.
#[derive(Clone, Copy, Debug, PartialEq, Eq, Structural)]
pub enum Action {
    /// The card goes on top of the discard pile.
    MoveToDiscard,
    /// The card is a wild card that the player must name a suit for, then it is discarded.
    SelectWild(PlayerID),
    /// The card joins the player's hand.
    MoveToHand(PlayerID),
}

/// A card in flight from its current coordinates to `(x, y)`.
#[derive(Clone, Copy, Debug, PartialEq, Eq, Structural)]
pub struct CardAnimation {
    pub card: PositionedCard,
    pub x: u8,
    pub y: u8,
    pub x_rate: u8,
    pub y_rate: u8,
    pub completion_action: Action,
}

/// The larger the factor, the more frames an animation takes.
pub const DELAY_FACTOR: u8 = 16;

pub open spec fn distance(a: u8, b: u8) -> nat {
    if a >= b {
        (a - b) as nat
    } else {
        (b - a) as nat
    }
}

/// One step of `pos` toward `target`, of at most `rate`.
pub open spec fn step_axis(pos: u8, target: u8, rate: u8) -> u8 {
    if pos == target {
        pos
    } else if pos > target {
        if pos - target <= rate {
            target
        } else {
            (pos - rate) as u8
        }
    } else {
        if target - pos <= rate {
            target
        } else {
            (pos + rate) as u8
        }
    }
}

/// Where `pos` stands after `n` steps toward `target`.
pub open spec fn steps_axis(pos: u8, target: u8, rate: u8, n: nat) -> u8
    decreases n,
{
    if n == 0 {
        pos
    } else {
        steps_axis(step_axis(pos, target, rate), target, rate, (n - 1) as nat)
    }
}

/// The approach rate for a distance: a fixed fraction of it, at least 1.
pub open spec fn rate_for(distance: nat) -> u8 {
    if distance / (DELAY_FACTOR as nat) >= 1 {
        (distance / (DELAY_FACTOR as nat)) as u8
    } else {
        1
    }
}

impl CardAnimation {
    /// Both rates are positive, so that every step makes progress.
    pub open spec fn wf(self) -> bool {
        self.x_rate >= 1 && self.y_rate >= 1
    }

    pub open spec fn complete(self) -> bool {
        self.card.x == self.x && self.card.y == self.y
    }

    /// The animation after one step.
    pub open spec fn approached(self) -> CardAnimation {
        CardAnimation {
            card: PositionedCard {
                card: self.card.card,
                x: step_axis(self.card.x, self.x, self.x_rate),
                y: step_axis(self.card.y, self.y, self.y_rate),
            },
            ..self
        }
    }

    /// The animation after `n` steps.
    pub open spec fn approached_n(self, n: nat) -> CardAnimation
        decreases n,
    {
        if n == 0 {
            self
        } else {
            self.approached().approached_n((n - 1) as nat)
        }
    }

    /// The number of steps within which the animation is sure to arrive.
    pub open spec fn steps_bound(self) -> nat {
        let sx = distance(self.card.x, self.x) / (self.x_rate as nat);
        let sy = distance(self.card.y, self.y) / (self.y_rate as nat);
        if sx >= sy {
            sx + 1
        } else {
            sy + 1
        }
    }

    /// An animation of `card` to `(x, y)`, with each axis's rate set by its distance.
    pub fn new(card: PositionedCard, x: u8, y: u8, completion_action: Action) -> (r: Self)
        ensures
            r.card == card,
            r.x == x,
            r.y == y,
            r.x_rate == rate_for(distance(card.x, x)),
            r.y_rate == rate_for(distance(card.y, y)),
            r.completion_action == completion_action,
            r.wf(),
    {
        let x_diff: u8 = if card.x > x {
            card.x - x
        } else {
            x - card.x
        };
        let y_diff: u8 = if card.y > y {
            card.y - y
        } else {
            y - card.y
        };
        let x_rate: u8 = if x_diff / DELAY_FACTOR >= 1 {
            x_diff / DELAY_FACTOR
        } else {
            1
        };
        let y_rate: u8 = if y_diff / DELAY_FACTOR >= 1 {
            y_diff / DELAY_FACTOR
        } else {
            1
        };
        CardAnimation { card, x, y, x_rate, y_rate, completion_action }
    }

    pub fn is_complete(&self) -> (r: bool)
        ensures
            r == self.complete(),
    {
        self.card.x == self.x && self.card.y == self.y
    }

    /// Moves the card one step toward the target on each axis, never past it.
    pub fn approach_target(&mut self)
        ensures
            *final(self) == old(self).approached(),
            old(self).wf() && !old(self).complete() ==> final(self).card != old(self).card,
    {
        let (d_x, d_y) = self.get_delta();
        self.card.x = (self.card.x as i16 + d_x) as u8;
        self.card.y = (self.card.y as i16 + d_y) as u8;
    }

    /// The signed move on each axis: the distance to the target, clamped to the rate.
    fn get_delta(&self) -> (r: (i16, i16))
        ensures
            r.0 == step_axis(self.card.x, self.x, self.x_rate) - self.card.x,
            r.1 == step_axis(self.card.y, self.y, self.y_rate) - self.card.y,
    {
        (axis_delta(self.card.x, self.x, self.x_rate), axis_delta(self.card.y, self.y, self.y_rate))
    }
}

fn axis_delta(pos: u8, target: u8, rate: u8) -> (r: i16)
    ensures
        r == step_axis(pos, target, rate) - pos,
{
    if pos == target {
        0
    } else if pos > target {
        let diff: u8 = pos - target;
        if diff <= rate {
            -(diff as i16)
        } else {
            -(rate as i16)
        }
    } else {
        let diff: u8 = target - pos;
        if diff <= rate {
            diff as i16
        } else {
            rate as i16
        }
    }
}

/// After `n` steps at a positive rate the distance left is what `n` full steps
/// do not cover, and the position never passes the target.
proof fn lemma_steps_axis(pos: u8, target: u8, rate: u8, n: nat)
    requires
        rate >= 1,
    ensures
        distance(steps_axis(pos, target, rate, n), target) == (if n * rate >= distance(pos, target) {
            0
        } else {
            distance(pos, target) - n * rate
        }),
        pos <= target ==> pos <= steps_axis(pos, target, rate, n) <= target,
        pos >= target ==> target <= steps_axis(pos, target, rate, n) <= pos,
    decreases n,
{
    if n > 0 {
        let next = step_axis(pos, target, rate);
        lemma_steps_axis(next, target, rate, (n - 1) as nat);
        let d = distance(pos, target);
        assert((n - 1) * rate + rate == n * rate) by (nonlinear_arith);
        if d <= rate {
            assert(n * rate >= rate) by (nonlinear_arith)
                requires
                    n >= 1,
            ;
        }
    }
}

proof fn lemma_approached_n(a: CardAnimation, n: nat)
    ensures
        a.approached_n(n) == (CardAnimation {
            card: PositionedCard {
                card: a.card.card,
                x: steps_axis(a.card.x, a.x, a.x_rate, n),
                y: steps_axis(a.card.y, a.y, a.y_rate, n),
            },
            ..a
        }),
    decreases n,
{
    if n > 0 {
        lemma_approached_n(a.approached(), (n - 1) as nat);
    }
}

proof fn lemma_bound_covers(d: nat, rate: u8, n: nat)
    requires
        rate >= 1,
        n >= d / (rate as nat) + 1,
    ensures
        n * rate >= d,
{
    let r = rate as nat;
    vstd::arithmetic::div_mod::lemma_fundamental_div_mod(d as int, r as int);
    assert(n * r >= (d / r + 1) * r) by (nonlinear_arith)
        requires
            n >= d / r + 1,
    ;
    assert((d / r + 1) * r == r * (d / r) + r) by (nonlinear_arith);
}

/// An animation with positive rates is complete after `steps_bound` steps, and
/// stays complete after any further steps.
pub proof fn approach_target_converges(a: CardAnimation, n: nat)
    requires
        a.wf(),
        n >= a.steps_bound(),
    ensures
        a.approached_n(n).complete(),
{
    lemma_approached_n(a, n);
    lemma_steps_axis(a.card.x, a.x, a.x_rate, n);
    lemma_steps_axis(a.card.y, a.y, a.y_rate, n);
    lemma_bound_covers(distance(a.card.x, a.x), a.x_rate, n);
    lemma_bound_covers(distance(a.card.y, a.y), a.y_rate, n);
}

/// However many steps are taken, each coordinate stays between where it started
/// and its target: no step carries a card past its target.
pub proof fn approach_target_never_overshoots(a: CardAnimation, n: nat)
    requires
        a.wf(),
    ensures
        a.card.x <= a.x ==> a.card.x <= a.approached_n(n).card.x <= a.x,
        a.card.x >= a.x ==> a.x <= a.approached_n(n).card.x <= a.card.x,
        a.card.y <= a.y ==> a.card.y <= a.approached_n(n).card.y <= a.y,
        a.card.y >= a.y ==> a.y <= a.approached_n(n).card.y <= a.card.y,
{
    lemma_approached_n(a, n);
    lemma_steps_axis(a.card.x, a.x, a.x_rate, n);
    lemma_steps_axis(a.card.y, a.y, a.y_rate, n);
}

/// A step always moves an animation that has not arrived.
pub proof fn approach_target_makes_progress(a: CardAnimation)
    requires
        a.wf(),
        !a.complete(),
    ensures
        a.approached().card.x != a.card.x || a.approached().card.y != a.card.y,
{
}

} // verus!
