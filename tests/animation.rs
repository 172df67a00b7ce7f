use bartog::animation::{Action, CardAnimation};
use bartog::card::{PositionedCard, SCREEN_LENGTH};

const COORDS: [u8; 9] = [0, 1, 2, 15, 16, 17, 64, 100, 127];
const RATES: [u8; 7] = [1, 2, 3, 16, 100, 128, 254];

fn animations() -> Vec<CardAnimation> {
    let mut all = Vec::new();
    for &cx in COORDS.iter() {
        for &cy in COORDS.iter() {
            for &x in COORDS.iter() {
                for &y in COORDS.iter() {
                    for (k, &x_rate) in RATES.iter().enumerate() {
                        let y_rate = RATES[(k * 3 + 1) % RATES.len()];
                        let completion_action = if (cx ^ y) & 1 == 0 {
                            Action::MoveToDiscard
                        } else {
                            Action::MoveToHand(x % 4)
                        };
                        all.push(CardAnimation {
                            card: PositionedCard { card: (cx % 52), x: cx, y: cy },
                            x,
                            y,
                            x_rate,
                            y_rate,
                            completion_action,
                        });
                    }
                }
            }
        }
    }
    all
}

#[test]
fn test_approach_target_does_not_get_stuck() {
    for animation in animations() {
        if animation.is_complete() {
            continue;
        }
        let mut after = animation.clone();
        after.approach_target();
        assert!(after != animation, "{:?} did not move", animation);
    }
}

#[test]
fn test_approach_target_reaches_target() {
    for animation in animations() {
        if animation.is_complete() {
            continue;
        }
        let mut temp = animation.clone();
        let mut reached = false;
        for _ in 0..SCREEN_LENGTH as usize + 1 {
            temp.approach_target();
            if temp.is_complete() {
                reached = true;
                break;
            }
        }
        assert!(reached, "{:?} never arrived", animation);
    }
}

fn between(start: u8, now: u8, target: u8) -> bool {
    (start <= now && now <= target) || (target <= now && now <= start)
}

#[test]
fn approach_arrives_within_bound_and_never_overshoots() {
    for animation in animations() {
        let dx = (animation.card.x as i32 - animation.x as i32).unsigned_abs();
        let dy = (animation.card.y as i32 - animation.y as i32).unsigned_abs();
        let bound = std::cmp::max(dx / animation.x_rate as u32, dy / animation.y_rate as u32) + 1;
        let mut temp = animation;
        for _ in 0..bound {
            temp.approach_target();
            assert!(between(animation.card.x, temp.card.x, animation.x));
            assert!(between(animation.card.y, temp.card.y, animation.y));
        }
        assert!(temp.is_complete(), "{:?} not complete after {} steps", animation, bound);
    }
}

#[test]
fn approach_moves_by_rate_then_clamps() {
    let mut a = CardAnimation {
        card: PositionedCard { card: 3, x: 10, y: 200 },
        x: 22,
        y: 190,
        x_rate: 5,
        y_rate: 7,
        completion_action: Action::MoveToDiscard,
    };
    a.approach_target();
    assert_eq!((a.card.x, a.card.y), (15, 193));
    a.approach_target();
    assert_eq!((a.card.x, a.card.y), (20, 190));
    a.approach_target();
    assert_eq!((a.card.x, a.card.y), (22, 190));
    assert!(a.is_complete());
    a.approach_target();
    assert_eq!((a.card.x, a.card.y), (22, 190));
}

#[test]
fn large_rates_do_not_reverse_direction() {
    let mut a = CardAnimation {
        card: PositionedCard { card: 3, x: 0, y: 255 },
        x: 200,
        y: 0,
        x_rate: 200,
        y_rate: 250,
        completion_action: Action::MoveToDiscard,
    };
    a.approach_target();
    assert_eq!((a.card.x, a.card.y), (200, 5));
    a.approach_target();
    assert!(a.is_complete());
}

#[test]
fn new_derives_rates_from_distance() {
    let card = PositionedCard { card: 9, x: 0, y: 100 };
    let a = CardAnimation::new(card, 64, 97, Action::MoveToHand(2));
    assert_eq!(a.x_rate, 4);
    assert_eq!(a.y_rate, 1);
    assert_eq!((a.x, a.y), (64, 97));
    assert_eq!(a.card, card);
    assert_eq!(a.completion_action, Action::MoveToHand(2));
    let b = CardAnimation::new(PositionedCard { card: 9, x: 255, y: 5 }, 0, 5, Action::MoveToDiscard);
    assert_eq!(b.x_rate, 15);
    assert_eq!(b.y_rate, 1);
}
