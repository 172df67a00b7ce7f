//! A frame-stepped engine for the card game Bartog: card and hand model,
//! customisable legality rules, the turn state machine with its CPU players,
//! and the card animations whose arrival drives the game forward.

pub mod animation;
pub mod arrival;
pub mod card;
pub mod frame;
pub mod game_state;
pub mod hand;
pub mod log;
pub mod play;
mod random;
pub mod rules;
