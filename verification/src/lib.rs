//! A server-side Texas Hold'em engine: a table registry, a per-table
//! hand/betting state machine, and a per-seat player betting state machine.
//!
//! The engine owns all chip accounting. Its central invariant is chip
//! conservation: across joins, bets, blinds, round advances and payouts,
//! the chips at a table always add up to the number of occupied seats
//! times the initial balance each seat was given.

pub mod cards;
pub mod seats;
pub mod errors;
pub mod eval;
pub mod game;
pub mod games_manager;
pub mod player;
pub mod random;
