//! The error taxonomy of the engine. Every failure an operation can
//! detect is reported as one of these recoverable values; no lookup or
//! action ever aborts the process.

use vstd::prelude::*;

verus! {

/// Why a table or player operation was rejected. Each variant is produced
/// by exactly the conditions its documentation states.
#[derive(Clone, Copy, Debug, PartialEq, Eq, Structural)]
pub enum GameError {
    /// The chosen seat already holds a player.
    SeatTaken,
    /// The table has already started or ended, so it cannot be joined.
    GameNotJoinable,
    /// No table with the given identifier exists.
    TableNotFound,
    /// The acting seat is not the seat whose turn it is.
    NotYourTurn,
    /// The player has folded or left and can take no further action.
    PlayerInactive,
    /// A check was attempted while the seat's bet is below the target.
    BetTooSmall,
    /// The seat's balance cannot cover the requested amount.
    InsufficientBalance,
    /// A start was attempted with fewer than three occupied seats.
    TooFewPlayers,
    /// A start was attempted while some occupied seat is not ready.
    NotAllReady,
    /// A lookup by seat or participant found nothing there.
    NotFound,
    /// A freshly drawn identifier is already in use; drawing again
    /// yields a new one.
    IdentifierTaken,
}

} // verus!
