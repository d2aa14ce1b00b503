//! The engine's error taxonomy.
//!
//! Illegal move selections are recoverable (the move is refused and the
//! board unchanged); configuration and invariant problems are fatal at
//! setup: a game is never constructed from a corrupted board, so the
//! running engine never has to produce an undefined winner.

use vstd::prelude::*;

verus! {

/// A move selection named a color that is not in the acting player's
/// current legal-move set.
#[derive(Clone, Copy, Debug, PartialEq, Eq, Structural)]
pub struct IllegalMoveError;

/// The requested grid dimensions cannot host a game.
#[derive(Clone, Copy, Debug, PartialEq, Eq, Structural)]
pub enum ConfigurationError {
    /// Too small for two distinct, non-adjacent home cells.
    TooSmall,
    /// More cells than the engine's machine limits allow.
    TooLarge,
}

/// The supplied board data is corrupted and cannot seed a game.
#[derive(Clone, Copy, Debug, PartialEq, Eq, Structural)]
pub enum InvariantViolation {
    /// The tile vector does not hold exactly one color per cell.
    WrongCellCount,
    /// Some cell holds no valid game color.
    UndefinedColor,
    /// The two home corners share a color.
    HomesShareColor,
}

/// Why a game could not be set up from explicit board data.
#[derive(Clone, Copy, Debug, PartialEq, Eq, Structural)]
pub enum SetupError {
    Config(ConfigurationError),
    Invariant(InvariantViolation),
}

impl IllegalMoveError {
    /// A short description of the error.
    pub fn message(&self) -> (r: &'static str)
        ensures
            r@ =~= "color not in the acting player's legal-move set"@,
    {
        "color not in the acting player's legal-move set"
    }
}

} // verus!
