//! A two-player territory-capture game engine on a rectangular grid of
//! colored tiles.
//!
//! Each player owns a fixed home cell; ownership of every other cell is
//! derived, never stored: after every move it is recomputed by a
//! multi-source flood fill over the grid's adjacency graph
//! (`resolve_territory`). A move recolors the acting player's entire
//! connected same-color region (`apply_move`), which can capture newly
//! adjacent enemy-colored cells. The colors a player may pick are derived
//! from the ownership frontier minus the exclusion rule (`legal_moves`),
//! and a turn/victory state machine (`Game::advance`) sequences it all.

pub mod errors;
pub mod grid;
pub mod laws;
pub mod legal;
pub mod moves;
pub mod player;
pub mod pq;
pub mod reach;
pub mod state;
pub mod stats;
pub mod territory;
pub mod tile;

pub use errors::ConfigurationError;
pub use errors::IllegalMoveError;
pub use errors::InvariantViolation;
pub use errors::SetupError;
pub use legal::legal_moves;
pub use legal::LegalMoves;
pub use legal::TileSet;
pub use moves::apply_move;
pub use moves::recolor_region;
pub use player::Player;
pub use state::initialize;
pub use state::Game;
pub use state::MoveSelection;
pub use state::TurnState;
pub use stats::player_stats;
pub use stats::PlayerStats;
pub use territory::resolve_territory;
pub use tile::Tile;
