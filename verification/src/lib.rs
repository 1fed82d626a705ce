//! A verified Minesweeper engine: a dense tile grid with randomized mine
//! placement keyed off a guaranteed-safe first click, exact adjacency
//! counting, flood-fill reveal of zero-adjacency regions, flag toggling,
//! and a session state machine sequencing the game's phases.
//!
//! The engine is presentation-agnostic: an input layer hands it tile
//! coordinates and logical click kinds, and reads back per-tile snapshots
//! and display hints to draw.

pub mod board;
pub mod counting;
pub mod grid;
mod rng;
pub mod session;

pub use board::Board;
pub use grid::Coord;
pub use grid::FlagOutcome;
pub use grid::GameError;
pub use grid::LossDisplay;
pub use grid::RevealOutcome;
pub use grid::Tile;
pub use session::Difficulty;
pub use session::GameSession;
pub use session::Phase;
pub use session::TileSnapshot;
