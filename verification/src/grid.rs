//! The basic vocabulary of the engine: tile coordinates, the per-tile
//! state record, and the outcome types of the board operations.

use vstd::prelude::*;

verus! {

/// A tile position on the board, 1-based in both axes:
/// `1 <= col <= width`, `1 <= row <= height`.
#[derive(Clone, Copy, PartialEq, Eq, Structural, Debug, Hash)]
pub struct Coord {
    pub col: usize,
    pub row: usize,
}

/// One cell of the grid. `adjacent_mine_count` is meaningful only for
/// non-mine tiles, where it holds the number of mined neighbors
/// (8-directional, clipped at the board edge).
#[derive(Clone, Copy, PartialEq, Eq, Structural, Debug)]
pub struct Tile {
    pub is_mine: bool,
    pub adjacent_mine_count: u8,
    pub covered: bool,
    pub flagged: bool,
}

impl Tile {
    /// The state every tile starts in: covered, unflagged, no mine,
    /// zero adjacency.
    pub fn fresh() -> (t: Tile)
        ensures
            t == Tile::fresh_spec(),
    {
        Tile { is_mine: false, adjacent_mine_count: 0, covered: true, flagged: false }
    }

    pub open spec fn fresh_spec() -> Tile {
        Tile { is_mine: false, adjacent_mine_count: 0, covered: true, flagged: false }
    }

    /// The same tile with its cover removed.
    pub open spec fn uncovered_spec(self) -> Tile {
        Tile {
            is_mine: self.is_mine,
            adjacent_mine_count: self.adjacent_mine_count,
            covered: false,
            flagged: self.flagged,
        }
    }

    /// The same tile with its flag flipped.
    pub open spec fn flag_toggled_spec(self) -> Tile {
        Tile {
            is_mine: self.is_mine,
            adjacent_mine_count: self.adjacent_mine_count,
            covered: self.covered,
            flagged: !self.flagged,
        }
    }
}

/// Why a board could not be built or mined.
#[derive(Clone, Copy, PartialEq, Eq, Structural, Debug)]
pub enum GameError {
    /// The dimensions and mine count do not admit a game: the grid is
    /// empty, the mines would fill it, or too few cells lie outside the
    /// safe zone of the first click.
    InvalidConfig,
    /// Mines were already placed on this board.
    AlreadyPlaced,
}

/// What a reveal request did.
#[derive(Debug)]
pub enum RevealOutcome {
    /// The request was a no-op: the tile was already uncovered, was
    /// flagged, lay out of bounds, or the game was over.
    NoChange,
    /// The revealed tile was a mine.
    HitMine,
    /// The listed tiles flipped from covered to uncovered.
    Revealed(Vec<Coord>),
}

/// What a flag request did.
#[derive(Clone, Copy, PartialEq, Eq, Structural, Debug)]
pub enum FlagOutcome {
    /// The request was a no-op: the tile was uncovered, lay out of
    /// bounds, or the phase does not accept flags.
    NoChange,
    /// The tile is now flagged.
    Flagged,
    /// The tile is no longer flagged.
    Unflagged,
}

/// How a tile should be drawn once the game is lost.
#[derive(Clone, Copy, PartialEq, Eq, Structural, Debug)]
pub enum LossDisplay {
    /// A covered, unflagged mine: show the bomb.
    Bomb,
    /// A flag on a tile that holds no mine: show the crossed flag.
    WrongFlag,
}

/// Chebyshev distance at most 1: `b` is `a` itself or one of its
/// up-to-8 neighbors.
pub open spec fn in_zone_of(a: Coord, b: Coord) -> bool {
    &&& a.col - 1 <= b.col <= a.col + 1
    &&& a.row - 1 <= b.row <= a.row + 1
}

/// `b` is one of the up-to-8 neighbors of `a` (excluding `a` itself).
pub open spec fn is_neighbor(a: Coord, b: Coord) -> bool {
    in_zone_of(a, b) && a != b
}

/// `v` is the row-major position of some cell of a `w x h` grid that lies
/// outside the safe zone around `safe`.
pub open spec fn cell_outside_zone(w: int, h: int, safe: Coord, v: int) -> bool {
    exists|cc: Coord|
        1 <= cc.col <= w && 1 <= cc.row <= h && !in_zone_of(safe, cc) && v == (cc.row - 1) * w + (
        cc.col - 1)
}

} // verus!
