//! The board: a dense grid of tiles with mine layout, adjacency counts,
//! reveal with flood-fill, flag toggling, and the win/loss queries.

use vstd::prelude::*;

use crate::counting::count_matching;
use crate::counting::lemma_count_matching_agree;
use crate::counting::lemma_count_matching_bounds;
use crate::counting::lemma_count_matching_update;
use crate::counting::lemma_count_matching_zero;
use crate::grid::cell_outside_zone;
use crate::grid::in_zone_of;
use crate::grid::is_neighbor;
use crate::grid::Coord;
use crate::grid::FlagOutcome;
use crate::grid::GameError;
use crate::grid::LossDisplay;
use crate::grid::RevealOutcome;
use crate::grid::Tile;

verus! {

/// The number of mines recorded in a tile sequence.
pub open spec fn count_mines(s: Seq<Tile>) -> int {
    count_matching(s, |t: Tile| t.is_mine)
}

/// The number of covered tiles in a tile sequence.
pub open spec fn count_covered(s: Seq<Tile>) -> int {
    count_matching(s, |t: Tile| t.covered)
}

/// Everything a reveal at `coord` does, relating the board before (`b0`)
/// and after (`b1`) to the outcome `r`: which of the three outcomes comes
/// on which boards, and exactly which tiles lose their cover. This is the
/// contract of `Board::reveal`, and of the session's primary click while
/// the game is active.
pub open spec fn reveal_post(b0: Board, b1: Board, coord: Coord, r: RevealOutcome) -> bool {
    let t0 = b0.spec_tile(coord);
    &&& b1.spec_width() == b0.spec_width()
    &&& b1.spec_height() == b0.spec_height()
    &&& b1.spec_mine_count() == b0.spec_mine_count()
    &&& b1.spec_mines_placed() == b0.spec_mines_placed()
    &&& ((r is NoChange) <==> (!t0.covered || t0.flagged))
    &&& ((r is HitMine) <==> (t0.covered && !t0.flagged && t0.is_mine))
    &&& ((r is Revealed) <==> (t0.covered && !t0.flagged && !t0.is_mine))
    &&& (r is NoChange ==> b1 == b0)
    &&& (r is HitMine ==> forall|c: Coord|
        b0.contains_coord(c) ==> #[trigger] b1.spec_tile(c) == (if c == coord {
            b0.spec_tile(c).uncovered_spec()
        } else {
            b0.spec_tile(c)
        }))
    &&& (r matches RevealOutcome::Revealed(changed) ==> {
        &&& changed@.no_duplicates()
        &&& changed@.contains(coord)
        &&& (forall|c: Coord|
            #![trigger changed@.contains(c)]
            #![trigger b0.flood_reaches(coord, c)]
            changed@.contains(c) <==> b0.flood_reaches(coord, c))
        &&& (forall|c: Coord|
            b0.contains_coord(c) ==> #[trigger] b1.spec_tile(c) == (if b0.flood_reaches(
                coord,
                c,
            ) {
                b0.spec_tile(c).uncovered_spec()
            } else {
                b0.spec_tile(c)
            }))
    })
}

/// Everything a flag toggle at `coord` does, relating the board before
/// (`b0`) and after (`b1`) to the outcome `r`. This is the contract of
/// `Board::toggle_flag`, and of the session's secondary click while the
/// game is active.
pub open spec fn flag_post(b0: Board, b1: Board, coord: Coord, r: FlagOutcome) -> bool {
    let t0 = b0.spec_tile(coord);
    &&& b1.spec_width() == b0.spec_width()
    &&& b1.spec_height() == b0.spec_height()
    &&& b1.spec_mine_count() == b0.spec_mine_count()
    &&& b1.spec_mines_placed() == b0.spec_mines_placed()
    &&& ((r is NoChange) <==> !t0.covered)
    &&& ((r is Flagged) <==> (t0.covered && !t0.flagged))
    &&& ((r is Unflagged) <==> (t0.covered && t0.flagged))
    &&& (r is NoChange ==> b1 == b0)
    &&& (!(r is NoChange) ==> forall|c: Coord|
        b0.contains_coord(c) ==> #[trigger] b1.spec_tile(c) == (if c == coord {
            b0.spec_tile(c).flag_toggled_spec()
        } else {
            b0.spec_tile(c)
        }))
}

/// A dense `width x height` grid of tiles, in row-major order, with the
/// mine budget and a flag recording whether the mines have been laid yet.
pub struct Board {
    pub tiles: Vec<Tile>,
    pub width: usize,
    pub height: usize,
    pub mine_count: usize,
    pub mines_placed: bool,
}

impl Board {
    pub open spec fn spec_width(self) -> int {
        self.width as int
    }

    pub open spec fn spec_height(self) -> int {
        self.height as int
    }

    pub open spec fn spec_mine_count(self) -> int {
        self.mine_count as int
    }

    pub open spec fn spec_mines_placed(self) -> bool {
        self.mines_placed
    }

    /// The tiles in row-major order: row 1 first, each row left to right.
    pub open spec fn tiles_seq(self) -> Seq<Tile> {
        self.tiles@
    }

    /// Whether `c` lies on this board.
    pub open spec fn contains_coord(self, c: Coord) -> bool {
        &&& 1 <= c.col <= self.spec_width()
        &&& 1 <= c.row <= self.spec_height()
    }

    /// The row-major position of `c` in `tiles_seq`.
    pub open spec fn spec_index(self, c: Coord) -> int {
        (c.row - 1) * self.spec_width() + (c.col - 1)
    }

    /// The tile at `c`.
    pub open spec fn spec_tile(self, c: Coord) -> Tile {
        self.tiles_seq()[self.spec_index(c)]
    }

    /// Whether the cell at the (possibly out-of-range) position
    /// `(col, row)` exists and holds a mine. Out-of-range positions count
    /// as mine-free, which is exactly the edge-clipping rule for
    /// adjacency.
    pub open spec fn mine_at(self, col: int, row: int) -> bool {
        &&& 1 <= col <= self.spec_width()
        &&& 1 <= row <= self.spec_height()
        &&& self.tiles_seq()[(row - 1) * self.spec_width() + (col - 1)].is_mine
    }

    /// The exact number of mined neighbors of `c`: all 8 directions,
    /// with neighbors beyond the edge contributing nothing.
    pub open spec fn spec_adjacent_mines(self, c: Coord) -> int {
        (if self.mine_at(c.col - 1, c.row - 1) { 1int } else { 0int })
        + (if self.mine_at(c.col as int, c.row - 1) { 1int } else { 0int })
        + (if self.mine_at(c.col + 1, c.row - 1) { 1int } else { 0int })
        + (if self.mine_at(c.col - 1, c.row as int) { 1int } else { 0int })
        + (if self.mine_at(c.col + 1, c.row as int) { 1int } else { 0int })
        + (if self.mine_at(c.col - 1, c.row + 1) { 1int } else { 0int })
        + (if self.mine_at(c.col as int, c.row + 1) { 1int } else { 0int })
        + (if self.mine_at(c.col + 1, c.row + 1) { 1int } else { 0int })
    }

    /// A tile can be flagged only while covered.
    pub open spec fn flags_only_on_covered(self) -> bool {
        forall|c: Coord|
            #![trigger self.spec_tile(c)]
            self.contains_coord(c) && self.spec_tile(c).flagged ==> self.spec_tile(c).covered
    }

    /// Every non-mine tile stores the exact count of its mined neighbors.
    pub open spec fn adjacency_correct(self) -> bool {
        forall|c: Coord|
            #![trigger self.spec_tile(c)]
            self.contains_coord(c) && !self.spec_tile(c).is_mine
                ==> self.spec_tile(c).adjacent_mine_count == self.spec_adjacent_mines(c)
    }

    /// The grid is dense and nonempty and its area is addressable.
    pub open spec fn dims_ok(self) -> bool {
        &&& self.tiles_seq().len() == self.spec_width() * self.spec_height()
        &&& 1 <= self.spec_width()
        &&& 1 <= self.spec_height()
        &&& self.spec_width() * self.spec_height() <= usize::MAX
    }

    /// The board invariant: the grid is dense and nonempty, the mine
    /// budget leaves at least one free tile, flags sit only on covered
    /// tiles, adjacency counts are exact, and the number of mines on the
    /// grid is the budget once placed and zero before.
    pub open spec fn wf(self) -> bool {
        &&& self.dims_ok()
        &&& self.spec_mine_count() < self.spec_width() * self.spec_height()
        &&& self.flags_only_on_covered()
        &&& self.adjacency_correct()
        &&& (self.spec_mines_placed() ==> count_mines(self.tiles_seq()) == self.spec_mine_count())
        &&& (!self.spec_mines_placed() ==> count_mines(self.tiles_seq()) == 0)
    }

    /// Every tile is in its start state: covered, unflagged, mine-free,
    /// zero adjacency.
    pub open spec fn all_fresh(self) -> bool {
        forall|i: int|
            0 <= i < self.tiles_seq().len() ==> self.tiles_seq()[i] == Tile::fresh_spec()
    }

    /// Smallest on-board column of the safe zone around `safe`: one to the
    /// left of it, clipped at the board edge.
    pub open spec fn zone_lo_col(self, safe: Coord) -> int {
        if safe.col > 1 {
            safe.col - 1
        } else {
            1
        }
    }

    /// Largest on-board column of the safe zone around `safe`.
    pub open spec fn zone_hi_col(self, safe: Coord) -> int {
        if safe.col < self.spec_width() {
            safe.col + 1
        } else {
            self.spec_width()
        }
    }

    /// Smallest on-board row of the safe zone around `safe`.
    pub open spec fn zone_lo_row(self, safe: Coord) -> int {
        if safe.row > 1 {
            safe.row - 1
        } else {
            1
        }
    }

    /// Largest on-board row of the safe zone around `safe`.
    pub open spec fn zone_hi_row(self, safe: Coord) -> int {
        if safe.row < self.spec_height() {
            safe.row + 1
        } else {
            self.spec_height()
        }
    }

    /// The number of on-board cells in the safe zone around `safe`: the
    /// 3x3 block centered there, clipped at the edges, so a rectangle of
    /// up to 3 columns by up to 3 rows.
    pub open spec fn spec_zone_size(self, safe: Coord) -> int {
        (self.zone_hi_col(safe) - self.zone_lo_col(safe) + 1) * (self.zone_hi_row(safe)
            - self.zone_lo_row(safe) + 1)
    }

    /// How many cells may hold a mine when `safe` is the protected
    /// coordinate: all cells except the safe zone.
    pub open spec fn spec_free_cells(self, safe: Coord) -> int {
        self.spec_width() * self.spec_height() - self.spec_zone_size(safe)
    }

    /// The safe zone never exceeds the full 3x3 block.
    pub proof fn lemma_zone_size_bounds(self, safe: Coord)
        requires
            self.contains_coord(safe),
        ensures
            1 <= self.spec_zone_size(safe) <= 9,
    {
        let zc = self.zone_hi_col(safe) - self.zone_lo_col(safe) + 1;
        let zr = self.zone_hi_row(safe) - self.zone_lo_row(safe) + 1;
        assert(1 <= zc <= 3);
        assert(1 <= zr <= 3);
        assert(1 <= zc * zr <= 9) by (nonlinear_arith)
            requires
                1 <= zc <= 3,
                1 <= zr <= 3,
        ;
    }

    /// Row-major positions of on-board coordinates lie within the grid.
    pub proof fn lemma_index_in_range(self, c: Coord)
        requires
            self.contains_coord(c),
        ensures
            0 <= self.spec_index(c) < self.spec_width() * self.spec_height(),
    {
        let w = self.spec_width();
        let h = self.spec_height();
        assert((c.row - 1) * w + (c.col - 1) < h * w) by (nonlinear_arith)
            requires
                1 <= c.col <= w,
                1 <= c.row <= h,
        ;
        assert(h * w == w * h) by (nonlinear_arith);
        assert((c.row - 1) * w >= 0) by (nonlinear_arith)
            requires
                1 <= c.row,
                1 <= w,
        ;
    }

    /// Distinct on-board coordinates occupy distinct row-major positions.
    pub proof fn lemma_index_injective(self, a: Coord, b: Coord)
        requires
            self.contains_coord(a),
            self.contains_coord(b),
            self.spec_index(a) == self.spec_index(b),
        ensures
            a == b,
    {
        let w = self.spec_width();
        assert(a.row == b.row && a.col == b.col) by (nonlinear_arith)
            requires
                1 <= a.col <= w,
                1 <= b.col <= w,
                1 <= a.row,
                1 <= b.row,
                (a.row - 1) * w + (a.col - 1) == (b.row - 1) * w + (b.col - 1),
        ;
    }

    /// Allocates a fresh board: every tile covered, unflagged and
    /// mine-free, no mines placed yet. Rejects a configuration whose grid
    /// is empty or whose mine budget would fill (or overfill) the grid.
    pub fn new(width: usize, height: usize, mine_count: usize) -> (r: Result<Board, GameError>)
        requires
            width * height <= usize::MAX,
        ensures
            r is Err <==> (width * height == 0 || mine_count >= width * height),
            r matches Err(e) ==> e == GameError::InvalidConfig,
            r matches Ok(b) ==> {
                &&& b.wf()
                &&& b.spec_width() == width
                &&& b.spec_height() == height
                &&& b.spec_mine_count() == mine_count
                &&& !b.spec_mines_placed()
                &&& b.all_fresh()
                &&& b.tiles_seq().len() == width * height
            },
    {
        if width == 0 || height == 0 {
            return Err(GameError::InvalidConfig);
        }
        proof {
            assert(width * height >= 1 && width * height >= width && width * height >= height)
                by (nonlinear_arith)
                requires
                    width >= 1,
                    height >= 1,
            ;
        }
        let area = width * height;
        if mine_count >= area {
            return Err(GameError::InvalidConfig);
        }
        let mut tiles: Vec<Tile> = Vec::new();
        let mut i: usize = 0;
        while i < area
            invariant
                i <= area,
                tiles@.len() == i,
                forall|j: int| 0 <= j < i ==> tiles@[j] == Tile::fresh_spec(),
            decreases area - i,
        {
            tiles.push(Tile::fresh());
            i = i + 1;
        }
        let b = Board { tiles, width, height, mine_count, mines_placed: false };
        proof {
            lemma_count_matching_zero(b.tiles_seq(), |t: Tile| t.is_mine);
            assert forall|col: int, row: int| !b.mine_at(col, row) by {
                if 1 <= col <= b.spec_width() && 1 <= row <= b.spec_height() {
                    let c = Coord { col: col as usize, row: row as usize };
                    b.lemma_index_in_range(c);
                    assert(b.tiles_seq()[b.spec_index(c)] == Tile::fresh_spec());
                }
            }
            assert forall|c: Coord| b.contains_coord(c) implies #[trigger] b.spec_tile(c)
                == Tile::fresh_spec() by {
                b.lemma_index_in_range(c);
            }
        }
        Ok(b)
    }

    /// Width of the safe zone in columns.
    spec fn zone_cols(self, safe: Coord) -> int {
        self.zone_hi_col(safe) - self.zone_lo_col(safe) + 1
    }

    /// Number of safe-zone rows strictly before `row`.
    spec fn zone_rows_below(self, safe: Coord, row: int) -> int {
        let lo = self.zone_lo_row(safe);
        let hi = self.zone_hi_row(safe);
        let top = if row - 1 <= hi {
            row - 1
        } else {
            hi
        };
        if top >= lo {
            top - lo + 1
        } else {
            0
        }
    }

    /// Number of safe-zone columns strictly before `col`.
    spec fn zone_cols_below(self, safe: Coord, col: int) -> int {
        let lo = self.zone_lo_col(safe);
        let hi = self.zone_hi_col(safe);
        let top = if col - 1 <= hi {
            col - 1
        } else {
            hi
        };
        if top >= lo {
            top - lo + 1
        } else {
            0
        }
    }

    /// Two boards of the same shape with the same mine layout see the
    /// same mined-neighbor counts.
    proof fn lemma_adjacent_depends_on_mines(a: Board, b: Board, c: Coord)
        requires
            a.spec_width() == b.spec_width(),
            a.spec_height() == b.spec_height(),
            a.tiles_seq().len() == b.tiles_seq().len(),
            a.tiles_seq().len() == a.spec_width() * a.spec_height(),
            forall|k: int|
                0 <= k < a.tiles_seq().len() ==> (#[trigger] a.tiles_seq()[k]).is_mine
                    == b.tiles_seq()[k].is_mine,
        ensures
            a.spec_adjacent_mines(c) == b.spec_adjacent_mines(c),
    {
        assert forall|col: int, row: int| #[trigger] a.mine_at(col, row) == b.mine_at(col, row) by {
            if 1 <= col <= a.spec_width() && 1 <= row <= a.spec_height() {
                let cc = Coord { col: col as usize, row: row as usize };
                a.lemma_index_in_range(cc);
            }
        }
    }

    /// Lays exactly `mine_count` mines on uniformly random distinct cells
    /// outside the safe zone around `safe` (the 3x3 block centered there,
    /// clipped at the edges), then stores the exact mined-neighbor count
    /// in every non-mine tile. A one-time operation: a second call is
    /// refused with `AlreadyPlaced`, and a board whose free cells cannot
    /// hold the mine budget is refused with `InvalidConfig`.
    pub fn place_mines(&mut self, safe: Coord) -> (r: Result<(), GameError>)
        requires
            old(self).wf(),
            old(self).contains_coord(safe),
        ensures
            final(self).wf(),
            final(self).spec_width() == old(self).spec_width(),
            final(self).spec_height() == old(self).spec_height(),
            final(self).spec_mine_count() == old(self).spec_mine_count(),
            r is Ok <==> (!old(self).spec_mines_placed() && old(self).spec_mine_count() <= old(
                self,
            ).spec_free_cells(safe)),
            r matches Err(e) ==> *final(self) == *old(self) && (e == GameError::AlreadyPlaced
                <==> old(self).spec_mines_placed()) && (e == GameError::InvalidConfig <==> !old(
                self,
            ).spec_mines_placed()),
            r is Ok ==> {
                &&& final(self).spec_mines_placed()
                &&& count_mines(final(self).tiles_seq()) == old(self).spec_mine_count()
                &&& forall|c: Coord|
                    final(self).contains_coord(c) && in_zone_of(safe, c) ==> !(
                    #[trigger] final(self).spec_tile(c)).is_mine
                &&& forall|c: Coord|
                    final(self).contains_coord(c) ==> ((#[trigger] final(self).spec_tile(
                        c,
                    )).covered == old(self).spec_tile(c).covered && final(self).spec_tile(
                        c,
                    ).flagged == old(self).spec_tile(c).flagged)
            },
    {
        if self.mines_placed {
            return Err(GameError::AlreadyPlaced);
        }
        let w = self.width;
        let h = self.height;

        // Gather the row-major positions of every cell outside the safe
        // zone, walking the grid row by row.
        let lo_col = if safe.col > 1 {
            safe.col - 1
        } else {
            1
        };
        let hi_col = if safe.col < w {
            safe.col + 1
        } else {
            w
        };
        let lo_row = if safe.row > 1 {
            safe.row - 1
        } else {
            1
        };
        let hi_row = if safe.row < h {
            safe.row + 1
        } else {
            h
        };
        let mut eligible: Vec<usize> = Vec::new();
        let mut ri: usize = 0;
        while ri < h
            invariant
                *self == *old(self),
                old(self).wf(),
                old(self).contains_coord(safe),
                w == self.width,
                h == self.height,
                lo_col as int == self.zone_lo_col(safe),
                hi_col as int == self.zone_hi_col(safe),
                lo_row as int == self.zone_lo_row(safe),
                hi_row as int == self.zone_hi_row(safe),
                ri <= h,
                forall|k: int|
                    0 <= k < eligible@.len() ==> #[trigger] eligible@[k] < self.tiles_seq().len(),
                forall|k: int|
                    0 <= k < eligible@.len() ==> cell_outside_zone(
                        w as int,
                        h as int,
                        safe,
                        #[trigger] eligible@[k] as int,
                    ),
                forall|k: int|
                    0 <= k < eligible@.len() ==> #[trigger] eligible@[k] < ri * self.spec_width(),
                forall|k1: int, k2: int|
                    0 <= k1 < k2 < eligible@.len() ==> eligible@[k1] != eligible@[k2],
                eligible@.len() == ri * self.spec_width() - self.zone_cols(safe)
                    * self.zone_rows_below(safe, ri + 1),
            decreases h - ri,
        {
            let row = ri + 1;
            let ghost len_at_entry = eligible@.len() as int;
            let mut ci: usize = 0;
            while ci < w
                invariant
                    *self == *old(self),
                    old(self).wf(),
                    old(self).contains_coord(safe),
                    w == self.width,
                    h == self.height,
                    lo_col as int == self.zone_lo_col(safe),
                    hi_col as int == self.zone_hi_col(safe),
                    lo_row as int == self.zone_lo_row(safe),
                    hi_row as int == self.zone_hi_row(safe),
                    ri < h,
                    row == ri + 1,
                    ci <= w,
                    forall|k: int|
                        0 <= k < eligible@.len() ==> #[trigger] eligible@[k]
                            < self.tiles_seq().len(),
                    forall|k: int|
                        0 <= k < eligible@.len() ==> cell_outside_zone(
                            w as int,
                            h as int,
                            safe,
                            #[trigger] eligible@[k] as int,
                        ),
                    forall|k: int|
                        0 <= k < eligible@.len() ==> #[trigger] eligible@[k] < ri
                            * self.spec_width() + ci,
                    forall|k1: int, k2: int|
                        0 <= k1 < k2 < eligible@.len() ==> eligible@[k1] != eligible@[k2],
                    len_at_entry == ri * self.spec_width() - self.zone_cols(safe)
                        * self.zone_rows_below(safe, ri + 1),
                    eligible@.len() == len_at_entry + ci - (if self.zone_lo_row(safe) <= row
                        && row <= self.zone_hi_row(safe) {
                        self.zone_cols_below(safe, ci + 1)
                    } else {
                        0int
                    }),
                decreases w - ci,
            {
                let col = ci + 1;
                if col < lo_col || col > hi_col || row < lo_row || row > hi_row {
                    let cc = Coord { col, row };
                    let i = self.tile_index(cc);
                    eligible.push(i);
                    proof {
                        assert(!in_zone_of(safe, cc));
                        assert(i == (cc.row - 1) * (w as int) + (cc.col - 1));
                        assert(cell_outside_zone(w as int, h as int, safe, i as int));
                    }
                }
                ci = ci + 1;
            }
            proof {
                let wi = self.spec_width();
                let zc = self.zone_cols(safe);
                let zrb = self.zone_rows_below(safe, ri + 1);
                assert((ri + 1) * wi == ri * wi + wi) by (nonlinear_arith);
                assert(zc * (zrb + 1) == zc * zrb + zc) by (nonlinear_arith);
                assert(self.zone_cols_below(safe, w + 1) == zc);
                assert(self.zone_rows_below(safe, ri + 2) == zrb + (
                if self.zone_lo_row(safe) <= ri + 1 && ri + 1 <= self.zone_hi_row(safe) {
                    1int
                } else {
                    0int
                }));
            }
            ri = ri + 1;
        }
        proof {
            let wi = self.spec_width();
            let hgt = self.spec_height();
            assert(hgt * wi == wi * hgt) by (nonlinear_arith);
            assert(self.zone_rows_below(safe, hgt + 1) == self.zone_hi_row(safe)
                - self.zone_lo_row(safe) + 1);
            assert(eligible@.len() == self.spec_free_cells(safe));
        }
        if self.mine_count > eligible.len() {
            return Err(GameError::InvalidConfig);
        }

        // Draw the mines: each round picks a uniformly random remaining
        // eligible cell, so the chosen cells are distinct by construction.
        let ghost elig0 = eligible@.len() as int;
        proof {
            lemma_count_matching_zero(self.tiles_seq(), |t: Tile| t.is_mine);
            assert forall|c: Coord| self.contains_coord(c) implies !(
            #[trigger] self.spec_tile(c)).is_mine by {
                self.lemma_index_in_range(c);
            }
        }
        let mut rng = crate::rng::fresh_rng();
        let mut placed: usize = 0;
        while placed < self.mine_count
            invariant
                self.width == old(self).width,
                self.height == old(self).height,
                self.mine_count == old(self).mine_count,
                self.mines_placed == old(self).mines_placed,
                self.tiles_seq().len() == old(self).tiles_seq().len(),
                old(self).wf(),
                old(self).contains_coord(safe),
                w == self.width,
                h == self.height,
                placed <= self.mine_count,
                eligible@.len() == elig0 - placed,
                self.mine_count <= elig0,
                forall|k1: int, k2: int|
                    0 <= k1 < k2 < eligible@.len() ==> eligible@[k1] != eligible@[k2],
                forall|k: int|
                    0 <= k < eligible@.len() ==> #[trigger] eligible@[k] < self.tiles_seq().len(),
                forall|k: int|
                    0 <= k < eligible@.len() ==> !self.tiles_seq()[#[trigger] eligible@[k] as int].is_mine,
                forall|k: int|
                    0 <= k < eligible@.len() ==> cell_outside_zone(
                        w as int,
                        h as int,
                        safe,
                        #[trigger] eligible@[k] as int,
                    ),
                count_mines(self.tiles_seq()) == placed,
                forall|c: Coord|
                    #![trigger in_zone_of(safe, c)]
                    self.contains_coord(c) && in_zone_of(safe, c) ==> !self.spec_tile(c).is_mine,
                forall|i: int|
                    0 <= i < self.tiles_seq().len() ==> ((#[trigger] self.tiles_seq()[i]).covered
                        == old(self).tiles_seq()[i].covered && self.tiles_seq()[i].flagged == old(
                        self,
                    ).tiles_seq()[i].flagged && self.tiles_seq()[i].adjacent_mine_count == old(
                        self,
                    ).tiles_seq()[i].adjacent_mine_count),
            decreases self.mine_count - placed,
        {
            let j = crate::rng::sample_inclusive(&mut rng, 0, eligible.len() - 1);
            let ghost e0 = eligible@;
            let idx = eligible.swap_remove(j);
            let ghost s0 = self.tiles@;
            let mut t = self.tiles[idx];
            t.is_mine = true;
            self.tiles[idx] = t;
            placed = placed + 1;
            proof {
                lemma_count_matching_update(
                    s0,
                    |tt: Tile| tt.is_mine,
                    idx as int,
                    t,
                );
                // Every remaining entry is an entry of the old list at a
                // position other than j, so it stays distinct from idx.
                assert forall|k: int| 0 <= k < eligible@.len() implies (#[trigger] eligible@[k]
                    == if k == j {
                    e0[e0.len() - 1]
                } else {
                    e0[k]
                }) by {}
                assert forall|k1: int, k2: int|
                    0 <= k1 < k2 < eligible@.len() implies eligible@[k1] != eligible@[k2] by {
                    if k1 == j {
                        assert(eligible@[k1] == e0[e0.len() - 1]);
                        assert(eligible@[k2] == e0[k2]);
                    } else if k2 == j {
                        assert(eligible@[k1] == e0[k1]);
                        assert(eligible@[k2] == e0[e0.len() - 1]);
                    }
                }
                assert(cell_outside_zone(w as int, h as int, safe, idx as int));
                assert forall|c: Coord|
                    #![trigger in_zone_of(safe, c)]
                    self.contains_coord(c) && in_zone_of(safe, c) implies !self.spec_tile(
                    c,
                ).is_mine by {
                    self.lemma_index_in_range(c);
                    if self.spec_index(c) == idx {
                        let cc = choose|cc: Coord|
                            1 <= cc.col <= w as int && 1 <= cc.row <= h as int && !in_zone_of(
                                safe,
                                cc,
                            ) && idx == (cc.row - 1) * (w as int) + (cc.col - 1);
                        assert(self.contains_coord(cc));
                        assert(self.spec_index(cc) == idx);
                        self.lemma_index_injective(cc, c);
                    } else {
                        assert(self.tiles_seq()[self.spec_index(c)] == s0[self.spec_index(c)]);
                    }
                }
            }
        }

        // Store the exact mined-neighbor count in every non-mine tile.
        let ghost mid = *self;
        let n = self.tiles.len();
        let mut i: usize = 0;
        while i < n
            invariant
                self.width == mid.width,
                self.height == mid.height,
                self.mine_count == mid.mine_count,
                self.mines_placed == mid.mines_placed,
                self.tiles_seq().len() == mid.tiles_seq().len(),
                n == self.tiles_seq().len(),
                self.dims_ok(),
                mid.dims_ok(),
                i <= n,
                forall|k: int|
                    0 <= k < n ==> ((#[trigger] self.tiles_seq()[k]).is_mine
                        == mid.tiles_seq()[k].is_mine && self.tiles_seq()[k].covered
                        == mid.tiles_seq()[k].covered && self.tiles_seq()[k].flagged
                        == mid.tiles_seq()[k].flagged),
                forall|c: Coord|
                    self.contains_coord(c) && self.spec_index(c) < i && !(
                    #[trigger] self.spec_tile(c)).is_mine ==> self.spec_tile(
                        c,
                    ).adjacent_mine_count == self.spec_adjacent_mines(c),
            decreases n - i,
        {
            let c = self.coord_of_index(i);
            if !self.tiles[i].is_mine {
                let cnt = self.count_adjacent(c);
                let ghost pre = *self;
                let mut t = self.tiles[i];
                t.adjacent_mine_count = cnt;
                self.tiles[i] = t;
                proof {
                    assert(self.tiles_seq() == pre.tiles_seq().update(i as int, t));
                    assert forall|k: int|
                        0 <= k < n implies (#[trigger] self.tiles_seq()[k]).is_mine
                        == pre.tiles_seq()[k].is_mine && self.tiles_seq()[k].covered
                        == pre.tiles_seq()[k].covered && self.tiles_seq()[k].flagged
                        == pre.tiles_seq()[k].flagged by {}
                    assert forall|cx: Coord|
                        self.contains_coord(cx) && self.spec_index(cx) < i + 1 && !(
                    #[trigger] self.spec_tile(cx)).is_mine implies self.spec_tile(
                        cx,
                    ).adjacent_mine_count == self.spec_adjacent_mines(cx) by {
                        self.lemma_index_in_range(cx);
                        Self::lemma_adjacent_depends_on_mines(*self, pre, cx);
                        if self.spec_index(cx) == i {
                            self.lemma_index_injective(cx, c);
                            assert(self.spec_tile(cx).adjacent_mine_count == cnt);
                            assert(pre.spec_adjacent_mines(cx) == cnt);
                        } else {
                            assert(self.spec_tile(cx) == pre.spec_tile(cx));
                        }
                    }
                }
            } else {
                proof {
                    assert forall|cx: Coord|
                        self.contains_coord(cx) && self.spec_index(cx) < i + 1 && !(
                    #[trigger] self.spec_tile(cx)).is_mine implies self.spec_tile(
                        cx,
                    ).adjacent_mine_count == self.spec_adjacent_mines(cx) by {
                        self.lemma_index_in_range(cx);
                        if self.spec_index(cx) == i {
                            self.lemma_index_injective(cx, c);
                        }
                    }
                }
            }
            i = i + 1;
        }
        let ghost done = *self;
        self.mines_placed = true;
        proof {
            lemma_count_matching_agree(
                self.tiles_seq(),
                mid.tiles_seq(),
                |t: Tile| t.is_mine,
            );
            assert forall|c: Coord|
                self.contains_coord(c) && !(#[trigger] self.spec_tile(c)).is_mine implies self.spec_tile(
                c,
            ).adjacent_mine_count == self.spec_adjacent_mines(c) by {
                self.lemma_index_in_range(c);
                done.lemma_index_in_range(c);
                assert(self.spec_tile(c) == done.spec_tile(c));
                Self::lemma_adjacent_depends_on_mines(*self, done, c);
            }
            assert forall|c: Coord|
                self.contains_coord(c) && in_zone_of(safe, c) implies !(
            #[trigger] self.spec_tile(c)).is_mine by {
                self.lemma_index_in_range(c);
                assert(!mid.spec_tile(c).is_mine);
            }
            assert forall|c: Coord| self.contains_coord(c) implies ((
            #[trigger] self.spec_tile(c)).covered == old(self).spec_tile(c).covered
                && self.spec_tile(c).flagged == old(self).spec_tile(c).flagged) by {
                self.lemma_index_in_range(c);
            }
            assert forall|c: Coord|
                self.contains_coord(c) && (#[trigger] self.spec_tile(c)).flagged implies self.spec_tile(
                c,
            ).covered by {
                self.lemma_index_in_range(c);
                assert(old(self).spec_tile(c).flagged ==> old(self).spec_tile(c).covered);
            }
        }
        Ok(())
    }

    /// The state kept while the flood runs: `cur` differs from `b0`
    /// exactly by uncovering the tiles listed in `changed`, every such
    /// tile is genuinely reached from `start`, and `queue` holds
    /// zero-adjacency reached tiles whose neighbors may still need work.
    spec fn flood_inv(
        b0: Board,
        cur: Board,
        start: Coord,
        changed: Seq<Coord>,
        queue: Seq<Coord>,
    ) -> bool {
        &&& b0.wf()
        &&& b0.flood_target(start)
        &&& !b0.spec_tile(start).is_mine
        &&& cur.width == b0.width
        &&& cur.height == b0.height
        &&& cur.mine_count == b0.mine_count
        &&& cur.mines_placed == b0.mines_placed
        &&& cur.tiles_seq().len() == b0.tiles_seq().len()
        &&& changed.no_duplicates()
        &&& changed.contains(start)
        &&& (forall|c: Coord| #[trigger] changed.contains(c) ==> b0.flood_reaches(start, c))
        &&& (forall|c: Coord|
            #![trigger cur.spec_tile(c)]
            #![trigger b0.spec_tile(c)]
            b0.contains_coord(c) ==> cur.spec_tile(c) == (if changed.contains(c) {
                b0.spec_tile(c).uncovered_spec()
            } else {
                b0.spec_tile(c)
            }))
        &&& (forall|k: int|
            0 <= k < queue.len() ==> changed.contains(#[trigger] queue[k]) && b0.flood_source(
                queue[k],
            ))
        &&& (forall|i: int|
            0 <= i < b0.tiles_seq().len() ==> ((#[trigger] cur.tiles_seq()[i]).is_mine
                == b0.tiles_seq()[i].is_mine && cur.tiles_seq()[i].flagged
                == b0.tiles_seq()[i].flagged && cur.tiles_seq()[i].adjacent_mine_count
                == b0.tiles_seq()[i].adjacent_mine_count))
    }

    /// Reveals the tile at `coord`. A covered, unflagged mine explodes
    /// (`HitMine`); any other covered, unflagged tile is uncovered, and if
    /// it borders no mine the whole connected zero-adjacency region plus
    /// that region's boundary is uncovered with it (`Revealed` lists every
    /// tile that lost its cover). A flagged or already uncovered tile is
    /// left untouched (`NoChange`).
    pub fn reveal_tile(&mut self, coord: Coord) -> (r: RevealOutcome)
        requires
            old(self).wf(),
            old(self).contains_coord(coord),
        ensures
            final(self).wf(),
            reveal_post(*old(self), *final(self), coord, r),
    {
        broadcast use vstd::seq_lib::lemma_seq_contains_after_push;
        broadcast use vstd::seq_lib::lemma_seq_empty_contains_nothing;
        broadcast use vstd::seq_lib::lemma_seq_subrange_elements;

        let ti = self.tile_index(coord);
        let t0 = self.tiles[ti];
        if !t0.covered || t0.flagged {
            return RevealOutcome::NoChange;
        }
        let mut tu = t0;
        tu.covered = false;
        self.tiles[ti] = tu;
        proof {
            lemma_count_matching_agree(
                self.tiles_seq(),
                old(self).tiles_seq(),
                |t: Tile| t.is_mine,
            );
            assert forall|c: Coord| old(self).contains_coord(c) implies #[trigger] self.spec_tile(
                c,
            ) == (if c == coord {
                old(self).spec_tile(c).uncovered_spec()
            } else {
                old(self).spec_tile(c)
            }) by {
                self.lemma_index_in_range(c);
                if self.spec_index(c) == ti && c != coord {
                    self.lemma_index_injective(c, coord);
                }
            }
        }
        if t0.is_mine {
            proof {
                assert forall|c: Coord|
                    self.contains_coord(c) && (#[trigger] self.spec_tile(c)).flagged implies self.spec_tile(
                    c,
                ).covered by {
                    self.lemma_index_in_range(c);
                    let ot = old(self).spec_tile(c);
                }
                assert forall|c: Coord|
                    self.contains_coord(c) && !(#[trigger] self.spec_tile(c)).is_mine implies self.spec_tile(
                    c,
                ).adjacent_mine_count == self.spec_adjacent_mines(c) by {
                    self.lemma_index_in_range(c);
                    let ot = old(self).spec_tile(c);
                    Self::lemma_adjacent_depends_on_mines(*self, *old(self), c);
                }
            }
            return RevealOutcome::HitMine;
        }
        let mut changed: Vec<Coord> = Vec::new();
        changed.push(coord);
        let mut queue: Vec<Coord> = Vec::new();
        if t0.adjacent_mine_count == 0 {
            queue.push(coord);
        }
        proof {
            assert(old(self).flood_target(coord));
            assert(old(self).flood_reach_within(coord, coord, 0));
            assert(old(self).flood_reaches(coord, coord));
            lemma_count_matching_bounds(self.tiles_seq(), |t: Tile| t.covered);
        }
        while queue.len() > 0
            invariant
                old(self).contains_coord(coord),
                Self::flood_inv(*old(self), *self, coord, changed@, queue@),
                forall|x: Coord, y: Coord|
                    changed@.contains(x) && !queue@.contains(x) && #[trigger] old(
                        self,
                    ).flood_step(x, y) ==> changed@.contains(y),
                0 <= count_covered(self.tiles_seq()),
            decreases count_covered(self.tiles_seq()), queue@.len(),
        {
            let ghost q_pre = queue@;
            let z = queue.pop().unwrap();
            let ghost cc_start = count_covered(self.tiles_seq());
            let ghost q_start = queue@.len() as int;
            proof {
                assert(z == q_pre[q_pre.len() - 1]);
                assert(changed@.contains(z) && old(self).flood_source(z));
                assert forall|k: int|
                    0 <= k < queue@.len() implies changed@.contains(#[trigger] queue@[k]) && old(
                    self,
                ).flood_source(queue@[k]) by {
                    assert(queue@[k] == q_pre[k]);
                }
                assert forall|x: Coord, y: Coord|
                    changed@.contains(x) && !queue@.contains(x) && x != z && #[trigger] old(
                        self,
                    ).flood_step(x, y) implies changed@.contains(y) by {
                    if q_pre.contains(x) {
                        let i = choose|i: int| 0 <= i < q_pre.len() && q_pre[i] == x;
                        assert(i < q_pre.len() - 1);
                        assert(queue@[i] == x);
                        assert(queue@.contains(x));
                    }
                }
            }
            let nbs = self.neighbors_of(z);
            proof {
                assert forall|q: Coord| #[trigger] nbs@.contains(q) <==> (old(
                    self,
                ).contains_coord(q) && is_neighbor(z, q)) by {
                    assert(self.spec_width() == old(self).spec_width());
                    assert(self.spec_height() == old(self).spec_height());
                }
            }
            let mut k: usize = 0;
            while k < nbs.len()
                invariant
                    old(self).contains_coord(coord),
                    Self::flood_inv(*old(self), *self, coord, changed@, queue@),
                    changed@.contains(z),
                    old(self).flood_source(z),
                    forall|q: Coord| #[trigger]
                        nbs@.contains(q) <==> (old(self).contains_coord(q) && is_neighbor(z, q)),
                    k <= nbs@.len(),
                    forall|x: Coord, y: Coord|
                        changed@.contains(x) && !queue@.contains(x) && x != z && #[trigger] old(
                            self,
                        ).flood_step(x, y) ==> changed@.contains(y),
                    forall|j: int|
                        0 <= j < k ==> (old(self).flood_step(z, #[trigger] nbs@[j])
                            ==> changed@.contains(nbs@[j])),
                    count_covered(self.tiles_seq()) <= cc_start,
                    count_covered(self.tiles_seq()) == cc_start ==> queue@.len() == q_start,
                    0 <= count_covered(self.tiles_seq()),
                decreases nbs@.len() - k,
            {
                let nb = nbs[k];
                proof {
                    assert(nbs@[k as int] == nb);
                    assert(nbs@.contains(nb));
                }
                let nbi = self.tile_index(nb);
                let tn = self.tiles[nbi];
                if tn.covered && !tn.flagged {
                    proof {
                        assert(!changed@.contains(nb));
                        assert(tn == old(self).spec_tile(nb));
                        assert(old(self).flood_target(nb));
                        assert(old(self).flood_step(z, nb));
                        old(self).lemma_reach_extend(coord, z, nb);
                    }
                    let ghost b_pre = *self;
                    let ghost ch_pre = changed@;
                    let mut tn2 = tn;
                    tn2.covered = false;
                    self.tiles[nbi] = tn2;
                    changed.push(nb);
                    proof {
                        assert forall|x: Coord| #[trigger] changed@.contains(x) implies (x == nb
                            || ch_pre.contains(x)) by {
                            vstd::seq_lib::lemma_seq_contains_after_push(ch_pre, nb, x);
                        }
                        assert forall|x: Coord| ch_pre.contains(x) implies #[trigger] changed@.contains(
                            x,
                        ) by {
                            vstd::seq_lib::lemma_seq_contains_after_push(ch_pre, nb, x);
                        }
                        vstd::seq_lib::lemma_seq_contains_after_push(ch_pre, nb, nb);
                        assert(changed@.contains(nb));
                        assert forall|i: int, j: int|
                            0 <= i < changed@.len() && 0 <= j < changed@.len() && i != j implies changed@[i]
                            != changed@[j] by {
                            if i == changed@.len() - 1 {
                                assert(changed@[i] == nb);
                                assert(ch_pre.contains(ch_pre[j]));
                            } else if j == changed@.len() - 1 {
                                assert(changed@[j] == nb);
                                assert(ch_pre.contains(ch_pre[i]));
                            }
                        }
                        assert(changed@.no_duplicates());
                        lemma_count_matching_update(
                            b_pre.tiles_seq(),
                            |t: Tile| t.covered,
                            nbi as int,
                            tn2,
                        );
                        lemma_count_matching_bounds(
                            self.tiles_seq(),
                            |t: Tile| t.covered,
                        );
                        assert forall|c: Coord| old(self).contains_coord(c) implies #[trigger] self.spec_tile(
                            c,
                        ) == (if changed@.contains(c) {
                            old(self).spec_tile(c).uncovered_spec()
                        } else {
                            old(self).spec_tile(c)
                        }) by {
                            self.lemma_index_in_range(c);
                            let pt = b_pre.spec_tile(c);
                            assert(self.tiles_seq() == b_pre.tiles_seq().update(nbi as int, tn2));
                            assert(changed@ == ch_pre.push(nb));
                            vstd::seq_lib::lemma_seq_contains_after_push(ch_pre, nb, c);
                            assert(self.contains_coord(nb));
                            if c == nb {
                                assert(self.spec_index(c) == nbi);
                                assert(self.spec_tile(c) == tn2);
                                assert(changed@.contains(c));
                                assert(tn2 == old(self).spec_tile(c).uncovered_spec());
                            } else {
                                assert(changed@.contains(c) == ch_pre.contains(c));
                                if self.spec_index(c) == nbi {
                                    self.lemma_index_injective(c, nb);
                                    assert(false);
                                }
                                assert(self.spec_tile(c) == b_pre.spec_tile(c));
                            }
                        }
                    }
                    let ghost q_iter = queue@;
                    if tn.adjacent_mine_count == 0 {
                        proof {
                            old(self).lemma_zero_no_mined_neighbor(z, nb);
                            assert(old(self).flood_source(nb));
                        }
                        queue.push(nb);
                    }
                    proof {
                        assert forall|x: Coord, y: Coord|
                            changed@.contains(x) && !queue@.contains(x) && x != z && #[trigger] old(
                                self,
                            ).flood_step(x, y) implies changed@.contains(y) by {
                            vstd::seq_lib::lemma_seq_contains_after_push(ch_pre, nb, x);
                            if x == nb {
                                if tn.adjacent_mine_count == 0 {
                                    vstd::seq_lib::lemma_seq_contains_after_push(q_iter, nb, nb);
                                    assert(queue@.contains(nb));
                                } else {
                                    assert(old(self).spec_tile(nb).adjacent_mine_count != 0);
                                    assert(!old(self).flood_source(nb));
                                }
                            } else {
                                if tn.adjacent_mine_count == 0 {
                                    vstd::seq_lib::lemma_seq_contains_after_push(q_iter, nb, x);
                                }
                                assert(!q_iter.contains(x));
                                assert(ch_pre.contains(y));
                            }
                        }
                    }
                } else {
                    proof {
                        if old(self).flood_step(z, nb) {
                            assert(old(self).spec_tile(nb).covered && !old(
                                self,
                            ).spec_tile(nb).flagged);
                            assert(changed@.contains(nb));
                        }
                    }
                }
                k = k + 1;
            }
            proof {
                assert forall|x: Coord, y: Coord|
                    changed@.contains(x) && !queue@.contains(x) && #[trigger] old(
                        self,
                    ).flood_step(x, y) implies changed@.contains(y) by {
                    if x == z {
                        assert(old(self).contains_coord(y) && is_neighbor(z, y));
                        assert(nbs@.contains(y));
                        let j = choose|j: int| 0 <= j < nbs@.len() && nbs@[j] == y;
                        assert(old(self).flood_step(z, nbs@[j]));
                    }
                }
            }
        }
        proof {
            let b0 = *old(self);
            assert forall|x: Coord, y: Coord|
                changed@.contains(x) && #[trigger] b0.flood_step(x, y) implies changed@.contains(
                y,
            ) by {
                assert(!queue@.contains(x));
            }
            assert forall|c: Coord| b0.flood_reaches(coord, c) implies #[trigger] changed@.contains(
                c,
            ) by {
                let n = choose|n: nat| b0.flood_reach_within(coord, c, n);
                b0.lemma_flood_closure(coord, changed@, c, n);
            }
            // The invariant plus the exact region characterization give
            // the postcondition; the remaining pieces rebuild wf.
            lemma_count_matching_agree(
                self.tiles_seq(),
                b0.tiles_seq(),
                |t: Tile| t.is_mine,
            );
            assert forall|c: Coord|
                self.contains_coord(c) && (#[trigger] self.spec_tile(c)).flagged implies self.spec_tile(
                c,
            ).covered by {
                self.lemma_index_in_range(c);
                let ot = b0.spec_tile(c);
                if changed@.contains(c) {
                    b0.lemma_reach_is_target(coord, c);
                }
            }
            assert forall|c: Coord|
                self.contains_coord(c) && !(#[trigger] self.spec_tile(c)).is_mine implies self.spec_tile(
                c,
            ).adjacent_mine_count == self.spec_adjacent_mines(c) by {
                self.lemma_index_in_range(c);
                let ot = b0.spec_tile(c);
                Self::lemma_adjacent_depends_on_mines(*self, b0, c);
            }
        }
        RevealOutcome::Revealed(changed)
    }

    /// The tile at `coord`, or `None` off the board.
    pub fn tile(&self, coord: Coord) -> (t: Option<Tile>)
        requires
            self.dims_ok(),
        ensures
            t is Some <==> self.contains_coord(coord),
            t matches Some(x) ==> x == self.spec_tile(coord),
    {
        if 1 <= coord.col && coord.col <= self.width && 1 <= coord.row && coord.row
            <= self.height {
            let i = self.tile_index(coord);
            Some(self.tiles[i])
        } else {
            None
        }
    }

    /// Toggles the flag on a covered tile; an uncovered tile is left
    /// untouched. Returns the new flag state.
    pub fn toggle_flag(&mut self, coord: Coord) -> (r: FlagOutcome)
        requires
            old(self).wf(),
            old(self).contains_coord(coord),
        ensures
            final(self).wf(),
            flag_post(*old(self), *final(self), coord, r),
    {
        let ti = self.tile_index(coord);
        let t0 = self.tiles[ti];
        if !t0.covered {
            return FlagOutcome::NoChange;
        }
        let mut t = t0;
        t.flagged = !t0.flagged;
        self.tiles[ti] = t;
        proof {
            lemma_count_matching_agree(
                self.tiles_seq(),
                old(self).tiles_seq(),
                |tt: Tile| tt.is_mine,
            );
            assert forall|c: Coord| old(self).contains_coord(c) implies #[trigger] self.spec_tile(
                c,
            ) == (if c == coord {
                old(self).spec_tile(c).flag_toggled_spec()
            } else {
                old(self).spec_tile(c)
            }) by {
                self.lemma_index_in_range(c);
                if self.spec_index(c) == ti && c != coord {
                    self.lemma_index_injective(c, coord);
                }
            }
            assert forall|c: Coord|
                self.contains_coord(c) && (#[trigger] self.spec_tile(c)).flagged implies self.spec_tile(
                c,
            ).covered by {
                self.lemma_index_in_range(c);
                let ot = old(self).spec_tile(c);
            }
            assert forall|c: Coord|
                self.contains_coord(c) && !(#[trigger] self.spec_tile(c)).is_mine implies self.spec_tile(
                c,
            ).adjacent_mine_count == self.spec_adjacent_mines(c) by {
                self.lemma_index_in_range(c);
                let ot = old(self).spec_tile(c);
                Self::lemma_adjacent_depends_on_mines(*self, *old(self), c);
            }
        }
        if t0.flagged {
            FlagOutcome::Unflagged
        } else {
            FlagOutcome::Flagged
        }
    }

    /// Whether every non-mine tile is uncovered: the win condition.
    /// Flags play no role in winning.
    pub open spec fn spec_cleared(self) -> bool {
        forall|c: Coord|
            #![trigger self.spec_tile(c)]
            self.contains_coord(c) && !self.spec_tile(c).is_mine ==> !self.spec_tile(c).covered
    }

    /// Reports whether the board is cleared: no non-mine tile is covered.
    pub fn is_cleared(&self) -> (r: bool)
        requires
            self.wf(),
        ensures
            r <==> self.spec_cleared(),
    {
        let n = self.tiles.len();
        let mut i: usize = 0;
        while i < n
            invariant
                self.wf(),
                n == self.tiles_seq().len(),
                i <= n,
                forall|j: int|
                    0 <= j < i ==> !((#[trigger] self.tiles_seq()[j]).covered
                        && !self.tiles_seq()[j].is_mine),
            decreases n - i,
        {
            let t = self.tiles[i];
            if t.covered && !t.is_mine {
                let c = self.coord_of_index(i);
                proof {
                    assert(self.spec_tile(c).covered && !self.spec_tile(c).is_mine);
                }
                return false;
            }
            i = i + 1;
        }
        proof {
            assert forall|c: Coord|
                self.contains_coord(c) && !(#[trigger] self.spec_tile(c)).is_mine implies !self.spec_tile(
                c,
            ).covered by {
                self.lemma_index_in_range(c);
            }
        }
        true
    }

    /// The display hints shown once the game is lost: every covered,
    /// unflagged mine gets the bomb, and every flag sitting on a non-mine
    /// tile gets the crossed flag. A pure query: the board keeps its
    /// state, each hinted coordinate is listed once, and nothing else is
    /// listed.
    pub fn reveal_all_mines_for_loss(&self) -> (hints: Vec<(Coord, LossDisplay)>)
        requires
            self.wf(),
        ensures
            forall|c: Coord|
                #![trigger hints@.contains((c, LossDisplay::Bomb))]
                hints@.contains((c, LossDisplay::Bomb)) <==> (self.contains_coord(c)
                    && self.spec_tile(c).covered && self.spec_tile(c).is_mine && !self.spec_tile(
                    c,
                ).flagged),
            forall|c: Coord|
                #![trigger hints@.contains((c, LossDisplay::WrongFlag))]
                hints@.contains((c, LossDisplay::WrongFlag)) <==> (self.contains_coord(c)
                    && self.spec_tile(c).flagged && !self.spec_tile(c).is_mine),
            forall|k1: int, k2: int|
                0 <= k1 < k2 < hints@.len() ==> (#[trigger] hints@[k1]).0 != (
                #[trigger] hints@[k2]).0,
            forall|k: int|
                0 <= k < hints@.len() ==> ((#[trigger] hints@[k]).1 == LossDisplay::Bomb
                    || hints@[k].1 == LossDisplay::WrongFlag),
    {
        let n = self.tiles.len();
        let mut hints: Vec<(Coord, LossDisplay)> = Vec::new();
        let mut i: usize = 0;
        while i < n
            invariant
                self.wf(),
                n == self.tiles_seq().len(),
                i <= n,
                forall|c: Coord|
                    #![trigger hints@.contains((c, LossDisplay::Bomb))]
                    hints@.contains((c, LossDisplay::Bomb)) <==> (self.contains_coord(c)
                        && self.spec_index(c) < i && self.spec_tile(c).covered && self.spec_tile(
                        c,
                    ).is_mine && !self.spec_tile(c).flagged),
                forall|c: Coord|
                    #![trigger hints@.contains((c, LossDisplay::WrongFlag))]
                    hints@.contains((c, LossDisplay::WrongFlag)) <==> (self.contains_coord(c)
                        && self.spec_index(c) < i && self.spec_tile(c).flagged && !self.spec_tile(
                        c,
                    ).is_mine),
                forall|k: int|
                    0 <= k < hints@.len() ==> (self.contains_coord((#[trigger] hints@[k]).0)
                        && self.spec_index(hints@[k].0) < i && (hints@[k].1 == LossDisplay::Bomb
                        || hints@[k].1 == LossDisplay::WrongFlag)),
                forall|k1: int, k2: int|
                    0 <= k1 < k2 < hints@.len() ==> self.spec_index((#[trigger] hints@[k1]).0)
                        < self.spec_index((#[trigger] hints@[k2]).0),
            decreases n - i,
        {
            let t = self.tiles[i];
            let c0 = self.coord_of_index(i);
            let ghost h_pre = hints@;
            if t.covered && t.is_mine && !t.flagged {
                hints.push((c0, LossDisplay::Bomb));
            } else if t.flagged && !t.is_mine {
                hints.push((c0, LossDisplay::WrongFlag));
            }
            proof {
                assert forall|c: Coord, d: LossDisplay| #[trigger] hints@.contains((c, d)) implies (
                h_pre.contains((c, d)) || (hints@.len() > h_pre.len() && (c, d) == hints@[hints@.len()
                    - 1])) by {
                    if hints@.len() > h_pre.len() {
                        vstd::seq_lib::lemma_seq_contains_after_push(h_pre, hints@[hints@.len() - 1], (c, d));
                    }
                }
                assert forall|c: Coord, d: LossDisplay| h_pre.contains((c, d)) implies #[trigger] hints@.contains(
                    (c, d),
                ) by {
                    if hints@.len() > h_pre.len() {
                        vstd::seq_lib::lemma_seq_contains_after_push(h_pre, hints@[hints@.len() - 1], (c, d));
                    }
                }
                if hints@.len() > h_pre.len() {
                    let e = hints@[hints@.len() - 1];
                    vstd::seq_lib::lemma_seq_contains_after_push(h_pre, e, e);
                    assert(hints@.contains(e));
                }
                assert forall|c: Coord|
                    self.contains_coord(c) && self.spec_index(c) == i as int implies c == c0 by {
                    self.lemma_index_injective(c, c0);
                }
            }
            i = i + 1;
        }
        proof {
            assert forall|c: Coord| self.contains_coord(c) implies self.spec_index(c) < n by {
                self.lemma_index_in_range(c);
            }
        }
        hints
    }

    /// A tile the flood expands through: on the board, not a mine, and
    /// bordering no mine at all.
    pub open spec fn flood_source(self, c: Coord) -> bool {
        &&& self.contains_coord(c)
        &&& !self.spec_tile(c).is_mine
        &&& self.spec_tile(c).adjacent_mine_count == 0
    }

    /// A tile the flood may uncover: on the board, covered and unflagged.
    pub open spec fn flood_target(self, c: Coord) -> bool {
        &&& self.contains_coord(c)
        &&& self.spec_tile(c).covered
        &&& !self.spec_tile(c).flagged
    }

    /// One flood step: from a zero-adjacency non-mine tile to a covered,
    /// unflagged neighbor of it.
    pub open spec fn flood_step(self, a: Coord, b: Coord) -> bool {
        self.flood_source(a) && is_neighbor(a, b) && self.flood_target(b)
    }

    /// `c` is reached from `start` by at most `n` flood steps.
    pub open spec fn flood_reach_within(self, start: Coord, c: Coord, n: nat) -> bool
        decreases n,
    {
        if c == start {
            self.flood_target(start)
        } else if n == 0 {
            false
        } else {
            exists|m: Coord|
                self.flood_reach_within(start, m, (n - 1) as nat) && self.flood_step(m, c)
        }
    }

    /// The region a reveal at `start` uncovers: `start` itself and every
    /// covered, unflagged tile connected to it through zero-adjacency
    /// tiles. Empty unless `start` is itself covered and unflagged.
    pub open spec fn flood_reaches(self, start: Coord, c: Coord) -> bool {
        exists|n: nat| self.flood_reach_within(start, c, n)
    }

    /// A reached tile is itself covered, unflagged and on the board.
    pub proof fn lemma_reach_is_target(self, start: Coord, c: Coord)
        requires
            self.flood_reaches(start, c),
        ensures
            self.flood_target(c),
    {
        let n = choose|n: nat| self.flood_reach_within(start, c, n);
        if c != start {
            let m = choose|m: Coord|
                self.flood_reach_within(start, m, (n - 1) as nat) && self.flood_step(m, c);
        }
    }

    /// A region grows along flood steps.
    pub proof fn lemma_reach_extend(self, start: Coord, m: Coord, c: Coord)
        requires
            self.flood_reaches(start, m),
            self.flood_step(m, c),
        ensures
            self.flood_reaches(start, c),
    {
        let n = choose|n: nat| self.flood_reach_within(start, m, n);
        if c == start {
            assert(self.flood_reach_within(start, c, 0));
        } else {
            assert(self.flood_reach_within(start, m, n) && self.flood_step(m, c));
            assert(self.flood_reach_within(start, c, n + 1));
        }
    }

    /// A zero-adjacency non-mine tile borders no mine.
    pub proof fn lemma_zero_no_mined_neighbor(self, a: Coord, b: Coord)
        requires
            self.adjacency_correct(),
            self.contains_coord(a),
            self.contains_coord(b),
            !self.spec_tile(a).is_mine,
            self.spec_tile(a).adjacent_mine_count == 0,
            is_neighbor(a, b),
        ensures
            !self.spec_tile(b).is_mine,
    {
        assert(self.spec_adjacent_mines(a) == 0);
        assert(b.col + 1 == a.col || b.col == a.col || b.col == a.col + 1);
        assert(b.row + 1 == a.row || b.row == a.row || b.row == a.row + 1);
        assert(!self.mine_at(b.col as int, b.row as int));
    }

    proof fn lemma_flood_never_mine_within(self, start: Coord, c: Coord, n: nat)
        requires
            self.adjacency_correct(),
            !self.spec_tile(start).is_mine,
            self.flood_reach_within(start, c, n),
        ensures
            !self.spec_tile(c).is_mine,
        decreases n,
    {
        if c != start {
            let m = choose|m: Coord|
                self.flood_reach_within(start, m, (n - 1) as nat) && self.flood_step(m, c);
            self.lemma_flood_never_mine_within(start, m, (n - 1) as nat);
            self.lemma_zero_no_mined_neighbor(m, c);
        }
    }

    /// On a board with exact adjacency counts, a flood started on a
    /// non-mine tile never uncovers a mine.
    pub proof fn lemma_flood_never_mine(self, start: Coord, c: Coord)
        requires
            self.adjacency_correct(),
            !self.spec_tile(start).is_mine,
            self.flood_reaches(start, c),
        ensures
            !self.spec_tile(c).is_mine,
    {
        let n = choose|n: nat| self.flood_reach_within(start, c, n);
        self.lemma_flood_never_mine_within(start, c, n);
    }

    /// A reached tile that still has a covered, unflagged neighbor outside
    /// the region sits on the region's boundary: its adjacency count is
    /// positive.
    pub proof fn lemma_flood_boundary(self, start: Coord, c: Coord, nb: Coord)
        requires
            self.adjacency_correct(),
            !self.spec_tile(start).is_mine,
            self.flood_reaches(start, c),
            self.contains_coord(nb),
            is_neighbor(c, nb),
            self.spec_tile(nb).covered,
            !self.spec_tile(nb).flagged,
            !self.flood_reaches(start, nb),
        ensures
            self.spec_tile(c).adjacent_mine_count > 0,
    {
        self.lemma_flood_never_mine(start, c);
        self.lemma_reach_is_target(start, c);
        if self.spec_tile(c).adjacent_mine_count == 0 {
            assert(self.flood_step(c, nb));
            self.lemma_reach_extend(start, c, nb);
        }
    }

    /// Any collection that holds `start` and is closed under flood steps
    /// holds the whole region.
    proof fn lemma_flood_closure(self, start: Coord, s: Seq<Coord>, c: Coord, n: nat)
        requires
            s.contains(start),
            forall|x: Coord, y: Coord|
                s.contains(x) && #[trigger] self.flood_step(x, y) ==> s.contains(y),
            self.flood_reach_within(start, c, n),
        ensures
            s.contains(c),
        decreases n,
    {
        if c != start {
            let m = choose|m: Coord|
                self.flood_reach_within(start, m, (n - 1) as nat) && self.flood_step(m, c);
            self.lemma_flood_closure(start, s, m, (n - 1) as nat);
        }
    }

    /// The executable row-major index of an on-board coordinate.
    fn tile_index(&self, c: Coord) -> (i: usize)
        requires
            self.dims_ok(),
            self.contains_coord(c),
        ensures
            i == self.spec_index(c),
            i < self.tiles_seq().len(),
    {
        proof {
            self.lemma_index_in_range(c);
        }
        (c.row - 1) * self.width + (c.col - 1)
    }

    /// The coordinate whose row-major index is `i`.
    fn coord_of_index(&self, i: usize) -> (c: Coord)
        requires
            self.dims_ok(),
            i < self.tiles_seq().len(),
        ensures
            self.contains_coord(c),
            self.spec_index(c) == i,
    {
        let col = i % self.width + 1;
        let row = i / self.width + 1;
        proof {
            let w = self.spec_width();
            let h = self.spec_height();
            vstd::arithmetic::div_mod::lemma_fundamental_div_mod(i as int, w);
            vstd::arithmetic::div_mod::lemma_mod_bound(i as int, w);
            assert(0 <= i / self.width < h) by (nonlinear_arith)
                requires
                    i as int == w * ((i / self.width) as int) + ((i % self.width) as int),
                    0 <= (i % self.width) as int,
                    ((i % self.width) as int) < w,
                    0 <= i,
                    i < w * h,
                    w >= 1,
            ;
            assert(((i / self.width) as int) * w + ((i % self.width) as int) == i)
                by (nonlinear_arith)
                requires
                    i as int == w * ((i / self.width) as int) + ((i % self.width) as int),
            ;
        }
        Coord { col, row }
    }

    /// Whether the cell at `(col, row)` exists and holds a mine; positions
    /// off the board report no mine.
    fn mine_at_cell(&self, col: usize, row: usize) -> (m: bool)
        requires
            self.dims_ok(),
        ensures
            m == self.mine_at(col as int, row as int),
    {
        if 1 <= col && col <= self.width && 1 <= row && row <= self.height {
            let i = self.tile_index(Coord { col, row });
            self.tiles[i].is_mine
        } else {
            false
        }
    }

    /// Counts the mined neighbors of `c` by probing all 8 directions,
    /// skipping directions that fall off the board.
    fn count_adjacent(&self, c: Coord) -> (n: u8)
        requires
            self.dims_ok(),
            self.contains_coord(c),
        ensures
            n as int == self.spec_adjacent_mines(c),
    {
        let mut n: u8 = 0;
        if c.row > 1 {
            if c.col > 1 && self.mine_at_cell(c.col - 1, c.row - 1) {
                n = n + 1;
            }
            if self.mine_at_cell(c.col, c.row - 1) {
                n = n + 1;
            }
            if c.col < self.width && self.mine_at_cell(c.col + 1, c.row - 1) {
                n = n + 1;
            }
        }
        if c.col > 1 && self.mine_at_cell(c.col - 1, c.row) {
            n = n + 1;
        }
        if c.col < self.width && self.mine_at_cell(c.col + 1, c.row) {
            n = n + 1;
        }
        if c.row < self.height {
            if c.col > 1 && self.mine_at_cell(c.col - 1, c.row + 1) {
                n = n + 1;
            }
            if self.mine_at_cell(c.col, c.row + 1) {
                n = n + 1;
            }
            if c.col < self.width && self.mine_at_cell(c.col + 1, c.row + 1) {
                n = n + 1;
            }
        }
        n
    }

    /// The in-bounds neighbors of `c`, each listed once.
    fn neighbors_of(&self, c: Coord) -> (v: Vec<Coord>)
        requires
            self.dims_ok(),
            self.contains_coord(c),
        ensures
            forall|q: Coord| #[trigger]
                v@.contains(q) <==> (self.contains_coord(q) && is_neighbor(c, q)),
            v@.no_duplicates(),
    {
        let mut v: Vec<Coord> = Vec::new();
        if c.row > 1 {
            if c.col > 1 {
                v.push(Coord { col: c.col - 1, row: c.row - 1 });
            }
            v.push(Coord { col: c.col, row: c.row - 1 });
            if c.col < self.width {
                v.push(Coord { col: c.col + 1, row: c.row - 1 });
            }
        }
        if c.col > 1 {
            v.push(Coord { col: c.col - 1, row: c.row });
        }
        if c.col < self.width {
            v.push(Coord { col: c.col + 1, row: c.row });
        }
        if c.row < self.height {
            if c.col > 1 {
                v.push(Coord { col: c.col - 1, row: c.row + 1 });
            }
            v.push(Coord { col: c.col, row: c.row + 1 });
            if c.col < self.width {
                v.push(Coord { col: c.col + 1, row: c.row + 1 });
            }
        }
        proof {
            broadcast use vstd::seq_lib::group_seq_properties;

            assert forall|q: Coord| self.contains_coord(q) && is_neighbor(c, q) implies v@.contains(
                q,
            ) by {
                assert(q.col + 1 == c.col || q.col == c.col || q.col == c.col + 1);
                assert(q.row + 1 == c.row || q.row == c.row || q.row == c.row + 1);
            }
        }
        v
    }
}

} // verus!
