//! The game state machine: difficulty presets, phases, and the session
//! that sequences them, deferring mine placement until the first click is
//! known so that the first click is always safe.

use vstd::prelude::*;

use crate::board::count_mines;
use crate::board::flag_post;
use crate::board::reveal_post;
use crate::board::Board;
use crate::grid::in_zone_of;
use crate::grid::Coord;
use crate::grid::FlagOutcome;
use crate::grid::LossDisplay;
use crate::grid::RevealOutcome;
use crate::grid::Tile;

verus! {

/// The named board presets.
#[derive(Clone, Copy, PartialEq, Eq, Structural, Debug)]
pub enum Difficulty {
    Easy,
    Medium,
    Hard,
    Expert,
}

impl Difficulty {
    /// Columns of the preset's grid.
    pub open spec fn spec_width(self) -> int {
        match self {
            Difficulty::Easy => 10,
            Difficulty::Medium => 12,
            Difficulty::Hard => 15,
            Difficulty::Expert => 30,
        }
    }

    /// Rows of the preset's grid.
    pub open spec fn spec_height(self) -> int {
        match self {
            Difficulty::Easy => 10,
            Difficulty::Medium => 12,
            Difficulty::Hard => 15,
            Difficulty::Expert => 16,
        }
    }

    /// Mines of the preset.
    pub open spec fn spec_mine_count(self) -> int {
        match self {
            Difficulty::Easy => 10,
            Difficulty::Medium => 26,
            Difficulty::Hard => 40,
            Difficulty::Expert => 99,
        }
    }

    pub fn width(self) -> (w: usize)
        ensures
            w as int == self.spec_width(),
    {
        match self {
            Difficulty::Easy => 10,
            Difficulty::Medium => 12,
            Difficulty::Hard => 15,
            Difficulty::Expert => 30,
        }
    }

    pub fn height(self) -> (h: usize)
        ensures
            h as int == self.spec_height(),
    {
        match self {
            Difficulty::Easy => 10,
            Difficulty::Medium => 12,
            Difficulty::Hard => 15,
            Difficulty::Expert => 16,
        }
    }

    pub fn mine_count(self) -> (m: usize)
        ensures
            m as int == self.spec_mine_count(),
    {
        match self {
            Difficulty::Easy => 10,
            Difficulty::Medium => 26,
            Difficulty::Hard => 40,
            Difficulty::Expert => 99,
        }
    }
}

/// Every preset keeps fewer mines than tiles — indeed enough fewer that
/// even a full 3x3 safe zone always leaves room for all of them, so the
/// first click of a session can never fail.
pub proof fn lemma_difficulty_mines_fit(d: Difficulty)
    ensures
        d.spec_mine_count() < d.spec_width() * d.spec_height(),
        d.spec_mine_count() + 9 <= d.spec_width() * d.spec_height(),
        d.spec_width() * d.spec_height() <= 480,
{
}

/// One phase of the game. `AwaitingFirstClick` is initial for every new
/// board; `Won` and `Lost` are terminal until a reset.
#[derive(Clone, Copy, PartialEq, Eq, Structural, Debug)]
pub enum Phase {
    AwaitingFirstClick,
    Active,
    Won,
    Lost,
}

/// What the presentation layer may see of one tile: whether it is a mine,
/// and how many mines it borders, only once the tile is uncovered.
#[derive(Clone, Copy, Debug)]
pub struct TileSnapshot {
    pub covered: bool,
    pub flagged: bool,
    pub is_mine_if_revealed: Option<bool>,
    pub adjacent_count_if_revealed: Option<u8>,
}

/// The session: current phase, chosen difficulty, and the board it owns.
/// The board is recreated whole on every reset or difficulty change.
pub struct GameSession {
    pub phase: Phase,
    pub difficulty: Difficulty,
    pub board: Board,
}

impl GameSession {
    /// The session invariant: the board is well-formed in the chosen
    /// preset's shape; before the first click it is untouched, and from
    /// then on its mines are laid.
    pub open spec fn wf(self) -> bool {
        &&& self.board.wf()
        &&& self.board.spec_width() == self.difficulty.spec_width()
        &&& self.board.spec_height() == self.difficulty.spec_height()
        &&& self.board.spec_mine_count() == self.difficulty.spec_mine_count()
        &&& (self.phase is AwaitingFirstClick ==> (!self.board.spec_mines_placed()
            && self.board.all_fresh()))
        &&& (!(self.phase is AwaitingFirstClick) ==> self.board.spec_mines_placed())
    }

    /// A fresh session of the given difficulty: awaiting its first click,
    /// every tile covered and unflagged, no mines laid yet.
    pub fn new(difficulty: Difficulty) -> (s: GameSession)
        ensures
            s.wf(),
            s.difficulty == difficulty,
            s.phase is AwaitingFirstClick,
            s.board.all_fresh(),
    {
        proof {
            lemma_difficulty_mines_fit(difficulty);
        }
        let w = difficulty.width();
        let h = difficulty.height();
        let m = difficulty.mine_count();
        let board = match Board::new(w, h, m) {
            Ok(b) => b,
            Err(_) => vstd::pervasive::unreached(),
        };
        GameSession { phase: Phase::AwaitingFirstClick, difficulty, board }
    }

    /// Discards the whole game and starts over with the given difficulty.
    /// Accepted in every phase.
    pub fn set_difficulty(&mut self, difficulty: Difficulty)
        ensures
            final(self).wf(),
            final(self).difficulty == difficulty,
            final(self).phase is AwaitingFirstClick,
            final(self).board.all_fresh(),
            final(self).board.spec_width() == difficulty.spec_width(),
            final(self).board.spec_height() == difficulty.spec_height(),
            final(self).board.spec_mine_count() == difficulty.spec_mine_count(),
    {
        *self = GameSession::new(difficulty);
    }

    /// The current phase.
    pub fn phase(&self) -> (p: Phase)
        ensures
            p == self.phase,
    {
        self.phase
    }

    /// The current difficulty.
    pub fn difficulty(&self) -> (d: Difficulty)
        ensures
            d == self.difficulty,
    {
        self.difficulty
    }

    /// Read-only access to the board the session owns.
    pub fn board(&self) -> (b: &Board)
        ensures
            *b == self.board,
    {
        &self.board
    }

    /// A reveal request. Out-of-bounds clicks and clicks after the game
    /// ended are ignored. The first click lays the mines with a safe zone
    /// around itself and always uncovers its tile, moving the game to
    /// `Active`; from then on a reveal behaves as `Board::reveal_tile`
    /// says, losing on a mine and winning once the board is cleared.
    pub fn handle_primary_click(&mut self, coord: Coord) -> (r: RevealOutcome)
        requires
            old(self).wf(),
        ensures
            final(self).wf(),
            final(self).difficulty == old(self).difficulty,
            (!old(self).board.contains_coord(coord) || old(self).phase is Won || old(self).phase is Lost) ==> (*final(self) == *old(self) && r is NoChange),
            (old(self).phase is AwaitingFirstClick && old(self).board.contains_coord(coord))
                ==> {
                &&& final(self).phase is Active
                &&& final(self).board.spec_mines_placed()
                &&& count_mines(final(self).board.tiles_seq()) == old(self).difficulty.spec_mine_count()
                &&& (forall|c: Coord|
                    final(self).board.contains_coord(c) && in_zone_of(coord, c) ==> !(
                    #[trigger] final(self).board.spec_tile(c)).is_mine)
                &&& (forall|c: Coord|
                    final(self).board.contains_coord(c) ==> !(#[trigger] final(self).board.spec_tile(c)).flagged)
                &&& !final(self).board.spec_tile(coord).covered
                &&& r is Revealed
                &&& (r matches RevealOutcome::Revealed(changed) ==> {
                    &&& changed@.contains(coord)
                    &&& changed@.no_duplicates()
                    &&& (forall|c: Coord|
                        final(self).board.contains_coord(c) ==> ((#[trigger] final(self).board.spec_tile(c)).covered <==> !changed@.contains(c)))
                })
            },
            (old(self).phase is Active && old(self).board.contains_coord(coord)) ==> {
                &&& reveal_post(old(self).board, final(self).board, coord, r)
                &&& (r is NoChange ==> *final(self) == *old(self))
                &&& (r is HitMine ==> final(self).phase is Lost)
                &&& (r is Revealed ==> final(self).phase == (if final(self).board.spec_cleared() {
                    Phase::Won
                } else {
                    Phase::Active
                }))
            },
    {
        if coord.col < 1 || coord.col > self.board.width || coord.row < 1 || coord.row
            > self.board.height {
            return RevealOutcome::NoChange;
        }
        match self.phase {
            Phase::Won | Phase::Lost => RevealOutcome::NoChange,
            Phase::AwaitingFirstClick => {
                proof {
                    lemma_difficulty_mines_fit(self.difficulty);
                    self.board.lemma_zone_size_bounds(coord);
                }
                let placed = self.board.place_mines(coord);
                proof {
                    assert(placed is Ok);
                    self.board.lemma_index_in_range(coord);
                    assert(in_zone_of(coord, coord));
                    assert(!self.board.spec_tile(coord).is_mine);
                    assert(self.board.spec_tile(coord).covered);
                    assert(!self.board.spec_tile(coord).flagged);
                }
                let ghost mined = self.board;
                let out = self.board.reveal_tile(coord);
                self.phase = Phase::Active;
                proof {
                    assert(out is Revealed);
                    assert forall|c: Coord|
                        self.board.contains_coord(c) && in_zone_of(coord, c) implies !(
                    #[trigger] self.board.spec_tile(c)).is_mine by {
                        let mt = mined.spec_tile(c);
                    }
                    assert forall|c: Coord| self.board.contains_coord(c) implies !(
                    #[trigger] self.board.spec_tile(c)).flagged && (self.board.spec_tile(
                        c,
                    ).covered <==> !mined.flood_reaches(coord, c)) by {
                        let mt = mined.spec_tile(c);
                        mined.lemma_index_in_range(c);
                        let ot = old(self).board.spec_tile(c);
                    }
                }
                out
            },
            Phase::Active => {
                let out = self.board.reveal_tile(coord);
                match out {
                    RevealOutcome::NoChange => out,
                    RevealOutcome::HitMine => {
                        self.phase = Phase::Lost;
                        out
                    },
                    RevealOutcome::Revealed(changed) => {
                        if self.board.is_cleared() {
                            self.phase = Phase::Won;
                        } else {
                            self.phase = Phase::Active;
                        }
                        RevealOutcome::Revealed(changed)
                    },
                }
            },
        }
    }

    /// A flag request. Only a covered tile of an active game is affected:
    /// its flag is toggled. Everything else — out-of-bounds clicks, the
    /// pre-game phase, a finished game, an uncovered tile — is a no-op.
    /// Flagging never changes the phase.
    pub fn handle_secondary_click(&mut self, coord: Coord) -> (r: FlagOutcome)
        requires
            old(self).wf(),
        ensures
            final(self).wf(),
            final(self).difficulty == old(self).difficulty,
            final(self).phase == old(self).phase,
            (!old(self).board.contains_coord(coord) || !(old(self).phase is Active)) ==> (*final(self) == *old(self) && r is NoChange),
            (old(self).phase is Active && old(self).board.contains_coord(coord))
                ==> flag_post(old(self).board, final(self).board, coord, r),
    {
        if coord.col < 1 || coord.col > self.board.width || coord.row < 1 || coord.row
            > self.board.height {
            return FlagOutcome::NoChange;
        }
        match self.phase {
            Phase::Active => self.board.toggle_flag(coord),
            _ => FlagOutcome::NoChange,
        }
    }

    /// The loss display hints of the owned board; see
    /// `Board::reveal_all_mines_for_loss`.
    pub fn reveal_all_mines_for_loss(&self) -> (hints: Vec<(Coord, LossDisplay)>)
        requires
            self.wf(),
        ensures
            forall|c: Coord|
                #![trigger hints@.contains((c, LossDisplay::Bomb))]
                hints@.contains((c, LossDisplay::Bomb)) <==> (self.board.contains_coord(c)
                    && self.board.spec_tile(c).covered && self.board.spec_tile(c).is_mine
                    && !self.board.spec_tile(c).flagged),
            forall|c: Coord|
                #![trigger hints@.contains((c, LossDisplay::WrongFlag))]
                hints@.contains((c, LossDisplay::WrongFlag)) <==> (self.board.contains_coord(c)
                    && self.board.spec_tile(c).flagged && !self.board.spec_tile(c).is_mine),
            forall|k1: int, k2: int|
                0 <= k1 < k2 < hints@.len() ==> (#[trigger] hints@[k1]).0 != (
                #[trigger] hints@[k2]).0,
    {
        self.board.reveal_all_mines_for_loss()
    }

    /// What the presentation layer may draw for the tile at `coord`:
    /// `None` off the board, otherwise the tile's visible state, with the
    /// mine flag and the adjacency count disclosed only once uncovered.
    pub fn tile_view(&self, coord: Coord) -> (v: Option<TileSnapshot>)
        requires
            self.wf(),
        ensures
            v is Some <==> self.board.contains_coord(coord),
            v matches Some(s) ==> {
                let t = self.board.spec_tile(coord);
                &&& s.covered == t.covered
                &&& s.flagged == t.flagged
                &&& s.is_mine_if_revealed == (if !t.covered {
                    Some(t.is_mine)
                } else {
                    None::<bool>
                })
                &&& s.adjacent_count_if_revealed == (if !t.covered && !t.is_mine {
                    Some(t.adjacent_mine_count)
                } else {
                    None::<u8>
                })
            },
    {
        match self.board.tile(coord) {
            None => None,
            Some(t) => Some(
                TileSnapshot {
                    covered: t.covered,
                    flagged: t.flagged,
                    is_mine_if_revealed: if !t.covered {
                        Some(t.is_mine)
                    } else {
                        None
                    },
                    adjacent_count_if_revealed: if !t.covered && !t.is_mine {
                        Some(t.adjacent_mine_count)
                    } else {
                        None
                    },
                },
            ),
        }
    }
}

} // verus!
