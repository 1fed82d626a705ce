use minesweeper_core::board::Board;
use minesweeper_core::grid::Coord;
use minesweeper_core::grid::FlagOutcome;
use minesweeper_core::grid::GameError;
use minesweeper_core::grid::LossDisplay;
use minesweeper_core::grid::RevealOutcome;
use minesweeper_core::grid::Tile;

fn at(col: usize, row: usize) -> Coord {
    Coord { col, row }
}

fn get(b: &Board, col: usize, row: usize) -> Tile {
    b.tile(at(col, row)).unwrap()
}

/// Counts the mined neighbors of (col, row) by brute force.
fn recount(b: &Board, col: usize, row: usize) -> u8 {
    let mut n = 0u8;
    for dc in [-1i64, 0, 1] {
        for dr in [-1i64, 0, 1] {
            if dc == 0 && dr == 0 {
                continue;
            }
            let nc = col as i64 + dc;
            let nr = row as i64 + dr;
            if nc >= 1 && nc <= b.width as i64 && nr >= 1 && nr <= b.height as i64 {
                if get(b, nc as usize, nr as usize).is_mine {
                    n += 1;
                }
            }
        }
    }
    n
}

fn count_mines(b: &Board) -> usize {
    let mut n = 0;
    for col in 1..=b.width {
        for row in 1..=b.height {
            if get(b, col, row).is_mine {
                n += 1;
            }
        }
    }
    n
}

#[test]
fn new_rejects_empty_grid() {
    assert!(matches!(Board::new(0, 5, 0), Err(GameError::InvalidConfig)));
    assert!(matches!(Board::new(5, 0, 0), Err(GameError::InvalidConfig)));
}

#[test]
fn new_rejects_mine_count_filling_grid() {
    assert!(matches!(Board::new(3, 3, 9), Err(GameError::InvalidConfig)));
    assert!(matches!(Board::new(3, 3, 10), Err(GameError::InvalidConfig)));
    assert!(Board::new(3, 3, 8).is_ok());
}

#[test]
fn new_board_is_fresh() {
    let b = Board::new(4, 3, 2).unwrap();
    assert_eq!(b.width, 4);
    assert_eq!(b.height, 3);
    assert_eq!(b.mine_count, 2);
    assert!(!b.mines_placed);
    for col in 1..=4 {
        for row in 1..=3 {
            let t = get(&b, col, row);
            assert!(t.covered && !t.flagged && !t.is_mine && t.adjacent_mine_count == 0);
        }
    }
    assert!(b.tile(at(5, 1)).is_none());
    assert!(b.tile(at(0, 1)).is_none());
    assert!(b.tile(at(1, 4)).is_none());
}

#[test]
fn place_mines_lays_exactly_mine_count_mines() {
    let mut b = Board::new(10, 10, 10).unwrap();
    assert!(b.place_mines(at(5, 5)).is_ok());
    assert!(b.mines_placed);
    assert_eq!(count_mines(&b), 10);
}

#[test]
fn place_mines_twice_reports_already_placed() {
    let mut b = Board::new(10, 10, 10).unwrap();
    assert!(b.place_mines(at(5, 5)).is_ok());
    assert!(matches!(b.place_mines(at(5, 5)), Err(GameError::AlreadyPlaced)));
}

#[test]
fn place_mines_keeps_safe_zone_clear() {
    let mut b = Board::new(10, 10, 10).unwrap();
    assert!(b.place_mines(at(5, 5)).is_ok());
    for col in 4..=6 {
        for row in 4..=6 {
            assert!(!get(&b, col, row).is_mine);
        }
    }
}

#[test]
fn place_mines_keeps_clipped_safe_zone_clear_at_corner() {
    let mut b = Board::new(10, 10, 10).unwrap();
    assert!(b.place_mines(at(1, 1)).is_ok());
    for col in 1..=2 {
        for row in 1..=2 {
            assert!(!get(&b, col, row).is_mine);
        }
    }
    assert_eq!(count_mines(&b), 10);
}

#[test]
fn place_mines_center_of_tiny_board_reports_invalid_config() {
    // All 8 neighbors of the center of a 3x3 board are in the safe zone,
    // so even a single mine has nowhere to go.
    let mut b = Board::new(3, 3, 1).unwrap();
    assert!(matches!(b.place_mines(at(2, 2)), Err(GameError::InvalidConfig)));
    assert!(!b.mines_placed);
}

#[test]
fn place_mines_fills_every_cell_outside_zone_when_forced() {
    // 3x3 board, safe click in the corner: the zone covers {1,2}x{1,2},
    // leaving exactly 5 eligible cells for the 5 mines.
    let mut b = Board::new(3, 3, 5).unwrap();
    assert!(b.place_mines(at(1, 1)).is_ok());
    for col in 1..=3 {
        for row in 1..=3 {
            let in_zone = col <= 2 && row <= 2;
            assert_eq!(get(&b, col, row).is_mine, !in_zone);
        }
    }
}

#[test]
fn adjacency_counts_match_brute_force_recount() {
    let mut b = Board::new(9, 9, 10).unwrap();
    assert!(b.place_mines(at(4, 6)).is_ok());
    for col in 1..=9 {
        for row in 1..=9 {
            let t = get(&b, col, row);
            if !t.is_mine {
                assert_eq!(t.adjacent_mine_count, recount(&b, col, row));
            }
        }
    }
}

#[test]
fn reveal_of_known_zero_tile_floods_its_region() {
    let mut b = Board::new(3, 3, 5).unwrap();
    assert!(b.place_mines(at(1, 1)).is_ok());
    // The corner tile borders no mine; its flood must uncover exactly the
    // four mine-free tiles, with the boundary counts exact.
    assert_eq!(get(&b, 1, 1).adjacent_mine_count, 0);
    let out = b.reveal_tile(at(1, 1));
    match out {
        RevealOutcome::Revealed(changed) => {
            let mut got: Vec<(usize, usize)> =
                changed.iter().map(|c| (c.col, c.row)).collect();
            got.sort();
            assert_eq!(got, vec![(1, 1), (1, 2), (2, 1), (2, 2)]);
        }
        _ => panic!("expected a flood reveal"),
    }
    assert_eq!(get(&b, 2, 1).adjacent_mine_count, 2);
    assert_eq!(get(&b, 1, 2).adjacent_mine_count, 2);
    assert_eq!(get(&b, 2, 2).adjacent_mine_count, 5);
    // No mine lost its cover.
    for col in 1..=3 {
        for row in 1..=3 {
            let t = get(&b, col, row);
            assert_eq!(t.covered, t.is_mine);
        }
    }
    assert!(b.is_cleared());
}

#[test]
fn flood_never_uncovers_a_mine_and_stops_at_positive_counts() {
    let mut b = Board::new(10, 10, 10).unwrap();
    assert!(b.place_mines(at(5, 5)).is_ok());
    let out = b.reveal_tile(at(5, 5));
    let changed = match out {
        RevealOutcome::Revealed(changed) => changed,
        _ => panic!("the safe first tile must be revealed"),
    };
    for c in &changed {
        let t = get(&b, c.col, c.row);
        assert!(!t.is_mine);
        assert!(!t.covered);
        if t.adjacent_mine_count == 0 {
            // An uncovered zero tile keeps no eligible neighbor covered.
            for dc in [-1i64, 0, 1] {
                for dr in [-1i64, 0, 1] {
                    let nc = c.col as i64 + dc;
                    let nr = c.row as i64 + dr;
                    if (dc != 0 || dr != 0)
                        && nc >= 1
                        && nc <= 10
                        && nr >= 1
                        && nr <= 10
                    {
                        let n = get(&b, nc as usize, nr as usize);
                        assert!(!n.covered || n.flagged);
                    }
                }
            }
        }
    }
}

#[test]
fn reveal_is_a_no_op_on_flagged_and_on_uncovered_tiles() {
    let mut b = Board::new(3, 3, 5).unwrap();
    assert!(b.place_mines(at(1, 1)).is_ok());
    assert!(matches!(b.toggle_flag(at(2, 2)), FlagOutcome::Flagged));
    assert!(matches!(b.reveal_tile(at(2, 2)), RevealOutcome::NoChange));
    assert!(get(&b, 2, 2).covered);
    assert!(matches!(b.toggle_flag(at(2, 2)), FlagOutcome::Unflagged));
    assert!(matches!(b.reveal_tile(at(2, 2)), RevealOutcome::Revealed(_)));
    assert!(matches!(b.reveal_tile(at(2, 2)), RevealOutcome::NoChange));
}

#[test]
fn toggle_flag_flips_covered_tiles_and_skips_uncovered_ones() {
    let mut b = Board::new(3, 3, 5).unwrap();
    assert!(b.place_mines(at(1, 1)).is_ok());
    assert!(!get(&b, 3, 3).flagged);
    assert!(matches!(b.toggle_flag(at(3, 3)), FlagOutcome::Flagged));
    assert!(get(&b, 3, 3).flagged);
    assert!(matches!(b.toggle_flag(at(3, 3)), FlagOutcome::Unflagged));
    assert!(!get(&b, 3, 3).flagged);
    let _ = b.reveal_tile(at(2, 2));
    assert!(!get(&b, 2, 2).covered);
    assert!(matches!(b.toggle_flag(at(2, 2)), FlagOutcome::NoChange));
    assert!(!get(&b, 2, 2).flagged);
}

#[test]
fn is_cleared_iff_no_non_mine_tile_is_covered() {
    // A zero-mine board: placing lays nothing, and one reveal floods all.
    let mut b = Board::new(4, 4, 0).unwrap();
    assert!(b.place_mines(at(2, 2)).is_ok());
    assert!(!b.is_cleared());
    let out = b.reveal_tile(at(1, 1));
    match out {
        RevealOutcome::Revealed(changed) => assert_eq!(changed.len(), 16),
        _ => panic!("expected a flood reveal"),
    }
    assert!(b.is_cleared());
}

#[test]
fn revealing_a_mine_reports_hit_mine() {
    let mut b = Board::new(3, 3, 5).unwrap();
    assert!(b.place_mines(at(1, 1)).is_ok());
    assert!(get(&b, 3, 3).is_mine);
    assert!(matches!(b.reveal_tile(at(3, 3)), RevealOutcome::HitMine));
    assert!(!get(&b, 3, 3).covered);
}

#[test]
fn loss_hints_mark_unflagged_mines_and_wrong_flags() {
    let mut b = Board::new(3, 3, 5).unwrap();
    assert!(b.place_mines(at(1, 1)).is_ok());
    // Mines sit on every cell outside {1,2}x{1,2}. Flag one mine
    // (correct) and one mine-free tile (wrong).
    assert!(matches!(b.toggle_flag(at(3, 1)), FlagOutcome::Flagged));
    assert!(matches!(b.toggle_flag(at(2, 2)), FlagOutcome::Flagged));
    let hints = b.reveal_all_mines_for_loss();
    let mut bombs: Vec<(usize, usize)> = hints
        .iter()
        .filter(|(_, d)| *d == LossDisplay::Bomb)
        .map(|(c, _)| (c.col, c.row))
        .collect();
    bombs.sort();
    assert_eq!(bombs, vec![(1, 3), (2, 3), (3, 2), (3, 3)]);
    let wrong: Vec<(usize, usize)> = hints
        .iter()
        .filter(|(_, d)| *d == LossDisplay::WrongFlag)
        .map(|(c, _)| (c.col, c.row))
        .collect();
    assert_eq!(wrong, vec![(2, 2)]);
    assert_eq!(hints.len(), 5);
    // A pure query: covers and flags are untouched.
    assert!(get(&b, 3, 1).flagged && get(&b, 3, 1).covered);
    assert!(get(&b, 2, 2).flagged && get(&b, 2, 2).covered);
}
