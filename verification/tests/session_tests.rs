use minesweeper_core::grid::Coord;
use minesweeper_core::grid::FlagOutcome;
use minesweeper_core::grid::LossDisplay;
use minesweeper_core::grid::RevealOutcome;
use minesweeper_core::session::Difficulty;
use minesweeper_core::session::GameSession;
use minesweeper_core::session::Phase;

fn at(col: usize, row: usize) -> Coord {
    Coord { col, row }
}

#[test]
fn difficulty_table_is_exact() {
    assert_eq!(
        (Difficulty::Easy.width(), Difficulty::Easy.height(), Difficulty::Easy.mine_count()),
        (10, 10, 10)
    );
    assert_eq!(
        (Difficulty::Medium.width(), Difficulty::Medium.height(), Difficulty::Medium.mine_count()),
        (12, 12, 26)
    );
    assert_eq!(
        (Difficulty::Hard.width(), Difficulty::Hard.height(), Difficulty::Hard.mine_count()),
        (15, 15, 40)
    );
    assert_eq!(
        (Difficulty::Expert.width(), Difficulty::Expert.height(), Difficulty::Expert.mine_count()),
        (30, 16, 99)
    );
}

#[test]
fn new_session_awaits_first_click_on_a_fresh_board() {
    let s = GameSession::new(Difficulty::Easy);
    assert_eq!(s.phase(), Phase::AwaitingFirstClick);
    assert_eq!(s.difficulty(), Difficulty::Easy);
    let b = s.board();
    assert_eq!((b.width, b.height, b.mine_count), (10, 10, 10));
    assert!(!b.mines_placed);
    for col in 1..=10 {
        for row in 1..=10 {
            let v = s.tile_view(at(col, row)).unwrap();
            assert!(v.covered && !v.flagged);
            assert!(v.is_mine_if_revealed.is_none());
            assert!(v.adjacent_count_if_revealed.is_none());
        }
    }
    assert!(s.tile_view(at(11, 1)).is_none());
    assert!(s.tile_view(at(0, 1)).is_none());
}

#[test]
fn first_click_activates_and_keeps_its_zone_mine_free() {
    let mut s = GameSession::new(Difficulty::Easy);
    let out = s.handle_primary_click(at(1, 1));
    assert!(matches!(out, RevealOutcome::Revealed(_)));
    assert_eq!(s.phase(), Phase::Active);
    let v = s.tile_view(at(1, 1)).unwrap();
    assert!(!v.covered);
    assert_eq!(v.is_mine_if_revealed, Some(false));
    for col in 1..=2 {
        for row in 1..=2 {
            assert!(!s.board().tile(at(col, row)).unwrap().is_mine);
        }
    }
    let mut mines = 0;
    for col in 1..=10 {
        for row in 1..=10 {
            if s.board().tile(at(col, row)).unwrap().is_mine {
                mines += 1;
            }
        }
    }
    assert_eq!(mines, 10);
}

#[test]
fn clicks_out_of_bounds_are_ignored() {
    let mut s = GameSession::new(Difficulty::Easy);
    assert!(matches!(s.handle_primary_click(at(11, 5)), RevealOutcome::NoChange));
    assert!(matches!(s.handle_primary_click(at(5, 0)), RevealOutcome::NoChange));
    assert_eq!(s.phase(), Phase::AwaitingFirstClick);
    assert!(matches!(s.handle_secondary_click(at(11, 5)), FlagOutcome::NoChange));
}

#[test]
fn flags_are_ignored_before_the_first_click() {
    let mut s = GameSession::new(Difficulty::Easy);
    assert!(matches!(s.handle_secondary_click(at(3, 3)), FlagOutcome::NoChange));
    assert_eq!(s.phase(), Phase::AwaitingFirstClick);
    assert!(!s.tile_view(at(3, 3)).unwrap().flagged);
}

#[test]
fn revealing_every_safe_tile_wins() {
    let mut s = GameSession::new(Difficulty::Medium);
    let _ = s.handle_primary_click(at(1, 1));
    assert_eq!(s.phase(), Phase::Active);
    for col in 1..=12 {
        for row in 1..=12 {
            let t = s.board().tile(at(col, row)).unwrap();
            if t.covered && !t.is_mine {
                let out = s.handle_primary_click(at(col, row));
                assert!(!matches!(out, RevealOutcome::HitMine));
                assert_ne!(s.phase(), Phase::Lost);
            }
        }
    }
    assert_eq!(s.phase(), Phase::Won);
    // A finished game ignores further clicks.
    assert!(matches!(s.handle_primary_click(at(1, 1)), RevealOutcome::NoChange));
    assert!(matches!(s.handle_secondary_click(at(1, 1)), FlagOutcome::NoChange));
}

#[test]
fn revealing_a_mine_loses_and_hints_mark_the_rest() {
    let mut s = GameSession::new(Difficulty::Medium);
    let _ = s.handle_primary_click(at(5, 5));
    assert_eq!(s.phase(), Phase::Active);
    // Flag one covered non-mine tile to earn a wrong-flag hint.
    let mut wrong_flag = None;
    'outer: for col in 1..=12 {
        for row in 1..=12 {
            let t = s.board().tile(at(col, row)).unwrap();
            if t.covered && !t.is_mine {
                assert!(matches!(s.handle_secondary_click(at(col, row)), FlagOutcome::Flagged));
                wrong_flag = Some((col, row));
                break 'outer;
            }
        }
    }
    let wrong_flag = wrong_flag.unwrap();
    // Find and click a mine.
    let mut mine = None;
    'search: for col in 1..=12 {
        for row in 1..=12 {
            if s.board().tile(at(col, row)).unwrap().is_mine {
                mine = Some((col, row));
                break 'search;
            }
        }
    }
    let (mc, mr) = mine.unwrap();
    assert!(matches!(s.handle_primary_click(at(mc, mr)), RevealOutcome::HitMine));
    assert_eq!(s.phase(), Phase::Lost);
    let hints = s.reveal_all_mines_for_loss();
    for col in 1..=12 {
        for row in 1..=12 {
            let t = s.board().tile(at(col, row)).unwrap();
            let bomb = hints
                .iter()
                .any(|(c, d)| (c.col, c.row) == (col, row) && *d == LossDisplay::Bomb);
            let wrong = hints
                .iter()
                .any(|(c, d)| (c.col, c.row) == (col, row) && *d == LossDisplay::WrongFlag);
            assert_eq!(bomb, t.covered && t.is_mine && !t.flagged);
            assert_eq!(wrong, t.flagged && !t.is_mine);
        }
    }
    assert!(hints
        .iter()
        .any(|(c, d)| (c.col, c.row) == wrong_flag && *d == LossDisplay::WrongFlag));
}

#[test]
fn reset_from_lost_starts_a_fresh_medium_game() {
    let mut s = GameSession::new(Difficulty::Easy);
    let _ = s.handle_primary_click(at(5, 5));
    let mut mine = None;
    'search: for col in 1..=10 {
        for row in 1..=10 {
            if s.board().tile(at(col, row)).unwrap().is_mine {
                mine = Some((col, row));
                break 'search;
            }
        }
    }
    let (mc, mr) = mine.unwrap();
    let _ = s.handle_primary_click(at(mc, mr));
    assert_eq!(s.phase(), Phase::Lost);

    s.set_difficulty(Difficulty::Medium);
    assert_eq!(s.phase(), Phase::AwaitingFirstClick);
    assert_eq!(s.difficulty(), Difficulty::Medium);
    assert_eq!((s.board().width, s.board().height), (12, 12));
    for col in 1..=12 {
        for row in 1..=12 {
            let v = s.tile_view(at(col, row)).unwrap();
            assert!(v.covered && !v.flagged);
        }
    }
}

#[test]
fn flag_toggling_during_a_game_never_changes_the_phase() {
    let mut s = GameSession::new(Difficulty::Easy);
    let _ = s.handle_primary_click(at(1, 1));
    let mut covered = None;
    'outer: for col in 1..=10 {
        for row in 1..=10 {
            if s.board().tile(at(col, row)).unwrap().covered {
                covered = Some((col, row));
                break 'outer;
            }
        }
    }
    let (cc, cr) = covered.unwrap();
    assert!(matches!(s.handle_secondary_click(at(cc, cr)), FlagOutcome::Flagged));
    assert_eq!(s.phase(), Phase::Active);
    assert!(s.tile_view(at(cc, cr)).unwrap().flagged);
    // A reveal on the flagged tile is refused.
    assert!(matches!(s.handle_primary_click(at(cc, cr)), RevealOutcome::NoChange));
    assert!(s.board().tile(at(cc, cr)).unwrap().covered);
    assert!(matches!(s.handle_secondary_click(at(cc, cr)), FlagOutcome::Unflagged));
    assert!(!s.tile_view(at(cc, cr)).unwrap().flagged);
    // Flagging an uncovered tile does nothing.
    assert!(matches!(s.handle_secondary_click(at(1, 1)), FlagOutcome::NoChange));
    assert_eq!(s.phase(), Phase::Active);
}

#[test]
fn tile_view_hides_mines_under_covers() {
    let mut s = GameSession::new(Difficulty::Easy);
    let _ = s.handle_primary_click(at(5, 5));
    for col in 1..=10 {
        for row in 1..=10 {
            let t = s.board().tile(at(col, row)).unwrap();
            let v = s.tile_view(at(col, row)).unwrap();
            assert_eq!(v.covered, t.covered);
            assert_eq!(v.flagged, t.flagged);
            if t.covered {
                assert!(v.is_mine_if_revealed.is_none());
                assert!(v.adjacent_count_if_revealed.is_none());
            } else {
                assert_eq!(v.is_mine_if_revealed, Some(t.is_mine));
                if t.is_mine {
                    assert!(v.adjacent_count_if_revealed.is_none());
                } else {
                    assert_eq!(v.adjacent_count_if_revealed, Some(t.adjacent_mine_count));
                }
            }
        }
    }
}
