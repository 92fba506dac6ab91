use minesweeper_core::board::{COLS, MINES, ROWS};
use minesweeper_core::cell::{Content, Outcome, Status, SweepError};
use minesweeper_core::engine::GameState;

/// The status of every square, row by row, for whole-state comparison.
fn statuses(g: &GameState) -> Vec<Vec<Status>> {
    g.board.field.iter().map(|row| row.iter().map(|sq| sq.status).collect()).collect()
}

fn status_at(g: &GameState, r: usize, c: usize) -> Status {
    g.board.field[r][c].status
}

#[test]
fn fresh_game_is_covered_and_in_progress() {
    let g = GameState::new();
    assert_eq!(g.outcome(), Outcome::InProgress);
    assert_eq!(g.dimensions(), (ROWS, COLS));
    let mut mines = 0;
    for r in 0..ROWS {
        for c in 0..COLS {
            assert_eq!(status_at(&g, r, c), Status::Covered);
            if g.board.field[r][c].content == Content::Mine {
                mines += 1;
            }
        }
    }
    assert_eq!(mines, MINES);
}

#[test]
fn flood_fill_uncovers_zero_region_and_border() {
    // One mine in the middle: the zero region is the far column and
    // row, its border the ring of ones around the mine.
    let g0 = GameState::from_mine_list(4, 4, &vec![(1, 1)]).unwrap();
    let mut g = g0;
    assert_eq!(g.reveal_cell(0, 3), Ok(()));
    assert_eq!(g.outcome(), Outcome::InProgress);
    let covered = [(0, 0), (0, 1), (1, 0), (1, 1)];
    for r in 0..4 {
        for c in 0..4 {
            if covered.contains(&(r, c)) {
                assert_eq!(status_at(&g, r, c), Status::Covered, "({r},{c})");
            } else {
                assert_eq!(status_at(&g, r, c), Status::Uncovered, "({r},{c})");
            }
        }
    }
}

#[test]
fn reveal_is_idempotent() {
    let mut g = GameState::from_mine_list(4, 4, &vec![(1, 1)]).unwrap();
    assert_eq!(g.reveal_cell(0, 3), Ok(()));
    let once = statuses(&g);
    let outcome_once = g.outcome();
    assert_eq!(g.reveal_cell(0, 3), Ok(()));
    assert_eq!(statuses(&g), once);
    assert_eq!(g.outcome(), outcome_once);
}

#[test]
fn revealing_a_numbered_square_does_not_cascade() {
    let mut g = GameState::from_mine_list(4, 4, &vec![(1, 1)]).unwrap();
    assert_eq!(g.reveal_cell(0, 0), Ok(()));
    assert_eq!(status_at(&g, 0, 0), Status::Uncovered);
    for r in 0..4 {
        for c in 0..4 {
            if (r, c) != (0, 0) {
                assert_eq!(status_at(&g, r, c), Status::Covered);
            }
        }
    }
}

#[test]
fn flags_protect_a_square_from_reveal() {
    let mut g = GameState::from_mine_list(4, 4, &vec![(1, 1)]).unwrap();
    assert_eq!(g.toggle_mark(2, 2), Ok(()));
    assert_eq!(status_at(&g, 2, 2), Status::Flagged);
    assert_eq!(g.reveal_cell(2, 2), Ok(()));
    assert_eq!(status_at(&g, 2, 2), Status::Flagged);
    assert_eq!(g.outcome(), Outcome::InProgress);
}

#[test]
fn coordinates_outside_the_board_are_errors() {
    let mut g = GameState::from_mine_list(4, 4, &vec![(1, 1)]).unwrap();
    assert_eq!(g.reveal_cell(4, 0), Err(SweepError::OutOfBounds));
    assert_eq!(g.toggle_mark(0, 4), Err(SweepError::OutOfBounds));
    assert_eq!(g.chord_reveal(9, 9), Err(SweepError::OutOfBounds));
    assert_eq!(g.cell(4, 4).unwrap_err(), SweepError::OutOfBounds);
    assert_eq!(g.outcome(), Outcome::InProgress);
    for r in 0..4 {
        for c in 0..4 {
            assert_eq!(status_at(&g, r, c), Status::Covered);
        }
    }
}

#[test]
fn marking_cycles_and_ignores_uncovered_squares() {
    let mut g = GameState::from_mine_list(4, 4, &vec![(1, 1)]).unwrap();
    assert_eq!(status_at(&g, 3, 3), Status::Covered);
    g.toggle_mark(3, 3).unwrap();
    assert_eq!(status_at(&g, 3, 3), Status::Flagged);
    g.toggle_mark(3, 3).unwrap();
    assert_eq!(status_at(&g, 3, 3), Status::Questioned);
    g.toggle_mark(3, 3).unwrap();
    assert_eq!(status_at(&g, 3, 3), Status::Covered);
    g.reveal_cell(0, 0).unwrap();
    g.toggle_mark(0, 0).unwrap();
    assert_eq!(status_at(&g, 0, 0), Status::Uncovered);
}

#[test]
fn chord_uncovers_non_flagged_neighbors() {
    // (1, 1) touches both mines, so it holds a 2.
    let mut g = GameState::from_mine_list(4, 4, &vec![(0, 0), (0, 2)]).unwrap();
    g.reveal_cell(1, 1).unwrap();
    assert_eq!(g.board.field[1][1].content, Content::Count(2));
    g.toggle_mark(0, 0).unwrap();
    g.toggle_mark(0, 2).unwrap();
    assert_eq!(g.flags_around(1, 1), 2);
    assert_eq!(g.chord_reveal(1, 1), Ok(()));
    for (r, c) in [(0, 1), (1, 0), (1, 2), (2, 0), (2, 1), (2, 2)] {
        assert_eq!(status_at(&g, r, c), Status::Uncovered, "({r},{c})");
    }
    assert_eq!(status_at(&g, 0, 0), Status::Flagged);
    assert_eq!(status_at(&g, 0, 2), Status::Flagged);
    assert_eq!(g.outcome(), Outcome::InProgress);
}

#[test]
fn chord_with_wrong_flag_count_is_a_no_op() {
    let mut g = GameState::from_mine_list(4, 4, &vec![(0, 0), (0, 2)]).unwrap();
    g.reveal_cell(1, 1).unwrap();
    // One flag: fewer than the square's 2.
    g.toggle_mark(0, 0).unwrap();
    assert_eq!(g.flags_around(1, 1), 1);
    let before = statuses(&g);
    assert_eq!(g.chord_reveal(1, 1), Ok(()));
    assert_eq!(statuses(&g), before);
    // Three flags: more than the square's 2.
    g.toggle_mark(0, 2).unwrap();
    g.toggle_mark(1, 0).unwrap();
    assert_eq!(g.flags_around(1, 1), 3);
    let before = statuses(&g);
    assert_eq!(g.chord_reveal(1, 1), Ok(()));
    assert_eq!(statuses(&g), before);
    assert_eq!(g.outcome(), Outcome::InProgress);
}

#[test]
fn chord_on_a_wrong_flag_reveals_the_mine_and_loses() {
    let mut g = GameState::from_mine_list(4, 4, &vec![(0, 0), (0, 2)]).unwrap();
    g.reveal_cell(1, 1).unwrap();
    // Two flags, but one of them on a safe square: the chord reveals
    // the unflagged mine at (0, 0).
    g.toggle_mark(0, 2).unwrap();
    g.toggle_mark(1, 0).unwrap();
    assert_eq!(g.flags_around(1, 1), 2);
    assert_eq!(g.chord_reveal(1, 1), Ok(()));
    assert_eq!(g.outcome(), Outcome::Lost);
    assert_eq!(status_at(&g, 0, 0), Status::Uncovered);
}

#[test]
fn revealing_the_last_safe_square_wins() {
    let mut g = GameState::from_mine_list(2, 2, &vec![(0, 0)]).unwrap();
    g.reveal_cell(0, 1).unwrap();
    assert_eq!(g.outcome(), Outcome::InProgress);
    g.reveal_cell(1, 0).unwrap();
    assert_eq!(g.outcome(), Outcome::InProgress);
    g.reveal_cell(1, 1).unwrap();
    assert_eq!(g.outcome(), Outcome::Won);
    // A won game is terminal for further intents.
    g.reveal_cell(0, 0).unwrap();
    assert_eq!(status_at(&g, 0, 0), Status::Covered);
    assert_eq!(g.outcome(), Outcome::Won);
}

#[test]
fn revealing_a_mine_loses_and_freezes_the_game() {
    let mut g = GameState::from_mine_list(4, 4, &vec![(1, 1)]).unwrap();
    g.reveal_cell(1, 1).unwrap();
    assert_eq!(g.outcome(), Outcome::Lost);
    assert_eq!(status_at(&g, 1, 1), Status::Uncovered);
    // Everything else stayed covered, and further intents are no-ops.
    g.reveal_cell(0, 0).unwrap();
    assert_eq!(status_at(&g, 0, 0), Status::Covered);
    g.toggle_mark(0, 0).unwrap();
    assert_eq!(status_at(&g, 0, 0), Status::Covered);
    g.chord_reveal(1, 1).unwrap();
    assert_eq!(g.outcome(), Outcome::Lost);
}

#[test]
fn reset_starts_a_fresh_game_from_any_outcome() {
    let mut g = GameState::from_mine_list(4, 4, &vec![(1, 1), (3, 3)]).unwrap();
    g.toggle_mark(0, 0).unwrap();
    g.reveal_cell(1, 1).unwrap();
    assert_eq!(g.outcome(), Outcome::Lost);
    g.reset();
    assert_eq!(g.outcome(), Outcome::InProgress);
    assert_eq!(g.dimensions(), (4, 4));
    let mut mines = 0;
    for r in 0..4 {
        for c in 0..4 {
            assert_eq!(status_at(&g, r, c), Status::Covered);
            if g.board.field[r][c].content == Content::Mine {
                mines += 1;
            }
        }
    }
    assert_eq!(mines, 2);
    // After a reset the game accepts intents again.
    g.toggle_mark(0, 0).unwrap();
    assert_eq!(status_at(&g, 0, 0), Status::Flagged);
}

#[test]
fn game_constructors_check_their_configuration() {
    assert!(matches!(GameState::generate(3, 3, 9), Err(SweepError::Config)));
    assert!(matches!(GameState::from_mine_list(3, 3, &vec![(0, 0), (0, 0)]), Err(SweepError::Config)));
    let g = GameState::generate(3, 3, 8).unwrap();
    assert_eq!(g.outcome(), Outcome::InProgress);
}
