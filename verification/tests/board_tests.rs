use minesweeper_core::board::{MineSweeper, COLS, MINES, ROWS};
use minesweeper_core::cell::{Content, Square, Status, SweepError};

/// Counts the mines on a board by scanning every square.
fn count_mines(b: &MineSweeper) -> usize {
    let mut n = 0;
    for row in &b.field {
        for sq in row {
            if sq.content == Content::Mine {
                n += 1;
            }
        }
    }
    n
}

/// Counts the mines adjacent to (r, c) by a brute-force scan of the
/// eight candidate offsets.
fn brute_force_adjacent_mines(b: &MineSweeper, r: usize, c: usize) -> u8 {
    let mut n = 0;
    for dr in [-1i64, 0, 1] {
        for dc in [-1i64, 0, 1] {
            if dr == 0 && dc == 0 {
                continue;
            }
            let rr = r as i64 + dr;
            let cc = c as i64 + dc;
            if rr >= 0 && rr < b.rows as i64 && cc >= 0 && cc < b.cols as i64 {
                if b.field[rr as usize][cc as usize].content == Content::Mine {
                    n += 1;
                }
            }
        }
    }
    n
}

#[test]
fn generated_board_has_exact_mines_and_counts() {
    let b = MineSweeper::new();
    assert_eq!(b.rows, ROWS);
    assert_eq!(b.cols, COLS);
    assert_eq!(count_mines(&b), MINES);
    for r in 0..b.rows {
        for c in 0..b.cols {
            let sq = b.get(r, c);
            assert_eq!(sq.status, Status::Covered);
            match sq.content {
                Content::Mine => {}
                Content::Count(n) => {
                    assert_eq!(n, brute_force_adjacent_mines(&b, r, c));
                }
            }
        }
    }
}

#[test]
fn generate_rejects_bad_configurations() {
    assert!(matches!(MineSweeper::generate(4, 4, 16), Err(SweepError::Config)));
    assert!(matches!(MineSweeper::generate(0, 5, 0), Err(SweepError::Config)));
    assert!(matches!(MineSweeper::generate(5, 0, 0), Err(SweepError::Config)));
    let b = MineSweeper::generate(5, 5, 24).unwrap();
    assert_eq!(count_mines(&b), 24);
    let empty = MineSweeper::generate(3, 3, 0).unwrap();
    assert_eq!(count_mines(&empty), 0);
}

#[test]
fn neighbors_clip_to_the_grid() {
    let b = MineSweeper::generate(16, 31, 0).unwrap();
    for (r, c) in [(0, 0), (0, 30), (15, 0), (15, 30)] {
        assert_eq!(b.neighbors(r, c).len(), 3);
    }
    for (r, c) in [(0, 5), (7, 0), (15, 7), (7, 30)] {
        assert_eq!(b.neighbors(r, c).len(), 5);
    }
    for (r, c) in [(5, 5), (1, 1), (14, 29), (8, 16)] {
        assert_eq!(b.neighbors(r, c).len(), 8);
    }
    let nbrs = b.neighbors(3, 4);
    for i in 0..nbrs.len() {
        let (nr, nc) = nbrs[i];
        assert!(nr < 16 && nc < 31);
        assert!(nr.abs_diff(3) <= 1 && nc.abs_diff(4) <= 1);
        assert!((nr, nc) != (3, 4));
        for j in 0..i {
            assert!(nbrs[j] != nbrs[i]);
        }
    }
}

#[test]
fn example_four_by_four_counts() {
    let mines = vec![(0, 0), (3, 3)];
    let b = MineSweeper::from_mine_list(4, 4, &mines).unwrap();
    assert_eq!(b.field[0][0].content, Content::Mine);
    assert_eq!(b.field[3][3].content, Content::Mine);
    assert_eq!(b.field[0][1].content, Content::Count(1));
    assert_eq!(b.field[1][0].content, Content::Count(1));
    assert_eq!(b.field[1][1].content, Content::Count(1));
    assert_eq!(b.field[3][2].content, Content::Count(1));
    assert_eq!(b.field[2][3].content, Content::Count(1));
    // (2, 2) touches the mine at (3, 3) diagonally, so its count is 1.
    assert_eq!(b.field[2][2].content, Content::Count(1));
    for (r, c) in [(0, 2), (0, 3), (1, 2), (1, 3), (2, 0), (2, 1), (3, 0), (3, 1)] {
        assert_eq!(b.field[r][c].content, Content::Count(0));
    }
}

#[test]
fn from_mine_list_rejects_bad_lists() {
    let dup = vec![(1, 1), (2, 2), (1, 1)];
    assert!(matches!(MineSweeper::from_mine_list(4, 4, &dup), Err(SweepError::Config)));
    let oob = vec![(1, 1), (4, 0)];
    assert!(matches!(MineSweeper::from_mine_list(4, 4, &oob), Err(SweepError::Config)));
    let too_many: Vec<(usize, usize)> = (0..4).flat_map(|r| (0..4).map(move |c| (r, c))).collect();
    assert!(matches!(MineSweeper::from_mine_list(4, 4, &too_many), Err(SweepError::Config)));
}

#[test]
fn calculate_rederives_counts() {
    let mines = vec![(2, 2)];
    let mut b = MineSweeper::from_mine_list(5, 5, &mines).unwrap();
    // Damage a count through the mutable accessor, then recompute.
    b.get_mut(0, 0).content = Content::Count(7);
    b.calculate();
    assert_eq!(b.field[0][0].content, Content::Count(0));
    for r in 1..4 {
        for c in 1..4 {
            if (r, c) != (2, 2) {
                assert_eq!(b.field[r][c].content, Content::Count(1));
            }
        }
    }
}

#[test]
fn cell_checks_bounds() {
    let b = MineSweeper::generate(4, 4, 0).unwrap();
    assert_eq!(b.cell(1, 2).unwrap().content, Content::Count(0));
    assert_eq!(b.cell(4, 0).unwrap_err(), SweepError::OutOfBounds);
    assert_eq!(b.cell(0, 4).unwrap_err(), SweepError::OutOfBounds);
    assert_eq!(b.dimensions(), (4, 4));
}

#[test]
fn fresh_squares_are_covered_zeros() {
    let sq = Square::new();
    assert_eq!(sq.content, Content::Count(0));
    assert_eq!(sq.status, Status::Covered);
    assert_eq!(Square::default(), sq);
    assert_eq!(Content::default(), Content::Count(0));
    assert_eq!(Status::default(), Status::Covered);
}
