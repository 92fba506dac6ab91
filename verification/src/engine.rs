//! The game engine: a board together with an outcome, driven by the
//! player intents reveal, toggle-mark, chorded reveal, and reset. Each
//! operation is proved to implement its transition function from the
//! model exactly.

use vstd::prelude::*;

verus! {

use crate::board::{MineSweeper, valid_config, valid_mine_list, COLS, MINES, ROWS};
use crate::cell::{Content, Outcome, Square, Status, SweepError, cycled, is_mine, is_zero};
use crate::count::{
    flagged_pred, grid_count, lemma_grid_count_bounds, lemma_grid_count_congruent_pred,
    lemma_grid_count_update, list_count, mine_pred, not_uncovered_pred,
};
use crate::model::{
    GameView, adj_flags, adjacent, all_safe_uncovered, can_chord, can_mark, can_reveal, chord_fold,
    chord_tr, counts_ok, lemma_counts_ok_outcome, lemma_counts_ok_same_contents,
    lemma_nbr_seq_props, lemma_reaches_self, lemma_reaches_step, mark_tr, nbr_seq, reaches,
    reveal_grid, reveal_tr,
};

/// Whether the work list holds the coordinate (i, j).
pub open spec fn stack_has(s: Seq<(usize, usize)>, i: int, j: int) -> bool {
    exists|k: int| 0 <= k < s.len() && (#[trigger] s[k]).0 == i && s[k].1 == j
}

/// Pushing onto the work list keeps everything it held and adds the
/// pushed coordinate.
proof fn lemma_stack_has_push(s: Seq<(usize, usize)>, e: (usize, usize))
    ensures
        forall|i: int, j: int| stack_has(s, i, j) ==> stack_has(s.push(e), i, j),
        stack_has(s.push(e), e.0 as int, e.1 as int),
{
    assert forall|i: int, j: int| stack_has(s, i, j) implies stack_has(s.push(e), i, j) by {
        let k = choose|k: int| 0 <= k < s.len() && (#[trigger] s[k]).0 == i && s[k].1 == j;
        assert(s.push(e)[k] == s[k]);
    }
    assert(s.push(e)[s.len() as int] == e);
}

/// A running game: the board, the current outcome, and the configured
/// mine count, kept so that a reset can regenerate a like board.
pub struct GameState {
    pub board: MineSweeper,
    pub outcome: Outcome,
    pub mines: usize,
}

impl View for GameState {
    type V = GameView;

    open spec fn view(&self) -> GameView {
        GameView {
            rows: self.board.rows as int,
            cols: self.board.cols as int,
            grid: self.board@,
            outcome: self.outcome,
        }
    }
}

impl GameState {
    /// The game invariant: a well-formed board whose configured mine
    /// count matches the mines on the grid and whose counts are exact.
    pub open spec fn wf(self) -> bool {
        &&& self.board.wf()
        &&& (self.board.rows as int) * (self.board.cols as int) <= usize::MAX
        &&& (self.mines as int) < (self.board.rows as int) * (self.board.cols as int)
        &&& self.board.mine_total() == self.mines
        &&& counts_ok(self@)
    }

    /// A fresh game on a randomly generated board. Fails with a
    /// configuration error when the mine count does not fit the grid.
    pub fn generate(rows: usize, cols: usize, mine_count: usize) -> (r: Result<
        GameState,
        SweepError,
    >)
        ensures
            r is Ok <==> valid_config(rows, cols, mine_count),
            r matches Ok(g) ==> ({
                &&& g.wf()
                &&& g@.rows == rows
                &&& g@.cols == cols
                &&& g.mines == mine_count
                &&& g@.outcome == Outcome::InProgress
                &&& forall|i: int, j: int|
                    0 <= i < rows && 0 <= j < cols ==> (#[trigger] g@.grid[i][j]).status
                        == Status::Covered
            }),
            r is Err ==> r == Err::<GameState, SweepError>(SweepError::Config),
    {
        match MineSweeper::generate(rows, cols, mine_count) {
            Ok(board) => {
                let g = GameState { board, outcome: Outcome::InProgress, mines: mine_count };
                proof {
                    lemma_counts_ok_outcome(g.board.bview(), g@);
                }
                Ok(g)
            },
            Err(e) => Err(e),
        }
    }

    /// A fresh game on the canonical "Expert" board: 16 x 31 with 99
    /// mines.
    pub fn new() -> (g: GameState)
        ensures
            g.wf(),
            g@.rows == ROWS,
            g@.cols == COLS,
            g.mines == MINES,
            g@.outcome == Outcome::InProgress,
            forall|i: int, j: int|
                0 <= i < ROWS && 0 <= j < COLS ==> (#[trigger] g@.grid[i][j]).status
                    == Status::Covered,
    {
        Self::generate(ROWS, COLS, MINES).unwrap()
    }

    /// A fresh game on a board with the given mine coordinates: the
    /// deterministic counterpart of `generate`.
    pub fn from_mine_list(rows: usize, cols: usize, mines: &Vec<(usize, usize)>) -> (r: Result<
        GameState,
        SweepError,
    >)
        ensures
            r is Ok <==> ((rows as int) * (cols as int) <= usize::MAX && mines@.len() < (rows as int)
                * (cols as int) && valid_mine_list(rows, cols, mines@)),
            r matches Ok(g) ==> ({
                &&& g.wf()
                &&& g@.rows == rows
                &&& g@.cols == cols
                &&& g.mines == mines@.len()
                &&& g@.outcome == Outcome::InProgress
                &&& forall|i: int, j: int|
                    0 <= i < rows && 0 <= j < cols ==> (#[trigger] g@.grid[i][j]).status
                        == Status::Covered
                &&& forall|i: int, j: int|
                    0 <= i < rows && 0 <= j < cols ==> (is_mine(#[trigger] g@.grid[i][j])
                        <==> mines@.contains((i as usize, j as usize)))
            }),
            r is Err ==> r == Err::<GameState, SweepError>(SweepError::Config),
    {
        match MineSweeper::from_mine_list(rows, cols, mines) {
            Ok(board) => {
                let n = mines.len();
                let g = GameState { board, outcome: Outcome::InProgress, mines: n };
                proof {
                    lemma_counts_ok_outcome(g.board.bview(), g@);
                }
                Ok(g)
            },
            Err(e) => Err(e),
        }
    }

    /// The current outcome of the game.
    pub fn outcome(&self) -> (o: Outcome)
        ensures
            o == self@.outcome,
    {
        self.outcome
    }

    /// The board dimensions, as (rows, cols).
    pub fn dimensions(&self) -> (d: (usize, usize))
        ensures
            d.0 == self@.rows,
            d.1 == self@.cols,
    {
        (self.board.rows, self.board.cols)
    }

    /// Reads a square, with the coordinate checked against the board
    /// bounds.
    pub fn cell(&self, row: usize, col: usize) -> (r: Result<&Square, SweepError>)
        requires
            self.wf(),
        ensures
            row < self@.rows && col < self@.cols ==> (r matches Ok(sq) && *sq == self@.grid[row
                as int][col as int]),
            !(row < self@.rows && col < self@.cols) ==> r == Err::<&Square, SweepError>(
                SweepError::OutOfBounds,
            ),
    {
        self.board.cell(row, col)
    }

    /// Whether every non-mine square is uncovered: the winning
    /// condition, derived from the board.
    fn check_win(&self) -> (w: bool)
        requires
            self.board.wf(),
        ensures
            w == all_safe_uncovered(self.board@),
    {
        let rows = self.board.rows;
        let cols = self.board.cols;
        let mut i: usize = 0;
        while i < rows
            invariant
                self.board.wf(),
                self.board.rows == rows,
                self.board.cols == cols,
                i <= rows,
                forall|a: int, b: int|
                    0 <= a < i && 0 <= b < cols ==> ((#[trigger] self.board@[a][b]).content
                        != Content::Mine ==> self.board@[a][b].status == Status::Uncovered),
            decreases rows - i,
        {
            let mut j: usize = 0;
            while j < cols
                invariant
                    self.board.wf(),
                    self.board.rows == rows,
                    self.board.cols == cols,
                    i < rows,
                    j <= cols,
                    forall|a: int, b: int|
                        0 <= a < i && 0 <= b < cols ==> ((#[trigger] self.board@[a][b]).content
                            != Content::Mine ==> self.board@[a][b].status == Status::Uncovered),
                    forall|b: int|
                        0 <= b < j ==> ((#[trigger] self.board@[i as int][b]).content
                            != Content::Mine ==> self.board@[i as int][b].status
                            == Status::Uncovered),
                decreases cols - j,
            {
                let sq = *self.board.get(i, j);
                if !(sq.content == Content::Mine) && !(sq.status == Status::Uncovered) {
                    return false;
                }
                j = j + 1;
            }
            i = i + 1;
        }
        true
    }

    /// The number of flagged squares among the neighbors of a
    /// coordinate.
    pub fn flags_around(&self, row: usize, col: usize) -> (m: u8)
        requires
            self.board.wf(),
            row < self@.rows,
            col < self@.cols,
        ensures
            m as int == adj_flags(self@, row as int, col as int),
    {
        let nbrs = self.board.neighbors(row, col);
        proof {
            crate::model::lemma_nbr_seq_len(self@.rows, self@.cols, row as int, col as int);
            crate::model::lemma_nbr_seq_props(self@.rows, self@.cols, row as int, col as int);
        }
        let mut m: u8 = 0;
        let mut k: usize = 0;
        while k < nbrs.len()
            invariant
                self.board.wf(),
                row < self.board.rows,
                col < self.board.cols,
                nbrs@ == nbr_seq(self@.rows, self@.cols, row as int, col as int),
                k <= nbrs@.len() <= 8,
                forall|k2: int|
                    0 <= k2 < nbrs@.len() ==> (#[trigger] nbrs@[k2]).0 < self.board.rows
                        && nbrs@[k2].1 < self.board.cols,
                m <= k,
                m as int == list_count(self.board@, nbrs@, flagged_pred(), k as int),
            decreases nbrs@.len() - k,
        {
            let (r, c) = nbrs[k];
            if self.board.get(r, c).status == Status::Flagged {
                m = m + 1;
            }
            k = k + 1;
        }
        proof {
            crate::model::lemma_list_count_nbrs(self@, row as int, col as int, flagged_pred());
        }
        m
    }

    /// Advances the marking of a square along the Covered -> Flagged ->
    /// Questioned -> Covered cycle; an uncovered square, or a finished
    /// game, is unaffected. Fails only on a coordinate outside the
    /// board.
    pub fn toggle_mark(&mut self, row: usize, col: usize) -> (res: Result<(), SweepError>)
        requires
            old(self).wf(),
        ensures
            final(self).wf(),
            final(self).mines == old(self).mines,
            row < old(self)@.rows && col < old(self)@.cols ==> (res == Ok::<(), SweepError>(())
                && final(self)@ == mark_tr(old(self)@, row as int, col as int)),
            !(row < old(self)@.rows && col < old(self)@.cols) ==> (res == Err::<(), SweepError>(
                SweepError::OutOfBounds,
            ) && *final(self) == *old(self)),
    {
        if !(row < self.board.rows && col < self.board.cols) {
            return Err(SweepError::OutOfBounds);
        }
        let ghost v0 = self@;
        if !(self.outcome == Outcome::InProgress) {
            proof {
                assert(!can_mark(v0, row as int, col as int));
            }
            return Ok(());
        }
        let ghost gprev = self.board@;
        let sq = self.board.get_mut(row, col);
        let ns = match sq.status {
            Status::Covered => Status::Flagged,
            Status::Flagged => Status::Questioned,
            Status::Questioned => Status::Covered,
            Status::Uncovered => Status::Uncovered,
        };
        sq.status = ns;
        proof {
            let x = Square {
                status: cycled(gprev[row as int][col as int].status),
                content: gprev[row as int][col as int].content,
            };
            assert(self.board@ =~~= gprev.update(
                row as int,
                gprev[row as int].update(col as int, x),
            ));
            assert(self@ =~~= mark_tr(v0, row as int, col as int));
            lemma_counts_ok_same_contents(v0, self@);
            crate::count::lemma_grid_count_congruent_pred(
                self.board@,
                gprev,
                mine_pred(),
                self.board.rows as int,
            );
        }
        Ok(())
    }

    /// Re-derives the outcome after a flood fill: lost on a mine,
    /// won once every non-mine square is uncovered.
    fn settle_outcome(&mut self, row: usize, col: usize, was_mine: bool, Ghost(v0): Ghost<
        GameView,
    >)
        requires
            old(self).board.wf(),
            v0.wf(),
            counts_ok(v0),
            can_reveal(v0, row as int, col as int),
            old(self).board.rows as int == v0.rows,
            old(self).board.cols as int == v0.cols,
            old(self).board@ == reveal_grid(v0, row as int, col as int),
            old(self).outcome == Outcome::InProgress,
            grid_count(v0.grid, mine_pred(), v0.rows) == old(self).mines,
            (old(self).mines as int) < v0.rows * v0.cols,
            v0.rows * v0.cols <= usize::MAX,
            was_mine == (v0.sq(row as int, col as int).content == Content::Mine),
        ensures
            final(self).wf(),
            final(self).mines == old(self).mines,
            final(self)@ == reveal_tr(v0, row as int, col as int),
    {
        if was_mine {
            self.outcome = Outcome::Lost;
        } else {
            let won = self.check_win();
            if won {
                self.outcome = Outcome::Won;
            }
        }
        proof {
            assert(self@ == reveal_tr(v0, row as int, col as int));
            crate::model::lemma_reveal_tr_wf(v0, row as int, col as int);
            lemma_grid_count_congruent_pred(
                self.board@,
                v0.grid,
                mine_pred(),
                self.board.rows as int,
            );
        }
    }

    /// The reveal transition at an in-bounds coordinate: a no-op on a
    /// finished game or a flagged or uncovered square; otherwise the
    /// flood-fill region is uncovered with an explicit work list, and
    /// the outcome is re-derived.
    #[verifier::loop_isolation(false)]
    #[verifier::rlimit(100)]
    fn reveal_at(&mut self, row: usize, col: usize)
        requires
            old(self).wf(),
            row < old(self)@.rows,
            col < old(self)@.cols,
        ensures
            final(self).wf(),
            final(self).mines == old(self).mines,
            final(self)@ == reveal_tr(old(self)@, row as int, col as int),
    {
        let ghost v0 = self@;
        let ghost sr = row as int;
        let ghost sc = col as int;
        if !(self.outcome == Outcome::InProgress) {
            proof {
                assert(!can_reveal(v0, sr, sc));
            }
            return;
        }
        let sq0 = *self.board.get(row, col);
        if sq0.status == Status::Flagged || sq0.status == Status::Uncovered {
            proof {
                assert(!can_reveal(v0, sr, sc));
            }
            return;
        }
        proof {
            assert(can_reveal(v0, sr, sc));
            lemma_reaches_self(v0, sr, sc);
        }
        let was_mine = sq0.content == Content::Mine;
        let rows = self.board.rows;
        let cols = self.board.cols;
        let mut stack: Vec<(usize, usize)> = Vec::new();
        stack.push((row, col));
        proof {
            assert(stack@[0] == (row, col));
        }
        while stack.len() > 0
            invariant
                self.board.wf(),
                self.board.rows == rows,
                self.board.cols == cols,
                self.outcome == Outcome::InProgress,
                self.mines == old(self).mines,
                forall|i: int, j: int|
                    0 <= i < rows && 0 <= j < cols ==> (#[trigger] self.board@[i][j]).content
                        == v0.grid[i][j].content,
                forall|i: int, j: int|
                    0 <= i < rows && 0 <= j < cols ==> ((#[trigger] self.board@[i][j]).status
                        == v0.grid[i][j].status || (self.board@[i][j].status == Status::Uncovered
                        && reaches(v0, sr, sc, i, j))),
                forall|k: int|
                    0 <= k < stack@.len() ==> ((#[trigger] stack@[k]).0 < rows && stack@[k].1 < cols
                        && reaches(v0, sr, sc, stack@[k].0 as int, stack@[k].1 as int)),
                forall|i: int, j: int, i2: int, j2: int|
                    0 <= i < rows && 0 <= j < cols && 0 <= i2 < rows && 0 <= j2 < cols && adjacent(
                        i2,
                        j2,
                        i,
                        j,
                    ) && (#[trigger] self.board@[i][j]).status == Status::Uncovered
                        && v0.sq(i, j).status != Status::Uncovered && is_zero(v0.sq(i, j)) ==> ((
                    #[trigger] self.board@[i2][j2]).status == Status::Uncovered || stack_has(
                        stack@,
                        i2,
                        j2,
                    ) || v0.sq(i2, j2).status == Status::Flagged || v0.sq(i2, j2).status
                        == Status::Uncovered),
                self.board@[sr][sc].status == Status::Uncovered || stack_has(stack@, sr, sc),
            decreases grid_count(self.board@, not_uncovered_pred(), rows as int), stack@.len(),
        {
            proof {
                lemma_grid_count_bounds(
                    self.board@,
                    not_uncovered_pred(),
                    rows as int,
                    cols as int,
                );
            }
            let ghost spre = stack@;
            let popped = stack.pop().unwrap();
            let (r, c) = popped;
            proof {
                assert(spre[spre.len() - 1] == (r, c));
                assert(reaches(v0, sr, sc, r as int, c as int));
            }
            let sq = *self.board.get(r, c);
            if !(sq.status == Status::Flagged) && !(sq.status == Status::Uncovered) {
                let ghost gprev = self.board@;
                let squ = self.board.get_mut(r, c);
                squ.status = Status::Uncovered;
                proof {
                    let x = Square {
                        content: gprev[r as int][c as int].content,
                        status: Status::Uncovered,
                    };
                    assert(self.board@ =~~= gprev.update(
                        r as int,
                        gprev[r as int].update(c as int, x),
                    ));
                    lemma_grid_count_update(
                        gprev,
                        not_uncovered_pred(),
                        rows as int,
                        r as int,
                        c as int,
                        x,
                    );
                    lemma_grid_count_bounds(
                        self.board@,
                        not_uncovered_pred(),
                        rows as int,
                        cols as int,
                    );
                    assert forall|i2: int, j2: int| stack_has(spre, i2, j2) implies (
                    self.board@[i2][j2].status == Status::Uncovered || stack_has(
                        stack@,
                        i2,
                        j2,
                    )) by {
                        let kk = choose|kk: int|
                            0 <= kk < spre.len() && (#[trigger] spre[kk]).0 == i2 && spre[kk].1
                                == j2;
                        if kk == spre.len() - 1 {
                            assert(i2 == r as int && j2 == c as int);
                        } else {
                            assert(stack@[kk] == spre[kk]);
                        }
                    }
                }
                if sq.content == Content::Count(0) {
                    let nbrs = self.board.neighbors(r, c);
                    proof {
                        lemma_nbr_seq_props(rows as int, cols as int, r as int, c as int);
                    }
                    let mut k: usize = 0;
                    while k < nbrs.len()
                        invariant
                            k <= nbrs@.len(),
                            forall|k2: int|
                                0 <= k2 < stack@.len() ==> ((#[trigger] stack@[k2]).0 < rows
                                    && stack@[k2].1 < cols && reaches(
                                    v0,
                                    sr,
                                    sc,
                                    stack@[k2].0 as int,
                                    stack@[k2].1 as int,
                                )),
                            forall|i2: int, j2: int|
                                stack_has(spre.drop_last(), i2, j2) ==> stack_has(stack@, i2, j2),
                            forall|k2: int|
                                0 <= k2 < k ==> {
                                    let p = #[trigger] nbrs@[k2];
                                    self.board@[p.0 as int][p.1 as int].status == Status::Uncovered
                                        || stack_has(stack@, p.0 as int, p.1 as int) || v0.sq(
                                        p.0 as int,
                                        p.1 as int,
                                    ).status == Status::Flagged || v0.sq(
                                        p.0 as int,
                                        p.1 as int,
                                    ).status == Status::Uncovered
                                },
                        decreases nbrs@.len() - k,
                    {
                        let (nr, nc) = nbrs[k];
                        let nsq = *self.board.get(nr, nc);
                        if !(nsq.status == Status::Flagged) && !(nsq.status == Status::Uncovered) {
                            let ghost s2 = stack@;
                            stack.push((nr, nc));
                            proof {
                                lemma_reaches_step(
                                    v0,
                                    sr,
                                    sc,
                                    r as int,
                                    c as int,
                                    nr as int,
                                    nc as int,
                                );
                                lemma_stack_has_push(s2, (nr, nc));
                            }
                        }
                        k = k + 1;
                    }
                    proof {
                        assert forall|i2: int, j2: int|
                            0 <= i2 < rows && 0 <= j2 < cols && adjacent(
                                i2,
                                j2,
                                r as int,
                                c as int,
                            ) implies (self.board@[i2][j2].status == Status::Uncovered || stack_has(
                            stack@,
                            i2,
                            j2,
                        ) || v0.sq(i2, j2).status == Status::Flagged || v0.sq(i2, j2).status
                            == Status::Uncovered) by {
                            assert(nbr_seq(rows as int, cols as int, r as int, c as int).contains(
                                (i2 as usize, j2 as usize),
                            ));
                            let k2 = choose|k2: int|
                                0 <= k2 < nbrs@.len() && nbrs@[k2] == (i2 as usize, j2 as usize);
                            assert(nbrs@[k2].0 as int == i2 && nbrs@[k2].1 as int == j2);
                        }
                    }
                } else {
                    proof {
                        assert(!is_zero(v0.sq(r as int, c as int)));
                    }
                }
            } else {
                proof {
                    assert forall|i2: int, j2: int| stack_has(spre, i2, j2) implies (
                    self.board@[i2][j2].status == Status::Uncovered || stack_has(stack@, i2, j2)
                        || v0.sq(i2, j2).status == Status::Flagged || v0.sq(i2, j2).status
                        == Status::Uncovered) by {
                        let kk = choose|kk: int|
                            0 <= kk < spre.len() && (#[trigger] spre[kk]).0 == i2 && spre[kk].1
                                == j2;
                        if kk == spre.len() - 1 {
                            assert(i2 == r as int && j2 == c as int);
                            if sq.status == Status::Flagged {
                                assert(v0.sq(i2, j2).status == Status::Flagged);
                            }
                        } else {
                            assert(stack@[kk] == spre[kk]);
                        }
                    }
                }
            }
        }
        proof {
            crate::model::lemma_fill_result(v0, self.board@, sr, sc);
        }
        self.settle_outcome(row, col, was_mine, Ghost(v0));
    }

    /// Reveals a square: a silent no-op on a finished game or on a
    /// flagged or already uncovered square; on a mine the game is
    /// lost; on a zero count the whole connected zero region and its
    /// border are uncovered; and the game is won once no covered
    /// non-mine square is left. Fails only on a coordinate outside the
    /// board.
    pub fn reveal_cell(&mut self, row: usize, col: usize) -> (res: Result<(), SweepError>)
        requires
            old(self).wf(),
        ensures
            final(self).wf(),
            final(self).mines == old(self).mines,
            row < old(self)@.rows && col < old(self)@.cols ==> (res == Ok::<(), SweepError>(())
                && final(self)@ == reveal_tr(old(self)@, row as int, col as int)),
            !(row < old(self)@.rows && col < old(self)@.cols) ==> (res == Err::<(), SweepError>(
                SweepError::OutOfBounds,
            ) && *final(self) == *old(self)),
    {
        if !(row < self.board.rows && col < self.board.cols) {
            return Err(SweepError::OutOfBounds);
        }
        self.reveal_at(row, col);
        Ok(())
    }

    /// A chorded reveal: when the target square is uncovered with a
    /// positive count that exactly matches its number of flagged
    /// neighbors, every neighbor is revealed in turn, each reveal
    /// guarded as usual; otherwise a silent no-op. Fails only on a
    /// coordinate outside the board.
    #[verifier::loop_isolation(false)]
    pub fn chord_reveal(&mut self, row: usize, col: usize) -> (res: Result<(), SweepError>)
        requires
            old(self).wf(),
        ensures
            final(self).wf(),
            final(self).mines == old(self).mines,
            row < old(self)@.rows && col < old(self)@.cols ==> (res == Ok::<(), SweepError>(())
                && final(self)@ == chord_tr(old(self)@, row as int, col as int)),
            !(row < old(self)@.rows && col < old(self)@.cols) ==> (res == Err::<(), SweepError>(
                SweepError::OutOfBounds,
            ) && *final(self) == *old(self)),
    {
        if !(row < self.board.rows && col < self.board.cols) {
            return Err(SweepError::OutOfBounds);
        }
        let ghost v0 = self@;
        if !(self.outcome == Outcome::InProgress) {
            proof {
                assert(!can_chord(v0, row as int, col as int));
            }
            return Ok(());
        }
        let sq = *self.board.get(row, col);
        if !(sq.status == Status::Uncovered) {
            proof {
                assert(!can_chord(v0, row as int, col as int));
            }
            return Ok(());
        }
        let n: u8 = match sq.content {
            Content::Count(n) => n,
            Content::Mine => {
                proof {
                    assert(!can_chord(v0, row as int, col as int));
                }
                return Ok(());
            },
        };
        if n == 0 {
            proof {
                assert(!can_chord(v0, row as int, col as int));
            }
            return Ok(());
        }
        let fl = self.flags_around(row, col);
        if !(fl == n) {
            proof {
                assert(!can_chord(v0, row as int, col as int));
            }
            return Ok(());
        }
        proof {
            assert(can_chord(v0, row as int, col as int));
        }
        let nbrs = self.board.neighbors(row, col);
        proof {
            lemma_nbr_seq_props(v0.rows, v0.cols, row as int, col as int);
            assert(nbrs@.take(0) =~= Seq::empty());
        }
        let mut k: usize = 0;
        while k < nbrs.len()
            invariant
                self.wf(),
                self.mines == old(self).mines,
                self@.rows == v0.rows,
                self@.cols == v0.cols,
                k <= nbrs@.len(),
                self@ == chord_fold(v0, nbrs@.take(k as int)),
            decreases nbrs@.len() - k,
        {
            let (nr, nc) = nbrs[k];
            proof {
                crate::model::lemma_chord_fold_step(v0, nbrs@, k as int);
            }
            self.reveal_at(nr, nc);
            k = k + 1;
        }
        proof {
            assert(nbrs@.take(nbrs@.len() as int) =~= nbrs@);
        }
        Ok(())
    }

    /// Discards the game and starts over: a brand-new randomly
    /// generated board of the same dimensions and mine count, with
    /// every square covered and the outcome back in progress, whatever
    /// the prior outcome.
    pub fn reset(&mut self)
        requires
            old(self).wf(),
        ensures
            final(self).wf(),
            final(self).mines == old(self).mines,
            final(self)@.rows == old(self)@.rows,
            final(self)@.cols == old(self)@.cols,
            final(self)@.outcome == Outcome::InProgress,
            forall|i: int, j: int|
                0 <= i < old(self)@.rows && 0 <= j < old(self)@.cols ==> (#[trigger] final(self)@.grid[i][j]).status == Status::Covered,
    {
        let rows = self.board.rows;
        let cols = self.board.cols;
        let mine_count = self.mines;
        let board = MineSweeper::generate(rows, cols, mine_count).unwrap();
        self.board = board;
        self.outcome = Outcome::InProgress;
        proof {
            lemma_counts_ok_outcome(self.board.bview(), self@);
        }
    }
}

} // verus!
