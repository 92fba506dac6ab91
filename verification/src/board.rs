//! The game board: a grid of squares with fixed dimensions, random mine
//! placement, and the adjacency-count derivation that establishes the
//! board invariant.

use vstd::prelude::*;

verus! {

use crate::cell::{Content, Outcome, Square, Status, SweepError, is_mine};
use crate::count::{grid_count, list_count, mine_pred};
use crate::model::{GameView, adj_mines, counts_ok, lemma_adj_count_congruent, nbr_seq};

/// The number of rows of the canonical ("Expert") board.
pub const ROWS: usize = 16;

/// The number of columns of the canonical ("Expert") board.
pub const COLS: usize = 31;

/// The number of mines of the canonical ("Expert") board.
pub const MINES: usize = 99;

/// The board: a `rows` x `cols` grid of squares.
pub struct MineSweeper {
    pub field: Vec<Vec<Square>>,
    pub rows: usize,
    pub cols: usize,
}

impl View for MineSweeper {
    type V = Seq<Seq<Square>>;

    open spec fn view(&self) -> Seq<Seq<Square>> {
        Seq::new(self.field@.len(), |i: int| self.field@[i]@)
    }
}

impl MineSweeper {
    /// The grid has exactly `rows` rows of `cols` squares each, and
    /// both dimensions are positive.
    pub open spec fn wf(self) -> bool {
        &&& self.field@.len() == self.rows
        &&& forall|i: int| 0 <= i < self.rows ==> (#[trigger] self.field@[i])@.len() == self.cols
        &&& 1 <= self.rows
        &&& 1 <= self.cols
    }

    /// The board as an abstract game state; the outcome is no concern
    /// of the board itself.
    pub open spec fn bview(self) -> GameView {
        GameView {
            rows: self.rows as int,
            cols: self.cols as int,
            grid: self@,
            outcome: Outcome::InProgress,
        }
    }

    /// The number of mines on the board.
    pub open spec fn mine_total(self) -> int {
        grid_count(self@, mine_pred(), self.rows as int)
    }

    /// Retrieves a reference to a square.
    pub fn get(&self, row: usize, col: usize) -> (sq: &Square)
        requires
            self.wf(),
            row < self.rows,
            col < self.cols,
        ensures
            *sq == self@[row as int][col as int],
    {
        &self.field[row][col]
    }

    /// Retrieves a mutable reference to a square.
    pub fn get_mut(&mut self, row: usize, col: usize) -> (sq: &mut Square)
        requires
            old(self).wf(),
            row < old(self).rows,
            col < old(self).cols,
        ensures
            *sq == old(self)@[row as int][col as int],
            final(self).rows == old(self).rows,
            final(self).cols == old(self).cols,
            final(self)@.len() == old(self)@.len(),
            forall|i: int|
                0 <= i < old(self)@.len() && i != row ==> #[trigger] final(self)@[i] == old(
                    self,
                )@[i],
            final(self)@[row as int] == old(self)@[row as int].update(col as int, *final(sq)),
            final(self).wf(),
    {
        &mut self.field[row][col]
    }

    /// Retrieves a reference to a square, with the coordinate checked
    /// against the board bounds.
    pub fn cell(&self, row: usize, col: usize) -> (r: Result<&Square, SweepError>)
        requires
            self.wf(),
        ensures
            row < self.rows && col < self.cols ==> (r matches Ok(sq) && *sq == self@[row as int][col
                as int]),
            !(row < self.rows && col < self.cols) ==> r === Err(SweepError::OutOfBounds),
    {
        if row < self.rows && col < self.cols {
            Ok(&self.field[row][col])
        } else {
            Err(SweepError::OutOfBounds)
        }
    }

    /// The board dimensions, as (rows, cols).
    pub fn dimensions(&self) -> (d: (usize, usize))
        ensures
            d == (self.rows, self.cols),
    {
        (self.rows, self.cols)
    }

    /// The in-bounds neighbors of a coordinate: between 3 and 8
    /// coordinate pairs, produced by clipping the eight candidate
    /// offsets to the grid, in row-major order.
    pub fn neighbors(&self, row: usize, col: usize) -> (nbrs: Vec<(usize, usize)>)
        requires
            self.wf(),
            row < self.rows,
            col < self.cols,
        ensures
            nbrs@ == nbr_seq(self.rows as int, self.cols as int, row as int, col as int),
    {
        let mut nbrs: Vec<(usize, usize)> = Vec::new();
        if row > 0 {
            if col > 0 {
                nbrs.push((row - 1, col - 1));
            }
            nbrs.push((row - 1, col));
            if col + 1 < self.cols {
                nbrs.push((row - 1, col + 1));
            }
        }
        if col > 0 {
            nbrs.push((row, col - 1));
        }
        if col + 1 < self.cols {
            nbrs.push((row, col + 1));
        }
        if row + 1 < self.rows {
            if col > 0 {
                nbrs.push((row + 1, col - 1));
            }
            nbrs.push((row + 1, col));
            if col + 1 < self.cols {
                nbrs.push((row + 1, col + 1));
            }
        }
        proof {
            assert(nbrs@ =~= nbr_seq(
                self.rows as int,
                self.cols as int,
                row as int,
                col as int,
            ));
        }
        nbrs
    }

    /// The number of mines among the neighbors of a coordinate.
    fn count_mine_neighbors(&self, row: usize, col: usize) -> (m: u8)
        requires
            self.wf(),
            row < self.rows,
            col < self.cols,
        ensures
            m as int == adj_mines(self.bview(), row as int, col as int),
    {
        let nbrs = self.neighbors(row, col);
        proof {
            crate::model::lemma_nbr_seq_len(
                self.rows as int,
                self.cols as int,
                row as int,
                col as int,
            );
            crate::model::lemma_nbr_seq_props(
                self.rows as int,
                self.cols as int,
                row as int,
                col as int,
            );
        }
        let mut m: u8 = 0;
        let mut k: usize = 0;
        while k < nbrs.len()
            invariant
                self.wf(),
                row < self.rows,
                col < self.cols,
                nbrs@ == nbr_seq(self.rows as int, self.cols as int, row as int, col as int),
                k <= nbrs@.len() <= 8,
                forall|k2: int|
                    0 <= k2 < nbrs@.len() ==> (#[trigger] nbrs@[k2]).0 < self.rows
                        && nbrs@[k2].1 < self.cols,
                m <= k,
                m as int == list_count(self@, nbrs@, mine_pred(), k as int),
            decreases nbrs@.len() - k,
        {
            let (r, c) = nbrs[k];
            if self.field[r][c].content == Content::Mine {
                m = m + 1;
            }
            k = k + 1;
        }
        proof {
            crate::model::lemma_list_count_nbrs(self.bview(), row as int, col as int, mine_pred());
        }
        m
    }

    /// Derives every non-mine square's count from the mine placement:
    /// afterwards each holds the exact number of mines among its
    /// neighbors. Statuses and mine positions are untouched.
    pub fn calculate(&mut self)
        requires
            old(self).wf(),
        ensures
            final(self).wf(),
            final(self).rows == old(self).rows,
            final(self).cols == old(self).cols,
            forall|i: int, j: int|
                0 <= i < old(self).rows && 0 <= j < old(self).cols ==> (#[trigger] final(self)@[i][j]).status == old(self)@[i][j].status,
            forall|i: int, j: int|
                0 <= i < old(self).rows && 0 <= j < old(self).cols ==> is_mine(#[trigger] final(self)@[i][j]) == is_mine(old(self)@[i][j]),
            final(self).mine_total() == old(self).mine_total(),
            counts_ok(final(self).bview()),
    {
        let rows = self.rows;
        let cols = self.cols;
        let ghost v0 = self.bview();
        let mut i: usize = 0;
        while i < rows
            invariant
                self.wf(),
                self.rows == rows,
                self.cols == cols,
                i <= rows,
                v0 == (GameView { rows: rows as int, cols: cols as int, grid: v0.grid, outcome: Outcome::InProgress }),
                v0.grid.len() == rows,
                forall|a: int, b: int|
                    0 <= a < rows && 0 <= b < cols ==> (#[trigger] self@[a][b]).status == v0.grid[a][b].status,
                forall|a: int, b: int|
                    0 <= a < rows && 0 <= b < cols ==> is_mine(#[trigger] self@[a][b]) == is_mine(v0.grid[a][b]),
                forall|a: int, b: int|
                    0 <= a < i && 0 <= b < cols && !is_mine(#[trigger] self@[a][b]) ==> self@[a][b].content == Content::Count(adj_mines(v0, a, b) as u8),
            decreases rows - i,
        {
            let mut j: usize = 0;
            while j < cols
                invariant
                    self.wf(),
                    self.rows == rows,
                    self.cols == cols,
                    i < rows,
                    j <= cols,
                    v0 == (GameView { rows: rows as int, cols: cols as int, grid: v0.grid, outcome: Outcome::InProgress }),
                    v0.grid.len() == rows,
                    forall|a: int, b: int|
                        0 <= a < rows && 0 <= b < cols ==> (#[trigger] self@[a][b]).status == v0.grid[a][b].status,
                    forall|a: int, b: int|
                        0 <= a < rows && 0 <= b < cols ==> is_mine(#[trigger] self@[a][b]) == is_mine(v0.grid[a][b]),
                    forall|a: int, b: int|
                        0 <= a < i && 0 <= b < cols && !is_mine(#[trigger] self@[a][b]) ==> self@[a][b].content == Content::Count(adj_mines(v0, a, b) as u8),
                    forall|b: int|
                        0 <= b < j && !is_mine(#[trigger] self@[i as int][b]) ==> self@[i as int][b].content == Content::Count(adj_mines(v0, i as int, b) as u8),
                decreases cols - j,
            {
                let mine_here = self.field[i][j].content == Content::Mine;
                if !mine_here {
                    let m = self.count_mine_neighbors(i, j);
                    proof {
                        lemma_adj_count_congruent(self.bview(), v0, i as int, j as int, mine_pred());
                    }
                    let sq = self.get_mut(i, j);
                    sq.content = Content::Count(m);
                }
                j = j + 1;
            }
            i = i + 1;
        }
        proof {
            assert forall|r: int, c: int| self.bview().in_bounds(r, c) implies (match (#[trigger] self.bview().sq(r, c)).content {
                Content::Mine => true,
                Content::Count(n) => n as int == adj_mines(self.bview(), r, c),
            }) by {
                lemma_adj_count_congruent(self.bview(), v0, r, c, mine_pred());
                crate::model::lemma_adj_count_at_most_8(v0, r, c, mine_pred());
            }
            crate::count::lemma_grid_count_congruent_pred(self@, v0.grid, mine_pred(), self.rows as int);
        }
    }

    /// Finds a square that is not a mine, scanning in row-major order.
    fn first_free(&self) -> (rc: (usize, usize))
        requires
            self.wf(),
            self.mine_total() < (self.rows as int) * (self.cols as int),
        ensures
            rc.0 < self.rows,
            rc.1 < self.cols,
            !is_mine(self@[rc.0 as int][rc.1 as int]),
    {
        let mut i: usize = 0;
        while i < self.rows
            invariant
                self.wf(),
                i <= self.rows,
                forall|a: int, b: int|
                    0 <= a < i && 0 <= b < self.cols ==> is_mine(#[trigger] self@[a][b]),
            decreases self.rows - i,
        {
            let mut j: usize = 0;
            while j < self.cols
                invariant
                    self.wf(),
                    i < self.rows,
                    j <= self.cols,
                    forall|a: int, b: int|
                        0 <= a < i && 0 <= b < self.cols ==> is_mine(#[trigger] self@[a][b]),
                    forall|b: int| 0 <= b < j ==> is_mine(#[trigger] self@[i as int][b]),
                decreases self.cols - j,
            {
                if !(self.field[i][j].content == Content::Mine) {
                    return (i, j);
                }
                j = j + 1;
            }
            i = i + 1;
        }
        proof {
            crate::count::lemma_grid_count_all(
                self@,
                mine_pred(),
                self.rows as int,
                self.cols as int,
            );
            assert(false);
        }
        (0, 0)
    }

    /// Places `mine_count` mines on a board that has none: each is put
    /// on a randomly drawn square, falling back to the first free
    /// square when the draw is already taken. Statuses are untouched.
    fn populate(&mut self, mine_count: usize)
        requires
            old(self).wf(),
            old(self).mine_total() == 0,
            (mine_count as int) < (old(self).rows as int) * (old(self).cols as int),
            (old(self).rows as int) * (old(self).cols as int) <= usize::MAX,
        ensures
            final(self).wf(),
            final(self).rows == old(self).rows,
            final(self).cols == old(self).cols,
            final(self).mine_total() == mine_count,
            forall|i: int, j: int|
                0 <= i < old(self).rows && 0 <= j < old(self).cols ==> (#[trigger] final(self)@[i][j]).status == old(self)@[i][j].status,
            forall|i: int, j: int|
                0 <= i < old(self).rows && 0 <= j < old(self).cols && !is_mine(#[trigger] final(self)@[i][j]) ==> final(self)@[i][j] == old(self)@[i][j],
    {
        let rows = self.rows;
        let cols = self.cols;
        let ghost g0 = self@;
        let total = rows * cols;
        let mut placed: usize = 0;
        while placed < mine_count
            invariant
                self.wf(),
                self.rows == rows,
                self.cols == cols,
                placed <= mine_count,
                (mine_count as int) < (rows as int) * (cols as int) <= usize::MAX,
                total == rows * cols,
                g0.len() == rows,
                self.mine_total() == placed,
                forall|i: int, j: int|
                    0 <= i < rows && 0 <= j < cols ==> (#[trigger] self@[i][j]).status == g0[i][j].status,
                forall|i: int, j: int|
                    0 <= i < rows && 0 <= j < cols && !is_mine(#[trigger] self@[i][j]) ==> self@[i][j] == g0[i][j],
            decreases mine_count - placed,
        {
            let idx = crate::rng::random_below(total);
            let r0 = idx / cols;
            let c0 = idx % cols;
            proof {
                assert(idx / cols < rows && idx % cols < cols) by (nonlinear_arith)
                    requires
                        idx < total,
                        total == rows * cols,
                        cols >= 1,
                ;
            }
            let picked_mine = self.field[r0][c0].content == Content::Mine;
            let rc = if picked_mine {
                self.first_free()
            } else {
                (r0, c0)
            };
            let (r, c) = rc;
            let ghost gprev = self@;
            let sq = self.get_mut(r, c);
            sq.content = Content::Mine;
            proof {
                let x = Square {
                    content: Content::Mine,
                    status: gprev[r as int][c as int].status,
                };
                assert(self@ =~~= gprev.update(r as int, gprev[r as int].update(c as int, x)));
                crate::count::lemma_grid_count_update(
                    gprev,
                    mine_pred(),
                    rows as int,
                    r as int,
                    c as int,
                    x,
                );
            }
            placed = placed + 1;
        }
    }

    /// Builds a fresh board: every square covered, `mine_count` mines
    /// placed at random, every count derived from the placement. Fails
    /// with a configuration error when the mine count does not fit the
    /// grid.
    pub fn generate(rows: usize, cols: usize, mine_count: usize) -> (r: Result<
        MineSweeper,
        SweepError,
    >)
        ensures
            r is Ok <==> valid_config(rows, cols, mine_count),
            r matches Ok(b) ==> ({
                &&& b.wf()
                &&& b.rows == rows
                &&& b.cols == cols
                &&& b.mine_total() == mine_count
                &&& counts_ok(b.bview())
                &&& forall|i: int, j: int|
                    0 <= i < rows && 0 <= j < cols ==> (#[trigger] b@[i][j]).status
                        == Status::Covered
            }),
            r is Err ==> r == Err::<MineSweeper, SweepError>(SweepError::Config),
    {
        let total = match rows.checked_mul(cols) {
            Some(t) => t,
            None => {
                return Err(SweepError::Config);
            },
        };
        if mine_count >= total {
            return Err(SweepError::Config);
        }
        proof {
            assert(rows >= 1 && cols >= 1) by (nonlinear_arith)
                requires
                    (mine_count as int) < (rows as int) * (cols as int),
            ;
        }
        let mut b = empty_field(rows, cols);
        b.populate(mine_count);
        b.calculate();
        Ok(b)
    }

    /// A canonical "Expert" board: 16 x 31 with 99 mines, freshly
    /// generated at random.
    pub fn new() -> (b: MineSweeper)
        ensures
            b.wf(),
            b.rows == ROWS,
            b.cols == COLS,
            b.mine_total() == MINES,
            counts_ok(b.bview()),
            forall|i: int, j: int|
                0 <= i < ROWS && 0 <= j < COLS ==> (#[trigger] b@[i][j]).status == Status::Covered,
    {
        Self::generate(ROWS, COLS, MINES).unwrap()
    }

    /// Builds a board with the given mine coordinates, every square
    /// covered and every count derived: the deterministic counterpart
    /// of `generate`. Fails with a configuration error when the list
    /// does not fit the grid, leaves it, or repeats a coordinate.
    pub fn from_mine_list(rows: usize, cols: usize, mines: &Vec<(usize, usize)>) -> (r: Result<
        MineSweeper,
        SweepError,
    >)
        ensures
            r is Ok <==> ((rows as int) * (cols as int) <= usize::MAX && mines@.len() < (rows as int)
                * (cols as int) && valid_mine_list(rows, cols, mines@)),
            r matches Ok(b) ==> ({
                &&& b.wf()
                &&& b.rows == rows
                &&& b.cols == cols
                &&& b.mine_total() == mines@.len()
                &&& counts_ok(b.bview())
                &&& forall|i: int, j: int|
                    0 <= i < rows && 0 <= j < cols ==> (#[trigger] b@[i][j]).status
                        == Status::Covered
                &&& forall|i: int, j: int|
                    0 <= i < rows && 0 <= j < cols ==> (is_mine(#[trigger] b@[i][j])
                        <==> mines@.contains((i as usize, j as usize)))
            }),
            r is Err ==> r == Err::<MineSweeper, SweepError>(SweepError::Config),
    {
        let total = match rows.checked_mul(cols) {
            Some(t) => t,
            None => {
                return Err(SweepError::Config);
            },
        };
        if mines.len() >= total {
            return Err(SweepError::Config);
        }
        let mut k: usize = 0;
        while k < mines.len()
            invariant
                k <= mines@.len(),
                forall|k2: int|
                    0 <= k2 < k ==> ((#[trigger] mines@[k2]).0 < rows && mines@[k2].1 < cols),
                forall|k1: int, k2: int| 0 <= k1 < k2 < k ==> mines@[k1] != mines@[k2],
            decreases mines@.len() - k,
        {
            let (mr, mc) = mines[k];
            if mr >= rows || mc >= cols {
                return Err(SweepError::Config);
            }
            let mut k2: usize = 0;
            while k2 < k
                invariant
                    k2 <= k,
                    k < mines@.len(),
                    (mr, mc) == mines@[k as int],
                    forall|k3: int| 0 <= k3 < k2 ==> mines@[k3] != mines@[k as int],
                decreases k - k2,
            {
                let (pr, pc) = mines[k2];
                if pr == mr && pc == mc {
                    proof {
                        assert(mines@[k2 as int] == mines@[k as int]);
                    }
                    return Err(SweepError::Config);
                }
                k2 = k2 + 1;
            }
            k = k + 1;
        }
        proof {
            assert(rows >= 1 && cols >= 1) by (nonlinear_arith)
                requires
                    mines@.len() < (rows as int) * (cols as int),
            ;
        }
        let mut b = empty_field(rows, cols);
        let mut k: usize = 0;
        while k < mines.len()
            invariant
                b.wf(),
                b.rows == rows,
                b.cols == cols,
                k <= mines@.len(),
                mines@.len() < (rows as int) * (cols as int),
                valid_mine_list(rows, cols, mines@),
                b.mine_total() == k,
                forall|i: int, j: int|
                    0 <= i < rows && 0 <= j < cols ==> (#[trigger] b@[i][j]).status
                        == Status::Covered,
                forall|i: int, j: int|
                    0 <= i < rows && 0 <= j < cols ==> (is_mine(#[trigger] b@[i][j])
                        <==> exists|k2: int|
                        0 <= k2 < k && mines@[k2] == (i as usize, j as usize)),
            decreases mines@.len() - k,
        {
            let (mr, mc) = mines[k];
            proof {
                if is_mine(b@[mr as int][mc as int]) {
                    let k2 = choose|k2: int|
                        0 <= k2 < k && mines@[k2] == (mr, mc);
                    assert(mines@[k2] == mines@[k as int]);
                    assert(false);
                }
            }
            let ghost gprev = b@;
            let sq = b.get_mut(mr, mc);
            sq.content = Content::Mine;
            proof {
                let x = Square {
                    content: Content::Mine,
                    status: gprev[mr as int][mc as int].status,
                };
                assert(b@ =~~= gprev.update(mr as int, gprev[mr as int].update(mc as int, x)));
                crate::count::lemma_grid_count_update(
                    gprev,
                    mine_pred(),
                    rows as int,
                    mr as int,
                    mc as int,
                    x,
                );
                assert forall|i: int, j: int| 0 <= i < rows && 0 <= j < cols implies (is_mine(
                    #[trigger] b@[i][j],
                ) <==> exists|k2: int|
                    0 <= k2 < k + 1 && mines@[k2] == (i as usize, j as usize)) by {
                    if i == mr as int && j == mc as int {
                        assert(mines@[k as int] == (i as usize, j as usize));
                    } else {
                        assert(b@[i][j] == gprev[i][j]);
                        if exists|k2: int|
                            0 <= k2 < k + 1 && mines@[k2] == (i as usize, j as usize) {
                            let k2 = choose|k2: int|
                                0 <= k2 < k + 1 && mines@[k2] == (i as usize, j as usize);
                            if k2 == k {
                                assert(mines@[k as int] == (mr, mc));
                                assert(false);
                            }
                            assert(0 <= k2 < k && mines@[k2] == (i as usize, j as usize));
                        }
                    }
                }
            }
            k = k + 1;
        }
        b.calculate();
        Ok(b)
    }
}

/// A board configuration is valid when the grid fits in memory and the
/// mine count is below the number of squares.
pub open spec fn valid_config(rows: usize, cols: usize, mine_count: usize) -> bool {
    &&& (rows as int) * (cols as int) <= usize::MAX
    &&& (mine_count as int) < (rows as int) * (cols as int)
}

/// A mine list is valid for a grid when every coordinate is in bounds
/// and none repeats.
pub open spec fn valid_mine_list(rows: usize, cols: usize, l: Seq<(usize, usize)>) -> bool {
    &&& forall|k: int| 0 <= k < l.len() ==> ((#[trigger] l[k]).0 < rows && l[k].1 < cols)
    &&& forall|k1: int, k2: int| 0 <= k1 < k2 < l.len() ==> l[k1] != l[k2]
}

/// A board of the given dimensions with every square fresh: covered,
/// holding a zero count.
fn empty_field(rows: usize, cols: usize) -> (b: MineSweeper)
    requires
        1 <= rows,
        1 <= cols,
    ensures
        b.wf(),
        b.rows == rows,
        b.cols == cols,
        forall|i: int, j: int|
            0 <= i < rows && 0 <= j < cols ==> #[trigger] b@[i][j] == (Square {
                content: Content::Count(0u8),
                status: Status::Covered,
            }),
        b.mine_total() == 0,
{
    let mut field: Vec<Vec<Square>> = Vec::new();
    let mut i: usize = 0;
    while i < rows
        invariant
            field@.len() == i,
            i <= rows,
            forall|a: int| 0 <= a < i ==> (#[trigger] field@[a])@.len() == cols,
            forall|a: int, b2: int|
                0 <= a < i && 0 <= b2 < cols ==> #[trigger] field@[a]@[b2] == (Square {
                    content: Content::Count(0u8),
                    status: Status::Covered,
                }),
        decreases rows - i,
    {
        let mut rowv: Vec<Square> = Vec::new();
        let mut j: usize = 0;
        while j < cols
            invariant
                rowv@.len() == j,
                j <= cols,
                forall|b2: int|
                    0 <= b2 < j ==> #[trigger] rowv@[b2] == (Square {
                        content: Content::Count(0u8),
                        status: Status::Covered,
                    }),
            decreases cols - j,
        {
            rowv.push(Square::new());
            j = j + 1;
        }
        field.push(rowv);
        i = i + 1;
    }
    let b = MineSweeper { field, rows, cols };
    proof {
        crate::count::lemma_grid_count_none(b@, mine_pred(), rows as int);
    }
    b
}

} // verus!
