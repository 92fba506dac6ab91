//! The mathematical model of the game: an abstract view of a board with
//! its outcome, the neighbor enumeration clipped to the grid, flood-fill
//! reachability, and the transition functions that the executable
//! operations are proved to implement exactly.

use vstd::prelude::*;

verus! {

use crate::cell::{Content, Outcome, Square, Status, cycled, is_zero, revealable};
use crate::count::{flagged_pred, list_count, mine_pred, sq_ind};

/// The abstract state of a game: dimensions, the grid of squares, and
/// the outcome.
#[verifier::ext_equal]
pub struct GameView {
    pub rows: int,
    pub cols: int,
    pub grid: Seq<Seq<Square>>,
    pub outcome: Outcome,
}

impl GameView {
    /// The grid has exactly `rows` rows of `cols` squares each, and both
    /// dimensions are positive.
    pub open spec fn wf(self) -> bool {
        &&& self.grid.len() == self.rows
        &&& forall|i: int| 0 <= i < self.rows ==> (#[trigger] self.grid[i]).len() == self.cols
        &&& 1 <= self.rows <= usize::MAX
        &&& 1 <= self.cols <= usize::MAX
    }

    /// The coordinate lies on the board.
    pub open spec fn in_bounds(self, r: int, c: int) -> bool {
        0 <= r < self.rows && 0 <= c < self.cols
    }

    /// The square at a coordinate.
    pub open spec fn sq(self, r: int, c: int) -> Square {
        self.grid[r][c]
    }
}

/// Two distinct coordinates within a king's move of each other.
pub open spec fn adjacent(r1: int, c1: int, r2: int, c2: int) -> bool {
    &&& !(r1 == r2 && c1 == c2)
    &&& -1 <= r1 - r2 <= 1
    &&& -1 <= c1 - c2 <= 1
}

/// A singleton holding the candidate coordinate if it lies on a
/// `rows` x `cols` grid, else empty.
pub open spec fn cand(rows: int, cols: int, i: int, j: int) -> Seq<(usize, usize)> {
    if 0 <= i < rows && 0 <= j < cols {
        seq![(i as usize, j as usize)]
    } else {
        Seq::empty()
    }
}

/// The in-bounds neighbors of a coordinate, in row-major order: the
/// eight candidate offsets around it, clipped to the grid.
pub open spec fn nbr_seq(rows: int, cols: int, r: int, c: int) -> Seq<(usize, usize)> {
    cand(rows, cols, r - 1, c - 1) + cand(rows, cols, r - 1, c) + cand(rows, cols, r - 1, c + 1)
        + cand(rows, cols, r, c - 1) + cand(rows, cols, r, c + 1) + cand(rows, cols, r + 1, c - 1)
        + cand(rows, cols, r + 1, c) + cand(rows, cols, r + 1, c + 1)
}

/// 1 if the coordinate is on the board and its square satisfies `f`,
/// else 0.
pub open spec fn ind_at(v: GameView, i: int, j: int, f: spec_fn(Square) -> bool) -> int {
    if v.in_bounds(i, j) && f(v.sq(i, j)) {
        1
    } else {
        0
    }
}

/// The number of in-bounds neighbors of a coordinate whose square
/// satisfies `f`: a brute-force scan of the eight candidate offsets.
pub open spec fn adj_count(v: GameView, r: int, c: int, f: spec_fn(Square) -> bool) -> int {
    ind_at(v, r - 1, c - 1, f) + ind_at(v, r - 1, c, f) + ind_at(v, r - 1, c + 1, f) + ind_at(
        v,
        r,
        c - 1,
        f,
    ) + ind_at(v, r, c + 1, f) + ind_at(v, r + 1, c - 1, f) + ind_at(v, r + 1, c, f) + ind_at(
        v,
        r + 1,
        c + 1,
        f,
    )
}

/// The number of mines among a coordinate's neighbors.
pub open spec fn adj_mines(v: GameView, r: int, c: int) -> int {
    adj_count(v, r, c, mine_pred())
}

/// The number of flagged squares among a coordinate's neighbors.
pub open spec fn adj_flags(v: GameView, r: int, c: int) -> int {
    adj_count(v, r, c, flagged_pred())
}

/// The board invariant established at generation: every non-mine square
/// holds the exact number of mines among its neighbors.
pub open spec fn counts_ok(v: GameView) -> bool {
    forall|r: int, c: int|
        v.in_bounds(r, c) ==> match (#[trigger] v.sq(r, c)).content {
            Content::Mine => true,
            Content::Count(n) => n as int == adj_mines(v, r, c),
        }
}

/// A flood-fill path: a non-empty chain of in-bounds, revealable
/// squares, each adjacent to the next, all but the last holding a zero
/// count.
pub open spec fn fill_path(v: GameView, p: Seq<(int, int)>) -> bool {
    &&& p.len() >= 1
    &&& forall|k: int| 0 <= k < p.len() ==> v.in_bounds((#[trigger] p[k]).0, p[k].1)
    &&& forall|k: int| 0 <= k < p.len() ==> revealable(v.sq((#[trigger] p[k]).0, p[k].1))
    &&& forall|k: int| 0 <= k < p.len() - 1 ==> is_zero(v.sq((#[trigger] p[k]).0, p[k].1))
    &&& forall|k: int|
        0 <= k < p.len() - 1 ==> adjacent((#[trigger] p[k]).0, p[k].1, p[k + 1].0, p[k + 1].1)
}

/// The flood fill started at a revealable seed uncovers exactly the
/// squares a fill path reaches from it: the connected zero-count region
/// through the seed together with its revealable border.
pub open spec fn reaches(v: GameView, sr: int, sc: int, r: int, c: int) -> bool {
    exists|p: Seq<(int, int)>|
        #[trigger] fill_path(v, p) && p[0] == (sr, sc) && p[p.len() - 1] == (r, c)
}

/// The square with its status set to uncovered.
pub open spec fn uncover(sq: Square) -> Square {
    Square { status: Status::Uncovered, ..sq }
}

/// The grid after a flood fill from the seed: every reached square is
/// uncovered, every other square is untouched.
pub open spec fn reveal_grid(v: GameView, sr: int, sc: int) -> Seq<Seq<Square>> {
    Seq::new(
        v.grid.len(),
        |i: int|
            Seq::new(
                v.grid[i].len(),
                |j: int|
                    if reaches(v, sr, sc, i, j) {
                        uncover(v.grid[i][j])
                    } else {
                        v.grid[i][j]
                    },
            ),
    )
}

/// Every non-mine square of the grid is uncovered: the winning
/// condition, derived from the grid rather than tracked.
pub open spec fn all_safe_uncovered(g: Seq<Seq<Square>>) -> bool {
    forall|i: int, j: int|
        0 <= i < g.len() && 0 <= j < g[i].len() ==> ((#[trigger] g[i][j]).content != Content::Mine
            ==> g[i][j].status == Status::Uncovered)
}

/// A reveal acts only on an in-progress game, at an in-bounds
/// coordinate whose square is neither flagged nor already uncovered.
pub open spec fn can_reveal(v: GameView, r: int, c: int) -> bool {
    &&& v.outcome == Outcome::InProgress
    &&& v.in_bounds(r, c)
    &&& revealable(v.sq(r, c))
}

/// The state after a reveal at (r, c). When the guard fails the state
/// is unchanged; otherwise the reached region is uncovered and the
/// outcome becomes Lost on a mine, Won when no covered non-mine square
/// is left, and stays InProgress otherwise.
pub open spec fn reveal_tr(v: GameView, r: int, c: int) -> GameView {
    if !can_reveal(v, r, c) {
        v
    } else {
        let g2 = reveal_grid(v, r, c);
        GameView {
            grid: g2,
            outcome: if v.sq(r, c).content == Content::Mine {
                Outcome::Lost
            } else if all_safe_uncovered(g2) {
                Outcome::Won
            } else {
                Outcome::InProgress
            },
            ..v
        }
    }
}

/// A mark acts only on an in-progress game at an in-bounds coordinate.
pub open spec fn can_mark(v: GameView, r: int, c: int) -> bool {
    v.outcome == Outcome::InProgress && v.in_bounds(r, c)
}

/// The state after a marking toggle at (r, c): the square's status
/// advances along the Covered -> Flagged -> Questioned -> Covered
/// cycle; an uncovered square, or a finished game, is unaffected.
pub open spec fn mark_tr(v: GameView, r: int, c: int) -> GameView {
    if !can_mark(v, r, c) {
        v
    } else {
        GameView {
            grid: v.grid.update(
                r,
                v.grid[r].update(c, Square { status: cycled(v.sq(r, c).status), ..v.sq(r, c) }),
            ),
            ..v
        }
    }
}

/// The states a sequence of reveals walks through, one coordinate at a
/// time, in list order.
pub open spec fn chord_fold(v: GameView, l: Seq<(usize, usize)>) -> GameView
    decreases l.len(),
{
    if l.len() == 0 {
        v
    } else {
        chord_fold(reveal_tr(v, l[0].0 as int, l[0].1 as int), l.drop_first())
    }
}

/// A chord acts only on an in-progress game, at an in-bounds uncovered
/// square holding a positive count that equals the number of flagged
/// neighbors.
pub open spec fn can_chord(v: GameView, r: int, c: int) -> bool {
    &&& v.outcome == Outcome::InProgress
    &&& v.in_bounds(r, c)
    &&& v.sq(r, c).status == Status::Uncovered
    &&& v.sq(r, c).content matches Content::Count(n) && n > 0 && adj_flags(v, r, c) == n
}

/// The state after a chorded reveal at (r, c): when the guard holds, a
/// reveal of every neighbor in row-major order (a reveal of a flagged
/// neighbor is itself a no-op); otherwise the state is unchanged.
pub open spec fn chord_tr(v: GameView, r: int, c: int) -> GameView {
    if !can_chord(v, r, c) {
        v
    } else {
        chord_fold(v, nbr_seq(v.rows, v.cols, r, c))
    }
}

/// The exact coordinate at each index of the neighbor list, by the
/// offsets of the eight clipped candidate pieces.
proof fn lemma_nbr_elem(rows: int, cols: int, r: int, c: int, k: int)
    requires
        0 <= r < rows <= usize::MAX,
        0 <= c < cols <= usize::MAX,
        0 <= k < nbr_seq(rows, cols, r, c).len(),
    ensures
        ({
            let n = nbr_seq(rows, cols, r, c);
            let o1 = cand(rows, cols, r - 1, c - 1).len() as int;
            let o2 = o1 + cand(rows, cols, r - 1, c).len();
            let o3 = o2 + cand(rows, cols, r - 1, c + 1).len();
            let o4 = o3 + cand(rows, cols, r, c - 1).len();
            let o5 = o4 + cand(rows, cols, r, c + 1).len();
            let o6 = o5 + cand(rows, cols, r + 1, c - 1).len();
            let o7 = o6 + cand(rows, cols, r + 1, c).len();
            &&& (k < o1 ==> n[k] == ((r - 1) as usize, (c - 1) as usize))
            &&& (o1 <= k < o2 ==> n[k] == ((r - 1) as usize, c as usize))
            &&& (o2 <= k < o3 ==> n[k] == ((r - 1) as usize, (c + 1) as usize))
            &&& (o3 <= k < o4 ==> n[k] == (r as usize, (c - 1) as usize))
            &&& (o4 <= k < o5 ==> n[k] == (r as usize, (c + 1) as usize))
            &&& (o5 <= k < o6 ==> n[k] == ((r + 1) as usize, (c - 1) as usize))
            &&& (o6 <= k < o7 ==> n[k] == ((r + 1) as usize, c as usize))
            &&& (o7 <= k ==> n[k] == ((r + 1) as usize, (c + 1) as usize))
        }),
{
    let n = nbr_seq(rows, cols, r, c);
    let s1 = cand(rows, cols, r - 1, c - 1);
    let s2 = cand(rows, cols, r - 1, c);
    let s3 = cand(rows, cols, r - 1, c + 1);
    let s4 = cand(rows, cols, r, c - 1);
    let s5 = cand(rows, cols, r, c + 1);
    let s6 = cand(rows, cols, r + 1, c - 1);
    let s7 = cand(rows, cols, r + 1, c);
    let s8 = cand(rows, cols, r + 1, c + 1);
    let t2 = s1 + s2;
    let t3 = t2 + s3;
    let t4 = t3 + s4;
    let t5 = t4 + s5;
    let t6 = t5 + s6;
    let t7 = t6 + s7;
    assert(n == t7 + s8);
    if k < t7.len() {
        assert(n[k] == t7[k]);
        if k < t6.len() {
            assert(t7[k] == t6[k]);
            if k < t5.len() {
                assert(t6[k] == t5[k]);
                if k < t4.len() {
                    assert(t5[k] == t4[k]);
                    if k < t3.len() {
                        assert(t4[k] == t3[k]);
                        if k < t2.len() {
                            assert(t3[k] == t2[k]);
                            if k < s1.len() {
                                assert(t2[k] == s1[0]);
                            } else {
                                assert(t2[k] == s2[k - s1.len()]);
                            }
                        } else {
                            assert(t3[k] == s3[k - t2.len()]);
                        }
                    } else {
                        assert(t4[k] == s4[k - t3.len()]);
                    }
                } else {
                    assert(t5[k] == s5[k - t4.len()]);
                }
            } else {
                assert(t6[k] == s6[k - t5.len()]);
            }
        } else {
            assert(t7[k] == s7[k - t6.len()]);
        }
    } else {
        assert(n[k] == s8[k - t7.len()]);
    }
}

/// Every entry of the neighbor list is an in-bounds coordinate adjacent
/// to the center; every in-bounds coordinate adjacent to the center is
/// in the list; no coordinate appears twice.
pub proof fn lemma_nbr_seq_props(rows: int, cols: int, r: int, c: int)
    requires
        0 <= r < rows <= usize::MAX,
        0 <= c < cols <= usize::MAX,
    ensures
        nbr_seq(rows, cols, r, c).len() <= 8,
        forall|k: int|
            0 <= k < nbr_seq(rows, cols, r, c).len() ==> {
                let p = #[trigger] nbr_seq(rows, cols, r, c)[k];
                0 <= p.0 < rows && 0 <= p.1 < cols && adjacent(p.0 as int, p.1 as int, r, c)
            },
        forall|i: int, j: int|
            0 <= i < rows && 0 <= j < cols && adjacent(i, j, r, c) ==> #[trigger] nbr_seq(
                rows,
                cols,
                r,
                c,
            ).contains((i as usize, j as usize)),
        forall|k1: int, k2: int|
            0 <= k1 < k2 < nbr_seq(rows, cols, r, c).len() ==> #[trigger] nbr_seq(
                rows,
                cols,
                r,
                c,
            )[k1] != #[trigger] nbr_seq(rows, cols, r, c)[k2],
{
    let n = nbr_seq(rows, cols, r, c);
    let s1 = cand(rows, cols, r - 1, c - 1);
    let s2 = cand(rows, cols, r - 1, c);
    let s3 = cand(rows, cols, r - 1, c + 1);
    let s4 = cand(rows, cols, r, c - 1);
    let s5 = cand(rows, cols, r, c + 1);
    let s6 = cand(rows, cols, r + 1, c - 1);
    let s7 = cand(rows, cols, r + 1, c);
    let s8 = cand(rows, cols, r + 1, c + 1);
    assert forall|k: int| 0 <= k < n.len() implies {
        let p = #[trigger] n[k];
        0 <= p.0 < rows && 0 <= p.1 < cols && adjacent(p.0 as int, p.1 as int, r, c)
    } by {
        lemma_nbr_elem(rows, cols, r, c, k);
    }
    assert forall|k1: int, k2: int| 0 <= k1 < k2 < n.len() implies #[trigger] n[k1]
        != #[trigger] n[k2] by {
        lemma_nbr_elem(rows, cols, r, c, k1);
        lemma_nbr_elem(rows, cols, r, c, k2);
    }
    assert forall|i: int, j: int|
        0 <= i < rows && 0 <= j < cols && adjacent(i, j, r, c) implies #[trigger] n.contains(
        (i as usize, j as usize),
    ) by {
        let x = (i as usize, j as usize);
        if i == r - 1 && j == c - 1 {
            assert(n[0] == x);
        } else if i == r - 1 && j == c {
            assert(n[s1.len() as int] == x);
        } else if i == r - 1 && j == c + 1 {
            assert(n[(s1.len() + s2.len()) as int] == x);
        } else if i == r && j == c - 1 {
            assert(n[(s1.len() + s2.len() + s3.len()) as int] == x);
        } else if i == r && j == c + 1 {
            assert(n[(s1.len() + s2.len() + s3.len() + s4.len()) as int] == x);
        } else if i == r + 1 && j == c - 1 {
            assert(n[(s1.len() + s2.len() + s3.len() + s4.len() + s5.len()) as int] == x);
        } else if i == r + 1 && j == c {
            assert(n[(s1.len() + s2.len() + s3.len() + s4.len() + s5.len() + s6.len()) as int] == x);
        } else {
            assert(i == r + 1 && j == c + 1);
            assert(n[(s1.len() + s2.len() + s3.len() + s4.len() + s5.len() + s6.len()
                + s7.len()) as int] == x);
        }
    }
}

/// Bounds on the length of the neighbor list: at most 3 for a corner,
/// 5 for an edge square, 8 always; exactly those numbers on a board
/// with at least two rows and two columns.
pub proof fn lemma_nbr_seq_len(rows: int, cols: int, r: int, c: int)
    requires
        0 <= r < rows,
        0 <= c < cols,
    ensures
        nbr_seq(rows, cols, r, c).len() <= 8,
        ((r == 0 || r == rows - 1) && (c == 0 || c == cols - 1)) ==> nbr_seq(
            rows,
            cols,
            r,
            c,
        ).len() <= 3,
        ((r == 0 || r == rows - 1) != (c == 0 || c == cols - 1)) ==> nbr_seq(
            rows,
            cols,
            r,
            c,
        ).len() <= 5,
        (rows >= 2 && cols >= 2 && (r == 0 || r == rows - 1) && (c == 0 || c == cols - 1))
            ==> nbr_seq(rows, cols, r, c).len() == 3,
        (rows >= 2 && cols >= 2 && ((r == 0 || r == rows - 1) != (c == 0 || c == cols - 1)))
            ==> nbr_seq(rows, cols, r, c).len() == 5,
        (0 < r < rows - 1 && 0 < c < cols - 1) ==> nbr_seq(rows, cols, r, c).len() == 8,
{
}

/// The count of squares satisfying `f` over the neighbor list equals
/// the brute-force scan of the eight candidate offsets.
pub proof fn lemma_list_count_nbrs(v: GameView, r: int, c: int, f: spec_fn(Square) -> bool)
    requires
        v.wf(),
        v.in_bounds(r, c),
    ensures
        list_count(
            v.grid,
            nbr_seq(v.rows, v.cols, r, c),
            f,
            nbr_seq(v.rows, v.cols, r, c).len() as int,
        ) == adj_count(v, r, c, f),
{
    let rows = v.rows;
    let cols = v.cols;
    let s1 = cand(rows, cols, r - 1, c - 1);
    let s2 = cand(rows, cols, r - 1, c);
    let s3 = cand(rows, cols, r - 1, c + 1);
    let s4 = cand(rows, cols, r, c - 1);
    let s5 = cand(rows, cols, r, c + 1);
    let s6 = cand(rows, cols, r + 1, c - 1);
    let s7 = cand(rows, cols, r + 1, c);
    let s8 = cand(rows, cols, r + 1, c + 1);
    crate::count::lemma_list_count_concat(v.grid, s1, s2, f);
    crate::count::lemma_list_count_concat(v.grid, s1 + s2, s3, f);
    crate::count::lemma_list_count_concat(v.grid, s1 + s2 + s3, s4, f);
    crate::count::lemma_list_count_concat(v.grid, s1 + s2 + s3 + s4, s5, f);
    crate::count::lemma_list_count_concat(v.grid, s1 + s2 + s3 + s4 + s5, s6, f);
    crate::count::lemma_list_count_concat(v.grid, s1 + s2 + s3 + s4 + s5 + s6, s7, f);
    crate::count::lemma_list_count_concat(v.grid, s1 + s2 + s3 + s4 + s5 + s6 + s7, s8, f);
    lemma_cand_count(v, r - 1, c - 1, f);
    lemma_cand_count(v, r - 1, c, f);
    lemma_cand_count(v, r - 1, c + 1, f);
    lemma_cand_count(v, r, c - 1, f);
    lemma_cand_count(v, r, c + 1, f);
    lemma_cand_count(v, r + 1, c - 1, f);
    lemma_cand_count(v, r + 1, c, f);
    lemma_cand_count(v, r + 1, c + 1, f);
}

/// The count over a clipped candidate singleton is its indicator.
proof fn lemma_cand_count(v: GameView, i: int, j: int, f: spec_fn(Square) -> bool)
    requires
        v.wf(),
    ensures
        list_count(
            v.grid,
            cand(v.rows, v.cols, i, j),
            f,
            cand(v.rows, v.cols, i, j).len() as int,
        ) == ind_at(v, i, j, f),
{
    let s = cand(v.rows, v.cols, i, j);
    if 0 <= i < v.rows && 0 <= j < v.cols {
        assert(s[0] == (i as usize, j as usize));
        assert((i as usize) as int == i && (j as usize) as int == j);
        assert(list_count(v.grid, s, f, 1) == list_count(v.grid, s, f, 0) + sq_ind(
            f,
            v.grid[i][j],
        ));
    }
}

/// A neighbor count depends only on the dimensions and on what `f`
/// says of each square.
pub proof fn lemma_adj_count_congruent(
    v1: GameView,
    v2: GameView,
    r: int,
    c: int,
    f: spec_fn(Square) -> bool,
)
    requires
        v1.rows == v2.rows,
        v1.cols == v2.cols,
        forall|i: int, j: int|
            v1.in_bounds(i, j) ==> f(#[trigger] v1.sq(i, j)) == f(#[trigger] v2.sq(i, j)),
    ensures
        adj_count(v1, r, c, f) == adj_count(v2, r, c, f),
{
}

/// A neighbor count never exceeds 8: there are only eight candidate
/// offsets.
pub proof fn lemma_adj_count_at_most_8(v: GameView, r: int, c: int, f: spec_fn(Square) -> bool)
    ensures
        0 <= adj_count(v, r, c, f) <= 8,
{
}

/// A revealable square reaches itself.
pub proof fn lemma_reaches_self(v: GameView, r: int, c: int)
    requires
        v.in_bounds(r, c),
        revealable(v.sq(r, c)),
    ensures
        reaches(v, r, c, r, c),
{
    let p: Seq<(int, int)> = seq![(r, c)];
    assert(fill_path(v, p));
    assert(p[0] == (r, c) && p[p.len() - 1] == (r, c));
}

/// Reachability extends from a reached zero square to each of its
/// revealable in-bounds neighbors.
pub proof fn lemma_reaches_step(v: GameView, sr: int, sc: int, r: int, c: int, i: int, j: int)
    requires
        reaches(v, sr, sc, r, c),
        is_zero(v.sq(r, c)),
        v.in_bounds(i, j),
        revealable(v.sq(i, j)),
        adjacent(r, c, i, j),
    ensures
        reaches(v, sr, sc, i, j),
{
    let p = choose|p: Seq<(int, int)>|
        #[trigger] fill_path(v, p) && p[0] == (sr, sc) && p[p.len() - 1] == (r, c);
    let q = p.push((i, j));
    assert forall|k: int| 0 <= k < q.len() - 1 implies adjacent(
        (#[trigger] q[k]).0,
        q[k].1,
        q[k + 1].0,
        q[k + 1].1,
    ) by {
        if k < p.len() - 1 {
            assert(q[k] == p[k] && q[k + 1] == p[k + 1]);
        } else {
            assert(q[k] == (r, c) && q[k + 1] == (i, j));
        }
    }
    assert(fill_path(v, q));
    assert(q[0] == (sr, sc) && q[q.len() - 1] == (i, j));
}

/// A reached square is in bounds and revealable, and so is the seed.
pub proof fn lemma_reaches_props(v: GameView, sr: int, sc: int, r: int, c: int)
    requires
        reaches(v, sr, sc, r, c),
    ensures
        v.in_bounds(r, c),
        revealable(v.sq(r, c)),
        v.in_bounds(sr, sc),
        revealable(v.sq(sr, sc)),
{
    let p = choose|p: Seq<(int, int)>|
        #[trigger] fill_path(v, p) && p[0] == (sr, sc) && p[p.len() - 1] == (r, c);
    assert(v.in_bounds(p[0].0, p[0].1));
    assert(v.in_bounds(p[p.len() - 1].0, p[p.len() - 1].1));
}

/// From a seed that does not hold a zero count, nothing is reached but
/// the seed itself: a reveal of a numbered square or a mine stops there.
pub proof fn lemma_reaches_nonzero_seed(v: GameView, sr: int, sc: int, r: int, c: int)
    requires
        reaches(v, sr, sc, r, c),
        !is_zero(v.sq(sr, sc)),
    ensures
        r == sr && c == sc,
{
    let p = choose|p: Seq<(int, int)>|
        #[trigger] fill_path(v, p) && p[0] == (sr, sc) && p[p.len() - 1] == (r, c);
    if p.len() >= 2 {
        assert(is_zero(v.sq(p[0].0, p[0].1)));
    }
}

/// A non-empty prefix of a fill path is a fill path.
pub proof fn lemma_fill_path_take(v: GameView, p: Seq<(int, int)>, m: int)
    requires
        fill_path(v, p),
        1 <= m <= p.len(),
    ensures
        fill_path(v, p.take(m)),
{
    let q = p.take(m);
    assert(forall|k: int| 0 <= k < q.len() ==> #[trigger] q[k] == p[k]);
}

/// A reached square other than the seed borders the reached zero-count
/// region: it has a reached, zero-count neighbor. Nothing beyond that
/// border is reached.
pub proof fn lemma_reaches_boundary(v: GameView, sr: int, sc: int, r: int, c: int)
    requires
        reaches(v, sr, sc, r, c),
        !(r == sr && c == sc),
    ensures
        exists|i: int, j: int|
            #![all_triggers]
            v.in_bounds(i, j) && reaches(v, sr, sc, i, j) && is_zero(v.sq(i, j)) && adjacent(
                i,
                j,
                r,
                c,
            ),
{
    let p = choose|p: Seq<(int, int)>|
        #[trigger] fill_path(v, p) && p[0] == (sr, sc) && p[p.len() - 1] == (r, c);
    assert(p.len() >= 2);
    let m = p.len() - 1;
    let q = p.take(m);
    lemma_fill_path_take(v, p, m);
    assert(q[0] == p[0] && q[q.len() - 1] == p[m - 1]);
    let bi = p[m - 1].0;
    let bj = p[m - 1].1;
    assert(reaches(v, sr, sc, bi, bj));
    assert(is_zero(v.sq(bi, bj)));
    assert(adjacent(bi, bj, r, c));
}

/// A reveal preserves the shape of the game and its board invariant,
/// and in particular the mine placement.
pub proof fn lemma_reveal_tr_wf(v: GameView, r: int, c: int)
    requires
        v.wf(),
        counts_ok(v),
    ensures
        reveal_tr(v, r, c).wf(),
        reveal_tr(v, r, c).rows == v.rows,
        reveal_tr(v, r, c).cols == v.cols,
        counts_ok(reveal_tr(v, r, c)),
        forall|i: int, j: int|
            v.in_bounds(i, j) ==> mine_pred()(#[trigger] reveal_tr(v, r, c).sq(i, j)) == mine_pred()(
                #[trigger] v.sq(i, j),
            ),
{
    lemma_reveal_tr_frame(v, r, c);
    lemma_counts_ok_same_contents(v, reveal_tr(v, r, c));
}

/// One step of the reveal fold: folding a prefix one longer applies one
/// more reveal.
pub proof fn lemma_chord_fold_step(v: GameView, l: Seq<(usize, usize)>, k: int)
    requires
        0 <= k < l.len(),
    ensures
        chord_fold(v, l.take(k + 1)) == reveal_tr(
            chord_fold(v, l.take(k)),
            l[k].0 as int,
            l[k].1 as int,
        ),
    decreases k,
{
    let a = l.take(k + 1);
    assert(a[0] == l[0]);
    if k == 0 {
        assert(l.take(0) =~= Seq::empty());
        assert(a.drop_first() =~= Seq::<(usize, usize)>::empty());
        let v1 = reveal_tr(v, a[0].0 as int, a[0].1 as int);
        assert(chord_fold(v, a) == chord_fold(v1, a.drop_first()));
        assert(chord_fold(v1, a.drop_first()) == v1);
        assert(chord_fold(v, l.take(0)) == v);
    } else {
        let v1 = reveal_tr(v, l[0].0 as int, l[0].1 as int);
        let ld = l.drop_first();
        assert(a.drop_first() =~= ld.take(k));
        assert(l.take(k).drop_first() =~= ld.take(k - 1));
        assert(l.take(k)[0] == l[0]);
        lemma_chord_fold_step(v1, ld, k - 1);
        assert(ld[k - 1] == l[k]);
    }
}

/// The board invariant does not depend on the outcome.
pub proof fn lemma_counts_ok_outcome(v1: GameView, v2: GameView)
    requires
        v1.rows == v2.rows,
        v1.cols == v2.cols,
        v1.grid == v2.grid,
        counts_ok(v1),
    ensures
        counts_ok(v2),
{
    assert forall|r: int, c: int| v2.in_bounds(r, c) implies (match (#[trigger] v2.sq(
        r,
        c,
    )).content {
        Content::Mine => true,
        Content::Count(n) => n as int == adj_mines(v2, r, c),
    }) by {
        assert(v1.sq(r, c) == v2.sq(r, c));
        lemma_adj_count_congruent(v1, v2, r, c, mine_pred());
    }
}

/// The board invariant depends only on the contents of the squares,
/// not on their statuses.
pub proof fn lemma_counts_ok_same_contents(v1: GameView, v2: GameView)
    requires
        v1.rows == v2.rows,
        v1.cols == v2.cols,
        v2.grid.len() == v1.grid.len(),
        forall|i: int| 0 <= i < v1.grid.len() ==> (#[trigger] v2.grid[i]).len() == v1.grid[i].len(),
        forall|i: int, j: int|
            v1.in_bounds(i, j) ==> (#[trigger] v2.sq(i, j)).content == v1.sq(i, j).content,
        counts_ok(v1),
    ensures
        counts_ok(v2),
{
    assert forall|r: int, c: int| v2.in_bounds(r, c) implies (match (#[trigger] v2.sq(
        r,
        c,
    )).content {
        Content::Mine => true,
        Content::Count(n) => n as int == adj_mines(v2, r, c),
    }) by {
        assert(v2.sq(r, c).content == v1.sq(r, c).content);
        lemma_adj_count_congruent(v1, v2, r, c, mine_pred());
    }
}

/// The induction behind flood-fill completeness: in a grid where the
/// seed is uncovered and every revealable neighbor of a newly
/// uncovered zero square is uncovered, the end of every fill path is
/// uncovered.
proof fn lemma_fill_complete_path(
    v0: GameView,
    g: Seq<Seq<Square>>,
    sr: int,
    sc: int,
    p: Seq<(int, int)>,
)
    requires
        fill_path(v0, p),
        p[0] == (sr, sc),
        g.len() == v0.grid.len(),
        forall|i: int| 0 <= i < g.len() ==> (#[trigger] g[i]).len() == v0.grid[i].len(),
        g[sr][sc].status == Status::Uncovered,
        forall|i: int, j: int, i2: int, j2: int|
            v0.in_bounds(i, j) && v0.in_bounds(i2, j2) && adjacent(i2, j2, i, j) && (#[trigger] g[i][j]).status
                == Status::Uncovered && v0.sq(i, j).status != Status::Uncovered && is_zero(
                v0.sq(i, j),
            ) ==> ((#[trigger] g[i2][j2]).status == Status::Uncovered || v0.sq(i2, j2).status
                == Status::Flagged || v0.sq(i2, j2).status == Status::Uncovered),
    ensures
        g[p[p.len() - 1].0][p[p.len() - 1].1].status == Status::Uncovered,
    decreases p.len(),
{
    if p.len() > 1 {
        let m = p.len() - 1;
        lemma_fill_path_take(v0, p, m);
        assert(p.take(m)[0] == p[0]);
        assert(p.take(m)[m - 1] == p[m - 1]);
        lemma_fill_complete_path(v0, g, sr, sc, p.take(m));
        let i = p[m - 1].0;
        let j = p[m - 1].1;
        let i2 = p[m].0;
        let j2 = p[m].1;
        assert(g[i][j].status == Status::Uncovered);
        assert(revealable(v0.sq(i, j)) && is_zero(v0.sq(i, j)));
        assert(adjacent(i, j, i2, j2));
        assert(adjacent(i2, j2, i, j));
        assert(revealable(v0.sq(i2, j2)));
        assert(g[i2][j2].status == Status::Uncovered);
    }
}

/// Flood-fill completeness: under the same frontier condition, every
/// reached square is uncovered.
pub proof fn lemma_fill_complete(v0: GameView, g: Seq<Seq<Square>>, sr: int, sc: int)
    requires
        g.len() == v0.grid.len(),
        forall|i: int| 0 <= i < g.len() ==> (#[trigger] g[i]).len() == v0.grid[i].len(),
        g[sr][sc].status == Status::Uncovered,
        forall|i: int, j: int, i2: int, j2: int|
            v0.in_bounds(i, j) && v0.in_bounds(i2, j2) && adjacent(i2, j2, i, j) && (#[trigger] g[i][j]).status
                == Status::Uncovered && v0.sq(i, j).status != Status::Uncovered && is_zero(
                v0.sq(i, j),
            ) ==> ((#[trigger] g[i2][j2]).status == Status::Uncovered || v0.sq(i2, j2).status
                == Status::Flagged || v0.sq(i2, j2).status == Status::Uncovered),
    ensures
        forall|r: int, c: int|
            reaches(v0, sr, sc, r, c) ==> (#[trigger] g[r][c]).status == Status::Uncovered,
{
    assert forall|r: int, c: int| reaches(v0, sr, sc, r, c) implies (#[trigger] g[r][c]).status
        == Status::Uncovered by {
        let p = choose|p: Seq<(int, int)>|
            #[trigger] fill_path(v0, p) && p[0] == (sr, sc) && p[p.len() - 1] == (r, c);
        lemma_fill_complete_path(v0, g, sr, sc, p);
    }
}

/// The flood fill's exit condition pins the grid down: a grid that
/// kept all contents, only uncovered reached squares, uncovered the
/// seed, and left no revealable neighbor of a newly uncovered zero
/// square covered, is exactly the reveal grid.
pub proof fn lemma_fill_result(v0: GameView, g: Seq<Seq<Square>>, sr: int, sc: int)
    requires
        v0.wf(),
        can_reveal(v0, sr, sc),
        g.len() == v0.grid.len(),
        forall|i: int| 0 <= i < g.len() ==> (#[trigger] g[i]).len() == v0.grid[i].len(),
        forall|i: int, j: int|
            v0.in_bounds(i, j) ==> (#[trigger] g[i][j]).content == v0.sq(i, j).content,
        forall|i: int, j: int|
            v0.in_bounds(i, j) ==> ((#[trigger] g[i][j]).status == v0.sq(i, j).status || (
            g[i][j].status == Status::Uncovered && reaches(v0, sr, sc, i, j))),
        g[sr][sc].status == Status::Uncovered,
        forall|i: int, j: int, i2: int, j2: int|
            v0.in_bounds(i, j) && v0.in_bounds(i2, j2) && adjacent(i2, j2, i, j) && (#[trigger] g[i][j]).status
                == Status::Uncovered && v0.sq(i, j).status != Status::Uncovered && is_zero(
                v0.sq(i, j),
            ) ==> ((#[trigger] g[i2][j2]).status == Status::Uncovered || v0.sq(i2, j2).status
                == Status::Flagged || v0.sq(i2, j2).status == Status::Uncovered),
    ensures
        g == reveal_grid(v0, sr, sc),
{
    lemma_fill_complete(v0, g, sr, sc);
    assert forall|i: int, j: int| v0.in_bounds(i, j) implies g[i][j] == reveal_grid(
        v0,
        sr,
        sc,
    )[i][j] by {
        if reaches(v0, sr, sc, i, j) {
            lemma_reaches_props(v0, sr, sc, i, j);
        }
    }
    assert(g =~~= reveal_grid(v0, sr, sc));
}

/// What a reveal leaves untouched: dimensions and contents are kept,
/// uncovered squares stay uncovered, flags are kept exactly, and any
/// changed square was revealable and is now uncovered.
pub proof fn lemma_reveal_tr_frame(v: GameView, r: int, c: int)
    requires
        v.wf(),
    ensures
        reveal_tr(v, r, c).wf(),
        reveal_tr(v, r, c).rows == v.rows,
        reveal_tr(v, r, c).cols == v.cols,
        forall|i: int, j: int|
            v.in_bounds(i, j) ==> (#[trigger] reveal_tr(v, r, c).sq(i, j)).content == v.sq(
                i,
                j,
            ).content,
        forall|i: int, j: int|
            v.in_bounds(i, j) && v.sq(i, j).status == Status::Uncovered ==> (#[trigger] reveal_tr(
                v,
                r,
                c,
            ).sq(i, j)).status == Status::Uncovered,
        forall|i: int, j: int|
            v.in_bounds(i, j) && (#[trigger] reveal_tr(v, r, c).sq(i, j)) != v.sq(i, j) ==> (
            reveal_tr(v, r, c).sq(i, j).status == Status::Uncovered && revealable(v.sq(i, j))),
        forall|i: int, j: int|
            v.in_bounds(i, j) ==> ((#[trigger] reveal_tr(v, r, c).sq(i, j)).status
                == Status::Flagged <==> v.sq(i, j).status == Status::Flagged),
{
    let w = reveal_tr(v, r, c);
    if can_reveal(v, r, c) {
        assert forall|i: int, j: int| v.in_bounds(i, j) implies (#[trigger] w.sq(i, j)).content
            == v.sq(i, j).content && (w.sq(i, j) != v.sq(i, j) ==> (w.sq(i, j).status
            == Status::Uncovered && revealable(v.sq(i, j)))) && (v.sq(i, j).status
            == Status::Uncovered ==> w.sq(i, j).status == Status::Uncovered) by {
            if reaches(v, r, c, i, j) {
                lemma_reaches_props(v, r, c, i, j);
            }
        }
    }
}

} // verus!
