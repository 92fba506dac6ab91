//! Counting squares that satisfy a predicate, over a row, over a whole
//! grid, and over a list of coordinates. These spec functions and lemmas
//! back the board invariants (total number of mines), the flag counting
//! around a square, and the termination measure of the flood fill.

use vstd::prelude::*;

verus! {

use crate::cell::{Square, Status, is_mine};

/// 1 if the square satisfies the predicate, else 0.
pub open spec fn sq_ind(f: spec_fn(Square) -> bool, sq: Square) -> int {
    if f(sq) {
        1
    } else {
        0
    }
}

/// The number of squares among the first `n` of a row that satisfy `f`.
pub open spec fn row_count(s: Seq<Square>, f: spec_fn(Square) -> bool, n: int) -> int
    decreases n,
{
    if n <= 0 {
        0
    } else {
        row_count(s, f, n - 1) + sq_ind(f, s[n - 1])
    }
}

/// The number of squares in the first `i` rows of a grid that satisfy `f`.
pub open spec fn grid_count(g: Seq<Seq<Square>>, f: spec_fn(Square) -> bool, i: int) -> int
    decreases i,
{
    if i <= 0 {
        0
    } else {
        grid_count(g, f, i - 1) + row_count(g[i - 1], f, g[i - 1].len() as int)
    }
}

/// The number of coordinates among the first `n` of a list whose square
/// in `g` satisfies `f`.
pub open spec fn list_count(
    g: Seq<Seq<Square>>,
    l: Seq<(usize, usize)>,
    f: spec_fn(Square) -> bool,
    n: int,
) -> int
    decreases n,
{
    if n <= 0 {
        0
    } else {
        list_count(g, l, f, n - 1) + sq_ind(f, g[l[n - 1].0 as int][l[n - 1].1 as int])
    }
}

/// The predicate selecting mine squares.
pub open spec fn mine_pred() -> spec_fn(Square) -> bool {
    |sq: Square| is_mine(sq)
}

/// The predicate selecting flagged squares.
pub open spec fn flagged_pred() -> spec_fn(Square) -> bool {
    |sq: Square| sq.status == Status::Flagged
}

/// The predicate selecting squares that are not uncovered.
pub open spec fn not_uncovered_pred() -> spec_fn(Square) -> bool {
    |sq: Square| sq.status != Status::Uncovered
}

/// A row count lies between 0 and `n`.
pub proof fn lemma_row_count_bounds(s: Seq<Square>, f: spec_fn(Square) -> bool, n: int)
    requires
        0 <= n,
    ensures
        0 <= row_count(s, f, n) <= n,
    decreases n,
{
    if n > 0 {
        lemma_row_count_bounds(s, f, n - 1);
    }
}

/// A row count reads only the first `n` squares.
pub proof fn lemma_row_count_congruent(
    s1: Seq<Square>,
    s2: Seq<Square>,
    f: spec_fn(Square) -> bool,
    n: int,
)
    requires
        forall|k: int| 0 <= k < n ==> s1[k] == s2[k],
    ensures
        row_count(s1, f, n) == row_count(s2, f, n),
    decreases n,
{
    if n > 0 {
        lemma_row_count_congruent(s1, s2, f, n - 1);
    }
}

/// Updating a square inside the counted prefix shifts the count by the
/// difference of the two indicators.
pub proof fn lemma_row_count_update(
    s: Seq<Square>,
    f: spec_fn(Square) -> bool,
    n: int,
    k: int,
    x: Square,
)
    requires
        0 <= k < n <= s.len(),
    ensures
        row_count(s.update(k, x), f, n) == row_count(s, f, n) - sq_ind(f, s[k]) + sq_ind(f, x),
    decreases n,
{
    if k == n - 1 {
        lemma_row_count_congruent(s.update(k, x), s, f, n - 1);
    } else {
        lemma_row_count_update(s, f, n - 1, k, x);
    }
}

/// If every counted square satisfies `f`, the count is `n`.
pub proof fn lemma_row_count_all(s: Seq<Square>, f: spec_fn(Square) -> bool, n: int)
    requires
        0 <= n,
        forall|k: int| 0 <= k < n ==> f(#[trigger] s[k]),
    ensures
        row_count(s, f, n) == n,
    decreases n,
{
    if n > 0 {
        lemma_row_count_all(s, f, n - 1);
    }
}

/// A grid count of rows of width `cols` lies between 0 and `i * cols`.
pub proof fn lemma_grid_count_bounds(
    g: Seq<Seq<Square>>,
    f: spec_fn(Square) -> bool,
    i: int,
    cols: int,
)
    requires
        0 <= i <= g.len(),
        0 <= cols,
        forall|k: int| 0 <= k < g.len() ==> #[trigger] g[k].len() == cols,
    ensures
        0 <= grid_count(g, f, i) <= i * cols,
    decreases i,
{
    if i > 0 {
        lemma_grid_count_bounds(g, f, i - 1, cols);
        lemma_row_count_bounds(g[i - 1], f, cols);
        assert((i - 1) * cols + cols == i * cols) by (nonlinear_arith);
    }
}

/// A grid count reads only the squares of the first `i` rows.
pub proof fn lemma_grid_count_congruent(
    g1: Seq<Seq<Square>>,
    g2: Seq<Seq<Square>>,
    f: spec_fn(Square) -> bool,
    i: int,
)
    requires
        forall|k: int| 0 <= k < i ==> #[trigger] g1[k].len() == g2[k].len(),
        forall|k: int, j: int| 0 <= k < i && 0 <= j < g1[k].len() ==> g1[k][j] == g2[k][j],
    ensures
        grid_count(g1, f, i) == grid_count(g2, f, i),
    decreases i,
{
    if i > 0 {
        lemma_grid_count_congruent(g1, g2, f, i - 1);
        lemma_row_count_congruent(g1[i - 1], g2[i - 1], f, g1[i - 1].len() as int);
    }
}

/// Updating one square of the grid shifts the grid count by the
/// difference of the two indicators.
pub proof fn lemma_grid_count_update(
    g: Seq<Seq<Square>>,
    f: spec_fn(Square) -> bool,
    i: int,
    r: int,
    c: int,
    x: Square,
)
    requires
        0 <= r < i <= g.len(),
        0 <= c < g[r].len(),
    ensures
        grid_count(g.update(r, g[r].update(c, x)), f, i) == grid_count(g, f, i) - sq_ind(
            f,
            g[r][c],
        ) + sq_ind(f, x),
    decreases i,
{
    let g2 = g.update(r, g[r].update(c, x));
    if r == i - 1 {
        lemma_grid_count_congruent(g2, g, f, i - 1);
        lemma_row_count_update(g[r], f, g[r].len() as int, c, x);
    } else {
        lemma_grid_count_update(g, f, i - 1, r, c, x);
        lemma_row_count_congruent(g2[i - 1], g[i - 1], f, g[i - 1].len() as int);
    }
}

/// If every square of the first `i` rows satisfies `f`, the grid count is
/// `i * cols`.
pub proof fn lemma_grid_count_all(
    g: Seq<Seq<Square>>,
    f: spec_fn(Square) -> bool,
    i: int,
    cols: int,
)
    requires
        0 <= i <= g.len(),
        0 <= cols,
        forall|k: int| 0 <= k < g.len() ==> #[trigger] g[k].len() == cols,
        forall|k: int, j: int| 0 <= k < i && 0 <= j < cols ==> f(#[trigger] g[k][j]),
    ensures
        grid_count(g, f, i) == i * cols,
    decreases i,
{
    if i > 0 {
        lemma_grid_count_all(g, f, i - 1, cols);
        assert(g[i - 1].len() == cols);
        lemma_row_count_all(g[i - 1], f, cols);
        assert(grid_count(g, f, i) == grid_count(g, f, i - 1) + row_count(g[i - 1], f, cols));
        assert((i - 1) * cols + cols == i * cols) by (nonlinear_arith);
    } else {
        assert(i * cols == 0) by (nonlinear_arith)
            requires i == 0,
        ;
    }
}

/// If no counted square satisfies `f`, the row count is 0.
pub proof fn lemma_row_count_none(s: Seq<Square>, f: spec_fn(Square) -> bool, n: int)
    requires
        forall|k: int| 0 <= k < n ==> !f(#[trigger] s[k]),
    ensures
        row_count(s, f, n) == 0,
    decreases n,
{
    if n > 0 {
        lemma_row_count_none(s, f, n - 1);
    }
}

/// If no square of the first `i` rows satisfies `f`, the grid count is 0.
pub proof fn lemma_grid_count_none(g: Seq<Seq<Square>>, f: spec_fn(Square) -> bool, i: int)
    requires
        forall|k: int, j: int| 0 <= k < i && 0 <= j < g[k].len() ==> !f(#[trigger] g[k][j]),
    ensures
        grid_count(g, f, i) == 0,
    decreases i,
{
    if i > 0 {
        lemma_grid_count_none(g, f, i - 1);
        lemma_row_count_none(g[i - 1], f, g[i - 1].len() as int);
    }
}

/// A row count depends only on what `f` says of the counted squares.
pub proof fn lemma_row_count_congruent_pred(
    s1: Seq<Square>,
    s2: Seq<Square>,
    f: spec_fn(Square) -> bool,
    n: int,
)
    requires
        forall|k: int| 0 <= k < n ==> f(#[trigger] s1[k]) == f(#[trigger] s2[k]),
    ensures
        row_count(s1, f, n) == row_count(s2, f, n),
    decreases n,
{
    if n > 0 {
        lemma_row_count_congruent_pred(s1, s2, f, n - 1);
    }
}

/// A grid count depends only on what `f` says of the counted squares.
pub proof fn lemma_grid_count_congruent_pred(
    g1: Seq<Seq<Square>>,
    g2: Seq<Seq<Square>>,
    f: spec_fn(Square) -> bool,
    i: int,
)
    requires
        forall|k: int| 0 <= k < i ==> #[trigger] g1[k].len() == g2[k].len(),
        forall|k: int, j: int|
            0 <= k < i && 0 <= j < g1[k].len() ==> f(#[trigger] g1[k][j]) == f(
                #[trigger] g2[k][j],
            ),
    ensures
        grid_count(g1, f, i) == grid_count(g2, f, i),
    decreases i,
{
    if i > 0 {
        lemma_grid_count_congruent_pred(g1, g2, f, i - 1);
        lemma_row_count_congruent_pred(g1[i - 1], g2[i - 1], f, g1[i - 1].len() as int);
    }
}

/// A coordinate-list count reads only the first `n` coordinates.
pub proof fn lemma_list_count_congruent(
    g: Seq<Seq<Square>>,
    l1: Seq<(usize, usize)>,
    l2: Seq<(usize, usize)>,
    f: spec_fn(Square) -> bool,
    n: int,
)
    requires
        forall|k: int| 0 <= k < n ==> l1[k] == l2[k],
    ensures
        list_count(g, l1, f, n) == list_count(g, l2, f, n),
    decreases n,
{
    if n > 0 {
        lemma_list_count_congruent(g, l1, l2, f, n - 1);
    }
}

/// A count over a concatenation splits into the two parts' counts.
pub proof fn lemma_list_count_concat(
    g: Seq<Seq<Square>>,
    a: Seq<(usize, usize)>,
    b: Seq<(usize, usize)>,
    f: spec_fn(Square) -> bool,
)
    ensures
        list_count(g, a + b, f, a.len() + b.len() as int) == list_count(g, a, f, a.len() as int)
            + list_count(g, b, f, b.len() as int),
    decreases b.len(),
{
    if b.len() == 0 {
        assert(a + b =~= a);
        lemma_list_count_congruent(g, a + b, a, f, a.len() as int);
    } else {
        let b0 = b.drop_last();
        lemma_list_count_concat(g, a, b0, f);
        lemma_list_count_congruent(g, b0, b, f, b0.len() as int);
        assert(a + b0 =~= (a + b).subrange(0, a.len() + b.len() - 1));
        lemma_list_count_congruent(g, a + b0, a + b, f, a.len() + b.len() - 1);
        assert((a + b)[a.len() + b.len() - 1] == b[b.len() - 1]);
    }
}

} // verus!
