//! The laws of the game engine, stated and proved over the model: what
//! holds of the reveal, chord, and mark transitions on every board.

use vstd::prelude::*;

verus! {

use crate::cell::{Content, Outcome, Status, is_zero, revealable};
use crate::model::{
    GameView, adjacent, all_safe_uncovered, can_chord, can_mark, can_reveal, chord_fold, chord_tr,
    lemma_nbr_seq_props, lemma_reaches_boundary, lemma_reaches_props, lemma_reaches_self,
    lemma_reaches_step, lemma_reveal_tr_frame, mark_tr, nbr_seq, reaches, reveal_tr, uncover,
};

/// Revealing the same coordinate twice yields the same state as
/// revealing it once: the second reveal finds the square uncovered and
/// is a no-op.
pub proof fn lemma_reveal_idempotent(v: GameView, r: int, c: int)
    requires
        v.wf(),
    ensures
        reveal_tr(reveal_tr(v, r, c), r, c) == reveal_tr(v, r, c),
{
    let v1 = reveal_tr(v, r, c);
    if can_reveal(v, r, c) {
        lemma_reaches_self(v, r, c);
        assert(v1.sq(r, c) == uncover(v.sq(r, c)));
        assert(!can_reveal(v1, r, c));
    }
}

/// Flood-fill correctness: a reveal uncovers exactly the reached
/// region and touches nothing else. The region is the reflexive
/// closure of stepping from a reached zero square to a revealable
/// neighbor, and every reached square other than the seed borders a
/// reached zero square: no square beyond that border is uncovered.
pub proof fn lemma_flood_fill_region(v: GameView, r: int, c: int)
    requires
        v.wf(),
        can_reveal(v, r, c),
    ensures
        forall|i: int, j: int|
            v.in_bounds(i, j) ==> ((#[trigger] reveal_tr(v, r, c).sq(i, j)).status
                == Status::Uncovered <==> (reaches(v, r, c, i, j) || v.sq(i, j).status
                == Status::Uncovered)),
        forall|i: int, j: int|
            v.in_bounds(i, j) && !reaches(v, r, c, i, j) ==> (#[trigger] reveal_tr(v, r, c).sq(
                i,
                j,
            )) == v.sq(i, j),
        reaches(v, r, c, r, c),
        forall|i: int, j: int, i2: int, j2: int|
            reaches(v, r, c, i, j) && is_zero(#[trigger] v.sq(i, j)) && v.in_bounds(i2, j2)
                && adjacent(i, j, i2, j2) && revealable(#[trigger] v.sq(i2, j2)) ==> reaches(
                v,
                r,
                c,
                i2,
                j2,
            ),
        forall|i: int, j: int|
            reaches(v, r, c, i, j) && !(i == r && j == c) ==> exists|i2: int, j2: int|
                #![all_triggers]
                v.in_bounds(i2, j2) && reaches(v, r, c, i2, j2) && is_zero(v.sq(i2, j2))
                    && adjacent(i2, j2, i, j),
{
    lemma_reaches_self(v, r, c);
    assert forall|i: int, j: int| v.in_bounds(i, j) implies ((#[trigger] reveal_tr(v, r, c).sq(
        i,
        j,
    )).status == Status::Uncovered <==> (reaches(v, r, c, i, j) || v.sq(i, j).status
        == Status::Uncovered)) by {
        if reaches(v, r, c, i, j) {
            lemma_reaches_props(v, r, c, i, j);
        }
    }
    assert forall|i: int, j: int, i2: int, j2: int|
        reaches(v, r, c, i, j) && is_zero(#[trigger] v.sq(i, j)) && v.in_bounds(i2, j2) && adjacent(
            i,
            j,
            i2,
            j2,
        ) && revealable(#[trigger] v.sq(i2, j2)) implies reaches(v, r, c, i2, j2) by {
        lemma_reaches_step(v, r, c, i, j, i2, j2);
    }
    assert forall|i: int, j: int| reaches(v, r, c, i, j) && !(i == r && j == c) implies exists|
        i2: int,
        j2: int,
    |
        #![all_triggers]
        v.in_bounds(i2, j2) && reaches(v, r, c, i2, j2) && is_zero(v.sq(i2, j2)) && adjacent(
            i2,
            j2,
            i,
            j,
        ) by {
        lemma_reaches_boundary(v, r, c, i, j);
    }
}

/// A reveal of a square that holds a positive count or a mine uncovers
/// that square alone.
pub proof fn lemma_reveal_nonzero_stops(v: GameView, r: int, c: int)
    requires
        v.wf(),
        can_reveal(v, r, c),
        !is_zero(v.sq(r, c)),
    ensures
        forall|i: int, j: int|
            v.in_bounds(i, j) && !(i == r && j == c) ==> (#[trigger] reveal_tr(v, r, c).sq(i, j))
                == v.sq(i, j),
        reveal_tr(v, r, c).sq(r, c) == uncover(v.sq(r, c)),
{
    lemma_reaches_self(v, r, c);
    assert forall|i: int, j: int| v.in_bounds(i, j) && !(i == r && j == c) implies (
    #[trigger] reveal_tr(v, r, c).sq(i, j)) == v.sq(i, j) by {
        if reaches(v, r, c, i, j) {
            crate::model::lemma_reaches_nonzero_seed(v, r, c, i, j);
        }
    }
}

/// The induction behind the chord law: folding reveals over a list of
/// in-bounds coordinates, none of which hides a mine under an
/// unflagged square, uncovers every unflagged listed square, only ever
/// uncovers squares, and never loses the game.
proof fn lemma_chord_fold_props(v: GameView, l: Seq<(usize, usize)>)
    requires
        v.wf(),
        forall|k: int| 0 <= k < l.len() ==> v.in_bounds((#[trigger] l[k]).0 as int, l[k].1 as int),
        forall|k: int|
            0 <= k < l.len() ==> (v.sq((#[trigger] l[k]).0 as int, l[k].1 as int).status
                != Status::Flagged ==> v.sq(l[k].0 as int, l[k].1 as int).content != Content::Mine),
        v.outcome == Outcome::InProgress || v.outcome == Outcome::Won,
        v.outcome == Outcome::Won ==> all_safe_uncovered(v.grid),
    ensures
        chord_fold(v, l).wf(),
        chord_fold(v, l).rows == v.rows,
        chord_fold(v, l).cols == v.cols,
        forall|i: int, j: int|
            v.in_bounds(i, j) ==> (#[trigger] chord_fold(v, l).sq(i, j)).content == v.sq(
                i,
                j,
            ).content,
        forall|i: int, j: int|
            v.in_bounds(i, j) ==> ((#[trigger] chord_fold(v, l).sq(i, j)).status == Status::Flagged
                <==> v.sq(i, j).status == Status::Flagged),
        forall|i: int, j: int|
            v.in_bounds(i, j) && v.sq(i, j).status == Status::Uncovered ==> (#[trigger] chord_fold(
                v,
                l,
            ).sq(i, j)).status == Status::Uncovered,
        forall|k: int|
            0 <= k < l.len() && v.sq((#[trigger] l[k]).0 as int, l[k].1 as int).status
                != Status::Flagged ==> chord_fold(v, l).sq(l[k].0 as int, l[k].1 as int).status
                == Status::Uncovered,
        chord_fold(v, l).outcome == Outcome::InProgress || chord_fold(v, l).outcome
            == Outcome::Won,
        chord_fold(v, l).outcome == Outcome::Won ==> all_safe_uncovered(chord_fold(v, l).grid),
    decreases l.len(),
{
    if l.len() > 0 {
        let r0 = l[0].0 as int;
        let c0 = l[0].1 as int;
        let v1 = reveal_tr(v, r0, c0);
        lemma_reveal_tr_frame(v, r0, c0);
        if can_reveal(v, r0, c0) {
            lemma_reaches_self(v, r0, c0);
            assert(v1.sq(r0, c0).status == Status::Uncovered);
        }
        let ld = l.drop_first();
        assert(forall|k: int| 0 <= k < ld.len() ==> #[trigger] ld[k] == l[k + 1]);
        lemma_chord_fold_props(v1, ld);
        assert(chord_fold(v, l) == chord_fold(v1, ld));
        assert forall|k: int|
            0 <= k < l.len() && v.sq((#[trigger] l[k]).0 as int, l[k].1 as int).status
                != Status::Flagged implies chord_fold(v, l).sq(
            l[k].0 as int,
            l[k].1 as int,
        ).status == Status::Uncovered by {
            if k == 0 {
                if !can_reveal(v, r0, c0) {
                    assert(v1 == v);
                    if v.outcome == Outcome::Won {
                        assert(v.sq(r0, c0).status == Status::Uncovered);
                    } else {
                        assert(!revealable(v.sq(r0, c0)));
                        assert(v.sq(r0, c0).status == Status::Uncovered);
                    }
                }
                assert(v1.sq(r0, c0).status == Status::Uncovered);
            } else {
                assert(ld[k - 1] == l[k]);
            }
        }
    }
}

/// Chord correctness, positive direction: when the chord guard holds
/// and no unflagged neighbor hides a mine, the chord uncovers every
/// non-flagged neighbor of the target.
pub proof fn lemma_chord_uncovers_neighbors(v: GameView, r: int, c: int)
    requires
        v.wf(),
        can_chord(v, r, c),
        forall|i: int, j: int|
            v.in_bounds(i, j) && adjacent(i, j, r, c) && (#[trigger] v.sq(i, j)).status
                != Status::Flagged ==> v.sq(i, j).content != Content::Mine,
    ensures
        forall|i: int, j: int|
            v.in_bounds(i, j) && adjacent(i, j, r, c) && (#[trigger] v.sq(i, j)).status
                != Status::Flagged ==> chord_tr(v, r, c).sq(i, j).status == Status::Uncovered,
{
    let l = nbr_seq(v.rows, v.cols, r, c);
    lemma_nbr_seq_props(v.rows, v.cols, r, c);
    lemma_chord_fold_props(v, l);
    assert forall|i: int, j: int|
        v.in_bounds(i, j) && adjacent(i, j, r, c) && (#[trigger] v.sq(i, j)).status
            != Status::Flagged implies chord_tr(v, r, c).sq(i, j).status == Status::Uncovered by {
        assert(l.contains((i as usize, j as usize)));
        let k = choose|k: int| 0 <= k < l.len() && l[k] == (i as usize, j as usize);
        assert(l[k].0 as int == i && l[k].1 as int == j);
        assert(chord_fold(v, l).sq(i, j).status == Status::Uncovered);
    }
}

/// Chord correctness, negative direction: when the guard fails, in
/// particular when the flagged-neighbor count differs from the
/// square's number, the chord changes nothing.
pub proof fn lemma_chord_no_op(v: GameView, r: int, c: int)
    requires
        !can_chord(v, r, c),
    ensures
        chord_tr(v, r, c) == v,
{
}

/// Win detection: revealing the last covered non-mine square wins the
/// game.
pub proof fn lemma_reveal_wins(v: GameView, r: int, c: int)
    requires
        v.wf(),
        can_reveal(v, r, c),
        v.sq(r, c).content != Content::Mine,
        forall|i: int, j: int|
            v.in_bounds(i, j) && !(i == r && j == c) && (#[trigger] v.sq(i, j)).content
                != Content::Mine ==> v.sq(i, j).status == Status::Uncovered,
    ensures
        reveal_tr(v, r, c).outcome == Outcome::Won,
{
    lemma_reaches_self(v, r, c);
    lemma_reveal_tr_frame(v, r, c);
    let w = reveal_tr(v, r, c);
    assert(w.sq(r, c).status == Status::Uncovered);
    assert forall|i: int, j: int|
        0 <= i < w.grid.len() && 0 <= j < w.grid[i].len() implies ((#[trigger] w.grid[i][j]).content
        != Content::Mine ==> w.grid[i][j].status == Status::Uncovered) by {
        if !(i == r && j == c) && v.sq(i, j).content != Content::Mine {
            assert(v.sq(i, j).status == Status::Uncovered);
            assert(w.sq(i, j).status == Status::Uncovered);
        }
    }
    assert(all_safe_uncovered(w.grid));
}

/// Loss detection: revealing a mine, directly or through a chord,
/// loses the game.
pub proof fn lemma_reveal_mine_loses(v: GameView, r: int, c: int)
    requires
        can_reveal(v, r, c),
        v.sq(r, c).content == Content::Mine,
    ensures
        reveal_tr(v, r, c).outcome == Outcome::Lost,
{
}

/// A finished game is terminal: reveal, mark, and chord are all no-ops
/// until a reset.
pub proof fn lemma_terminal_no_ops(v: GameView, r: int, c: int)
    requires
        v.outcome != Outcome::InProgress,
    ensures
        reveal_tr(v, r, c) == v,
        mark_tr(v, r, c) == v,
        chord_tr(v, r, c) == v,
{
    assert(!can_reveal(v, r, c));
    assert(!can_mark(v, r, c));
    assert(!can_chord(v, r, c));
}

} // verus!


