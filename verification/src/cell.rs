//! The basic data of the game: what one board square holds, the
//! outcome of a game, and the library's error type.

use vstd::prelude::*;

verus! {

/// What a square holds: a mine, or the number of mines among its
/// grid neighbors (between 0 and 8).
#[derive(Clone, Copy, PartialEq, Eq, Structural, Debug)]
pub enum Content {
    Count(u8),
    Mine,
}

/// The marking state of a square. Marking cycles
/// Covered -> Flagged -> Questioned -> Covered; Uncovered is a sink.
#[derive(Clone, Copy, PartialEq, Eq, Structural, Debug)]
pub enum Status {
    Covered,
    Flagged,
    Questioned,
    Uncovered,
}

/// One position of the game board.
#[derive(Clone, Copy, PartialEq, Eq, Structural, Debug)]
pub struct Square {
    pub content: Content,
    pub status: Status,
}

impl Square {
    /// A fresh square: covered, with a zero count.
    pub fn new() -> (sq: Square)
        ensures
            sq == (Square { content: Content::Count(0u8), status: Status::Covered }),
    {
        Square { content: Content::Count(0), status: Status::Covered }
    }
}

impl Default for Content {
    fn default() -> (c: Content)
        ensures
            c == Content::Count(0u8),
    {
        Content::Count(0)
    }
}

impl Default for Status {
    fn default() -> (s: Status)
        ensures
            s == Status::Covered,
    {
        Status::Covered
    }
}

impl Default for Square {
    fn default() -> (sq: Square)
        ensures
            sq == (Square { content: Content::Count(0u8), status: Status::Covered }),
    {
        Square::new()
    }
}

/// The two error kinds of the library: an invalid board configuration
/// at construction, and a coordinate outside the grid.
#[derive(Clone, Copy, PartialEq, Eq, Structural, Debug)]
pub enum SweepError {
    Config,
    OutOfBounds,
}

/// The result state of a game. A game starts InProgress, turns Lost the
/// instant a mine is uncovered, and Won once every non-mine square is
/// uncovered; Lost and Won are terminal until a reset.
#[derive(Clone, Copy, PartialEq, Eq, Structural, Debug)]
pub enum Outcome {
    InProgress,
    Lost,
    Won,
}

/// True of a square whose content is a mine.
pub open spec fn is_mine(sq: Square) -> bool {
    sq.content == Content::Mine
}

/// True of a square that a reveal may act on: covered or questioned
/// (flags protect a square, and an uncovered square stays uncovered).
pub open spec fn revealable(sq: Square) -> bool {
    sq.status != Status::Flagged && sq.status != Status::Uncovered
}

/// True of a square holding a zero count.
pub open spec fn is_zero(sq: Square) -> bool {
    sq.content == Content::Count(0u8)
}

/// The next marking status in the Covered -> Flagged -> Questioned cycle;
/// an uncovered square is unaffected.
pub open spec fn cycled(s: Status) -> Status {
    match s {
        Status::Covered => Status::Flagged,
        Status::Flagged => Status::Questioned,
        Status::Questioned => Status::Covered,
        Status::Uncovered => Status::Uncovered,
    }
}

} // verus!
