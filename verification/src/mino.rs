//! Piece kinds, their compact shapes and side margins, and cell states.

use vstd::prelude::*;

verus! {

use crate::mino::IsMino::E;
use crate::mino::IsMino::M;

/// State of a cell in the board grid.
#[derive(Clone, Copy, Debug, PartialEq, Eq, Structural)]
pub enum CellState {
    /// Empty
    Empty,
    /// Controlled mino
    Controlled,
    /// Placed mino
    Placed,
}

impl CellState {
    /// Whether the cell is empty.
    pub fn is_empty(&self) -> (r: bool)
        ensures
            r == (*self == CellState::Empty),
    {
        matches!(self, CellState::Empty)
    }

    /// Whether the cell is a controlled mino.
    pub fn is_controlled(&self) -> (r: bool)
        ensures
            r == (*self == CellState::Controlled),
    {
        matches!(self, CellState::Controlled)
    }

    /// Whether the cell is a placed mino.
    pub fn is_placed(&self) -> (r: bool)
        ensures
            r == (*self == CellState::Placed),
    {
        matches!(self, CellState::Placed)
    }

    /// Whether the cell is filled with a mino.
    pub fn is_filled(&self) -> (r: bool)
        ensures
            r == (*self != CellState::Empty),
    {
        !self.is_empty()
    }
}

/// Whether a block is a part of the mino.
#[derive(Clone, Copy, Debug, PartialEq, Eq, Structural)]
pub enum IsMino {
    /// Mino
    M,
    /// Empty
    E,
}

/// The kind of mino.
#[derive(Clone, Copy, Debug, PartialEq, Eq, Structural)]
pub enum MinoType {
    I,
    O,
    L,
    J,
    Z,
    S,
    T,
    Garbage,
}

/// Which cells of the 4-wide, 2-tall compact shape of `kind` are occupied.
///
/// `py` is the row (0 is the top row), `px` the column of the shape grid.
pub open spec fn occupied(kind: MinoType, py: int, px: int) -> bool {
    &&& 0 <= px < 4
    &&& 0 <= py < 2
    &&& match kind {
        MinoType::I => py == 1,
        MinoType::O => px == 1 || px == 2,
        MinoType::L => if py == 0 { px == 2 } else { px <= 2 },
        MinoType::J => if py == 0 { px == 0 } else { px <= 2 },
        MinoType::Z => if py == 0 { px <= 1 } else { 1 <= px <= 2 },
        MinoType::S => if py == 0 { 1 <= px <= 2 } else { px <= 1 },
        MinoType::T => if py == 0 { px == 1 } else { px <= 2 },
        MinoType::Garbage => false,
    }
}

/// Number of leading all-empty columns in the compact shape of `kind`.
pub open spec fn left_margin_spec(kind: MinoType) -> int {
    match kind {
        MinoType::I => 0,
        MinoType::O => 1,
        MinoType::L => 0,
        MinoType::J => 0,
        MinoType::Z => 0,
        MinoType::S => 0,
        MinoType::T => 0,
        MinoType::Garbage => 0,
    }
}

/// Number of trailing all-empty columns in the compact shape of `kind`.
pub open spec fn right_margin_spec(kind: MinoType) -> int {
    match kind {
        MinoType::I => 0,
        MinoType::O => 1,
        MinoType::L => 1,
        MinoType::J => 1,
        MinoType::Z => 1,
        MinoType::S => 1,
        MinoType::T => 1,
        MinoType::Garbage => 0,
    }
}

/// The side margins are exactly the widths of the empty column runs at the
/// two sides of the shape: no occupied cell lies inside a margin, and both
/// boundary columns hold an occupied cell.
pub proof fn lemma_side_margin_occupied(kind: MinoType)
    requires
        kind != MinoType::Garbage,
    ensures
        forall|py: int, px: int|
            occupied(kind, py, px) ==> left_margin_spec(kind) <= px <= 3 - right_margin_spec(
                kind,
            ),
        exists|py: int| #[trigger] occupied(kind, py, left_margin_spec(kind)),
        exists|py: int| #[trigger] occupied(kind, py, 3 - right_margin_spec(kind)),
{
    assert(occupied(kind, 0, left_margin_spec(kind)) || occupied(
        kind,
        1,
        left_margin_spec(kind),
    ));
    assert(occupied(kind, 0, 3 - right_margin_spec(kind)) || occupied(
        kind,
        1,
        3 - right_margin_spec(kind),
    ));
}

impl MinoType {
    /// Returns the 4x2 shape of the mino.
    ///
    /// The caller must not pass `MinoType::Garbage`, which has no shape.
    pub fn shape(&self) -> (r: Vec<Vec<IsMino>>)
        requires
            *self != MinoType::Garbage,
        ensures
            r@.len() == 2,
            forall|y: int| 0 <= y < 2 ==> (#[trigger] r@[y])@.len() == 4,
            forall|y: int, x: int|
                0 <= y < 2 && 0 <= x < 4 ==> ((#[trigger] r@[y]@[x]) == IsMino::M <==> occupied(
                    *self,
                    y,
                    x,
                )),
    {
        match self {
            MinoType::I => vec![vec![E, E, E, E], vec![M, M, M, M]],
            MinoType::O => vec![vec![E, M, M, E], vec![E, M, M, E]],
            MinoType::L => vec![vec![E, E, M, E], vec![M, M, M, E]],
            MinoType::J => vec![vec![M, E, E, E], vec![M, M, M, E]],
            MinoType::Z => vec![vec![M, M, E, E], vec![E, M, M, E]],
            MinoType::S => vec![vec![E, M, M, E], vec![M, M, E, E]],
            MinoType::T => vec![vec![E, M, E, E], vec![M, M, M, E]],
            MinoType::Garbage => vec![],
        }
    }

    /// Whether the cell at row `py`, column `px` of the compact shape of
    /// this kind is occupied.
    pub fn occupied_at(&self, py: i64, px: i64) -> (r: bool)
        ensures
            r == occupied(*self, py as int, px as int),
    {
        if px < 0 || px >= 4 || py < 0 || py >= 2 {
            return false;
        }
        match self {
            MinoType::I => py == 1,
            MinoType::O => px == 1 || px == 2,
            MinoType::L => if py == 0 {
                px == 2
            } else {
                px <= 2
            },
            MinoType::J => if py == 0 {
                px == 0
            } else {
                px <= 2
            },
            MinoType::Z => if py == 0 {
                px <= 1
            } else {
                1 <= px && px <= 2
            },
            MinoType::S => if py == 0 {
                1 <= px && px <= 2
            } else {
                px <= 1
            },
            MinoType::T => if py == 0 {
                px == 1
            } else {
                px <= 2
            },
            MinoType::Garbage => false,
        }
    }

    /// Returns the side margins of the mino in its 4x2 shape, as the counts
    /// of empty leading and trailing columns.
    ///
    /// The caller must not pass `MinoType::Garbage`, which has no shape.
    pub fn side_margin(&self) -> (r: (usize, usize))
        requires
            *self != MinoType::Garbage,
        ensures
            r.0 == left_margin_spec(*self),
            r.1 == right_margin_spec(*self),
    {
        match self {
            MinoType::I => (0, 0),
            MinoType::O => (1, 1),
            MinoType::L => (0, 1),
            MinoType::J => (0, 1),
            MinoType::Z => (0, 1),
            MinoType::S => (0, 1),
            MinoType::T => (0, 1),
            MinoType::Garbage => (0, 0),
        }
    }
}

/// State of a mino within the piece flow. Only `Control` is driven by this
/// core; the other variants are explicit extension points for the queue,
/// hold and locking systems that consume the type.
#[derive(Clone, Copy, Debug, PartialEq, Eq, Structural)]
pub enum MinoState {
    /// Locked into the stack.
    Placed,
    /// Under player control.
    Control,
    /// Waiting in the upcoming-piece queue.
    Next,
    /// Held aside.
    Hold,
}

/// The direction of a horizontal move.
#[derive(Clone, Copy, Debug, PartialEq, Eq, Structural)]
pub enum MoveDirection {
    Left,
    Right,
}

impl MoveDirection {
    /// Whether this is a move to the left.
    pub fn is_left(&self) -> (r: bool)
        ensures
            r == (*self == MoveDirection::Left),
    {
        matches!(self, MoveDirection::Left)
    }

    /// Whether this is a move to the right.
    pub fn is_right(&self) -> (r: bool)
        ensures
            r == (*self == MoveDirection::Right),
    {
        matches!(self, MoveDirection::Right)
    }
}

} // verus!
