//! The nineteen fixed shapes: the seven one-sided tetromino kinds expanded by
//! rotation. Each shape is three (row, column) offsets relative to an anchor
//! cell at (0, 0); the anchor is always the shape's topmost-then-leftmost cell,
//! so row offsets are never negative while column offsets may be.

use vstd::prelude::*;
use crate::pieces::Piece;

verus! {

/// A fixed tetromino: one concrete rotation of a one-sided kind. The suffix
/// numbers the rotations; `1` is the standard position and each step turns
/// ninety degrees clockwise.
#[derive(Debug, Clone, Copy, Eq, PartialEq, Structural)]
pub enum FixedPiece {
    I1,
    I2,
    O1,
    T1,
    T2,
    T3,
    T4,
    J1,
    J2,
    J3,
    J4,
    L1,
    L2,
    L3,
    L4,
    S1,
    S2,
    Z1,
    Z2,
}

/// How many fixed shapes there are.
pub const FIXED_PIECE_COUNT: usize = 19;

/// Index of a fixed shape in the canonical search order.
pub open spec fn fp_index_spec(fp: FixedPiece) -> int {
    match fp {
        FixedPiece::I1 => 0,
        FixedPiece::I2 => 1,
        FixedPiece::O1 => 2,
        FixedPiece::T1 => 3,
        FixedPiece::T2 => 4,
        FixedPiece::T3 => 5,
        FixedPiece::T4 => 6,
        FixedPiece::J1 => 7,
        FixedPiece::J2 => 8,
        FixedPiece::J3 => 9,
        FixedPiece::J4 => 10,
        FixedPiece::L1 => 11,
        FixedPiece::L2 => 12,
        FixedPiece::L3 => 13,
        FixedPiece::L4 => 14,
        FixedPiece::S1 => 15,
        FixedPiece::S2 => 16,
        FixedPiece::Z1 => 17,
        FixedPiece::Z2 => 18,
    }
}

/// The three offsets of a fixed shape, as (row, column) pairs.
pub open spec fn shape_spec(v: int) -> Seq<(int, int)> {
    if v == 0 {
        seq![(1, 0), (2, 0), (3, 0)]
    } else if v == 1 {
        seq![(0, 1), (0, 2), (0, 3)]
    } else if v == 2 {
        seq![(0, 1), (1, 1), (1, 0)]
    } else if v == 3 {
        seq![(0, 1), (0, 2), (1, 1)]
    } else if v == 4 {
        seq![(1, 0), (1, -1), (2, 0)]
    } else if v == 5 {
        seq![(1, -1), (1, 0), (1, 1)]
    } else if v == 6 {
        seq![(1, 0), (1, 1), (2, 0)]
    } else if v == 7 {
        seq![(1, 0), (2, -1), (2, 0)]
    } else if v == 8 {
        seq![(1, 0), (1, 1), (1, 2)]
    } else if v == 9 {
        seq![(0, 1), (1, 0), (2, 0)]
    } else if v == 10 {
        seq![(0, 1), (0, 2), (1, 2)]
    } else if v == 11 {
        seq![(1, 0), (2, 0), (2, 1)]
    } else if v == 12 {
        seq![(0, 1), (0, 2), (1, 0)]
    } else if v == 13 {
        seq![(0, 1), (1, 1), (2, 1)]
    } else if v == 14 {
        seq![(1, -2), (1, -1), (1, 0)]
    } else if v == 15 {
        seq![(0, 1), (1, -1), (1, 0)]
    } else if v == 16 {
        seq![(1, 0), (1, 1), (2, 1)]
    } else if v == 17 {
        seq![(0, 1), (1, 1), (1, 2)]
    } else if v == 18 {
        seq![(1, -1), (1, 0), (2, -1)]
    } else {
        Seq::empty()
    }
}

/// The kind a fixed shape is a rotation of.
pub open spec fn piece_of_spec(v: int) -> Piece {
    if v <= 1 {
        Piece::I
    } else if v == 2 {
        Piece::O
    } else if v <= 6 {
        Piece::T
    } else if v <= 10 {
        Piece::J
    } else if v <= 14 {
        Piece::L
    } else if v <= 16 {
        Piece::S
    } else {
        Piece::Z
    }
}

impl FixedPiece {
    /// How many fixed shapes there are.
    pub fn count() -> (r: usize)
        ensures
            r == FIXED_PIECE_COUNT,
    {
        19
    }

    /// All fixed shapes, in the canonical search order.
    pub fn array() -> (r: [FixedPiece; 19])
        ensures
            forall|j: int| 0 <= j < 19 ==> fp_index_spec(#[trigger] r@[j]) == j,
    {
        let r = [
            FixedPiece::I1,
            FixedPiece::I2,
            FixedPiece::O1,
            FixedPiece::T1,
            FixedPiece::T2,
            FixedPiece::T3,
            FixedPiece::T4,
            FixedPiece::J1,
            FixedPiece::J2,
            FixedPiece::J3,
            FixedPiece::J4,
            FixedPiece::L1,
            FixedPiece::L2,
            FixedPiece::L3,
            FixedPiece::L4,
            FixedPiece::S1,
            FixedPiece::S2,
            FixedPiece::Z1,
            FixedPiece::Z2,
        ];
        r
    }

    /// Index of this shape in the canonical search order.
    pub fn index(self) -> (r: usize)
        ensures
            r == fp_index_spec(self),
    {
        match self {
            FixedPiece::I1 => 0,
            FixedPiece::I2 => 1,
            FixedPiece::O1 => 2,
            FixedPiece::T1 => 3,
            FixedPiece::T2 => 4,
            FixedPiece::T3 => 5,
            FixedPiece::T4 => 6,
            FixedPiece::J1 => 7,
            FixedPiece::J2 => 8,
            FixedPiece::J3 => 9,
            FixedPiece::J4 => 10,
            FixedPiece::L1 => 11,
            FixedPiece::L2 => 12,
            FixedPiece::L3 => 13,
            FixedPiece::L4 => 14,
            FixedPiece::S1 => 15,
            FixedPiece::S2 => 16,
            FixedPiece::Z1 => 17,
            FixedPiece::Z2 => 18,
        }
    }

    /// The shape at an index of the canonical search order.
    pub fn from_index(value: usize) -> (r: FixedPiece)
        requires
            value < 19,
        ensures
            fp_index_spec(r) == value,
    {
        match value {
            0 => FixedPiece::I1,
            1 => FixedPiece::I2,
            2 => FixedPiece::O1,
            3 => FixedPiece::T1,
            4 => FixedPiece::T2,
            5 => FixedPiece::T3,
            6 => FixedPiece::T4,
            7 => FixedPiece::J1,
            8 => FixedPiece::J2,
            9 => FixedPiece::J3,
            10 => FixedPiece::J4,
            11 => FixedPiece::L1,
            12 => FixedPiece::L2,
            13 => FixedPiece::L3,
            14 => FixedPiece::L4,
            15 => FixedPiece::S1,
            16 => FixedPiece::S2,
            17 => FixedPiece::Z1,
            _ => FixedPiece::Z2,
        }
    }
}

/// The three offsets of a fixed shape.
pub fn piece_shape(fixed_piece: FixedPiece) -> (r: [(i64, i64); 3])
    ensures
        forall|j: int|
            0 <= j < 3 ==> #[trigger] r@[j].0 == shape_spec(fp_index_spec(fixed_piece))[j].0
                && r@[j].1 == shape_spec(fp_index_spec(fixed_piece))[j].1,
{
    match fixed_piece {
        FixedPiece::I1 => [(1, 0), (2, 0), (3, 0)],
        FixedPiece::I2 => [(0, 1), (0, 2), (0, 3)],
        FixedPiece::O1 => [(0, 1), (1, 1), (1, 0)],
        FixedPiece::T1 => [(0, 1), (0, 2), (1, 1)],
        FixedPiece::T2 => [(1, 0), (1, -1), (2, 0)],
        FixedPiece::T3 => [(1, -1), (1, 0), (1, 1)],
        FixedPiece::T4 => [(1, 0), (1, 1), (2, 0)],
        FixedPiece::J1 => [(1, 0), (2, -1), (2, 0)],
        FixedPiece::J2 => [(1, 0), (1, 1), (1, 2)],
        FixedPiece::J3 => [(0, 1), (1, 0), (2, 0)],
        FixedPiece::J4 => [(0, 1), (0, 2), (1, 2)],
        FixedPiece::L1 => [(1, 0), (2, 0), (2, 1)],
        FixedPiece::L2 => [(0, 1), (0, 2), (1, 0)],
        FixedPiece::L3 => [(0, 1), (1, 1), (2, 1)],
        FixedPiece::L4 => [(1, -2), (1, -1), (1, 0)],
        FixedPiece::S1 => [(0, 1), (1, -1), (1, 0)],
        FixedPiece::S2 => [(1, 0), (1, 1), (2, 1)],
        FixedPiece::Z1 => [(0, 1), (1, 1), (1, 2)],
        FixedPiece::Z2 => [(1, -1), (1, 0), (2, -1)],
    }
}

/// The kind a fixed shape is a rotation of.
pub fn piece_of_fixed(fixed_piece: FixedPiece) -> (r: Piece)
    ensures
        r == piece_of_spec(fp_index_spec(fixed_piece)),
{
    match fixed_piece {
        FixedPiece::I1 | FixedPiece::I2 => Piece::I,
        FixedPiece::O1 => Piece::O,
        FixedPiece::T1 | FixedPiece::T2 | FixedPiece::T3 | FixedPiece::T4 => Piece::T,
        FixedPiece::J1 | FixedPiece::J2 | FixedPiece::J3 | FixedPiece::J4 => Piece::J,
        FixedPiece::L1 | FixedPiece::L2 | FixedPiece::L3 | FixedPiece::L4 => Piece::L,
        FixedPiece::S1 | FixedPiece::S2 => Piece::S,
        FixedPiece::Z1 | FixedPiece::Z2 => Piece::Z,
    }
}

/// The bit offset, from the anchor bit, of one shape offset on a board of the
/// given width.
pub open spec fn shape_shift(v: int, w: int, j: int) -> int {
    w * shape_spec(v)[j].0 + shape_spec(v)[j].1
}

/// The placement word of a fixed shape on a board of the given width: the
/// anchor bit plus one bit per offset. Zero when the shape cannot be laid out
/// within a 64-bit word at all, which marks the shape as never placeable.
pub open spec fn variant_bitmap(v: int, w: int) -> u64 {
    if (forall|j: int| 0 <= j < 3 ==> 0 <= #[trigger] shape_shift(v, w, j) <= 63) {
        1u64 | (1u64 << shape_shift(v, w, 0) as u64) | (1u64 << shape_shift(v, w, 1) as u64)
            | (1u64 << shape_shift(v, w, 2) as u64)
    } else {
        0u64
    }
}

} // verus!
