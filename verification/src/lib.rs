//! Solver for exact tilings of a rectangular grid by one-sided tetrominoes.
//!
//! A board is a 64-bit bitboard with a sentinel column after each row; the
//! solver is a deterministic backtracking search that always fills the lowest
//! empty square next. `solve_one` validates a request, runs the search, and
//! returns one rendered tiling when any exists.

pub mod bits;
pub mod pieces;
pub mod shapes;
pub mod position;
pub mod board;
pub mod solver;
pub mod laws;
pub mod sigil;

pub use board::{Board, MAX_PIECE_COUNT};
pub use pieces::{ParsePieceCollectionError, Piece, PieceCollection};
pub use position::Position;
pub use shapes::FixedPiece;
pub use sigil::{classify_shape, Rect};
pub use solver::Solver;

use vstd::prelude::*;
use crate::board::init_bits;
use crate::pieces::sum_counts;
use crate::solver::solve_from;

verus! {

/// The reason a request is rejected before any search begins.
#[derive(Debug)]
pub enum SolveOneError {
    /// The number of squares on the board is not a multiple of four.
    InvalidBoardSize,
    /// The number of squares differs from four times the number of pieces.
    InconsistentPieceCount,
    /// The number of pieces exceeds `MAX_PIECE_COUNT`.
    PieceCountOverLimit,
}

/// The validation verdict for a request, checked in this order: the board's
/// square count must be a multiple of four, the pieces must cover it exactly,
/// and the piece count must stay within the cap.
pub open spec fn validation_error(rows: int, cols: int, total: int) -> Option<SolveOneError> {
    if (rows * cols) % 4 != 0 {
        Some(SolveOneError::InvalidBoardSize)
    } else if 4 * total != rows * cols {
        Some(SolveOneError::InconsistentPieceCount)
    } else if total > MAX_PIECE_COUNT as int {
        Some(SolveOneError::PieceCountOverLimit)
    } else {
        None
    }
}

/// The outcome of the whole search on a fresh board of the given dimensions:
/// the plain rendering of the first tiling in canonical search order, or
/// `None` when no tiling exists.
pub open spec fn solve_outcome(rows: int, cols: int, counts: Seq<u32>) -> Option<Seq<u8>> {
    solve_from(cols + 1, rows, init_bits(cols + 1, rows), Seq::empty(), counts)
}

/// Solves one tiling request: checks the three validation rules, and then
/// searches a fresh `row_count` by `column_count` board for a tiling by the
/// given pieces. A well-formed but unsatisfiable request is `Ok(None)`, not an
/// error. The board must fit the solver's 64-bit occupancy word: its area,
/// sentinel column included, is at most 64 cells.
pub fn solve_one(row_count: u32, column_count: u32, pieces: PieceCollection) -> (r: Result<
    Option<Position>,
    SolveOneError,
>)
    requires
        pieces.wf(),
        1 <= row_count,
        1 <= column_count,
        (column_count as int + 1) * row_count as int <= 64,
    ensures
        match r {
            Err(e) => validation_error(
                row_count as int,
                column_count as int,
                sum_counts(pieces.counts@),
            ) == Some(e),
            Ok(sol) => validation_error(
                row_count as int,
                column_count as int,
                sum_counts(pieces.counts@),
            ) is None && match sol {
                None => solve_outcome(row_count as int, column_count as int, pieces.counts@)
                    is None,
                Some(p) => {
                    &&& solve_outcome(row_count as int, column_count as int, pieces.counts@)
                        == Some(p.squares@)
                    &&& p.wf()
                    &&& p.row_count == row_count
                    &&& p.column_count == column_count
                },
            },
        },
{
    let ghost rc = row_count as int;
    let ghost cc = column_count as int;
    proof {
        assert(rc * cc < (cc + 1) * rc) by (nonlinear_arith)
            requires 1 <= rc && 1 <= cc;
    }
    let square_count = (row_count as u64) * (column_count as u64);
    if square_count % 4 != 0 {
        return Err(SolveOneError::InvalidBoardSize);
    }
    let piece_count = pieces.count_all();
    if 4 * (piece_count as u64) != square_count {
        return Err(SolveOneError::InconsistentPieceCount);
    }
    if piece_count > 12 {
        return Err(SolveOneError::PieceCountOverLimit);
    }

    let board = Board::new(row_count, column_count);
    let mut solver = Solver::new(board, pieces);
    let solution = solver.solve_one();
    Ok(solution)
}

} // verus!
