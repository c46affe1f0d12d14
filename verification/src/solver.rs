//! The deterministic backtracking search: starting from the lowest empty
//! cell, try the nineteen fixed shapes in their canonical order, recurse after
//! each successful placement, and undo it exactly when the branch fails. The
//! specification-level search `solve_from` is mirrored step for step by the
//! executable solver, so what the solver returns is a function of the board
//! and the piece counts alone.

use vstd::prelude::*;
use crate::board::{can_place, placement_word, Board, MAX_PIECE_COUNT};
use crate::pieces::{piece_index_spec, sum_counts, Piece, PieceCollection};
use crate::position::{render, Position};
use crate::shapes::{fp_index_spec, piece_of_fixed, piece_of_spec, FixedPiece};

verus! {

/// The outcome of the search from a given state: the rendering of the first
/// completed board found, or `None` when no branch completes it. `w` and `h`
/// are the board's outer width and height, `bits` its occupancy, `stack` its
/// applied placements, and `counts` the pieces still unplaced, by kind.
pub open spec fn solve_from(
    w: int,
    h: int,
    bits: u64,
    stack: Seq<(u64, Piece)>,
    counts: Seq<u32>,
) -> Option<Seq<u8>>
    decreases sum_counts(counts), 1int, 0int,
{
    if bits == u64::MAX {
        Some(render(w, h, stack))
    } else if counts.len() == 7 && sum_counts(counts) >= 0 {
        try_variants(w, h, bits, stack, counts, 0)
    } else {
        None
    }
}

/// The outcome of trying the shapes from canonical index `v` upward at the
/// current state: place the first shape of a still-available kind that fits,
/// recurse, and move on to the next shape when the branch fails.
pub open spec fn try_variants(
    w: int,
    h: int,
    bits: u64,
    stack: Seq<(u64, Piece)>,
    counts: Seq<u32>,
    v: int,
) -> Option<Seq<u8>>
    decreases sum_counts(counts), 0int, 19 - v,
{
    if v < 0 || v >= 19 || counts.len() != 7 || sum_counts(counts) <= 0 {
        None
    } else {
        let kind = piece_of_spec(v);
        let ki = piece_index_spec(kind);
        if counts[ki] > 0 && can_place(bits, w, v) {
            let word = placement_word(bits, w, v);
            let sub = solve_from(
                w,
                h,
                bits | word,
                stack.push((word, kind)),
                counts.update(ki, (counts[ki] - 1) as u32),
            );
            if sub is Some {
                sub
            } else {
                try_variants(w, h, bits, stack, counts, v + 1)
            }
        } else {
            try_variants(w, h, bits, stack, counts, v + 1)
        }
    }
}

/// The search state: a board and the pieces not yet placed.
pub struct Solver {
    pub board: Board,
    pub pieces: PieceCollection,
}

impl Solver {
    /// The solver invariant: both parts are well formed and the placed and
    /// unplaced pieces together never exceed the piece cap, so the placement
    /// stack always has room.
    pub open spec fn wf(&self) -> bool {
        &&& self.board.wf()
        &&& self.pieces.wf()
        &&& self.board.stack@.len() + sum_counts(self.pieces.counts@) <= MAX_PIECE_COUNT as int
    }

    /// The specification-level outcome of searching from this state.
    pub open spec fn outcome(&self) -> Option<Seq<u8>> {
        solve_from(
            self.board.width as int,
            self.board.height as int,
            self.board.bits,
            self.board.stack@,
            self.pieces.counts@,
        )
    }

    /// Pairs a board with the pieces to place on it.
    pub fn new(board: Board, pieces: PieceCollection) -> (r: Solver)
        requires
            board.wf(),
            pieces.wf(),
            board.stack@.len() + sum_counts(pieces.counts@) <= MAX_PIECE_COUNT as int,
        ensures
            r.wf(),
            r.board == board,
            r.pieces == pieces,
    {
        Solver { board, pieces }
    }

    /// Searches for one way to fill the whole board with the remaining
    /// pieces. Returns the rendered position of the first completed board in
    /// canonical search order, or `None` when none exists; the state is
    /// restored exactly when the search fails, and the outcome is a function
    /// of the starting state alone.
    pub fn solve_one(&mut self) -> (r: Option<Position>)
        requires
            old(self).wf(),
        ensures
            final(self).wf(),
            match r {
                Some(p) => {
                    &&& old(self).outcome() == Some(p.squares@)
                    &&& p.wf()
                    &&& p.row_count == old(self).board.height
                    &&& p.column_count == old(self).board.width - 1
                },
                None => {
                    &&& old(self).outcome() is None
                    &&& final(self).board.bits == old(self).board.bits
                    &&& final(self).board.stack@ == old(self).board.stack@
                    &&& final(self).board.width == old(self).board.width
                    &&& final(self).board.height == old(self).board.height
                    &&& final(self).board.bitmaps@ == old(self).board.bitmaps@
                    &&& final(self).pieces.counts@ == old(self).pieces.counts@
                },
            },
        decreases sum_counts(self.pieces.counts@),
    {
        let ghost w = self.board.width as int;
        let ghost h = self.board.height as int;
        let ghost bits0 = self.board.bits;
        let ghost stack0 = self.board.stack@;
        let ghost counts0 = self.pieces.counts@;

        if self.board.is_complete() {
            let p = self.board.position();
            return Some(p);
        }

        let total = self.pieces.count_all();
        if total == 0 {
            proof {
                assert(try_variants(w, h, bits0, stack0, counts0, 0) is None);
            }
            return None;
        }

        let variants = FixedPiece::array();
        for vi in 0..19usize
            invariant
                self.wf(),
                w == self.board.width as int,
                h == self.board.height as int,
                self.board.bits == bits0,
                self.board.stack@ == stack0,
                self.pieces.counts@ == counts0,
                bits0 == old(self).board.bits,
                stack0 == old(self).board.stack@,
                counts0 == old(self).pieces.counts@,
                w == old(self).board.width as int,
                h == old(self).board.height as int,
                bits0 != u64::MAX,
                sum_counts(counts0) > 0,
                forall|j: int| 0 <= j < 19 ==> fp_index_spec(#[trigger] variants@[j]) == j,
                try_variants(w, h, bits0, stack0, counts0, 0) == try_variants(
                    w,
                    h,
                    bits0,
                    stack0,
                    counts0,
                    vi as int,
                ),
        {
            let fixed_piece = variants[vi];
            let kind = piece_of_fixed(fixed_piece);
            let count = self.pieces.count(kind);
            if count > 0 {
                let pushed = self.board.push(fixed_piece);
                if pushed.is_ok() {
                    self.pieces.remove(kind);
                    let ghost word = placement_word(bits0, w, vi as int);
                    let ghost ki = piece_index_spec(kind);
                    proof {
                        assert(self.board.stack@ == stack0.push((word, kind)));
                        assert(self.pieces.counts@ == counts0.update(
                            ki,
                            (counts0[ki] - 1) as u32,
                        ));
                        assert(sum_counts(self.pieces.counts@) == sum_counts(counts0) - 1);
                    }
                    let sub = self.solve_one();
                    match sub {
                        Some(p) => {
                            proof {
                                assert(try_variants(w, h, bits0, stack0, counts0, vi as int)
                                    == Some(p.squares@));
                            }
                            return Some(p);
                        },
                        None => {
                            let popped = self.board.pop();
                            self.pieces.add(popped);
                            proof {
                                crate::bits::lemma_bit64_add_remove(bits0, word);
                                assert(self.board.bits == bits0);
                                assert(self.board.stack@ =~= stack0);
                                assert(self.pieces.counts@ =~= counts0);
                                assert(try_variants(w, h, bits0, stack0, counts0, vi as int)
                                    == try_variants(w, h, bits0, stack0, counts0, vi + 1));
                            }
                        },
                    }
                } else {
                    proof {
                        assert(try_variants(w, h, bits0, stack0, counts0, vi as int)
                            == try_variants(w, h, bits0, stack0, counts0, vi + 1));
                    }
                }
            } else {
                proof {
                    assert(try_variants(w, h, bits0, stack0, counts0, vi as int) == try_variants(
                        w,
                        h,
                        bits0,
                        stack0,
                        counts0,
                        vi + 1,
                    ));
                }
            }
        }
        proof {
            assert(try_variants(w, h, bits0, stack0, counts0, 19) is None);
        }
        None
    }
}

} // verus!
