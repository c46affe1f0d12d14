//! The library's general guarantees, stated once over the specification-level
//! model that the executable functions are proved against.

use vstd::prelude::*;
use crate::bits::{bit64, lemma_bit64_max};
use crate::board::{base_cell, lemma_word_cells, placed_as, wf_state};
use crate::pieces::{piece_index_spec, Piece};
use crate::position::{label_at, lemma_label_at_range, render, ROW_END, LETTER_A};
use crate::shapes::{piece_of_spec, shape_shift};
use crate::solver::{solve_from, try_variants};
use crate::solve_outcome;

verus! {

/// Determinism: the outcome of a search is a function of the dimensions and
/// the piece counts alone, so two solves of the same request return the same
/// result, bit for bit. Together with `solve_one`'s contract — its result
/// equals this outcome — two calls with identical arguments return identical
/// results.
pub proof fn lemma_solve_deterministic(
    rows1: int,
    cols1: int,
    counts1: Seq<u32>,
    rows2: int,
    cols2: int,
    counts2: Seq<u32>,
)
    requires
        rows1 == rows2,
        cols1 == cols2,
        counts1 == counts2,
    ensures
        solve_outcome(rows1, cols1, counts1) == solve_outcome(rows2, cols2, counts2),
{
}

/// The label of a cell no placement claims is the empty dot, and the label of
/// a cell that placement `k` claims — placements never overlapping — is
/// placement `k`'s letter.
pub proof fn lemma_label_at_iff(stack: Seq<(u64, Piece)>, i: int, k: int)
    requires
        stack.len() <= 12,
        0 <= k < stack.len(),
        forall|k1: int, k2: int, j: int|
            0 <= k1 < k2 < stack.len() ==> !(#[trigger] bit64(stack[k1].0, j) && #[trigger] bit64(
                stack[k2].0,
                j,
            )),
    ensures
        (label_at(stack, i) == LETTER_A + k) <==> bit64(stack[k].0, i),
    decreases stack.len(),
{
    let last = stack.len() - 1;
    lemma_label_at_range(stack.drop_last(), i);
    if bit64(stack.last().0, i) {
        if k < last {
            assert(!(bit64(stack[k].0, i) && bit64(stack[last].0, i)));
        }
    } else {
        if k == last {
            assert(label_at(stack, i) == label_at(stack.drop_last(), i));
        } else {
            assert(forall|k1: int, k2: int, j: int|
                0 <= k1 < k2 < stack.drop_last().len() ==> !(#[trigger] bit64(
                    stack.drop_last()[k1].0,
                    j,
                ) && #[trigger] bit64(stack.drop_last()[k2].0, j))) by {
                assert(forall|k1: int|
                    0 <= k1 < stack.len() - 1 ==> #[trigger] stack.drop_last()[k1] == stack[k1]);
            }
            lemma_label_at_iff(stack.drop_last(), i, k);
            assert(stack.drop_last()[k] == stack[k]);
        }
    }
}

/// Validity, coverage: in the rendering of a completed well-formed board,
/// every byte is either the newline closing a row — exactly at the sentinel
/// positions — or the letter of one of the placements; no cell is left empty.
pub proof fn lemma_complete_render_covered(
    w: int,
    h: int,
    bits: u64,
    bitmaps: Seq<u64>,
    stack: Seq<(u64, Piece)>,
    i: int,
)
    requires
        wf_state(w, h, bits, bitmaps, stack),
        bits == u64::MAX,
        0 <= i < w * h,
    ensures
        (render(w, h, stack)[i] == ROW_END) <==> (i % w == w - 1),
        i % w != w - 1 ==> LETTER_A <= render(w, h, stack)[i] < LETTER_A + stack.len(),
{
    lemma_label_at_range(stack, i);
    if i % w != w - 1 {
        assert(!base_cell(w, h, i));
        lemma_bit64_max();
        assert(bit64(bits, i));
        let k = choose|k: int| 0 <= k < stack.len() && #[trigger] bit64(stack[k].0, i);
        lemma_label_at_iff(stack, i, k);
        assert(render(w, h, stack)[i] == label_at(stack, i));
    }
}

/// Placement `k` of the stack lays shape `v` at anchor `off`: in the
/// rendering, the cells carrying its letter are exactly the anchor cell plus
/// the shape's three offsets scaled by the board width, and the placement's
/// recorded kind is that shape's kind.
pub open spec fn footprint_at(
    w: int,
    h: int,
    stack: Seq<(u64, Piece)>,
    k: int,
    v: int,
    off: u64,
) -> bool {
    &&& 0 <= v < 19
    &&& off < 64
    &&& stack[k].1 == piece_of_spec(v)
    &&& forall|i: int|
        0 <= i < w * h ==> ((#[trigger] render(w, h, stack)[i] == LETTER_A + k) <==> (i == off
            || i == off + shape_shift(v, w, 0) || i == off + shape_shift(v, w, 1) || i == off
            + shape_shift(v, w, 2)))
}

/// Validity, footprints: in the rendering of a well-formed board, every
/// placement's letter marks exactly one of the nineteen fixed shapes,
/// translated to some anchor, of that placement's kind.
pub proof fn lemma_label_footprint(
    w: int,
    h: int,
    bits: u64,
    bitmaps: Seq<u64>,
    stack: Seq<(u64, Piece)>,
    k: int,
)
    requires
        wf_state(w, h, bits, bitmaps, stack),
        0 <= k < stack.len(),
    ensures
        exists|v: int, off: u64| #[trigger] footprint_at(w, h, stack, k, v, off),
{
    let (v, off) = choose|v: int, off: u64| placed_as(stack[k], w, v, off);
    lemma_word_cells(stack[k].0, w, v, off);
    assert forall|i: int|
        0 <= i < w * h implies ((#[trigger] render(w, h, stack)[i] == LETTER_A + k) <==> (i == off
        || i == off + shape_shift(v, w, 0) || i == off + shape_shift(v, w, 1) || i == off
        + shape_shift(v, w, 2))) by {
        lemma_label_at_iff(stack, i, k);
        if bit64(stack[k].0, i) {
            assert(!base_cell(w, h, i));
            assert(render(w, h, stack)[i] == label_at(stack, i));
        }
        if i % w == w - 1 {
            assert(render(w, h, stack)[i] == ROW_END);
            assert(!bit64(stack[k].0, i));
        } else {
            assert(render(w, h, stack)[i] == label_at(stack, i));
        }
    }
    assert(footprint_at(w, h, stack, k, v, off));
}

/// Rendering round trip: the pretty rendering is derived from the plain cell
/// bytes alone. Two well-formed positions with the same plain bytes have the
/// same dimensions — the column count is where the first newline stands, and
/// the row count follows from the length — and therefore, by
/// `to_pretty_string`'s contract, the same pretty rendering, glyph for glyph.
pub proof fn lemma_pretty_from_plain(p1: &crate::position::Position, p2: &crate::position::Position)
    requires
        p1.wf(),
        p2.wf(),
        1 <= p1.row_count,
        1 <= p2.row_count,
        p1.squares@ == p2.squares@,
    ensures
        p1.column_count == p2.column_count,
        p1.row_count == p2.row_count,
        crate::position::pretty_of(p1.squares@, p1.column_count as int, p1.row_count as int)
            == crate::position::pretty_of(
            p2.squares@,
            p2.column_count as int,
            p2.row_count as int,
        ),
{
    let c1 = p1.column_count as int;
    let c2 = p2.column_count as int;
    let h1 = p1.row_count as int;
    let h2 = p2.row_count as int;
    assert(c1 + 1 <= (c1 + 1) * h1) by (nonlinear_arith)
        requires 1 <= h1 && 0 <= c1;
    assert(c2 + 1 <= (c2 + 1) * h2) by (nonlinear_arith)
        requires 1 <= h2 && 0 <= c2;
    if c1 < c2 {
        vstd::arithmetic::div_mod::lemma_small_mod(c1 as nat, (c1 + 1) as nat);
        vstd::arithmetic::div_mod::lemma_small_mod(c1 as nat, (c2 + 1) as nat);
        assert(p1.squares@[c1] == ROW_END);
        assert(p2.squares@[c1] != ROW_END);
    }
    if c2 < c1 {
        vstd::arithmetic::div_mod::lemma_small_mod(c2 as nat, (c2 + 1) as nat);
        vstd::arithmetic::div_mod::lemma_small_mod(c2 as nat, (c1 + 1) as nat);
        assert(p2.squares@[c2] == ROW_END);
        assert(p1.squares@[c2] != ROW_END);
    }
    assert(c1 == c2);
    assert(h1 == h2) by (nonlinear_arith)
        requires (c1 + 1) * h1 == (c1 + 1) * h2 && 0 <= c1;
}

/// How many entries of a placement stack carry the kind with the given index.
pub open spec fn stack_kind_count(stack: Seq<(u64, Piece)>, ki: int) -> int
    decreases stack.len(),
{
    if stack.len() == 0 {
        0
    } else {
        stack_kind_count(stack.drop_last(), ki) + (if piece_index_spec(stack.last().1) == ki {
            1int
        } else {
            0int
        })
    }
}

/// Validity, pieces: a successful search returns the rendering of a completed
/// well-formed board whose placement stack extends the starting stack, and
/// the kinds the search adds are drawn from the available counts: kind by
/// kind, no more pieces are added than the counts held.
pub proof fn lemma_solution_pieces(
    w: int,
    h: int,
    bits: u64,
    bitmaps: Seq<u64>,
    stack: Seq<(u64, Piece)>,
    counts: Seq<u32>,
    sq: Seq<u8>,
)
    requires
        wf_state(w, h, bits, bitmaps, stack),
        stack.len() + crate::pieces::sum_counts(counts) <= 12,
        solve_from(w, h, bits, stack, counts) == Some(sq),
        counts.len() == 7,
    ensures
        exists|ext: Seq<(u64, Piece)>|
            {
                &&& sq == render(w, h, ext)
                &&& wf_state(w, h, u64::MAX, bitmaps, ext)
                &&& ext.len() >= stack.len()
                &&& #[trigger] ext.take(stack.len() as int) == stack
                &&& forall|ki: int|
                    0 <= ki < 7 ==> stack_kind_count(ext, ki) - stack_kind_count(stack, ki)
                        <= counts[ki]
            },
    decreases crate::pieces::sum_counts(counts), 1int, 0int,
{
    if bits == u64::MAX {
        let ext = stack;
        assert(ext.take(stack.len() as int) =~= stack);
        assert(forall|ki: int| 0 <= ki < 7 ==> counts[ki] >= 0);
    } else {
        lemma_try_variants_pieces(w, h, bits, bitmaps, stack, counts, 0, sq);
    }
}

/// The companion of [`lemma_solution_pieces`] for the shape-trying loop.
pub proof fn lemma_try_variants_pieces(
    w: int,
    h: int,
    bits: u64,
    bitmaps: Seq<u64>,
    stack: Seq<(u64, Piece)>,
    counts: Seq<u32>,
    v: int,
    sq: Seq<u8>,
)
    requires
        wf_state(w, h, bits, bitmaps, stack),
        stack.len() + crate::pieces::sum_counts(counts) <= 12,
        bits != u64::MAX,
        try_variants(w, h, bits, stack, counts, v) == Some(sq),
        counts.len() == 7,
    ensures
        exists|ext: Seq<(u64, Piece)>|
            {
                &&& sq == render(w, h, ext)
                &&& wf_state(w, h, u64::MAX, bitmaps, ext)
                &&& ext.len() >= stack.len()
                &&& #[trigger] ext.take(stack.len() as int) == stack
                &&& forall|ki: int|
                    0 <= ki < 7 ==> stack_kind_count(ext, ki) - stack_kind_count(stack, ki)
                        <= counts[ki]
            },
    decreases crate::pieces::sum_counts(counts), 0int, 19 - v,
{
    let kind = piece_of_spec(v);
    let ki = piece_index_spec(kind);
    if counts[ki] > 0 && crate::board::can_place(bits, w, v) {
        let word = crate::board::placement_word(bits, w, v);
        let off = vstd::std_specs::bits::u64_trailing_zeros(!bits) as u64;
        assert(off < 64) by {
            vstd::std_specs::bits::axiom_u64_trailing_zeros(!bits);
            assert(bits != u64::MAX ==> !bits != 0u64) by (bit_vector);
        }
        assert(crate::board::placed_as((word, kind), w, v, off));
        crate::board::lemma_push_wf(w, h, bits, bitmaps, stack, word, kind, v, off);
        let stack1 = stack.push((word, kind));
        let counts1 = counts.update(ki, (counts[ki] - 1) as u32);
        let sub = solve_from(w, h, bits | word, stack1, counts1);
        if sub == Some(sq) {
            lemma_solution_pieces(w, h, bits | word, bitmaps, stack1, counts1, sq);
            let ext = choose|ext: Seq<(u64, Piece)>|
                {
                    &&& sq == render(w, h, ext)
                    &&& wf_state(w, h, u64::MAX, bitmaps, ext)
                    &&& ext.len() >= stack1.len()
                    &&& #[trigger] ext.take(stack1.len() as int) == stack1
                    &&& forall|ki2: int|
                        0 <= ki2 < 7 ==> stack_kind_count(ext, ki2) - stack_kind_count(
                            stack1,
                            ki2,
                        ) <= counts1[ki2]
                };
            assert(ext.take(stack.len() as int) =~= stack) by {
                assert(ext.take(stack1.len() as int) == stack1);
                assert(forall|j: int|
                    0 <= j < stack.len() ==> ext.take(stack1.len() as int)[j] == #[trigger] ext[j]);
            }
            assert forall|ki2: int|
                0 <= ki2 < 7 implies stack_kind_count(ext, ki2) - stack_kind_count(stack, ki2)
                <= counts[ki2] by {
                lemma_stack_kind_count_push(stack, (word, kind), ki2);
            }
        } else {
            lemma_try_variants_pieces(w, h, bits, bitmaps, stack, counts, v + 1, sq);
        }
    } else {
        lemma_try_variants_pieces(w, h, bits, bitmaps, stack, counts, v + 1, sq);
    }
}

/// Appending one placement raises its kind's count by one and no other.
proof fn lemma_stack_kind_count_push(stack: Seq<(u64, Piece)>, entry: (u64, Piece), ki: int)
    ensures
        stack_kind_count(stack.push(entry), ki) == stack_kind_count(stack, ki) + (
        if piece_index_spec(entry.1) == ki {
            1int
        } else {
            0int
        }),
{
    assert(stack.push(entry).drop_last() =~= stack);
    assert(stack.push(entry).last() == entry);
}


/// The set of cell indices a placement word claims.
pub open spec fn word_cells(bm: u64) -> Set<int> {
    Set::new(|i: int| bit64(bm, i))
}

/// The real cells of a board: inside the area and outside the sentinel
/// column.
pub open spec fn real_cells(w: int, h: int) -> Set<int> {
    Set::new(|i: int| 0 <= i < w * h && i % w != w - 1)
}

/// The cells claimed by all placements of a stack together.
pub open spec fn stack_cells(stack: Seq<(u64, Piece)>) -> Set<int>
    decreases stack.len(),
{
    if stack.len() == 0 {
        Set::empty()
    } else {
        stack_cells(stack.drop_last()) + word_cells(stack.last().0)
    }
}

/// A placement word claims at most four cells.
proof fn lemma_word_cells_len(entry: (u64, Piece), w: int)
    requires
        crate::board::placed_entry(entry, w),
    ensures
        word_cells(entry.0).finite(),
        word_cells(entry.0).len() <= 4,
{
    let (v, off) = choose|v: int, off: u64| placed_as(entry, w, v, off);
    lemma_word_cells(entry.0, w, v, off);
    let four = Set::empty().insert(off as int).insert(off + shape_shift(v, w, 0)).insert(
        off + shape_shift(v, w, 1),
    ).insert(off + shape_shift(v, w, 2));
    assert(word_cells(entry.0) =~= four);
    assert(four.finite());
    assert(four.len() <= 4) by {
        assert(Set::<int>::empty().len() == 0);
        assert(Set::<int>::empty().insert(off as int).len() <= 1);
        assert(Set::<int>::empty().insert(off as int).insert(off + shape_shift(v, w, 0)).len()
            <= 2);
        assert(Set::<int>::empty().insert(off as int).insert(off + shape_shift(v, w, 0)).insert(
            off + shape_shift(v, w, 1),
        ).len() <= 3);
    }
}

/// The real cells of a board number its rows times its puzzle columns.
proof fn lemma_real_cells_len(w: int, h: int)
    requires
        1 <= w,
        0 <= h,
    ensures
        real_cells(w, h).finite(),
        real_cells(w, h).len() == (w - 1) * h,
    decreases h,
{
    if h == 0 {
        assert(real_cells(w, 0) =~= Set::<int>::empty()) by {
            assert forall|i: int| !real_cells(w, 0).contains(i) by {
                assert(0 * w == 0) by (nonlinear_arith);
                assert(w * 0 == 0) by (nonlinear_arith);
            }
        }
        assert((w - 1) * 0 == 0) by (nonlinear_arith);
    } else {
        lemma_real_cells_len(w, h - 1);
        let row_lo = (h - 1) * w;
        let row = vstd::set_lib::set_int_range(row_lo, row_lo + (w - 1));
        vstd::set_lib::lemma_int_range(row_lo, row_lo + (w - 1));
        assert(w * (h - 1) == (h - 1) * w) by (nonlinear_arith);
        assert(w * h == (h - 1) * w + w) by (nonlinear_arith);
        assert(real_cells(w, h) =~= real_cells(w, h - 1) + row) by {
            assert forall|i: int|
                real_cells(w, h).contains(i) == (real_cells(w, h - 1).contains(i)
                || row.contains(i)) by {
                if row_lo <= i < (h - 1) * w + w {
                    let t = i - row_lo;
                    vstd::arithmetic::div_mod::lemma_mod_multiples_vanish(h - 1, t, w);
                    vstd::arithmetic::div_mod::lemma_small_mod(t as nat, w as nat);
                    assert(i % w == t);
                }
            }
        }
        assert(real_cells(w, h - 1).disjoint(row)) by {
            assert forall|i: int| !(real_cells(w, h - 1).contains(i) && row.contains(i)) by {
                assert(w * (h - 1) == (h - 1) * w) by (nonlinear_arith);
            }
        }
        vstd::set_lib::lemma_set_disjoint_lens(real_cells(w, h - 1), row);
        assert((w - 1) * (h - 1) + (w - 1) == (w - 1) * h) by (nonlinear_arith);
    }
}

/// A cell is claimed by the stack exactly when some placement claims it.
proof fn lemma_stack_cells_contains(stack: Seq<(u64, Piece)>, i: int)
    ensures
        stack_cells(stack).contains(i) <==> exists|k: int|
            0 <= k < stack.len() && #[trigger] bit64(stack[k].0, i),
    decreases stack.len(),
{
    if stack.len() > 0 {
        lemma_stack_cells_contains(stack.drop_last(), i);
        let last = stack.len() - 1;
        if stack_cells(stack).contains(i) {
            if word_cells(stack.last().0).contains(i) {
                assert(bit64(stack[last].0, i));
            } else {
                let k = choose|k: int|
                    0 <= k < stack.drop_last().len() && #[trigger] bit64(
                        stack.drop_last()[k].0,
                        i,
                    );
                assert(stack.drop_last()[k] == stack[k]);
            }
        }
        if exists|k: int| 0 <= k < stack.len() && #[trigger] bit64(stack[k].0, i) {
            let k = choose|k: int| 0 <= k < stack.len() && #[trigger] bit64(stack[k].0, i);
            if k == last {
                assert(word_cells(stack.last().0).contains(i));
            } else {
                assert(stack.drop_last()[k] == stack[k]);
                assert(bit64(stack.drop_last()[k].0, i));
            }
        }
    }
}

/// Non-overlapping placements claim at most four cells each, so a stack
/// claims at most four cells per placement; and a stack of placements that
/// each claim exactly four cells claims exactly four per placement.
proof fn lemma_stack_cells_len(stack: Seq<(u64, Piece)>, w: int)
    requires
        forall|k: int| 0 <= k < stack.len() ==> crate::board::placed_entry(#[trigger] stack[k], w),
        forall|k1: int, k2: int, j: int|
            0 <= k1 < k2 < stack.len() ==> !(#[trigger] bit64(stack[k1].0, j) && #[trigger] bit64(
                stack[k2].0,
                j,
            )),
    ensures
        stack_cells(stack).finite(),
        stack_cells(stack).len() <= 4 * stack.len(),
        (forall|k: int|
            0 <= k < stack.len() ==> word_cells(#[trigger] stack[k].0).len() == 4)
            ==> stack_cells(stack).len() == 4 * stack.len(),
    decreases stack.len(),
{
    if stack.len() == 0 {
    } else {
        let prefix = stack.drop_last();
        let last = stack.len() - 1;
        assert(forall|k: int|
            0 <= k < prefix.len() ==> #[trigger] prefix[k] == stack[k]);
        lemma_stack_cells_len(prefix, w);
        lemma_word_cells_len(stack[last], w);
        assert(stack_cells(prefix).disjoint(word_cells(stack.last().0))) by {
            assert forall|i: int|
                !(stack_cells(prefix).contains(i) && word_cells(stack.last().0).contains(
                    i,
                )) by {
                lemma_stack_cells_contains(prefix, i);
                if stack_cells(prefix).contains(i) {
                    let k = choose|k: int|
                        0 <= k < prefix.len() && #[trigger] bit64(prefix[k].0, i);
                    assert(!(bit64(stack[k].0, i) && bit64(stack[last].0, i)));
                }
            }
        }
        vstd::set_lib::lemma_set_disjoint_lens(stack_cells(prefix), word_cells(stack.last().0));
        if forall|k: int| 0 <= k < stack.len() ==> word_cells(#[trigger] stack[k].0).len() == 4 {
            assert(word_cells(stack[last].0).len() == 4);
            assert(forall|k: int|
                0 <= k < prefix.len() ==> word_cells(#[trigger] prefix[k].0).len() == 4);
        }
    }
}

/// The kind counts of a stack sum to its length.
proof fn lemma_stack_kind_count_total(stack: Seq<(u64, Piece)>)
    ensures
        stack_kind_count(stack, 0) + stack_kind_count(stack, 1) + stack_kind_count(stack, 2)
            + stack_kind_count(stack, 3) + stack_kind_count(stack, 4) + stack_kind_count(stack, 5)
            + stack_kind_count(stack, 6) == stack.len(),
        forall|ki: int| 0 <= ki < 7 ==> 0 <= #[trigger] stack_kind_count(stack, ki),
    decreases stack.len(),
{
    if stack.len() > 0 {
        lemma_stack_kind_count_total(stack.drop_last());
        assert(0 <= piece_index_spec(stack.last().1) < 7);
    }
}

/// Validity, exact cover: a solution of a validated request — four times the
/// piece total equals the board's square count — uses every input piece
/// exactly once, kind by kind, and every placement covers exactly four cells.
pub proof fn lemma_solution_exact_cover(rows: int, cols: int, counts: Seq<u32>, sq: Seq<u8>)
    requires
        1 <= rows,
        1 <= cols,
        (cols + 1) * rows <= 64,
        counts.len() == 7,
        crate::pieces::sum_counts(counts) <= 12,
        4 * crate::pieces::sum_counts(counts) == rows * cols,
        solve_outcome(rows, cols, counts) == Some(sq),
    ensures
        exists|ext: Seq<(u64, Piece)>|
            {
                &&& sq == render(cols + 1, rows, ext)
                &&& wf_state(
                    cols + 1,
                    rows,
                    u64::MAX,
                    Seq::new(19, |v: int| crate::shapes::variant_bitmap(v, cols + 1)),
                    ext,
                )
                &&& #[trigger] ext.len() == crate::pieces::sum_counts(counts)
                &&& forall|ki: int|
                    0 <= ki < 7 ==> stack_kind_count(ext, ki) == counts[ki]
                &&& forall|k: int|
                    0 <= k < ext.len() ==> word_cells(#[trigger] ext[k].0).len() == 4
            },
{
    let w = cols + 1;
    let h = rows;
    let total = crate::pieces::sum_counts(counts);
    let bitmaps = Seq::new(19, |v: int| crate::shapes::variant_bitmap(v, w));
    lemma_init_state_wf(w, h);
    lemma_solution_pieces(
        w,
        h,
        crate::board::init_bits(w, h),
        bitmaps,
        Seq::empty(),
        counts,
        sq,
    );
    let ext = choose|ext: Seq<(u64, Piece)>|
        {
            &&& sq == render(w, h, ext)
            &&& wf_state(w, h, u64::MAX, bitmaps, ext)
            &&& ext.len() >= 0
            &&& #[trigger] ext.take(0) == Seq::<(u64, Piece)>::empty()
            &&& forall|ki: int|
                0 <= ki < 7 ==> stack_kind_count(ext, ki) - stack_kind_count(
                    Seq::<(u64, Piece)>::empty(),
                    ki,
                ) <= counts[ki]
        };
    // The stack's cells are exactly the real cells of the completed board.
    assert(stack_cells(ext) =~= real_cells(w, h)) by {
        assert forall|i: int| stack_cells(ext).contains(i) == real_cells(w, h).contains(i) by {
            lemma_stack_cells_contains(ext, i);
            if real_cells(w, h).contains(i) {
                assert(i < 64);
                assert(!base_cell(w, h, i));
                lemma_bit64_max();
                assert(bit64(u64::MAX, i));
            }
            if exists|k: int| 0 <= k < ext.len() && #[trigger] bit64(ext[k].0, i) {
                let k = choose|k: int| 0 <= k < ext.len() && #[trigger] bit64(ext[k].0, i);
                assert(!base_cell(w, h, i));
                assert(0 <= i < 64);
            }
        }
    }
    lemma_real_cells_len(w, h);
    lemma_stack_cells_len(ext, w);
    assert((w - 1) * h == rows * cols) by (nonlinear_arith)
        requires w == cols + 1 && h == rows;
    // Squeeze: the board's real cells number four per input piece, each
    // placement covers at most four, and no more placements were made than
    // pieces were available.
    lemma_stack_kind_count_total(ext);
    assert(ext.len() <= total);
    assert(4 * total == stack_cells(ext).len());
    assert(ext.len() == total);
    assert forall|ki: int| 0 <= ki < 7 implies stack_kind_count(ext, ki) == counts[ki] by {
        assert(forall|ki2: int| 0 <= ki2 < 7 ==> counts[ki2] >= 0);
    }
    assert forall|k: int|
        0 <= k < ext.len() implies word_cells(#[trigger] ext[k].0).len() == 4 by {
        lemma_exact_four(ext, w, k);
    }
}

/// When a stack's cells number four per placement, every placement covers
/// exactly four cells: one covering fewer would make the total fall short.
proof fn lemma_exact_four(stack: Seq<(u64, Piece)>, w: int, k: int)
    requires
        forall|k2: int|
            0 <= k2 < stack.len() ==> crate::board::placed_entry(#[trigger] stack[k2], w),
        forall|k1: int, k2: int, j: int|
            0 <= k1 < k2 < stack.len() ==> !(#[trigger] bit64(stack[k1].0, j) && #[trigger] bit64(
                stack[k2].0,
                j,
            )),
        stack_cells(stack).len() == 4 * stack.len(),
        0 <= k < stack.len(),
    ensures
        word_cells(stack[k].0).len() == 4,
    decreases stack.len(),
{
    let prefix = stack.drop_last();
    let last = stack.len() - 1;
    assert(forall|k2: int| 0 <= k2 < prefix.len() ==> #[trigger] prefix[k2] == stack[k2]);
    lemma_stack_cells_len(prefix, w);
    lemma_word_cells_len(stack[last], w);
    assert(stack_cells(prefix).disjoint(word_cells(stack.last().0))) by {
        assert forall|i: int|
            !(stack_cells(prefix).contains(i) && word_cells(stack.last().0).contains(i)) by {
            lemma_stack_cells_contains(prefix, i);
            if stack_cells(prefix).contains(i) {
                let k2 = choose|k2: int|
                    0 <= k2 < prefix.len() && #[trigger] bit64(prefix[k2].0, i);
                assert(!(bit64(stack[k2].0, i) && bit64(stack[last].0, i)));
            }
        }
    }
    vstd::set_lib::lemma_set_disjoint_lens(stack_cells(prefix), word_cells(stack.last().0));
    assert(stack_cells(prefix).len() == 4 * prefix.len());
    if k < last {
        lemma_exact_four(prefix, w, k);
        assert(prefix[k] == stack[k]);
    }
}

/// A fresh board state is well formed: its occupancy word holds exactly the
/// border, and no placements have been made.
proof fn lemma_init_state_wf(w: int, h: int)
    requires
        2 <= w,
        1 <= h,
        w * h <= 64,
    ensures
        wf_state(
            w,
            h,
            crate::board::init_bits(w, h),
            Seq::new(19, |v: int| crate::shapes::variant_bitmap(v, w)),
            Seq::empty(),
        ),
{
    crate::board::lemma_init_bits_char(w, h);
}

} // verus!
