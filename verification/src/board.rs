//! The bitboard: a 64-bit occupancy word over a grid of `height` rows of
//! `width` cells, where `width` counts the puzzle's columns plus one sentinel
//! column on the right. Sentinel bits and every bit at or beyond the board's
//! area are permanently set, so no placement can ever claim them; in
//! particular a shape shifted to the end of a row collides with the sentinel
//! instead of wrapping into the next row.

use vstd::prelude::*;
use vstd::std_specs::bits::{axiom_u64_trailing_zeros, u64_trailing_zeros};
use crate::bits::{
    bit64, lemma_bit64_andnot, lemma_bit64_disjoint, lemma_bit64_max_shl, lemma_bit64_or,
    lemma_bit64_shl, lemma_bit64_shl_lossless, lemma_bit64_single,
};
use crate::pieces::Piece;
use crate::position::{label_at, lemma_label_at_range, render, Position, EMPTY_CELL, LETTER_A, ROW_END};
use crate::shapes::{
    fp_index_spec, piece_of_fixed, piece_of_spec, piece_shape, shape_shift, shape_spec,
    variant_bitmap, FixedPiece,
};

verus! {

/// The most pieces a board will ever hold.
pub const MAX_PIECE_COUNT: usize = 12;

/// A cell index the board itself occupies: beyond the area, or in the
/// sentinel column.
pub open spec fn base_cell(w: int, h: int, i: int) -> bool {
    i >= w * h || i % w == w - 1
}

/// The sentinel bits of the first `row` rows: one bit at the end of each row.
pub open spec fn sentinel_bits(w: int, row: int) -> u64
    decreases row,
{
    if row <= 0 {
        0u64
    } else {
        sentinel_bits(w, row - 1) | (1u64 << (((row - 1) * w + (w - 1)) as u64))
    }
}

/// The padding bits: everything at or beyond the board's area.
pub open spec fn pad_bits(w: int, h: int) -> u64 {
    if w * h < 64 {
        u64::MAX << ((w * h) as u64)
    } else {
        0u64
    }
}

/// The occupancy word of a fresh board: padding plus sentinels.
pub open spec fn init_bits(w: int, h: int) -> u64 {
    pad_bits(w, h) | sentinel_bits(w, h)
}

/// A placement word laid at offset `off`: the bitmap of shape `v`, shifted up
/// without losing a bit, on a board of outer width `w`.
pub open spec fn placed_as(entry: (u64, Piece), w: int, v: int, off: u64) -> bool {
    &&& 0 <= v < 19
    &&& off < 64
    &&& variant_bitmap(v, w) != 0
    &&& entry.0 == variant_bitmap(v, w) << off
    &&& (entry.0 >> off) == variant_bitmap(v, w)
    &&& entry.1 == piece_of_spec(v)
}

/// The entry places some shape somewhere, and is labeled with that shape's kind.
pub open spec fn placed_entry(entry: (u64, Piece), w: int) -> bool {
    exists|v: int, off: u64| placed_as(entry, w, v, off)
}

/// The placement word of laying shape `v` with its anchor on the lowest
/// empty cell of a board with the given occupancy.
pub open spec fn placement_word(bits: u64, w: int, v: int) -> u64 {
    variant_bitmap(v, w) << (u64_trailing_zeros(!bits) as u64)
}

/// Whether laying shape `v` with its anchor on the lowest empty cell succeeds:
/// the shape must be representable, stay within the 64-bit word, and overlap
/// nothing already occupied — a border bit or another piece.
pub open spec fn can_place(bits: u64, w: int, v: int) -> bool {
    let bm = variant_bitmap(v, w);
    let off = u64_trailing_zeros(!bits) as u64;
    &&& bm != 0
    &&& ((bm << off) >> off) == bm
    &&& (bits & (bm << off)) == 0
}

/// A puzzle board.
pub struct Board {
    /// The outer width: the puzzle's column count plus the sentinel column.
    pub width: usize,
    /// The puzzle's row count.
    pub height: usize,
    /// The occupancy word, one bit per cell.
    pub bits: u64,
    /// The placement word of each shape when anchored at bit zero.
    pub bitmaps: Vec<u64>,
    /// The placements applied so far, in order, each with its piece kind.
    pub stack: Vec<(u64, Piece)>,
}

/// The board invariant over its parts: the dimensions fit the 64-bit word,
/// the precomputed bitmaps match the shape table, every applied placement
/// lays a shape on free cells away from the border, placements never overlap,
/// and the occupancy word holds exactly the border plus the applied
/// placements.
pub open spec fn wf_state(w: int, h: int, bits: u64, bitmaps: Seq<u64>, stack: Seq<(u64, Piece)>) -> bool {
    &&& 2 <= w
    &&& 1 <= h
    &&& w * h <= 64
    &&& bitmaps.len() == 19
    &&& forall|v: int| 0 <= v < 19 ==> bitmaps[v] == variant_bitmap(v, w)
    &&& stack.len() <= MAX_PIECE_COUNT
    &&& forall|k: int| 0 <= k < stack.len() ==> placed_entry(#[trigger] stack[k], w)
    &&& forall|k: int, i: int|
        0 <= k < stack.len() && #[trigger] bit64(stack[k].0, i) ==> !base_cell(w, h, i)
    &&& forall|k1: int, k2: int, i: int|
        0 <= k1 < k2 < stack.len() ==> !(#[trigger] bit64(stack[k1].0, i) && #[trigger] bit64(
            stack[k2].0,
            i,
        ))
    &&& forall|i: int|
        0 <= i < 64 ==> (#[trigger] bit64(bits, i) == (base_cell(w, h, i) || exists|k: int|
            0 <= k < stack.len() && #[trigger] bit64(stack[k].0, i)))
}

impl Board {
    /// The board invariant.
    pub open spec fn wf(&self) -> bool {
        wf_state(self.width as int, self.height as int, self.bits, self.bitmaps@, self.stack@)
    }
}

/// Laying a placeable shape on the lowest empty cell preserves the board
/// invariant.
pub proof fn lemma_push_wf(
    w: int,
    h: int,
    bits: u64,
    bitmaps: Seq<u64>,
    stack: Seq<(u64, Piece)>,
    shifted: u64,
    kind: Piece,
    v: int,
    off: u64,
)
    requires
        wf_state(w, h, bits, bitmaps, stack),
        stack.len() < MAX_PIECE_COUNT,
        placed_as((shifted, kind), w, v, off),
        bits & shifted == 0,
    ensures
        wf_state(w, h, bits | shifted, bitmaps, stack.push((shifted, kind))),
{
    lemma_bit64_disjoint(bits, shifted);
    lemma_bit64_or(bits, shifted);
    let stack1 = stack.push((shifted, kind));
    let bits1 = bits | shifted;
    assert forall|i: int| #[trigger] bit64(shifted, i) implies !base_cell(w, h, i) by {
        if base_cell(w, h, i) && 0 <= i < 64 {
            assert(bit64(bits, i));
        }
    }
    assert forall|k: int| 0 <= k < stack1.len() implies placed_entry(#[trigger] stack1[k], w) by {
        if k < stack.len() {
            assert(stack1[k] == stack[k]);
        }
    }
    assert forall|k1: int, k2: int, i: int|
        0 <= k1 < k2 < stack1.len() implies !(#[trigger] bit64(stack1[k1].0, i)
        && #[trigger] bit64(stack1[k2].0, i)) by {
        if k2 < stack.len() {
            assert(stack1[k1] == stack[k1] && stack1[k2] == stack[k2]);
        } else {
            assert(stack1[k1] == stack[k1] && stack1[k2] == (shifted, kind));
            if bit64(stack[k1].0, i) {
                assert(bit64(bits, i));
            }
        }
    }
    assert forall|i: int|
        0 <= i < 64 implies (#[trigger] bit64(bits1, i) == (base_cell(w, h, i) || exists|k: int|
        0 <= k < stack1.len() && #[trigger] bit64(stack1[k].0, i))) by {
        if bit64(bits1, i) {
            if bit64(bits, i) {
                if !base_cell(w, h, i) {
                    let k = choose|k: int| 0 <= k < stack.len() && #[trigger] bit64(stack[k].0, i);
                    assert(stack1[k] == stack[k]);
                    assert(bit64(stack1[k].0, i));
                }
            } else {
                assert(bit64(stack1[stack.len() as int].0, i));
            }
        }
        if base_cell(w, h, i) {
            assert(bit64(bits, i));
        }
        if exists|k: int| 0 <= k < stack1.len() && #[trigger] bit64(stack1[k].0, i) {
            let k = choose|k: int| 0 <= k < stack1.len() && #[trigger] bit64(stack1[k].0, i);
            if k < stack.len() {
                assert(stack1[k] == stack[k]);
                assert(bit64(bits, i));
            } else {
                assert(bit64(shifted, i));
            }
        }
    }
}

/// Taking the most recent placement off the board preserves the board
/// invariant.
proof fn lemma_pop_wf(w: int, h: int, bits: u64, bitmaps: Seq<u64>, stack: Seq<(u64, Piece)>)
    requires
        wf_state(w, h, bits, bitmaps, stack),
        stack.len() > 0,
    ensures
        wf_state(w, h, bits & !stack.last().0, bitmaps, stack.drop_last()),
{
    let bm = stack.last().0;
    let stack1 = stack.drop_last();
    let bits1 = bits & !bm;
    lemma_bit64_andnot(bits, bm);
    assert forall|i: int|
        0 <= i < 64 implies (#[trigger] bit64(bits1, i) == (base_cell(w, h, i) || exists|k: int|
        0 <= k < stack1.len() && #[trigger] bit64(stack1[k].0, i))) by {
        if bit64(bits1, i) {
            if !base_cell(w, h, i) {
                let k = choose|k: int| 0 <= k < stack.len() && #[trigger] bit64(stack[k].0, i);
                assert(k < stack.len() - 1);
                assert(stack1[k] == stack[k]);
                assert(bit64(stack1[k].0, i));
            }
        }
        if base_cell(w, h, i) {
            assert(bit64(bits, i));
            assert(!bit64(bm, i));
        }
        if exists|k: int| 0 <= k < stack1.len() && #[trigger] bit64(stack1[k].0, i) {
            let k = choose|k: int| 0 <= k < stack1.len() && #[trigger] bit64(stack1[k].0, i);
            assert(stack1[k] == stack[k]);
            assert(bit64(stack[k].0, i));
            assert(bit64(bits, i));
            assert(!bit64(bm, i));
        }
    }
    assert forall|k: int| 0 <= k < stack1.len() implies placed_entry(#[trigger] stack1[k], w) by {
        assert(stack1[k] == stack[k]);
    }
    assert forall|k: int, i: int|
        0 <= k < stack1.len() && #[trigger] bit64(stack1[k].0, i) implies !base_cell(w, h, i) by {
        assert(stack1[k] == stack[k]);
    }
    assert forall|k1: int, k2: int, i: int|
        0 <= k1 < k2 < stack1.len() implies !(#[trigger] bit64(stack1[k1].0, i)
        && #[trigger] bit64(stack1[k2].0, i)) by {
        assert(stack1[k1] == stack[k1] && stack1[k2] == stack[k2]);
    }
}

/// The sentinel word of the first `row` rows sets exactly the bit ending each
/// of those rows.
proof fn lemma_sentinel_bits_char(w: int, row: int)
    requires
        1 <= w,
        0 <= row,
        row * w <= 64,
    ensures
        forall|i: int|
            0 <= i < 64 ==> (#[trigger] bit64(sentinel_bits(w, row), i) <==> (i < row * w && i % w
                == w - 1)),
    decreases row,
{
    if row == 0 {
        assert forall|i: int|
            0 <= i < 64 implies (#[trigger] bit64(sentinel_bits(w, row), i) <==> (i < row * w
            && i % w == w - 1)) by {
            let j = i as u64;
            assert(j < 64 ==> (0u64 >> j) & 1u64 == 0u64) by (bit_vector);
            assert(row * w == 0) by (nonlinear_arith)
                requires row == 0;
        }
    } else {
        assert((row - 1) * w <= 64 && (row - 1) * w == row * w - w) by (nonlinear_arith)
            requires 1 <= w && 1 <= row && row * w <= 64;
        lemma_sentinel_bits_char(w, row - 1);
        let s = (row - 1) * w + (w - 1);
        assert(s == row * w - 1);
        lemma_bit64_single(s as u64);
        lemma_bit64_or(sentinel_bits(w, row - 1), 1u64 << (s as u64));
        assert forall|i: int|
            0 <= i < 64 implies (#[trigger] bit64(sentinel_bits(w, row), i) <==> (i < row * w
            && i % w == w - 1)) by {
            assert(w * (row - 1) == (row - 1) * w) by (nonlinear_arith);
            vstd::arithmetic::div_mod::lemma_mod_multiples_vanish(row - 1, w - 1, w);
            vstd::arithmetic::div_mod::lemma_small_mod((w - 1) as nat, w as nat);
            assert(s % w == w - 1);
            if bit64(sentinel_bits(w, row), i) {
                assert(bit64(sentinel_bits(w, row - 1), i) || i == s);
            }
            if i < row * w && i % w == w - 1 && !(i < (row - 1) * w) {
                let t = i - (row - 1) * w;
                assert(0 <= t < w);
                vstd::arithmetic::div_mod::lemma_mod_multiples_vanish(row - 1, t, w);
                vstd::arithmetic::div_mod::lemma_small_mod(t as nat, w as nat);
                assert(i % w == t);
                assert(i == s);
            }
        }
    }
}

/// The fresh occupancy word sets exactly the border cells.
pub proof fn lemma_init_bits_char(w: int, h: int)
    requires
        1 <= w,
        0 <= h,
        w * h <= 64,
    ensures
        forall|i: int|
            0 <= i < 64 ==> (#[trigger] bit64(init_bits(w, h), i) <==> base_cell(w, h, i)),
{
    lemma_sentinel_bits_char(w, h);
    let pad = pad_bits(w, h);
    if w * h < 64 {
        lemma_bit64_max_shl((w * h) as u64);
    } else {
        assert forall|i: int| 0 <= i < 64 implies !bit64(pad, i) by {
            let j = i as u64;
            assert(j < 64 ==> (0u64 >> j) & 1u64 == 0u64) by (bit_vector);
        }
    }
    lemma_bit64_or(pad, sentinel_bits(w, h));
    assert forall|i: int|
        0 <= i < 64 implies (#[trigger] bit64(init_bits(w, h), i) <==> base_cell(w, h, i)) by {
        assert(bit64(pad, i) <==> (w * h <= i < 64));
        assert(bit64(init_bits(w, h), i) == (bit64(pad, i) || bit64(sentinel_bits(w, h), i)));
    }
}

/// A nonzero shape bitmap sets exactly the anchor bit and the three offset
/// bits, all of which lie in range.
pub proof fn lemma_variant_bitmap_bits(v: int, w: int)
    requires
        variant_bitmap(v, w) != 0,
    ensures
        forall|j: int| 0 <= j < 3 ==> 0 <= #[trigger] shape_shift(v, w, j) <= 63,
        forall|i: int|
            #[trigger] bit64(variant_bitmap(v, w), i) <==> (i == 0 || i == shape_shift(v, w, 0)
                || i == shape_shift(v, w, 1) || i == shape_shift(v, w, 2)),
        bit64(variant_bitmap(v, w), 0),
{
    let s0 = shape_shift(v, w, 0);
    let s1 = shape_shift(v, w, 1);
    let s2 = shape_shift(v, w, 2);
    assert(0 <= s0 <= 63 && 0 <= s1 <= 63 && 0 <= s2 <= 63);
    let a = 1u64 << (s0 as u64);
    let b = 1u64 << (s1 as u64);
    let c = 1u64 << (s2 as u64);
    lemma_bit64_single(s0 as u64);
    lemma_bit64_single(s1 as u64);
    lemma_bit64_single(s2 as u64);
    assert(1u64 == 1u64 << 0u64) by (bit_vector);
    lemma_bit64_single(0u64);
    lemma_bit64_or(1u64, a);
    lemma_bit64_or(1u64 | a, b);
    lemma_bit64_or((1u64 | a) | b, c);
    assert(variant_bitmap(v, w) == ((1u64 | a) | b) | c);
}

/// What a placement word looks like bit by bit: it is nonzero, its lowest
/// set bit is its anchor offset, and its set bits are exactly the anchor plus
/// the shape's three offsets.
pub proof fn lemma_word_cells(bm: u64, w: int, v: int, off: u64)
    requires
        0 <= v < 19,
        off < 64,
        variant_bitmap(v, w) != 0,
        bm == variant_bitmap(v, w) << off,
        (bm >> off) == variant_bitmap(v, w),
    ensures
        bm != 0,
        u64_trailing_zeros(bm) == off,
        forall|i: int|
            #[trigger] bit64(bm, i) <==> (i == off || i == off + shape_shift(v, w, 0) || i
                == off + shape_shift(v, w, 1) || i == off + shape_shift(v, w, 2)),
{
    let x = variant_bitmap(v, w);
    lemma_variant_bitmap_bits(v, w);
    lemma_bit64_shl(x, off);
    lemma_bit64_shl_lossless(x, off);
    assert(bit64(bm, off as int)) by {
        assert(bit64(x, 0));
    }
    assert(bm != 0) by {
        crate::bits::lemma_bit64_zero();
    }
    assert forall|i: int|
        #[trigger] bit64(bm, i) <==> (i == off || i == off + shape_shift(v, w, 0) || i == off
        + shape_shift(v, w, 1) || i == off + shape_shift(v, w, 2)) by {
        if off <= i < 64 {
            assert(bit64(bm, i) == bit64(x, i - off));
        }
        if i == off + shape_shift(v, w, 0) || i == off + shape_shift(v, w, 1) || i == off
            + shape_shift(v, w, 2) {
            let j = i - off;
            assert(bit64(x, j));
            assert(j + off < 64);
        }
    }
    let tz = u64_trailing_zeros(bm);
    axiom_u64_trailing_zeros(bm);
    assert(tz < 64);
    assert(bit64(bm, tz as int)) by {
        assert((bm >> (tz as u64)) & 1u64 == 1u64);
    }
    if tz < off {
        assert((bm >> (tz as u64)) & 1u64 == 0u64) by {
            assert(!bit64(bm, tz as int));
        }
    }
    if tz > off {
        assert((bm >> (off as u64)) & 1u64 == 0u64);
        assert(!bit64(bm, off as int));
    }
}

/// A row's sentinel index has remainder `w - 1`.
proof fn lemma_sentinel_mod(w: int, row: int)
    requires
        1 <= w,
        0 <= row,
    ensures
        (row * w + (w - 1)) % w == w - 1,
{
    assert(w * row == row * w) by (nonlinear_arith);
    vstd::arithmetic::div_mod::lemma_mod_multiples_vanish(row, w - 1, w);
    vstd::arithmetic::div_mod::lemma_small_mod((w - 1) as nat, w as nat);
}

/// Within one row, only the sentinel index has remainder `w - 1`.
proof fn lemma_sentinel_index(w: int, row: int, i: int)
    requires
        1 <= w,
        0 <= row,
        row * w <= i < (row + 1) * w,
        i % w == w - 1,
    ensures
        i == row * w + (w - 1),
{
    let t = i - row * w;
    assert((row + 1) * w == row * w + w) by (nonlinear_arith);
    assert(0 <= t < w);
    assert(w * row == row * w) by (nonlinear_arith);
    vstd::arithmetic::div_mod::lemma_mod_multiples_vanish(row, t, w);
    vstd::arithmetic::div_mod::lemma_small_mod(t as nat, w as nat);
    assert(i % w == t);
}

/// A cell claimed by a recorded placement is a real cell: inside the area and
/// not in the sentinel column.
proof fn lemma_cell_in_area(b: &Board, k: int, i: int)
    requires
        b.wf(),
        0 <= k < b.stack@.len(),
        bit64(b.stack@[k].0, i),
    ensures
        0 <= i < b.width as int * b.height as int,
        i % b.width as int != b.width as int - 1,
{
    let w = b.width as int;
    let h = b.height as int;
    assert(!base_cell(w, h, i));
}

/// Computes the three bit offsets of one shape on a board of the given width.
fn shape_shifts(width: usize, v: usize) -> (r: (i64, i64, i64))
    requires
        1 <= width <= 64,
        v < 19,
    ensures
        r.0 == shape_shift(v as int, width as int, 0),
        r.1 == shape_shift(v as int, width as int, 1),
        r.2 == shape_shift(v as int, width as int, 2),
{
    let shape = piece_shape(FixedPiece::from_index(v));
    let w = width as i64;
    proof {
        assert(shape@[0].0 == shape_spec(v as int)[0].0);
        assert(shape@[0].1 == shape_spec(v as int)[0].1);
        assert(shape@[1].0 == shape_spec(v as int)[1].0);
        assert(shape@[1].1 == shape_spec(v as int)[1].1);
        assert(shape@[2].0 == shape_spec(v as int)[2].0);
        assert(shape@[2].1 == shape_spec(v as int)[2].1);
        assert(0 <= shape_spec(v as int)[0].0 <= 3);
        assert(-2 <= shape_spec(v as int)[0].1 <= 3);
        assert(0 <= shape_spec(v as int)[1].0 <= 3);
        assert(-2 <= shape_spec(v as int)[1].1 <= 3);
        assert(0 <= shape_spec(v as int)[2].0 <= 3);
        assert(-2 <= shape_spec(v as int)[2].1 <= 3);
        assert(0 <= w as int * shape@[0].0 <= 192) by (nonlinear_arith)
            requires 1 <= w <= 64 && 0 <= shape@[0].0 <= 3;
        assert(0 <= w as int * shape@[1].0 <= 192) by (nonlinear_arith)
            requires 1 <= w <= 64 && 0 <= shape@[1].0 <= 3;
        assert(0 <= w as int * shape@[2].0 <= 192) by (nonlinear_arith)
            requires 1 <= w <= 64 && 0 <= shape@[2].0 <= 3;
    }
    let s0 = w * shape[0].0 + shape[0].1;
    let s1 = w * shape[1].0 + shape[1].1;
    let s2 = w * shape[2].0 + shape[2].1;
    assert(s0 == shape_shift(v as int, width as int, 0));
    assert(s1 == shape_shift(v as int, width as int, 1));
    assert(s2 == shape_shift(v as int, width as int, 2));
    (s0, s1, s2)
}

/// Computes the placement word of one shape on a board of the given width.
fn compute_bitmap(width: usize, v: usize) -> (r: u64)
    requires
        1 <= width <= 64,
        v < 19,
    ensures
        r == variant_bitmap(v as int, width as int),
{
    let shifts = shape_shifts(width, v);
    let s0 = shifts.0;
    let s1 = shifts.1;
    let s2 = shifts.2;
    if s0 < 0 || s0 > 63 || s1 < 0 || s1 > 63 || s2 < 0 || s2 > 63 {
        return 0;
    }
    1u64 | (1u64 << (s0 as u64)) | (1u64 << (s1 as u64)) | (1u64 << (s2 as u64))
}

impl Board {
    /// A fresh board of the given dimensions: border bits set, no placements,
    /// and one precomputed placement word per shape.
    pub fn new(row_count: u32, col_count: u32) -> (r: Board)
        requires
            1 <= row_count,
            1 <= col_count,
            (col_count as int + 1) * row_count as int <= 64,
        ensures
            r.wf(),
            r.width == col_count as int + 1,
            r.height == row_count as int,
            r.bits == init_bits(col_count as int + 1, row_count as int),
            r.stack@ =~= Seq::<(u64, Piece)>::empty(),
    {
        proof {
            assert(col_count + 1 <= 64) by (nonlinear_arith)
                requires
                    (col_count as int + 1) * row_count as int <= 64 && 1 <= row_count && 1
                        <= col_count;
        }
        let width = col_count as usize + 1;
        let height = row_count as usize;
        proof {
            assert(width <= 64) by (nonlinear_arith)
                requires width as int * height as int <= 64 && 1 <= height && 1 <= width;
        }
        let area = width * height;
        let ghost w = width as int;
        let ghost h = height as int;

        let mut bits: u64 = if area < 64 {
            u64::MAX << (area as u64)
        } else {
            0
        };
        assert(bits == pad_bits(w, h));
        assert(bits == pad_bits(w, h) | sentinel_bits(w, 0)) by {
            assert(pad_bits(w, h) | 0u64 == pad_bits(w, h)) by (bit_vector);
        }
        for row in 0..height
            invariant
                width == w,
                height == h,
                1 <= w <= 64,
                1 <= h,
                w * h <= 64,
                area == w * h,
                bits == pad_bits(w, h) | sentinel_bits(w, row as int),
        {
            proof {
                assert((row + 1) * w <= h * w) by (nonlinear_arith)
                    requires row + 1 <= h && 1 <= w;
                assert(row as int * w + (w - 1) == (row + 1) * w - 1) by (nonlinear_arith);
                assert(w * h == h * w) by (nonlinear_arith);
            }
            let b = row * width + width - 1;
            proof {
                crate::bits::lemma_or_assoc(
                    pad_bits(w, h),
                    sentinel_bits(w, row as int),
                    1u64 << (b as u64),
                );
            }
            bits = bits | (1u64 << (b as u64));
        }

        let mut bitmaps: Vec<u64> = Vec::new();
        for v in 0..19usize
            invariant
                width == w,
                1 <= w <= 64,
                bitmaps@.len() == v,
                forall|u: int| 0 <= u < v ==> bitmaps@[u] == variant_bitmap(u, w),
        {
            bitmaps.push(compute_bitmap(width, v));
        }

        let board = Board { width, height, bits, bitmaps, stack: Vec::new() };
        proof {
            lemma_init_bits_char(w, h);
            assert(board.bits == init_bits(w, h));
            assert forall|i: int|
                0 <= i < 64 implies (#[trigger] bit64(board.bits, i) == (base_cell(w, h, i)
                || exists|k: int|
                0 <= k < board.stack@.len() && #[trigger] bit64(board.stack@[k].0, i))) by {
                assert(board.stack@.len() == 0);
            }
        }
        board
    }

    /// The index of the lowest empty cell, or 64 when the board is full. Every
    /// cell below the returned index is occupied.
    pub fn first_empty_square(&self) -> (r: u32)
        ensures
            r == u64_trailing_zeros(!self.bits),
            r <= 64,
            self.bits == u64::MAX <==> r == 64,
            r < 64 ==> !bit64(self.bits, r as int),
            forall|j: int| 0 <= j < r ==> bit64(self.bits, j),
    {
        let bits = self.bits;
        let flipped = bits ^ u64::MAX;
        assert(bits ^ u64::MAX == !bits) by (bit_vector);
        let r = flipped.trailing_zeros();
        assert(flipped == !self.bits);
        proof {
            axiom_u64_trailing_zeros(!bits);
            crate::bits::lemma_bit64_not(bits);
            assert((!bits == 0) <==> (bits == u64::MAX)) by (bit_vector);
            if r < 64 {
                assert(((!bits) >> (r as u64)) & 1u64 == 1u64);
                assert(bit64(!bits, r as int));
            }
            assert forall|j: int| 0 <= j < r implies bit64(self.bits, j) by {
                assert(((!bits) >> (j as u64)) & 1u64 == 0u64);
                assert(!bit64(!bits, j));
            }
        }
        r
    }

    /// Lays the given shape with its anchor on the lowest empty cell. Fails,
    /// mutating nothing, when any cell of the laid shape is already occupied
    /// or falls outside the board; succeeds otherwise, marking the four cells
    /// occupied and recording the placement.
    pub fn push(&mut self, fixed_piece: FixedPiece) -> (r: Result<(), ()>)
        requires
            old(self).wf(),
            old(self).stack@.len() < MAX_PIECE_COUNT,
            old(self).bits != u64::MAX,
        ensures
            final(self).wf(),
            final(self).width == old(self).width,
            final(self).height == old(self).height,
            final(self).bitmaps@ == old(self).bitmaps@,
            r is Ok <==> can_place(
                old(self).bits,
                old(self).width as int,
                fp_index_spec(fixed_piece),
            ),
            r is Ok ==> {
                let word = placement_word(
                    old(self).bits,
                    old(self).width as int,
                    fp_index_spec(fixed_piece),
                );
                &&& final(self).bits == (old(self).bits | word)
                &&& final(self).stack@ == old(self).stack@.push(
                    (word, piece_of_spec(fp_index_spec(fixed_piece))),
                )
            },
            r is Err ==> final(self).bits == old(self).bits && final(self).stack@ == old(
                self,
            ).stack@,
    {
        let ghost w = self.width as int;
        let ghost h = self.height as int;
        let offset = self.first_empty_square();
        let v = fixed_piece.index();
        let bm = self.bitmaps[v];
        if bm == 0 {
            return Err(());
        }
        let shifted = bm << (offset as u64);
        if (shifted >> (offset as u64)) != bm {
            return Err(());
        }
        if self.bits & shifted != 0 {
            return Err(());
        }
        let kind = piece_of_fixed(fixed_piece);
        proof {
            assert(placed_as((shifted, kind), w, v as int, offset as u64));
            lemma_push_wf(
                w,
                h,
                self.bits,
                self.bitmaps@,
                self.stack@,
                shifted,
                kind,
                v as int,
                offset as u64,
            );
        }
        self.bits = self.bits | shifted;
        self.stack.push((shifted, kind));
        Ok(())
    }

    /// Takes the most recent placement off the board, freeing its four cells,
    /// and returns its piece kind.
    pub fn pop(&mut self) -> (r: Piece)
        requires
            old(self).wf(),
            old(self).stack@.len() > 0,
        ensures
            final(self).wf(),
            final(self).width == old(self).width,
            final(self).height == old(self).height,
            final(self).bitmaps@ == old(self).bitmaps@,
            final(self).stack@ == old(self).stack@.drop_last(),
            r == old(self).stack@.last().1,
            final(self).bits == (old(self).bits & !old(self).stack@.last().0),
    {
        let ghost w = self.width as int;
        let ghost h = self.height as int;
        let ghost stack0 = self.stack@;
        let ghost bits0 = self.bits;
        let top = self.stack.pop().unwrap();
        let bm = top.0;
        proof {
            assert(self.stack@ =~= stack0.drop_last());
            lemma_pop_wf(w, h, bits0, self.bitmaps@, stack0);
        }
        self.bits = self.bits & !bm;
        top.1
    }

    /// Snapshots the board into an immutable rendered position: each placed
    /// piece's four cells carry its letter, the rest are dots, and a newline
    /// closes each row. The placement a recorded word came from is recovered
    /// by shifting the word back down to its anchor and scanning the
    /// precomputed table for the matching shape — a deliberate linear scan
    /// over nineteen entries.
    #[verifier::rlimit(60)]
    pub fn position(&self) -> (r: Position)
        requires
            self.wf(),
        ensures
            r.wf(),
            r.row_count == self.height,
            r.column_count == self.width - 1,
            r.squares@ == render(self.width as int, self.height as int, self.stack@),
    {
        let ghost w = self.width as int;
        let ghost h = self.height as int;
        let width = self.width;
        let area = width * self.height;
        let mut squares: Vec<u8> = vec![EMPTY_CELL; area];
        let n = self.stack.len();
        proof {
            assert(self.stack@.take(0) =~= Seq::<(u64, Piece)>::empty());
            assert(w <= 64) by (nonlinear_arith)
                requires 2 <= w && 1 <= h && w * h <= 64;
        }
        for k in 0..n
            invariant
                self.wf(),
                w == self.width as int,
                h == self.height as int,
                width == self.width,
                2 <= w <= 64,
                n == self.stack@.len(),
                area == w * h <= 64,
                squares@.len() == area,
                forall|i: int|
                    0 <= i < area ==> #[trigger] squares@[i] == label_at(
                        self.stack@.take(k as int),
                        i,
                    ),
        {
            let entry = self.stack[k];
            let bm = entry.0;
            let ghost (v0, off) = choose|v0: int, off: u64|
                placed_as(self.stack@[k as int], w, v0, off);
            proof {
                lemma_word_cells(bm, w, v0, off);
            }
            let shift = bm.trailing_zeros();
            let reduced = bm >> (shift as u64);
            assert(reduced == variant_bitmap(v0, w));

            let mut p: usize = 0;
            while self.bitmaps[p] != reduced
                invariant
                    self.wf(),
                    w == self.width as int,
                    0 <= v0 < 19,
                    p <= v0,
                    reduced == variant_bitmap(v0, w),
                decreases v0 - p,
            {
                proof {
                    assert(self.bitmaps@[v0] == variant_bitmap(v0, w));
                }
                p += 1;
            }
            let ghost vp = p as int;
            proof {
                assert(self.bitmaps@[vp] == variant_bitmap(vp, w));
                assert(variant_bitmap(vp, w) == reduced);
                lemma_variant_bitmap_bits(vp, w);
                lemma_word_cells(bm, w, vp, off);
            }
            let shifts = shape_shifts(width, p);
            let marker = LETTER_A + (k as u8);
            let ghost before = squares@;
            let anchor = shift as usize;
            proof {
                assert(anchor == off);
                assert(shifts.0 == shape_shift(vp, w, 0));
                assert(shifts.1 == shape_shift(vp, w, 1));
                assert(shifts.2 == shape_shift(vp, w, 2));
                assert(0 <= shape_shift(vp, w, 0) <= 63);
                assert(0 <= shape_shift(vp, w, 1) <= 63);
                assert(0 <= shape_shift(vp, w, 2) <= 63);
                lemma_cell_in_area(self, k as int, off as int);
                lemma_cell_in_area(self, k as int, off + shape_shift(vp, w, 0));
                lemma_cell_in_area(self, k as int, off + shape_shift(vp, w, 1));
                lemma_cell_in_area(self, k as int, off + shape_shift(vp, w, 2));
            }
            squares.set(anchor, marker);
            squares.set(anchor + (shifts.0 as usize), marker);
            squares.set(anchor + (shifts.1 as usize), marker);
            squares.set(anchor + (shifts.2 as usize), marker);
            proof {
                let stack1 = self.stack@.take(k + 1);
                assert(stack1.drop_last() =~= self.stack@.take(k as int));
                assert(stack1.last() == self.stack@[k as int]);
                assert forall|i: int|
                    0 <= i < area implies #[trigger] squares@[i] == label_at(stack1, i) by {
                    if bit64(bm, i) {
                        assert(i == off || i == off + shape_shift(vp, w, 0) || i == off
                            + shape_shift(vp, w, 1) || i == off + shape_shift(vp, w, 2));
                        assert(squares@[i] == marker);
                    } else {
                        assert(squares@[i] == before[i]);
                    }
                }
            }
        }
        proof {
            assert(self.stack@.take(n as int) =~= self.stack@);
        }

        let mut row: usize = 0;
        while row < self.height
            invariant
                self.wf(),
                w == self.width as int,
                h == self.height as int,
                width == self.width,
                2 <= w <= 64,
                row <= h,
                area == w * h <= 64,
                squares@.len() == area,
                forall|i: int|
                    0 <= i < area ==> #[trigger] squares@[i] == (if i % w == w - 1 && i < (row as int) * w {
                        ROW_END
                    } else {
                        label_at(self.stack@, i)
                    }),
            decreases h - row,
        {
            proof {
                assert((row + 1) * w <= h * w) by (nonlinear_arith)
                    requires row as int + 1 <= h && 1 <= w;
                assert(w * h == h * w) by (nonlinear_arith);
                assert(row as int * w + (w - 1) == (row + 1) * w - 1) by (nonlinear_arith);
                assert(row as int * w + (w - 1) <= 63);
            }
            let idx = row * width + width - 1;
            let ghost before = squares@;
            squares.set(idx, ROW_END);
            proof {
                lemma_sentinel_mod(w, row as int);
                assert forall|i: int|
                    0 <= i < area implies #[trigger] squares@[i] == (if i % w == w - 1 && i < (row as int
                    + 1) * w {
                    ROW_END
                } else {
                    label_at(self.stack@, i)
                }) by {
                    if i != idx && i % w == w - 1 && (row as int) * w <= i < (row as int + 1) * w {
                        lemma_sentinel_index(w, row as int, i);
                    }
                }
            }
            row += 1;
        }

        let position = Position {
            squares,
            row_count: self.height,
            column_count: width - 1,
        };
        proof {
            assert forall|i: int|
                0 <= i < area implies #[trigger] position.squares@[i] == render(w, h, self.stack@)[i] by {
                if i % w == w - 1 {
                    assert(i < h * w) by (nonlinear_arith)
                        requires 0 <= i < w * h;
                    assert(i < (row as int) * w);
                }
            }
            assert(position.squares@ =~= render(w, h, self.stack@));
            assert forall|i: int|
                0 <= i < position.squares@.len() implies ((#[trigger] position.squares@[i]
                == ROW_END) <==> (i % w == w - 1)) by {
                if !(i % w == w - 1) {
                    lemma_label_at_range(self.stack@, i);
                }
            }
        }
        position
    }

    /// Whether every cell of the board, border included, is occupied.
    pub fn is_complete(&self) -> (r: bool)
        ensures
            r == (self.bits == u64::MAX),
    {
        self.bits == u64::MAX
    }
}

} // verus!
