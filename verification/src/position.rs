//! An immutable snapshot of a board: one byte per cell, `.` for an empty
//! cell, an uppercase letter per placed piece, and a newline closing each row.

use vstd::prelude::*;
use crate::bits::bit64;
use crate::pieces::Piece;

verus! {

/// The byte of an empty cell: `.`
pub const EMPTY_CELL: u8 = 46;

/// The byte closing each row: a newline.
pub const ROW_END: u8 = 10;

/// The byte of the first placement's label: `A`.
pub const LETTER_A: u8 = 65;

/// The label of cell `i` under the given placement stack: the letter of the
/// topmost placement whose word has bit `i` set, or `.` when none has.
/// Placement `k` is lettered `'A' + k`.
pub open spec fn label_at(stack: Seq<(u64, Piece)>, i: int) -> u8
    decreases stack.len(),
{
    if stack.len() == 0 {
        EMPTY_CELL
    } else if bit64(stack.last().0, i) {
        (LETTER_A + stack.len() - 1) as u8
    } else {
        label_at(stack.drop_last(), i)
    }
}

/// The plain rendering of a board of outer width `w` (columns plus the
/// sentinel column) and height `h` under a placement stack: cell labels in
/// row-major order, with a newline at each sentinel position.
pub open spec fn render(w: int, h: int, stack: Seq<(u64, Piece)>) -> Seq<u8> {
    Seq::new((w * h) as nat, |i: int| if i % w == w - 1 {
        ROW_END
    } else {
        label_at(stack, i)
    })
}

/// A cell label is the empty dot or one of the letters of the stack's
/// placements; in particular it is never a newline.
pub proof fn lemma_label_at_range(stack: Seq<(u64, Piece)>, i: int)
    requires
        stack.len() <= 12,
    ensures
        label_at(stack, i) == EMPTY_CELL || (LETTER_A <= label_at(stack, i) < LETTER_A
            + stack.len()),
    decreases stack.len(),
{
    if stack.len() > 0 && !bit64(stack.last().0, i) {
        lemma_label_at_range(stack.drop_last(), i);
    }
}

/// A rendered board position. Created only from a board snapshot and never
/// mutated afterwards.
pub struct Position {
    pub squares: Vec<u8>,
    pub row_count: usize,
    pub column_count: usize,
}

impl Position {
    /// The byte grid has one row per board row, each holding `column_count`
    /// cell bytes and a closing newline, and newlines stand nowhere else.
    pub open spec fn wf(&self) -> bool {
        let w = self.column_count as int + 1;
        let h = self.row_count as int;
        &&& self.squares@.len() == w * h
        &&& w * h <= 64
        &&& forall|i: int|
            0 <= i < self.squares@.len() ==> ((#[trigger] self.squares@[i] == ROW_END) <==> (i % w
                == w - 1))
    }
}

/// The cell byte under a vertex-grid coordinate: the plain grid is rescaled
/// to `h` rows of `2 * c` columns, two columns per cell, and coordinates off
/// the board give `None`.
pub open spec fn grid_at(squares: Seq<u8>, c: int, h: int, row: int, col: int) -> Option<u8> {
    if 0 <= row < h && 0 <= col < 2 * c {
        Some(squares[row * (c + 1) + col / 2])
    } else {
        None
    }
}

/// The box-drawing glyph for a vertex boundary code: bit 1 is a boundary
/// above, bit 2 below, bit 4 to the left, bit 8 to the right. The four codes
/// with a single edge cannot arise from a 2-by-2 neighborhood and keep a
/// placeholder glyph.
pub open spec fn box_char(idx: int) -> char {
    if idx == 3 {
        '│'
    } else if idx == 5 {
        '┘'
    } else if idx == 6 {
        '┐'
    } else if idx == 7 {
        '┤'
    } else if idx == 9 {
        '└'
    } else if idx == 10 {
        '┌'
    } else if idx == 11 {
        '├'
    } else if idx == 12 {
        '─'
    } else if idx == 13 {
        '┴'
    } else if idx == 14 {
        '┬'
    } else if idx == 15 {
        '┼'
    } else {
        '?'
    }
}

/// The glyph at one vertex of the pretty rendering: a boundary lies on each
/// side whose two adjacent cells differ in label, the four sides select a
/// box-drawing glyph, and a vertex with no boundary shows shading over an
/// empty cell and a blank over a filled one.
pub open spec fn vertex_char(squares: Seq<u8>, c: int, h: int, row: int, col: int) -> char {
    let top_left = grid_at(squares, c, h, row - 1, col - 1);
    let top_right = grid_at(squares, c, h, row - 1, col);
    let bottom_left = grid_at(squares, c, h, row, col - 1);
    let bottom_right = grid_at(squares, c, h, row, col);
    let idx = (if top_left != top_right {
        1int
    } else {
        0int
    }) + (if bottom_left != bottom_right {
        2int
    } else {
        0int
    }) + (if top_left != bottom_left {
        4int
    } else {
        0int
    }) + (if top_right != bottom_right {
        8int
    } else {
        0int
    });
    if idx > 0 {
        box_char(idx)
    } else if bottom_right == Some(EMPTY_CELL) {
        '░'
    } else {
        ' '
    }
}

/// One character of the pretty rendering, by line and column: each of the
/// `h + 1` lines holds `2 * c + 1` vertex glyphs and a closing newline.
pub open spec fn pretty_char(squares: Seq<u8>, c: int, h: int, row: int, col: int) -> char {
    if col == 2 * c + 1 {
        '\n'
    } else {
        vertex_char(squares, c, h, row, col)
    }
}

/// The whole pretty rendering of a plain byte grid with `c` columns and `h`
/// rows, as one flat character sequence.
pub open spec fn pretty_of(squares: Seq<u8>, c: int, h: int) -> Seq<char> {
    Seq::new(((h + 1) * (2 * c + 2)) as nat, |n: int| pretty_char(
        squares,
        c,
        h,
        n / (2 * c + 2),
        n % (2 * c + 2),
    ))
}

/// Relies on String::push: appends exactly one character at the end.
#[verifier::external_body]
fn push_char(s: &mut String, c: char)
    ensures
        final(s)@ == old(s)@.push(c),
{
    s.push(c);
}

impl Position {
    /// The plain text of the position: the cell bytes read as characters.
    pub fn to_plain_string(&self) -> (r: String)
        ensures
            r@.len() == self.squares@.len(),
            forall|i: int| 0 <= i < r@.len() ==> #[trigger] r@[i] == self.squares@[i] as char,
    {
        let mut out = String::new();
        let n = self.squares.len();
        for i in 0..n
            invariant
                n == self.squares@.len(),
                out@.len() == i,
                forall|j: int| 0 <= j < i ==> #[trigger] out@[j] == self.squares@[j] as char,
        {
            let b = self.squares[i];
            push_char(&mut out, b as char);
        }
        out
    }

    /// The cell byte under a vertex-grid coordinate, as executable code.
    fn cell_at(&self, row: i64, col: i64) -> (r: Option<u8>)
        requires
            self.wf(),
            1 <= self.row_count,
            -1 <= row <= 64,
            -2 <= col <= 128,
        ensures
            r == grid_at(
                self.squares@,
                self.column_count as int,
                self.row_count as int,
                row as int,
                col as int,
            ),
    {
        let c = self.column_count;
        let h = self.row_count;
        proof {
            lemma_position_dims(self);
        }
        if row < 0 || row >= h as i64 || col < 0 || col >= 2 * (c as i64) {
            return None;
        }
        proof {
            assert(0 <= (row as int) * (c as int + 1) <= 63 * 64) by (nonlinear_arith)
                requires 0 <= row as int <= 63 && 1 <= c as int + 1 <= 64;
            assert((row as int + 1) * (c as int + 1) <= h as int * (c as int + 1))
                by (nonlinear_arith)
                requires row as int + 1 <= h as int && 0 <= c as int;
            assert((row as int) * (c as int + 1) + (c as int + 1) == (row as int + 1) * (
            c as int + 1)) by (nonlinear_arith);
            assert(h as int * (c as int + 1) == (c as int + 1) * h as int) by (nonlinear_arith);
        }
        let index = (row as usize) * (c + 1) + (col as usize) / 2;
        Some(self.squares[index])
    }

    /// The pretty text of the position: a box-drawing diagram with one glyph
    /// per vertex of the cell grid, derived from the plain cell bytes alone.
    pub fn to_pretty_string(&self) -> (r: String)
        requires
            self.wf(),
            1 <= self.row_count,
        ensures
            r@ == pretty_of(self.squares@, self.column_count as int, self.row_count as int),
    {
        let c = self.column_count;
        let h = self.row_count;
        proof {
            lemma_position_dims(self);
        }
        let line_len = 2 * c + 2;
        let mut out = String::new();
        let mut row: usize = 0;
        while row <= h
            invariant
                self.wf(),
                c == self.column_count,
                h == self.row_count,
                1 <= h <= 64,
                0 <= c <= 63,
                line_len == 2 * c + 2,
                row <= h + 1,
                out@ == pretty_of(self.squares@, c as int, h as int).take(
                    (row * line_len) as int,
                ),
            decreases h + 1 - row,
        {
            let mut col: usize = 0;
            while col < line_len
                invariant
                    self.wf(),
                    c == self.column_count,
                    h == self.row_count,
                    1 <= h <= 64,
                    0 <= c <= 63,
                    line_len == 2 * c + 2,
                    row <= h,
                    col <= line_len,
                    out@ == pretty_of(self.squares@, c as int, h as int).take(
                        (row * line_len + col) as int,
                    ),
                decreases line_len - col,
            {
                let ch: char = if col == line_len - 1 {
                    '\n'
                } else {
                    let r64 = row as i64;
                    let c64 = col as i64;
                    let top_left = self.cell_at(r64 - 1, c64 - 1);
                    let top_right = self.cell_at(r64 - 1, c64);
                    let bottom_left = self.cell_at(r64, c64 - 1);
                    let bottom_right = self.cell_at(r64, c64);
                    let mut idx: usize = 0;
                    if !opt_eq(&top_left, &top_right) {
                        idx += 1;
                    }
                    if !opt_eq(&bottom_left, &bottom_right) {
                        idx += 2;
                    }
                    if !opt_eq(&top_left, &bottom_left) {
                        idx += 4;
                    }
                    if !opt_eq(&top_right, &bottom_right) {
                        idx += 8;
                    }
                    if idx > 0 {
                        box_char_of(idx)
                    } else if opt_eq(&bottom_right, &Some(EMPTY_CELL)) {
                        '░'
                    } else {
                        ' '
                    }
                };
                proof {
                    let n = (row * line_len + col) as int;
                    let ll = line_len as int;
                    vstd::arithmetic::div_mod::lemma_fundamental_div_mod_converse(
                        n,
                        ll,
                        row as int,
                        col as int,
                    );
                    assert((row as int + 1) * ll <= (h as int + 1) * ll) by (nonlinear_arith)
                        requires row as int + 1 <= h as int + 1 && 0 < ll;
                    assert((row as int) * ll + ll == (row as int + 1) * ll) by (nonlinear_arith);
                    assert(ch == pretty_char(self.squares@, c as int, h as int, row as int,
                        col as int));
                    assert(pretty_of(self.squares@, c as int, h as int)[n] == ch);
                    assert(pretty_of(self.squares@, c as int, h as int).take(n + 1)
                        =~= pretty_of(self.squares@, c as int, h as int).take(n).push(ch));
                }
                push_char(&mut out, ch);
                col += 1;
            }
            proof {
                assert((row as int) * (line_len as int) + line_len as int == (row as int + 1) * (
                line_len as int)) by (nonlinear_arith);
            }
            row += 1;
        }
        proof {
            assert(out@ =~= pretty_of(self.squares@, c as int, h as int)) by {
                assert(((h as int) + 1) * (line_len as int) == ((h + 1) * line_len) as int)
                    by (nonlinear_arith)
                    requires h as int + 1 <= 65 && line_len as int <= 130;
                assert(out@ == pretty_of(self.squares@, c as int, h as int).take(
                    ((h + 1) * line_len) as int,
                ));
            }
        }
        out
    }
}

/// The dimensions a well-formed position can have: they fit the board's
/// 64-bit occupancy word.
proof fn lemma_position_dims(p: &Position)
    requires
        p.wf(),
        1 <= p.row_count,
    ensures
        p.row_count <= 64,
        p.column_count <= 63,
{
    let w = p.column_count as int + 1;
    let h = p.row_count as int;
    assert(h <= 64 && w <= 64) by (nonlinear_arith)
        requires 1 <= w && 1 <= h && w * h <= 64;
}

/// Whether two optional cell bytes agree.
fn opt_eq(a: &Option<u8>, b: &Option<u8>) -> (r: bool)
    ensures
        r == (a == b),
{
    match (a, b) {
        (None, None) => true,
        (Some(x), Some(y)) => x == y,
        _ => false,
    }
}

/// The box-drawing glyph for a vertex boundary code, as executable code.
fn box_char_of(idx: usize) -> (r: char)
    ensures
        r == box_char(idx as int),
{
    if idx == 3 {
        '│'
    } else if idx == 5 {
        '┘'
    } else if idx == 6 {
        '┐'
    } else if idx == 7 {
        '┤'
    } else if idx == 9 {
        '└'
    } else if idx == 10 {
        '┌'
    } else if idx == 11 {
        '├'
    } else if idx == 12 {
        '─'
    } else if idx == 13 {
        '┴'
    } else if idx == 14 {
        '┬'
    } else if idx == 15 {
        '┼'
    } else {
        '?'
    }
}

} // verus!
