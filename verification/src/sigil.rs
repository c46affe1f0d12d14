//! The pure core of the screenshot reader: rectangle geometry and the
//! template match that names the tetromino kind a pixel blob most resembles.
//! Reading pixels and flood-filling stay outside the library; this module
//! works on the plain bounds and per-quadrant pixel counts they produce.

use vstd::prelude::*;
use crate::pieces::Piece;

verus! {

/// A pixel-aligned rectangle with top-left corner (x1, y1) and bottom-right
/// corner (x2, y2), both corners included.
#[derive(Debug, Clone, Copy, Eq, PartialEq, Structural)]
pub struct Rect {
    pub x1: u32,
    pub y1: u32,
    pub x2: u32,
    pub y2: u32,
}

/// The rectangle's corners are ordered and leave room for the one-past
/// arithmetic of the grid split.
pub open spec fn rect_wf(r: Rect) -> bool {
    &&& r.x1 <= r.x2
    &&& r.y1 <= r.y2
    &&& r.x2 + 2 <= u32::MAX
    &&& r.y2 + 2 <= u32::MAX
}

/// The six cells of a rectangle split into two rows of three columns, in
/// reading order.
pub open spec fn grid_spec(r: Rect) -> Seq<Rect> {
    let width = r.x2 - r.x1 + 1;
    let height = r.y2 - r.y1 + 1;
    let col1_start = r.x1;
    let col1_end = (col1_start + width / 3) as u32;
    let col2_start = (col1_end + 1) as u32;
    let col2_end = (col2_start + width / 3) as u32;
    let col3_start = (col2_end + 1) as u32;
    let col3_end = r.x2;
    let row1_start = r.y1;
    let row1_end = (r.y1 + height / 2) as u32;
    let row2_start = (row1_end + 1) as u32;
    let row2_end = r.y2;
    seq![
        Rect { x1: col1_start, x2: col1_end, y1: row1_start, y2: row1_end },
        Rect { x1: col2_start, x2: col2_end, y1: row1_start, y2: row1_end },
        Rect { x1: col3_start, x2: col3_end, y1: row1_start, y2: row1_end },
        Rect { x1: col1_start, x2: col1_end, y1: row2_start, y2: row2_end },
        Rect { x1: col2_start, x2: col2_end, y1: row2_start, y2: row2_end },
        Rect { x1: col3_start, x2: col3_end, y1: row2_start, y2: row2_end },
    ]
}

impl Rect {
    /// How many pixel columns the rectangle spans.
    pub fn width(&self) -> (r: u32)
        requires
            rect_wf(*self),
        ensures
            r == self.x2 - self.x1 + 1,
    {
        self.x2 - self.x1 + 1
    }

    /// How many pixel rows the rectangle spans.
    pub fn height(&self) -> (r: u32)
        requires
            rect_wf(*self),
        ensures
            r == self.y2 - self.y1 + 1,
    {
        self.y2 - self.y1 + 1
    }

    /// How many pixels the rectangle covers.
    pub fn pixel_count(&self) -> (r: u32)
        requires
            rect_wf(*self),
            (self.x2 - self.x1 + 1) * (self.y2 - self.y1 + 1) <= u32::MAX,
        ensures
            r == (self.x2 - self.x1 + 1) * (self.y2 - self.y1 + 1),
    {
        self.width() * self.height()
    }

    /// Splits the rectangle into two rows of three columns, the quadrant grid
    /// that the shape templates are matched against.
    pub fn grid(&self) -> (r: [Rect; 6])
        requires
            rect_wf(*self),
        ensures
            r@ == grid_spec(*self),
    {
        let width = self.width();
        let height = self.height();
        let col1_start = self.x1;
        let col1_end = col1_start + width / 3;
        let col2_start = col1_end + 1;
        let col2_end = col2_start + width / 3;
        let col3_start = col2_end + 1;
        let col3_end = self.x2;

        let row1_start = self.y1;
        let row1_end = self.y1 + height / 2;
        let row2_start = row1_end + 1;
        let row2_end = self.y2;

        let r = [
            Rect { x1: col1_start, x2: col1_end, y1: row1_start, y2: row1_end },
            Rect { x1: col2_start, x2: col2_end, y1: row1_start, y2: row1_end },
            Rect { x1: col3_start, x2: col3_end, y1: row1_start, y2: row1_end },
            Rect { x1: col1_start, x2: col1_end, y1: row2_start, y2: row2_end },
            Rect { x1: col2_start, x2: col2_end, y1: row2_start, y2: row2_end },
            Rect { x1: col3_start, x2: col3_end, y1: row2_start, y2: row2_end },
        ];
        proof {
            assert(r@ =~= grid_spec(*self));
        }
        r
    }
}

/// Which of the six quadrants each shape template expects to be filled. The
/// first template stands for both I and O, told apart afterwards by aspect
/// ratio; the others are T, J, L, S and Z in order.
pub open spec fn template_cell(t: int, j: int) -> bool {
    if t == 0 {
        true
    } else if t == 1 {
        j == 1 || j == 3 || j == 4 || j == 5
    } else if t == 2 {
        j == 0 || j == 1 || j == 2 || j == 5
    } else if t == 3 {
        j == 0 || j == 1 || j == 2 || j == 3
    } else if t == 4 {
        j == 1 || j == 2 || j == 3 || j == 4
    } else {
        j == 0 || j == 1 || j == 4 || j == 5
    }
}

/// How well the quadrant pixel counts match one template: for each quadrant
/// the template expects filled, the pixels of the blob's color inside it; for
/// each it expects empty, the other pixels.
pub open spec fn template_score(t: int, counts: Seq<(u32, u32)>) -> int {
    quadrant_score(t, counts, 0) + quadrant_score(t, counts, 1) + quadrant_score(t, counts, 2)
        + quadrant_score(t, counts, 3) + quadrant_score(t, counts, 4) + quadrant_score(
        t,
        counts,
        5,
    )
}

/// One quadrant's contribution to a template's score. Each count pair holds
/// the quadrant's off-color pixels first and its on-color pixels second.
pub open spec fn quadrant_score(t: int, counts: Seq<(u32, u32)>, j: int) -> int {
    if template_cell(t, j) {
        counts[j].1 as int
    } else {
        counts[j].0 as int
    }
}

/// The kind a blob's quadrant counts name: of the six templates, the one with
/// the best score — the last one, when several tie — where the first template
/// means I for a blob much wider than tall and O otherwise.
pub open spec fn classify_spec(counts: Seq<(u32, u32)>, width: u32, height: u32) -> Piece {
    let t = best_template_spec(counts);
    if t == 0 {
        if width > 3 * height {
            Piece::I
        } else {
            Piece::O
        }
    } else if t == 1 {
        Piece::T
    } else if t == 2 {
        Piece::J
    } else if t == 3 {
        Piece::L
    } else if t == 4 {
        Piece::S
    } else {
        Piece::Z
    }
}

/// The template with the best score; the last one, when several tie.
pub open spec fn best_template_spec(counts: Seq<(u32, u32)>) -> int {
    best_template_upto(counts, 6)
}

/// The best-scoring template among the first `n`, preferring later ones on
/// ties.
pub open spec fn best_template_upto(counts: Seq<(u32, u32)>, n: int) -> int
    decreases n,
{
    if n <= 1 {
        0
    } else {
        let prev = best_template_upto(counts, n - 1);
        if template_score(n - 1, counts) >= template_score(prev, counts) {
            n - 1
        } else {
            prev
        }
    }
}

/// One quadrant's contribution to a template's score, as executable code.
fn quadrant_score_of(t: usize, counts: &[(u32, u32); 6], j: usize) -> (r: u64)
    requires
        t < 6,
        j < 6,
    ensures
        r == quadrant_score(t as int, counts@, j as int),
{
    let on = template_cell_of(t, j);
    if on {
        counts[j].1 as u64
    } else {
        counts[j].0 as u64
    }
}

/// Which quadrants a template expects filled, as executable code.
fn template_cell_of(t: usize, j: usize) -> (r: bool)
    requires
        t < 6,
        j < 6,
    ensures
        r == template_cell(t as int, j as int),
{
    if t == 0 {
        true
    } else if t == 1 {
        j == 1 || j == 3 || j == 4 || j == 5
    } else if t == 2 {
        j == 0 || j == 1 || j == 2 || j == 5
    } else if t == 3 {
        j == 0 || j == 1 || j == 2 || j == 3
    } else if t == 4 {
        j == 1 || j == 2 || j == 3 || j == 4
    } else {
        j == 0 || j == 1 || j == 4 || j == 5
    }
}

/// A template's score over the six quadrant counts, as executable code.
fn template_score_of(t: usize, counts: &[(u32, u32); 6]) -> (r: u64)
    requires
        t < 6,
    ensures
        r == template_score(t as int, counts@),
{
    quadrant_score_of(t, counts, 0) + quadrant_score_of(t, counts, 1) + quadrant_score_of(
        t,
        counts,
        2,
    ) + quadrant_score_of(t, counts, 3) + quadrant_score_of(t, counts, 4) + quadrant_score_of(
        t,
        counts,
        5,
    )
}

/// Names the tetromino kind a blob most resembles, from the per-quadrant
/// pixel counts of its bounding box's two-by-three grid and the box's
/// dimensions. Each count pair holds a quadrant's off-color pixels first and
/// its on-color pixels second.
pub fn classify_shape(counts: &[(u32, u32); 6], width: u32, height: u32) -> (r: Piece)
    requires
        3 * height <= u32::MAX,
    ensures
        r == classify_spec(counts@, width, height),
{
    let mut best: usize = 0;
    let mut best_score = template_score_of(0, counts);
    for t in 1..6usize
        invariant
            best == best_template_upto(counts@, t as int),
            best < t,
            best_score == template_score(best as int, counts@),
    {
        let score = template_score_of(t, counts);
        if score >= best_score {
            best = t;
            best_score = score;
        }
    }
    if best == 0 {
        if width > 3 * height {
            Piece::I
        } else {
            Piece::O
        }
    } else if best == 1 {
        Piece::T
    } else if best == 2 {
        Piece::J
    } else if best == 3 {
        Piece::L
    } else if best == 4 {
        Piece::S
    } else {
        Piece::Z
    }
}

} // verus!
