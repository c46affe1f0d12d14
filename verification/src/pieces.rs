//! The seven one-sided tetromino kinds and a multiset of them.

use vstd::prelude::*;
use vstd::string::StrSliceExecFns;

verus! {

/// The one-sided tetrominoes, named by the letter they resemble.
#[derive(Debug, Clone, Copy, Eq, PartialEq, Structural)]
pub enum Piece {
    I,
    O,
    T,
    J,
    L,
    S,
    Z,
}

/// Index of a kind in a kind-indexed table of length 7.
pub open spec fn piece_index_spec(p: Piece) -> int {
    match p {
        Piece::I => 0,
        Piece::O => 1,
        Piece::T => 2,
        Piece::J => 3,
        Piece::L => 4,
        Piece::S => 5,
        Piece::Z => 6,
    }
}

impl Piece {
    /// The number of one-sided tetromino kinds.
    pub fn count() -> (r: usize)
        ensures
            r == 7,
    {
        7
    }

    /// Index of this kind in a kind-indexed table.
    pub fn index(self) -> (r: usize)
        ensures
            r == piece_index_spec(self),
    {
        match self {
            Piece::I => 0,
            Piece::O => 1,
            Piece::T => 2,
            Piece::J => 3,
            Piece::L => 4,
            Piece::S => 5,
            Piece::Z => 6,
        }
    }
}

/// The kind a character stands for, case-insensitively; `None` for any
/// character outside the seven letters.
pub open spec fn piece_of_char(c: char) -> Option<Piece> {
    if c == 'I' || c == 'i' {
        Some(Piece::I)
    } else if c == 'O' || c == 'o' {
        Some(Piece::O)
    } else if c == 'T' || c == 't' {
        Some(Piece::T)
    } else if c == 'J' || c == 'j' {
        Some(Piece::J)
    } else if c == 'L' || c == 'l' {
        Some(Piece::L)
    } else if c == 'S' || c == 's' {
        Some(Piece::S)
    } else if c == 'Z' || c == 'z' {
        Some(Piece::Z)
    } else {
        None
    }
}

/// Every character of the string names a kind.
pub open spec fn all_chars_valid(s: Seq<char>) -> bool {
    forall|j: int| 0 <= j < s.len() ==> #[trigger] piece_of_char(s[j]) is Some
}

/// Per-kind counts of the kinds named by the string, ignoring any character
/// that names none.
pub open spec fn char_counts(s: Seq<char>) -> Seq<int>
    decreases s.len(),
{
    if s.len() == 0 {
        seq![0, 0, 0, 0, 0, 0, 0]
    } else {
        let prev = char_counts(s.drop_last());
        match piece_of_char(s.last()) {
            Some(p) => prev.update(piece_index_spec(p), prev[piece_index_spec(p)] + 1),
            None => prev,
        }
    }
}

/// Sum of a seven-entry count table.
pub open spec fn sum_counts(s: Seq<u32>) -> int {
    s[0] + s[1] + s[2] + s[3] + s[4] + s[5] + s[6]
}

/// The count table always has one entry per kind.
pub proof fn lemma_char_counts_len(s: Seq<char>)
    ensures
        char_counts(s).len() == 7,
    decreases s.len(),
{
    if s.len() > 0 {
        lemma_char_counts_len(s.drop_last());
    }
}

/// The kind a character stands for, as executable code.
pub fn piece_from_char(c: char) -> (r: Option<Piece>)
    ensures
        r == piece_of_char(c),
{
    if c == 'I' || c == 'i' {
        Some(Piece::I)
    } else if c == 'O' || c == 'o' {
        Some(Piece::O)
    } else if c == 'T' || c == 't' {
        Some(Piece::T)
    } else if c == 'J' || c == 'j' {
        Some(Piece::J)
    } else if c == 'L' || c == 'l' {
        Some(Piece::L)
    } else if c == 'S' || c == 's' {
        Some(Piece::S)
    } else if c == 'Z' || c == 'z' {
        Some(Piece::Z)
    } else {
        None
    }
}

/// The error of parsing a piece string.
#[derive(Debug)]
pub enum ParsePieceCollectionError {
    UnrecognizedCharacter,
}

/// A multiset of tetromino kinds, stored as per-kind counts.
pub struct PieceCollection {
    pub counts: Vec<u32>,
}

impl PieceCollection {
    /// One count per kind, and a total small enough to be itself a count.
    pub open spec fn wf(&self) -> bool {
        &&& self.counts@.len() == 7
        &&& sum_counts(self.counts@) <= u32::MAX
    }

    /// How many pieces of the given kind the collection holds.
    pub fn count(&self, piece: Piece) -> (r: u32)
        requires
            self.wf(),
        ensures
            r == self.counts@[piece_index_spec(piece)],
    {
        self.counts[piece.index()]
    }

    /// Takes one piece of the given kind out of the collection.
    pub fn remove(&mut self, piece: Piece)
        requires
            old(self).wf(),
            old(self).counts@[piece_index_spec(piece)] > 0,
        ensures
            final(self).wf(),
            final(self).counts@ == old(self).counts@.update(
                piece_index_spec(piece),
                (old(self).counts@[piece_index_spec(piece)] - 1) as u32,
            ),
    {
        let i = piece.index();
        let c = self.counts[i];
        self.counts.set(i, c - 1);
    }

    /// Puts one piece of the given kind into the collection.
    pub fn add(&mut self, piece: Piece)
        requires
            old(self).wf(),
            sum_counts(old(self).counts@) < u32::MAX,
        ensures
            final(self).wf(),
            final(self).counts@ == old(self).counts@.update(
                piece_index_spec(piece),
                (old(self).counts@[piece_index_spec(piece)] + 1) as u32,
            ),
    {
        let i = piece.index();
        let c = self.counts[i];
        self.counts.set(i, c + 1);
    }

    /// The total number of pieces, over all kinds.
    pub fn count_all(&self) -> (r: u32)
        requires
            self.wf(),
        ensures
            r == sum_counts(self.counts@),
    {
        self.counts[0] + self.counts[1] + self.counts[2] + self.counts[3] + self.counts[4]
            + self.counts[5] + self.counts[6]
    }

    /// Parses a piece string: each character names a kind case-insensitively,
    /// and any other character fails the whole parse.
    pub fn from_str(s: &str) -> (r: Result<PieceCollection, ParsePieceCollectionError>)
        requires
            s@.len() < 0x1_0000_0000,
        ensures
            r is Ok <==> all_chars_valid(s@),
            match r {
                Ok(pc) => {
                    &&& pc.wf()
                    &&& pc.counts@.len() == 7
                    &&& forall|j: int|
                        0 <= j < 7 ==> #[trigger] pc.counts@[j] == char_counts(s@)[j]
                    &&& sum_counts(pc.counts@) == s@.len()
                },
                Err(e) => e is UnrecognizedCharacter,
            },
    {
        let n = s.unicode_len();
        let mut counts: Vec<u32> = vec![0, 0, 0, 0, 0, 0, 0];
        for i in 0..n
            invariant
                s@.len() == n,
                n < 0x1_0000_0000,
                counts@.len() == 7,
                all_chars_valid(s@.take(i as int)),
                forall|j: int| 0 <= j < 7 ==> #[trigger] counts@[j] == char_counts(s@.take(i as int))[j],
                sum_counts(counts@) == i,
        {
            let c = s.get_char(i);
            let piece = match piece_from_char(c) {
                Some(p) => p,
                None => {
                    assert(piece_of_char(s@[i as int]) is None);
                    assert(!all_chars_valid(s@));
                    return Err(ParsePieceCollectionError::UnrecognizedCharacter);
                },
            };
            proof {
                lemma_char_counts_len(s@.take(i as int));
                lemma_char_counts_len(s@.take(i + 1));
                assert(s@.take(i + 1).drop_last() =~= s@.take(i as int));
                assert(s@.take(i + 1).last() == s@[i as int]);
                assert(all_chars_valid(s@.take(i + 1))) by {
                    assert(forall|j: int|
                        0 <= j < i ==> s@.take(i + 1)[j] == #[trigger] s@.take(i as int)[j]);
                }
            }
            let idx = piece.index();
            let cur = counts[idx];
            counts.set(idx, cur + 1);
        }
        proof {
            assert(s@.take(n as int) =~= s@);
        }
        Ok(PieceCollection { counts })
    }
}

} // verus!
