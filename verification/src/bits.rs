//! Bit-level view of a 64-bit word: the predicate `bit64` reads one bit, and
//! the lemmas here translate the bitwise operations used by the board into
//! statements about individual bits.

use vstd::prelude::*;

verus! {

/// True when bit `i` of `x` is set; false outside the range `0..64`.
pub open spec fn bit64(x: u64, i: int) -> bool {
    0 <= i < 64 && (x >> (i as u64)) & 1u64 == 1u64
}

/// Bitwise or sets exactly the bits set on either side.
pub proof fn lemma_bit64_or(a: u64, b: u64)
    ensures
        forall|i: int| #[trigger] bit64(a | b, i) == (bit64(a, i) || bit64(b, i)),
{
    assert forall|i: int| #[trigger] bit64(a | b, i) == (bit64(a, i) || bit64(b, i)) by {
        if 0 <= i < 64 {
            let j = i as u64;
            assert(j < 64 ==> ((((a | b) >> j) & 1u64 == 1u64) == (((a >> j) & 1u64 == 1u64)
                || ((b >> j) & 1u64 == 1u64)))) by (bit_vector);
        }
    }
}

/// Clearing the bits of `b` leaves exactly the bits of `a` outside `b`.
pub proof fn lemma_bit64_andnot(a: u64, b: u64)
    ensures
        forall|i: int| #[trigger] bit64(a & !b, i) == (bit64(a, i) && !bit64(b, i)),
{
    assert forall|i: int| #[trigger] bit64(a & !b, i) == (bit64(a, i) && !bit64(b, i)) by {
        if 0 <= i < 64 {
            let j = i as u64;
            assert(j < 64 ==> ((((a & !b) >> j) & 1u64 == 1u64) == (((a >> j) & 1u64 == 1u64)
                && !((b >> j) & 1u64 == 1u64)))) by (bit_vector);
        }
    }
}

/// Words whose bitwise and is zero share no set bit.
pub proof fn lemma_bit64_disjoint(a: u64, b: u64)
    requires
        a & b == 0,
    ensures
        forall|i: int| !(#[trigger] bit64(a, i) && bit64(b, i)),
{
    assert forall|i: int| !(#[trigger] bit64(a, i) && bit64(b, i)) by {
        if 0 <= i < 64 {
            let j = i as u64;
            assert(a & b == 0 && j < 64 ==> !(((a >> j) & 1u64 == 1u64) && ((b >> j) & 1u64
                == 1u64))) by (bit_vector);
        }
    }
}

/// A single set bit.
pub proof fn lemma_bit64_single(s: u64)
    requires
        s < 64,
    ensures
        forall|i: int| #[trigger] bit64(1u64 << s, i) == (i == s),
{
    assert forall|i: int| #[trigger] bit64(1u64 << s, i) == (i == s) by {
        if 0 <= i < 64 {
            let j = i as u64;
            assert(j < 64 && s < 64 ==> ((((1u64 << s) >> j) & 1u64 == 1u64) == (j == s)))
                by (bit_vector);
        }
    }
}

/// The all-ones word has every bit set.
pub proof fn lemma_bit64_max()
    ensures
        forall|i: int| 0 <= i < 64 ==> #[trigger] bit64(u64::MAX, i),
{
    assert forall|i: int| 0 <= i < 64 implies #[trigger] bit64(u64::MAX, i) by {
        let j = i as u64;
        assert(j < 64 ==> (u64::MAX >> j) & 1u64 == 1u64) by (bit_vector);
    }
}

/// The all-ones word shifted left by `a` sets exactly the bits at `a` and above.
pub proof fn lemma_bit64_max_shl(a: u64)
    requires
        a < 64,
    ensures
        forall|i: int| #[trigger] bit64(u64::MAX << a, i) == (a <= i < 64),
{
    assert forall|i: int| #[trigger] bit64(u64::MAX << a, i) == (a <= i < 64) by {
        if 0 <= i < 64 {
            let j = i as u64;
            assert(j < 64 && a < 64 ==> ((((u64::MAX << a) >> j) & 1u64 == 1u64) == (j >= a)))
                by (bit_vector);
        }
    }
}

/// A left shift moves every bit up by `o`; bits pushed past the top are lost.
pub proof fn lemma_bit64_shl(x: u64, o: u64)
    requires
        o < 64,
    ensures
        forall|i: int| #[trigger] bit64(x << o, i) == (o <= i < 64 && bit64(x, i - o)),
{
    assert forall|i: int| #[trigger] bit64(x << o, i) == (o <= i < 64 && bit64(x, i - o)) by {
        if 0 <= i < 64 {
            let j = i as u64;
            if j >= o {
                let k = (j - o) as u64;
                assert(j < 64 && o < 64 && j >= o && k == j - o ==> ((((x << o) >> j) & 1u64
                    == 1u64) == ((x >> k) & 1u64 == 1u64))) by (bit_vector);
            } else {
                assert(j < 64 && o < 64 && j < o ==> (((x << o) >> j) & 1u64 != 1u64))
                    by (bit_vector);
            }
        }
    }
}

/// A shift that loses no bit keeps every set bit below the top.
pub proof fn lemma_bit64_shl_lossless(x: u64, o: u64)
    requires
        o < 64,
        ((x << o) >> o) == x,
    ensures
        forall|i: int| #[trigger] bit64(x, i) ==> i + o < 64,
{
    assert forall|i: int| #[trigger] bit64(x, i) implies i + o < 64 by {
        if 0 <= i < 64 {
            let j = i as u64;
            assert(j < 64 && o < 64 && ((x << o) >> o) == x && (x >> j) & 1u64 == 1u64 ==> j + o
                < 64) by (bit_vector);
        }
    }
}

/// The zero word has no bit set.
pub proof fn lemma_bit64_zero()
    ensures
        forall|i: int| !#[trigger] bit64(0u64, i),
{
    assert forall|i: int| !#[trigger] bit64(0u64, i) by {
        if 0 <= i < 64 {
            let j = i as u64;
            assert(j < 64 ==> (0u64 >> j) & 1u64 == 0u64) by (bit_vector);
        }
    }
}

/// Complementing a word flips every bit.
pub proof fn lemma_bit64_not(b: u64)
    ensures
        forall|i: int| 0 <= i < 64 ==> #[trigger] bit64(!b, i) == !bit64(b, i),
{
    assert forall|i: int| 0 <= i < 64 implies #[trigger] bit64(!b, i) == !bit64(b, i) by {
        let j = i as u64;
        assert(j < 64 ==> ((((!b) >> j) & 1u64 == 1u64) == !((b >> j) & 1u64 == 1u64)))
            by (bit_vector);
    }
}

/// Associativity of bitwise or.
pub proof fn lemma_or_assoc(a: u64, b: u64, c: u64)
    ensures
        (a | b) | c == a | (b | c),
{
    assert((a | b) | c == a | (b | c)) by (bit_vector);
}

/// Removing freshly added disjoint bits restores the original word.
pub proof fn lemma_bit64_add_remove(x: u64, y: u64)
    requires
        x & y == 0,
    ensures
        (x | y) & !y == x,
{
    assert(x & y == 0 ==> (x | y) & !y == x) by (bit_vector);
}

} // verus!
