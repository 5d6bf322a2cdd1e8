//! Single words of a bitmap. Bit positions count from the most significant
//! end: position 0 is the highest-order bit.

use vstd::prelude::*;
use vstd::std_specs::bits::{axiom_u64_leading_ones, u64_leading_ones};

verus! {

/// The mask of bit position 0; shifted right by `pos` it is the mask of
/// position `pos`.
pub const FREE_MASK: u64 = 0x8000_0000_0000_0000;

/// A word with every bit set.
pub const FULL_WORD: u64 = 0xffff_ffff_ffff_ffff;

/// Whether the bit at position `pos` of `word` is set.
pub open spec fn bit_is_set(word: u64, pos: int) -> bool {
    0 <= pos < 64 && word & (FREE_MASK >> (pos as u64)) != 0
}

/// The position of the leftmost clear bit of `word`, or 64 if there is none.
pub open spec fn leading_ones(word: u64) -> int {
    u64_leading_ones(word) as int
}

/// No bit of the zero word is set.
pub proof fn lemma_zero_word(pos: int)
    ensures
        !bit_is_set(0, pos),
{
    if 0 <= pos < 64 {
        let p: u64 = pos as u64;
        assert(0u64 & (0x8000_0000_0000_0000u64 >> p) == 0) by (bit_vector);
    }
}

/// Every bit of the full word is set.
pub proof fn lemma_full_word(pos: int)
    requires
        0 <= pos < 64,
    ensures
        bit_is_set(FULL_WORD, pos),
{
    let p: u64 = pos as u64;
    assert(0xffff_ffff_ffff_ffffu64 & (0x8000_0000_0000_0000u64 >> p) != 0) by (bit_vector)
        requires
            p < 64,
    ;
}

/// A word whose 64 bits are all set is the full word.
pub proof fn lemma_all_set_is_full(word: u64)
    requires
        forall|pos: int| 0 <= pos < 64 ==> bit_is_set(word, pos),
    ensures
        word == FULL_WORD,
{
    lemma_leading_ones(word);
}

/// What the count of leading ones says of the bits: the bits before it are
/// set, the bit at it is clear, and it is 64 exactly for the full word.
pub proof fn lemma_leading_ones(word: u64)
    ensures
        0 <= leading_ones(word) <= 64,
        leading_ones(word) == 64 <==> word == FULL_WORD,
        forall|pos: int| 0 <= pos < leading_ones(word) ==> bit_is_set(word, pos),
        leading_ones(word) < 64 ==> !bit_is_set(word, leading_ones(word)),
{
    axiom_u64_leading_ones(word);
    let n: u64 = u64_leading_ones(word) as u64;
    assert forall|pos: int| 0 <= pos < leading_ones(word) implies bit_is_set(word, pos) by {
        let p: u64 = pos as u64;
        let j: u64 = (63 - p) as u64;
        assert(word & (0x8000_0000_0000_0000u64 >> p) != 0) by (bit_vector)
            requires
                p < 64,
                j == 63 - p,
                (word >> j) & 1u64 == 1u64,
        ;
    }
    if n < 64 {
        let j: u64 = (63 - n) as u64;
        assert(word & (0x8000_0000_0000_0000u64 >> n) == 0) by (bit_vector)
            requires
                n < 64,
                j == 63 - n,
                (word >> j) & 1u64 == 0u64,
        ;
    }
}

/// Setting the bit at `pos` sets that bit and leaves the others as they were.
pub proof fn lemma_set_bit(word: u64, pos: int, other: int)
    requires
        0 <= pos < 64,
    ensures
        bit_is_set(word | (FREE_MASK >> (pos as u64)), other) == (other == pos || bit_is_set(
            word,
            other,
        )),
{
    if 0 <= other < 64 {
        let p: u64 = pos as u64;
        let q: u64 = other as u64;
        assert(((word | (0x8000_0000_0000_0000u64 >> p)) & (0x8000_0000_0000_0000u64 >> q) != 0)
            == (q == p || word & (0x8000_0000_0000_0000u64 >> q) != 0)) by (bit_vector)
            requires
                p < 64,
                q < 64,
        ;
    }
}

/// Clearing the bit at `pos` clears that bit and leaves the others as they
/// were.
pub proof fn lemma_clear_bit(word: u64, pos: int, other: int)
    requires
        0 <= pos < 64,
    ensures
        bit_is_set(word & !(FREE_MASK >> (pos as u64)), other) == (other != pos && bit_is_set(
            word,
            other,
        )),
{
    if 0 <= other < 64 {
        let p: u64 = pos as u64;
        let q: u64 = other as u64;
        assert(((word & !(0x8000_0000_0000_0000u64 >> p)) & (0x8000_0000_0000_0000u64 >> q) != 0)
            == (q != p && word & (0x8000_0000_0000_0000u64 >> q) != 0)) by (bit_vector)
            requires
                p < 64,
                q < 64,
        ;
    }
}

} // verus!
