//! Bits of 64-bit words, and of bitmaps made of them.
use vstd::prelude::*;

verus! {

/// Bit `k` of `word`, counted from the least significant.
pub open spec fn bit(word: u64, k: int) -> bool {
    (word >> (k as u64)) & 1 == 1
}

/// Bit `i` of the bitmap `words`, which holds 64 bits to a word.
pub open spec fn bit_at(words: Seq<u64>, i: int) -> bool {
    bit(words[i / 64], i % 64)
}

/// Setting bit `k` of a word leaves every other bit alone.
pub proof fn lemma_set_bit(word: u64, k: u64)
    requires
        k < 64,
    ensures
        forall|j: int| 0 <= j < 64 ==> #[trigger] bit(word | (1u64 << k), j) == (j == k || bit(word, j)),
{
    assert forall|j: int| 0 <= j < 64 implies #[trigger] bit(word | (1u64 << k), j) == (j == k || bit(word, j)) by {
        let b = j as u64;
        assert(((word | (1u64 << k)) >> b) & 1 == 1 <==> (b == k || (word >> b) & 1 == 1)) by (bit_vector)
            requires
                k < 64,
                b < 64,
        ;
    }
}

/// Clearing bit `k` of a word leaves every other bit alone.
pub proof fn lemma_clear_bit(word: u64, k: u64)
    requires
        k < 64,
    ensures
        forall|j: int| 0 <= j < 64 ==> #[trigger] bit(word & !(1u64 << k), j) == (j != k && bit(word, j)),
{
    assert forall|j: int| 0 <= j < 64 implies #[trigger] bit(word & !(1u64 << k), j) == (j != k && bit(word, j)) by {
        let b = j as u64;
        assert(((word & !(1u64 << k)) >> b) & 1 == 1 <==> (b != k && (word >> b) & 1 == 1)) by (bit_vector)
            requires
                k < 64,
                b < 64,
        ;
    }
}

/// The zero word has no bit set, the all-ones word has every bit set.
pub proof fn lemma_constant_words()
    ensures
        forall|j: int| 0 <= j < 64 ==> !#[trigger] bit(0u64, j),
        forall|j: int| 0 <= j < 64 ==> #[trigger] bit(u64::MAX, j),
{
    assert forall|j: int| 0 <= j < 64 implies !#[trigger] bit(0u64, j) by {
        let b = j as u64;
        assert((0u64 >> b) & 1 == 0) by (bit_vector);
    }
    assert forall|j: int| 0 <= j < 64 implies #[trigger] bit(u64::MAX, j) by {
        let b = j as u64;
        assert((0xffff_ffff_ffff_ffffu64 >> b) & 1 == 1) by (bit_vector)
            requires
                b < 64,
        ;
    }
}

/// `(1 << len) - 1` has exactly its `len` lowest bits set.
pub proof fn lemma_low_ones(len: u64)
    requires
        len < 64,
    ensures
        1u64 << len >= 1,
        forall|j: int| 0 <= j < 64 ==> #[trigger] bit(((1u64 << len) - 1) as u64, j) == (j < len),
{
    assert(1u64 << len >= 1) by (bit_vector)
        requires
            len < 64,
    ;
    let ones = ((1u64 << len) - 1) as u64;
    assert forall|j: int| 0 <= j < 64 implies #[trigger] bit(ones, j) == (j < len) by {
        let b = j as u64;
        let top = 1u64 << len;
        assert((ones >> b) & 1 == 1 <==> b < len) by (bit_vector)
            requires
                len < 64,
                b < 64,
                top == 1u64 << len,
                top >= 1,
                ones == top - 1,
        ;
    }
}

/// The lowest set bit of `!word & mask`, where `mask` keeps the bits from
/// `offset` on, is the lowest clear bit of `word` from `offset` on.
pub proof fn lemma_first_clear_bit(word: u64, offset: u64, free: u64)
    requires
        offset < 64,
        free == !word & (u64::MAX << offset),
    ensures
        free == 0 ==> forall|j: int| offset <= j < 64 ==> #[trigger] bit(word, j),
        free != 0 ==> {
            let t = vstd::std_specs::bits::u64_trailing_zeros(free) as int;
            &&& offset <= t < 64
            &&& !bit(word, t)
            &&& forall|j: int| offset <= j < t ==> #[trigger] bit(word, j)
        },
{
    let z = vstd::std_specs::bits::u64_trailing_zeros(free) as u64;
    vstd::std_specs::bits::axiom_u64_trailing_zeros(free);
    if free == 0 {
        assert forall|j: int| offset <= j < 64 implies #[trigger] bit(word, j) by {
            let b = j as u64;
            assert((word >> b) & 1 == 1) by (bit_vector)
                requires
                    offset <= b < 64,
                    0 == !word & (0xffff_ffff_ffff_ffffu64 << offset),
            ;
        }
    } else {
        assert((word >> z) & 1 != 1 && offset <= z) by (bit_vector)
            requires
                offset < 64,
                z < 64,
                free == !word & (0xffff_ffff_ffff_ffffu64 << offset),
                (free >> z) & 1 == 1,
        ;
        assert forall|j: int| offset <= j < z implies #[trigger] bit(word, j) by {
            let b = j as u64;
            assert((free >> b) & 1 == 0);
            assert((word >> b) & 1 == 1) by (bit_vector)
                requires
                    offset <= b < 64,
                    free == !word & (0xffff_ffff_ffff_ffffu64 << offset),
                    (free >> b) & 1 == 0,
            ;
        }
    }
}

} // verus!
