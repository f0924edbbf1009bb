//! Single bits of bytes and of 64-bit words.

use vstd::prelude::*;

verus! {

/// Bit `n` of `byte`, counted from the least significant.
pub open spec fn byte_bit(byte: u8, n: u8) -> bool {
    byte & (1u8 << n) != 0
}

/// The byte with only bit `n` set if `bit` holds, and zero otherwise.
pub open spec fn byte_flag(bit: bool, n: u8) -> u8 {
    if bit {
        1u8 << n
    } else {
        0u8
    }
}

/// Setting bit `n` in a byte whose bits from `n` upward are clear gives a byte
/// that has the bits of the old one below `n`, the new bit at `n`, and nothing
/// above.
pub proof fn lemma_byte_append_bit(low: u8, bit: bool, n: u8)
    requires
        n < 8,
        forall|m: u8| n <= m < 8 ==> !byte_bit(low, m),
    ensures
        forall|m: u8|
            m < n ==> #[trigger] byte_bit(low | byte_flag(bit, n), m) == byte_bit(low, m),
        byte_bit(low | byte_flag(bit, n), n) == bit,
        forall|m: u8| n < m < 8 ==> !#[trigger] byte_bit(low | byte_flag(bit, n), m),
{
    let next = low | byte_flag(bit, n);
    lemma_byte_or_flag(low, bit, n, n);
    assert forall|m: u8| m < n implies #[trigger] byte_bit(next, m) == byte_bit(low, m) by {
        lemma_byte_or_flag(low, bit, n, m);
    }
    assert forall|m: u8| n < m < 8 implies !#[trigger] byte_bit(next, m) by {
        lemma_byte_or_flag(low, bit, n, m);
    }
}

proof fn lemma_byte_or_flag(low: u8, bit: bool, n: u8, m: u8)
    requires
        n < 8,
        m < 8,
    ensures
        byte_bit(low | byte_flag(bit, n), m) == (if m == n {
            bit || byte_bit(low, m)
        } else {
            byte_bit(low, m)
        }),
{
    let flag = byte_flag(bit, n);
    assert((low | flag) & (1u8 << m) != 0 <==> (if m == n {
        bit || low & (1u8 << m) != 0
    } else {
        low & (1u8 << m) != 0
    })) by (bit_vector)
        requires
            n < 8,
            m < 8,
            flag == (if bit {
                1u8 << n
            } else {
                0u8
            }),
    ;
}

/// Two bytes with the same eight bits are the same byte.
pub proof fn lemma_byte_bits_determine(a: u8, b: u8)
    requires
        forall|m: u8| m < 8 ==> byte_bit(a, m) == byte_bit(b, m),
    ensures
        a == b,
{
    assert(byte_bit(a, 0) == byte_bit(b, 0));
    assert(byte_bit(a, 1) == byte_bit(b, 1));
    assert(byte_bit(a, 2) == byte_bit(b, 2));
    assert(byte_bit(a, 3) == byte_bit(b, 3));
    assert(byte_bit(a, 4) == byte_bit(b, 4));
    assert(byte_bit(a, 5) == byte_bit(b, 5));
    assert(byte_bit(a, 6) == byte_bit(b, 6));
    assert(byte_bit(a, 7) == byte_bit(b, 7));
    assert(a == b) by (bit_vector)
        requires
            (a & (1u8 << 0u8) != 0) == (b & (1u8 << 0u8) != 0),
            (a & (1u8 << 1u8) != 0) == (b & (1u8 << 1u8) != 0),
            (a & (1u8 << 2u8) != 0) == (b & (1u8 << 2u8) != 0),
            (a & (1u8 << 3u8) != 0) == (b & (1u8 << 3u8) != 0),
            (a & (1u8 << 4u8) != 0) == (b & (1u8 << 4u8) != 0),
            (a & (1u8 << 5u8) != 0) == (b & (1u8 << 5u8) != 0),
            (a & (1u8 << 6u8) != 0) == (b & (1u8 << 6u8) != 0),
            (a & (1u8 << 7u8) != 0) == (b & (1u8 << 7u8) != 0),
    ;
}

/// Reads bit `n` of `byte`.
pub(crate) fn get_byte_bit(byte: u8, n: u8) -> (bit: bool)
    requires
        n < 8,
    ensures
        bit == byte_bit(byte, n),
{
    0 != byte & (1u8 << n)
}

/// Bit `n` of `word`, counted from the least significant.
pub open spec fn word_bit(word: u64, n: u8) -> bool {
    word & (1u64 << n) != 0
}

/// `word` with bit `n` made equal to `bit`.
pub open spec fn with_bit(word: u64, n: u8, bit: bool) -> u64 {
    if bit {
        word | (1u64 << n)
    } else {
        word & !(1u64 << n)
    }
}

/// Writing one bit changes that bit and no other.
pub proof fn lemma_with_bit(word: u64, n: u8, bit: bool, m: u8)
    requires
        n < 64,
        m < 64,
    ensures
        word_bit(with_bit(word, n, bit), m) == (if m == n {
            bit
        } else {
            word_bit(word, m)
        }),
{
    assert((word | (1u64 << n)) & (1u64 << m) != 0 <==> (m == n || word & (1u64 << m) != 0))
        by (bit_vector)
        requires
            n < 64,
            m < 64,
    ;
    assert((word & !(1u64 << n)) & (1u64 << m) != 0 <==> (m != n && word & (1u64 << m) != 0))
        by (bit_vector)
        requires
            n < 64,
            m < 64,
    ;
}

/// Reads bit `n` of `word`.
pub(crate) fn get_word_bit(word: u64, n: u8) -> (bit: bool)
    requires
        n < 64,
    ensures
        bit == word_bit(word, n),
{
    0 != word & (1u64 << n)
}

/// Gives `word` with bit `n` made equal to `bit`.
pub(crate) fn set_word_bit(word: u64, n: u8, bit: bool) -> (out: u64)
    requires
        n < 64,
    ensures
        out == with_bit(word, n, bit),
{
    if bit {
        word | (1u64 << n)
    } else {
        word & !(1u64 << n)
    }
}

/// The zero word has no bit set.
pub proof fn lemma_zero_word(n: u8)
    requires
        n < 64,
    ensures
        !word_bit(0, n),
{
    assert(0u64 & (1u64 << n) == 0) by (bit_vector);
}

/// Whether `a` and `b` have the same bit at every place below `n`.
pub open spec fn agree_below(a: u64, b: u64, n: u8) -> bool {
    forall|i: u8| i < n ==> word_bit(a, i) == word_bit(b, i)
}

/// Whether `a` and `b` have the same bit at every place from `n` upward.
pub open spec fn agree_from(a: u64, b: u64, n: u8) -> bool {
    forall|i: u8| n <= i < 64 ==> word_bit(a, i) == word_bit(b, i)
}

/// The bits of `word` below place `n`, for `n` up to 64.
pub open spec fn low_bits(word: u64, n: u8) -> u64 {
    if n == 0 {
        0
    } else {
        word & (u64::MAX >> ((64 - n) as u8))
    }
}

proof fn lemma_low_bits_step(word: u64, n: u8)
    by (bit_vector)
    requires
        n < 64,
    ensures
        low_bits(word, (n + 1) as u8) == low_bits(word, n) | (word & (1u64 << n)),
        (word & (1u64 << n) != 0) ==> word & (1u64 << n) == 1u64 << n,
        low_bits(word, 64) == word,
{
}

proof fn lemma_agree_low_bits(a: u64, b: u64, n: u8)
    requires
        n <= 64,
        agree_below(a, b, n),
    ensures
        low_bits(a, n) == low_bits(b, n),
    decreases n,
{
    if n > 0 {
        let m = (n - 1) as u8;
        lemma_agree_low_bits(a, b, m);
        lemma_low_bits_step(a, m);
        lemma_low_bits_step(b, m);
        assert(word_bit(a, m) == word_bit(b, m));
    }
}

/// Two words with the same 64 bits are the same word.
pub proof fn lemma_word_bits_determine(a: u64, b: u64)
    requires
        agree_below(a, b, 64),
    ensures
        a == b,
{
    lemma_agree_low_bits(a, b, 64);
    lemma_low_bits_step(a, 0);
    lemma_low_bits_step(b, 0);
}

} // verus!
