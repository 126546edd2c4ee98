//! Facts about single bits of machine words, used by every bitmap representation.

use vstd::prelude::*;

verus! {

/// Bit `j` of the byte `b`.
pub open spec fn byte_bit(b: u8, j: u8) -> bool {
    (b >> j) & 1u8 == 1u8
}

/// Bit `j` of the word `w`.
pub open spec fn word_bit(w: u64, j: u64) -> bool {
    (w >> j) & 1u64 == 1u64
}

pub proof fn lemma_byte_set_bit(b: u8, t: u8, j: u8)
    requires
        t < 8,
        j < 8,
    ensures
        byte_bit(b | (1u8 << t), j) == (j == t || byte_bit(b, j)),
{
    assert(((b | (1u8 << t)) >> j) & 1u8 == 1u8 <==> (j == t || (b >> j) & 1u8 == 1u8))
        by (bit_vector)
        requires
            t < 8,
            j < 8,
    ;
}

pub proof fn lemma_byte_zero(j: u8)
    requires
        j < 8,
    ensures
        !byte_bit(0u8, j),
{
    assert((0u8 >> j) & 1u8 != 1u8) by (bit_vector);
}

pub proof fn lemma_u16_div_mod_8(n: u16)
    ensures
        n >> 3u16 == n / 8,
        n & 7u16 == n % 8,
{
    assert(n >> 3u16 == n / 8) by (bit_vector);
    assert(n & 7u16 == n % 8) by (bit_vector);
}

pub proof fn lemma_u16_div_mod_64(n: u16)
    ensures
        n >> 6u16 == n / 64,
        n & 63u16 == n % 64,
{
    assert(n >> 6u16 == n / 64) by (bit_vector);
    assert(n & 63u16 == n % 64) by (bit_vector);
}

pub proof fn lemma_u16_lane_index(n: u16)
    ensures
        n >> 9u16 == n / 512,
        (n >> 6u16) & 7u16 == (n / 64) % 8,
        n / 64 == 8 * (n / 512) + (n / 64) % 8,
        n >> 6u16 == n / 64,
        n & 63u16 == n % 64,
{
    assert(n >> 9u16 == n / 512) by (bit_vector);
    assert((n >> 6u16) & 7u16 == (n / 64) % 8) by (bit_vector);
    assert(n / 64 == 8 * (n / 512) + (n / 64) % 8) by (bit_vector);
    lemma_u16_div_mod_64(n);
}

pub proof fn lemma_word_set_bit(w: u64, t: u64, j: u64)
    requires
        t < 64,
        j < 64,
    ensures
        word_bit(w | (1u64 << t), j) == (j == t || word_bit(w, j)),
        word_bit(w & !(1u64 << t), j) == (j != t && word_bit(w, j)),
        (w & (1u64 << t) != 0u64) == word_bit(w, t),
{
    assert(((w | (1u64 << t)) >> j) & 1u64 == 1u64 <==> (j == t || (w >> j) & 1u64 == 1u64))
        by (bit_vector)
        requires
            t < 64,
            j < 64,
    ;
    assert(((w & !(1u64 << t)) >> j) & 1u64 == 1u64 <==> (j != t && (w >> j) & 1u64 == 1u64))
        by (bit_vector)
        requires
            t < 64,
            j < 64,
    ;
    assert((w & (1u64 << t) != 0u64) <==> ((w >> t) & 1u64 == 1u64)) by (bit_vector)
        requires
            t < 64,
    ;
}

pub proof fn lemma_word_ops(a: u64, b: u64, j: u64)
    requires
        j < 64,
    ensures
        word_bit(a | b, j) == (word_bit(a, j) || word_bit(b, j)),
        word_bit(a & b, j) == (word_bit(a, j) && word_bit(b, j)),
        word_bit(a & !b, j) == (word_bit(a, j) && !word_bit(b, j)),
        word_bit(a ^ b, j) == (word_bit(a, j) != word_bit(b, j)),
        !word_bit(0u64, j),
{
    assert(((a | b) >> j) & 1u64 == 1u64 <==> ((a >> j) & 1u64 == 1u64 || (b >> j) & 1u64 == 1u64))
        by (bit_vector);
    assert(((a & b) >> j) & 1u64 == 1u64 <==> ((a >> j) & 1u64 == 1u64 && (b >> j) & 1u64 == 1u64))
        by (bit_vector);
    assert(((a & !b) >> j) & 1u64 == 1u64 <==> ((a >> j) & 1u64 == 1u64 && !((b >> j) & 1u64
        == 1u64))) by (bit_vector)
        requires
            j < 64,
    ;
    assert(((a ^ b) >> j) & 1u64 == 1u64 <==> ((a >> j) & 1u64 == 1u64) != ((b >> j) & 1u64
        == 1u64)) by (bit_vector);
    assert((0u64 >> j) & 1u64 != 1u64) by (bit_vector);
}

/// The byte operations on flags that are 0 or 1.
pub proof fn lemma_flag_ops(a: u8, b: u8)
    requires
        a <= 1,
        b <= 1,
    ensures
        a | b <= 1,
        (a | b != 0) == (a != 0 || b != 0),
        a & b <= 1,
        (a & b != 0) == (a != 0 && b != 0),
        a & !b <= 1,
        (a & !b != 0) == (a != 0 && b == 0),
        a ^ b <= 1,
        (a ^ b != 0) == ((a != 0) != (b != 0)),
{
    assert(a | b <= 1 && ((a | b != 0) == (a != 0 || b != 0))) by (bit_vector)
        requires
            a <= 1,
            b <= 1,
    ;
    assert(a & b <= 1 && ((a & b != 0) == (a != 0 && b != 0))) by (bit_vector)
        requires
            a <= 1,
            b <= 1,
    ;
    assert(a & !b <= 1 && ((a & !b != 0) == (a != 0 && b == 0))) by (bit_vector)
        requires
            a <= 1,
            b <= 1,
    ;
    assert(a ^ b <= 1 && ((a ^ b != 0) == ((a != 0) != (b != 0)))) by (bit_vector)
        requires
            a <= 1,
            b <= 1,
    ;
}

} // verus!
