//! A bitmap of 1024 words of 64 bits, one bit for each `u16`: the storage
//! of the word-based bit sets.

use vstd::prelude::*;
use crate::bits::{lemma_u16_div_mod_64, lemma_word_ops, lemma_word_set_bit, word_bit};
use crate::count::{count_true, lemma_count_step, lemma_increasing_no_dup, lemma_push_to_set, lemma_true_set_len, true_set};
use crate::set_int::sym_diff;

verus! {

/// Whether bit `n % 64` of word `n / 64` is set.
pub open spec fn word_has(words: Seq<u64>, n: int) -> bool {
    word_bit(words[n / 64], (n % 64) as u64)
}

/// The integers whose bit is set.
pub open spec fn words_view(words: Seq<u64>) -> Set<u16> {
    Set::new(|n: u16| word_has(words, n as int))
}

/// One flag for each integer, in order.
pub open spec fn words_flags(words: Seq<u64>) -> Seq<bool> {
    Seq::new(65536, |k: int| word_has(words, k))
}

/// The result of combining two bitmaps word by word with the operation
/// numbered `op`: or, and, and-not, xor.
pub open spec fn combined(a: u64, b: u64, op: u8) -> u64 {
    if op == 0 {
        a | b
    } else if op == 1 {
        a & b
    } else if op == 2 {
        a & !b
    } else {
        a ^ b
    }
}

/// The set operation that `combined` performs.
pub open spec fn combined_set(a: Set<u16>, b: Set<u16>, op: u8) -> Set<u16> {
    if op == 0 {
        a.union(b)
    } else if op == 1 {
        a.intersect(b)
    } else if op == 2 {
        a.difference(b)
    } else {
        sym_diff(a, b)
    }
}

proof fn lemma_index_split(n: int)
    requires
        0 <= n < 65536,
    ensures
        0 <= n / 64 < 1024,
        0 <= n % 64 < 64,
        n == 64 * (n / 64) + n % 64,
{
}

proof fn lemma_index_join(i: int, j: int)
    requires
        0 <= i < 1024,
        0 <= j < 64,
    ensures
        (64 * i + j) / 64 == i,
        (64 * i + j) % 64 == j,
        0 <= 64 * i + j < 65536,
{
    vstd::arithmetic::div_mod::lemma_fundamental_div_mod_converse(64 * i + j, 64, i, j);
}

/// Setting the bit of `n` in its word adds `n`.
pub proof fn lemma_view_set(s: Seq<u64>, n: u16, t: u64)
    requires
        s.len() == 1024,
        t == (n % 64) as u64,
    ensures
        words_view(s.update((n / 64) as int, s[(n / 64) as int] | (1u64 << t))) == words_view(
            s,
        ).insert(n),
{
    lemma_index_split(n as int);
    let s2 = s.update((n / 64) as int, s[(n / 64) as int] | (1u64 << t));
    assert forall|m: u16| #[trigger] words_view(s2).contains(m) == words_view(s).insert(n).contains(
        m,
    ) by {
        lemma_index_split(m as int);
        if m / 64 == n / 64 {
            lemma_word_set_bit(s[(n / 64) as int], t, (m % 64) as u64);
        }
    }
    assert(words_view(s2) =~= words_view(s).insert(n));
}

/// Clearing the bit of `n` in its word takes `n` out.
pub proof fn lemma_view_clear(s: Seq<u64>, n: u16, t: u64)
    requires
        s.len() == 1024,
        t == (n % 64) as u64,
    ensures
        words_view(s.update((n / 64) as int, s[(n / 64) as int] & !(1u64 << t))) == words_view(
            s,
        ).remove(n),
        (s[(n / 64) as int] & (1u64 << t) != 0u64) == words_view(s).contains(n),
{
    lemma_index_split(n as int);
    lemma_word_set_bit(s[(n / 64) as int], t, t);
    let s2 = s.update((n / 64) as int, s[(n / 64) as int] & !(1u64 << t));
    assert forall|m: u16| #[trigger] words_view(s2).contains(m) == words_view(s).remove(n).contains(
        m,
    ) by {
        lemma_index_split(m as int);
        if m / 64 == n / 64 {
            lemma_word_set_bit(s[(n / 64) as int], t, (m % 64) as u64);
        }
    }
    assert(words_view(s2) =~= words_view(s).remove(n));
}

/// Combining word by word performs the set operation.
pub proof fn lemma_view_combine(a: Seq<u64>, b: Seq<u64>, c: Seq<u64>, op: u8)
    requires
        a.len() == 1024,
        b.len() == 1024,
        c.len() == 1024,
        op < 4,
        forall|i: int| 0 <= i < 1024 ==> #[trigger] c[i] == combined(a[i], b[i], op),
    ensures
        words_view(c) == combined_set(words_view(a), words_view(b), op),
{
    assert forall|n: u16| #[trigger] words_view(c).contains(n) == combined_set(
        words_view(a),
        words_view(b),
        op,
    ).contains(n) by {
        lemma_index_split(n as int);
        lemma_word_ops(a[(n / 64) as int], b[(n / 64) as int], (n % 64) as u64);
    }
    assert(words_view(c) =~= combined_set(words_view(a), words_view(b), op));
}

/// A bitmap whose words are all zero holds nothing.
pub proof fn lemma_view_zero(s: Seq<u64>)
    requires
        s.len() == 1024,
        forall|i: int| 0 <= i < 1024 ==> s[i] == 0u64,
    ensures
        words_view(s) == Set::<u16>::empty(),
{
    assert forall|n: u16| !#[trigger] words_view(s).contains(n) by {
        lemma_index_split(n as int);
        lemma_word_ops(0, 0, (n % 64) as u64);
    }
    assert(words_view(s) =~= Set::<u16>::empty());
}

/// Adds to `count` the set bits of `w`, the word that holds the flags
/// `base .. base + 64` of `flags`.
pub(crate) fn count_word(w: u64, count: usize, Ghost(flags): Ghost<Seq<bool>>, Ghost(base): Ghost<int>) -> (r: usize)
    requires
        0 <= base,
        base + 64 <= flags.len() <= 65536,
        forall|j: u64| j < 64 ==> flags[base + j] == #[trigger] word_bit(w, j),
        count == count_true(flags.take(base)),
        count <= base,
    ensures
        r == count_true(flags.take(base + 64)),
        r <= base + 64,
{
    let mut count = count;
    let mut j: u64 = 0;
    while j < 64
        invariant
            j <= 64,
            0 <= base,
            base + 64 <= flags.len() <= 65536,
            forall|k: u64| k < 64 ==> flags[base + k] == #[trigger] word_bit(w, k),
            count <= base + j,
            count == count_true(flags.take(base + j)),
        decreases 64 - j,
    {
        proof {
            lemma_count_step(flags, base + j);
            assert(flags[base + j] == word_bit(w, j));
        }
        if (w >> j) & 1u64 == 1u64 {
            count = count + 1;
        }
        j = j + 1;
    }
    count
}

/// Appends, in increasing order, `base + j` for each set bit `j` of `w`.
pub(crate) fn push_word_elems(elems: &mut Vec<u16>, w: u64, base: usize, Ghost(s): Ghost<Set<u16>>)
    requires
        base + 64 <= 65536,
        forall|a: int, b: int| 0 <= a < b < old(elems)@.len() ==> old(elems)@[a] < old(elems)@[b],
        forall|a: int| 0 <= a < old(elems)@.len() ==> old(elems)@[a] < base,
        old(elems)@.to_set() == s.filter(|m: u16| (m as int) < base),
        forall|j: u64| j < 64 ==> s.contains((base + j) as u16) == #[trigger] word_bit(w, j),
    ensures
        forall|a: int, b: int| 0 <= a < b < final(elems)@.len() ==> final(elems)@[a] < final(elems)@[b],
        forall|a: int| 0 <= a < final(elems)@.len() ==> final(elems)@[a] < base + 64,
        final(elems)@.to_set() == s.filter(|m: u16| (m as int) < base + 64),
{
    let mut j: u64 = 0;
    while j < 64
        invariant
            j <= 64,
            base + 64 <= 65536,
            forall|a: int, b: int| 0 <= a < b < elems@.len() ==> elems@[a] < elems@[b],
            forall|a: int| 0 <= a < elems@.len() ==> elems@[a] < base + j,
            elems@.to_set() == s.filter(|m: u16| (m as int) < base + j),
            forall|k: u64| k < 64 ==> s.contains((base + k) as u16) == #[trigger] word_bit(w, k),
        decreases 64 - j,
    {
        let ghost before = elems@;
        let n: u16 = (base + j as usize) as u16;
        assert(s.contains(n) == word_bit(w, j));
        if (w >> j) & 1u64 == 1u64 {
            elems.push(n);
            proof {
                lemma_push_to_set(before, n);
            }
        }
        assert(elems@.to_set() =~= s.filter(|m: u16| (m as int) < base + j + 1));
        j = j + 1;
    }
}

/// An all-zero bitmap.
pub fn words_zero() -> (words: [u64; 1024])
    ensures
        words_view(words@) == Set::<u16>::empty(),
{
    let words: [u64; 1024] = [0u64; 1024];
    assert(words == vstd::array::spec_array_fill_for_copy_type::<u64, 1024>(0u64));
    proof {
        assert forall|n: u16| !#[trigger] words_view(words@).contains(n) by {
            lemma_index_split(n as int);
            lemma_word_ops(0, 0, (n % 64) as u64);
        }
        assert(words_view(words@) =~= Set::<u16>::empty());
    }
    words
}

/// Clears every bit.
pub fn words_clear(words: &mut [u64; 1024])
    ensures
        words_view(final(words)@) == Set::<u16>::empty(),
{
    let mut i: usize = 0;
    while i < 1024
        invariant
            i <= 1024,
            forall|j: int| 0 <= j < i ==> words[j] == 0u64,
        decreases 1024 - i,
    {
        words[i] = 0u64;
        i = i + 1;
    }
    proof {
        assert forall|n: u16| !#[trigger] words_view(words@).contains(n) by {
            lemma_index_split(n as int);
            lemma_word_ops(0, 0, (n % 64) as u64);
        }
        assert(words_view(words@) =~= Set::<u16>::empty());
    }
}

/// Sets the bit of `n`.
pub fn words_insert(words: &mut [u64; 1024], n: u16)
    ensures
        words_view(final(words)@) == words_view(old(words)@).insert(n),
{
    proof {
        lemma_u16_div_mod_64(n);
        lemma_index_split(n as int);
    }
    let idx = (n >> 6u16) as usize;
    let t = (n & 63u16) as u64;
    let w = words[idx];
    words[idx] = w | (1u64 << t);
    proof {
        assert forall|m: u16| #[trigger] words_view(words@).contains(m) == words_view(
            old(words)@,
        ).insert(n).contains(m) by {
            lemma_index_split(m as int);
            if m / 64 == n / 64 {
                lemma_word_set_bit(w, t, (m % 64) as u64);
            }
        }
        assert(words_view(words@) =~= words_view(old(words)@).insert(n));
    }
}

/// Clears the bit of `n`; tells whether it was set.
pub fn words_remove(words: &mut [u64; 1024], n: u16) -> (was_set: bool)
    ensures
        words_view(final(words)@) == words_view(old(words)@).remove(n),
        was_set == words_view(old(words)@).contains(n),
{
    proof {
        lemma_u16_div_mod_64(n);
        lemma_index_split(n as int);
    }
    let idx = (n >> 6u16) as usize;
    let t = (n & 63u16) as u64;
    let mask = 1u64 << t;
    let w = words[idx];
    words[idx] = w & !mask;
    proof {
        lemma_word_set_bit(w, t, t);
        assert forall|m: u16| #[trigger] words_view(words@).contains(m) == words_view(
            old(words)@,
        ).remove(n).contains(m) by {
            lemma_index_split(m as int);
            if m / 64 == n / 64 {
                lemma_word_set_bit(w, t, (m % 64) as u64);
            }
        }
        assert(words_view(words@) =~= words_view(old(words)@).remove(n));
    }
    (w & mask) != 0
}

/// Whether the bit of `n` is set.
pub fn words_contains(words: &[u64; 1024], n: u16) -> (present: bool)
    ensures
        present == words_view(words@).contains(n),
{
    proof {
        lemma_u16_div_mod_64(n);
        lemma_index_split(n as int);
    }
    let idx = (n >> 6u16) as usize;
    let t = (n & 63u16) as u64;
    proof {
        lemma_word_set_bit(words[idx as int], t, t);
    }
    (words[idx] & (1u64 << t)) != 0
}

/// The number of set bits.
pub fn words_count(words: &[u64; 1024]) -> (count: usize)
    ensures
        count == words_view(words@).len(),
{
    let ghost flags = words_flags(words@);
    let mut count: usize = 0;
    let mut i: usize = 0;
    while i < 1024
        invariant
            i <= 1024,
            flags == words_flags(words@),
            count <= 64 * i,
            count == count_true(flags.take(64 * i)),
        decreases 1024 - i,
    {
        let w = words[i];
        let mut j: u64 = 0;
        while j < 64
            invariant
                i < 1024,
                j <= 64,
                w == words[i as int],
                flags == words_flags(words@),
                count <= 64 * i + j,
                count == count_true(flags.take(64 * i + j)),
            decreases 64 - j,
        {
            proof {
                lemma_index_join(i as int, j as int);
                lemma_count_step(flags, 64 * i + j);
            }
            if (w >> j) & 1u64 == 1u64 {
                count = count + 1;
            }
            j = j + 1;
        }
        i = i + 1;
    }
    proof {
        assert(flags.take(65536) =~= flags);
        lemma_true_set_len(flags);
        assert(true_set(flags) =~= words_view(words@));
    }
    count
}

/// The integers whose bit is set, in increasing order.
pub fn words_elems(words: &[u64; 1024]) -> (elems: Vec<u16>)
    ensures
        elems@.to_set() == words_view(words@),
        elems@.no_duplicates(),
        forall|a: int, b: int| 0 <= a < b < elems@.len() ==> elems@[a] < elems@[b],
{
    let mut elems: Vec<u16> = Vec::new();
    let mut i: usize = 0;
    while i < 1024
        invariant
            i <= 1024,
            forall|a: int, b: int| 0 <= a < b < elems@.len() ==> elems@[a] < elems@[b],
            forall|a: int| 0 <= a < elems@.len() ==> elems@[a] < 64 * i,
            elems@.to_set() == words_view(words@).filter(|m: u16| (m as int) < 64 * i),
        decreases 1024 - i,
    {
        let w = words[i];
        let mut j: u64 = 0;
        while j < 64
            invariant
                i < 1024,
                j <= 64,
                w == words[i as int],
                forall|a: int, b: int| 0 <= a < b < elems@.len() ==> elems@[a] < elems@[b],
                forall|a: int| 0 <= a < elems@.len() ==> elems@[a] < 64 * i + j,
                elems@.to_set() == words_view(words@).filter(|m: u16| (m as int) < 64 * i + j),
            decreases 64 - j,
        {
            proof {
                lemma_index_join(i as int, j as int);
            }
            let ghost before = elems@;
            let n: u16 = (64 * i + j as usize) as u16;
            if (w >> j) & 1u64 == 1u64 {
                elems.push(n);
                proof {
                    lemma_push_to_set(before, n);
                }
            }
            proof {
                assert forall|m: u16| #[trigger] elems@.to_set().contains(m) == words_view(
                    words@,
                ).filter(|m: u16| (m as int) < 64 * i + j + 1).contains(m) by {
                    if m == n {
                        lemma_index_split(m as int);
                    }
                }
                assert(elems@.to_set() =~= words_view(words@).filter(
                    |m: u16| (m as int) < 64 * i + j + 1,
                ));
            }
            j = j + 1;
        }
        i = i + 1;
    }
    proof {
        lemma_increasing_no_dup(elems@);
        assert(words_view(words@).filter(|m: u16| (m as int) < 64 * 1024) =~= words_view(
            words@,
        ));
    }
    elems
}

/// Combines `other` into `words`, word by word, with the operation `op`.
pub fn words_combine(words: &mut [u64; 1024], other: &[u64; 1024], op: u8)
    requires
        op < 4,
    ensures
        words_view(final(words)@) == combined_set(words_view(old(words)@), words_view(other@), op),
{
    let mut i: usize = 0;
    while i < 1024
        invariant
            i <= 1024,
            op < 4,
            forall|j: int| 0 <= j < i ==> #[trigger] words[j] == combined(old(words)[j], other[j], op),
            forall|j: int| i <= j < 1024 ==> #[trigger] words[j] == old(words)[j],
        decreases 1024 - i,
    {
        let a = words[i];
        let b = other[i];
        let c = if op == 0 {
            a | b
        } else if op == 1 {
            a & b
        } else if op == 2 {
            a & !b
        } else {
            a ^ b
        };
        words[i] = c;
        i = i + 1;
    }
    proof {
        let s = words_view(old(words)@);
        let o = words_view(other@);
        assert forall|n: u16| #[trigger] words_view(words@).contains(n) == combined_set(s, o, op).contains(n) by {
            lemma_index_split(n as int);
            lemma_word_ops(old(words)[(n / 64) as int], other[(n / 64) as int], (n % 64) as u64);
        }
        assert(words_view(words@) =~= combined_set(s, o, op));
    }
}

} // verus!
