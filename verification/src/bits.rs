//! The mathematical model that every contract in this crate speaks of: a
//! machine word as a row of bit positions, and the number of words of a
//! sequence that have a given position set.

use vstd::prelude::*;

verus! {

/// Whether position `i` of `x` holds a 1. Position 0 is the least
/// significant one; positions at or beyond the word width hold nothing.
pub open spec fn bit_at(x: usize, i: nat) -> bool {
    i < usize::BITS && (x >> (i as usize)) & 1 == 1
}

/// Reads position `i` of `x`.
pub fn test_bit(x: usize, i: u32) -> (b: bool)
    ensures
        b == bit_at(x, i as nat),
{
    if i < usize::BITS {
        (x >> i) & 1 == 1
    } else {
        false
    }
}

/// No position of zero is set.
pub proof fn lemma_bit_at_zero(i: nat)
    ensures
        !bit_at(0, i),
{
    if i < usize::BITS {
        let k: usize = i as usize;
        assert((0usize >> k) & 1 != 1) by (bit_vector);
    }
}

/// `^` acts on each position as "exactly one of the two".
pub proof fn lemma_bit_at_xor(a: usize, b: usize, i: nat)
    ensures
        bit_at(a ^ b, i) == (bit_at(a, i) != bit_at(b, i)),
{
    if i < usize::BITS {
        let k: usize = i as usize;
        assert((((a ^ b) >> k) & 1 == 1) == (((a >> k) & 1 == 1) != ((b >> k) & 1 == 1)))
            by (bit_vector);
    }
}

/// `&` acts on each position as "both".
pub proof fn lemma_bit_at_and(a: usize, b: usize, i: nat)
    ensures
        bit_at(a & b, i) == (bit_at(a, i) && bit_at(b, i)),
{
    if i < usize::BITS {
        let k: usize = i as usize;
        assert((((a & b) >> k) & 1 == 1) == (((a >> k) & 1 == 1) && ((b >> k) & 1 == 1)))
            by (bit_vector);
    }
}

/// `!` flips every position inside the word.
pub proof fn lemma_bit_at_not(a: usize, i: nat)
    ensures
        bit_at(!a, i) == (i < usize::BITS && !bit_at(a, i)),
{
    if i < usize::BITS {
        let k: usize = i as usize;
        assert((((!a) >> k) & 1 == 1) == !((a >> k) & 1 == 1)) by (bit_vector)
            requires
                k < usize::BITS,
        ;
    }
}

/// Shifting a word down and up again by nothing gives the word back.
proof fn lemma_low_clear_start(w: usize)
    by (bit_vector)
    ensures
        (w >> 0usize) << 0usize == w,
{
}

/// A word whose positions below `k` are clear, and whose position `k` is
/// clear too, has its positions below `k + 1` clear.
proof fn lemma_low_clear_step(w: usize, k: usize, k1: usize)
    by (bit_vector)
    requires
        k1 == k + 1,
        k1 < usize::BITS,
        (w >> k) << k == w,
        (w >> k) & 1 != 1,
    ensures
        (w >> k1) << k1 == w,
{
}

/// A word whose positions below the top one are clear, and whose top position
/// is clear too, is zero.
proof fn lemma_low_clear_top(w: usize, k: usize)
    by (bit_vector)
    requires
        k + 1 == usize::BITS,
        (w >> k) << k == w,
        (w >> k) & 1 != 1,
    ensures
        w == 0,
{
}

/// A word with no position set has, for every `k` inside the word, its
/// positions below `k` clear.
proof fn lemma_low_clear(w: usize, k: nat)
    requires
        forall|i: nat| !bit_at(w, i),
        k < usize::BITS,
    ensures
        (w >> (k as usize)) << (k as usize) == w,
    decreases k,
{
    if k == 0 {
        lemma_low_clear_start(w);
    } else {
        lemma_low_clear(w, (k - 1) as nat);
        assert(!bit_at(w, (k - 1) as nat));
        lemma_low_clear_step(w, (k - 1) as usize, k as usize);
    }
}

/// Zero is the only word with no position set.
pub proof fn lemma_no_bit_is_zero(w: usize)
    requires
        forall|i: nat| !bit_at(w, i),
    ensures
        w == 0,
{
    let top: nat = (usize::BITS - 1) as nat;
    lemma_low_clear(w, top);
    assert(!bit_at(w, top));
    lemma_low_clear_top(w, top as usize);
}

/// A word is determined by its positions: two words that agree at every
/// position are equal.
pub proof fn lemma_bits_determine_word(a: usize, b: usize)
    requires
        forall|i: nat| bit_at(a, i) == bit_at(b, i),
    ensures
        a == b,
{
    assert forall|i: nat| !bit_at(a ^ b, i) by {
        lemma_bit_at_xor(a, b, i);
    }
    lemma_no_bit_is_zero(a ^ b);
    assert(a == b) by (bit_vector)
        requires
            a ^ b == 0,
    ;
}

/// How many words of `s` have position `i` set.
pub open spec fn popcount_at(s: Seq<usize>, i: nat) -> nat
    decreases s.len(),
{
    if s.len() == 0 {
        0
    } else {
        popcount_at(s.drop_last(), i) + if bit_at(s.last(), i) {
            1nat
        } else {
            0nat
        }
    }
}

/// How many words at the end of `s`, counted back from the last one without a
/// gap, have position `i` set.
pub open spec fn trailing_run_at(s: Seq<usize>, i: nat) -> nat
    decreases s.len(),
{
    if s.len() == 0 || !bit_at(s.last(), i) {
        0
    } else {
        trailing_run_at(s.drop_last(), i) + 1
    }
}

/// A prefix never counts more than the whole sequence.
pub proof fn lemma_popcount_prefix(s: Seq<usize>, k: int, i: nat)
    requires
        0 <= k <= s.len(),
    ensures
        popcount_at(s.take(k), i) <= popcount_at(s, i),
    decreases s.len(),
{
    if k == s.len() {
        assert(s.take(k) =~= s);
    } else {
        lemma_popcount_prefix(s.drop_last(), k, i);
        assert(s.drop_last().take(k) =~= s.take(k));
    }
}

} // verus!
