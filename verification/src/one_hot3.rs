//! Two registers `d0`, `d1` that hold, at every bit position, a residue
//! modulo 3 in one-hot form: no register set for 0, `d0` alone for 1, `d1`
//! alone for 2.
//!
//! Each register takes the word in by `^` and is cleared wherever the other
//! register is set; `d1` is computed from the `d0` that the same word has
//! just produced. A position moves through 0, 1, 2 and back to 0 with each
//! word that has it set.

use vstd::prelude::*;
use crate::bits::{bit_at, popcount_at, test_bit, lemma_bit_at_zero, lemma_bit_at_xor,
    lemma_bit_at_and, lemma_bit_at_not, lemma_no_bit_is_zero, lemma_bits_determine_word};

verus! {

/// The registers of a one-hot tally modulo 3.
#[derive(Clone, Copy, Debug, PartialEq, Eq, Structural)]
pub struct OneHot3 {
    /// Positions that hold residue 1.
    pub d0: usize,
    /// Positions that hold residue 2.
    pub d1: usize,
}

impl OneHot3 {
    /// The registers before any word has been seen.
    pub open spec fn zero() -> Self {
        OneHot3 { d0: 0, d1: 0 }
    }

    /// The registers after one more word `x`, `d1` computed from the new
    /// `d0`.
    pub open spec fn spec_step(self, x: usize) -> Self {
        let d0: usize = !self.d1 & (self.d0 ^ x);
        let d1: usize = !d0 & (self.d1 ^ x);
        OneHot3 { d0, d1 }
    }

    /// The registers after every word of `s`, taken in order from all-zero
    /// registers.
    pub open spec fn tally(s: Seq<usize>) -> Self
        decreases s.len(),
    {
        if s.len() == 0 {
            Self::zero()
        } else {
            Self::tally(s.drop_last()).spec_step(s.last())
        }
    }

    /// The two registers are not both set at position `i`.
    pub open spec fn one_hot_at(self, i: nat) -> bool {
        !(bit_at(self.d0, i) && bit_at(self.d1, i))
    }

    /// The residue that the registers hold at position `i`, or `None` where
    /// both are set there.
    pub open spec fn residue_at(self, i: nat) -> Option<nat> {
        let b0 = bit_at(self.d0, i);
        let b1 = bit_at(self.d1, i);
        if !b0 && !b1 {
            Some(0nat)
        } else if b0 && !b1 {
            Some(1nat)
        } else if !b0 && b1 {
            Some(2nat)
        } else {
            None
        }
    }

    /// All-zero registers.
    pub fn new() -> (r: Self)
        ensures
            r == Self::zero(),
    {
        OneHot3 { d0: 0, d1: 0 }
    }

    /// Takes one word into the registers, `d0` first.
    #[verifier::when_used_as_spec(spec_step)]
    pub fn step(self, x: usize) -> (r: Self)
        ensures
            r == self.spec_step(x),
    {
        let mut r = self;
        r.d0 = !r.d1 & (r.d0 ^ x);
        r.d1 = !r.d0 & (r.d1 ^ x);
        r
    }

    /// Reads the residue at position `i`.
    pub fn residue(&self, i: u32) -> (d: Option<u8>)
        ensures
            d is None <==> self.residue_at(i as nat) is None,
            d matches Some(v) ==> self.residue_at(i as nat) == Some(v as nat),
    {
        let b0 = test_bit(self.d0, i);
        let b1 = test_bit(self.d1, i);
        if !b0 && !b1 {
            Some(0)
        } else if b0 && !b1 {
            Some(1)
        } else if !b0 && b1 {
            Some(2)
        } else {
            None
        }
    }
}

/// Tallies `nums` from all-zero registers, one `step` per word in order.
///
/// At every position the result holds, in one-hot form, the number of words
/// that have the position set, modulo 3.
pub fn tally_mod3_one_hot(nums: &[usize]) -> (r: OneHot3)
    ensures
        r == OneHot3::tally(nums@),
        nums@.len() == 0 ==> r == OneHot3::zero(),
        r.d0 & r.d1 == 0,
        forall|i: nat| #[trigger] r.one_hot_at(i),
        forall|i: nat| #[trigger] r.residue_at(i) == Some(popcount_at(nums@, i) % 3),
{
    let mut acc = OneHot3::new();
    let mut k: usize = 0;
    while k < nums.len()
        invariant
            k <= nums.len(),
            acc == OneHot3::tally(nums@.take(k as int)),
        decreases nums.len() - k,
    {
        proof {
            assert(nums@.take(k + 1).drop_last() =~= nums@.take(k as int));
        }
        acc = acc.step(nums[k]);
        k += 1;
    }
    proof {
        assert(nums@.take(k as int) =~= nums@);
        lemma_one_hot3_disjoint(nums@);
        assert forall|i: nat| #[trigger] acc.one_hot_at(i) by {
            lemma_one_hot3_counts(nums@, i);
        }
        assert forall|i: nat| #[trigger]
            acc.residue_at(i) == Some(popcount_at(nums@, i) % 3) by {
            lemma_one_hot3_counts(nums@, i);
        }
    }
    acc
}

/// The registers hold, at every position, the one-hot form of the count
/// modulo 3.
pub proof fn lemma_one_hot3_counts(s: Seq<usize>, i: nat)
    ensures
        bit_at(OneHot3::tally(s).d0, i) == (popcount_at(s, i) % 3 == 1),
        bit_at(OneHot3::tally(s).d1, i) == (popcount_at(s, i) % 3 == 2),
        OneHot3::tally(s).one_hot_at(i),
        OneHot3::tally(s).residue_at(i) == Some(popcount_at(s, i) % 3),
    decreases s.len(),
{
    if s.len() == 0 {
        lemma_bit_at_zero(i);
    } else {
        let before = OneHot3::tally(s.drop_last());
        let x: usize = s.last();
        let d0: usize = !before.d1 & (before.d0 ^ x);
        lemma_one_hot3_counts(s.drop_last(), i);
        lemma_bit_at_not(before.d1, i);
        lemma_bit_at_not(d0, i);
        lemma_bit_at_xor(before.d0, x, i);
        lemma_bit_at_xor(before.d1, x, i);
        lemma_bit_at_and(!before.d1, before.d0 ^ x, i);
        lemma_bit_at_and(!d0, before.d1 ^ x, i);
    }
}

/// The two registers have no position in common.
pub proof fn lemma_one_hot3_disjoint(s: Seq<usize>)
    ensures
        OneHot3::tally(s).d0 & OneHot3::tally(s).d1 == 0,
{
    let r = OneHot3::tally(s);
    assert forall|i: nat| !bit_at(r.d0 & r.d1, i) by {
        lemma_one_hot3_counts(s, i);
        lemma_bit_at_and(r.d0, r.d1, i);
    }
    lemma_no_bit_is_zero(r.d0 & r.d1);
}

/// The registers depend on the words through the counts alone: two
/// sequences that set every position equally often, in whatever order, leave
/// the same registers.
pub proof fn lemma_one_hot3_determined_by_counts(s: Seq<usize>, t: Seq<usize>)
    requires
        forall|i: nat| popcount_at(s, i) == popcount_at(t, i),
    ensures
        OneHot3::tally(s) == OneHot3::tally(t),
{
    let a = OneHot3::tally(s);
    let b = OneHot3::tally(t);
    assert forall|i: nat|
        bit_at(a.d0, i) == bit_at(b.d0, i) && bit_at(a.d1, i) == bit_at(b.d1, i) by {
        lemma_one_hot3_counts(s, i);
        lemma_one_hot3_counts(t, i);
    }
    lemma_bits_determine_word(a.d0, b.d0);
    lemma_bits_determine_word(a.d1, b.d1);
}

/// Without words the registers are all zero.
pub proof fn lemma_one_hot3_empty()
    ensures
        OneHot3::tally(Seq::<usize>::empty()) == OneHot3::zero(),
{
}

/// After every prefix of `s` and at every position, the two registers are
/// not both set.
pub proof fn lemma_one_hot3_exclusive(s: Seq<usize>, k: int, i: nat)
    requires
        0 <= k <= s.len(),
    ensures
        OneHot3::tally(s.take(k)).one_hot_at(i),
{
    lemma_one_hot3_counts(s.take(k), i);
}

} // verus!
