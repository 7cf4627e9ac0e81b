//! Three registers `d0`, `d1`, `d2` that are meant to hold, at every bit
//! position, a residue modulo 4 in one-hot form: no register set for 0, `d0`
//! alone for 1, `d1` alone for 2, `d2` alone for 3.
//!
//! Each register is advanced by the same kind of equation: it takes the word
//! in by `^` and is cleared wherever one of the other two registers is set.
//! What the three equations compute together depends on the order in which
//! they are evaluated, and this module has both orders:
//!
//! * [`OneHot4::step`] evaluates all three from the registers as they stood
//!   before the word. The registers then never differ from one another, a
//!   position is set in all of them or in none, and what it records is
//!   whether the run of words that ends the input and has the position set is
//!   of odd length. This is not a count modulo 4.
//! * [`OneHot4::step_cascaded`] overwrites `d0` before `d1` is computed, and
//!   `d1` before `d2`. This is the ring counter: a position moves through
//!   0, 1, 2, 3 and back to 0 with each word that has it set.

use vstd::prelude::*;
use crate::bits::{bit_at, popcount_at, trailing_run_at, test_bit, lemma_bit_at_zero,
    lemma_bit_at_xor, lemma_bit_at_and, lemma_bit_at_not, lemma_no_bit_is_zero,
    lemma_bits_determine_word};

verus! {

/// The registers of a one-hot tally modulo 4.
#[derive(Clone, Copy, Debug, PartialEq, Eq, Structural)]
pub struct OneHot4 {
    /// Positions that hold residue 1.
    pub d0: usize,
    /// Positions that hold residue 2.
    pub d1: usize,
    /// Positions that hold residue 3.
    pub d2: usize,
}

impl OneHot4 {
    /// The registers before any word has been seen.
    pub open spec fn zero() -> Self {
        OneHot4 { d0: 0, d1: 0, d2: 0 }
    }

    /// The registers after one more word `x`, every register computed from
    /// the three registers as they stood before `x`.
    pub open spec fn spec_step(self, x: usize) -> Self {
        OneHot4 {
            d0: (!self.d1 & !self.d2) & (self.d0 ^ x),
            d1: (!self.d0 & !self.d2) & (self.d1 ^ x),
            d2: (!self.d0 & !self.d1) & (self.d2 ^ x),
        }
    }

    /// The registers after one more word `x`, `d1` computed from the new
    /// `d0`, and `d2` from the new `d0` and the new `d1`.
    pub open spec fn spec_step_cascaded(self, x: usize) -> Self {
        let d0: usize = (!self.d1 & !self.d2) & (self.d0 ^ x);
        let d1: usize = (!d0 & !self.d2) & (self.d1 ^ x);
        let d2: usize = (!d0 & !d1) & (self.d2 ^ x);
        OneHot4 { d0, d1, d2 }
    }

    /// The registers after every word of `s`, taken in order from all-zero
    /// registers by `step`.
    pub open spec fn tally(s: Seq<usize>) -> Self
        decreases s.len(),
    {
        if s.len() == 0 {
            Self::zero()
        } else {
            Self::tally(s.drop_last()).spec_step(s.last())
        }
    }

    /// The registers after every word of `s`, taken in order from all-zero
    /// registers by `step_cascaded`.
    pub open spec fn tally_cascaded(s: Seq<usize>) -> Self
        decreases s.len(),
    {
        if s.len() == 0 {
            Self::zero()
        } else {
            Self::tally_cascaded(s.drop_last()).spec_step_cascaded(s.last())
        }
    }

    /// At most one of the three registers is set at position `i`.
    pub open spec fn one_hot_at(self, i: nat) -> bool {
        &&& !(bit_at(self.d0, i) && bit_at(self.d1, i))
        &&& !(bit_at(self.d0, i) && bit_at(self.d2, i))
        &&& !(bit_at(self.d1, i) && bit_at(self.d2, i))
    }

    /// The residue that the registers hold at position `i`, or `None` where
    /// more than one of them is set there.
    pub open spec fn residue_at(self, i: nat) -> Option<nat> {
        let b0 = bit_at(self.d0, i);
        let b1 = bit_at(self.d1, i);
        let b2 = bit_at(self.d2, i);
        if !b0 && !b1 && !b2 {
            Some(0nat)
        } else if b0 && !b1 && !b2 {
            Some(1nat)
        } else if !b0 && b1 && !b2 {
            Some(2nat)
        } else if !b0 && !b1 && b2 {
            Some(3nat)
        } else {
            None
        }
    }

    /// All-zero registers.
    pub fn new() -> (r: Self)
        ensures
            r == Self::zero(),
    {
        OneHot4 { d0: 0, d1: 0, d2: 0 }
    }

    /// Takes one word into the registers, all three updated at once.
    #[verifier::when_used_as_spec(spec_step)]
    pub fn step(self, x: usize) -> (r: Self)
        ensures
            r == self.spec_step(x),
    {
        let d0: usize = (!self.d1 & !self.d2) & (self.d0 ^ x);
        let d1: usize = (!self.d0 & !self.d2) & (self.d1 ^ x);
        let d2: usize = (!self.d0 & !self.d1) & (self.d2 ^ x);
        OneHot4 { d0, d1, d2 }
    }

    /// Takes one word into the registers, one register after the other.
    #[verifier::when_used_as_spec(spec_step_cascaded)]
    pub fn step_cascaded(self, x: usize) -> (r: Self)
        ensures
            r == self.spec_step_cascaded(x),
    {
        let mut r = self;
        r.d0 = (!r.d1 & !r.d2) & (r.d0 ^ x);
        r.d1 = (!r.d0 & !r.d2) & (r.d1 ^ x);
        r.d2 = (!r.d0 & !r.d1) & (r.d2 ^ x);
        r
    }

    /// Reads the residue at position `i`.
    pub fn residue(&self, i: u32) -> (d: Option<u8>)
        ensures
            d is None <==> self.residue_at(i as nat) is None,
            d matches Some(v) ==> self.residue_at(i as nat) == Some(v as nat),
    {
        let b0 = test_bit(self.d0, i);
        let b1 = test_bit(self.d1, i);
        let b2 = test_bit(self.d2, i);
        if !b0 && !b1 && !b2 {
            Some(0)
        } else if b0 && !b1 && !b2 {
            Some(1)
        } else if !b0 && b1 && !b2 {
            Some(2)
        } else if !b0 && !b1 && b2 {
            Some(3)
        } else {
            None
        }
    }
}

/// Tallies `nums` from all-zero registers, one `step` per word in order.
///
/// The three registers come out equal. A position is set in them exactly when
/// the run of words that ends `nums` and has the position set is of odd
/// length; only where that run is of even length do the registers hold a
/// residue there, and it is 0.
pub fn tally_mod4(nums: &[usize]) -> (r: OneHot4)
    ensures
        r == OneHot4::tally(nums@),
        nums@.len() == 0 ==> r == OneHot4::zero(),
        r.d0 == r.d1 && r.d1 == r.d2,
        forall|i: nat| #[trigger] bit_at(r.d0, i) == (trailing_run_at(nums@, i) % 2 == 1),
        forall|i: nat| #[trigger] r.one_hot_at(i) == (trailing_run_at(nums@, i) % 2 == 0),
        forall|i: nat|
            trailing_run_at(nums@, i) % 2 == 0 ==> #[trigger] r.residue_at(i) == Some(0nat),
        forall|i: nat| trailing_run_at(nums@, i) % 2 == 1 ==> #[trigger] r.residue_at(i) is None,
{
    let mut acc = OneHot4::new();
    let mut k: usize = 0;
    while k < nums.len()
        invariant
            k <= nums.len(),
            acc == OneHot4::tally(nums@.take(k as int)),
        decreases nums.len() - k,
    {
        proof {
            assert(nums@.take(k + 1).drop_last() =~= nums@.take(k as int));
        }
        acc = acc.step(nums[k]);
        k += 1;
    }
    proof {
        assert(nums@.take(k as int) =~= nums@);
        lemma_simultaneous_alike(nums@);
        assert forall|i: nat| #[trigger]
            bit_at(acc.d0, i) == (trailing_run_at(nums@, i) % 2 == 1) by {
            lemma_simultaneous_parity(nums@, i);
        }
        assert forall|i: nat| #[trigger]
            acc.one_hot_at(i) == (trailing_run_at(nums@, i) % 2 == 0) by {
            lemma_simultaneous_parity(nums@, i);
        }
        assert forall|i: nat| trailing_run_at(nums@, i) % 2 == 0 implies #[trigger]
            acc.residue_at(i) == Some(0nat) by {
            lemma_simultaneous_parity(nums@, i);
        }
        assert forall|i: nat| trailing_run_at(nums@, i) % 2 == 1 implies #[trigger]
            acc.residue_at(i) is None by {
            lemma_simultaneous_parity(nums@, i);
        }
    }
    acc
}

/// Tallies `nums` from all-zero registers, one `step_cascaded` per word in
/// order.
///
/// At every position the result holds, in one-hot form, the number of words
/// that have the position set, modulo 4.
pub fn tally_mod4_cascaded(nums: &[usize]) -> (r: OneHot4)
    ensures
        r == OneHot4::tally_cascaded(nums@),
        nums@.len() == 0 ==> r == OneHot4::zero(),
        r.d0 & r.d1 == 0 && r.d0 & r.d2 == 0 && r.d1 & r.d2 == 0,
        forall|i: nat| #[trigger] r.one_hot_at(i),
        forall|i: nat| #[trigger] r.residue_at(i) == Some(popcount_at(nums@, i) % 4),
{
    let mut acc = OneHot4::new();
    let mut k: usize = 0;
    while k < nums.len()
        invariant
            k <= nums.len(),
            acc == OneHot4::tally_cascaded(nums@.take(k as int)),
        decreases nums.len() - k,
    {
        proof {
            assert(nums@.take(k + 1).drop_last() =~= nums@.take(k as int));
        }
        acc = acc.step_cascaded(nums[k]);
        k += 1;
    }
    proof {
        assert(nums@.take(k as int) =~= nums@);
        lemma_cascaded_disjoint(nums@);
        assert forall|i: nat| #[trigger] acc.one_hot_at(i) by {
            lemma_cascaded_counts(nums@, i);
        }
        assert forall|i: nat| #[trigger]
            acc.residue_at(i) == Some(popcount_at(nums@, i) % 4) by {
            lemma_cascaded_counts(nums@, i);
        }
    }
    acc
}

/// Under `step` the three registers hold the same word.
pub proof fn lemma_simultaneous_alike(s: Seq<usize>)
    ensures
        OneHot4::tally(s).d0 == OneHot4::tally(s).d1,
        OneHot4::tally(s).d1 == OneHot4::tally(s).d2,
    decreases s.len(),
{
    if s.len() > 0 {
        lemma_simultaneous_alike(s.drop_last());
    }
}

/// Under `step` each register is set at position `i` exactly when the run of
/// words that ends `s` and has `i` set is of odd length.
pub proof fn lemma_simultaneous_parity(s: Seq<usize>, i: nat)
    ensures
        bit_at(OneHot4::tally(s).d0, i) == (trailing_run_at(s, i) % 2 == 1),
        bit_at(OneHot4::tally(s).d1, i) == (trailing_run_at(s, i) % 2 == 1),
        bit_at(OneHot4::tally(s).d2, i) == (trailing_run_at(s, i) % 2 == 1),
    decreases s.len(),
{
    lemma_simultaneous_alike(s);
    if s.len() == 0 {
        lemma_bit_at_zero(i);
    } else {
        let before = OneHot4::tally(s.drop_last());
        let x: usize = s.last();
        lemma_simultaneous_alike(s.drop_last());
        lemma_simultaneous_parity(s.drop_last(), i);
        lemma_bit_at_not(before.d1, i);
        lemma_bit_at_not(before.d2, i);
        lemma_bit_at_and(!before.d1, !before.d2, i);
        lemma_bit_at_xor(before.d0, x, i);
        lemma_bit_at_and(!before.d1 & !before.d2, before.d0 ^ x, i);
    }
}

/// Under `step_cascaded` the registers hold, at every position, the one-hot
/// form of the count modulo 4.
pub proof fn lemma_cascaded_counts(s: Seq<usize>, i: nat)
    ensures
        bit_at(OneHot4::tally_cascaded(s).d0, i) == (popcount_at(s, i) % 4 == 1),
        bit_at(OneHot4::tally_cascaded(s).d1, i) == (popcount_at(s, i) % 4 == 2),
        bit_at(OneHot4::tally_cascaded(s).d2, i) == (popcount_at(s, i) % 4 == 3),
        OneHot4::tally_cascaded(s).one_hot_at(i),
        OneHot4::tally_cascaded(s).residue_at(i) == Some(popcount_at(s, i) % 4),
    decreases s.len(),
{
    if s.len() == 0 {
        lemma_bit_at_zero(i);
    } else {
        let before = OneHot4::tally_cascaded(s.drop_last());
        let x: usize = s.last();
        let d0: usize = (!before.d1 & !before.d2) & (before.d0 ^ x);
        let d1: usize = (!d0 & !before.d2) & (before.d1 ^ x);
        lemma_cascaded_counts(s.drop_last(), i);
        lemma_bit_at_not(before.d1, i);
        lemma_bit_at_not(before.d2, i);
        lemma_bit_at_not(d0, i);
        lemma_bit_at_not(d1, i);
        lemma_bit_at_xor(before.d0, x, i);
        lemma_bit_at_xor(before.d1, x, i);
        lemma_bit_at_xor(before.d2, x, i);
        lemma_bit_at_and(!before.d1, !before.d2, i);
        lemma_bit_at_and(!d0, !before.d2, i);
        lemma_bit_at_and(!d0, !d1, i);
        lemma_bit_at_and(!before.d1 & !before.d2, before.d0 ^ x, i);
        lemma_bit_at_and(!d0 & !before.d2, before.d1 ^ x, i);
        lemma_bit_at_and(!d0 & !d1, before.d2 ^ x, i);
    }
}

/// Under `step_cascaded` no two of the registers have a position in common.
pub proof fn lemma_cascaded_disjoint(s: Seq<usize>)
    ensures
        OneHot4::tally_cascaded(s).d0 & OneHot4::tally_cascaded(s).d1 == 0,
        OneHot4::tally_cascaded(s).d0 & OneHot4::tally_cascaded(s).d2 == 0,
        OneHot4::tally_cascaded(s).d1 & OneHot4::tally_cascaded(s).d2 == 0,
{
    let r = OneHot4::tally_cascaded(s);
    assert forall|i: nat|
        {
            &&& !bit_at(r.d0 & r.d1, i)
            &&& !bit_at(r.d0 & r.d2, i)
            &&& !bit_at(r.d1 & r.d2, i)
        } by {
        lemma_cascaded_counts(s, i);
        lemma_bit_at_and(r.d0, r.d1, i);
        lemma_bit_at_and(r.d0, r.d2, i);
        lemma_bit_at_and(r.d1, r.d2, i);
    }
    lemma_no_bit_is_zero(r.d0 & r.d1);
    lemma_no_bit_is_zero(r.d0 & r.d2);
    lemma_no_bit_is_zero(r.d1 & r.d2);
}

/// Under `step_cascaded` the registers depend on the words through the
/// counts alone: two sequences that set every position equally often, in
/// whatever order, leave the same registers.
pub proof fn lemma_cascaded_determined_by_counts(s: Seq<usize>, t: Seq<usize>)
    requires
        forall|i: nat| popcount_at(s, i) == popcount_at(t, i),
    ensures
        OneHot4::tally_cascaded(s) == OneHot4::tally_cascaded(t),
{
    let a = OneHot4::tally_cascaded(s);
    let b = OneHot4::tally_cascaded(t);
    assert forall|i: nat|
        {
            &&& bit_at(a.d0, i) == bit_at(b.d0, i)
            &&& bit_at(a.d1, i) == bit_at(b.d1, i)
            &&& bit_at(a.d2, i) == bit_at(b.d2, i)
        } by {
        lemma_cascaded_counts(s, i);
        lemma_cascaded_counts(t, i);
    }
    lemma_bits_determine_word(a.d0, b.d0);
    lemma_bits_determine_word(a.d1, b.d1);
    lemma_bits_determine_word(a.d2, b.d2);
}

/// Without words the registers are all zero, whichever way they are stepped.
pub proof fn lemma_one_hot4_empty()
    ensures
        OneHot4::tally(Seq::<usize>::empty()) == OneHot4::zero(),
        OneHot4::tally_cascaded(Seq::<usize>::empty()) == OneHot4::zero(),
{
}

/// Under `step_cascaded`, after every prefix of `s` and at every position, at
/// most one of the three registers is set.
pub proof fn lemma_cascaded_one_hot(s: Seq<usize>, k: int, i: nat)
    requires
        0 <= k <= s.len(),
    ensures
        OneHot4::tally_cascaded(s.take(k)).one_hot_at(i),
{
    lemma_cascaded_counts(s.take(k), i);
}

/// Under `step_cascaded` the residue read at a position is the number of
/// words of `s` that have the position set, modulo 4.
pub proof fn lemma_cascaded_residue(s: Seq<usize>, i: nat)
    ensures
        OneHot4::tally_cascaded(s).residue_at(i) == Some(popcount_at(s, i) % 4),
{
    lemma_cascaded_counts(s, i);
}

/// Under `step`, after a prefix of `s` that ends in a run of even length of
/// words with position `i` set, no register is set at `i`: at most one is,
/// and the residue read there is 0.
pub proof fn lemma_simultaneous_one_hot(s: Seq<usize>, k: int, i: nat)
    requires
        0 <= k <= s.len(),
        trailing_run_at(s.take(k), i) % 2 == 0,
    ensures
        OneHot4::tally(s.take(k)).one_hot_at(i),
        OneHot4::tally(s.take(k)).residue_at(i) == Some(0nat),
{
    lemma_simultaneous_parity(s.take(k), i);
}

/// Under `step`, after a prefix of `s` that ends in a run of odd length of
/// words with position `i` set, such as a single word with `i` set, all three
/// registers are set at `i` and no residue can be read there.
pub proof fn lemma_simultaneous_collision(s: Seq<usize>, k: int, i: nat)
    requires
        0 <= k <= s.len(),
        trailing_run_at(s.take(k), i) % 2 == 1,
    ensures
        bit_at(OneHot4::tally(s.take(k)).d0, i),
        bit_at(OneHot4::tally(s.take(k)).d1, i),
        bit_at(OneHot4::tally(s.take(k)).d2, i),
        !OneHot4::tally(s.take(k)).one_hot_at(i),
        OneHot4::tally(s.take(k)).residue_at(i) is None,
{
    lemma_simultaneous_parity(s.take(k), i);
}

/// Under `step`, where `s` ends in a run of even length of words with
/// position `i` set and the number of words with `i` set is a multiple of 4,
/// the residue read at `i` is that number modulo 4.
pub proof fn lemma_simultaneous_residue(s: Seq<usize>, i: nat)
    requires
        trailing_run_at(s, i) % 2 == 0,
        popcount_at(s, i) % 4 == 0,
    ensures
        OneHot4::tally(s).residue_at(i) == Some(popcount_at(s, i) % 4),
{
    lemma_simultaneous_parity(s, i);
}

/// Under `step`, on every other input the residue read at position `i`
/// differs from the number of words with `i` set, modulo 4.
pub proof fn lemma_simultaneous_residue_differs(s: Seq<usize>, i: nat)
    requires
        trailing_run_at(s, i) % 2 == 1 || popcount_at(s, i) % 4 != 0,
    ensures
        OneHot4::tally(s).residue_at(i) != Some(popcount_at(s, i) % 4),
{
    lemma_simultaneous_parity(s, i);
}

} // verus!
