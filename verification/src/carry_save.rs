//! A binary counter per bit position, spread over three registers and
//! advanced by carry propagation: `low` holds the ones, `high` the twos and
//! `third` the fours of every position's count.
//!
//! The pair `(low, high)` is meant to be read as a digit in `{0, 1, 2}`. The
//! registers do not start over at three, though: a position that has been set
//! three times reads `3`, and only the fourth time brings the pair back to
//! `0` (and flips `third`). The digit is therefore the count modulo 4, and it
//! is the count itself for as long as the count stays below four.

use vstd::prelude::*;
use crate::bits::{bit_at, popcount_at, test_bit, lemma_bit_at_zero, lemma_bit_at_xor,
    lemma_bit_at_and, lemma_bits_determine_word, lemma_popcount_prefix};

verus! {

/// The registers of a carry-save tally.
#[derive(Clone, Copy, Debug, PartialEq, Eq, Structural)]
pub struct CarrySave {
    /// Positions whose count is odd.
    pub low: usize,
    /// Positions whose count, modulo 4, is 2 or 3.
    pub high: usize,
    /// Positions whose count, modulo 8, is 4 or more.
    pub third: usize,
}

impl CarrySave {
    /// The registers before any word has been seen.
    pub open spec fn zero() -> Self {
        CarrySave { low: 0, high: 0, third: 0 }
    }

    /// The registers after one more word `x`.
    pub open spec fn spec_step(self, x: usize) -> Self {
        let carry: usize = self.low & x;
        let carry2: usize = self.high & carry;
        CarrySave { low: self.low ^ x, high: self.high ^ carry, third: self.third ^ carry2 }
    }

    /// The registers after every word of `s`, taken in order from all-zero
    /// registers.
    pub open spec fn tally(s: Seq<usize>) -> Self
        decreases s.len(),
    {
        if s.len() == 0 {
            Self::zero()
        } else {
            Self::tally(s.drop_last()).spec_step(s.last())
        }
    }

    /// The digit that `(low, high)` hold at position `i`, `low` being the
    /// less significant bit.
    pub open spec fn digit_at(self, i: nat) -> nat {
        (if bit_at(self.low, i) {
            1nat
        } else {
            0nat
        }) + (if bit_at(self.high, i) {
            2nat
        } else {
            0nat
        })
    }

    /// Whether `third` is set at position `i`.
    pub open spec fn wrapped_at(self, i: nat) -> bool {
        bit_at(self.third, i)
    }

    /// All-zero registers.
    pub fn new() -> (r: Self)
        ensures
            r == Self::zero(),
    {
        CarrySave { low: 0, high: 0, third: 0 }
    }

    /// Takes one word into the registers. A position rolls its carry from
    /// `low` into `high`, and from `high` into `third`.
    #[verifier::when_used_as_spec(spec_step)]
    pub fn step(self, x: usize) -> (r: Self)
        ensures
            r == self.spec_step(x),
    {
        let carry: usize = self.low & x;
        let low: usize = self.low ^ x;
        let carry2: usize = self.high & carry;
        let high: usize = self.high ^ carry;
        let third: usize = self.third ^ carry2;
        CarrySave { low, high, third }
    }

    /// Reads the digit that `(low, high)` hold at position `i`.
    pub fn digit(&self, i: u32) -> (d: u8)
        ensures
            d == self.digit_at(i as nat),
    {
        let ones: u8 = if test_bit(self.low, i) {
            1
        } else {
            0
        };
        let twos: u8 = if test_bit(self.high, i) {
            2
        } else {
            0
        };
        ones + twos
    }

    /// Reads `third` at position `i`.
    pub fn wrapped(&self, i: u32) -> (b: bool)
        ensures
            b == self.wrapped_at(i as nat),
    {
        test_bit(self.third, i)
    }
}

/// Tallies `nums` from all-zero registers, one `step` per word in order.
///
/// At every position the result holds the three low bits of the number of
/// words that have the position set. Read as a digit, `(low, high)` is that
/// number for as long as it is at most 3; it is not reduced modulo 3.
pub fn tally_mod3(nums: &[usize]) -> (r: CarrySave)
    ensures
        r == CarrySave::tally(nums@),
        nums@.len() == 0 ==> r == CarrySave::zero(),
        forall|i: nat| #[trigger] r.digit_at(i) == popcount_at(nums@, i) % 4,
        forall|i: nat|
            popcount_at(nums@, i) <= 2 ==> #[trigger] r.digit_at(i) == popcount_at(nums@, i),
        forall|i: nat| popcount_at(nums@, i) == 3 ==> #[trigger] r.digit_at(i) == 3,
        forall|i: nat| #[trigger] r.wrapped_at(i) == (popcount_at(nums@, i) % 8 >= 4),
{
    let mut acc = CarrySave::new();
    let mut k: usize = 0;
    while k < nums.len()
        invariant
            k <= nums.len(),
            acc == CarrySave::tally(nums@.take(k as int)),
        decreases nums.len() - k,
    {
        proof {
            assert(nums@.take(k + 1).drop_last() =~= nums@.take(k as int));
        }
        acc = acc.step(nums[k]);
        k += 1;
    }
    proof {
        assert(nums@.take(k as int) =~= nums@);
        assert forall|i: nat| #[trigger] acc.digit_at(i) == popcount_at(nums@, i) % 4 by {
            lemma_carry_save_counts(nums@, i);
        }
        assert forall|i: nat| #[trigger]
            acc.wrapped_at(i) == (popcount_at(nums@, i) % 8 >= 4) by {
            lemma_carry_save_counts(nums@, i);
        }
    }
    acc
}

/// The three registers of a tally are the three low bits of each position's
/// count.
pub proof fn lemma_carry_save_counts(s: Seq<usize>, i: nat)
    ensures
        bit_at(CarrySave::tally(s).low, i) == (popcount_at(s, i) % 2 == 1),
        bit_at(CarrySave::tally(s).high, i) == (popcount_at(s, i) % 4 >= 2),
        bit_at(CarrySave::tally(s).third, i) == (popcount_at(s, i) % 8 >= 4),
        CarrySave::tally(s).digit_at(i) == popcount_at(s, i) % 4,
    decreases s.len(),
{
    if s.len() == 0 {
        lemma_bit_at_zero(i);
    } else {
        let before = CarrySave::tally(s.drop_last());
        let x: usize = s.last();
        let carry: usize = before.low & x;
        let carry2: usize = before.high & carry;
        lemma_carry_save_counts(s.drop_last(), i);
        lemma_bit_at_and(before.low, x, i);
        lemma_bit_at_xor(before.low, x, i);
        lemma_bit_at_and(before.high, carry, i);
        lemma_bit_at_xor(before.high, carry, i);
        lemma_bit_at_xor(before.third, carry2, i);
    }
}

/// Without words the registers are all zero.
pub proof fn lemma_carry_save_empty()
    ensures
        CarrySave::tally(Seq::<usize>::empty()) == CarrySave::zero(),
{
}

/// While no more than two words have position `i` set, the digit at `i` is
/// the exact count, after the whole sequence and after each of its prefixes.
pub proof fn lemma_carry_save_exact_up_to_two(s: Seq<usize>, i: nat)
    requires
        popcount_at(s, i) <= 2,
    ensures
        CarrySave::tally(s).digit_at(i) == popcount_at(s, i),
        forall|k: int|
            0 <= k <= s.len() ==> #[trigger] CarrySave::tally(s.take(k)).digit_at(i)
                == popcount_at(s.take(k), i),
{
    lemma_carry_save_counts(s, i);
    assert forall|k: int| 0 <= k <= s.len() implies #[trigger]
        CarrySave::tally(s.take(k)).digit_at(i) == popcount_at(s.take(k), i) by {
        lemma_popcount_prefix(s, k, i);
        lemma_carry_save_counts(s.take(k), i);
    }
}

/// The third word that sets position `i` does not bring the digit back to
/// zero: both `low` and `high` are then set at `i`, the digit reads 3, and
/// `third` is still clear.
pub proof fn lemma_carry_save_at_three(s: Seq<usize>, i: nat)
    requires
        popcount_at(s, i) == 3,
    ensures
        bit_at(CarrySave::tally(s).low, i),
        bit_at(CarrySave::tally(s).high, i),
        CarrySave::tally(s).digit_at(i) == 3,
        !CarrySave::tally(s).wrapped_at(i),
{
    lemma_carry_save_counts(s, i);
}

/// The fourth word that sets position `i` clears `low` and `high` there and
/// sets `third`.
pub proof fn lemma_carry_save_at_four(s: Seq<usize>, i: nat)
    requires
        popcount_at(s, i) == 4,
    ensures
        CarrySave::tally(s).digit_at(i) == 0,
        CarrySave::tally(s).wrapped_at(i),
{
    lemma_carry_save_counts(s, i);
}

/// The registers depend on the words through the counts alone: two
/// sequences that set every position equally often, in whatever order, leave
/// the same registers.
pub proof fn lemma_carry_save_determined_by_counts(s: Seq<usize>, t: Seq<usize>)
    requires
        forall|i: nat| popcount_at(s, i) == popcount_at(t, i),
    ensures
        CarrySave::tally(s) == CarrySave::tally(t),
{
    let a = CarrySave::tally(s);
    let b = CarrySave::tally(t);
    assert forall|i: nat|
        {
            &&& bit_at(a.low, i) == bit_at(b.low, i)
            &&& bit_at(a.high, i) == bit_at(b.high, i)
            &&& bit_at(a.third, i) == bit_at(b.third, i)
        } by {
        lemma_carry_save_counts(s, i);
        lemma_carry_save_counts(t, i);
    }
    lemma_bits_determine_word(a.low, b.low);
    lemma_bits_determine_word(a.high, b.high);
    lemma_bits_determine_word(a.third, b.third);
}

} // verus!
