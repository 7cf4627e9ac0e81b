//! Per-bit-position tallies of a sequence of machine words, kept in registers
//! that are updated with `&`, `^` and `!` alone.
//!
//! Every tally starts from all-zero registers and takes the words in one at a
//! time. What the registers then hold is stated position by position, against
//! the number of words that have the position set:
//!
//! * [`tally_mod3`] keeps a binary counter in carry-save form;
//! * [`tally_mod3_one_hot`] keeps a residue modulo 3 in one-hot form;
//! * [`tally_mod4`] and [`tally_mod4_cascaded`] advance three one-hot
//!   registers by the same equations, evaluated all at once or one after the
//!   other. Only the second counts modulo 4.

pub mod bits;
pub mod carry_save;
pub mod one_hot3;
pub mod one_hot4;

pub use carry_save::{tally_mod3, CarrySave};
pub use one_hot3::{tally_mod3_one_hot, OneHot3};
pub use one_hot4::{tally_mod4, tally_mod4_cascaded, OneHot4};
