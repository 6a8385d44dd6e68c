//! A fixed-arity mixed-radix counter: an odometer whose wheels may each have
//! a different number of positions.
//!
//! [`MixedRadixCounter`] holds `E` digits, the most significant one first,
//! and for each of them an exclusive upper bound. It is built from its
//! limits, or from its limits and digits, and from then on every digit is
//! below its limit. `increment` moves it on by one and `add` by any amount,
//! with carry from digit to digit; both report what the counter as a whole
//! could not hold.
//!
//! - `digit`: the trait [`Digit`] of the types that digits and limits can
//!   have; `unsigned`: its implementations for the unsigned integers.
//! - `numeral`: the model, [`Numeral`], in which the contracts are written.
//! - `counter`: the counter and its operations.
//! - `lemmas`: proofs about the model; `laws`: what follows for counters.

pub mod counter;
pub mod digit;
pub mod laws;
pub mod lemmas;
pub mod numeral;
pub mod unsigned;

pub use counter::{InvalidValues, MixedRadixCounter};
pub use digit::Digit;
pub use numeral::Numeral;
