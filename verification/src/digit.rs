//! The numeric type of a counter's digits and limits.

use vstd::prelude::*;

verus! {

/// An unsigned-integer-like type that can serve as a digit of a counter.
///
/// Every value stands for a natural number, `value()`, and the operations
/// are those of the natural numbers as long as the result is representable.
pub trait Digit: Copy + Sized {
    /// The natural number that this digit stands for.
    spec fn value(self) -> nat;

    /// The largest natural number that the type can represent.
    spec fn ceiling() -> nat;

    /// No digit stands for more than `ceiling()`.
    proof fn lemma_value_bounded(self)
        ensures
            self.value() <= Self::ceiling(),
    ;

    /// Two digits that stand for the same number are the same digit.
    proof fn lemma_value_injective(a: Self, b: Self)
        requires
            a.value() == b.value(),
        ensures
            a == b,
    ;

    /// The additive identity.
    fn zero() -> (r: Self)
        ensures
            r.value() == 0,
    ;

    /// The multiplicative identity.
    fn one() -> (r: Self)
        ensures
            r.value() == 1,
    ;

    /// Strict order.
    fn less_than(self, other: Self) -> (r: bool)
        ensures
            r == (self.value() < other.value()),
    ;

    /// Sum, where it is representable.
    fn plus(self, other: Self) -> (r: Self)
        requires
            self.value() + other.value() <= Self::ceiling(),
        ensures
            r.value() == self.value() + other.value(),
    ;

    /// Difference, where it is not negative.
    fn minus(self, other: Self) -> (r: Self)
        requires
            other.value() <= self.value(),
        ensures
            r.value() == self.value() - other.value(),
    ;

    /// Quotient of the division by a positive digit.
    fn quotient(self, other: Self) -> (r: Self)
        requires
            other.value() > 0,
        ensures
            r.value() == self.value() / other.value(),
    ;

    /// Remainder of the division by a positive digit.
    fn remainder(self, other: Self) -> (r: Self)
        requires
            other.value() > 0,
        ensures
            r.value() == self.value() % other.value(),
    ;
}

/// The digit that stands for zero.
pub open spec fn zero_digit<T: Digit>() -> T {
    choose|z: T| z.value() == 0
}

/// The numbers that a sequence of digits stands for.
pub open spec fn values<T: Digit>(s: Seq<T>) -> Seq<nat> {
    Seq::new(s.len(), |i: int| s[i].value())
}

/// Whether two digits are the same one.
pub(crate) fn same<T: Digit>(a: T, b: T) -> (r: bool)
    ensures
        r == (a == b),
{
    proof {
        if a.value() == b.value() {
            T::lemma_value_injective(a, b);
        }
    }
    !a.less_than(b) && !b.less_than(a)
}

} // verus!
