//! The counter itself: construction, read access, `increment` and `add`.

use core::cmp::Ordering;
use vstd::prelude::*;
use vstd::std_specs::cmp::{PartialEqSpecImpl, PartialOrdSpecImpl};
use vstd::std_specs::convert::TryFromSpecImpl;
use crate::digit::{same, values, zero_digit, Digit};
use crate::lemmas::lemma_digit_plus_carry;
use crate::numeral::{compare_from, Numeral, Order};

verus! {

/// A proposed digit is not below its limit.
#[derive(Debug, Clone, Copy, PartialEq, Eq, Structural)]
pub struct InvalidValues;

/// A counter of `E` digits, each with its own exclusive upper bound. The
/// digit at index 0 is the most significant one.
#[derive(Debug, Eq, Ord)]
pub struct MixedRadixCounter<T: Digit, const E: usize> {
    elements: [T; E],
    limits: [T; E],
}

impl<T: Digit, const E: usize> MixedRadixCounter<T, E> {
    /// The current digits, most significant first.
    pub closed spec fn elements(self) -> [T; E] {
        self.elements
    }

    /// The limits of the digits, in the same order.
    pub closed spec fn limits(self) -> [T; E] {
        self.limits
    }

    /// The counter over the given limits whose digits are all zero.
    pub closed spec fn at_zero(limits: [T; E]) -> Self {
        MixedRadixCounter {
            elements: vstd::array::spec_array_fill_for_copy_type::<T, E>(zero_digit::<T>()),
            limits,
        }
    }

    /// What building a counter at zero from the given limits results in:
    /// an error exactly when some limit is zero.
    pub open spec fn from_limits(limits: [T; E]) -> Result<Self, InvalidValues> {
        if exists|i: int| 0 <= i < E && #[trigger] limits[i].value() == 0 {
            Err(InvalidValues)
        } else {
            Ok(Self::at_zero(limits))
        }
    }
}

impl<T: Digit, const E: usize> Clone for MixedRadixCounter<T, E> {
    /// A counter with the same digits and limits.
    fn clone(&self) -> (r: Self)
        ensures
            r == *self,
    {
        proof {
            use_type_invariant(self);
        }
        Self { elements: self.elements, limits: self.limits }
    }
}

impl<T: Digit, const E: usize> PartialEq for MixedRadixCounter<T, E> {
    /// Two counters are equal when they have the same digits and the same
    /// limits.
    fn eq(&self, other: &Self) -> (r: bool) {
        let mut i: usize = 0;
        while i < E
            invariant
                i <= E,
                forall|j: int|
                    0 <= j < i ==> self.elements[j] == other.elements[j] && self.limits[j]
                        == other.limits[j],
            decreases E - i,
        {
            if !same(self.elements[i], other.elements[i]) {
                return false;
            }
            if !same(self.limits[i], other.limits[i]) {
                return false;
            }
            i += 1;
        }
        assert(self.elements =~= other.elements);
        assert(self.limits =~= other.limits);
        true
    }
}

impl<T: Digit, const E: usize> PartialEqSpecImpl for MixedRadixCounter<T, E> {
    open spec fn obeys_eq_spec() -> bool {
        true
    }

    open spec fn eq_spec(&self, other: &Self) -> bool {
        self.elements() == other.elements() && self.limits() == other.limits()
    }
}

/// Compares two arrays of digits by the numbers they stand for, the first
/// difference deciding.
fn compare_digits<T: Digit, const E: usize>(a: &[T; E], b: &[T; E]) -> (r: Order)
    ensures
        r == compare_from(values(a@), values(b@), 0),
{
    let mut i: usize = 0;
    while i < E
        invariant
            i <= E,
            compare_from(values(a@), values(b@), 0) == compare_from(
                values(a@),
                values(b@),
                i as int,
            ),
        decreases E - i,
    {
        if a[i].less_than(b[i]) {
            return Order::Less;
        }
        if b[i].less_than(a[i]) {
            return Order::Greater;
        }
        i += 1;
    }
    Order::Equal
}

impl<T: Digit, const E: usize> PartialOrd for MixedRadixCounter<T, E> {
    /// Counters are ordered by their digits, and by their limits where the
    /// digits are the same.
    fn partial_cmp(&self, other: &Self) -> (r: Option<Ordering>) {
        let order = match compare_digits(&self.elements, &other.elements) {
            Order::Equal => compare_digits(&self.limits, &other.limits),
            decided => decided,
        };
        match order {
            Order::Less => Some(Ordering::Less),
            Order::Equal => Some(Ordering::Equal),
            Order::Greater => Some(Ordering::Greater),
        }
    }
}

impl<T: Digit, const E: usize> PartialOrdSpecImpl for MixedRadixCounter<T, E> {
    open spec fn obeys_partial_cmp_spec() -> bool {
        true
    }

    open spec fn partial_cmp_spec(&self, other: &Self) -> Option<Ordering> {
        match self@.compare(other@) {
            Order::Less => Some(Ordering::Less),
            Order::Equal => Some(Ordering::Equal),
            Order::Greater => Some(Ordering::Greater),
        }
    }
}

impl<T: Digit, const E: usize> core::ops::Deref for MixedRadixCounter<T, E> {
    type Target = [T; E];

    /// Read access to the current digits, most significant first.
    fn deref(&self) -> (r: &[T; E])
        ensures
            *r == self.elements(),
    {
        &self.elements
    }
}

impl<T: Digit, const E: usize> TryFrom<[T; E]> for MixedRadixCounter<T, E> {
    type Error = InvalidValues;

    /// The counter at zero with the given limits, as `try_from_limits`
    /// builds it.
    fn try_from(value: [T; E]) -> (r: Result<Self, InvalidValues>) {
        Self::try_from_limits(value)
    }
}

impl<T: Digit, const E: usize> TryFromSpecImpl<[T; E]> for MixedRadixCounter<T, E> {
    open spec fn obeys_try_from_spec() -> bool {
        true
    }

    open spec fn try_from_spec(v: [T; E]) -> Result<Self, InvalidValues> {
        Self::from_limits(v)
    }
}

impl<T: Digit, const E: usize> View for MixedRadixCounter<T, E> {
    type V = Numeral;

    /// The numeral that the counter shows.
    open spec fn view(&self) -> Numeral {
        Numeral { digits: values(self.elements()@), limits: values(self.limits()@) }
    }
}

impl<T: Digit, const E: usize> MixedRadixCounter<T, E> {
    /// Every digit is below its limit.
    #[verifier::type_invariant]
    spec fn inv(self) -> bool {
        forall|i: int| 0 <= i < E ==> (#[trigger] self.elements[i]).value() < self.limits[i].value()
    }

    /// Builds a counter at zero from its limits. Succeeds exactly when every
    /// limit is positive.
    pub fn try_from_limits(limits: [T; E]) -> (r: Result<Self, InvalidValues>)
        ensures
            r == Self::from_limits(limits),
            r is Err <==> exists|i: int| 0 <= i < E && #[trigger] limits[i].value() == 0,
            r matches Ok(c) ==> c.limits() == limits && c@.valid() && forall|i: int|
                0 <= i < E ==> c@.digits[i] == 0,
    {
        let zero = T::zero();
        let elements = [zero; E];
        proof {
            T::lemma_value_injective(zero, zero_digit::<T>());
            assert forall|i: int| 0 <= i < E implies #[trigger] elements[i].value() == 0 by {}
        }
        match Self::try_from_limits_and_elements(limits, elements) {
            Ok(c) => {
                assert forall|i: int| 0 <= i < E implies #[trigger] limits[i].value() != 0 by {
                    assert(elements[i].value() < limits[i].value());
                }
                Ok(c)
            },
            Err(e) => Err(e),
        }
    }

    /// Builds a counter from its limits and its digits. Succeeds exactly
    /// when every digit is below its limit.
    pub fn try_from_limits_and_elements(limits: [T; E], elements: [T; E]) -> (r: Result<
        Self,
        InvalidValues,
    >)
        ensures
            r is Err <==> exists|i: int|
                0 <= i < E && #[trigger] elements[i].value() >= limits[i].value(),
            r matches Ok(c) ==> c.elements() == elements && c.limits() == limits && c@.valid(),
    {
        let mut i: usize = 0;
        while i < E
            invariant
                i <= E,
                forall|j: int| 0 <= j < i ==> #[trigger] elements[j].value() < limits[j].value(),
            decreases E - i,
        {
            if !elements[i].less_than(limits[i]) {
                return Err(InvalidValues);
            }
            i += 1;
        }
        Ok(Self { elements, limits })
    }

    /// Advances the counter by one. Digits wrap to zero from the least
    /// significant end as far as they are full, and the first one that is
    /// not moves on by one. Returns one exactly when every digit wrapped,
    /// that is when the counter went from its largest number back to zero.
    pub fn increment(&mut self) -> (overflow: Option<T>)
        ensures
            final(self)@ == old(self)@.successor(),
            final(self)@.valid(),
            final(self).limits() == old(self).limits(),
            final(self)@.number() == (old(self)@.number() + 1) % old(self)@.capacity(),
            overflow is Some <==> old(self)@.at_maximum(),
            overflow is Some <==> old(self)@.number() + 1 == old(self)@.capacity(),
            overflow matches Some(one) ==> one.value() == 1,
    {
        let ghost start = self@;
        proof {
            use_type_invariant(&*self);
            start.lemma_successor_number();
        }
        let one = T::one();
        let mut i: usize = E;
        while i > 0
            invariant
                i <= E,
                one.value() == 1,
                start == old(self)@,
                start.valid(),
                start.digits.len() == E,
                self.limits() == old(self).limits(),
                start.full_from(i as int),
                forall|j: int| 0 <= j < i ==> self@.digits[j] == start.digits[j],
                forall|j: int| i <= j < E ==> self@.digits[j] == start.successor().digits[j],
            decreases i,
        {
            i -= 1;
            let limit = self.limits[i];
            let digit = self.elements[i];
            proof {
                use_type_invariant(&*self);
                limit.lemma_value_bounded();
            }
            // The digit is below its limit, so one more is representable.
            let sum = digit.plus(one);
            if sum.less_than(limit) {
                self.elements[i] = sum;
                proof {
                    assert forall|j: int| 0 <= j <= i implies !start.full_from(j) by {
                        if start.full_from(j) {
                            start.lemma_full_from_right(j, i as int);
                        }
                    }
                    assert(self@.digits =~= start.successor().digits);
                    start.lemma_successor_number();
                }
                return None;
            }
            self.elements[i] = T::zero();
        }
        assert(self@.digits =~= start.successor().digits);
        Some(one)
    }

    /// Adds `value` to the counter with carry: from the least significant
    /// digit on, every digit takes the remainder of itself plus the carry by
    /// its limit and hands the quotient on, until nothing is left to carry.
    /// Returns what is left after the most significant digit, if anything.
    pub fn add(&mut self, value: T) -> (overflow: Option<T>)
        ensures
            final(self)@ == old(self)@.plus(value.value()),
            final(self)@.valid(),
            final(self).limits() == old(self).limits(),
            final(self)@.number() == (old(self)@.number() + value.value())
                % old(self)@.capacity(),
            match overflow {
                Some(rest) => rest.value() == old(self)@.excess(value.value()) && rest.value() > 0,
                None => old(self)@.excess(value.value()) == 0,
            },
            E > 0 ==> old(self)@.excess(value.value()) == (old(self)@.number() + value.value())
                / old(self)@.capacity(),
    {
        let ghost start = self@;
        let ghost v = value.value();
        proof {
            use_type_invariant(&*self);
            start.lemma_plus_valid(v);
            start.lemma_plus_number(v);
        }
        let zero = T::zero();
        let one = T::one();
        let mut carry = value;
        let mut i: usize = E;
        while i > 0
            invariant
                i <= E,
                i == 0 ==> E == 0,
                zero.value() == 0,
                one.value() == 1,
                start == old(self)@,
                start.valid(),
                start.digits.len() == E,
                v == value.value(),
                self.limits() == old(self).limits(),
                carry.value() == start.carry(v, i as int),
                forall|j: int| 0 <= j < i ==> self@.digits[j] == start.digits[j],
                forall|j: int| i <= j < E ==> self@.digits[j] == start.plus(v).digits[j],
            decreases i,
        {
            i -= 1;
            let limit = self.limits[i];
            let digit = self.elements[i];
            proof {
                use_type_invariant(&*self);
                limit.lemma_value_bounded();
                carry.lemma_value_bounded();
                lemma_digit_plus_carry(digit.value(), carry.value(), limit.value());
            }
            // The digit plus the carry may not be representable. The carry is
            // taken apart by the limit instead: its remainder and the digit
            // together stay below twice the limit, so they make the new
            // digit and at most one more to carry on top of the quotient.
            let quotient = carry.quotient(limit);
            let remainder = carry.remainder(limit);
            let room = limit.minus(digit);
            if remainder.less_than(room) {
                self.elements[i] = digit.plus(remainder);
                if !zero.less_than(quotient) {
                    // The sum was below the limit: nothing is left to carry.
                    proof {
                        start.lemma_carry_dies(v, i as int, 0);
                        assert forall|j: int| 0 <= j < i implies start.plus(v).digits[j]
                            == start.digits[j] by {
                            start.lemma_carry_dies(v, i as int, j);
                        }
                        assert(self@.digits =~= start.plus(v).digits);
                        start.lemma_plus_number(v);
                    }
                    return None;
                }
                carry = quotient;
            } else {
                proof {
                    // The remainder is positive here, so the limit is at
                    // least two and the quotient at most half the carry.
                    let q = quotient.value();
                    let l = limit.value();
                    assert(q * 2 <= carry.value()) by (nonlinear_arith)
                        requires
                            q == carry.value() / l,
                            l >= 2,
                    ;
                }
                self.elements[i] = remainder.minus(room);
                carry = quotient.plus(one);
            }
            // What is left after the most significant digit is the overflow.
            if i == 0 && zero.less_than(carry) {
                proof {
                    assert(self@.digits =~= start.plus(v).digits);
                    start.lemma_plus_number(v);
                }
                return Some(carry);
            }
        }
        assert(self@.digits =~= start.plus(v).digits);
        None
    }
}

} // verus!
