//! What holds of every counter, stated over its view.
//!
//! A call of `increment` takes the view of a counter to its `successor()`
//! and reports an overflow exactly from a view `at_maximum()`; a call of
//! `add(v)` takes it to `plus(v)` and reports `excess(v)`. So `after(n)` is
//! the view after `n` calls of `increment`, `overflows(n)` is the number of
//! overflows that they report, and `run(steps)` is the view after any
//! sequence of calls.

use vstd::prelude::*;
use crate::counter::MixedRadixCounter;
use crate::digit::Digit;
use crate::lemmas::lemma_compare_equal;
use crate::numeral::{span, Order, Step};

verus! {

impl<T: Digit, const E: usize> MixedRadixCounter<T, E> {
    /// Equality and order agree: two counters have the same digits and the
    /// same limits exactly when neither comes before the other.
    pub proof fn lemma_equal_is_neither_before_nor_after(self, other: Self)
        ensures
            self@.compare(other@) == Order::Equal <==> self.elements() == other.elements()
                && self.limits() == other.limits(),
    {
        lemma_compare_equal(self@.digits, other@.digits, 0);
        lemma_compare_equal(self@.limits, other@.limits, 0);
        if self@.compare(other@) == Order::Equal {
            assert forall|j: int| 0 <= j < E implies self.elements()[j] == other.elements()[j]
                && self.limits()[j] == other.limits()[j] by {
                assert(self@.digits[j] == other@.digits[j]);
                assert(self@.limits[j] == other@.limits[j]);
                T::lemma_value_injective(self.elements()[j], other.elements()[j]);
                T::lemma_value_injective(self.limits()[j], other.limits()[j]);
            }
            assert(self.elements() =~= other.elements());
            assert(self.limits() =~= other.limits());
        }
    }

    /// Whatever sequence of `increment` and `add` calls a counter goes
    /// through, every digit stays below its limit, and the limits stay as
    /// they were.
    pub proof fn lemma_digits_stay_below_limits(self, steps: Seq<Step>)
        requires
            self@.valid(),
        ensures
            self@.run(steps).limits == self@.limits,
            self@.run(steps).digits.len() == E,
            forall|i: int| 0 <= i < E ==> self@.run(steps).digits[i] < self@.limits[i],
    {
        self@.lemma_run_valid(steps);
    }

    /// `n` calls of `increment` leave the digits that one call of `add(n)`
    /// leaves.
    pub proof fn lemma_increments_are_one_add(self, n: T)
        requires
            self@.valid(),
        ensures
            self@.after(n.value()) == self@.plus(n.value()),
    {
        self@.lemma_after_is_plus(n.value());
    }

    /// On a counter that has digits, as many of `n` calls of `increment`
    /// report an overflow as one call of `add(n)` reports in all.
    pub proof fn lemma_increments_overflow_as_one_add(self, n: T)
        requires
            self@.valid(),
            E > 0,
        ensures
            self@.overflows(n.value()) == self@.excess(n.value()),
    {
        self@.lemma_after_is_plus(n.value());
    }

    /// `n` calls of `increment` advance the number that the counter shows
    /// by `n`, modulo the product of the limits.
    pub proof fn lemma_increments_count(self, n: nat)
        requires
            self@.valid(),
        ensures
            self@.after(n).number() == (self@.number() + n) % self@.capacity(),
    {
        self@.lemma_after_is_plus(n);
        self@.lemma_plus_number(n);
    }

    /// From wherever a counter stands, as many calls of `increment` as the
    /// product of its limits bring it back there, and exactly one of them
    /// reports an overflow.
    pub proof fn lemma_full_cycle(self)
        requires
            self@.valid(),
        ensures
            self@.capacity() > 0,
            self@.after(self@.capacity()) == self@,
            self@.overflows(self@.capacity()) == 1,
    {
        self@.lemma_number_below_capacity();
        self@.lemma_cycle();
    }

    /// A counter at zero is back at zero after as many calls of `increment`
    /// as the product of its limits. The last of them reports an overflow,
    /// and none before it does.
    pub proof fn lemma_full_cycle_from_zero(self)
        requires
            self@.valid(),
            forall|i: int| 0 <= i < E ==> self@.digits[i] == 0,
        ensures
            self@.capacity() > 0,
            self@.after(self@.capacity()) == self@,
            self@.after((self@.capacity() - 1) as nat).at_maximum(),
            self@.overflows((self@.capacity() - 1) as nat) == 0,
    {
        self@.lemma_number_below_capacity();
        self@.lemma_zero_tail(0);
        self@.lemma_cycle();
        self@.lemma_cycle_from_zero();
    }
}

/// Four digits with the limit ten each, started at zero, show after `i`
/// calls of `increment` the decimal digits of `i`.
pub proof fn lemma_decimal_counter<T: Digit>(counter: MixedRadixCounter<T, 4>, i: nat)
    requires
        counter@.valid(),
        forall|k: int| 0 <= k < 4 ==> counter@.limits[k] == 10 && counter@.digits[k] == 0,
        i < 10000,
    ensures
        ({
            let d = counter@.after(i).digits;
            d[0] * 1000 + d[1] * 100 + d[2] * 10 + d[3] == i
        }),
{
    let start = counter@;
    let end = start.after(i);
    start.lemma_after_is_plus(i);
    start.lemma_plus_number(i);
    start.lemma_zero_tail(0);
    reveal_with_fuel(span, 5);
    assert(end.number() == end.digits[0] * 1000 + end.digits[1] * 100 + end.digits[2] * 10
        + end.digits[3]) by {
        assert(end.tail(4) == 0);
        assert(end.tail(3) == end.digits[3] * span(end.limits, 4) + end.tail(4));
        assert(end.tail(2) == end.digits[2] * span(end.limits, 3) + end.tail(3));
        assert(end.tail(1) == end.digits[1] * span(end.limits, 2) + end.tail(2));
        assert(end.tail(0) == end.digits[0] * span(end.limits, 1) + end.tail(1));
    }
}

} // verus!
