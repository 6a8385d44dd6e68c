//! Proofs about numerals: what addition with carry and single steps do to
//! the number that a numeral stands for.

use vstd::prelude::*;
use vstd::arithmetic::div_mod::{
    lemma_fundamental_div_mod,
    lemma_fundamental_div_mod_converse,
};
use crate::numeral::{compare_from, span, Numeral, Order, Step};

verus! {

/// Quotient and remainder of a sum are those of their defining equation.
pub proof fn lemma_div_mod_unique(x: nat, d: nat, q: nat, r: nat)
    requires
        r < d,
        x == q * d + r,
    ensures
        x / d == q,
        x % d == r,
{
    lemma_fundamental_div_mod_converse(x as int, d as int, q as int, r as int);
}

/// Two sequences of one length compare as equal from the index `i` on
/// exactly when they agree there.
pub proof fn lemma_compare_equal(a: Seq<nat>, b: Seq<nat>, i: int)
    requires
        a.len() == b.len(),
        0 <= i <= a.len(),
    ensures
        compare_from(a, b, i) == Order::Equal <==> forall|j: int|
            i <= j < a.len() ==> a[j] == b[j],
    decreases a.len() - i,
{
    if i < a.len() {
        lemma_compare_equal(a, b, i + 1);
    }
}

/// A digit below its limit plus a carry, by the carry's own quotient and
/// remainder: the digit and the remainder either stay below the limit
/// together, or pass it by less than the limit and carry one more.
pub proof fn lemma_digit_plus_carry(d: nat, c: nat, l: nat)
    requires
        d < l,
    ensures
        c % l < l,
        d + c % l < l ==> (d + c) % l == d + c % l && (d + c) / l == c / l,
        d + c % l >= l ==> (d + c) % l == d + c % l - l && (d + c) / l == c / l + 1,
{
    let q = c / l;
    let r = c % l;
    lemma_fundamental_div_mod(c as int, l as int);
    assert(r < l) by (nonlinear_arith)
        requires
            r == c % l,
            l > 0,
    ;
    if d + r < l {
        assert(d + c == q * l + (d + r)) by (nonlinear_arith)
            requires
                c == l * q + r,
        ;
        lemma_div_mod_unique(d + c, l, q, d + r);
    } else {
        assert(d + c == (q + 1) * l + (d + r - l)) by (nonlinear_arith)
            requires
                c == l * q + r,
        ;
        lemma_div_mod_unique(d + c, l, q + 1, (d + r - l) as nat);
    }
}

impl Numeral {
    /// The digits at the positions `i..` stand for a number below the number
    /// of states of these positions.
    pub proof fn lemma_tail_below_span(self, i: int)
        requires
            self.valid(),
            0 <= i <= self.limits.len(),
        ensures
            self.tail(i) < span(self.limits, i),
        decreases self.limits.len() - i,
    {
        if i < self.limits.len() {
            self.lemma_tail_below_span(i + 1);
            let d = self.digits[i];
            let l = self.limits[i];
            let s = span(self.limits, i + 1);
            assert(d * s + s <= l * s) by (nonlinear_arith)
                requires
                    d < l,
            ;
        }
    }

    /// A valid numeral stands for a number below its capacity.
    pub proof fn lemma_number_below_capacity(self)
        requires
            self.valid(),
        ensures
            self.number() < self.capacity(),
            self.capacity() > 0,
    {
        self.lemma_tail_below_span(0);
    }
}

impl Numeral {
    /// Adding with carry keeps every digit below its limit.
    pub proof fn lemma_plus_valid(self, v: nat)
        requires
            self.valid(),
        ensures
            self.plus(v).valid(),
            self.plus(v).limits == self.limits,
    {
        let sum = self.plus(v);
        assert forall|i: int| 0 <= i < sum.digits.len() implies sum.digits[i] < sum.limits[i] by {
            let x = self.digits[i] + self.carry(v, i + 1);
            let l = self.limits[i];
            lemma_fundamental_div_mod(x as int, l as int);
            assert(x % l < l) by (nonlinear_arith)
                requires
                    l > 0,
            ;
        }
    }

    /// Nothing is lost in an addition: at every position, what the digits to
    /// the right stand for afterwards, together with the carry that leaves
    /// them, is what they stood for before plus `v`.
    pub proof fn lemma_plus_tail(self, v: nat, i: int)
        requires
            self.valid(),
            0 <= i <= self.digits.len(),
        ensures
            self.plus(v).tail(i) + self.carry(v, i) * span(self.limits, i) == self.tail(i) + v,
        decreases self.digits.len() - i,
    {
        if i < self.digits.len() {
            self.lemma_plus_tail(v, i + 1);
            let d = self.digits[i];
            let l = self.limits[i];
            let c = self.carry(v, i + 1);
            let s = span(self.limits, i + 1);
            let x = d + c;
            lemma_fundamental_div_mod(x as int, l as int);
            let q = x / l;
            let r = x % l;
            assert(r * s + q * (l * s) == d * s + c * s) by (nonlinear_arith)
                requires
                    d + c == l * q + r,
            ;
        } else {
            assert(span(self.limits, i) == 1);
        }
    }

    /// An addition yields the sum modulo the capacity, and carries the
    /// quotient out of the most significant position.
    pub proof fn lemma_plus_number(self, v: nat)
        requires
            self.valid(),
        ensures
            self.plus(v).number() == (self.number() + v) % self.capacity(),
            self.carry(v, 0) == (self.number() + v) / self.capacity(),
    {
        self.lemma_plus_valid(v);
        self.lemma_plus_tail(v, 0);
        self.plus(v).lemma_tail_below_span(0);
        lemma_div_mod_unique(
            self.number() + v,
            self.capacity(),
            self.carry(v, 0),
            self.plus(v).number(),
        );
    }

    /// Once the carry has died out, it stays out: the positions further left
    /// are not changed by the addition.
    pub proof fn lemma_carry_dies(self, v: nat, i: int, j: int)
        requires
            self.valid(),
            0 <= j <= i <= self.digits.len(),
            self.carry(v, i) == 0,
        ensures
            self.carry(v, j) == 0,
            j < i ==> self.plus(v).digits[j] == self.digits[j],
        decreases i - j,
    {
        if j < i {
            self.lemma_carry_dies(v, i, j + 1);
            let d = self.digits[j];
            let l = self.limits[j];
            lemma_div_mod_unique(d, l, 0, d);
        }
    }

    /// Two valid numerals over the same limits that stand for the same
    /// number at the positions `i..` have the same digits there.
    pub proof fn lemma_tail_unique(self, other: Numeral, i: int)
        requires
            self.valid(),
            other.valid(),
            self.limits == other.limits,
            0 <= i <= self.digits.len(),
            self.tail(i) == other.tail(i),
        ensures
            forall|j: int| i <= j < self.digits.len() ==> self.digits[j] == other.digits[j],
        decreases self.digits.len() - i,
    {
        if i < self.digits.len() {
            let s = span(self.limits, i + 1);
            self.lemma_tail_below_span(i + 1);
            other.lemma_tail_below_span(i + 1);
            lemma_div_mod_unique(self.tail(i), s, self.digits[i], self.tail(i + 1));
            lemma_div_mod_unique(other.tail(i), s, other.digits[i], other.tail(i + 1));
            self.lemma_tail_unique(other, i + 1);
        }
    }

    /// Every number below the capacity is written in exactly one way: two
    /// valid numerals over the same limits that stand for the same number
    /// are equal.
    pub proof fn lemma_number_unique(self, other: Numeral)
        requires
            self.valid(),
            other.valid(),
            self.limits == other.limits,
            self.number() == other.number(),
        ensures
            self == other,
    {
        self.lemma_tail_unique(other, 0);
        assert(self.digits =~= other.digits);
    }
}

impl Numeral {
    /// When one is added, a carry of one leaves exactly the positions that
    /// are full up to the end, and none leaves the others.
    pub proof fn lemma_carry_of_one(self, i: int)
        requires
            self.valid(),
            0 <= i <= self.digits.len(),
        ensures
            self.carry(1, i) == if self.full_from(i) {
                1nat
            } else {
                0nat
            },
        decreases self.digits.len() - i,
    {
        if i < self.digits.len() {
            self.lemma_carry_of_one(i + 1);
            let d = self.digits[i];
            let l = self.limits[i];
            if self.full_from(i + 1) {
                if d + 1 < l {
                    lemma_div_mod_unique(d + 1, l, 0, d + 1);
                } else {
                    lemma_div_mod_unique(d + 1, l, 1, 0);
                }
            } else {
                lemma_div_mod_unique(d, l, 0, d);
            }
        }
    }

    /// Where the positions `j..` are full, so are the positions `i..` to
    /// the right of `j`.
    pub proof fn lemma_full_from_right(self, j: int, i: int)
        requires
            0 <= j <= i,
            self.full_from(j),
        ensures
            self.full_from(i),
        decreases i - j,
    {
        if j < i && j < self.digits.len() {
            self.lemma_full_from_right(j + 1, i);
        }
    }

    /// One step is the addition of one.
    pub proof fn lemma_successor_is_plus_one(self)
        requires
            self.valid(),
        ensures
            self.successor() == self.plus(1),
            self.at_maximum() <==> self.carry(1, 0) == 1,
            !self.at_maximum() <==> self.carry(1, 0) == 0,
    {
        self.lemma_carry_of_one(0);
        let next = self.successor();
        let sum = self.plus(1);
        assert forall|i: int| 0 <= i < self.digits.len() implies next.digits[i]
            == sum.digits[i] by {
            self.lemma_carry_of_one(i + 1);
            let d = self.digits[i];
            let l = self.limits[i];
            if self.full_from(i + 1) {
                if d + 1 < l {
                    lemma_div_mod_unique(d + 1, l, 0, d + 1);
                } else {
                    lemma_div_mod_unique(d + 1, l, 1, 0);
                }
            } else {
                lemma_div_mod_unique(d, l, 0, d);
            }
        }
        assert(next.digits =~= sum.digits);
    }

    /// One step keeps every digit below its limit, advances the number by
    /// one modulo the capacity, and wraps around exactly from the largest
    /// number.
    pub proof fn lemma_successor_number(self)
        requires
            self.valid(),
        ensures
            self.successor().valid(),
            self.successor().limits == self.limits,
            self.successor().number() == (self.number() + 1) % self.capacity(),
            self.at_maximum() <==> self.number() + 1 == self.capacity(),
    {
        self.lemma_successor_is_plus_one();
        self.lemma_plus_valid(1);
        self.lemma_plus_number(1);
        self.lemma_number_below_capacity();
        let x = self.number() + 1;
        let c = self.capacity();
        if x == c {
            lemma_div_mod_unique(x, c, 1, 0);
        } else {
            lemma_div_mod_unique(x, c, 0, x);
        }
    }
}

/// Going one further, seen through quotient and remainder: the remainder
/// moves on by one and wraps at the divisor, and the quotient grows by one
/// exactly when it wraps.
pub proof fn lemma_div_mod_step(x: nat, d: nat)
    requires
        d > 0,
    ensures
        (x + 1) % d == (x % d + 1) % d,
        (x + 1) / d == x / d + (x % d + 1) / d,
{
    let q = x / d;
    let r = x % d;
    lemma_fundamental_div_mod(x as int, d as int);
    assert(r < d) by (nonlinear_arith)
        requires
            r == x % d,
            d > 0,
    ;
    if r + 1 < d {
        lemma_div_mod_unique(r + 1, d, 0, r + 1);
        assert(x + 1 == q * d + (r + 1)) by (nonlinear_arith)
            requires
                x == d * q + r,
        ;
        lemma_div_mod_unique(x + 1, d, q, r + 1);
    } else {
        lemma_div_mod_unique(r + 1, d, 1, 0);
        assert(x + 1 == (q + 1) * d + 0) by (nonlinear_arith)
            requires
                x == d * q + r,
                r + 1 == d,
        ;
        lemma_div_mod_unique(x + 1, d, q + 1, 0);
    }
}

impl Numeral {
    /// Any number of steps is one addition: the digits afterwards are those
    /// of the sum, and the steps that wrapped around are as many as the
    /// carry that leaves the most significant position.
    pub proof fn lemma_after_is_plus(self, n: nat)
        requires
            self.valid(),
        ensures
            self.after(n) == self.plus(n),
            self.overflows(n) == self.carry(n, 0),
            self.after(n).valid(),
            self.after(n).limits == self.limits,
        decreases n,
    {
        self.lemma_number_below_capacity();
        self.lemma_plus_valid(n);
        self.lemma_plus_number(n);
        let c = self.capacity();
        if n == 0 {
            lemma_div_mod_unique(self.number(), c, 0, self.number());
            self.lemma_number_unique(self.plus(0));
        } else {
            let m = (n - 1) as nat;
            let before = self.after(m);
            self.lemma_after_is_plus(m);
            self.lemma_plus_number(m);
            before.lemma_successor_is_plus_one();
            before.lemma_plus_valid(1);
            before.lemma_plus_number(1);
            lemma_div_mod_step(self.number() + m, c);
            before.plus(1).lemma_number_unique(self.plus(n));
        }
    }
}

impl Numeral {
    /// No sequence of changes takes a digit to its limit or beyond, and none
    /// touches the limits.
    pub proof fn lemma_run_valid(self, steps: Seq<Step>)
        requires
            self.valid(),
        ensures
            self.run(steps).valid(),
            self.run(steps).limits == self.limits,
        decreases steps.len(),
    {
        if steps.len() > 0 {
            let before = self.run(steps.drop_last());
            self.lemma_run_valid(steps.drop_last());
            match steps.last() {
                Step::Increment => before.lemma_successor_number(),
                Step::Add(v) => before.lemma_plus_valid(v),
            }
        }
    }

    /// Digits that are all zero stand for zero.
    pub proof fn lemma_zero_tail(self, i: int)
        requires
            0 <= i <= self.digits.len(),
            forall|j: int| 0 <= j < self.digits.len() ==> self.digits[j] == 0,
        ensures
            self.tail(i) == 0,
        decreases self.digits.len() - i,
    {
        if i < self.digits.len() {
            self.lemma_zero_tail(i + 1);
        }
    }

    /// As many steps as the numeral has states lead back to where they
    /// began, and exactly one of them wraps around.
    pub proof fn lemma_cycle(self)
        requires
            self.valid(),
        ensures
            self.after(self.capacity()) == self,
            self.overflows(self.capacity()) == 1,
    {
        let c = self.capacity();
        self.lemma_number_below_capacity();
        self.lemma_after_is_plus(c);
        self.lemma_plus_number(c);
        lemma_div_mod_unique(self.number() + c, c, 1, self.number());
        self.after(c).lemma_number_unique(self);
    }

    /// The step that wraps around is the one taken from the largest number:
    /// from zero it is the last one of the cycle.
    pub proof fn lemma_cycle_from_zero(self)
        requires
            self.valid(),
            self.number() == 0,
        ensures
            self.after((self.capacity() - 1) as nat).at_maximum(),
            self.overflows((self.capacity() - 1) as nat) == 0,
    {
        let c = self.capacity();
        let m = (c - 1) as nat;
        self.lemma_number_below_capacity();
        self.lemma_cycle();
        self.lemma_after_is_plus(m);
        self.lemma_plus_number(m);
        lemma_div_mod_unique(m, c, 0, m);
    }
}

} // verus!
