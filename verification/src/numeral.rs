//! The mathematical model of a counter: a mixed-radix numeral.
//!
//! Position 0 is the most significant one. The digit at position `i` counts
//! in units of `span(limits, i + 1)`, the product of the limits to its right.

use vstd::prelude::*;

verus! {

/// The product of the limits at the positions `i..`: the number of states
/// that these positions can take together.
pub open spec fn span(limits: Seq<nat>, i: int) -> nat
    decreases limits.len() - i,
{
    if i >= limits.len() {
        1
    } else {
        limits[i] * span(limits, i + 1)
    }
}

/// What a position with the limit `limit` keeps of `sum` as its digit; the
/// rest it hands on as carry.
pub open spec fn kept(sum: nat, limit: nat) -> nat {
    sum % limit
}

/// How one value stands to another.
pub enum Order {
    Less,
    Equal,
    Greater,
}

/// How two sequences of numbers of one length compare from the index `i` on:
/// the first index at which they differ decides.
pub open spec fn compare_from(a: Seq<nat>, b: Seq<nat>, i: int) -> Order
    decreases a.len() - i,
{
    if i >= a.len() {
        Order::Equal
    } else if a[i] < b[i] {
        Order::Less
    } else if a[i] > b[i] {
        Order::Greater
    } else {
        compare_from(a, b, i + 1)
    }
}

/// A sequence of digits, each with its own exclusive upper bound.
pub struct Numeral {
    pub digits: Seq<nat>,
    pub limits: Seq<nat>,
}

impl Numeral {
    /// There is one limit for each digit, and every digit is below its limit.
    pub open spec fn valid(self) -> bool {
        &&& self.digits.len() == self.limits.len()
        &&& forall|i: int| 0 <= i < self.digits.len() ==> self.digits[i] < self.limits[i]
    }

    /// How the numeral compares to another one of the same length: by the
    /// digits first, and by the limits where the digits are the same.
    pub open spec fn compare(self, other: Numeral) -> Order {
        match compare_from(self.digits, other.digits, 0) {
            Order::Equal => compare_from(self.limits, other.limits, 0),
            decided => decided,
        }
    }

    /// The number of states: the product of all limits.
    pub open spec fn capacity(self) -> nat {
        span(self.limits, 0)
    }

    /// The number that the digits at the positions `i..` stand for.
    pub open spec fn tail(self, i: int) -> nat
        decreases self.digits.len() - i,
    {
        if i >= self.digits.len() {
            0
        } else {
            self.digits[i] * span(self.limits, i + 1) + self.tail(i + 1)
        }
    }

    /// The number that the numeral stands for.
    pub open spec fn number(self) -> nat {
        self.tail(0)
    }

    /// The carry that leaves position `i` towards position `i - 1` when `v`
    /// is added at the last position.
    pub open spec fn carry(self, v: nat, i: int) -> nat
        decreases self.digits.len() - i,
    {
        if i >= self.digits.len() {
            v
        } else {
            (self.digits[i] + self.carry(v, i + 1)) / self.limits[i]
        }
    }

    /// The numeral after `v` has been added with carry: every position takes
    /// the remainder of its digit plus the carry that reaches it.
    pub open spec fn plus(self, v: nat) -> Numeral {
        Numeral {
            digits: Seq::new(
                self.digits.len(),
                |i: int| kept(self.digits[i] + self.carry(v, i + 1), self.limits[i]),
            ),
            limits: self.limits,
        }
    }

    /// What is left of `v` after the most significant position has been
    /// updated. A numeral without positions absorbs nothing and reports
    /// nothing.
    pub open spec fn excess(self, v: nat) -> nat {
        if self.digits.len() == 0 {
            0
        } else {
            self.carry(v, 0)
        }
    }

    /// The positions `i..` all hold their largest digit.
    pub open spec fn full_from(self, i: int) -> bool
        decreases self.digits.len() - i,
    {
        if i >= self.digits.len() {
            true
        } else {
            self.digits[i] + 1 >= self.limits[i] && self.full_from(i + 1)
        }
    }

    /// Every position holds its largest digit.
    pub open spec fn at_maximum(self) -> bool {
        self.full_from(0)
    }

    /// The numeral after one step: the positions to the right of which
    /// everything is full move on by one, wrapping to zero at their limit;
    /// the others stay.
    pub open spec fn successor(self) -> Numeral {
        Numeral {
            digits: Seq::new(
                self.digits.len(),
                |i: int|
                    if self.full_from(i + 1) {
                        if self.digits[i] + 1 < self.limits[i] {
                            self.digits[i] + 1
                        } else {
                            0
                        }
                    } else {
                        self.digits[i]
                    },
            ),
            limits: self.limits,
        }
    }

    /// The numeral after `n` steps.
    pub open spec fn after(self, n: nat) -> Numeral
        decreases n,
    {
        if n == 0 {
            self
        } else {
            self.after((n - 1) as nat).successor()
        }
    }

    /// How many of the first `n` steps wrap the whole numeral around, from
    /// its largest number to zero.
    pub open spec fn overflows(self, n: nat) -> nat
        decreases n,
    {
        if n == 0 {
            0
        } else {
            let before = self.after((n - 1) as nat);
            self.overflows((n - 1) as nat) + if before.at_maximum() {
                1nat
            } else {
                0nat
            }
        }
    }
}

/// One change of a counter.
pub enum Step {
    /// One step forward.
    Increment,
    /// The addition of a number.
    Add(nat),
}

impl Numeral {
    /// The numeral after one change.
    pub open spec fn step(self, step: Step) -> Numeral {
        match step {
            Step::Increment => self.successor(),
            Step::Add(v) => self.plus(v),
        }
    }

    /// The numeral after a sequence of changes, the first one first.
    pub open spec fn run(self, steps: Seq<Step>) -> Numeral
        decreases steps.len(),
    {
        if steps.len() == 0 {
            self
        } else {
            self.run(steps.drop_last()).step(steps.last())
        }
    }
}

} // verus!
