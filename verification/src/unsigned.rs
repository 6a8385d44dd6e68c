//! The unsigned integer types as digits. Zero and one come from
//! `num_traits`; the arithmetic is the built-in one.

use vstd::prelude::*;
use crate::digit::Digit;

verus! {

/// Calls `<u8 as num_traits::Zero>::zero`. Trusted: the additive identity
/// that the crate gives for `u8` is the literal `0`.
#[verifier::external_body]
fn zero_u8() -> (r: u8)
    ensures
        r == 0,
{
    <u8 as num_traits::Zero>::zero()
}

/// Calls `<u8 as num_traits::One>::one`. Trusted: the multiplicative
/// identity that the crate gives for `u8` is the literal `1`.
#[verifier::external_body]
fn one_u8() -> (r: u8)
    ensures
        r == 1,
{
    <u8 as num_traits::One>::one()
}

impl Digit for u8 {
    open spec fn value(self) -> nat {
        self as nat
    }

    open spec fn ceiling() -> nat {
        u8::MAX as nat
    }

    proof fn lemma_value_bounded(self) {
    }

    proof fn lemma_value_injective(a: Self, b: Self) {
    }

    fn zero() -> (r: Self) {
        zero_u8()
    }

    fn one() -> (r: Self) {
        one_u8()
    }

    fn less_than(self, other: Self) -> (r: bool) {
        self < other
    }

    fn plus(self, other: Self) -> (r: Self) {
        self + other
    }

    fn minus(self, other: Self) -> (r: Self) {
        self - other
    }

    fn quotient(self, other: Self) -> (r: Self) {
        self / other
    }

    fn remainder(self, other: Self) -> (r: Self) {
        self % other
    }
}

/// Calls `<u16 as num_traits::Zero>::zero`. Trusted: the additive identity
/// that the crate gives for `u16` is the literal `0`.
#[verifier::external_body]
fn zero_u16() -> (r: u16)
    ensures
        r == 0,
{
    <u16 as num_traits::Zero>::zero()
}

/// Calls `<u16 as num_traits::One>::one`. Trusted: the multiplicative
/// identity that the crate gives for `u16` is the literal `1`.
#[verifier::external_body]
fn one_u16() -> (r: u16)
    ensures
        r == 1,
{
    <u16 as num_traits::One>::one()
}

impl Digit for u16 {
    open spec fn value(self) -> nat {
        self as nat
    }

    open spec fn ceiling() -> nat {
        u16::MAX as nat
    }

    proof fn lemma_value_bounded(self) {
    }

    proof fn lemma_value_injective(a: Self, b: Self) {
    }

    fn zero() -> (r: Self) {
        zero_u16()
    }

    fn one() -> (r: Self) {
        one_u16()
    }

    fn less_than(self, other: Self) -> (r: bool) {
        self < other
    }

    fn plus(self, other: Self) -> (r: Self) {
        self + other
    }

    fn minus(self, other: Self) -> (r: Self) {
        self - other
    }

    fn quotient(self, other: Self) -> (r: Self) {
        self / other
    }

    fn remainder(self, other: Self) -> (r: Self) {
        self % other
    }
}

/// Calls `<u32 as num_traits::Zero>::zero`. Trusted: the additive identity
/// that the crate gives for `u32` is the literal `0`.
#[verifier::external_body]
fn zero_u32() -> (r: u32)
    ensures
        r == 0,
{
    <u32 as num_traits::Zero>::zero()
}

/// Calls `<u32 as num_traits::One>::one`. Trusted: the multiplicative
/// identity that the crate gives for `u32` is the literal `1`.
#[verifier::external_body]
fn one_u32() -> (r: u32)
    ensures
        r == 1,
{
    <u32 as num_traits::One>::one()
}

impl Digit for u32 {
    open spec fn value(self) -> nat {
        self as nat
    }

    open spec fn ceiling() -> nat {
        u32::MAX as nat
    }

    proof fn lemma_value_bounded(self) {
    }

    proof fn lemma_value_injective(a: Self, b: Self) {
    }

    fn zero() -> (r: Self) {
        zero_u32()
    }

    fn one() -> (r: Self) {
        one_u32()
    }

    fn less_than(self, other: Self) -> (r: bool) {
        self < other
    }

    fn plus(self, other: Self) -> (r: Self) {
        self + other
    }

    fn minus(self, other: Self) -> (r: Self) {
        self - other
    }

    fn quotient(self, other: Self) -> (r: Self) {
        self / other
    }

    fn remainder(self, other: Self) -> (r: Self) {
        self % other
    }
}

/// Calls `<u64 as num_traits::Zero>::zero`. Trusted: the additive identity
/// that the crate gives for `u64` is the literal `0`.
#[verifier::external_body]
fn zero_u64() -> (r: u64)
    ensures
        r == 0,
{
    <u64 as num_traits::Zero>::zero()
}

/// Calls `<u64 as num_traits::One>::one`. Trusted: the multiplicative
/// identity that the crate gives for `u64` is the literal `1`.
#[verifier::external_body]
fn one_u64() -> (r: u64)
    ensures
        r == 1,
{
    <u64 as num_traits::One>::one()
}

impl Digit for u64 {
    open spec fn value(self) -> nat {
        self as nat
    }

    open spec fn ceiling() -> nat {
        u64::MAX as nat
    }

    proof fn lemma_value_bounded(self) {
    }

    proof fn lemma_value_injective(a: Self, b: Self) {
    }

    fn zero() -> (r: Self) {
        zero_u64()
    }

    fn one() -> (r: Self) {
        one_u64()
    }

    fn less_than(self, other: Self) -> (r: bool) {
        self < other
    }

    fn plus(self, other: Self) -> (r: Self) {
        self + other
    }

    fn minus(self, other: Self) -> (r: Self) {
        self - other
    }

    fn quotient(self, other: Self) -> (r: Self) {
        self / other
    }

    fn remainder(self, other: Self) -> (r: Self) {
        self % other
    }
}

/// Calls `<u128 as num_traits::Zero>::zero`. Trusted: the additive identity
/// that the crate gives for `u128` is the literal `0`.
#[verifier::external_body]
fn zero_u128() -> (r: u128)
    ensures
        r == 0,
{
    <u128 as num_traits::Zero>::zero()
}

/// Calls `<u128 as num_traits::One>::one`. Trusted: the multiplicative
/// identity that the crate gives for `u128` is the literal `1`.
#[verifier::external_body]
fn one_u128() -> (r: u128)
    ensures
        r == 1,
{
    <u128 as num_traits::One>::one()
}

impl Digit for u128 {
    open spec fn value(self) -> nat {
        self as nat
    }

    open spec fn ceiling() -> nat {
        u128::MAX as nat
    }

    proof fn lemma_value_bounded(self) {
    }

    proof fn lemma_value_injective(a: Self, b: Self) {
    }

    fn zero() -> (r: Self) {
        zero_u128()
    }

    fn one() -> (r: Self) {
        one_u128()
    }

    fn less_than(self, other: Self) -> (r: bool) {
        self < other
    }

    fn plus(self, other: Self) -> (r: Self) {
        self + other
    }

    fn minus(self, other: Self) -> (r: Self) {
        self - other
    }

    fn quotient(self, other: Self) -> (r: Self) {
        self / other
    }

    fn remainder(self, other: Self) -> (r: Self) {
        self % other
    }
}

/// Calls `<usize as num_traits::Zero>::zero`. Trusted: the additive identity
/// that the crate gives for `usize` is the literal `0`.
#[verifier::external_body]
fn zero_usize() -> (r: usize)
    ensures
        r == 0,
{
    <usize as num_traits::Zero>::zero()
}

/// Calls `<usize as num_traits::One>::one`. Trusted: the multiplicative
/// identity that the crate gives for `usize` is the literal `1`.
#[verifier::external_body]
fn one_usize() -> (r: usize)
    ensures
        r == 1,
{
    <usize as num_traits::One>::one()
}

impl Digit for usize {
    open spec fn value(self) -> nat {
        self as nat
    }

    open spec fn ceiling() -> nat {
        usize::MAX as nat
    }

    proof fn lemma_value_bounded(self) {
    }

    proof fn lemma_value_injective(a: Self, b: Self) {
    }

    fn zero() -> (r: Self) {
        zero_usize()
    }

    fn one() -> (r: Self) {
        one_usize()
    }

    fn less_than(self, other: Self) -> (r: bool) {
        self < other
    }

    fn plus(self, other: Self) -> (r: Self) {
        self + other
    }

    fn minus(self, other: Self) -> (r: Self) {
        self - other
    }

    fn quotient(self, other: Self) -> (r: Self) {
        self / other
    }

    fn remainder(self, other: Self) -> (r: Self) {
        self % other
    }
}

} // verus!
