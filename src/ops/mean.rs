//! Arithmetic mean: the partial carries a sum and a count, both adding with
//! two's-complement wrap-around, so partials form a group. The mean is the
//! sum divided by the count, rounded toward zero; a window with no elements
//! (count zero) has mean zero.

use std::marker::PhantomData;
use vstd::prelude::*;

use super::sum::SumOut;
use super::{
    cast_i16, cast_i32, cast_i64, cast_u32, cast_u64, cast_usize, widen_i32, widen_u32,
    AggregateGroup, AggregateMonoid, AggregateOperator,
};

verus! {

/// Scalars a mean is computed in: a sum scalar with a unit count and a
/// division that rounds toward zero.
pub trait MeanOut: SumOut {
    spec fn spec_one() -> Self;

    /// `sum / n` rounded toward zero, or zero where it is undefined or does
    /// not fit.
    spec fn spec_mean(sum: Self, n: Self) -> Self;

    fn one() -> (r: Self)
        ensures
            r == Self::spec_one(),
    ;

    fn mean(sum: &Self, n: &Self) -> (r: Self)
        ensures
            r == Self::spec_mean(*sum, *n),
    ;
}

/// Element types a mean accepts: each converts into the scalar `Out`.
pub trait MeanIn<Out>: Copy {
    spec fn spec_to_out(self) -> Out;

    fn to_out(self) -> (r: Out)
        ensures
            r == self.spec_to_out(),
    ;
}

impl MeanOut for i16 {
    open spec fn spec_one() -> i16 {
        1
    }

    open spec fn spec_mean(sum: i16, n: i16) -> i16 {
        match sum.checked_div(n) {
            Some(q) => q,
            None => 0,
        }
    }

    fn one() -> (r: i16) {
        1
    }

    fn mean(sum: &i16, n: &i16) -> (r: i16) {
        match sum.checked_div(*n) {
            Some(q) => q,
            None => 0,
        }
    }
}

impl MeanOut for i32 {
    open spec fn spec_one() -> i32 {
        1
    }

    open spec fn spec_mean(sum: i32, n: i32) -> i32 {
        match sum.checked_div(n) {
            Some(q) => q,
            None => 0,
        }
    }

    fn one() -> (r: i32) {
        1
    }

    fn mean(sum: &i32, n: &i32) -> (r: i32) {
        match sum.checked_div(*n) {
            Some(q) => q,
            None => 0,
        }
    }
}

impl MeanOut for i64 {
    open spec fn spec_one() -> i64 {
        1
    }

    open spec fn spec_mean(sum: i64, n: i64) -> i64 {
        match sum.checked_div(n) {
            Some(q) => q,
            None => 0,
        }
    }

    fn one() -> (r: i64) {
        1
    }

    fn mean(sum: &i64, n: &i64) -> (r: i64) {
        match sum.checked_div(*n) {
            Some(q) => q,
            None => 0,
        }
    }
}

impl MeanOut for u32 {
    open spec fn spec_one() -> u32 {
        1
    }

    open spec fn spec_mean(sum: u32, n: u32) -> u32 {
        match sum.checked_div(n) {
            Some(q) => q,
            None => 0,
        }
    }

    fn one() -> (r: u32) {
        1
    }

    fn mean(sum: &u32, n: &u32) -> (r: u32) {
        match sum.checked_div(*n) {
            Some(q) => q,
            None => 0,
        }
    }
}

impl MeanOut for u64 {
    open spec fn spec_one() -> u64 {
        1
    }

    open spec fn spec_mean(sum: u64, n: u64) -> u64 {
        match sum.checked_div(n) {
            Some(q) => q,
            None => 0,
        }
    }

    fn one() -> (r: u64) {
        1
    }

    fn mean(sum: &u64, n: &u64) -> (r: u64) {
        match sum.checked_div(*n) {
            Some(q) => q,
            None => 0,
        }
    }
}

impl MeanOut for usize {
    open spec fn spec_one() -> usize {
        1
    }

    open spec fn spec_mean(sum: usize, n: usize) -> usize {
        match sum.checked_div(n) {
            Some(q) => q,
            None => 0,
        }
    }

    fn one() -> (r: usize) {
        1
    }

    fn mean(sum: &usize, n: &usize) -> (r: usize) {
        match sum.checked_div(*n) {
            Some(q) => q,
            None => 0,
        }
    }
}

impl MeanIn<i16> for i16 {
    open spec fn spec_to_out(self) -> i16 {
        self
    }

    fn to_out(self) -> (r: i16) {
        cast_i16(self).unwrap()
    }
}

impl MeanIn<i32> for i32 {
    open spec fn spec_to_out(self) -> i32 {
        self
    }

    fn to_out(self) -> (r: i32) {
        cast_i32(self).unwrap()
    }
}

impl MeanIn<i64> for i64 {
    open spec fn spec_to_out(self) -> i64 {
        self
    }

    fn to_out(self) -> (r: i64) {
        cast_i64(self).unwrap()
    }
}

impl MeanIn<u32> for u32 {
    open spec fn spec_to_out(self) -> u32 {
        self
    }

    fn to_out(self) -> (r: u32) {
        cast_u32(self).unwrap()
    }
}

impl MeanIn<u64> for u64 {
    open spec fn spec_to_out(self) -> u64 {
        self
    }

    fn to_out(self) -> (r: u64) {
        cast_u64(self).unwrap()
    }
}

impl MeanIn<usize> for usize {
    open spec fn spec_to_out(self) -> usize {
        self
    }

    fn to_out(self) -> (r: usize) {
        cast_usize(self).unwrap()
    }
}

impl MeanIn<i64> for i32 {
    open spec fn spec_to_out(self) -> i64 {
        self as i64
    }

    fn to_out(self) -> (r: i64) {
        widen_i32(self).unwrap()
    }
}

impl MeanIn<u64> for u32 {
    open spec fn spec_to_out(self) -> u64 {
        self as u64
    }

    fn to_out(self) -> (r: u64) {
        widen_u32(self).unwrap()
    }
}

/// Binary operator for mean.
pub struct Mean<In, Out> {
    in_type: PhantomData<In>,
    out_type: PhantomData<Out>,
}

impl<In, Out> Clone for Mean<In, Out> {
    fn clone(&self) -> (r: Self) {
        Mean { in_type: PhantomData::default(), out_type: PhantomData::default() }
    }
}

impl<In, Out> Mean<In, Out> {
    pub fn name() -> (r: &'static str)
        ensures
            r@ == "mean"@,
    {
        "mean"
    }
}

/// A sum of elements together with how many there were.
#[derive(Copy, Clone, PartialEq, Eq, Debug)]
pub struct MeanPartial<T> {
    pub sum: T,
    pub n: T,
}

impl<I: MeanIn<O>, O: MeanOut> AggregateOperator for Mean<I, O> {
    type In = I;
    type Out = O;
}

impl<I: MeanIn<O>, O: MeanOut> AggregateMonoid for Mean<I, O> {
    type Partial = MeanPartial<O>;

    open spec fn spec_identity() -> MeanPartial<O> {
        MeanPartial { sum: O::spec_zero(), n: O::spec_zero() }
    }

    open spec fn spec_operate(a: MeanPartial<O>, b: MeanPartial<O>) -> MeanPartial<O> {
        MeanPartial { sum: O::spec_plus(a.sum, b.sum), n: O::spec_plus(a.n, b.n) }
    }

    open spec fn spec_lift(v: I) -> MeanPartial<O> {
        MeanPartial { sum: v.spec_to_out(), n: O::spec_one() }
    }

    open spec fn spec_lower(p: MeanPartial<O>) -> O {
        O::spec_mean(p.sum, p.n)
    }

    proof fn lemma_identity(a: MeanPartial<O>) {
        O::lemma_sum_group(a.sum, a.sum, a.sum);
        O::lemma_sum_group(a.n, a.n, a.n);
    }

    proof fn lemma_associative(a: MeanPartial<O>, b: MeanPartial<O>, c: MeanPartial<O>) {
        O::lemma_sum_group(a.sum, b.sum, c.sum);
        O::lemma_sum_group(a.n, b.n, c.n);
    }

    fn identity() -> (r: MeanPartial<O>) {
        MeanPartial { sum: O::zero(), n: O::zero() }
    }

    fn operate(a: &MeanPartial<O>, b: &MeanPartial<O>) -> (r: MeanPartial<O>) {
        MeanPartial { sum: O::plus(&a.sum, &b.sum), n: O::plus(&a.n, &b.n) }
    }

    fn lift(v: I) -> (r: MeanPartial<O>) {
        MeanPartial { sum: v.to_out(), n: O::one() }
    }

    fn lower(p: &MeanPartial<O>) -> (r: O) {
        O::mean(&p.sum, &p.n)
    }
}

impl<I: MeanIn<O>, O: MeanOut> AggregateGroup for Mean<I, O> {
    open spec fn spec_inverse(a: MeanPartial<O>) -> MeanPartial<O> {
        MeanPartial { sum: O::spec_negate(a.sum), n: O::spec_negate(a.n) }
    }

    proof fn lemma_inverse(a: MeanPartial<O>) {
        O::lemma_sum_group(a.sum, a.sum, a.sum);
        O::lemma_sum_group(a.n, a.n, a.n);
    }

    fn two_sided_inverse(a: &MeanPartial<O>) -> (r: MeanPartial<O>) {
        MeanPartial { sum: O::negate(&a.sum), n: O::negate(&a.n) }
    }
}

} // verus!
