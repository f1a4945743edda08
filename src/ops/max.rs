//! Maximum: an associative and commutative operator whose identity is the
//! least value of the scalar type.

use std::marker::PhantomData;
use vstd::prelude::*;

use super::{
    cast_i16, cast_i32, cast_i64, cast_u32, cast_u64, cast_usize, widen_i32, widen_u32,
    AggregateMonoid, AggregateOperator,
};

verus! {

/// Types with a least value.
pub trait Min: Sized {
    spec fn spec_min() -> Self;

    fn min() -> (r: Self)
        ensures
            r == Self::spec_min(),
    ;
}

/// Totally ordered scalars with a least value, which a maximum is taken in.
pub trait MaxOut: Min + Copy {
    spec fn spec_greater(a: Self, b: Self) -> bool;

    /// `spec_greater` is a strict total order with least element `spec_min`.
    proof fn lemma_total_order(a: Self, b: Self, c: Self)
        ensures
            !Self::spec_greater(Self::spec_min(), a),
            Self::spec_greater(a, b) ==> !Self::spec_greater(b, a),
            Self::spec_greater(a, b) || Self::spec_greater(b, a) || a == b,
            Self::spec_greater(a, b) && Self::spec_greater(b, c) ==> Self::spec_greater(a, c),
    ;

    fn greater(a: &Self, b: &Self) -> (r: bool)
        ensures
            r == Self::spec_greater(*a, *b),
    ;
}

/// Element types a maximum accepts: each converts into the scalar `Out`.
pub trait MaxIn<Out>: Copy {
    spec fn spec_to_out(self) -> Out;

    fn to_out(self) -> (r: Out)
        ensures
            r == self.spec_to_out(),
    ;
}

impl Min for i16 {
    open spec fn spec_min() -> i16 {
        i16::MIN
    }

    fn min() -> (r: i16) {
        i16::MIN
    }
}

impl MaxOut for i16 {
    open spec fn spec_greater(a: i16, b: i16) -> bool {
        a > b
    }

    proof fn lemma_total_order(a: i16, b: i16, c: i16) {
    }

    fn greater(a: &i16, b: &i16) -> (r: bool) {
        *a > *b
    }
}

impl Min for i32 {
    open spec fn spec_min() -> i32 {
        i32::MIN
    }

    fn min() -> (r: i32) {
        i32::MIN
    }
}

impl MaxOut for i32 {
    open spec fn spec_greater(a: i32, b: i32) -> bool {
        a > b
    }

    proof fn lemma_total_order(a: i32, b: i32, c: i32) {
    }

    fn greater(a: &i32, b: &i32) -> (r: bool) {
        *a > *b
    }
}

impl Min for i64 {
    open spec fn spec_min() -> i64 {
        i64::MIN
    }

    fn min() -> (r: i64) {
        i64::MIN
    }
}

impl MaxOut for i64 {
    open spec fn spec_greater(a: i64, b: i64) -> bool {
        a > b
    }

    proof fn lemma_total_order(a: i64, b: i64, c: i64) {
    }

    fn greater(a: &i64, b: &i64) -> (r: bool) {
        *a > *b
    }
}

impl Min for u32 {
    open spec fn spec_min() -> u32 {
        u32::MIN
    }

    fn min() -> (r: u32) {
        u32::MIN
    }
}

impl MaxOut for u32 {
    open spec fn spec_greater(a: u32, b: u32) -> bool {
        a > b
    }

    proof fn lemma_total_order(a: u32, b: u32, c: u32) {
    }

    fn greater(a: &u32, b: &u32) -> (r: bool) {
        *a > *b
    }
}

impl Min for u64 {
    open spec fn spec_min() -> u64 {
        u64::MIN
    }

    fn min() -> (r: u64) {
        u64::MIN
    }
}

impl MaxOut for u64 {
    open spec fn spec_greater(a: u64, b: u64) -> bool {
        a > b
    }

    proof fn lemma_total_order(a: u64, b: u64, c: u64) {
    }

    fn greater(a: &u64, b: &u64) -> (r: bool) {
        *a > *b
    }
}

impl Min for usize {
    open spec fn spec_min() -> usize {
        usize::MIN
    }

    fn min() -> (r: usize) {
        usize::MIN
    }
}

impl MaxOut for usize {
    open spec fn spec_greater(a: usize, b: usize) -> bool {
        a > b
    }

    proof fn lemma_total_order(a: usize, b: usize, c: usize) {
    }

    fn greater(a: &usize, b: &usize) -> (r: bool) {
        *a > *b
    }
}

impl MaxIn<i16> for i16 {
    open spec fn spec_to_out(self) -> i16 {
        self
    }

    fn to_out(self) -> (r: i16) {
        cast_i16(self).unwrap()
    }
}

impl MaxIn<i32> for i32 {
    open spec fn spec_to_out(self) -> i32 {
        self
    }

    fn to_out(self) -> (r: i32) {
        cast_i32(self).unwrap()
    }
}

impl MaxIn<i64> for i64 {
    open spec fn spec_to_out(self) -> i64 {
        self
    }

    fn to_out(self) -> (r: i64) {
        cast_i64(self).unwrap()
    }
}

impl MaxIn<u32> for u32 {
    open spec fn spec_to_out(self) -> u32 {
        self
    }

    fn to_out(self) -> (r: u32) {
        cast_u32(self).unwrap()
    }
}

impl MaxIn<u64> for u64 {
    open spec fn spec_to_out(self) -> u64 {
        self
    }

    fn to_out(self) -> (r: u64) {
        cast_u64(self).unwrap()
    }
}

impl MaxIn<usize> for usize {
    open spec fn spec_to_out(self) -> usize {
        self
    }

    fn to_out(self) -> (r: usize) {
        cast_usize(self).unwrap()
    }
}

impl MaxIn<i64> for i32 {
    open spec fn spec_to_out(self) -> i64 {
        self as i64
    }

    fn to_out(self) -> (r: i64) {
        widen_i32(self).unwrap()
    }
}

impl MaxIn<u64> for u32 {
    open spec fn spec_to_out(self) -> u64 {
        self as u64
    }

    fn to_out(self) -> (r: u64) {
        widen_u32(self).unwrap()
    }
}

/// Binary operator for maximum.
pub struct Max<In, Out> {
    in_type: PhantomData<In>,
    out_type: PhantomData<Out>,
}

impl<In, Out> Clone for Max<In, Out> {
    fn clone(&self) -> (r: Self) {
        Max { in_type: PhantomData::default(), out_type: PhantomData::default() }
    }
}

impl<In, Out> Max<In, Out> {
    pub fn name() -> (r: &'static str)
        ensures
            r@ == "max"@,
    {
        "max"
    }
}

/// The largest element seen so far.
#[derive(Copy, Clone, PartialEq, Eq, Debug)]
pub struct MaxPartial<T> {
    pub val: T,
}

impl<I: MaxIn<O>, O: MaxOut> AggregateOperator for Max<I, O> {
    type In = I;
    type Out = O;
}

impl<I: MaxIn<O>, O: MaxOut> AggregateMonoid for Max<I, O> {
    type Partial = MaxPartial<O>;

    open spec fn spec_identity() -> MaxPartial<O> {
        MaxPartial { val: O::spec_min() }
    }

    open spec fn spec_operate(a: MaxPartial<O>, b: MaxPartial<O>) -> MaxPartial<O> {
        if O::spec_greater(a.val, b.val) {
            a
        } else {
            b
        }
    }

    open spec fn spec_lift(v: I) -> MaxPartial<O> {
        MaxPartial { val: v.spec_to_out() }
    }

    open spec fn spec_lower(p: MaxPartial<O>) -> O {
        p.val
    }

    proof fn lemma_identity(a: MaxPartial<O>) {
        O::lemma_total_order(a.val, O::spec_min(), a.val);
        O::lemma_total_order(O::spec_min(), a.val, a.val);
    }

    proof fn lemma_associative(a: MaxPartial<O>, b: MaxPartial<O>, c: MaxPartial<O>) {
        O::lemma_total_order(a.val, b.val, c.val);
        O::lemma_total_order(b.val, c.val, a.val);
        O::lemma_total_order(c.val, a.val, b.val);
        O::lemma_total_order(a.val, c.val, b.val);
        O::lemma_total_order(b.val, a.val, c.val);
        O::lemma_total_order(c.val, b.val, a.val);
    }

    fn identity() -> (r: MaxPartial<O>) {
        MaxPartial { val: O::min() }
    }

    fn operate(a: &MaxPartial<O>, b: &MaxPartial<O>) -> (r: MaxPartial<O>) {
        if O::greater(&a.val, &b.val) {
            MaxPartial { val: a.val }
        } else {
            MaxPartial { val: b.val }
        }
    }

    fn lift(v: I) -> (r: MaxPartial<O>) {
        MaxPartial { val: v.to_out() }
    }

    fn lower(p: &MaxPartial<O>) -> (r: O) {
        p.val
    }
}

} // verus!
