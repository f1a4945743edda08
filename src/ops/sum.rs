//! Arithmetic sum: an invertible, associative and commutative operator.
//!
//! Scalars add with two's-complement wrap-around, which makes partials a group
//! on every input: overflow is the numeric type's own behaviour.

use std::marker::PhantomData;
use vstd::prelude::*;

use super::{
    cast_i16, cast_i32, cast_i64, cast_u32, cast_u64, cast_usize, widen_i32, widen_u32, aggregate,
    fold, lift_all, AggregateGroup, AggregateMonoid, AggregateOperator,
};

verus! {

/// Scalars a sum accumulates in: a group under wrapping addition.
pub trait SumOut: Copy {
    spec fn spec_zero() -> Self;

    spec fn spec_plus(a: Self, b: Self) -> Self;

    spec fn spec_negate(a: Self) -> Self;

    /// Addition is associative, with unit zero and inverse negation.
    proof fn lemma_sum_group(a: Self, b: Self, c: Self)
        ensures
            Self::spec_plus(Self::spec_plus(a, b), c) == Self::spec_plus(a, Self::spec_plus(b, c)),
            Self::spec_plus(Self::spec_zero(), a) == a,
            Self::spec_plus(a, Self::spec_zero()) == a,
            Self::spec_plus(a, Self::spec_negate(a)) == Self::spec_zero(),
            Self::spec_plus(Self::spec_negate(a), a) == Self::spec_zero(),
    ;

    fn zero() -> (r: Self)
        ensures
            r == Self::spec_zero(),
    ;

    fn plus(a: &Self, b: &Self) -> (r: Self)
        ensures
            r == Self::spec_plus(*a, *b),
    ;

    fn negate(a: &Self) -> (r: Self)
        ensures
            r == Self::spec_negate(*a),
    ;
}

/// Element types a sum accepts: each converts into the scalar `Out`.
pub trait SumIn<Out>: Copy {
    spec fn spec_to_out(self) -> Out;

    fn to_out(self) -> (r: Out)
        ensures
            r == self.spec_to_out(),
    ;
}

impl SumOut for i16 {
    open spec fn spec_zero() -> i16 {
        0
    }

    open spec fn spec_plus(a: i16, b: i16) -> i16 {
        a.wrapping_add(b)
    }

    open spec fn spec_negate(a: i16) -> i16 {
        0i16.wrapping_sub(a)
    }

    proof fn lemma_sum_group(a: i16, b: i16, c: i16) {
    }

    fn zero() -> (r: i16) {
        0
    }

    fn plus(a: &i16, b: &i16) -> (r: i16) {
        a.wrapping_add(*b)
    }

    fn negate(a: &i16) -> (r: i16) {
        0i16.wrapping_sub(*a)
    }
}

impl SumOut for i32 {
    open spec fn spec_zero() -> i32 {
        0
    }

    open spec fn spec_plus(a: i32, b: i32) -> i32 {
        a.wrapping_add(b)
    }

    open spec fn spec_negate(a: i32) -> i32 {
        0i32.wrapping_sub(a)
    }

    proof fn lemma_sum_group(a: i32, b: i32, c: i32) {
    }

    fn zero() -> (r: i32) {
        0
    }

    fn plus(a: &i32, b: &i32) -> (r: i32) {
        a.wrapping_add(*b)
    }

    fn negate(a: &i32) -> (r: i32) {
        0i32.wrapping_sub(*a)
    }
}

impl SumOut for i64 {
    open spec fn spec_zero() -> i64 {
        0
    }

    open spec fn spec_plus(a: i64, b: i64) -> i64 {
        a.wrapping_add(b)
    }

    open spec fn spec_negate(a: i64) -> i64 {
        0i64.wrapping_sub(a)
    }

    proof fn lemma_sum_group(a: i64, b: i64, c: i64) {
    }

    fn zero() -> (r: i64) {
        0
    }

    fn plus(a: &i64, b: &i64) -> (r: i64) {
        a.wrapping_add(*b)
    }

    fn negate(a: &i64) -> (r: i64) {
        0i64.wrapping_sub(*a)
    }
}

impl SumOut for u32 {
    open spec fn spec_zero() -> u32 {
        0
    }

    open spec fn spec_plus(a: u32, b: u32) -> u32 {
        a.wrapping_add(b)
    }

    open spec fn spec_negate(a: u32) -> u32 {
        0u32.wrapping_sub(a)
    }

    proof fn lemma_sum_group(a: u32, b: u32, c: u32) {
    }

    fn zero() -> (r: u32) {
        0
    }

    fn plus(a: &u32, b: &u32) -> (r: u32) {
        a.wrapping_add(*b)
    }

    fn negate(a: &u32) -> (r: u32) {
        0u32.wrapping_sub(*a)
    }
}

impl SumOut for u64 {
    open spec fn spec_zero() -> u64 {
        0
    }

    open spec fn spec_plus(a: u64, b: u64) -> u64 {
        a.wrapping_add(b)
    }

    open spec fn spec_negate(a: u64) -> u64 {
        0u64.wrapping_sub(a)
    }

    proof fn lemma_sum_group(a: u64, b: u64, c: u64) {
    }

    fn zero() -> (r: u64) {
        0
    }

    fn plus(a: &u64, b: &u64) -> (r: u64) {
        a.wrapping_add(*b)
    }

    fn negate(a: &u64) -> (r: u64) {
        0u64.wrapping_sub(*a)
    }
}

impl SumOut for usize {
    open spec fn spec_zero() -> usize {
        0
    }

    open spec fn spec_plus(a: usize, b: usize) -> usize {
        a.wrapping_add(b)
    }

    open spec fn spec_negate(a: usize) -> usize {
        0usize.wrapping_sub(a)
    }

    proof fn lemma_sum_group(a: usize, b: usize, c: usize) {
    }

    fn zero() -> (r: usize) {
        0
    }

    fn plus(a: &usize, b: &usize) -> (r: usize) {
        a.wrapping_add(*b)
    }

    fn negate(a: &usize) -> (r: usize) {
        0usize.wrapping_sub(*a)
    }
}

impl SumIn<i16> for i16 {
    open spec fn spec_to_out(self) -> i16 {
        self
    }

    fn to_out(self) -> (r: i16) {
        cast_i16(self).unwrap()
    }
}

impl SumIn<i32> for i32 {
    open spec fn spec_to_out(self) -> i32 {
        self
    }

    fn to_out(self) -> (r: i32) {
        cast_i32(self).unwrap()
    }
}

impl SumIn<i64> for i64 {
    open spec fn spec_to_out(self) -> i64 {
        self
    }

    fn to_out(self) -> (r: i64) {
        cast_i64(self).unwrap()
    }
}

impl SumIn<u32> for u32 {
    open spec fn spec_to_out(self) -> u32 {
        self
    }

    fn to_out(self) -> (r: u32) {
        cast_u32(self).unwrap()
    }
}

impl SumIn<u64> for u64 {
    open spec fn spec_to_out(self) -> u64 {
        self
    }

    fn to_out(self) -> (r: u64) {
        cast_u64(self).unwrap()
    }
}

impl SumIn<usize> for usize {
    open spec fn spec_to_out(self) -> usize {
        self
    }

    fn to_out(self) -> (r: usize) {
        cast_usize(self).unwrap()
    }
}

impl SumIn<i64> for i32 {
    open spec fn spec_to_out(self) -> i64 {
        self as i64
    }

    fn to_out(self) -> (r: i64) {
        widen_i32(self).unwrap()
    }
}

impl SumIn<u64> for u32 {
    open spec fn spec_to_out(self) -> u64 {
        self as u64
    }

    fn to_out(self) -> (r: u64) {
        widen_u32(self).unwrap()
    }
}

/// Binary operator for arithmetic sum.
pub struct Sum<In, Out> {
    in_type: PhantomData<In>,
    out_type: PhantomData<Out>,
}

impl<In, Out> Clone for Sum<In, Out> {
    fn clone(&self) -> (r: Self) {
        Sum { in_type: PhantomData::default(), out_type: PhantomData::default() }
    }
}

impl<In, Out> Sum<In, Out> {
    pub fn name() -> (r: &'static str)
        ensures
            r@ == "sum"@,
    {
        "sum"
    }
}

/// The running sum carried between pushes.
#[derive(Copy, Clone, PartialEq, Eq, Debug)]
pub struct SumPartial<T> {
    pub val: T,
}

impl<I: SumIn<O>, O: SumOut> AggregateOperator for Sum<I, O> {
    type In = I;
    type Out = O;
}

impl<I: SumIn<O>, O: SumOut> AggregateMonoid for Sum<I, O> {
    type Partial = SumPartial<O>;

    open spec fn spec_identity() -> SumPartial<O> {
        SumPartial { val: O::spec_zero() }
    }

    open spec fn spec_operate(a: SumPartial<O>, b: SumPartial<O>) -> SumPartial<O> {
        SumPartial { val: O::spec_plus(a.val, b.val) }
    }

    open spec fn spec_lift(v: I) -> SumPartial<O> {
        SumPartial { val: v.spec_to_out() }
    }

    open spec fn spec_lower(p: SumPartial<O>) -> O {
        p.val
    }

    proof fn lemma_identity(a: SumPartial<O>) {
        O::lemma_sum_group(a.val, a.val, a.val);
    }

    proof fn lemma_associative(a: SumPartial<O>, b: SumPartial<O>, c: SumPartial<O>) {
        O::lemma_sum_group(a.val, b.val, c.val);
    }

    fn identity() -> (r: SumPartial<O>) {
        SumPartial { val: O::zero() }
    }

    fn operate(a: &SumPartial<O>, b: &SumPartial<O>) -> (r: SumPartial<O>) {
        SumPartial { val: O::plus(&a.val, &b.val) }
    }

    fn lift(v: I) -> (r: SumPartial<O>) {
        SumPartial { val: v.to_out() }
    }

    fn lower(p: &SumPartial<O>) -> (r: O) {
        p.val
    }
}

impl<I: SumIn<O>, O: SumOut> AggregateGroup for Sum<I, O> {
    open spec fn spec_inverse(a: SumPartial<O>) -> SumPartial<O> {
        SumPartial { val: O::spec_negate(a.val) }
    }

    proof fn lemma_inverse(a: SumPartial<O>) {
        O::lemma_sum_group(a.val, a.val, a.val);
    }

    fn two_sided_inverse(a: &SumPartial<O>) -> (r: SumPartial<O>) {
        SumPartial { val: O::negate(&a.val) }
    }
}

/// The arithmetic sum of a sequence, without wrap-around.
pub open spec fn seq_sum(xs: Seq<i32>) -> int
    decreases xs.len(),
{
    if xs.len() == 0 {
        0
    } else {
        seq_sum(xs.drop_last()) + xs.last()
    }
}

/// Where no running total leaves the range of `i32`, the window's sum is
/// the arithmetic sum of its elements.
pub proof fn lemma_sum_exact(xs: Seq<i32>)
    requires
        forall|i: int| 0 <= i <= xs.len() ==> i32::MIN <= #[trigger] seq_sum(xs.subrange(0, i)) <= i32::MAX,
    ensures
        fold::<Sum<i32, i32>>(lift_all::<Sum<i32, i32>>(xs)).val == seq_sum(xs),
        aggregate::<Sum<i32, i32>>(xs) == seq_sum(xs),
    decreases xs.len(),
{
    if xs.len() > 0 {
        let d = xs.drop_last();
        assert forall|i: int| 0 <= i <= d.len() implies i32::MIN <= #[trigger] seq_sum(d.subrange(0, i))
            <= i32::MAX by {
            assert(d.subrange(0, i) =~= xs.subrange(0, i));
        };
        lemma_sum_exact(d);
        assert(lift_all::<Sum<i32, i32>>(xs).drop_last() =~= lift_all::<Sum<i32, i32>>(d));
        assert(xs.subrange(0, xs.len() as int) =~= xs);
    }
}

/// A sum of at most `n` values from `1..=4` lies in `0..=4n`.
proof fn lemma_small_values_bounds(xs: Seq<i32>)
    requires
        forall|i: int| 0 <= i < xs.len() ==> 1 <= #[trigger] xs[i] <= 4,
    ensures
        0 <= seq_sum(xs) <= 4 * xs.len(),
    decreases xs.len(),
{
    if xs.len() > 0 {
        let d = xs.drop_last();
        assert forall|i: int| 0 <= i < d.len() implies 1 <= #[trigger] d[i] <= 4 by {
            assert(d[i] == xs[i]);
        };
        lemma_small_values_bounds(d);
    }
}

/// The sum of 1,000 values drawn from `{1, 2, 3, 4}` is their arithmetic sum,
/// and the empty window's sum is zero.
pub proof fn law_sum_of_small_values(xs: Seq<i32>)
    requires
        xs.len() == 1000,
        forall|i: int| 0 <= i < xs.len() ==> 1 <= #[trigger] xs[i] <= 4,
    ensures
        aggregate::<Sum<i32, i32>>(xs) == seq_sum(xs),
        aggregate::<Sum<i32, i32>>(Seq::<i32>::empty()) == 0,
{
    assert forall|i: int| 0 <= i <= xs.len() implies i32::MIN <= #[trigger] seq_sum(xs.subrange(0, i))
        <= i32::MAX by {
        let p = xs.subrange(0, i);
        assert forall|j: int| 0 <= j < p.len() implies 1 <= #[trigger] p[j] <= 4 by {
            assert(p[j] == xs[j]);
        };
        lemma_small_values_bounds(p);
    };
    lemma_sum_exact(xs);
    assert(lift_all::<Sum<i32, i32>>(Seq::<i32>::empty()) =~= Seq::<SumPartial<i32>>::empty());
}

} // verus!
