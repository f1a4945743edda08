//! The operator algebra that parameterises every window engine.
//!
//! An operator names an input type, an output type and a partial-aggregate
//! carrier. The carrier forms a monoid under `operate` with unit `identity`;
//! an invertible operator additionally forms a group. `lift` embeds one input
//! element into the carrier and `lower` projects an aggregate to the output.

use vstd::prelude::*;

pub mod max;
pub mod mean;
pub mod sum;

pub use max::{Max, MaxIn, MaxOut, MaxPartial, Min};
pub use mean::{Mean, MeanIn, MeanOut, MeanPartial};
pub use sum::{Sum, SumIn, SumOut, SumPartial};

verus! {

/// Relies on `num_traits::cast::NumCast::from` for `i16` to `i16`: the value
/// always fits, so the conversion succeeds and keeps it unchanged.
#[verifier::external_body]
pub(crate) fn cast_i16(v: i16) -> (r: Option<i16>)
    ensures
        r == Some(v),
{
    <i16 as num_traits::cast::NumCast>::from(v)
}

/// Relies on `num_traits::cast::NumCast::from` for `i32` to `i32`: the value
/// always fits, so the conversion succeeds and keeps it unchanged.
#[verifier::external_body]
pub(crate) fn cast_i32(v: i32) -> (r: Option<i32>)
    ensures
        r == Some(v),
{
    <i32 as num_traits::cast::NumCast>::from(v)
}

/// Relies on `num_traits::cast::NumCast::from` for `i64` to `i64`: the value
/// always fits, so the conversion succeeds and keeps it unchanged.
#[verifier::external_body]
pub(crate) fn cast_i64(v: i64) -> (r: Option<i64>)
    ensures
        r == Some(v),
{
    <i64 as num_traits::cast::NumCast>::from(v)
}

/// Relies on `num_traits::cast::NumCast::from` for `u32` to `u32`: the value
/// always fits, so the conversion succeeds and keeps it unchanged.
#[verifier::external_body]
pub(crate) fn cast_u32(v: u32) -> (r: Option<u32>)
    ensures
        r == Some(v),
{
    <u32 as num_traits::cast::NumCast>::from(v)
}

/// Relies on `num_traits::cast::NumCast::from` for `u64` to `u64`: the value
/// always fits, so the conversion succeeds and keeps it unchanged.
#[verifier::external_body]
pub(crate) fn cast_u64(v: u64) -> (r: Option<u64>)
    ensures
        r == Some(v),
{
    <u64 as num_traits::cast::NumCast>::from(v)
}

/// Relies on `num_traits::cast::NumCast::from` for `usize` to `usize`: the value
/// always fits, so the conversion succeeds and keeps it unchanged.
#[verifier::external_body]
pub(crate) fn cast_usize(v: usize) -> (r: Option<usize>)
    ensures
        r == Some(v),
{
    <usize as num_traits::cast::NumCast>::from(v)
}

/// Relies on `num_traits::cast::NumCast::from` for `i32` to `i64`: every
/// `i32` fits in a `i64`, so the conversion succeeds and keeps the value.
#[verifier::external_body]
pub(crate) fn widen_i32(v: i32) -> (r: Option<i64>)
    ensures
        r == Some(v as i64),
{
    <i64 as num_traits::cast::NumCast>::from(v)
}

/// Relies on `num_traits::cast::NumCast::from` for `u32` to `u64`: every
/// `u32` fits in a `u64`, so the conversion succeeds and keeps the value.
#[verifier::external_body]
pub(crate) fn widen_u32(v: u32) -> (r: Option<u64>)
    ensures
        r == Some(v as u64),
{
    <u64 as num_traits::cast::NumCast>::from(v)
}

/// An operator that aggregates values of type `In` into results of type `Out`.
pub trait AggregateOperator {
    type In;
    type Out;
}

/// An operator whose partial aggregates form a monoid.
pub trait AggregateMonoid: AggregateOperator {
    type Partial: Copy;

    spec fn spec_identity() -> Self::Partial;

    spec fn spec_operate(a: Self::Partial, b: Self::Partial) -> Self::Partial;

    spec fn spec_lift(v: Self::In) -> Self::Partial;

    spec fn spec_lower(p: Self::Partial) -> Self::Out;

    /// `identity` is a two-sided unit of `operate`.
    proof fn lemma_identity(a: Self::Partial)
        ensures
            Self::spec_operate(Self::spec_identity(), a) == a,
            Self::spec_operate(a, Self::spec_identity()) == a,
    ;

    /// `operate` is associative.
    proof fn lemma_associative(a: Self::Partial, b: Self::Partial, c: Self::Partial)
        ensures
            Self::spec_operate(Self::spec_operate(a, b), c) == Self::spec_operate(
                a,
                Self::spec_operate(b, c),
            ),
    ;

    fn identity() -> (r: Self::Partial)
        ensures
            r == Self::spec_identity(),
    ;

    fn operate(a: &Self::Partial, b: &Self::Partial) -> (r: Self::Partial)
        ensures
            r == Self::spec_operate(*a, *b),
    ;

    fn lift(v: Self::In) -> (r: Self::Partial)
        ensures
            r == Self::spec_lift(v),
    ;

    fn lower(p: &Self::Partial) -> (r: Self::Out)
        ensures
            r == Self::spec_lower(*p),
    ;
}

/// An operator whose partial aggregates form a group.
pub trait AggregateGroup: AggregateMonoid {
    spec fn spec_inverse(a: Self::Partial) -> Self::Partial;

    /// Every partial aggregate has a two-sided inverse.
    proof fn lemma_inverse(a: Self::Partial)
        ensures
            Self::spec_operate(a, Self::spec_inverse(a)) == Self::spec_identity(),
            Self::spec_operate(Self::spec_inverse(a), a) == Self::spec_identity(),
    ;

    fn two_sided_inverse(a: &Self::Partial) -> (r: Self::Partial)
        ensures
            r == Self::spec_inverse(*a),
    ;
}

/// The combine of a sequence of partials, left to right, starting from `identity`.
pub open spec fn fold<M: AggregateMonoid>(s: Seq<M::Partial>) -> M::Partial
    decreases s.len(),
{
    if s.len() == 0 {
        M::spec_identity()
    } else {
        M::spec_operate(fold::<M>(s.drop_last()), s.last())
    }
}

/// Each input lifted into the partial carrier.
pub open spec fn lift_all<M: AggregateMonoid>(xs: Seq<M::In>) -> Seq<M::Partial> {
    xs.map_values(|x: M::In| M::spec_lift(x))
}

/// The aggregate of a window: `lower(lift(x0) + lift(x1) + ... + lift(xn-1))`.
pub open spec fn aggregate<M: AggregateMonoid>(xs: Seq<M::In>) -> M::Out {
    M::spec_lower(fold::<M>(lift_all::<M>(xs)))
}

pub proof fn lemma_fold_push<M: AggregateMonoid>(s: Seq<M::Partial>, x: M::Partial)
    ensures
        fold::<M>(s.push(x)) == M::spec_operate(fold::<M>(s), x),
{
    assert(s.push(x).drop_last() =~= s);
}

pub proof fn lemma_fold_singleton<M: AggregateMonoid>(x: M::Partial)
    ensures
        fold::<M>(seq![x]) == x,
{
    assert(seq![x].drop_last() =~= Seq::<M::Partial>::empty());
    assert(fold::<M>(Seq::<M::Partial>::empty()) == M::spec_identity());
    M::lemma_identity(x);
}

/// Folding splits at any position.
pub proof fn lemma_fold_split<M: AggregateMonoid>(s: Seq<M::Partial>, i: int)
    requires
        0 <= i <= s.len(),
    ensures
        fold::<M>(s) == M::spec_operate(fold::<M>(s.subrange(0, i)), fold::<M>(s.subrange(i, s.len() as int))),
    decreases s.len(),
{
    if i == s.len() {
        assert(s.subrange(0, i) =~= s);
        assert(s.subrange(i, s.len() as int) =~= Seq::<M::Partial>::empty());
        M::lemma_identity(fold::<M>(s));
    } else {
        let d = s.drop_last();
        lemma_fold_split::<M>(d, i);
        assert(d.subrange(0, i) =~= s.subrange(0, i));
        let t = s.subrange(i, s.len() as int);
        assert(t.drop_last() =~= d.subrange(i, d.len() as int));
        assert(t.last() == s.last());
        M::lemma_associative(
            fold::<M>(s.subrange(0, i)),
            fold::<M>(d.subrange(i, d.len() as int)),
            s.last(),
        );
    }
}

/// Folding a concatenation combines the folds of its parts.
pub proof fn lemma_fold_concat<M: AggregateMonoid>(a: Seq<M::Partial>, b: Seq<M::Partial>)
    ensures
        fold::<M>(a + b) == M::spec_operate(fold::<M>(a), fold::<M>(b)),
{
    lemma_fold_split::<M>(a + b, a.len() as int);
    assert((a + b).subrange(0, a.len() as int) =~= a);
    assert((a + b).subrange(a.len() as int, (a + b).len() as int) =~= b);
}

/// Folding peels off the first element.
pub proof fn lemma_fold_first<M: AggregateMonoid>(s: Seq<M::Partial>)
    requires
        s.len() > 0,
    ensures
        fold::<M>(s) == M::spec_operate(s[0], fold::<M>(s.drop_first())),
{
    lemma_fold_split::<M>(s, 1);
    assert(s.subrange(0, 1) =~= seq![s[0]]);
    assert(s.subrange(1, s.len() as int) =~= s.drop_first());
    lemma_fold_singleton::<M>(s[0]);
}

/// A sequence of identities folds to the identity.
pub proof fn lemma_fold_identities<M: AggregateMonoid>(s: Seq<M::Partial>)
    requires
        forall|i: int| 0 <= i < s.len() ==> s[i] == M::spec_identity(),
    ensures
        fold::<M>(s) == M::spec_identity(),
    decreases s.len(),
{
    if s.len() > 0 {
        lemma_fold_identities::<M>(s.drop_last());
        M::lemma_identity(M::spec_identity());
    }
}

} // verus!
