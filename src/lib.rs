//! Sliding-window aggregation: FIFO windows over a monoid that answer the
//! combine of every live element, in insertion order.

use vstd::prelude::*;

pub mod ops;
pub mod flat_fat;
pub mod flatfit;
pub mod reactive;
pub mod recalc;
pub mod soe;
pub mod two_stacks;
pub mod two_stacks_lite;

use crate::ops::{aggregate, AggregateMonoid};

verus! {

/// The largest number of live elements any window is asked to hold; it keeps
/// every engine's buffer sizes within `usize`.
pub open spec fn max_window_len() -> nat {
    (usize::MAX / 16) as nat
}

/// The window's elements after removing the oldest one, if there is one.
pub open spec fn pop_front<T>(s: Seq<T>) -> Seq<T> {
    if s.len() == 0 {
        s
    } else {
        s.drop_first()
    }
}

/// An abstract data type which maintains a fifo-ordered sliding window.
///
/// Each engine models its state as the sequence of live elements, oldest
/// first: `push` appends, `pop` removes the oldest (doing nothing on an empty
/// window) and `query` returns the aggregate of the whole sequence.
pub trait FifoWindow<BinOp: AggregateMonoid>: Sized {
    /// The engine's internal invariant.
    spec fn well_formed(&self) -> bool;

    /// The live elements, oldest first.
    spec fn contents(&self) -> Seq<BinOp::In>;

    /// Returns an empty window.
    fn new() -> (w: Self)
        ensures
            w.well_formed(),
            w.contents() == Seq::<BinOp::In>::empty(),
    ;

    /// The algorithm's stable lowercase identifier.
    spec fn spec_name() -> Seq<char>;

    /// Returns the experimental name for the algorithm.
    fn name() -> (r: &'static str)
        ensures
            r@ == Self::spec_name(),
    ;

    /// Inserts a value at the back of the window.
    fn push(&mut self, v: BinOp::In)
        requires
            old(self).well_formed(),
            old(self).contents().len() < max_window_len(),
        ensures
            final(self).well_formed(),
            final(self).contents() == old(self).contents().push(v),
    ;

    /// Removes the value at the front of the window, if any.
    fn pop(&mut self)
        requires
            old(self).well_formed(),
        ensures
            final(self).well_formed(),
            final(self).contents() == pop_front(old(self).contents()),
    ;

    /// Combines the values in fifo order and returns the result. An engine
    /// may reorganise internal caches, never the live elements.
    fn query(&mut self) -> (r: BinOp::Out)
        requires
            old(self).well_formed(),
        ensures
            final(self).well_formed(),
            final(self).contents() == old(self).contents(),
            r == aggregate::<BinOp>(old(self).contents()),
    ;

    /// Returns the number of elements inside the window.
    fn len(&self) -> (r: usize)
        requires
            self.well_formed(),
        ensures
            r == self.contents().len(),
    ;

    /// Returns true if the window contains no elements.
    fn is_empty(&self) -> (r: bool)
        requires
            self.well_formed(),
        ensures
            r == (self.contents().len() == 0),
    ;
}

/// Pushing a copy of a window's repeated value and then popping the oldest
/// element leaves the window, and so its aggregate, unchanged.
pub proof fn law_steady_cycle<M: AggregateMonoid>(xs: Seq<M::In>, c: M::In)
    requires
        xs.len() > 0,
        forall|i: int| 0 <= i < xs.len() ==> xs[i] == c,
    ensures
        pop_front(xs.push(c)) == xs,
        aggregate::<M>(pop_front(xs.push(c))) == aggregate::<M>(xs),
{
    assert(xs.push(c).drop_first() =~= xs);
}

} // verus!
