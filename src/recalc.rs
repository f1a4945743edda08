//! Recalculate-From-Scratch: keeps the lifted elements and folds them all on
//! every query. Push and pop take constant time, query linear time.

use std::collections::VecDeque;
use vstd::prelude::*;

use crate::ops::{fold, lemma_fold_push, lift_all, AggregateMonoid};
use crate::FifoWindow;

verus! {

#[derive(Clone)]
pub struct ReCalc<BinOp: AggregateMonoid> {
    stack: VecDeque<BinOp::Partial>,
    elems: Ghost<Seq<BinOp::In>>,
}

impl<BinOp: AggregateMonoid> FifoWindow<BinOp> for ReCalc<BinOp> {
    closed spec fn well_formed(&self) -> bool {
        self.stack@ == lift_all::<BinOp>(self.elems@)
    }

    closed spec fn contents(&self) -> Seq<BinOp::In> {
        self.elems@
    }

    fn new() -> (w: Self) {
        let w = ReCalc { stack: VecDeque::new(), elems: Ghost(Seq::empty()) };
        assert(w.stack@ =~= lift_all::<BinOp>(w.elems@));
        w
    }

    open spec fn spec_name() -> Seq<char> {
        "recalc"@
    }

    fn name() -> (r: &'static str) {
        "recalc"
    }

    fn push(&mut self, v: BinOp::In) {
        let ghost old_elems = self.elems@;
        self.elems = Ghost(old_elems.push(v));
        self.stack.push_back(BinOp::lift(v));
        assert(self.stack@ =~= lift_all::<BinOp>(self.elems@));
    }

    fn pop(&mut self) {
        let ghost old_elems = self.elems@;
        if self.stack.pop_front().is_some() {
            self.elems = Ghost(old_elems.drop_first());
            assert(self.stack@ =~= lift_all::<BinOp>(self.elems@));
        }
    }

    fn query(&mut self) -> (r: BinOp::Out) {
        let mut agg = BinOp::identity();
        let n = self.stack.len();
        let mut i: usize = 0;
        while i < n
            invariant
                self.well_formed(),
                n == self.stack@.len(),
                0 <= i <= n,
                agg == fold::<BinOp>(self.stack@.subrange(0, i as int)),
            decreases n - i,
        {
            proof {
                lemma_fold_push::<BinOp>(self.stack@.subrange(0, i as int), self.stack@[i as int]);
                assert(self.stack@.subrange(0, i as int).push(self.stack@[i as int])
                    =~= self.stack@.subrange(0, i + 1));
            }
            agg = BinOp::operate(&agg, &self.stack[i]);
            i = i + 1;
        }
        assert(self.stack@.subrange(0, n as int) =~= self.stack@);
        BinOp::lower(&agg)
    }

    fn len(&self) -> (r: usize) {
        self.stack.len()
    }

    fn is_empty(&self) -> (r: bool) {
        self.stack.len() == 0
    }
}

} // verus!
