//! Subtract-On-Evict: keeps a running aggregate, combining in each pushed
//! element and the inverse of each evicted one. Needs a group.

use std::collections::VecDeque;
use vstd::prelude::*;

use crate::ops::{aggregate, fold, lemma_fold_first, lemma_fold_push, lift_all, AggregateGroup};
use crate::FifoWindow;

verus! {

#[derive(Clone)]
pub struct SoE<BinOp: AggregateGroup> {
    stack: VecDeque<BinOp::Partial>,
    agg: BinOp::Partial,
    elems: Ghost<Seq<BinOp::In>>,
}

impl<BinOp: AggregateGroup> FifoWindow<BinOp> for SoE<BinOp> {
    closed spec fn well_formed(&self) -> bool {
        &&& self.stack@ == lift_all::<BinOp>(self.elems@)
        &&& self.agg == fold::<BinOp>(self.stack@)
    }

    closed spec fn contents(&self) -> Seq<BinOp::In> {
        self.elems@
    }

    fn new() -> (w: Self) {
        let w = SoE { stack: VecDeque::new(), agg: BinOp::identity(), elems: Ghost(Seq::empty()) };
        assert(w.stack@ =~= lift_all::<BinOp>(w.elems@));
        w
    }

    open spec fn spec_name() -> Seq<char> {
        "soe"@
    }

    fn name() -> (r: &'static str) {
        "soe"
    }

    fn push(&mut self, val: BinOp::In) {
        let lifted = BinOp::lift(val);
        proof {
            lemma_fold_push::<BinOp>(self.stack@, lifted);
        }
        self.agg = BinOp::operate(&self.agg, &lifted);
        self.stack.push_back(lifted);
        self.elems = Ghost(self.elems@.push(val));
        assert(self.stack@ =~= lift_all::<BinOp>(self.elems@));
    }

    fn pop(&mut self) {
        let ghost old_stack = self.stack@;
        if let Some(top) = self.stack.pop_front() {
            proof {
                // agg == top + rest, so inverse(top) + agg == rest.
                lemma_fold_first::<BinOp>(old_stack);
            }
            self.agg = BinOp::operate(&BinOp::two_sided_inverse(&top), &self.agg);
            proof {
                let rest = fold::<BinOp>(self.stack@);
                BinOp::lemma_associative(BinOp::spec_inverse(top), top, rest);
                BinOp::lemma_inverse(top);
                BinOp::lemma_identity(rest);
            }
            self.elems = Ghost(self.elems@.drop_first());
            assert(self.stack@ =~= lift_all::<BinOp>(self.elems@));
        }
    }

    fn query(&mut self) -> (r: BinOp::Out) {
        BinOp::lower(&self.agg)
    }

    fn len(&self) -> (r: usize) {
        self.stack.len()
    }

    fn is_empty(&self) -> (r: bool) {
        self.stack.len() == 0
    }
}

} // verus!
