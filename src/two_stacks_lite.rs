//! Two-Stacks-Lite: the two stacks share one deque. Its first `front_len`
//! positions hold aggregates of the older elements, each from itself to the
//! end of that stretch; the rest hold the lifted newer elements, whose
//! combine is kept in `agg_back`.

use std::collections::VecDeque;
use vstd::prelude::*;

use crate::ops::{aggregate, fold, lemma_fold_concat, lemma_fold_first, lemma_fold_push, lift_all, AggregateMonoid};
use crate::FifoWindow;

verus! {

#[derive(Clone)]
pub struct TwoStacksLite<BinOp: AggregateMonoid> {
    queue: VecDeque<BinOp::Partial>,
    agg_back: BinOp::Partial,
    front_len: usize,
    elems: Ghost<Seq<BinOp::In>>,
}

impl<BinOp: AggregateMonoid> TwoStacksLite<BinOp> {
    /// The aggregate of the older stretch, or the identity when it is empty.
    fn agg_front(&self) -> (r: BinOp::Partial)
        requires
            self.well_formed(),
        ensures
            r == fold::<BinOp>(lift_all::<BinOp>(self.elems@).subrange(0, self.front_len as int)),
    {
        if self.front_len == 0 || self.queue.len() == 0 {
            assert(lift_all::<BinOp>(self.elems@).subrange(0, 0) =~= Seq::<BinOp::Partial>::empty());
            BinOp::identity()
        } else {
            self.queue[0]
        }
    }
}

impl<BinOp: AggregateMonoid> FifoWindow<BinOp> for TwoStacksLite<BinOp> {
    closed spec fn well_formed(&self) -> bool {
        let n = self.queue@.len() as int;
        let fl = self.front_len as int;
        let lifted = lift_all::<BinOp>(self.elems@);
        &&& n == self.elems@.len()
        &&& fl <= n
        &&& forall|j: int| 0 <= j < n ==> #[trigger] self.queue@[j] == if j < fl {
            fold::<BinOp>(lifted.subrange(j, fl))
        } else {
            lifted[j]
        }
        &&& self.agg_back == fold::<BinOp>(lifted.subrange(fl, n))
    }

    closed spec fn contents(&self) -> Seq<BinOp::In> {
        self.elems@
    }

    fn new() -> (w: Self) {
        let w = TwoStacksLite {
            queue: VecDeque::new(),
            agg_back: BinOp::identity(),
            front_len: 0,
            elems: Ghost(Seq::empty()),
        };
        assert(lift_all::<BinOp>(w.elems@).subrange(0, 0) =~= Seq::<BinOp::Partial>::empty());
        w
    }

    open spec fn spec_name() -> Seq<char> {
        "two_stacks_lite"@
    }

    fn name() -> (r: &'static str) {
        "two_stacks_lite"
    }

    fn push(&mut self, v: BinOp::In) {
        let lifted = BinOp::lift(v);
        let ghost old_lifted = lift_all::<BinOp>(self.elems@);
        let ghost n = self.queue@.len() as int;
        let ghost fl = self.front_len as int;
        self.queue.push_back(lifted);
        proof {
            lemma_fold_push::<BinOp>(old_lifted.subrange(fl, n), lifted);
        }
        self.agg_back = BinOp::operate(&self.agg_back, &lifted);
        self.elems = Ghost(self.elems@.push(v));
        proof {
            let new_lifted = lift_all::<BinOp>(self.elems@);
            assert(new_lifted =~= old_lifted.push(lifted));
            assert(old_lifted.subrange(fl, n).push(lifted) =~= new_lifted.subrange(fl, n + 1));
            assert forall|j: int| 0 <= j < n + 1 implies #[trigger] self.queue@[j] == if j < fl {
                fold::<BinOp>(new_lifted.subrange(j, fl))
            } else {
                new_lifted[j]
            } by {
                if j < fl {
                    assert(new_lifted.subrange(j, fl) =~= old_lifted.subrange(j, fl));
                }
            };
        }
    }

    fn pop(&mut self) {
        if self.queue.len() > 0 {
            let ghost lifted = lift_all::<BinOp>(self.elems@);
            let ghost n = self.queue@.len() as int;
            if self.front_len == 0 {
                let mut flipped: VecDeque<BinOp::Partial> = VecDeque::new();
                let mut acc = BinOp::identity();
                proof {
                    assert(lifted.subrange(n, n) =~= Seq::<BinOp::Partial>::empty());
                }
                while self.queue.len() > 0
                    invariant
                        self.elems == old(self).elems,
                        lifted == lift_all::<BinOp>(self.elems@),
                        n == lifted.len(),
                        self.queue@.len() + flipped@.len() == n,
                        forall|j: int| 0 <= j < self.queue@.len() ==> #[trigger] self.queue@[j] == lifted[j],
                        forall|t: int| 0 <= t < flipped@.len() ==> #[trigger] flipped@[t] == fold::<BinOp>(
                            lifted.subrange(self.queue@.len() + t, n),
                        ),
                        acc == fold::<BinOp>(lifted.subrange(self.queue@.len() as int, n)),
                    decreases self.queue@.len(),
                {
                    let ghost m = self.queue@.len() as int;
                    let x = self.queue.pop_back().unwrap();
                    proof {
                        lemma_fold_first::<BinOp>(lifted.subrange(m - 1, n));
                        assert(lifted.subrange(m - 1, n).drop_first() =~= lifted.subrange(m, n));
                    }
                    acc = BinOp::operate(&x, &acc);
                    flipped.push_front(acc);
                }
                self.queue = flipped;
                self.front_len = self.queue.len();
                self.agg_back = BinOp::identity();
                proof {
                    assert(lifted.subrange(n, n) =~= Seq::<BinOp::Partial>::empty());
                }
            }
            let ghost fl = self.front_len as int;
            self.front_len = self.front_len - 1;
            self.queue.pop_front();
            self.elems = Ghost(self.elems@.drop_first());
            proof {
                let new_lifted = lift_all::<BinOp>(self.elems@);
                assert(new_lifted =~= lifted.drop_first());
                assert(new_lifted.subrange(fl - 1, n - 1) =~= lifted.subrange(fl, n));
                assert forall|j: int| 0 <= j < n - 1 implies #[trigger] self.queue@[j] == if j < fl - 1 {
                    fold::<BinOp>(new_lifted.subrange(j, fl - 1))
                } else {
                    new_lifted[j]
                } by {
                    if j < fl - 1 {
                        assert(new_lifted.subrange(j, fl - 1) =~= lifted.subrange(j + 1, fl));
                    }
                };
            }
        }
    }

    fn query(&mut self) -> (r: BinOp::Out) {
        let f = self.agg_front();
        proof {
            let lifted = lift_all::<BinOp>(self.elems@);
            let fl = self.front_len as int;
            let n = lifted.len() as int;
            lemma_fold_concat::<BinOp>(lifted.subrange(0, fl), lifted.subrange(fl, n));
            assert(lifted.subrange(0, fl) + lifted.subrange(fl, n) =~= lifted);
        }
        BinOp::lower(&BinOp::operate(&f, &self.agg_back))
    }

    fn len(&self) -> (r: usize) {
        self.queue.len()
    }

    fn is_empty(&self) -> (r: bool) {
        self.queue.len() == 0
    }
}

} // verus!
