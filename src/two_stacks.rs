//! Two-Stacks: a queue made of two stacks whose items also carry running
//! aggregates. Pushes go onto `back`; pops take from `front`, which is
//! refilled from `back` when it runs empty.

use vstd::prelude::*;

use crate::ops::{aggregate, fold, lemma_fold_concat, lemma_fold_first, lemma_fold_push, lemma_fold_singleton, lift_all, AggregateMonoid};
use crate::{max_window_len, FifoWindow};

verus! {

#[derive(Clone, Copy)]
struct Item<Value> {
    agg: Value,
    val: Value,
}

#[derive(Clone)]
pub struct TwoStacks<BinOp: AggregateMonoid> {
    front: Vec<Item<BinOp::Partial>>,
    back: Vec<Item<BinOp::Partial>>,
    elems: Ghost<Seq<BinOp::In>>,
}

impl<BinOp: AggregateMonoid> TwoStacks<BinOp> {
    /// The front stack, bottom first, as `(value, aggregate)` pairs.
    pub closed spec fn front_view(&self) -> Seq<(BinOp::Partial, BinOp::Partial)> {
        self.front@.map_values(|it: Item<BinOp::Partial>| (it.val, it.agg))
    }

    /// The back stack, bottom first, as `(value, aggregate)` pairs.
    pub closed spec fn back_view(&self) -> Seq<(BinOp::Partial, BinOp::Partial)> {
        self.back@.map_values(|it: Item<BinOp::Partial>| (it.val, it.agg))
    }

    /// The aggregate on top of the back stack, or the identity when it is empty.
    pub open spec fn back_agg(&self) -> BinOp::Partial {
        if self.back_view().len() == 0 {
            BinOp::spec_identity()
        } else {
            self.back_view().last().1
        }
    }

    /// The layout of a well-formed window: the front stack holds the older
    /// elements with the oldest on top, each paired with the aggregate from
    /// itself to the newest element of the front stack; the back stack holds
    /// the newer elements with the newest on top, each paired with the
    /// aggregate from the bottom of the back stack to itself.
    pub proof fn lemma_layout(&self)
        requires
            self.well_formed(),
        ensures
            ({
                let nf = self.front_view().len() as int;
                let nb = self.back_view().len() as int;
                let lifted = lift_all::<BinOp>(self.contents());
                &&& nf + nb == self.contents().len()
                &&& forall|j: int| 0 <= j < nf ==> {
                    &&& (#[trigger] self.front_view()[j]).0 == lifted[nf - 1 - j]
                    &&& self.front_view()[j].1 == fold::<BinOp>(lifted.subrange(nf - 1 - j, nf))
                }
                &&& forall|j: int| 0 <= j < nb ==> {
                    &&& (#[trigger] self.back_view()[j]).0 == lifted[nf + j]
                    &&& self.back_view()[j].1 == fold::<BinOp>(lifted.subrange(nf, nf + j + 1))
                }
            }),
    {
        let nf = self.front_view().len() as int;
        let nb = self.back_view().len() as int;
        assert forall|j: int| 0 <= j < nf implies #[trigger] self.front_view()[j] == (
            self.front@[j].val,
            self.front@[j].agg,
        ) by {};
        assert forall|j: int| 0 <= j < nb implies #[trigger] self.back_view()[j] == (
            self.back@[j].val,
            self.back@[j].agg,
        ) by {};
    }

    /// The aggregate on top of a stack, or the identity when it is empty.
    fn agg(stack: &Vec<Item<BinOp::Partial>>) -> (r: BinOp::Partial)
        ensures
            r == if stack@.len() == 0 {
                BinOp::spec_identity()
            } else {
                stack@.last().agg
            },
    {
        if stack.len() > 0 {
            stack[stack.len() - 1].agg
        } else {
            BinOp::identity()
        }
    }
}

impl<BinOp: AggregateMonoid> FifoWindow<BinOp> for TwoStacks<BinOp> {
    /// `front` holds the older elements, the oldest on top, each with the
    /// aggregate from itself to the newest element of `front`; `back` holds
    /// the rest, the newest on top, each with the aggregate from the bottom of
    /// `back` to itself.
    closed spec fn well_formed(&self) -> bool {
        let nf = self.front@.len() as int;
        let nb = self.back@.len() as int;
        let lifted = lift_all::<BinOp>(self.elems@);
        &&& nf + nb == self.elems@.len()
        &&& self.elems@.len() <= max_window_len()
        &&& forall|j: int| 0 <= j < nf ==> {
            &&& (#[trigger] self.front@[j]).val == lifted[nf - 1 - j]
            &&& self.front@[j].agg == fold::<BinOp>(lifted.subrange(nf - 1 - j, nf))
        }
        &&& forall|j: int| 0 <= j < nb ==> {
            &&& (#[trigger] self.back@[j]).val == lifted[nf + j]
            &&& self.back@[j].agg == fold::<BinOp>(lifted.subrange(nf, nf + j + 1))
        }
    }

    closed spec fn contents(&self) -> Seq<BinOp::In> {
        self.elems@
    }

    fn new() -> (w: Self) {
        TwoStacks { front: Vec::new(), back: Vec::new(), elems: Ghost(Seq::empty()) }
    }

    open spec fn spec_name() -> Seq<char> {
        "two_stacks"@
    }

    fn name() -> (r: &'static str) {
        "two_stacks"
    }

    /// Leaves the front stack alone and puts the lifted value on top of the
    /// back stack, paired with the back stack's aggregate combined with it.
    fn push(&mut self, v: BinOp::In)
        ensures
            final(self).front_view() == old(self).front_view(),
            final(self).back_view() == old(self).back_view().push(
                (BinOp::spec_lift(v), BinOp::spec_operate(old(self).back_agg(), BinOp::spec_lift(v))),
            ),
    {
        let lifted = BinOp::lift(v);
        let ghost old_lifted = lift_all::<BinOp>(self.elems@);
        let ghost nf = self.front@.len() as int;
        let ghost nb = self.back@.len() as int;
        let agg = BinOp::operate(&Self::agg(&self.back), &lifted);
        self.back.push(Item { agg, val: lifted });
        self.elems = Ghost(self.elems@.push(v));
        proof {
            assert(self.back_view() =~= old(self).back_view().push((lifted, agg)));
            let new_lifted = lift_all::<BinOp>(self.elems@);
            assert(new_lifted =~= old_lifted.push(lifted));
            assert forall|j: int| 0 <= j < nf implies {
                &&& (#[trigger] self.front@[j]).val == new_lifted[nf - 1 - j]
                &&& self.front@[j].agg == fold::<BinOp>(new_lifted.subrange(nf - 1 - j, nf))
            } by {
                assert(new_lifted.subrange(nf - 1 - j, nf) =~= old_lifted.subrange(nf - 1 - j, nf));
            };
            assert forall|j: int| 0 <= j < nb implies {
                &&& (#[trigger] self.back@[j]).val == new_lifted[nf + j]
                &&& self.back@[j].agg == fold::<BinOp>(new_lifted.subrange(nf, nf + j + 1))
            } by {
                assert(new_lifted.subrange(nf, nf + j + 1) =~= old_lifted.subrange(nf, nf + j + 1));
            };
            if nb == 0 {
                assert(new_lifted.subrange(nf, nf + 1) =~= seq![lifted]);
                lemma_fold_singleton::<BinOp>(lifted);
                BinOp::lemma_identity(lifted);
            } else {
                lemma_fold_push::<BinOp>(old_lifted.subrange(nf, nf + nb), lifted);
                assert(old_lifted.subrange(nf, nf + nb).push(lifted) =~= new_lifted.subrange(nf, nf + nb + 1));
            }
        }
    }

    fn pop(&mut self) {
        let ghost lifted = lift_all::<BinOp>(self.elems@);
        let ghost n = self.elems@.len() as int;
        if self.front.len() == 0 {
            while self.back.len() > 0
                invariant
                    self.elems == old(self).elems,
                    lifted == lift_all::<BinOp>(self.elems@),
                    n == self.elems@.len(),
                    n <= max_window_len(),
                    self.front@.len() + self.back@.len() == n,
                    forall|j: int| 0 <= j < self.front@.len() ==> {
                        &&& (#[trigger] self.front@[j]).val == lifted[n - 1 - j]
                        &&& self.front@[j].agg == fold::<BinOp>(lifted.subrange(n - 1 - j, n))
                    },
                    forall|j: int| 0 <= j < self.back@.len() ==> {
                        &&& (#[trigger] self.back@[j]).val == lifted[j]
                    },
                decreases self.back@.len(),
            {
                let top = self.back.pop().unwrap();
                let ghost j = self.front@.len() as int;
                let agg = BinOp::operate(&top.val, &Self::agg(&self.front));
                proof {
                    let k = n - 1 - j;
                    if j == 0 {
                        assert(lifted.subrange(k, n) =~= seq![top.val]);
                        lemma_fold_singleton::<BinOp>(top.val);
                        BinOp::lemma_identity(top.val);
                    } else {
                        lemma_fold_first::<BinOp>(lifted.subrange(k, n));
                        assert(lifted.subrange(k, n).drop_first() =~= lifted.subrange(k + 1, n));
                    }
                }
                self.front.push(Item { agg, val: top.val });
            }
        }
        if self.front.len() > 0 {
            let ghost nf = self.front@.len() as int;
            let ghost nb = self.back@.len() as int;
            self.front.pop();
            self.elems = Ghost(self.elems@.drop_first());
            proof {
                let new_lifted = lift_all::<BinOp>(self.elems@);
                assert(new_lifted =~= lifted.drop_first());
                assert forall|j: int| 0 <= j < nf - 1 implies {
                    &&& (#[trigger] self.front@[j]).val == new_lifted[nf - 2 - j]
                    &&& self.front@[j].agg == fold::<BinOp>(new_lifted.subrange(nf - 2 - j, nf - 1))
                } by {
                    assert(new_lifted.subrange(nf - 2 - j, nf - 1) =~= lifted.subrange(nf - 1 - j, nf));
                };
                assert forall|j: int| 0 <= j < nb implies {
                    &&& (#[trigger] self.back@[j]).val == new_lifted[nf - 1 + j]
                    &&& self.back@[j].agg == fold::<BinOp>(new_lifted.subrange(nf - 1, nf + j))
                } by {
                    assert(new_lifted.subrange(nf - 1, nf + j) =~= lifted.subrange(nf, nf + j + 1));
                };
            }
        }
    }

    fn query(&mut self) -> (r: BinOp::Out) {
        let f = Self::agg(&self.front);
        let b = Self::agg(&self.back);
        proof {
            let lifted = lift_all::<BinOp>(self.elems@);
            let nf = self.front@.len() as int;
            let n = lifted.len() as int;
            lemma_fold_concat::<BinOp>(lifted.subrange(0, nf), lifted.subrange(nf, n));
            assert(lifted.subrange(0, nf) + lifted.subrange(nf, n) =~= lifted);
            if nf == 0 {
                assert(lifted.subrange(0, 0) =~= Seq::<BinOp::Partial>::empty());
            }
            if nf == n {
                assert(lifted.subrange(n, n) =~= Seq::<BinOp::Partial>::empty());
            }
        }
        BinOp::lower(&BinOp::operate(&f, &b))
    }

    fn len(&self) -> (r: usize) {
        self.front.len() + self.back.len()
    }

    fn is_empty(&self) -> (r: bool) {
        self.front.len() == 0 && self.back.len() == 0
    }
}

} // verus!
