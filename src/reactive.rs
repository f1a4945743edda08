//! Reactive Aggregator: the live elements sit in the leaves of a Flat
//! Aggregating Tree used as a circular buffer. The tree grows when it is more
//! than three quarters full and shrinks when it is at most a quarter full.

use vstd::prelude::*;

use crate::flat_fat::{
    apply_updates, is_pow2, lemma_pow2_double, lemma_pow2_half, lemma_pow2_two, FlatFAT,
};
use crate::ops::{
    aggregate, fold, lemma_fold_concat, lemma_fold_identities, lemma_fold_push, lemma_fold_split,
    lift_all, AggregateMonoid,
};
use crate::FifoWindow;

verus! {

#[derive(Clone)]
pub struct Reactive<BinOp: AggregateMonoid> {
    fat: FlatFAT<BinOp>,
    size: usize,
    front: usize,
    back: usize,
    elems: Ghost<Seq<BinOp::In>>,
}

impl<BinOp: AggregateMonoid> Reactive<BinOp> {
    /// The number of leaves of the tree: how many elements fit before it
    /// must grow.
    pub closed spec fn capacity(&self) -> nat {
        self.fat.spec_capacity()
    }

    /// Position of leaf `t` in the window, counted from `front` around the ring.
    closed spec fn slot(&self, t: int) -> int {
        if t >= self.front {
            t - self.front
        } else {
            t + self.fat.spec_capacity() - self.front
        }
    }

    /// What leaf `t` holds: the lifted element at its slot, or the identity.
    closed spec fn leaf_model(&self, t: int) -> BinOp::Partial {
        if self.slot(t) < self.size {
            BinOp::spec_lift(self.elems@[self.slot(t)])
        } else {
            BinOp::spec_identity()
        }
    }

    closed spec fn layout_ok(&self) -> bool {
        let cap = self.fat.spec_capacity();
        &&& self.fat.well_formed()
        &&& self.size <= cap
        &&& self.front < cap
        &&& self.back == if self.front + self.size < cap {
            self.front + self.size
        } else {
            self.front + self.size - cap
        }
        &&& self.elems@.len() == self.size
        &&& self.fat.spec_leaves().len() == cap
        &&& forall|t: int| 0 <= t < cap ==> #[trigger] self.fat.spec_leaves()[t] == self.leaf_model(t)
    }

    /// Returns a Reactive Aggregator with room for at least `capacity` elements
    /// before it first grows; the tree's leaf count is the next power of two.
    pub fn with_capacity(capacity: usize) -> (r: Self)
        requires
            2 <= capacity <= usize::MAX / 8,
        ensures
            r.well_formed(),
            r.contents() == Seq::<BinOp::In>::empty(),
            is_pow2(r.capacity()),
            capacity <= r.capacity() < 2 * capacity,
    {
        let cap = FlatFAT::<BinOp>::leaves_for(capacity);
        Self::with_tree(cap)
    }

    fn with_tree(cap: usize) -> (r: Self)
        requires
            2 <= cap <= usize::MAX / 4,
            is_pow2(cap as nat),
        ensures
            r.well_formed(),
            r.contents() == Seq::<BinOp::In>::empty(),
            r.fat.spec_capacity() == cap,
    {
        let r = Reactive {
            fat: FlatFAT::with_capacity(cap),
            size: 0,
            front: 0,
            back: 0,
            elems: Ghost(Seq::empty()),
        };
        r
    }

    fn inverted(&self) -> (r: bool)
        ensures
            r == (self.front > self.back),
    {
        self.front > self.back
    }

    /// Moves the live elements, in order, into a fresh tree of `capacity`
    /// leaves, starting at leaf 0.
    fn resize(&mut self, capacity: usize)
        requires
            old(self).layout_ok(),
            old(self).size < capacity <= usize::MAX / 4,
            capacity >= 2,
            is_pow2(capacity as nat),
        ensures
            final(self).layout_ok(),
            final(self).elems@ == old(self).elems@,
            final(self).size == old(self).size,
            final(self).fat.spec_capacity() == capacity,
            final(self).front == 0,
            final(self).back == old(self).size,
    {
        let cap = self.fat.capacity();
        let mut live: Vec<BinOp::Partial> = Vec::with_capacity(self.size);
        let mut j: usize = 0;
        while j < self.size
            invariant
                self.layout_ok(),
                cap == self.fat.spec_capacity(),
                j <= self.size,
                live@ == lift_all::<BinOp>(self.elems@).subrange(0, j as int),
            decreases self.size - j,
        {
            let idx = if self.front + j < cap {
                self.front + j
            } else {
                self.front + j - cap
            };
            assert(self.slot(idx as int) == j);
            let v = self.fat.get(idx).unwrap();
            live.push(*v);
            assert(live@ =~= lift_all::<BinOp>(self.elems@).subrange(0, j + 1));
            j = j + 1;
        }
        let mut fat = FlatFAT::with_capacity(capacity);
        fat.update_ordered(live);
        self.fat = fat;
        self.front = 0;
        self.back = self.size;
        assert forall|t: int| 0 <= t < capacity implies #[trigger] self.fat.spec_leaves()[t]
            == self.leaf_model(t) by {
            assert(self.slot(t) == t);
        };
    }

    /// The live elements, lifted, fold to the root when the ring does not wrap.
    proof fn lemma_flat(&self)
        requires
            self.layout_ok(),
            self.size < self.fat.spec_capacity(),
            self.front <= self.back,
        ensures
            fold::<BinOp>(self.fat.spec_leaves()) == fold::<BinOp>(lift_all::<BinOp>(self.elems@)),
    {
        let cap = self.fat.spec_capacity() as int;
        let f = self.front as int;
        let n = self.size as int;
        let leaves = self.fat.spec_leaves();
        let ids1 = Seq::new(f as nat, |i: int| BinOp::spec_identity());
        let ids2 = Seq::new((cap - f - n) as nat, |i: int| BinOp::spec_identity());
        let lifted = lift_all::<BinOp>(self.elems@);
        assert forall|t: int| 0 <= t < cap implies leaves[t] == (ids1 + lifted + ids2)[t] by {
            assert(leaves[t] == self.leaf_model(t));
        };
        assert(leaves =~= ids1 + lifted + ids2);
        lemma_fold_concat::<BinOp>(ids1 + lifted, ids2);
        lemma_fold_concat::<BinOp>(ids1, lifted);
        lemma_fold_identities::<BinOp>(ids1);
        lemma_fold_identities::<BinOp>(ids2);
        BinOp::lemma_identity(fold::<BinOp>(lifted));
    }

    /// When the ring wraps, the live elements split into the leaves from
    /// `front` to the end and the leaves before `back`.
    proof fn lemma_wrapped(&self)
        requires
            self.layout_ok(),
            self.size < self.fat.spec_capacity(),
            self.front > self.back,
        ensures
            fold::<BinOp>(lift_all::<BinOp>(self.elems@)) == BinOp::spec_operate(
                fold::<BinOp>(self.fat.spec_leaves().subrange(self.front as int, self.fat.spec_capacity() as int)),
                fold::<BinOp>(self.fat.spec_leaves().subrange(0, self.back + 1)),
            ),
    {
        let cap = self.fat.spec_capacity() as int;
        let f = self.front as int;
        let n = self.size as int;
        let leaves = self.fat.spec_leaves();
        let lifted = lift_all::<BinOp>(self.elems@);
        let a = lifted.subrange(0, cap - f);
        let b = lifted.subrange(cap - f, n);
        assert forall|t: int| 0 <= t < cap - f implies leaves.subrange(f, cap)[t] == a[t] by {
            assert(leaves[f + t] == self.leaf_model(f + t));
        };
        assert(leaves.subrange(f, cap) =~= a);
        assert forall|t: int| 0 <= t <= self.back implies leaves.subrange(0, self.back + 1)[t]
            == b.push(BinOp::spec_identity())[t] by {
            assert(leaves[t] == self.leaf_model(t));
        };
        assert(leaves.subrange(0, self.back + 1) =~= b.push(BinOp::spec_identity()));
        lemma_fold_split::<BinOp>(lifted, cap - f);
        assert(lifted.subrange(cap - f, lifted.len() as int) =~= b);
        lemma_fold_push::<BinOp>(b, BinOp::spec_identity());
        BinOp::lemma_identity(fold::<BinOp>(b));
    }
}

impl<BinOp: AggregateMonoid> FifoWindow<BinOp> for Reactive<BinOp> {
    closed spec fn well_formed(&self) -> bool {
        &&& self.layout_ok()
        &&& self.size <= (3 * self.fat.spec_capacity()) / 4
    }

    closed spec fn contents(&self) -> Seq<BinOp::In> {
        self.elems@
    }

    fn new() -> (w: Self)
        ensures
            w.capacity() == 2,
    {
        proof {
            lemma_pow2_two();
        }
        Self::with_tree(2)
    }

    open spec fn spec_name() -> Seq<char> {
        "reactive"@
    }

    fn name() -> (r: &'static str) {
        "reactive"
    }

    /// Grows the tree to twice its leaves once more than three quarters of
    /// them are live.
    fn push(&mut self, val: BinOp::In)
        ensures
            final(self).capacity() == if old(self).contents().len() + 1 > (3 * old(self).capacity()) / 4 {
                2 * old(self).capacity()
            } else {
                old(self).capacity()
            },
    {
        let cap = self.fat.capacity();
        let ghost old_self = *self;
        let batch = vec![(self.back, BinOp::lift(val))];
        self.fat.update(&batch);
        proof {
            assert(batch@.drop_last() =~= Seq::<(usize, BinOp::Partial)>::empty());
            assert(apply_updates(old_self.fat.spec_leaves(), Seq::<(usize, BinOp::Partial)>::empty())
                == old_self.fat.spec_leaves());
        }
        self.elems = Ghost(self.elems@.push(val));
        self.size = self.size + 1;
        self.back = if self.back + 1 < cap {
            self.back + 1
        } else {
            0
        };
        assert forall|t: int| 0 <= t < cap implies #[trigger] self.fat.spec_leaves()[t]
            == self.leaf_model(t) by {
            assert(old_self.fat.spec_leaves()[t] == old_self.leaf_model(t));
            assert(self.slot(t) == old_self.slot(t));
        };
        if self.size > (3 * cap) / 4 {
            proof {
                lemma_pow2_double(cap as nat);
            }
            self.resize(cap * 2);
        }
    }

    /// Shrinks the tree to half its leaves once at most a quarter of them,
    /// and at least one, are live.
    fn pop(&mut self)
        ensures
            final(self).capacity() == if old(self).contents().len() > 0 && 0 < old(self).contents().len() - 1
                <= old(self).capacity() / 4 {
                old(self).capacity() / 2
            } else {
                old(self).capacity()
            },
    {
        if self.size > 0 {
            let cap = self.fat.capacity();
            let ghost old_self = *self;
            let batch = vec![(self.front, BinOp::identity())];
            self.fat.update(&batch);
            proof {
                assert(batch@.drop_last() =~= Seq::<(usize, BinOp::Partial)>::empty());
                assert(apply_updates(old_self.fat.spec_leaves(), Seq::<(usize, BinOp::Partial)>::empty())
                    == old_self.fat.spec_leaves());
            }
            self.elems = Ghost(self.elems@.drop_first());
            self.size = self.size - 1;
            self.front = if self.front + 1 < cap {
                self.front + 1
            } else {
                0
            };
            assert forall|t: int| 0 <= t < cap implies #[trigger] self.fat.spec_leaves()[t]
                == self.leaf_model(t) by {
                assert(old_self.fat.spec_leaves()[t] == old_self.leaf_model(t));
                if t != old_self.front {
                    assert(self.slot(t) == old_self.slot(t) - 1);
                }
            };
            if self.size <= cap / 4 && self.size > 0 {
                proof {
                    lemma_pow2_half(cap as nat);
                }
                self.resize(cap / 2);
            }
        }
    }

    fn query(&mut self) -> (r: BinOp::Out)
        ensures
            final(self).capacity() == old(self).capacity(),
    {
        if self.inverted() {
            proof {
                self.lemma_wrapped();
            }
            let s = self.fat.suffix(self.front);
            let p = self.fat.prefix(self.back);
            BinOp::lower(&BinOp::operate(&s, &p))
        } else {
            proof {
                self.lemma_flat();
            }
            BinOp::lower(&self.fat.aggregate())
        }
    }

    fn len(&self) -> (r: usize) {
        self.size
    }

    fn is_empty(&self) -> (r: bool) {
        self.size == 0
    }
}

} // verus!
