//! Flat and Fast Index Traverser: a circular buffer of items linked from
//! `front` to `back`. A query walks the links, then rewrites every visited
//! item to point straight at `back` while caching the aggregate of the
//! stretch it now skips, so repeated queries stay short.

use vstd::prelude::*;

use crate::ops::{aggregate, fold, lemma_fold_push, lemma_fold_singleton, lemma_fold_split, lift_all, AggregateMonoid};
use crate::FifoWindow;

verus! {

const LOW_CAP: usize = 2;

#[derive(Clone, Copy)]
struct Item<Value> {
    val: Value,
    next: usize,
}

impl<Value> Item<Value> {
    fn new(val: Value, next: usize) -> (r: Self)
        ensures
            r.val == val,
            r.next == next,
    {
        Self { val, next }
    }
}

#[derive(Clone)]
pub struct FlatFIT<BinOp: AggregateMonoid> {
    front: usize,
    back: usize,
    size: usize,
    buffer: Vec<Item<BinOp::Partial>>,
    tracing_indices: Vec<usize>,
    elems: Ghost<Seq<BinOp::In>>,
}

impl<BinOp: AggregateMonoid> FlatFIT<BinOp> {
    /// The number of slots of the buffer.
    pub closed spec fn capacity(&self) -> nat {
        self.buffer@.len()
    }

    /// Position of buffer index `i` in the window, counted from `front`
    /// around the ring.
    closed spec fn slot(&self, i: int) -> int {
        if i >= self.front {
            i - self.front
        } else {
            i + self.buffer@.len() - self.front
        }
    }

    /// A live item either is the newest element, or links forward to a live
    /// item and caches the combine of the elements it skips.
    closed spec fn item_ok(&self, i: int) -> bool {
        let it = self.buffer@[i];
        let s = self.slot(i);
        let lifted = lift_all::<BinOp>(self.elems@);
        &&& it.next < self.buffer@.len()
        &&& s < self.size ==> if s == self.size - 1 {
            it.val == lifted[s]
        } else {
            &&& s < self.slot(it.next as int) < self.size
            &&& it.val == fold::<BinOp>(lifted.subrange(s, self.slot(it.next as int)))
        }
    }

    closed spec fn layout_ok(&self) -> bool {
        let cap = self.buffer@.len();
        &&& cap <= usize::MAX / 4
        &&& self.size <= cap
        &&& (self.front < cap || (cap == 0 && self.front == 0))
        &&& self.size > 0 ==> self.back == if self.front + self.size - 1 < cap {
            self.front + self.size - 1
        } else {
            self.front + self.size - 1 - cap
        }
        &&& self.elems@.len() == self.size
        &&& forall|i: int| 0 <= i < cap ==> #[trigger] self.item_ok(i)
    }

    /// Copies the live items, in order, into a fresh buffer of at least
    /// `new_capacity` slots, rewriting each link for the new positions.
    fn rescale(&mut self, new_capacity: usize)
        requires
            old(self).layout_ok(),
            old(self).size <= new_capacity || old(self).size <= LOW_CAP,
            new_capacity <= usize::MAX / 4,
        ensures
            final(self).layout_ok(),
            final(self).tracing_indices == old(self).tracing_indices,
            final(self).elems@ == old(self).elems@,
            final(self).size == old(self).size,
            final(self).front == 0,
            final(self).back == if old(self).size == 0 {
                0
            } else {
                (old(self).size - 1) as usize
            },
            final(self).buffer@.len() == if new_capacity < LOW_CAP {
                LOW_CAP
            } else {
                new_capacity
            },
    {
        let new_capacity = if new_capacity < LOW_CAP {
            LOW_CAP
        } else {
            new_capacity
        };
        let old_cap = self.buffer.len();
        let ghost lifted = lift_all::<BinOp>(self.elems@);
        let mut new_buffer: Vec<Item<BinOp::Partial>> = Vec::with_capacity(new_capacity);
        let mut i: usize = 0;
        while i < self.size
            invariant
                self.layout_ok(),
                old_cap == self.buffer@.len(),
                lifted == lift_all::<BinOp>(self.elems@),
                i <= self.size <= new_capacity,
                new_capacity >= LOW_CAP,
                lifted.len() == self.size,
                new_buffer@.len() == i,
                forall|j: int|
                    0 <= j < i ==> {
                        let it = #[trigger] new_buffer@[j];
                        &&& it.next < new_capacity
                        &&& if j == self.size - 1 {
                            it.val == lifted[j]
                        } else {
                            &&& j < it.next < self.size
                            &&& it.val == fold::<BinOp>(lifted.subrange(j, it.next as int))
                        }
                    },
            decreases self.size - i,
        {
            let pos = if self.front + i < old_cap {
                self.front + i
            } else {
                self.front + i - old_cap
            };
            assert(self.slot(pos as int) == i);
            assert(self.item_ok(pos as int));
            let item = self.buffer[pos];
            let offset = if item.next >= self.front {
                item.next - self.front
            } else {
                item.next + old_cap - self.front
            };
            let next = if i + 1 == self.size {
                0
            } else {
                offset
            };
            new_buffer.push(Item::new(item.val, next));
            assert(new_buffer@[i as int].next == next);
            i = i + 1;
        }
        while i < new_capacity
            invariant
                self.size <= i <= new_capacity,
                lifted.len() == self.size,
                new_buffer@.len() == i,
                forall|j: int|
                    0 <= j < i ==> {
                        let it = #[trigger] new_buffer@[j];
                        &&& it.next < new_capacity
                        &&& j < self.size ==> if j == self.size - 1 {
                            it.val == lifted[j]
                        } else {
                            &&& j < it.next < self.size
                            &&& it.val == fold::<BinOp>(lifted.subrange(j, it.next as int))
                        }
                    },
            decreases new_capacity - i,
        {
            new_buffer.push(Item::new(BinOp::identity(), 0));
            i = i + 1;
        }
        self.buffer = new_buffer;
        self.front = 0;
        self.back = if self.size == 0 {
            0
        } else {
            self.size - 1
        };
        assert forall|j: int| 0 <= j < new_capacity implies #[trigger] self.item_ok(j) by {
            assert(self.slot(j) == j);
            let it = self.buffer@[j];
            assert(self.slot(it.next as int) == it.next);
        };
    }
}

impl<BinOp: AggregateMonoid> FifoWindow<BinOp> for FlatFIT<BinOp> {
    closed spec fn well_formed(&self) -> bool {
        &&& self.layout_ok()
        &&& self.tracing_indices@.len() == 0
    }

    closed spec fn contents(&self) -> Seq<BinOp::In> {
        self.elems@
    }

    fn new() -> (w: Self)
        ensures
            w.capacity() == 0,
    {
        FlatFIT {
            front: 0,
            back: 0,
            size: 0,
            buffer: Vec::new(),
            tracing_indices: Vec::new(),
            elems: Ghost(Seq::empty()),
        }
    }

    open spec fn spec_name() -> Seq<char> {
        "flatfit"@
    }

    fn name() -> (r: &'static str) {
        "flatfit"
    }

    /// Doubles the buffer, to at least two slots, when it is full.
    #[verifier::rlimit(60)]
    fn push(&mut self, val: BinOp::In)
        ensures
            final(self).capacity() == if old(self).contents().len() + 1 > old(self).capacity() {
                if 2 * old(self).capacity() < 2 {
                    2
                } else {
                    2 * old(self).capacity()
                }
            } else {
                old(self).capacity()
            },
    {
        let capacity = self.buffer.len();
        if self.size + 1 > capacity {
            self.rescale(capacity * 2);
        }
        let cap = self.buffer.len();
        let ghost old_self = *self;
        let ghost old_lifted = lift_all::<BinOp>(self.elems@);
        let prev = self.back;
        let back = if self.size == 0 {
            self.front
        } else if self.back + 1 < cap {
            self.back + 1
        } else {
            0
        };
        self.buffer.set(back, Item::new(BinOp::lift(val), back));
        if self.size > 0 {
            let pv = self.buffer[prev].val;
            self.buffer.set(prev, Item::new(pv, back));
        }
        self.back = back;
        self.size = self.size + 1;
        self.elems = Ghost(self.elems@.push(val));
        proof {
            let lifted = lift_all::<BinOp>(self.elems@);
            assert(lifted =~= old_lifted.push(BinOp::spec_lift(val)));
            assert forall|i: int| 0 <= i < cap implies #[trigger] self.item_ok(i) by {
                assert(old_self.item_ok(i));
                assert(self.slot(i) == old_self.slot(i));
                let s = self.slot(i);
                if i == prev && old_self.size > 0 {
                    assert(s == old_self.size - 1);
                    assert(self.slot(back as int) == old_self.size);
                    assert(lifted.subrange(s, s + 1) =~= seq![lifted[s]]);
                    lemma_fold_singleton::<BinOp>(lifted[s]);
                } else if i != back as int && s < old_self.size {
                    let nx = old_self.buffer@[i].next as int;
                    if s != old_self.size - 1 {
                        assert(lifted.subrange(s, self.slot(nx)) =~= old_lifted.subrange(s, self.slot(nx)));
                    }
                }
            };
        }
    }

    /// Halves the buffer, to at least two slots, once fewer than half of its
    /// slots are live.
    fn pop(&mut self)
        ensures
            final(self).capacity() == if old(self).contents().len() > 0 && old(self).contents().len() - 1
                < old(self).capacity() / 2 {
                if old(self).capacity() / 2 < 2 {
                    2
                } else {
                    old(self).capacity() / 2
                }
            } else {
                old(self).capacity()
            },
    {
        if self.size > 0 {
            let capacity = self.buffer.len();
            let ghost old_self = *self;
            let ghost old_lifted = lift_all::<BinOp>(self.elems@);
            self.front = if self.front + 1 < capacity {
                self.front + 1
            } else {
                0
            };
            self.size = self.size - 1;
            self.elems = Ghost(self.elems@.drop_first());
            proof {
                let lifted = lift_all::<BinOp>(self.elems@);
                assert(lifted =~= old_lifted.drop_first());
                assert forall|i: int| 0 <= i < capacity implies #[trigger] self.item_ok(i) by {
                    assert(old_self.item_ok(i));
                    if i != old_self.front {
                        assert(self.slot(i) == old_self.slot(i) - 1);
                        let s = self.slot(i);
                        let nx = self.buffer@[i].next as int;
                        if s < self.size && s != self.size - 1 {
                            assert(nx != old_self.front);
                            assert(self.slot(nx) == old_self.slot(nx) - 1);
                            assert(lifted.subrange(s, self.slot(nx)) =~= old_lifted.subrange(s + 1, self.slot(nx) + 1));
                        }
                    } else {
                        assert(self.slot(i) == capacity - 1);
                    }
                };
            }
            if self.size < capacity / 2 {
                self.rescale(capacity / 2);
            }
        }
    }

    #[verifier::rlimit(80)]
    fn query(&mut self) -> (r: BinOp::Out)
        ensures
            final(self).capacity() == old(self).capacity(),
    {
        let mut agg = BinOp::identity();
        proof {
            assert(lift_all::<BinOp>(self.elems@).len() == self.size);
        }
        if self.size > 0 {
            let ghost lifted = lift_all::<BinOp>(self.elems@);
            let ghost start = *self;
            let cap = self.buffer.len();
            let mut current = self.front;
            while current != self.back
                invariant
                    self.buffer == start.buffer,
                    self.front == start.front,
                    self.back == start.back,
                    self.size == start.size,
                    self.elems == start.elems,
                    self.layout_ok(),
                    self.size > 0,
                    cap == self.buffer@.len(),
                    lifted == lift_all::<BinOp>(self.elems@),
                    current < cap,
                    self.slot(current as int) < self.size,
                    self.tracing_indices@.len() == 0 ==> current == self.front,
                    self.tracing_indices@.len() > 0 ==> self.tracing_indices@[0] == self.front,
                    self.tracing_indices@.len() > 0 ==> self.buffer@[self.tracing_indices@.last() as int].next == current,
                    forall|a: int| 0 <= a < self.tracing_indices@.len() - 1 ==>
                        self.buffer@[#[trigger] self.tracing_indices@[a] as int].next == self.tracing_indices@[a + 1],
                    forall|a: int| 0 <= a < self.tracing_indices@.len() ==>
                        #[trigger] self.tracing_indices@[a] < cap && self.slot(self.tracing_indices@[a] as int) < self.slot(current as int),
                    forall|a: int, b: int| 0 <= a < b < self.tracing_indices@.len() ==>
                        self.slot(#[trigger] self.tracing_indices@[a] as int) < self.slot(#[trigger] self.tracing_indices@[b] as int),
                decreases self.size - self.slot(current as int),
            {
                assert(self.item_ok(current as int));
                let ghost head = *self;
                self.tracing_indices.push(current);
                assert forall|j: int| 0 <= j < cap implies #[trigger] self.item_ok(j) by {
                    assert(head.item_ok(j));
                };
                current = self.buffer[current].next;
            }
            let ghost trace = self.tracing_indices@;
            let ghost k = trace.len() as int;
            let ghost mut last: int = self.back as int;
            let back = self.back;
            proof {
                assert(self.slot(back as int) == self.size - 1);
                assert(lifted.subrange(self.size - 1, self.size - 1) =~= Seq::<BinOp::Partial>::empty());
            }
            while self.tracing_indices.len() > 0
                invariant
                    self.front == start.front,
                    self.back == back,
                    self.size == start.size,
                    self.elems == start.elems,
                    self.layout_ok(),
                    self.size > 0,
                    cap == self.buffer@.len(),
                    lifted == lift_all::<BinOp>(self.elems@),
                    self.slot(back as int) == self.size - 1,
                    start.layout_ok(),
                    start.buffer@.len() == cap,
                    self.tracing_indices@ == trace.subrange(0, self.tracing_indices@.len() as int),
                    k == trace.len(),
                    self.tracing_indices@.len() <= k,
                    last == if self.tracing_indices@.len() == k { back as int } else { trace[self.tracing_indices@.len() as int] as int },
                    k > 0 ==> trace[0] == self.front,
                    k == 0 ==> back == self.front,
                    k > 0 ==> start.buffer@[trace[k - 1] as int].next == back,
                    forall|a: int| 0 <= a < k - 1 ==>
                        start.buffer@[#[trigger] trace[a] as int].next == trace[a + 1],
                    forall|a: int| 0 <= a < k ==>
                        #[trigger] trace[a] < cap && self.slot(trace[a] as int) < self.size - 1,
                    forall|a: int, b: int| 0 <= a < b < k ==>
                        self.slot(#[trigger] trace[a] as int) < self.slot(#[trigger] trace[b] as int),
                    forall|a: int| 0 <= a < self.tracing_indices@.len() ==>
                        self.buffer@[#[trigger] trace[a] as int] == start.buffer@[trace[a] as int],
                    0 <= self.slot(last) <= self.size - 1,
                    agg == fold::<BinOp>(lifted.subrange(self.slot(last), self.size - 1)),
                decreases self.tracing_indices@.len(),
            {
                let ghost r = self.tracing_indices@.len() as int;
                let ghost head = *self;
                let i = self.tracing_indices.pop().unwrap();
                proof {
                    assert(i == trace[r - 1]);
                    assert(start.item_ok(i as int));
                    assert(start.slot(i as int) == self.slot(i as int));
                    assert(start.buffer@[i as int].next == last);
                    let s = self.slot(i as int);
                    let whole = lifted.subrange(s, self.size - 1);
                    lemma_fold_split::<BinOp>(whole, self.slot(last) - s);
                    assert(whole.subrange(0, self.slot(last) - s) =~= lifted.subrange(s, self.slot(last)));
                    assert(whole.subrange(self.slot(last) - s, whole.len() as int) =~= lifted.subrange(self.slot(last), self.size - 1));
                }
                agg = BinOp::operate(&self.buffer[i].val, &agg);
                let ghost before = *self;
                self.buffer.set(i, Item::new(agg, back));
                proof {
                    assert forall|j: int| 0 <= j < cap implies #[trigger] self.item_ok(j) by {
                        assert(head.item_ok(j));
                    };
                    last = i as int;
                }
            }
            proof {
                assert(self.slot(last) == 0);
                assert(self.item_ok(back as int));
                lemma_fold_push::<BinOp>(lifted.subrange(0, self.size - 1), lifted[self.size - 1]);
                assert(lifted.subrange(0, self.size - 1).push(lifted[self.size - 1]) =~= lifted);
            }
            agg = BinOp::operate(&agg, &self.buffer[back].val);
        } else {
            proof {
                assert(lift_all::<BinOp>(self.elems@) =~= Seq::<BinOp::Partial>::empty());
            }
        }
        BinOp::lower(&agg)
    }

    fn len(&self) -> (r: usize) {
        self.size
    }

    fn is_empty(&self) -> (r: bool) {
        self.size == 0
    }
}

} // verus!
