//! Flat Aggregating Tree: a perfect binary tree kept in one vector. Leaves
//! occupy the last `capacity` slots; every internal node holds the combine of
//! its two children, so the root holds the combine of all leaves in order.

use vstd::prelude::*;

use crate::ops::{fold, lemma_fold_singleton, lemma_fold_split, AggregateMonoid};

verus! {

/// Declares `fxhash::FxHasher`, the hasher of the node sets below; Verus
/// sees nothing inside it.
#[verifier::external_type_specification]
#[verifier::external_body]
pub struct ExFxHasher(fxhash::FxHasher);

/// Declares `std::hash::BuildHasherDefault`, through which `FxHashSet` builds
/// its hashers; Verus sees nothing inside it.
#[verifier::external_type_specification]
#[verifier::external_body]
#[verifier::reject_recursive_types(H)]
pub struct ExBuildHasherDefault<H>(std::hash::BuildHasherDefault<H>);

/// Relies on `Default` for `fxhash::FxHashSet`: a new set is empty.
#[verifier::external_body]
fn new_node_set() -> (r: fxhash::FxHashSet<usize>)
    ensures
        r@ == Set::<usize>::empty(),
{
    fxhash::FxHashSet::default()
}

/// Relies on `HashSet::insert`, over fxhash's deterministic hasher: the key
/// is added to the set.
#[verifier::external_body]
fn insert_node(s: &mut fxhash::FxHashSet<usize>, k: usize)
    ensures
        final(s)@ == old(s)@.insert(k),
{
    s.insert(k);
}

/// Relies on `HashSet::drain`: every key leaves the set exactly once, in an
/// order the set chooses.
#[verifier::external_body]
fn drain_nodes(s: &mut fxhash::FxHashSet<usize>) -> (r: Vec<usize>)
    ensures
        final(s)@ == Set::<usize>::empty(),
        forall|k: usize| old(s)@.contains(k) <==> r@.contains(k),
{
    s.drain().collect()
}

/// `n` is a power of two.
pub open spec fn is_pow2(n: nat) -> bool
    decreases n,
{
    if n <= 1 {
        n == 1
    } else {
        n % 2 == 0 && is_pow2(n / 2)
    }
}

/// Node `q` lies strictly above node `x` on the path from `x` to the root.
pub open spec fn on_path(q: int, x: int) -> bool
    decreases x,
{
    if x <= 0 {
        false
    } else {
        (x - 1) / 2 == q || on_path(q, (x - 1) / 2)
    }
}

/// Some node in `pending` is `q` or lies below `q`.
pub open spec fn covered(pending: Set<usize>, q: int) -> bool {
    exists|m: usize| #[trigger] pending.contains(m) && (m == q || on_path(q, m as int))
}

/// Some node of `level` from position `from` on is `q` or lies below `q`.
pub open spec fn covered_from(level: Seq<usize>, from: int, q: int) -> bool {
    exists|u: int| from <= u < level.len() && (#[trigger] level[u] == q || on_path(q, level[u] as int))
}

/// The leaves after writing each `(index, value)` of `batch`, in order.
pub open spec fn apply_updates<P>(leaves: Seq<P>, batch: Seq<(usize, P)>) -> Seq<P>
    decreases batch.len(),
{
    if batch.len() == 0 {
        leaves
    } else {
        let (i, v) = batch.last();
        apply_updates(leaves, batch.drop_last()).update(i as int, v)
    }
}

/// `2 * n` is a power of two whenever `n` is.
pub proof fn lemma_pow2_double(n: nat)
    requires
        is_pow2(n),
    ensures
        is_pow2(2 * n),
{
    assert((2 * n) / 2 == n);
}

/// Half of a power of two of at least 2 is a power of two.
pub proof fn lemma_pow2_half(n: nat)
    requires
        is_pow2(n),
        n >= 2,
    ensures
        is_pow2(n / 2),
        n % 2 == 0,
{
}

pub proof fn lemma_pow2_two()
    ensures
        is_pow2(2),
{
    assert(is_pow2(1));
    lemma_pow2_double(1);
}

#[derive(Clone)]
pub(crate) struct FlatFAT<BinOp: AggregateMonoid> {
    /// A flat binary tree: node `p` has children `2p+1`, `2p+2`.
    pub(crate) tree: Vec<BinOp::Partial>,
    /// Number of leaves which can be stored in the tree.
    pub(crate) capacity: usize,
}

impl<BinOp: AggregateMonoid> FlatFAT<BinOp> {
    /// Internal node `p` holds the combine of its children.
    pub(crate) open spec fn node_ok(tree: Seq<BinOp::Partial>, p: int) -> bool {
        tree[p] == BinOp::spec_operate(tree[2 * p + 1], tree[2 * p + 2])
    }

    pub(crate) open spec fn spec_capacity(&self) -> nat {
        self.capacity as nat
    }

    /// The leaves, left to right.
    pub(crate) open spec fn spec_leaves(&self) -> Seq<BinOp::Partial> {
        self.tree@.subrange(self.capacity - 1, 2 * self.capacity - 1)
    }

    pub(crate) open spec fn well_formed(&self) -> bool {
        &&& 2 <= self.capacity <= usize::MAX / 4
        &&& is_pow2(self.capacity as nat)
        &&& self.tree@.len() == 2 * self.capacity - 1
        &&& forall|p: int| 0 <= p < self.capacity - 1 ==> #[trigger] Self::node_ok(self.tree@, p)
    }

    /// Node `m` (counted from one) at the level of `k` nodes, each spanning
    /// `w` leaves, holds the combine of exactly those leaves.
    proof fn lemma_node(tree: Seq<BinOp::Partial>, cap: int, m: int, k: int, w: int)
        requires
            tree.len() == 2 * cap - 1,
            forall|p: int| 0 <= p < cap - 1 ==> #[trigger] Self::node_ok(tree, p),
            is_pow2(w as nat),
            w >= 1,
            k >= 1,
            k * w == cap,
            k <= m < 2 * k,
        ensures
            m * w - cap >= 0,
            (m + 1) * w - cap <= cap,
            tree[m - 1] == fold::<BinOp>(
                tree.subrange(cap - 1, 2 * cap - 1).subrange(m * w - cap, (m + 1) * w - cap),
            ),
        decreases w,
    {
        let leaves = tree.subrange(cap - 1, 2 * cap - 1);
        assert(m * w >= cap) by (nonlinear_arith)
            requires k <= m, w >= 1, k * w == cap;
        assert((m + 1) * w <= 2 * cap) by (nonlinear_arith)
            requires m + 1 <= 2 * k, w >= 1, k * w == cap;
        if w == 1 {
            assert(m * w == m && (m + 1) * w == m + 1) by (nonlinear_arith)
                requires w == 1;
            assert(leaves.subrange(m - cap, m + 1 - cap) =~= seq![tree[m - 1]]);
            lemma_fold_singleton::<BinOp>(tree[m - 1]);
        } else {
            let h = w / 2;
            assert(is_pow2(h as nat));
            assert(w == 2 * h);
            assert((2 * k) * h == cap) by (nonlinear_arith)
                requires k * w == cap, w == 2 * h;
            Self::lemma_node(tree, cap, 2 * m, 2 * k, h);
            Self::lemma_node(tree, cap, 2 * m + 1, 2 * k, h);
            assert(m < cap) by (nonlinear_arith)
                requires k * w == cap, m < 2 * k, w >= 2, k >= 1;
            assert(Self::node_ok(tree, m - 1));
            let lo = m * w - cap;
            assert(lo + w == (m + 1) * w - cap) by (nonlinear_arith)
                requires lo == m * w - cap;
            assert((2 * m) * h == m * w) by (nonlinear_arith)
                requires w == 2 * h;
            assert(h >= 1);
            assert((2 * m + 1) * h == m * w + h) by (nonlinear_arith)
                requires w == 2 * h;
            assert((2 * m + 2) * h == (m + 1) * w) by (nonlinear_arith)
                requires w == 2 * h;
            let s = leaves.subrange(lo, lo + w);
            lemma_fold_split::<BinOp>(s, h);
            assert(s.subrange(0, h) =~= leaves.subrange(lo, lo + h));
            assert(s.subrange(h, w) =~= leaves.subrange(lo + h, lo + w));
        }
    }

    /// The root holds the combine of all leaves.
    proof fn lemma_root(&self)
        requires
            self.well_formed(),
        ensures
            self.tree@[0] == fold::<BinOp>(self.spec_leaves()),
    {
        let cap = self.capacity as int;
        Self::lemma_node(self.tree@, cap, 1, 1, cap);
        assert(self.spec_leaves().subrange(0, cap) =~= self.spec_leaves());
    }

    /// The number of leaves a tree needs to hold `n` values: the least power
    /// of two that is at least `n` and at least 2.
    pub(crate) fn leaves_for(n: usize) -> (r: usize)
        requires
            n <= usize::MAX / 8,
        ensures
            2 <= r,
            n <= r,
            r <= 2 || r < 2 * n,
            r <= usize::MAX / 4,
            is_pow2(r as nat),
    {
        let mut cap: usize = 2;
        proof {
            lemma_pow2_two();
        }
        while cap < n
            invariant
                2 <= cap,
                cap <= 2 || cap < 2 * n,
                n <= usize::MAX / 8,
                is_pow2(cap as nat),
            decreases 2 * n - cap,
        {
            proof {
                lemma_pow2_double(cap as nat);
            }
            cap = cap * 2;
        }
        cap
    }

    /// Creates a tree whose leftmost leaves hold `values`, in order, and whose
    /// other leaves hold the identity.
    pub(crate) fn new(values: Vec<BinOp::Partial>) -> (r: Self)
        requires
            values@.len() <= usize::MAX / 8,
        ensures
            r.well_formed(),
            values@.len() <= r.spec_capacity(),
            r.spec_leaves() == values@ + Seq::new(
                (r.spec_capacity() - values@.len()) as nat,
                |i: int| BinOp::spec_identity(),
            ),
    {
        let capacity = Self::leaves_for(values.len());
        let ghost n = values@.len();
        let mut fat = Self::with_capacity(capacity);
        fat.update_ordered(values);
        assert(fat.spec_leaves() =~= values@ + Seq::new(
            (capacity - n) as nat,
            |i: int| BinOp::spec_identity(),
        ));
        fat
    }

    /// Creates a tree of `capacity` leaves, all holding the identity.
    pub(crate) fn with_capacity(capacity: usize) -> (r: Self)
        requires
            2 <= capacity <= usize::MAX / 4,
            is_pow2(capacity as nat),
        ensures
            r.well_formed(),
            r.spec_capacity() == capacity,
            r.spec_leaves() == Seq::new(capacity as nat, |i: int| BinOp::spec_identity()),
    {
        let n = 2 * capacity - 1;
        let mut tree: Vec<BinOp::Partial> = Vec::with_capacity(n);
        let mut i: usize = 0;
        while i < n
            invariant
                i <= n,
                tree@.len() == i,
                forall|j: int| 0 <= j < i ==> tree@[j] == BinOp::spec_identity(),
            decreases n - i,
        {
            tree.push(BinOp::identity());
            i = i + 1;
        }
        proof {
            BinOp::lemma_identity(BinOp::spec_identity());
        }
        let r = FlatFAT { tree, capacity };
        assert(r.spec_leaves() =~= Seq::new(capacity as nat, |i: int| BinOp::spec_identity()));
        r
    }

    pub(crate) fn capacity(&self) -> (r: usize)
        ensures
            r == self.spec_capacity(),
    {
        self.capacity
    }

    /// Returns the value of the leaf at `idx`.
    pub(crate) fn get(&self, idx: usize) -> (r: Option<&BinOp::Partial>)
        requires
            self.well_formed(),
        ensures
            idx < self.spec_capacity() ==> r == Some(&self.spec_leaves()[idx as int]),
            idx >= self.spec_capacity() ==> r.is_none(),
    {
        if idx < self.capacity {
            Some(&self.tree[idx + self.capacity - 1])
        } else {
            None
        }
    }

    /// Updates a non-contiguous batch of leaves: each `(index, value)` is
    /// written in order, so a later write to an index wins. The ancestors of
    /// the written leaves are then recomputed one level at a time, each level
    /// gathered in a set so that a shared ancestor is recomputed once.
    pub(crate) fn update(&mut self, batch: &Vec<(usize, BinOp::Partial)>)
        requires
            old(self).well_formed(),
            forall|j: int| 0 <= j < batch@.len() ==> (#[trigger] batch@[j]).0 < old(self).spec_capacity(),
        ensures
            final(self).well_formed(),
            final(self).spec_capacity() == old(self).spec_capacity(),
            final(self).spec_leaves() == apply_updates(old(self).spec_leaves(), batch@),
    {
        let cap = self.capacity;
        let ghost old_leaves = self.spec_leaves();
        let mut parents = new_node_set();
        let mut j: usize = 0;
        while j < batch.len()
            invariant
                cap == self.capacity,
                2 <= cap <= usize::MAX / 4,
                is_pow2(cap as nat),
                self.tree@.len() == 2 * cap - 1,
                j <= batch@.len(),
                forall|t: int| 0 <= t < batch@.len() ==> (#[trigger] batch@[t]).0 < cap,
                self.spec_leaves() == apply_updates(old_leaves, batch@.subrange(0, j as int)),
                forall|m: usize| #[trigger] parents@.contains(m) ==> cap / 2 <= m + 1 < cap,
                forall|q: int|
                    0 <= q < cap - 1 && !#[trigger] Self::node_ok(self.tree@, q) ==> covered(parents@, q),
            decreases batch@.len() - j,
        {
            let (idx, val) = batch[j];
            let leaf = idx + cap - 1;
            let parent = (leaf - 1) / 2;
            let ghost before = self.tree@;
            let ghost before_parents = parents@;
            self.tree.set(leaf, val);
            insert_node(&mut parents, parent);
            proof {
                let pre = batch@.subrange(0, j + 1);
                assert(pre.drop_last() =~= batch@.subrange(0, j as int));
                assert(self.spec_leaves() =~= apply_updates(old_leaves, pre));
                assert forall|q: int| 0 <= q < cap - 1 && !#[trigger] Self::node_ok(self.tree@, q)
                    implies covered(parents@, q) by {
                    if q == parent {
                        assert(parents@.contains(parent));
                    } else {
                        assert(Self::node_ok(before, q) == Self::node_ok(self.tree@, q));
                        let m = choose|m: usize| before_parents.contains(m) && (m == q || on_path(q, m as int));
                        assert(parents@.contains(m));
                    }
                };
            }
            j = j + 1;
        }
        proof {
            assert(batch@.subrange(0, batch@.len() as int) =~= batch@);
        }
        let ghost leaves = self.spec_leaves();
        let mut new_parents = new_node_set();
        let ghost mut k: int = (cap / 2) as int;
        proof {
            lemma_pow2_half(cap as nat);
        }
        while !parents.is_empty()
            invariant
                cap == self.capacity,
                2 <= cap <= usize::MAX / 4,
                is_pow2(cap as nat),
                self.tree@.len() == 2 * cap - 1,
                self.spec_leaves() == leaves,
                0 <= k,
                k == 0 || is_pow2(k as nat),
                2 * k <= cap,
                new_parents@ == Set::<usize>::empty(),
                forall|m: usize| #[trigger] parents@.contains(m) ==> k <= m + 1 < 2 * k,
                forall|q: int|
                    0 <= q < cap - 1 && !#[trigger] Self::node_ok(self.tree@, q) ==> covered(parents@, q),
            decreases k,
        {
            let ghost pending = parents@;
            let level = drain_nodes(&mut parents);
            proof {
                assert(k >= 1) by {
                    let m = choose|m: usize| pending.contains(m);
                }
                assert forall|u: int| 0 <= u < level@.len() implies k <= #[trigger] level@[u] + 1 < 2 * k by {
                    assert(level@.contains(level@[u]));
                };
                assert forall|q: int| 0 <= q < cap - 1 && !#[trigger] Self::node_ok(self.tree@, q)
                    implies covered_from(level@, 0, q) by {
                    let m = choose|m: usize| pending.contains(m) && (m == q || on_path(q, m as int));
                    assert(level@.contains(m));
                    let u = choose|u: int| 0 <= u < level@.len() && level@[u] == m;
                    assert(0 <= u < level@.len() && (level@[u] == q || on_path(q, level@[u] as int)));
                };
            }
            let mut t: usize = 0;
            while t < level.len()
                invariant
                    cap == self.capacity,
                    2 <= cap <= usize::MAX / 4,
                    is_pow2(cap as nat),
                    self.tree@.len() == 2 * cap - 1,
                    self.spec_leaves() == leaves,
                    1 <= k,
                    is_pow2(k as nat),
                    2 * k <= cap,
                    t <= level@.len(),
                    parents@ == Set::<usize>::empty(),
                    forall|u: int| 0 <= u < level@.len() ==> k <= #[trigger] level@[u] + 1 < 2 * k,
                    forall|m: usize| #[trigger] new_parents@.contains(m) ==> k / 2 <= m + 1 < k,
                    forall|q: int|
                        0 <= q < cap - 1 && !#[trigger] Self::node_ok(self.tree@, q) ==> covered_from(
                            level@,
                            t as int,
                            q,
                        ) || covered(new_parents@, q),
                decreases level@.len() - t,
            {
                let p = level[t];
                let agg = BinOp::operate(&self.tree[2 * p + 1], &self.tree[2 * p + 2]);
                let ghost before = self.tree@;
                let ghost before_new = new_parents@;
                self.tree.set(p, agg);
                if p != 0 {
                    insert_node(&mut new_parents, (p - 1) / 2);
                }
                proof {
                    assert(self.spec_leaves() =~= leaves);
                    assert forall|q: int| 0 <= q < cap - 1 && !#[trigger] Self::node_ok(self.tree@, q)
                        implies covered_from(level@, t + 1, q) || covered(new_parents@, q) by {
                        if p != 0 && q == (p - 1) / 2 {
                            assert(new_parents@.contains(((p - 1) / 2) as usize));
                        } else if q != p {
                            assert(Self::node_ok(before, q) == Self::node_ok(self.tree@, q));
                            if covered(before_new, q) {
                                let m = choose|m: usize| before_new.contains(m) && (m == q || on_path(q, m as int));
                                assert(new_parents@.contains(m));
                            } else {
                                let u = choose|u: int| t <= u < level@.len() && (level@[u] == q || on_path(q, level@[u] as int));
                                if u == t {
                                    assert(on_path(q, p as int));
                                    assert(new_parents@.contains(((p - 1) / 2) as usize));
                                } else {
                                    assert(t + 1 <= u < level@.len() && (level@[u] == q || on_path(q, level@[u] as int)));
                                }
                            }
                        }
                    };
                }
                t = t + 1;
            }
            std::mem::swap(&mut parents, &mut new_parents);
            proof {
                if k >= 2 {
                    lemma_pow2_half(k as nat);
                }
                k = k / 2;
            }
        }
    }

    /// Writes `values` into the leftmost leaves, then recomputes every
    /// internal node, right to left.
    pub(crate) fn update_ordered(&mut self, values: Vec<BinOp::Partial>)
        requires
            old(self).well_formed(),
            values@.len() <= old(self).spec_capacity(),
        ensures
            final(self).well_formed(),
            final(self).spec_capacity() == old(self).spec_capacity(),
            final(self).spec_leaves() == values@ + old(self).spec_leaves().subrange(
                values@.len() as int,
                old(self).spec_capacity() as int,
            ),
    {
        let cap = self.capacity;
        let ghost old_leaves = self.spec_leaves();
        let mut i: usize = 0;
        while i < values.len()
            invariant
                cap == self.capacity,
                2 <= cap <= usize::MAX / 4,
                is_pow2(cap as nat),
                self.tree@.len() == 2 * cap - 1,
                values@.len() <= cap,
                old_leaves.len() == cap,
                i <= values@.len(),
                self.spec_leaves() == values@.subrange(0, i as int) + old_leaves.subrange(i as int, cap as int),
            decreases values@.len() - i,
        {
            let ghost pre = self.spec_leaves();
            self.tree.set(i + cap - 1, values[i]);
            assert(self.spec_leaves() =~= pre.update(i as int, values@[i as int]));
            assert(self.spec_leaves() =~= values@.subrange(0, i + 1) + old_leaves.subrange(i + 1, cap as int));
            i = i + 1;
        }
        assert(values@.subrange(0, values@.len() as int) =~= values@);
        let ghost leaves = self.spec_leaves();
        let mut p: usize = cap - 1;
        while p > 0
            invariant
                cap == self.capacity,
                2 <= cap <= usize::MAX / 4,
                is_pow2(cap as nat),
                self.tree@.len() == 2 * cap - 1,
                p <= cap - 1,
                self.spec_leaves() == leaves,
                forall|q: int| p <= q < cap - 1 ==> #[trigger] Self::node_ok(self.tree@, q),
            decreases p,
        {
            p = p - 1;
            let agg = BinOp::operate(&self.tree[2 * p + 1], &self.tree[2 * p + 2]);
            let ghost before = self.tree@;
            self.tree.set(p, agg);
            assert(self.spec_leaves() =~= leaves);
            assert forall|q: int| p <= q < cap - 1 implies #[trigger] Self::node_ok(self.tree@, q) by {
                if q != p {
                    assert(Self::node_ok(before, q));
                }
            };
        }
    }

    /// Aggregates all leaves.
    pub(crate) fn aggregate(&self) -> (r: BinOp::Partial)
        requires
            self.well_formed(),
        ensures
            r == fold::<BinOp>(self.spec_leaves()),
    {
        proof {
            self.lemma_root();
        }
        self.tree[0]
    }

    /// Aggregates the leaves `0..=idx`.
    pub(crate) fn prefix(&self, idx: usize) -> (r: BinOp::Partial)
        requires
            self.well_formed(),
            idx < self.spec_capacity(),
        ensures
            r == fold::<BinOp>(self.spec_leaves().subrange(0, idx + 1)),
    {
        let cap = self.capacity;
        let ghost leaves = self.spec_leaves();
        let mut node = idx + cap - 1;
        let mut agg = self.tree[node];
        let ghost mut k: int = cap as int;
        let ghost mut w: int = 1;
        proof {
            assert(leaves.subrange(idx as int, idx + 1) =~= seq![agg]);
            lemma_fold_singleton::<BinOp>(agg);
        }
        while node > 0
            invariant
                self.well_formed(),
                cap == self.capacity,
                leaves == self.spec_leaves(),
                idx < cap,
                is_pow2(w as nat),
                is_pow2(k as nat),
                w >= 1,
                k * w == cap,
                k >= 1,
                k <= node + 1 < 2 * k,
                node < 2 * cap - 1,
                (node + 1) * w - cap <= idx,
                agg == fold::<BinOp>(leaves.subrange((node + 1) * w - cap, idx + 1)),
            decreases node,
        {
            let parent = (node - 1) / 2;
            let ghost m = node + 1;
            assert(k > 1) by {
                if k <= 1 {
                    assert(k == 1);
                }
            };
            assert(k % 2 == 0);
            if node == 2 * parent + 2 {
                proof {
                    Self::lemma_node(self.tree@, cap as int, m - 1, k, w);
                    let lo = (m - 1) * w - cap;
                    let mid = m * w - cap;
                    assert(mid == lo + w) by (nonlinear_arith)
                        requires lo == (m - 1) * w - cap, mid == m * w - cap;
                    let s = leaves.subrange(lo, idx + 1);
                    lemma_fold_split::<BinOp>(s, w);
                    assert(s.subrange(0, w) =~= leaves.subrange(lo, mid));
                    assert(s.subrange(w, s.len() as int) =~= leaves.subrange(mid, idx + 1));
                }
                agg = BinOp::operate(&self.tree[2 * parent + 1], &agg);
                proof {
                    assert((m - 1) * w == (parent + 1) * (2 * w)) by (nonlinear_arith)
                        requires m - 1 == 2 * (parent + 1);
                    assert(m * w - w == (m - 1) * w) by (nonlinear_arith);
                }
            } else {
                proof {
                    assert(m * w == (parent + 1) * (2 * w)) by (nonlinear_arith)
                        requires m == 2 * (parent + 1);
                }
            }
            proof {
                assert((k / 2) * (2 * w) == cap) by (nonlinear_arith)
                    requires k * w == cap, k % 2 == 0;
                k = k / 2;
                w = 2 * w;
            }
            node = parent;
        }
        proof {
            assert(k == 1);
        }
        agg
    }

    /// Aggregates the leaves `idx..capacity`.
    #[verifier::rlimit(50)]
    pub(crate) fn suffix(&self, idx: usize) -> (r: BinOp::Partial)
        requires
            self.well_formed(),
            idx < self.spec_capacity(),
        ensures
            r == fold::<BinOp>(self.spec_leaves().subrange(idx as int, self.spec_capacity() as int)),
    {
        let cap = self.capacity;
        let ghost leaves = self.spec_leaves();
        let mut node = idx + cap - 1;
        let mut agg = self.tree[node];
        let ghost mut k: int = cap as int;
        let ghost mut w: int = 1;
        proof {
            assert(leaves.subrange(idx as int, idx + 1) =~= seq![agg]);
            lemma_fold_singleton::<BinOp>(agg);
        }
        while node > 0
            invariant
                self.well_formed(),
                cap == self.capacity,
                leaves == self.spec_leaves(),
                idx < cap,
                is_pow2(w as nat),
                is_pow2(k as nat),
                w >= 1,
                k * w == cap,
                k >= 1,
                k <= node + 1 < 2 * k,
                node < 2 * cap - 1,
                idx < (node + 2) * w - cap <= cap,
                agg == fold::<BinOp>(leaves.subrange(idx as int, (node + 2) * w - cap)),
            decreases node,
        {
            let parent = (node - 1) / 2;
            let ghost m = node + 1;
            assert(k > 1) by {
                if k <= 1 {
                    assert(k == 1);
                }
            };
            assert(k % 2 == 0);
            if node == 2 * parent + 1 {
                proof {
                    Self::lemma_node(self.tree@, cap as int, m + 1, k, w);
                    let hi = (m + 1) * w - cap;
                    let end = (m + 2) * w - cap;
                    assert(end == hi + w) by (nonlinear_arith)
                        requires hi == (m + 1) * w - cap, end == (m + 2) * w - cap;
                    let s = leaves.subrange(idx as int, end);
                    lemma_fold_split::<BinOp>(s, hi - idx);
                    assert(s.subrange(0, hi - idx) =~= leaves.subrange(idx as int, hi));
                    assert(s.subrange(hi - idx, s.len() as int) =~= leaves.subrange(hi, end));
                }
                agg = BinOp::operate(&agg, &self.tree[2 * parent + 2]);
                proof {
                    assert((m + 2) * w == (parent + 2) * (2 * w)) by (nonlinear_arith)
                        requires m == 2 * (parent + 1);
                }
            } else {
                proof {
                    assert((m + 1) * w == (parent + 2) * (2 * w)) by (nonlinear_arith)
                        requires m == 2 * (parent + 1) + 1;
                }
            }
            proof {
                assert((k / 2) * (2 * w) == cap) by (nonlinear_arith)
                    requires k * w == cap, k % 2 == 0;
                k = k / 2;
                w = 2 * w;
            }
            node = parent;
        }
        proof {
            assert(k == 1);
        }
        agg
    }
}

} // verus!
