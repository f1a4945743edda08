use swag::flatfit::FlatFIT;
use swag::ops::{Max, Mean, Sum};
use swag::reactive::Reactive;
use swag::recalc::ReCalc;
use swag::soe::SoE;
use swag::two_stacks::TwoStacks;
use swag::two_stacks_lite::TwoStacksLite;
use swag::FifoWindow;

#[test]
fn widened_sum_does_not_wrap() {
    let mut w = SoE::<Sum<i32, i64>>::new();
    w.push(i32::MAX);
    w.push(i32::MAX);
    assert_eq!(w.query(), 2 * (i32::MAX as i64));
    w.pop();
    assert_eq!(w.query(), i32::MAX as i64);
    let mut r = Reactive::<Sum<i32, i64>>::new();
    for _ in 0..4 {
        r.push(i32::MIN);
    }
    assert_eq!(r.query(), 4 * (i32::MIN as i64));
}

#[test]
fn sum_over_i64_elements() {
    let mut w = TwoStacksLite::<Sum<i64, i64>>::new();
    w.push(5_000_000_000);
    w.push(-1);
    assert_eq!(w.query(), 4_999_999_999);
    w.pop();
    assert_eq!(w.query(), -1);
}

#[test]
fn max_over_i64_and_widened() {
    let mut w = FlatFIT::<Max<i64, i64>>::new();
    assert_eq!(w.query(), i64::MIN);
    w.push(-7_000_000_000);
    w.push(3);
    w.push(-2);
    assert_eq!(w.query(), 3);
    w.pop();
    w.pop();
    assert_eq!(w.query(), -2);
    let mut x = TwoStacks::<Max<i32, i64>>::new();
    x.push(-5);
    x.push(-9);
    assert_eq!(x.query(), -5i64);
    x.pop();
    assert_eq!(x.query(), -9i64);
}

#[test]
fn widened_mean() {
    let mut w = ReCalc::<Mean<i32, i64>>::new();
    w.push(i32::MAX);
    w.push(i32::MAX);
    w.push(i32::MAX);
    assert_eq!(w.query(), i32::MAX as i64);
    let mut s = SoE::<Mean<i64, i64>>::new();
    s.push(10);
    s.push(-4);
    assert_eq!(s.query(), 3);
    s.pop();
    assert_eq!(s.query(), -4);
}

#[test]
fn unsigned_and_narrow_scalars() {
    let mut s = SoE::<Sum<u32, u32>>::new();
    s.push(3);
    s.push(u32::MAX);
    assert_eq!(s.query(), 2);
    s.pop();
    assert_eq!(s.query(), u32::MAX);
    let mut w = TwoStacks::<Sum<u32, u64>>::new();
    w.push(u32::MAX);
    w.push(u32::MAX);
    assert_eq!(w.query(), 2 * (u32::MAX as u64));
    let mut m = Reactive::<Max<usize, usize>>::new();
    assert_eq!(m.query(), 0);
    m.push(4);
    m.push(9);
    m.push(2);
    assert_eq!(m.query(), 9);
    m.pop();
    m.pop();
    assert_eq!(m.query(), 2);
    let mut n = FlatFIT::<Max<i16, i16>>::new();
    n.push(-300);
    n.push(-20);
    assert_eq!(n.query(), -20);
    let mut a = TwoStacksLite::<Mean<u64, u64>>::new();
    a.push(10);
    a.push(21);
    assert_eq!(a.query(), 15);
    a.pop();
    assert_eq!(a.query(), 21);
    let mut b = ReCalc::<Mean<u32, u64>>::new();
    b.push(u32::MAX);
    b.push(u32::MAX);
    assert_eq!(b.query(), u32::MAX as u64);
}

fn clone_is_independent<W: FifoWindow<Sum<i32, i32>> + Clone>() {
    let mut w = W::new();
    for v in 1..=20 {
        w.push(v);
    }
    w.pop();
    let mut c = w.clone();
    assert_eq!(c.query(), w.query());
    c.push(100);
    c.pop();
    assert_eq!(c.query(), 307);
    assert_eq!(w.query(), 209);
    assert_eq!(c.len(), w.len());
}

#[test]
fn cloned_windows_are_independent() {
    clone_is_independent::<ReCalc<Sum<i32, i32>>>();
    clone_is_independent::<SoE<Sum<i32, i32>>>();
    clone_is_independent::<TwoStacks<Sum<i32, i32>>>();
    clone_is_independent::<TwoStacksLite<Sum<i32, i32>>>();
    clone_is_independent::<Reactive<Sum<i32, i32>>>();
    clone_is_independent::<FlatFIT<Sum<i32, i32>>>();
}
