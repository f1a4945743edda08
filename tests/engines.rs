use rand::Rng;
use swag::flatfit::FlatFIT;
use swag::ops::{Max, Mean, Sum};
use swag::reactive::Reactive;
use swag::recalc::ReCalc;
use swag::soe::SoE;
use swag::two_stacks::TwoStacks;
use swag::two_stacks_lite::TwoStacksLite;
use swag::FifoWindow;

type S = Sum<i32, i32>;
type M = Max<i32, i32>;
type A = Mean<i32, i32>;

fn sum_scenario<W: FifoWindow<S>>() {
    let mut w = W::new();
    w.push(1);
    assert_eq!(w.query(), 1);
    w.push(2);
    assert_eq!(w.query(), 3);
    w.push(3);
    assert_eq!(w.query(), 6);
    w.pop();
    assert_eq!(w.query(), 5);
    w.pop();
    assert_eq!(w.query(), 3);
    w.pop();
    assert_eq!(w.query(), 0);
}

#[test]
fn sum_scenario_every_engine() {
    sum_scenario::<ReCalc<S>>();
    sum_scenario::<SoE<S>>();
    sum_scenario::<TwoStacks<S>>();
    sum_scenario::<TwoStacksLite<S>>();
    sum_scenario::<Reactive<S>>();
    sum_scenario::<FlatFIT<S>>();
}

fn max_scenario<W: FifoWindow<M>>() {
    let mut w = W::new();
    for v in [3, 1, 4, 1, 5] {
        w.push(v);
    }
    assert_eq!(w.query(), 5);
    w.pop();
    assert_eq!(w.query(), 5);
    w.pop();
    assert_eq!(w.query(), 5);
    w.pop();
    w.pop();
    assert_eq!(w.query(), 5);
    w.pop();
    assert_eq!(w.query(), i32::MIN);
}

#[test]
fn max_scenario_monoid_engines() {
    max_scenario::<ReCalc<M>>();
    max_scenario::<TwoStacks<M>>();
    max_scenario::<TwoStacksLite<M>>();
    max_scenario::<Reactive<M>>();
    max_scenario::<FlatFIT<M>>();
}

fn small_values<W: FifoWindow<S>>(values: &[i32]) {
    let sum: i32 = values.iter().sum();
    let mut w = W::new();
    for &v in values {
        w.push(v);
    }
    assert_eq!(w.len(), values.len());
    assert_eq!(w.query(), sum);
    for _ in values {
        w.pop();
    }
    assert_eq!(w.query(), 0);
    assert!(w.is_empty());
}

#[test]
fn thousand_small_values_every_engine() {
    let mut rng = rand::thread_rng();
    let values: Vec<i32> = (0..1000).map(|_| rng.gen_range(1, 5)).collect();
    small_values::<ReCalc<S>>(&values);
    small_values::<SoE<S>>(&values);
    small_values::<TwoStacks<S>>(&values);
    small_values::<TwoStacksLite<S>>(&values);
    small_values::<Reactive<S>>(&values);
    small_values::<FlatFIT<S>>(&values);
}

fn steady<W: FifoWindow<S>>(value: i32) {
    let mut w = W::new();
    for _ in 0..1000 {
        w.push(value);
    }
    let initial = w.query();
    assert_eq!(initial, 1000 * value);
    for _ in 0..1000 {
        w.push(value);
        w.pop();
        assert_eq!(w.query(), initial);
    }
}

#[test]
fn steady_cycles_every_engine() {
    steady::<ReCalc<S>>(7);
    steady::<SoE<S>>(7);
    steady::<TwoStacks<S>>(7);
    steady::<TwoStacksLite<S>>(7);
    steady::<Reactive<S>>(7);
    steady::<FlatFIT<S>>(7);
}

/// Fills a window with 1K random elements and pushes them again while popping.
fn rotate<W: FifoWindow<S>>(values: &[i32]) {
    let sum: i32 = values.iter().sum();
    let mut w = W::new();
    for &v in values {
        w.push(v);
    }
    for &v in values {
        w.push(v);
        w.pop();
        assert_eq!(w.query(), sum);
    }
}

#[test]
fn rotation_keeps_sum_every_engine() {
    let mut rng = rand::thread_rng();
    let values: Vec<i32> = (0..1000).map(|_| rng.gen_range(1, 5)).collect();
    rotate::<ReCalc<S>>(&values);
    rotate::<SoE<S>>(&values);
    rotate::<TwoStacks<S>>(&values);
    rotate::<TwoStacksLite<S>>(&values);
    rotate::<Reactive<S>>(&values);
    rotate::<FlatFIT<S>>(&values);
}

#[test]
fn reactive_wraps_and_resizes() {
    let mut w = Reactive::<S>::with_capacity(2);
    w.push(10);
    w.push(20);
    w.push(30);
    w.pop();
    w.push(40);
    w.pop();
    w.push(50);
    assert_eq!(w.query(), 120);
    assert_eq!(w.len(), 3);
}

fn mean_scenario<W: FifoWindow<A>>() {
    let mut w = W::new();
    w.push(2);
    w.push(4);
    w.push(6);
    assert_eq!(w.query(), 4);
    w.pop();
    assert_eq!(w.query(), 5);
    w.pop();
    assert_eq!(w.query(), 6);
}

#[test]
fn mean_scenario_engines() {
    mean_scenario::<ReCalc<A>>();
    mean_scenario::<TwoStacks<A>>();
    mean_scenario::<TwoStacksLite<A>>();
    mean_scenario::<Reactive<A>>();
    mean_scenario::<SoE<A>>();
    mean_scenario::<FlatFIT<A>>();
}

#[test]
fn mean_of_empty_window_is_zero() {
    let mut w = ReCalc::<A>::new();
    assert_eq!(w.query(), 0);
    let mut s = SoE::<A>::new();
    s.push(5);
    s.pop();
    assert_eq!(s.query(), 0);
}

#[test]
fn mean_rounds_toward_zero() {
    let mut w = TwoStacks::<A>::new();
    w.push(-3);
    w.push(-4);
    assert_eq!(w.query(), -3);
    w.push(10);
    assert_eq!(w.query(), 1);
}

fn empty_identity<W: FifoWindow<S>, X: FifoWindow<M>>() {
    assert_eq!(W::new().query(), 0);
    assert_eq!(X::new().query(), i32::MIN);
}

#[test]
fn empty_window_queries_identity() {
    empty_identity::<ReCalc<S>, ReCalc<M>>();
    empty_identity::<TwoStacks<S>, TwoStacks<M>>();
    empty_identity::<TwoStacksLite<S>, TwoStacksLite<M>>();
    empty_identity::<Reactive<S>, Reactive<M>>();
    empty_identity::<FlatFIT<S>, FlatFIT<M>>();
    assert_eq!(SoE::<S>::new().query(), 0);
}

fn pop_past_empty<W: FifoWindow<S>>() {
    let mut w = W::new();
    w.push(0);
    w.push(0);
    w.pop();
    w.pop();
    w.pop();
    assert_eq!(w.len(), 0);
    assert!(w.is_empty());
    assert_eq!(w.query(), 0);
    w.push(2);
    assert_eq!(w.query(), 2);
}

#[test]
fn pop_past_empty_every_engine() {
    pop_past_empty::<ReCalc<S>>();
    pop_past_empty::<SoE<S>>();
    pop_past_empty::<TwoStacks<S>>();
    pop_past_empty::<TwoStacksLite<S>>();
    pop_past_empty::<Reactive<S>>();
    pop_past_empty::<FlatFIT<S>>();
}

fn short_traces<W: FifoWindow<S>>() {
    let mut w = W::new();
    w.push(1);
    w.push(2);
    w.push(3);
    w.pop();
    w.push(4);
    w.push(5);
    assert_eq!(w.query(), 14);
    let mut w = W::new();
    w.push(1);
    w.push(2);
    w.push(3);
    w.pop();
    w.pop();
    assert_eq!(w.query(), 3);
    let mut w = W::new();
    w.push(1);
    w.pop();
    w.push(2);
    assert_eq!(w.query(), 2);
}

#[test]
fn short_traces_every_engine() {
    short_traces::<ReCalc<S>>();
    short_traces::<SoE<S>>();
    short_traces::<TwoStacks<S>>();
    short_traces::<TwoStacksLite<S>>();
    short_traces::<Reactive<S>>();
    short_traces::<FlatFIT<S>>();
}

fn running<W: FifoWindow<S>, X: FifoWindow<M>>() {
    let top = 1000;
    let mut w = W::new();
    let mut running_sum = 0;
    for i in 0..=top {
        w.push(i);
        running_sum += i;
        assert_eq!(w.query(), running_sum);
    }
    for i in 0..=top {
        w.pop();
        running_sum -= i;
        assert_eq!(w.query(), running_sum);
    }
    let mut x = X::new();
    for i in 0..=top {
        x.push(i);
        assert_eq!(x.query(), i);
    }
    for _ in 0..=top {
        assert_eq!(x.query(), top);
        x.pop();
    }
}

#[test]
fn running_sum_and_max_engines() {
    running::<ReCalc<S>, ReCalc<M>>();
    running::<TwoStacks<S>, TwoStacks<M>>();
    running::<TwoStacksLite<S>, TwoStacksLite<M>>();
    running::<Reactive<S>, Reactive<M>>();
    running::<FlatFIT<S>, FlatFIT<M>>();
}

#[test]
fn query_twice_gives_same_value() {
    let mut w = FlatFIT::<S>::new();
    for v in 1..=50 {
        w.push(v);
        if v % 7 == 0 {
            w.pop();
        }
    }
    let first = w.query();
    assert_eq!(w.query(), first);
    w.push(3);
    let second = w.query();
    assert_eq!(second, first + 3);
    assert_eq!(w.query(), second);
}

/// Random traces that cross the grow and shrink thresholds give the same
/// queries on every engine as on ReCalc.
#[test]
fn engines_agree_on_random_traces() {
    let mut rng = rand::thread_rng();
    let mut base = ReCalc::<S>::new();
    let mut soe = SoE::<S>::new();
    let mut ts = TwoStacks::<S>::new();
    let mut tsl = TwoStacksLite::<S>::new();
    let mut re = Reactive::<S>::new();
    let mut ff = FlatFIT::<S>::new();
    let mut base_max = ReCalc::<M>::new();
    let mut re_max = Reactive::<M>::new();
    let mut ff_max = FlatFIT::<M>::new();
    for step in 0..5000 {
        let grow = (step / 500) % 2 == 0;
        let push = rng.gen_range(0, 10) < if grow { 7 } else { 3 };
        if push {
            let v: i32 = rng.gen_range(-1000, 1000);
            base.push(v);
            soe.push(v);
            ts.push(v);
            tsl.push(v);
            re.push(v);
            ff.push(v);
            base_max.push(v);
            re_max.push(v);
            ff_max.push(v);
        } else {
            base.pop();
            soe.pop();
            ts.pop();
            tsl.pop();
            re.pop();
            ff.pop();
            base_max.pop();
            re_max.pop();
            ff_max.pop();
        }
        let expected = base.query();
        assert_eq!(soe.query(), expected);
        assert_eq!(ts.query(), expected);
        assert_eq!(tsl.query(), expected);
        assert_eq!(re.query(), expected);
        assert_eq!(ff.query(), expected);
        assert_eq!(re.len(), base.len());
        assert_eq!(ff.len(), base.len());
        let expected_max = base_max.query();
        assert_eq!(re_max.query(), expected_max);
        assert_eq!(ff_max.query(), expected_max);
    }
}

#[test]
fn sum_wraps_around_on_overflow() {
    let mut w = SoE::<S>::new();
    w.push(i32::MAX);
    w.push(1);
    assert_eq!(w.query(), i32::MIN);
    w.pop();
    assert_eq!(w.query(), 1);
}

#[test]
fn remaining_names() {
    assert_eq!(<TwoStacksLite<S> as FifoWindow<S>>::name(), "two_stacks_lite");
    assert_eq!(S::name(), "sum");
    assert_eq!(M::name(), "max");
    assert_eq!(A::name(), "mean");
}
