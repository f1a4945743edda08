use rand::Rng;
use swag::flatfit::FlatFIT;
use swag::ops::Sum;
use swag::reactive::Reactive;
use swag::recalc::ReCalc;
use swag::soe::SoE;
use swag::two_stacks::TwoStacks;
use swag::two_stacks_lite::TwoStacksLite;
use swag::FifoWindow;

type S = Sum<i32, i32>;

/// Basic test for integer sums.
fn test1<Window>()
where
    Window: FifoWindow<S>,
{
    let mut window = Window::new();
    assert_eq!(window.query(), 0);
    window.push(1);
    assert_eq!(window.query(), 1);
    window.push(2);
    assert_eq!(window.query(), 3);
    window.push(3);
    assert_eq!(window.query(), 6);
    window.pop();
    assert_eq!(window.query(), 5);
}

fn synthesize(size: usize) -> Vec<i32> {
    let mut rng = rand::thread_rng();
    (0..size).map(|_| rng.gen_range(1, 5)).collect::<Vec<_>>()
}

/// Aggregates the sum of 1K randomly generated integers.
fn test2<Window>()
where
    Window: FifoWindow<S>,
{
    let values = synthesize(1_000);
    let sum: i32 = values.iter().sum();
    let mut window = Window::new();
    for v in values.clone() {
        window.push(v);
    }
    assert_eq!(window.query(), sum);
    for _ in values {
        window.pop();
    }
    assert_eq!(window.query(), 0);
}

#[test]
fn test1_recalc() {
    test1::<ReCalc<S>>();
}

#[test]
fn test2_recalc() {
    test2::<ReCalc<S>>();
}

#[test]
fn test1_soe() {
    test1::<SoE<S>>();
}

#[test]
fn test2_soe() {
    test2::<SoE<S>>();
}

#[test]
fn test1_two_stacks() {
    test1::<TwoStacks<S>>();
}

#[test]
fn test2_two_stacks() {
    test2::<TwoStacks<S>>();
}

#[test]
fn test1_reactive() {
    test1::<Reactive<S>>();
}

#[test]
fn test2_reactive() {
    test2::<Reactive<S>>();
}

#[test]
fn test1_two_stacks_lite() {
    test1::<TwoStacksLite<S>>();
}

#[test]
fn test2_two_stacks_lite() {
    test2::<TwoStacksLite<S>>();
}

#[test]
fn test1_flatfit() {
    test1::<FlatFIT<S>>();
}

#[test]
fn test2_flatfit() {
    test2::<FlatFIT<S>>();
}

#[test]
fn assert_names() {
    assert_eq!(<ReCalc<S> as FifoWindow<S>>::name(), "recalc");
    assert_eq!(<FlatFIT<S> as FifoWindow<S>>::name(), "flatfit");
    assert_eq!(<Reactive<S> as FifoWindow<S>>::name(), "reactive");
    assert_eq!(<TwoStacks<S> as FifoWindow<S>>::name(), "two_stacks");
    assert_eq!(<SoE<S> as FifoWindow<S>>::name(), "soe");
}
