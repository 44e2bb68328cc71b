use pegasus_operator::operator::add_busy;
use pegasus_operator::merge::{MultiInputsMerge, MultiOutputsMerge};
use pegasus_operator::notification::{CancelScope, EndScope};
use pegasus_operator::notify::DefaultNotify;
use pegasus_operator::tag::{Tag, Weight};

fn end(port: usize, t: &[u32], ids: &[u64]) -> EndScope {
    EndScope::new(port, Tag::new(t.to_vec()), Weight { contributors: ids.to_vec() })
}

fn sorted(w: &Weight) -> Vec<u64> {
    let mut v = w.contributors.clone();
    v.sort();
    v.dedup();
    v
}

#[test]
fn fan_in_needs_every_port_in_any_order() {
    let mut m = MultiInputsMerge::new(3, 2);
    assert!(m.merge_end(end(2, &[1, 1], &[30])).is_none());
    assert!(m.merge_end(end(0, &[1, 1], &[10])).is_none());
    let r = m.merge_end(end(1, &[1, 1], &[20])).unwrap();
    assert_eq!(r.port, 2);
    assert_eq!(r.tag.indices, vec![1, 1]);
    assert_eq!(sorted(&r.weight), vec![10, 20, 30]);
}

#[test]
fn fan_in_ignores_a_repeated_port() {
    let mut m = MultiInputsMerge::new(2, 1);
    assert!(m.merge_end(end(0, &[4], &[1])).is_none());
    assert!(m.merge_end(end(0, &[4], &[1])).is_none());
    assert!(m.merge_end(end(1, &[4], &[2])).is_some());
}

#[test]
fn fan_in_keeps_depths_apart() {
    let mut m = MultiInputsMerge::new(2, 2);
    assert!(m.merge_end(end(0, &[1], &[1])).is_none());
    assert!(m.merge_end(end(1, &[1, 0], &[1])).is_none());
    assert!(m.merge_end(end(1, &[], &[1])).is_none());
    assert!(m.merge_end(end(1, &[1], &[2])).is_some());
    assert!(m.merge_end(end(0, &[1, 0], &[2])).is_some());
    assert_eq!(m.depth_bound(), 2);
}

#[test]
fn fan_in_scopes_restart_after_completion() {
    let mut m = MultiInputsMerge::new(2, 0);
    assert!(m.merge_end(end(0, &[], &[1])).is_none());
    assert!(m.merge_end(end(1, &[], &[2])).is_some());
    assert!(m.merge_end(end(1, &[], &[3])).is_none());
}

#[test]
fn fan_out_needs_every_port() {
    let mut m = MultiOutputsMerge::new(2, 1);
    assert!(m.merge_cancel(CancelScope::new(1, Tag::new(vec![3]))).is_none());
    assert!(m.merge_cancel(CancelScope::new(1, Tag::new(vec![3]))).is_none());
    let t = m.merge_cancel(CancelScope::new(0, Tag::new(vec![3]))).unwrap();
    assert_eq!(t.indices, vec![3]);
}

#[test]
fn strategy_follows_port_counts() {
    assert!(matches!(DefaultNotify::new(1, 1, 0), DefaultNotify::SISO));
    assert!(matches!(DefaultNotify::new(2, 1, 0), DefaultNotify::MISO(_)));
    assert!(matches!(DefaultNotify::new(1, 2, 0), DefaultNotify::SIMO(_)));
    assert!(matches!(DefaultNotify::new(3, 4, 0), DefaultNotify::MIMO(_, _)));
    assert!(matches!(DefaultNotify::new(0, 0, 0), DefaultNotify::SISO));
}

#[test]
fn single_single_strategy_passes_at_once() {
    let mut n = DefaultNotify::new(1, 1, 0);
    let r = n.merge_end(end(0, &[7, 7], &[4])).unwrap();
    assert_eq!(r.tag.indices, vec![7, 7]);
    assert_eq!(sorted(&r.weight), vec![4]);
    let t = n.merge_cancel(CancelScope::new(0, Tag::new(vec![7]))).unwrap();
    assert_eq!(t.indices, vec![7]);
}

#[test]
fn weight_merge_is_order_independent() {
    let a = Weight { contributors: vec![1, 2] };
    let b = Weight { contributors: vec![2, 3] };
    let c = Weight { contributors: vec![5] };
    let mut x = a.copy();
    x.merge(&b);
    x.merge(&c);
    let mut y = c.copy();
    y.merge(&b);
    y.merge(&a);
    let mut bc = b.copy();
    bc.merge(&c);
    let mut z = a.copy();
    z.merge(&bc);
    assert_eq!(sorted(&x), vec![1, 2, 3, 5]);
    assert_eq!(sorted(&x), sorted(&y));
    assert_eq!(sorted(&x), sorted(&z));
}

#[test]
fn weight_single_and_contains() {
    let w = Weight::single(9);
    assert!(w.contains(9));
    assert!(!w.contains(8));
    assert!(!Weight::empty().contains(9));
}

#[test]
fn tags_compare_by_indices() {
    assert!(Tag::new(vec![1, 2]).same_as(&Tag::new(vec![1, 2])));
    assert!(!Tag::new(vec![1, 2]).same_as(&Tag::new(vec![1])));
    assert!(!Tag::new(vec![1, 2]).same_as(&Tag::new(vec![1, 3])));
    assert_eq!(Tag::new(vec![4, 5, 6]).len(), 3);
}

#[test]
fn busy_time_adds_and_saturates() {
    assert_eq!(add_busy(10, 5), 15);
    assert_eq!(add_busy(u128::MAX - 1, 5), u128::MAX);
    assert_eq!(add_busy(0, 0), 0);
}
