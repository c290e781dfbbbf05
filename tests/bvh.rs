use raytracer::bvh::{build, BvhNode, CornerKey, MAX_SPLIT_DEPTH};
use raytracer::sort_key::order_key;

fn key(x: f64, y: f64, z: f64) -> CornerKey {
    CornerKey {
        x: order_key(x.to_bits()),
        y: order_key(y.to_bits()),
        z: order_key(z.to_bits()),
    }
}

fn collect(node: &BvhNode, out: &mut Vec<usize>) {
    match node {
        BvhNode::Item(e) => out.push(*e),
        BvhNode::Group(v) => out.extend(v.iter().copied()),
        BvhNode::Split(l, r) => {
            collect(l, out);
            collect(r, out);
        }
    }
}

fn count_groups(node: &BvhNode) -> usize {
    match node {
        BvhNode::Group(_) => 1,
        BvhNode::Split(l, r) => count_groups(l) + count_groups(r),
        BvhNode::Item(_) => 0,
    }
}

fn split_levels(node: &BvhNode) -> usize {
    match node {
        BvhNode::Split(l, r) => 1 + split_levels(l).max(split_levels(r)),
        _ => 0,
    }
}

/// Checks the median-split rules at every node and returns the elements.
fn check_node(node: &BvhNode, keys: &[CornerKey], depth: usize) -> Vec<usize> {
    match node {
        BvhNode::Item(e) => vec![*e],
        BvhNode::Group(v) => {
            assert!(depth >= MAX_SPLIT_DEPTH);
            assert!(v.len() >= 2);
            v.clone()
        }
        BvhNode::Split(l, r) => {
            assert!(depth < MAX_SPLIT_DEPTH);
            let left = check_node(l, keys, depth + 1);
            let right = check_node(r, keys, depth + 1);
            assert_eq!(left.len(), (left.len() + right.len()) / 2);
            let axis = depth % 3;
            let max_left = left.iter().map(|&e| keys[e].along(axis)).max().unwrap();
            let min_right = right.iter().map(|&e| keys[e].along(axis)).min().unwrap();
            assert!(max_left <= min_right);
            let mut all = left;
            all.extend(right);
            all
        }
    }
}

/// A small deterministic generator, so that the tests need no random source.
fn scatter_coordinates(n: usize) -> Vec<CornerKey> {
    let mut state: u64 = 0x2545_f491_4f6c_dd1d;
    let mut next = move || {
        state ^= state << 13;
        state ^= state >> 7;
        state ^= state << 17;
        (state % 20_000) as f64 / 1000.0 - 10.0
    };
    (0..n).map(|_| key(next(), next(), next())).collect()
}

#[test]
fn empty_input_builds_nothing() {
    assert!(build(&vec![]).is_none());
}

#[test]
fn single_element_stands_alone() {
    let keys = vec![key(1.0, 2.0, 3.0)];
    assert!(matches!(build(&keys), Some(BvhNode::Item(0))));
}

#[test]
fn two_elements_split_along_x_by_key() {
    let keys = vec![key(5.0, 0.0, 0.0), key(2.0, 0.0, 0.0)];
    match build(&keys) {
        Some(BvhNode::Split(l, r)) => {
            assert!(matches!(*l, BvhNode::Item(1)));
            assert!(matches!(*r, BvhNode::Item(0)));
        }
        other => panic!("unexpected hierarchy {:?}", other),
    }
}

#[test]
fn negative_coordinates_sort_before_positive_ones() {
    let keys = vec![key(0.5, 0.0, 0.0), key(-3.0, 0.0, 0.0), key(-0.25, 0.0, 0.0)];
    let node = build(&keys).unwrap();
    let mut order = Vec::new();
    collect(&node, &mut order);
    // Three elements: the lowest key goes left alone, the other two are
    // split along y, where they are equal.
    assert_eq!(order[0], 1);
    let mut rest = vec![order[1], order[2]];
    rest.sort();
    assert_eq!(rest, vec![0, 2]);
}

#[test]
fn second_level_splits_along_y() {
    // Four elements: x puts {0, 1} left and {2, 3} right; y then orders each half.
    let keys = vec![
        key(0.0, 9.0, 0.0),
        key(1.0, -9.0, 0.0),
        key(2.0, 4.0, 0.0),
        key(3.0, 1.0, 0.0),
    ];
    let node = build(&keys).unwrap();
    let mut order = Vec::new();
    collect(&node, &mut order);
    assert_eq!(order, vec![1, 0, 3, 2]);
}

#[test]
fn every_element_is_kept_once() {
    let keys = scatter_coordinates(487);
    let node = build(&keys).unwrap();
    let mut elements = check_node(&node, &keys, 0);
    elements.sort();
    assert_eq!(elements, (0..keys.len()).collect::<Vec<_>>());
}

#[test]
fn depth_stops_at_cutoff_with_groups() {
    let keys = scatter_coordinates(300);
    let node = build(&keys).unwrap();
    assert_eq!(split_levels(&node), MAX_SPLIT_DEPTH);
    assert_eq!(count_groups(&node), 64);
}

#[test]
fn equal_keys_are_split_at_the_median() {
    let keys = vec![key(1.0, 1.0, 1.0); 5];
    let node = build(&keys).unwrap();
    let mut elements = check_node(&node, &keys, 0);
    elements.sort();
    assert_eq!(elements, vec![0, 1, 2, 3, 4]);
    match node {
        BvhNode::Split(l, r) => {
            let (mut a, mut b) = (Vec::new(), Vec::new());
            collect(&l, &mut a);
            collect(&r, &mut b);
            assert_eq!(a.len(), 2);
            assert_eq!(b.len(), 3);
        }
        other => panic!("unexpected hierarchy {:?}", other),
    }
}

#[test]
fn forty_elements_need_no_group() {
    // Halving 40 elements six times leaves single elements before the cutoff.
    let keys = scatter_coordinates(40);
    let node = build(&keys).unwrap();
    let mut elements = check_node(&node, &keys, 0);
    elements.sort();
    assert_eq!(elements, (0..40).collect::<Vec<_>>());
    assert_eq!(count_groups(&node), 0);
    assert_eq!(split_levels(&node), MAX_SPLIT_DEPTH);
}
