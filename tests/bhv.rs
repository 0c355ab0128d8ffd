use mulambda::bhv::{order_key, Node, BHV};
use mulambda::rngator::{Rngator, SeedableRngator};

fn key(x: f64) -> u64 {
    order_key(x.to_bits())
}

fn leaves(n: &Node, out: &mut Vec<usize>) {
    match n {
        Node::Leaf { item } => out.push(*item),
        Node::Inner { left, right, .. } => {
            leaves(left, out);
            leaves(right, out);
        }
    }
}

fn shape(n: &Node) -> String {
    match n {
        Node::Leaf { item } => format!("{}", item),
        Node::Inner { axis, left, right } => format!("({}:{} {})", axis, shape(left), shape(right)),
    }
}

/// Checks the split rule at every inner node; returns the leaves below.
fn check_splits(n: &Node, keys: &Vec<[u64; 3]>) -> Vec<usize> {
    match n {
        Node::Leaf { item } => vec![*item],
        Node::Inner { axis, left, right } => {
            let l = check_splits(left, keys);
            let r = check_splits(right, keys);
            assert!(*axis < 3);
            assert_eq!(l.len(), (l.len() + r.len()) / 2);
            for a in &l {
                for b in &r {
                    assert!(keys[*a][*axis] <= keys[*b][*axis]);
                }
            }
            let mut all = l;
            all.extend(r);
            all
        }
    }
}

fn corner_keys(corners: &[[f64; 3]]) -> Vec<[u64; 3]> {
    corners.iter().map(|c| [key(c[0]), key(c[1]), key(c[2])]).collect()
}

#[test]
fn order_key_follows_float_order() {
    let xs = [f64::NEG_INFINITY, -1e300, -2.5, -1.0, -1e-300, 0.0, 1e-300, 0.5, 1.0, 3.0, 1e300, f64::INFINITY];
    for w in xs.windows(2) {
        assert!(key(w[0]) < key(w[1]), "{} {}", w[0], w[1]);
    }
    assert_eq!(key(0.0), key(-0.0));
    assert_eq!(key(0.0), 1u64 << 63);
    assert_eq!(key(1.0), (1u64 << 63) + 1.0f64.to_bits());
    assert_eq!(key(-1.0), (1u64 << 63) - 1.0f64.to_bits());
}

#[test]
fn order_key_of_nan_does_not_panic() {
    let _ = key(f64::NAN);
    let _ = key(-f64::NAN);
}

#[test]
fn single_primitive_is_a_leaf() {
    let keys = corner_keys(&[[1.0, 2.0, 3.0]]);
    let mut rng = SeedableRngator::new(0).rng(0);
    let t = BHV::new(&keys, &mut rng);
    assert!(matches!(t.root, Node::Leaf { item: 0 }));
}

#[test]
fn every_primitive_in_exactly_one_leaf() {
    // The spheres of a small scene, by their boxes' minimum corners.
    let corners = [
        [-100.0, -200.5, -101.0],
        [-0.5, -0.5, -1.5],
        [-1.5, -0.5, -1.5],
        [-1.4, -0.4, -1.4],
        [0.5, -0.5, -1.5],
    ];
    let keys = corner_keys(&corners);
    for seed in 0..20u64 {
        let mut rng = SeedableRngator::new(seed).rng(0);
        let t = BHV::new(&keys, &mut rng);
        let mut got = Vec::new();
        leaves(&t.root, &mut got);
        got.sort();
        assert_eq!(got, vec![0, 1, 2, 3, 4]);
        check_splits(&t.root, &keys);
    }
}

#[test]
fn split_halves_follow_the_keys() {
    // Many primitives on a diagonal line: every split along any axis puts
    // the lower indices on the left.
    let corners: Vec<[f64; 3]> = (0..37).map(|i| [i as f64, 2.0 * i as f64, -(i as f64) * -1.0]).collect();
    let keys = corner_keys(&corners);
    let mut rng = SeedableRngator::new(11).rng(0);
    let t = BHV::new(&keys, &mut rng);
    let mut got = Vec::new();
    leaves(&t.root, &mut got);
    assert_eq!(got, (0..37).collect::<Vec<usize>>());
    check_splits(&t.root, &keys);
}

#[test]
fn equal_keys_keep_their_order() {
    let corners = vec![[1.0, 1.0, 1.0]; 6];
    let keys = corner_keys(&corners);
    let mut rng = SeedableRngator::new(5).rng(0);
    let t = BHV::new(&keys, &mut rng);
    let mut got = Vec::new();
    leaves(&t.root, &mut got);
    assert_eq!(got, vec![0, 1, 2, 3, 4, 5]);
}

#[test]
fn same_seed_same_tree() {
    let corners: Vec<[f64; 3]> = (0..50).map(|i| {
        let f = i as f64;
        [(f * 7.3) % 11.0, (f * 3.1) % 5.0, -(f * 1.7) % 13.0]
    }).collect();
    let keys = corner_keys(&corners);
    let a = BHV::new(&keys, &mut SeedableRngator::new(99).rng(0));
    let b = BHV::new(&keys, &mut SeedableRngator::new(99).rng(0));
    assert_eq!(shape(&a.root), shape(&b.root));
    check_splits(&a.root, &keys);
}
