use raytracer::bvh::{BvhNode, BvhTree, PrimKey};

fn key(x: u32, y: u32, z: u32) -> PrimKey {
    PrimKey { x, y, z }
}

fn key_on(k: &PrimKey, axis: u8) -> u32 {
    match axis {
        0 => k.x,
        1 => k.y,
        _ => k.z,
    }
}

/// Walks the subtree under `start` and collects the leaf items, checking
/// the arena shape on the way down.
fn leaves_under(t: &BvhTree, start: usize) -> Vec<usize> {
    let mut found = Vec::new();
    let mut stack = vec![start];
    while let Some(k) = stack.pop() {
        match t.node(k) {
            BvhNode::Leaf { item } => {
                assert!(item < t.item_count());
                found.push(item);
            }
            BvhNode::Branch { left, right, .. } => {
                assert!(left < k && right < k);
                stack.push(left);
                stack.push(right);
            }
        }
    }
    found
}

fn collect_leaves(t: &BvhTree) -> Vec<usize> {
    leaves_under(t, t.root())
}

#[test]
fn empty_scene_has_no_tree() {
    assert!(BvhTree::new(&Vec::new()).is_none());
}

#[test]
fn single_primitive_is_one_leaf() {
    let t = BvhTree::new(&vec![key(5, 6, 7)]).unwrap();
    assert_eq!(t.node_count(), 1);
    assert_eq!(t.item_count(), 1);
    assert_eq!(collect_leaves(&t), vec![0]);
}

#[test]
fn every_primitive_appears_exactly_once() {
    let keys = vec![
        key(10, 0, 3),
        key(7, 2, 9),
        key(3, 8, 1),
        key(12, 5, 5),
        key(1, 1, 1),
        key(7, 2, 9),
        key(0, 0, 0),
    ];
    let t = BvhTree::new(&keys).unwrap();
    assert_eq!(t.node_count(), 2 * keys.len() - 1);
    let mut leaves = collect_leaves(&t);
    leaves.sort();
    let all: Vec<usize> = (0..keys.len()).collect();
    assert_eq!(leaves, all);
}

#[test]
fn duplicate_keys_still_cover_the_scene() {
    let keys = vec![key(4, 4, 4); 6];
    let t = BvhTree::new(&keys).unwrap();
    assert_eq!(t.node_count(), 11);
    let mut leaves = collect_leaves(&t);
    leaves.sort();
    assert_eq!(leaves, vec![0, 1, 2, 3, 4, 5]);
}

#[test]
fn branches_split_along_their_axis() {
    let keys = vec![
        key(9, 20, 300),
        key(2, 80, 100),
        key(5, 10, 900),
        key(7, 40, 200),
        key(1, 60, 700),
        key(8, 30, 500),
    ];
    let t = BvhTree::new(&keys).unwrap();
    for k in 0..t.node_count() {
        if let BvhNode::Branch { axis, left, right } = t.node(k) {
            assert!(axis < 3);
            for a in leaves_under(&t, left) {
                for b in leaves_under(&t, right) {
                    assert!(key_on(&keys[a], axis) <= key_on(&keys[b], axis));
                }
            }
        }
    }
}
