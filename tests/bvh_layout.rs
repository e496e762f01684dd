use rtweekend::bvh::{BvhChild, BvhLayout, BvhNode};
use rtweekend::random::random_int;

fn collect(nodes: &Vec<BvhNode>, c: BvhChild, out: &mut Vec<usize>) {
    match c {
        BvhChild::Primitive(p) => out.push(p),
        BvhChild::Node(k) => {
            collect(nodes, nodes[k].left, out);
            collect(nodes, nodes[k].right, out);
        }
    }
}

fn leaves(layout: &BvhLayout) -> Vec<usize> {
    let mut out = Vec::new();
    let root = layout.nodes.len() - 1;
    collect(&layout.nodes, BvhChild::Node(root), &mut out);
    out
}

#[test]
fn empty_list_has_no_hierarchy() {
    assert!(BvhLayout::build(&vec![]).is_none());
}

#[test]
fn single_primitive_held_twice() {
    let layout = BvhLayout::build(&vec![[3, 4, 5]]).unwrap();
    assert_eq!(
        layout.nodes,
        vec![BvhNode { left: BvhChild::Primitive(0), right: BvhChild::Primitive(0) }]
    );
}

#[test]
fn two_primitives_one_node() {
    let layout = BvhLayout::build(&vec![[9, 9, 9], [0, 0, 0]]).unwrap();
    assert_eq!(
        layout.nodes,
        vec![BvhNode { left: BvhChild::Primitive(0), right: BvhChild::Primitive(1) }]
    );
}

#[test]
fn every_primitive_reached() {
    let keys: Vec<[i32; 3]> = (0..37).map(|i| [(i * 7) % 11, (i * 5) % 13, 36 - i]).collect();
    let layout = BvhLayout::build(&keys).unwrap();
    let mut found = leaves(&layout);
    found.sort();
    found.dedup();
    let expected: Vec<usize> = (0..37).collect();
    assert_eq!(found, expected);
    for (i, node) in layout.nodes.iter().enumerate() {
        for c in [node.left, node.right] {
            match c {
                BvhChild::Primitive(p) => assert!(p < 37),
                BvhChild::Node(k) => assert!(k < i),
            }
        }
    }
}

#[test]
fn inner_nodes_split_along_an_axis() {
    let keys: Vec<[i32; 3]> = (0..20).map(|i| [i, 19 - i, (i * 3) % 7]).collect();
    let layout = BvhLayout::build(&keys).unwrap();
    for node in layout.nodes.iter() {
        if let (BvhChild::Node(_), BvhChild::Node(_)) = (node.left, node.right) {
            let mut l = Vec::new();
            let mut r = Vec::new();
            collect(&layout.nodes, node.left, &mut l);
            collect(&layout.nodes, node.right, &mut r);
            let ok = (0..3).any(|a| l.iter().all(|&p| r.iter().all(|&q| keys[p][a] <= keys[q][a])));
            assert!(ok);
            l.sort();
            l.dedup();
            r.sort();
            r.dedup();
            assert!(l.len() <= r.len() && r.len() <= l.len() + 1);
        }
    }
}

#[test]
fn random_int_stays_in_range() {
    for _ in 0..200 {
        let v = random_int(0, 2);
        assert!((0..=2).contains(&v));
    }
    assert_eq!(random_int(5, 5), 5);
}

#[test]
fn nodes_are_leaves_or_disjoint_splits() {
    let keys: Vec<[i32; 3]> = vec![[0, 0, 0]; 9];
    let layout = BvhLayout::build(&keys).unwrap();
    for node in layout.nodes.iter() {
        match (node.left, node.right) {
            (BvhChild::Primitive(_), BvhChild::Primitive(_)) => {}
            (BvhChild::Node(_), BvhChild::Node(_)) => {
                let mut l = Vec::new();
                let mut r = Vec::new();
                collect(&layout.nodes, node.left, &mut l);
                collect(&layout.nodes, node.right, &mut r);
                assert!(l.iter().all(|p| !r.contains(p)));
                l.extend(r);
                l.sort();
                l.dedup();
                assert!(l.len() >= 3);
            }
            _ => panic!("a node mixes a primitive and a subtree"),
        }
    }
}
