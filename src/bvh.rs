//! The shape of a bounding-volume hierarchy: which primitives each node
//! holds, built by median splits along a randomly chosen axis.

use crate::random::random_int;
use vstd::prelude::*;

verus! {

/// One child of a hierarchy node.
#[derive(Debug, Clone, Copy, PartialEq, Eq, Structural)]
pub enum BvhChild {
    /// A primitive, by its position in the scene's primitive list.
    Primitive(usize),
    /// Another node, by its position in the layout.
    Node(usize),
}

/// A node of the hierarchy. A node over a single primitive holds it on
/// both sides.
#[derive(Debug, Clone, Copy, PartialEq, Eq, Structural)]
pub struct BvhNode {
    pub left: BvhChild,
    pub right: BvhChild,
}

/// A hierarchy over a list of primitives. Every node refers only to nodes
/// before it, so the root is the last node.
pub struct BvhLayout {
    pub nodes: Vec<BvhNode>,
}

/// A child that refers to a primitive among `n`, or to a node before `i`.
pub open spec fn child_valid(c: BvhChild, n: nat, i: int) -> bool {
    match c {
        BvhChild::Primitive(p) => p < n,
        BvhChild::Node(k) => k < i,
    }
}

/// Every node refers to primitives among `n` and to nodes before it.
pub open spec fn nodes_valid(nodes: Seq<BvhNode>, n: nat) -> bool {
    forall|i: int|
        0 <= i < nodes.len() ==> child_valid(#[trigger] nodes[i].left, n, i) && child_valid(
            nodes[i].right,
            n,
            i,
        )
}

/// The primitives under a child of a node at position `bound`.
pub open spec fn child_prims(nodes: Seq<BvhNode>, c: BvhChild, bound: int) -> Set<usize>
    decreases bound, 0int,
{
    match c {
        BvhChild::Primitive(p) => set![p],
        BvhChild::Node(k) => if 0 <= k < bound {
            node_prims(nodes, k as int)
        } else {
            Set::empty()
        },
    }
}

/// The primitives under node `i`.
pub open spec fn node_prims(nodes: Seq<BvhNode>, i: int) -> Set<usize>
    decreases i, 1int,
{
    if 0 <= i < nodes.len() {
        child_prims(nodes, nodes[i].left, i) + child_prims(nodes, nodes[i].right, i)
    } else {
        Set::empty()
    }
}

/// The primitives `0 .. n`.
pub open spec fn all_prims(n: nat) -> Set<usize> {
    Set::new(|p: usize| p < n)
}

/// No primitive on the left of node `i` lies above one on its right along
/// `axis`.
pub open spec fn split_along(nodes: Seq<BvhNode>, keys: Seq<[i32; 3]>, i: int, axis: int) -> bool {
    forall|p: usize, q: usize|
        child_prims(nodes, nodes[i].left, i).contains(p) && child_prims(nodes, nodes[i].right, i).contains(q)
            ==> #[trigger] keys[p as int][axis] <= #[trigger] keys[q as int][axis]
}

/// Node `i` splits its primitives along some axis.
pub open spec fn node_split(nodes: Seq<BvhNode>, keys: Seq<[i32; 3]>, i: int) -> bool {
    exists|axis: int| 0 <= axis < 3 && #[trigger] split_along(nodes, keys, i, axis)
}

/// Every node over two subtrees splits its primitives along some axis.
pub open spec fn nodes_split(nodes: Seq<BvhNode>, keys: Seq<[i32; 3]>) -> bool {
    forall|i: int| 0 <= i < nodes.len() && nodes[i].left is Node ==> #[trigger] node_split(nodes, keys, i)
}

/// Node `i`, when over two subtrees, splits its primitives at the middle:
/// the right side holds as many as the left or one more.
pub open spec fn node_balanced(nodes: Seq<BvhNode>, i: int) -> bool {
    nodes[i].left is Node ==> {
        let l = child_prims(nodes, nodes[i].left, i).len();
        let r = child_prims(nodes, nodes[i].right, i).len();
        l <= r <= l + 1
    }
}

/// Every node over two subtrees splits its primitives at the middle.
pub open spec fn nodes_balanced(nodes: Seq<BvhNode>) -> bool {
    forall|i: int| 0 <= i < nodes.len() ==> #[trigger] node_balanced(nodes, i)
}

/// Node `i` is either a leaf over one or two primitives, or an inner node
/// over two subtrees that share no primitive and hold three or more between
/// them.
pub open spec fn node_shaped(nodes: Seq<BvhNode>, i: int) -> bool {
    &&& (nodes[i].left is Primitive <==> nodes[i].right is Primitive)
    &&& nodes[i].left is Primitive ==> node_prims(nodes, i).len() <= 2
    &&& nodes[i].left is Node ==> node_prims(nodes, i).len() >= 3 && child_prims(
        nodes,
        nodes[i].left,
        i,
    ).disjoint(child_prims(nodes, nodes[i].right, i))
}

/// Every node is a leaf or an inner node as `node_shaped` says.
pub open spec fn nodes_shaped(nodes: Seq<BvhNode>) -> bool {
    forall|i: int| 0 <= i < nodes.len() ==> #[trigger] node_shaped(nodes, i)
}

/// Two equal entries at different positions count twice.
proof fn lemma_count_twice<A>(s: Seq<A>, i: int, j: int)
    requires
        0 <= i < s.len(),
        0 <= j < s.len(),
        i != j,
        s[i] == s[j],
    ensures
        s.to_multiset().count(s[i]) >= 2,
{
    broadcast use vstd::multiset::group_multiset_axioms;

    let t = s.remove(i);
    vstd::seq_lib::to_multiset_remove(s, i);
    assert(t.len() == s.len() - 1);
    let k = if j < i { j } else { j - 1 };
    assert(t[k] == s[j]);
    t.to_multiset_ensures();
    assert(t.contains(s[i]));
    assert(t.to_multiset().count(s[i]) > 0);
    assert(s.to_multiset().count(s[i]) >= 1) by {
        s.to_multiset_ensures();
        assert(s.contains(s[i]));
    }
}

/// An entry that counts twice stands at two positions.
proof fn lemma_twice_at_two<A>(s: Seq<A>, a: A)
    requires
        s.to_multiset().count(a) >= 2,
    ensures
        exists|i: int, j: int| 0 <= i < s.len() && 0 <= j < s.len() && i != j && #[trigger] s[i] == a && #[trigger] s[j] == a,
{
    broadcast use vstd::multiset::group_multiset_axioms;

    s.to_multiset_ensures();
    assert(s.contains(a));
    let i = choose|i: int| 0 <= i < s.len() && s[i] == a;
    let t = s.remove(i);
    vstd::seq_lib::to_multiset_remove(s, i);
    assert(t.len() == s.len() - 1);
    assert(t.to_multiset().count(a) >= 1);
    t.to_multiset_ensures();
    assert(t.contains(a));
    let k = choose|k: int| 0 <= k < t.len() && t[k] == a;
    let j = if k < i { k } else { k + 1 };
    assert(s[j] == a);
}

/// Extending the node list leaves what earlier nodes hold unchanged.
proof fn lemma_prims_stable(short: Seq<BvhNode>, long: Seq<BvhNode>, i: int)
    requires
        short.len() <= long.len(),
        short == long.subrange(0, short.len() as int),
        0 <= i < short.len(),
    ensures
        node_prims(long, i) == node_prims(short, i),
        child_prims(long, long[i].left, i) == child_prims(short, short[i].left, i),
        child_prims(long, long[i].right, i) == child_prims(short, short[i].right, i),
    decreases i,
{
    assert(long[i] == short[i]);
    if let BvhChild::Node(k) = short[i].left {
        if 0 <= k < i {
            lemma_prims_stable(short, long, k as int);
        }
    }
    if let BvhChild::Node(k) = short[i].right {
        if 0 <= k < i {
            lemma_prims_stable(short, long, k as int);
        }
    }
}

/// A split of an earlier node survives extending the node list.
proof fn lemma_split_stable(short: Seq<BvhNode>, long: Seq<BvhNode>, keys: Seq<[i32; 3]>, i: int)
    requires
        short.len() <= long.len(),
        short == long.subrange(0, short.len() as int),
        0 <= i < short.len(),
        node_split(short, keys, i),
    ensures
        node_split(long, keys, i),
{
    lemma_prims_stable(short, long, i);
    let axis = choose|axis: int| 0 <= axis < 3 && #[trigger] split_along(short, keys, i, axis);
    assert(split_along(long, keys, i, axis));
}

/// The balance of an earlier node survives extending the node list.
proof fn lemma_balance_stable(short: Seq<BvhNode>, long: Seq<BvhNode>, i: int)
    requires
        short.len() <= long.len(),
        short == long.subrange(0, short.len() as int),
        0 <= i < short.len(),
        node_balanced(short, i),
    ensures
        node_balanced(long, i),
{
    lemma_prims_stable(short, long, i);
}

/// The shape of an earlier node survives extending the node list.
proof fn lemma_shape_stable(short: Seq<BvhNode>, long: Seq<BvhNode>, i: int)
    requires
        short.len() <= long.len(),
        short == long.subrange(0, short.len() as int),
        0 <= i < short.len(),
        node_shaped(short, i),
    ensures
        node_shaped(long, i),
{
    lemma_prims_stable(short, long, i);
}

/// Relies on `slice::sort`: orders the pairs ascending (tuples compare by
/// their first field first) and keeps every element.
#[verifier::external_body]
fn sort_pairs(v: &mut Vec<(i32, usize)>)
    ensures
        final(v)@.to_multiset() == old(v)@.to_multiset(),
        forall|i: int, j: int| 0 <= i <= j < final(v)@.len() ==> final(v)@[i].0 <= final(v)@[j].0,
{
    v.sort()
}

/// `items` ordered by their keys along `axis`.
fn sort_by_axis(items: &Vec<usize>, keys: &Vec<[i32; 3]>, axis: usize) -> (r: Vec<usize>)
    requires
        axis < 3,
        items@.no_duplicates(),
        forall|k: int| 0 <= k < items@.len() ==> #[trigger] items@[k] < keys@.len(),
    ensures
        r@.len() == items@.len(),
        r@.no_duplicates(),
        forall|j: int| 0 <= j < r@.len() ==> #[trigger] items@.contains(r@[j]),
        forall|m: int| 0 <= m < items@.len() ==> #[trigger] r@.contains(items@[m]),
        forall|i: int, j: int|
            0 <= i <= j < r@.len() ==> #[trigger] keys@[r@[i] as int][axis as int] <= #[trigger] keys@[r@[j] as int][axis as int],
{
    let n = items.len();
    let mut pairs: Vec<(i32, usize)> = Vec::new();
    let mut k: usize = 0;
    while k < n
        invariant
            n == items@.len(),
            axis < 3,
            0 <= k <= n,
            forall|j: int| 0 <= j < items@.len() ==> #[trigger] items@[j] < keys@.len(),
            pairs@.len() == k,
            forall|j: int| 0 <= j < k ==> #[trigger] pairs@[j] == (keys@[items@[j] as int][axis as int], items@[j]),
        decreases n - k,
    {
        let item = items[k];
        pairs.push((keys[item][axis], item));
        k = k + 1;
    }
    let ghost unsorted = pairs@;
    sort_pairs(&mut pairs);
    proof {
        unsorted.to_multiset_ensures();
        pairs@.to_multiset_ensures();
        assert(pairs@.len() == n);
    }
    // Every sorted pair carries its primitive's key, and the primitives are those of `items`.
    assert forall|j: int| 0 <= j < n implies #[trigger] pairs@[j].1 < keys@.len() && pairs@[j].0
        == keys@[pairs@[j].1 as int][axis as int] && items@.contains(pairs@[j].1) by {
        assert(pairs@.contains(pairs@[j]));
        assert(pairs@.to_multiset().count(pairs@[j]) > 0);
        assert(unsorted.to_multiset().count(pairs@[j]) > 0);
        assert(unsorted.contains(pairs@[j]));
        let m = choose|m: int| 0 <= m < unsorted.len() && unsorted[m] == pairs@[j];
        assert(unsorted[m] == (keys@[items@[m] as int][axis as int], items@[m]));
    }
    assert forall|m: int| 0 <= m < n implies exists|j: int| 0 <= j < n && #[trigger] pairs@[j].1 == #[trigger] items@[m] by {
        assert(unsorted[m] == (keys@[items@[m] as int][axis as int], items@[m]));
        assert(unsorted.contains(unsorted[m]));
        assert(unsorted.to_multiset().count(unsorted[m]) > 0);
        assert(pairs@.to_multiset().count(unsorted[m]) > 0);
        assert(pairs@.contains(unsorted[m]));
        let j = choose|j: int| 0 <= j < pairs@.len() && pairs@[j] == unsorted[m];
        assert(pairs@[j].1 == items@[m]);
    }
    // No primitive is in two sorted pairs.
    assert forall|i: int, j: int| 0 <= i < n && 0 <= j < n && i != j implies #[trigger] pairs@[i].1
        != #[trigger] pairs@[j].1 by {
        if pairs@[i].1 == pairs@[j].1 {
            assert(pairs@[i] == pairs@[j]);
            lemma_count_twice(pairs@, i, j);
            lemma_twice_at_two(unsorted, pairs@[i]);
            let (a, b) = choose|a: int, b: int|
                0 <= a < unsorted.len() && 0 <= b < unsorted.len() && a != b && #[trigger] unsorted[a] == pairs@[i]
                    && #[trigger] unsorted[b] == pairs@[i];
            assert(items@[a] == items@[b]);
        }
    }
    let mut r: Vec<usize> = Vec::new();
    let mut k: usize = 0;
    while k < n
        invariant
            n == pairs@.len(),
            0 <= k <= n,
            r@.len() == k,
            forall|j: int| 0 <= j < k ==> #[trigger] r@[j] == pairs@[j].1,
        decreases n - k,
    {
        r.push(pairs[k].1);
        k = k + 1;
    }
    assert forall|m: int| 0 <= m < n implies #[trigger] r@.contains(items@[m]) by {
        let j = choose|j: int| 0 <= j < n && #[trigger] pairs@[j].1 == #[trigger] items@[m];
        assert(r@[j] == items@[m]);
    }
    assert forall|i: int, j: int| 0 <= i <= j < n implies #[trigger] keys@[r@[i] as int][axis as int]
        <= #[trigger] keys@[r@[j] as int][axis as int] by {
        assert(pairs@[i].0 <= pairs@[j].0);
    }
    assert forall|i: int, j: int| 0 <= i < n && 0 <= j < n && i != j implies r@[i] != r@[j] by {
        assert(r@[i] == pairs@[i].1 && r@[j] == pairs@[j].1);
    }
    r
}

/// The node list after adding a node over `items`, and the new node's position.
fn build_node(items: Vec<usize>, keys: &Vec<[i32; 3]>, nodes: &mut Vec<BvhNode>) -> (r: usize)
    requires
        items@.len() >= 1,
        items@.no_duplicates(),
        forall|k: int| 0 <= k < items@.len() ==> #[trigger] items@[k] < keys@.len(),
        nodes_valid(old(nodes)@, keys@.len()),
        nodes_split(old(nodes)@, keys@),
        nodes_balanced(old(nodes)@),
        nodes_shaped(old(nodes)@),
    ensures
        old(nodes)@.len() <= r,
        r + 1 == final(nodes)@.len(),
        final(nodes)@.subrange(0, old(nodes)@.len() as int) == old(nodes)@,
        nodes_valid(final(nodes)@, keys@.len()),
        nodes_split(final(nodes)@, keys@),
        nodes_balanced(final(nodes)@),
        nodes_shaped(final(nodes)@),
        node_prims(final(nodes)@, r as int) == items@.to_set(),
        items@.len() <= 2 ==> final(nodes)@ == old(nodes)@.push(
            BvhNode {
                left: BvhChild::Primitive(items@[0]),
                right: BvhChild::Primitive(items@[items@.len() - 1]),
            },
        ),
    decreases items@.len(),
{
    let ghost start = nodes@;
    let n = items.len();
    if n <= 2 {
        let first = items[0];
        let last = items[n - 1];
        nodes.push(BvhNode { left: BvhChild::Primitive(first), right: BvhChild::Primitive(last) });
        let r = nodes.len() - 1;
        proof {
            assert(nodes@.subrange(0, start.len() as int) =~= start);
            assert(node_prims(nodes@, r as int) =~= items@.to_set()) by {
                assert(items@.to_set().contains(items@[0]));
                assert(items@.to_set().contains(items@[n - 1]));
                assert forall|x: usize| items@.to_set().contains(x) implies x == first || x == last by {
                    let k = choose|k: int| 0 <= k < items@.len() && items@[k] == x;
                }
            }
            assert forall|i: int| 0 <= i < nodes@.len() && nodes@[i].left is Node implies #[trigger] node_split(
                nodes@,
                keys@,
                i,
            ) by {
                lemma_split_stable(start, nodes@, keys@, i);
            }
            assert forall|i: int| 0 <= i < nodes@.len() implies #[trigger] node_balanced(nodes@, i) by {
                if i < start.len() {
                    lemma_balance_stable(start, nodes@, i);
                }
            }
            assert(node_prims(nodes@, r as int).len() <= 2) by {
                let pair = set![first, last];
                assert(node_prims(nodes@, r as int) =~= pair);
                assert(set![first].len() == 1);
            }
            assert forall|i: int| 0 <= i < nodes@.len() implies #[trigger] node_shaped(nodes@, i) by {
                if i < start.len() {
                    lemma_shape_stable(start, nodes@, i);
                }
            }
        }
        return r;
    }
    let axis = random_int(0, 2) as usize;
    let sorted = sort_by_axis(&items, keys, axis);
    let mid = n / 2;
    let mut left: Vec<usize> = Vec::new();
    let mut right: Vec<usize> = Vec::new();
    let mut k: usize = 0;
    while k < n
        invariant
            n == sorted@.len(),
            mid == n / 2,
            0 <= k <= n,
            k <= mid ==> left@.len() == k && right@.len() == 0,
            k > mid ==> left@.len() == mid && right@.len() == k - mid,
            forall|j: int| 0 <= j < left@.len() ==> #[trigger] left@[j] == sorted@[j],
            forall|j: int| 0 <= j < right@.len() ==> #[trigger] right@[j] == sorted@[mid + j],
        decreases n - k,
    {
        if k < mid {
            left.push(sorted[k]);
        } else {
            right.push(sorted[k]);
        }
        k = k + 1;
    }
    assert forall|j: int| 0 <= j < left@.len() implies #[trigger] left@[j] < keys@.len() by {
        assert(items@.contains(sorted@[j]));
    }
    assert forall|j: int| 0 <= j < right@.len() implies #[trigger] right@[j] < keys@.len() by {
        assert(items@.contains(sorted@[mid + j]));
    }
    assert(left@.no_duplicates());
    assert(right@.no_duplicates()) by {
        assert forall|i: int, j: int| 0 <= i < right@.len() && 0 <= j < right@.len() && i != j implies right@[i]
            != right@[j] by {
            assert(right@[i] == sorted@[mid + i] && right@[j] == sorted@[mid + j]);
        }
    }
    proof {
        left@.unique_seq_to_set();
        right@.unique_seq_to_set();
    }
    let l = build_node(left, keys, nodes);
    let ghost after_left = nodes@;
    let rr = build_node(right, keys, nodes);
    let ghost after_right = nodes@;
    nodes.push(BvhNode { left: BvhChild::Node(l), right: BvhChild::Node(rr) });
    let r = nodes.len() - 1;
    proof {
        assert(after_left =~= after_right.subrange(0, after_left.len() as int));
        assert(after_right =~= nodes@.subrange(0, after_right.len() as int));
        assert(start =~= after_left.subrange(0, start.len() as int));
        assert(nodes@.subrange(0, start.len() as int) =~= start);
        assert(after_left =~= nodes@.subrange(0, after_left.len() as int));
        lemma_prims_stable(after_left, nodes@, l as int);
        lemma_prims_stable(after_right, nodes@, rr as int);
        assert(child_prims(nodes@, nodes@[r as int].left, r as int) == left@.to_set());
        assert(child_prims(nodes@, nodes@[r as int].right, r as int) == right@.to_set());
        assert(node_prims(nodes@, r as int) =~= items@.to_set()) by {
            assert forall|x: usize| items@.to_set().contains(x) implies left@.to_set().contains(x)
                || right@.to_set().contains(x) by {
                let m = choose|m: int| 0 <= m < n && items@[m] == x;
                assert(sorted@.contains(items@[m]));
                let j = choose|j: int| 0 <= j < n && sorted@[j] == items@[m];
                if j < mid {
                    assert(left@[j] == x);
                } else {
                    assert(right@[j - mid] == x);
                }
            }
            assert forall|x: usize| left@.to_set().contains(x) implies items@.to_set().contains(x) by {
                let j = choose|j: int| 0 <= j < left@.len() && left@[j] == x;
                assert(items@.contains(sorted@[j]));
            }
            assert forall|x: usize| right@.to_set().contains(x) implies items@.to_set().contains(x) by {
                let j = choose|j: int| 0 <= j < right@.len() && right@[j] == x;
                assert(items@.contains(sorted@[mid + j]));
            }
        }
        assert(split_along(nodes@, keys@, r as int, axis as int)) by {
            assert forall|p: usize, q: usize|
                left@.to_set().contains(p) && right@.to_set().contains(q) implies #[trigger] keys@[p as int][axis as int]
                <= #[trigger] keys@[q as int][axis as int] by {
                let i = choose|i: int| 0 <= i < left@.len() && left@[i] == p;
                let j = choose|j: int| 0 <= j < right@.len() && right@[j] == q;
                assert(sorted@[i] == p);
                assert(sorted@[mid + j] == q);
            }
        }
        assert forall|i: int| 0 <= i < nodes@.len() && nodes@[i].left is Node implies #[trigger] node_split(
            nodes@,
            keys@,
            i,
        ) by {
            if i < after_right.len() {
                lemma_split_stable(after_right, nodes@, keys@, i);
            }
        }
        assert(right@.len() == n - mid);
        assert forall|i: int| 0 <= i < nodes@.len() implies #[trigger] node_balanced(nodes@, i) by {
            if i < after_right.len() {
                lemma_balance_stable(after_right, nodes@, i);
            }
        }
        items@.unique_seq_to_set();
        assert(left@.to_set().disjoint(right@.to_set())) by {
            assert forall|x: usize| left@.to_set().contains(x) implies !right@.to_set().contains(x) by {
                let i = choose|i: int| 0 <= i < left@.len() && left@[i] == x;
                if right@.to_set().contains(x) {
                    let j = choose|j: int| 0 <= j < right@.len() && right@[j] == x;
                    assert(sorted@[i] == sorted@[mid + j]);
                }
            }
        }
        assert forall|i: int| 0 <= i < nodes@.len() implies #[trigger] node_shaped(nodes@, i) by {
            if i < after_right.len() {
                lemma_shape_stable(after_right, nodes@, i);
            }
        }
    }
    r
}

impl BvhLayout {
    /// Builds the hierarchy over primitives whose sort keys are `keys`, one
    /// key per axis: one primitive makes a node holding it on both sides, two
    /// make a node over both, more are sorted along a random axis and split
    /// at the middle. An empty list has no hierarchy.
    pub fn build(keys: &Vec<[i32; 3]>) -> (r: Option<BvhLayout>)
        ensures
            r is None <==> keys@.len() == 0,
            r is Some ==> r->Some_0.nodes@.len() >= 1,
            r is Some ==> nodes_valid(r->Some_0.nodes@, keys@.len()),
            r is Some ==> nodes_split(r->Some_0.nodes@, keys@),
            r is Some ==> nodes_balanced(r->Some_0.nodes@),
            r is Some ==> nodes_shaped(r->Some_0.nodes@),
            r is Some ==> node_prims(r->Some_0.nodes@, r->Some_0.nodes@.len() - 1) == all_prims(keys@.len()),
            keys@.len() == 1 ==> r->Some_0.nodes@ == seq![
                BvhNode { left: BvhChild::Primitive(0), right: BvhChild::Primitive(0) },
            ],
            keys@.len() == 2 ==> r->Some_0.nodes@ == seq![
                BvhNode { left: BvhChild::Primitive(0), right: BvhChild::Primitive(1) },
            ],
    {
        let n = keys.len();
        if n == 0 {
            return None;
        }
        let mut items: Vec<usize> = Vec::new();
        let mut k: usize = 0;
        while k < n
            invariant
                n == keys@.len(),
                0 <= k <= n,
                items@.len() == k,
                forall|j: int| 0 <= j < k ==> #[trigger] items@[j] == j,
            decreases n - k,
        {
            items.push(k);
            k = k + 1;
        }
        let ghost all = items@;
        assert(all.to_set() =~= all_prims(n as nat)) by {
            assert forall|p: usize| all_prims(n as nat).contains(p) implies all.to_set().contains(p) by {
                assert(all[p as int] == p);
            }
        }
        let mut nodes: Vec<BvhNode> = Vec::new();
        build_node(items, keys, &mut nodes);
        Some(BvhLayout { nodes })
    }
}

} // verus!
