//! Telling a tree from any other tangle of links.
//!
//! [`grows`] is what a walk down the links can test. A tangle passes exactly if it is a
//! tree: a node reached twice would have to hang from the same parent twice.

use vstd::prelude::*;

#[allow(unused_imports)]
use super::layout::{linked, node_linked, Label, Layout};
use super::node::{Handle, Node, NIL};

verus! {

/// Within `fuel` levels below `h`, every link is in range and answered by the parent link
/// of the child, and no node has one child twice.
pub open spec fn grows<K, V>(
    nodes: Seq<Node<K, V>>,
    h: Handle,
    parent: Handle,
    fuel: nat,
) -> bool
    decreases fuel,
{
    h == NIL || {
        &&& fuel > 0
        &&& h <= nodes.len()
        &&& nodes[h - 1].parent == parent
        &&& nodes[h - 1].left == NIL || nodes[h - 1].left != nodes[h - 1].right
        &&& grows(nodes, nodes[h - 1].left, h, (fuel - 1) as nat)
        &&& grows(nodes, nodes[h - 1].right, h, (fuel - 1) as nat)
    }
}

/// The nodes under `h`, in order, down to `fuel` levels.
pub open spec fn inorder<K, V>(nodes: Seq<Node<K, V>>, h: Handle, fuel: nat) -> Seq<Handle>
    decreases fuel,
{
    if h == NIL || fuel == 0 {
        Seq::empty()
    } else {
        inorder(nodes, nodes[h - 1].left, (fuel - 1) as nat) + seq![h] + inorder(
            nodes,
            nodes[h - 1].right,
            (fuel - 1) as nat,
        )
    }
}

/// The handle `k` parent links above `h`.
spec fn above<K, V>(nodes: Seq<Node<K, V>>, h: Handle, k: nat) -> Handle
    decreases k,
{
    if k == 0 {
        h
    } else {
        let up = above(nodes, h, (k - 1) as nat);
        if 1 <= up <= nodes.len() {
            nodes[up - 1].parent
        } else {
            NIL
        }
    }
}

proof fn lemma_above_add<K, V>(nodes: Seq<Node<K, V>>, h: Handle, j: nat, k: nat)
    ensures
        above(nodes, h, j + k) == above(nodes, above(nodes, h, j), k),
    decreases k,
{
    if k > 0 {
        lemma_above_add(nodes, h, j, (k - 1) as nat);
        assert((j + k - 1) as nat == j + (k - 1) as nat);
    }
}

proof fn lemma_above_nil<K, V>(nodes: Seq<Node<K, V>>, k: nat)
    ensures
        above(nodes, NIL, k) == NIL,
    decreases k,
{
    if k > 0 {
        lemma_above_nil(nodes, (k - 1) as nat);
    }
}

/// A node lies at one depth only below a root.
proof fn lemma_depth_unique<K, V>(
    nodes: Seq<Node<K, V>>,
    root: Handle,
    h: Handle,
    j: nat,
    k: nat,
)
    requires
        1 <= root <= nodes.len(),
        nodes[root - 1].parent == NIL,
        above(nodes, h, j) == root,
        above(nodes, h, k) == root,
    ensures
        j == k,
{
    let (lo, hi) = if j < k {
        (j, k)
    } else {
        (k, j)
    };
    if lo < hi {
        lemma_above_add(nodes, h, lo, 1);
        assert(above(nodes, root, 0) == root);
        assert(above(nodes, root, 1) == NIL);
        let more = (hi - lo - 1) as nat;
        lemma_above_add(nodes, h, (lo + 1) as nat, more);
        lemma_above_nil(nodes, more);
        assert(lo + 1 + more == hi);
    }
}

/// Every node of a grown subtree is in range and lies some levels below its top.
proof fn lemma_member<K, V>(
    nodes: Seq<Node<K, V>>,
    h: Handle,
    parent: Handle,
    fuel: nat,
    x: Handle,
) -> (k: nat)
    requires
        grows(nodes, h, parent, fuel),
        inorder(nodes, h, fuel).contains(x),
    ensures
        1 <= x <= nodes.len(),
        above(nodes, x, k) == h,
    decreases fuel,
{
    let left = nodes[h - 1].left;
    let right = nodes[h - 1].right;
    let less = (fuel - 1) as nat;
    assert(grows(nodes, left, h, less));
    assert(grows(nodes, right, h, less));
    if x == h {
        0
    } else {
        let a = inorder(nodes, left, less);
        let b = inorder(nodes, right, less);
        let i = choose|i: int| 0 <= i < (a + seq![h] + b).len() && (a + seq![h] + b)[i] == x;
        let child = if i < a.len() {
            assert(a[i] == x);
            left
        } else {
            assert(b[i - a.len() - 1] == x);
            right
        };
        let k = lemma_member(nodes, child, h, less, x);
        lemma_above_add(nodes, x, k, 1);
        assert(above(nodes, child, 0) == child);
        assert(above(nodes, child, 1) == nodes[child - 1].parent);
        k + 1
    }
}

/// No node is reached twice.
proof fn lemma_distinct<K, V>(
    nodes: Seq<Node<K, V>>,
    root: Handle,
    h: Handle,
    depth: nat,
    parent: Handle,
    fuel: nat,
)
    requires
        1 <= root <= nodes.len(),
        nodes[root - 1].parent == NIL,
        grows(nodes, h, parent, fuel),
        h != NIL ==> above(nodes, h, depth) == root,
    ensures
        inorder(nodes, h, fuel).no_duplicates(),
        h != NIL ==> {
            let less = (fuel - 1) as nat;
            let a = inorder(nodes, nodes[h - 1].left, less);
            let b = inorder(nodes, nodes[h - 1].right, less);
            &&& !a.contains(h)
            &&& !b.contains(h)
            &&& forall|x: Handle| a.contains(x) ==> !b.contains(x)
        },
    decreases fuel,
{
    if h != NIL {
        let left = nodes[h - 1].left;
        let right = nodes[h - 1].right;
        let less = (fuel - 1) as nat;
        let a = inorder(nodes, left, less);
        let b = inorder(nodes, right, less);
        assert(grows(nodes, left, h, less));
        assert(grows(nodes, right, h, less));
        if left != NIL {
            lemma_child_depth(nodes, root, h, depth, left);
        }
        if right != NIL {
            lemma_child_depth(nodes, root, h, depth, right);
        }
        lemma_distinct(nodes, root, left, depth + 1, h, less);
        lemma_distinct(nodes, root, right, depth + 1, h, less);
        assert forall|x: Handle| a.contains(x) implies x != h && !b.contains(x) by {
            let k = lemma_member(nodes, left, h, less, x);
            lemma_above_add(nodes, x, k, depth + 1);
            if x == h {
                lemma_depth_unique(nodes, root, x, k + depth + 1, depth);
            }
            if b.contains(x) {
                let j = lemma_member(nodes, right, h, less, x);
                lemma_above_add(nodes, x, j, depth + 1);
                lemma_depth_unique(nodes, root, x, k + depth + 1, j + depth + 1);
            }
        }
        assert forall|x: Handle| b.contains(x) implies x != h by {
            let k = lemma_member(nodes, right, h, less, x);
            lemma_above_add(nodes, x, k, depth + 1);
            if x == h {
                lemma_depth_unique(nodes, root, x, k + depth + 1, depth);
            }
        }
        let s = a + seq![h] + b;
        assert forall|i: int, j: int| 0 <= i < s.len() && 0 <= j < s.len() && i != j implies s[i]
            != s[j] by {
            if i < a.len() {
                assert(a.contains(s[i]));
            } else if i > a.len() {
                assert(s[i] == b[i - a.len() - 1]);
                assert(b.contains(s[i]));
            }
            if j < a.len() {
                assert(a.contains(s[j]));
            } else if j > a.len() {
                assert(s[j] == b[j - a.len() - 1]);
                assert(b.contains(s[j]));
            }
        }
    }
}

proof fn lemma_child_depth<K, V>(
    nodes: Seq<Node<K, V>>,
    root: Handle,
    h: Handle,
    depth: nat,
    child: Handle,
)
    requires
        1 <= h <= nodes.len(),
        1 <= child <= nodes.len(),
        nodes[child - 1].parent == h,
        above(nodes, h, depth) == root,
    ensures
        above(nodes, child, depth + 1) == root,
{
    assert(above(nodes, child, 0) == child);
    assert(above(nodes, child, 1) == h);
    lemma_above_add(nodes, child, 1, depth);
}

/// The labels of a subtree fit `order` and each other.
spec fn labelled<K, V>(
    nodes: Seq<Node<K, V>>,
    h: Handle,
    parent: Handle,
    order: Seq<Handle>,
    m: Map<Handle, Label>,
    x: Handle,
) -> bool {
    let node = nodes[x - 1];
    let label = m[x];
    &&& 1 <= x <= nodes.len()
    &&& 0 <= label.lo <= label.pos < label.hi <= order.len()
    &&& order[label.pos] == x
    &&& if node.left == NIL {
        label.lo == label.pos
    } else {
        &&& m.contains_key(node.left)
        &&& m[node.left].lo == label.lo
        &&& m[node.left].hi == label.pos
        &&& nodes[node.left - 1].parent == x
    }
    &&& if node.right == NIL {
        label.hi == label.pos + 1
    } else {
        &&& m.contains_key(node.right)
        &&& m[node.right].lo == label.pos + 1
        &&& m[node.right].hi == label.hi
        &&& nodes[node.right - 1].parent == x
    }
    &&& if x == h {
        node.parent == parent
    } else {
        &&& m.contains_key(node.parent)
        &&& nodes[node.parent - 1].left == x || nodes[node.parent - 1].right == x
    }
}

/// A label of a child's subtree stays good in the larger labelling.
proof fn lemma_labelled_kept<K, V>(
    nodes: Seq<Node<K, V>>,
    h: Handle,
    parent: Handle,
    child: Handle,
    order: Seq<Handle>,
    sub: Map<Handle, Label>,
    m: Map<Handle, Label>,
    x: Handle,
)
    requires
        labelled(nodes, child, h, order, sub, x),
        sub.contains_key(x),
        forall|y: Handle| #[trigger] sub.contains_key(y) ==> m.contains_key(y) && m[y] == sub[y],
        m.contains_key(h),
        x != h,
        child == nodes[h - 1].left || child == nodes[h - 1].right,
    ensures
        labelled(nodes, h, parent, order, m, x),
{
    let node = nodes[x - 1];
    assert(node.left != NIL ==> sub.contains_key(node.left));
    assert(node.right != NIL ==> sub.contains_key(node.right));
    if x != child {
        assert(sub.contains_key(node.parent));
    }
}

/// Where the parts of an in-order sequence stand in a longer one.
proof fn lemma_parts(
    a: Seq<Handle>,
    h: Handle,
    b: Seq<Handle>,
    order: Seq<Handle>,
    base: int,
)
    requires
        0 <= base,
        base + (a + seq![h] + b).len() <= order.len(),
        a + seq![h] + b == order.subrange(base, base + (a + seq![h] + b).len()),
    ensures
        a == order.subrange(base, base + a.len()),
        order[base + a.len()] == h,
        b == order.subrange(base + a.len() + 1, base + a.len() + 1 + b.len()),
        forall|x: Handle|
            (a + seq![h] + b).contains(x) <==> a.contains(x) || x == h || b.contains(x),
{
    let s = a + seq![h] + b;
    assert forall|i: int| 0 <= i < a.len() implies a[i] == order[base + i] by {
        assert(s[i] == a[i]);
    }
    assert(a =~= order.subrange(base, base + a.len()));
    assert(s[a.len() as int] == h);
    assert forall|i: int| 0 <= i < b.len() implies b[i] == order[base + a.len() + 1 + i] by {
        assert(s[a.len() + 1 + i] == b[i]);
    }
    assert(b =~= order.subrange(base + a.len() + 1, base + a.len() + 1 + b.len()));
    assert forall|x: Handle| s.contains(x) <==> a.contains(x) || x == h || b.contains(x) by {
        if s.contains(x) {
            let i = choose|i: int| 0 <= i < s.len() && s[i] == x;
            if i < a.len() {
                assert(a[i] == x);
            } else if i > a.len() {
                assert(b[i - a.len() - 1] == x);
            }
        }
        if a.contains(x) {
            let i = choose|i: int| 0 <= i < a.len() && a[i] == x;
            assert(s[i] == x);
        }
        if b.contains(x) {
            let i = choose|i: int| 0 <= i < b.len() && b[i] == x;
            assert(s[a.len() + 1 + i] == x);
        }
    }
}

/// A grown subtree can be labelled.
proof fn lemma_labels<K, V>(
    nodes: Seq<Node<K, V>>,
    root: Handle,
    h: Handle,
    depth: nat,
    parent: Handle,
    fuel: nat,
    order: Seq<Handle>,
    base: int,
) -> (m: Map<Handle, Label>)
    requires
        1 <= root <= nodes.len(),
        nodes[root - 1].parent == NIL,
        grows(nodes, h, parent, fuel),
        h != NIL ==> above(nodes, h, depth) == root,
        0 <= base,
        base + inorder(nodes, h, fuel).len() <= order.len(),
        inorder(nodes, h, fuel) == order.subrange(
            base,
            base + inorder(nodes, h, fuel).len(),
        ),
    ensures
        forall|x: Handle|
            #[trigger] m.contains_key(x) <==> inorder(nodes, h, fuel).contains(x),
        forall|x: Handle| #[trigger]
            m.contains_key(x) ==> labelled(nodes, h, parent, order, m, x),
        h != NIL ==> {
            &&& m.contains_key(h)
            &&& m[h].lo == base
            &&& m[h].hi == base + inorder(nodes, h, fuel).len()
        },
    decreases fuel,
{
    let s = inorder(nodes, h, fuel);
    if h == NIL {
        Map::empty()
    } else {
        let left = nodes[h - 1].left;
        let right = nodes[h - 1].right;
        let less = (fuel - 1) as nat;
        let a = inorder(nodes, left, less);
        let b = inorder(nodes, right, less);
        let pos = base + a.len();
        assert(s == a + seq![h] + b);
        lemma_parts(a, h, b, order, base);
        assert(grows(nodes, left, h, less));
        assert(grows(nodes, right, h, less));
        if left != NIL {
            lemma_child_depth(nodes, root, h, depth, left);
        }
        if right != NIL {
            lemma_child_depth(nodes, root, h, depth, right);
        }
        let ml = lemma_labels(nodes, root, left, depth + 1, h, less, order, base);
        let mr = lemma_labels(nodes, root, right, depth + 1, h, less, order, pos + 1);
        lemma_distinct(nodes, root, h, depth, parent, fuel);
        let own = Label { lo: base, pos, hi: base + s.len(), height: 0 };
        let m = ml.union_prefer_right(mr).insert(h, own);
        assert forall|x: Handle| #[trigger] m.contains_key(x) <==> s.contains(x) by {
            assert(ml.contains_key(x) <==> a.contains(x));
            assert(mr.contains_key(x) <==> b.contains(x));
        }
        assert forall|x: Handle| #[trigger] ml.contains_key(x) implies m.contains_key(x) && m[x]
            == ml[x] by {
            assert(a.contains(x));
            assert(mr.contains_key(x) <==> b.contains(x));
        }
        assert forall|x: Handle| #[trigger] mr.contains_key(x) implies m.contains_key(x) && m[x]
            == mr[x] by {
            assert(b.contains(x));
        }
        assert forall|x: Handle| #[trigger] m.contains_key(x) implies labelled(
            nodes,
            h,
            parent,
            order,
            m,
            x,
        ) by {
            if x == h {
                assert(left != NIL ==> ml.contains_key(left));
                assert(right != NIL ==> mr.contains_key(right));
            } else if ml.contains_key(x) {
                lemma_labelled_kept(nodes, h, parent, left, order, ml, m, x);
            } else {
                lemma_labelled_kept(nodes, h, parent, right, order, mr, m, x);
            }
        }
        m
    }
}

/// Links that grow from the root form a tree.
pub proof fn lemma_grown_is_linked<K, V>(nodes: Seq<Node<K, V>>, root: Handle, fuel: nat) -> (g:
    Layout)
    requires
        grows(nodes, root, NIL, fuel),
    ensures
        linked(nodes, root, g),
        g.order == inorder(nodes, root, fuel),
{
    let order = inorder(nodes, root, fuel);
    let none = Label { lo: 0, pos: -1, hi: 0, height: 0 };
    if root == NIL {
        Layout { order, labels: Seq::new(nodes.len(), |i: int| none) }
    } else {
        assert(above(nodes, root, 0) == root);
        assert(order =~= order.subrange(0, order.len() as int));
        let m = lemma_labels(nodes, root, root, 0, NIL, fuel, order, 0);
        let g = Layout {
            order,
            labels: Seq::new(
                nodes.len(),
                |i: int|
                    if m.contains_key((i + 1) as Handle) {
                        m[(i + 1) as Handle]
                    } else {
                        none
                    },
            ),
        };
        assert forall|x: Handle| m.contains_key(x) implies #[trigger] g.label(x) == m[x] by {
            assert(labelled(nodes, root, NIL, order, m, x));
            assert((x - 1 + 1) as Handle == x);
        }
        lemma_distinct(nodes, root, root, 0, NIL, fuel);
        assert forall|i: int| 0 <= i < order.len() implies 1 <= #[trigger] order[i] <= nodes.len()
            && g.label(order[i]).pos == i by {
            let x = order[i];
            assert(order.contains(x));
            assert(m.contains_key(x));
            assert(labelled(nodes, root, NIL, order, m, x));
            assert(g.label(x) == m[x]);
            assert(order[m[x].pos] == order[i]);
        }
        assert forall|h: Handle| g.live(h) implies m.contains_key(h) by {
            assert(order.contains(h));
        }
        assert forall|h: Handle| m.contains_key(h) implies #[trigger] g.live(h) by {
            assert(labelled(nodes, root, NIL, order, m, h));
            assert(g.label(h) == m[h]);
        }
        assert forall|h: Handle| g.live(h) implies #[trigger] node_linked(nodes, root, g, h) by {
            assert(m.contains_key(h));
            assert(labelled(nodes, root, NIL, order, m, h));
            assert(g.label(h) == m[h]);
            let node = nodes[h - 1];
            if node.left != NIL {
                assert(g.label(node.left) == m[node.left]);
                assert(g.live(node.left));
            }
            if node.right != NIL {
                assert(g.label(node.right) == m[node.right]);
                assert(g.live(node.right));
            }
            if h != root {
                assert(g.live(node.parent));
            }
        }
        assert(g.live(root));
        assert(g.label(root) == m[root]);
        g
    }
}

/// A tree grows from each of its nodes, given fuel for as many levels as it has nodes.
pub proof fn lemma_linked_grows<K, V>(
    nodes: Seq<Node<K, V>>,
    root: Handle,
    g: Layout,
    h: Handle,
    fuel: nat,
)
    requires
        linked(nodes, root, g),
        g.live(h),
        g.label(h).hi - g.label(h).lo <= fuel,
    ensures
        grows(nodes, h, nodes[h - 1].parent, fuel),
    decreases fuel,
{
    assert(node_linked(nodes, root, g, h));
    let left = nodes[h - 1].left;
    let right = nodes[h - 1].right;
    if left != NIL {
        assert(node_linked(nodes, root, g, left));
        lemma_linked_grows(nodes, root, g, left, (fuel - 1) as nat);
    }
    if right != NIL {
        assert(node_linked(nodes, root, g, right));
        lemma_linked_grows(nodes, root, g, right, (fuel - 1) as nat);
    }
    assert(grows(nodes, left, h, (fuel - 1) as nat));
    assert(grows(nodes, right, h, (fuel - 1) as nat));
}

/// Distinct handles within range are no more than the range.
pub proof fn lemma_pigeonhole(s: Seq<Handle>, n: nat)
    requires
        s.no_duplicates(),
        forall|i: int| 0 <= i < s.len() ==> 1 <= #[trigger] s[i] <= n,
    ensures
        s.len() <= n,
    decreases n,
{
    if n == 0 {
        if s.len() > 0 {
            assert(1 <= s[0] <= n);
        }
    } else if s.contains(n as Handle) && n <= u32::MAX {
        let i = choose|i: int| 0 <= i < s.len() && s[i] == n as Handle;
        let t = s.remove(i);
        assert forall|j: int| 0 <= j < t.len() implies 1 <= #[trigger] t[j] <= n - 1 by {
            let k = if j < i {
                j
            } else {
                j + 1
            };
            assert(t[j] == s[k]);
            assert(s[k] != s[i]);
        }
        assert forall|a: int, b: int|
            0 <= a < t.len() && 0 <= b < t.len() && a != b implies t[a] != t[b] by {
            let k = if a < i {
                a
            } else {
                a + 1
            };
            let l = if b < i {
                b
            } else {
                b + 1
            };
            assert(t[a] == s[k] && t[b] == s[l]);
        }
        lemma_pigeonhole(t, (n - 1) as nat);
    } else {
        assert forall|j: int| 0 <= j < s.len() implies 1 <= #[trigger] s[j] <= n - 1 by {
            assert(s.contains(s[j]));
        }
        lemma_pigeonhole(s, (n - 1) as nat);
    }
}

/// The links form a tree exactly if they grow from the root.
pub proof fn lemma_linked_iff_grows<K, V>(nodes: Seq<Node<K, V>>, root: Handle)
    ensures
        (exists|g: Layout| linked(nodes, root, g)) <==> grows(nodes, root, NIL, nodes.len()),
{
    if grows(nodes, root, NIL, nodes.len()) {
        let g = lemma_grown_is_linked(nodes, root, nodes.len());
        assert(linked(nodes, root, g));
    }
    if exists|g: Layout| linked(nodes, root, g) {
        let g = choose|g: Layout| linked(nodes, root, g);
        if root != NIL {
            assert forall|i: int, j: int|
                0 <= i < g.order.len() && 0 <= j < g.order.len() && i != j implies g.order[i]
                != g.order[j] by {
                assert(g.label(g.order[i]).pos == i);
                assert(g.label(g.order[j]).pos == j);
            }
            lemma_pigeonhole(g.order, nodes.len());
            lemma_linked_grows(nodes, root, g, root, nodes.len());
        }
    }
}

} // verus!
