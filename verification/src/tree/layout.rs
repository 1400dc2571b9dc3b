//! The shape of a tree, as a labelling of its arena.
//!
//! A tree over an arena of linked slots is described by its in-order sequence of handles
//! and by one label per slot: the slot's own place in that sequence, and the range of
//! places its subtree covers. Every structural property is then local to a node and its
//! neighbours, so a rotation is a change to two labels and nothing else.

use vstd::prelude::*;

use super::node::{Handle, Node, TreeKey, BLACK, NIL, RED};

verus! {

/// Where one slot stands in the in-order sequence.
pub struct Label {
    /// First place covered by the subtree.
    pub lo: int,
    /// The node's own place.
    pub pos: int,
    /// One past the last place covered by the subtree.
    pub hi: int,
    /// Black nodes on every path from this node down, counting the missing child.
    pub height: int,
}

/// A labelled arena.
pub struct Layout {
    /// Live handles, ascending by key.
    pub order: Seq<Handle>,
    /// One label per slot; labels of slots that are not live mean nothing.
    pub labels: Seq<Label>,
}

impl Layout {
    /// The label of `h`.
    pub open spec fn label(self, h: Handle) -> Label {
        self.labels[h - 1]
    }

    /// Whether `h` is the handle of a node in the tree.
    pub open spec fn live(self, h: Handle) -> bool {
        &&& 1 <= h <= self.labels.len()
        &&& 0 <= self.label(h).pos < self.order.len()
        &&& self.order[self.label(h).pos] == h
    }

    /// The black height of the subtree at `h`.
    pub open spec fn height_of(self, h: Handle) -> int {
        if h == NIL {
            1
        } else {
            self.label(h).height
        }
    }

    /// The same layout with one label replaced.
    pub open spec fn relabel(self, h: Handle, label: Label) -> Layout {
        Layout { order: self.order, labels: self.labels.update(h - 1, label) }
    }
}

/// The colour of `h`, treating [`NIL`] as black.
pub open spec fn color_at<K, V>(nodes: Seq<Node<K, V>>, h: Handle) -> u32 {
    if h == NIL {
        BLACK
    } else {
        nodes[h - 1].color
    }
}

/// The links of a live node agree with its label and with its neighbours.
pub open spec fn node_linked<K, V>(
    nodes: Seq<Node<K, V>>,
    root: Handle,
    g: Layout,
    h: Handle,
) -> bool {
    let node = nodes[h - 1];
    let label = g.label(h);
    &&& 0 <= label.lo <= label.pos < label.hi <= g.order.len()
    &&& if node.left == NIL {
        label.lo == label.pos
    } else {
        &&& g.live(node.left)
        &&& g.label(node.left).lo == label.lo
        &&& g.label(node.left).hi == label.pos
        &&& nodes[node.left - 1].parent == h
    }
    &&& if node.right == NIL {
        label.hi == label.pos + 1
    } else {
        &&& g.live(node.right)
        &&& g.label(node.right).lo == label.pos + 1
        &&& g.label(node.right).hi == label.hi
        &&& nodes[node.right - 1].parent == h
    }
    &&& if node.parent == NIL {
        h == root
    } else {
        &&& h != root
        &&& g.live(node.parent)
        &&& nodes[node.parent - 1].left == h || nodes[node.parent - 1].right == h
    }
}

/// The arena's links form exactly the tree that `g` describes, rooted at `root`.
pub open spec fn linked<K, V>(nodes: Seq<Node<K, V>>, root: Handle, g: Layout) -> bool {
    &&& g.labels.len() == nodes.len()
    &&& forall|i: int|
        0 <= i < g.order.len() ==> 1 <= #[trigger] g.order[i] <= nodes.len() && g.label(
            g.order[i],
        ).pos == i
    &&& if root == NIL {
        g.order.len() == 0
    } else {
        &&& g.live(root)
        &&& g.label(root).lo == 0
        &&& g.label(root).hi == g.order.len()
        &&& nodes[root - 1].parent == NIL
    }
    &&& forall|h: Handle| g.live(h) ==> #[trigger] node_linked(nodes, root, g, h)
}

/// Keys ascend strictly along `order`.
pub open spec fn sorted<K: TreeKey, V>(nodes: Seq<Node<K, V>>, order: Seq<Handle>) -> bool {
    forall|i: int, j: int|
        0 <= i < j < order.len() ==> nodes[#[trigger] order[i] - 1].key.rank() < nodes[
        #[trigger] order[j] - 1].key.rank()
}

/// A node is red or black, and its two subtrees have equal black heights.
pub open spec fn node_balanced<K, V>(nodes: Seq<Node<K, V>>, g: Layout, h: Handle) -> bool {
    let node = nodes[h - 1];
    &&& node.color == RED || node.color == BLACK
    &&& g.height_of(node.left) == g.height_of(node.right)
    &&& g.label(h).height == g.height_of(node.left) + if node.color == BLACK {
        1int
    } else {
        0int
    }
    &&& g.label(h).height >= 1
}

/// A red node has no red child, other than possibly `except`.
pub open spec fn node_red_ok<K, V>(nodes: Seq<Node<K, V>>, h: Handle, except: Handle) -> bool {
    let node = nodes[h - 1];
    node.color == RED ==> {
        &&& color_at(nodes, node.left) == BLACK || node.left == except
        &&& color_at(nodes, node.right) == BLACK || node.right == except
    }
}

/// Every node is balanced.
pub open spec fn balanced<K, V>(nodes: Seq<Node<K, V>>, g: Layout) -> bool {
    forall|h: Handle| g.live(h) ==> #[trigger] node_balanced(nodes, g, h)
}

/// No red node has a red child, other than possibly `except`.
pub open spec fn red_ok<K, V>(nodes: Seq<Node<K, V>>, g: Layout, except: Handle) -> bool {
    forall|h: Handle| g.live(h) ==> #[trigger] node_red_ok(nodes, h, except)
}

/// The chain of free slots starting at `head` is exactly `free`.
pub open spec fn free_chain<K, V>(
    nodes: Seq<Node<K, V>>,
    head: Handle,
    free: Seq<Handle>,
) -> bool {
    &&& head == (if free.len() == 0 {
        NIL
    } else {
        free[0]
    })
    &&& forall|i: int|
        0 <= i < free.len() ==> {
            &&& 1 <= #[trigger] free[i] <= nodes.len()
            &&& nodes[free[i] - 1].left == (if i + 1 < free.len() {
                free[i + 1]
            } else {
                NIL
            })
        }
}

/// Every slot handed out is either in the tree or on the free list, and in neither twice.
pub open spec fn accounted(g: Layout, free: Seq<Handle>, bump: int) -> bool {
    &&& free.no_duplicates()
    &&& forall|i: int|
        0 <= i < free.len() ==> 1 <= #[trigger] free[i] <= bump && !g.live(free[i])
    &&& forall|h: Handle| #[trigger] g.live(h) ==> h <= bump
    &&& g.order.len() + free.len() == bump
}

/// Two arenas hold the same keys and values.
pub open spec fn same_payload<K, V>(a: Seq<Node<K, V>>, b: Seq<Node<K, V>>) -> bool {
    &&& a.len() == b.len()
    &&& forall|i: int|
        #![trigger a[i]]
        #![trigger b[i]]
        0 <= i < a.len() ==> a[i].key == b[i].key && a[i].value == b[i].value
}

/// Two arenas have the same links.
pub open spec fn same_links<K, V>(a: Seq<Node<K, V>>, b: Seq<Node<K, V>>) -> bool {
    &&& a.len() == b.len()
    &&& forall|i: int|
        #![trigger a[i]]
        #![trigger b[i]]
        0 <= i < a.len() ==> a[i].left == b[i].left && a[i].right == b[i].right && a[i].parent
            == b[i].parent
}

/// Colours, keys, values and black heights play no part in how an arena is linked.
pub proof fn lemma_same_links<K, V>(
    a: Seq<Node<K, V>>,
    b: Seq<Node<K, V>>,
    root: Handle,
    g: Layout,
    g1: Layout,
)
    requires
        linked(a, root, g),
        same_links(a, b),
        g1.order == g.order,
        g1.labels.len() == g.labels.len(),
        forall|i: int|
            0 <= i < g.labels.len() ==> (#[trigger] g1.labels[i]).lo == g.labels[i].lo
                && g1.labels[i].pos == g.labels[i].pos && g1.labels[i].hi == g.labels[i].hi,
    ensures
        linked(b, root, g1),
        forall|h: Handle| #[trigger] g1.live(h) == g.live(h),
{
    assert forall|h: Handle| #[trigger] g1.live(h) == g.live(h) by {}
    assert forall|h: Handle| g1.live(h) implies #[trigger] node_linked(b, root, g1, h) by {
        assert(g.live(h));
        assert(node_linked(a, root, g, h));
    }
}

/// Subtrees of one arena have the same size under any two layouts.
proof fn lemma_same_size<K, V>(
    nodes: Seq<Node<K, V>>,
    root: Handle,
    a: Layout,
    b: Layout,
    h: Handle,
)
    requires
        linked(nodes, root, a),
        linked(nodes, root, b),
        a.live(h),
        b.live(h),
    ensures
        a.label(h).hi - a.label(h).lo == b.label(h).hi - b.label(h).lo,
        a.label(h).pos - a.label(h).lo == b.label(h).pos - b.label(h).lo,
    decreases a.label(h).hi - a.label(h).lo,
{
    assert(node_linked(nodes, root, a, h));
    assert(node_linked(nodes, root, b, h));
    let node = nodes[h - 1];
    if node.left != NIL {
        assert(node_linked(nodes, root, a, node.left));
        lemma_same_size(nodes, root, a, b, node.left);
    }
    if node.right != NIL {
        assert(node_linked(nodes, root, a, node.right));
        lemma_same_size(nodes, root, a, b, node.right);
    }
}

/// Layouts that agree on where a subtree starts agree on its whole sequence.
proof fn lemma_same_order_below<K, V>(
    nodes: Seq<Node<K, V>>,
    root: Handle,
    a: Layout,
    b: Layout,
    h: Handle,
)
    requires
        linked(nodes, root, a),
        linked(nodes, root, b),
        a.live(h),
        b.live(h),
        a.label(h).lo == b.label(h).lo,
    ensures
        forall|i: int|
            a.label(h).lo <= i < a.label(h).hi && i < a.order.len() && i < b.order.len()
                ==> a.order[i] == b.order[i],
    decreases a.label(h).hi - a.label(h).lo,
{
    lemma_same_size(nodes, root, a, b, h);
    assert(node_linked(nodes, root, a, h));
    assert(node_linked(nodes, root, b, h));
    let node = nodes[h - 1];
    if node.left != NIL {
        lemma_same_order_below(nodes, root, a, b, node.left);
    }
    if node.right != NIL {
        lemma_same_order_below(nodes, root, a, b, node.right);
    }
}

/// An arena has at most one in-order sequence.
pub proof fn lemma_order_unique<K, V>(
    nodes: Seq<Node<K, V>>,
    root: Handle,
    a: Layout,
    b: Layout,
)
    requires
        linked(nodes, root, a),
        linked(nodes, root, b),
    ensures
        a.order == b.order,
{
    if root != NIL {
        lemma_same_size(nodes, root, a, b, root);
        lemma_same_order_below(nodes, root, a, b, root);
    }
    assert(a.order =~= b.order);
}

/// A head starts at most one chain of free slots.
pub proof fn lemma_free_unique<K, V>(
    nodes: Seq<Node<K, V>>,
    head: Handle,
    a: Seq<Handle>,
    b: Seq<Handle>,
)
    requires
        free_chain(nodes, head, a),
        free_chain(nodes, head, b),
    ensures
        a == b,
    decreases a.len(),
{
    if a.len() > 0 {
        assert(b.len() > 0);
        let next = nodes[head - 1].left;
        let a1 = a.drop_first();
        let b1 = b.drop_first();
        assert(a[0] == head && b[0] == head);
        assert forall|i: int| 0 <= i < a1.len() implies {
            &&& 1 <= #[trigger] a1[i] <= nodes.len()
            &&& nodes[a1[i] - 1].left == (if i + 1 < a1.len() {
                a1[i + 1]
            } else {
                NIL
            })
        } by {
            assert(a1[i] == a[i + 1]);
        }
        assert forall|i: int| 0 <= i < b1.len() implies {
            &&& 1 <= #[trigger] b1[i] <= nodes.len()
            &&& nodes[b1[i] - 1].left == (if i + 1 < b1.len() {
                b1[i + 1]
            } else {
                NIL
            })
        } by {
            assert(b1[i] == b[i + 1]);
        }
        lemma_free_unique(nodes, next, a1, b1);
        assert(a =~= seq![head] + a1);
        assert(b =~= seq![head] + b1);
    } else {
        assert(b.len() == 0);
        assert(a =~= b);
    }
}

} // verus!
