//! Taking one node out of the links: by closing up its place, or by letting its in-order
//! successor take it over.

use vstd::prelude::*;

use super::double_black::{double_black, node_short};
#[allow(unused_imports)]
use super::insert::{free_untouched, lemma_live_in_order};
#[allow(unused_imports)]
use super::layout::{
    balanced, color_at, linked, node_balanced, node_linked, node_red_ok, red_ok, same_payload,
    Label, Layout,
};
use super::node::{Handle, Node, BLACK, NIL};

verus! {

/// The arena after the subtree at `v` takes the place of the one at `u`.
pub(crate) open spec fn transplanted<K, V>(nodes: Seq<Node<K, V>>, u: Handle, v: Handle) -> Seq<Node<K, V>> {
    let p = nodes[u - 1].parent;
    let above = if p == NIL {
        nodes
    } else if nodes[p - 1].left == u {
        nodes.update(p - 1, Node { left: v, ..nodes[p - 1] })
    } else {
        nodes.update(p - 1, Node { right: v, ..nodes[p - 1] })
    };
    if v == NIL {
        above
    } else {
        above.update(v - 1, Node { parent: p, ..above[v - 1] })
    }
}

/// The label of a node that stays, once the place `q` is gone.
pub(crate) open spec fn shifted(label: Label, q: int) -> Label {
    Label {
        lo: if label.lo > q {
            label.lo - 1
        } else {
            label.lo
        },
        pos: if label.pos > q {
            label.pos - 1
        } else {
            label.pos
        },
        hi: if label.hi > q {
            label.hi - 1
        } else {
            label.hi
        },
        height: label.height,
    }
}

/// The layout without `z`, whose place is closed up.
pub(crate) open spec fn layout_without(g: Layout, z: Handle) -> Layout {
    Layout {
        order: g.order.remove(g.label(z).pos),
        labels: Seq::new(g.labels.len(), |i: int| shifted(g.labels[i], g.label(z).pos)),
    }
}

/// The layout without `z`, whose place is taken by its successor `y`.
pub(crate) open spec fn layout_replaced(g: Layout, z: Handle, y: Handle) -> Layout {
    let label = g.label(z);
    Layout {
        order: g.order.remove(label.pos),
        labels: Seq::new(
            g.labels.len(),
            |i: int|
                if i == y - 1 {
                    Label { hi: label.hi - 1, ..label }
                } else {
                    shifted(g.labels[i], label.pos + 1)
                },
        ),
    }
}

/// What a splice leaves: a red-black tree if a red node left the structure, and an extra
/// black at `x` otherwise.
pub(crate) open spec fn spliced_out<K, V>(
    nodes: Seq<Node<K, V>>,
    root: Handle,
    g: Layout,
    x: Handle,
    p: Handle,
    removed_color: u32,
) -> bool {
    if removed_color == BLACK {
        double_black(nodes, root, g, x, p)
    } else {
        &&& linked(nodes, root, g)
        &&& balanced(nodes, g)
        &&& red_ok(nodes, g, NIL)
        &&& color_at(nodes, root) == BLACK
    }
}

/// Which handles stay live once `z` is gone.
pub(crate) proof fn lemma_without_live<K, V>(
    nodes: Seq<Node<K, V>>,
    root: Handle,
    g: Layout,
    z: Handle,
    h: Handle,
)
    requires
        linked(nodes, root, g),
        g.live(z),
    ensures
        layout_without(g, z).live(h) <==> g.live(h) && h != z,
{
    let g1 = layout_without(g, z);
    let q = g.label(z).pos;
    if g1.live(h) {
        let i = g1.label(h).pos;
        let j = if i < q {
            i
        } else {
            i + 1
        };
        assert(g1.order[i] == g.order[j]);
        assert(g.label(g.order[j]).pos == j);
    }
    if g.live(h) && h != z {
        assert(g.label(h).pos != q);
    }
}

/// Splicing out a node with at most one child keeps the links of every other node sound.
pub(crate) proof fn lemma_splice_node<K, V>(
    nodes: Seq<Node<K, V>>,
    after: Seq<Node<K, V>>,
    root: Handle,
    root1: Handle,
    g: Layout,
    z: Handle,
    c: Handle,
    h: Handle,
)
    requires
        linked(nodes, root, g),
        g.live(z),
        nodes[z - 1].left == NIL && nodes[z - 1].right == c || nodes[z - 1].right == NIL && nodes[z
            - 1].left == c,
        after == transplanted(nodes, z, c),
        root1 == (if nodes[z - 1].parent == NIL {
            c
        } else {
            root
        }),
        g.live(h),
        h != z,
    ensures
        node_linked(after, root1, layout_without(g, z), h),
{
    let g1 = layout_without(g, z);
    let q = g.label(z).pos;
    let p = nodes[z - 1].parent;
    let l = nodes[h - 1].left;
    let r = nodes[h - 1].right;
    let up = nodes[h - 1].parent;
    assert(node_linked(nodes, root, g, z));
    assert(node_linked(nodes, root, g, h));
    lemma_without_live(nodes, root, g, z, l);
    lemma_without_live(nodes, root, g, z, r);
    lemma_without_live(nodes, root, g, z, up);
    lemma_without_live(nodes, root, g, z, c);
    lemma_without_live(nodes, root, g, z, p);
    if p != NIL {
        assert(node_linked(nodes, root, g, p));
    }
    if c != NIL {
        assert(node_linked(nodes, root, g, c));
    }
    assert(g.label(h).pos != q);
    assert(g1.label(h) == shifted(g.label(h), q));
    if l != NIL {
        assert(node_linked(nodes, root, g, l));
        assert(g1.label(l) == shifted(g.label(l), q));
    }
    if r != NIL {
        assert(node_linked(nodes, root, g, r));
        assert(g1.label(r) == shifted(g.label(r), q));
    }
    if c != NIL {
        assert(g1.label(c) == shifted(g.label(c), q));
    }
    if up != NIL {
        assert(node_linked(nodes, root, g, up));
    }
    let node = after[h - 1];
    // The children.
    assert(l == z ==> h == p);
    assert(r == z ==> h == p);
    assert(node.left == (if l == z {
        c
    } else {
        l
    }));
    assert(node.right == (if r == z {
        c
    } else {
        r
    }));
    if l != NIL && l != z {
        assert(l != c);
        assert(after[l - 1].parent == h);
    }
    if r != NIL && r != z {
        assert(r != c);
        assert(after[r - 1].parent == h);
    }
    if c != NIL {
        assert(after[c - 1].parent == p);
    }
    // The parent.
    if h == c {
        assert(node.parent == p);
    } else {
        assert(up != z);
        assert(node.parent == up);
        if up != NIL {
            assert(after[up - 1].left == h || after[up - 1].right == h);
        }
    }
}

/// Splicing out a node with at most one child keeps the links sound.
pub(crate) proof fn lemma_splice_links<K, V>(
    nodes: Seq<Node<K, V>>,
    after: Seq<Node<K, V>>,
    root: Handle,
    root1: Handle,
    g: Layout,
    z: Handle,
    c: Handle,
)
    requires
        linked(nodes, root, g),
        g.live(z),
        nodes[z - 1].left == NIL && nodes[z - 1].right == c || nodes[z - 1].right == NIL && nodes[z
            - 1].left == c,
        after == transplanted(nodes, z, c),
        root1 == (if nodes[z - 1].parent == NIL {
            c
        } else {
            root
        }),
    ensures
        linked(after, root1, layout_without(g, z)),
        forall|h: Handle| #[trigger] layout_without(g, z).live(h) <==> g.live(h) && h != z,
{
    let g1 = layout_without(g, z);
    let q = g.label(z).pos;
    let p = nodes[z - 1].parent;
    assert(node_linked(nodes, root, g, z));
    assert forall|h: Handle| #[trigger] g1.live(h) <==> g.live(h) && h != z by {
        lemma_without_live(nodes, root, g, z, h);
    }
    assert forall|i: int| 0 <= i < g1.order.len() implies 1 <= #[trigger] g1.order[i]
        <= after.len() && g1.label(g1.order[i]).pos == i by {
        let j = if i < q {
            i
        } else {
            i + 1
        };
        assert(g1.order[i] == g.order[j]);
        assert(g.label(g.order[j]).pos == j);
    }
    assert forall|h: Handle| g1.live(h) implies #[trigger] node_linked(after, root1, g1, h) by {
        lemma_splice_node(nodes, after, root, root1, g, z, c, h);
    }
    if root1 != NIL {
        assert(g1.live(root1));
        assert(node_linked(nodes, root, g, root1));
        assert(g1.label(root1) == shifted(g.label(root1), q));
        assert(after[root1 - 1].parent == NIL);
    }
}

/// Splicing out a node with at most one child, of a red-black tree.
pub(crate) proof fn lemma_splice<K, V>(
    nodes: Seq<Node<K, V>>,
    after: Seq<Node<K, V>>,
    root: Handle,
    root1: Handle,
    g: Layout,
    z: Handle,
    c: Handle,
)
    requires
        linked(nodes, root, g),
        balanced(nodes, g),
        red_ok(nodes, g, NIL),
        color_at(nodes, root) == BLACK,
        g.live(z),
        nodes[z - 1].left == NIL && nodes[z - 1].right == c || nodes[z - 1].right == NIL && nodes[z
            - 1].left == c,
        after == transplanted(nodes, z, c),
        root1 == (if nodes[z - 1].parent == NIL {
            c
        } else {
            root
        }),
    ensures
        spliced_out(
            after,
            root1,
            layout_without(g, z),
            c,
            nodes[z - 1].parent,
            nodes[z - 1].color,
        ),
        same_payload(nodes, after),
        free_untouched(nodes, after, g),
{
    let g1 = layout_without(g, z);
    let p = nodes[z - 1].parent;
    lemma_splice_links(nodes, after, root, root1, g, z, c);
    assert(node_linked(nodes, root, g, z));
    assert(node_balanced(nodes, g, z));
    assert(node_red_ok(nodes, z, NIL));
    if p != NIL {
        assert(node_linked(nodes, root, g, p));
        assert(node_balanced(nodes, g, p));
        assert(node_red_ok(nodes, p, NIL));
        assert(g1.live(p));
        lemma_live_in_order(g, p);
    }
    if c != NIL {
        assert(node_linked(nodes, root, g, c));
        assert(node_balanced(nodes, g, c));
        assert(g1.live(c));
        lemma_live_in_order(g, c);
    }
    assert forall|h: Handle| h == NIL || g.live(h) implies #[trigger] g1.height_of(h)
        == g.height_of(h) by {}
    assert forall|h: Handle| h != z && (h == NIL || g.live(h)) implies #[trigger] color_at(
        after,
        h,
    ) == color_at(nodes, h) by {}
    let black = nodes[z - 1].color == BLACK;
    assert forall|h: Handle| g1.live(h) && !(black && h == p) implies #[trigger] node_balanced(
        after,
        g1,
        h,
    ) by {
        assert(g.live(h));
        assert(node_linked(nodes, root, g, h));
        assert(node_balanced(nodes, g, h));
        if h != p {
            assert(nodes[h - 1].left != z && nodes[h - 1].right != z);
        }
        assert(g1.height_of(after[h - 1].left) == g.height_of(after[h - 1].left));
        assert(g1.height_of(after[h - 1].right) == g.height_of(after[h - 1].right));
    }
    let x = if black {
        c
    } else {
        NIL
    };
    assert forall|h: Handle| g1.live(h) implies #[trigger] node_red_ok(after, h, x) by {
        assert(g.live(h));
        assert(node_linked(nodes, root, g, h));
        assert(node_red_ok(nodes, h, NIL));
        if h != p {
            assert(nodes[h - 1].left != z && nodes[h - 1].right != z);
        }
        let l = after[h - 1].left;
        let r = after[h - 1].right;
        assert(color_at(after, l) == color_at(nodes, l));
        assert(color_at(after, r) == color_at(nodes, r));
    }
    if p != NIL && black {
        let s = if nodes[p - 1].left == z {
            nodes[p - 1].right
        } else {
            nodes[p - 1].left
        };
        assert(g1.height_of(s) == g.height_of(s));
        assert(g1.height_of(c) == g.height_of(c));
        assert(node_short(after, g1, p, c));
    }
    if root1 != NIL {
        assert(color_at(after, root1) == color_at(nodes, root1));
    }
}

/// `y`, the successor of `z`, has taken its place and its colour, and `x` that of `y`.
pub(crate) open spec fn succeeded<K, V>(
    nodes: Seq<Node<K, V>>,
    after: Seq<Node<K, V>>,
    z: Handle,
    y: Handle,
    x: Handle,
) -> bool {
    let p = nodes[z - 1].parent;
    let w = nodes[y - 1].parent;
    let z_left = nodes[z - 1].left;
    let z_right = nodes[z - 1].right;
    &&& after.len() == nodes.len()
    &&& after[y - 1].left == z_left
    &&& after[y - 1].right == (if w == z {
        x
    } else {
        z_right
    })
    &&& after[y - 1].parent == p
    &&& after[y - 1].color == nodes[z - 1].color
    &&& forall|h: Handle|
        1 <= h <= nodes.len() && h != y && h != z ==> {
            &&& (#[trigger] after[h - 1]).color == nodes[h - 1].color
            &&& after[h - 1].left == (if h == p && nodes[p - 1].left == z {
                y
            } else if h == w {
                x
            } else {
                nodes[h - 1].left
            })
            &&& after[h - 1].right == (if h == p && nodes[p - 1].left != z {
                y
            } else {
                nodes[h - 1].right
            })
            &&& after[h - 1].parent == (if h == z_left || h == z_right {
                y
            } else if h == x && w != z {
                w
            } else {
                nodes[h - 1].parent
            })
        }
    &&& forall|i: int|
        0 <= i < nodes.len() ==> (#[trigger] after[i]).key == nodes[i].key && after[i].value
            == nodes[i].value
}

/// How `z`, its successor and their neighbours stand before the splice.
pub(crate) proof fn lemma_successor_shape<K, V>(
    nodes: Seq<Node<K, V>>,
    root: Handle,
    g: Layout,
    z: Handle,
    y: Handle,
)
    requires
        linked(nodes, root, g),
        g.live(z),
        nodes[z - 1].left != NIL,
        nodes[z - 1].right != NIL,
        g.live(y),
        g.label(y).pos == g.label(z).pos + 1,
        nodes[y - 1].left == NIL,
    ensures
        y != z,
        y != nodes[z - 1].left,
        y != nodes[z - 1].parent,
        z != nodes[z - 1].left,
        z != nodes[z - 1].right,
        nodes[z - 1].left != nodes[z - 1].right,
        g.live(nodes[z - 1].left),
        g.live(nodes[z - 1].right),
        nodes[z - 1].parent != z,
        nodes[z - 1].parent != nodes[z - 1].left,
        nodes[z - 1].parent != nodes[z - 1].right,
        nodes[z - 1].parent == NIL || g.live(nodes[z - 1].parent),
        g.live(nodes[y - 1].parent),
        nodes[y - 1].parent != y,
        nodes[y - 1].parent != nodes[z - 1].left,
        nodes[y - 1].parent != nodes[z - 1].parent,
        (nodes[y - 1].parent == z) == (nodes[z - 1].right == y),
        nodes[y - 1].parent != z ==> nodes[nodes[y - 1].parent - 1].left == y,
        nodes[y - 1].right == NIL || g.live(nodes[y - 1].right),
        nodes[y - 1].right != z,
        nodes[y - 1].right != y,
        nodes[y - 1].right != nodes[z - 1].left,
        nodes[y - 1].right != nodes[z - 1].right,
        nodes[y - 1].right == NIL || nodes[y - 1].right != nodes[z - 1].parent,
        nodes[y - 1].right == NIL || nodes[y - 1].right != nodes[y - 1].parent,
        g.label(y).hi <= g.label(z).hi,
{
    let z_left = nodes[z - 1].left;
    let z_right = nodes[z - 1].right;
    let p = nodes[z - 1].parent;
    let w = nodes[y - 1].parent;
    let x = nodes[y - 1].right;
    assert(node_linked(nodes, root, g, z));
    assert(node_linked(nodes, root, g, y));
    assert(node_linked(nodes, root, g, z_left));
    assert(node_linked(nodes, root, g, z_right));
    if p != NIL {
        assert(node_linked(nodes, root, g, p));
    }
    if x != NIL {
        assert(node_linked(nodes, root, g, x));
    }
    lemma_contains(nodes, root, g, z_right, y);
    assert(y != root);
    assert(node_linked(nodes, root, g, w));
    if w != z {
        if y == z_right {
            assert(nodes[z_right - 1].parent == z);
        }
        lemma_contains(nodes, root, g, z_right, w);
    }
}

/// A node whose place a subtree covers lies wholly within that subtree.
pub(crate) proof fn lemma_contains<K, V>(
    nodes: Seq<Node<K, V>>,
    root: Handle,
    g: Layout,
    top: Handle,
    h: Handle,
)
    requires
        linked(nodes, root, g),
        g.live(top),
        g.live(h),
        g.label(top).lo <= g.label(h).pos < g.label(top).hi,
    ensures
        g.label(top).lo <= g.label(h).lo,
        g.label(h).hi <= g.label(top).hi,
        h != top ==> h != root && {
            let up = nodes[h - 1].parent;
            &&& g.live(up)
            &&& g.label(top).lo <= g.label(up).pos < g.label(top).hi
        },
    decreases g.label(top).hi - g.label(top).lo,
{
    assert(node_linked(nodes, root, g, top));
    assert(node_linked(nodes, root, g, h));
    if h != top {
        assert(g.label(h).pos != g.label(top).pos);
        let next = if g.label(h).pos < g.label(top).pos {
            nodes[top - 1].left
        } else {
            nodes[top - 1].right
        };
        lemma_contains(nodes, root, g, next, h);
    }
}

/// Which handles stay live once `y` has taken the place of `z`.
pub(crate) proof fn lemma_replaced_live<K, V>(
    nodes: Seq<Node<K, V>>,
    root: Handle,
    g: Layout,
    z: Handle,
    y: Handle,
    h: Handle,
)
    requires
        linked(nodes, root, g),
        g.live(z),
        g.live(y),
        g.label(y).pos == g.label(z).pos + 1,
    ensures
        layout_replaced(g, z, y).live(h) <==> g.live(h) && h != z,
        g.live(h) && h != z && h != y ==> layout_replaced(g, z, y).label(h) == shifted(
            g.label(h),
            g.label(z).pos + 1,
        ) && g.label(h).pos != g.label(z).pos && g.label(h).pos != g.label(z).pos + 1,
{
    let g1 = layout_replaced(g, z, y);
    let at = g.label(z).pos;
    if g1.live(h) {
        let i = g1.label(h).pos;
        let j = if i < at {
            i
        } else {
            i + 1
        };
        assert(g1.order[i] == g.order[j]);
        assert(g.label(g.order[j]).pos == j);
    }
    if g.live(h) && h != z {
        assert(g.label(h).pos != at);
        if h != y {
            assert(g.label(h).pos != at + 1);
        }
    }
}

/// Replacing a node by its successor: the successor itself.
pub(crate) proof fn lemma_replace_successor<K, V>(
    nodes: Seq<Node<K, V>>,
    after: Seq<Node<K, V>>,
    root: Handle,
    root1: Handle,
    g: Layout,
    z: Handle,
    y: Handle,
)
    requires
        linked(nodes, root, g),
        g.live(z),
        nodes[z - 1].left != NIL,
        nodes[z - 1].right != NIL,
        g.live(y),
        g.label(y).pos == g.label(z).pos + 1,
        nodes[y - 1].left == NIL,
        succeeded(nodes, after, z, y, nodes[y - 1].right),
        root1 == (if nodes[z - 1].parent == NIL {
            y
        } else {
            root
        }),
    ensures
        node_linked(after, root1, layout_replaced(g, z, y), y),
{
    let g1 = layout_replaced(g, z, y);
    let x = nodes[y - 1].right;
    let p = nodes[z - 1].parent;
    let z_left = nodes[z - 1].left;
    let z_right = nodes[z - 1].right;
    lemma_successor_shape(nodes, root, g, z, y);
    assert(node_linked(nodes, root, g, z));
    assert(node_linked(nodes, root, g, y));
    assert(node_linked(nodes, root, g, z_left));
    assert(node_linked(nodes, root, g, z_right));
    lemma_replaced_live(nodes, root, g, z, y, z_left);
    lemma_replaced_live(nodes, root, g, z, y, z_right);
    lemma_replaced_live(nodes, root, g, z, y, x);
    lemma_replaced_live(nodes, root, g, z, y, p);
    if x != NIL {
        assert(node_linked(nodes, root, g, x));
        assert(after[x - 1].parent == (if nodes[y - 1].parent == z {
            y
        } else {
            nodes[y - 1].parent
        }));
    }
    assert(after[z_left - 1].parent == y);
    if z_right != y {
        assert(after[z_right - 1].parent == y);
    }
    if p != NIL {
        assert(node_linked(nodes, root, g, p));
        assert(after[p - 1].left == y || after[p - 1].right == y);
    }
}

/// Replacing a node by its successor keeps the links of every other node sound.
pub(crate) proof fn lemma_replace_node<K, V>(
    nodes: Seq<Node<K, V>>,
    after: Seq<Node<K, V>>,
    root: Handle,
    root1: Handle,
    g: Layout,
    z: Handle,
    y: Handle,
    h: Handle,
)
    requires
        linked(nodes, root, g),
        g.live(z),
        nodes[z - 1].left != NIL,
        nodes[z - 1].right != NIL,
        g.live(y),
        g.label(y).pos == g.label(z).pos + 1,
        nodes[y - 1].left == NIL,
        succeeded(nodes, after, z, y, nodes[y - 1].right),
        root1 == (if nodes[z - 1].parent == NIL {
            y
        } else {
            root
        }),
        g.live(h),
        h != z,
        h != y,
    ensures
        node_linked(after, root1, layout_replaced(g, z, y), h),
{
    let g1 = layout_replaced(g, z, y);
    let x = nodes[y - 1].right;
    let p = nodes[z - 1].parent;
    let w = nodes[y - 1].parent;
    let z_left = nodes[z - 1].left;
    let z_right = nodes[z - 1].right;
    let l = nodes[h - 1].left;
    let r = nodes[h - 1].right;
    let up = nodes[h - 1].parent;
    lemma_successor_shape(nodes, root, g, z, y);
    lemma_replace_span(nodes, root, g, z, y, h);
    assert(node_linked(nodes, root, g, h));
    assert(node_linked(nodes, root, g, z));
    assert(node_linked(nodes, root, g, y));
    lemma_replaced_live(nodes, root, g, z, y, h);
    lemma_replaced_live(nodes, root, g, z, y, y);
    lemma_replaced_live(nodes, root, g, z, y, l);
    lemma_replaced_live(nodes, root, g, z, y, r);
    lemma_replaced_live(nodes, root, g, z, y, up);
    lemma_replaced_live(nodes, root, g, z, y, x);
    lemma_replaced_live(nodes, root, g, z, y, w);
    if l != NIL {
        assert(node_linked(nodes, root, g, l));
    }
    if r != NIL {
        assert(node_linked(nodes, root, g, r));
    }
    if up != NIL {
        assert(node_linked(nodes, root, g, up));
    }
    if w != z {
        assert(node_linked(nodes, root, g, w));
    }
    if x != NIL {
        assert(node_linked(nodes, root, g, x));
    }
    if p != NIL {
        assert(node_linked(nodes, root, g, p));
    }
    let node = after[h - 1];
    assert(node.color == nodes[h - 1].color);
    // The children.
    assert(l == z ==> h == p);
    assert(r == z ==> h == p);
    assert(l == y ==> h == w);
    assert(r != y);
    assert(node.left == (if l == z {
        y
    } else if l == y {
        x
    } else {
        l
    }));
    assert(node.right == (if r == z {
        y
    } else {
        r
    }));
    if l != NIL && l != z && l != y {
        assert(l != z_left && l != z_right);
        assert(l != x);
        assert(after[l - 1].parent == h);
    }
    if r != NIL && r != z {
        assert(r != z_left && r != z_right);
        assert(r != x);
        assert(after[r - 1].parent == h);
    }
    if l == y && x != NIL {
        assert(after[x - 1].parent == h);
    }
    // The parent.
    if h == z_left || h == z_right {
        assert(node.parent == y);
    } else if h == x {
        assert(node.parent == (if w == z {
            y
        } else {
            w
        }));
        if w != z {
            assert(after[w - 1].left == x);
        }
    } else {
        assert(up != z && up != y);
        assert(node.parent == up);
        if up != NIL {
            assert(after[up - 1].left == h || after[up - 1].right == h);
        }
    }
}

/// Replacing a node by its successor keeps the links sound.
pub(crate) proof fn lemma_replace_links<K, V>(
    nodes: Seq<Node<K, V>>,
    after: Seq<Node<K, V>>,
    root: Handle,
    root1: Handle,
    g: Layout,
    z: Handle,
    y: Handle,
)
    requires
        linked(nodes, root, g),
        g.live(z),
        nodes[z - 1].left != NIL,
        nodes[z - 1].right != NIL,
        g.live(y),
        g.label(y).pos == g.label(z).pos + 1,
        nodes[y - 1].left == NIL,
        succeeded(nodes, after, z, y, nodes[y - 1].right),
        root1 == (if nodes[z - 1].parent == NIL {
            y
        } else {
            root
        }),
    ensures
        linked(after, root1, layout_replaced(g, z, y)),
        forall|h: Handle| #[trigger] layout_replaced(g, z, y).live(h) <==> g.live(h) && h != z,
{
    let g1 = layout_replaced(g, z, y);
    let at = g.label(z).pos;
    lemma_successor_shape(nodes, root, g, z, y);
    assert(node_linked(nodes, root, g, z));
    assert forall|h: Handle| #[trigger] g1.live(h) <==> g.live(h) && h != z by {
        lemma_replaced_live(nodes, root, g, z, y, h);
    }
    assert forall|i: int| 0 <= i < g1.order.len() implies 1 <= #[trigger] g1.order[i]
        <= after.len() && g1.label(g1.order[i]).pos == i by {
        let j = if i < at {
            i
        } else {
            i + 1
        };
        assert(g1.order[i] == g.order[j]);
        assert(g.label(g.order[j]).pos == j);
    }
    assert forall|h: Handle| g1.live(h) implies #[trigger] node_linked(after, root1, g1, h) by {
        if h == y {
            lemma_replace_successor(nodes, after, root, root1, g, z, y);
        } else {
            lemma_replace_node(nodes, after, root, root1, g, z, y, h);
        }
    }
    assert(g1.live(root1));
    if root1 != y {
        assert(node_linked(nodes, root, g, root1));
        assert(node_linked(nodes, root, g, y));
        lemma_replaced_live(nodes, root, g, z, y, root1);
        assert(after[root1 - 1].parent == NIL);
    }
}

/// The bounds of a node that stays never fall strictly between `z` and its successor in
/// a way that the splice would break.
pub(crate) proof fn lemma_replace_span<K, V>(
    nodes: Seq<Node<K, V>>,
    root: Handle,
    g: Layout,
    z: Handle,
    y: Handle,
    h: Handle,
)
    requires
        linked(nodes, root, g),
        g.live(z),
        nodes[z - 1].right != NIL,
        g.live(y),
        g.label(y).pos == g.label(z).pos + 1,
        g.live(h),
        h != z,
        h != y,
    ensures
        g.label(h).hi != g.label(z).pos + 1,
        nodes[h - 1].left == NIL ==> g.label(h).lo != g.label(z).pos + 1,
        nodes[h - 1].right == NIL ==> g.label(h).hi != g.label(z).pos + 2,
{
    assert(node_linked(nodes, root, g, h));
    assert(node_linked(nodes, root, g, z));
    assert(node_linked(nodes, root, g, nodes[z - 1].right));
    assert(g.label(h).pos != g.label(z).pos);
    assert(g.label(h).pos != g.label(y).pos);
    if g.label(h).hi == g.label(z).pos + 1 {
        lemma_contains(nodes, root, g, h, z);
    }
}

/// Replacing a node by its successor, in a red-black tree.
pub(crate) proof fn lemma_replace<K, V>(
    nodes: Seq<Node<K, V>>,
    after: Seq<Node<K, V>>,
    root: Handle,
    root1: Handle,
    g: Layout,
    z: Handle,
    y: Handle,
)
    requires
        linked(nodes, root, g),
        balanced(nodes, g),
        red_ok(nodes, g, NIL),
        color_at(nodes, root) == BLACK,
        g.live(z),
        nodes[z - 1].left != NIL,
        nodes[z - 1].right != NIL,
        g.live(y),
        g.label(y).pos == g.label(z).pos + 1,
        nodes[y - 1].left == NIL,
        succeeded(nodes, after, z, y, nodes[y - 1].right),
        root1 == (if nodes[z - 1].parent == NIL {
            y
        } else {
            root
        }),
    ensures
        spliced_out(
            after,
            root1,
            layout_replaced(g, z, y),
            nodes[y - 1].right,
            if nodes[y - 1].parent == z {
                y
            } else {
                nodes[y - 1].parent
            },
            nodes[y - 1].color,
        ),
        same_payload(nodes, after),
        free_untouched(nodes, after, g),
{
    let g1 = layout_replaced(g, z, y);
    let x = nodes[y - 1].right;
    let p = nodes[z - 1].parent;
    let w = nodes[y - 1].parent;
    let xp = if w == z {
        y
    } else {
        w
    };
    let z_left = nodes[z - 1].left;
    let z_right = nodes[z - 1].right;
    lemma_replace_links(nodes, after, root, root1, g, z, y);
    lemma_successor_shape(nodes, root, g, z, y);
    assert(node_linked(nodes, root, g, z));
    assert(node_linked(nodes, root, g, y));
    assert(node_balanced(nodes, g, z));
    assert(node_balanced(nodes, g, y));
    assert(node_red_ok(nodes, z, NIL));
    assert(node_red_ok(nodes, y, NIL));
    assert(node_linked(nodes, root, g, w));
    assert(node_balanced(nodes, g, w));
    assert(node_red_ok(nodes, w, NIL));
    if p != NIL {
        assert(node_linked(nodes, root, g, p));
    }
    if x != NIL {
        assert(node_linked(nodes, root, g, x));
        assert(node_balanced(nodes, g, x));
        assert(g1.live(x));
    }
    assert(g1.live(y));
    assert(g1.live(xp));
    assert forall|h: Handle| h != y && (h == NIL || g.live(h)) implies #[trigger] g1.height_of(h)
        == g.height_of(h) by {}
    assert(g1.height_of(y) == g.height_of(z));
    assert forall|h: Handle|
        h != z && h != y && (h == NIL || g.live(h)) implies #[trigger] color_at(after, h)
        == color_at(nodes, h) by {
        if h != NIL {
            assert(after[h - 1].color == nodes[h - 1].color);
        }
    }
    let black = nodes[y - 1].color == BLACK;
    assert forall|h: Handle| g1.live(h) && !(black && h == xp) implies #[trigger] node_balanced(
        after,
        g1,
        h,
    ) by {
        assert(g.live(h) && h != z);
        assert(node_linked(nodes, root, g, h));
        assert(node_balanced(nodes, g, h));
        if h == y {
            assert(g1.height_of(z_left) == g.height_of(z_left));
            assert(w != z ==> g1.height_of(z_right) == g.height_of(z_right));
            assert(g1.height_of(x) == g.height_of(x));
        } else {
            assert(after[h - 1].color == nodes[h - 1].color);
            let l = nodes[h - 1].left;
            let r = nodes[h - 1].right;
            assert(h != p ==> l != z && r != z);
            assert(h != w ==> l != y);
            assert(r != y);
            assert(l != y && l != z ==> g1.height_of(l) == g.height_of(l));
            assert(r != y && r != z ==> g1.height_of(r) == g.height_of(r));
            assert(g1.height_of(x) == g.height_of(x));
        }
    }
    let e = if black {
        x
    } else {
        NIL
    };
    assert forall|h: Handle| g1.live(h) implies #[trigger] node_red_ok(after, h, e) by {
        assert(g.live(h) && h != z);
        assert(node_linked(nodes, root, g, h));
        assert(node_red_ok(nodes, h, NIL));
        assert(color_at(after, x) == color_at(nodes, x));
        if h == y {
            assert(color_at(after, z_left) == color_at(nodes, z_left));
            assert(w != z ==> color_at(after, z_right) == color_at(nodes, z_right));
        } else {
            assert(after[h - 1].color == nodes[h - 1].color);
            let l = nodes[h - 1].left;
            let r = nodes[h - 1].right;
            assert(h != p ==> l != z && r != z);
            assert(h != w ==> l != y);
            assert(r != y);
            assert(l != y && l != z ==> color_at(after, l) == color_at(nodes, l));
            assert(r != y && r != z ==> color_at(after, r) == color_at(nodes, r));
        }
    }
    if black {
        let s = if after[xp - 1].left == x {
            after[xp - 1].right
        } else {
            after[xp - 1].left
        };
        assert(g1.height_of(x) == g.height_of(x));
        if w == z {
            assert(z_left != x);
            assert(s == z_left);
        } else {
            assert(after[w - 1].left == x);
            assert(after[w - 1].right == nodes[w - 1].right);
            assert(s == nodes[w - 1].right);
            assert(s != z && s != y && s != x || s == NIL);
        }
        assert(g1.height_of(s) == g.height_of(s));
        assert(node_short(after, g1, xp, x));
        if x != NIL {
            assert(after[x - 1].parent == xp);
        }
    }
    if root1 != y {
        assert(color_at(after, root1) == color_at(nodes, root1));
    }
    lemma_live_in_order(g, y);
    lemma_live_in_order(g, z);
    lemma_live_in_order(g, z_left);
    lemma_live_in_order(g, z_right);
    lemma_live_in_order(g, w);
    if p != NIL {
        lemma_live_in_order(g, p);
    }
    if x != NIL {
        lemma_live_in_order(g, x);
    }
    assert forall|h: Handle| 1 <= h <= nodes.len() && !g.order.contains(h) implies
        #[trigger] after[h - 1] == nodes[h - 1] by {
        assert(h != y && h != z);
    }
}

/// The successor `y` of `z`, if not its child, has left its own place for `x`, its right
/// child, and taken over the right child of `z`.
pub(crate) open spec fn detached<K, V>(
    nodes: Seq<Node<K, V>>,
    mid: Seq<Node<K, V>>,
    z: Handle,
    y: Handle,
) -> bool {
    let w = nodes[y - 1].parent;
    let x = nodes[y - 1].right;
    let z_right = nodes[z - 1].right;
    if w == z {
        mid == nodes
    } else {
        let moved = transplanted(nodes, y, x);
        let adopted = moved.update(y - 1, Node { right: z_right, ..moved[y - 1] });
        mid == adopted.update(z_right - 1, Node { parent: y, ..adopted[z_right - 1] })
    }
}

/// Detaching the successor and transplanting it amounts to replacing `z` by it.
pub(crate) proof fn lemma_succeeded<K, V>(
    nodes: Seq<Node<K, V>>,
    mid: Seq<Node<K, V>>,
    after: Seq<Node<K, V>>,
    root: Handle,
    g: Layout,
    z: Handle,
    y: Handle,
)
    requires
        linked(nodes, root, g),
        g.live(z),
        nodes[z - 1].left != NIL,
        nodes[z - 1].right != NIL,
        g.live(y),
        g.label(y).pos == g.label(z).pos + 1,
        nodes[y - 1].left == NIL,
        detached(nodes, mid, z, y),
        ({
            let z_left = nodes[z - 1].left;
            let moved = transplanted(mid, z, y);
            let adopted = moved.update(y - 1, Node { left: z_left, ..moved[y - 1] });
            let linked_up = adopted.update(z_left - 1, Node { parent: y, ..adopted[z_left - 1] });
            after == linked_up.update(
                y - 1,
                Node { color: linked_up[z - 1].color, ..linked_up[y - 1] },
            )
        }),
    ensures
        succeeded(nodes, after, z, y, nodes[y - 1].right),
{
    let p = nodes[z - 1].parent;
    let w = nodes[y - 1].parent;
    let x = nodes[y - 1].right;
    let z_left = nodes[z - 1].left;
    let z_right = nodes[z - 1].right;
    lemma_successor_shape(nodes, root, g, z, y);
    assert(node_linked(nodes, root, g, z));
    assert(node_linked(nodes, root, g, y));
    assert(node_linked(nodes, root, g, w));
    if p != NIL {
        assert(node_linked(nodes, root, g, p));
    }
    assert forall|h: Handle| 1 <= h <= nodes.len() && h != y implies {
        &&& (#[trigger] mid[h - 1]).left == (if h == w && w != z {
            x
        } else {
            nodes[h - 1].left
        })
        &&& mid[h - 1].right == nodes[h - 1].right
        &&& mid[h - 1].color == nodes[h - 1].color
        &&& mid[h - 1].parent == (if w != z && h == z_right {
            y
        } else if w != z && h == x {
            w
        } else {
            nodes[h - 1].parent
        })
    } by {}
    assert(mid[z - 1].parent == p && mid[z - 1].color == nodes[z - 1].color);
    if p != NIL {
        assert(mid[p - 1].left == nodes[p - 1].left);
    }
    let moved = transplanted(mid, z, y);
    assert(moved[y - 1].parent == p);
    assert(moved[y - 1].right == (if w == z {
        x
    } else {
        z_right
    }));
    assert(moved[z - 1].color == nodes[z - 1].color);
    assert forall|h: Handle| 1 <= h <= nodes.len() && h != y implies {
        &&& (#[trigger] moved[h - 1]).left == (if h == p && nodes[p - 1].left == z {
            y
        } else {
            mid[h - 1].left
        })
        &&& moved[h - 1].right == (if h == p && nodes[p - 1].left != z {
            y
        } else {
            mid[h - 1].right
        })
        &&& moved[h - 1].color == mid[h - 1].color
        &&& moved[h - 1].parent == mid[h - 1].parent
    } by {}
    assert forall|h: Handle| 1 <= h <= nodes.len() && h != y && h != z implies {
        &&& (#[trigger] after[h - 1]).color == nodes[h - 1].color
        &&& after[h - 1].left == moved[h - 1].left
        &&& after[h - 1].right == moved[h - 1].right
        &&& after[h - 1].parent == (if h == z_left {
            y
        } else {
            moved[h - 1].parent
        })
    } by {
        assert(moved[h - 1].color == mid[h - 1].color);
        assert(mid[h - 1].color == nodes[h - 1].color);
    }
    assert forall|i: int| 0 <= i < nodes.len() implies (#[trigger] after[i]).key == nodes[i].key
        && after[i].value == nodes[i].value by {}
}

} // verus!
