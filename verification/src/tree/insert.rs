//! Insertion and the red-red rebalance.

use vstd::prelude::*;

#[allow(unused_imports)]
use super::layout::{
    accounted, balanced, color_at, free_chain, linked, lemma_same_links, node_balanced,
    node_linked, node_red_ok, red_ok, same_payload, sorted, Label, Layout,
};
use super::node::{Handle, Node, TreeKey, TreeValue, BLACK, NIL, RED};
#[allow(unused_imports)]
use super::rotate::{
    layout_rotated_left, layout_rotated_right, rotated_left, rotated_right,
};
use super::RedBlackTree;

verus! {

/// The tree is red-black but for a possible red parent of the red node `z`.
spec fn almost_red_black<K, V>(
    nodes: Seq<Node<K, V>>,
    root: Handle,
    g: Layout,
    z: Handle,
) -> bool {
    &&& linked(nodes, root, g)
    &&& balanced(nodes, g)
    &&& red_ok(nodes, g, z)
    &&& g.live(z)
    &&& nodes[z - 1].color == RED
    &&& nodes[root - 1].color == BLACK || root == z
}

/// The nodes around a red-red violation: `z`, its red parent, and its grandparent.
proof fn lemma_violation<K, V>(nodes: Seq<Node<K, V>>, root: Handle, g: Layout, z: Handle)
    requires
        almost_red_black(nodes, root, g, z),
        color_at(nodes, nodes[z - 1].parent) == RED,
    ensures
        ({
            let p = nodes[z - 1].parent;
            let gp = nodes[p - 1].parent;
            &&& g.live(p)
            &&& g.live(gp)
            &&& z != p && z != gp && p != gp
            &&& nodes[gp - 1].color == BLACK
            &&& nodes[p - 1].left == z || nodes[p - 1].right == z
            &&& nodes[gp - 1].left == p || nodes[gp - 1].right == p
            &&& nodes[gp - 1].left != nodes[gp - 1].right
            &&& nodes[p - 1].left != nodes[p - 1].right
            &&& g.label(gp).lo <= g.label(p).lo <= g.label(z).lo
            &&& g.label(z).hi <= g.label(p).hi <= g.label(gp).hi
            &&& g.label(gp).hi - g.label(gp).lo > g.label(z).hi - g.label(z).lo
            &&& g.label(gp).hi - g.label(gp).lo <= g.order.len()
        }),
{
    assert(node_linked(nodes, root, g, z));
    let p = nodes[z - 1].parent;
    assert(node_linked(nodes, root, g, p));
    assert(p != root);
    let gp = nodes[p - 1].parent;
    assert(node_linked(nodes, root, g, gp));
    assert(node_balanced(nodes, g, gp));
    assert(node_red_ok(nodes, gp, z));
    assert(node_red_ok(nodes, p, z));
}

/// Case 1: a red uncle. Recolouring moves the violation to the grandparent.
proof fn lemma_recolor<K, V>(
    nodes: Seq<Node<K, V>>,
    after: Seq<Node<K, V>>,
    root: Handle,
    g: Layout,
    z: Handle,
    p: Handle,
    u: Handle,
    gp: Handle,
) -> (g1: Layout)
    requires
        almost_red_black(nodes, root, g, z),
        p == nodes[z - 1].parent,
        color_at(nodes, p) == RED,
        gp == nodes[p - 1].parent,
        color_at(nodes, u) == RED,
        p != u,
        u == nodes[gp - 1].left || u == nodes[gp - 1].right,
        after == nodes.update(p - 1, Node { color: BLACK, ..nodes[p - 1] }).update(
            u - 1,
            Node { color: BLACK, ..nodes[u - 1] },
        ).update(gp - 1, Node { color: RED, ..nodes[gp - 1] }),
    ensures
        almost_red_black(after, root, g1, gp),
        g1.order == g.order,
        g1.label(gp) == g.label(gp),
{
    lemma_violation(nodes, root, g, z);
    assert(node_linked(nodes, root, g, gp));
    assert(node_linked(nodes, root, g, u));
    assert(node_linked(nodes, root, g, p));
    let g1 = g.relabel(p, Label { height: g.label(p).height + 1, ..g.label(p) }).relabel(
        u,
        Label { height: g.label(u).height + 1, ..g.label(u) },
    );
    lemma_same_links(nodes, after, root, g, g1);
    assert(node_balanced(nodes, g, gp));
    assert(node_balanced(nodes, g, p));
    assert(node_balanced(nodes, g, u));
    assert forall|h: Handle| g1.live(h) implies #[trigger] node_balanced(after, g1, h) by {
        assert(g.live(h));
        assert(node_balanced(nodes, g, h));
        assert(node_linked(nodes, root, g, h));
    }
    assert forall|h: Handle| g1.live(h) implies #[trigger] node_red_ok(after, h, gp) by {
        assert(g.live(h));
        assert(node_red_ok(nodes, h, z));
        assert(node_linked(nodes, root, g, h));
    }
    g1
}

/// Case 2, left: straightening a zig-zag leaves the violation at the old parent.
proof fn lemma_straighten_left<K, V>(
    nodes: Seq<Node<K, V>>,
    after: Seq<Node<K, V>>,
    root: Handle,
    g: Layout,
    z: Handle,
    p: Handle,
    gp: Handle,
)
    requires
        almost_red_black(nodes, root, g, z),
        p == nodes[z - 1].parent,
        color_at(nodes, p) == RED,
        gp == nodes[p - 1].parent,
        nodes[gp - 1].left == p,
        nodes[p - 1].right == z,
        rotated_left(nodes, after, p),
        linked(after, root, layout_rotated_left(g, p, z)),
    ensures
        almost_red_black(after, root, layout_rotated_left(g, p, z), p),
        after[p - 1].parent == z,
        after[z - 1].parent == gp,
        after[z - 1].color == RED,
        after[gp - 1].left == z,
        after[gp - 1].right == nodes[gp - 1].right,
        after[gp - 1].color == nodes[gp - 1].color,
        after[z - 1].left == p,
        forall|i: int|
            0 <= i < nodes.len() ==> (#[trigger] after[i]).color == nodes[i].color,
{
    lemma_violation(nodes, root, g, z);
    let g1 = layout_rotated_left(g, p, z);
    let b = nodes[z - 1].left;
    assert(node_linked(nodes, root, g, z));
    assert(node_linked(nodes, root, g, p));
    assert(node_linked(nodes, root, g, gp));
    assert(node_balanced(nodes, g, z));
    assert(node_balanced(nodes, g, p));
    assert(node_balanced(nodes, g, gp));
    if b != NIL {
        assert(node_linked(nodes, root, g, b));
    }
    assert(node_red_ok(nodes, z, z));
    assert(node_red_ok(nodes, p, z));
    assert forall|h: Handle| g1.live(h) implies #[trigger] node_balanced(after, g1, h) by {
        assert(g.live(h));
        assert(node_balanced(nodes, g, h));
        assert(node_linked(nodes, root, g, h));
    }
    assert forall|h: Handle| g1.live(h) implies #[trigger] node_red_ok(after, h, p) by {
        assert(g.live(h));
        assert(node_red_ok(nodes, h, z));
        assert(node_linked(nodes, root, g, h));
    }
}

/// Case 3, left: recolouring and rotating the grandparent ends the violation.
proof fn lemma_lift_left<K, V>(
    nodes: Seq<Node<K, V>>,
    colored: Seq<Node<K, V>>,
    after: Seq<Node<K, V>>,
    root: Handle,
    root1: Handle,
    g: Layout,
    z: Handle,
    p: Handle,
    gp: Handle,
) -> (g1: Layout)
    requires
        almost_red_black(nodes, root, g, z),
        p == nodes[z - 1].parent,
        color_at(nodes, p) == RED,
        gp == nodes[p - 1].parent,
        nodes[gp - 1].left == p,
        nodes[p - 1].left == z,
        color_at(nodes, nodes[gp - 1].right) == BLACK,
        colored == nodes.update(p - 1, Node { color: BLACK, ..nodes[p - 1] }).update(
            gp - 1,
            Node { color: RED, ..nodes[gp - 1] },
        ),
        rotated_right(colored, after, gp),
        linked(after, root1, layout_rotated_right(g, gp, p)),
        root1 == (if nodes[gp - 1].parent == NIL {
            p
        } else {
            root
        }),
    ensures
        almost_red_black(after, root1, g1, z),
        after[z - 1].parent == p,
        after[p - 1].color == BLACK,
        g1.order == g.order,
{
    lemma_violation(nodes, root, g, z);
    let g0 = layout_rotated_right(g, gp, p);
    let g1 = g0.relabel(p, Label { height: g.label(gp).height, ..g0.label(p) }).relabel(
        gp,
        Label { height: g.label(p).height, ..g0.label(gp) },
    );
    let b = nodes[p - 1].right;
    let u = nodes[gp - 1].right;
    let top = nodes[gp - 1].parent;
    lemma_same_links(after, after, root1, g0, g1);
    assert(node_linked(nodes, root, g, z));
    assert(node_linked(nodes, root, g, p));
    assert(node_linked(nodes, root, g, gp));
    assert(node_balanced(nodes, g, z));
    assert(node_balanced(nodes, g, p));
    assert(node_balanced(nodes, g, gp));
    assert(node_red_ok(nodes, p, z));
    if b != NIL {
        assert(node_linked(nodes, root, g, b));
        assert(node_balanced(nodes, g, b));
    }
    if u != NIL {
        assert(node_linked(nodes, root, g, u));
        assert(node_balanced(nodes, g, u));
    }
    if top != NIL {
        assert(node_linked(nodes, root, g, top));
        assert(node_balanced(nodes, g, top));
    }
    assert(after[p - 1].left == z && after[p - 1].right == gp && after[p - 1].color == BLACK);
    assert(after[gp - 1].left == b && after[gp - 1].right == u && after[gp - 1].color == RED);
    assert forall|h: Handle| g.live(h) && h != p && h != gp && h != top implies {
        &&& (#[trigger] after[h - 1]).left == nodes[h - 1].left
        &&& after[h - 1].right == nodes[h - 1].right
        &&& after[h - 1].color == nodes[h - 1].color
        &&& nodes[h - 1].left != p && nodes[h - 1].left != gp
        &&& nodes[h - 1].right != p && nodes[h - 1].right != gp
    } by {
        assert(node_linked(nodes, root, g, h));
    }
    assert(g1.height_of(p) == g.height_of(gp));
    assert(g1.height_of(gp) == g.height_of(p));
    assert forall|h: Handle| h != p && h != gp && (h == NIL || g.live(h)) implies
        #[trigger] g1.height_of(h) == g.height_of(h) by {}
    assert forall|h: Handle| g1.live(h) implies #[trigger] node_balanced(after, g1, h) by {
        assert(g.live(h));
        assert(node_balanced(nodes, g, h));
        assert(node_linked(nodes, root, g, h));
        if h == p {
        } else if h == gp {
        } else if h == top {
        } else {
            assert(after[h - 1].left == nodes[h - 1].left);
        }
    }
    assert forall|h: Handle| g1.live(h) implies #[trigger] node_red_ok(after, h, z) by {
        assert(g.live(h));
        assert(node_red_ok(nodes, h, z));
        assert(node_linked(nodes, root, g, h));
        if h == p {
        } else if h == gp {
            assert(b != gp && b != p && u != gp && u != p);
            assert(color_at(after, b) == color_at(nodes, b));
            assert(color_at(after, u) == color_at(nodes, u));
        } else if h == top {
            let l = nodes[h - 1].left;
            let r = nodes[h - 1].right;
            assert(l != NIL && l != gp ==> color_at(after, l) == color_at(nodes, l));
            assert(r != NIL && r != gp ==> color_at(after, r) == color_at(nodes, r));
        } else {
            assert(after[h - 1].left == nodes[h - 1].left);
            let l = nodes[h - 1].left;
            let r = nodes[h - 1].right;
            assert(l != NIL ==> color_at(after, l) == color_at(nodes, l));
            assert(r != NIL ==> color_at(after, r) == color_at(nodes, r));
        }
    }
    g1
}

/// Case 2, right: straightening a zig-zag leaves the violation at the old parent.
proof fn lemma_straighten_right<K, V>(
    nodes: Seq<Node<K, V>>,
    after: Seq<Node<K, V>>,
    root: Handle,
    g: Layout,
    z: Handle,
    p: Handle,
    gp: Handle,
)
    requires
        almost_red_black(nodes, root, g, z),
        p == nodes[z - 1].parent,
        color_at(nodes, p) == RED,
        gp == nodes[p - 1].parent,
        nodes[gp - 1].right == p,
        nodes[p - 1].left == z,
        rotated_right(nodes, after, p),
        linked(after, root, layout_rotated_right(g, p, z)),
    ensures
        almost_red_black(after, root, layout_rotated_right(g, p, z), p),
        after[p - 1].parent == z,
        after[z - 1].parent == gp,
        after[z - 1].color == RED,
        after[gp - 1].right == z,
        after[gp - 1].left == nodes[gp - 1].left,
        after[gp - 1].color == nodes[gp - 1].color,
        after[z - 1].right == p,
        forall|i: int|
            0 <= i < nodes.len() ==> (#[trigger] after[i]).color == nodes[i].color,
{
    lemma_violation(nodes, root, g, z);
    let g1 = layout_rotated_right(g, p, z);
    let b = nodes[z - 1].right;
    assert(node_linked(nodes, root, g, z));
    assert(node_linked(nodes, root, g, p));
    assert(node_linked(nodes, root, g, gp));
    assert(node_balanced(nodes, g, z));
    assert(node_balanced(nodes, g, p));
    assert(node_balanced(nodes, g, gp));
    if b != NIL {
        assert(node_linked(nodes, root, g, b));
    }
    assert(node_red_ok(nodes, z, z));
    assert(node_red_ok(nodes, p, z));
    assert forall|h: Handle| g1.live(h) implies #[trigger] node_balanced(after, g1, h) by {
        assert(g.live(h));
        assert(node_balanced(nodes, g, h));
        assert(node_linked(nodes, root, g, h));
    }
    assert forall|h: Handle| g1.live(h) implies #[trigger] node_red_ok(after, h, p) by {
        assert(g.live(h));
        assert(node_red_ok(nodes, h, z));
        assert(node_linked(nodes, root, g, h));
    }
}

/// Case 3, right: recolouring and rotating the grandparent ends the violation.
proof fn lemma_lift_right<K, V>(
    nodes: Seq<Node<K, V>>,
    colored: Seq<Node<K, V>>,
    after: Seq<Node<K, V>>,
    root: Handle,
    root1: Handle,
    g: Layout,
    z: Handle,
    p: Handle,
    gp: Handle,
) -> (g1: Layout)
    requires
        almost_red_black(nodes, root, g, z),
        p == nodes[z - 1].parent,
        color_at(nodes, p) == RED,
        gp == nodes[p - 1].parent,
        nodes[gp - 1].right == p,
        nodes[p - 1].right == z,
        color_at(nodes, nodes[gp - 1].left) == BLACK,
        colored == nodes.update(p - 1, Node { color: BLACK, ..nodes[p - 1] }).update(
            gp - 1,
            Node { color: RED, ..nodes[gp - 1] },
        ),
        rotated_left(colored, after, gp),
        linked(after, root1, layout_rotated_left(g, gp, p)),
        root1 == (if nodes[gp - 1].parent == NIL {
            p
        } else {
            root
        }),
    ensures
        almost_red_black(after, root1, g1, z),
        after[z - 1].parent == p,
        after[p - 1].color == BLACK,
        g1.order == g.order,
{
    lemma_violation(nodes, root, g, z);
    let g0 = layout_rotated_left(g, gp, p);
    let g1 = g0.relabel(p, Label { height: g.label(gp).height, ..g0.label(p) }).relabel(
        gp,
        Label { height: g.label(p).height, ..g0.label(gp) },
    );
    let b = nodes[p - 1].left;
    let u = nodes[gp - 1].left;
    let top = nodes[gp - 1].parent;
    lemma_same_links(after, after, root1, g0, g1);
    assert(node_linked(nodes, root, g, z));
    assert(node_linked(nodes, root, g, p));
    assert(node_linked(nodes, root, g, gp));
    assert(node_balanced(nodes, g, z));
    assert(node_balanced(nodes, g, p));
    assert(node_balanced(nodes, g, gp));
    assert(node_red_ok(nodes, p, z));
    if b != NIL {
        assert(node_linked(nodes, root, g, b));
        assert(node_balanced(nodes, g, b));
    }
    if u != NIL {
        assert(node_linked(nodes, root, g, u));
        assert(node_balanced(nodes, g, u));
    }
    if top != NIL {
        assert(node_linked(nodes, root, g, top));
        assert(node_balanced(nodes, g, top));
    }
    assert(after[p - 1].right == z && after[p - 1].left == gp && after[p - 1].color == BLACK);
    assert(after[gp - 1].right == b && after[gp - 1].left == u && after[gp - 1].color == RED);
    assert forall|h: Handle| g.live(h) && h != p && h != gp && h != top implies {
        &&& (#[trigger] after[h - 1]).left == nodes[h - 1].left
        &&& after[h - 1].right == nodes[h - 1].right
        &&& after[h - 1].color == nodes[h - 1].color
        &&& nodes[h - 1].left != p && nodes[h - 1].left != gp
        &&& nodes[h - 1].right != p && nodes[h - 1].right != gp
    } by {
        assert(node_linked(nodes, root, g, h));
    }
    assert(g1.height_of(p) == g.height_of(gp));
    assert(g1.height_of(gp) == g.height_of(p));
    assert forall|h: Handle| h != p && h != gp && (h == NIL || g.live(h)) implies
        #[trigger] g1.height_of(h) == g.height_of(h) by {}
    assert forall|h: Handle| g1.live(h) implies #[trigger] node_balanced(after, g1, h) by {
        assert(g.live(h));
        assert(node_balanced(nodes, g, h));
        assert(node_linked(nodes, root, g, h));
        if h == p {
        } else if h == gp {
        } else if h == top {
        } else {
            assert(after[h - 1].left == nodes[h - 1].left);
        }
    }
    assert forall|h: Handle| g1.live(h) implies #[trigger] node_red_ok(after, h, z) by {
        assert(g.live(h));
        assert(node_red_ok(nodes, h, z));
        assert(node_linked(nodes, root, g, h));
        if h == p {
        } else if h == gp {
            assert(b != gp && b != p && u != gp && u != p);
            assert(color_at(after, b) == color_at(nodes, b));
            assert(color_at(after, u) == color_at(nodes, u));
        } else if h == top {
            let l = nodes[h - 1].left;
            let r = nodes[h - 1].right;
            assert(l != NIL && l != gp ==> color_at(after, l) == color_at(nodes, l));
            assert(r != NIL && r != gp ==> color_at(after, r) == color_at(nodes, r));
        } else {
            assert(after[h - 1].left == nodes[h - 1].left);
            let l = nodes[h - 1].left;
            let r = nodes[h - 1].right;
            assert(l != NIL ==> color_at(after, l) == color_at(nodes, l));
            assert(r != NIL ==> color_at(after, r) == color_at(nodes, r));
        }
    }
    g1
}

/// A live handle occurs in the order.
pub(crate) proof fn lemma_live_in_order(g: Layout, h: Handle)
    requires
        g.live(h),
    ensures
        g.order.contains(h),
{
    assert(g.order[g.label(h).pos] == h);
}

/// A rotation changes live slots only, and no key or value.
pub(crate) proof fn lemma_rotation_touches_live_left<K, V>(
    before: Seq<Node<K, V>>,
    after: Seq<Node<K, V>>,
    root: Handle,
    g: Layout,
    x: Handle,
)
    requires
        linked(before, root, g),
        g.live(x),
        before[x - 1].right != NIL,
        rotated_left(before, after, x),
    ensures
        free_untouched(before, after, g),
        same_payload(before, after),
{
    let y = before[x - 1].right;
    let b = before[y - 1].left;
    let p = before[x - 1].parent;
    assert(node_linked(before, root, g, x));
    assert(node_linked(before, root, g, y));
    lemma_live_in_order(g, x);
    lemma_live_in_order(g, y);
    if b != NIL {
        lemma_live_in_order(g, b);
    }
    if p != NIL {
        lemma_live_in_order(g, p);
    }
}

/// A rotation changes live slots only, and no key or value.
pub(crate) proof fn lemma_rotation_touches_live_right<K, V>(
    before: Seq<Node<K, V>>,
    after: Seq<Node<K, V>>,
    root: Handle,
    g: Layout,
    x: Handle,
)
    requires
        linked(before, root, g),
        g.live(x),
        before[x - 1].left != NIL,
        rotated_right(before, after, x),
    ensures
        free_untouched(before, after, g),
        same_payload(before, after),
{
    let y = before[x - 1].left;
    let b = before[y - 1].right;
    let p = before[x - 1].parent;
    assert(node_linked(before, root, g, x));
    assert(node_linked(before, root, g, y));
    lemma_live_in_order(g, x);
    lemma_live_in_order(g, y);
    if b != NIL {
        lemma_live_in_order(g, b);
    }
    if p != NIL {
        lemma_live_in_order(g, p);
    }
}

/// Slots that are not live are left as they were.
pub(crate) open spec fn free_untouched<K, V>(
    before: Seq<Node<K, V>>,
    after: Seq<Node<K, V>>,
    g: Layout,
) -> bool {
    forall|h: Handle|
        1 <= h <= before.len() && !g.order.contains(h) ==> #[trigger] after[h - 1] == before[h
            - 1]
}

/// Blackening the root ends the rebalance.
proof fn lemma_blacken_root<K, V>(
    nodes: Seq<Node<K, V>>,
    after: Seq<Node<K, V>>,
    root: Handle,
    g: Layout,
    z: Handle,
) -> (g1: Layout)
    requires
        almost_red_black(nodes, root, g, z),
        color_at(nodes, nodes[z - 1].parent) != RED,
        after == nodes.update(root - 1, Node { color: BLACK, ..nodes[root - 1] }),
    ensures
        linked(after, root, g1),
        balanced(after, g1),
        red_ok(after, g1, NIL),
        color_at(after, root) == BLACK,
        g1.order == g.order,
{
    assert(node_linked(nodes, root, g, z));
    assert(node_linked(nodes, root, g, root));
    assert(node_balanced(nodes, g, root));
    let height = g.label(root).height + if nodes[root - 1].color == RED {
        1int
    } else {
        0int
    };
    let g1 = g.relabel(root, Label { height, ..g.label(root) });
    lemma_same_links(nodes, after, root, g, g1);
    assert forall|h: Handle| g1.live(h) implies #[trigger] node_balanced(after, g1, h) by {
        assert(g.live(h));
        assert(node_balanced(nodes, g, h));
        assert(node_linked(nodes, root, g, h));
    }
    assert forall|h: Handle| g1.live(h) implies #[trigger] node_red_ok(after, h, NIL) by {
        assert(g.live(h));
        assert(node_red_ok(nodes, h, z));
        assert(node_linked(nodes, root, g, h));
    }
    g1
}

/// The layout with the new leaf `h` at place `p`, below the node at place `anchor`.
spec fn layout_with_leaf(g: Layout, h: Handle, p: int, anchor: int) -> Layout {
    Layout {
        order: g.order.insert(p, h),
        labels: Seq::new(
            g.labels.len(),
            |i: int|
                if i == h - 1 {
                    Label { lo: p, pos: p, hi: p + 1, height: 1 }
                } else {
                    let old = g.labels[i];
                    Label {
                        lo: if old.lo > anchor {
                            old.lo + 1
                        } else {
                            old.lo
                        },
                        pos: if old.pos >= p {
                            old.pos + 1
                        } else {
                            old.pos
                        },
                        hi: if old.hi > anchor {
                            old.hi + 1
                        } else {
                            old.hi
                        },
                        height: old.height,
                    }
                },
        ),
    }
}

/// `after` is `before` with a red leaf in slot `h`, attached below `parent`.
spec fn leaf_attached<K, V>(
    before: Seq<Node<K, V>>,
    after: Seq<Node<K, V>>,
    h: Handle,
    parent: Handle,
    on_left: bool,
    key: K,
    value: V,
) -> bool {
    let leaf = Node { left: NIL, right: NIL, parent, color: RED, key, value };
    after == (if parent == NIL {
        before.update(h - 1, leaf)
    } else if on_left {
        before.update(h - 1, leaf).update(parent - 1, Node { left: h, ..before[parent - 1] })
    } else {
        before.update(h - 1, leaf).update(parent - 1, Node { right: h, ..before[parent - 1] })
    })
}

/// Attaching a leaf keeps the arena linked and moves the other places out of its way.
proof fn lemma_leaf_attached<K, V>(
    before: Seq<Node<K, V>>,
    after: Seq<Node<K, V>>,
    root: Handle,
    g: Layout,
    h: Handle,
    parent: Handle,
    on_left: bool,
    key: K,
    value: V,
) -> (g1: Layout)
    requires
        linked(before, root, g),
        balanced(before, g),
        red_ok(before, g, NIL),
        color_at(before, root) == BLACK,
        1 <= h <= before.len(),
        !g.live(h),
        !g.order.contains(h),
        leaf_attached(before, after, h, parent, on_left, key, value),
        if parent == NIL {
            root == NIL
        } else {
            &&& g.live(parent)
            &&& if on_left {
                before[parent - 1].left == NIL
            } else {
                before[parent - 1].right == NIL
            }
        },
    ensures
        almost_red_black(
            after,
            if parent == NIL {
                h
            } else {
                root
            },
            g1,
            h,
        ),
        g1.order == g.order.insert(
            if parent == NIL {
                0
            } else if on_left {
                g.label(parent).pos
            } else {
                g.label(parent).pos + 1
            },
            h,
        ),
{
    if parent == NIL {
        let g1 = Layout {
            order: g.order.insert(0, h),
            labels: g.labels.update(h - 1, Label { lo: 0, pos: 0, hi: 1, height: 1 }),
        };
        assert(g1.order =~= seq![h]);
        assert forall|x: Handle| g1.live(x) implies x == h by {}
        assert(node_linked(after, h, g1, h));
        assert(almost_red_black(after, h, g1, h));
        g1
    } else {
        let anchor = g.label(parent).pos;
        let p = if on_left {
            anchor
        } else {
            anchor + 1
        };
        let g1 = layout_with_leaf(g, h, p, anchor);
        assert(node_linked(before, root, g, parent));
        assert(node_linked(before, root, g, root));
        assert forall|x: Handle| x != h implies #[trigger] g1.live(x) == g.live(x) by {
            if g.live(x) {
                let q = g.label(x).pos;
                assert(g1.order[if q >= p {
                    q + 1
                } else {
                    q
                }] == g.order[q]);
            }
            if g1.live(x) {
                let q = g1.label(x).pos;
                assert(g1.order[q] == x);
                let old = g.label(x).pos;
                assert(q == if old >= p {
                    old + 1
                } else {
                    old
                });
                assert(g.order[old] == x);
            }
        }
        assert(g1.live(h));
        assert forall|i: int| 0 <= i < g1.order.len() implies 1 <= #[trigger] g1.order[i]
            <= after.len() && g1.label(g1.order[i]).pos == i by {
            if i < p {
                assert(g1.order[i] == g.order[i]);
                assert(g.order.contains(g.order[i]));
            } else if i > p {
                assert(g1.order[i] == g.order[i - 1]);
                assert(g.order.contains(g.order[i - 1]));
            }
        }
        assert forall|x: Handle| g1.live(x) implies #[trigger] node_linked(
            after,
            root,
            g1,
            x,
        ) by {
            if x == h {
            } else {
                assert(g.live(x));
                assert(node_linked(before, root, g, x));
                let l = before[x - 1].left;
                let r = before[x - 1].right;
                let q = before[x - 1].parent;
                if l != NIL {
                    assert(node_linked(before, root, g, l));
                    assert(l != h && r != h);
                }
                if r != NIL {
                    assert(node_linked(before, root, g, r));
                    assert(r != h);
                }
                if q != NIL {
                    assert(node_linked(before, root, g, q));
                    assert(q != h);
                }
                assert(g.label(x).pos == anchor ==> x == parent);
            }
        }
        assert forall|x: Handle| g1.live(x) implies #[trigger] node_balanced(after, g1, x) by {
            if x != h {
                assert(g.live(x));
                assert(node_balanced(before, g, x));
                assert(node_linked(before, root, g, x));
            }
        }
        assert forall|x: Handle| g1.live(x) implies #[trigger] node_red_ok(after, x, h) by {
            if x != h {
                assert(g.live(x));
                assert(node_red_ok(before, x, NIL));
                assert(node_linked(before, root, g, x));
            }
        }
        g1
    }
}

/// The free list does not pass through live slots, so relinking those leaves it alone.
pub(crate) proof fn lemma_free_survives<K, V>(
    before: Seq<Node<K, V>>,
    after: Seq<Node<K, V>>,
    head: Handle,
    g: Layout,
    free: Seq<Handle>,
    h: Handle,
)
    requires
        free_chain(before, head, free),
        before.len() == after.len(),
        forall|i: int|
            0 <= i < free.len() ==> #[trigger] free[i] != h && !g.order.contains(free[i]),
        forall|x: Handle|
            1 <= x <= before.len() && x != h && !g.order.contains(x) ==> #[trigger] after[x - 1]
                == before[x - 1],
    ensures
        free_chain(after, head, free),
{
    assert forall|i: int| 0 <= i < free.len() implies {
        &&& 1 <= #[trigger] free[i] <= after.len()
        &&& after[free[i] - 1].left == (if i + 1 < free.len() {
            free[i + 1]
        } else {
            NIL
        })
    } by {
        let x = free[i];
        assert(after[x - 1] == before[x - 1]);
    }
}

/// Keys still ascend when a key enters at the place it belongs.
proof fn lemma_sorted_insert<K: TreeKey, V>(
    before: Seq<Node<K, V>>,
    after: Seq<Node<K, V>>,
    order: Seq<Handle>,
    p: int,
    h: Handle,
    key: K,
)
    requires
        sorted(before, order),
        before.len() == after.len(),
        0 <= p <= order.len(),
        1 <= h <= before.len(),
        !order.contains(h),
        forall|i: int| 0 <= i < order.len() ==> 1 <= #[trigger] order[i] <= before.len(),
        forall|i: int|
            0 <= i < before.len() && i != h - 1 ==> (#[trigger] after[i]).key == before[i].key,
        after[h - 1].key == key,
        forall|i: int| 0 <= i < p ==> before[#[trigger] order[i] - 1].key.rank() < key.rank(),
        forall|i: int|
            p <= i < order.len() ==> before[#[trigger] order[i] - 1].key.rank() > key.rank(),
    ensures
        sorted(after, order.insert(p, h)),
{
    let longer = order.insert(p, h);
    assert forall|i: int| 0 <= i < order.len() implies after[#[trigger] order[i] - 1].key
        == before[order[i] - 1].key by {
        assert(order.contains(order[i]));
    }
    assert forall|i: int, j: int| 0 <= i < j < longer.len() implies after[#[trigger] longer[i]
        - 1].key.rank() < after[#[trigger] longer[j] - 1].key.rank() by {
        let a = if i < p {
            i
        } else {
            i - 1
        };
        let b = if j < p {
            j
        } else {
            j - 1
        };
        if i != p {
            assert(longer[i] == order[a]);
        }
        if j != p {
            assert(longer[j] == order[b]);
        }
    }
}

/// The free list and the live slots still account for every slot handed out.
proof fn lemma_accounted_insert(
    g: Layout,
    g1: Layout,
    free: Seq<Handle>,
    bump: int,
    p: int,
    h: Handle,
)
    requires
        accounted(g, free, bump),
        0 <= p <= g.order.len(),
        g1.order == g.order.insert(p, h),
        forall|i: int|
            0 <= i < g.order.len() ==> 1 <= #[trigger] g.order[i] <= g.labels.len() && g.label(
                g.order[i],
            ).pos == i,
        forall|i: int|
            0 <= i < g1.order.len() ==> 1 <= #[trigger] g1.order[i] <= g1.labels.len()
                && g1.label(g1.order[i]).pos == i,
        if free.len() > 0 {
            h == free[0]
        } else {
            h == bump + 1
        },
    ensures
        accounted(
            g1,
            if free.len() > 0 {
                free.drop_first()
            } else {
                free
            },
            if free.len() > 0 {
                bump
            } else {
                bump + 1
            },
        ),
{
    let free1 = if free.len() > 0 {
        free.drop_first()
    } else {
        free
    };
    assert forall|x: Handle| #[trigger] g1.live(x) implies x == h || g.live(x) by {
        let q = g1.label(x).pos;
        assert(g1.order[q] == x);
        if q < p {
            assert(g.order[q] == x);
        } else if q > p {
            assert(g.order[q - 1] == x);
        }
    }
    assert forall|i: int| 0 <= i < free1.len() implies 1 <= #[trigger] free1[i] <= bump
        && !g1.live(free1[i]) by {
        assert(free1[i] == free[i + 1]);
        assert(free[0] != free[i + 1]);
    }
}

impl<K: TreeKey, V: TreeValue, const N: usize> RedBlackTree<K, V, N> {
    /// The arena after the rebalance holds the tree with the new key.
    proof fn lemma_insert_done(
        self,
        before: Self,
        n1: Seq<Node<K, V>>,
        g: Layout,
        g2: Layout,
        free: Seq<Handle>,
        p: int,
        h: Handle,
        key: K,
        value: V,
    )
        requires
            before.described_by(g, free),
            before.view().order == g.order,
            before.view().free == free,
            before.view().wf(),
            before.view().splits_at(key, p),
            !before.view().contains_key(key),
            forall|i: int|
                p <= i < g.order.len() ==> (#[trigger] before.view().key_at(i)).rank()
                    > key.rank(),
            1 <= h <= N,
            !g.order.contains(h),
            h == before.view().next_handle(),
            free.len() > 0 || before.bump < N,
            n1.len() == N,
            n1[h - 1].key == key,
            n1[h - 1].value == value,
            forall|i: int|
                0 <= i < N && i != h - 1 ==> (#[trigger] n1[i]).key == before.nodes@[i].key
                    && n1[i].value == before.nodes@[i].value,
            forall|x: Handle|
                1 <= x <= N && x != h && !g.order.contains(x) ==> #[trigger] n1[x - 1]
                    == before.nodes@[x - 1],
            linked(self.nodes@, self.root, g2),
            balanced(self.nodes@, g2),
            red_ok(self.nodes@, g2, NIL),
            color_at(self.nodes@, self.root) == BLACK,
            g2.order == g.order.insert(p, h),
            same_payload(n1, self.nodes@),
            forall|x: Handle|
                1 <= x <= N && !g2.order.contains(x) ==> #[trigger] self.nodes@[x - 1] == n1[x
                    - 1],
            self.len == before.len + 1,
            free_chain(
                before.nodes@,
                self.free_head,
                if free.len() > 0 {
                    free.drop_first()
                } else {
                    free
                },
            ),
            self.bump == (if free.len() > 0 {
                before.bump as int
            } else {
                before.bump + 1
            }),
        ensures
            self.wf(),
            self.view() == before.view().inserted(key, value),
            before.view().insert_result(key) == Some(h),
    {
        let n0 = before.nodes@;
        let v = before.view();
        let free1 = if free.len() > 0 {
            free.drop_first()
        } else {
            free
        };
        v.lemma_position(key, p);
        lemma_accounted_insert(g, g2, free, v.bump, p, h);
        assert forall|i: int| 0 <= i < free1.len() implies #[trigger] free1[i] != h
            && !g.order.contains(free1[i]) by {
            assert(free1[i] == free[i + 1]);
            assert(free[0] != free[i + 1]);
            if g.order.contains(free[i + 1]) {
                let j = choose|j: int| 0 <= j < g.order.len() && g.order[j] == free[i + 1];
                assert(g.label(g.order[j]).pos == j);
                assert(g.live(free[i + 1]));
            }
        }
        assert forall|x: Handle|
            1 <= x <= N && x != h && !g.order.contains(x) implies #[trigger] self.nodes@[x - 1]
            == n0[x - 1] by {
            assert(!g2.order.contains(x)) by {
                if g2.order.contains(x) {
                    let j = choose|j: int| 0 <= j < g2.order.len() && g2.order[j] == x;
                    if j < p {
                        assert(g.order[j] == x);
                    } else {
                        assert(g.order[j - 1] == x);
                    }
                }
            }
        }
        lemma_free_survives(n0, self.nodes@, self.free_head, g, free1, h);
        assert forall|i: int| 0 <= i < p implies n0[#[trigger] g.order[i] - 1].key.rank()
            < key.rank() by {
            assert(v.key_at(i) == n0[g.order[i] - 1].key);
        }
        assert forall|i: int| p <= i < g.order.len() implies n0[#[trigger] g.order[i]
            - 1].key.rank() > key.rank() by {
            assert(v.key_at(i) == n0[g.order[i] - 1].key);
        }
        lemma_sorted_insert(n0, self.nodes@, g.order, p, h, key);
        assert(self.described_by(g2, free1));
        self.lemma_described(g2, free1);
        assert(self.view().keys =~= v.keys.update(h - 1, key));
        assert(self.view().values =~= v.values.update(h - 1, value));
        assert(self.view() =~= v.inserted(key, value));
    }

    /// Inserts `key`, or overwrites the value if `key` is already present.
    ///
    /// Returns the entry's handle, or `None` if the tree is at capacity and `key` is
    /// new. Overwriting an existing key succeeds even at capacity, which is what lets a
    /// full book still take partial fills.
    pub fn insert(&mut self, key: K, value: V) -> (handle: Option<Handle>)
        requires
            old(self).wf(),
        ensures
            final(self).wf(),
            handle == old(self).view().insert_result(key),
            final(self).view() == old(self).view().inserted(key, value),
    {
        let ghost v = self.view();
        let ghost (g, free) = self.description();
        let ghost n0 = self.nodes@;
        let ghost root0 = self.root;
        let ghost mut lo: int = 0;
        let ghost mut hi: int = g.order.len() as int;
        proof {
            assert(self.described_by(g, free));
            self.lemma_described(g, free);
            self.lemma_wf();
            assert(v.order == g.order);
        }
        let mut parent = NIL;
        let mut current = self.root;
        let mut goes_left = false;

        while current != NIL
            invariant
                *self == *old(self),
                self.described_by(g, free),
                self.wf(),
                n0 == self.nodes@,
                root0 == self.root,
                v == self.view(),
                v.order == g.order,
                v.free == free,
                v.wf(),
                parent <= N,
                0 <= lo <= hi <= g.order.len(),
                if current == NIL {
                    lo == hi
                } else {
                    g.live(current) && g.label(current).lo == lo && g.label(current).hi == hi
                },
                if parent == NIL {
                    current == root0 && lo == 0 && hi == g.order.len()
                } else {
                    &&& g.live(parent)
                    &&& current == (if goes_left {
                        n0[parent - 1].left
                    } else {
                        n0[parent - 1].right
                    })
                    &&& if goes_left {
                        hi == g.label(parent).pos
                    } else {
                        lo == g.label(parent).pos + 1
                    }
                },
                forall|i: int| 0 <= i < lo ==> (#[trigger] v.key_at(i)).rank() < key.rank(),
                forall|i: int|
                    hi <= i < g.order.len() ==> (#[trigger] v.key_at(i)).rank() > key.rank(),
            decreases hi - lo,
        {
            proof {
                assert(node_linked(self.nodes@, self.root, g, current));
            }
            let node = *self.node(current);
            let ghost pos = g.label(current).pos;
            assert(v.key_at(pos) == node.key);
            parent = current;
            if key.precedes(&node.key) {
                proof {
                    hi = pos;
                    assert forall|i: int| hi <= i < g.order.len() implies (#[trigger] v.key_at(
                        i,
                    )).rank() > key.rank() by {
                        if i > pos {
                            assert(v.key_at(pos).rank() < v.key_at(i).rank());
                        }
                    }
                }
                goes_left = true;
                current = node.left;
            } else if node.key.precedes(&key) {
                proof {
                    lo = pos + 1;
                    assert forall|i: int| 0 <= i < lo implies (#[trigger] v.key_at(i)).rank()
                        < key.rank() by {
                        if i < pos {
                            assert(v.key_at(i).rank() < v.key_at(pos).rank());
                        }
                    }
                }
                goes_left = false;
                current = node.right;
            } else {
                proof {
                    K::rank_injective(key, node.key);
                    v.lemma_position_present(key, pos);
                }
                self.node_mut(current).value = value;
                proof {
                    self.lemma_value_replaced(*old(self), current, value);
                }
                return Some(current);
            }
        }
        proof {
            assert(!v.contains_key(key)) by {
                if v.contains_key(key) {
                    let i = choose|i: int|
                        0 <= i < v.order.len() && #[trigger] v.key_at(i) == key;
                    assert(v.key_at(i).rank() == key.rank());
                }
            }
            assert(v.splits_at(key, lo));
            v.lemma_position(key, lo);
        }

        // Allocate before mutating any links, so a full tree leaves the tree untouched.
        let handle = match self.take_slot(Ghost(free)) {
            Some(handle) => handle,
            None => {
                return None;
            },
        };
        let ghost free1 = if free.len() > 0 {
            free.drop_first()
        } else {
            free
        };
        proof {
            assert(!g.live(handle)) by {
                if free.len() > 0 {
                    assert(!g.live(free[0]));
                }
            }
            assert(!g.order.contains(handle)) by {
                if g.order.contains(handle) {
                    let i = choose|i: int| 0 <= i < g.order.len() && g.order[i] == handle;
                    assert(g.label(g.order[i]).pos == i);
                }
            }
            assert(1 <= handle <= N) by {
                if free.len() > 0 {
                    assert(1 <= free[0] <= self.bump);
                }
            }
        }
        {
            let node = self.node_mut(handle);
            node.left = NIL;
            node.right = NIL;
            node.parent = parent;
            node.color = RED;
            node.key = key;
            node.value = value;
        }

        if parent == NIL {
            self.set_root(handle);
        } else if goes_left {
            self.node_mut(parent).left = handle;
        } else {
            self.node_mut(parent).right = handle;
        }
        proof {
            assert(leaf_attached(n0, self.nodes@, handle, parent, goes_left, key, value));
        }
        let ghost g1 = lemma_leaf_attached(
            n0,
            self.nodes@,
            root0,
            g,
            handle,
            parent,
            goes_left,
            key,
            value,
        );
        let ghost n1 = self.nodes@;

        self.increment_len();
        let layout = self.insert_fixup(handle, Ghost(g1));
        proof {
            self.lemma_insert_done(*old(self), n1, g, layout@, free, lo, handle, key, value);
        }
        Some(handle)
    }

    /// One round of the rebalance when the parent is a left child.
    fn insert_fixup_left(
        &mut self,
        z: Handle,
        parent: Handle,
        grandparent: Handle,
        Ghost(g): Ghost<Layout>,
    ) -> (next: (Handle, Ghost<Layout>))
        requires
            almost_red_black(old(self).nodes@, old(self).root, g, z),
            parent == old(self).nodes@[z - 1].parent,
            color_at(old(self).nodes@, parent) == RED,
            grandparent == old(self).nodes@[parent - 1].parent,
            old(self).nodes@[grandparent - 1].left == parent,
        ensures
            almost_red_black(final(self).nodes@, final(self).root, next.1@, next.0),
            next.1@.order == g.order,
            same_payload(old(self).nodes@, final(self).nodes@),
            free_untouched(old(self).nodes@, final(self).nodes@, g),
            final(self).free_head == old(self).free_head,
            final(self).bump == old(self).bump,
            final(self).len == old(self).len,
            color_at(final(self).nodes@, final(self).nodes@[next.0 - 1].parent) != RED
                || next.1@.label(next.0).hi - next.1@.label(next.0).lo > g.label(z).hi
                - g.label(z).lo,
    {
        let ghost n0 = self.nodes@;
        let ghost root0 = self.root;
        let ghost g0 = g;
        let ghost mut g = g;
        proof {
            lemma_violation(n0, root0, g, z);
            assert(node_linked(n0, root0, g, grandparent));
            assert(node_linked(n0, root0, g, parent));
            assert(node_linked(n0, root0, g, z));
        }
        let uncle = self.right_of(grandparent);
        proof {
            if uncle != NIL {
                assert(node_balanced(n0, g, uncle));
            }
        }
        if self.color_of(uncle) == RED {
            // Case 1: red uncle. Recolour and push the violation upward.
            self.set_color(parent, BLACK);
            self.set_color(uncle, BLACK);
            self.set_color(grandparent, RED);
            proof {
                g = lemma_recolor(n0, self.nodes@, root0, g, z, parent, uncle, grandparent);
                lemma_live_in_order(g0, parent);
                lemma_live_in_order(g0, uncle);
                lemma_live_in_order(g0, grandparent);
            }
            return (grandparent, Ghost(g));
        }
        let mut z = z;
        let mut parent = parent;
        if z == self.right_of(parent) {
            // Case 2: zig-zag. Straighten it into a zig-zig.
            let ghost z0 = z;
            z = parent;
            self.rotate_left(z, Ghost(g));
            proof {
                lemma_straighten_left(n0, self.nodes@, root0, g, z0, parent, grandparent);
                lemma_rotation_touches_live_left(n0, self.nodes@, root0, g, z);
                g = layout_rotated_left(g, z, z0);
            }
            parent = self.parent_of(z);
        }
        // Case 3: zig-zig. Recolour, rotate, done.
        let ghost n1 = self.nodes@;
        self.set_color(parent, BLACK);
        let grandparent = self.parent_of(parent);
        self.set_color(grandparent, RED);
        let ghost n2 = self.nodes@;
        proof {
            lemma_violation(n1, root0, g, z);
            lemma_same_links(n1, n2, root0, g, g);
            lemma_live_in_order(g, parent);
            lemma_live_in_order(g, grandparent);
        }
        self.rotate_right(grandparent, Ghost(g));
        proof {
            lemma_rotation_touches_live_right(n2, self.nodes@, root0, g, grandparent);
            g = lemma_lift_left(n1, n2, self.nodes@, root0, self.root, g, z, parent, grandparent);
        }
        (z, Ghost(g))
    }

    /// One round of the rebalance when the parent is a right child.
    fn insert_fixup_right(
        &mut self,
        z: Handle,
        parent: Handle,
        grandparent: Handle,
        Ghost(g): Ghost<Layout>,
    ) -> (next: (Handle, Ghost<Layout>))
        requires
            almost_red_black(old(self).nodes@, old(self).root, g, z),
            parent == old(self).nodes@[z - 1].parent,
            color_at(old(self).nodes@, parent) == RED,
            grandparent == old(self).nodes@[parent - 1].parent,
            old(self).nodes@[grandparent - 1].right == parent,
        ensures
            almost_red_black(final(self).nodes@, final(self).root, next.1@, next.0),
            next.1@.order == g.order,
            same_payload(old(self).nodes@, final(self).nodes@),
            free_untouched(old(self).nodes@, final(self).nodes@, g),
            final(self).free_head == old(self).free_head,
            final(self).bump == old(self).bump,
            final(self).len == old(self).len,
            color_at(final(self).nodes@, final(self).nodes@[next.0 - 1].parent) != RED
                || next.1@.label(next.0).hi - next.1@.label(next.0).lo > g.label(z).hi
                - g.label(z).lo,
    {
        let ghost n0 = self.nodes@;
        let ghost root0 = self.root;
        let ghost g0 = g;
        let ghost mut g = g;
        proof {
            lemma_violation(n0, root0, g, z);
            assert(node_linked(n0, root0, g, grandparent));
            assert(node_linked(n0, root0, g, parent));
            assert(node_linked(n0, root0, g, z));
        }
        let uncle = self.left_of(grandparent);
        proof {
            if uncle != NIL {
                assert(node_balanced(n0, g, uncle));
            }
        }
        if self.color_of(uncle) == RED {
            // Case 1: red uncle. Recolour and push the violation upward.
            self.set_color(parent, BLACK);
            self.set_color(uncle, BLACK);
            self.set_color(grandparent, RED);
            proof {
                g = lemma_recolor(n0, self.nodes@, root0, g, z, parent, uncle, grandparent);
                lemma_live_in_order(g0, parent);
                lemma_live_in_order(g0, uncle);
                lemma_live_in_order(g0, grandparent);
            }
            return (grandparent, Ghost(g));
        }
        let mut z = z;
        let mut parent = parent;
        if z == self.left_of(parent) {
            // Case 2: zig-zag. Straighten it into a zig-zig.
            let ghost z0 = z;
            z = parent;
            self.rotate_right(z, Ghost(g));
            proof {
                lemma_straighten_right(n0, self.nodes@, root0, g, z0, parent, grandparent);
                lemma_rotation_touches_live_right(n0, self.nodes@, root0, g, z);
                g = layout_rotated_right(g, z, z0);
            }
            parent = self.parent_of(z);
        }
        // Case 3: zig-zig. Recolour, rotate, done.
        let ghost n1 = self.nodes@;
        self.set_color(parent, BLACK);
        let grandparent = self.parent_of(parent);
        self.set_color(grandparent, RED);
        let ghost n2 = self.nodes@;
        proof {
            lemma_violation(n1, root0, g, z);
            lemma_same_links(n1, n2, root0, g, g);
            lemma_live_in_order(g, parent);
            lemma_live_in_order(g, grandparent);
        }
        self.rotate_left(grandparent, Ghost(g));
        proof {
            lemma_rotation_touches_live_left(n2, self.nodes@, root0, g, grandparent);
            g = lemma_lift_right(n1, n2, self.nodes@, root0, self.root, g, z, parent, grandparent);
        }
        (z, Ghost(g))
    }

    /// Restores the red-black properties around the new red node `z`.
    ///
    /// `z` is red and may violate the red-red property. Each iteration either recolours
    /// and moves the violation two levels up (case 1), or rotates and terminates
    /// (cases 2 and 3) — so this runs in O(log n) with at most two rotations.
    fn insert_fixup(&mut self, z: Handle, Ghost(g0): Ghost<Layout>) -> (g: Ghost<Layout>)
        requires
            almost_red_black(old(self).nodes@, old(self).root, g0, z),
        ensures
            linked(final(self).nodes@, final(self).root, g@),
            balanced(final(self).nodes@, g@),
            red_ok(final(self).nodes@, g@, NIL),
            color_at(final(self).nodes@, final(self).root) == BLACK,
            g@.order == g0.order,
            same_payload(old(self).nodes@, final(self).nodes@),
            final(self).free_head == old(self).free_head,
            final(self).bump == old(self).bump,
            final(self).len == old(self).len,
            free_untouched(old(self).nodes@, final(self).nodes@, g0),
    {
        let mut z = z;
        let ghost mut g = g0;
        proof {
            assert(node_linked(self.nodes@, self.root, g, z));
        }
        while self.color_of(self.parent_of(z)) == RED
            invariant
                almost_red_black(self.nodes@, self.root, g, z),
                node_linked(self.nodes@, self.root, g, z),
                g.order == g0.order,
                same_payload(old(self).nodes@, self.nodes@),
                self.free_head == old(self).free_head,
                self.bump == old(self).bump,
                self.len == old(self).len,
                free_untouched(old(self).nodes@, self.nodes@, g0),
            decreases
                if color_at(self.nodes@, self.nodes@[z - 1].parent) == RED {
                    1 + g.order.len() - (g.label(z).hi - g.label(z).lo)
                } else {
                    0
                },
        {
            let ghost n0 = self.nodes@;
            let ghost root0 = self.root;
            proof {
                lemma_violation(n0, root0, g, z);
            }
            let parent = self.parent_of(z);
            // The parent is red, so it is not the root, so the grandparent exists.
            let grandparent = self.parent_of(parent);
            proof {
                assert(node_linked(n0, root0, g, grandparent));
                assert(node_linked(n0, root0, g, parent));
            }

            let (next, layout) = if parent == self.left_of(grandparent) {
                self.insert_fixup_left(z, parent, grandparent, Ghost(g))
            } else {
                self.insert_fixup_right(z, parent, grandparent, Ghost(g))
            };
            z = next;
            proof {
                g = layout@;
            }
            proof {
                assert(node_linked(self.nodes@, self.root, g, z));
            }
        }
        // Case 1 can leave the root red; this is the only place the black height grows.
        let root = self.root;
        let ghost n1 = self.nodes@;
        self.set_color(root, BLACK);
        proof {
            g = lemma_blacken_root(n1, self.nodes@, self.root, g, z);
        }
        Ghost(g)
    }
}

} // verus!
