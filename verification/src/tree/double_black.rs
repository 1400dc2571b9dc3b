//! One black node short: the state a removal leaves to be rebalanced, and the steps that
//! mend it.

use vstd::prelude::*;

#[allow(unused_imports)]
use super::layout::{
    balanced, color_at, lemma_same_links, linked, node_balanced, node_linked, node_red_ok,
    red_ok, Label, Layout,
};
use super::node::{Handle, Node, BLACK, NIL, RED};
#[allow(unused_imports)]
use super::rotate::{
    layout_rotated_left, layout_rotated_right, rotated_left, rotated_right,
};

verus! {

/// The child `x` of `p` is one black node short of its sibling.
pub(crate) open spec fn node_short<K, V>(nodes: Seq<Node<K, V>>, g: Layout, p: Handle, x: Handle) -> bool {
    let node = nodes[p - 1];
    let sibling = if node.left == x {
        node.right
    } else {
        node.left
    };
    &&& node.color == RED || node.color == BLACK
    &&& node.left == x || node.right == x
    &&& sibling != NIL
    &&& sibling != x
    &&& g.height_of(sibling) == g.height_of(x) + 1
    &&& g.label(p).height == g.height_of(sibling) + if node.color == BLACK {
        1int
    } else {
        0int
    }
    &&& g.height_of(x) >= 1
}

/// The tree is red-black but for `x`, the child of `p` that carries one extra black.
///
/// `x` may be red, whatever its neighbours are: blackening it absorbs the extra black.
pub(crate) open spec fn double_black<K, V>(
    nodes: Seq<Node<K, V>>,
    root: Handle,
    g: Layout,
    x: Handle,
    p: Handle,
) -> bool {
    &&& linked(nodes, root, g)
    &&& x == NIL || g.live(x) && nodes[x - 1].parent == p
    &&& (p == NIL) == (x == root)
    &&& p != NIL ==> g.live(p) && node_short(nodes, g, p, x)
    &&& forall|h: Handle| g.live(h) && h != p ==> #[trigger] node_balanced(nodes, g, h)
    &&& forall|h: Handle| g.live(h) && h != x ==> #[trigger] node_red_ok(nodes, h, x)
    &&& root == x || nodes[root - 1].color == BLACK
}

/// Colours are red or black throughout.
pub(crate) proof fn lemma_color<K, V>(
    nodes: Seq<Node<K, V>>,
    root: Handle,
    g: Layout,
    x: Handle,
    p: Handle,
    h: Handle,
)
    requires
        double_black(nodes, root, g, x, p),
        h == NIL || g.live(h),
    ensures
        color_at(nodes, h) == RED || color_at(nodes, h) == BLACK,
        h != p ==> g.height_of(h) >= 1,
{
    if h != NIL && h != p {
        assert(node_balanced(nodes, g, h));
    }
}

/// Absorbing the extra black into a red node, or into the root.
pub(crate) proof fn lemma_absorb<K, V>(
    nodes: Seq<Node<K, V>>,
    after: Seq<Node<K, V>>,
    root: Handle,
    g: Layout,
    x: Handle,
    p: Handle,
) -> (g1: Layout)
    requires
        double_black(nodes, root, g, x, p),
        x == root || color_at(nodes, x) != BLACK,
        after == (if x == NIL {
            nodes
        } else {
            nodes.update(x - 1, Node { color: BLACK, ..nodes[x - 1] })
        }),
    ensures
        linked(after, root, g1),
        balanced(after, g1),
        red_ok(after, g1, NIL),
        color_at(after, root) == BLACK,
        g1.order == g.order,
{
    if x == NIL {
        assert(root == NIL);
        g
    } else {
        assert(node_balanced(nodes, g, x)) by {
            assert(node_linked(nodes, root, g, x));
        }
        let height = g.label(x).height + if nodes[x - 1].color == RED {
            1int
        } else {
            0int
        };
        let g1 = g.relabel(x, Label { height, ..g.label(x) });
        lemma_same_links(nodes, after, root, g, g1);
        assert(node_linked(nodes, root, g, x));
        if p != NIL {
            assert(node_linked(nodes, root, g, p));
        }
        assert forall|h: Handle| g1.live(h) implies #[trigger] node_balanced(after, g1, h) by {
            assert(g.live(h));
            assert(node_linked(nodes, root, g, h));
            if h != p {
                assert(node_balanced(nodes, g, h));
                assert(h != x ==> nodes[h - 1].left != x && nodes[h - 1].right != x);
            } else {
                let s = if nodes[p - 1].left == x {
                    nodes[p - 1].right
                } else {
                    nodes[p - 1].left
                };
                assert(g1.height_of(s) == g.height_of(s));
            }
        }
        assert forall|h: Handle| g1.live(h) implies #[trigger] node_red_ok(after, h, NIL) by {
            assert(g.live(h));
            assert(node_linked(nodes, root, g, h));
            if h != x {
                assert(node_red_ok(nodes, h, x));
            }
        }
        g1
    }
}

/// Case 1, left: a red sibling is rotated away.
pub(crate) proof fn lemma_red_sibling_left<K, V>(
    nodes: Seq<Node<K, V>>,
    colored: Seq<Node<K, V>>,
    after: Seq<Node<K, V>>,
    root: Handle,
    root1: Handle,
    g: Layout,
    x: Handle,
    p: Handle,
    s: Handle,
) -> (g1: Layout)
    requires
        double_black(nodes, root, g, x, p),
        p != NIL,
        nodes[p - 1].left == x,
        color_at(nodes, x) == BLACK,
        s == nodes[p - 1].right,
        color_at(nodes, s) == RED,
        colored == nodes.update(s - 1, Node { color: BLACK, ..nodes[s - 1] }).update(
            p - 1,
            Node { color: RED, ..nodes[p - 1] },
        ),
        rotated_left(colored, after, p),
        linked(after, root1, layout_rotated_left(g, p, s)),
        root1 == (if nodes[p - 1].parent == NIL {
            s
        } else {
            root
        }),
    ensures
        double_black(after, root1, g1, x, p),
        after[p - 1].left == x,
        after[p - 1].color == RED,
        color_at(after, x) == BLACK,
        after[p - 1].right != NIL,
        color_at(after, after[p - 1].right) == BLACK,
        g1.order == g.order,
{
    let g0 = layout_rotated_left(g, p, s);
    let g1 = g0.relabel(s, Label { height: g.label(p).height, ..g0.label(s) }).relabel(
        p,
        Label { height: g.label(s).height, ..g0.label(p) },
    );
    let b = nodes[s - 1].left;
    let c = nodes[s - 1].right;
    let top = nodes[p - 1].parent;
    assert(node_linked(nodes, root, g, p));
    assert(node_linked(nodes, root, g, s));
    assert(node_balanced(nodes, g, s));
    lemma_same_links(after, after, root1, g0, g1);
    assert(node_red_ok(nodes, s, x));
    assert(node_red_ok(nodes, p, x));
    if x != NIL {
        assert(node_linked(nodes, root, g, x));
    }
    if b != NIL {
        assert(node_linked(nodes, root, g, b));
        assert(node_balanced(nodes, g, b));
    }
    if c != NIL {
        assert(node_linked(nodes, root, g, c));
        assert(node_balanced(nodes, g, c));
    }
    if top != NIL {
        assert(node_linked(nodes, root, g, top));
        assert(node_balanced(nodes, g, top));
    }
    assert(after[s - 1].left == p && after[s - 1].right == c && after[s - 1].color == BLACK);
    assert(after[p - 1].left == x && after[p - 1].right == b && after[p - 1].color == RED);
    assert forall|h: Handle| g.live(h) && h != p && h != s && h != top implies {
        &&& (#[trigger] after[h - 1]).left == nodes[h - 1].left
        &&& after[h - 1].right == nodes[h - 1].right
        &&& after[h - 1].color == nodes[h - 1].color
        &&& nodes[h - 1].left != p && nodes[h - 1].left != s
        &&& nodes[h - 1].right != p && nodes[h - 1].right != s
    } by {
        assert(node_linked(nodes, root, g, h));
    }
    assert(g1.height_of(s) == g.height_of(p));
    assert(g1.height_of(p) == g.height_of(s));
    assert forall|h: Handle| h != p && h != s && (h == NIL || g.live(h)) implies
        #[trigger] g1.height_of(h) == g.height_of(h) by {}
    assert(x != s && x != p && b != p && b != s && c != p && c != s);
    assert(g.height_of(b) == g.height_of(s));
    assert(b != NIL);
    assert(color_at(after, b) == color_at(nodes, b));
    assert(node_short(after, g1, p, x));
    assert forall|h: Handle| g1.live(h) && h != p implies #[trigger] node_balanced(
        after,
        g1,
        h,
    ) by {
        assert(g.live(h));
        assert(node_linked(nodes, root, g, h));
        assert(node_balanced(nodes, g, h));
        if h == s {
        } else if h == top {
        } else {
            assert(after[h - 1].left == nodes[h - 1].left);
        }
    }
    assert forall|h: Handle| g1.live(h) && h != x implies #[trigger] node_red_ok(
        after,
        h,
        x,
    ) by {
        assert(g.live(h));
        assert(node_linked(nodes, root, g, h));
        assert(node_red_ok(nodes, h, x));
        if h == s {
        } else if h == p {
        } else if h == top {
            let l = nodes[h - 1].left;
            let r = nodes[h - 1].right;
            assert(l != NIL && l != p ==> color_at(after, l) == color_at(nodes, l));
            assert(r != NIL && r != p ==> color_at(after, r) == color_at(nodes, r));
        } else {
            assert(after[h - 1].left == nodes[h - 1].left);
            let l = nodes[h - 1].left;
            let r = nodes[h - 1].right;
            assert(l != NIL ==> color_at(after, l) == color_at(nodes, l));
            assert(r != NIL ==> color_at(after, r) == color_at(nodes, r));
        }
    }
    g1
}

/// Case 3, left: a red near nephew is rotated into the far position.
pub(crate) proof fn lemma_near_nephew_left<K, V>(
    nodes: Seq<Node<K, V>>,
    colored: Seq<Node<K, V>>,
    after: Seq<Node<K, V>>,
    root: Handle,
    g: Layout,
    x: Handle,
    p: Handle,
    s: Handle,
    n: Handle,
) -> (g1: Layout)
    requires
        double_black(nodes, root, g, x, p),
        p != NIL,
        nodes[p - 1].left == x,
        color_at(nodes, x) == BLACK,
        s == nodes[p - 1].right,
        color_at(nodes, s) == BLACK,
        n == nodes[s - 1].left,
        color_at(nodes, n) == RED,
        color_at(nodes, nodes[s - 1].right) == BLACK,
        colored == nodes.update(n - 1, Node { color: BLACK, ..nodes[n - 1] }).update(
            s - 1,
            Node { color: RED, ..nodes[s - 1] },
        ),
        rotated_right(colored, after, s),
        linked(after, root, layout_rotated_right(g, s, n)),
    ensures
        double_black(after, root, g1, x, p),
        after[p - 1].left == x,
        after[p - 1].right == n,
        after[p - 1].parent == nodes[p - 1].parent,
        color_at(after, x) == BLACK,
        color_at(after, n) == BLACK,
        after[n - 1].right == s,
        color_at(after, s) == RED,
        g1.order == g.order,
{
    let g0 = layout_rotated_right(g, s, n);
    let g1 = g0.relabel(n, Label { height: g.label(s).height, ..g0.label(n) }).relabel(
        s,
        Label { height: g.label(n).height, ..g0.label(s) },
    );
    let b = nodes[n - 1].right;
    let a = nodes[n - 1].left;
    let c = nodes[s - 1].right;
    assert(node_linked(nodes, root, g, p));
    assert(node_linked(nodes, root, g, s));
    assert(node_linked(nodes, root, g, n));
    lemma_same_links(after, after, root, g0, g1);
    assert(node_balanced(nodes, g, s));
    assert(node_balanced(nodes, g, n));
    assert(node_red_ok(nodes, n, x));
    assert(node_red_ok(nodes, p, x));
    if x != NIL {
        assert(node_linked(nodes, root, g, x));
    }
    if b != NIL {
        assert(node_linked(nodes, root, g, b));
    }
    if a != NIL {
        assert(node_linked(nodes, root, g, a));
    }
    if c != NIL {
        assert(node_linked(nodes, root, g, c));
    }
    assert(after[n - 1].right == s && after[n - 1].left == a && after[n - 1].color == BLACK);
    assert(after[s - 1].left == b && after[s - 1].right == c && after[s - 1].color == RED);
    assert(after[p - 1].left == x && after[p - 1].right == n && after[p - 1].color == nodes[p
        - 1].color);
    assert forall|h: Handle| g.live(h) && h != p && h != s && h != n implies {
        &&& (#[trigger] after[h - 1]).left == nodes[h - 1].left
        &&& after[h - 1].right == nodes[h - 1].right
        &&& after[h - 1].color == nodes[h - 1].color
        &&& nodes[h - 1].left != n && nodes[h - 1].left != s
        &&& nodes[h - 1].right != n && nodes[h - 1].right != s
    } by {
        assert(node_linked(nodes, root, g, h));
    }
    assert(g1.height_of(s) == g.height_of(n));
    assert(g1.height_of(n) == g.height_of(s));
    assert forall|h: Handle| h != n && h != s && (h == NIL || g.live(h)) implies
        #[trigger] g1.height_of(h) == g.height_of(h) by {}
    assert(x != s && x != n && x != p && b != p && b != s && b != n && c != p && c != s && c
        != n && a != s && a != n && a != p);
    assert(a != x && b != x || x == NIL);
    assert(color_at(after, x) == color_at(nodes, x));
    assert(node_short(after, g1, p, x));
    assert forall|h: Handle| g1.live(h) && h != p implies #[trigger] node_balanced(
        after,
        g1,
        h,
    ) by {
        assert(g.live(h));
        assert(node_linked(nodes, root, g, h));
        assert(node_balanced(nodes, g, h));
        if h == s {
        } else if h == n {
        } else {
            assert(after[h - 1].left == nodes[h - 1].left);
        }
    }
    assert forall|h: Handle| g1.live(h) && h != x implies #[trigger] node_red_ok(
        after,
        h,
        x,
    ) by {
        assert(g.live(h));
        assert(node_linked(nodes, root, g, h));
        assert(node_red_ok(nodes, h, x));
        if h == s {
            assert(color_at(after, b) == color_at(nodes, b));
            assert(color_at(after, c) == color_at(nodes, c));
        } else if h == n {
        } else if h == p {
        } else {
            assert(after[h - 1].left == nodes[h - 1].left);
            let l = nodes[h - 1].left;
            let r = nodes[h - 1].right;
            assert(l != NIL ==> color_at(after, l) == color_at(nodes, l));
            assert(r != NIL ==> color_at(after, r) == color_at(nodes, r));
        }
    }
    g1
}

/// Case 4, left: with a red far nephew, a rotation absorbs the extra black.
pub(crate) proof fn lemma_far_nephew_left<K, V>(
    nodes: Seq<Node<K, V>>,
    colored: Seq<Node<K, V>>,
    after: Seq<Node<K, V>>,
    root: Handle,
    root1: Handle,
    g: Layout,
    x: Handle,
    p: Handle,
    s: Handle,
    f: Handle,
) -> (g1: Layout)
    requires
        double_black(nodes, root, g, x, p),
        p != NIL,
        nodes[p - 1].left == x,
        color_at(nodes, x) == BLACK,
        s == nodes[p - 1].right,
        color_at(nodes, s) == BLACK,
        f == nodes[s - 1].right,
        color_at(nodes, f) == RED,
        colored == nodes.update(s - 1, Node { color: nodes[p - 1].color, ..nodes[s - 1] }).update(
            p - 1,
            Node { color: BLACK, ..nodes[p - 1] },
        ).update(f - 1, Node { color: BLACK, ..nodes[f - 1] }),
        rotated_left(colored, after, p),
        linked(after, root1, layout_rotated_left(g, p, s)),
        root1 == (if nodes[p - 1].parent == NIL {
            s
        } else {
            root
        }),
    ensures
        double_black(after, root1, g1, root1, NIL),
        g1.order == g.order,
{
    let g0 = layout_rotated_left(g, p, s);
    let g1 = g0.relabel(s, Label { height: g.label(p).height, ..g0.label(s) }).relabel(
        p,
        Label { height: g.height_of(x) + 1, ..g0.label(p) },
    ).relabel(f, Label { height: g.label(f).height + 1, ..g0.label(f) });
    let b = nodes[s - 1].left;
    let top = nodes[p - 1].parent;
    assert(node_linked(nodes, root, g, p));
    assert(node_linked(nodes, root, g, s));
    assert(node_linked(nodes, root, g, f));
    assert(node_balanced(nodes, g, s));
    assert(node_balanced(nodes, g, f));
    assert(node_red_ok(nodes, p, x));
    assert(node_red_ok(nodes, f, x));
    lemma_same_links(after, after, root1, g0, g1);
    if x != NIL {
        assert(node_linked(nodes, root, g, x));
    }
    if b != NIL {
        assert(node_linked(nodes, root, g, b));
    }
    if top != NIL {
        assert(node_linked(nodes, root, g, top));
        assert(node_balanced(nodes, g, top));
        assert(node_red_ok(nodes, top, x));
    }
    assert(after[s - 1].left == p && after[s - 1].right == f && after[s - 1].color == nodes[p
        - 1].color);
    assert(after[p - 1].left == x && after[p - 1].right == b && after[p - 1].color == BLACK);
    assert(after[f - 1].left == nodes[f - 1].left && after[f - 1].right == nodes[f - 1].right
        && after[f - 1].color == BLACK);
    assert forall|h: Handle| g.live(h) && h != p && h != s && h != top && h != f implies {
        &&& (#[trigger] after[h - 1]).left == nodes[h - 1].left
        &&& after[h - 1].right == nodes[h - 1].right
        &&& after[h - 1].color == nodes[h - 1].color
    } by {
        assert(node_linked(nodes, root, g, h));
    }
    assert forall|h: Handle| g.live(h) && h != p && h != s && h != top implies {
        &&& (#[trigger] nodes[h - 1]).left != p && nodes[h - 1].left != s
        &&& nodes[h - 1].right != p && nodes[h - 1].right != s
        &&& nodes[h - 1].left != f && nodes[h - 1].right != f
    } by {
        assert(node_linked(nodes, root, g, h));
    }
    assert(g1.height_of(s) == g.height_of(p));
    assert(g1.height_of(p) == g.height_of(x) + 1);
    assert(g1.height_of(f) == g.height_of(f) + 1);
    assert forall|h: Handle|
        h != p && h != s && h != f && (h == NIL || g.live(h)) implies #[trigger] g1.height_of(h)
        == g.height_of(h) by {}
    assert(x != s && x != p && x != f && b != p && b != s && b != f && f != p && f != s);
    assert forall|h: Handle| g1.live(h) && h != NIL implies #[trigger] node_balanced(
        after,
        g1,
        h,
    ) by {
        assert(g.live(h));
        assert(node_linked(nodes, root, g, h));
        if h == s {
        } else if h == p {
        } else if h == top {
            assert(nodes[h - 1].left != f && nodes[h - 1].right != f);
            assert(nodes[h - 1].left != s && nodes[h - 1].right != s);
        } else if h == f {
            assert(nodes[h - 1].left != p);
        } else {
            assert(node_balanced(nodes, g, h));
            assert(after[h - 1].left == nodes[h - 1].left);
            assert(nodes[h - 1].left != p);
        }
    }
    assert forall|h: Handle| g1.live(h) && h != root1 implies #[trigger] node_red_ok(
        after,
        h,
        root1,
    ) by {
        assert(g.live(h));
        assert(node_linked(nodes, root, g, h));
        if h == s {
        } else if h == p {
        } else if h == top {
            assert(nodes[h - 1].left != f && nodes[h - 1].right != f);
            let l = nodes[h - 1].left;
            let r = nodes[h - 1].right;
            assert(l != x || x == NIL);
            assert(r != x || x == NIL);
            assert(l != NIL && l != p ==> color_at(after, l) == color_at(nodes, l));
            assert(r != NIL && r != p ==> color_at(after, r) == color_at(nodes, r));
        } else if h == f {
        } else {
            assert(after[h - 1].left == nodes[h - 1].left);
            assert(nodes[h - 1].left != p);
            let l = nodes[h - 1].left;
            let r = nodes[h - 1].right;
            assert(l != x || x == NIL);
            assert(r != x || x == NIL);
            if h != x {
                assert(node_red_ok(nodes, h, x));
                assert(l != NIL ==> color_at(after, l) == color_at(nodes, l));
                assert(r != NIL ==> color_at(after, r) == color_at(nodes, r));
            } else {
                assert(color_at(after, h) == BLACK);
            }
        }
    }
    g1
}

/// Case 1, right: a red sibling is rotated away.
pub(crate) proof fn lemma_red_sibling_right<K, V>(
    nodes: Seq<Node<K, V>>,
    colored: Seq<Node<K, V>>,
    after: Seq<Node<K, V>>,
    root: Handle,
    root1: Handle,
    g: Layout,
    x: Handle,
    p: Handle,
    s: Handle,
) -> (g1: Layout)
    requires
        double_black(nodes, root, g, x, p),
        p != NIL,
        nodes[p - 1].right == x,
        color_at(nodes, x) == BLACK,
        s == nodes[p - 1].left,
        color_at(nodes, s) == RED,
        colored == nodes.update(s - 1, Node { color: BLACK, ..nodes[s - 1] }).update(
            p - 1,
            Node { color: RED, ..nodes[p - 1] },
        ),
        rotated_right(colored, after, p),
        linked(after, root1, layout_rotated_right(g, p, s)),
        root1 == (if nodes[p - 1].parent == NIL {
            s
        } else {
            root
        }),
    ensures
        double_black(after, root1, g1, x, p),
        after[p - 1].right == x,
        after[p - 1].color == RED,
        color_at(after, x) == BLACK,
        after[p - 1].left != NIL,
        color_at(after, after[p - 1].left) == BLACK,
        g1.order == g.order,
{
    let g0 = layout_rotated_right(g, p, s);
    let g1 = g0.relabel(s, Label { height: g.label(p).height, ..g0.label(s) }).relabel(
        p,
        Label { height: g.label(s).height, ..g0.label(p) },
    );
    let b = nodes[s - 1].right;
    let c = nodes[s - 1].left;
    let top = nodes[p - 1].parent;
    assert(node_linked(nodes, root, g, p));
    assert(node_linked(nodes, root, g, s));
    assert(node_balanced(nodes, g, s));
    lemma_same_links(after, after, root1, g0, g1);
    assert(node_red_ok(nodes, s, x));
    assert(node_red_ok(nodes, p, x));
    if x != NIL {
        assert(node_linked(nodes, root, g, x));
    }
    if b != NIL {
        assert(node_linked(nodes, root, g, b));
        assert(node_balanced(nodes, g, b));
    }
    if c != NIL {
        assert(node_linked(nodes, root, g, c));
        assert(node_balanced(nodes, g, c));
    }
    if top != NIL {
        assert(node_linked(nodes, root, g, top));
        assert(node_balanced(nodes, g, top));
    }
    assert(after[s - 1].right == p && after[s - 1].left == c && after[s - 1].color == BLACK);
    assert(after[p - 1].right == x && after[p - 1].left == b && after[p - 1].color == RED);
    assert forall|h: Handle| g.live(h) && h != p && h != s && h != top implies {
        &&& (#[trigger] after[h - 1]).left == nodes[h - 1].left
        &&& after[h - 1].right == nodes[h - 1].right
        &&& after[h - 1].color == nodes[h - 1].color
        &&& nodes[h - 1].left != p && nodes[h - 1].left != s
        &&& nodes[h - 1].right != p && nodes[h - 1].right != s
    } by {
        assert(node_linked(nodes, root, g, h));
    }
    assert(g1.height_of(s) == g.height_of(p));
    assert(g1.height_of(p) == g.height_of(s));
    assert forall|h: Handle| h != p && h != s && (h == NIL || g.live(h)) implies
        #[trigger] g1.height_of(h) == g.height_of(h) by {}
    assert(x != s && x != p && b != p && b != s && c != p && c != s);
    assert(g.height_of(b) == g.height_of(s));
    assert(b != NIL);
    assert(color_at(after, b) == color_at(nodes, b));
    assert(node_short(after, g1, p, x));
    assert forall|h: Handle| g1.live(h) && h != p implies #[trigger] node_balanced(
        after,
        g1,
        h,
    ) by {
        assert(g.live(h));
        assert(node_linked(nodes, root, g, h));
        assert(node_balanced(nodes, g, h));
        if h == s {
        } else if h == top {
        } else {
            assert(after[h - 1].left == nodes[h - 1].left);
        }
    }
    assert forall|h: Handle| g1.live(h) && h != x implies #[trigger] node_red_ok(
        after,
        h,
        x,
    ) by {
        assert(g.live(h));
        assert(node_linked(nodes, root, g, h));
        assert(node_red_ok(nodes, h, x));
        if h == s {
        } else if h == p {
        } else if h == top {
            let l = nodes[h - 1].left;
            let r = nodes[h - 1].right;
            assert(l != NIL && l != p ==> color_at(after, l) == color_at(nodes, l));
            assert(r != NIL && r != p ==> color_at(after, r) == color_at(nodes, r));
        } else {
            assert(after[h - 1].left == nodes[h - 1].left);
            let l = nodes[h - 1].left;
            let r = nodes[h - 1].right;
            assert(l != NIL ==> color_at(after, l) == color_at(nodes, l));
            assert(r != NIL ==> color_at(after, r) == color_at(nodes, r));
        }
    }
    g1
}

/// Case 3, right: a red near nephew is rotated into the far position.
pub(crate) proof fn lemma_near_nephew_right<K, V>(
    nodes: Seq<Node<K, V>>,
    colored: Seq<Node<K, V>>,
    after: Seq<Node<K, V>>,
    root: Handle,
    g: Layout,
    x: Handle,
    p: Handle,
    s: Handle,
    n: Handle,
) -> (g1: Layout)
    requires
        double_black(nodes, root, g, x, p),
        p != NIL,
        nodes[p - 1].right == x,
        color_at(nodes, x) == BLACK,
        s == nodes[p - 1].left,
        color_at(nodes, s) == BLACK,
        n == nodes[s - 1].right,
        color_at(nodes, n) == RED,
        color_at(nodes, nodes[s - 1].left) == BLACK,
        colored == nodes.update(n - 1, Node { color: BLACK, ..nodes[n - 1] }).update(
            s - 1,
            Node { color: RED, ..nodes[s - 1] },
        ),
        rotated_left(colored, after, s),
        linked(after, root, layout_rotated_left(g, s, n)),
    ensures
        double_black(after, root, g1, x, p),
        after[p - 1].right == x,
        after[p - 1].left == n,
        after[p - 1].parent == nodes[p - 1].parent,
        color_at(after, x) == BLACK,
        color_at(after, n) == BLACK,
        after[n - 1].left == s,
        color_at(after, s) == RED,
        g1.order == g.order,
{
    let g0 = layout_rotated_left(g, s, n);
    let g1 = g0.relabel(n, Label { height: g.label(s).height, ..g0.label(n) }).relabel(
        s,
        Label { height: g.label(n).height, ..g0.label(s) },
    );
    let b = nodes[n - 1].left;
    let a = nodes[n - 1].right;
    let c = nodes[s - 1].left;
    assert(node_linked(nodes, root, g, p));
    assert(node_linked(nodes, root, g, s));
    assert(node_linked(nodes, root, g, n));
    lemma_same_links(after, after, root, g0, g1);
    assert(node_balanced(nodes, g, s));
    assert(node_balanced(nodes, g, n));
    assert(node_red_ok(nodes, n, x));
    assert(node_red_ok(nodes, p, x));
    if x != NIL {
        assert(node_linked(nodes, root, g, x));
    }
    if b != NIL {
        assert(node_linked(nodes, root, g, b));
    }
    if a != NIL {
        assert(node_linked(nodes, root, g, a));
    }
    if c != NIL {
        assert(node_linked(nodes, root, g, c));
    }
    assert(after[n - 1].left == s && after[n - 1].right == a && after[n - 1].color == BLACK);
    assert(after[s - 1].right == b && after[s - 1].left == c && after[s - 1].color == RED);
    assert(after[p - 1].right == x && after[p - 1].left == n && after[p - 1].color == nodes[p
        - 1].color);
    assert forall|h: Handle| g.live(h) && h != p && h != s && h != n implies {
        &&& (#[trigger] after[h - 1]).left == nodes[h - 1].left
        &&& after[h - 1].right == nodes[h - 1].right
        &&& after[h - 1].color == nodes[h - 1].color
        &&& nodes[h - 1].left != n && nodes[h - 1].left != s
        &&& nodes[h - 1].right != n && nodes[h - 1].right != s
    } by {
        assert(node_linked(nodes, root, g, h));
    }
    assert(g1.height_of(s) == g.height_of(n));
    assert(g1.height_of(n) == g.height_of(s));
    assert forall|h: Handle| h != n && h != s && (h == NIL || g.live(h)) implies
        #[trigger] g1.height_of(h) == g.height_of(h) by {}
    assert(x != s && x != n && x != p && b != p && b != s && b != n && c != p && c != s && c
        != n && a != s && a != n && a != p);
    assert(a != x && b != x || x == NIL);
    assert(color_at(after, x) == color_at(nodes, x));
    assert(node_short(after, g1, p, x));
    assert forall|h: Handle| g1.live(h) && h != p implies #[trigger] node_balanced(
        after,
        g1,
        h,
    ) by {
        assert(g.live(h));
        assert(node_linked(nodes, root, g, h));
        assert(node_balanced(nodes, g, h));
        if h == s {
        } else if h == n {
        } else {
            assert(after[h - 1].left == nodes[h - 1].left);
        }
    }
    assert forall|h: Handle| g1.live(h) && h != x implies #[trigger] node_red_ok(
        after,
        h,
        x,
    ) by {
        assert(g.live(h));
        assert(node_linked(nodes, root, g, h));
        assert(node_red_ok(nodes, h, x));
        if h == s {
            assert(color_at(after, b) == color_at(nodes, b));
            assert(color_at(after, c) == color_at(nodes, c));
        } else if h == n {
        } else if h == p {
        } else {
            assert(after[h - 1].left == nodes[h - 1].left);
            let l = nodes[h - 1].left;
            let r = nodes[h - 1].right;
            assert(l != NIL ==> color_at(after, l) == color_at(nodes, l));
            assert(r != NIL ==> color_at(after, r) == color_at(nodes, r));
        }
    }
    g1
}

/// Case 4, right: with a red far nephew, a rotation absorbs the extra black.
pub(crate) proof fn lemma_far_nephew_right<K, V>(
    nodes: Seq<Node<K, V>>,
    colored: Seq<Node<K, V>>,
    after: Seq<Node<K, V>>,
    root: Handle,
    root1: Handle,
    g: Layout,
    x: Handle,
    p: Handle,
    s: Handle,
    f: Handle,
) -> (g1: Layout)
    requires
        double_black(nodes, root, g, x, p),
        p != NIL,
        nodes[p - 1].right == x,
        color_at(nodes, x) == BLACK,
        s == nodes[p - 1].left,
        color_at(nodes, s) == BLACK,
        f == nodes[s - 1].left,
        color_at(nodes, f) == RED,
        colored == nodes.update(s - 1, Node { color: nodes[p - 1].color, ..nodes[s - 1] }).update(
            p - 1,
            Node { color: BLACK, ..nodes[p - 1] },
        ).update(f - 1, Node { color: BLACK, ..nodes[f - 1] }),
        rotated_right(colored, after, p),
        linked(after, root1, layout_rotated_right(g, p, s)),
        root1 == (if nodes[p - 1].parent == NIL {
            s
        } else {
            root
        }),
    ensures
        double_black(after, root1, g1, root1, NIL),
        g1.order == g.order,
{
    let g0 = layout_rotated_right(g, p, s);
    let g1 = g0.relabel(s, Label { height: g.label(p).height, ..g0.label(s) }).relabel(
        p,
        Label { height: g.height_of(x) + 1, ..g0.label(p) },
    ).relabel(f, Label { height: g.label(f).height + 1, ..g0.label(f) });
    let b = nodes[s - 1].right;
    let top = nodes[p - 1].parent;
    assert(node_linked(nodes, root, g, p));
    assert(node_linked(nodes, root, g, s));
    assert(node_linked(nodes, root, g, f));
    assert(node_balanced(nodes, g, s));
    assert(node_balanced(nodes, g, f));
    assert(node_red_ok(nodes, p, x));
    assert(node_red_ok(nodes, f, x));
    lemma_same_links(after, after, root1, g0, g1);
    if x != NIL {
        assert(node_linked(nodes, root, g, x));
    }
    if b != NIL {
        assert(node_linked(nodes, root, g, b));
    }
    if top != NIL {
        assert(node_linked(nodes, root, g, top));
        assert(node_balanced(nodes, g, top));
        assert(node_red_ok(nodes, top, x));
    }
    assert(after[s - 1].right == p && after[s - 1].left == f && after[s - 1].color == nodes[p
        - 1].color);
    assert(after[p - 1].right == x && after[p - 1].left == b && after[p - 1].color == BLACK);
    assert(after[f - 1].left == nodes[f - 1].left && after[f - 1].right == nodes[f - 1].right
        && after[f - 1].color == BLACK);
    assert forall|h: Handle| g.live(h) && h != p && h != s && h != top && h != f implies {
        &&& (#[trigger] after[h - 1]).left == nodes[h - 1].left
        &&& after[h - 1].right == nodes[h - 1].right
        &&& after[h - 1].color == nodes[h - 1].color
    } by {
        assert(node_linked(nodes, root, g, h));
    }
    assert forall|h: Handle| g.live(h) && h != p && h != s && h != top implies {
        &&& (#[trigger] nodes[h - 1]).left != p && nodes[h - 1].left != s
        &&& nodes[h - 1].right != p && nodes[h - 1].right != s
        &&& nodes[h - 1].left != f && nodes[h - 1].right != f
    } by {
        assert(node_linked(nodes, root, g, h));
    }
    assert(g1.height_of(s) == g.height_of(p));
    assert(g1.height_of(p) == g.height_of(x) + 1);
    assert(g1.height_of(f) == g.height_of(f) + 1);
    assert forall|h: Handle|
        h != p && h != s && h != f && (h == NIL || g.live(h)) implies #[trigger] g1.height_of(h)
        == g.height_of(h) by {}
    assert(x != s && x != p && x != f && b != p && b != s && b != f && f != p && f != s);
    assert forall|h: Handle| g1.live(h) && h != NIL implies #[trigger] node_balanced(
        after,
        g1,
        h,
    ) by {
        assert(g.live(h));
        assert(node_linked(nodes, root, g, h));
        if h == s {
        } else if h == p {
        } else if h == top {
            assert(nodes[h - 1].left != f && nodes[h - 1].right != f);
            assert(nodes[h - 1].left != s && nodes[h - 1].right != s);
        } else if h == f {
            assert(nodes[h - 1].left != p);
        } else {
            assert(node_balanced(nodes, g, h));
            assert(after[h - 1].left == nodes[h - 1].left);
            assert(nodes[h - 1].left != p);
        }
    }
    assert forall|h: Handle| g1.live(h) && h != root1 implies #[trigger] node_red_ok(
        after,
        h,
        root1,
    ) by {
        assert(g.live(h));
        assert(node_linked(nodes, root, g, h));
        if h == s {
        } else if h == p {
        } else if h == top {
            assert(nodes[h - 1].left != f && nodes[h - 1].right != f);
            let l = nodes[h - 1].left;
            let r = nodes[h - 1].right;
            assert(l != x || x == NIL);
            assert(r != x || x == NIL);
            assert(l != NIL && l != p ==> color_at(after, l) == color_at(nodes, l));
            assert(r != NIL && r != p ==> color_at(after, r) == color_at(nodes, r));
        } else if h == f {
        } else {
            assert(after[h - 1].left == nodes[h - 1].left);
            assert(nodes[h - 1].left != p);
            let l = nodes[h - 1].left;
            let r = nodes[h - 1].right;
            assert(l != x || x == NIL);
            assert(r != x || x == NIL);
            if h != x {
                assert(node_red_ok(nodes, h, x));
                assert(l != NIL ==> color_at(after, l) == color_at(nodes, l));
                assert(r != NIL ==> color_at(after, r) == color_at(nodes, r));
            } else {
                assert(color_at(after, h) == BLACK);
            }
        }
    }
    g1
}

/// Case 2: both nephews black. The extra black moves up to the parent.
pub(crate) proof fn lemma_push_up<K, V>(
    nodes: Seq<Node<K, V>>,
    after: Seq<Node<K, V>>,
    root: Handle,
    g: Layout,
    x: Handle,
    p: Handle,
    s: Handle,
) -> (g1: Layout)
    requires
        double_black(nodes, root, g, x, p),
        p != NIL,
        color_at(nodes, x) == BLACK,
        x != s,
        nodes[p - 1].left == x && nodes[p - 1].right == s || nodes[p - 1].left == s && nodes[p
            - 1].right == x,
        color_at(nodes, s) == BLACK,
        s != NIL,
        color_at(nodes, nodes[s - 1].left) == BLACK,
        color_at(nodes, nodes[s - 1].right) == BLACK,
        after == nodes.update(s - 1, Node { color: RED, ..nodes[s - 1] }),
    ensures
        double_black(after, root, g1, p, nodes[p - 1].parent),
        g1.order == g.order,
        after[p - 1].color == nodes[p - 1].color,
        forall|h: Handle|
            g.live(h) ==> (#[trigger] g1.label(h)).lo == g.label(h).lo && g1.label(h).hi
                == g.label(h).hi,
{
    let g1 = g.relabel(s, Label { height: g.label(s).height - 1, ..g.label(s) }).relabel(
        p,
        Label { height: g.label(p).height - 1, ..g.label(p) },
    );
    let top = nodes[p - 1].parent;
    assert(node_linked(nodes, root, g, p));
    assert(node_linked(nodes, root, g, s));
    assert(node_balanced(nodes, g, s));
    lemma_same_links(nodes, after, root, g, g1);
    if x != NIL {
        assert(node_linked(nodes, root, g, x));
        assert(node_balanced(nodes, g, x));
    }
    if top != NIL {
        assert(node_linked(nodes, root, g, top));
        assert(node_balanced(nodes, g, top));
        let o = if nodes[top - 1].left == p {
            nodes[top - 1].right
        } else {
            nodes[top - 1].left
        };
        assert(o != s && o != p);
        assert(g1.height_of(o) == g.height_of(o));
        assert(g.height_of(p) >= 2);
        assert(node_short(after, g1, top, p));
    }
    assert forall|h: Handle| g1.live(h) && h != top implies #[trigger] node_balanced(
        after,
        g1,
        h,
    ) by {
        assert(g.live(h));
        assert(node_linked(nodes, root, g, h));
        if h != p {
            assert(node_balanced(nodes, g, h));
            if h != s {
                assert(nodes[h - 1].left != s && nodes[h - 1].right != s);
                assert(nodes[h - 1].left != p && nodes[h - 1].right != p);
            } else {
                assert(nodes[h - 1].left != s && nodes[h - 1].right != s);
                assert(nodes[h - 1].left != p && nodes[h - 1].right != p);
            }
        }
    }
    assert forall|h: Handle| g1.live(h) && h != p implies #[trigger] node_red_ok(
        after,
        h,
        p,
    ) by {
        assert(g.live(h));
        assert(node_linked(nodes, root, g, h));
        if h != x {
            assert(node_red_ok(nodes, h, x));
        }
        if h != s {
            assert(nodes[h - 1].left != s && nodes[h - 1].right != s);
        }
    }
    g1
}

} // verus!
