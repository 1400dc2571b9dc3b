//! Rotations — the only operations that change tree shape.

use vstd::prelude::*;

#[allow(unused_imports)]
use super::layout::{linked, node_linked, Label, Layout};
use super::node::{Handle, Node, TreeKey, TreeValue, NIL};
use super::RedBlackTree;

verus! {

/// `after` is `before` with `x` rotated down-left.
pub open spec fn rotated_left<K, V>(
    before: Seq<Node<K, V>>,
    after: Seq<Node<K, V>>,
    x: Handle,
) -> bool {
    let y = before[x - 1].right;
    let b = before[y - 1].left;
    let p = before[x - 1].parent;
    &&& after.len() == before.len()
    &&& after[x - 1] == (Node { right: b, parent: y, ..before[x - 1] })
    &&& after[y - 1] == (Node { left: x, parent: p, ..before[y - 1] })
    &&& b != NIL ==> after[b - 1] == (Node { parent: x, ..before[b - 1] })
    &&& p != NIL ==> after[p - 1] == (if before[p - 1].left == x {
        Node { left: y, ..before[p - 1] }
    } else {
        Node { right: y, ..before[p - 1] }
    })
    &&& forall|i: int|
        0 <= i < before.len() && i != x - 1 && i != y - 1 && i != b - 1 && i != p - 1
            ==> #[trigger] after[i] == before[i]
}

/// `after` is `before` with `x` rotated down-right.
pub open spec fn rotated_right<K, V>(
    before: Seq<Node<K, V>>,
    after: Seq<Node<K, V>>,
    x: Handle,
) -> bool {
    let y = before[x - 1].left;
    let b = before[y - 1].right;
    let p = before[x - 1].parent;
    &&& after.len() == before.len()
    &&& after[x - 1] == (Node { left: b, parent: y, ..before[x - 1] })
    &&& after[y - 1] == (Node { right: x, parent: p, ..before[y - 1] })
    &&& b != NIL ==> after[b - 1] == (Node { parent: x, ..before[b - 1] })
    &&& p != NIL ==> after[p - 1] == (if before[p - 1].right == x {
        Node { right: y, ..before[p - 1] }
    } else {
        Node { left: y, ..before[p - 1] }
    })
    &&& forall|i: int|
        0 <= i < before.len() && i != x - 1 && i != y - 1 && i != b - 1 && i != p - 1
            ==> #[trigger] after[i] == before[i]
}

/// The layout after rotating `x` down-left under its right child `y`.
pub open spec fn layout_rotated_left(g: Layout, x: Handle, y: Handle) -> Layout {
    g.relabel(x, Label { hi: g.label(y).pos, ..g.label(x) }).relabel(
        y,
        Label { lo: g.label(x).lo, ..g.label(y) },
    )
}

/// The layout after rotating `x` down-right under its left child `y`.
pub open spec fn layout_rotated_right(g: Layout, x: Handle, y: Handle) -> Layout {
    g.relabel(x, Label { lo: g.label(y).pos + 1, ..g.label(x) }).relabel(
        y,
        Label { hi: g.label(x).hi, ..g.label(y) },
    )
}

proof fn lemma_rotated_left<K, V>(
    before: Seq<Node<K, V>>,
    after: Seq<Node<K, V>>,
    root: Handle,
    g: Layout,
    x: Handle,
)
    requires
        linked(before, root, g),
        g.live(x),
        before[x - 1].right != NIL,
        rotated_left(before, after, x),
    ensures
        linked(
            after,
            if before[x - 1].parent == NIL {
                before[x - 1].right
            } else {
                root
            },
            layout_rotated_left(g, x, before[x - 1].right),
        ),
{
    let y = before[x - 1].right;
    let b = before[y - 1].left;
    let p = before[x - 1].parent;
    let g1 = layout_rotated_left(g, x, y);
    let root1 = if p == NIL {
        y
    } else {
        root
    };
    assert(node_linked(before, root, g, x));
    assert(node_linked(before, root, g, y));
    if p != NIL {
        assert(node_linked(before, root, g, p));
    }
    if b != NIL {
        assert(node_linked(before, root, g, b));
    }
    assert(x != y && x != p && x != b && y != p && y != b && (b != NIL ==> b != p));
    assert forall|h: Handle| #[trigger] g1.live(h) == g.live(h) by {}
    assert forall|h: Handle| g1.live(h) implies #[trigger] node_linked(
        after,
        root1,
        g1,
        h,
    ) by {
        assert(g.live(h));
        assert(node_linked(before, root, g, h));
        if h == x {
        } else if h == y {
        } else if h == p {
        } else if h == b {
        } else {
            let q = before[h - 1].parent;
            assert(after[h - 1] == before[h - 1]);
            assert(g1.label(h) == g.label(h));
            let l = before[h - 1].left;
            let r = before[h - 1].right;
            if l != NIL {
                assert(l != x && l != y && l != b);
                assert(g1.label(l) == g.label(l));
                assert(after[l - 1].parent == h);
            }
            if r != NIL {
                assert(r != x && r != y && r != b);
                assert(g1.label(r) == g.label(r));
                assert(after[r - 1].parent == h);
            }
            if q != NIL {
                assert(node_linked(before, root, g, q));
                assert(after[q - 1].left == h || after[q - 1].right == h);
            }
        }
    }
}

proof fn lemma_rotated_right<K, V>(
    before: Seq<Node<K, V>>,
    after: Seq<Node<K, V>>,
    root: Handle,
    g: Layout,
    x: Handle,
)
    requires
        linked(before, root, g),
        g.live(x),
        before[x - 1].left != NIL,
        rotated_right(before, after, x),
    ensures
        linked(
            after,
            if before[x - 1].parent == NIL {
                before[x - 1].left
            } else {
                root
            },
            layout_rotated_right(g, x, before[x - 1].left),
        ),
{
    let y = before[x - 1].left;
    let b = before[y - 1].right;
    let p = before[x - 1].parent;
    let g1 = layout_rotated_right(g, x, y);
    let root1 = if p == NIL {
        y
    } else {
        root
    };
    assert(node_linked(before, root, g, x));
    assert(node_linked(before, root, g, y));
    if p != NIL {
        assert(node_linked(before, root, g, p));
    }
    if b != NIL {
        assert(node_linked(before, root, g, b));
    }
    assert(x != y && x != p && x != b && y != p && y != b && (b != NIL ==> b != p));
    assert forall|h: Handle| #[trigger] g1.live(h) == g.live(h) by {}
    assert forall|h: Handle| g1.live(h) implies #[trigger] node_linked(
        after,
        root1,
        g1,
        h,
    ) by {
        assert(g.live(h));
        assert(node_linked(before, root, g, h));
        if h == x {
        } else if h == y {
        } else if h == p {
        } else if h == b {
        } else {
            let q = before[h - 1].parent;
            assert(after[h - 1] == before[h - 1]);
            assert(g1.label(h) == g.label(h));
            let l = before[h - 1].left;
            let r = before[h - 1].right;
            if l != NIL {
                assert(l != x && l != y && l != b);
                assert(g1.label(l) == g.label(l));
                assert(after[l - 1].parent == h);
            }
            if r != NIL {
                assert(r != x && r != y && r != b);
                assert(g1.label(r) == g.label(r));
                assert(after[r - 1].parent == h);
            }
            if q != NIL {
                assert(node_linked(before, root, g, q));
                assert(after[q - 1].left == h || after[q - 1].right == h);
            }
        }
    }
}

impl<K: TreeKey, V: TreeValue, const N: usize> RedBlackTree<K, V, N> {
    /// Rotates `x` down-left, promoting its right child.
    pub(crate) fn rotate_left(&mut self, x: Handle, Ghost(g): Ghost<Layout>)
        requires
            linked(old(self).nodes@, old(self).root, g),
            g.live(x),
            old(self).nodes@[x - 1].right != NIL,
        ensures
            rotated_left(old(self).nodes@, final(self).nodes@, x),
            linked(
                final(self).nodes@,
                final(self).root,
                layout_rotated_left(g, x, old(self).nodes@[x - 1].right),
            ),
            final(self).root == (if old(self).nodes@[x - 1].parent == NIL {
                old(self).nodes@[x - 1].right
            } else {
                old(self).root
            }),
            final(self).free_head == old(self).free_head,
            final(self).bump == old(self).bump,
            final(self).len == old(self).len,
    {
        proof {
            let n = self.nodes@;
            let y = n[x - 1].right;
            let b = n[y - 1].left;
            let p = n[x - 1].parent;
            assert(node_linked(n, self.root, g, x));
            assert(node_linked(n, self.root, g, y));
            if p != NIL {
                assert(node_linked(n, self.root, g, p));
            }
            if b != NIL {
                assert(node_linked(n, self.root, g, b));
            }
        }
        let y = self.node(x).right;

        // y's left subtree becomes x's right subtree.
        let y_left = self.node(y).left;
        self.node_mut(x).right = y_left;
        if y_left != NIL {
            self.node_mut(y_left).parent = x;
        }

        // y takes x's place under x's parent.
        let x_parent = self.node(x).parent;
        self.node_mut(y).parent = x_parent;
        if x_parent == NIL {
            self.set_root(y);
        } else if self.node(x_parent).left == x {
            self.node_mut(x_parent).left = y;
        } else {
            self.node_mut(x_parent).right = y;
        }

        // x becomes y's left child.
        self.node_mut(y).left = x;
        self.node_mut(x).parent = y;
        proof {
            lemma_rotated_left(old(self).nodes@, self.nodes@, old(self).root, g, x);
        }
    }

    /// Rotates `x` down-right, promoting its left child. Mirror of
    /// [`RedBlackTree::rotate_left`].
    pub(crate) fn rotate_right(&mut self, x: Handle, Ghost(g): Ghost<Layout>)
        requires
            linked(old(self).nodes@, old(self).root, g),
            g.live(x),
            old(self).nodes@[x - 1].left != NIL,
        ensures
            rotated_right(old(self).nodes@, final(self).nodes@, x),
            linked(
                final(self).nodes@,
                final(self).root,
                layout_rotated_right(g, x, old(self).nodes@[x - 1].left),
            ),
            final(self).root == (if old(self).nodes@[x - 1].parent == NIL {
                old(self).nodes@[x - 1].left
            } else {
                old(self).root
            }),
            final(self).free_head == old(self).free_head,
            final(self).bump == old(self).bump,
            final(self).len == old(self).len,
    {
        proof {
            let n = self.nodes@;
            let y = n[x - 1].left;
            let b = n[y - 1].right;
            let p = n[x - 1].parent;
            assert(node_linked(n, self.root, g, x));
            assert(node_linked(n, self.root, g, y));
            if p != NIL {
                assert(node_linked(n, self.root, g, p));
            }
            if b != NIL {
                assert(node_linked(n, self.root, g, b));
            }
        }
        let y = self.node(x).left;

        let y_right = self.node(y).right;
        self.node_mut(x).left = y_right;
        if y_right != NIL {
            self.node_mut(y_right).parent = x;
        }

        let x_parent = self.node(x).parent;
        self.node_mut(y).parent = x_parent;
        if x_parent == NIL {
            self.set_root(y);
        } else if self.node(x_parent).right == x {
            self.node_mut(x_parent).right = y;
        } else {
            self.node_mut(x_parent).left = y;
        }

        self.node_mut(y).right = x;
        self.node_mut(x).parent = y;
        proof {
            lemma_rotated_right(old(self).nodes@, self.nodes@, old(self).root, g, x);
        }
    }
}

} // verus!
