//! Removal and the double-black rebalance.
//!
//! There is no sentinel node whose parent could be written during the fixup: [`NIL`] is
//! handle `0`. So the fixup carries the parent explicitly alongside the node it
//! rebalances.

use vstd::prelude::*;

#[allow(unused_imports)]
use super::double_black::{
    double_black, lemma_absorb, lemma_color, lemma_far_nephew_left, lemma_far_nephew_right,
    lemma_near_nephew_left, lemma_near_nephew_right, lemma_push_up, lemma_red_sibling_left,
    lemma_red_sibling_right,
};
#[allow(unused_imports)]
use super::insert::{
    free_untouched, lemma_free_survives, lemma_live_in_order, lemma_rotation_touches_live_left,
    lemma_rotation_touches_live_right,
};
#[allow(unused_imports)]
use super::layout::{
    accounted, balanced, color_at, free_chain, lemma_same_links, linked, node_balanced,
    node_linked, node_red_ok, red_ok, same_payload, Layout,
};
use super::node::{Handle, Node, TreeKey, TreeValue, BLACK, NIL, RED};
#[allow(unused_imports)]
use super::splice::{
    detached, layout_replaced, layout_without, lemma_replace, lemma_splice, lemma_succeeded,
    lemma_successor_shape, spliced_out, succeeded, transplanted,
};
use super::RedBlackTree;

verus! {

/// Rewriting a slot that is not live leaves the tree as it was.
proof fn lemma_dead_slot<K, V>(
    nodes: Seq<Node<K, V>>,
    after: Seq<Node<K, V>>,
    root: Handle,
    g: Layout,
    z: Handle,
)
    requires
        linked(nodes, root, g),
        balanced(nodes, g),
        red_ok(nodes, g, NIL),
        color_at(nodes, root) == BLACK,
        1 <= z <= nodes.len(),
        !g.live(z),
        after.len() == nodes.len(),
        forall|i: int| 0 <= i < nodes.len() && i != z - 1 ==> #[trigger] after[i] == nodes[i],
    ensures
        linked(after, root, g),
        balanced(after, g),
        red_ok(after, g, NIL),
        color_at(after, root) == BLACK,
{
    assert forall|h: Handle| g.live(h) implies #[trigger] node_linked(after, root, g, h) by {
        assert(node_linked(nodes, root, g, h));
    }
    assert forall|h: Handle| g.live(h) implies #[trigger] node_balanced(after, g, h) by {
        assert(node_balanced(nodes, g, h));
    }
    assert forall|h: Handle| g.live(h) implies #[trigger] node_red_ok(after, h, NIL) by {
        assert(node_linked(nodes, root, g, h));
        assert(node_red_ok(nodes, h, NIL));
    }
}

/// A removal leaves the free list's slots alone.
proof fn lemma_free_after_removal<K, V>(
    n0: Seq<Node<K, V>>,
    n1: Seq<Node<K, V>>,
    n2: Seq<Node<K, V>>,
    head: Handle,
    g: Layout,
    g1: Layout,
    free: Seq<Handle>,
    z: Handle,
)
    requires
        free_chain(n0, head, free),
        n0.len() == n1.len(),
        n1.len() == n2.len(),
        free_untouched(n0, n1, g),
        free_untouched(n1, n2, g1),
        g.live(z),
        g1.order == g.order.remove(g.label(z).pos),
        forall|i: int| 0 <= i < free.len() ==> !g.live(#[trigger] free[i]),
        forall|i: int| 0 <= i < g.order.len() ==> g.live(#[trigger] g.order[i]),
    ensures
        free_chain(n2, head, free),
{
    assert forall|h: Handle| 1 <= h <= n0.len() && h != z && !g.order.contains(h) implies
        #[trigger] n2[h - 1] == n0[h - 1] by {
        if g1.order.contains(h) {
            let i = choose|i: int| 0 <= i < g1.order.len() && g1.order[i] == h;
            let j = if i < g.label(z).pos {
                i
            } else {
                i + 1
            };
            assert(g.order[j] == h);
        }
        assert(n1[h - 1] == n0[h - 1]);
    }
    assert forall|i: int| 0 <= i < free.len() implies #[trigger] free[i] != z
        && !g.order.contains(free[i]) by {
        if g.order.contains(free[i]) {
            let j = choose|j: int| 0 <= j < g.order.len() && g.order[j] == free[i];
            assert(g.live(g.order[j]));
        }
    }
    lemma_free_survives(n0, n2, head, g, free, z);
}

/// The free list and the live slots still account for every slot handed out.
proof fn lemma_accounted_remove(g: Layout, g1: Layout, free: Seq<Handle>, bump: int, z: Handle)
    requires
        accounted(g, free, bump),
        g.live(z),
        g1.order == g.order.remove(g.label(z).pos),
        forall|i: int|
            0 <= i < g.order.len() ==> 1 <= #[trigger] g.order[i] <= g.labels.len() && g.label(
                g.order[i],
            ).pos == i,
    ensures
        accounted(g1, seq![z] + free, bump),
        !g1.live(z),
        !free.contains(z),
{
    let longer = seq![z] + free;
    let q = g.label(z).pos;
    assert forall|h: Handle| #[trigger] g1.live(h) implies g.live(h) && h != z by {
        let i = g1.label(h).pos;
        let j = if i < q {
            i
        } else {
            i + 1
        };
        assert(g1.order[i] == g.order[j]);
        assert(g.label(g.order[j]).pos == j);
    }
    assert forall|i: int| 0 <= i < free.len() implies #[trigger] free[i] != z by {
        assert(!g.live(free[i]));
    }
    assert forall|i: int| 0 <= i < longer.len() implies 1 <= #[trigger] longer[i] <= bump
        && !g1.live(longer[i]) by {
        if i > 0 {
            assert(longer[i] == free[i - 1]);
        }
    }
    assert forall|i: int, j: int|
        0 <= i < longer.len() && 0 <= j < longer.len() && i != j implies longer[i]
        != longer[j] by {
        if i > 0 {
            assert(longer[i] == free[i - 1]);
        }
        if j > 0 {
            assert(longer[j] == free[j - 1]);
        }
    }
}

impl<K: TreeKey, V: TreeValue, const N: usize> RedBlackTree<K, V, N> {
    /// Removes `key`, returning its value if it was present.
    pub fn remove(&mut self, key: &K) -> (value: Option<V>)
        requires
            old(self).wf(),
        ensures
            final(self).wf(),
            value == old(self).view().get(*key),
            final(self).view() == old(self).view().removed(*key),
    {
        proof {
            self.lemma_wf();
        }
        let handle = self.find(key);
        if handle == NIL {
            return None;
        }
        let ghost v = self.view();
        proof {
            v.lemma_position_exists(*key);
            let i = v.position(*key);
            assert(v.order[i] == handle);
            v.lemma_place(i);
        }
        Some(self.remove_handle(handle))
    }

    /// Removes the entry at `handle`, returning its value.
    ///
    /// The form a walk of the tree wants: it already holds the handle, so descending
    /// again to find the key is wasted work.
    pub fn remove_handle(&mut self, handle: Handle) -> (value: V)
        requires
            old(self).wf(),
            old(self).view().is_live(handle),
        ensures
            final(self).wf(),
            value == old(self).view().values[handle - 1],
            final(self).view() == old(self).view().without_place(
                old(self).view().place_of(handle),
            ),
    {
        let z = handle;
        let ghost (g, free) = self.description();
        let ghost v = self.view();
        proof {
            assert(self.described_by(g, free));
            self.lemma_described(g, free);
            self.lemma_wf();
            let i = v.place_of(z);
            assert(g.order[i] == z);
            assert(g.label(g.order[i]).pos == i);
            assert(g.live(z));
        }
        let value = self.node(z).value;
        let ghost n0 = self.nodes@;
        let (x, x_parent, removed_color, layout) = self.splice_out(z, Ghost(g));
        let ghost n1 = self.nodes@;
        let ghost mut g2 = layout@;

        // Removing a red node changes no path's black height.
        if removed_color == BLACK {
            let layout = self.delete_fixup(x, x_parent, layout);
            proof {
                g2 = layout@;
            }
        }
        let ghost n2 = self.nodes@;
        proof {
            lemma_accounted_remove(g, g2, free, self.bump as int, z);
            lemma_free_after_removal(n0, n1, n2, self.free_head, g, layout@, free, z);
            assert(self.len == g.order.len());
        }

        // Freed last: z is fully detached by now, and the fixup never touches it.
        self.free_slot(z, Ghost(free));
        self.decrement_len();
        proof {
            lemma_dead_slot(n2, self.nodes@, self.root, g2, z);
            self.lemma_remove_done(*old(self), n2, g, g2, free, z);
        }
        value
    }

    /// Takes `z` out of the links. Gives the node that moved into its structural
    /// position, that node's parent, and the colour that left the tree.
    ///
    /// The node may be [`NIL`], which is why its parent is tracked separately instead of
    /// read back from it.
    fn splice_out(&mut self, z: Handle, Ghost(g): Ghost<Layout>) -> (out: (
        Handle,
        Handle,
        u32,
        Ghost<Layout>,
    ))
        requires
            linked(old(self).nodes@, old(self).root, g),
            balanced(old(self).nodes@, g),
            red_ok(old(self).nodes@, g, NIL),
            color_at(old(self).nodes@, old(self).root) == BLACK,
            g.live(z),
            N <= u32::MAX,
        ensures
            spliced_out(final(self).nodes@, final(self).root, out.3@, out.0, out.1, out.2),
            out.0 <= N,
            out.3@.order == g.order.remove(g.label(z).pos),
            same_payload(old(self).nodes@, final(self).nodes@),
            free_untouched(old(self).nodes@, final(self).nodes@, g),
            final(self).free_head == old(self).free_head,
            final(self).bump == old(self).bump,
            final(self).len == old(self).len,
    {
        let ghost n0 = self.nodes@;
        let ghost root0 = self.root;
        proof {
            assert(node_linked(n0, root0, g, z));
        }
        let z_left = self.node(z).left;
        let z_right = self.node(z).right;
        let z_parent = self.node(z).parent;
        let z_color = self.node(z).color;
        if z_left == NIL {
            self.transplant(z, z_right);
            proof {
                lemma_splice(n0, self.nodes@, root0, self.root, g, z, z_right);
            }
            (z_right, z_parent, z_color, Ghost(layout_without(g, z)))
        } else if z_right == NIL {
            self.transplant(z, z_left);
            proof {
                lemma_splice(n0, self.nodes@, root0, self.root, g, z, z_left);
            }
            (z_left, z_parent, z_color, Ghost(layout_without(g, z)))
        } else {
            // Two children: splice in the in-order successor, which by construction has
            // no left child. The successor keeps z's colour, so the colour leaving the
            // tree is the successor's own.
            let y = self.min_from(z_right, Ghost(g));
            proof {
                assert(node_linked(n0, root0, g, y));
            }
            let removed_color = self.node(y).color;
            let x = self.node(y).right;
            let x_parent = self.replace_by_successor(z, y, Ghost(g));
            proof {
                lemma_replace(n0, self.nodes@, root0, self.root, g, z, y);
            }
            (x, x_parent, removed_color, Ghost(layout_replaced(g, z, y)))
        }
    }

    /// What a removal leaves, once its slot is freed.
    proof fn lemma_remove_done(
        self,
        before: Self,
        mid: Seq<Node<K, V>>,
        g: Layout,
        g1: Layout,
        free: Seq<Handle>,
        z: Handle,
    )
        requires
            before.described_by(g, free),
            g.live(z),
            same_payload(before.nodes@, mid),
            same_payload(mid, self.nodes@),
            linked(self.nodes@, self.root, g1),
            balanced(self.nodes@, g1),
            red_ok(self.nodes@, g1, NIL),
            color_at(self.nodes@, self.root) == BLACK,
            g1.order == g.order.remove(g.label(z).pos),
            self.len == before.len - 1,
            self.bump == before.bump,
            free_chain(self.nodes@, self.free_head, seq![z] + free),
            accounted(g1, seq![z] + free, self.bump as int),
        ensures
            self.wf(),
            self.view() == before.view().without_place(before.view().place_of(z)),
    {
        before.lemma_described(g, free);
        before.lemma_wf();
        let q = g.label(z).pos;
        let v = before.view();
        v.lemma_place(q);
        assert(self.nodes@.len() == N);
        assert forall|i: int, j: int| 0 <= i < j < g1.order.len() implies self.nodes@[
        #[trigger] g1.order[i] - 1].key.rank() < self.nodes@[#[trigger] g1.order[j]
            - 1].key.rank() by {
            let a = if i < q {
                i
            } else {
                i + 1
            };
            let b = if j < q {
                j
            } else {
                j + 1
            };
            assert(g1.order[i] == g.order[a] && g1.order[j] == g.order[b]);
            assert(1 <= g.order[a] <= N && 1 <= g.order[b] <= N);
            assert(before.nodes@[g.order[a] - 1].key == mid[g.order[a] - 1].key);
            assert(before.nodes@[g.order[b] - 1].key == mid[g.order[b] - 1].key);
        }
        assert(self.described_by(g1, seq![z] + free));
        self.lemma_described(g1, seq![z] + free);
        assert forall|i: int| 0 <= i < N implies #[trigger] self.nodes@[i].key
            == before.nodes@[i].key && self.nodes@[i].value == before.nodes@[i].value by {
            assert(mid[i].key == self.nodes@[i].key);
        }
        assert(self.view() =~= v.without_place(q));
    }

    /// Puts the in-order successor `y` of `z` in the place of `z`. Gives the parent of
    /// what took the place of `y`.
    fn replace_by_successor(
        &mut self,
        z: Handle,
        y: Handle,
        Ghost(g): Ghost<Layout>,
    ) -> (x_parent: Handle)
        requires
            linked(old(self).nodes@, old(self).root, g),
            g.live(z),
            old(self).nodes@[z - 1].left != NIL,
            old(self).nodes@[z - 1].right != NIL,
            g.live(y),
            g.label(y).pos == g.label(z).pos + 1,
            old(self).nodes@[y - 1].left == NIL,
        ensures
            succeeded(
                old(self).nodes@,
                final(self).nodes@,
                z,
                y,
                old(self).nodes@[y - 1].right,
            ),
            x_parent == (if old(self).nodes@[y - 1].parent == z {
                y
            } else {
                old(self).nodes@[y - 1].parent
            }),
            final(self).root == (if old(self).nodes@[z - 1].parent == NIL {
                y
            } else {
                old(self).root
            }),
            final(self).free_head == old(self).free_head,
            final(self).bump == old(self).bump,
            final(self).len == old(self).len,
    {
        let ghost n0 = self.nodes@;
        let ghost root0 = self.root;
        proof {
            lemma_successor_shape(n0, root0, g, z, y);
            assert(node_linked(n0, root0, g, z));
            assert(node_linked(n0, root0, g, y));
        }
        let z_left = self.node(z).left;
        let x_parent = self.detach_successor(z, y, Ghost(g));
        let ghost n1 = self.nodes@;
        self.transplant(z, y);
        self.node_mut(y).left = z_left;
        self.node_mut(z_left).parent = y;
        let z_color = self.node(z).color;
        self.node_mut(y).color = z_color;
        proof {
            lemma_succeeded(n0, n1, self.nodes@, root0, g, z, y);
        }
        x_parent
    }

    /// Frees the successor `y` of `z` from its own place, unless it is the child of `z`.
    fn detach_successor(
        &mut self,
        z: Handle,
        y: Handle,
        Ghost(g): Ghost<Layout>,
    ) -> (x_parent: Handle)
        requires
            linked(old(self).nodes@, old(self).root, g),
            g.live(z),
            old(self).nodes@[z - 1].left != NIL,
            old(self).nodes@[z - 1].right != NIL,
            g.live(y),
            g.label(y).pos == g.label(z).pos + 1,
            old(self).nodes@[y - 1].left == NIL,
        ensures
            detached(old(self).nodes@, final(self).nodes@, z, y),
            x_parent == (if old(self).nodes@[y - 1].parent == z {
                y
            } else {
                old(self).nodes@[y - 1].parent
            }),
            final(self).root == old(self).root,
            final(self).free_head == old(self).free_head,
            final(self).bump == old(self).bump,
            final(self).len == old(self).len,
    {
        let ghost n0 = self.nodes@;
        proof {
            lemma_successor_shape(n0, self.root, g, z, y);
            assert(node_linked(n0, self.root, g, z));
            assert(node_linked(n0, self.root, g, y));
        }
        let z_right = self.node(z).right;
        if self.node(y).parent == z {
            // y is z's direct right child: it stays put and becomes x's parent.
            y
        } else {
            let x_parent = self.node(y).parent;
            let y_right = self.node(y).right;
            self.transplant(y, y_right);
            self.node_mut(y).right = z_right;
            self.node_mut(z_right).parent = y;
            x_parent
        }
    }

    /// Replaces the subtree rooted at `u` with the one rooted at `v`.
    fn transplant(&mut self, u: Handle, v: Handle)
        requires
            1 <= u <= N,
            v <= N,
            old(self).nodes@[u - 1].parent <= N,
        ensures
            final(self).nodes@ == transplanted(old(self).nodes@, u, v),
            final(self).root == (if old(self).nodes@[u - 1].parent == NIL {
                v
            } else {
                old(self).root
            }),
            final(self).free_head == old(self).free_head,
            final(self).bump == old(self).bump,
            final(self).len == old(self).len,
    {
        let u_parent = self.parent_of(u);
        if u_parent == NIL {
            self.set_root(v);
        } else if u == self.left_of(u_parent) {
            self.node_mut(u_parent).left = v;
        } else {
            self.node_mut(u_parent).right = v;
        }
        if v != NIL {
            self.node_mut(v).parent = u_parent;
        }
    }

    /// Case 1: a red right sibling of the doubly black left child `x` is rotated away, to
    /// reach a black sibling. Gives that sibling.
    fn blacken_sibling_left(
        &mut self,
        x: Handle,
        parent: Handle,
        Ghost(g0): Ghost<Layout>,
    ) -> (next: (Handle, Ghost<Layout>))
        requires
            double_black(old(self).nodes@, old(self).root, g0, x, parent),
            parent != NIL,
            old(self).nodes@[parent - 1].left == x,
            color_at(old(self).nodes@, x) == BLACK,
        ensures
            double_black(final(self).nodes@, final(self).root, next.1@, x, parent),
            final(self).nodes@[parent - 1].left == x,
            final(self).nodes@[parent - 1].right == next.0,
            color_at(final(self).nodes@, x) == BLACK,
            next.0 != NIL,
            color_at(final(self).nodes@, next.0) == BLACK,
            next.1@.order == g0.order,
            same_payload(old(self).nodes@, final(self).nodes@),
            free_untouched(old(self).nodes@, final(self).nodes@, g0),
            final(self).free_head == old(self).free_head,
            final(self).bump == old(self).bump,
            final(self).len == old(self).len,
            next.1@ == g0 || final(self).nodes@[parent - 1].color == RED,
    {
        let ghost n0 = self.nodes@;
        let ghost root0 = self.root;
        proof {
            assert(node_linked(n0, root0, g0, parent));
            lemma_live_in_order(g0, parent);
        }
        let sibling = self.right_of(parent);
        proof {
            lemma_live_in_order(g0, sibling);
            lemma_color(n0, root0, g0, x, parent, sibling);
        }
        if self.color_of(sibling) != RED {
            return (sibling, Ghost(g0));
        }
        self.set_color(sibling, BLACK);
        self.set_color(parent, RED);
        let ghost n1 = self.nodes@;
        proof {
            lemma_same_links(n0, n1, root0, g0, g0);
        }
        self.rotate_left(parent, Ghost(g0));
        let ghost mut g = g0;
        proof {
            lemma_rotation_touches_live_left(n1, self.nodes@, root0, g0, parent);
            g =
            lemma_red_sibling_left(
                n0,
                n1,
                self.nodes@,
                root0,
                self.root,
                g0,
                x,
                parent,
                sibling,
            );
            assert(node_linked(self.nodes@, self.root, g, parent));
        }
        let sibling = self.right_of(parent);
        (sibling, Ghost(g))
    }

    /// Case 3: only the near nephew of the left child is red. Rotates it into the far
    /// position, reducing to case 4. Gives the new sibling.
    fn straighten_nephew_left(
        &mut self,
        x: Handle,
        parent: Handle,
        sibling: Handle,
        Ghost(g0): Ghost<Layout>,
    ) -> (next: (Handle, Ghost<Layout>))
        requires
            double_black(old(self).nodes@, old(self).root, g0, x, parent),
            parent != NIL,
            old(self).nodes@[parent - 1].left == x,
            old(self).nodes@[parent - 1].right == sibling,
            color_at(old(self).nodes@, x) == BLACK,
            sibling != NIL,
            color_at(old(self).nodes@, sibling) == BLACK,
            color_at(old(self).nodes@, old(self).nodes@[sibling - 1].left) != BLACK || color_at(
                old(self).nodes@,
                old(self).nodes@[sibling - 1].right,
            ) != BLACK,
        ensures
            double_black(final(self).nodes@, final(self).root, next.1@, x, parent),
            final(self).nodes@[parent - 1].left == x,
            final(self).nodes@[parent - 1].right == next.0,
            color_at(final(self).nodes@, x) == BLACK,
            next.0 != NIL,
            color_at(final(self).nodes@, next.0) == BLACK,
            color_at(final(self).nodes@, final(self).nodes@[next.0 - 1].right) == RED,
            next.1@.order == g0.order,
            same_payload(old(self).nodes@, final(self).nodes@),
            free_untouched(old(self).nodes@, final(self).nodes@, g0),
            final(self).free_head == old(self).free_head,
            final(self).bump == old(self).bump,
            final(self).len == old(self).len,
    {
        let ghost n0 = self.nodes@;
        let ghost root0 = self.root;
        proof {
            assert(node_linked(n0, root0, g0, parent));
            assert(node_linked(n0, root0, g0, sibling));
            lemma_live_in_order(g0, sibling);
            lemma_live_in_order(g0, parent);
        }
        let near = self.left_of(sibling);
        let far = self.right_of(sibling);
        proof {
            lemma_color(n0, root0, g0, x, parent, near);
            lemma_color(n0, root0, g0, x, parent, far);
        }
        if self.color_of(far) != BLACK {
            return (sibling, Ghost(g0));
        }
        self.set_color(near, BLACK);
        self.set_color(sibling, RED);
        let ghost n1 = self.nodes@;
        proof {
            lemma_live_in_order(g0, near);
            lemma_same_links(n0, n1, root0, g0, g0);
            assert(node_linked(n0, root0, g0, near));
        }
        self.rotate_right(sibling, Ghost(g0));
        let ghost mut g = g0;
        proof {
            lemma_rotation_touches_live_right(n1, self.nodes@, root0, g0, sibling);
            g = lemma_near_nephew_left(n0, n1, self.nodes@, root0, g0, x, parent, sibling, near);
            assert(node_linked(self.nodes@, self.root, g, parent));
        }
        let sibling = self.right_of(parent);
        (sibling, Ghost(g))
    }

    /// Case 4: the far nephew of the left child is red. Terminal: rotates the extra black
    /// away.
    fn resolve_left(
        &mut self,
        Ghost(x): Ghost<Handle>,
        parent: Handle,
        sibling: Handle,
        Ghost(g0): Ghost<Layout>,
    ) -> (g: Ghost<Layout>)
        requires
            double_black(old(self).nodes@, old(self).root, g0, x, parent),
            parent != NIL,
            old(self).nodes@[parent - 1].left == x,
            old(self).nodes@[parent - 1].right == sibling,
            color_at(old(self).nodes@, x) == BLACK,
            sibling != NIL,
            color_at(old(self).nodes@, sibling) == BLACK,
            color_at(old(self).nodes@, old(self).nodes@[sibling - 1].right) == RED,
        ensures
            double_black(final(self).nodes@, final(self).root, g@, final(self).root, NIL),
            g@.order == g0.order,
            same_payload(old(self).nodes@, final(self).nodes@),
            free_untouched(old(self).nodes@, final(self).nodes@, g0),
            final(self).free_head == old(self).free_head,
            final(self).bump == old(self).bump,
            final(self).len == old(self).len,
    {
        let ghost n0 = self.nodes@;
        let ghost root0 = self.root;
        proof {
            assert(node_linked(n0, root0, g0, parent));
            assert(node_linked(n0, root0, g0, sibling));
            lemma_live_in_order(g0, sibling);
            lemma_live_in_order(g0, parent);
        }
        let parent_color = self.color_of(parent);
        self.set_color(sibling, parent_color);
        self.set_color(parent, BLACK);
        let far = self.right_of(sibling);
        proof {
            lemma_live_in_order(g0, far);
            assert(node_linked(n0, root0, g0, far));
        }
        self.set_color(far, BLACK);
        let ghost n1 = self.nodes@;
        proof {
            lemma_same_links(n0, n1, root0, g0, g0);
        }
        self.rotate_left(parent, Ghost(g0));
        let ghost mut g = g0;
        proof {
            lemma_rotation_touches_live_left(n1, self.nodes@, root0, g0, parent);
            g =
            lemma_far_nephew_left(
                n0,
                n1,
                self.nodes@,
                root0,
                self.root,
                g0,
                x,
                parent,
                sibling,
                far,
            );
        }
        Ghost(g)
    }

    /// One round of the rebalance when the doubly black node is a left child.
    fn delete_fixup_left(
        &mut self,
        x: Handle,
        parent: Handle,
        Ghost(g): Ghost<Layout>,
    ) -> (next: (Handle, Handle, Ghost<Layout>))
        requires
            double_black(old(self).nodes@, old(self).root, g, x, parent),
            parent != NIL,
            old(self).nodes@[parent - 1].left == x,
            color_at(old(self).nodes@, x) == BLACK,
        ensures
            double_black(final(self).nodes@, final(self).root, next.2@, next.0, next.1),
            next.0 <= N,
            next.2@.order == g.order,
            same_payload(old(self).nodes@, final(self).nodes@),
            free_untouched(old(self).nodes@, final(self).nodes@, g),
            final(self).free_head == old(self).free_head,
            final(self).bump == old(self).bump,
            final(self).len == old(self).len,
            next.0 == final(self).root || color_at(final(self).nodes@, next.0) != BLACK || (
            next.2@.label(next.1).hi - next.2@.label(next.1).lo > g.label(parent).hi - g.label(
                parent,
            ).lo),
    {
        let (sibling, layout) = self.blacken_sibling_left(x, parent, Ghost(g));
        let ghost n0 = self.nodes@;
        let ghost root0 = self.root;
        let ghost g0 = layout@;
        proof {
            assert(node_linked(n0, root0, g0, parent));
            assert(node_linked(n0, root0, g0, sibling));
            lemma_live_in_order(g0, sibling);
            lemma_live_in_order(g0, parent);
        }
        let near = self.left_of(sibling);
        let far = self.right_of(sibling);
        if self.color_of(near) == BLACK && self.color_of(far) == BLACK {
            // Case 2: both nephews black. Move the extra black up to the parent.
            self.set_color(sibling, RED);
            let ghost mut g1 = g0;
            proof {
                g1 = lemma_push_up(n0, self.nodes@, root0, g0, x, parent, sibling);
                let top = n0[parent - 1].parent;
                if top != NIL {
                    assert(node_linked(n0, root0, g0, top));
                    assert(g1.label(top).hi == g0.label(top).hi);
                }
            }
            let up = self.parent_of(parent);
            return (parent, up, Ghost(g1));
        }
        let (sibling, layout) = self.straighten_nephew_left(x, parent, sibling, layout);
        let layout = self.resolve_left(Ghost(x), parent, sibling, layout);
        proof {
            if self.root != NIL {
                lemma_live_in_order(layout@, self.root);
            }
        }
        let root = self.root;
        (root, NIL, layout)
    }

    /// Case 1: a red left sibling of the doubly black right child `x` is rotated away, to
    /// reach a black sibling. Gives that sibling.
    fn blacken_sibling_right(
        &mut self,
        x: Handle,
        parent: Handle,
        Ghost(g0): Ghost<Layout>,
    ) -> (next: (Handle, Ghost<Layout>))
        requires
            double_black(old(self).nodes@, old(self).root, g0, x, parent),
            parent != NIL,
            old(self).nodes@[parent - 1].right == x,
            color_at(old(self).nodes@, x) == BLACK,
        ensures
            double_black(final(self).nodes@, final(self).root, next.1@, x, parent),
            final(self).nodes@[parent - 1].right == x,
            final(self).nodes@[parent - 1].left == next.0,
            color_at(final(self).nodes@, x) == BLACK,
            next.0 != NIL,
            color_at(final(self).nodes@, next.0) == BLACK,
            next.1@.order == g0.order,
            same_payload(old(self).nodes@, final(self).nodes@),
            free_untouched(old(self).nodes@, final(self).nodes@, g0),
            final(self).free_head == old(self).free_head,
            final(self).bump == old(self).bump,
            final(self).len == old(self).len,
            next.1@ == g0 || final(self).nodes@[parent - 1].color == RED,
    {
        let ghost n0 = self.nodes@;
        let ghost root0 = self.root;
        proof {
            assert(node_linked(n0, root0, g0, parent));
            lemma_live_in_order(g0, parent);
        }
        let sibling = self.left_of(parent);
        proof {
            lemma_live_in_order(g0, sibling);
            lemma_color(n0, root0, g0, x, parent, sibling);
        }
        if self.color_of(sibling) != RED {
            return (sibling, Ghost(g0));
        }
        self.set_color(sibling, BLACK);
        self.set_color(parent, RED);
        let ghost n1 = self.nodes@;
        proof {
            lemma_same_links(n0, n1, root0, g0, g0);
        }
        self.rotate_right(parent, Ghost(g0));
        let ghost mut g = g0;
        proof {
            lemma_rotation_touches_live_right(n1, self.nodes@, root0, g0, parent);
            g =
            lemma_red_sibling_right(
                n0,
                n1,
                self.nodes@,
                root0,
                self.root,
                g0,
                x,
                parent,
                sibling,
            );
            assert(node_linked(self.nodes@, self.root, g, parent));
        }
        let sibling = self.left_of(parent);
        (sibling, Ghost(g))
    }

    /// Case 3: only the near nephew of the right child is red. Rotates it into the far
    /// position, reducing to case 4. Gives the new sibling.
    fn straighten_nephew_right(
        &mut self,
        x: Handle,
        parent: Handle,
        sibling: Handle,
        Ghost(g0): Ghost<Layout>,
    ) -> (next: (Handle, Ghost<Layout>))
        requires
            double_black(old(self).nodes@, old(self).root, g0, x, parent),
            parent != NIL,
            old(self).nodes@[parent - 1].right == x,
            old(self).nodes@[parent - 1].left == sibling,
            color_at(old(self).nodes@, x) == BLACK,
            sibling != NIL,
            color_at(old(self).nodes@, sibling) == BLACK,
            color_at(old(self).nodes@, old(self).nodes@[sibling - 1].right) != BLACK || color_at(
                old(self).nodes@,
                old(self).nodes@[sibling - 1].left,
            ) != BLACK,
        ensures
            double_black(final(self).nodes@, final(self).root, next.1@, x, parent),
            final(self).nodes@[parent - 1].right == x,
            final(self).nodes@[parent - 1].left == next.0,
            color_at(final(self).nodes@, x) == BLACK,
            next.0 != NIL,
            color_at(final(self).nodes@, next.0) == BLACK,
            color_at(final(self).nodes@, final(self).nodes@[next.0 - 1].left) == RED,
            next.1@.order == g0.order,
            same_payload(old(self).nodes@, final(self).nodes@),
            free_untouched(old(self).nodes@, final(self).nodes@, g0),
            final(self).free_head == old(self).free_head,
            final(self).bump == old(self).bump,
            final(self).len == old(self).len,
    {
        let ghost n0 = self.nodes@;
        let ghost root0 = self.root;
        proof {
            assert(node_linked(n0, root0, g0, parent));
            assert(node_linked(n0, root0, g0, sibling));
            lemma_live_in_order(g0, sibling);
            lemma_live_in_order(g0, parent);
        }
        let near = self.right_of(sibling);
        let far = self.left_of(sibling);
        proof {
            lemma_color(n0, root0, g0, x, parent, near);
            lemma_color(n0, root0, g0, x, parent, far);
        }
        if self.color_of(far) != BLACK {
            return (sibling, Ghost(g0));
        }
        self.set_color(near, BLACK);
        self.set_color(sibling, RED);
        let ghost n1 = self.nodes@;
        proof {
            lemma_live_in_order(g0, near);
            lemma_same_links(n0, n1, root0, g0, g0);
            assert(node_linked(n0, root0, g0, near));
        }
        self.rotate_left(sibling, Ghost(g0));
        let ghost mut g = g0;
        proof {
            lemma_rotation_touches_live_left(n1, self.nodes@, root0, g0, sibling);
            g = lemma_near_nephew_right(n0, n1, self.nodes@, root0, g0, x, parent, sibling, near);
            assert(node_linked(self.nodes@, self.root, g, parent));
        }
        let sibling = self.left_of(parent);
        (sibling, Ghost(g))
    }

    /// Case 4: the far nephew of the right child is red. Terminal: rotates the extra black
    /// away.
    fn resolve_right(
        &mut self,
        Ghost(x): Ghost<Handle>,
        parent: Handle,
        sibling: Handle,
        Ghost(g0): Ghost<Layout>,
    ) -> (g: Ghost<Layout>)
        requires
            double_black(old(self).nodes@, old(self).root, g0, x, parent),
            parent != NIL,
            old(self).nodes@[parent - 1].right == x,
            old(self).nodes@[parent - 1].left == sibling,
            color_at(old(self).nodes@, x) == BLACK,
            sibling != NIL,
            color_at(old(self).nodes@, sibling) == BLACK,
            color_at(old(self).nodes@, old(self).nodes@[sibling - 1].left) == RED,
        ensures
            double_black(final(self).nodes@, final(self).root, g@, final(self).root, NIL),
            g@.order == g0.order,
            same_payload(old(self).nodes@, final(self).nodes@),
            free_untouched(old(self).nodes@, final(self).nodes@, g0),
            final(self).free_head == old(self).free_head,
            final(self).bump == old(self).bump,
            final(self).len == old(self).len,
    {
        let ghost n0 = self.nodes@;
        let ghost root0 = self.root;
        proof {
            assert(node_linked(n0, root0, g0, parent));
            assert(node_linked(n0, root0, g0, sibling));
            lemma_live_in_order(g0, sibling);
            lemma_live_in_order(g0, parent);
        }
        let parent_color = self.color_of(parent);
        self.set_color(sibling, parent_color);
        self.set_color(parent, BLACK);
        let far = self.left_of(sibling);
        proof {
            lemma_live_in_order(g0, far);
            assert(node_linked(n0, root0, g0, far));
        }
        self.set_color(far, BLACK);
        let ghost n1 = self.nodes@;
        proof {
            lemma_same_links(n0, n1, root0, g0, g0);
        }
        self.rotate_right(parent, Ghost(g0));
        let ghost mut g = g0;
        proof {
            lemma_rotation_touches_live_right(n1, self.nodes@, root0, g0, parent);
            g =
            lemma_far_nephew_right(
                n0,
                n1,
                self.nodes@,
                root0,
                self.root,
                g0,
                x,
                parent,
                sibling,
                far,
            );
        }
        Ghost(g)
    }

    /// One round of the rebalance when the doubly black node is a right child.
    fn delete_fixup_right(
        &mut self,
        x: Handle,
        parent: Handle,
        Ghost(g): Ghost<Layout>,
    ) -> (next: (Handle, Handle, Ghost<Layout>))
        requires
            double_black(old(self).nodes@, old(self).root, g, x, parent),
            parent != NIL,
            old(self).nodes@[parent - 1].right == x,
            color_at(old(self).nodes@, x) == BLACK,
        ensures
            double_black(final(self).nodes@, final(self).root, next.2@, next.0, next.1),
            next.0 <= N,
            next.2@.order == g.order,
            same_payload(old(self).nodes@, final(self).nodes@),
            free_untouched(old(self).nodes@, final(self).nodes@, g),
            final(self).free_head == old(self).free_head,
            final(self).bump == old(self).bump,
            final(self).len == old(self).len,
            next.0 == final(self).root || color_at(final(self).nodes@, next.0) != BLACK || (
            next.2@.label(next.1).hi - next.2@.label(next.1).lo > g.label(parent).hi - g.label(
                parent,
            ).lo),
    {
        let (sibling, layout) = self.blacken_sibling_right(x, parent, Ghost(g));
        let ghost n0 = self.nodes@;
        let ghost root0 = self.root;
        let ghost g0 = layout@;
        proof {
            assert(node_linked(n0, root0, g0, parent));
            assert(node_linked(n0, root0, g0, sibling));
            lemma_live_in_order(g0, sibling);
            lemma_live_in_order(g0, parent);
        }
        let near = self.right_of(sibling);
        let far = self.left_of(sibling);
        if self.color_of(near) == BLACK && self.color_of(far) == BLACK {
            // Case 2: both nephews black. Move the extra black up to the parent.
            self.set_color(sibling, RED);
            let ghost mut g1 = g0;
            proof {
                g1 = lemma_push_up(n0, self.nodes@, root0, g0, x, parent, sibling);
                let top = n0[parent - 1].parent;
                if top != NIL {
                    assert(node_linked(n0, root0, g0, top));
                    assert(g1.label(top).hi == g0.label(top).hi);
                }
            }
            let up = self.parent_of(parent);
            return (parent, up, Ghost(g1));
        }
        let (sibling, layout) = self.straighten_nephew_right(x, parent, sibling, layout);
        let layout = self.resolve_right(Ghost(x), parent, sibling, layout);
        proof {
            if self.root != NIL {
                lemma_live_in_order(layout@, self.root);
            }
        }
        let root = self.root;
        (root, NIL, layout)
    }

    /// Restores the red-black properties, with the parent passed in rather than read
    /// from `x`.
    ///
    /// `x` carries one extra black. Each iteration either pushes that extra black up to
    /// the parent (case 2) or resolves it with at most three rotations (cases 1, 3, 4).
    fn delete_fixup(&mut self, x: Handle, parent: Handle, Ghost(g0): Ghost<Layout>) -> (g: Ghost<
        Layout,
    >)
        requires
            double_black(old(self).nodes@, old(self).root, g0, x, parent),
            x <= N,
        ensures
            linked(final(self).nodes@, final(self).root, g@),
            balanced(final(self).nodes@, g@),
            red_ok(final(self).nodes@, g@, NIL),
            color_at(final(self).nodes@, final(self).root) == BLACK,
            g@.order == g0.order,
            same_payload(old(self).nodes@, final(self).nodes@),
            free_untouched(old(self).nodes@, final(self).nodes@, g0),
            final(self).free_head == old(self).free_head,
            final(self).bump == old(self).bump,
            final(self).len == old(self).len,
    {
        let mut x = x;
        let mut parent = parent;
        let ghost mut g = g0;
        while x != self.root && self.color_of(x) == BLACK
            invariant
                double_black(self.nodes@, self.root, g, x, parent),
                x <= N,
                g.order == g0.order,
                same_payload(old(self).nodes@, self.nodes@),
                free_untouched(old(self).nodes@, self.nodes@, g0),
                self.free_head == old(self).free_head,
                self.bump == old(self).bump,
                self.len == old(self).len,
            decreases
                if x != self.root && color_at(self.nodes@, x) == BLACK {
                    1 + g.order.len() - (g.label(parent).hi - g.label(parent).lo)
                } else {
                    0
                },
        {
            proof {
                assert(node_linked(self.nodes@, self.root, g, parent));
            }
            let (next, up, layout) = if x == self.left_of(parent) {
                self.delete_fixup_left(x, parent, Ghost(g))
            } else {
                self.delete_fixup_right(x, parent, Ghost(g))
            };
            x = next;
            parent = up;
            proof {
                g = layout@;
                if parent != NIL {
                    assert(node_linked(self.nodes@, self.root, g, parent));
                }
            }
        }
        // Absorbing the extra black into a red node, or into the root.
        let ghost n1 = self.nodes@;
        self.set_color(x, BLACK);
        proof {
            if x != NIL {
                lemma_live_in_order(g, x);
            }
            g = lemma_absorb(n1, self.nodes@, self.root, g, x, parent);
        }
        Ghost(g)
    }
}

} // verus!
