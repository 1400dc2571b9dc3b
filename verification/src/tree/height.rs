//! How deep a tree can be.

use vstd::arithmetic::power2::pow2;
#[allow(unused_imports)]
use vstd::arithmetic::power2::{lemma2_to64, lemma_pow2_pos, lemma_pow2_strictly_increases, lemma_pow2_unfold};
use vstd::prelude::*;

#[allow(unused_imports)]
use super::layout::{
    balanced, color_at, linked, node_balanced, node_linked, node_red_ok, red_ok, Layout,
};
use super::node::{Handle, Node, TreeKey, TreeValue, NIL};
#[allow(unused_imports)]
use super::node::RED;
use super::RedBlackTree;

verus! {

/// The nodes on the longest path down from `h`, looking at most `fuel` levels deep.
pub open spec fn levels<K, V>(nodes: Seq<Node<K, V>>, h: Handle, fuel: nat) -> nat
    decreases fuel,
{
    if h == NIL || fuel == 0 {
        0
    } else {
        let left = levels(nodes, nodes[h - 1].left, (fuel - 1) as nat);
        let right = levels(nodes, nodes[h - 1].right, (fuel - 1) as nat);
        1 + if left >= right {
            left
        } else {
            right
        }
    }
}

/// A subtree of black height `b` holds at least two to the power of `b - 1`, less one,
/// nodes, and no path down it is more than twice as long as it has black nodes.
proof fn lemma_levels<K, V>(
    nodes: Seq<Node<K, V>>,
    root: Handle,
    g: Layout,
    h: Handle,
    fuel: nat,
)
    requires
        linked(nodes, root, g),
        balanced(nodes, g),
        red_ok(nodes, g, NIL),
        g.live(h),
    ensures
        g.label(h).hi - g.label(h).lo + 1 >= pow2((g.label(h).height - 1) as nat),
        levels(nodes, h, fuel) <= 2 * (g.label(h).height - 1) + if color_at(nodes, h) == RED {
            1int
        } else {
            0int
        },
    decreases g.label(h).hi - g.label(h).lo,
{
    assert(node_linked(nodes, root, g, h));
    assert(node_balanced(nodes, g, h));
    assert(node_red_ok(nodes, h, NIL));
    let left = nodes[h - 1].left;
    let right = nodes[h - 1].right;
    let less = if fuel > 0 {
        (fuel - 1) as nat
    } else {
        0
    };
    lemma2_to64();
    if left != NIL {
        assert(node_linked(nodes, root, g, left));
        assert(node_balanced(nodes, g, left));
        lemma_levels(nodes, root, g, left, less);
    }
    if right != NIL {
        assert(node_linked(nodes, root, g, right));
        assert(node_balanced(nodes, g, right));
        lemma_levels(nodes, root, g, right, less);
    }
    let below = g.height_of(left);
    lemma_pow2_unfold(below as nat);
    lemma_pow2_pos((below - 1) as nat);
}

impl<K: TreeKey, V: TreeValue, const N: usize> RedBlackTree<K, V, N> {
    /// The nodes on the longest path from the root down.
    pub closed spec fn height(self) -> nat {
        levels(self.nodes@, self.root, N as nat)
    }

    /// The height is at most twice the binary logarithm of one more than the number of
    /// entries. At capacity 4096 that is 24.
    pub proof fn law_height_is_logarithmic(self)
        requires
            self.wf(),
        ensures
            pow2(((self.height() + 1) / 2) as nat) <= self.view().len() + 1,
            N <= 4096 ==> self.height() <= 24,
    {
        let (g, free) = self.description();
        assert(self.described_by(g, free));
        self.lemma_described(g, free);
        self.lemma_wf();
        let half = ((self.height() + 1) / 2) as nat;
        lemma2_to64();
        if self.root != NIL {
            lemma_levels(self.nodes@, self.root, g, self.root, N as nat);
            let deep = (g.label(self.root).height - 1) as nat;
            assert(half <= deep);
            if half < deep {
                lemma_pow2_strictly_increases(half, deep);
            }
        }
        if half > 12 {
            lemma_pow2_strictly_increases(12, half);
            if half > 13 {
                lemma_pow2_strictly_increases(13, half);
            }
        }
    }
}

} // verus!
