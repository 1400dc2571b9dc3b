//! Walking links that nobody vouched for.
//!
//! [`RedBlackTree::iter`] follows the links of a tree. Here the same steps are taken over an
//! arena that may be no tree at all. A step that leaves the arena, and a run of steps that
//! never ends, give nothing rather than an answer.

use vstd::prelude::*;

#[allow(unused_imports)]
use super::layout::{linked, node_linked, Layout};
use super::node::{Entry, Handle, Node, TreeKey, TreeValue, NIL};
#[allow(unused_imports)]
use super::shape::lemma_pigeonhole;
use super::RedBlackTree;

verus! {

/// The child that comes before a node on a walk.
pub open spec fn near<K, V>(node: Node<K, V>, ascending: bool) -> Handle {
    if ascending {
        node.left
    } else {
        node.right
    }
}

/// The child that comes after a node on a walk.
pub open spec fn far<K, V>(node: Node<K, V>, ascending: bool) -> Handle {
    if ascending {
        node.right
    } else {
        node.left
    }
}

/// The first node of the subtree at `h`, at most `fuel` links down.
pub open spec fn outermost<K, V>(
    nodes: Seq<Node<K, V>>,
    h: Handle,
    ascending: bool,
    fuel: nat,
) -> Option<Handle>
    decreases fuel,
{
    if !(1 <= h <= nodes.len()) {
        None
    } else if near(nodes[h - 1], ascending) == NIL {
        Some(h)
    } else if fuel == 0 {
        None
    } else {
        outermost(nodes, near(nodes[h - 1], ascending), ascending, (fuel - 1) as nat)
    }
}

/// The first ancestor reached from the near side, or [`NIL`] above the root, at most `fuel`
/// links up.
pub open spec fn climbed<K, V>(
    nodes: Seq<Node<K, V>>,
    child: Handle,
    parent: Handle,
    ascending: bool,
    fuel: nat,
) -> Option<Handle>
    decreases fuel,
{
    if parent == NIL {
        Some(NIL)
    } else if parent > nodes.len() {
        None
    } else if child != far(nodes[parent - 1], ascending) {
        Some(parent)
    } else if fuel == 0 {
        None
    } else {
        climbed(nodes, parent, nodes[parent - 1].parent, ascending, (fuel - 1) as nat)
    }
}

/// The node after `h`, or [`NIL`] behind the last. An arena has no more links in a row than
/// slots unless they go round in a circle, so that many are followed.
pub open spec fn follower<K, V>(nodes: Seq<Node<K, V>>, h: Handle, ascending: bool) -> Option<
    Handle,
> {
    let next = far(nodes[h - 1], ascending);
    if next != NIL {
        outermost(nodes, next, ascending, nodes.len())
    } else {
        climbed(nodes, h, nodes[h - 1].parent, ascending, nodes.len())
    }
}

/// The nodes from `cursor` on, if there are at most `most`.
pub open spec fn walked<K, V>(
    nodes: Seq<Node<K, V>>,
    cursor: Handle,
    ascending: bool,
    most: nat,
) -> Option<Seq<Handle>>
    decreases most,
{
    if cursor == NIL {
        Some(Seq::empty())
    } else if most == 0 || cursor > nodes.len() {
        None
    } else {
        match follower(nodes, cursor, ascending) {
            None => None,
            Some(next) => match walked(nodes, next, ascending, (most - 1) as nat) {
                None => None,
                Some(rest) => Some(seq![cursor] + rest),
            },
        }
    }
}

/// The nodes under `root`, if there are at most `most`.
pub open spec fn walked_from<K, V>(
    nodes: Seq<Node<K, V>>,
    root: Handle,
    ascending: bool,
    most: nat,
) -> Option<Seq<Handle>> {
    if root == NIL {
        Some(Seq::empty())
    } else {
        match outermost(nodes, root, ascending, nodes.len()) {
            None => None,
            Some(first) => walked(nodes, first, ascending, most),
        }
    }
}

/// What a slot holds.
pub open spec fn entry_in<K, V>(nodes: Seq<Node<K, V>>, h: Handle) -> Entry<K, V> {
    Entry { handle: h, key: nodes[h - 1].key, value: nodes[h - 1].value }
}

/// What these slots hold.
pub open spec fn entries_in<K, V>(nodes: Seq<Node<K, V>>, handles: Seq<Handle>) -> Seq<
    Entry<K, V>,
> {
    handles.map_values(|h: Handle| entry_in(nodes, h))
}

impl<K: TreeKey, V: TreeValue, const N: usize> RedBlackTree<K, V, N> {
    /// The entries met on a walk, if it ends within as many as the header records.
    pub open spec fn met(self, ascending: bool) -> Option<Seq<Entry<K, V>>> {
        match walked_from(self.slots(), self.root_handle(), ascending, self.stored_len()) {
            Some(handles) => Some(entries_in(self.slots(), handles)),
            None => None,
        }
    }
}

// ---------------------------------------------------------------------------------
// A walk that ends visits no slot twice
// ---------------------------------------------------------------------------------

/// Where a walk goes does not depend on how long it may be.
proof fn lemma_walk_unique<K, V>(
    nodes: Seq<Node<K, V>>,
    cursor: Handle,
    ascending: bool,
    a: nat,
    b: nat,
)
    requires
        walked(nodes, cursor, ascending, a) is Some,
        walked(nodes, cursor, ascending, b) is Some,
    ensures
        walked(nodes, cursor, ascending, a) == walked(nodes, cursor, ascending, b),
    decreases a,
{
    if cursor != NIL {
        let next = follower(nodes, cursor, ascending)->0;
        lemma_walk_unique(nodes, next, ascending, (a - 1) as nat, (b - 1) as nat);
    }
}

/// What is left of a walk is a walk.
proof fn lemma_walk_suffix<K, V>(
    nodes: Seq<Node<K, V>>,
    cursor: Handle,
    ascending: bool,
    most: nat,
    i: int,
)
    requires
        walked(nodes, cursor, ascending, most) is Some,
        0 <= i < (walked(nodes, cursor, ascending, most)->0).len(),
    ensures
        ({
            let all = walked(nodes, cursor, ascending, most)->0;
            &&& i < most
            &&& 1 <= all[i] <= nodes.len()
            &&& walked(nodes, all[i], ascending, (most - i) as nat) == Some(all.skip(i))
        }),
    decreases most,
{
    let all = walked(nodes, cursor, ascending, most)->0;
    let next = follower(nodes, cursor, ascending)->0;
    let rest = walked(nodes, next, ascending, (most - 1) as nat)->0;
    assert(all == seq![cursor] + rest);
    if i == 0 {
        assert(all.skip(0) =~= all);
    } else {
        lemma_walk_suffix(nodes, next, ascending, (most - 1) as nat, i - 1);
        assert(all[i] == rest[i - 1]);
        assert(all.skip(i) =~= rest.skip(i - 1));
    }
}

/// A walk that ends is no longer than the arena.
proof fn lemma_walk_fits<K, V>(
    nodes: Seq<Node<K, V>>,
    cursor: Handle,
    ascending: bool,
    most: nat,
)
    requires
        walked(nodes, cursor, ascending, most) is Some,
    ensures
        (walked(nodes, cursor, ascending, most)->0).len() <= nodes.len(),
{
    let all = walked(nodes, cursor, ascending, most)->0;
    assert forall|i: int| 0 <= i < all.len() implies 1 <= #[trigger] all[i] <= nodes.len() by {
        lemma_walk_suffix(nodes, cursor, ascending, most, i);
    }
    assert forall|i: int, j: int| 0 <= i < all.len() && 0 <= j < all.len() && i < j implies all[i]
        != all[j] by {
        lemma_walk_suffix(nodes, cursor, ascending, most, i);
        lemma_walk_suffix(nodes, cursor, ascending, most, j);
        if all[i] == all[j] {
            lemma_walk_unique(nodes, all[i], ascending, (most - i) as nat, (most - j) as nat);
            assert(all.skip(i).len() == all.skip(j).len());
        }
    }
    lemma_pigeonhole(all, nodes.len());
}

// ---------------------------------------------------------------------------------
// Over a tree, a walk meets the entries in order
// ---------------------------------------------------------------------------------

/// The end of a subtree that a walk reaches first.
spec fn start_of(g: Layout, h: Handle, ascending: bool) -> Handle {
    if ascending {
        g.order[g.label(h).lo]
    } else {
        g.order[g.label(h).hi - 1]
    }
}

/// What stands behind a subtree on a walk.
spec fn behind(g: Layout, h: Handle, ascending: bool) -> Handle {
    if ascending {
        if g.label(h).hi < g.order.len() {
            g.order[g.label(h).hi]
        } else {
            NIL
        }
    } else {
        if g.label(h).lo > 0 {
            g.order[g.label(h).lo - 1]
        } else {
            NIL
        }
    }
}

proof fn lemma_outermost<K, V>(
    nodes: Seq<Node<K, V>>,
    root: Handle,
    g: Layout,
    h: Handle,
    ascending: bool,
    fuel: nat,
)
    requires
        linked(nodes, root, g),
        g.live(h),
        g.label(h).hi - g.label(h).lo <= fuel,
    ensures
        outermost(nodes, h, ascending, fuel) == Some(start_of(g, h, ascending)),
    decreases fuel,
{
    assert(node_linked(nodes, root, g, h));
    let next = near(nodes[h - 1], ascending);
    if next != NIL {
        assert(node_linked(nodes, root, g, next));
        lemma_outermost(nodes, root, g, next, ascending, (fuel - 1) as nat);
    }
}

proof fn lemma_climbed<K, V>(
    nodes: Seq<Node<K, V>>,
    root: Handle,
    g: Layout,
    h: Handle,
    ascending: bool,
    fuel: nat,
)
    requires
        linked(nodes, root, g),
        g.live(h),
        g.order.len() - (g.label(h).hi - g.label(h).lo) <= fuel,
    ensures
        climbed(nodes, h, nodes[h - 1].parent, ascending, fuel) == Some(behind(g, h, ascending)),
    decreases fuel,
{
    assert(node_linked(nodes, root, g, h));
    let parent = nodes[h - 1].parent;
    if parent != NIL {
        assert(g.live(parent));
        assert(node_linked(nodes, root, g, parent));
        if h == far(nodes[parent - 1], ascending) {
            lemma_climbed(nodes, root, g, parent, ascending, (fuel - 1) as nat);
        }
    }
}

/// The node after the one at place `i`.
proof fn lemma_follower<K, V>(
    nodes: Seq<Node<K, V>>,
    root: Handle,
    g: Layout,
    i: int,
    ascending: bool,
)
    requires
        linked(nodes, root, g),
        g.order.len() <= nodes.len(),
        0 <= i < g.order.len(),
    ensures
        follower(nodes, g.order[i], ascending) == Some(
            if ascending {
                if i + 1 < g.order.len() {
                    g.order[i + 1]
                } else {
                    NIL
                }
            } else {
                if i > 0 {
                    g.order[i - 1]
                } else {
                    NIL
                }
            },
        ),
{
    let h = g.order[i];
    assert(g.label(h).pos == i);
    assert(g.live(h));
    assert(node_linked(nodes, root, g, h));
    let next = far(nodes[h - 1], ascending);
    if next != NIL {
        assert(node_linked(nodes, root, g, next));
        lemma_outermost(nodes, root, g, next, ascending, nodes.len());
    } else {
        lemma_climbed(nodes, root, g, h, ascending, nodes.len());
    }
}

proof fn lemma_walked_up<K, V>(
    nodes: Seq<Node<K, V>>,
    root: Handle,
    g: Layout,
    i: int,
    most: nat,
)
    requires
        linked(nodes, root, g),
        g.order.len() <= nodes.len(),
        0 <= i <= g.order.len() <= most + i,
    ensures
        walked(
            nodes,
            if i < g.order.len() {
                g.order[i]
            } else {
                NIL
            },
            true,
            most,
        ) == Some(g.order.skip(i)),
    decreases g.order.len() - i,
{
    if i < g.order.len() {
        assert(1 <= g.order[i] <= nodes.len());
        lemma_follower(nodes, root, g, i, true);
        lemma_walked_up(nodes, root, g, i + 1, (most - 1) as nat);
        assert(seq![g.order[i]] + g.order.skip(i + 1) =~= g.order.skip(i));
    } else {
        assert(g.order.skip(i) =~= Seq::empty());
    }
}

proof fn lemma_walked_down<K, V>(
    nodes: Seq<Node<K, V>>,
    root: Handle,
    g: Layout,
    n: int,
    most: nat,
)
    requires
        linked(nodes, root, g),
        g.order.len() <= nodes.len(),
        0 <= n <= g.order.len(),
        n <= most,
    ensures
        walked(
            nodes,
            if n > 0 {
                g.order[n - 1]
            } else {
                NIL
            },
            false,
            most,
        ) == Some(g.order.take(n).reverse()),
    decreases n,
{
    if n > 0 {
        assert(1 <= g.order[n - 1] <= nodes.len());
        lemma_follower(nodes, root, g, n - 1, false);
        lemma_walked_down(nodes, root, g, n - 1, (most - 1) as nat);
        assert(seq![g.order[n - 1]] + g.order.take(n - 1).reverse() =~= g.order.take(
            n,
        ).reverse());
    } else {
        assert(g.order.take(n).reverse() =~= Seq::empty());
    }
}

impl<K: TreeKey, V: TreeValue, const N: usize> RedBlackTree<K, V, N> {
    /// Whatever the links say, a walk that ends met slots of the arena, each of them once
    /// and with what it holds, and no more of them than the header records.
    pub proof fn law_walks_stay_in_the_arena(self, ascending: bool)
        requires
            self.met(ascending) is Some,
        ensures
            ({
                let entries = self.met(ascending)->0;
                &&& entries.len() <= self.stored_len()
                &&& entries.len() <= N
                &&& forall|i: int|
                    0 <= i < entries.len() ==> {
                        let slot = self.slots()[(#[trigger] entries[i]).handle - 1];
                        &&& 1 <= entries[i].handle <= N
                        &&& entries[i].key == slot.key
                        &&& entries[i].value == slot.value
                    }
                &&& forall|i: int, j: int|
                    0 <= i < j < entries.len() ==> (#[trigger] entries[i]).handle != (
                    #[trigger] entries[j]).handle
            }),
    {
        let nodes = self.slots();
        let most = self.stored_len();
        let handles = walked_from(nodes, self.root_handle(), ascending, most)->0;
        let entries = self.met(ascending)->0;
        if self.root_handle() != NIL {
            let first = outermost(nodes, self.root_handle(), ascending, nodes.len())->0;
            lemma_walk_fits(nodes, first, ascending, most);
            assert forall|i: int| 0 <= i < entries.len() implies {
                let slot = nodes[(#[trigger] entries[i]).handle - 1];
                &&& 1 <= entries[i].handle <= N
                &&& entries[i].key == slot.key
                &&& entries[i].value == slot.value
            } by {
                lemma_walk_suffix(nodes, first, ascending, most, i);
            }
            assert forall|i: int, j: int| 0 <= i < j < entries.len() implies (
            #[trigger] entries[i]).handle != (#[trigger] entries[j]).handle by {
                lemma_walk_suffix(nodes, first, ascending, most, i);
                lemma_walk_suffix(nodes, first, ascending, most, j);
                if handles[i] == handles[j] {
                    lemma_walk_unique(
                        nodes,
                        handles[i],
                        ascending,
                        (most - i) as nat,
                        (most - j) as nat,
                    );
                    assert(handles.skip(i).len() == handles.skip(j).len());
                }
            }
            if handles.len() > 0 {
                lemma_walk_suffix(nodes, first, ascending, most, handles.len() - 1);
            }
        }
    }

    /// Walking a tree meets its entries, in order.
    pub proof fn law_walks_meet_the_entries(self)
        requires
            self.is_linked(),
            self.view().len() <= self.stored_len(),
        ensures
            self.met(true) == Some(self.view().entries()),
            self.met(false) == Some(self.view().entries().reverse()),
    {
        let nodes = self.nodes@;
        let g = self.layout();
        self.lemma_is_linked();
        self.lemma_linked(g);
        let n = g.order.len();
        lemma_pigeonhole(g.order, nodes.len());
        if self.root != NIL {
            lemma_outermost(nodes, self.root, g, self.root, true, nodes.len());
            lemma_outermost(nodes, self.root, g, self.root, false, nodes.len());
            assert(n > 0);
        }
        lemma_walked_up(nodes, self.root, g, 0, self.stored_len());
        lemma_walked_down(nodes, self.root, g, n as int, self.stored_len());
        assert(g.order.skip(0) =~= g.order);
        assert(g.order.take(n as int) =~= g.order);
        let up = walked_from(nodes, self.root, true, self.stored_len());
        let down = walked_from(nodes, self.root, false, self.stored_len());
        assert(up == Some(g.order)) by {
            assert(self.root == NIL ==> g.order =~= Seq::empty());
        }
        assert(down == Some(g.order.reverse())) by {
            assert(self.root == NIL ==> g.order.reverse() =~= Seq::empty());
        }
        assert(entries_in(nodes, g.order) =~= self.view().entries());
        assert(entries_in(nodes, g.order.reverse()) =~= self.view().entries().reverse());
    }

    // -----------------------------------------------------------------------------
    // Walking
    // -----------------------------------------------------------------------------

    /// The first node of the subtree at `handle`.
    fn first_under(&self, handle: Handle, ascending: bool) -> (first: Option<Handle>)
        ensures
            first == outermost(self.slots(), handle, ascending, N as nat),
    {
        let mut h = handle;
        let mut fuel: usize = N;
        loop
            invariant
                outermost(self.slots(), h, ascending, fuel as nat) == outermost(
                    self.slots(),
                    handle,
                    ascending,
                    N as nat,
                ),
                self.slots().len() == N,
            decreases fuel,
        {
            if h == NIL || h as usize > N {
                return None;
            }
            let node = self.node(h);
            let next = if ascending {
                node.left
            } else {
                node.right
            };
            if next == NIL {
                return Some(h);
            }
            if fuel == 0 {
                return None;
            }
            h = next;
            fuel = fuel - 1;
        }
    }

    /// The node after `handle`.
    fn next_after(&self, handle: Handle, ascending: bool) -> (next: Option<Handle>)
        requires
            1 <= handle <= N,
        ensures
            next == follower(self.slots(), handle, ascending),
    {
        let node = self.node(handle);
        let next = if ascending {
            node.right
        } else {
            node.left
        };
        if next != NIL {
            return self.first_under(next, ascending);
        }
        let mut child = handle;
        let mut parent = node.parent;
        let mut fuel: usize = N;
        loop
            invariant
                climbed(self.slots(), child, parent, ascending, fuel as nat) == follower(
                    self.slots(),
                    handle,
                    ascending,
                ),
                self.slots().len() == N,
            decreases fuel,
        {
            if parent == NIL {
                return Some(NIL);
            }
            if parent as usize > N {
                return None;
            }
            let above = self.node(parent);
            let turn = if ascending {
                above.right
            } else {
                above.left
            };
            if child != turn {
                return Some(parent);
            }
            if fuel == 0 {
                return None;
            }
            child = parent;
            parent = above.parent;
            fuel = fuel - 1;
        }
    }

    /// Every entry in ascending or descending order, as the links have it. `None` if a link
    /// leaves the arena, if the links never end, or if there are more entries than the
    /// header records.
    pub fn walk(&self, ascending: bool) -> (entries: Option<Vec<Entry<K, V>>>)
        ensures
            match entries {
                Some(found) => self.met(ascending) == Some(found@),
                None => self.met(ascending) is None,
            },
    {
        let ghost nodes = self.slots();
        let ghost most = self.stored_len();
        let ghost all = walked_from(nodes, self.root, ascending, most);
        let mut entries: Vec<Entry<K, V>> = Vec::new();
        if self.root == NIL {
            proof {
                assert(entries_in(nodes, Seq::empty()) =~= entries@);
            }
            return Some(entries);
        }
        let mut cursor = match self.first_under(self.root, ascending) {
            Some(first) => first,
            None => {
                return None;
            },
        };
        let ghost first = cursor;
        let ghost mut seen: Seq<Handle> = Seq::empty();
        let mut left = self.len;
        proof {
            assert(entries_in(nodes, seen) =~= entries@);
            if let Some(rest) = walked(nodes, cursor, ascending, left as nat) {
                assert(seen + rest =~= rest);
            }
        }
        while cursor != NIL
            invariant
                nodes == self.slots(),
                nodes.len() == N,
                most == self.stored_len(),
                all == walked_from(nodes, self.root, ascending, most),
                all == walked(nodes, first, ascending, most),
                self.root != NIL,
                entries@ == entries_in(nodes, seen),
                seen.len() <= N,
                all == match walked(nodes, cursor, ascending, left as nat) {
                    Some(rest) => Some(seen + rest),
                    None => None,
                },
            decreases N - seen.len(),
        {
            if left == 0 || cursor as usize > N {
                return None;
            }
            if entries.len() == N {
                proof {
                    if let Some(rest) = walked(nodes, cursor, ascending, left as nat) {
                        lemma_walk_fits(nodes, first, ascending, most);
                        assert(rest.len() > 0);
                    }
                }
                return None;
            }
            let next = match self.next_after(cursor, ascending) {
                Some(next) => next,
                None => {
                    return None;
                },
            };
            let node = self.node(cursor);
            entries.push(Entry { handle: cursor, key: node.key, value: node.value });
            proof {
                let met = seen.push(cursor);
                assert(entries@ =~= entries_in(nodes, met));
                if let Some(rest) = walked(nodes, next, ascending, (left - 1) as nat) {
                    assert(seen + (seq![cursor] + rest) =~= met + rest);
                }
                seen = met;
            }
            cursor = next;
            left = left - 1;
        }
        proof {
            assert(seen + Seq::empty() =~= seen);
        }
        Some(entries)
    }
}

} // verus!
