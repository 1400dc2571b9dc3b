//! A fixed-capacity red-black tree over an inline node arena.
//!
//! - **No allocator.** One value with an inline node array.
//! - **Zeroed memory is already valid.** [`NIL`] is handle `0` and handles are 1-based,
//!   so an all-zero arena is an empty tree at full capacity.
//! - **Bounded worst case.** Capacity is a const generic.
//!
//! Allocation is a bump pointer plus a free list threaded through the `left` field of
//! freed slots. Freed slots keep their old key and value; that is sound, since
//! reachability is defined by tree structure.
//!
//! The contracts speak of [`RedBlackTree::view`]: the live handles in key order, the
//! contents of every slot, and the free list. How the nodes are linked and coloured is
//! described by a [`layout::Layout`], which only the proofs mention.

pub mod bytes;
pub mod height;
pub mod invariants;
pub mod iter;
pub mod laws;
pub mod layout;
pub mod node;
pub mod view;
pub mod walk;

mod double_black;
mod insert;
mod navigate;
mod remove;
mod rotate;
mod shape;
mod splice;

use vstd::prelude::*;

pub use invariants::Invariant;
pub use iter::{Iter, IterRev};
pub use node::{Entry, Handle, Node, TreeKey, TreeValue, BLACK, NIL, RED};
pub use view::TreeView;

#[allow(unused_imports)]
use layout::{accounted, balanced, color_at, free_chain, linked, red_ok, sorted, Layout};

verus! {

/// A fixed-capacity red-black tree stored entirely inline. `N` is the capacity in nodes.
///
/// See the [module docs](self) for the design rationale.
pub struct RedBlackTree<K, V, const N: usize> {
    pub(crate) root: Handle,
    pub(crate) free_head: Handle,
    /// Slots ever handed out by the bump pointer. Slots `bump..N` are untouched.
    pub(crate) bump: u32,
    pub(crate) len: u32,
    pub(crate) nodes: [Node<K, V>; N],
}

impl<K: Copy, V: Copy, const N: usize> Copy for RedBlackTree<K, V, N> {

}

impl<K: Copy, V: Copy, const N: usize> Clone for RedBlackTree<K, V, N> {
    fn clone(&self) -> (copy: Self)
        ensures
            copy == *self,
    {
        *self
    }
}

impl<K: TreeKey, V: TreeValue, const N: usize> RedBlackTree<K, V, N> {
    /// The arena's links form a tree.
    pub closed spec fn is_linked(self) -> bool {
        exists|g: Layout| linked(self.nodes@, self.root, g)
    }

    /// The live handles in order; empty if the links form no tree.
    pub closed spec fn order(self) -> Seq<Handle> {
        if self.is_linked() {
            (choose|g: Layout| linked(self.nodes@, self.root, g)).order
        } else {
            Seq::empty()
        }
    }

    /// The free list; empty if the chain never ends.
    pub closed spec fn free_list(self) -> Seq<Handle> {
        if exists|free: Seq<Handle>| free_chain(self.nodes@, self.free_head, free) {
            choose|free: Seq<Handle>| free_chain(self.nodes@, self.free_head, free)
        } else {
            Seq::empty()
        }
    }

    /// The number of entries the header records.
    pub closed spec fn stored_len(self) -> nat {
        self.len as nat
    }

    /// The keys along the tree ascend strictly.
    pub closed spec fn is_search_tree(self) -> bool {
        self.is_linked() && sorted(self.nodes@, self.order())
    }

    /// `g` describes this tree, and every red-black and arena invariant holds.
    pub(crate) closed spec fn described_by(self, g: Layout, free: Seq<Handle>) -> bool {
        &&& linked(self.nodes@, self.root, g)
        &&& sorted(self.nodes@, g.order)
        &&& balanced(self.nodes@, g)
        &&& red_ok(self.nodes@, g, NIL)
        &&& color_at(self.nodes@, self.root) == BLACK
        &&& self.len == g.order.len()
        &&& free_chain(self.nodes@, self.free_head, free)
        &&& accounted(g, free, self.bump as int)
        &&& self.bump <= N
        &&& N <= u32::MAX
    }

    /// Every red-black and arena invariant holds.
    pub closed spec fn wf(self) -> bool {
        exists|g: Layout, free: Seq<Handle>| self.described_by(g, free)
    }

    /// What the tree holds.
    pub closed spec fn view(self) -> TreeView<K, V> {
        TreeView {
            order: self.order(),
            keys: self.nodes@.map_values(|node: Node<K, V>| node.key),
            values: self.nodes@.map_values(|node: Node<K, V>| node.value),
            free: self.free_list(),
            bump: self.bump as int,
        }
    }

    /// A described tree has the described contents.
    pub(crate) proof fn lemma_described(self, g: Layout, free: Seq<Handle>)
        requires
            self.described_by(g, free),
        ensures
            self.wf(),
            self.is_linked(),
            self.is_search_tree(),
            self.order() == g.order,
            self.free_list() == free,
    {
        self.lemma_linked(g);
        let f = self.free_list();
        assert(free_chain(self.nodes@, self.free_head, f));
        layout::lemma_free_unique(self.nodes@, self.free_head, f, free);
    }

    /// A linked arena has the order its layout gives.
    pub(crate) proof fn lemma_linked(self, g: Layout)
        requires
            linked(self.nodes@, self.root, g),
        ensures
            self.is_linked(),
            self.order() == g.order,
    {
        let c = choose|c: Layout| linked(self.nodes@, self.root, c);
        layout::lemma_order_unique(self.nodes@, self.root, c, g);
    }

    /// The layout of a linked tree.
    pub(crate) closed spec fn layout(self) -> Layout {
        choose|g: Layout| linked(self.nodes@, self.root, g)
    }

    /// A layout and free list that describe a well-formed tree.
    pub(crate) closed spec fn description(self) -> (Layout, Seq<Handle>) {
        choose|g: Layout, free: Seq<Handle>| self.described_by(g, free)
    }

    /// A well-formed tree has well-formed contents, with the arena's capacity.
    pub proof fn lemma_wf(self)
        requires
            self.wf(),
        ensures
            self.is_search_tree(),
            self.is_linked(),
            self.view().wf(),
            self.view().capacity() == N,
            self.stored_len() == self.view().len(),
            N <= u32::MAX,
    {
        let (g, free) = self.description();
        assert(self.described_by(g, free));
        self.lemma_described(g, free);
        let v = self.view();
        assert forall|i: int, j: int| 0 <= i < j < v.order.len() implies (#[trigger] v.key_at(
            i,
        )).rank() < (#[trigger] v.key_at(j)).rank() by {
            assert(1 <= g.order[i] <= N && 1 <= g.order[j] <= N);
        }
        assert forall|i: int, j: int|
            0 <= i < v.order.len() && 0 <= j < v.order.len() && i != j implies v.order[i]
            != v.order[j] by {
            assert(g.label(g.order[i]).pos == i);
        }
        assert forall|i: int| 0 <= i < v.free.len() implies 1 <= #[trigger] v.free[i] <= v.bump
            && !v.order.contains(v.free[i]) by {
            if v.order.contains(v.free[i]) {
                let j = choose|j: int| 0 <= j < v.order.len() && v.order[j] == v.free[i];
                assert(g.label(g.order[j]).pos == j);
                assert(g.live(g.order[j]));
            }
        }
        assert forall|i: int| 0 <= i < v.order.len() implies #[trigger] v.order[i] <= v.bump by {
            assert(g.label(g.order[i]).pos == i);
            assert(g.live(g.order[i]));
        }
    }
}

// ---------------------------------------------------------------------------------
// Construction and metadata
// ---------------------------------------------------------------------------------

impl<K: TreeKey, V: TreeValue, const N: usize> RedBlackTree<K, V, N> {
    /// An empty tree: every slot zero.
    pub fn new() -> (tree: Self)
        requires
            N <= u32::MAX,
        ensures
            tree.wf(),
            tree.view() == TreeView::<K, V>::blank(N as nat, V::zero()),
    {
        let node = Node {
            left: NIL,
            right: NIL,
            parent: NIL,
            color: RED,
            key: K::zeroed(),
            value: V::zeroed(),
        };
        let tree = RedBlackTree { root: NIL, free_head: NIL, bump: 0, len: 0, nodes: [node; N] };
        proof {
            tree.lemma_empty();
            assert(tree.view() =~= TreeView::<K, V>::blank(N as nat, V::zero()));
        }
        tree
    }

    /// An empty tree on the heap.
    pub fn new_boxed() -> (tree: Box<Self>)
        requires
            N <= u32::MAX,
        ensures
            tree.wf(),
            tree.view() == TreeView::<K, V>::blank(N as nat, V::zero()),
    {
        Box::new(Self::new())
    }

    pub(crate) proof fn lemma_empty(self)
        requires
            self.root == NIL,
            self.free_head == NIL,
            self.bump == 0,
            self.len == 0,
            N <= u32::MAX,
        ensures
            self.wf(),
            self.order() == Seq::<Handle>::empty(),
            self.free_list() == Seq::<Handle>::empty(),
    {
        let g = Layout {
            order: Seq::empty(),
            labels: Seq::new(N as nat, |i: int| layout::Label { lo: 0, pos: 0, hi: 0, height: 1 }),
        };
        let free = Seq::<Handle>::empty();
        assert(self.described_by(g, free));
        self.lemma_described(g, free);
    }

    /// Maximum entries this tree can hold.
    pub fn capacity(&self) -> (capacity: usize)
        ensures
            capacity == N,
            capacity == self.view().capacity(),
    {
        N
    }

    /// Entries currently held.
    pub fn len(&self) -> (len: usize)
        requires
            self.wf(),
        ensures
            len == self.view().len(),
    {
        proof {
            let (g, free) = self.description();
            self.lemma_described(g, free);
        }
        self.len as usize
    }

    /// Whether the tree is empty.
    pub fn is_empty(&self) -> (empty: bool)
        requires
            self.wf(),
        ensures
            empty == (self.view().len() == 0),
    {
        proof {
            let (g, free) = self.description();
            self.lemma_described(g, free);
        }
        self.len == 0
    }

    /// Whether the next insert of a *new* key will fail.
    pub fn is_full(&self) -> (full: bool)
        requires
            self.wf(),
        ensures
            full == self.view().is_full(),
    {
        proof {
            let (g, free) = self.description();
            self.lemma_described(g, free);
        }
        self.len as usize >= N
    }

    /// Empties the tree in O(1) by resetting the header. Slots are left as they were.
    pub fn clear(&mut self)
        requires
            N <= u32::MAX,
        ensures
            final(self).wf(),
            final(self).view() == old(self).view().cleared(),
    {
        self.root = NIL;
        self.free_head = NIL;
        self.bump = 0;
        self.len = 0;
        proof {
            self.lemma_empty();
            assert(self.view() =~= old(self).view().cleared());
        }
    }
}

// ---------------------------------------------------------------------------------
// Arena access
// ---------------------------------------------------------------------------------

impl<K: TreeKey, V: TreeValue, const N: usize> RedBlackTree<K, V, N> {
    /// The handle of the root.
    pub closed spec fn root_handle(self) -> Handle {
        self.root
    }

    /// The raw slots of the arena.
    pub closed spec fn slots(self) -> Seq<Node<K, V>> {
        self.nodes@
    }

    /// Borrows a slot.
    pub fn node(&self, handle: Handle) -> (node: &Node<K, V>)
        requires
            1 <= handle <= N,
        ensures
            *node == self.slots()[handle - 1],
            node.key == self.view().keys[handle - 1],
            node.value == self.view().values[handle - 1],
    {
        &self.nodes[handle as usize - 1]
    }

    /// Mutably borrows a slot.
    pub fn node_mut(&mut self, handle: Handle) -> (node: &mut Node<K, V>)
        requires
            1 <= handle <= N,
        ensures
            *node == old(self).slots()[handle - 1],
            final(self).slots() == old(self).slots().update(handle - 1, *final(node)),
            final(self).same_header(*old(self)),
    {
        &mut self.nodes[handle as usize - 1]
    }

    /// The two trees differ at most in their slots.
    pub closed spec fn same_header(self, other: Self) -> bool {
        &&& self.root == other.root
        &&& self.free_head == other.free_head
        &&& self.bump == other.bump
        &&& self.len == other.len
    }

    pub(crate) fn left_of(&self, handle: Handle) -> (left: Handle)
        requires
            handle <= N,
        ensures
            left == (if handle == NIL {
                NIL
            } else {
                self.nodes@[handle - 1].left
            }),
    {
        if handle == NIL {
            NIL
        } else {
            self.node(handle).left
        }
    }

    pub(crate) fn right_of(&self, handle: Handle) -> (right: Handle)
        requires
            handle <= N,
        ensures
            right == (if handle == NIL {
                NIL
            } else {
                self.nodes@[handle - 1].right
            }),
    {
        if handle == NIL {
            NIL
        } else {
            self.node(handle).right
        }
    }

    pub(crate) fn parent_of(&self, handle: Handle) -> (parent: Handle)
        requires
            handle <= N,
        ensures
            parent == (if handle == NIL {
                NIL
            } else {
                self.nodes@[handle - 1].parent
            }),
    {
        if handle == NIL {
            NIL
        } else {
            self.node(handle).parent
        }
    }

    /// The colour of `handle`, treating [`NIL`] as black.
    pub(crate) fn color_of(&self, handle: Handle) -> (color: u32)
        requires
            handle <= N,
        ensures
            color == color_at(self.nodes@, handle),
    {
        if handle == NIL {
            BLACK
        } else {
            self.node(handle).color
        }
    }

    pub(crate) fn set_color(&mut self, handle: Handle, color: u32)
        requires
            handle <= N,
        ensures
            final(self).same_header(*old(self)),
            final(self).nodes@ == (if handle == NIL {
                old(self).nodes@
            } else {
                old(self).nodes@.update(
                    handle - 1,
                    Node { color, ..old(self).nodes@[handle - 1] },
                )
            }),
    {
        if handle != NIL {
            self.node_mut(handle).color = color;
        }
    }

    pub(crate) fn increment_len(&mut self)
        requires
            old(self).len < u32::MAX,
        ensures
            final(self).len == old(self).len + 1,
            final(self).nodes@ == old(self).nodes@,
            final(self).root == old(self).root,
            final(self).free_head == old(self).free_head,
            final(self).bump == old(self).bump,
    {
        self.len = self.len + 1;
    }

    pub(crate) fn decrement_len(&mut self)
        requires
            old(self).len > 0,
        ensures
            final(self).len == old(self).len - 1,
            final(self).nodes@ == old(self).nodes@,
            final(self).root == old(self).root,
            final(self).free_head == old(self).free_head,
            final(self).bump == old(self).bump,
    {
        self.len = self.len - 1;
    }

    /// Takes a slot from the free list, or bumps into virgin capacity.
    pub(crate) fn take_slot(&mut self, Ghost(free): Ghost<Seq<Handle>>) -> (handle: Option<Handle>)
        requires
            free_chain(old(self).nodes@, old(self).free_head, free),
            old(self).bump <= N <= u32::MAX,
        ensures
            final(self).nodes@ == old(self).nodes@,
            final(self).root == old(self).root,
            final(self).len == old(self).len,
            if free.len() > 0 {
                &&& handle == Some(free[0])
                &&& free_chain(final(self).nodes@, final(self).free_head, free.drop_first())
                &&& final(self).bump == old(self).bump
            } else if old(self).bump < N {
                &&& handle == Some((old(self).bump + 1) as Handle)
                &&& final(self).bump == old(self).bump + 1
                &&& final(self).free_head == NIL
            } else {
                &&& handle is None
                &&& *final(self) == *old(self)
            },
    {
        if self.free_head != NIL {
            let handle = self.free_head;
            proof {
                assert(free[0] == handle);
                let rest = free.drop_first();
                assert forall|i: int| 0 <= i < rest.len() implies {
                    &&& 1 <= #[trigger] rest[i] <= self.nodes@.len()
                    &&& self.nodes@[rest[i] - 1].left == (if i + 1 < rest.len() {
                        rest[i + 1]
                    } else {
                        NIL
                    })
                } by {
                    assert(rest[i] == free[i + 1]);
                }
            }
            self.free_head = self.node(handle).left;
            Some(handle)
        } else if (self.bump as usize) < N {
            proof {
                if free.len() > 0 {
                    assert(1 <= free[0]);
                }
            }
            self.bump = self.bump + 1;
            Some(self.bump)
        } else {
            proof {
                if free.len() > 0 {
                    assert(1 <= free[0]);
                }
            }
            None
        }
    }

    /// Returns a slot to the free list. Its key and value are left as they were.
    pub(crate) fn free_slot(&mut self, handle: Handle, Ghost(free): Ghost<Seq<Handle>>)
        requires
            1 <= handle <= N,
            free_chain(old(self).nodes@, old(self).free_head, free),
            !free.contains(handle),
        ensures
            final(self).root == old(self).root,
            final(self).bump == old(self).bump,
            final(self).len == old(self).len,
            final(self).nodes@ == old(self).nodes@.update(
                handle - 1,
                Node {
                    left: old(self).free_head,
                    right: NIL,
                    parent: NIL,
                    ..old(self).nodes@[handle - 1]
                },
            ),
            free_chain(final(self).nodes@, final(self).free_head, seq![handle] + free),
    {
        let head = self.free_head;
        let node = self.node_mut(handle);
        node.left = head;
        node.right = NIL;
        node.parent = NIL;
        self.free_head = handle;
        proof {
            let longer = seq![handle] + free;
            assert forall|i: int| 0 <= i < longer.len() implies {
                &&& 1 <= #[trigger] longer[i] <= self.nodes@.len()
                &&& self.nodes@[longer[i] - 1].left == (if i + 1 < longer.len() {
                    longer[i + 1]
                } else {
                    NIL
                })
            } by {
                if i > 0 {
                    assert(longer[i] == free[i - 1]);
                    assert(free.contains(free[i - 1]));
                }
            }
        }
    }

    /// Resets the root handle.
    pub(crate) fn set_root(&mut self, handle: Handle)
        ensures
            final(self).root == handle,
            final(self).nodes@ == old(self).nodes@,
            final(self).free_head == old(self).free_head,
            final(self).bump == old(self).bump,
            final(self).len == old(self).len,
    {
        self.root = handle;
    }
}

} // verus!
