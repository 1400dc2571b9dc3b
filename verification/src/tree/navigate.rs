//! Lookup and navigation.

use vstd::prelude::*;

#[allow(unused_imports)]
use super::layout::{linked, node_linked, Layout};
use super::node::{Entry, Handle, Node, TreeKey, TreeValue, NIL};
use super::RedBlackTree;

verus! {

impl<K: TreeKey, V: TreeValue, const N: usize> RedBlackTree<K, V, N> {
    /// A search tree's contents are sorted and its handles are distinct slots.
    pub proof fn lemma_search_tree(self)
        requires
            self.is_search_tree(),
        ensures
            self.is_linked(),
            self.view().is_sorted(),
            self.view().has_valid_handles(),
            self.view().capacity() == N,
    {
        self.lemma_is_linked();
        let g = self.layout();
        let v = self.view();
        assert(linked(self.nodes@, self.root, g));
        assert forall|i: int, j: int| 0 <= i < j < v.order.len() implies (#[trigger] v.key_at(
            i,
        )).rank() < (#[trigger] v.key_at(j)).rank() by {
            assert(1 <= g.order[i] <= N && 1 <= g.order[j] <= N);
        }
    }

    /// A linked tree's live handles are distinct slots of the arena.
    pub proof fn lemma_is_linked(self)
        requires
            self.is_linked(),
        ensures
            self.view().has_valid_handles(),
            self.view().capacity() == N,
            self.view().order == self.order(),
    {
        let g = self.layout();
        let v = self.view();
        assert(linked(self.nodes@, self.root, g));
        assert forall|i: int, j: int|
            0 <= i < v.order.len() && 0 <= j < v.order.len() && i != j implies v.order[i]
            != v.order[j] by {
            assert(g.label(g.order[i]).pos == i);
            assert(g.label(g.order[j]).pos == j);
        }
        assert forall|i: int| 0 <= i < v.order.len() implies 1 <= #[trigger] v.order[i]
            <= v.keys.len() by {
            assert(1 <= g.order[i] <= N);
        }
    }

    /// The handle of `key`, or [`NIL`] if absent.
    pub fn find(&self, key: &K) -> (handle: Handle)
        requires
            self.is_search_tree(),
        ensures
            handle == self.view().handle_of(*key),
            handle <= N,
            (handle != NIL) == self.view().contains_key(*key),
    {
        let ghost g = self.layout();
        let ghost v = self.view();
        let ghost mut lo: int = 0;
        let ghost mut hi: int = g.order.len() as int;
        let mut current = self.root;
        proof {
            self.lemma_search_tree();
            assert(linked(self.nodes@, self.root, g));
        }
        while current != NIL
            invariant
                linked(self.nodes@, self.root, g),
                v == self.view(),
                v.order == g.order,
                v.is_sorted(),
                v.has_valid_handles(),
                0 <= lo <= hi <= g.order.len(),
                if current == NIL {
                    lo == hi
                } else {
                    g.live(current) && g.label(current).lo == lo && g.label(current).hi == hi
                },
                forall|i: int| 0 <= i < lo ==> (#[trigger] v.key_at(i)).rank() < key.rank(),
                forall|i: int|
                    hi <= i < g.order.len() ==> (#[trigger] v.key_at(i)).rank() > key.rank(),
            decreases hi - lo,
        {
            proof {
                assert(node_linked(self.nodes@, self.root, g, current));
            }
            let node = self.node(current);
            let ghost pos = g.label(current).pos;
            assert(v.key_at(pos) == node.key);
            if key.precedes(&node.key) {
                proof {
                    hi = pos;
                    assert forall|i: int| hi <= i < g.order.len() implies (#[trigger] v.key_at(
                        i,
                    )).rank() > key.rank() by {
                        if i > pos {
                            assert(v.key_at(pos).rank() < v.key_at(i).rank());
                        }
                    }
                }
                current = node.left;
            } else if node.key.precedes(key) {
                proof {
                    lo = pos + 1;
                    assert forall|i: int| 0 <= i < lo implies (#[trigger] v.key_at(i)).rank()
                        < key.rank() by {
                        if i < pos {
                            assert(v.key_at(i).rank() < v.key_at(pos).rank());
                        }
                    }
                }
                current = node.right;
            } else {
                proof {
                    K::rank_injective(*key, node.key);
                    v.lemma_position_present(*key, pos);
                }
                return current;
            }
        }
        proof {
            assert(!v.contains_key(*key)) by {
                if v.contains_key(*key) {
                    let i = choose|i: int|
                        0 <= i < v.order.len() && #[trigger] v.key_at(i) == *key;
                    assert(v.key_at(i).rank() == key.rank());
                }
            }
        }
        NIL
    }

    /// The value at `handle`, or `None` for [`NIL`].
    pub fn get_by_handle(&self, handle: Handle) -> (value: Option<&V>)
        requires
            handle <= N,
        ensures
            match value {
                None => handle == NIL,
                Some(v) => handle != NIL && *v == self.view().values[handle - 1],
            },
    {
        if handle != NIL {
            Some(&self.node(handle).value)
        } else {
            None
        }
    }

    /// Replacing a value changes nothing but that value.
    pub(crate) proof fn lemma_value_replaced(self, before: Self, h: Handle, value: V)
        requires
            1 <= h <= N,
            self.same_header(before),
            self.nodes@ == before.nodes@.update(
                h - 1,
                Node { value, ..before.nodes@[h - 1] },
            ),
        ensures
            before.is_linked() ==> self.is_linked() && self.view() == before.view().with_value(
                h,
                value,
            ),
            before.is_search_tree() ==> self.is_search_tree(),
            before.wf() ==> self.wf(),
    {
        let n0 = before.nodes@;
        let n1 = self.nodes@;
        assert forall|g: Layout| #[trigger]
            linked(n0, before.root, g) implies linked(n1, before.root, g) by {
            assert forall|x: Handle| g.live(x) implies #[trigger] node_linked(
                n1,
                before.root,
                g,
                x,
            ) by {
                assert(node_linked(n0, before.root, g, x));
            }
        }
        assert forall|f: Seq<Handle>| #[trigger]
            super::layout::free_chain(n0, before.free_head, f) == super::layout::free_chain(
            n1,
            before.free_head,
            f,
        ) by {}
        if before.is_linked() {
            let g = before.layout();
            assert(linked(n0, before.root, g));
            self.lemma_linked(g);
            before.lemma_linked(g);
            assert(self.free_list() == before.free_list()) by {
                if exists|f: Seq<Handle>| super::layout::free_chain(n0, before.free_head, f) {
                    let f0 = before.free_list();
                    let f1 = self.free_list();
                    assert(super::layout::free_chain(n0, before.free_head, f0));
                    assert(super::layout::free_chain(n1, before.free_head, f0));
                    assert(super::layout::free_chain(n1, before.free_head, f1));
                    super::layout::lemma_free_unique(n1, before.free_head, f0, f1);
                } else {
                    assert forall|f: Seq<Handle>| !super::layout::free_chain(
                        n1,
                        before.free_head,
                        f,
                    ) by {
                        assert(!super::layout::free_chain(n0, before.free_head, f));
                    }
                }
            }
            assert(self.view() =~= before.view().with_value(h, value));
        }
        if before.wf() {
            let (g, free) = before.description();
            assert(before.described_by(g, free));
            assert forall|x: Handle| g.live(x) implies #[trigger] super::layout::node_balanced(
                n1,
                g,
                x,
            ) by {
                assert(super::layout::node_balanced(n0, g, x));
            }
            assert forall|x: Handle| g.live(x) implies #[trigger] super::layout::node_red_ok(
                n1,
                x,
                NIL,
            ) by {
                assert(super::layout::node_red_ok(n0, x, NIL));
                assert(node_linked(n0, before.root, g, x));
            }
            assert(self.described_by(g, free));
        }
    }

    /// Mutable access to the value at `handle`, or `None` for [`NIL`].
    ///
    /// Safe to expose because only `K` participates in the ordering, so no caller can
    /// invalidate the tree through this.
    pub fn get_mut_by_handle(&mut self, handle: Handle) -> (value: Option<&mut V>)
        requires
            handle <= N,
        ensures
            match value {
                None => handle == NIL && *final(self) == *old(self),
                Some(v) => {
                    &&& handle != NIL
                    &&& *v == old(self).view().values[handle - 1]
                    &&& old(self).is_linked() ==> {
                        &&& final(self).is_linked()
                        &&& final(self).view() == old(self).view().with_value(handle, *final(v))
                    }
                    &&& old(self).is_search_tree() ==> final(self).is_search_tree()
                    &&& old(self).wf() ==> final(self).wf()
                },
            },
    {
        if handle != NIL {
            let ghost before = *self;
            proof {
                assert forall|after: Self| #[trigger]
                    after.same_header(before) && after.nodes@ == before.nodes@.update(
                        handle - 1,
                        Node {
                            value: after.nodes@[handle - 1].value,
                            ..before.nodes@[handle - 1]
                        },
                    ) implies {
                    let value = after.nodes@[handle - 1].value;
                    &&& before.is_linked() ==> after.is_linked() && after.view()
                        == before.view().with_value(handle, value)
                    &&& before.is_search_tree() ==> after.is_search_tree()
                    &&& before.wf() ==> after.wf()
                } by {
                    after.lemma_value_replaced(before, handle, after.nodes@[handle - 1].value);
                }
            }
            Some(&mut self.node_mut(handle).value)
        } else {
            None
        }
    }

    /// The value for `key`, if present.
    pub fn get(&self, key: &K) -> (value: Option<&V>)
        requires
            self.is_search_tree(),
        ensures
            match value {
                None => self.view().get(*key) is None,
                Some(v) => self.view().get(*key) == Some(*v),
            },
    {
        self.get_by_handle(self.find(key))
    }

    /// Mutable access to the value for `key`, if present.
    pub fn get_mut(&mut self, key: &K) -> (value: Option<&mut V>)
        requires
            old(self).is_search_tree(),
        ensures
            match value {
                None => !old(self).view().contains_key(*key) && *final(self) == *old(self),
                Some(v) => {
                    &&& old(self).view().get(*key) == Some(*v)
                    &&& final(self).is_search_tree()
                    &&& final(self).view() == old(self).view().with_value(
                        old(self).view().handle_of(*key),
                        *final(v),
                    )
                    &&& old(self).wf() ==> final(self).wf()
                },
            },
    {
        let handle = self.find(key);
        self.get_mut_by_handle(handle)
    }

    /// Whether `key` is present.
    pub fn contains_key(&self, key: &K) -> (present: bool)
        requires
            self.is_search_tree(),
        ensures
            present == self.view().contains_key(*key),
    {
        self.find(key) != NIL
    }

    /// The root handle, or [`NIL`] if empty.
    pub fn root(&self) -> (root: Handle)
        ensures
            root == self.root_handle(),
            self.is_linked() ==> (root == NIL) == (self.view().len() == 0),
            self.is_linked() && root != NIL ==> self.order().contains(root),
    {
        proof {
            if self.is_linked() {
                let g = self.layout();
                assert(linked(self.nodes@, self.root, g));
                self.lemma_linked(g);
                if self.root != NIL {
                    assert(g.order[g.label(self.root).pos] == self.root);
                }
            }
        }
        self.root
    }

    /// Handle of the smallest key, or [`NIL`] if empty. On an ask book, the best offer.
    pub fn min_handle(&self) -> (handle: Handle)
        requires
            self.is_linked(),
        ensures
            handle <= N,
            handle == (if self.order().len() == 0 {
                NIL
            } else {
                self.order()[0]
            }),
    {
        proof {
            self.lemma_linked(self.layout());
        }
        if self.root == NIL {
            return NIL;
        }
        self.min_from(self.root, Ghost(self.layout()))
    }

    /// Handle of the largest key, or [`NIL`] if empty. On a bid book, the best bid.
    pub fn max_handle(&self) -> (handle: Handle)
        requires
            self.is_linked(),
        ensures
            handle <= N,
            handle == (if self.order().len() == 0 {
                NIL
            } else {
                self.order().last()
            }),
    {
        proof {
            self.lemma_linked(self.layout());
        }
        if self.root == NIL {
            return NIL;
        }
        self.max_from(self.root, Ghost(self.layout()))
    }

    /// The leftmost node under `handle`.
    pub(crate) fn min_from(&self, handle: Handle, Ghost(g): Ghost<Layout>) -> (min: Handle)
        requires
            linked(self.nodes@, self.root, g),
            g.live(handle),
        ensures
            g.live(min),
            min == g.order[g.label(handle).lo],
            g.label(min).pos == g.label(handle).lo,
            self.nodes@[min - 1].left == NIL,
    {
        let mut current = handle;
        proof {
            assert(node_linked(self.nodes@, self.root, g, current));
        }
        while self.node(current).left != NIL
            invariant
                linked(self.nodes@, self.root, g),
                g.live(current),
                node_linked(self.nodes@, self.root, g, current),
                g.label(current).lo == g.label(handle).lo,
            decreases g.label(current).hi - g.label(current).lo,
        {
            current = self.node(current).left;
            proof {
                assert(node_linked(self.nodes@, self.root, g, current));
            }
        }
        current
    }

    /// The rightmost node under `handle`.
    pub(crate) fn max_from(&self, handle: Handle, Ghost(g): Ghost<Layout>) -> (max: Handle)
        requires
            linked(self.nodes@, self.root, g),
            g.live(handle),
        ensures
            g.live(max),
            max == g.order[g.label(handle).hi - 1],
            g.label(max).pos == g.label(handle).hi - 1,
            self.nodes@[max - 1].right == NIL,
    {
        let mut current = handle;
        proof {
            assert(node_linked(self.nodes@, self.root, g, current));
        }
        while self.node(current).right != NIL
            invariant
                linked(self.nodes@, self.root, g),
                g.live(current),
                node_linked(self.nodes@, self.root, g, current),
                g.label(current).hi == g.label(handle).hi,
            decreases g.label(current).hi - g.label(current).lo,
        {
            current = self.node(current).right;
            proof {
                assert(node_linked(self.nodes@, self.root, g, current));
            }
        }
        current
    }

    /// The next-largest key after `handle`, or [`NIL`] at the maximum.
    pub fn successor(&self, handle: Handle) -> (next: Handle)
        requires
            self.is_linked(),
            handle == NIL || self.order().contains(handle),
        ensures
            handle == NIL ==> next == NIL,
            next == NIL || self.order().contains(next),
            forall|i: int|
                0 <= i < self.order().len() && #[trigger] self.order()[i] == handle ==> next == (
                if i + 1 < self.order().len() {
                    self.order()[i + 1]
                } else {
                    NIL
                }),
    {
        let ghost g = self.layout();
        proof {
            self.lemma_linked(g);
            assert(!g.order.contains(NIL)) by {
                if g.order.contains(NIL) {
                    let i = choose|i: int| 0 <= i < g.order.len() && g.order[i] == NIL;
                    assert(1 <= g.order[i]);
                }
            }
        }
        if handle == NIL {
            return NIL;
        }
        let ghost at = choose|i: int| 0 <= i < g.order.len() && g.order[i] == handle;
        proof {
            assert(g.label(g.order[at]).pos == at);
            assert(g.live(handle));
            assert(node_linked(self.nodes@, self.root, g, handle));
        }
        let right = self.node(handle).right;
        if right != NIL {
            return self.min_from(right, Ghost(g));
        }
        // No right subtree: climb until we come up from a left child.
        let mut child = handle;
        let mut parent = self.node(handle).parent;
        while parent != NIL && child == self.node(parent).right
            invariant
                linked(self.nodes@, self.root, g),
                g.live(child),
                node_linked(self.nodes@, self.root, g, child),
                parent == self.nodes@[child - 1].parent,
                parent != NIL ==> node_linked(self.nodes@, self.root, g, parent),
                parent <= N,
                g.label(child).hi == at + 1,
            decreases g.order.len() - (g.label(child).hi - g.label(child).lo),
        {
            child = parent;
            parent = self.node(parent).parent;
            proof {
                if parent != NIL {
                    assert(node_linked(self.nodes@, self.root, g, parent));
                }
            }
        }
        proof {
            if parent != NIL {
                assert(g.label(parent).pos == at + 1);
                assert(g.order[at + 1] == parent);
            }
        }
        parent
    }

    /// The next-smallest key before `handle`, or [`NIL`] at the minimum.
    pub fn predecessor(&self, handle: Handle) -> (previous: Handle)
        requires
            self.is_linked(),
            handle == NIL || self.order().contains(handle),
        ensures
            handle == NIL ==> previous == NIL,
            previous == NIL || self.order().contains(previous),
            forall|i: int|
                0 <= i < self.order().len() && #[trigger] self.order()[i] == handle ==> previous
                    == (if i > 0 {
                    self.order()[i - 1]
                } else {
                    NIL
                }),
    {
        let ghost g = self.layout();
        proof {
            self.lemma_linked(g);
            assert(!g.order.contains(NIL)) by {
                if g.order.contains(NIL) {
                    let i = choose|i: int| 0 <= i < g.order.len() && g.order[i] == NIL;
                    assert(1 <= g.order[i]);
                }
            }
        }
        if handle == NIL {
            return NIL;
        }
        let ghost at = choose|i: int| 0 <= i < g.order.len() && g.order[i] == handle;
        proof {
            assert(g.label(g.order[at]).pos == at);
            assert(g.live(handle));
            assert(node_linked(self.nodes@, self.root, g, handle));
        }
        let left = self.node(handle).left;
        if left != NIL {
            return self.max_from(left, Ghost(g));
        }
        let mut child = handle;
        let mut parent = self.node(handle).parent;
        while parent != NIL && child == self.node(parent).left
            invariant
                linked(self.nodes@, self.root, g),
                g.live(child),
                node_linked(self.nodes@, self.root, g, child),
                parent == self.nodes@[child - 1].parent,
                parent != NIL ==> node_linked(self.nodes@, self.root, g, parent),
                parent <= N,
                g.label(child).lo == at,
            decreases g.order.len() - (g.label(child).hi - g.label(child).lo),
        {
            child = parent;
            parent = self.node(parent).parent;
            proof {
                if parent != NIL {
                    assert(node_linked(self.nodes@, self.root, g, parent));
                }
            }
        }
        proof {
            if parent != NIL {
                assert(g.label(parent).pos == at - 1);
                assert(g.order[at - 1] == parent);
            }
        }
        parent
    }

    /// The smallest entry, if any.
    pub fn first(&self) -> (entry: Option<Entry<K, V>>)
        requires
            self.is_linked(),
        ensures
            entry == (if self.view().len() == 0 {
                None
            } else {
                Some(self.view().entry_at(0))
            }),
    {
        proof {
            self.lemma_is_linked();
        }
        self.entry_at(self.min_handle())
    }

    /// The largest entry, if any.
    pub fn last(&self) -> (entry: Option<Entry<K, V>>)
        requires
            self.is_linked(),
        ensures
            entry == (if self.view().len() == 0 {
                None
            } else {
                Some(self.view().entry_at(self.view().len() - 1))
            }),
    {
        proof {
            self.lemma_is_linked();
        }
        self.entry_at(self.max_handle())
    }

    /// A snapshot of the slot at `handle`, or `None` for [`NIL`].
    pub(crate) fn entry_at(&self, handle: Handle) -> (entry: Option<Entry<K, V>>)
        requires
            handle <= N,
        ensures
            entry == (if handle == NIL {
                None
            } else {
                Some(
                    Entry {
                        handle,
                        key: self.view().keys[handle - 1],
                        value: self.view().values[handle - 1],
                    },
                )
            }),
    {
        if handle != NIL {
            let node = self.node(handle);
            Some(Entry { handle, key: node.key, value: node.value })
        } else {
            None
        }
    }
}

} // verus!
