//! Ordered iteration.
//!
//! Walks via successor/predecessor rather than an explicit stack, which would need
//! either an allocator or a fixed depth bound. Amortised O(1) per step.

use vstd::prelude::*;

use super::node::{Entry, Handle, TreeKey, TreeValue, NIL};
use super::RedBlackTree;

verus! {

impl<K: TreeKey, V: TreeValue, const N: usize> RedBlackTree<K, V, N> {
    /// Ascending iteration by key. On an ask book this walks from the best offer down.
    pub fn iter(&self) -> (iter: Iter<'_, K, V, N>)
        requires
            self.is_linked(),
            self.view().len() <= self.stored_len(),
        ensures
            iter.wf(),
            iter.promised() == self.stored_len(),
            iter.rest() == self.view().entries(),
    {
        Iter::start(self)
    }

    /// Descending iteration by key. On a bid book this walks from the best bid down.
    pub fn iter_rev(&self) -> (iter: IterRev<'_, K, V, N>)
        requires
            self.is_linked(),
            self.view().len() <= self.stored_len(),
        ensures
            iter.wf(),
            iter.promised() == self.stored_len(),
            iter.rest() == self.view().entries().reverse(),
    {
        IterRev::start(self)
    }
}

/// Ascending iterator. See [`RedBlackTree::iter`].
pub struct Iter<'a, K, V, const N: usize> {
    tree: &'a RedBlackTree<K, V, N>,
    cursor: Handle,
    remaining: usize,
}

impl<'a, K: TreeKey, V: TreeValue, const N: usize> Iter<'a, K, V, N> {
    /// The entries still to come, in the order they will.
    pub closed spec fn rest(self) -> Seq<Entry<K, V>> {
        if self.cursor == NIL {
            Seq::empty()
        } else {
            self.tree.view().entries().skip(self.tree.view().place_of(self.cursor))
        }
    }

    /// Entries the tree said were still to come.
    pub closed spec fn promised(self) -> nat {
        self.remaining as nat
    }

    /// The cursor stands in the tree, and the tree promised enough entries.
    pub closed spec fn wf(self) -> bool {
        &&& self.tree.is_linked()
        &&& self.cursor == NIL || self.tree.view().is_live(self.cursor)
        &&& self.rest().len() <= self.remaining
    }

    /// Starts at the lowest entry.
    pub(crate) fn start(tree: &'a RedBlackTree<K, V, N>) -> (iter: Self)
        requires
            tree.is_linked(),
            tree.view().len() <= tree.stored_len(),
        ensures
            iter.wf(),
            iter.promised() == tree.stored_len(),
            iter.rest() == tree.view().entries(),
    {
        let iter = Iter { tree, cursor: tree.min_handle(), remaining: tree.len as usize };
        proof {
            tree.lemma_is_linked();
            let v = tree.view();
            if v.len() > 0 {
                v.lemma_handle_place(0);
            }
            assert(iter.rest() =~= tree.view().entries());
        }
        iter
    }

    /// The next entry, or `None` at the end.
    pub fn next(&mut self) -> (entry: Option<Entry<K, V>>)
        requires
            old(self).wf(),
        ensures
            final(self).wf(),
            if old(self).rest().len() == 0 {
                entry is None && *final(self) == *old(self)
            } else {
                &&& entry == Some(old(self).rest()[0])
                &&& final(self).rest() == old(self).rest().drop_first()
                &&& final(self).promised() == old(self).promised() - 1
            },
    {
        if self.cursor == NIL {
            return None;
        }
        let ghost v = self.tree.view();
        let ghost i = v.place_of(self.cursor);
        proof {
            self.tree.lemma_is_linked();
            assert(v.order.contains(self.cursor));
            assert(0 <= i < v.order.len() && v.order[i] == self.cursor);
            assert(self.tree.order()[i] == self.cursor);
            assert(1 <= v.order[i] <= N);
        }
        let handle = self.cursor;
        self.cursor = self.tree.successor(handle);
        self.remaining = self.remaining - 1;
        let entry = self.tree.entry_at(handle);
        proof {
            if self.cursor != NIL {
                v.lemma_handle_place(i + 1);
            }
            assert(self.rest() =~= old(self).rest().drop_first());
        }
        entry
    }

    /// Entries still to come.
    pub fn len(&self) -> (len: usize)
        ensures
            len == self.promised(),
    {
        self.remaining
    }
}

/// Descending iterator. See [`RedBlackTree::iter_rev`].
pub struct IterRev<'a, K, V, const N: usize> {
    tree: &'a RedBlackTree<K, V, N>,
    cursor: Handle,
    remaining: usize,
}

impl<'a, K: TreeKey, V: TreeValue, const N: usize> IterRev<'a, K, V, N> {
    /// The entries still to come, in the order they will.
    pub closed spec fn rest(self) -> Seq<Entry<K, V>> {
        if self.cursor == NIL {
            Seq::empty()
        } else {
            self.tree.view().entries().take(
                self.tree.view().place_of(self.cursor) + 1,
            ).reverse()
        }
    }

    /// Entries the tree said were still to come.
    pub closed spec fn promised(self) -> nat {
        self.remaining as nat
    }

    /// The cursor stands in the tree, and the tree promised enough entries.
    pub closed spec fn wf(self) -> bool {
        &&& self.tree.is_linked()
        &&& self.cursor == NIL || self.tree.view().is_live(self.cursor)
        &&& self.rest().len() <= self.remaining
    }

    /// Starts at the highest entry.
    pub(crate) fn start(tree: &'a RedBlackTree<K, V, N>) -> (iter: Self)
        requires
            tree.is_linked(),
            tree.view().len() <= tree.stored_len(),
        ensures
            iter.wf(),
            iter.promised() == tree.stored_len(),
            iter.rest() == tree.view().entries().reverse(),
    {
        let iter = IterRev { tree, cursor: tree.max_handle(), remaining: tree.len as usize };
        proof {
            tree.lemma_is_linked();
            let v = tree.view();
            if v.len() > 0 {
                v.lemma_handle_place(v.len() - 1);
            }
            assert(iter.rest() =~= tree.view().entries().reverse());
        }
        iter
    }

    /// The next entry, or `None` at the end.
    pub fn next(&mut self) -> (entry: Option<Entry<K, V>>)
        requires
            old(self).wf(),
        ensures
            final(self).wf(),
            if old(self).rest().len() == 0 {
                entry is None && *final(self) == *old(self)
            } else {
                &&& entry == Some(old(self).rest()[0])
                &&& final(self).rest() == old(self).rest().drop_first()
                &&& final(self).promised() == old(self).promised() - 1
            },
    {
        if self.cursor == NIL {
            return None;
        }
        let ghost v = self.tree.view();
        let ghost i = v.place_of(self.cursor);
        proof {
            self.tree.lemma_is_linked();
            assert(v.order.contains(self.cursor));
            assert(0 <= i < v.order.len() && v.order[i] == self.cursor);
            assert(self.tree.order()[i] == self.cursor);
            assert(1 <= v.order[i] <= N);
        }
        let handle = self.cursor;
        self.cursor = self.tree.predecessor(handle);
        self.remaining = self.remaining - 1;
        let entry = self.tree.entry_at(handle);
        proof {
            if self.cursor != NIL {
                v.lemma_handle_place(i - 1);
            }
            assert(self.rest() =~= old(self).rest().drop_first());
        }
        entry
    }

    /// Entries still to come.
    pub fn len(&self) -> (len: usize)
        ensures
            len == self.promised(),
    {
        self.remaining
    }
}

} // verus!
