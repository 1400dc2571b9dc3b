//! What the tree promises as a whole: it is an ordered map of bounded size whose handles
//! stay put.

use vstd::prelude::*;

use super::node::{Entry, Handle, TreeKey};
use super::view::TreeView;

verus! {

impl<K: TreeKey, V> TreeView<K, V> {
    /// The entries as a map.
    pub open spec fn as_map(self) -> Map<K, V> {
        Map::new(|key: K| self.contains_key(key), |key: K| self.get(key)->0)
    }

    /// Replacing a value keeps the tree well formed, every place, and every other entry.
    pub proof fn lemma_with_value(self, h: Handle, value: V)
        requires
            self.wf(),
            1 <= h <= self.keys.len(),
        ensures
            self.with_value(h, value).wf(),
            self.is_live(h) ==> self.with_value(h, value).entries() == self.entries().update(
                self.place_of(h),
                Entry { value, ..self.entry_at(self.place_of(h)) },
            ),
            !self.is_live(h) ==> self.with_value(h, value).entries() == self.entries(),
            forall|key: K| self.with_value(h, value).contains_key(key) == self.contains_key(key),
            forall|key: K| self.with_value(h, value).position(key) == self.position(key),
            forall|key: K| self.with_value(h, value).handle_of(key) == self.handle_of(key),
    {
        let after = self.with_value(h, value);
        assert forall|i: int| 0 <= i < self.order.len() implies #[trigger] after.key_at(i)
            == self.key_at(i) by {}
        assert forall|i: int, j: int| 0 <= i < j < after.order.len() implies (
        #[trigger] after.key_at(i)).rank() < (#[trigger] after.key_at(j)).rank() by {
            assert(self.key_at(i).rank() < self.key_at(j).rank());
        }
        assert forall|key: K| after.contains_key(key) == self.contains_key(key) by {
            if self.contains_key(key) {
                let i = choose|i: int| 0 <= i < self.order.len() && #[trigger] self.key_at(i)
                    == key;
                assert(after.key_at(i) == key);
            }
            if after.contains_key(key) {
                let i = choose|i: int| 0 <= i < after.order.len() && #[trigger] after.key_at(i)
                    == key;
                assert(self.key_at(i) == key);
            }
        }
        assert forall|key: K| after.position(key) == self.position(key) by {
            self.lemma_position_exists(key);
            let p = self.position(key);
            assert(after.splits_at(key, p)) by {
                assert forall|i: int| 0 <= i < p implies (#[trigger] after.key_at(i)).rank()
                    < key.rank() by {
                    assert(self.key_at(i).rank() < key.rank());
                }
                assert forall|i: int| p <= i < after.order.len() implies (#[trigger] after.key_at(
                    i,
                )).rank() >= key.rank() by {
                    assert(self.key_at(i).rank() >= key.rank());
                }
            }
            after.lemma_position(key, p);
        }
        if self.is_live(h) {
            let i = choose|i: int| 0 <= i < self.order.len() && self.order[i] == h;
            self.lemma_place(i);
            assert forall|j: int| 0 <= j < self.order.len() && j != i implies #[trigger] self.order[j]
                != h by {}
            assert(after.entries() =~= self.entries().update(
                i,
                Entry { value, ..self.entry_at(i) },
            ));
        } else {
            assert forall|j: int| 0 <= j < self.order.len() implies #[trigger] self.order[j] != h by {
                assert(self.order.contains(self.order[j]));
            }
            assert(after.entries() =~= self.entries());
        }
    }

    /// Removing a place keeps the tree well formed and takes out exactly that entry.
    pub proof fn lemma_without_place(self, i: int)
        requires
            self.wf(),
            0 <= i < self.order.len(),
        ensures
            self.without_place(i).wf(),
            self.without_place(i).entries() == self.entries().remove(i),
            !self.without_place(i).contains_key(self.key_at(i)),
            forall|key: K| key != self.key_at(i) ==> #[trigger] self.without_place(i).contains_key(
                key,
            ) == self.contains_key(key),
            forall|key: K|
                key != self.key_at(i) ==> #[trigger] self.without_place(i).handle_of(key)
                    == self.handle_of(key),
    {
        let after = self.without_place(i);
        assert forall|j: int| 0 <= j < after.order.len() implies #[trigger] after.order[j]
            == self.order[if j < i {
            j
        } else {
            j + 1
        }] && after.key_at(j) == self.key_at(
            if j < i {
                j
            } else {
                j + 1
            },
        ) by {}
        assert forall|a: int, b: int| 0 <= a < b < after.order.len() implies (
        #[trigger] after.key_at(a)).rank() < (#[trigger] after.key_at(b)).rank() by {
            let (c, d) = (
                if a < i {
                    a
                } else {
                    a + 1
                },
                if b < i {
                    b
                } else {
                    b + 1
                },
            );
            assert(after.order[a] == self.order[c] && after.order[b] == self.order[d]);
            assert(self.key_at(c).rank() < self.key_at(d).rank());
        }
        let gone = self.order[i];
        assert forall|j: int| 0 <= j < after.order.len() implies #[trigger] after.order[j]
            != gone by {}
        assert forall|j: int| 0 <= j < after.free.len() implies 1 <= #[trigger] after.free[j]
            <= after.bump && !after.order.contains(after.free[j]) by {
            if j > 0 {
                assert(after.free[j] == self.free[j - 1]);
                if after.order.contains(after.free[j]) {
                    let k = choose|k: int| 0 <= k < after.order.len() && after.order[k]
                        == after.free[j];
                    assert(self.order.contains(self.free[j - 1]));
                }
            } else {
                assert(self.order[i] <= self.bump);
            }
        }
        assert forall|a: int, b: int|
            0 <= a < after.free.len() && 0 <= b < after.free.len() && a != b implies after.free[a]
            != after.free[b] by {
            if a > 0 {
                assert(after.free[a] == self.free[a - 1]);
                assert(!self.order.contains(self.free[a - 1]));
            }
            if b > 0 {
                assert(after.free[b] == self.free[b - 1]);
                assert(!self.order.contains(self.free[b - 1]));
            }
            assert(self.order.contains(gone));
        }
        assert(after.has_valid_handles());
        assert(after.entries() =~= self.entries().remove(i));
        assert(!after.contains_key(self.key_at(i))) by {
            if after.contains_key(self.key_at(i)) {
                let j = choose|j: int|
                    0 <= j < after.order.len() && #[trigger] after.key_at(j) == self.key_at(i);
                let k = if j < i {
                    j
                } else {
                    j + 1
                };
                assert(after.order[j] == self.order[k]);
                assert(self.key_at(k) == self.key_at(i));
                if k < i {
                    assert(self.key_at(k).rank() < self.key_at(i).rank());
                } else {
                    assert(self.key_at(i).rank() < self.key_at(k).rank());
                }
            }
        }
        assert forall|key: K| key != self.key_at(i) implies {
            &&& #[trigger] after.contains_key(key) == self.contains_key(key)
            &&& after.handle_of(key) == self.handle_of(key)
        } by {
            if self.contains_key(key) {
                let j = choose|j: int| 0 <= j < self.order.len() && #[trigger] self.key_at(j)
                    == key;
                let k = if j < i {
                    j
                } else {
                    j - 1
                };
                assert(after.order[k] == self.order[j]);
                assert(after.key_at(k) == key);
                self.lemma_position_present(key, j);
                after.lemma_position_present(key, k);
            }
            if after.contains_key(key) {
                let j = choose|j: int| 0 <= j < after.order.len() && #[trigger] after.key_at(j)
                    == key;
                assert(after.order[j] == self.order[if j < i {
                    j
                } else {
                    j + 1
                }]);
                assert(self.key_at(
                    if j < i {
                        j
                    } else {
                        j + 1
                    },
                ) == key);
            }
        }
    }

    /// A slot is free for a new key exactly while the tree is below capacity.
    pub proof fn lemma_next_handle(self)
        requires
            self.wf(),
            !self.is_full(),
            self.keys.len() <= u32::MAX,
        ensures
            1 <= self.next_handle() <= self.keys.len(),
            !self.is_live(self.next_handle()),
    {
        let h = self.next_handle();
        if self.free.len() > 0 {
            assert(1 <= self.free[0] <= self.bump);
        } else if self.order.contains(h) {
            let i = choose|i: int| 0 <= i < self.order.len() && self.order[i] == h;
            assert(self.order[i] <= self.bump);
        }
    }

    /// A new key enters at its position, in the next slot, and moves nothing else.
    pub proof fn lemma_with_new(self, key: K, value: V)
        requires
            self.wf(),
            !self.contains_key(key),
            !self.is_full(),
            self.keys.len() <= u32::MAX,
        ensures
            self.with_new(key, value).wf(),
            0 <= self.position(key) <= self.order.len(),
            self.with_new(key, value).entries() == self.entries().insert(
                self.position(key),
                Entry { handle: self.next_handle(), key, value },
            ),
            self.with_new(key, value).contains_key(key),
            self.with_new(key, value).handle_of(key) == self.next_handle(),
            self.with_new(key, value).get(key) == Some(value),
            forall|other: K|
                other != key ==> #[trigger] self.with_new(key, value).contains_key(other)
                    == self.contains_key(other),
            forall|other: K|
                other != key ==> #[trigger] self.with_new(key, value).handle_of(other)
                    == self.handle_of(other),
    {
        let after = self.with_new(key, value);
        let h = self.next_handle();
        let p = self.position(key);
        self.lemma_next_handle();
        self.lemma_position_exists(key);
        assert forall|j: int| 0 <= j < self.order.len() implies #[trigger] self.order[j] != h by {
            assert(self.order.contains(self.order[j]));
        }
        assert forall|j: int| 0 <= j < after.order.len() && j != p implies {
            let k = if j < p {
                j
            } else {
                j - 1
            };
            &&& #[trigger] after.order[j] == self.order[k]
            &&& after.key_at(j) == self.key_at(k)
            &&& after.entry_at(j) == self.entry_at(k)
        } by {
            let k = if j < p {
                j
            } else {
                j - 1
            };
            assert(after.order[j] == self.order[k]);
            assert(self.order[k] != h);
        }
        assert(after.order[p] == h);
        assert(after.key_at(p) == key);
        assert forall|a: int, b: int| 0 <= a < b < after.order.len() implies (
        #[trigger] after.key_at(a)).rank() < (#[trigger] after.key_at(b)).rank() by {
            let c = if a < p {
                a
            } else {
                a - 1
            };
            let d = if b < p {
                b
            } else {
                b - 1
            };
            if a != p {
                assert(after.order[a] == self.order[c]);
            }
            if b != p {
                assert(after.order[b] == self.order[d]);
            }
            if a != p && b != p {
                assert(self.key_at(c).rank() < self.key_at(d).rank());
            } else if a == p {
                assert(self.key_at(d).rank() >= key.rank());
                if self.key_at(d).rank() == key.rank() {
                    K::rank_injective(self.key_at(d), key);
                }
            } else {
                assert(self.key_at(c).rank() < key.rank());
            }
        }
        assert forall|a: int, b: int|
            0 <= a < after.order.len() && 0 <= b < after.order.len() && a != b implies after.order[a]
            != after.order[b] by {
            let c = if a < p {
                a
            } else {
                a - 1
            };
            let d = if b < p {
                b
            } else {
                b - 1
            };
            if a != p && b != p {
                assert(after.order[a] == self.order[c] && after.order[b] == self.order[d]);
            } else if a == p {
                assert(after.order[b] == self.order[d]);
            } else {
                assert(after.order[a] == self.order[c]);
            }
        }
        assert forall|j: int| 0 <= j < after.order.len() implies 1 <= #[trigger] after.order[j]
            <= after.keys.len() && after.order[j] <= after.bump by {
            if j != p {
                assert(after.order[j] == self.order[if j < p {
                    j
                } else {
                    j - 1
                }]);
            } else if self.free.len() > 0 {
                assert(self.free[0] <= self.bump);
            }
        }
        assert forall|j: int| 0 <= j < after.free.len() implies 1 <= #[trigger] after.free[j]
            <= after.bump && !after.order.contains(after.free[j]) by {
            assert(after.free[j] == self.free[j + 1]);
            assert(self.free[0] != self.free[j + 1]);
            if after.order.contains(after.free[j]) {
                let k = choose|k: int| 0 <= k < after.order.len() && after.order[k]
                    == after.free[j];
                assert(k != p);
                assert(self.order.contains(self.free[j + 1]));
            }
        }
        assert(after.entry_at(p) == Entry { handle: h, key, value });
        assert(after.entries() =~= self.entries().insert(p, Entry { handle: h, key, value }));
        after.lemma_position_present(key, p);
        assert forall|other: K| other != key implies {
            &&& #[trigger] after.contains_key(other) == self.contains_key(other)
            &&& after.handle_of(other) == self.handle_of(other)
        } by {
            if self.contains_key(other) {
                let j = choose|j: int| 0 <= j < self.order.len() && #[trigger] self.key_at(j)
                    == other;
                let k = if j < p {
                    j
                } else {
                    j + 1
                };
                assert(after.order[k] == self.order[j]);
                assert(after.key_at(k) == other);
                self.lemma_position_present(other, j);
                after.lemma_position_present(other, k);
            }
            if after.contains_key(other) {
                let j = choose|j: int| 0 <= j < after.order.len() && #[trigger] after.key_at(j)
                    == other;
                assert(j != p);
                let k = if j < p {
                    j
                } else {
                    j - 1
                };
                assert(after.order[j] == self.order[k]);
                assert(self.key_at(k) == other);
            }
        }
    }

    /// Where a present key stands.
    pub proof fn lemma_present(self, key: K)
        requires
            self.wf(),
            self.contains_key(key),
        ensures
            0 <= self.position(key) < self.order.len(),
            self.key_at(self.position(key)) == key,
            self.handle_of(key) == self.order[self.position(key)],
            1 <= self.handle_of(key) <= self.keys.len(),
            self.handle_of(key) <= self.bump,
            self.is_live(self.handle_of(key)),
            self.place_of(self.handle_of(key)) == self.position(key),
            self.get(key) == Some(self.value_at(self.position(key))),
    {
        self.lemma_position_exists(key);
        self.lemma_place(self.position(key));
    }
}

/// An insert that is accepted makes the tree the map with that key set; one that is
/// refused changes nothing. Only a new key into a full tree is refused.
pub proof fn law_insert_is_map_insert<K: TreeKey, V>(tree: TreeView<K, V>, key: K, value: V)
    requires
        tree.wf(),
        tree.capacity() <= u32::MAX,
    ensures
        tree.inserted(key, value).wf(),
        tree.insert_result(key) is Some ==> tree.inserted(key, value).as_map()
            == tree.as_map().insert(key, value),
        tree.insert_result(key) is None ==> tree.inserted(key, value) == tree,
        tree.insert_result(key) is None <==> !tree.as_map().contains_key(key) && tree.len()
            == tree.capacity(),
        tree.insert_result(key) is Some ==> tree.insert_result(key) == Some(
            tree.inserted(key, value).handle_of(key),
        ),
{
    let after = tree.inserted(key, value);
    lemma_len_bounded(tree);
    if tree.contains_key(key) {
        tree.lemma_present(key);
        let h = tree.handle_of(key);
        tree.lemma_with_value(h, value);
        assert forall|other: K| after.contains_key(other) implies after.get(other)
            == (if other == key {
            Some(value)
        } else {
            tree.get(other)
        }) by {
            if other != key {
                tree.lemma_present(other);
                if tree.position(other) == tree.position(key) {
                    assert(tree.key_at(tree.position(key)) == other);
                }
                assert(tree.order[tree.position(other)] != tree.order[tree.position(key)]);
            }
        }
        assert(after.as_map() =~= tree.as_map().insert(key, value));
    } else if !tree.is_full() {
        tree.lemma_with_new(key, value);
        tree.lemma_next_handle();
        assert forall|other: K| after.contains_key(other) && other != key implies after.get(other)
            == tree.get(other) by {
            tree.lemma_present(other);
            assert(tree.handle_of(other) != tree.next_handle());
            assert(after.handle_of(other) == tree.handle_of(other));
        }
        assert(after.as_map() =~= tree.as_map().insert(key, value));
    }
}

/// A removal makes the tree the map without that key, and gives what the map held.
pub proof fn law_remove_is_map_remove<K: TreeKey, V>(tree: TreeView<K, V>, key: K)
    requires
        tree.wf(),
    ensures
        tree.removed(key).wf(),
        tree.removed(key).as_map() == tree.as_map().remove(key),
        tree.get(key) == (if tree.as_map().contains_key(key) {
            Some(tree.as_map()[key])
        } else {
            None
        }),
{
    let after = tree.removed(key);
    if tree.contains_key(key) {
        tree.lemma_present(key);
        let i = tree.position(key);
        tree.lemma_without_place(i);
        assert forall|other: K| after.contains_key(other) implies after.get(other) == tree.get(
            other,
        ) by {
            assert(other != key);
            assert(after.handle_of(other) == tree.handle_of(other));
        }
        assert(after.as_map() =~= tree.as_map().remove(key));
    } else {
        assert(after.as_map() =~= tree.as_map().remove(key));
    }
}

/// Clearing makes the tree the empty map, at full capacity again.
pub proof fn law_clear_empties<K: TreeKey, V>(tree: TreeView<K, V>)
    requires
        tree.wf(),
    ensures
        tree.cleared().wf(),
        tree.cleared().as_map() == Map::<K, V>::empty(),
        tree.cleared().len() == 0,
        tree.cleared().capacity() == tree.capacity(),
{
    assert(tree.cleared().as_map() =~= Map::<K, V>::empty());
}

/// Slots are never leaked: a tree takes a new key exactly while it holds fewer entries
/// than its capacity, whatever was inserted and removed before.
pub proof fn law_no_slot_is_leaked<K: TreeKey, V>(tree: TreeView<K, V>, key: K)
    requires
        tree.wf(),
        !tree.contains_key(key),
    ensures
        tree.insert_result(key) is Some <==> tree.len() < tree.capacity(),
{
}

/// The handle of a key survives inserting and removing other keys.
pub proof fn law_handles_are_stable<K: TreeKey, V>(
    tree: TreeView<K, V>,
    pinned: K,
    other: K,
    value: V,
)
    requires
        tree.wf(),
        tree.capacity() <= u32::MAX,
        pinned != other,
    ensures
        tree.inserted(other, value).handle_of(pinned) == tree.handle_of(pinned),
        tree.removed(other).handle_of(pinned) == tree.handle_of(pinned),
        tree.inserted(other, value).get(pinned) == tree.get(pinned),
        tree.removed(other).get(pinned) == tree.get(pinned),
{
    law_insert_is_map_insert(tree, other, value);
    law_remove_is_map_remove(tree, other);
    let a = tree.inserted(other, value);
    let b = tree.removed(other);
    if tree.contains_key(other) {
        tree.lemma_present(other);
        tree.lemma_with_value(tree.handle_of(other), value);
        tree.lemma_without_place(tree.position(other));
    } else if !tree.is_full() {
        tree.lemma_with_new(other, value);
    }
    assert(a.contains_key(pinned) == tree.contains_key(pinned));
    assert(b.contains_key(pinned) == tree.contains_key(pinned));
    if tree.contains_key(pinned) {
        assert(tree.insert_result(other) is Some ==> a.as_map()[pinned] == tree.as_map().insert(
            other,
            value,
        )[pinned]);
        assert(a.as_map()[pinned] == tree.as_map()[pinned]);
        assert(b.as_map()[pinned] == tree.as_map()[pinned]);
    }
}

/// A tree holds no more entries than its capacity.
pub proof fn lemma_len_bounded<K: TreeKey, V>(tree: TreeView<K, V>)
    requires
        tree.wf(),
    ensures
        tree.len() <= tree.capacity(),
{
}

} // verus!
