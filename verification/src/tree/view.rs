//! What a tree holds, apart from how it is balanced.

use vstd::prelude::*;

use super::node::{Entry, Handle, TreeKey, NIL};

verus! {

/// The contents of a tree and the state of its arena.
///
/// Everything a caller can observe of a tree follows from this: which slots are live and
/// in which order, what every slot holds (a freed slot keeps its key and value), and
/// which slot the next new key will take.
#[verifier::ext_equal]
pub struct TreeView<K, V> {
    /// Live handles, ascending by key.
    pub order: Seq<Handle>,
    /// The key in every slot, live or not.
    pub keys: Seq<K>,
    /// The value in every slot, live or not.
    pub values: Seq<V>,
    /// Freed slots, most recently freed first.
    pub free: Seq<Handle>,
    /// Slots ever handed out.
    pub bump: int,
}

impl<K: TreeKey, V> TreeView<K, V> {
    /// A tree that was never written to.
    pub open spec fn blank(capacity: nat, value: V) -> Self {
        TreeView {
            order: Seq::empty(),
            keys: Seq::new(capacity, |i: int| K::zero()),
            values: Seq::new(capacity, |i: int| value),
            free: Seq::empty(),
            bump: 0,
        }
    }

    /// Entries the arena has room for.
    pub open spec fn capacity(self) -> nat {
        self.keys.len()
    }

    /// Entries held.
    pub open spec fn len(self) -> nat {
        self.order.len()
    }

    /// The key at place `i`.
    pub open spec fn key_at(self, i: int) -> K {
        self.keys[self.order[i] - 1]
    }

    /// The value at place `i`.
    pub open spec fn value_at(self, i: int) -> V {
        self.values[self.order[i] - 1]
    }

    /// The entry at place `i`.
    pub open spec fn entry_at(self, i: int) -> Entry<K, V> {
        Entry { handle: self.order[i], key: self.key_at(i), value: self.value_at(i) }
    }

    /// Every entry, ascending by key.
    pub open spec fn entries(self) -> Seq<Entry<K, V>> {
        Seq::new(self.order.len(), |i: int| self.entry_at(i))
    }

    /// Keys ascend strictly.
    pub open spec fn is_sorted(self) -> bool {
        forall|i: int, j: int|
            0 <= i < j < self.order.len() ==> (#[trigger] self.key_at(i)).rank() < (
            #[trigger] self.key_at(j)).rank()
    }

    /// Live handles are distinct slots of the arena.
    pub open spec fn has_valid_handles(self) -> bool {
        &&& self.keys.len() == self.values.len()
        &&& forall|i: int|
            0 <= i < self.order.len() ==> 1 <= #[trigger] self.order[i] <= self.keys.len()
        &&& self.order.no_duplicates()
    }

    /// Every slot handed out is live or free, and not both.
    pub open spec fn is_accounted(self) -> bool {
        &&& 0 <= self.bump <= self.keys.len()
        &&& self.order.len() + self.free.len() == self.bump
        &&& self.free.no_duplicates()
        &&& forall|i: int|
            0 <= i < self.free.len() ==> 1 <= #[trigger] self.free[i] <= self.bump
                && !self.order.contains(self.free[i])
        &&& forall|i: int| 0 <= i < self.order.len() ==> #[trigger] self.order[i] <= self.bump
    }

    /// What every tree built through its operations satisfies.
    pub open spec fn wf(self) -> bool {
        &&& self.is_sorted()
        &&& self.has_valid_handles()
        &&& self.is_accounted()
    }

    /// Whether `h` is the handle of an entry.
    pub open spec fn is_live(self, h: Handle) -> bool {
        self.order.contains(h)
    }

    /// The place of a live handle.
    pub open spec fn place_of(self, h: Handle) -> int {
        choose|i: int| 0 <= i < self.order.len() && self.order[i] == h
    }

    /// Whether some entry has this key.
    pub open spec fn contains_key(self, key: K) -> bool {
        exists|i: int| 0 <= i < self.order.len() && #[trigger] self.key_at(i) == key
    }

    /// `p` splits the entries into those below `key` and the rest.
    pub open spec fn splits_at(self, key: K, p: int) -> bool {
        &&& 0 <= p <= self.order.len()
        &&& forall|i: int| 0 <= i < p ==> (#[trigger] self.key_at(i)).rank() < key.rank()
        &&& forall|i: int|
            p <= i < self.order.len() ==> (#[trigger] self.key_at(i)).rank() >= key.rank()
    }

    /// The place `key` has, or would take.
    pub open spec fn position(self, key: K) -> int {
        choose|p: int| self.splits_at(key, p)
    }

    /// The handle of `key`, or [`NIL`] if absent.
    pub open spec fn handle_of(self, key: K) -> Handle {
        if self.contains_key(key) {
            self.order[self.position(key)]
        } else {
            NIL
        }
    }

    /// Whether no slot is left for a new key.
    pub open spec fn is_full(self) -> bool {
        self.order.len() >= self.keys.len()
    }

    /// The slot the next new key takes: the most recently freed one, else a fresh one.
    pub open spec fn next_handle(self) -> Handle {
        if self.free.len() > 0 {
            self.free[0]
        } else {
            (self.bump + 1) as Handle
        }
    }

    /// The tree with the value in one slot replaced.
    pub open spec fn with_value(self, h: Handle, value: V) -> Self {
        TreeView { values: self.values.update(h - 1, value), ..self }
    }

    /// The tree with a new key in the next slot. Only meaningful below capacity.
    pub open spec fn with_new(self, key: K, value: V) -> Self {
        let h = self.next_handle();
        TreeView {
            order: self.order.insert(self.position(key), h),
            keys: self.keys.update(h - 1, key),
            values: self.values.update(h - 1, value),
            free: if self.free.len() > 0 {
                self.free.drop_first()
            } else {
                self.free
            },
            bump: if self.free.len() > 0 {
                self.bump
            } else {
                self.bump + 1
            },
        }
    }

    /// The tree after inserting `key`: an existing key is overwritten, a new key takes
    /// the next slot, and a new key into a full tree changes nothing.
    pub open spec fn inserted(self, key: K, value: V) -> Self {
        if self.contains_key(key) {
            self.with_value(self.handle_of(key), value)
        } else if self.is_full() {
            self
        } else {
            self.with_new(key, value)
        }
    }

    /// The handle an insert of `key` reports.
    pub open spec fn insert_result(self, key: K) -> Option<Handle> {
        if self.contains_key(key) {
            Some(self.handle_of(key))
        } else if self.is_full() {
            None
        } else {
            Some(self.next_handle())
        }
    }

    /// The tree without the entry at place `i`. The slot heads the free list and keeps
    /// its key and value.
    pub open spec fn without_place(self, i: int) -> Self {
        TreeView {
            order: self.order.remove(i),
            free: seq![self.order[i]] + self.free,
            ..self
        }
    }

    /// The tree after removing `key`, if it was there.
    pub open spec fn removed(self, key: K) -> Self {
        if self.contains_key(key) {
            self.without_place(self.position(key))
        } else {
            self
        }
    }

    /// The value of `key`, if present.
    pub open spec fn get(self, key: K) -> Option<V> {
        if self.contains_key(key) {
            Some(self.values[self.handle_of(key) - 1])
        } else {
            None
        }
    }

    /// The tree emptied. Slots keep what they hold.
    pub open spec fn cleared(self) -> Self {
        TreeView { order: Seq::empty(), free: Seq::empty(), bump: 0, ..self }
    }

    /// A split is unique, so it is the position.
    pub proof fn lemma_position(self, key: K, p: int)
        requires
            self.splits_at(key, p),
        ensures
            self.position(key) == p,
    {
        let q = self.position(key);
        assert(self.splits_at(key, q));
        if q < p {
            assert(self.key_at(q).rank() < key.rank());
        }
        if p < q {
            assert(self.key_at(p).rank() < key.rank());
        }
    }

    /// A present key is found at its own place.
    pub proof fn lemma_position_present(self, key: K, i: int)
        requires
            self.is_sorted(),
            0 <= i < self.order.len(),
            self.key_at(i) == key,
        ensures
            self.contains_key(key),
            self.splits_at(key, i),
            self.position(key) == i,
            self.handle_of(key) == self.order[i],
    {
        assert forall|j: int| i <= j < self.order.len() implies (#[trigger] self.key_at(
            j,
        )).rank() >= key.rank() by {
            if i < j {
                assert(self.key_at(i).rank() < self.key_at(j).rank());
            }
        }
        self.lemma_position(key, i);
    }

    /// Every handle stands in one place only.
    pub proof fn lemma_place(self, i: int)
        requires
            self.wf(),
            0 <= i < self.order.len(),
        ensures
            self.place_of(self.order[i]) == i,
            self.is_live(self.order[i]),
    {
        self.lemma_handle_place(i);
    }

    /// As [`TreeView::lemma_place`], for a tree whose links alone are known to be sound.
    pub proof fn lemma_handle_place(self, i: int)
        requires
            self.has_valid_handles(),
            0 <= i < self.order.len(),
        ensures
            self.place_of(self.order[i]) == i,
            self.is_live(self.order[i]),
    {
        let h = self.order[i];
        assert(self.order[i] == h);
        let j = self.place_of(h);
        assert(0 <= j < self.order.len() && self.order[j] == h);
        assert(i != j ==> self.order[i] != self.order[j]);
    }

    /// A sorted tree always has a position for a key.
    pub proof fn lemma_position_exists(self, key: K)
        requires
            self.is_sorted(),
        ensures
            self.splits_at(key, self.position(key)),
            self.contains_key(key) <==> {
                &&& self.position(key) < self.order.len()
                &&& self.key_at(self.position(key)) == key
            },
    {
        self.lemma_split_exists(key, self.order.len() as int);
        let p = self.position(key);
        assert(self.splits_at(key, p));
        if self.contains_key(key) {
            let i = choose|i: int| 0 <= i < self.order.len() && #[trigger] self.key_at(i) == key;
            self.lemma_position_present(key, i);
        }
    }

    proof fn lemma_split_exists(self, key: K, n: int)
        requires
            self.is_sorted(),
            0 <= n <= self.order.len(),
            forall|i: int|
                n <= i < self.order.len() ==> (#[trigger] self.key_at(i)).rank() >= key.rank(),
        ensures
            exists|p: int| self.splits_at(key, p),
        decreases n,
    {
        if n > 0 && self.key_at(n - 1).rank() >= key.rank() {
            self.lemma_split_exists(key, n - 1);
        } else {
            assert forall|i: int| 0 <= i < n implies (#[trigger] self.key_at(i)).rank()
                < key.rank() by {
                if i < n - 1 {
                    assert(self.key_at(i).rank() < self.key_at(n - 1).rank());
                }
            }
            assert(self.splits_at(key, n));
        }
    }
}

} // verus!
