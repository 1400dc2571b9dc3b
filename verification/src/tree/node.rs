//! Arena slots, handles, and what the tree asks of its keys and values.

use vstd::prelude::*;

verus! {

/// A reference to an arena slot. A live node with handle `h` occupies slot `h - 1`.
pub type Handle = u32;

/// The sentinel handle meaning "no node".
///
/// Handles are 1-based so that `0` can mean nothing *and* an all-zero arena can be a
/// valid empty tree.
pub const NIL: Handle = 0;

/// Red. Zero, so a zeroed slot reads as the colour a freshly inserted node gets.
pub const RED: u32 = 0;

/// Black.
pub const BLACK: u32 = 1;

/// A key the tree can order.
///
/// The order is given by an injective rank into the integers, so two keys are equal
/// exactly when their ranks are.
pub trait TreeKey: Copy {
    /// Where this key stands in the order.
    spec fn rank(self) -> int;

    /// The key held by a slot that was never written.
    spec fn zero() -> Self;

    /// Keys of equal rank are equal.
    proof fn rank_injective(a: Self, b: Self)
        requires
            a.rank() == b.rank(),
        ensures
            a == b,
    ;

    /// Whether `self` comes strictly before `other`.
    fn precedes(&self, other: &Self) -> (before: bool)
        ensures
            before == (self.rank() < other.rank()),
    ;

    /// The all-zero key.
    fn zeroed() -> (key: Self)
        ensures
            key == Self::zero(),
    ;
}

/// A value the tree can hold.
pub trait TreeValue: Copy {
    /// The value held by a slot that was never written.
    spec fn zero() -> Self;

    /// The all-zero value.
    fn zeroed() -> (value: Self)
        ensures
            value == Self::zero(),
    ;
}

impl TreeKey for u64 {
    open spec fn rank(self) -> int {
        self as int
    }

    open spec fn zero() -> Self {
        0u64
    }

    proof fn rank_injective(a: Self, b: Self) {
    }

    fn precedes(&self, other: &Self) -> (before: bool) {
        *self < *other
    }

    fn zeroed() -> (key: Self) {
        0
    }
}

impl TreeValue for u64 {
    open spec fn zero() -> Self {
        0u64
    }

    fn zeroed() -> (value: Self) {
        0
    }
}

/// One arena slot: red-black links, then the key and value.
#[derive(Copy)]
pub struct Node<K, V> {
    /// Left child, or the next free slot while this slot is on the free list.
    pub left: Handle,
    /// Right child.
    pub right: Handle,
    /// Parent, or [`NIL`] at the root.
    pub parent: Handle,
    /// [`RED`] or [`BLACK`].
    pub color: u32,
    /// The entry's key.
    pub key: K,
    /// The entry's value.
    pub value: V,
}

impl<K: Copy, V: Copy> Clone for Node<K, V> {
    fn clone(&self) -> (copy: Self)
        ensures
            copy == *self,
    {
        *self
    }
}

impl<K, V> Node<K, V> {
    /// This slot's key.
    pub fn key(&self) -> (key: &K)
        ensures
            *key == self.key,
    {
        &self.key
    }

    /// This slot's value.
    pub fn value(&self) -> (value: &V)
        ensures
            *value == self.value,
    {
        &self.value
    }
}

/// A by-value snapshot of a slot, as yielded by lookups and iterators.
///
/// The handle is included so a caller walking the book can mutate or remove the entry
/// without paying for a second lookup.
#[derive(Copy, Debug, PartialEq, Eq)]
pub struct Entry<K, V> {
    /// Arena handle, valid until the next mutation of the tree.
    pub handle: Handle,
    /// The entry's key.
    pub key: K,
    /// The entry's value.
    pub value: V,
}

impl<K: Copy, V: Copy> Clone for Entry<K, V> {
    fn clone(&self) -> (copy: Self)
        ensures
            copy == *self,
    {
        *self
    }
}

} // verus!
