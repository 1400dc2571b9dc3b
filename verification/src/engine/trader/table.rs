//! The seat table: trader identity to balances.
//!
//! # Why resting orders store a seat index
//!
//! A [`RestingOrder`](crate::order::RestingOrder) identifies its owner by a [`SeatIndex`],
//! which is the *arena handle* of that trader's node in this table. Two consequences:
//!
//! - Settling a fill is an O(1) array index, not an O(log n) tree descent by key. On a
//!   sweep through twenty price levels that is the difference between forty tree
//!   descents and forty array reads.
//! - A seat can only be released when it is completely empty, because releasing it frees
//!   the arena slot and any resting order still pointing at that index would silently
//!   re-target whoever claims the slot next. [`TraderTable::release_seat`] refuses a seat
//!   that holds funds, and [`Market::release_seat`](crate::engine::Market::release_seat),
//!   which knows the book, one that owns an order.
//!
//! Handles are stable across unrelated inserts and removals, so an index held across a
//! match stays valid.

use vstd::prelude::*;

use super::key::TraderKey;
use super::state::TraderState;
use crate::engine::error::EngineError;
use crate::tree::{Handle, Iter, RedBlackTree, TreeView};

verus! {

/// A seat's position in the trader table. Stable for the life of the seat.
pub type SeatIndex = Handle;

/// The sentinel meaning "no seat".
pub const NO_SEAT: SeatIndex = 0;

/// The table's contents.
pub type SeatView = TreeView<TraderKey, TraderState>;

/// Maps trader identities to their balances, with `SEATS` capacity.
pub struct TraderTable<const SEATS: usize> {
    pub(crate) seats: RedBlackTree<TraderKey, TraderState, SEATS>,
}

impl<const SEATS: usize> Copy for TraderTable<SEATS> {

}

impl<const SEATS: usize> Clone for TraderTable<SEATS> {
    fn clone(&self) -> (copy: Self)
        ensures
            copy == *self,
    {
        *self
    }
}

/// The table after a trader claims a seat.
pub open spec fn claimed(seats: SeatView, key: TraderKey) -> (
    SeatView,
    Result<SeatIndex, EngineError>,
) {
    if seats.contains_key(key) {
        (seats, Ok(seats.handle_of(key)))
    } else if seats.is_full() {
        (seats, Err(EngineError::SeatTableFull))
    } else {
        (seats.with_new(key, TraderState::nothing()), Ok(seats.next_handle()))
    }
}

/// The table after a trader gives up its seat.
pub open spec fn released(seats: SeatView, key: TraderKey) -> (SeatView, Result<(), EngineError>) {
    if !seats.contains_key(key) {
        (seats, Err(EngineError::SeatNotFound))
    } else if seats.get(key) != Some(TraderState::nothing()) {
        (seats, Err(EngineError::SeatNotEmpty))
    } else {
        (seats.removed(key), Ok(()))
    }
}

impl<const SEATS: usize> TraderTable<SEATS> {
    /// The tree behind the table.
    pub closed spec fn tree(self) -> RedBlackTree<TraderKey, TraderState, SEATS> {
        self.seats
    }

    /// What the table holds.
    pub open spec fn view(self) -> SeatView {
        self.tree().view()
    }

    /// What every table built through its operations satisfies.
    pub open spec fn wf(self) -> bool {
        self.tree().wf()
    }

    /// A well-formed table has well-formed contents.
    pub proof fn lemma_wf(self)
        requires
            self.wf(),
        ensures
            self.view().wf(),
            self.view().capacity() == SEATS,
            SEATS <= u32::MAX,
    {
        self.tree().lemma_wf();
    }

    /// An empty table.
    pub fn new() -> (table: Self)
        requires
            SEATS <= u32::MAX,
        ensures
            table.wf(),
            table.view() == SeatView::blank(SEATS as nat, TraderState::nothing()),
    {
        TraderTable { seats: RedBlackTree::new() }
    }

    /// Seats currently claimed.
    pub fn len(&self) -> (len: usize)
        requires
            self.wf(),
        ensures
            len == self.view().len(),
    {
        self.seats.len()
    }

    /// Whether no seat is claimed.
    pub fn is_empty(&self) -> (empty: bool)
        requires
            self.wf(),
        ensures
            empty == (self.view().len() == 0),
    {
        self.seats.is_empty()
    }

    /// Whether the table is at capacity.
    pub fn is_full(&self) -> (full: bool)
        requires
            self.wf(),
        ensures
            full == self.view().is_full(),
    {
        self.seats.is_full()
    }

    /// Maximum seats.
    pub fn capacity(&self) -> (capacity: usize)
        ensures
            capacity == SEATS,
    {
        SEATS
    }

    /// Claims a seat for `key`, or returns the existing one.
    ///
    /// Idempotent, so a client can call it before every order without checking first.
    ///
    /// # Errors
    ///
    /// [`EngineError::SeatTableFull`] if the table is at capacity and `key` is new.
    pub fn claim_seat(&mut self, key: TraderKey) -> (result: Result<SeatIndex, EngineError>)
        requires
            old(self).wf(),
        ensures
            final(self).wf(),
            (final(self).view(), result) == claimed(old(self).view(), key),
    {
        proof {
            self.seats.lemma_wf();
        }
        let existing = self.seats.find(&key);
        if existing != NO_SEAT {
            return Ok(existing);
        }
        match self.seats.insert(key, TraderState::default()) {
            Some(index) => Ok(index),
            None => Err(EngineError::SeatTableFull),
        }
    }

    /// Releases a seat, returning its slot to the table.
    ///
    /// # Errors
    ///
    /// [`EngineError::SeatNotFound`] if `key` has no seat, or
    /// [`EngineError::SeatNotEmpty`] if it still holds funds. Releasing a non-empty seat
    /// would strand its balance and leave resting orders pointing at a slot the next
    /// trader may claim. An order that is worth nothing locks nothing, so the caller looks
    /// for orders in the book itself.
    pub fn release_seat(&mut self, key: &TraderKey) -> (result: Result<(), EngineError>)
        requires
            old(self).wf(),
        ensures
            final(self).wf(),
            (final(self).view(), result) == released(old(self).view(), *key),
    {
        proof {
            self.seats.lemma_wf();
        }
        let index = self.seats.find(key);
        if index == NO_SEAT {
            return Err(EngineError::SeatNotFound);
        }
        proof {
            self.view().lemma_present(*key);
        }
        match self.state(index) {
            Ok(state) => {
                if !state.is_empty() {
                    return Err(EngineError::SeatNotEmpty);
                }
            },
            Err(error) => {
                return Err(error);
            },
        }
        self.seats.remove_handle(index);
        Ok(())
    }

    /// The seat index for `key`, or [`NO_SEAT`].
    pub fn index_of(&self, key: &TraderKey) -> (index: SeatIndex)
        requires
            self.wf(),
        ensures
            index == self.view().handle_of(*key),
            (index != NO_SEAT) == self.view().contains_key(*key),
            index <= SEATS,
    {
        proof {
            self.seats.lemma_wf();
        }
        self.seats.find(key)
    }

    /// Balances at `index`.
    ///
    /// # Errors
    ///
    /// [`EngineError::SeatNotFound`] if the index is [`NO_SEAT`].
    pub fn state(&self, index: SeatIndex) -> (result: Result<&TraderState, EngineError>)
        requires
            index <= SEATS,
        ensures
            match result {
                Ok(state) => index != NO_SEAT && *state == self.view().values[index - 1],
                Err(error) => index == NO_SEAT && error == EngineError::SeatNotFound,
            },
    {
        match self.seats.get_by_handle(index) {
            Some(state) => Ok(state),
            None => Err(EngineError::SeatNotFound),
        }
    }

    /// Mutable balances at `index`.
    ///
    /// # Errors
    ///
    /// [`EngineError::SeatNotFound`] if the index is [`NO_SEAT`].
    pub fn state_mut(&mut self, index: SeatIndex) -> (result: Result<&mut TraderState, EngineError>)
        requires
            old(self).wf(),
            index <= SEATS,
        ensures
            match result {
                Ok(state) => {
                    &&& index != NO_SEAT
                    &&& *state == old(self).view().values[index - 1]
                    &&& final(self).view() == old(self).view().with_value(index, *final(state))
                    &&& final(self).wf()
                },
                Err(error) => {
                    &&& index == NO_SEAT
                    &&& error == EngineError::SeatNotFound
                    &&& *final(self) == *old(self)
                },
            },
    {
        proof {
            self.seats.lemma_wf();
        }
        match self.seats.get_mut_by_handle(index) {
            Some(state) => Ok(state),
            None => Err(EngineError::SeatNotFound),
        }
    }

    /// Whether `index` is a claimed seat.
    pub fn is_claimed(&self, index: u64) -> (claimed: bool)
        requires
            self.wf(),
        ensures
            claimed == (1 <= index <= SEATS && self.view().is_live(index as SeatIndex)),
    {
        if index == 0 || index > SEATS as u64 {
            return false;
        }
        let index = index as SeatIndex;
        proof {
            self.seats.lemma_wf();
            let v = self.view();
            let key = v.keys[index - 1];
            if v.contains_key(key) {
                v.lemma_present(key);
            }
            if v.is_live(index) {
                let i = v.place_of(index);
                assert(v.key_at(i) == key);
                v.lemma_position_present(key, i);
            }
        }
        self.seats.find(&self.seats.node(index).key) == index
    }

    /// Every claimed seat, ascending by key.
    pub fn iter(&self) -> (iter: SeatIter<'_, SEATS>)
        requires
            self.wf(),
        ensures
            iter.wf(),
            iter.rest() == self.view().entries().map_values(
                |entry: crate::tree::Entry<TraderKey, TraderState>| (entry.key, entry.value),
            ),
    {
        proof {
            self.seats.lemma_wf();
        }
        SeatIter { entries: self.seats.iter() }
    }

    /// The tree of seats, by key.
    pub fn seat_tree(&self) -> (tree: &RedBlackTree<TraderKey, TraderState, SEATS>)
        ensures
            *tree == self.tree(),
    {
        &self.seats
    }

    /// Tables with one tree are one table.
    pub proof fn lemma_same_tree(self, other: Self)
        requires
            self.tree() == other.tree(),
        ensures
            self == other,
    {
    }

    /// Appends the table's bytes.
    pub fn put(&self, out: &mut Vec<u8>)
        ensures
            final(out)@ == old(out)@ + self.tree().to_bytes(),
    {
        self.seats.put(out);
    }

    /// Reads the table whose bytes stand at `at`.
    pub fn take(bytes: &[u8], at: usize) -> (table: Box<Self>)
        requires
            SEATS <= u32::MAX,
            at + RedBlackTree::<TraderKey, TraderState, SEATS>::byte_len() <= bytes@.len(),
        ensures
            table.tree().to_bytes() == bytes@.subrange(
                at as int,
                at + RedBlackTree::<TraderKey, TraderState, SEATS>::byte_len(),
            ),
    {
        let seats = RedBlackTree::<TraderKey, TraderState, SEATS>::take(bytes, at);
        Box::new(TraderTable { seats: *seats })
    }

    /// Every claimed seat with its index, ascending by key.
    pub fn iter_indexed(&self) -> (iter: Iter<'_, TraderKey, TraderState, SEATS>)
        requires
            self.wf(),
        ensures
            iter.wf(),
            iter.rest() == self.view().entries(),
    {
        proof {
            self.seats.lemma_wf();
        }
        self.seats.iter()
    }
}

/// The claimed seats, ascending by key. See [`TraderTable::iter`].
pub struct SeatIter<'a, const SEATS: usize> {
    entries: Iter<'a, TraderKey, TraderState, SEATS>,
}

impl<'a, const SEATS: usize> SeatIter<'a, SEATS> {
    /// The seats still to come, in the order they will.
    pub closed spec fn rest(self) -> Seq<(TraderKey, TraderState)> {
        self.entries.rest().map_values(
            |entry: crate::tree::Entry<TraderKey, TraderState>| (entry.key, entry.value),
        )
    }

    /// The walk stands in its tree.
    pub closed spec fn wf(self) -> bool {
        self.entries.wf()
    }

    /// The next seat, or `None` at the end.
    pub fn next(&mut self) -> (seat: Option<(TraderKey, TraderState)>)
        requires
            old(self).wf(),
        ensures
            final(self).wf(),
            if old(self).rest().len() == 0 {
                seat is None && final(self).rest() == old(self).rest()
            } else {
                &&& seat == Some(old(self).rest()[0])
                &&& final(self).rest() == old(self).rest().drop_first()
            },
    {
        match self.entries.next() {
            Some(entry) => {
                proof {
                    assert(self.rest() =~= old(self).rest().drop_first());
                }
                Some((entry.key, entry.value))
            },
            None => None,
        }
    }
}

/// Claiming twice is claiming once: the second claim gives the same seat and changes
/// nothing.
pub proof fn law_claiming_is_idempotent(seats: SeatView, key: TraderKey)
    requires
        seats.wf(),
        seats.capacity() <= u32::MAX,
        claimed(seats, key).1 is Ok,
    ensures
        claimed(claimed(seats, key).0, key) == claimed(seats, key),
{
    if !seats.contains_key(key) {
        seats.lemma_with_new(key, TraderState::nothing());
    }
}

/// Distinct traders get distinct seats.
pub proof fn law_distinct_traders_get_distinct_seats(seats: SeatView, a: TraderKey, b: TraderKey)
    requires
        seats.wf(),
        a != b,
        seats.contains_key(a),
        seats.contains_key(b),
    ensures
        seats.handle_of(a) != seats.handle_of(b),
        seats.handle_of(a) != NO_SEAT,
{
    seats.lemma_present(a);
    seats.lemma_present(b);
}

/// A seat's index survives other traders claiming and releasing seats, and so does what
/// it holds.
pub proof fn law_seat_indices_are_stable(seats: SeatView, pinned: TraderKey, other: TraderKey)
    requires
        seats.wf(),
        seats.capacity() <= u32::MAX,
        pinned != other,
    ensures
        claimed(seats, other).0.handle_of(pinned) == seats.handle_of(pinned),
        claimed(seats, other).0.get(pinned) == seats.get(pinned),
        released(seats, other).0.handle_of(pinned) == seats.handle_of(pinned),
        released(seats, other).0.get(pinned) == seats.get(pinned),
{
    crate::tree::laws::law_handles_are_stable(seats, pinned, other, TraderState::nothing());
}

} // verus!
