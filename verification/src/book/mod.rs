//! The two-sided book.
//!
//! [`OrderBook`] owns both trees and the sequence counter. It implements no matching
//! policy — no order types, no self-trade rules, no fees — only what an engine needs to
//! read and mutate a book: placement, cancellation, reduction, top-of-book, and depth.

pub mod bytes;
mod depth;
pub mod depth_laws;
pub mod view;

use vstd::prelude::*;

use crate::order::{FIFOOrderId, RestingOrder, Side, MAX_SEQUENCE_NUMBER};
use crate::quantities::{BaseLots, Ticks};
use crate::tree::{Invariant, RedBlackTree, NIL};

pub use depth::SideIter;
pub use view::{BookEntry, BookView};

#[allow(unused_imports)]
use view::{lemma_cancelled, lemma_next_id_is_new, lemma_placed, lemma_with_order};

verus! {

/// The outcome of reducing a resting order.
///
/// Carries enough to emit an event and credit funds without a second lookup, which is
/// what a cancel or reduce instruction needs.
#[derive(Copy, Clone, Debug, PartialEq, Eq, Structural)]
pub struct Reduction {
    /// Size actually taken off the book. Less than requested if the order was smaller.
    pub base_lots_removed: BaseLots,
    /// Size still resting. Zero exactly when `removed` is true.
    pub base_lots_remaining: BaseLots,
    /// Whether the order left the book entirely.
    pub removed: bool,
}

/// A two-sided limit order book with fixed per-side capacity.
///
/// `BIDS` and `ASKS` are capacities in orders. Sizing them separately is deliberate:
/// many markets are structurally lopsided (an LST/SOL pair quotes far more depth on one
/// side), and paying symmetric rent for asymmetric books is pure waste.
///
/// Both sides draw sequence numbers from one shared counter, so a raw sequence number
/// identifies an order uniquely across the whole market, not just within a side.
pub struct OrderBook<const BIDS: usize, const ASKS: usize> {
    /// Next raw sequence number to issue. Monotonic for the life of the market.
    pub(crate) next_sequence_number: u64,
    pub(crate) bids: RedBlackTree<FIFOOrderId, RestingOrder, BIDS>,
    pub(crate) asks: RedBlackTree<FIFOOrderId, RestingOrder, ASKS>,
}

impl<const BIDS: usize, const ASKS: usize> Copy for OrderBook<BIDS, ASKS> {

}

impl<const BIDS: usize, const ASKS: usize> Clone for OrderBook<BIDS, ASKS> {
    fn clone(&self) -> (copy: Self)
        ensures
            copy == *self,
    {
        *self
    }
}

// ---------------------------------------------------------------------------------
// Construction and access
// ---------------------------------------------------------------------------------

impl<const BIDS: usize, const ASKS: usize> OrderBook<BIDS, ASKS> {
    /// The bid tree.
    pub closed spec fn bid_tree(self) -> RedBlackTree<FIFOOrderId, RestingOrder, BIDS> {
        self.bids
    }

    /// The ask tree.
    pub closed spec fn ask_tree(self) -> RedBlackTree<FIFOOrderId, RestingOrder, ASKS> {
        self.asks
    }

    /// The sequence counter.
    pub closed spec fn counter(self) -> u64 {
        self.next_sequence_number
    }

    /// What the book holds.
    pub open spec fn view(self) -> BookView {
        BookView {
            bids: self.bid_tree().view(),
            asks: self.ask_tree().view(),
            next_sequence: self.counter(),
        }
    }

    /// What every book built through its operations satisfies.
    pub open spec fn wf(self) -> bool {
        &&& self.bid_tree().wf()
        &&& self.ask_tree().wf()
        &&& self.view().wf()
    }

    /// An empty book.
    pub fn new() -> (book: Self)
        requires
            BIDS <= u32::MAX,
            ASKS <= u32::MAX,
        ensures
            book.wf(),
            book.view() == BookView::blank(BIDS as nat, ASKS as nat),
    {
        let book = OrderBook {
            next_sequence_number: 0,
            bids: RedBlackTree::new(),
            asks: RedBlackTree::new(),
        };
        proof {
            book.bids.lemma_wf();
            book.asks.lemma_wf();
        }
        book
    }

    /// An empty book on the heap.
    pub fn new_boxed() -> (book: Box<Self>)
        requires
            BIDS <= u32::MAX,
            ASKS <= u32::MAX,
        ensures
            book.wf(),
            book.view() == BookView::blank(BIDS as nat, ASKS as nat),
    {
        Box::new(Self::new())
    }

    /// The bid tree, ordered ascending by price — so the best bid is its maximum.
    pub fn bids(&self) -> (tree: &RedBlackTree<FIFOOrderId, RestingOrder, BIDS>)
        ensures
            *tree == self.bid_tree(),
    {
        &self.bids
    }

    /// The ask tree, ordered ascending by price — so the best ask is its minimum.
    pub fn asks(&self) -> (tree: &RedBlackTree<FIFOOrderId, RestingOrder, ASKS>)
        ensures
            *tree == self.ask_tree(),
    {
        &self.asks
    }

    /// Mutable access to the bid tree, for engine-layer operations this module does not
    /// implement.
    pub fn bids_mut(&mut self) -> (tree: &mut RedBlackTree<FIFOOrderId, RestingOrder, BIDS>)
        ensures
            *tree == old(self).bid_tree(),
            final(self).bid_tree() == *final(tree),
            final(self).ask_tree() == old(self).ask_tree(),
            final(self).counter() == old(self).counter(),
    {
        &mut self.bids
    }

    /// Mutable access to the ask tree.
    pub fn asks_mut(&mut self) -> (tree: &mut RedBlackTree<FIFOOrderId, RestingOrder, ASKS>)
        ensures
            *tree == old(self).ask_tree(),
            final(self).ask_tree() == *final(tree),
            final(self).bid_tree() == old(self).bid_tree(),
            final(self).counter() == old(self).counter(),
    {
        &mut self.asks
    }

    /// Resting orders on `side`.
    pub fn len(&self, side: Side) -> (len: usize)
        requires
            self.wf(),
        ensures
            len == self.view().side(side).len(),
    {
        match side {
            Side::Bid => self.bids.len(),
            Side::Ask => self.asks.len(),
        }
    }

    /// Whether `side` holds no orders.
    pub fn is_empty(&self, side: Side) -> (empty: bool)
        requires
            self.wf(),
        ensures
            empty == (self.view().side(side).len() == 0),
    {
        self.len(side) == 0
    }

    /// Whether `side` is at capacity, so the next placement there will fail.
    pub fn is_full(&self, side: Side) -> (full: bool)
        requires
            self.wf(),
        ensures
            full == self.view().side(side).is_full(),
    {
        match side {
            Side::Bid => self.bids.is_full(),
            Side::Ask => self.asks.is_full(),
        }
    }

    /// The next sequence number that will be issued.
    pub fn next_sequence_number(&self) -> (sequence: u64)
        ensures
            sequence == self.view().next_sequence,
    {
        self.next_sequence_number
    }

    /// Empties both sides. The sequence counter is *not* reset, so order IDs stay
    /// unique across the life of the market and a stale client cannot accidentally
    /// cancel a new order with an old ID.
    pub fn clear(&mut self)
        requires
            old(self).wf(),
        ensures
            final(self).wf(),
            final(self).view() == old(self).view().cleared(),
    {
        proof {
            self.bids.lemma_wf();
            self.asks.lemma_wf();
        }
        self.bids.clear();
        self.asks.clear();
        proof {
            self.bids.lemma_wf();
            self.asks.lemma_wf();
        }
    }
}

// ---------------------------------------------------------------------------------
// Mutation
// ---------------------------------------------------------------------------------

impl<const BIDS: usize, const ASKS: usize> OrderBook<BIDS, ASKS> {
    /// Rests an order on `side` at `price`, assigning it the next sequence number.
    ///
    /// Returns the new ID, or `None` if that side is at capacity. Pure placement — it
    /// does not check whether the order crosses. That is the engine's call.
    pub fn place(&mut self, side: Side, price: Ticks, order: RestingOrder) -> (id: Option<
        FIFOOrderId,
    >)
        requires
            old(self).wf(),
            old(self).view().next_sequence <= MAX_SEQUENCE_NUMBER,
        ensures
            final(self).wf(),
            final(self).view() == old(self).view().placed(side, price, order),
            id == (if old(self).view().side(side).is_full() {
                None
            } else {
                Some(old(self).view().next_id(side, price))
            }),
    {
        let ghost before = self.view();
        proof {
            lemma_next_id_is_new(before, side, price);
            lemma_placed(before, side, price, order);
        }
        let id = FIFOOrderId::new(side, price, self.next_sequence_number);
        let handle = match side {
            Side::Bid => self.bids.insert(id, order),
            Side::Ask => self.asks.insert(id, order),
        };
        // Only burn a sequence number if the order actually rested, so a full book does
        // not advance the counter.
        match handle {
            Some(_) => {
                self.next_sequence_number = self.next_sequence_number + 1;
                Some(id)
            },
            None => None,
        }
    }

    /// Removes an order, returning its resting state if it was there.
    ///
    /// The side is read from the ID's encoded side tag, so a caller never has to pass it
    /// separately or get it wrong.
    pub fn cancel(&mut self, id: &FIFOOrderId) -> (order: Option<RestingOrder>)
        requires
            old(self).wf(),
        ensures
            final(self).wf(),
            order == old(self).view().get(*id),
            final(self).view() == old(self).view().cancelled(*id),
    {
        proof {
            lemma_cancelled(self.view(), *id);
        }
        match id.side() {
            Side::Bid => self.bids.remove(id),
            Side::Ask => self.asks.remove(id),
        }
    }

    /// Looks up a resting order.
    pub fn get(&self, id: &FIFOOrderId) -> (order: Option<&RestingOrder>)
        requires
            self.wf(),
        ensures
            match order {
                Some(o) => self.view().get(*id) == Some(*o),
                None => self.view().get(*id) is None,
            },
    {
        proof {
            self.bids.lemma_wf();
            self.asks.lemma_wf();
        }
        match id.side() {
            Side::Bid => self.bids.get(id),
            Side::Ask => self.asks.get(id),
        }
    }

    /// Mutable access to a resting order.
    ///
    /// Safe because nothing in [`RestingOrder`] participates in the ordering, so no
    /// caller can invalidate the book through this. Partial fills use it to shrink an
    /// order in place without disturbing its queue position.
    pub fn get_mut(&mut self, id: &FIFOOrderId) -> (order: Option<&mut RestingOrder>)
        requires
            old(self).wf(),
        ensures
            match order {
                Some(o) => {
                    &&& old(self).view().get(*id) == Some(*o)
                    &&& final(self).view() == old(self).view().with_order(*id, *final(o))
                    &&& final(self).wf()
                },
                None => old(self).view().get(*id) is None && *final(self) == *old(self),
            },
    {
        proof {
            self.bids.lemma_wf();
            self.asks.lemma_wf();
            let book = self.view();
            assert forall|order: RestingOrder| book.contains(*id) implies #[trigger] book.with_order(
                *id,
                order,
            ).wf() by {
                lemma_with_order(book, *id, order);
            }
        }
        match id.side() {
            Side::Bid => self.bids.get_mut(id),
            Side::Ask => self.asks.get_mut(id),
        }
    }

    /// Shrinks an order by up to `base_lots`, removing it if that empties it.
    ///
    /// Reducing by at least the resting size is exactly a cancel. Returns `None` if the
    /// order is not on the book.
    pub fn reduce(&mut self, id: &FIFOOrderId, base_lots: BaseLots) -> (reduction: Option<Reduction>)
        requires
            old(self).wf(),
        ensures
            final(self).wf(),
            match old(self).view().get(*id) {
                None => reduction is None && final(self).view() == old(self).view(),
                Some(order) => {
                    let resting = order.num_base_lots.0;
                    let removed = if resting < base_lots.0 {
                        resting
                    } else {
                        base_lots.0
                    };
                    let remaining = BaseLots((resting - removed) as u64);
                    &&& reduction == Some(
                        Reduction {
                            base_lots_removed: BaseLots(removed),
                            base_lots_remaining: remaining,
                            removed: remaining.0 == 0,
                        },
                    )
                    &&& final(self).view() == old(self).view().resized(*id, remaining)
                },
            },
    {
        let resting = match self.get(id) {
            Some(order) => order.num_base_lots,
            None => {
                return None;
            },
        };
        let base_lots_removed = resting.min(base_lots);
        let base_lots_remaining = resting - base_lots_removed;

        if base_lots_remaining.is_zero() {
            self.cancel(id);
        } else {
            match self.get_mut(id) {
                Some(order) => {
                    order.num_base_lots = base_lots_remaining;
                },
                None => {
                    return None;
                },
            }
        }

        Some(
            Reduction {
                base_lots_removed,
                base_lots_remaining,
                removed: base_lots_remaining.is_zero(),
            },
        )
    }
}

// ---------------------------------------------------------------------------------
// Top of book
// ---------------------------------------------------------------------------------

impl<const BIDS: usize, const ASKS: usize> OrderBook<BIDS, ASKS> {
    /// The highest-priority bid: highest price, and oldest within that price.
    ///
    /// This is the bid tree's *maximum*, courtesy of the sequence-number encoding in
    /// [`FIFOOrderId`].
    pub fn best_bid(&self) -> (entry: Option<BookEntry>)
        requires
            self.wf(),
        ensures
            entry == self.view().best(Side::Bid),
    {
        proof {
            self.bids.lemma_wf();
        }
        self.bids.last()
    }

    /// The highest-priority ask: lowest price, and oldest within that price.
    pub fn best_ask(&self) -> (entry: Option<BookEntry>)
        requires
            self.wf(),
        ensures
            entry == self.view().best(Side::Ask),
    {
        proof {
            self.asks.lemma_wf();
        }
        self.asks.first()
    }

    /// The best order on `side`.
    pub fn best(&self, side: Side) -> (entry: Option<BookEntry>)
        requires
            self.wf(),
        ensures
            entry == self.view().best(side),
    {
        match side {
            Side::Bid => self.best_bid(),
            Side::Ask => self.best_ask(),
        }
    }

    /// Best ask minus best bid, in ticks. `None` if either side is empty.
    ///
    /// Returns `Some(0)` for a locked book and `None` — not a negative number — for a
    /// crossed one; use [`OrderBook::is_crossed`] to distinguish. A crossed book is not
    /// an error at this layer: it is the transient state an engine sees mid-match.
    pub fn spread_in_ticks(&self) -> (spread: Option<u64>)
        requires
            self.wf(),
        ensures
            spread == match (self.view().best(Side::Bid), self.view().best(Side::Ask)) {
                (Some(bid), Some(ask)) => if bid.key.price_in_ticks.0
                    <= ask.key.price_in_ticks.0 {
                    Some((ask.key.price_in_ticks.0 - bid.key.price_in_ticks.0) as u64)
                } else {
                    None
                },
                _ => None,
            },
    {
        let bid = match self.best_bid() {
            Some(entry) => entry.key.price_in_ticks,
            None => {
                return None;
            },
        };
        let ask = match self.best_ask() {
            Some(entry) => entry.key.price_in_ticks,
            None => {
                return None;
            },
        };
        ask.as_u64().checked_sub(bid.as_u64())
    }

    /// Whether the best bid is at or above the best ask, i.e. there is liquidity to
    /// match. Always false if either side is empty.
    pub fn is_crossed(&self) -> (crossed: bool)
        requires
            self.wf(),
        ensures
            crossed == self.view().crossed(),
    {
        match (self.best_bid(), self.best_ask()) {
            (Some(bid), Some(ask)) => bid.key.price_in_ticks.0 >= ask.key.price_in_ticks.0,
            _ => false,
        }
    }
}

// ---------------------------------------------------------------------------------
// Validation
// ---------------------------------------------------------------------------------

impl<const BIDS: usize, const ASKS: usize> OrderBook<BIDS, ASKS> {
    /// Every order carries the tag of the side it is filed on.
    pub open spec fn is_filed_by_side(self) -> bool {
        &&& forall|i: int|
            0 <= i < self.view().bids.order.len() ==> (#[trigger] self.view().bids.key_at(
                i,
            )).tagged_side() == Side::Bid
        &&& forall|i: int|
            0 <= i < self.view().asks.order.len() ==> (#[trigger] self.view().asks.key_at(
                i,
            )).tagged_side() == Side::Ask
    }

    /// The first invariant violated: of the bids, of the asks, then of the filing.
    pub open spec fn first_violation(self) -> Result<(), Invariant> {
        if self.bid_tree().first_violation() is Err {
            self.bid_tree().first_violation()
        } else if self.ask_tree().first_violation() is Err {
            self.ask_tree().first_violation()
        } else if !self.is_filed_by_side() {
            Err(Invariant::BstOrderViolation)
        } else {
            Ok(())
        }
    }

    /// A book is at fault exactly where one of its trees is, the bids' fault first, or where
    /// an order lies on the side that its id does not name.
    pub proof fn law_faults_of_a_book_are_named(self)
        ensures
            match self.first_violation() {
                Err(fault) => {
                    ||| self.bid_tree().first_violation() == (Err::<(), Invariant>(fault))
                    ||| {
                        &&& self.bid_tree().first_violation() is Ok
                        &&& self.ask_tree().first_violation() == (Err::<(), Invariant>(fault))
                    }
                    ||| {
                        &&& self.bid_tree().first_violation() is Ok
                        &&& self.ask_tree().first_violation() is Ok
                        &&& fault == Invariant::BstOrderViolation
                        &&& (exists|i: int|
                            0 <= i < self.view().bids.order.len() && (
                            #[trigger] self.view().bids.key_at(i)).order_sequence_number
                                < 0x8000_0000_0000_0000) || (exists|i: int|
                            0 <= i < self.view().asks.order.len() && (
                            #[trigger] self.view().asks.key_at(i)).order_sequence_number
                                >= 0x8000_0000_0000_0000)
                    }
                },
                Ok(()) => {
                    &&& self.bid_tree().first_violation() is Ok
                    &&& self.ask_tree().first_violation() is Ok
                    &&& forall|i: int|
                        0 <= i < self.view().bids.order.len() ==> (
                        #[trigger] self.view().bids.key_at(i)).order_sequence_number
                            >= 0x8000_0000_0000_0000
                    &&& forall|i: int|
                        0 <= i < self.view().asks.order.len() ==> (
                        #[trigger] self.view().asks.key_at(i)).order_sequence_number
                            < 0x8000_0000_0000_0000
                },
            },
    {
    }

    /// Checks both trees' structural invariants, plus the book-level rule that every
    /// order is filed on the side its ID claims.
    ///
    /// See [`RedBlackTree::check`] for intended use.
    ///
    /// # Errors
    ///
    /// The first [`Invariant`] found violated.
    pub fn check(&self) -> (result: Result<(), Invariant>)
        requires
            BIDS <= u32::MAX,
            ASKS <= u32::MAX,
        ensures
            result == self.first_violation(),
    {
        match self.bids.check() {
            Ok(()) => {},
            Err(violation) => {
                return Err(violation);
            },
        }
        match self.asks.check() {
            Ok(()) => {},
            Err(violation) => {
                return Err(violation);
            },
        }
        let bids_filed = Self::all_tagged(&self.bids, Side::Bid);
        let asks_filed = Self::all_tagged(&self.asks, Side::Ask);
        if !bids_filed || !asks_filed {
            return Err(Invariant::BstOrderViolation);
        }
        Ok(())
    }

    /// Whether every order in `tree` carries the tag of `side`.
    fn all_tagged<const N: usize>(
        tree: &RedBlackTree<FIFOOrderId, RestingOrder, N>,
        side: Side,
    ) -> (filed: bool)
        requires
            tree.is_linked(),
            tree.view().len() <= tree.stored_len(),
        ensures
            filed == (forall|i: int|
                0 <= i < tree.view().order.len() ==> (#[trigger] tree.view().key_at(
                    i,
                )).tagged_side() == side),
    {
        let ghost v = tree.view();
        let ghost mut seen: int = 0;
        let mut entries = tree.iter();
        loop
            invariant
                v == tree.view(),
                entries.wf(),
                0 <= seen <= v.order.len(),
                entries.rest() == v.entries().skip(seen),
                forall|i: int| 0 <= i < seen ==> (#[trigger] v.key_at(i)).tagged_side() == side,
            decreases v.order.len() - seen,
        {
            match entries.next() {
                None => {
                    assert(seen == v.order.len());
                    return true;
                },
                Some(entry) => {
                    assert(entry == v.entry_at(seen));
                    if entry.key.side() != side {
                        assert(v.key_at(seen).tagged_side() != side);
                        return false;
                    }
                    proof {
                        seen = seen + 1;
                        assert(entries.rest() =~= v.entries().skip(seen));
                    }
                },
            }
        }
    }

    /// Whether an ID refers to a live order.
    pub fn contains(&self, id: &FIFOOrderId) -> (live: bool)
        requires
            self.wf(),
        ensures
            live == self.view().contains(*id),
    {
        proof {
            self.bids.lemma_wf();
            self.asks.lemma_wf();
        }
        match id.side() {
            Side::Bid => self.bids.find(id) != NIL,
            Side::Ask => self.asks.find(id) != NIL,
        }
    }
}

} // verus!
