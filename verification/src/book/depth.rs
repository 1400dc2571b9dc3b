//! Depth and liquidity queries.
//!
//! These stop at the first price that fails the predicate, so cost scales with the
//! depth inspected rather than the size of the book.

use vstd::prelude::*;

#[allow(unused_imports)]
use super::view::{
    clamped, in_priority_order, law_queue_is_price_time_priority, marketable, reached_price,
    size_at_or_better, total_size,
};
use super::{BookEntry, OrderBook};
use crate::order::{FIFOOrderId, RestingOrder, Side};
use crate::quantities::{BaseLots, Ticks};
use crate::tree::{Iter, IterRev};

verus! {

/// The orders of one side, in the sequence a taker consumes them. See
/// [`OrderBook::iter_side`].
pub enum SideIter<'a, const BIDS: usize, const ASKS: usize> {
    /// Bids, descending.
    Bids(IterRev<'a, FIFOOrderId, RestingOrder, BIDS>),
    /// Asks, ascending.
    Asks(Iter<'a, FIFOOrderId, RestingOrder, ASKS>),
}

impl<'a, const BIDS: usize, const ASKS: usize> SideIter<'a, BIDS, ASKS> {
    /// The orders still to come, in the order they will.
    pub open spec fn rest(self) -> Seq<BookEntry> {
        match self {
            SideIter::Bids(iter) => iter.rest(),
            SideIter::Asks(iter) => iter.rest(),
        }
    }

    /// The walk stands in its tree.
    pub open spec fn wf(self) -> bool {
        match self {
            SideIter::Bids(iter) => iter.wf(),
            SideIter::Asks(iter) => iter.wf(),
        }
    }

    /// The next order, or `None` at the end.
    pub fn next(&mut self) -> (entry: Option<BookEntry>)
        requires
            old(self).wf(),
        ensures
            final(self).wf(),
            if old(self).rest().len() == 0 {
                entry is None && final(self).rest() == old(self).rest()
            } else {
                &&& entry == Some(old(self).rest()[0])
                &&& final(self).rest() == old(self).rest().drop_first()
            },
    {
        match self {
            SideIter::Bids(iter) => iter.next(),
            SideIter::Asks(iter) => iter.next(),
        }
    }
}

impl<const BIDS: usize, const ASKS: usize> OrderBook<BIDS, ASKS> {
    /// Orders on `side` in the sequence a taker consumes them: bids descending by
    /// price, asks ascending.
    pub fn iter_side(&self, side: Side) -> (iter: SideIter<'_, BIDS, ASKS>)
        requires
            self.wf(),
        ensures
            iter.wf(),
            iter.rest() == self.view().queue(side),
    {
        proof {
            self.bids.lemma_wf();
            self.asks.lemma_wf();
        }
        match side {
            Side::Bid => SideIter::Bids(self.bids.iter_rev()),
            Side::Ask => SideIter::Asks(self.asks.iter()),
        }
    }

    /// Whether a taker hitting `side` with limit `limit` would accept `price`.
    fn is_marketable(side: Side, price: Ticks, limit: Ticks) -> (accepted: bool)
        ensures
            accepted == marketable(side, price, limit),
    {
        match side {
            Side::Bid => price.as_u64() >= limit.as_u64(),
            Side::Ask => price.as_u64() <= limit.as_u64(),
        }
    }

    /// Total size on `side` at prices at or better than `limit` — what a taker could
    /// sweep, ignoring fees and self-trade rules. Clamped at the largest size.
    pub fn depth_at_or_better(&self, side: Side, limit: Ticks) -> (depth: BaseLots)
        requires
            self.wf(),
        ensures
            depth == clamped(size_at_or_better(self.view().queue(side), side, limit)),
    {
        let ghost queue = self.view().queue(side);
        let mut total = BaseLots(0);
        let ghost mut sum: int = 0;
        let mut orders = self.iter_side(side);
        proof {
            law_queue_is_price_time_priority(self.view(), side);
        }
        loop
            invariant
                queue == self.view().queue(side),
                orders.wf(),
                in_priority_order(orders.rest(), side),
                0 <= sum,
                total == clamped(sum),
                sum + size_at_or_better(orders.rest(), side, limit) == size_at_or_better(
                    queue,
                    side,
                    limit,
                ),
            decreases orders.rest().len(),
        {
            let ghost rest = orders.rest();
            match orders.next() {
                None => {
                    return total;
                },
                Some(entry) => {
                    if !Self::is_marketable(side, entry.key.price_in_ticks, limit) {
                        proof {
                            lemma_nothing_better(rest, side, limit);
                        }
                        return total;
                    }
                    total = total.saturating_add(entry.value.num_base_lots);
                    proof {
                        sum = sum + entry.value.num_base_lots.0;
                        lemma_priority_of_rest(rest, side);
                    }
                },
            }
        }
    }

    /// Total size on `side` at any price, clamped at the largest size.
    pub fn total_depth(&self, side: Side) -> (depth: BaseLots)
        requires
            self.wf(),
        ensures
            depth == clamped(total_size(self.view().queue(side))),
    {
        let ghost queue = self.view().queue(side);
        let mut total = BaseLots(0);
        let ghost mut sum: int = 0;
        let mut orders = self.iter_side(side);
        loop
            invariant
                queue == self.view().queue(side),
                orders.wf(),
                0 <= sum,
                total == clamped(sum),
                sum + total_size(orders.rest()) == total_size(queue),
            decreases orders.rest().len(),
        {
            match orders.next() {
                None => {
                    return total;
                },
                Some(entry) => {
                    total = total.saturating_add(entry.value.num_base_lots);
                    proof {
                        sum = sum + entry.value.num_base_lots.0;
                    }
                },
            }
        }
    }

    /// The worst price a taker reaches sweeping `size` from `side`, or `None` if the
    /// book cannot fill that much. Answers price impact without simulating a match.
    pub fn sweep_price(&self, side: Side, size: BaseLots) -> (price: Option<Ticks>)
        requires
            self.wf(),
        ensures
            price == reached_price(self.view().queue(side), size.0 as int),
    {
        let ghost queue = self.view().queue(side);
        let mut remaining = size;
        let mut orders = self.iter_side(side);
        loop
            invariant
                queue == self.view().queue(side),
                orders.wf(),
                reached_price(orders.rest(), remaining.0 as int) == reached_price(
                    queue,
                    size.0 as int,
                ),
            decreases orders.rest().len(),
        {
            match orders.next() {
                None => {
                    return None;
                },
                Some(entry) => {
                    remaining = remaining.saturating_sub(entry.value.num_base_lots);
                    if remaining.is_zero() {
                        return Some(entry.key.price_in_ticks);
                    }
                },
            }
        }
    }
}

/// If the head of a queue is out of reach, so is everything behind it.
proof fn lemma_nothing_better(queue: Seq<BookEntry>, side: Side, limit: Ticks)
    requires
        in_priority_order(queue, side),
        queue.len() > 0 ==> !marketable(side, queue[0].key.price_in_ticks, limit),
    ensures
        size_at_or_better(queue, side, limit) == 0,
    decreases queue.len(),
{
    if queue.len() > 0 {
        let rest = queue.drop_first();
        lemma_priority_of_rest(queue, side);
        if rest.len() > 0 {
            assert(queue[0].key.outranks(queue[1].key, side));
            assert(rest[0] == queue[1]);
        }
        lemma_nothing_better(rest, side, limit);
    }
}

proof fn lemma_priority_of_rest(queue: Seq<BookEntry>, side: Side)
    requires
        in_priority_order(queue, side),
        queue.len() > 0,
    ensures
        in_priority_order(queue.drop_first(), side),
{
    let rest = queue.drop_first();
    assert forall|i: int, j: int| 0 <= i < j < rest.len() implies (#[trigger] rest[i]).key.outranks(
        (#[trigger] rest[j]).key,
        side,
    ) by {
        assert(rest[i] == queue[i + 1] && rest[j] == queue[j + 1]);
    }
}

} // verus!
