//! Public order entry points: place, cancel, reduce.

use vstd::prelude::*;

#[allow(unused_imports)]
use super::model::{cross_run, first_owned, Crossing, Terms};
use super::Market;
use crate::engine::error::EngineError;
#[allow(unused_imports)]
use crate::engine::fill::{lemma_told_nothing, told_all, FillObserver, MatchStop, OrderOutcome};
use crate::engine::packet::{OrderPacket, PostOnlyRejection};
use crate::engine::trader::SeatIndex;
use crate::order::{FIFOOrderId, RestingOrder, Side, MAX_SEQUENCE_NUMBER};
use crate::quantities::{BaseLots, Ticks};

verus! {

impl<const BIDS: usize, const ASKS: usize, const SEATS: usize> Market<BIDS, ASKS, SEATS> {
    /// Submits an order on behalf of `seat`.
    ///
    /// Crossing happens first and posting second, so a limit order that crosses is
    /// filled at the resting prices before its remainder joins the queue.
    ///
    /// # Errors do not roll back
    ///
    /// An `Err` from this method may leave the market mutated — specifically
    /// [`EngineError::MinimumFillNotMet`], which is only knowable after matching has
    /// already settled some fills. The engine has no undo log, and building one would
    /// mean buffering every fill for a rollback that a Solana program never needs.
    ///
    /// On-chain this is free and correct: a returned error aborts the instruction and
    /// the runtime discards every account write, which is exactly the all-or-nothing
    /// semantic fill-or-kill promises. **Any caller outside that model — a simulator, an
    /// off-chain matcher, a backtester — must discard the market on error rather than
    /// continue using it.** Value stays conserved either way; what breaks is the
    /// caller's expectation that a rejected order changed nothing.
    ///
    /// # Errors
    ///
    /// [`EngineError::ZeroSize`], [`EngineError::SeatNotFound`],
    /// [`EngineError::BookSideFull`], insufficient-funds errors when posting,
    /// [`EngineError::SelfTradeAborted`], [`EngineError::PostOnlyWouldCross`],
    /// [`EngineError::PostOnlyNoRoom`], or [`EngineError::MinimumFillNotMet`].
    pub fn place_order<O: FillObserver>(
        &mut self,
        seat: SeatIndex,
        packet: OrderPacket,
        observer: &mut O,
    ) -> (result: Result<OrderOutcome, EngineError>)
        requires
            old(self).wf(),
            seat <= SEATS,
            old(self).model().book.next_sequence <= MAX_SEQUENCE_NUMBER,
        ensures
            final(self).wf(),
            ({
                let (after, outcome, fills) = old(self).model().place_order(seat, packet);
                &&& final(self).model() == after
                &&& result == outcome
                &&& told_all(*old(observer), fills, *final(observer))
            }),
    {
        proof {
            lemma_told_nothing(*observer);
        }
        if packet.num_base_lots().is_zero() {
            return Err(EngineError::ZeroSize);
        }
        // Fail before any mutation if the seat is bogus.
        match self.traders.state(seat) {
            Ok(_) => {},
            Err(error) => {
                return Err(error);
            },
        }

        match packet {
            OrderPacket::PostOnly { side, price_in_ticks, num_base_lots, rejection } => {
                self.place_post_only(seat, side, price_in_ticks, num_base_lots, rejection)
            },
            OrderPacket::Limit {
                side,
                price_in_ticks,
                num_base_lots,
                self_trade_behavior,
                match_limit,
            } => {
                let ghost before = self.model();
                let cross = match self.cross(
                    seat,
                    side,
                    Some(price_in_ticks),
                    num_base_lots,
                    self_trade_behavior,
                    match_limit,
                    observer,
                ) {
                    Ok(cross) => cross,
                    Err(error) => {
                        return Err(error);
                    },
                };
                proof {
                    lemma_cross_keeps_counter(
                        Crossing::start(before, num_base_lots),
                        (Terms {
                            taker: seat,
                            side,
                            limit: Some(price_in_ticks),
                            behavior: self_trade_behavior,
                            match_limit,
                        }),
                    );
                }

                let mut outcome = OrderOutcome {
                    order_id: None,
                    base_lots_filled: cross.base_lots_filled,
                    quote_lots_filled: cross.quote_lots_filled,
                    fee_in_quote_lots: cross.fee_in_quote_lots,
                    base_lots_posted: BaseLots(0),
                    base_lots_self_traded: cross.base_lots_self_traded,
                    stop: cross.stop,
                };

                if !cross.remaining.is_zero() {
                    match self.post(seat, side, price_in_ticks, cross.remaining) {
                        Ok(id) => {
                            outcome.order_id = Some(id);
                        },
                        Err(error) => {
                            return Err(error);
                        },
                    }
                    outcome.base_lots_posted = cross.remaining;
                }
                Ok(outcome)
            },
            OrderPacket::ImmediateOrCancel {
                side,
                price_in_ticks,
                num_base_lots,
                min_base_lots_to_fill,
                self_trade_behavior,
                match_limit,
            } => {
                let cross = match self.cross(
                    seat,
                    side,
                    price_in_ticks,
                    num_base_lots,
                    self_trade_behavior,
                    match_limit,
                    observer,
                ) {
                    Ok(cross) => cross,
                    Err(error) => {
                        return Err(error);
                    },
                };

                // Checked after matching so the error carries the real shortfall, but
                // returning Err discards every mutation: on-chain the whole instruction
                // reverts, which is exactly the all-or-nothing semantic asked for.
                if cross.base_lots_filled.0 < min_base_lots_to_fill.0 {
                    return Err(EngineError::MinimumFillNotMet);
                }

                Ok(
                    OrderOutcome {
                        order_id: None,
                        base_lots_filled: cross.base_lots_filled,
                        quote_lots_filled: cross.quote_lots_filled,
                        fee_in_quote_lots: cross.fee_in_quote_lots,
                        base_lots_posted: BaseLots(0),
                        base_lots_self_traded: cross.base_lots_self_traded,
                        stop: cross.stop,
                    },
                )
            },
        }
    }

    /// Posts without taking, applying the caller's cross policy.
    fn place_post_only(
        &mut self,
        seat: SeatIndex,
        side: Side,
        price_in_ticks: Ticks,
        num_base_lots: BaseLots,
        rejection: PostOnlyRejection,
    ) -> (result: Result<OrderOutcome, EngineError>)
        requires
            old(self).wf(),
            seat <= SEATS,
            old(self).model().book.next_sequence <= MAX_SEQUENCE_NUMBER,
        ensures
            final(self).wf(),
            (final(self).model(), result) == old(self).model().place_post_only(
                seat,
                side,
                price_in_ticks,
                num_base_lots,
                rejection,
            ),
    {
        let resting = self.non_crossing_price(side, price_in_ticks);
        let would_cross = match resting {
            Some(price) => price.0 != price_in_ticks.0,
            None => true,
        };
        if would_cross && rejection == PostOnlyRejection::Reject {
            return Err(EngineError::PostOnlyWouldCross);
        }
        let price = match resting {
            Some(price) => price,
            None => {
                return Err(EngineError::PostOnlyNoRoom);
            },
        };

        match self.post(seat, side, price, num_base_lots) {
            Ok(order_id) => Ok(
                OrderOutcome {
                    order_id: Some(order_id),
                    base_lots_posted: num_base_lots,
                    ..OrderOutcome::empty(MatchStop::DidNotCross)
                },
            ),
            Err(error) => Err(error),
        }
    }

    /// The given price, or the nearest non-crossing one, or `None` if there is no room.
    ///
    /// Sliding one tick inside the touch is the smallest move that stops the order
    /// crossing, which keeps a slid quote as aggressive as it can legally be.
    fn non_crossing_price(&self, side: Side, price: Ticks) -> (rest_at: Option<Ticks>)
        requires
            self.wf(),
        ensures
            rest_at == self.model().non_crossing_price(side, price),
            self.model().would_cross(side, price) <==> rest_at != Some(price),
    {
        match side {
            Side::Bid => match self.book.best_ask() {
                Some(ask) => {
                    let touch = ask.key.price_in_ticks.0;
                    if price.0 >= touch {
                        // A bid at zero ticks is worthless, so there is nowhere to slide.
                        if touch > 1 {
                            Some(Ticks(touch - 1))
                        } else {
                            None
                        }
                    } else {
                        Some(price)
                    }
                },
                None => Some(price),
            },
            Side::Ask => match self.book.best_bid() {
                Some(bid) => {
                    let touch = bid.key.price_in_ticks.0;
                    if price.0 <= touch {
                        if touch < u64::MAX {
                            Some(Ticks(touch + 1))
                        } else {
                            None
                        }
                    } else {
                        Some(price)
                    }
                },
                None => Some(price),
            },
        }
    }

    /// Sets aside the funds behind a new order.
    fn lock_backing(&mut self, seat: SeatIndex, side: Side, price: Ticks, size: BaseLots) -> (result:
        Result<(), EngineError>)
        requires
            old(self).wf(),
            seat <= SEATS,
        ensures
            final(self).wf(),
            final(self).book == old(self).book,
            final(self).header == old(self).header,
            (final(self).model(), result) == old(self).model().lock_backing(
                seat,
                side,
                price,
                size,
            ),
    {
        let ghost before = *self;
        match side {
            Side::Ask => match self.traders.state_mut(seat) {
                Ok(state) => {
                    let result = state.lock_base(size);
                    proof {
                        self.lemma_with_seat(
                            before,
                            seat,
                            before.model().seat(seat).base_locked(size).0,
                        );
                    }
                    result
                },
                Err(error) => Err(error),
            },
            Side::Bid => {
                let cost = match self.quote_value(price, size) {
                    Ok(cost) => cost,
                    Err(error) => {
                        return Err(error);
                    },
                };
                match self.traders.state_mut(seat) {
                    Ok(state) => {
                        let result = state.lock_quote(cost);
                        proof {
                            self.lemma_with_seat(
                                before,
                                seat,
                                before.model().seat(seat).quote_locked(cost).0,
                            );
                        }
                        result
                    },
                    Err(error) => Err(error),
                }
            },
        }
    }

    /// Locks the backing funds and rests the order.
    ///
    /// If the book rejects the order the lock is reversed, so a full side leaves the
    /// seat exactly as it was.
    fn post(&mut self, seat: SeatIndex, side: Side, price: Ticks, size: BaseLots) -> (result: Result<
        FIFOOrderId,
        EngineError,
    >)
        requires
            old(self).wf(),
            seat <= SEATS,
            old(self).model().book.next_sequence <= MAX_SEQUENCE_NUMBER,
        ensures
            final(self).wf(),
            (final(self).model(), result) == old(self).model().post(seat, side, price, size),
    {
        match self.lock_backing(seat, side, price, size) {
            Ok(()) => {},
            Err(error) => {
                return Err(error);
            },
        }
        let order = RestingOrder::new(seat as u64, size);
        let ghost backed = self.model();
        proof {
            backed.lemma_posted(seat, side, price, size);
        }
        match self.book.place(side, price, order) {
            Some(id) => Ok(id),
            None => {
                let unbacked = FIFOOrderId::new(side, price, 0);
                match self.unlock_backing(&unbacked, seat, size) {
                    Ok(()) => Err(EngineError::BookSideFull),
                    Err(error) => Err(error),
                }
            },
        }
    }

    /// Cancels a resting order, returning the size removed and releasing its funds.
    ///
    /// # Errors
    ///
    /// [`EngineError::OrderNotFound`] or [`EngineError::NotOrderOwner`].
    pub fn cancel_order(&mut self, seat: SeatIndex, id: &FIFOOrderId) -> (result: Result<
        BaseLots,
        EngineError,
    >)
        requires
            old(self).wf(),
        ensures
            final(self).wf(),
            (final(self).model(), result) == old(self).model().cancel_order(seat, *id),
    {
        let owner = match self.owner_of(id) {
            Ok(owner) => owner,
            Err(error) => {
                return Err(error);
            },
        };
        if owner != seat {
            return Err(EngineError::NotOrderOwner);
        }
        let size = match self.book.get(id) {
            Some(order) => order.num_base_lots,
            None => {
                return Err(EngineError::OrderNotFound);
            },
        };
        match self.unlock_backing(id, seat, size) {
            Ok(()) => {},
            Err(error) => {
                return Err(error);
            },
        }
        self.leave_resting(id, BaseLots(0));
        Ok(size)
    }

    /// Shrinks a resting order by up to `base_lots`, releasing the funds behind the
    /// removed size. Reducing by at least the resting size is exactly a cancel.
    ///
    /// Queue position is preserved, so a maker can trim size without going to the back.
    ///
    /// # Errors
    ///
    /// [`EngineError::OrderNotFound`] or [`EngineError::NotOrderOwner`].
    pub fn reduce_order(&mut self, seat: SeatIndex, id: &FIFOOrderId, base_lots: BaseLots) -> (result:
        Result<BaseLots, EngineError>)
        requires
            old(self).wf(),
        ensures
            final(self).wf(),
            (final(self).model(), result) == old(self).model().reduce_order(
                seat,
                *id,
                base_lots,
            ),
    {
        let owner = match self.owner_of(id) {
            Ok(owner) => owner,
            Err(error) => {
                return Err(error);
            },
        };
        if owner != seat {
            return Err(EngineError::NotOrderOwner);
        }
        let resting = match self.book.get(id) {
            Some(order) => order.num_base_lots,
            None => {
                return Err(EngineError::OrderNotFound);
            },
        };
        let removed = resting.min(base_lots);
        match self.unlock_backing(id, seat, removed) {
            Ok(()) => {},
            Err(error) => {
                return Err(error);
            },
        }
        self.leave_resting(id, resting - removed);
        Ok(removed)
    }

    /// Cancels up to `limit` of a seat's resting orders on `side`, best-priced first,
    /// and reports how many went.
    ///
    /// Bounded rather than unbounded because an unbounded cancel-all on a large book can
    /// exceed the compute budget and revert, leaving the maker unable to pull quotes at
    /// exactly the moment it most needs to. A bounded call always makes progress.
    pub fn cancel_orders_for_seat(&mut self, seat: SeatIndex, side: Side, limit: u32) -> (result:
        Result<u32, EngineError>)
        requires
            old(self).wf(),
        ensures
            final(self).wf(),
            (final(self).model(), result) == old(self).model().cancel_orders(
                seat,
                side,
                limit,
                0,
            ),
    {
        let mut cancelled: u32 = 0;
        while cancelled < limit
            invariant
                self.wf(),
                cancelled <= limit,
                self.model().cancel_orders(seat, side, limit, cancelled) == old(
                    self,
                ).model().cancel_orders(seat, side, limit, 0),
            decreases limit - cancelled,
        {
            // Re-scan each time: cancelling mutates the tree, which invalidates any
            // iterator held across the call.
            let id = match self.best_of_seat(seat, side) {
                Some(id) => id,
                None => {
                    return Ok(cancelled);
                },
            };
            match self.cancel_order(seat, &id) {
                Ok(_) => {},
                Err(error) => {
                    return Err(error);
                },
            }
            cancelled = cancelled + 1;
        }
        Ok(cancelled)
    }

    /// The best-priced order that a seat has on a side.
    pub(crate) fn best_of_seat(&self, seat: SeatIndex, side: Side) -> (id: Option<FIFOOrderId>)
        requires
            self.wf(),
        ensures
            id == self.model().best_of_seat(seat, side),
    {
        let ghost queue = self.model().book.queue(side);
        let mut orders = self.book.iter_side(side);
        loop
            invariant
                self.wf(),
                orders.wf(),
                queue == self.model().book.queue(side),
                first_owned(orders.rest(), seat) == first_owned(queue, seat),
            decreases orders.rest().len(),
        {
            match orders.next() {
                None => {
                    return None;
                },
                Some(entry) => {
                    if entry.value.trader_index == seat as u64 {
                        return Some(entry.key);
                    }
                },
            }
        }
    }
}

/// Matching never issues a sequence number.
proof fn lemma_cross_keeps_counter(state: Crossing, terms: Terms)
    ensures
        cross_run(state, terms).0.market.book.next_sequence == state.market.book.next_sequence,
    decreases terms.match_limit - state.touched,
{
    let (after, result) = state.turn(terms);
    if result == Ok::<Option<MatchStop>, EngineError>(None) {
        lemma_cross_keeps_counter(after, terms);
    }
}

} // verus!
