//! The cross loop: consuming resting liquidity and settling each fill atomically.
//!
//! # Crankless settlement
//!
//! Every fill moves value between the two seats' balances *inside the taker's
//! transaction*. There is no event queue and no second step, so a maker's proceeds are
//! spendable the moment the taker's transaction confirms.
//!
//! What makes that possible is that maker funds were locked at placement. By the time a
//! resting order is hit, the value backing it is already committed, so settlement is a
//! transfer between two balances that cannot fail for lack of funds — no rollback path
//! is needed, and none exists mid-instruction.
//!
//! # Fills happen at the maker's price
//!
//! The taker's limit decides *whether* a fill happens, never at what price. That is the
//! entire economic reason to rest a quote: a maker who quoted 100 gets 100 even when a
//! taker was willing to pay 105. Any other rule makes posting strictly worse than
//! taking.

use vstd::prelude::*;

#[allow(unused_imports)]
use super::model::{accepts, cross_run, Crossing, MarketModel, Terms};
use super::Market;
use crate::book::BookEntry;
use crate::engine::error::EngineError;
#[allow(unused_imports)]
use crate::engine::fill::{
    lemma_told_nothing, lemma_told_one_more, told_all, Fill, FillObserver, MatchStop,
};
use crate::engine::packet::SelfTradeBehavior;
use crate::engine::trader::SeatIndex;
use crate::order::{FIFOOrderId, Side};
use crate::quantities::{BaseLots, QuoteLots, Ticks};

verus! {

/// Running totals for one pass through the book.
#[derive(Copy, Clone, Debug, PartialEq, Eq)]
pub(crate) struct CrossOutcome {
    pub remaining: BaseLots,
    pub base_lots_filled: BaseLots,
    pub quote_lots_filled: QuoteLots,
    pub fee_in_quote_lots: QuoteLots,
    pub base_lots_self_traded: BaseLots,
    pub stop: MatchStop,
}

impl<const BIDS: usize, const ASKS: usize, const SEATS: usize> Market<BIDS, ASKS, SEATS> {
    /// Whether a taker on `side` with limit `limit` will accept `maker_price`.
    ///
    /// `None` means no limit, i.e. a market order.
    fn accepts(side: Side, maker_price: Ticks, limit: Option<Ticks>) -> (accepted: bool)
        ensures
            accepted == accepts(side, maker_price, limit),
    {
        match limit {
            None => true,
            Some(limit) => match side {
                // Buying: pay no more than the limit.
                Side::Bid => maker_price.0 <= limit.0,
                // Selling: receive no less than the limit.
                Side::Ask => maker_price.0 >= limit.0,
            },
        }
    }

    /// Walks the opposite side of the book, filling until the order is satisfied or a
    /// stop condition trips.
    pub(crate) fn cross<O: FillObserver>(
        &mut self,
        taker: SeatIndex,
        side: Side,
        limit: Option<Ticks>,
        size: BaseLots,
        self_trade_behavior: SelfTradeBehavior,
        match_limit: u32,
        observer: &mut O,
    ) -> (result: Result<CrossOutcome, EngineError>)
        requires
            old(self).wf(),
            1 <= taker <= SEATS,
        ensures
            final(self).wf(),
            ({
                let terms = Terms {
                    taker,
                    side,
                    limit,
                    behavior: self_trade_behavior,
                    match_limit,
                };
                let (end, stopped) = cross_run(
                    Crossing::start(old(self).model(), size),
                    terms,
                );
                &&& final(self).model() == end.market
                &&& told_all(*old(observer), end.fills, *final(observer))
                &&& match stopped {
                    Err(error) => result == Err::<CrossOutcome, EngineError>(error),
                    Ok(stop) => result == Ok::<CrossOutcome, EngineError>(
                        CrossOutcome {
                            remaining: end.remaining,
                            base_lots_filled: end.base_filled,
                            quote_lots_filled: end.quote_filled,
                            fee_in_quote_lots: end.fee,
                            base_lots_self_traded: end.self_traded,
                            stop,
                        },
                    ),
                }
            }),
    {
        let ghost terms = Terms {
            taker,
            side,
            limit,
            behavior: self_trade_behavior,
            match_limit,
        };
        let ghost start = Crossing::start(self.model(), size);
        let ghost mut fills = Seq::<Fill>::empty();
        let ghost watching = *observer;
        proof {
            lemma_told_nothing(*observer);
        }
        let mut remaining = size;
        let mut orders_touched: u32 = 0;
        let mut base_lots_filled = BaseLots(0);
        let mut quote_lots_filled = QuoteLots(0);
        let mut fee_in_quote_lots = QuoteLots(0);
        let mut base_lots_self_traded = BaseLots(0);

        loop
            invariant
                self.wf(),
                1 <= taker <= SEATS,
                terms == (Terms {
                    taker,
                    side,
                    limit,
                    behavior: self_trade_behavior,
                    match_limit,
                }),
                start == Crossing::start(old(self).model(), size),
                watching == *old(observer),
                orders_touched <= match_limit,
                told_all(watching, fills, *observer),
                cross_run(start, terms) == cross_run(
                    (Crossing {
                        market: self.model(),
                        remaining,
                        touched: orders_touched,
                        base_filled: base_lots_filled,
                        quote_filled: quote_lots_filled,
                        fee: fee_in_quote_lots,
                        self_traded: base_lots_self_traded,
                        fills,
                    }),
                    terms,
                ),
            decreases match_limit - orders_touched,
        {
            let ghost state = Crossing {
                market: self.model(),
                remaining,
                touched: orders_touched,
                base_filled: base_lots_filled,
                quote_filled: quote_lots_filled,
                fee: fee_in_quote_lots,
                self_traded: base_lots_self_traded,
                fills,
            };
            let stopping = if remaining.is_zero() {
                Some(MatchStop::FullyFilled)
            } else if orders_touched >= match_limit {
                Some(MatchStop::MatchLimit)
            } else {
                None
            };
            let candidate = self.book.best(side.opposite());
            let stopping = match stopping {
                Some(stop) => Some(stop),
                None => match candidate {
                    None => Some(MatchStop::BookEmpty),
                    Some(entry) => if !Self::accepts(side, entry.key.price_in_ticks, limit) {
                        Some(MatchStop::PriceLimit)
                    } else {
                        None
                    },
                },
            };
            proof {
                assert(stopping == state.stops(terms));
            }
            let entry = match (stopping, candidate) {
                (None, Some(entry)) => entry,
                (Some(stop), _) => {
                    return Ok(
                        CrossOutcome {
                            remaining,
                            base_lots_filled,
                            quote_lots_filled,
                            fee_in_quote_lots,
                            base_lots_self_traded,
                            stop,
                        },
                    );
                },
                (None, None) => {
                    return Err(EngineError::OrderNotFound);
                },
            };
            proof {
                assert(entry == state.next_maker(terms));
                self.model().lemma_best_is_resting(side.other());
            }

            // Counted before the self-trade branches too: cancelling or decrementing
            // one's own quotes costs compute, so it has to be bounded the same way.
            orders_touched = orders_touched + 1;

            if entry.value.trader_index as SeatIndex == taker {
                let removed = match self.resolve_self_trade(
                    &entry.key,
                    taker,
                    entry.value.num_base_lots,
                    remaining,
                    self_trade_behavior,
                ) {
                    Ok(removed) => removed,
                    Err(error) => {
                        return Err(error);
                    },
                };
                // CancelProvide removes the whole maker order without consuming taker
                // size, so only DecrementTake reduces `remaining`.
                if self_trade_behavior == SelfTradeBehavior::DecrementTake {
                    remaining = remaining - removed;
                }
                base_lots_self_traded = match base_lots_self_traded.checked_add(removed) {
                    Some(total) => total,
                    None => {
                        return Err(EngineError::Overflow);
                    },
                };
            } else {
                let fill = match self.fill_against(taker, side, &entry, remaining) {
                    Ok(Some(fill)) => fill,
                    Ok(None) => {
                        return Ok(
                            CrossOutcome {
                                remaining,
                                base_lots_filled,
                                quote_lots_filled,
                                fee_in_quote_lots,
                                base_lots_self_traded,
                                stop: MatchStop::InsufficientFunds,
                            },
                        );
                    },
                    Err(error) => {
                        return Err(error);
                    },
                };
                let ghost told = *observer;
                observer.on_fill(&fill);
                proof {
                    lemma_told_one_more(watching, fills, told, fill, *observer);
                    fills = fills.push(fill);
                }

                remaining = remaining - fill.base_lots_filled;
                base_lots_filled = match base_lots_filled.checked_add(fill.base_lots_filled) {
                    Some(total) => total,
                    None => {
                        return Err(EngineError::Overflow);
                    },
                };
                quote_lots_filled = match quote_lots_filled.checked_add(fill.quote_lots_filled) {
                    Some(total) => total,
                    None => {
                        return Err(EngineError::Overflow);
                    },
                };
                fee_in_quote_lots = match fee_in_quote_lots.checked_add(fill.fee_in_quote_lots) {
                    Some(total) => total,
                    None => {
                        return Err(EngineError::Overflow);
                    },
                };
            }
        }
    }

    /// Fills against the best resting order, which belongs to another seat: settles both
    /// seats and shrinks or removes the order. `None` if the taker cannot pay for it.
    fn fill_against(
        &mut self,
        taker: SeatIndex,
        side: Side,
        entry: &BookEntry,
        remaining: BaseLots,
    ) -> (result: Result<Option<Fill>, EngineError>)
        requires
            old(self).wf(),
            1 <= taker <= SEATS,
            old(self).model().book.best(side.other()) == Some(*entry),
            entry.value.trader_index != taker,
        ensures
            final(self).wf(),
            forall|state: Crossing, terms: Terms|
                state.market == old(self).model() && state.remaining == remaining && terms.taker
                    == taker && terms.side == side ==> {
                    let (after, touched) = #[trigger] state.touch_other(terms);
                    &&& after.market == final(self).model()
                    &&& match result {
                        Err(error) => touched == Err::<bool, EngineError>(error) && after.fills
                            == state.fills,
                        Ok(None) => touched == Ok::<bool, EngineError>(false) && after.fills
                            == state.fills,
                        Ok(Some(fill)) => {
                            &&& fill == state.next_fill(terms)
                            &&& fill.base_lots_filled.0 <= remaining.0
                            &&& after.fills == state.fills.push(fill)
                            &&& touched is Ok ==> touched->Ok_0
                            &&& touched is Err ==> touched->Err_0 == EngineError::Overflow
                            &&& touched is Ok <==> state.base_filled.0
                                + fill.base_lots_filled.0 <= u64::MAX && state.quote_filled.0
                                + fill.quote_lots_filled.0 <= u64::MAX && state.fee.0
                                + fill.fee_in_quote_lots.0 <= u64::MAX
                        },
                    }
                },
    {
        let ghost before = self.model();
        proof {
            before.lemma_best_is_resting(side.other());
        }
        let maker_price = entry.key.price_in_ticks;
        let maker_seat = entry.value.trader_index as SeatIndex;
        let maker_size = entry.value.num_base_lots;
        let fill_size = remaining.min(maker_size);
        let gross = match self.quote_value(maker_price, fill_size) {
            Ok(gross) => gross,
            Err(error) => {
                return Err(error);
            },
        };
        let fee = match self.header.fees.fee_on(gross) {
            Ok(fee) => fee,
            Err(error) => {
                return Err(error);
            },
        };
        if !self.taker_can_afford(taker, side, fill_size, gross, fee) {
            return Ok(None);
        }
        match self.settle_fill(taker, maker_seat, side, fill_size, gross, fee) {
            Ok(()) => {},
            Err(error) => {
                return Err(error);
            },
        }
        let maker_remaining = maker_size - fill_size;
        self.leave_resting(&entry.key, maker_remaining);
        Ok(
            Some(
                Fill {
                    maker_order_id: entry.key,
                    maker_seat,
                    taker_seat: taker,
                    price_in_ticks: maker_price,
                    base_lots_filled: fill_size,
                    quote_lots_filled: gross,
                    fee_in_quote_lots: fee,
                    maker_base_lots_remaining: maker_remaining,
                },
            ),
        )
    }

    /// Leaves a resting order at `size`, or removes it if that is zero.
    pub(crate) fn leave_resting(&mut self, id: &FIFOOrderId, size: BaseLots)
        requires
            old(self).wf(),
            old(self).model().book.contains(*id),
        ensures
            final(self).wf(),
            final(self).model() == (MarketModel {
                book: old(self).model().book.resized(*id, size),
                ..old(self).model()
            }),
    {
        let ghost before = self.model();
        proof {
            before.lemma_resized(*id, size);
        }
        if size.is_zero() {
            self.book.cancel(id);
        } else {
            match self.book.get_mut(id) {
                Some(order) => {
                    order.num_base_lots = size;
                },
                None => {},
            }
        }
    }

    /// Applies the caller's self-trade policy, returning the size removed from the book.
    fn resolve_self_trade(
        &mut self,
        maker_order_id: &FIFOOrderId,
        seat: SeatIndex,
        maker_size: BaseLots,
        taker_remaining: BaseLots,
        behavior: SelfTradeBehavior,
    ) -> (result: Result<BaseLots, EngineError>)
        requires
            old(self).wf(),
            seat <= SEATS,
            old(self).model().book.contains(*maker_order_id),
        ensures
            final(self).wf(),
            (final(self).model(), result) == old(self).model().resolve_self_trade(
                *maker_order_id,
                seat,
                maker_size,
                taker_remaining,
                behavior,
            ),
            result is Ok && behavior == SelfTradeBehavior::DecrementTake ==> result->Ok_0.0
                <= taker_remaining.0,
    {
        match behavior {
            SelfTradeBehavior::Abort => Err(EngineError::SelfTradeAborted),
            SelfTradeBehavior::CancelProvide => {
                match self.unlock_backing(maker_order_id, seat, maker_size) {
                    Ok(()) => {},
                    Err(error) => {
                        return Err(error);
                    },
                }
                self.leave_resting(maker_order_id, BaseLots(0));
                Ok(maker_size)
            },
            SelfTradeBehavior::DecrementTake => {
                let decrement = taker_remaining.min(maker_size);
                match self.unlock_backing(maker_order_id, seat, decrement) {
                    Ok(()) => {},
                    Err(error) => {
                        return Err(error);
                    },
                }
                let remaining = maker_size - decrement;
                self.leave_resting(maker_order_id, remaining);
                Ok(decrement)
            },
        }
    }

    /// Whether the taker's *free* balance covers this fill.
    ///
    /// Underfunded takers stop matching rather than getting a clamped partial fill.
    /// Clamping would make the executed size depend on a fee rounding, which is a poor
    /// property for a venue: an aggregator cannot predict it, and a maker cannot explain
    /// it. Stopping is predictable, and a caller who wants the largest affordable order
    /// can size it before submitting.
    fn taker_can_afford(
        &self,
        taker: SeatIndex,
        side: Side,
        fill_size: BaseLots,
        gross: QuoteLots,
        fee: QuoteLots,
    ) -> (affordable: bool)
        requires
            1 <= taker <= SEATS,
        ensures
            affordable == self.model().can_afford(taker, side, fill_size, gross, fee),
    {
        let state = match self.traders.state(taker) {
            Ok(state) => *state,
            Err(_) => {
                return false;
            },
        };
        match side {
            Side::Bid => match gross.checked_add(fee) {
                Some(cost) => state.quote_lots_free.0 >= cost.0,
                None => false,
            },
            Side::Ask => state.base_lots_free.0 >= fill_size.0,
        }
    }

    /// Moves value between the two seats and accrues the fee.
    ///
    /// Both states are read out as copies, mutated, then written back, because the seat
    /// table cannot hand out two mutable references at once. Self-trades are resolved
    /// before this point, so the two seats are always distinct.
    fn settle_fill(
        &mut self,
        taker: SeatIndex,
        maker: SeatIndex,
        side: Side,
        fill_size: BaseLots,
        gross: QuoteLots,
        fee: QuoteLots,
    ) -> (result: Result<(), EngineError>)
        requires
            old(self).wf(),
            1 <= taker <= SEATS,
            1 <= maker <= SEATS,
            taker != maker,
        ensures
            final(self).wf(),
            final(self).model().book == old(self).model().book,
            (final(self).model(), result) == old(self).model().settle_fill(
                taker,
                maker,
                side,
                fill_size,
                gross,
                fee,
            ),
    {
        let mut maker_state = match self.traders.state(maker) {
            Ok(state) => *state,
            Err(error) => {
                return Err(error);
            },
        };
        let mut taker_state = match self.traders.state(taker) {
            Ok(state) => *state,
            Err(error) => {
                return Err(error);
            },
        };

        match side {
            // Taker buys: the maker's locked base becomes the taker's, the taker's quote
            // becomes the maker's, and the fee is skimmed on top of what the maker gets.
            Side::Bid => {
                let cost = match gross.checked_add(fee) {
                    Some(cost) => cost,
                    None => {
                        return Err(EngineError::Overflow);
                    },
                };
                match maker_state.settle_locked_base(fill_size) {
                    Ok(()) => {},
                    Err(error) => {
                        return Err(error);
                    },
                }
                match maker_state.credit_quote(gross) {
                    Ok(()) => {},
                    Err(error) => {
                        return Err(error);
                    },
                }
                match taker_state.debit_quote(cost) {
                    Ok(()) => {},
                    Err(error) => {
                        return Err(error);
                    },
                }
                match taker_state.credit_base(fill_size) {
                    Ok(()) => {},
                    Err(error) => {
                        return Err(error);
                    },
                }
            },
            // Taker sells: the maker's locked quote becomes the taker's, less the fee,
            // and the taker's base becomes the maker's.
            Side::Ask => {
                let proceeds = match gross.checked_sub(fee) {
                    Some(proceeds) => proceeds,
                    None => {
                        return Err(EngineError::Overflow);
                    },
                };
                match maker_state.settle_locked_quote(gross) {
                    Ok(()) => {},
                    Err(error) => {
                        return Err(error);
                    },
                }
                match maker_state.credit_base(fill_size) {
                    Ok(()) => {},
                    Err(error) => {
                        return Err(error);
                    },
                }
                match taker_state.debit_base(fill_size) {
                    Ok(()) => {},
                    Err(error) => {
                        return Err(error);
                    },
                }
                match taker_state.credit_quote(proceeds) {
                    Ok(()) => {},
                    Err(error) => {
                        return Err(error);
                    },
                }
            },
        }

        // The fee totals are the last thing that can refuse, so they come before any balance
        // is written.
        match self.accrue_fee(fee) {
            Ok(()) => {},
            Err(error) => {
                return Err(error);
            },
        }
        let ghost before = *self;
        match self.traders.state_mut(maker) {
            Ok(slot) => {
                *slot = maker_state;
            },
            Err(error) => {
                return Err(error);
            },
        }
        proof {
            self.lemma_with_seat(before, maker, maker_state);
        }
        let ghost paid = *self;
        match self.traders.state_mut(taker) {
            Ok(slot) => {
                *slot = taker_state;
            },
            Err(error) => {
                return Err(error);
            },
        }
        proof {
            self.lemma_with_seat(paid, taker, taker_state);
        }
        Ok(())
    }
}

} // verus!
