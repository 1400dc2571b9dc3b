//! The market as a value, and what each operation makes of it.
//!
//! An operation is a function from a market and its arguments to the market it leaves and
//! what it reports. An operation may report an error and leave the market changed; its
//! function says exactly how.

use vstd::prelude::*;

use super::header::MarketHeader;
#[allow(unused_imports)]
use crate::book::view::{
    lemma_cancelled, lemma_next_id_is_new, lemma_placed, lemma_with_order,
};
use crate::book::BookView;
use crate::engine::error::EngineError;
use crate::engine::fill::{Fill, MatchStop, OrderOutcome};
use crate::engine::packet::{OrderPacket, PostOnlyRejection, SelfTradeBehavior};
use crate::engine::trader::table::{claimed, released, SeatView};
use crate::engine::trader::{SeatIndex, TraderKey, TraderState, NO_SEAT};
use crate::order::{FIFOOrderId, RestingOrder, Side, MAX_SEQUENCE_NUMBER};
use crate::quantities::{BaseLots, QuoteLots, Ticks};

verus! {

/// Everything a market holds.
#[verifier::ext_equal]
pub struct MarketModel {
    /// Configuration and running totals.
    pub header: MarketHeader,
    /// The seat table.
    pub seats: SeatView,
    /// The book.
    pub book: BookView,
}

/// What an operation leaves, and what it reports.
pub type Step<T> = (MarketModel, Result<T, EngineError>);

impl MarketModel {
    /// Every order's owner is a slot of the seat table.
    pub open spec fn owners_in_range(self) -> bool {
        &&& forall|i: int|
            0 <= i < self.book.bids.order.len() ==> 1 <= (#[trigger] self.book.bids.value_at(
                i,
            )).trader_index <= self.seats.capacity()
        &&& forall|i: int|
            0 <= i < self.book.asks.order.len() ==> 1 <= (#[trigger] self.book.asks.value_at(
                i,
            )).trader_index <= self.seats.capacity()
    }

    /// What every market built through its operations satisfies.
    pub open spec fn wf(self) -> bool {
        &&& self.seats.wf()
        &&& self.seats.capacity() <= u32::MAX
        &&& self.book.wf()
        &&& self.owners_in_range()
        &&& self.header.flaw() is None
    }

    /// A resting order's owner is a slot of the seat table.
    pub proof fn lemma_owner_in_range(self, id: FIFOOrderId)
        requires
            self.wf(),
        ensures
            match self.book.get(id) {
                Some(order) => 1 <= order.trader_index <= self.seats.capacity(),
                None => true,
            },
    {
        let tree = self.book.side(id.tagged_side());
        if tree.contains_key(id) {
            tree.lemma_present(id);
            let i = tree.position(id);
            assert(1 <= tree.value_at(i).trader_index <= self.seats.capacity());
        }
    }

    /// The best order of a side rests there, under its id.
    pub proof fn lemma_best_is_resting(self, side: Side)
        requires
            self.wf(),
        ensures
            match self.book.best(side) {
                Some(entry) => {
                    &&& entry.key.tagged_side() == side
                    &&& self.book.contains(entry.key)
                    &&& self.book.get(entry.key) == Some(entry.value)
                    &&& 1 <= entry.value.trader_index <= self.seats.capacity()
                },
                None => true,
            },
    {
        let tree = self.book.side(side);
        if tree.order.len() > 0 {
            let i = match side {
                Side::Bid => tree.order.len() - 1,
                Side::Ask => 0,
            };
            assert(self.book.best(side) == Some(tree.entry_at(i)));
            assert(tree.key_at(i).tagged_side() == side);
            tree.lemma_position_present(tree.key_at(i), i);
            assert(1 <= tree.value_at(i).trader_index <= self.seats.capacity());
        }
    }

    /// Resizing a resting order keeps the market well formed.
    pub proof fn lemma_resized(self, id: FIFOOrderId, size: BaseLots)
        requires
            self.wf(),
            self.book.contains(id),
        ensures
            (MarketModel { book: self.book.resized(id, size), ..self }).wf(),
    {
        let tree = self.book.side(id.tagged_side());
        tree.lemma_present(id);
        self.lemma_owner_in_range(id);
        let i = tree.position(id);
        let after = self.book.resized(id, size).side(id.tagged_side());
        if size.0 == 0 {
            lemma_cancelled(self.book, id);
            tree.lemma_without_place(i);
            assert forall|j: int| 0 <= j < after.order.len() implies 1 <= (
            #[trigger] after.value_at(j)).trader_index <= self.seats.capacity() by {
                let k = if j < i {
                    j
                } else {
                    j + 1
                };
                assert(after.order[j] == tree.order[k]);
                assert(1 <= tree.value_at(k).trader_index <= self.seats.capacity());
            }
        } else {
            let order = RestingOrder { num_base_lots: size, ..self.book.get(id)->0 };
            lemma_with_order(self.book, id, order);
            assert forall|j: int| 0 <= j < after.order.len() implies 1 <= (
            #[trigger] after.value_at(j)).trader_index <= self.seats.capacity() by {
                assert(1 <= tree.value_at(j).trader_index <= self.seats.capacity());
                if j != i {
                    assert(tree.order[j] != tree.order[i]);
                }
            }
        }
    }

    /// An order that comes to rest keeps the market well formed.
    pub proof fn lemma_posted(self, seat: SeatIndex, side: Side, price: Ticks, size: BaseLots)
        requires
            self.wf(),
            1 <= seat <= self.seats.capacity(),
            self.book.next_sequence <= MAX_SEQUENCE_NUMBER,
        ensures
            (MarketModel {
                book: self.book.placed(side, price, RestingOrder::lasting(seat as u64, size)),
                ..self
            }).wf(),
    {
        let order = RestingOrder::lasting(seat as u64, size);
        lemma_placed(self.book, side, price, order);
        let tree = self.book.side(side);
        let id = self.book.next_id(side, price);
        if !tree.is_full() {
            lemma_next_id_is_new(self.book, side, price);
            tree.lemma_with_new(id, order);
            let grown = tree.with_new(id, order);
            let p = tree.position(id);
            assert forall|j: int| 0 <= j < grown.order.len() implies 1 <= (
            #[trigger] grown.value_at(j)).trader_index <= self.seats.capacity() by {
                assert(grown.entries()[j] == grown.entry_at(j));
                if j != p {
                    let k = if j < p {
                        j
                    } else {
                        j - 1
                    };
                    assert(grown.entries()[j] == tree.entries()[k]);
                    assert(tree.entries()[k] == tree.entry_at(k));
                    assert(1 <= tree.value_at(k).trader_index <= self.seats.capacity());
                }
            }
        }
    }

    /// The balances at a seat index.
    pub open spec fn seat(self, index: SeatIndex) -> TraderState {
        self.seats.values[index - 1]
    }

    /// The market with the balances at a seat index replaced.
    pub open spec fn with_seat(self, index: SeatIndex, state: TraderState) -> Self {
        MarketModel { seats: self.seats.with_value(index, state), ..self }
    }

    /// The quote value of `size` at `price`, however large.
    pub open spec fn value(self, price: Ticks, size: BaseLots) -> int {
        self.header.lot_config.value(price, size)
    }

    // -----------------------------------------------------------------------------
    // Seats and funds
    // -----------------------------------------------------------------------------

    /// A trader claims a seat.
    pub open spec fn claim_seat(self, key: TraderKey) -> Step<SeatIndex> {
        let (seats, result) = claimed(self.seats, key);
        (MarketModel { seats, ..self }, result)
    }

    /// Whether a seat has an order resting, on either side.
    pub open spec fn has_orders(self, seat: SeatIndex) -> bool {
        self.best_of_seat(seat, Side::Bid) is Some || self.best_of_seat(seat, Side::Ask) is Some
    }

    /// A trader gives up its seat, which must own no order and hold nothing.
    pub open spec fn release_seat(self, key: TraderKey) -> Step<()> {
        if self.seats.contains_key(key) && self.has_orders(self.seats.handle_of(key)) {
            (self, Err(EngineError::SeatNotEmpty))
        } else {
            let (seats, result) = released(self.seats, key);
            (MarketModel { seats, ..self }, result)
        }
    }

    /// Funds arrive at a seat.
    pub open spec fn deposit(self, seat: SeatIndex, base: BaseLots, quote: QuoteLots) -> Step<()> {
        let h = self.header;
        let s = self.seat(seat);
        if h.base_lots_deposited.0 + base.0 > u64::MAX || h.quote_lots_deposited.0 + quote.0
            > u64::MAX {
            (self, Err(EngineError::Overflow))
        } else if seat == NO_SEAT {
            (self, Err(EngineError::SeatNotFound))
        } else if s.base_lots_free.0 + base.0 > u64::MAX || s.quote_lots_free.0 + quote.0
            > u64::MAX {
            (self, Err(EngineError::Overflow))
        } else {
            (
                MarketModel {
                    header: MarketHeader {
                        base_lots_deposited: BaseLots((h.base_lots_deposited.0 + base.0) as u64),
                        quote_lots_deposited: QuoteLots(
                            (h.quote_lots_deposited.0 + quote.0) as u64,
                        ),
                        ..h
                    },
                    ..self.with_seat(
                        seat,
                        TraderState {
                            base_lots_free: BaseLots((s.base_lots_free.0 + base.0) as u64),
                            quote_lots_free: QuoteLots((s.quote_lots_free.0 + quote.0) as u64),
                            ..s
                        },
                    )
                },
                Ok(()),
            )
        }
    }

    /// Free funds leave a seat.
    pub open spec fn withdraw(self, seat: SeatIndex, base: BaseLots, quote: QuoteLots) -> Step<()> {
        let h = self.header;
        let s = self.seat(seat);
        if seat == NO_SEAT {
            (self, Err(EngineError::SeatNotFound))
        } else if base.0 > s.base_lots_free.0 {
            (self, Err(EngineError::InsufficientBaseFunds))
        } else if quote.0 > s.quote_lots_free.0 {
            (self, Err(EngineError::InsufficientQuoteFunds))
        } else if base.0 > h.base_lots_deposited.0 {
            (self, Err(EngineError::InsufficientBaseFunds))
        } else if quote.0 > h.quote_lots_deposited.0 {
            (self, Err(EngineError::InsufficientQuoteFunds))
        } else {
            (
                MarketModel {
                    header: MarketHeader {
                        base_lots_deposited: BaseLots((h.base_lots_deposited.0 - base.0) as u64),
                        quote_lots_deposited: QuoteLots(
                            (h.quote_lots_deposited.0 - quote.0) as u64,
                        ),
                        ..h
                    },
                    ..self.with_seat(
                        seat,
                        TraderState {
                            base_lots_free: BaseLots((s.base_lots_free.0 - base.0) as u64),
                            quote_lots_free: QuoteLots((s.quote_lots_free.0 - quote.0) as u64),
                            ..s
                        },
                    )
                },
                Ok(()),
            )
        }
    }

    /// Everything free leaves a seat.
    pub open spec fn withdraw_all(self, seat: SeatIndex) -> Step<(BaseLots, QuoteLots)> {
        if seat == NO_SEAT {
            (self, Err(EngineError::SeatNotFound))
        } else {
            let (base, quote) = (
                self.seat(seat).base_lots_free,
                self.seat(seat).quote_lots_free,
            );
            let (after, result) = self.withdraw(seat, base, quote);
            match result {
                Ok(_) => (after, Ok((base, quote))),
                Err(error) => (after, Err(error)),
            }
        }
    }

    /// Accrued fees leave the market.
    pub open spec fn collect_fees(self) -> Step<QuoteLots> {
        let h = self.header;
        let amount = h.unclaimed_quote_lot_fees;
        if amount.0 > h.quote_lots_deposited.0 {
            (self, Err(EngineError::Overflow))
        } else {
            (
                MarketModel {
                    header: MarketHeader {
                        unclaimed_quote_lot_fees: QuoteLots(0),
                        quote_lots_deposited: QuoteLots(
                            (h.quote_lots_deposited.0 - amount.0) as u64,
                        ),
                        ..h
                    },
                    ..self
                },
                Ok(amount),
            )
        }
    }

    /// A fee is earned. If either total would run over, neither is raised.
    pub open spec fn accrue_fee(self, amount: QuoteLots) -> Step<()> {
        let h = self.header;
        if h.unclaimed_quote_lot_fees.0 + amount.0 > u64::MAX || h.collected_quote_lot_fees.0
            + amount.0 > u64::MAX {
            (self, Err(EngineError::Overflow))
        } else {
            (
                MarketModel {
                    header: MarketHeader {
                        unclaimed_quote_lot_fees: QuoteLots(
                            (h.unclaimed_quote_lot_fees.0 + amount.0) as u64,
                        ),
                        collected_quote_lot_fees: QuoteLots(
                            (h.collected_quote_lot_fees.0 + amount.0) as u64,
                        ),
                        ..h
                    },
                    ..self
                },
                Ok(()),
            )
        }
    }

    // -----------------------------------------------------------------------------
    // Backing
    // -----------------------------------------------------------------------------

    /// The funds behind part of a resting order become free again. The book stays as it
    /// is.
    pub open spec fn unlock_backing(self, id: FIFOOrderId, seat: SeatIndex, size: BaseLots) -> Step<
        (),
    > {
        let value = self.value(id.price_in_ticks, size);
        match id.tagged_side() {
            Side::Ask => if seat == NO_SEAT {
                (self, Err(EngineError::SeatNotFound))
            } else {
                let (state, result) = self.seat(seat).base_unlocked(size);
                (self.with_seat(seat, state), result)
            },
            Side::Bid => if value > u64::MAX {
                (self, Err(EngineError::Overflow))
            } else if seat == NO_SEAT {
                (self, Err(EngineError::SeatNotFound))
            } else {
                let (state, result) = self.seat(seat).quote_unlocked(QuoteLots(value as u64));
                (self.with_seat(seat, state), result)
            },
        }
    }

    /// The funds behind a new order are set aside. The book stays as it is.
    pub open spec fn lock_backing(
        self,
        seat: SeatIndex,
        side: Side,
        price: Ticks,
        size: BaseLots,
    ) -> Step<()> {
        let value = self.value(price, size);
        match side {
            Side::Ask => if seat == NO_SEAT {
                (self, Err(EngineError::SeatNotFound))
            } else {
                let (state, result) = self.seat(seat).base_locked(size);
                (self.with_seat(seat, state), result)
            },
            Side::Bid => if value > u64::MAX {
                (self, Err(EngineError::Overflow))
            } else if seat == NO_SEAT {
                (self, Err(EngineError::SeatNotFound))
            } else {
                let (state, result) = self.seat(seat).quote_locked(QuoteLots(value as u64));
                (self.with_seat(seat, state), result)
            },
        }
    }

    /// The funds of an order that found no room become free again.
    pub open spec fn undo_lock(
        self,
        seat: SeatIndex,
        side: Side,
        price: Ticks,
        size: BaseLots,
    ) -> Step<()> {
        self.unlock_backing(FIFOOrderId::encoded(side, price, 0), seat, size)
    }

    // -----------------------------------------------------------------------------
    // Posting
    // -----------------------------------------------------------------------------

    /// An order is backed and comes to rest. If its side is full, the lock is reversed.
    pub open spec fn post(self, seat: SeatIndex, side: Side, price: Ticks, size: BaseLots) -> Step<
        FIFOOrderId,
    > {
        let (backed, locked) = self.lock_backing(seat, side, price, size);
        match locked {
            Err(error) => (backed, Err(error)),
            Ok(_) => if backed.book.side(side).is_full() {
                let (undone, unlocked) = backed.undo_lock(seat, side, price, size);
                match unlocked {
                    Err(error) => (undone, Err(error)),
                    Ok(_) => (undone, Err(EngineError::BookSideFull)),
                }
            } else {
                (
                    MarketModel {
                        book: backed.book.placed(
                            side,
                            price,
                            RestingOrder::lasting(seat as u64, size),
                        ),
                        ..backed
                    },
                    Ok(backed.book.next_id(side, price)),
                )
            },
        }
    }

    /// Whether an order at `price` would cross the book.
    pub open spec fn would_cross(self, side: Side, price: Ticks) -> bool {
        match (side, self.book.best(side.other())) {
            (Side::Bid, Some(ask)) => price.0 >= ask.key.price_in_ticks.0,
            (Side::Ask, Some(bid)) => price.0 <= bid.key.price_in_ticks.0,
            _ => false,
        }
    }

    /// The given price, or the nearest non-crossing one, or `None` if there is no room. A
    /// bid at zero ticks is worthless, so a bid never slides there.
    pub open spec fn non_crossing_price(self, side: Side, price: Ticks) -> Option<Ticks> {
        if !self.would_cross(side, price) {
            Some(price)
        } else {
            let touch = (self.book.best(side.other())->0).key.price_in_ticks.0;
            match side {
                Side::Bid => if touch > 1 {
                    Some(Ticks((touch - 1) as u64))
                } else {
                    None
                },
                Side::Ask => if touch < u64::MAX {
                    Some(Ticks((touch + 1) as u64))
                } else {
                    None
                },
            }
        }
    }

    /// An order rests without taking.
    pub open spec fn place_post_only(
        self,
        seat: SeatIndex,
        side: Side,
        price: Ticks,
        size: BaseLots,
        rejection: PostOnlyRejection,
    ) -> Step<OrderOutcome> {
        if self.would_cross(side, price) && rejection == PostOnlyRejection::Reject {
            (self, Err(EngineError::PostOnlyWouldCross))
        } else {
            match self.non_crossing_price(side, price) {
                None => (self, Err(EngineError::PostOnlyNoRoom)),
                Some(rest_at) => {
                    let (after, posted) = self.post(seat, side, rest_at, size);
                    match posted {
                        Err(error) => (after, Err(error)),
                        Ok(id) => (
                            after,
                            Ok(
                                OrderOutcome {
                                    order_id: Some(id),
                                    base_lots_posted: size,
                                    ..OrderOutcome::idle(MatchStop::DidNotCross)
                                },
                            ),
                        ),
                    }
                },
            }
        }
    }

    // -----------------------------------------------------------------------------
    // Matching
    // -----------------------------------------------------------------------------

    /// Whether the taker's *free* balance covers a fill.
    pub open spec fn can_afford(
        self,
        taker: SeatIndex,
        side: Side,
        size: BaseLots,
        gross: QuoteLots,
        fee: QuoteLots,
    ) -> bool {
        match side {
            Side::Bid => gross.0 + fee.0 <= self.seat(taker).quote_lots_free.0,
            Side::Ask => size.0 <= self.seat(taker).base_lots_free.0,
        }
    }

    /// Both seats after a fill, if every balance works out: the maker's, then the taker's.
    pub open spec fn settled_seats(
        self,
        taker: SeatIndex,
        maker: SeatIndex,
        side: Side,
        size: BaseLots,
        gross: QuoteLots,
        fee: QuoteLots,
    ) -> Result<(TraderState, TraderState), EngineError> {
        let m = self.seat(maker);
        let t = self.seat(taker);
        match side {
            Side::Bid => if gross.0 + fee.0 > u64::MAX {
                Err(EngineError::Overflow)
            } else if m.base_settled(size).1 is Err {
                Err(EngineError::InsufficientBaseFunds)
            } else if m.quote_credited(gross).1 is Err {
                Err(EngineError::Overflow)
            } else if t.quote_debited(QuoteLots((gross.0 + fee.0) as u64)).1 is Err {
                Err(EngineError::InsufficientQuoteFunds)
            } else if t.base_credited(size).1 is Err {
                Err(EngineError::Overflow)
            } else {
                Ok(
                    (
                        m.base_settled(size).0.quote_credited(gross).0,
                        t.quote_debited(QuoteLots((gross.0 + fee.0) as u64)).0.base_credited(
                            size,
                        ).0,
                    ),
                )
            },
            Side::Ask => if fee.0 > gross.0 {
                Err(EngineError::Overflow)
            } else if m.quote_settled(gross).1 is Err {
                Err(EngineError::InsufficientQuoteFunds)
            } else if m.base_credited(size).1 is Err {
                Err(EngineError::Overflow)
            } else if t.base_debited(size).1 is Err {
                Err(EngineError::InsufficientBaseFunds)
            } else if t.quote_credited(QuoteLots((gross.0 - fee.0) as u64)).1 is Err {
                Err(EngineError::Overflow)
            } else {
                Ok(
                    (
                        m.quote_settled(gross).0.base_credited(size).0,
                        t.base_debited(size).0.quote_credited(
                            QuoteLots((gross.0 - fee.0) as u64),
                        ).0,
                    ),
                )
            },
        }
    }

    /// Value moves between two seats, and the fee is earned: all of it, or nothing.
    pub open spec fn settle_fill(
        self,
        taker: SeatIndex,
        maker: SeatIndex,
        side: Side,
        size: BaseLots,
        gross: QuoteLots,
        fee: QuoteLots,
    ) -> Step<()> {
        match self.settled_seats(taker, maker, side, size, gross, fee) {
            Err(error) => (self, Err(error)),
            Ok((m, t)) => {
                let (earned, accrued) = self.accrue_fee(fee);
                match accrued {
                    Err(error) => (self, Err(error)),
                    Ok(_) => (earned.with_seat(maker, m).with_seat(taker, t), Ok(())),
                }
            },
        }
    }

    /// The sender's own order stands in the way. Gives the size taken off the book.
    pub open spec fn resolve_self_trade(
        self,
        id: FIFOOrderId,
        seat: SeatIndex,
        maker_size: BaseLots,
        taker_remaining: BaseLots,
        behavior: SelfTradeBehavior,
    ) -> Step<BaseLots> {
        let removed = if behavior == SelfTradeBehavior::CancelProvide {
            maker_size
        } else {
            least(taker_remaining, maker_size)
        };
        if behavior == SelfTradeBehavior::Abort {
            (self, Err(EngineError::SelfTradeAborted))
        } else {
            let (freed, unlocked) = self.unlock_backing(id, seat, removed);
            match unlocked {
                Err(error) => (freed, Err(error)),
                Ok(_) => (
                    MarketModel {
                        book: freed.book.resized(
                            id,
                            BaseLots((maker_size.0 - removed.0) as u64),
                        ),
                        ..freed
                    },
                    Ok(removed),
                ),
            }
        }
    }

    // -----------------------------------------------------------------------------
    // Orders
    // -----------------------------------------------------------------------------

    /// A limit, post-only or immediate order is submitted. Gives the market it leaves,
    /// what it reports, and the fills on the way.
    pub open spec fn place_order(self, seat: SeatIndex, packet: OrderPacket) -> (
        MarketModel,
        Result<OrderOutcome, EngineError>,
        Seq<Fill>,
    ) {
        if packet.order_size().0 == 0 {
            (self, Err(EngineError::ZeroSize), Seq::empty())
        } else if seat == NO_SEAT {
            (self, Err(EngineError::SeatNotFound), Seq::empty())
        } else {
            match packet {
                OrderPacket::PostOnly { side, price_in_ticks, num_base_lots, rejection } => {
                    let (after, result) = self.place_post_only(
                        seat,
                        side,
                        price_in_ticks,
                        num_base_lots,
                        rejection,
                    );
                    (after, result, Seq::empty())
                },
                OrderPacket::Limit {
                    side,
                    price_in_ticks,
                    num_base_lots,
                    self_trade_behavior,
                    match_limit,
                } => {
                    let terms = Terms {
                        taker: seat,
                        side,
                        limit: Some(price_in_ticks),
                        behavior: self_trade_behavior,
                        match_limit,
                    };
                    let (end, stopped) = cross_run(Crossing::start(self, num_base_lots), terms);
                    match stopped {
                        Err(error) => (end.market, Err(error), end.fills),
                        Ok(stop) => if end.remaining.0 == 0 {
                            (end.market, Ok(end.outcome(stop)), end.fills)
                        } else {
                            let (after, posted) = end.market.post(
                                seat,
                                side,
                                price_in_ticks,
                                end.remaining,
                            );
                            match posted {
                                Err(error) => (after, Err(error), end.fills),
                                Ok(id) => (
                                    after,
                                    Ok(
                                        OrderOutcome {
                                            order_id: Some(id),
                                            base_lots_posted: end.remaining,
                                            ..end.outcome(stop)
                                        },
                                    ),
                                    end.fills,
                                ),
                            }
                        },
                    }
                },
                OrderPacket::ImmediateOrCancel {
                    side,
                    price_in_ticks,
                    num_base_lots,
                    min_base_lots_to_fill,
                    self_trade_behavior,
                    match_limit,
                } => {
                    let terms = Terms {
                        taker: seat,
                        side,
                        limit: price_in_ticks,
                        behavior: self_trade_behavior,
                        match_limit,
                    };
                    let (end, stopped) = cross_run(Crossing::start(self, num_base_lots), terms);
                    match stopped {
                        Err(error) => (end.market, Err(error), end.fills),
                        Ok(stop) => if end.base_filled.0 < min_base_lots_to_fill.0 {
                            (end.market, Err(EngineError::MinimumFillNotMet), end.fills)
                        } else {
                            (end.market, Ok(end.outcome(stop)), end.fills)
                        },
                    }
                },
            }
        }
    }

    /// A resting order is shrunk by up to `size` on behalf of its owner, and its funds
    /// behind the removed size become free.
    pub open spec fn reduce_order(self, seat: SeatIndex, id: FIFOOrderId, size: BaseLots) -> Step<
        BaseLots,
    > {
        match self.book.get(id) {
            None => (self, Err(EngineError::OrderNotFound)),
            Some(order) => if order.trader_index != seat {
                (self, Err(EngineError::NotOrderOwner))
            } else {
                let removed = least(order.num_base_lots, size);
                let (freed, unlocked) = self.unlock_backing(id, seat, removed);
                match unlocked {
                    Err(error) => (freed, Err(error)),
                    Ok(_) => (
                        MarketModel {
                            book: freed.book.resized(
                                id,
                                BaseLots((order.num_base_lots.0 - removed.0) as u64),
                            ),
                            ..freed
                        },
                        Ok(removed),
                    ),
                }
            },
        }
    }

    /// A resting order is taken off the book on behalf of its owner, and its funds become
    /// free.
    pub open spec fn cancel_order(self, seat: SeatIndex, id: FIFOOrderId) -> Step<BaseLots> {
        match self.book.get(id) {
            None => (self, Err(EngineError::OrderNotFound)),
            Some(order) => self.reduce_order(seat, id, order.num_base_lots),
        }
    }

    /// The best-priced order that a seat has on a side.
    pub open spec fn best_of_seat(self, seat: SeatIndex, side: Side) -> Option<FIFOOrderId> {
        first_owned(self.book.queue(side), seat)
    }

    /// Up to `limit` of a seat's orders on a side are cancelled, best-priced first.
    /// `done` have been already.
    pub open spec fn cancel_orders(
        self,
        seat: SeatIndex,
        side: Side,
        limit: u32,
        done: u32,
    ) -> Step<u32>
        decreases limit - done,
    {
        if done >= limit {
            (self, Ok(done))
        } else {
            match self.best_of_seat(seat, side) {
                None => (self, Ok(done)),
                Some(id) => {
                    let (after, result) = self.cancel_order(seat, id);
                    match result {
                        Err(error) => (after, Err(error)),
                        Ok(_) => after.cancel_orders(seat, side, limit, (done + 1) as u32),
                    }
                },
            }
        }
    }
}

/// The smaller of two sizes.
pub open spec fn least(a: BaseLots, b: BaseLots) -> BaseLots {
    if a.0 < b.0 {
        a
    } else {
        b
    }
}

/// The first order in a queue that belongs to a seat.
pub open spec fn first_owned(queue: Seq<crate::book::BookEntry>, seat: SeatIndex) -> Option<
    FIFOOrderId,
>
    decreases queue.len(),
{
    if queue.len() == 0 {
        None
    } else if queue[0].value.trader_index == seat {
        Some(queue[0].key)
    } else {
        first_owned(queue.drop_first(), seat)
    }
}

/// Whether a taker on `side` with limit `limit` will accept `maker_price`. `None` means
/// no limit, i.e. a market order.
pub open spec fn accepts(side: Side, maker_price: Ticks, limit: Option<Ticks>) -> bool {
    match limit {
        None => true,
        Some(limit) => match side {
            Side::Bid => maker_price.0 <= limit.0,
            Side::Ask => maker_price.0 >= limit.0,
        },
    }
}

/// What an order asks of the cross loop, apart from its size.
pub struct Terms {
    /// Who takes.
    pub taker: SeatIndex,
    /// Which side the order is on.
    pub side: Side,
    /// The limit price, if any.
    pub limit: Option<Ticks>,
    /// Policy for matching against the taker's own orders.
    pub behavior: SelfTradeBehavior,
    /// Maximum resting orders to touch.
    pub match_limit: u32,
}

/// A pass through the book, part way.
#[verifier::ext_equal]
pub struct Crossing {
    /// The market so far.
    pub market: MarketModel,
    /// Size still to fill.
    pub remaining: BaseLots,
    /// Resting orders touched.
    pub touched: u32,
    /// Size filled.
    pub base_filled: BaseLots,
    /// Value filled, before fees.
    pub quote_filled: QuoteLots,
    /// Fees charged.
    pub fee: QuoteLots,
    /// Size removed by self-trade handling.
    pub self_traded: BaseLots,
    /// The fills so far.
    pub fills: Seq<Fill>,
}

impl Crossing {
    /// A pass that has not begun.
    pub open spec fn start(market: MarketModel, size: BaseLots) -> Self {
        Crossing {
            market,
            remaining: size,
            touched: 0,
            base_filled: BaseLots(0),
            quote_filled: QuoteLots(0),
            fee: QuoteLots(0),
            self_traded: BaseLots(0),
            fills: Seq::empty(),
        }
    }

    /// What the pass reports if nothing is posted.
    pub open spec fn outcome(self, stop: MatchStop) -> OrderOutcome {
        OrderOutcome {
            order_id: None,
            base_lots_filled: self.base_filled,
            quote_lots_filled: self.quote_filled,
            fee_in_quote_lots: self.fee,
            base_lots_posted: BaseLots(0),
            base_lots_self_traded: self.self_traded,
            stop,
        }
    }

    /// Why the pass stops before touching another order, if it does.
    pub open spec fn stops(self, terms: Terms) -> Option<MatchStop> {
        if self.remaining.0 == 0 {
            Some(MatchStop::FullyFilled)
        } else if self.touched >= terms.match_limit {
            Some(MatchStop::MatchLimit)
        } else {
            match self.market.book.best(terms.side.other()) {
                None => Some(MatchStop::BookEmpty),
                Some(entry) => if accepts(terms.side, entry.key.price_in_ticks, terms.limit) {
                    None
                } else {
                    Some(MatchStop::PriceLimit)
                },
            }
        }
    }

    /// The order the pass touches next.
    pub open spec fn next_maker(self, terms: Terms) -> crate::book::BookEntry {
        self.market.book.best(terms.side.other())->0
    }

    /// The next order is the taker's own.
    pub open spec fn touch_own(self, terms: Terms) -> (Crossing, Result<(), EngineError>) {
        let entry = self.next_maker(terms);
        let (after, result) = self.market.resolve_self_trade(
            entry.key,
            terms.taker,
            entry.value.num_base_lots,
            self.remaining,
            terms.behavior,
        );
        let touched = (self.touched + 1) as u32;
        match result {
            Err(error) => (Crossing { market: after, touched, ..self }, Err(error)),
            Ok(removed) => {
                let shrunk = Crossing {
                    market: after,
                    touched,
                    remaining: if terms.behavior == SelfTradeBehavior::DecrementTake {
                        BaseLots((self.remaining.0 - removed.0) as u64)
                    } else {
                        self.remaining
                    },
                    ..self
                };
                if self.self_traded.0 + removed.0 > u64::MAX {
                    (shrunk, Err(EngineError::Overflow))
                } else {
                    (
                        Crossing {
                            self_traded: BaseLots((self.self_traded.0 + removed.0) as u64),
                            ..shrunk
                        },
                        Ok(()),
                    )
                }
            },
        }
    }

    /// The fill against the next order.
    pub open spec fn next_fill(self, terms: Terms) -> Fill {
        let entry = self.next_maker(terms);
        let size = least(self.remaining, entry.value.num_base_lots);
        let gross = QuoteLots(self.market.value(entry.key.price_in_ticks, size) as u64);
        Fill {
            maker_order_id: entry.key,
            maker_seat: entry.value.trader_index as SeatIndex,
            taker_seat: terms.taker,
            price_in_ticks: entry.key.price_in_ticks,
            base_lots_filled: size,
            quote_lots_filled: gross,
            fee_in_quote_lots: QuoteLots(self.market.header.fees.fee(gross) as u64),
            maker_base_lots_remaining: BaseLots((entry.value.num_base_lots.0 - size.0) as u64),
        }
    }

    /// The next order belongs to someone else. `Ok(false)` means the taker cannot pay for
    /// it.
    pub open spec fn touch_other(self, terms: Terms) -> (Crossing, Result<bool, EngineError>) {
        let entry = self.next_maker(terms);
        let fill = self.next_fill(terms);
        let touched = Crossing { touched: (self.touched + 1) as u32, ..self };
        let size = fill.base_lots_filled;
        let gross = fill.quote_lots_filled;
        let fee = fill.fee_in_quote_lots;
        if self.market.value(entry.key.price_in_ticks, size) > u64::MAX {
            (touched, Err(EngineError::Overflow))
        } else if self.market.header.fees.fee(gross) > u64::MAX {
            (touched, Err(EngineError::Overflow))
        } else if !self.market.can_afford(terms.taker, terms.side, size, gross, fee) {
            (touched, Ok(false))
        } else {
            let (paid, settled) = self.market.settle_fill(
                terms.taker,
                fill.maker_seat,
                terms.side,
                size,
                gross,
                fee,
            );
            match settled {
                Err(error) => (Crossing { market: paid, ..touched }, Err(error)),
                Ok(_) => {
                    let book = paid.book.resized(entry.key, fill.maker_base_lots_remaining);
                    let filled = Crossing {
                        market: MarketModel { book, ..paid },
                        remaining: BaseLots((self.remaining.0 - size.0) as u64),
                        fills: self.fills.push(fill),
                        ..touched
                    };
                    filled.tallied(size, gross, fee)
                },
            }
        }
    }

    /// The running totals with one more fill.
    pub open spec fn tallied(self, size: BaseLots, gross: QuoteLots, fee: QuoteLots) -> (
        Crossing,
        Result<bool, EngineError>,
    ) {
        if self.base_filled.0 + size.0 > u64::MAX || self.quote_filled.0 + gross.0 > u64::MAX
            || self.fee.0 + fee.0 > u64::MAX {
            (self, Err(EngineError::Overflow))
        } else {
            (
                Crossing {
                    base_filled: BaseLots((self.base_filled.0 + size.0) as u64),
                    quote_filled: QuoteLots((self.quote_filled.0 + gross.0) as u64),
                    fee: QuoteLots((self.fee.0 + fee.0) as u64),
                    ..self
                },
                Ok(true),
            )
        }
    }

    /// One turn of the loop: why it stops, if it does.
    pub open spec fn turn(self, terms: Terms) -> (Crossing, Result<Option<MatchStop>, EngineError>) {
        match self.stops(terms) {
            Some(stop) => (self, Ok(Some(stop))),
            None => if self.next_maker(terms).value.trader_index == terms.taker {
                let (after, result) = self.touch_own(terms);
                match result {
                    Err(error) => (after, Err(error)),
                    Ok(_) => (after, Ok(None)),
                }
            } else {
                let (after, result) = self.touch_other(terms);
                match result {
                    Err(error) => (after, Err(error)),
                    Ok(true) => (after, Ok(None)),
                    Ok(false) => (after, Ok(Some(MatchStop::InsufficientFunds))),
                }
            },
        }
    }
}

/// The pass through the book, run to its end.
pub open spec fn cross_run(state: Crossing, terms: Terms) -> (
    Crossing,
    Result<MatchStop, EngineError>,
)
    decreases terms.match_limit - state.touched,
{
    let (after, result) = state.turn(terms);
    match result {
        Err(error) => (after, Err(error)),
        Ok(Some(stop)) => (after, Ok(stop)),
        Ok(None) => cross_run(after, terms),
    }
}

} // verus!
