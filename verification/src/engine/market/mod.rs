//! The market: configuration, seats, and the book, in one value.
//!
//! [`model`] says what each operation makes of a market; the functions here are held to
//! it.

pub mod backing;
pub mod bytes;
pub mod cancel_laws;
pub mod conservation;
pub mod drain;
pub mod exchange_laws;
pub mod failure_laws;
pub mod fund_laws;
pub mod header;
pub mod history;
pub mod laws;
pub mod matching_laws;
pub mod model;
pub mod order_laws;
pub mod payout_laws;
pub mod sums;
pub mod touch_laws;

mod funds;
mod matching;
mod orders;

use vstd::prelude::*;

pub use conservation::ConservationError;
pub use header::MarketHeader;
pub use model::MarketModel;

use super::error::EngineError;
use super::fees::FeeSchedule;
use super::trader::table::SeatView;
use super::trader::{SeatIndex, TraderKey, TraderState, TraderTable};
use crate::book::{BookView, OrderBook};
use crate::order::{FIFOOrderId, Side};
use crate::quantities::{BaseLots, LotConfig, QuoteLots, Ticks};

verus! {

/// A single spot market: lot geometry, fee schedule, seats, and both sides of the book.
///
/// Everything a market needs lives in one value, so on-chain a market account is one
/// operable thing, with no second account to keep consistent with the first.
///
/// The three capacities are separate const generics. Bid and ask depth is often
/// structurally lopsided, and seat count is unrelated to either; collapsing them into
/// one number would mean paying rent for the maximum of the three on all three.
pub struct Market<const BIDS: usize, const ASKS: usize, const SEATS: usize> {
    pub(crate) header: MarketHeader,
    pub(crate) traders: TraderTable<SEATS>,
    pub(crate) book: OrderBook<BIDS, ASKS>,
}

impl<const BIDS: usize, const ASKS: usize, const SEATS: usize> Copy for Market<BIDS, ASKS, SEATS> {

}

impl<const BIDS: usize, const ASKS: usize, const SEATS: usize> Clone for Market<BIDS, ASKS, SEATS> {
    fn clone(&self) -> (copy: Self)
        ensures
            copy == *self,
    {
        *self
    }
}

// ---------------------------------------------------------------------------------
// Construction and access
// ---------------------------------------------------------------------------------

impl<const BIDS: usize, const ASKS: usize, const SEATS: usize> Market<BIDS, ASKS, SEATS> {
    /// The header.
    pub closed spec fn head(self) -> MarketHeader {
        self.header
    }

    /// The seat table.
    pub closed spec fn seat_table(self) -> TraderTable<SEATS> {
        self.traders
    }

    /// The book.
    pub closed spec fn order_book(self) -> OrderBook<BIDS, ASKS> {
        self.book
    }

    /// Everything the market holds.
    pub open spec fn model(self) -> MarketModel {
        MarketModel {
            header: self.head(),
            seats: self.seat_table().view(),
            book: self.order_book().view(),
        }
    }

    /// What every market built through its operations satisfies.
    pub open spec fn wf(self) -> bool {
        &&& self.seat_table().wf()
        &&& self.order_book().wf()
        &&& self.model().wf()
        &&& self.model().seats.capacity() == SEATS
    }

    /// A market with no seats, no orders and no funds.
    pub open spec fn blank_model(lot_config: LotConfig, fees: FeeSchedule) -> MarketModel {
        MarketModel {
            header: MarketHeader::fresh(lot_config, fees),
            seats: SeatView::blank(SEATS as nat, TraderState::nothing()),
            book: BookView::blank(BIDS as nat, ASKS as nat),
        }
    }

    /// An empty market.
    ///
    /// # Errors
    ///
    /// [`EngineError::InvalidLotConfig`] or [`EngineError::InvalidFeeRate`].
    pub fn new(lot_config: LotConfig, fees: FeeSchedule) -> (result: Result<Self, EngineError>)
        requires
            BIDS <= u32::MAX,
            ASKS <= u32::MAX,
            SEATS <= u32::MAX,
        ensures
            match MarketHeader::fresh(lot_config, fees).flaw() {
                Some(error) => result is Err && result->Err_0 == error,
                None => {
                    &&& result is Ok
                    &&& result->Ok_0.wf()
                    &&& result->Ok_0.model() == Self::blank_model(lot_config, fees)
                },
            },
    {
        let header = match MarketHeader::new(lot_config, fees) {
            Ok(header) => header,
            Err(error) => {
                return Err(error);
            },
        };
        let market = Market { header, traders: TraderTable::new(), book: OrderBook::new() };
        proof {
            market.traders.lemma_wf();
        }
        Ok(market)
    }

    /// An empty market on the heap.
    ///
    /// # Errors
    ///
    /// [`EngineError::InvalidLotConfig`] or [`EngineError::InvalidFeeRate`].
    pub fn new_boxed(lot_config: LotConfig, fees: FeeSchedule) -> (result: Result<
        Box<Self>,
        EngineError,
    >)
        requires
            BIDS <= u32::MAX,
            ASKS <= u32::MAX,
            SEATS <= u32::MAX,
        ensures
            match MarketHeader::fresh(lot_config, fees).flaw() {
                Some(error) => result is Err && result->Err_0 == error,
                None => {
                    &&& result is Ok
                    &&& result->Ok_0.wf()
                    &&& result->Ok_0.model() == Self::blank_model(lot_config, fees)
                },
            },
    {
        match Self::new(lot_config, fees) {
            Ok(market) => Ok(Box::new(market)),
            Err(error) => Err(error),
        }
    }

    /// Configuration and running totals.
    pub fn header(&self) -> (header: &MarketHeader)
        ensures
            *header == self.model().header,
    {
        &self.header
    }

    /// The book.
    pub fn book(&self) -> (book: &OrderBook<BIDS, ASKS>)
        ensures
            *book == self.order_book(),
    {
        &self.book
    }

    /// The seat table.
    pub fn traders(&self) -> (traders: &TraderTable<SEATS>)
        ensures
            *traders == self.seat_table(),
    {
        &self.traders
    }

    /// Claims a seat for `key`, or returns the existing one.
    ///
    /// # Errors
    ///
    /// [`EngineError::SeatTableFull`].
    pub fn claim_seat(&mut self, key: TraderKey) -> (result: Result<SeatIndex, EngineError>)
        requires
            old(self).wf(),
        ensures
            final(self).wf(),
            (final(self).model(), result) == old(self).model().claim_seat(key),
    {
        proof {
            self.traders.lemma_wf();
        }
        let result = self.traders.claim_seat(key);
        proof {
            self.traders.lemma_wf();
        }
        result
    }

    /// Releases an empty seat.
    ///
    /// A seat that still owns an order is not empty, whatever its balances: a bid at zero
    /// ticks locks nothing, and would otherwise re-target whoever claims the slot next.
    ///
    /// # Errors
    ///
    /// [`EngineError::SeatNotFound`] or [`EngineError::SeatNotEmpty`].
    pub fn release_seat(&mut self, key: &TraderKey) -> (result: Result<(), EngineError>)
        requires
            old(self).wf(),
        ensures
            final(self).wf(),
            (final(self).model(), result) == old(self).model().release_seat(*key),
    {
        let index = self.traders.index_of(key);
        if index != crate::engine::NO_SEAT && (self.best_of_seat(index, Side::Bid).is_some()
            || self.best_of_seat(index, Side::Ask).is_some()) {
            return Err(EngineError::SeatNotEmpty);
        }
        let result = self.traders.release_seat(key);
        proof {
            self.traders.lemma_wf();
        }
        result
    }

    /// The seat index for `key`, or [`NO_SEAT`](crate::engine::NO_SEAT).
    pub fn seat_index(&self, key: &TraderKey) -> (index: SeatIndex)
        requires
            self.wf(),
        ensures
            index == self.model().seats.handle_of(*key),
            (index != crate::engine::NO_SEAT) == self.model().seats.contains_key(*key),
            index <= SEATS,
    {
        self.traders.index_of(key)
    }

    /// The lot geometry, for callers converting between lots and atoms.
    pub fn lot_config(&self) -> (config: &LotConfig)
        ensures
            *config == self.model().header.lot_config,
    {
        &self.header.lot_config
    }
}

// ---------------------------------------------------------------------------------
// Internal helpers shared by the funds, orders and matching submodules
// ---------------------------------------------------------------------------------

impl<const BIDS: usize, const ASKS: usize, const SEATS: usize> Market<BIDS, ASKS, SEATS> {
    /// The quote value of `base_lots` at `price`.
    pub(crate) fn quote_value(&self, price: Ticks, base_lots: BaseLots) -> (value: Result<
        QuoteLots,
        EngineError,
    >)
        requires
            self.model().header.lot_config.base_lots_per_base_unit > 0,
        ensures
            value == (if self.model().value(price, base_lots) <= u64::MAX {
                Ok(QuoteLots(self.model().value(price, base_lots) as u64))
            } else {
                Err(EngineError::Overflow)
            }),
    {
        match self.header.lot_config.quote_lots_for(price, base_lots) {
            Some(value) => Ok(value),
            None => Err(EngineError::Overflow),
        }
    }

    /// Replacing a seat's balances keeps the market well formed.
    proof fn lemma_with_seat(self, before: Self, index: SeatIndex, state: TraderState)
        requires
            before.wf(),
            1 <= index <= SEATS,
            self.traders.wf(),
            self.book == before.book,
            self.header.lot_config == before.header.lot_config,
            self.header.fees == before.header.fees,
            self.traders.view() == before.traders.view().with_value(index, state),
        ensures
            self.wf(),
    {
        self.traders.lemma_wf();
        before.model().seats.lemma_with_value(index, state);
    }

    /// Releases the funds backing `base_lots` of a resting order, without touching the
    /// book. The side is read from the order id, so a caller cannot release against the
    /// wrong balance.
    fn unlock_backing(&mut self, id: &FIFOOrderId, seat: SeatIndex, base_lots: BaseLots) -> (result:
        Result<(), EngineError>)
        requires
            old(self).wf(),
            seat <= SEATS,
        ensures
            final(self).wf(),
            final(self).book == old(self).book,
            final(self).header == old(self).header,
            (final(self).model(), result) == old(self).model().unlock_backing(
                *id,
                seat,
                base_lots,
            ),
    {
        let ghost before = *self;
        match id.side() {
            Side::Ask => match self.traders.state_mut(seat) {
                Ok(state) => {
                    let result = state.unlock_base(base_lots);
                    proof {
                        self.lemma_with_seat(
                            before,
                            seat,
                            before.model().seat(seat).base_unlocked(base_lots).0,
                        );
                    }
                    result
                },
                Err(error) => Err(error),
            },
            Side::Bid => {
                let quote = match self.quote_value(id.price_in_ticks, base_lots) {
                    Ok(quote) => quote,
                    Err(error) => {
                        return Err(error);
                    },
                };
                match self.traders.state_mut(seat) {
                    Ok(state) => {
                        let result = state.unlock_quote(quote);
                        proof {
                            self.lemma_with_seat(
                                before,
                                seat,
                                before.model().seat(seat).quote_unlocked(quote).0,
                            );
                        }
                        result
                    },
                    Err(error) => Err(error),
                }
            },
        }
    }

    /// The seat owning a resting order.
    fn owner_of(&self, id: &FIFOOrderId) -> (owner: Result<SeatIndex, EngineError>)
        requires
            self.wf(),
        ensures
            match self.model().book.get(*id) {
                Some(order) => owner is Ok && owner->Ok_0 == order.trader_index && 1
                    <= owner->Ok_0 <= SEATS,
                None => owner is Err && owner->Err_0 == EngineError::OrderNotFound,
            },
    {
        proof {
            self.model().lemma_owner_in_range(*id);
        }
        match self.book.get(id) {
            Some(order) => Ok(order.trader_index as SeatIndex),
            None => Err(EngineError::OrderNotFound),
        }
    }
}

} // verus!
