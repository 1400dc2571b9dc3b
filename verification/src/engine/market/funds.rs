//! Moving value in and out of the market.
//!
//! Every operation here computes all of its results before writing any of them. A
//! partially applied deposit would break conservation permanently, and there is no
//! transaction to roll back inside a single instruction.

use vstd::prelude::*;

use super::Market;
use crate::engine::error::EngineError;
use crate::engine::trader::{SeatIndex, TraderState};
use crate::quantities::{BaseLots, QuoteLots};

verus! {

impl<const BIDS: usize, const ASKS: usize, const SEATS: usize> Market<BIDS, ASKS, SEATS> {
    /// Credits a seat's free balances.
    ///
    /// The caller is responsible for having actually moved the tokens; this only records
    /// them. On-chain the token transfer and this call are in the same instruction, so
    /// they succeed or fail together.
    ///
    /// # Errors
    ///
    /// [`EngineError::SeatNotFound`], or [`EngineError::Overflow`] if either running
    /// total would exceed `u64`.
    pub fn deposit(&mut self, seat: SeatIndex, base: BaseLots, quote: QuoteLots) -> (result: Result<
        (),
        EngineError,
    >)
        requires
            old(self).wf(),
            seat <= SEATS,
        ensures
            final(self).wf(),
            (final(self).model(), result) == old(self).model().deposit(seat, base, quote),
    {
        let ghost before = *self;
        let new_base_deposited = match self.header.base_lots_deposited.checked_add(base) {
            Some(total) => total,
            None => {
                return Err(EngineError::Overflow);
            },
        };
        let new_quote_deposited = match self.header.quote_lots_deposited.checked_add(quote) {
            Some(total) => total,
            None => {
                return Err(EngineError::Overflow);
            },
        };
        let state = match self.traders.state(seat) {
            Ok(state) => *state,
            Err(error) => {
                return Err(error);
            },
        };
        let new_base_free = match state.base_lots_free.checked_add(base) {
            Some(balance) => balance,
            None => {
                return Err(EngineError::Overflow);
            },
        };
        let new_quote_free = match state.quote_lots_free.checked_add(quote) {
            Some(balance) => balance,
            None => {
                return Err(EngineError::Overflow);
            },
        };
        let new_state = TraderState {
            base_lots_free: new_base_free,
            quote_lots_free: new_quote_free,
            ..state
        };
        match self.traders.state_mut(seat) {
            Ok(slot) => {
                *slot = new_state;
            },
            Err(error) => {
                return Err(error);
            },
        }
        self.header.base_lots_deposited = new_base_deposited;
        self.header.quote_lots_deposited = new_quote_deposited;
        proof {
            self.lemma_with_seat(before, seat, new_state);
        }
        Ok(())
    }

    /// Debits a seat's free balances.
    ///
    /// Locked funds are untouchable: withdrawing them would leave a resting order with
    /// nothing behind it. Cancel first.
    ///
    /// # Errors
    ///
    /// [`EngineError::SeatNotFound`], or [`EngineError::InsufficientBaseFunds`] /
    /// [`EngineError::InsufficientQuoteFunds`] if the free balance does not cover it.
    pub fn withdraw(&mut self, seat: SeatIndex, base: BaseLots, quote: QuoteLots) -> (result:
        Result<(), EngineError>)
        requires
            old(self).wf(),
            seat <= SEATS,
        ensures
            final(self).wf(),
            (final(self).model(), result) == old(self).model().withdraw(seat, base, quote),
    {
        let ghost before = *self;
        let state = match self.traders.state(seat) {
            Ok(state) => *state,
            Err(error) => {
                return Err(error);
            },
        };
        let new_base_free = match state.base_lots_free.checked_sub(base) {
            Some(balance) => balance,
            None => {
                return Err(EngineError::InsufficientBaseFunds);
            },
        };
        let new_quote_free = match state.quote_lots_free.checked_sub(quote) {
            Some(balance) => balance,
            None => {
                return Err(EngineError::InsufficientQuoteFunds);
            },
        };
        let new_base_deposited = match self.header.base_lots_deposited.checked_sub(base) {
            Some(total) => total,
            None => {
                return Err(EngineError::InsufficientBaseFunds);
            },
        };
        let new_quote_deposited = match self.header.quote_lots_deposited.checked_sub(quote) {
            Some(total) => total,
            None => {
                return Err(EngineError::InsufficientQuoteFunds);
            },
        };
        let new_state = TraderState {
            base_lots_free: new_base_free,
            quote_lots_free: new_quote_free,
            ..state
        };
        match self.traders.state_mut(seat) {
            Ok(slot) => {
                *slot = new_state;
            },
            Err(error) => {
                return Err(error);
            },
        }
        self.header.base_lots_deposited = new_base_deposited;
        self.header.quote_lots_deposited = new_quote_deposited;
        proof {
            self.lemma_with_seat(before, seat, new_state);
        }
        Ok(())
    }

    /// Withdraws everything a seat holds free, and reports what moved.
    ///
    /// # Errors
    ///
    /// [`EngineError::SeatNotFound`].
    pub fn withdraw_all(&mut self, seat: SeatIndex) -> (result: Result<
        (BaseLots, QuoteLots),
        EngineError,
    >)
        requires
            old(self).wf(),
            seat <= SEATS,
        ensures
            final(self).wf(),
            (final(self).model(), result) == old(self).model().withdraw_all(seat),
    {
        let state = match self.traders.state(seat) {
            Ok(state) => *state,
            Err(error) => {
                return Err(error);
            },
        };
        let (base, quote) = (state.base_lots_free, state.quote_lots_free);
        match self.withdraw(seat, base, quote) {
            Ok(()) => Ok((base, quote)),
            Err(error) => Err(error),
        }
    }

    /// Sweeps accrued fees out of the market, returning the amount.
    ///
    /// Fees sit inside `quote_lots_deposited` until collected, because until then they
    /// are still quote tokens the market's vault is holding.
    ///
    /// # Errors
    ///
    /// [`EngineError::Overflow`] only if the running totals are already inconsistent.
    pub fn collect_fees(&mut self) -> (result: Result<QuoteLots, EngineError>)
        requires
            old(self).wf(),
        ensures
            final(self).wf(),
            (final(self).model(), result) == old(self).model().collect_fees(),
    {
        let amount = self.header.unclaimed_quote_lot_fees;
        let new_quote_deposited = match self.header.quote_lots_deposited.checked_sub(amount) {
            Some(total) => total,
            None => {
                return Err(EngineError::Overflow);
            },
        };
        self.header.unclaimed_quote_lot_fees = QuoteLots(0);
        self.header.quote_lots_deposited = new_quote_deposited;
        Ok(amount)
    }

    /// Records a fee earned on a fill.
    pub(crate) fn accrue_fee(&mut self, amount: QuoteLots) -> (result: Result<(), EngineError>)
        requires
            old(self).wf(),
        ensures
            final(self).wf(),
            final(self).book == old(self).book,
            (final(self).model(), result) == old(self).model().accrue_fee(amount),
    {
        let unclaimed = match self.header.unclaimed_quote_lot_fees.checked_add(amount) {
            Some(total) => total,
            None => {
                return Err(EngineError::Overflow);
            },
        };
        let collected = match self.header.collected_quote_lot_fees.checked_add(amount) {
            Some(total) => total,
            None => {
                return Err(EngineError::Overflow);
            },
        };
        self.header.unclaimed_quote_lot_fees = unclaimed;
        self.header.collected_quote_lot_fees = collected;
        Ok(())
    }
}

} // verus!
