//! Per-seat balances.
//!
//! Funds are split free/locked rather than tracked as a single balance plus a scan of
//! open orders. Locking at placement is what makes settlement crankless: by the time a
//! resting order is hit, the funds backing it are already committed, so a fill is a
//! balance transfer that cannot fail.
//!
//! Each operation is described by the state it leaves and what it reports. One that moves
//! between balances takes from the first before it adds to the second, so an overflow of
//! the second leaves the first already reduced.

use vstd::prelude::*;

use crate::engine::error::EngineError;
use crate::quantities::{BaseLots, QuoteLots};
use crate::tree::TreeValue;

verus! {

/// One seat's balances on a single market.
///
/// `locked` is funds committed to resting orders. The sum of all four fields across all
/// seats, plus unclaimed fees, is exactly what the market's vaults must hold — the
/// conservation invariant the whole engine is built to preserve.
#[derive(Copy, Clone, Debug, PartialEq, Eq, Structural)]
pub struct TraderState {
    /// Base lots available to withdraw or commit to a new order.
    pub base_lots_free: BaseLots,
    /// Base lots committed to resting asks.
    pub base_lots_locked: BaseLots,
    /// Quote lots available to withdraw or commit to a new order.
    pub quote_lots_free: QuoteLots,
    /// Quote lots committed to resting bids.
    pub quote_lots_locked: QuoteLots,
}

impl TraderState {
    /// A seat that holds nothing.
    pub open spec fn nothing() -> Self {
        TraderState {
            base_lots_free: BaseLots(0),
            base_lots_locked: BaseLots(0),
            quote_lots_free: QuoteLots(0),
            quote_lots_locked: QuoteLots(0),
        }
    }

    /// Base lots owned, resting or not, however many.
    pub open spec fn base(self) -> int {
        self.base_lots_free.0 + self.base_lots_locked.0
    }

    /// Quote lots owned, resting or not, however many.
    pub open spec fn quote(self) -> int {
        self.quote_lots_free.0 + self.quote_lots_locked.0
    }

    /// Total base lots this seat owns, resting or not, clamped at the largest amount.
    pub fn total_base_lots(&self) -> (total: BaseLots)
        ensures
            total.0 == (if self.base() <= u64::MAX {
                self.base()
            } else {
                u64::MAX as int
            }),
    {
        self.base_lots_free.saturating_add(self.base_lots_locked)
    }

    /// Total quote lots this seat owns, resting or not, clamped at the largest amount.
    pub fn total_quote_lots(&self) -> (total: QuoteLots)
        ensures
            total.0 == (if self.quote() <= u64::MAX {
                self.quote()
            } else {
                u64::MAX as int
            }),
    {
        self.quote_lots_free.saturating_add(self.quote_lots_locked)
    }

    /// Whether the seat holds nothing at all — without which it is not released.
    pub fn is_empty(&self) -> (empty: bool)
        ensures
            empty == (*self == TraderState::nothing()),
    {
        self.total_base_lots().is_zero() && self.total_quote_lots().is_zero()
    }

    /// Moves base lots from free to locked, backing a new ask.
    pub open spec fn base_locked(self, amount: BaseLots) -> (TraderState, Result<(), EngineError>) {
        if amount.0 > self.base_lots_free.0 {
            (self, Err(EngineError::InsufficientBaseFunds))
        } else {
            let taken = TraderState {
                base_lots_free: BaseLots((self.base_lots_free.0 - amount.0) as u64),
                ..self
            };
            if self.base_lots_locked.0 + amount.0 > u64::MAX {
                (taken, Err(EngineError::Overflow))
            } else {
                (
                    TraderState {
                        base_lots_locked: BaseLots((self.base_lots_locked.0 + amount.0) as u64),
                        ..taken
                    },
                    Ok(()),
                )
            }
        }
    }

    /// Moves base lots from free to locked, backing a new ask.
    pub fn lock_base(&mut self, amount: BaseLots) -> (result: Result<(), EngineError>)
        ensures
            (*final(self), result) == old(self).base_locked(amount),
    {
        self.base_lots_free = match self.base_lots_free.checked_sub(amount) {
            Some(rest) => rest,
            None => {
                return Err(EngineError::InsufficientBaseFunds);
            },
        };
        self.base_lots_locked = match self.base_lots_locked.checked_add(amount) {
            Some(sum) => sum,
            None => {
                return Err(EngineError::Overflow);
            },
        };
        Ok(())
    }

    /// Moves base lots from locked back to free, on cancel.
    pub open spec fn base_unlocked(self, amount: BaseLots) -> (TraderState, Result<(), EngineError>) {
        if amount.0 > self.base_lots_locked.0 {
            (self, Err(EngineError::InsufficientBaseFunds))
        } else {
            let taken = TraderState {
                base_lots_locked: BaseLots((self.base_lots_locked.0 - amount.0) as u64),
                ..self
            };
            if self.base_lots_free.0 + amount.0 > u64::MAX {
                (taken, Err(EngineError::Overflow))
            } else {
                (
                    TraderState {
                        base_lots_free: BaseLots((self.base_lots_free.0 + amount.0) as u64),
                        ..taken
                    },
                    Ok(()),
                )
            }
        }
    }

    /// Moves base lots from locked back to free, on cancel.
    pub fn unlock_base(&mut self, amount: BaseLots) -> (result: Result<(), EngineError>)
        ensures
            (*final(self), result) == old(self).base_unlocked(amount),
    {
        self.base_lots_locked = match self.base_lots_locked.checked_sub(amount) {
            Some(rest) => rest,
            None => {
                return Err(EngineError::InsufficientBaseFunds);
            },
        };
        self.base_lots_free = match self.base_lots_free.checked_add(amount) {
            Some(sum) => sum,
            None => {
                return Err(EngineError::Overflow);
            },
        };
        Ok(())
    }

    /// Moves quote lots from free to locked, backing a new bid.
    pub open spec fn quote_locked(self, amount: QuoteLots) -> (TraderState, Result<(), EngineError>) {
        if amount.0 > self.quote_lots_free.0 {
            (self, Err(EngineError::InsufficientQuoteFunds))
        } else {
            let taken = TraderState {
                quote_lots_free: QuoteLots((self.quote_lots_free.0 - amount.0) as u64),
                ..self
            };
            if self.quote_lots_locked.0 + amount.0 > u64::MAX {
                (taken, Err(EngineError::Overflow))
            } else {
                (
                    TraderState {
                        quote_lots_locked: QuoteLots((self.quote_lots_locked.0 + amount.0) as u64),
                        ..taken
                    },
                    Ok(()),
                )
            }
        }
    }

    /// Moves quote lots from free to locked, backing a new bid.
    pub fn lock_quote(&mut self, amount: QuoteLots) -> (result: Result<(), EngineError>)
        ensures
            (*final(self), result) == old(self).quote_locked(amount),
    {
        self.quote_lots_free = match self.quote_lots_free.checked_sub(amount) {
            Some(rest) => rest,
            None => {
                return Err(EngineError::InsufficientQuoteFunds);
            },
        };
        self.quote_lots_locked = match self.quote_lots_locked.checked_add(amount) {
            Some(sum) => sum,
            None => {
                return Err(EngineError::Overflow);
            },
        };
        Ok(())
    }

    /// Moves quote lots from locked back to free, on cancel.
    pub open spec fn quote_unlocked(self, amount: QuoteLots) -> (TraderState, Result<(), EngineError>) {
        if amount.0 > self.quote_lots_locked.0 {
            (self, Err(EngineError::InsufficientQuoteFunds))
        } else {
            let taken = TraderState {
                quote_lots_locked: QuoteLots((self.quote_lots_locked.0 - amount.0) as u64),
                ..self
            };
            if self.quote_lots_free.0 + amount.0 > u64::MAX {
                (taken, Err(EngineError::Overflow))
            } else {
                (
                    TraderState {
                        quote_lots_free: QuoteLots((self.quote_lots_free.0 + amount.0) as u64),
                        ..taken
                    },
                    Ok(()),
                )
            }
        }
    }

    /// Moves quote lots from locked back to free, on cancel.
    pub fn unlock_quote(&mut self, amount: QuoteLots) -> (result: Result<(), EngineError>)
        ensures
            (*final(self), result) == old(self).quote_unlocked(amount),
    {
        self.quote_lots_locked = match self.quote_lots_locked.checked_sub(amount) {
            Some(rest) => rest,
            None => {
                return Err(EngineError::InsufficientQuoteFunds);
            },
        };
        self.quote_lots_free = match self.quote_lots_free.checked_add(amount) {
            Some(sum) => sum,
            None => {
                return Err(EngineError::Overflow);
            },
        };
        Ok(())
    }

    /// Adds to the free base balance.
    pub open spec fn base_credited(self, amount: BaseLots) -> (TraderState, Result<(), EngineError>) {
        if self.base_lots_free.0 + amount.0 > u64::MAX {
            (self, Err(EngineError::Overflow))
        } else {
            (TraderState { base_lots_free: BaseLots((self.base_lots_free.0 + amount.0) as u64), ..self }, Ok(()))
        }
    }

    /// Adds to the free base balance.
    pub fn credit_base(&mut self, amount: BaseLots) -> (result: Result<(), EngineError>)
        ensures
            (*final(self), result) == old(self).base_credited(amount),
    {
        self.base_lots_free = match self.base_lots_free.checked_add(amount) {
            Some(balance) => balance,
            None => {
                return Err(EngineError::Overflow);
            },
        };
        Ok(())
    }

    /// Adds to the free quote balance.
    pub open spec fn quote_credited(self, amount: QuoteLots) -> (TraderState, Result<(), EngineError>) {
        if self.quote_lots_free.0 + amount.0 > u64::MAX {
            (self, Err(EngineError::Overflow))
        } else {
            (TraderState { quote_lots_free: QuoteLots((self.quote_lots_free.0 + amount.0) as u64), ..self }, Ok(()))
        }
    }

    /// Adds to the free quote balance.
    pub fn credit_quote(&mut self, amount: QuoteLots) -> (result: Result<(), EngineError>)
        ensures
            (*final(self), result) == old(self).quote_credited(amount),
    {
        self.quote_lots_free = match self.quote_lots_free.checked_add(amount) {
            Some(balance) => balance,
            None => {
                return Err(EngineError::Overflow);
            },
        };
        Ok(())
    }

    /// Removes from the free base balance.
    pub open spec fn base_debited(self, amount: BaseLots) -> (TraderState, Result<(), EngineError>) {
        if amount.0 > self.base_lots_free.0 {
            (self, Err(EngineError::InsufficientBaseFunds))
        } else {
            (TraderState { base_lots_free: BaseLots((self.base_lots_free.0 - amount.0) as u64), ..self }, Ok(()))
        }
    }

    /// Removes from the free base balance.
    pub fn debit_base(&mut self, amount: BaseLots) -> (result: Result<(), EngineError>)
        ensures
            (*final(self), result) == old(self).base_debited(amount),
    {
        self.base_lots_free = match self.base_lots_free.checked_sub(amount) {
            Some(balance) => balance,
            None => {
                return Err(EngineError::InsufficientBaseFunds);
            },
        };
        Ok(())
    }

    /// Removes from the free quote balance.
    pub open spec fn quote_debited(self, amount: QuoteLots) -> (TraderState, Result<(), EngineError>) {
        if amount.0 > self.quote_lots_free.0 {
            (self, Err(EngineError::InsufficientQuoteFunds))
        } else {
            (TraderState { quote_lots_free: QuoteLots((self.quote_lots_free.0 - amount.0) as u64), ..self }, Ok(()))
        }
    }

    /// Removes from the free quote balance.
    pub fn debit_quote(&mut self, amount: QuoteLots) -> (result: Result<(), EngineError>)
        ensures
            (*final(self), result) == old(self).quote_debited(amount),
    {
        self.quote_lots_free = match self.quote_lots_free.checked_sub(amount) {
            Some(balance) => balance,
            None => {
                return Err(EngineError::InsufficientQuoteFunds);
            },
        };
        Ok(())
    }

    /// Consumes locked base lots outright, as a maker ask does when it is hit.
    pub open spec fn base_settled(self, amount: BaseLots) -> (TraderState, Result<(), EngineError>) {
        if amount.0 > self.base_lots_locked.0 {
            (self, Err(EngineError::InsufficientBaseFunds))
        } else {
            (TraderState { base_lots_locked: BaseLots((self.base_lots_locked.0 - amount.0) as u64), ..self }, Ok(()))
        }
    }

    /// Consumes locked base lots outright, as a maker ask does when it is hit.
    pub fn settle_locked_base(&mut self, amount: BaseLots) -> (result: Result<(), EngineError>)
        ensures
            (*final(self), result) == old(self).base_settled(amount),
    {
        self.base_lots_locked = match self.base_lots_locked.checked_sub(amount) {
            Some(balance) => balance,
            None => {
                return Err(EngineError::InsufficientBaseFunds);
            },
        };
        Ok(())
    }

    /// Consumes locked quote lots outright, as a maker bid does when it is hit.
    pub open spec fn quote_settled(self, amount: QuoteLots) -> (TraderState, Result<(), EngineError>) {
        if amount.0 > self.quote_lots_locked.0 {
            (self, Err(EngineError::InsufficientQuoteFunds))
        } else {
            (TraderState { quote_lots_locked: QuoteLots((self.quote_lots_locked.0 - amount.0) as u64), ..self }, Ok(()))
        }
    }

    /// Consumes locked quote lots outright, as a maker bid does when it is hit.
    pub fn settle_locked_quote(&mut self, amount: QuoteLots) -> (result: Result<(), EngineError>)
        ensures
            (*final(self), result) == old(self).quote_settled(amount),
    {
        self.quote_lots_locked = match self.quote_lots_locked.checked_sub(amount) {
            Some(balance) => balance,
            None => {
                return Err(EngineError::InsufficientQuoteFunds);
            },
        };
        Ok(())
    }
}

impl Default for TraderState {
    fn default() -> (state: Self)
        ensures
            state == TraderState::nothing(),
    {
        TraderState {
            base_lots_free: BaseLots(0),
            base_lots_locked: BaseLots(0),
            quote_lots_free: QuoteLots(0),
            quote_lots_locked: QuoteLots(0),
        }
    }
}

impl TreeValue for TraderState {
    open spec fn zero() -> Self {
        TraderState::nothing()
    }

    fn zeroed() -> (state: Self) {
        TraderState::default()
    }
}

/// Locking and unlocking move funds within a seat and never change what it owns, as long
/// as they succeed.
pub proof fn law_locking_conserves_the_total(state: TraderState, base: BaseLots, quote: QuoteLots)
    ensures
        state.base_locked(base).1 is Ok ==> state.base_locked(base).0.base() == state.base(),
        state.base_unlocked(base).1 is Ok ==> state.base_unlocked(base).0.base() == state.base(),
        state.quote_locked(quote).1 is Ok ==> state.quote_locked(quote).0.quote() == state.quote(),
        state.quote_unlocked(quote).1 is Ok ==> state.quote_unlocked(quote).0.quote()
            == state.quote(),
{
}

/// Unlocking reverses locking exactly.
pub proof fn law_unlock_reverses_lock(state: TraderState, base: BaseLots, quote: QuoteLots)
    ensures
        state.base_locked(base).1 is Ok ==> state.base_locked(base).0.base_unlocked(base) == (
            state,
            Ok::<(), EngineError>(()),
        ),
        state.quote_locked(quote).1 is Ok ==> state.quote_locked(quote).0.quote_unlocked(quote) == (
            state,
            Ok::<(), EngineError>(()),
        ),
{
}

/// A lock that the free balance does not cover leaves the seat untouched.
pub proof fn law_uncovered_lock_changes_nothing(
    state: TraderState,
    base: BaseLots,
    quote: QuoteLots,
)
    ensures
        base.0 > state.base_lots_free.0 ==> state.base_locked(base) == (
            state,
            Err::<(), EngineError>(EngineError::InsufficientBaseFunds),
        ),
        quote.0 > state.quote_lots_free.0 ==> state.quote_locked(quote) == (
            state,
            Err::<(), EngineError>(EngineError::InsufficientQuoteFunds),
        ),
{
}

} // verus!
