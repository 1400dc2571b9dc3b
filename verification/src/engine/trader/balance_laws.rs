//! What each operation on a seat's balances moves, when it is refused, and what it leaves
//! alone: stated on the four balances.

use vstd::prelude::*;

use super::state::TraderState;
use crate::engine::error::EngineError;
use crate::quantities::{BaseLots, QuoteLots};

verus! {

/// Which balances of a seat an operation on base lots leaves: the quote lots are as they
/// were.
pub open spec fn quote_is_kept(before: TraderState, after: TraderState) -> bool {
    &&& after.quote_lots_free == before.quote_lots_free
    &&& after.quote_lots_locked == before.quote_lots_locked
}

/// Which balances of a seat an operation on quote lots leaves: the base lots are as they
/// were.
pub open spec fn base_is_kept(before: TraderState, after: TraderState) -> bool {
    &&& after.base_lots_free == before.base_lots_free
    &&& after.base_lots_locked == before.base_lots_locked
}

/// Why a move of an amount from one balance to another is refused: the first does not hold
/// it, or the second would not.
pub open spec fn refused_for(
    result: Result<(), EngineError>,
    amount: u64,
    from: u64,
    to: u64,
    short: EngineError,
) -> bool {
    &&& result is Ok <==> amount <= from && to + amount <= u64::MAX
    &&& result == (Err::<(), EngineError>(short)) <==> amount > from
    &&& result == (Err::<(), EngineError>(EngineError::Overflow)) <==> amount <= from && to + amount
        > u64::MAX
}

/// Locking base takes the amount out of the free balance and puts it into the locked one.
pub proof fn law_locking_base_moves_it(state: TraderState, amount: BaseLots)
    ensures
        ({
            let (after, result) = state.base_locked(amount);
            &&& refused_for(
                result,
                amount.0,
                state.base_lots_free.0,
                state.base_lots_locked.0,
                EngineError::InsufficientBaseFunds,
            )
            &&& quote_is_kept(state, after)
            &&& result is Ok ==> {
                &&& after.base_lots_free.0 == state.base_lots_free.0 - amount.0
                &&& after.base_lots_locked.0 == state.base_lots_locked.0 + amount.0
            }
        }),
{
}

/// Unlocking base takes the amount out of the locked balance and puts it into the free one.
pub proof fn law_unlocking_base_moves_it(state: TraderState, amount: BaseLots)
    ensures
        ({
            let (after, result) = state.base_unlocked(amount);
            &&& refused_for(
                result,
                amount.0,
                state.base_lots_locked.0,
                state.base_lots_free.0,
                EngineError::InsufficientBaseFunds,
            )
            &&& quote_is_kept(state, after)
            &&& result is Ok ==> {
                &&& after.base_lots_free.0 == state.base_lots_free.0 + amount.0
                &&& after.base_lots_locked.0 == state.base_lots_locked.0 - amount.0
            }
        }),
{
}

/// Locking quote takes the amount out of the free balance and puts it into the locked one.
pub proof fn law_locking_quote_moves_it(state: TraderState, amount: QuoteLots)
    ensures
        ({
            let (after, result) = state.quote_locked(amount);
            &&& refused_for(
                result,
                amount.0,
                state.quote_lots_free.0,
                state.quote_lots_locked.0,
                EngineError::InsufficientQuoteFunds,
            )
            &&& base_is_kept(state, after)
            &&& result is Ok ==> {
                &&& after.quote_lots_free.0 == state.quote_lots_free.0 - amount.0
                &&& after.quote_lots_locked.0 == state.quote_lots_locked.0 + amount.0
            }
        }),
{
}

/// Unlocking quote takes the amount out of the locked balance and puts it into the free one.
pub proof fn law_unlocking_quote_moves_it(state: TraderState, amount: QuoteLots)
    ensures
        ({
            let (after, result) = state.quote_unlocked(amount);
            &&& refused_for(
                result,
                amount.0,
                state.quote_lots_locked.0,
                state.quote_lots_free.0,
                EngineError::InsufficientQuoteFunds,
            )
            &&& base_is_kept(state, after)
            &&& result is Ok ==> {
                &&& after.quote_lots_free.0 == state.quote_lots_free.0 + amount.0
                &&& after.quote_lots_locked.0 == state.quote_lots_locked.0 - amount.0
            }
        }),
{
}

/// A credit adds to one free balance, and is refused exactly where that would overflow.
pub proof fn law_credits_add(state: TraderState, base: BaseLots, quote: QuoteLots)
    ensures
        ({
            let (after, result) = state.base_credited(base);
            &&& quote_is_kept(state, after)
            &&& after.base_lots_locked == state.base_lots_locked
            &&& match result {
                Ok(()) => after.base_lots_free.0 == state.base_lots_free.0 + base.0,
                Err(error) => {
                    &&& error == EngineError::Overflow
                    &&& state.base_lots_free.0 + base.0 > u64::MAX
                    &&& after == state
                },
            }
        }),
        ({
            let (after, result) = state.quote_credited(quote);
            &&& base_is_kept(state, after)
            &&& after.quote_lots_locked == state.quote_lots_locked
            &&& match result {
                Ok(()) => after.quote_lots_free.0 == state.quote_lots_free.0 + quote.0,
                Err(error) => {
                    &&& error == EngineError::Overflow
                    &&& state.quote_lots_free.0 + quote.0 > u64::MAX
                    &&& after == state
                },
            }
        }),
{
}

/// A debit takes from one free balance, whatever is locked, and is refused exactly where
/// that balance does not hold it.
pub proof fn law_debits_take_what_is_free(state: TraderState, base: BaseLots, quote: QuoteLots)
    ensures
        ({
            let (after, result) = state.base_debited(base);
            &&& quote_is_kept(state, after)
            &&& after.base_lots_locked == state.base_lots_locked
            &&& match result {
                Ok(()) => after.base_lots_free.0 == state.base_lots_free.0 - base.0,
                Err(error) => {
                    &&& error == EngineError::InsufficientBaseFunds
                    &&& base.0 > state.base_lots_free.0
                    &&& after == state
                },
            }
        }),
        ({
            let (after, result) = state.quote_debited(quote);
            &&& base_is_kept(state, after)
            &&& after.quote_lots_locked == state.quote_lots_locked
            &&& match result {
                Ok(()) => after.quote_lots_free.0 == state.quote_lots_free.0 - quote.0,
                Err(error) => {
                    &&& error == EngineError::InsufficientQuoteFunds
                    &&& quote.0 > state.quote_lots_free.0
                    &&& after == state
                },
            }
        }),
{
}

/// A settlement consumes what is locked, whatever is free, and is refused exactly where
/// the locked balance does not hold it.
pub proof fn law_settlements_consume_what_is_locked(
    state: TraderState,
    base: BaseLots,
    quote: QuoteLots,
)
    ensures
        ({
            let (after, result) = state.base_settled(base);
            &&& quote_is_kept(state, after)
            &&& after.base_lots_free == state.base_lots_free
            &&& match result {
                Ok(()) => after.base_lots_locked.0 == state.base_lots_locked.0 - base.0,
                Err(error) => {
                    &&& error == EngineError::InsufficientBaseFunds
                    &&& base.0 > state.base_lots_locked.0
                    &&& after == state
                },
            }
        }),
        ({
            let (after, result) = state.quote_settled(quote);
            &&& base_is_kept(state, after)
            &&& after.quote_lots_free == state.quote_lots_free
            &&& match result {
                Ok(()) => after.quote_lots_locked.0 == state.quote_lots_locked.0 - quote.0,
                Err(error) => {
                    &&& error == EngineError::InsufficientQuoteFunds
                    &&& quote.0 > state.quote_lots_locked.0
                    &&& after == state
                },
            }
        }),
{
}

/// What a seat owns of a token is what is free and what is locked, and a seat that owns
/// nothing has nothing in any of its four balances.
pub proof fn law_totals_are_both_balances(state: TraderState)
    ensures
        state.base() == state.base_lots_free.0 + state.base_lots_locked.0,
        state.quote() == state.quote_lots_free.0 + state.quote_lots_locked.0,
        state == TraderState::nothing() <==> {
            &&& state.base_lots_free.0 == 0
            &&& state.base_lots_locked.0 == 0
            &&& state.quote_lots_free.0 == 0
            &&& state.quote_lots_locked.0 == 0
        },
{
}

} // verus!
