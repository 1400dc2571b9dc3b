//! Every way an engine operation can fail.
//!
//! One flat enum rather than per-module error types: on-chain these become numeric
//! program error codes, and a flat mapping is far easier to keep stable across versions
//! than a nested one.

use vstd::prelude::*;
use vstd::string::StringExecFns;

use crate::quantities::LotConfigError;

verus! {

/// A rejected engine operation.
#[derive(Copy, Clone, Debug, PartialEq, Eq, Structural)]
pub enum EngineError {
    /// The market's trader table is at capacity.
    SeatTableFull,
    /// The trader has no seat on this market.
    SeatNotFound,
    /// The seat still has resting orders or a non-zero balance.
    SeatNotEmpty,
    /// That side of the book is at capacity.
    BookSideFull,
    /// The trader's free base balance does not cover the operation.
    InsufficientBaseFunds,
    /// The trader's free quote balance does not cover the operation.
    InsufficientQuoteFunds,
    /// No resting order with that id.
    OrderNotFound,
    /// The order exists but belongs to a different seat.
    NotOrderOwner,
    /// The order would have matched against its owner's own resting order, and the
    /// requested [`SelfTradeBehavior`](crate::engine::SelfTradeBehavior) was `Abort`.
    SelfTradeAborted,
    /// A post-only order would have crossed the book and the caller asked to reject
    /// rather than slide.
    PostOnlyWouldCross,
    /// A post-only slide had no valid price to slide to.
    PostOnlyNoRoom,
    /// An immediate-or-cancel order filled less than its `min_base_lots_to_fill`.
    MinimumFillNotMet,
    /// The order had zero size.
    ZeroSize,
    /// A price or value computation exceeded `u64`.
    Overflow,
    /// The fee rate exceeded 100%.
    InvalidFeeRate,
    /// The market's lot geometry is invalid.
    InvalidLotConfig(LotConfigError),
    /// `initialize` was called on a market that is not blank.
    MarketAlreadyInitialized,
}

impl EngineError {
    /// What went wrong, in words.
    pub open spec fn text(self) -> Seq<char> {
        match self {
            EngineError::SeatTableFull => "trader table is at capacity"@,
            EngineError::SeatNotFound => "trader has no seat on this market"@,
            EngineError::SeatNotEmpty => "seat still has orders or a balance"@,
            EngineError::BookSideFull => "book side is at capacity"@,
            EngineError::InsufficientBaseFunds => "insufficient free base funds"@,
            EngineError::InsufficientQuoteFunds => "insufficient free quote funds"@,
            EngineError::OrderNotFound => "no resting order with that id"@,
            EngineError::NotOrderOwner => "order belongs to a different seat"@,
            EngineError::SelfTradeAborted => "order would have self-traded"@,
            EngineError::PostOnlyWouldCross => "post-only order would cross"@,
            EngineError::PostOnlyNoRoom => "post-only order had no price to slide to"@,
            EngineError::MinimumFillNotMet => "filled less than the requested minimum"@,
            EngineError::ZeroSize => "order size was zero"@,
            EngineError::Overflow => "arithmetic overflow"@,
            EngineError::InvalidFeeRate => "fee rate exceeds 100%"@,
            EngineError::MarketAlreadyInitialized => "market is already initialized"@,
            EngineError::InvalidLotConfig(inner) => "invalid lot config: "@ + inner.text(),
        }
    }

    /// What went wrong, in words.
    pub fn message(&self) -> (message: String)
        ensures
            message@ == self.text(),
    {
        match self {
            EngineError::SeatTableFull => String::from_str("trader table is at capacity"),
            EngineError::SeatNotFound => String::from_str("trader has no seat on this market"),
            EngineError::SeatNotEmpty => String::from_str("seat still has orders or a balance"),
            EngineError::BookSideFull => String::from_str("book side is at capacity"),
            EngineError::InsufficientBaseFunds => String::from_str("insufficient free base funds"),
            EngineError::InsufficientQuoteFunds => String::from_str("insufficient free quote funds"),
            EngineError::OrderNotFound => String::from_str("no resting order with that id"),
            EngineError::NotOrderOwner => String::from_str("order belongs to a different seat"),
            EngineError::SelfTradeAborted => String::from_str("order would have self-traded"),
            EngineError::PostOnlyWouldCross => String::from_str("post-only order would cross"),
            EngineError::PostOnlyNoRoom => String::from_str("post-only order had no price to slide to"),
            EngineError::MinimumFillNotMet => String::from_str("filled less than the requested minimum"),
            EngineError::ZeroSize => String::from_str("order size was zero"),
            EngineError::Overflow => String::from_str("arithmetic overflow"),
            EngineError::InvalidFeeRate => String::from_str("fee rate exceeds 100%"),
            EngineError::MarketAlreadyInitialized => String::from_str("market is already initialized"),
            EngineError::InvalidLotConfig(inner) => {
                let mut message = String::from_str("invalid lot config: ");
                message.append(inner.message());
                message
            },
        }
    }
}

impl From<LotConfigError> for EngineError {
    fn from(error: LotConfigError) -> (wrapped: Self) {
        EngineError::InvalidLotConfig(error)
    }
}

impl vstd::std_specs::convert::FromSpecImpl<LotConfigError> for EngineError {
    open spec fn obeys_from_spec() -> bool {
        true
    }

    open spec fn from_spec(error: LotConfigError) -> Self {
        EngineError::InvalidLotConfig(error)
    }
}

} // verus!
