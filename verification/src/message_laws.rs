//! What is said, in words, of everything that can be refused or reported.

use vstd::prelude::*;

use crate::client::decode::InstructionDecodeError;
use crate::client::event::EventError;
use crate::client::state::DecodeError;
use crate::engine::EngineError;
use crate::operate::bench::{Measured, NoCost, Unmeasurable};
use crate::operate::record::RecordField;
use crate::quantities::LotConfigError;
use crate::text::digits;
use crate::tree::Invariant;

verus! {

/// A refused geometry says which of its numbers is at fault.
pub proof fn law_geometry_errors_say(error: LotConfigError)
    ensures
        error.text() == (match error {
            LotConfigError::ZeroBaseLotsPerBaseUnit => "base_lots_per_base_unit must be non-zero"@,
            LotConfigError::ZeroTickSize => {
                "tick_size_in_quote_lots_per_base_unit must be non-zero"@
            },
            LotConfigError::ZeroBaseAtomsPerBaseLot => "base_atoms_per_base_lot must be non-zero"@,
            LotConfigError::ZeroQuoteAtomsPerQuoteLot => {
                "quote_atoms_per_quote_lot must be non-zero"@
            },
            LotConfigError::TickSizeNotDivisibleByBaseLotsPerBaseUnit => {
                "tick size must be a multiple of base_lots_per_base_unit"@
            },
        }),
{
}

/// A refused geometry is called by the name of its fault.
pub proof fn law_geometry_errors_are_called(error: LotConfigError)
    ensures
        error.variant() == (match error {
            LotConfigError::ZeroBaseLotsPerBaseUnit => "ZeroBaseLotsPerBaseUnit"@,
            LotConfigError::ZeroTickSize => "ZeroTickSize"@,
            LotConfigError::ZeroBaseAtomsPerBaseLot => "ZeroBaseAtomsPerBaseLot"@,
            LotConfigError::ZeroQuoteAtomsPerQuoteLot => "ZeroQuoteAtomsPerQuoteLot"@,
            LotConfigError::TickSizeNotDivisibleByBaseLotsPerBaseUnit => {
                "TickSizeNotDivisibleByBaseLotsPerBaseUnit"@
            },
        }),
{
}

/// What the engine says of an operation that it refuses.
pub proof fn law_engine_errors_say(error: EngineError)
    ensures
        error.text() == (match error {
            EngineError::SeatTableFull => "trader table is at capacity"@,
            EngineError::SeatNotFound => "trader has no seat on this market"@,
            EngineError::SeatNotEmpty => "seat still has orders or a balance"@,
            EngineError::BookSideFull => "book side is at capacity"@,
            EngineError::InsufficientBaseFunds => "insufficient free base funds"@,
            EngineError::InsufficientQuoteFunds => "insufficient free quote funds"@,
            EngineError::OrderNotFound => "no resting order with that id"@,
            EngineError::NotOrderOwner => "order belongs to a different seat"@,
            EngineError::SelfTradeAborted => "order would have self-traded"@,
            EngineError::PostOnlyWouldCross => "post-only order would cross"@,
            EngineError::PostOnlyNoRoom => "post-only order had no price to slide to"@,
            EngineError::MinimumFillNotMet => "filled less than the requested minimum"@,
            EngineError::ZeroSize => "order size was zero"@,
            EngineError::Overflow => "arithmetic overflow"@,
            EngineError::InvalidFeeRate => "fee rate exceeds 100%"@,
            EngineError::MarketAlreadyInitialized => "market is already initialized"@,
            EngineError::InvalidLotConfig(inner) => "invalid lot config: "@ + inner.text(),
        }),
{
}

/// A violated invariant is called by its own name.
pub proof fn law_violations_are_called(error: Invariant)
    ensures
        error.text() == (match error {
            Invariant::RootNotBlack => "RootNotBlack"@,
            Invariant::RootParentNotNil => "RootParentNotNil"@,
            Invariant::RedRedViolation => "RedRedViolation"@,
            Invariant::BlackHeightMismatch => "BlackHeightMismatch"@,
            Invariant::BstOrderViolation => "BstOrderViolation"@,
            Invariant::ParentPointerMismatch => "ParentPointerMismatch"@,
            Invariant::LenMismatch => "LenMismatch"@,
            Invariant::FreeListCorrupt => "FreeListCorrupt"@,
        }),
{
}

/// What is said of instruction data that cannot be read.
pub proof fn law_instruction_errors_say(error: InstructionDecodeError)
    ensures
        error.text() == (match error {
            InstructionDecodeError::Empty => "empty instruction data"@,
            InstructionDecodeError::UnknownDiscriminant(tag) => {
                "unknown discriminant "@ + digits(tag as nat)
            },
            InstructionDecodeError::Truncated => "instruction data ended early"@,
            InstructionDecodeError::Malformed => "instruction field out of range"@,
        }),
{
}

/// What is said of an account that cannot be read: what was found, and what was expected.
pub proof fn law_account_errors_say(error: DecodeError)
    ensures
        error.text() == (match error {
            DecodeError::TooShort => "buffer shorter than the market header"@,
            DecodeError::NotAMarket => "not a market account"@,
            DecodeError::VersionMismatch { found, expected } => "market version "@ + digits(
                found as nat,
            ) + ", expected "@ + digits(expected as nat),
            DecodeError::UnknownSizeClass(value) => "unknown size class "@ + digits(value as nat),
            DecodeError::Truncated { expected, found } => "account is "@ + digits(found as nat)
                + " bytes, expected "@ + digits(expected as nat),
            DecodeError::Corrupt => "the market's trees do not hold together"@,
            DecodeError::InvalidLotConfig(error) => "the market's lot configuration is invalid: "@
                + error.variant(),
        }),
{
}

/// What is said of an event that cannot be read: what it declares, and what it carries.
pub proof fn law_event_errors_say(error: EventError)
    ensures
        error.text() == (match error {
            EventError::NotAnEvent => "not a LogEvent instruction"@,
            EventError::TooShort => "payload shorter than the event summary"@,
            EventError::UnknownVersion(version) => {
                "unknown event version "@ + digits(version as nat)
            },
            EventError::UnknownKind(kind) => "unknown event kind "@ + digits(kind as nat),
            EventError::UnknownStop(stop) => "unknown match stop code "@ + digits(stop as nat),
            EventError::FillCountMismatch { declared, available } => "event declares "@ + digits(
                declared as nat,
            ) + " fills but carries "@ + digits(available as nat),
        }),
{
}

/// What a sample is reported as.
pub proof fn law_samples_say(sample: Measured)
    ensures
        sample.text() == (match sample {
            Measured::ClaimSeat => "claim seat"@,
            Measured::Deposit => "deposit"@,
            Measured::Withdraw => "withdraw"@,
            Measured::PostOnly => "post-only, rests"@,
            Measured::PostOnlyWithReceipt => "post-only, with receipt"@,
            Measured::BatchPlace => "batch: 0 cancels, 4 places"@,
            Measured::CancelOne => "cancel one"@,
            Measured::BatchReplace => "batch: 4 cancels, 4 places"@,
            Measured::CancelAll => "cancel all, up to 8"@,
            Measured::CollectFees => "collect fees"@,
            Measured::SwapCrossing => "swap, crossing"@,
            Measured::SwapOneLevel => "swap, 1 level"@,
            Measured::SwapSweeping(levels) => "swap, sweeping "@ + digits(levels as nat)
                + " level(s)"@,
        }),
{
}

/// Why a sample could not be taken.
pub proof fn law_missing_samples_say(error: Unmeasurable)
    ensures
        error.text() == (match error {
            Unmeasurable::NothingResting => "nothing of ours is resting"@,
            Unmeasurable::FewerThanFourResting => "fewer than four of our orders are resting"@,
            Unmeasurable::NoAsks => "no asks are resting"@,
        }),
{
}

/// Why a sample has no cost: what the cluster said, or that it said nothing.
pub proof fn law_uncosted_samples_say(error: NoCost)
    ensures
        error.text() == (match error {
            NoCost::NotSimulated(why) => why@,
            NoCost::Reverted(why) => why@,
            NoCost::NotReported => "the endpoint reported no compute"@,
        }),
{
}

/// What the entries of a record are called.
pub proof fn law_entries_are_called(entry: RecordField)
    ensures
        entry.text() == (match entry {
            RecordField::ProgramId => "program_id"@,
            RecordField::Market => "market"@,
            RecordField::BaseVault => "base_vault"@,
            RecordField::QuoteVault => "quote_vault"@,
            RecordField::BaseMint => "base_mint"@,
            RecordField::QuoteMint => "quote_mint"@,
            RecordField::PayerBase => "payer_base"@,
            RecordField::PayerQuote => "payer_quote"@,
        }),
{
}

} // verus!
