//! The market's fixed configuration and running totals.

use vstd::prelude::*;

use crate::engine::error::EngineError;
use crate::engine::fees::FeeSchedule;
use crate::quantities::{BaseLots, LotConfig, QuoteLots};

verus! {

/// Market configuration plus the totals that make conservation checkable in O(1).
///
/// `base_lots_deposited` and `quote_lots_deposited` are derivable by summing every seat,
/// but keeping them as running totals means an instruction can reconcile the market
/// against its vault balances without walking the trader table — which is what makes the
/// check affordable to run on-chain rather than only in tests.
#[derive(Copy, Clone, Debug, PartialEq, Eq, Structural)]
pub struct MarketHeader {
    /// Tick and lot geometry. Immutable after creation.
    pub lot_config: LotConfig,
    /// Taker fee rate.
    pub fees: FeeSchedule,
    /// Base lots currently held by the market on behalf of all seats.
    pub base_lots_deposited: BaseLots,
    /// Quote lots currently held by the market, including unclaimed fees.
    pub quote_lots_deposited: QuoteLots,
    /// Lifetime fees earned. Never decreases, so it survives a sweep.
    pub collected_quote_lot_fees: QuoteLots,
    /// Fees earned but not yet swept. Part of `quote_lots_deposited` until collected.
    pub unclaimed_quote_lot_fees: QuoteLots,
}

impl MarketHeader {
    /// A header with nothing deposited and nothing earned.
    pub open spec fn fresh(lot_config: LotConfig, fees: FeeSchedule) -> Self {
        MarketHeader {
            lot_config,
            fees,
            base_lots_deposited: BaseLots(0),
            quote_lots_deposited: QuoteLots(0),
            collected_quote_lot_fees: QuoteLots(0),
            unclaimed_quote_lot_fees: QuoteLots(0),
        }
    }

    /// The first thing wrong with this configuration.
    pub open spec fn flaw(self) -> Option<EngineError> {
        match self.lot_config.flaw() {
            Some(error) => Some(EngineError::InvalidLotConfig(error)),
            None => if self.fees.is_valid() {
                None
            } else {
                Some(EngineError::InvalidFeeRate)
            },
        }
    }

    /// Builds a header from validated configuration.
    ///
    /// # Errors
    ///
    /// [`EngineError::InvalidLotConfig`] or [`EngineError::InvalidFeeRate`].
    pub fn new(lot_config: LotConfig, fees: FeeSchedule) -> (result: Result<Self, EngineError>)
        ensures
            result == match MarketHeader::fresh(lot_config, fees).flaw() {
                Some(error) => Err::<MarketHeader, EngineError>(error),
                None => Ok::<MarketHeader, EngineError>(MarketHeader::fresh(lot_config, fees)),
            },
    {
        let header = MarketHeader {
            lot_config,
            fees,
            base_lots_deposited: BaseLots(0),
            quote_lots_deposited: QuoteLots(0),
            collected_quote_lot_fees: QuoteLots(0),
            unclaimed_quote_lot_fees: QuoteLots(0),
        };
        match header.validate() {
            Ok(()) => Ok(header),
            Err(error) => Err(error),
        }
    }

    /// Re-checks configuration after reading it out of account bytes.
    ///
    /// # Errors
    ///
    /// The first invalid field found.
    pub fn validate(&self) -> (result: Result<(), EngineError>)
        ensures
            result == match self.flaw() {
                Some(error) => Err::<(), EngineError>(error),
                None => Ok::<(), EngineError>(()),
            },
    {
        match self.lot_config.validate() {
            Ok(()) => {},
            Err(error) => {
                return Err(EngineError::from(error));
            },
        }
        self.fees.validate()
    }
}

impl Default for MarketHeader {
    fn default() -> (header: Self)
        ensures
            header == MarketHeader::fresh(
                LotConfig {
                    base_lots_per_base_unit: 0,
                    tick_size_in_quote_lots_per_base_unit: 0,
                    base_atoms_per_base_lot: 0,
                    quote_atoms_per_quote_lot: 0,
                },
                FeeSchedule { taker_fee_bps: 0 },
            ),
    {
        MarketHeader {
            lot_config: LotConfig::default(),
            fees: FeeSchedule::default(),
            base_lots_deposited: BaseLots(0),
            quote_lots_deposited: QuoteLots(0),
            collected_quote_lot_fees: QuoteLots(0),
            unclaimed_quote_lot_fees: QuoteLots(0),
        }
    }
}

/// A header is refused for its geometry before its fee rate, and has no fault exactly if
/// neither has: the fee is at most the whole fill.
pub proof fn law_header_faults_are_named(header: MarketHeader)
    ensures
        match header.flaw() {
            Some(EngineError::InvalidLotConfig(error)) => header.lot_config.flaw() == Some(error),
            Some(error) => {
                &&& error == EngineError::InvalidFeeRate
                &&& header.lot_config.flaw() is None
                &&& header.fees.taker_fee_bps > 10_000
            },
            None => header.lot_config.flaw() is None && header.fees.taker_fee_bps <= 10_000,
        },
{
}

/// A fresh header keeps its geometry and its fee rate, and nothing else is in it.
pub proof fn law_fresh_headers_hold_nothing(lot_config: LotConfig, fees: FeeSchedule)
    ensures
        ({
            let header = MarketHeader::fresh(lot_config, fees);
            &&& header.lot_config == lot_config
            &&& header.fees == fees
            &&& header.base_lots_deposited.0 == 0
            &&& header.quote_lots_deposited.0 == 0
            &&& header.collected_quote_lot_fees.0 == 0
            &&& header.unclaimed_quote_lot_fees.0 == 0
        }),
{
}

} // verus!
