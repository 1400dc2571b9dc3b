//! Taker fees.
//!
//! Makers pay nothing. That is not generosity: on a venue with no flow, depth is the
//! scarce side of the market, and a maker rebate or even a maker fee changes quoting
//! behaviour far more than a few basis points of taker cost changes routing.
//!
//! Fees accrue in quote lots on the market and are swept separately, so a fill never
//! needs to touch a vault.

use vstd::arithmetic::div_mod::lemma_fundamental_div_mod;
use vstd::prelude::*;

use super::error::EngineError;
use crate::quantities::QuoteLots;

verus! {

/// One hundred percent, in basis points.
pub const BPS_DENOMINATOR: u64 = 10_000;

/// A market's fee rate.
///
/// Stored as `u64` rather than the `u16` the range needs, so the market header packs
/// without padding.
#[derive(Copy, Clone, Debug, PartialEq, Eq, Structural)]
pub struct FeeSchedule {
    /// Taker fee in basis points of the quote value of each fill.
    pub taker_fee_bps: u64,
}

impl Default for FeeSchedule {
    fn default() -> (schedule: Self)
        ensures
            schedule.taker_fee_bps == 0,
    {
        FeeSchedule { taker_fee_bps: 0 }
    }
}

impl FeeSchedule {
    /// The rate does not exceed 100%.
    pub open spec fn is_valid(self) -> bool {
        self.taker_fee_bps <= BPS_DENOMINATOR
    }

    /// The fee on `quote_lots`, rounded up to a whole lot, however large.
    pub open spec fn fee(self, quote_lots: QuoteLots) -> int {
        (quote_lots.0 * self.taker_fee_bps + BPS_DENOMINATOR - 1) / BPS_DENOMINATOR as int
    }

    /// A market that charges nothing.
    pub fn free() -> (schedule: Self)
        ensures
            schedule == (FeeSchedule { taker_fee_bps: 0 }),
    {
        FeeSchedule { taker_fee_bps: 0 }
    }

    /// Builds a schedule.
    ///
    /// # Errors
    ///
    /// [`EngineError::InvalidFeeRate`] if the rate exceeds 100%.
    pub fn new(taker_fee_bps: u64) -> (result: Result<Self, EngineError>)
        ensures
            result == (if taker_fee_bps <= BPS_DENOMINATOR {
                Ok(FeeSchedule { taker_fee_bps })
            } else {
                Err(EngineError::InvalidFeeRate)
            }),
    {
        if taker_fee_bps > BPS_DENOMINATOR {
            return Err(EngineError::InvalidFeeRate);
        }
        Ok(FeeSchedule { taker_fee_bps })
    }

    /// Re-checks the rate after reading it out of account bytes.
    ///
    /// # Errors
    ///
    /// [`EngineError::InvalidFeeRate`] if the rate exceeds 100%.
    pub fn validate(&self) -> (result: Result<(), EngineError>)
        ensures
            result == (if self.is_valid() {
                Ok(())
            } else {
                Err(EngineError::InvalidFeeRate)
            }),
    {
        if self.taker_fee_bps > BPS_DENOMINATOR {
            return Err(EngineError::InvalidFeeRate);
        }
        Ok(())
    }

    /// The fee on a fill worth `quote_lots`, rounded up.
    ///
    /// Rounding up favours the venue, which is the conventional direction and — more
    /// importantly — keeps the fee non-zero on small fills. Rounding down would let a
    /// taker split an order into dust and pay nothing.
    ///
    /// The result never exceeds `quote_lots` while the rate is at most 100%, so a taker
    /// selling always nets a non-negative amount.
    ///
    /// # Errors
    ///
    /// [`EngineError::Overflow`] if the fee exceeds `u64`, which cannot happen for
    /// validated rates but is checked rather than assumed.
    pub fn fee_on(&self, quote_lots: QuoteLots) -> (result: Result<QuoteLots, EngineError>)
        ensures
            result == (if self.fee(quote_lots) <= u64::MAX {
                Ok(QuoteLots(self.fee(quote_lots) as u64))
            } else {
                Err(EngineError::Overflow)
            }),
            self.is_valid() ==> self.fee(quote_lots) <= quote_lots.0,
            0 <= self.fee(quote_lots),
    {
        proof {
            lemma_fee(*self, quote_lots);
        }
        if self.taker_fee_bps == 0 {
            return Ok(QuoteLots(0));
        }
        let numerator = quote_lots.as_u64() as u128 * self.taker_fee_bps as u128;
        // Ceiling division.
        let mut fee = numerator / BPS_DENOMINATOR as u128;
        proof {
            lemma_ceiling(numerator as int, BPS_DENOMINATOR as int);
        }
        if numerator % BPS_DENOMINATOR as u128 != 0 {
            fee = fee + 1;
        }
        if fee > u64::MAX as u128 {
            return Err(EngineError::Overflow);
        }
        Ok(QuoteLots(fee as u64))
    }
}

/// Rounding up is rounding down, plus one if there was a remainder.
proof fn lemma_ceiling(n: int, d: int)
    requires
        0 <= n,
        1 < d,
    ensures
        (n + d - 1) / d == n / d + if n % d != 0 {
            1int
        } else {
            0int
        },
{
    lemma_fundamental_div_mod(n, d);
    lemma_fundamental_div_mod(n + d - 1, d);
    let q = n / d;
    let r = n % d;
    let p = (n + d - 1) / d;
    let s = (n + d - 1) % d;
    assert(p == q + if r != 0 {
        1int
    } else {
        0int
    }) by (nonlinear_arith)
        requires
            n == d * q + r,
            n + d - 1 == d * p + s,
            0 <= r < d,
            0 <= s < d,
            1 < d,
    ;
}

proof fn lemma_fee(schedule: FeeSchedule, quote_lots: QuoteLots)
    ensures
        quote_lots.0 * schedule.taker_fee_bps <= u64::MAX * u64::MAX,
        0 <= quote_lots.0 * schedule.taker_fee_bps,
        0 <= schedule.fee(quote_lots),
        schedule.taker_fee_bps == 0 ==> schedule.fee(quote_lots) == 0,
        schedule.is_valid() ==> schedule.fee(quote_lots) <= quote_lots.0,
{
    let q = quote_lots.0 as int;
    let b = schedule.taker_fee_bps as int;
    assert(0 <= q * b <= u64::MAX * u64::MAX) by (nonlinear_arith)
        requires
            0 <= q <= u64::MAX,
            0 <= b <= u64::MAX,
    ;
    let n = q * b;
    let f = (n + 10_000 - 1) / 10_000;
    assert(b == 0 ==> n == 0) by (nonlinear_arith)
        requires
            n == q * b,
    ;
    if b <= 10_000 {
        assert(n <= q * 10_000) by (nonlinear_arith)
            requires
                n == q * b,
                0 <= q,
                b <= 10_000,
        ;
    }
}

/// A fee never exceeds its fill, is zero only for a free market or an empty fill, and is
/// the least whole number of lots that covers the rate.
pub proof fn law_fee_is_the_rate_rounded_up(schedule: FeeSchedule, quote_lots: QuoteLots)
    requires
        schedule.is_valid(),
    ensures
        0 <= schedule.fee(quote_lots) <= quote_lots.0,
        schedule.fee(quote_lots) == 0 <==> schedule.taker_fee_bps == 0 || quote_lots.0 == 0,
        schedule.fee(quote_lots) * BPS_DENOMINATOR >= quote_lots.0 * schedule.taker_fee_bps,
        (schedule.fee(quote_lots) - 1) * BPS_DENOMINATOR < quote_lots.0 * schedule.taker_fee_bps,
{
    lemma_fee(schedule, quote_lots);
    let q = quote_lots.0 as int;
    let b = schedule.taker_fee_bps as int;
    assert(q * b == 0 <==> q == 0 || b == 0) by (nonlinear_arith)
        requires
            q >= 0,
            b >= 0,
    ;
}

/// At any rate, sound or not, the fee is the least whole number of lots that covers the
/// rate; a rate is sound exactly if it is at most the whole fill.
pub proof fn law_fee_covers_the_rate(schedule: FeeSchedule, quote_lots: QuoteLots)
    ensures
        schedule.is_valid() <==> schedule.taker_fee_bps <= 10_000,
        schedule.fee(quote_lots) * 10_000 >= quote_lots.0 * schedule.taker_fee_bps,
        (schedule.fee(quote_lots) - 1) * 10_000 < quote_lots.0 * schedule.taker_fee_bps,
{
    lemma_fee(schedule, quote_lots);
}

/// Splitting a fill never lowers the fee.
pub proof fn law_splitting_never_saves_fees(schedule: FeeSchedule, a: QuoteLots, b: QuoteLots)
    requires
        a.0 + b.0 <= u64::MAX,
    ensures
        schedule.fee(QuoteLots((a.0 + b.0) as u64)) <= schedule.fee(a) + schedule.fee(b),
{
    let x = a.0 as int;
    let y = b.0 as int;
    let r = schedule.taker_fee_bps as int;
    assert((x + y) * r == x * r + y * r) by (nonlinear_arith);
}

} // verus!
