//! A market's lot/tick geometry, and the conversions between price, size, and value.
//!
//! # The exactness invariant
//!
//! The quote value of a fill is
//!
//! ```text
//! quote_lots = price_in_ticks * tick_size_in_quote_lots_per_base_unit * base_lots
//!              / base_lots_per_base_unit
//! ```
//!
//! If that division truncates, the venue keeps dust on every fill and conservation of
//! funds fails. [`LotConfig::new`] therefore rejects any market whose tick size is not a
//! multiple of `base_lots_per_base_unit`, which folds the division into a constant
//! ([`quote_lots_per_base_lot_per_tick`](LotConfig::quote_lots_per_base_lot_per_tick))
//! and makes every fill exact for any size.
//!
//! The cost is a restricted set of admissible tick sizes.

use vstd::arithmetic::div_mod::{
    lemma_div_by_multiple, lemma_fundamental_div_mod, lemma_fundamental_div_mod_converse,
};
use vstd::arithmetic::mul::{
    lemma_mul_inequality, lemma_mul_is_commutative, lemma_mul_is_distributive_add,
};
use vstd::prelude::*;

use super::units::{BaseAtoms, BaseLots, QuoteAtoms, QuoteLots, Ticks};

verus! {

/// Why a [`LotConfig`] was rejected.
#[derive(Copy, Clone, Debug, PartialEq, Eq, Structural)]
pub enum LotConfigError {
    /// `base_lots_per_base_unit` was zero.
    ZeroBaseLotsPerBaseUnit,
    /// `tick_size_in_quote_lots_per_base_unit` was zero.
    ZeroTickSize,
    /// `base_atoms_per_base_lot` was zero.
    ZeroBaseAtomsPerBaseLot,
    /// `quote_atoms_per_quote_lot` was zero.
    ZeroQuoteAtomsPerQuoteLot,
    /// Tick size is not a multiple of `base_lots_per_base_unit`, so some fills would
    /// truncate. See the [module docs](self#the-exactness-invariant).
    TickSizeNotDivisibleByBaseLotsPerBaseUnit,
}

impl LotConfigError {
    /// The name of the variant.
    pub open spec fn variant(self) -> Seq<char> {
        match self {
            LotConfigError::ZeroBaseLotsPerBaseUnit => "ZeroBaseLotsPerBaseUnit"@,
            LotConfigError::ZeroTickSize => "ZeroTickSize"@,
            LotConfigError::ZeroBaseAtomsPerBaseLot => "ZeroBaseAtomsPerBaseLot"@,
            LotConfigError::ZeroQuoteAtomsPerQuoteLot => "ZeroQuoteAtomsPerQuoteLot"@,
            LotConfigError::TickSizeNotDivisibleByBaseLotsPerBaseUnit => {
                "TickSizeNotDivisibleByBaseLotsPerBaseUnit"@
            },
        }
    }

    /// The name of the variant.
    pub fn name(&self) -> (name: &'static str)
        ensures
            name@ == self.variant(),
    {
        match self {
            LotConfigError::ZeroBaseLotsPerBaseUnit => "ZeroBaseLotsPerBaseUnit",
            LotConfigError::ZeroTickSize => "ZeroTickSize",
            LotConfigError::ZeroBaseAtomsPerBaseLot => "ZeroBaseAtomsPerBaseLot",
            LotConfigError::ZeroQuoteAtomsPerQuoteLot => "ZeroQuoteAtomsPerQuoteLot",
            LotConfigError::TickSizeNotDivisibleByBaseLotsPerBaseUnit => {
                "TickSizeNotDivisibleByBaseLotsPerBaseUnit"
            },
        }
    }

    /// What went wrong, in words.
    pub open spec fn text(self) -> Seq<char> {
        match self {
            LotConfigError::ZeroBaseLotsPerBaseUnit => "base_lots_per_base_unit must be non-zero"@,
            LotConfigError::ZeroTickSize => {
                "tick_size_in_quote_lots_per_base_unit must be non-zero"@
            },
            LotConfigError::ZeroBaseAtomsPerBaseLot => "base_atoms_per_base_lot must be non-zero"@,
            LotConfigError::ZeroQuoteAtomsPerQuoteLot => {
                "quote_atoms_per_quote_lot must be non-zero"@
            },
            LotConfigError::TickSizeNotDivisibleByBaseLotsPerBaseUnit => {
                "tick size must be a multiple of base_lots_per_base_unit"@
            },
        }
    }

    /// What went wrong, in words.
    pub fn message(&self) -> (message: &'static str)
        ensures
            message@ == self.text(),
    {
        match self {
            LotConfigError::ZeroBaseLotsPerBaseUnit => "base_lots_per_base_unit must be non-zero",
            LotConfigError::ZeroTickSize => {
                "tick_size_in_quote_lots_per_base_unit must be non-zero"
            },
            LotConfigError::ZeroBaseAtomsPerBaseLot => "base_atoms_per_base_lot must be non-zero",
            LotConfigError::ZeroQuoteAtomsPerQuoteLot => {
                "quote_atoms_per_quote_lot must be non-zero"
            },
            LotConfigError::TickSizeNotDivisibleByBaseLotsPerBaseUnit => {
                "tick size must be a multiple of base_lots_per_base_unit"
            },
        }
    }
}

/// The immutable lot/tick geometry of one market.
///
/// A config read out of account bytes has not been through [`LotConfig::new`], so its
/// reader must call [`LotConfig::validate`] once rather than trust the bytes.
#[derive(Copy, Clone, Debug, PartialEq, Eq, Structural)]
pub struct LotConfig {
    /// Base lots per whole base unit (`10^base_decimals` atoms). For a SOL market with
    /// a 0.001 SOL minimum size, this is `1_000`.
    pub base_lots_per_base_unit: u64,
    /// One tick, in quote lots per base unit. Must be a multiple of
    /// `base_lots_per_base_unit`.
    pub tick_size_in_quote_lots_per_base_unit: u64,
    /// Base-token atoms per base lot.
    pub base_atoms_per_base_lot: u64,
    /// Quote-token atoms per quote lot.
    pub quote_atoms_per_quote_lot: u64,
}

impl Default for LotConfig {
    fn default() -> (config: Self)
        ensures
            config == (LotConfig {
                base_lots_per_base_unit: 0,
                tick_size_in_quote_lots_per_base_unit: 0,
                base_atoms_per_base_lot: 0,
                quote_atoms_per_quote_lot: 0,
            }),
    {
        LotConfig {
            base_lots_per_base_unit: 0,
            tick_size_in_quote_lots_per_base_unit: 0,
            base_atoms_per_base_lot: 0,
            quote_atoms_per_quote_lot: 0,
        }
    }
}

impl LotConfig {
    /// The first thing wrong with this geometry.
    pub open spec fn flaw(self) -> Option<LotConfigError> {
        if self.base_lots_per_base_unit == 0 {
            Some(LotConfigError::ZeroBaseLotsPerBaseUnit)
        } else if self.tick_size_in_quote_lots_per_base_unit == 0 {
            Some(LotConfigError::ZeroTickSize)
        } else if self.base_atoms_per_base_lot == 0 {
            Some(LotConfigError::ZeroBaseAtomsPerBaseLot)
        } else if self.quote_atoms_per_quote_lot == 0 {
            Some(LotConfigError::ZeroQuoteAtomsPerQuoteLot)
        } else if self.tick_size_in_quote_lots_per_base_unit % self.base_lots_per_base_unit != 0 {
            Some(LotConfigError::TickSizeNotDivisibleByBaseLotsPerBaseUnit)
        } else {
            None
        }
    }

    /// Nothing is wrong with this geometry.
    pub open spec fn is_valid(self) -> bool {
        self.flaw() is None
    }

    /// Quote lots per base lot per tick.
    pub open spec fn rate(self) -> int {
        self.tick_size_in_quote_lots_per_base_unit as int / self.base_lots_per_base_unit as int
    }

    /// The quote lots that one base lot costs at `price`.
    pub open spec fn unit_cost(self, price: Ticks) -> int {
        price.0 * self.rate()
    }

    /// The quote value of `size` at `price`, however large.
    pub open spec fn value(self, price: Ticks, size: BaseLots) -> int {
        self.unit_cost(price) * size.0
    }

    /// Builds and validates a market's geometry.
    ///
    /// # Errors
    ///
    /// [`LotConfigError`] if any parameter is zero, or if the tick size violates the
    /// [exactness invariant](self#the-exactness-invariant).
    pub fn new(
        base_lots_per_base_unit: u64,
        tick_size_in_quote_lots_per_base_unit: u64,
        base_atoms_per_base_lot: u64,
        quote_atoms_per_quote_lot: u64,
    ) -> (result: Result<Self, LotConfigError>)
        ensures
            ({
                let config = LotConfig {
                    base_lots_per_base_unit,
                    tick_size_in_quote_lots_per_base_unit,
                    base_atoms_per_base_lot,
                    quote_atoms_per_quote_lot,
                };
                result == match config.flaw() {
                    None => Ok::<LotConfig, LotConfigError>(config),
                    Some(e) => Err::<LotConfig, LotConfigError>(e),
                }
            }),
    {
        let config = LotConfig {
            base_lots_per_base_unit,
            tick_size_in_quote_lots_per_base_unit,
            base_atoms_per_base_lot,
            quote_atoms_per_quote_lot,
        };
        match config.validate() {
            Ok(()) => Ok(config),
            Err(error) => Err(error),
        }
    }

    /// Re-checks every invariant. Required after reading a config out of account bytes.
    ///
    /// # Errors
    ///
    /// The first [`LotConfigError`] found.
    pub fn validate(&self) -> (result: Result<(), LotConfigError>)
        ensures
            result == match self.flaw() {
                None => Ok::<(), LotConfigError>(()),
                Some(e) => Err::<(), LotConfigError>(e),
            },
    {
        if self.base_lots_per_base_unit == 0 {
            return Err(LotConfigError::ZeroBaseLotsPerBaseUnit);
        }
        if self.tick_size_in_quote_lots_per_base_unit == 0 {
            return Err(LotConfigError::ZeroTickSize);
        }
        if self.base_atoms_per_base_lot == 0 {
            return Err(LotConfigError::ZeroBaseAtomsPerBaseLot);
        }
        if self.quote_atoms_per_quote_lot == 0 {
            return Err(LotConfigError::ZeroQuoteAtomsPerQuoteLot);
        }
        if self.tick_size_in_quote_lots_per_base_unit % self.base_lots_per_base_unit != 0 {
            return Err(LotConfigError::TickSizeNotDivisibleByBaseLotsPerBaseUnit);
        }
        Ok(())
    }

    /// The value of one base lot at a price of one tick.
    ///
    /// Exact by the [config invariant](self#the-exactness-invariant), and the only
    /// conversion constant the matching engine needs on the hot path.
    pub fn quote_lots_per_base_lot_per_tick(&self) -> (rate: u64)
        requires
            self.base_lots_per_base_unit > 0,
        ensures
            rate == self.rate(),
    {
        self.tick_size_in_quote_lots_per_base_unit / self.base_lots_per_base_unit
    }

    /// The quote value of filling `size` at `price`.
    ///
    /// Returns `None` on overflow: aggregators legitimately probe absurd sizes, and that
    /// should reject the order rather than revert the caller's whole transaction.
    pub fn quote_lots_for(&self, price: Ticks, size: BaseLots) -> (value: Option<QuoteLots>)
        requires
            self.base_lots_per_base_unit > 0,
        ensures
            value == (if self.value(price, size) <= u64::MAX {
                Some(QuoteLots(self.value(price, size) as u64))
            } else {
                None
            }),
    {
        let per_lot = self.quote_lots_per_base_lot_per_tick() as u128;
        proof {
            lemma_mul_inequality(price.0 as int, u64::MAX as int, per_lot as int);
            lemma_mul_inequality(per_lot as int, u64::MAX as int, u64::MAX as int);
            lemma_mul_is_commutative(u64::MAX as int, per_lot as int);
            assert(u64::MAX * u64::MAX <= u128::MAX);
            assert(0 <= price.0 * per_lot) by (nonlinear_arith)
                requires
                    0 <= price.0,
                    0 <= per_lot,
            ;
        }
        let unit_value = price.0 as u128 * per_lot;
        let total = match unit_value.checked_mul(size.0 as u128) {
            Some(total) => total,
            None => {
                return None;
            },
        };
        if total > u64::MAX as u128 {
            return None;
        }
        Some(QuoteLots(total as u64))
    }

    /// The largest whole size buyable at `price` with `budget`.
    ///
    /// Rounds down, so the result always costs at most `budget`. `None` if `price` is
    /// zero (size would be unbounded).
    pub fn base_lots_for(&self, price: Ticks, budget: QuoteLots) -> (size: Option<BaseLots>)
        requires
            self.base_lots_per_base_unit > 0,
        ensures
            size == (if self.unit_cost(price) == 0 {
                None
            } else {
                Some(BaseLots((budget.0 as int / self.unit_cost(price)) as u64))
            }),
            match size {
                Some(lots) => lots.0 == budget.0 as int / self.unit_cost(price),
                None => true,
            },
    {
        let per_lot = self.quote_lots_per_base_lot_per_tick() as u128;
        proof {
            lemma_mul_inequality(price.0 as int, u64::MAX as int, per_lot as int);
            lemma_mul_inequality(per_lot as int, u64::MAX as int, u64::MAX as int);
            lemma_mul_is_commutative(u64::MAX as int, per_lot as int);
            assert(u64::MAX * u64::MAX <= u128::MAX);
            assert(0 <= price.0 * per_lot) by (nonlinear_arith)
                requires
                    0 <= price.0,
                    0 <= per_lot,
            ;
        }
        let cost_per_base_lot = price.0 as u128 * per_lot;
        if cost_per_base_lot == 0 {
            return None;
        }
        let size = budget.0 as u128 / cost_per_base_lot;
        proof {
            assert(budget.0 as int / cost_per_base_lot as int <= budget.0) by (nonlinear_arith)
                requires
                    cost_per_base_lot >= 1,
                    budget.0 >= 0,
            ;
        }
        Some(BaseLots(size as u64))
    }

    /// Base lots to raw atoms. `None` on overflow.
    pub fn base_atoms(&self, lots: BaseLots) -> (atoms: Option<BaseAtoms>)
        ensures
            atoms == (if lots.0 * self.base_atoms_per_base_lot <= u64::MAX {
                Some(BaseAtoms((lots.0 * self.base_atoms_per_base_lot) as u64))
            } else {
                None
            }),
    {
        match lots.0.checked_mul(self.base_atoms_per_base_lot) {
            Some(value) => Some(BaseAtoms(value)),
            None => None,
        }
    }

    /// Quote lots to raw atoms. `None` on overflow.
    pub fn quote_atoms(&self, lots: QuoteLots) -> (atoms: Option<QuoteAtoms>)
        ensures
            atoms == (if lots.0 * self.quote_atoms_per_quote_lot <= u64::MAX {
                Some(QuoteAtoms((lots.0 * self.quote_atoms_per_quote_lot) as u64))
            } else {
                None
            }),
    {
        match lots.0.checked_mul(self.quote_atoms_per_quote_lot) {
            Some(value) => Some(QuoteAtoms(value)),
            None => None,
        }
    }

    /// Raw atoms to base lots, rounding down. Any remainder is dust that stays with the
    /// depositor.
    pub fn base_lots_from_atoms(&self, atoms: BaseAtoms) -> (lots: BaseLots)
        requires
            self.base_atoms_per_base_lot > 0,
        ensures
            lots.0 == atoms.0 as int / self.base_atoms_per_base_lot as int,
    {
        BaseLots(atoms.0 / self.base_atoms_per_base_lot)
    }

    /// Raw atoms to quote lots, rounding down.
    pub fn quote_lots_from_atoms(&self, atoms: QuoteAtoms) -> (lots: QuoteLots)
        requires
            self.quote_atoms_per_quote_lot > 0,
        ensures
            lots.0 == atoms.0 as int / self.quote_atoms_per_quote_lot as int,
    {
        QuoteLots(atoms.0 / self.quote_atoms_per_quote_lot)
    }
}

// ---------------------------------------------------------------------------------
// Laws
// ---------------------------------------------------------------------------------

/// Once the four parameters are non-zero, a geometry is admissible exactly if the tick
/// size is a whole multiple of `base_lots_per_base_unit`.
pub proof fn law_admissible_is_divisible(config: LotConfig)
    requires
        config.base_lots_per_base_unit > 0,
        config.tick_size_in_quote_lots_per_base_unit > 0,
        config.base_atoms_per_base_lot > 0,
        config.quote_atoms_per_quote_lot > 0,
    ensures
        config.is_valid() <==> config.tick_size_in_quote_lots_per_base_unit
            % config.base_lots_per_base_unit == 0,
{
}

/// A geometry is admissible exactly if none of its four parameters is zero and a whole
/// number of quote lots is a tick's worth of each base lot. Otherwise the first of these
/// that fails is what is reported.
pub proof fn law_flaws_are_named(config: LotConfig)
    ensures
        config.is_valid() <==> config.flaw() is None,
        match config.flaw() {
            Some(LotConfigError::ZeroBaseLotsPerBaseUnit) => config.base_lots_per_base_unit == 0,
            Some(LotConfigError::ZeroTickSize) => {
                &&& config.base_lots_per_base_unit > 0
                &&& config.tick_size_in_quote_lots_per_base_unit == 0
            },
            Some(LotConfigError::ZeroBaseAtomsPerBaseLot) => {
                &&& config.base_lots_per_base_unit > 0
                &&& config.tick_size_in_quote_lots_per_base_unit > 0
                &&& config.base_atoms_per_base_lot == 0
            },
            Some(LotConfigError::ZeroQuoteAtomsPerQuoteLot) => {
                &&& config.base_lots_per_base_unit > 0
                &&& config.tick_size_in_quote_lots_per_base_unit > 0
                &&& config.base_atoms_per_base_lot > 0
                &&& config.quote_atoms_per_quote_lot == 0
            },
            Some(LotConfigError::TickSizeNotDivisibleByBaseLotsPerBaseUnit) => {
                &&& config.base_lots_per_base_unit > 0
                &&& config.tick_size_in_quote_lots_per_base_unit > 0
                &&& config.base_atoms_per_base_lot > 0
                &&& config.quote_atoms_per_quote_lot > 0
                &&& forall|n: int|
                    config.tick_size_in_quote_lots_per_base_unit != #[trigger] (n
                        * config.base_lots_per_base_unit)
            },
            None => {
                &&& config.base_lots_per_base_unit > 0
                &&& config.tick_size_in_quote_lots_per_base_unit > 0
                &&& config.base_atoms_per_base_lot > 0
                &&& config.quote_atoms_per_quote_lot > 0
                &&& config.tick_size_in_quote_lots_per_base_unit == config.rate()
                    * config.base_lots_per_base_unit
            },
        },
{
    let t = config.tick_size_in_quote_lots_per_base_unit as int;
    let b = config.base_lots_per_base_unit as int;
    if b > 0 {
        lemma_fundamental_div_mod(t, b);
        lemma_mul_is_commutative(b, t / b);
        assert forall|n: int| t == #[trigger] (n * b) implies t % b == 0 by {
            lemma_fundamental_div_mod_converse(t, b, n, 0);
        }
    }
}

/// Folding the division changes nothing: the unfolded formula divides without a
/// remainder, for every price and size, and gives the same value.
pub proof fn law_fills_are_exact(config: LotConfig, price: Ticks, size: BaseLots)
    requires
        config.is_valid(),
    ensures
        (price.0 * config.tick_size_in_quote_lots_per_base_unit * size.0)
            % config.base_lots_per_base_unit as int == 0,
        (price.0 * config.tick_size_in_quote_lots_per_base_unit * size.0)
            / config.base_lots_per_base_unit as int == config.value(price, size),
{
    let t = config.tick_size_in_quote_lots_per_base_unit as int;
    let b = config.base_lots_per_base_unit as int;
    let p = price.0 as int;
    let s = size.0 as int;
    let r = config.rate();
    lemma_fundamental_div_mod(t, b);
    assert(t == b * r);
    let v = config.value(price, size);
    assert(p * t * s == v * b) by (nonlinear_arith)
        requires
            t == b * r,
            v == (p * r) * s,
    ;
    lemma_fundamental_div_mod_converse(p * t * s, b, v, 0);
}

/// A larger order, or one at a higher price, is never worth less.
pub proof fn law_value_is_monotonic(
    config: LotConfig,
    price: Ticks,
    higher: Ticks,
    size: BaseLots,
    larger: BaseLots,
)
    requires
        config.base_lots_per_base_unit > 0,
        price.0 <= higher.0,
        size.0 <= larger.0,
    ensures
        config.value(price, size) <= config.value(higher, larger),
{
    lemma_rate_is_natural(config);
    let r = config.rate();
    let (p, q, s, l) = (price.0 as int, higher.0 as int, size.0 as int, larger.0 as int);
    assert((p * r) * s <= (q * r) * l) by (nonlinear_arith)
        requires
            0 <= p <= q,
            0 <= s <= l,
            0 <= r,
    ;
}

/// A leg with zero price or zero size is worth zero, whatever the other is.
pub proof fn law_zero_is_worthless(config: LotConfig, price: Ticks, size: BaseLots)
    ensures
        config.value(Ticks(0), size) == 0,
        config.value(price, BaseLots(0)) == 0,
{
    let r = config.rate();
    let s = size.0 as int;
    assert((0 * r) * s == 0) by (nonlinear_arith);
}

/// Splitting a fill at one price splits its value, with nothing lost or gained.
pub proof fn law_value_is_additive(config: LotConfig, price: Ticks, a: BaseLots, b: BaseLots)
    requires
        a.0 + b.0 <= u64::MAX,
    ensures
        config.value(price, BaseLots((a.0 + b.0) as u64)) == config.value(price, a)
            + config.value(price, b),
{
    lemma_mul_is_distributive_add(config.unit_cost(price), a.0 as int, b.0 as int);
}

/// A budget buys a size that costs at most the budget, and one more lot would cost more.
pub proof fn law_budget_is_tight(config: LotConfig, price: Ticks, budget: QuoteLots)
    requires
        config.base_lots_per_base_unit > 0,
        config.unit_cost(price) != 0,
    ensures
        ({
            let size = budget.0 as int / config.unit_cost(price);
            &&& 0 <= size <= u64::MAX
            &&& config.value(price, BaseLots(size as u64)) <= budget.0
            &&& config.unit_cost(price) * (size + 1) > budget.0
        }),
{
    lemma_rate_is_natural(config);
    let p = price.0 as int;
    let r = config.rate();
    let c = config.unit_cost(price);
    let m = budget.0 as int;
    assert(c >= 0) by (nonlinear_arith)
        requires
            c == p * r,
            p >= 0,
            r >= 0,
    ;
    lemma_fundamental_div_mod(m, c);
    let size = m / c;
    assert(0 <= size <= m && c * (size + 1) > m) by (nonlinear_arith)
        requires
            m == c * size + m % c,
            0 <= m % c < c,
            m >= 0,
            c >= 1,
    ;
}

/// Lots survive the trip through base atoms and back.
pub proof fn law_base_lots_round_trip(config: LotConfig, lots: BaseLots)
    requires
        config.base_atoms_per_base_lot > 0,
    ensures
        (lots.0 * config.base_atoms_per_base_lot) / config.base_atoms_per_base_lot as int == lots.0,
{
    lemma_div_by_multiple(lots.0 as int, config.base_atoms_per_base_lot as int);
}

/// Lots survive the trip through quote atoms and back.
pub proof fn law_quote_lots_round_trip(config: LotConfig, lots: QuoteLots)
    requires
        config.quote_atoms_per_quote_lot > 0,
    ensures
        (lots.0 * config.quote_atoms_per_quote_lot) / config.quote_atoms_per_quote_lot as int
            == lots.0,
{
    lemma_div_by_multiple(lots.0 as int, config.quote_atoms_per_quote_lot as int);
}

/// Atoms that go down to base lots and back never gain value, and lose less than a lot.
pub proof fn law_base_atoms_lose_only_dust(config: LotConfig, atoms: BaseAtoms)
    requires
        config.base_atoms_per_base_lot > 0,
    ensures
        ({
            let back = (atoms.0 as int / config.base_atoms_per_base_lot as int)
                * config.base_atoms_per_base_lot;
            &&& 0 <= back <= atoms.0
            &&& atoms.0 - back < config.base_atoms_per_base_lot
        }),
{
    lemma_dust(atoms.0 as int, config.base_atoms_per_base_lot as int);
}

/// Atoms that go down to quote lots and back never gain value, and lose less than a lot.
pub proof fn law_quote_atoms_lose_only_dust(config: LotConfig, atoms: QuoteAtoms)
    requires
        config.quote_atoms_per_quote_lot > 0,
    ensures
        ({
            let back = (atoms.0 as int / config.quote_atoms_per_quote_lot as int)
                * config.quote_atoms_per_quote_lot;
            &&& 0 <= back <= atoms.0
            &&& atoms.0 - back < config.quote_atoms_per_quote_lot
        }),
{
    lemma_dust(atoms.0 as int, config.quote_atoms_per_quote_lot as int);
}

proof fn lemma_dust(atoms: int, per_lot: int)
    requires
        0 <= atoms,
        0 < per_lot,
    ensures
        0 <= (atoms / per_lot) * per_lot <= atoms,
        atoms - (atoms / per_lot) * per_lot < per_lot,
{
    lemma_fundamental_div_mod(atoms, per_lot);
    lemma_mul_is_commutative(per_lot, atoms / per_lot);
    assert(0 <= (atoms / per_lot) * per_lot) by (nonlinear_arith)
        requires
            0 <= atoms,
            0 < per_lot,
    ;
}

/// A value is never negative.
pub proof fn lemma_value_is_natural(config: LotConfig, price: Ticks, size: BaseLots)
    requires
        config.base_lots_per_base_unit > 0,
    ensures
        config.value(price, size) >= 0,
{
    lemma_rate_is_natural(config);
    let r = config.rate();
    let (p, s) = (price.0 as int, size.0 as int);
    assert((p * r) * s >= 0) by (nonlinear_arith)
        requires
            p >= 0,
            s >= 0,
            r >= 0,
    ;
}

proof fn lemma_rate_is_natural(config: LotConfig)
    requires
        config.base_lots_per_base_unit > 0,
    ensures
        config.rate() >= 0,
{
    let t = config.tick_size_in_quote_lots_per_base_unit as int;
    let b = config.base_lots_per_base_unit as int;
    assert(t / b >= 0) by (nonlinear_arith)
        requires
            t >= 0,
            b > 0,
    ;
}

} // verus!
