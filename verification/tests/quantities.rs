//! Units and lot geometry.

use clob::quantities::{BaseAtoms, BaseLots, LotConfig, LotConfigError, QuoteAtoms, QuoteLots, Ticks};

/// SOL/USDC: SOL has 9 decimals, USDC has 6. Minimum size 0.001 SOL, price
/// granularity $0.001.
fn sol_usdc() -> LotConfig {
    LotConfig::new(1_000, 1_000, 1_000_000, 1).unwrap()
}

#[test]
fn checked_and_saturating_variants_do_not_panic() {
    assert_eq!(BaseLots(u64::MAX).checked_add(BaseLots(1)), None);
    assert_eq!(BaseLots(0).checked_sub(BaseLots(1)), None);
    assert_eq!(BaseLots(0).saturating_sub(BaseLots(1)), BaseLots(0));
    assert_eq!(BaseLots(u64::MAX).saturating_add(BaseLots(1)), BaseLots(u64::MAX));
}

#[test]
fn rejects_indivisible_tick_size() {
    assert_eq!(
        LotConfig::new(1_000, 1_500, 1_000_000, 1),
        Err(LotConfigError::TickSizeNotDivisibleByBaseLotsPerBaseUnit)
    );
}

#[test]
fn rejects_zero_parameters() {
    assert_eq!(
        LotConfig::new(0, 1_000, 1, 1),
        Err(LotConfigError::ZeroBaseLotsPerBaseUnit)
    );
    assert_eq!(LotConfig::new(1_000, 0, 1, 1), Err(LotConfigError::ZeroTickSize));
    assert_eq!(
        LotConfig::new(1_000, 1_000, 0, 1),
        Err(LotConfigError::ZeroBaseAtomsPerBaseLot)
    );
    assert_eq!(
        LotConfig::new(1_000, 1_000, 1, 0),
        Err(LotConfigError::ZeroQuoteAtomsPerQuoteLot)
    );
}

#[test]
fn folded_constant_matches_the_unfolded_formula() {
    let config = sol_usdc();
    let (price, size) = (Ticks(187_500), BaseLots(2_500));

    let folded = config.quote_lots_for(price, size).unwrap();
    let unfolded = (price.0 as u128)
        * (config.tick_size_in_quote_lots_per_base_unit as u128)
        * (size.0 as u128)
        / (config.base_lots_per_base_unit as u128);

    assert_eq!(folded.0 as u128, unfolded);
    // 2.5 SOL at $187.50 = $468.75.
    assert_eq!(folded, QuoteLots(468_750_000));
}

#[test]
fn budget_conversion_never_overspends() {
    let config = sol_usdc();
    let price = Ticks(187_500);
    let budget = QuoteLots(187_500 * 2 - 1);

    let size = config.base_lots_for(price, budget).unwrap();
    assert_eq!(size, BaseLots(1));
    assert!(config.quote_lots_for(price, size).unwrap() <= budget);
}

#[test]
fn overflow_and_zero_price_return_none() {
    let config = sol_usdc();
    assert_eq!(config.quote_lots_for(Ticks(u64::MAX), BaseLots(u64::MAX)), None);
    assert_eq!(config.base_atoms(BaseLots(u64::MAX)), None);
    assert_eq!(config.base_lots_for(Ticks(0), QuoteLots(1)), None);
}

#[test]
fn atom_conversion_rounds_down_to_whole_lots() {
    let config = sol_usdc();
    // The trailing 500 atoms are below one base lot.
    assert_eq!(config.base_lots_from_atoms(BaseAtoms(1_000_000_500)), BaseLots(1_000));
    assert_eq!(config.base_atoms(BaseLots(1_000)), Some(BaseAtoms(1_000_000_000)));
}

#[test]
fn newtypes_are_byte_identical_to_u64() {
    assert_eq!(core::mem::size_of::<Ticks>(), 8);
    assert_eq!(u64::from(Ticks(1)).to_ne_bytes(), 1u64.to_ne_bytes());
}

#[test]
fn operators_work_within_range() {
    assert_eq!(BaseLots(3) + BaseLots(4), BaseLots(7));
    assert_eq!(QuoteLots(9) - QuoteLots(4), QuoteLots(5));
    assert_eq!(Ticks(6) * 7, Ticks(42));
    assert_eq!(BaseAtoms::from(5), BaseAtoms(5));
    assert_eq!(u64::from(QuoteAtoms(8)), 8);
    assert_eq!(Ticks(3).min(Ticks(5)), Ticks(3));
    assert_eq!(Ticks(3).max(Ticks(5)), Ticks(5));
    assert!(Ticks::default().is_zero());
}

#[test]
fn a_multiple_of_the_base_lots_is_the_only_admissible_tick_size() {
    for tick_size in 1u64..200 {
        let config = LotConfig::new(7, tick_size, 1, 1);
        assert_eq!(config.is_ok(), tick_size % 7 == 0);
    }
}

#[test]
fn budgets_are_tight() {
    let config = sol_usdc();
    for (price, budget) in [(1u64, 0u64), (3, 10), (7, 6), (7, 7), (999, 1_000_000)] {
        let size = config.base_lots_for(Ticks(price), QuoteLots(budget)).unwrap();
        let cost = config.quote_lots_for(Ticks(price), size).unwrap();
        let next = config.quote_lots_for(Ticks(price), size + BaseLots(1)).unwrap();
        assert!(cost.0 <= budget);
        assert!(next.0 > budget);
    }
}

#[test]
fn atoms_round_trip_with_only_dust_lost() {
    let config = LotConfig::new(10, 30, 7, 3).unwrap();
    for atoms in [0u64, 1, 6, 7, 8, 1_000_003] {
        let down = config.base_lots_from_atoms(BaseAtoms(atoms));
        let back = config.base_atoms(down).unwrap();
        assert!(back.0 <= atoms && atoms - back.0 < 7);
        let down = config.quote_lots_from_atoms(QuoteAtoms(atoms));
        let back = config.quote_atoms(down).unwrap();
        assert!(back.0 <= atoms && atoms - back.0 < 3);
    }
    for lots in [0u64, 1, 99] {
        let atoms = config.base_atoms(BaseLots(lots)).unwrap();
        assert_eq!(config.base_lots_from_atoms(atoms), BaseLots(lots));
        let atoms = config.quote_atoms(QuoteLots(lots)).unwrap();
        assert_eq!(config.quote_lots_from_atoms(atoms), QuoteLots(lots));
    }
}

#[test]
fn value_grows_with_price_and_size_and_starts_at_zero() {
    let config = LotConfig::new(10, 30, 1, 1).unwrap();
    assert_eq!(config.quote_lots_per_base_lot_per_tick(), 3);
    assert_eq!(config.quote_lots_for(Ticks(5), BaseLots(7)), Some(QuoteLots(105)));
    assert_eq!(config.quote_lots_for(Ticks(6), BaseLots(7)), Some(QuoteLots(126)));
    assert_eq!(config.quote_lots_for(Ticks(5), BaseLots(8)), Some(QuoteLots(120)));
    assert_eq!(config.quote_lots_for(Ticks(0), BaseLots(8)), Some(QuoteLots(0)));
    assert_eq!(config.quote_lots_for(Ticks(5), BaseLots(0)), Some(QuoteLots(0)));
}

#[test]
fn a_lot_config_error_explains_itself() {
    let error = LotConfig::new(1_000, 1_500, 1, 1).unwrap_err();
    assert_eq!(error.message(), "tick size must be a multiple of base_lots_per_base_unit");
    assert_eq!(
        LotConfigError::ZeroTickSize.message(),
        "tick_size_in_quote_lots_per_base_unit must be non-zero"
    );
}
