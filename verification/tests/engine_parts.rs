//! Fees, packets, seats and the market header.

use clob::engine::{
    EngineError, FeeSchedule, MarketHeader, OrderPacket, TraderKey, TraderState, TraderTable,
    BPS_DENOMINATOR, NO_SEAT,
};
use clob::order::Side;
use clob::quantities::{BaseLots, LotConfig, QuoteLots, Ticks};

type Table = TraderTable<8>;

fn key(byte: u8) -> TraderKey {
    TraderKey([byte; 32])
}

#[test]
fn rates_above_one_hundred_percent_are_rejected() {
    assert!(FeeSchedule::new(BPS_DENOMINATOR).is_ok());
    assert_eq!(
        FeeSchedule::new(BPS_DENOMINATOR + 1),
        Err(EngineError::InvalidFeeRate)
    );
}

#[test]
fn a_free_market_charges_nothing() {
    assert_eq!(FeeSchedule::free().fee_on(QuoteLots(1_000_000)), Ok(QuoteLots(0)));
}

#[test]
fn two_basis_points_of_a_round_number_is_exact() {
    let schedule = FeeSchedule::new(2).unwrap();
    assert_eq!(schedule.fee_on(QuoteLots(1_000_000)), Ok(QuoteLots(200)));
}

#[test]
fn dust_fills_still_pay_something() {
    // Rounding down would make order-splitting a fee-avoidance strategy.
    let schedule = FeeSchedule::new(2).unwrap();
    assert_eq!(schedule.fee_on(QuoteLots(1)), Ok(QuoteLots(1)));
    assert_eq!(schedule.fee_on(QuoteLots(5_001)), Ok(QuoteLots(2)));
}

#[test]
fn the_fee_never_exceeds_the_fill() {
    // Otherwise a taker selling would net a negative amount.
    let schedule = FeeSchedule::new(BPS_DENOMINATOR).unwrap();
    for quote in [0u64, 1, 7, 1_000_000, u64::MAX] {
        assert_eq!(schedule.fee_on(QuoteLots(quote)), Ok(QuoteLots(quote)));
    }
}

#[test]
fn the_largest_fill_at_the_largest_rate_does_not_overflow() {
    let schedule = FeeSchedule::new(BPS_DENOMINATOR).unwrap();
    assert!(schedule.fee_on(QuoteLots(u64::MAX)).is_ok());
}

#[test]
fn an_unchecked_rate_can_overflow() {
    let schedule = FeeSchedule { taker_fee_bps: BPS_DENOMINATOR * 2 };
    assert_eq!(schedule.fee_on(QuoteLots(u64::MAX)), Err(EngineError::Overflow));
    assert_eq!(schedule.validate(), Err(EngineError::InvalidFeeRate));
}

#[test]
fn a_header_has_no_padding() {
    assert_eq!(core::mem::size_of::<MarketHeader>(), 72);
    assert_eq!(core::mem::align_of::<MarketHeader>(), 8);
}

#[test]
fn bad_configuration_is_rejected_at_construction() {
    // 1_500 does not divide evenly into 1_000 base lots per base unit.
    let bad_lots = LotConfig {
        base_lots_per_base_unit: 1_000,
        tick_size_in_quote_lots_per_base_unit: 1_500,
        base_atoms_per_base_lot: 1,
        quote_atoms_per_quote_lot: 1,
    };
    assert!(MarketHeader::new(bad_lots, FeeSchedule::free()).is_err());

    let good_lots = LotConfig::new(1_000, 1_000, 1_000_000, 1).unwrap();
    assert_eq!(
        MarketHeader::new(good_lots, FeeSchedule { taker_fee_bps: 20_000 }),
        Err(EngineError::InvalidFeeRate)
    );
}

#[test]
fn post_only_never_takes_and_ioc_never_posts() {
    let post = OrderPacket::post_only(Side::Bid, Ticks(100), BaseLots(1));
    assert!(post.can_post() && !post.can_take());

    let ioc = OrderPacket::market(Side::Bid, BaseLots(1));
    assert!(ioc.can_take() && !ioc.can_post());

    let limit = OrderPacket::limit(Side::Bid, Ticks(100), BaseLots(1));
    assert!(limit.can_post() && limit.can_take());
}

#[test]
fn a_market_order_has_no_limit_price() {
    assert_eq!(OrderPacket::market(Side::Ask, BaseLots(1)).price_in_ticks(), None);
    assert_eq!(
        OrderPacket::limit(Side::Ask, Ticks(7), BaseLots(1)).price_in_ticks(),
        Some(Ticks(7))
    );
}

#[test]
fn fill_or_kill_requires_the_whole_size() {
    let packet = OrderPacket::fill_or_kill(Side::Bid, Ticks(100), BaseLots(9));
    let OrderPacket::ImmediateOrCancel {
        min_base_lots_to_fill,
        ..
    } = packet
    else {
        panic!("expected an IOC packet");
    };
    assert_eq!(min_base_lots_to_fill, BaseLots(9));
}

#[test]
fn a_packet_knows_its_side_and_size() {
    let packet = OrderPacket::post_only(Side::Ask, Ticks(3), BaseLots(4));
    assert_eq!(packet.side(), Side::Ask);
    assert_eq!(packet.num_base_lots(), BaseLots(4));
}

#[test]
fn locking_conserves_the_total() {
    let mut state = TraderState {
        base_lots_free: BaseLots(100),
        ..Default::default()
    };
    let before = state.total_base_lots();

    state.lock_base(BaseLots(40)).unwrap();

    assert_eq!(state.base_lots_free, BaseLots(60));
    assert_eq!(state.base_lots_locked, BaseLots(40));
    assert_eq!(state.total_base_lots(), before);
}

#[test]
fn locking_more_than_free_is_rejected_and_leaves_state_untouched() {
    let mut state = TraderState {
        base_lots_free: BaseLots(10),
        ..Default::default()
    };

    assert_eq!(
        state.lock_base(BaseLots(11)),
        Err(EngineError::InsufficientBaseFunds)
    );
    assert_eq!(state.base_lots_free, BaseLots(10));
    assert_eq!(state.base_lots_locked, BaseLots(0));
}

#[test]
fn unlock_reverses_lock_exactly() {
    let mut state = TraderState {
        quote_lots_free: QuoteLots(500),
        ..Default::default()
    };

    state.lock_quote(QuoteLots(200)).unwrap();
    state.unlock_quote(QuoteLots(200)).unwrap();

    assert_eq!(state.quote_lots_free, QuoteLots(500));
    assert_eq!(state.quote_lots_locked, QuoteLots(0));
}

#[test]
fn a_seat_is_empty_only_when_both_sides_are_clear() {
    assert!(TraderState::default().is_empty());
    assert!(
        !TraderState {
            base_lots_locked: BaseLots(1),
            ..Default::default()
        }
        .is_empty()
    );
}

#[test]
fn balances_overflow_rather_than_wrap() {
    let mut state = TraderState {
        base_lots_free: BaseLots(u64::MAX),
        base_lots_locked: BaseLots(1),
        quote_lots_free: QuoteLots(u64::MAX),
        quote_lots_locked: QuoteLots(1),
    };
    assert_eq!(state.credit_base(BaseLots(1)), Err(EngineError::Overflow));
    assert_eq!(state.credit_quote(QuoteLots(1)), Err(EngineError::Overflow));
    assert_eq!(state.unlock_base(BaseLots(1)), Err(EngineError::Overflow));
    assert_eq!(state.total_base_lots(), BaseLots(u64::MAX));
    assert_eq!(state.debit_quote(QuoteLots(3)), Ok(()));
    assert_eq!(state.debit_base(BaseLots(u64::MAX)), Ok(()));
    assert_eq!(state.debit_base(BaseLots(1)), Err(EngineError::InsufficientBaseFunds));
    assert_eq!(state.settle_locked_quote(QuoteLots(2)), Err(EngineError::InsufficientQuoteFunds));
    assert_eq!(state.settle_locked_quote(QuoteLots(1)), Ok(()));
    assert_eq!(state.settle_locked_base(BaseLots(9)), Err(EngineError::InsufficientBaseFunds));
}

#[test]
fn claiming_is_idempotent() {
    let mut table = Table::new();

    let first = table.claim_seat(key(1)).unwrap();
    let again = table.claim_seat(key(1)).unwrap();

    assert_eq!(first, again);
    assert_eq!(table.len(), 1);
}

#[test]
fn distinct_traders_get_distinct_seats() {
    let mut table = Table::new();

    let a = table.claim_seat(key(1)).unwrap();
    let b = table.claim_seat(key(2)).unwrap();

    assert_ne!(a, b);
    assert_eq!(table.index_of(&key(1)), a);
    assert_eq!(table.index_of(&key(2)), b);
}

#[test]
fn a_full_table_rejects_new_traders_but_still_serves_existing_ones() {
    let mut table = Table::new();
    for i in 0..8u8 {
        table.claim_seat(key(i)).unwrap();
    }

    assert_eq!(table.claim_seat(key(99)), Err(EngineError::SeatTableFull));
    assert!(table.claim_seat(key(0)).is_ok());
}

#[test]
fn a_seat_holding_funds_cannot_be_released() {
    let mut table = Table::new();
    let index = table.claim_seat(key(1)).unwrap();
    table.state_mut(index).unwrap().base_lots_free = BaseLots(1);

    assert_eq!(table.release_seat(&key(1)), Err(EngineError::SeatNotEmpty));

    table.state_mut(index).unwrap().base_lots_free = BaseLots(0);
    assert!(table.release_seat(&key(1)).is_ok());
    assert_eq!(table.index_of(&key(1)), NO_SEAT);
}

#[test]
fn seat_indices_survive_unrelated_churn() {
    // Resting orders hold a seat index across matches, so this must hold.
    let mut table = Table::new();
    let pinned = table.claim_seat(key(0)).unwrap();

    for i in 1..7u8 {
        table.claim_seat(key(i)).unwrap();
    }
    for i in 1..7u8 {
        table.release_seat(&key(i)).unwrap();
    }

    assert_eq!(table.index_of(&key(0)), pinned);
}

#[test]
fn an_unknown_index_is_reported_rather_than_panicking() {
    let table = Table::new();
    assert_eq!(table.state(NO_SEAT).err(), Some(EngineError::SeatNotFound));
}

#[test]
fn seats_are_walked_in_key_order() {
    let mut table = Table::new();
    for i in [5u8, 2, 9] {
        table.claim_seat(key(i)).unwrap();
    }
    let mut seats = table.iter();
    let mut keys = vec![];
    while let Some((trader, state)) = seats.next() {
        assert!(state.is_empty());
        keys.push(trader.0[0]);
    }
    assert_eq!(keys, vec![2, 5, 9]);
    assert_eq!(table.release_seat(&key(7)), Err(EngineError::SeatNotFound));
    assert_eq!(table.capacity(), 8);
    assert!(!table.is_full() && !table.is_empty());
}
