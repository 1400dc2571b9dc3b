//! Order identity, side and expiry.

use clob::order::{FIFOOrderId, RestingOrder, Side, MAX_SEQUENCE_NUMBER};
use clob::quantities::{BaseLots, Ticks};

#[test]
fn side_and_sequence_round_trip() {
    for sequence in [0u64, 1, 12_345, MAX_SEQUENCE_NUMBER] {
        for side in [Side::Bid, Side::Ask] {
            let id = FIFOOrderId::new(side, Ticks(100), sequence);
            assert_eq!(id.side(), side);
            assert_eq!(id.sequence_number(), sequence);
        }
    }
}

#[test]
fn opposite_sides_never_share_a_stored_sequence() {
    let bid = FIFOOrderId::new(Side::Bid, Ticks(100), 7);
    let ask = FIFOOrderId::new(Side::Ask, Ticks(100), 7);
    assert_ne!(bid.order_sequence_number, ask.order_sequence_number);
}

#[test]
fn ascending_order_prioritises_asks_correctly() {
    // Best ask = minimum: lowest price, oldest first within a price.
    let mut ids = [
        FIFOOrderId::new(Side::Ask, Ticks(101), 1),
        FIFOOrderId::new(Side::Ask, Ticks(100), 9),
        FIFOOrderId::new(Side::Ask, Ticks(100), 4),
    ];
    ids.sort();
    assert_eq!(ids[0].price_in_ticks, Ticks(100));
    assert_eq!(ids[0].sequence_number(), 4);
    assert_eq!(ids[1].sequence_number(), 9);
    assert_eq!(ids[2].price_in_ticks, Ticks(101));
}

#[test]
fn ascending_order_prioritises_bids_correctly() {
    // Best bid = maximum: highest price, oldest first within a price.
    let mut ids = [
        FIFOOrderId::new(Side::Bid, Ticks(99), 1),
        FIFOOrderId::new(Side::Bid, Ticks(100), 9),
        FIFOOrderId::new(Side::Bid, Ticks(100), 4),
    ];
    ids.sort();
    assert_eq!(ids[2].price_in_ticks, Ticks(100));
    assert_eq!(ids[2].sequence_number(), 4);
    assert_eq!(ids[1].sequence_number(), 9);
    assert_eq!(ids[0].price_in_ticks, Ticks(99));
}

#[test]
fn zero_bounds_mean_good_till_cancelled() {
    assert!(!RestingOrder::new(0, BaseLots(10)).is_expired(u64::MAX, u64::MAX));
}

#[test]
fn expiry_bounds_are_independent() {
    let by_slot = RestingOrder {
        last_valid_slot: 100,
        ..RestingOrder::new(0, BaseLots(10))
    };
    assert!(!by_slot.is_expired(100, u64::MAX));
    assert!(by_slot.is_expired(101, 0));

    let by_time = RestingOrder {
        last_valid_unix_timestamp_in_seconds: 100,
        ..RestingOrder::new(0, BaseLots(10))
    };
    assert!(!by_time.is_expired(u64::MAX, 100));
    assert!(by_time.is_expired(0, 101));
}

#[test]
fn opposite_is_an_involution() {
    assert_eq!(Side::Bid.opposite(), Side::Ask);
    assert_eq!(Side::Ask.opposite().opposite(), Side::Ask);
}

#[test]
fn a_stored_sequence_decodes_back() {
    let bid = FIFOOrderId::new(Side::Bid, Ticks(5), 3);
    let again = FIFOOrderId::from_encoded(bid.price_in_ticks, bid.order_sequence_number);
    assert_eq!(bid, again);
    assert_eq!(bid.order_sequence_number, u64::MAX - 3);
    assert!(Side::Bid.is_bid() && !Side::Ask.is_bid());
}
