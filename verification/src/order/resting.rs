//! The mutable half of a resting order.

use vstd::prelude::*;

use crate::quantities::BaseLots;
use crate::tree::TreeValue;

verus! {

/// A resting order's mutable state.
///
/// Carries neither price nor side — those live in the [`FIFOOrderId`] key. Since nothing
/// here participates in the ordering, a partial fill can shrink an order in place
/// without touching tree structure.
///
/// `trader_index` is a seat index rather than a trader's identity: 8 bytes instead of 32,
/// and it makes "cancel everything for this trader" an integer comparison during a tree
/// walk.
///
/// [`FIFOOrderId`]: crate::order::FIFOOrderId
#[derive(Copy, Clone, Debug, PartialEq, Eq, Structural)]
pub struct RestingOrder {
    /// Index of the owning trader's seat in the market's trader table.
    pub trader_index: u64,
    /// Remaining unfilled size. An order at zero is removed rather than left resting.
    pub num_base_lots: BaseLots,
    /// Last slot at which this order is valid; `0` means no slot expiry.
    pub last_valid_slot: u64,
    /// Last Unix timestamp (seconds) at which this order is valid; `0` means no
    /// timestamp expiry.
    pub last_valid_unix_timestamp_in_seconds: u64,
}

impl RestingOrder {
    /// A good-till-cancelled order.
    pub open spec fn lasting(trader_index: u64, num_base_lots: BaseLots) -> Self {
        RestingOrder {
            trader_index,
            num_base_lots,
            last_valid_slot: 0,
            last_valid_unix_timestamp_in_seconds: 0,
        }
    }

    /// A good-till-cancelled order.
    pub fn new(trader_index: u64, num_base_lots: BaseLots) -> (order: Self)
        ensures
            order == RestingOrder::lasting(trader_index, num_base_lots),
    {
        RestingOrder {
            trader_index,
            num_base_lots,
            last_valid_slot: 0,
            last_valid_unix_timestamp_in_seconds: 0,
        }
    }

    /// Whether this order has expired.
    ///
    /// The two bounds are independent, and a zero bound means "no expiry on this
    /// dimension" — so an order with both bounds zero never expires.
    pub fn is_expired(&self, slot: u64, unix_timestamp_in_seconds: u64) -> (expired: bool)
        ensures
            expired == ({
                ||| self.last_valid_slot != 0 && slot > self.last_valid_slot
                ||| self.last_valid_unix_timestamp_in_seconds != 0 && unix_timestamp_in_seconds
                    > self.last_valid_unix_timestamp_in_seconds
            }),
    {
        (self.last_valid_slot != 0 && slot > self.last_valid_slot) || (
        self.last_valid_unix_timestamp_in_seconds != 0 && unix_timestamp_in_seconds
            > self.last_valid_unix_timestamp_in_seconds)
    }
}

impl Default for RestingOrder {
    fn default() -> (order: Self)
        ensures
            order == RestingOrder::lasting(0, BaseLots(0)),
    {
        RestingOrder::new(0, BaseLots(0))
    }
}

impl TreeValue for RestingOrder {
    open spec fn zero() -> Self {
        RestingOrder::lasting(0, BaseLots(0))
    }

    fn zeroed() -> (order: Self) {
        RestingOrder::new(0, BaseLots(0))
    }
}

} // verus!
