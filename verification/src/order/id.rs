//! Order identity, and the encoding that makes price-time priority fall out of one
//! ascending order.
//!
//! Both sides want "best price, then oldest", but *best* is opposite: asks want the
//! lowest price, bids the highest. Storing both in ascending `(price, sequence)` order
//! gets asks right and bids wrong twice — wrong on price, and wrong on time, since at
//! the best bid price the maximum entry is the newest order rather than the oldest.
//!
//! The fix is to store bids with a bitwise-inverted sequence number. Under one
//! ascending `(price, stored_sequence)` order:
//!
//! - Best ask = tree **minimum**: lowest price, smallest sequence number within it.
//! - Best bid = tree **maximum**: highest price, largest `!sequence` within it — which
//!   is the *smallest* `sequence`, so again the oldest order.
//!
//! One order therefore gives exact price-time priority on both sides. No side-aware
//! comparator, no second code path.
//!
//! Side comes free: sequence numbers count up from zero, so a real one has its high bit
//! clear and `!sequence` has it set. That bit is an exact side tag. It holds while fewer
//! than `2^63` orders are placed on a market — ~292,000 years at a million per second —
//! so the encoding treats it as an invariant rather than a runtime error.

use vstd::prelude::*;

use super::side::Side;
use crate::quantities::Ticks;
use crate::tree::TreeKey;

verus! {

/// Highest sequence number that does not alias the side tag.
pub const MAX_SEQUENCE_NUMBER: u64 = 0x7fff_ffff_ffff_ffff;

/// The identity of a resting order: price plus a sequence number encoding both arrival
/// order and side.
///
/// Field order is load-bearing. The derived [`Ord`] compares `price_in_ticks` first and
/// `order_sequence_number` second which — with the bid-side inversion described in the
/// [module docs](self) — *is* price-time priority.
#[derive(Copy, Clone, Debug, PartialEq, Eq, PartialOrd, Ord, Hash, Structural)]
pub struct FIFOOrderId {
    /// Limit price, in ticks. Compared first, ascending.
    pub price_in_ticks: Ticks,
    /// The *stored* sequence number: the raw counter for asks, its complement for bids.
    /// Use [`FIFOOrderId::sequence_number`] and [`FIFOOrderId::side`] to decode.
    pub order_sequence_number: u64,
}

impl FIFOOrderId {
    /// The id of an order with this raw sequence number.
    pub open spec fn encoded(side: Side, price: Ticks, sequence: u64) -> Self {
        FIFOOrderId {
            price_in_ticks: price,
            order_sequence_number: match side {
                Side::Bid => (u64::MAX - sequence) as u64,
                Side::Ask => sequence,
            },
        }
    }

    /// The side the stored sequence number is tagged with.
    pub open spec fn tagged_side(self) -> Side {
        if self.order_sequence_number > MAX_SEQUENCE_NUMBER {
            Side::Bid
        } else {
            Side::Ask
        }
    }

    /// The raw sequence number.
    pub open spec fn raw_sequence(self) -> u64 {
        match self.tagged_side() {
            Side::Bid => (u64::MAX - self.order_sequence_number) as u64,
            Side::Ask => self.order_sequence_number,
        }
    }

    /// This order comes before `other` in the queue of `side`: its price is better, or
    /// the prices are equal and it is older.
    pub open spec fn outranks(self, other: Self, side: Side) -> bool {
        ||| match side {
            Side::Bid => self.price_in_ticks.0 > other.price_in_ticks.0,
            Side::Ask => self.price_in_ticks.0 < other.price_in_ticks.0,
        }
        ||| self.price_in_ticks == other.price_in_ticks && self.raw_sequence()
            < other.raw_sequence()
    }

    /// Builds an order ID, applying the side encoding to `sequence_number`, which is the
    /// market's raw counter value.
    pub fn new(side: Side, price_in_ticks: Ticks, sequence_number: u64) -> (id: Self)
        requires
            sequence_number <= MAX_SEQUENCE_NUMBER,
        ensures
            id == FIFOOrderId::encoded(side, price_in_ticks, sequence_number),
            id.tagged_side() == side,
            id.raw_sequence() == sequence_number,
    {
        proof {
            lemma_complement(sequence_number);
        }
        FIFOOrderId {
            price_in_ticks,
            order_sequence_number: match side {
                Side::Bid => !sequence_number,
                Side::Ask => sequence_number,
            },
        }
    }

    /// Rebuilds an ID from an already-encoded sequence number, as sent by a client or
    /// read back from account bytes.
    pub fn from_encoded(price_in_ticks: Ticks, order_sequence_number: u64) -> (id: Self)
        ensures
            id == (FIFOOrderId { price_in_ticks, order_sequence_number }),
    {
        FIFOOrderId { price_in_ticks, order_sequence_number }
    }

    /// The side this order rests on, read from the high bit.
    pub fn side(&self) -> (side: Side)
        ensures
            side == self.tagged_side(),
    {
        proof {
            let stored = self.order_sequence_number;
            assert((stored >> 63 == 1) == (stored > 0x7fff_ffff_ffff_ffff)) by (bit_vector);
        }
        if self.order_sequence_number >> 63 == 1 {
            Side::Bid
        } else {
            Side::Ask
        }
    }

    /// The raw counter value, with the encoding undone.
    ///
    /// [`crate::book::OrderBook`] issues both sides from one counter, so raw sequence
    /// numbers are unique across a whole market, not just within a side.
    pub fn sequence_number(&self) -> (sequence: u64)
        ensures
            sequence == self.raw_sequence(),
    {
        proof {
            lemma_complement(self.order_sequence_number);
        }
        match self.side() {
            Side::Bid => !self.order_sequence_number,
            Side::Ask => self.order_sequence_number,
        }
    }
}

impl Default for FIFOOrderId {
    fn default() -> (id: Self)
        ensures
            id == (FIFOOrderId { price_in_ticks: Ticks(0), order_sequence_number: 0 }),
    {
        FIFOOrderId { price_in_ticks: Ticks(0), order_sequence_number: 0 }
    }
}

impl TreeKey for FIFOOrderId {
    open spec fn rank(self) -> int {
        self.price_in_ticks.0 * 0x1_0000_0000_0000_0000 + self.order_sequence_number
    }

    open spec fn zero() -> Self {
        FIFOOrderId { price_in_ticks: Ticks(0), order_sequence_number: 0 }
    }

    proof fn rank_injective(a: Self, b: Self) {
    }

    fn precedes(&self, other: &Self) -> (before: bool) {
        self.price_in_ticks.0 < other.price_in_ticks.0 || (self.price_in_ticks.0
            == other.price_in_ticks.0 && self.order_sequence_number < other.order_sequence_number)
    }

    fn zeroed() -> (id: Self) {
        FIFOOrderId { price_in_ticks: Ticks(0), order_sequence_number: 0 }
    }
}

proof fn lemma_complement(x: u64)
    ensures
        !x == u64::MAX - x,
{
    assert(!x == 0xffff_ffff_ffff_ffff - x) by (bit_vector);
}

/// Side and sequence number survive the encoding.
pub proof fn law_encoding_round_trips(side: Side, price: Ticks, sequence: u64)
    requires
        sequence <= MAX_SEQUENCE_NUMBER,
    ensures
        FIFOOrderId::encoded(side, price, sequence).tagged_side() == side,
        FIFOOrderId::encoded(side, price, sequence).raw_sequence() == sequence,
        FIFOOrderId::encoded(side, price, sequence).price_in_ticks == price,
{
}

/// Every stored id is the encoding of its own side and sequence number.
pub proof fn law_decoding_round_trips(id: FIFOOrderId)
    ensures
        id.raw_sequence() <= MAX_SEQUENCE_NUMBER,
        FIFOOrderId::encoded(id.tagged_side(), id.price_in_ticks, id.raw_sequence()) == id,
{
}

/// A bid is stored as the complement of its sequence number, which sets the high bit, and
/// an ask as it is.
pub proof fn law_bids_are_stored_inverted(side: Side, price: Ticks, sequence: u64)
    requires
        sequence < 0x8000_0000_0000_0000,
    ensures
        ({
            let stored = FIFOOrderId::encoded(side, price, sequence).order_sequence_number;
            &&& side == Side::Ask ==> stored == sequence && stored < 0x8000_0000_0000_0000
            &&& side == Side::Bid ==> stored == !sequence && stored >= 0x8000_0000_0000_0000
        }),
{
    lemma_complement(sequence);
}

/// Opposite sides never share a stored sequence number.
pub proof fn law_sides_never_collide(bid_price: Ticks, ask_price: Ticks, bid: u64, ask: u64)
    requires
        bid <= MAX_SEQUENCE_NUMBER,
        ask <= MAX_SEQUENCE_NUMBER,
    ensures
        FIFOOrderId::encoded(Side::Bid, bid_price, bid).order_sequence_number
            != FIFOOrderId::encoded(Side::Ask, ask_price, ask).order_sequence_number,
{
}

/// Ascending order is price-time priority for asks, and its reverse is for bids.
pub proof fn law_order_is_priority(a: FIFOOrderId, b: FIFOOrderId)
    requires
        a.tagged_side() == b.tagged_side(),
    ensures
        a.tagged_side() == Side::Ask ==> (a.rank() < b.rank() <==> a.outranks(b, Side::Ask)),
        a.tagged_side() == Side::Bid ==> (b.rank() < a.rank() <==> a.outranks(b, Side::Bid)),
{
}

} // verus!
