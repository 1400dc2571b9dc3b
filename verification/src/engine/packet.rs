//! What a caller can ask the engine to do.

use vstd::prelude::*;

use crate::order::Side;
use crate::quantities::{BaseLots, Ticks};

verus! {

/// What to do when an order would match against its own owner's resting order.
///
/// Self-matching is not hypothetical: a market maker quoting both sides will cross
/// itself whenever it moves a quote through the touch. Leaving the policy to the caller
/// avoids baking one desk's risk preference into the venue.
#[derive(Copy, Clone, Debug, PartialEq, Eq, Structural)]
pub enum SelfTradeBehavior {
    /// Shrink both sides by the overlap without transferring anything. No fee is
    /// charged, since no trade occurred. The default: it preserves the taker's
    /// remaining intent while removing the crossing liquidity.
    DecrementTake,
    /// Cancel the resting order outright and keep matching with undiminished taker
    /// size. What a desk wants when the resting quote is simply stale.
    CancelProvide,
    /// Reject the whole order. For callers who treat a self-match as a bug in their own
    /// quoting logic and would rather fail loudly.
    Abort,
}

impl Default for SelfTradeBehavior {
    fn default() -> (behavior: Self)
        ensures
            behavior == SelfTradeBehavior::DecrementTake,
    {
        SelfTradeBehavior::DecrementTake
    }
}

/// What to do when a post-only order would cross the book.
#[derive(Copy, Clone, Debug, PartialEq, Eq, Structural)]
pub enum PostOnlyRejection {
    /// Reject the order.
    Reject,
    /// Reprice to the best non-crossing tick and post there. Saves a market maker a
    /// round trip when the book moved between quoting and landing, at the cost of
    /// resting at a price it did not name.
    Slide,
}

impl Default for PostOnlyRejection {
    fn default() -> (rejection: Self)
        ensures
            rejection == PostOnlyRejection::Reject,
    {
        PostOnlyRejection::Reject
    }
}

/// An order as submitted.
///
/// `match_limit` appears on every crossing variant because compute is the binding
/// constraint on-chain: a taker sweeping an unbounded number of price levels can exceed
/// the transaction budget and revert, wasting the fee. Bounding the walk makes the worst
/// case knowable in advance.
#[allow(inconsistent_fields)]
#[derive(Copy, Clone, Debug, PartialEq, Eq)]
pub enum OrderPacket {
    /// Cross what it can, then rest the remainder.
    Limit {
        /// Which side the order is on.
        side: Side,
        /// Limit price.
        price_in_ticks: Ticks,
        /// Size to fill or post.
        num_base_lots: BaseLots,
        /// Policy for matching against the sender's own orders.
        self_trade_behavior: SelfTradeBehavior,
        /// Maximum resting orders to consume before stopping.
        match_limit: u32,
    },
    /// Rest only. Never takes liquidity, so it never pays a fee.
    PostOnly {
        /// Which side the order is on.
        side: Side,
        /// Limit price.
        price_in_ticks: Ticks,
        /// Size to post.
        num_base_lots: BaseLots,
        /// What to do if this price would cross.
        rejection: PostOnlyRejection,
    },
    /// Cross what it can, then discard the remainder. Never rests.
    ImmediateOrCancel {
        /// Which side the order is on.
        side: Side,
        /// Limit price, or `None` to sweep at any price.
        price_in_ticks: Option<Ticks>,
        /// Size to fill.
        num_base_lots: BaseLots,
        /// Reject the whole order unless at least this much fills. Set equal to
        /// `num_base_lots` for fill-or-kill.
        min_base_lots_to_fill: BaseLots,
        /// Policy for matching against the sender's own orders.
        self_trade_behavior: SelfTradeBehavior,
        /// Maximum resting orders to consume before stopping.
        match_limit: u32,
    },
}

impl OrderPacket {
    /// The side of this order.
    pub open spec fn order_side(self) -> Side {
        match self {
            OrderPacket::Limit { side, .. } => side,
            OrderPacket::PostOnly { side, .. } => side,
            OrderPacket::ImmediateOrCancel { side, .. } => side,
        }
    }

    /// The size of this order.
    pub open spec fn order_size(self) -> BaseLots {
        match self {
            OrderPacket::Limit { num_base_lots, .. } => num_base_lots,
            OrderPacket::PostOnly { num_base_lots, .. } => num_base_lots,
            OrderPacket::ImmediateOrCancel { num_base_lots, .. } => num_base_lots,
        }
    }

    /// The limit price of this order, if it has one.
    pub open spec fn order_limit(self) -> Option<Ticks> {
        match self {
            OrderPacket::Limit { price_in_ticks, .. } => Some(price_in_ticks),
            OrderPacket::PostOnly { price_in_ticks, .. } => Some(price_in_ticks),
            OrderPacket::ImmediateOrCancel { price_in_ticks, .. } => price_in_ticks,
        }
    }

    /// A plain good-till-cancelled limit order with default policies.
    pub fn limit(side: Side, price_in_ticks: Ticks, num_base_lots: BaseLots) -> (packet: Self)
        ensures
            packet == (OrderPacket::Limit {
                side,
                price_in_ticks,
                num_base_lots,
                self_trade_behavior: SelfTradeBehavior::DecrementTake,
                match_limit: u32::MAX,
            }),
    {
        OrderPacket::Limit {
            side,
            price_in_ticks,
            num_base_lots,
            self_trade_behavior: SelfTradeBehavior::DecrementTake,
            match_limit: u32::MAX,
        }
    }

    /// A post-only order that rejects rather than slides.
    pub fn post_only(side: Side, price_in_ticks: Ticks, num_base_lots: BaseLots) -> (packet: Self)
        ensures
            packet == (OrderPacket::PostOnly {
                side,
                price_in_ticks,
                num_base_lots,
                rejection: PostOnlyRejection::Reject,
            }),
    {
        OrderPacket::PostOnly {
            side,
            price_in_ticks,
            num_base_lots,
            rejection: PostOnlyRejection::Reject,
        }
    }

    /// A market order: sweep up to `num_base_lots` at any price, keep whatever fills.
    pub fn market(side: Side, num_base_lots: BaseLots) -> (packet: Self)
        ensures
            packet == (OrderPacket::ImmediateOrCancel {
                side,
                price_in_ticks: None,
                num_base_lots,
                min_base_lots_to_fill: BaseLots(0),
                self_trade_behavior: SelfTradeBehavior::DecrementTake,
                match_limit: u32::MAX,
            }),
    {
        OrderPacket::ImmediateOrCancel {
            side,
            price_in_ticks: None,
            num_base_lots,
            min_base_lots_to_fill: BaseLots(0),
            self_trade_behavior: SelfTradeBehavior::DecrementTake,
            match_limit: u32::MAX,
        }
    }

    /// An all-or-nothing immediate order.
    pub fn fill_or_kill(side: Side, price_in_ticks: Ticks, num_base_lots: BaseLots) -> (packet:
        Self)
        ensures
            packet == (OrderPacket::ImmediateOrCancel {
                side,
                price_in_ticks: Some(price_in_ticks),
                num_base_lots,
                min_base_lots_to_fill: num_base_lots,
                self_trade_behavior: SelfTradeBehavior::DecrementTake,
                match_limit: u32::MAX,
            }),
    {
        OrderPacket::ImmediateOrCancel {
            side,
            price_in_ticks: Some(price_in_ticks),
            num_base_lots,
            min_base_lots_to_fill: num_base_lots,
            self_trade_behavior: SelfTradeBehavior::DecrementTake,
            match_limit: u32::MAX,
        }
    }

    /// Which side of the book this order is on.
    pub fn side(&self) -> (side: Side)
        ensures
            side == self.order_side(),
    {
        match self {
            OrderPacket::Limit { side, .. } => *side,
            OrderPacket::PostOnly { side, .. } => *side,
            OrderPacket::ImmediateOrCancel { side, .. } => *side,
        }
    }

    /// Total size requested.
    pub fn num_base_lots(&self) -> (size: BaseLots)
        ensures
            size == self.order_size(),
    {
        match self {
            OrderPacket::Limit { num_base_lots, .. } => *num_base_lots,
            OrderPacket::PostOnly { num_base_lots, .. } => *num_base_lots,
            OrderPacket::ImmediateOrCancel { num_base_lots, .. } => *num_base_lots,
        }
    }

    /// The limit price, or `None` for an unpriced market order.
    pub fn price_in_ticks(&self) -> (price: Option<Ticks>)
        ensures
            price == self.order_limit(),
    {
        match self {
            OrderPacket::Limit { price_in_ticks, .. } => Some(*price_in_ticks),
            OrderPacket::PostOnly { price_in_ticks, .. } => Some(*price_in_ticks),
            OrderPacket::ImmediateOrCancel { price_in_ticks, .. } => *price_in_ticks,
        }
    }

    /// Whether any part of this order may rest on the book.
    pub fn can_post(&self) -> (may: bool)
        ensures
            may == (self is Limit || self is PostOnly),
    {
        match self {
            OrderPacket::Limit { .. } => true,
            OrderPacket::PostOnly { .. } => true,
            OrderPacket::ImmediateOrCancel { .. } => false,
        }
    }

    /// Whether this order may take liquidity.
    pub fn can_take(&self) -> (may: bool)
        ensures
            may == (self is Limit || self is ImmediateOrCancel),
    {
        match self {
            OrderPacket::Limit { .. } => true,
            OrderPacket::PostOnly { .. } => false,
            OrderPacket::ImmediateOrCancel { .. } => true,
        }
    }
}

/// What an order asks for is what it was made with, whichever kind it is.
pub proof fn law_packets_ask_for_what_they_name(
    side: Side,
    price: Ticks,
    size: BaseLots,
    least: BaseLots,
    policy: SelfTradeBehavior,
    rejection: PostOnlyRejection,
    match_limit: u32,
)
    ensures
        ({
            let packet = OrderPacket::Limit {
                side,
                price_in_ticks: price,
                num_base_lots: size,
                self_trade_behavior: policy,
                match_limit,
            };
            &&& packet.order_side() == side
            &&& packet.order_size() == size
            &&& packet.order_limit() == Some(price)
        }),
        ({
            let packet = OrderPacket::PostOnly {
                side,
                price_in_ticks: price,
                num_base_lots: size,
                rejection,
            };
            &&& packet.order_side() == side
            &&& packet.order_size() == size
            &&& packet.order_limit() == Some(price)
        }),
        forall|limit: Option<Ticks>|
            {
                let packet = #[trigger] immediate(side, limit, size, least, policy, match_limit);
                &&& packet.order_side() == side
                &&& packet.order_size() == size
                &&& packet.order_limit() == limit
            },
{
}

/// An immediate order with these fields.
pub open spec fn immediate(
    side: Side,
    limit: Option<Ticks>,
    size: BaseLots,
    least: BaseLots,
    policy: SelfTradeBehavior,
    match_limit: u32,
) -> OrderPacket {
    OrderPacket::ImmediateOrCancel {
        side,
        price_in_ticks: limit,
        num_base_lots: size,
        min_base_lots_to_fill: least,
        self_trade_behavior: policy,
        match_limit,
    }
}

} // verus!
