//! Which orders, reductions and cancels fail, and with what: the other side of what they do
//! when they succeed.

use vstd::prelude::*;

use super::matching_laws::base_in;
#[allow(unused_imports)]
use super::matching_laws::{adds_up, law_totals_add_up};
use super::model::MarketModel;
#[allow(unused_imports)]
use super::model::{cross_run, Crossing, Terms};
use crate::engine::error::EngineError;
use crate::engine::packet::{OrderPacket, SelfTradeBehavior};
use crate::engine::trader::SeatIndex;
use crate::order::FIFOOrderId;
use crate::quantities::BaseLots;

verus! {

/// What can go wrong while an order is matched.
pub open spec fn is_from_matching(error: EngineError) -> bool {
    match error {
        EngineError::Overflow => true,
        EngineError::SelfTradeAborted => true,
        EngineError::InsufficientBaseFunds => true,
        EngineError::InsufficientQuoteFunds => true,
        EngineError::SeatNotFound => true,
        _ => false,
    }
}

/// What a pass through the book fails with.
proof fn lemma_run_errors(state: Crossing, terms: Terms)
    requires
        cross_run(state, terms).1 is Err,
    ensures
        is_from_matching(cross_run(state, terms).1->Err_0),
        cross_run(state, terms).1->Err_0 == EngineError::SelfTradeAborted ==> terms.behavior
            == SelfTradeBehavior::Abort,
    decreases terms.match_limit - state.touched,
{
    let (after, result) = state.turn(terms);
    if result is Ok && result->Ok_0 is None {
        lemma_run_errors(after, terms);
    }
}

/// An immediate order reports that its minimum was not met exactly where it was matched and
/// its fills come to less than the minimum: one that fills exactly its minimum stands.
/// Otherwise it fails only by its size, its seat, or what went wrong in matching; and for
/// meeting one of the sender's own orders only where it asked to.
pub proof fn law_immediate_orders_fail_below_their_minimum(
    m: MarketModel,
    seat: SeatIndex,
    packet: OrderPacket,
)
    requires
        packet is ImmediateOrCancel,
    ensures
        ({
            let (after, result, fills) = m.place_order(seat, packet);
            match result {
                Ok(outcome) => base_in(fills) >= packet->min_base_lots_to_fill.0,
                Err(EngineError::MinimumFillNotMet) => base_in(fills)
                    < packet->min_base_lots_to_fill.0,
                Err(EngineError::ZeroSize) => packet.order_size().0 == 0,
                Err(EngineError::SelfTradeAborted) => packet->ImmediateOrCancel_self_trade_behavior
                    == SelfTradeBehavior::Abort,
                Err(error) => is_from_matching(error),
            }
        }),
{
    if let OrderPacket::ImmediateOrCancel {
        side,
        price_in_ticks,
        num_base_lots,
        min_base_lots_to_fill,
        self_trade_behavior,
        match_limit,
    } = packet {
        let terms = Terms {
            taker: seat,
            side,
            limit: price_in_ticks,
            behavior: self_trade_behavior,
            match_limit,
        };
        let start = Crossing::start(m, num_base_lots);
        assert(adds_up(start, terms, num_base_lots));
        if cross_run(start, terms).1 is Ok {
            law_totals_add_up(start, terms, num_base_lots);
        } else {
            lemma_run_errors(start, terms);
        }
    }
}

/// A limit order fails only by its size, its seat, what went wrong in matching, or for want
/// of room or funds for what it would have left resting.
pub proof fn law_limit_orders_fail_for_these(
    m: MarketModel,
    seat: SeatIndex,
    packet: OrderPacket,
)
    requires
        packet is Limit,
    ensures
        match m.place_order(seat, packet).1 {
            Ok(_) => packet.order_size().0 > 0 && seat != 0,
            Err(EngineError::ZeroSize) => packet.order_size().0 == 0,
            Err(EngineError::BookSideFull) => true,
            Err(EngineError::SelfTradeAborted) => packet->Limit_self_trade_behavior
                == SelfTradeBehavior::Abort,
            Err(error) => is_from_matching(error),
        },
{
    if let OrderPacket::Limit {
        side,
        price_in_ticks,
        num_base_lots,
        self_trade_behavior,
        match_limit,
    } = packet {
        let terms = Terms {
            taker: seat,
            side,
            limit: Some(price_in_ticks),
            behavior: self_trade_behavior,
            match_limit,
        };
        let start = Crossing::start(m, num_base_lots);
        if cross_run(start, terms).1 is Err {
            lemma_run_errors(start, terms);
        }
    }
}

/// A reduction or a cancel of an order that does not rest finds no order, and one of
/// somebody else's order is refused for that; neither changes anything.
pub proof fn law_others_orders_are_left_alone(
    m: MarketModel,
    seat: SeatIndex,
    id: FIFOOrderId,
    size: BaseLots,
)
    ensures
        match m.book.get(id) {
            None => {
                &&& m.reduce_order(seat, id, size) == (
                    m,
                    Err::<BaseLots, EngineError>(EngineError::OrderNotFound),
                )
                &&& m.cancel_order(seat, id) == (
                    m,
                    Err::<BaseLots, EngineError>(EngineError::OrderNotFound),
                )
            },
            Some(order) => order.trader_index != seat ==> {
                &&& m.reduce_order(seat, id, size) == (
                    m,
                    Err::<BaseLots, EngineError>(EngineError::NotOrderOwner),
                )
                &&& m.cancel_order(seat, id) == (
                    m,
                    Err::<BaseLots, EngineError>(EngineError::NotOrderOwner),
                )
            },
        },
{
}

} // verus!
