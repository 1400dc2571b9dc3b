//! What each kind of order promises, and what cancelling promises.

use vstd::prelude::*;

#[allow(unused_imports)]
use super::laws::{
    law_cancelling_all_conserves, law_reducing_conserves, law_withdrawing_conserves,
    lemma_first_owned, lemma_first_owned_in,
};
#[allow(unused_imports)]
use super::matching_laws::{adds_up, base_in, law_totals_add_up, lemma_turn_keeps_wf};
use super::model::{cross_run, Crossing, MarketModel, Terms};
#[allow(unused_imports)]
use super::payout_laws::{
    law_seats_without_orders_lock_nothing, law_unlocked_seats_can_be_emptied,
};
use crate::engine::error::EngineError;
use crate::engine::fill::MatchStop;
use crate::engine::packet::{OrderPacket, PostOnlyRejection};
use crate::engine::trader::{SeatIndex, TraderKey, TraderState};
use crate::order::{FIFOOrderId, Side};
use crate::quantities::{BaseLots, QuoteLots, Ticks};

verus! {

/// What a pass through the book leaves alone: the taker's own side, the sequence counter,
/// and who sits where. It touches no more orders than it may, fills no more than it
/// touches, and never lowers the lifetime fees.
pub(crate) proof fn lemma_run_is_bounded(state: Crossing, terms: Terms)
    requires
        state.market.wf(),
        1 <= terms.taker <= state.market.seats.capacity(),
        state.fills.len() <= state.touched <= terms.match_limit,
    ensures
        ({
            let end = cross_run(state, terms).0;
            &&& end.market.book.side(terms.side) == state.market.book.side(terms.side)
            &&& end.market.book.next_sequence == state.market.book.next_sequence
            &&& end.market.seats.order == state.market.seats.order
            &&& end.market.seats.keys == state.market.seats.keys
            &&& end.market.header.collected_quote_lot_fees.0
                >= state.market.header.collected_quote_lot_fees.0
            &&& end.fills.len() <= terms.match_limit
        }),
    decreases terms.match_limit - state.touched,
{
    let (after, result) = state.turn(terms);
    lemma_turn_keeps_wf(state, terms);
    state.market.lemma_best_is_resting(terms.side.other());
    if result == Ok::<Option<MatchStop>, EngineError>(None) {
        lemma_run_is_bounded(after, terms);
    }
}

/// An immediate order never rests: nothing joins its side of the book, and what it reports
/// names no order.
pub proof fn law_immediate_orders_never_rest(m: MarketModel, seat: SeatIndex, packet: OrderPacket)
    requires
        m.wf(),
        1 <= seat <= m.seats.capacity(),
        packet is ImmediateOrCancel,
    ensures
        ({
            let (after, result, fills) = m.place_order(seat, packet);
            &&& after.book.side(packet.order_side()) == m.book.side(packet.order_side())
            &&& after.book.next_sequence == m.book.next_sequence
            &&& match result {
                Ok(outcome) => outcome.order_id is None && outcome.base_lots_posted.0 == 0,
                Err(_) => true,
            }
        }),
{
    if let OrderPacket::ImmediateOrCancel {
        side,
        price_in_ticks,
        num_base_lots,
        min_base_lots_to_fill,
        self_trade_behavior,
        match_limit,
    } = packet {
        let terms = Terms {
            taker: seat,
            side,
            limit: price_in_ticks,
            behavior: self_trade_behavior,
            match_limit,
        };
        lemma_run_is_bounded(Crossing::start(m, num_base_lots), terms);
    }
}

/// An immediate order that asks for a minimum gets at least that, or fails. Asking for all
/// of it makes the order all or nothing.
pub proof fn law_minimum_fills_are_met(m: MarketModel, seat: SeatIndex, packet: OrderPacket)
    requires
        packet is ImmediateOrCancel,
    ensures
        match m.place_order(seat, packet).1 {
            Ok(outcome) => {
                &&& outcome.base_lots_filled.0 >= packet->min_base_lots_to_fill.0
                &&& packet->min_base_lots_to_fill == packet.order_size() ==> {
                    &&& outcome.base_lots_filled == packet.order_size()
                    &&& base_in(m.place_order(seat, packet).2) == packet.order_size().0
                }
            },
            Err(_) => true,
        },
{
    if let OrderPacket::ImmediateOrCancel {
        side,
        price_in_ticks,
        num_base_lots,
        min_base_lots_to_fill,
        self_trade_behavior,
        match_limit,
    } = packet {
        let terms = Terms {
            taker: seat,
            side,
            limit: price_in_ticks,
            behavior: self_trade_behavior,
            match_limit,
        };
        let start = Crossing::start(m, num_base_lots);
        assert(adds_up(start, terms, num_base_lots));
        if cross_run(start, terms).1 is Ok {
            law_totals_add_up(start, terms, num_base_lots);
        }
    }
}

/// A post-only order never takes: the other side of the book, everybody else's balances,
/// and the fees stay as they are, and it is charged nothing.
pub proof fn law_post_only_orders_never_take(
    m: MarketModel,
    seat: SeatIndex,
    side: Side,
    price_in_ticks: Ticks,
    num_base_lots: BaseLots,
    rejection: PostOnlyRejection,
)
    requires
        m.wf(),
        1 <= seat <= m.seats.capacity(),
    ensures
        ({
            let packet = OrderPacket::PostOnly { side, price_in_ticks, num_base_lots, rejection };
            let (after, result, fills) = m.place_order(seat, packet);
            &&& fills.len() == 0
            &&& after.book.side(side.other()) == m.book.side(side.other())
            &&& after.header == m.header
            &&& forall|other: SeatIndex|
                1 <= other <= m.seats.capacity() && other != seat ==> #[trigger] after.seat(other)
                    == m.seat(other)
            &&& match result {
                Ok(outcome) => {
                    &&& outcome.base_lots_filled.0 == 0
                    &&& outcome.fee_in_quote_lots.0 == 0
                    &&& outcome.base_lots_posted == num_base_lots
                },
                Err(_) => true,
            }
        }),
{
}

/// An order fills against no more resting orders than its match limit.
pub proof fn law_matching_is_bounded(m: MarketModel, seat: SeatIndex, packet: OrderPacket)
    requires
        m.wf(),
        1 <= seat <= m.seats.capacity(),
    ensures
        match packet {
            OrderPacket::PostOnly { .. } => m.place_order(seat, packet).2.len() == 0,
            OrderPacket::Limit { match_limit, .. } => m.place_order(seat, packet).2.len()
                <= match_limit,
            OrderPacket::ImmediateOrCancel { match_limit, .. } => m.place_order(
                seat,
                packet,
            ).2.len() <= match_limit,
        },
        m.place_order(seat, packet).0.header.collected_quote_lot_fees.0
            >= m.header.collected_quote_lot_fees.0,
{
    match packet {
        OrderPacket::PostOnly { .. } => {},
        OrderPacket::Limit {
            side,
            price_in_ticks,
            num_base_lots,
            self_trade_behavior,
            match_limit,
        } => {
            let terms = Terms {
                taker: seat,
                side,
                limit: Some(price_in_ticks),
                behavior: self_trade_behavior,
                match_limit,
            };
            lemma_run_is_bounded(Crossing::start(m, num_base_lots), terms);
        },
        OrderPacket::ImmediateOrCancel {
            side,
            price_in_ticks,
            num_base_lots,
            min_base_lots_to_fill,
            self_trade_behavior,
            match_limit,
        } => {
            let terms = Terms {
                taker: seat,
                side,
                limit: price_in_ticks,
                behavior: self_trade_behavior,
                match_limit,
            };
            lemma_run_is_bounded(Crossing::start(m, num_base_lots), terms);
        },
    }
}

/// Lifetime fees never decrease, whatever is done to the market, and only an order can
/// raise them.
pub proof fn law_lifetime_fees_never_decrease(
    m: MarketModel,
    key: TraderKey,
    seat: SeatIndex,
    packet: OrderPacket,
    id: FIFOOrderId,
    base: BaseLots,
    quote: QuoteLots,
)
    requires
        m.wf(),
        1 <= seat <= m.seats.capacity(),
    ensures
        m.place_order(seat, packet).0.header.collected_quote_lot_fees.0
            >= m.header.collected_quote_lot_fees.0,
        m.claim_seat(key).0.header.collected_quote_lot_fees == m.header.collected_quote_lot_fees,
        m.release_seat(key).0.header.collected_quote_lot_fees == m.header.collected_quote_lot_fees,
        m.deposit(seat, base, quote).0.header.collected_quote_lot_fees
            == m.header.collected_quote_lot_fees,
        m.withdraw(seat, base, quote).0.header.collected_quote_lot_fees
            == m.header.collected_quote_lot_fees,
        m.reduce_order(seat, id, base).0.header.collected_quote_lot_fees
            == m.header.collected_quote_lot_fees,
        m.cancel_order(seat, id).0.header.collected_quote_lot_fees
            == m.header.collected_quote_lot_fees,
        m.collect_fees().0.header.collected_quote_lot_fees == m.header.collected_quote_lot_fees,
{
    law_matching_is_bounded(m, seat, packet);
}

/// Reducing an order by at least what rests is exactly cancelling it.
pub proof fn law_reducing_by_everything_is_cancelling(
    m: MarketModel,
    seat: SeatIndex,
    id: FIFOOrderId,
    size: BaseLots,
)
    requires
        m.book.get(id) is Some ==> size.0 >= (m.book.get(id)->0).num_base_lots.0,
    ensures
        m.reduce_order(seat, id, size) == m.cancel_order(seat, id),
{
}

/// A bounded cancel of a seat's orders always makes progress: with orders resting and a
/// limit above zero, at least one goes, and its funds are free.
pub proof fn law_cancelling_makes_progress(
    m: MarketModel,
    seat: SeatIndex,
    side: Side,
    limit: u32,
)
    requires
        m.is_conserved(),
        limit > 0,
        m.best_of_seat(seat, side) is Some,
    ensures
        m.cancel_orders(seat, side, limit, 0).1 is Ok,
        m.cancel_orders(seat, side, limit, 0).1->Ok_0 >= 1,
        m.cancel_orders(seat, side, limit, 0).0.is_conserved(),
{
    let id = m.best_of_seat(seat, side)->0;
    lemma_first_owned(m, seat, side);
    law_reducing_conserves(m, seat, id, BaseLots(0));
    law_cancelling_all_conserves(m, seat, side, limit, 0);
    law_cancelling_all_conserves(m.cancel_order(seat, id).0, seat, side, limit, 1);
}

/// With room for every order of a side, cancelling a seat's orders leaves it none there,
/// and leaves the other side and the seats' places alone.
pub(crate) proof fn lemma_cancels_exhaust(
    m: MarketModel,
    seat: SeatIndex,
    side: Side,
    limit: u32,
    done: u32,
)
    requires
        m.is_conserved(),
        done + m.book.side(side).order.len() <= limit,
    ensures
        ({
            let after = m.cancel_orders(seat, side, limit, done).0;
            &&& after.best_of_seat(seat, side) is None
            &&& after.book.side(side.other()) == m.book.side(side.other())
            &&& after.seats.order == m.seats.order
            &&& after.book.side(side).capacity() == m.book.side(side).capacity()
        }),
    decreases limit - done,
{
    if m.book.side(side).order.len() == 0 {
        assert(m.book.queue(side).len() == 0);
    } else if let Some(id) = m.best_of_seat(seat, side) {
        lemma_first_owned(m, seat, side);
        law_reducing_conserves(m, seat, id, BaseLots(0));
        let after = m.cancel_order(seat, id).0;
        let tree = m.book.side(side);
        lemma_own_side(m, seat, side);
        tree.lemma_present(id);
        assert(after.book == m.book.resized(id, BaseLots(0)));
        assert(after.book.side(side).order == tree.order.remove(tree.position(id)));
        lemma_cancels_exhaust(after, seat, side, limit, (done + 1) as u32);
    }
}

/// What a walk of a side finds is tagged with that side.
pub(crate) proof fn lemma_own_side(m: MarketModel, seat: SeatIndex, side: Side)
    requires
        m.wf(),
    ensures
        match m.best_of_seat(seat, side) {
            Some(id) => id.tagged_side() == side,
            None => true,
        },
{
    let tree = m.book.side(side);
    let queue = m.book.queue(side);
    let n = tree.order.len();
    assert forall|i: int| 0 <= i < queue.len() implies (#[trigger] queue[i]).key.tagged_side()
        == side by {
        let k = match side {
            Side::Bid => n - 1 - i,
            Side::Ask => i,
        };
        assert(queue[i] == tree.entry_at(k));
        assert(tree.key_at(k).tagged_side() == side);
    }
    lemma_first_owned_in(queue, seat);
}

/// Every lot that went in comes back out: cancelling a seat's orders on both sides and
/// withdrawing what is free always succeeds, and leaves the seat with nothing.
pub proof fn law_seats_can_always_be_emptied(m: MarketModel, seat: SeatIndex)
    requires
        m.is_conserved(),
        m.seats.is_live(seat),
    ensures
        ({
            let (one, bids) = m.cancel_orders(seat, Side::Bid, u32::MAX, 0);
            let (two, asks) = one.cancel_orders(seat, Side::Ask, u32::MAX, 0);
            let (three, paid) = two.withdraw_all(seat);
            &&& bids is Ok
            &&& asks is Ok
            &&& paid == Ok::<(BaseLots, QuoteLots), EngineError>(
                (two.seat(seat).base_lots_free, two.seat(seat).quote_lots_free),
            )
            &&& three.is_conserved()
            &&& three.seat(seat) == TraderState::nothing()
            &&& three.best_of_seat(seat, Side::Bid) is None
            &&& three.best_of_seat(seat, Side::Ask) is None
        }),
{
    law_cancelling_all_conserves(m, seat, Side::Bid, u32::MAX, 0);
    crate::tree::laws::lemma_len_bounded(m.book.bids);
    lemma_cancels_exhaust(m, seat, Side::Bid, u32::MAX, 0);
    let one = m.cancel_orders(seat, Side::Bid, u32::MAX, 0).0;
    law_cancelling_all_conserves(one, seat, Side::Ask, u32::MAX, 0);
    crate::tree::laws::lemma_len_bounded(one.book.asks);
    lemma_cancels_exhaust(one, seat, Side::Ask, u32::MAX, 0);
    let two = one.cancel_orders(seat, Side::Ask, u32::MAX, 0).0;
    assert(two.book.side(Side::Bid) == one.book.side(Side::Bid));
    assert(two.seats.is_live(seat));
    law_seats_without_orders_lock_nothing(two, seat);
    law_unlocked_seats_can_be_emptied(two, seat);
    law_withdrawing_conserves(two, seat, BaseLots(0), QuoteLots(0));
}

} // verus!
