//! What an order does in numbers: when it fills, what a fill moves, what rests, and why
//! matching stopped.

use vstd::prelude::*;

#[allow(unused_imports)]
use super::backing::lemma_seat_bounded;
#[allow(unused_imports)]
use super::laws::{law_posting_conserves, law_releasing_backing_conserves, lemma_backed};
#[allow(unused_imports)]
use super::matching_laws::{
    base_in, fees_in, law_matching_conserves, law_settlement_conserves, law_totals_add_up,
    lemma_queue_head, lemma_turn_keeps_wf, quote_in,
};
use super::model::{cross_run, Crossing, MarketModel, Terms};
#[allow(unused_imports)]
use super::order_laws::lemma_run_is_bounded;
use crate::engine::error::EngineError;
use crate::engine::fill::{Fill, MatchStop};
use crate::engine::packet::{OrderPacket, PostOnlyRejection, SelfTradeBehavior};
use crate::engine::trader::SeatIndex;
use crate::order::{RestingOrder, Side, MAX_SEQUENCE_NUMBER};
#[allow(unused_imports)]
use crate::quantities::lots::lemma_value_is_natural;
use crate::quantities::{BaseLots, QuoteLots, Ticks};

verus! {

// ---------------------------------------------------------------------------------
// Prices, fees and balances
// ---------------------------------------------------------------------------------

/// The quote lots that `size` base lots are worth at `price`: a lot is worth the price
/// times the tick, over the lots in a unit.
pub open spec fn worth(m: MarketModel, price: Ticks, size: int) -> int {
    (price.0 * (m.header.lot_config.tick_size_in_quote_lots_per_base_unit as int
        / m.header.lot_config.base_lots_per_base_unit as int)) * size
}

/// The taker's fee on `gross` quote lots: the rate in hundredths of a percent, rounded up.
pub open spec fn fee_of(m: MarketModel, gross: int) -> int {
    (gross * m.header.fees.taker_fee_bps + 9_999) / 10_000
}

/// The smaller of two numbers.
pub open spec fn smaller(a: int, b: int) -> int {
    if a <= b {
        a
    } else {
        b
    }
}

/// Whether a taker's free balance is less than a fill would cost: its gross and fee for
/// somebody who buys, its size for somebody who sells.
pub open spec fn falls_short(
    m: MarketModel,
    taker: SeatIndex,
    side: Side,
    price: Ticks,
    size: int,
) -> bool {
    match side {
        Side::Bid => m.seats.values[taker - 1].quote_lots_free.0 < worth(m, price, size) + fee_of(
            m,
            worth(m, price, size),
        ),
        Side::Ask => m.seats.values[taker - 1].base_lots_free.0 < size,
    }
}

/// Whether a maker's price is beyond what a taker would take: above a buyer's limit, below
/// a seller's. Without a limit nothing is.
pub open spec fn is_beyond(side: Side, price: Ticks, limit: Option<Ticks>) -> bool {
    match limit {
        None => false,
        Some(limit) => match side {
            Side::Bid => price.0 > limit.0,
            Side::Ask => price.0 < limit.0,
        },
    }
}

/// Whether an order at `price` meets the best order on the other side.
pub open spec fn meets_the_other_side(m: MarketModel, side: Side, price: Ticks) -> bool {
    let queue = m.book.queue(side.other());
    queue.len() > 0 && match side {
        Side::Bid => queue[0].key.price_in_ticks.0 <= price.0,
        Side::Ask => queue[0].key.price_in_ticks.0 >= price.0,
    }
}

// ---------------------------------------------------------------------------------
// Why matching stops
// ---------------------------------------------------------------------------------

/// Why a pass through the book ended, in numbers: nothing was left to fill, or as many
/// orders were touched as may be, or with some still to touch no order was left or the best
/// was beyond the limit, or the taker's free balance was less than the next fill would have
/// cost. Funds that are locked behind other orders have no part in that.
pub open spec fn is_why(stop: MatchStop, end: Crossing, terms: Terms) -> bool {
    let queue = end.market.book.queue(terms.side.other());
    match stop {
        MatchStop::FullyFilled => end.remaining.0 == 0,
        MatchStop::MatchLimit => end.remaining.0 > 0 && end.touched >= terms.match_limit,
        MatchStop::BookEmpty => {
            &&& end.remaining.0 > 0
            &&& end.touched < terms.match_limit
            &&& queue.len() == 0
        },
        MatchStop::PriceLimit => {
            &&& end.remaining.0 > 0
            &&& end.touched < terms.match_limit
            &&& queue.len() > 0
            &&& is_beyond(terms.side, queue[0].key.price_in_ticks, terms.limit)
        },
        MatchStop::InsufficientFunds => {
            &&& end.remaining.0 > 0
            &&& queue.len() > 0
            &&& queue[0].value.trader_index != terms.taker
            &&& !is_beyond(terms.side, queue[0].key.price_in_ticks, terms.limit)
            &&& falls_short(
                end.market,
                terms.taker,
                terms.side,
                queue[0].key.price_in_ticks,
                smaller(end.remaining.0 as int, queue[0].value.num_base_lots.0 as int),
            )
        },
        MatchStop::DidNotCross => false,
    }
}

/// A pass that ends without an error reports why it ended, and that is why.
pub proof fn law_stops_say_why(state: Crossing, terms: Terms)
    requires
        state.market.wf(),
        1 <= terms.taker <= state.market.seats.capacity(),
        cross_run(state, terms).1 is Ok,
    ensures
        is_why(cross_run(state, terms).1->Ok_0, cross_run(state, terms).0, terms),
    decreases terms.match_limit - state.touched,
{
    let (after, result) = state.turn(terms);
    lemma_turn_keeps_wf(state, terms);
    if result == Ok::<Option<MatchStop>, EngineError>(None) {
        law_stops_say_why(after, terms);
    } else if state.stops(terms) is None {
        let entry = state.next_maker(terms);
        assert(entry == state.market.book.queue(terms.side.other())[0]);
        lemma_value_is_natural(
            state.market.header.lot_config,
            entry.key.price_in_ticks,
            state.next_fill(terms).base_lots_filled,
        );
    }
}

/// What an order that takes reports of its end, over the market it leaves. A limit order
/// posts what is left, so the funds behind that were free when it stopped.
pub proof fn law_orders_say_why_they_stopped(m: MarketModel, seat: SeatIndex, packet: OrderPacket)
    requires
        m.wf(),
        1 <= seat <= m.seats.capacity(),
        !(packet is PostOnly),
        m.place_order(seat, packet).1 is Ok,
    ensures
        ({
            let (after, result, fills) = m.place_order(seat, packet);
            let outcome = result->Ok_0;
            let side = packet.order_side();
            let queue = after.book.queue(side.other());
            let taken = outcome.base_lots_filled.0 + (if decrements(packet) {
                outcome.base_lots_self_traded.0 as int
            } else {
                0
            });
            let left = packet.order_size().0 - taken;
            let best = queue[0].key.price_in_ticks;
            let next = smaller(left, queue[0].value.num_base_lots.0 as int);
            let free = after.seats.values[seat - 1];
            &&& 0 <= left
            &&& packet is Limit ==> outcome.base_lots_posted.0 == left
            &&& packet is ImmediateOrCancel ==> outcome.base_lots_posted.0 == 0
            &&& match outcome.stop {
                MatchStop::FullyFilled => left == 0,
                MatchStop::MatchLimit => left > 0,
                MatchStop::BookEmpty => left > 0 && queue.len() == 0,
                MatchStop::PriceLimit => {
                    &&& left > 0
                    &&& queue.len() > 0
                    &&& is_beyond(side, best, packet.order_limit())
                },
                MatchStop::InsufficientFunds => {
                    &&& left > 0
                    &&& queue.len() > 0
                    &&& queue[0].value.trader_index != seat
                    &&& !is_beyond(side, best, packet.order_limit())
                    &&& match side {
                        Side::Bid => free.quote_lots_free.0 + (if packet is Limit {
                            worth(after, packet->Limit_price_in_ticks, left)
                        } else {
                            0
                        }) < worth(after, best, next) + fee_of(after, worth(after, best, next)),
                        Side::Ask => free.base_lots_free.0 + (if packet is Limit {
                            left
                        } else {
                            0
                        }) < next,
                    }
                },
                MatchStop::DidNotCross => false,
            }
        }),
{
    match packet {
        OrderPacket::PostOnly { .. } => {},
        OrderPacket::Limit {
            side,
            price_in_ticks,
            num_base_lots,
            self_trade_behavior,
            match_limit,
        } => {
            let terms = Terms {
                taker: seat,
                side,
                limit: Some(price_in_ticks),
                behavior: self_trade_behavior,
                match_limit,
            };
            let start = Crossing::start(m, num_base_lots);
            let (end, stopped) = cross_run(start, terms);
            law_stops_say_why(start, terms);
            law_totals_add_up(start, terms, num_base_lots);
            lemma_run_keeps_wf(start, terms);
            if end.remaining.0 > 0 {
                lemma_value_is_natural(
                    end.market.header.lot_config,
                    price_in_ticks,
                    end.remaining,
                );
                lemma_posting_in_numbers(end.market, seat, side, price_in_ticks, end.remaining);
            }
        },
        OrderPacket::ImmediateOrCancel {
            side,
            price_in_ticks,
            num_base_lots,
            min_base_lots_to_fill,
            self_trade_behavior,
            match_limit,
        } => {
            let terms = Terms {
                taker: seat,
                side,
                limit: price_in_ticks,
                behavior: self_trade_behavior,
                match_limit,
            };
            let start = Crossing::start(m, num_base_lots);
            law_stops_say_why(start, terms);
            law_totals_add_up(start, terms, num_base_lots);
        },
    }
}

/// Whether an order gives up size against its sender's own orders.
pub open spec fn decrements(packet: OrderPacket) -> bool {
    match packet {
        OrderPacket::Limit { self_trade_behavior, .. } => self_trade_behavior
            == SelfTradeBehavior::DecrementTake,
        OrderPacket::ImmediateOrCancel { self_trade_behavior, .. } => self_trade_behavior
            == SelfTradeBehavior::DecrementTake,
        OrderPacket::PostOnly { .. } => false,
    }
}

proof fn lemma_run_keeps_wf(state: Crossing, terms: Terms)
    requires
        state.market.wf(),
        1 <= terms.taker <= state.market.seats.capacity(),
    ensures
        cross_run(state, terms).0.market.wf(),
        cross_run(state, terms).0.market.seats.capacity() == state.market.seats.capacity(),
        cross_run(state, terms).0.market.header.lot_config == state.market.header.lot_config,
        cross_run(state, terms).0.market.header.fees == state.market.header.fees,
    decreases terms.match_limit - state.touched,
{
    let (after, result) = state.turn(terms);
    lemma_turn_keeps_wf(state, terms);
    if result == Ok::<Option<MatchStop>, EngineError>(None) {
        lemma_run_keeps_wf(after, terms);
    }
}

/// What an order that came to rest set aside.
proof fn lemma_posting_in_numbers(
    m: MarketModel,
    seat: SeatIndex,
    side: Side,
    price: Ticks,
    size: BaseLots,
)
    requires
        m.wf(),
        1 <= seat <= m.seats.capacity(),
        m.post(seat, side, price, size).1 is Ok,
    ensures
        ({
            let after = m.post(seat, side, price, size).0;
            let (before, now) = (m.seats.values[seat - 1], after.seats.values[seat - 1]);
            &&& after.header == m.header
            &&& after.book.side(side.other()) == m.book.side(side.other())
            &&& after.book.queue(side.other()) == m.book.queue(side.other())
            &&& match side {
                Side::Bid => {
                    &&& now.quote_lots_free.0 == before.quote_lots_free.0 - worth(
                        m,
                        price,
                        size.0 as int,
                    )
                    &&& now.quote_lots_locked.0 == before.quote_lots_locked.0 + worth(
                        m,
                        price,
                        size.0 as int,
                    )
                    &&& now.base_lots_free == before.base_lots_free
                    &&& now.base_lots_locked == before.base_lots_locked
                },
                Side::Ask => {
                    &&& now.base_lots_free.0 == before.base_lots_free.0 - size.0
                    &&& now.base_lots_locked.0 == before.base_lots_locked.0 + size.0
                    &&& now.quote_lots_free == before.quote_lots_free
                    &&& now.quote_lots_locked == before.quote_lots_locked
                },
            }
        }),
{
    lemma_value_is_natural(m.header.lot_config, price, size);
}

// ---------------------------------------------------------------------------------
// What fills
// ---------------------------------------------------------------------------------

/// A pass never takes back a fill.
proof fn lemma_fills_only_grow(state: Crossing, terms: Terms)
    ensures
        state.fills.len() <= cross_run(state, terms).0.fills.len(),
        forall|i: int|
            0 <= i < state.fills.len() ==> #[trigger] cross_run(state, terms).0.fills[i]
                == state.fills[i],
    decreases terms.match_limit - state.touched,
{
    let (after, result) = state.turn(terms);
    assert(after.fills == state.fills || after.fills == state.fills.push(state.next_fill(terms)));
    if result == Ok::<Option<MatchStop>, EngineError>(None) {
        lemma_fills_only_grow(after, terms);
    }
}

/// The fill that an order starts with, if its taker's free balance covers it: against the
/// best order on the other side, at that order's price, for as much as both have.
pub proof fn law_covered_orders_fill(m: MarketModel, seat: SeatIndex, packet: OrderPacket)
    requires
        m.is_conserved(),
        m.seats.is_live(seat),
        1 <= seat <= m.seats.capacity(),
        packet.order_size().0 > 0,
        match packet {
            OrderPacket::Limit { match_limit, .. } => match_limit > 0,
            OrderPacket::ImmediateOrCancel { match_limit, .. } => match_limit > 0,
            OrderPacket::PostOnly { .. } => false,
        },
        m.book.queue(packet.order_side().other()).len() > 0,
        ({
            let entry = m.book.queue(packet.order_side().other())[0];
            let price = entry.key.price_in_ticks;
            let size = smaller(
                packet.order_size().0 as int,
                entry.value.num_base_lots.0 as int,
            );
            &&& entry.value.trader_index != seat
            &&& !is_beyond(packet.order_side(), price, packet.order_limit())
            &&& !falls_short(m, seat, packet.order_side(), price, size)
            &&& worth(m, price, size) <= u64::MAX
            &&& m.header.collected_quote_lot_fees.0 + fee_of(m, worth(m, price, size)) <= u64::MAX
        }),
    ensures
        ({
            let entry = m.book.queue(packet.order_side().other())[0];
            let price = entry.key.price_in_ticks;
            let size = smaller(
                packet.order_size().0 as int,
                entry.value.num_base_lots.0 as int,
            );
            let fills = m.place_order(seat, packet).2;
            &&& fills.len() >= 1
            &&& fills[0].maker_order_id == entry.key
            &&& fills[0].maker_seat == entry.value.trader_index
            &&& fills[0].taker_seat == seat
            &&& fills[0].price_in_ticks == price
            &&& fills[0].base_lots_filled.0 == size
            &&& fills[0].quote_lots_filled.0 == worth(m, price, size)
            &&& fills[0].fee_in_quote_lots.0 == fee_of(m, worth(m, price, size))
            &&& fills[0].maker_base_lots_remaining.0 == entry.value.num_base_lots.0 - size
        }),
{
    match packet {
        OrderPacket::PostOnly { .. } => {},
        OrderPacket::Limit {
            side,
            price_in_ticks,
            num_base_lots,
            self_trade_behavior,
            match_limit,
        } => {
            let terms = Terms {
                taker: seat,
                side,
                limit: Some(price_in_ticks),
                behavior: self_trade_behavior,
                match_limit,
            };
            lemma_first_fill(m, num_base_lots, terms);
        },
        OrderPacket::ImmediateOrCancel {
            side,
            price_in_ticks,
            num_base_lots,
            min_base_lots_to_fill,
            self_trade_behavior,
            match_limit,
        } => {
            let terms = Terms {
                taker: seat,
                side,
                limit: price_in_ticks,
                behavior: self_trade_behavior,
                match_limit,
            };
            lemma_first_fill(m, num_base_lots, terms);
        },
    }
}

/// What a pass needs to start with a fill.
pub open spec fn can_start(m: MarketModel, size: BaseLots, terms: Terms) -> bool {
    let queue = m.book.queue(terms.side.other());
    let price = queue[0].key.price_in_ticks;
    let lots = smaller(size.0 as int, queue[0].value.num_base_lots.0 as int);
    &&& size.0 > 0
    &&& terms.match_limit > 0
    &&& queue.len() > 0
    &&& queue[0].value.trader_index != terms.taker
    &&& !is_beyond(terms.side, price, terms.limit)
    &&& !falls_short(m, terms.taker, terms.side, price, lots)
    &&& worth(m, price, lots) <= u64::MAX
    &&& m.header.collected_quote_lot_fees.0 + fee_of(m, worth(m, price, lots)) <= u64::MAX
}

proof fn lemma_first_turn(m: MarketModel, size: BaseLots, terms: Terms)
    requires
        m.is_conserved(),
        m.seats.is_live(terms.taker),
        1 <= terms.taker <= m.seats.capacity(),
        can_start(m, size, terms),
    ensures
        ({
            let start = Crossing::start(m, size);
            let (after, result) = start.turn(terms);
            &&& after.fills == seq![start.next_fill(terms)]
            &&& result == Ok::<Option<MatchStop>, EngineError>(None)
        }),
{
    let start = Crossing::start(m, size);
    let entry = m.book.queue(terms.side.other())[0];
    let price = entry.key.price_in_ticks;
    let lots = BaseLots(smaller(size.0 as int, entry.value.num_base_lots.0 as int) as u64);
    let gross = QuoteLots(m.value(price, lots) as u64);
    let fee = QuoteLots(m.header.fees.fee(gross) as u64);
    m.lemma_best_is_resting(terms.side.other());
    lemma_value_is_natural(m.header.lot_config, price, lots);
    assert(m.value(price, lots) == worth(m, price, lots.0 as int));
    crate::engine::fees::law_fee_is_the_rate_rounded_up(m.header.fees, gross);
    assert(m.header.fees.fee(gross) == fee_of(m, gross.0 as int));
    assert(m.can_afford(terms.taker, terms.side, lots, gross, fee));
    law_settlement_conserves(m, terms.taker, terms.side, entry, lots);
    assert(start.next_maker(terms) == entry);
    let fill = start.next_fill(terms);
    assert(fill.base_lots_filled == lots);
    assert(fill.quote_lots_filled == gross);
    assert(fill.fee_in_quote_lots == fee);
    assert(start.stops(terms) is None);
    let (touched, result) = start.touch_other(terms);
    assert(result == Ok::<bool, EngineError>(true));
    assert(touched.fills == start.fills.push(fill));
    assert(touched.fills =~= seq![fill]);
}

proof fn lemma_first_fill(m: MarketModel, size: BaseLots, terms: Terms)
    requires
        m.is_conserved(),
        m.seats.is_live(terms.taker),
        1 <= terms.taker <= m.seats.capacity(),
        can_start(m, size, terms),
    ensures
        ({
            let entry = m.book.queue(terms.side.other())[0];
            let price = entry.key.price_in_ticks;
            let lots = smaller(size.0 as int, entry.value.num_base_lots.0 as int);
            let fills = cross_run(Crossing::start(m, size), terms).0.fills;
            &&& fills.len() >= 1
            &&& fills[0].maker_order_id == entry.key
            &&& fills[0].maker_seat == entry.value.trader_index
            &&& fills[0].taker_seat == terms.taker
            &&& fills[0].price_in_ticks == price
            &&& fills[0].base_lots_filled.0 == lots
            &&& fills[0].quote_lots_filled.0 == worth(m, price, lots)
            &&& fills[0].fee_in_quote_lots.0 == fee_of(m, worth(m, price, lots))
            &&& fills[0].maker_base_lots_remaining.0 == entry.value.num_base_lots.0 - lots
        }),
{
    let start = Crossing::start(m, size);
    let entry = m.book.queue(terms.side.other())[0];
    let price = entry.key.price_in_ticks;
    let lots = BaseLots(smaller(size.0 as int, entry.value.num_base_lots.0 as int) as u64);
    let gross = QuoteLots(m.value(price, lots) as u64);
    m.lemma_best_is_resting(terms.side.other());
    lemma_value_is_natural(m.header.lot_config, price, lots);
    crate::engine::fees::law_fee_is_the_rate_rounded_up(m.header.fees, gross);
    lemma_first_turn(m, size, terms);
    lemma_fills_only_grow(start.turn(terms).0, terms);
    assert(cross_run(start, terms).0.fills[0] == start.turn(terms).0.fills[0]);
    assert(start.next_maker(terms) == entry);
}

// ---------------------------------------------------------------------------------
// What a fill moves
// ---------------------------------------------------------------------------------

/// A fill that settles moves exactly this. Somebody who buys pays the gross and the fee out
/// of what is free, and has the size free; the maker gives the size out of what is locked,
/// and has the gross free. Somebody who sells gives the size out of what is free, and has
/// the gross less the fee free; the maker gives the gross out of what is locked, and has the
/// size free. The market earns the fee, and nothing else changes.
pub proof fn law_settlement_moves_exactly(
    m: MarketModel,
    taker: SeatIndex,
    maker: SeatIndex,
    side: Side,
    size: BaseLots,
    gross: QuoteLots,
    fee: QuoteLots,
)
    requires
        1 <= taker <= m.seats.values.len(),
        1 <= maker <= m.seats.values.len(),
        taker != maker,
        m.settle_fill(taker, maker, side, size, gross, fee).1 is Ok,
    ensures
        ({
            let after = m.settle_fill(taker, maker, side, size, gross, fee).0;
            let (t0, t1) = (m.seats.values[taker - 1], after.seats.values[taker - 1]);
            let (m0, m1) = (m.seats.values[maker - 1], after.seats.values[maker - 1]);
            let (h0, h1) = (m.header, after.header);
            &&& match side {
                Side::Bid => {
                    &&& t1.base_lots_free.0 == t0.base_lots_free.0 + size.0
                    &&& t1.quote_lots_free.0 == t0.quote_lots_free.0 - gross.0 - fee.0
                    &&& m1.base_lots_locked.0 == m0.base_lots_locked.0 - size.0
                    &&& m1.quote_lots_free.0 == m0.quote_lots_free.0 + gross.0
                    &&& m1.base_lots_free == m0.base_lots_free
                    &&& m1.quote_lots_locked == m0.quote_lots_locked
                },
                Side::Ask => {
                    &&& t1.base_lots_free.0 == t0.base_lots_free.0 - size.0
                    &&& t1.quote_lots_free.0 == t0.quote_lots_free.0 + gross.0 - fee.0
                    &&& m1.quote_lots_locked.0 == m0.quote_lots_locked.0 - gross.0
                    &&& m1.base_lots_free.0 == m0.base_lots_free.0 + size.0
                    &&& m1.quote_lots_free == m0.quote_lots_free
                    &&& m1.base_lots_locked == m0.base_lots_locked
                },
            }
            &&& t1.base_lots_locked == t0.base_lots_locked
            &&& t1.quote_lots_locked == t0.quote_lots_locked
            &&& h1.unclaimed_quote_lot_fees.0 == h0.unclaimed_quote_lot_fees.0 + fee.0
            &&& h1.collected_quote_lot_fees.0 == h0.collected_quote_lot_fees.0 + fee.0
            &&& h1.base_lots_deposited == h0.base_lots_deposited
            &&& h1.quote_lots_deposited == h0.quote_lots_deposited
            &&& h1.lot_config == h0.lot_config
            &&& h1.fees == h0.fees
            &&& after.book == m.book
            &&& after.seats.values.len() == m.seats.values.len()
            &&& forall|i: int|
                0 <= i < m.seats.values.len() && i != taker - 1 && i != maker - 1 ==> (
                #[trigger] after.seats.values[i]) == m.seats.values[i]
        }),
{
}

/// The size of the fills against one maker.
pub open spec fn base_from(fills: Seq<Fill>, maker: SeatIndex) -> int
    decreases fills.len(),
{
    if fills.len() == 0 {
        0
    } else {
        base_from(fills.drop_last(), maker) + if fills.last().maker_seat == maker {
            fills.last().base_lots_filled.0 as int
        } else {
            0
        }
    }
}

/// The value of the fills against one maker.
pub open spec fn quote_from(fills: Seq<Fill>, maker: SeatIndex) -> int
    decreases fills.len(),
{
    if fills.len() == 0 {
        0
    } else {
        quote_from(fills.drop_last(), maker) + if fills.last().maker_seat == maker {
            fills.last().quote_lots_filled.0 as int
        } else {
            0
        }
    }
}

/// Between two markets every seat's holdings moved by what the fills say, and by nothing
/// else: the taker's by their totals and fees, each maker's by its own, and everybody
/// else's not at all. Both fee totals rose by the fees.
pub open spec fn holdings_follow(
    before: MarketModel,
    after: MarketModel,
    fills: Seq<Fill>,
    taker: SeatIndex,
    side: Side,
) -> bool {
    &&& after.seats.values.len() == before.seats.values.len()
    &&& after.header.unclaimed_quote_lot_fees.0 == before.header.unclaimed_quote_lot_fees.0
        + fees_in(fills)
    &&& after.header.collected_quote_lot_fees.0 == before.header.collected_quote_lot_fees.0
        + fees_in(fills)
    &&& forall|x: SeatIndex|
        1 <= x <= before.seats.values.len() ==> moved_by(before, after, fills, taker, side, x)
}

/// One seat's holdings, free and locked together, moved by what the fills say.
pub open spec fn moved_by(
    before: MarketModel,
    after: MarketModel,
    fills: Seq<Fill>,
    taker: SeatIndex,
    side: Side,
    x: SeatIndex,
) -> bool {
    let (s, t) = (before.seats.values[x - 1], after.seats.values[x - 1]);
    let base = (t.base_lots_free.0 + t.base_lots_locked.0) - (s.base_lots_free.0
        + s.base_lots_locked.0);
    let quote = (t.quote_lots_free.0 + t.quote_lots_locked.0) - (s.quote_lots_free.0
        + s.quote_lots_locked.0);
    match side {
        Side::Bid => if x == taker {
            base == base_in(fills) && quote == -quote_in(fills) - fees_in(fills)
        } else {
            base == -base_from(fills, x) && quote == quote_from(fills, x)
        },
        Side::Ask => if x == taker {
            base == -base_in(fills) && quote == quote_in(fills) - fees_in(fills)
        } else {
            base == base_from(fills, x) && quote == -quote_from(fills, x)
        },
    }
}

/// One turn moves what its fill says.
proof fn lemma_turn_moves(before: MarketModel, state: Crossing, terms: Terms)
    requires
        state.market.is_conserved(),
        state.market.seats.is_live(terms.taker),
        1 <= terms.taker <= state.market.seats.capacity(),
        holdings_follow(before, state.market, state.fills, terms.taker, terms.side),
    ensures
        ({
            let after = state.turn(terms).0;
            holdings_follow(before, after.market, after.fills, terms.taker, terms.side)
        }),
{
    let m = state.market;
    let after = state.turn(terms).0;
    if state.stops(terms) is None {
        let entry = state.next_maker(terms);
        m.lemma_best_is_resting(terms.side.other());
        if entry.value.trader_index == terms.taker {
            if terms.behavior != SelfTradeBehavior::Abort {
                let removed = if terms.behavior == SelfTradeBehavior::CancelProvide {
                    entry.value.num_base_lots
                } else {
                    super::model::least(state.remaining, entry.value.num_base_lots)
                };
                law_releasing_backing_conserves(m, entry.key, terms.taker, removed);
                assert forall|x: SeatIndex|
                    1 <= x <= before.seats.values.len() implies moved_by(
                    before,
                    after.market,
                    after.fills,
                    terms.taker,
                    terms.side,
                    x,
                ) by {
                    assert(moved_by(before, m, state.fills, terms.taker, terms.side, x));
                }
            }
        } else if after.fills != state.fills {
            let fill = state.next_fill(terms);
            assert(after.fills == state.fills.push(fill));
            assert(after.fills.drop_last() =~= state.fills);
            law_settlement_moves_exactly(
                m,
                terms.taker,
                fill.maker_seat,
                terms.side,
                fill.base_lots_filled,
                fill.quote_lots_filled,
                fill.fee_in_quote_lots,
            );
            assert forall|x: SeatIndex|
                1 <= x <= before.seats.values.len() implies moved_by(
                before,
                after.market,
                after.fills,
                terms.taker,
                terms.side,
                x,
            ) by {
                assert(moved_by(before, m, state.fills, terms.taker, terms.side, x));
                assert(x != terms.taker && x != fill.maker_seat ==> after.market.seats.values[x - 1]
                    == m.seats.values[x - 1]);
            }
        } else {
            assert(after.market == m);
        }
    }
}

proof fn lemma_run_moves(before: MarketModel, state: Crossing, terms: Terms)
    requires
        state.market.is_conserved(),
        state.market.seats.is_live(terms.taker),
        1 <= terms.taker <= state.market.seats.capacity(),
        holdings_follow(before, state.market, state.fills, terms.taker, terms.side),
    ensures
        ({
            let end = cross_run(state, terms).0;
            holdings_follow(before, end.market, end.fills, terms.taker, terms.side)
        }),
    decreases terms.match_limit - state.touched,
{
    let (after, result) = state.turn(terms);
    lemma_turn_moves(before, state, terms);
    lemma_turn_keeps_wf(state, terms);
    if result == Ok::<Option<MatchStop>, EngineError>(None) {
        super::matching_laws::lemma_turn_conserves(state, terms);
        assert(after.market.seats.is_live(terms.taker));
        lemma_run_moves(before, after, terms);
    }
}

/// Whatever an order does, and however it ends, what every seat holds moves by its fills and
/// by nothing else. Resting an order, sliding one, and meeting one's own orders move nothing.
pub proof fn law_orders_move_only_their_fills(m: MarketModel, seat: SeatIndex, packet: OrderPacket)
    requires
        m.is_conserved(),
        m.seats.is_live(seat),
        1 <= seat <= m.seats.capacity(),
        m.book.next_sequence <= MAX_SEQUENCE_NUMBER,
    ensures
        ({
            let (after, result, fills) = m.place_order(seat, packet);
            holdings_follow(m, after, fills, seat, packet.order_side())
        }),
{
    let none = Seq::<Fill>::empty();
    assert(holdings_follow(m, m, none, seat, packet.order_side()));
    if packet.order_size().0 > 0 {
        match packet {
            OrderPacket::PostOnly { side, price_in_ticks, num_base_lots, rejection } => {
                if let Some(rest_at) = m.non_crossing_price(side, price_in_ticks) {
                    lemma_posting_moves_nothing(m, m, none, seat, side, rest_at, num_base_lots);
                }
            },
            OrderPacket::Limit {
                side,
                price_in_ticks,
                num_base_lots,
                self_trade_behavior,
                match_limit,
            } => {
                let start = Crossing::start(m, num_base_lots);
                let terms = Terms {
                    taker: seat,
                    side,
                    limit: Some(price_in_ticks),
                    behavior: self_trade_behavior,
                    match_limit,
                };
                lemma_run_moves(m, start, terms);
                law_matching_conserves(start, terms);
                let end = cross_run(start, terms).0;
                if end.remaining.0 > 0 {
                    assert(end.market.seats.is_live(seat));
                    lemma_posting_moves_nothing(
                        m,
                        end.market,
                        end.fills,
                        seat,
                        side,
                        price_in_ticks,
                        end.remaining,
                    );
                }
            },
            OrderPacket::ImmediateOrCancel {
                side,
                price_in_ticks,
                num_base_lots,
                min_base_lots_to_fill,
                self_trade_behavior,
                match_limit,
            } => {
                lemma_run_moves(
                    m,
                    Crossing::start(m, num_base_lots),
                    Terms {
                        taker: seat,
                        side,
                        limit: price_in_ticks,
                        behavior: self_trade_behavior,
                        match_limit,
                    },
                );
            },
        }
    }
}

proof fn lemma_posting_moves_nothing(
    before: MarketModel,
    m: MarketModel,
    fills: Seq<Fill>,
    seat: SeatIndex,
    side: Side,
    price: Ticks,
    size: BaseLots,
)
    requires
        m.is_conserved(),
        m.seats.is_live(seat),
        1 <= seat <= m.seats.values.len(),
        size.0 > 0,
        m.book.next_sequence <= MAX_SEQUENCE_NUMBER,
        holdings_follow(before, m, fills, seat, side),
    ensures
        holdings_follow(before, m.post(seat, side, price, size).0, fills, seat, side),
{
    let after = m.post(seat, side, price, size).0;
    law_posting_conserves(m, seat, side, price, size);
    if m.post(seat, side, price, size).1 is Ok {
        lemma_posting_in_numbers(m, seat, side, price, size);
        assert forall|x: SeatIndex|
            1 <= x <= before.seats.values.len() implies moved_by(
            before,
            after,
            fills,
            seat,
            side,
            x,
        ) by {
            assert(moved_by(before, m, fills, seat, side, x));
        }
    }
}

// ---------------------------------------------------------------------------------
// One's own orders
// ---------------------------------------------------------------------------------

/// Meeting one's own order is never a trade. Under `Abort` the order fails and nothing
/// changes. Under `CancelProvide` the resting order goes, whole, and the taker's size stays;
/// under `DecrementTake` both give up the smaller of the two sizes. What backed the size
/// that goes is free again, and nothing else moves.
pub proof fn law_own_orders_are_not_traded_with(state: Crossing, terms: Terms)
    requires
        state.market.is_conserved(),
        1 <= terms.taker <= state.market.seats.capacity(),
        state.remaining.0 > 0,
        state.touched < terms.match_limit,
        state.market.book.queue(terms.side.other()).len() > 0,
        ({
            let own = state.market.book.queue(terms.side.other())[0];
            &&& own.value.trader_index == terms.taker
            &&& !is_beyond(terms.side, own.key.price_in_ticks, terms.limit)
            &&& state.self_traded.0 + own.value.num_base_lots.0 <= u64::MAX
        }),
    ensures
        ({
            let m = state.market;
            let queue = m.book.queue(terms.side.other());
            let own = queue[0];
            let resting = own.value.num_base_lots.0 as int;
            let (after, result) = state.turn(terms);
            let gone = if terms.behavior == SelfTradeBehavior::CancelProvide {
                resting
            } else {
                smaller(state.remaining.0 as int, resting)
            };
            let (s, t) = (
                m.seats.values[terms.taker - 1],
                after.market.seats.values[terms.taker - 1],
            );
            &&& after.fills == state.fills
            &&& after.base_filled == state.base_filled
            &&& after.quote_filled == state.quote_filled
            &&& after.fee == state.fee
            &&& after.market.header == m.header
            &&& if terms.behavior == SelfTradeBehavior::Abort {
                &&& result == Err::<Option<MatchStop>, EngineError>(EngineError::SelfTradeAborted)
                &&& after.market == m
            } else {
                &&& result == Ok::<Option<MatchStop>, EngineError>(None)
                &&& after.self_traded.0 == state.self_traded.0 + gone
                &&& after.remaining.0 == state.remaining.0 - (if terms.behavior
                    == SelfTradeBehavior::DecrementTake {
                    gone
                } else {
                    0
                })
                &&& gone == resting ==> after.market.book.queue(terms.side.other())
                    == queue.drop_first()
                &&& gone < resting ==> after.market.book.get(own.key) == Some(
                    RestingOrder { num_base_lots: BaseLots((resting - gone) as u64), ..own.value },
                )
                &&& match terms.side {
                    Side::Bid => {
                        &&& t.base_lots_free.0 == s.base_lots_free.0 + gone
                        &&& t.base_lots_locked.0 == s.base_lots_locked.0 - gone
                        &&& t.quote_lots_free == s.quote_lots_free
                        &&& t.quote_lots_locked == s.quote_lots_locked
                    },
                    Side::Ask => {
                        &&& t.quote_lots_free.0 == s.quote_lots_free.0 + worth(
                            m,
                            own.key.price_in_ticks,
                            gone,
                        )
                        &&& t.quote_lots_locked.0 == s.quote_lots_locked.0 - worth(
                            m,
                            own.key.price_in_ticks,
                            gone,
                        )
                        &&& t.base_lots_free == s.base_lots_free
                        &&& t.base_lots_locked == s.base_lots_locked
                    },
                }
                &&& forall|i: int|
                    0 <= i < m.seats.values.len() && i != terms.taker - 1 ==> (
                    #[trigger] after.market.seats.values[i]) == m.seats.values[i]
            }
        }),
{
    let m = state.market;
    let own = m.book.queue(terms.side.other())[0];
    let removed = if terms.behavior == SelfTradeBehavior::CancelProvide {
        own.value.num_base_lots
    } else {
        super::model::least(state.remaining, own.value.num_base_lots)
    };
    let left = BaseLots((own.value.num_base_lots.0 - removed.0) as u64);
    m.lemma_best_is_resting(terms.side.other());
    law_releasing_backing_conserves(m, own.key, terms.taker, removed);
    lemma_value_is_natural(m.header.lot_config, own.key.price_in_ticks, removed);
    lemma_queue_head(m.book, terms.side.other(), left);
    if left.0 > 0 {
        crate::book::view::law_reducing_keeps_the_queue(m.book, own.key, left);
    }
}

// ---------------------------------------------------------------------------------
// What rests
// ---------------------------------------------------------------------------------

/// Whether an order of a seat rests under its id, as the newest of its side.
pub open spec fn rests_newest(
    before: MarketModel,
    after: MarketModel,
    id: crate::order::FIFOOrderId,
    seat: SeatIndex,
    side: Side,
    price: Ticks,
    size: int,
) -> bool {
    &&& id.price_in_ticks == price
    &&& id.tagged_side() == side
    &&& id.raw_sequence() == before.book.next_sequence
    &&& after.book.next_sequence == before.book.next_sequence + 1
    &&& match after.book.get(id) {
        Some(order) => {
            &&& order.trader_index == seat
            &&& order.num_base_lots.0 == size
            &&& order.last_valid_slot == 0
            &&& order.last_valid_unix_timestamp_in_seconds == 0
        },
        None => false,
    }
}

/// Resting an order takes room on its side and free funds behind it, and nothing more: the
/// size for an ask, what it is worth at its price for a bid. What it takes is locked, it
/// rests at its price with its size, and a refusal changes nothing.
pub proof fn law_resting_takes_room_and_funds(
    m: MarketModel,
    seat: SeatIndex,
    side: Side,
    price: Ticks,
    size: BaseLots,
)
    requires
        m.is_conserved(),
        m.seats.is_live(seat),
        1 <= seat <= m.seats.capacity(),
        size.0 > 0,
        m.book.next_sequence <= MAX_SEQUENCE_NUMBER,
    ensures
        ({
            let (after, result) = m.post(seat, side, price, size);
            let s = m.seats.values[seat - 1];
            let cost = match side {
                Side::Bid => worth(m, price, size.0 as int),
                Side::Ask => size.0 as int,
            };
            let covered = match side {
                Side::Bid => cost <= s.quote_lots_free.0,
                Side::Ask => cost <= s.base_lots_free.0,
            };
            let room = m.book.side(side).order.len() < m.book.side(side).keys.len();
            &&& result is Ok <==> covered && room
            &&& result is Err ==> after == m
            &&& covered && !room ==> result == Err::<crate::order::FIFOOrderId, EngineError>(
                EngineError::BookSideFull,
            )
            &&& !covered ==> result == Err::<crate::order::FIFOOrderId, EngineError>(
                match side {
                    Side::Bid => if cost > u64::MAX {
                        EngineError::Overflow
                    } else {
                        EngineError::InsufficientQuoteFunds
                    },
                    Side::Ask => EngineError::InsufficientBaseFunds,
                },
            )
            &&& result is Ok ==> rests_newest(
                m,
                after,
                result->Ok_0,
                seat,
                side,
                price,
                size.0 as int,
            )
        }),
{
    let config = m.header.lot_config;
    lemma_backed(m, seat);
    lemma_seat_bounded(m, seat, seat);
    lemma_value_is_natural(config, price, size);
    law_posting_conserves(m, seat, side, price, size);
    let (after, result) = m.post(seat, side, price, size);
    let (backed, locked) = m.lock_backing(seat, side, price, size);
    if locked is Ok && !m.book.side(side).is_full() {
        let order = RestingOrder::lasting(seat as u64, size);
        let id = m.book.next_id(side, price);
        crate::book::view::lemma_next_id_is_new(m.book, side, price);
        m.book.side(side).lemma_with_new(id, order);
        assert(backed.book == m.book);
        assert(after.book == m.book.placed(side, price, order));
        assert(after.book.get(id) == Some(order));
    } else if locked is Ok {
        let (undone, unlocked) = backed.undo_lock(seat, side, price, size);
        assert(unlocked is Ok);
    }
}

/// What is left of a limit order rests at its own price, under the next number, with all of
/// what is left; an order that leaves nothing rests nowhere.
pub proof fn law_limit_orders_rest_what_is_left(
    m: MarketModel,
    seat: SeatIndex,
    side: Side,
    price_in_ticks: Ticks,
    num_base_lots: BaseLots,
    self_trade_behavior: SelfTradeBehavior,
    match_limit: u32,
)
    requires
        m.is_conserved(),
        m.seats.is_live(seat),
        1 <= seat <= m.seats.capacity(),
        m.book.next_sequence <= MAX_SEQUENCE_NUMBER,
    ensures
        ({
            let packet = OrderPacket::Limit {
                side,
                price_in_ticks,
                num_base_lots,
                self_trade_behavior,
                match_limit,
            };
            let (after, result, fills) = m.place_order(seat, packet);
            match result {
                Ok(outcome) => match outcome.order_id {
                    Some(id) => {
                        &&& outcome.base_lots_posted.0 > 0
                        &&& rests_newest(
                            m,
                            after,
                            id,
                            seat,
                            side,
                            price_in_ticks,
                            outcome.base_lots_posted.0 as int,
                        )
                    },
                    None => {
                        &&& outcome.base_lots_posted.0 == 0
                        &&& after.book.queue(side) == m.book.queue(side)
                        &&& after.book.next_sequence == m.book.next_sequence
                    },
                },
                Err(_) => true,
            }
        }),
{
    let terms = Terms {
        taker: seat,
        side,
        limit: Some(price_in_ticks),
        behavior: self_trade_behavior,
        match_limit,
    };
    let start = Crossing::start(m, num_base_lots);
    let (end, stopped) = cross_run(start, terms);
    law_matching_conserves(start, terms);
    lemma_run_keeps_wf(start, terms);
    lemma_run_is_bounded(start, terms);
    if num_base_lots.0 > 0 && stopped is Ok && end.remaining.0 > 0 {
        assert(end.market.seats.is_live(seat));
        law_resting_takes_room_and_funds(
            end.market,
            seat,
            side,
            price_in_ticks,
            end.remaining,
        );
    }
}

/// Where a post-only order rests: at its own price if that does not meet the other side;
/// otherwise it is refused, or slides to the tick next to the touch, if there is one.
pub proof fn law_post_only_orders_rest_or_slide(
    m: MarketModel,
    seat: SeatIndex,
    side: Side,
    price_in_ticks: Ticks,
    num_base_lots: BaseLots,
    rejection: PostOnlyRejection,
)
    requires
        m.is_conserved(),
        m.seats.is_live(seat),
        1 <= seat <= m.seats.capacity(),
        num_base_lots.0 > 0,
        m.book.next_sequence <= MAX_SEQUENCE_NUMBER,
    ensures
        ({
            let packet = OrderPacket::PostOnly { side, price_in_ticks, num_base_lots, rejection };
            let (after, result, fills) = m.place_order(seat, packet);
            let meets = meets_the_other_side(m, side, price_in_ticks);
            let touch = m.book.queue(side.other())[0].key.price_in_ticks.0;
            let nowhere = match side {
                Side::Bid => touch <= 1,
                Side::Ask => touch == u64::MAX,
            };
            let rest_at = if !meets {
                price_in_ticks
            } else {
                match side {
                    Side::Bid => Ticks((touch - 1) as u64),
                    Side::Ask => Ticks((touch + 1) as u64),
                }
            };
            &&& fills.len() == 0
            &&& if meets && rejection == PostOnlyRejection::Reject {
                result is Err && result->Err_0 == EngineError::PostOnlyWouldCross && after == m
            } else if meets && nowhere {
                result is Err && result->Err_0 == EngineError::PostOnlyNoRoom && after == m
            } else {
                match m.post(seat, side, rest_at, num_base_lots).1 {
                    Ok(id) => {
                        &&& result is Ok
                        &&& result->Ok_0.order_id == Some(id)
                        &&& result->Ok_0.base_lots_posted == num_base_lots
                        &&& result->Ok_0.stop == MatchStop::DidNotCross
                        &&& rests_newest(
                            m,
                            after,
                            id,
                            seat,
                            side,
                            rest_at,
                            num_base_lots.0 as int,
                        )
                    },
                    Err(error) => result is Err && result->Err_0 == error && after == m,
                }
            }
        }),
{
    let touch = m.book.queue(side.other())[0].key.price_in_ticks.0;
    let rest_at = if !meets_the_other_side(m, side, price_in_ticks) {
        price_in_ticks
    } else {
        match side {
            Side::Bid => Ticks((touch - 1) as u64),
            Side::Ask => Ticks((touch + 1) as u64),
        }
    };
    law_resting_takes_room_and_funds(m, seat, side, rest_at, num_base_lots);
}

/// What is refused outright, before anything else: an order of no size, and then an order of
/// no seat. An immediate order that is not refused has filled its minimum.
pub proof fn law_orders_are_refused(m: MarketModel, seat: SeatIndex, packet: OrderPacket)
    ensures
        ({
            let (after, result, fills) = m.place_order(seat, packet);
            &&& packet.order_size().0 == 0 ==> result is Err && result->Err_0
                == EngineError::ZeroSize && after == m && fills.len() == 0
            &&& packet.order_size().0 > 0 && seat == 0 ==> result is Err && result->Err_0
                == EngineError::SeatNotFound && after == m && fills.len() == 0
            &&& packet is ImmediateOrCancel && result is Ok ==> result->Ok_0.base_lots_filled.0
                >= packet->min_base_lots_to_fill.0
        }),
{
}

} // verus!
