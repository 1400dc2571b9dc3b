//! What matching promises: settlement cannot fail for lack of funds, every fill is at the
//! maker's price and in priority order, and value is conserved throughout.

use vstd::prelude::*;

#[allow(unused_imports)]
use super::backing::{
    lemma_order_backed, lemma_order_resized, lemma_seat_bounded, lemma_seat_replaced,
};
#[allow(unused_imports)]
use super::laws::{
    law_posting_conserves, law_releasing_backing_conserves, lemma_backed, lemma_conserved_again,
};
use super::model::{accepts, cross_run, least, Crossing, MarketModel, Terms};
#[allow(unused_imports)]
use crate::book::view::{in_priority_order, law_queue_is_price_time_priority};
use crate::book::{BookEntry, BookView};
use crate::engine::error::EngineError;
#[allow(unused_imports)]
use crate::engine::fees::law_fee_is_the_rate_rounded_up;
use crate::engine::fill::{Fill, MatchStop};
use crate::engine::packet::{OrderPacket, PostOnlyRejection, SelfTradeBehavior};
use crate::engine::trader::SeatIndex;
use crate::order::{Side, MAX_SEQUENCE_NUMBER};
#[allow(unused_imports)]
use crate::quantities::lots::{
    law_value_is_additive, law_value_is_monotonic, lemma_value_is_natural,
};
use crate::quantities::{BaseLots, QuoteLots, Ticks};

verus! {

/// Settlement cannot fail for lack of funds: when the taker can pay, the maker's side is
/// already committed, so the fill settles, and it conserves value. The one thing that can
/// stop it is the lifetime fee total running over, and then nothing has moved.
pub proof fn law_settlement_conserves(
    m: MarketModel,
    taker: SeatIndex,
    side: Side,
    entry: BookEntry,
    size: BaseLots,
)
    requires
        m.is_conserved(),
        m.book.best(side.other()) == Some(entry),
        m.seats.is_live(taker),
        entry.value.trader_index != taker,
        size.0 <= entry.value.num_base_lots.0,
        m.value(entry.key.price_in_ticks, size) <= u64::MAX,
        ({
            let gross = QuoteLots(m.value(entry.key.price_in_ticks, size) as u64);
            let fee = QuoteLots(m.header.fees.fee(gross) as u64);
            m.can_afford(taker, side, size, gross, fee)
        }),
    ensures
        ({
            let gross = QuoteLots(m.value(entry.key.price_in_ticks, size) as u64);
            let fee = QuoteLots(m.header.fees.fee(gross) as u64);
            let maker = entry.value.trader_index as SeatIndex;
            let (paid, result) = m.settle_fill(taker, maker, side, size, gross, fee);
            let left = BaseLots((entry.value.num_base_lots.0 - size.0) as u64);
            if m.header.collected_quote_lot_fees.0 + fee.0 <= u64::MAX {
                &&& result is Ok
                &&& paid.with_book(paid.book.resized(entry.key, left)).is_conserved()
            } else {
                &&& result == Err::<(), EngineError>(EngineError::Overflow)
                &&& paid == m
            }
        }),
{
    let gross = QuoteLots(m.value(entry.key.price_in_ticks, size) as u64);
    let fee = QuoteLots(m.header.fees.fee(gross) as u64);
    if m.header.collected_quote_lot_fees.0 + fee.0 <= u64::MAX {
        lemma_settlement_conserves(m, taker, side, entry, size);
    } else {
        lemma_settles(m, taker, side, entry, size);
    }
}

/// When the taker can pay, no balance stands in the way of a fill.
proof fn lemma_settles(
    m: MarketModel,
    taker: SeatIndex,
    side: Side,
    entry: BookEntry,
    size: BaseLots,
)
    requires
        m.is_conserved(),
        m.book.best(side.other()) == Some(entry),
        m.seats.is_live(taker),
        entry.value.trader_index != taker,
        size.0 <= entry.value.num_base_lots.0,
        m.value(entry.key.price_in_ticks, size) <= u64::MAX,
        ({
            let gross = QuoteLots(m.value(entry.key.price_in_ticks, size) as u64);
            let fee = QuoteLots(m.header.fees.fee(gross) as u64);
            m.can_afford(taker, side, size, gross, fee)
        }),
    ensures
        ({
            let gross = QuoteLots(m.value(entry.key.price_in_ticks, size) as u64);
            let fee = QuoteLots(m.header.fees.fee(gross) as u64);
            let maker = entry.value.trader_index as SeatIndex;
            &&& m.settled_seats(taker, maker, side, size, gross, fee) is Ok
            &&& m.header.unclaimed_quote_lot_fees.0 + fee.0 <= u64::MAX
        }),
{
    let config = m.header.lot_config;
    let price = entry.key.price_in_ticks;
    let id = entry.key;
    let gross = QuoteLots(m.value(price, size) as u64);
    let fee = QuoteLots(m.header.fees.fee(gross) as u64);
    let maker = entry.value.trader_index as SeatIndex;
    let book_side = side.other();
    m.lemma_best_is_resting(book_side);
    let tree = m.book.side(book_side);
    tree.lemma_present(id);
    assert(tree.value_at(tree.position(id)) == entry.value);
    assert(m.seats.is_live(tree.value_at(tree.position(id)).trader_index as SeatIndex));
    lemma_backed(m, maker);
    lemma_backed(m, taker);
    lemma_order_backed(m, id);
    lemma_seat_bounded(m, maker, taker);
    lemma_seat_bounded(m, taker, maker);
    lemma_value_is_natural(config, price, size);
    law_value_is_monotonic(config, price, price, size, entry.value.num_base_lots);
    law_fee_is_the_rate_rounded_up(m.header.fees, gross);
    let settled = m.settled_seats(taker, maker, side, size, gross, fee);
    assert(settled is Ok);
}

/// A fill that settles conserves value.
proof fn lemma_settlement_conserves(
    m: MarketModel,
    taker: SeatIndex,
    side: Side,
    entry: BookEntry,
    size: BaseLots,
)
    requires
        m.is_conserved(),
        m.book.best(side.other()) == Some(entry),
        m.seats.is_live(taker),
        entry.value.trader_index != taker,
        size.0 <= entry.value.num_base_lots.0,
        m.value(entry.key.price_in_ticks, size) <= u64::MAX,
        ({
            let gross = QuoteLots(m.value(entry.key.price_in_ticks, size) as u64);
            let fee = QuoteLots(m.header.fees.fee(gross) as u64);
            &&& m.can_afford(taker, side, size, gross, fee)
            &&& m.header.collected_quote_lot_fees.0 + fee.0 <= u64::MAX
        }),
    ensures
        ({
            let gross = QuoteLots(m.value(entry.key.price_in_ticks, size) as u64);
            let fee = QuoteLots(m.header.fees.fee(gross) as u64);
            let maker = entry.value.trader_index as SeatIndex;
            let (paid, result) = m.settle_fill(taker, maker, side, size, gross, fee);
            let left = BaseLots((entry.value.num_base_lots.0 - size.0) as u64);
            &&& result is Ok
            &&& paid.with_book(paid.book.resized(entry.key, left)).is_conserved()
        }),
{
    let config = m.header.lot_config;
    let price = entry.key.price_in_ticks;
    let id = entry.key;
    let gross = QuoteLots(m.value(price, size) as u64);
    let fee = QuoteLots(m.header.fees.fee(gross) as u64);
    let maker = entry.value.trader_index as SeatIndex;
    let left = BaseLots((entry.value.num_base_lots.0 - size.0) as u64);
    let book_side = side.other();
    m.lemma_best_is_resting(book_side);
    let tree = m.book.side(book_side);
    tree.lemma_present(id);
    assert(tree.value_at(tree.position(id)) == entry.value);
    assert(m.seats.is_live(tree.value_at(tree.position(id)).trader_index as SeatIndex));
    lemma_backed(m, maker);
    lemma_backed(m, taker);
    lemma_order_backed(m, id);
    lemma_seat_bounded(m, maker, taker);
    lemma_seat_bounded(m, taker, maker);
    lemma_value_is_natural(config, price, size);
    law_value_is_monotonic(config, price, price, size, entry.value.num_base_lots);
    law_value_is_additive(config, price, size, left);
    law_fee_is_the_rate_rounded_up(m.header.fees, gross);
    let settled = m.settled_seats(taker, maker, side, size, gross, fee);
    assert(settled is Ok);
    let (ms, ts) = settled->Ok_0;
    lemma_seat_replaced(m, maker, ms);
    let one = m.with_seat(maker, ms);
    assert(one.seats.is_live(taker));
    lemma_seat_replaced(one, taker, ts);
    let two = one.with_seat(taker, ts);
    let (paid, result) = two.accrue_fee(fee);
    assert(result is Ok);
    assert(m.settle_fill(taker, maker, side, size, gross, fee).0 == paid);
    assert(paid.wf());
    lemma_order_resized(paid, id, left);
    let after = paid.with_book(paid.book.resized(id, left));
    assert(paid.base_owned() == two.base_owned());
    assert(paid.quote_owned() == two.quote_owned());
    assert(after.base_owned() == paid.base_owned());
    assert(after.quote_owned() == paid.quote_owned());
    assert(paid.orders_are_owned());
    assert forall|x: SeatIndex| m.seats.is_live(x) implies #[trigger] after.seat(
        x,
    ).base_lots_locked.0 == after.base_backing(x) && after.seat(x).quote_lots_locked.0
        == after.quote_backing(x) by {
        lemma_backed(m, x);
        assert(one.seats.is_live(x));
        assert(one.seat(x) == if x == maker {
            ms
        } else {
            m.seat(x)
        });
        assert(two.seat(x) == if x == taker {
            ts
        } else {
            one.seat(x)
        });
        assert(after.seat(x) == two.seat(x));
        assert(one.base_backing(x) == m.base_backing(x));
        assert(one.quote_backing(x) == m.quote_backing(x));
        assert(two.base_backing(x) == one.base_backing(x));
        assert(two.quote_backing(x) == one.quote_backing(x));
        assert(paid.base_backing(x) == two.base_backing(x));
        assert(paid.quote_backing(x) == two.quote_backing(x));
        assert(after.backing(book_side, x) == paid.backing(book_side, x) - (if
            entry.value.trader_index == x {
            m.cost(book_side, price, entry.value.num_base_lots) - m.cost(book_side, price, left)
        } else {
            0
        }));
        assert(after.backing(side, x) == paid.backing(side, x)) by {
            assert(side == book_side.other());
            assert(after.backing(book_side.other(), x) == paid.backing(book_side.other(), x));
        }
        match side {
            Side::Bid => {
                assert(after.base_backing(x) == after.backing(book_side, x));
                assert(after.quote_backing(x) == after.backing(side, x));
            },
            Side::Ask => {
                assert(after.quote_backing(x) == after.backing(book_side, x));
                assert(after.base_backing(x) == after.backing(side, x));
            },
        }
    }
    lemma_conserved_again(m, after);
}

/// One turn of the loop conserves value.
pub(crate) proof fn lemma_turn_conserves(state: Crossing, terms: Terms)
    requires
        state.market.is_conserved(),
        state.market.seats.is_live(terms.taker),
    ensures
        state.turn(terms).0.market.is_conserved(),
        state.turn(terms).0.market.seats.order == state.market.seats.order,
        state.turn(terms).0.market.book.next_sequence == state.market.book.next_sequence,
{
    let m = state.market;
    if state.stops(terms) is None {
        let entry = state.next_maker(terms);
        m.lemma_best_is_resting(terms.side.other());
        if entry.value.trader_index == terms.taker {
            if terms.behavior != SelfTradeBehavior::Abort {
                let removed = if terms.behavior == SelfTradeBehavior::CancelProvide {
                    entry.value.num_base_lots
                } else {
                    least(state.remaining, entry.value.num_base_lots)
                };
                law_releasing_backing_conserves(m, entry.key, terms.taker, removed);
                let freed = m.unlock_backing(entry.key, terms.taker, removed).0;
                let left = BaseLots((entry.value.num_base_lots.0 - removed.0) as u64);
                assert(state.turn(terms).0.market == freed.with_book(
                    freed.book.resized(entry.key, left),
                ));
            }
        } else {
            let fill = state.next_fill(terms);
            let price = entry.key.price_in_ticks;
            let size = fill.base_lots_filled;
            if m.value(price, size) <= u64::MAX {
                law_fee_is_the_rate_rounded_up(m.header.fees, fill.quote_lots_filled);
                if m.can_afford(
                    terms.taker,
                    terms.side,
                    size,
                    fill.quote_lots_filled,
                    fill.fee_in_quote_lots,
                ) {
                    law_settlement_conserves(m, terms.taker, terms.side, entry, size);
                    let paid = m.settle_fill(
                        terms.taker,
                        fill.maker_seat,
                        terms.side,
                        size,
                        fill.quote_lots_filled,
                        fill.fee_in_quote_lots,
                    ).0;
                    if m.header.collected_quote_lot_fees.0 + fill.fee_in_quote_lots.0
                        <= u64::MAX {
                        assert(state.turn(terms).0.market == paid.with_book(
                            paid.book.resized(entry.key, fill.maker_base_lots_remaining),
                        ));
                    }
                }
            }
        }
    }
}

/// Matching conserves value, however it ends.
pub proof fn law_matching_conserves(state: Crossing, terms: Terms)
    requires
        state.market.is_conserved(),
        state.market.seats.is_live(terms.taker),
    ensures
        cross_run(state, terms).0.market.is_conserved(),
        cross_run(state, terms).0.market.seats.order == state.market.seats.order,
        cross_run(state, terms).0.market.book.next_sequence == state.market.book.next_sequence,
    decreases terms.match_limit - state.touched,
{
    lemma_turn_conserves(state, terms);
    let (after, result) = state.turn(terms);
    if result == Ok::<Option<MatchStop>, EngineError>(None) {
        law_matching_conserves(after, terms);
    }
}

/// Submitting any order on behalf of a claimed seat conserves value, whether the order
/// succeeds or fails.
pub proof fn law_placing_conserves(m: MarketModel, seat: SeatIndex, packet: OrderPacket)
    requires
        m.is_conserved(),
        m.seats.is_live(seat),
        m.book.next_sequence <= MAX_SEQUENCE_NUMBER,
    ensures
        m.place_order(seat, packet).0.is_conserved(),
{
    lemma_backed(m, seat);
    if packet.order_size().0 > 0 {
        match packet {
            OrderPacket::PostOnly { side, price_in_ticks, num_base_lots, rejection } => {
                if let Some(rest_at) = m.non_crossing_price(side, price_in_ticks) {
                    law_posting_conserves(m, seat, side, rest_at, num_base_lots);
                }
            },
            OrderPacket::Limit {
                side,
                price_in_ticks,
                num_base_lots,
                self_trade_behavior,
                match_limit,
            } => {
                let start = Crossing::start(m, num_base_lots);
                let terms = Terms {
                    taker: seat,
                    side,
                    limit: Some(price_in_ticks),
                    behavior: self_trade_behavior,
                    match_limit,
                };
                law_matching_conserves(start, terms);
                let end = cross_run(start, terms).0;
                if end.remaining.0 > 0 {
                    assert(end.market.seats.is_live(seat));
                    law_posting_conserves(end.market, seat, side, price_in_ticks, end.remaining);
                }
            },
            OrderPacket::ImmediateOrCancel {
                side,
                price_in_ticks,
                num_base_lots,
                min_base_lots_to_fill,
                self_trade_behavior,
                match_limit,
            } => {
                law_matching_conserves(
                    Crossing::start(m, num_base_lots),
                    Terms {
                        taker: seat,
                        side,
                        limit: price_in_ticks,
                        behavior: self_trade_behavior,
                        match_limit,
                    },
                );
            },
        }
    }
}

// ---------------------------------------------------------------------------------
// Price, priority and totals
// ---------------------------------------------------------------------------------

/// A fill is at the maker's price, within the taker's limit, between two different seats,
/// worth exactly its size at that price, and charged exactly the fee on that.
pub open spec fn is_fair(fill: Fill, market: MarketModel, terms: Terms) -> bool {
    &&& fill.price_in_ticks == fill.maker_order_id.price_in_ticks
    &&& fill.maker_order_id.tagged_side() == terms.side.other()
    &&& accepts(terms.side, fill.price_in_ticks, terms.limit)
    &&& fill.taker_seat == terms.taker
    &&& fill.maker_seat != terms.taker
    &&& fill.quote_lots_filled.0 == market.value(fill.price_in_ticks, fill.base_lots_filled)
    &&& fill.fee_in_quote_lots.0 == market.header.fees.fee(fill.quote_lots_filled)
}

/// Every fill so far is fair.
pub open spec fn all_fair(fills: Seq<Fill>, market: MarketModel, terms: Terms) -> bool {
    forall|i: int| 0 <= i < fills.len() ==> is_fair(#[trigger] fills[i], market, terms)
}

pub(crate) proof fn lemma_turn_keeps_wf(state: Crossing, terms: Terms)
    requires
        state.market.wf(),
        1 <= terms.taker <= state.market.seats.capacity(),
    ensures
        state.turn(terms).0.market.wf(),
        state.turn(terms).0.market.seats.capacity() == state.market.seats.capacity(),
        state.turn(terms).0.market.header.lot_config == state.market.header.lot_config,
        state.turn(terms).0.market.header.fees == state.market.header.fees,
{
    let m = state.market;
    if state.stops(terms) is None {
        let entry = state.next_maker(terms);
        m.lemma_best_is_resting(terms.side.other());
        if entry.value.trader_index == terms.taker {
            let removed = if terms.behavior == SelfTradeBehavior::CancelProvide {
                entry.value.num_base_lots
            } else {
                least(state.remaining, entry.value.num_base_lots)
            };
            let freed = m.unlock_backing(entry.key, terms.taker, removed).0;
            m.seats.lemma_with_value(terms.taker, freed.seat(terms.taker));
            assert(freed.wf());
            freed.lemma_resized(
                entry.key,
                BaseLots((entry.value.num_base_lots.0 - removed.0) as u64),
            );
        } else {
            let fill = state.next_fill(terms);
            let maker = fill.maker_seat;
            let settled = m.settled_seats(
                terms.taker,
                maker,
                terms.side,
                fill.base_lots_filled,
                fill.quote_lots_filled,
                fill.fee_in_quote_lots,
            );
            if let Ok((ms, ts)) = settled {
                m.seats.lemma_with_value(maker, ms);
                let one = m.with_seat(maker, ms);
                one.seats.lemma_with_value(terms.taker, ts);
                let two = one.with_seat(terms.taker, ts);
                let paid = two.accrue_fee(fill.fee_in_quote_lots).0;
                assert(paid.wf());
                paid.lemma_resized(entry.key, fill.maker_base_lots_remaining);
                assert(m.accrue_fee(fill.fee_in_quote_lots).1 is Ok ==> m.accrue_fee(
                    fill.fee_in_quote_lots,
                ).0.with_seat(maker, ms).with_seat(terms.taker, ts) == paid);
            }
        }
    }
}

proof fn lemma_next_fill_is_fair(state: Crossing, terms: Terms)
    requires
        state.market.wf(),
        state.stops(terms) is None,
        state.next_maker(terms).value.trader_index != terms.taker,
        state.market.value(
            state.next_maker(terms).key.price_in_ticks,
            state.next_fill(terms).base_lots_filled,
        ) <= u64::MAX,
    ensures
        is_fair(state.next_fill(terms), state.market, terms),
{
    let m = state.market;
    let entry = state.next_maker(terms);
    let fill = state.next_fill(terms);
    m.lemma_best_is_resting(terms.side.other());
    lemma_value_is_natural(
        m.header.lot_config,
        entry.key.price_in_ticks,
        fill.base_lots_filled,
    );
    law_fee_is_the_rate_rounded_up(m.header.fees, fill.quote_lots_filled);
}

/// Every fill of a pass is at the maker's price and within the taker's limit, is worth
/// exactly its size at that price, and pays exactly the fee on that.
pub proof fn law_fills_are_fair(state: Crossing, terms: Terms)
    requires
        state.market.wf(),
        1 <= terms.taker <= state.market.seats.capacity(),
        all_fair(state.fills, state.market, terms),
    ensures
        all_fair(cross_run(state, terms).0.fills, state.market, terms),
    decreases terms.match_limit - state.touched,
{
    let (after, result) = state.turn(terms);
    lemma_turn_keeps_wf(state, terms);
    if after.fills != state.fills {
        lemma_next_fill_is_fair(state, terms);
        assert(after.fills == state.fills.push(state.next_fill(terms)));
    }
    assert(all_fair(after.fills, state.market, terms));
    if result == Ok::<Option<MatchStop>, EngineError>(None) {
        assert forall|i: int| 0 <= i < after.fills.len() implies is_fair(
            #[trigger] after.fills[i],
            after.market,
            terms,
        ) by {
            assert(is_fair(after.fills[i], state.market, terms));
        }
        law_fills_are_fair(after, terms);
        let end = cross_run(after, terms).0;
        assert forall|i: int| 0 <= i < end.fills.len() implies is_fair(
            #[trigger] end.fills[i],
            state.market,
            terms,
        ) by {
            assert(is_fair(end.fills[i], after.market, terms));
        }
    }
}

/// The total size of some fills.
pub open spec fn base_in(fills: Seq<Fill>) -> int
    decreases fills.len(),
{
    if fills.len() == 0 {
        0
    } else {
        base_in(fills.drop_last()) + fills.last().base_lots_filled.0
    }
}

/// The total value of some fills.
pub open spec fn quote_in(fills: Seq<Fill>) -> int
    decreases fills.len(),
{
    if fills.len() == 0 {
        0
    } else {
        quote_in(fills.drop_last()) + fills.last().quote_lots_filled.0
    }
}

/// The total fee of some fills.
pub open spec fn fees_in(fills: Seq<Fill>) -> int
    decreases fills.len(),
{
    if fills.len() == 0 {
        0
    } else {
        fees_in(fills.drop_last()) + fills.last().fee_in_quote_lots.0
    }
}

/// The running totals are the totals of the fills, and every lot of the order is filled,
/// decremented against the taker's own orders, or still to fill.
pub open spec fn adds_up(state: Crossing, terms: Terms, size: BaseLots) -> bool {
    &&& state.base_filled.0 == base_in(state.fills)
    &&& state.quote_filled.0 == quote_in(state.fills)
    &&& state.fee.0 == fees_in(state.fills)
    &&& size.0 == state.base_filled.0 + state.remaining.0 + (if terms.behavior
        == SelfTradeBehavior::DecrementTake {
        state.self_traded.0 as int
    } else {
        0
    })
}

/// A pass that ends without an error reports totals that are the totals of its fills, and
/// accounts for every lot of the order.
pub proof fn law_totals_add_up(state: Crossing, terms: Terms, size: BaseLots)
    requires
        adds_up(state, terms, size),
        cross_run(state, terms).1 is Ok,
    ensures
        adds_up(cross_run(state, terms).0, terms, size),
    decreases terms.match_limit - state.touched,
{
    let (after, result) = state.turn(terms);
    if after.fills != state.fills {
        assert(after.fills == state.fills.push(state.next_fill(terms)));
        assert(after.fills.drop_last() =~= state.fills);
    }
    if result == Ok::<Option<MatchStop>, EngineError>(None) {
        law_totals_add_up(after, terms, size);
    }
}

/// Taking the best order off a side takes the head off its queue; shrinking it leaves the
/// queue's ids as they are.
pub proof fn lemma_queue_head(book: BookView, side: Side, size: BaseLots)
    requires
        book.wf(),
        book.best(side) is Some,
    ensures
        ({
            let id = (book.best(side)->0).key;
            let after = book.resized(id, size);
            &&& size.0 == 0 ==> after.queue(side) == book.queue(side).drop_first()
            &&& size.0 > 0 ==> after.queue(side).len() == book.queue(side).len()
            &&& forall|i: int|
                size.0 > 0 && 0 <= i < book.queue(side).len() ==> (#[trigger] after.queue(
                    side,
                )[i]).key == book.queue(side)[i].key
        }),
{
    let tree = book.side(side);
    let n = tree.order.len();
    let k = match side {
        Side::Bid => n - 1,
        Side::Ask => 0,
    };
    let entry = book.best(side)->0;
    let id = entry.key;
    assert(entry == tree.entry_at(k));
    assert(tree.key_at(k).tagged_side() == side);
    tree.lemma_position_present(id, k);
    let after = book.resized(id, size);
    if size.0 == 0 {
        tree.lemma_without_place(k);
        match side {
            Side::Bid => {
                assert(tree.entries().remove(k).reverse() =~= tree.entries().reverse().drop_first());
            },
            Side::Ask => {
                assert(tree.entries().remove(k) =~= tree.entries().drop_first());
            },
        }
    } else {
        crate::book::view::law_reducing_keeps_the_queue(book, id, size);
    }
}

/// The fills so far consumed the queue in order, and while there is size left to fill they
/// used up every maker they hit.
pub open spec fn follows_priority(state: Crossing, terms: Terms) -> bool {
    let side = terms.side.other();
    let queue = state.market.book.queue(side);
    &&& consumes_in_order(state.fills, queue, side)
    &&& state.remaining.0 > 0 ==> forall|i: int, j: int|
        0 <= i < state.fills.len() && 0 <= j < queue.len() ==> (
        #[trigger] state.fills[i]).maker_order_id.outranks((#[trigger] queue[j]).key, side)
    &&& state.remaining.0 > 0 ==> forall|i: int|
        0 <= i < state.fills.len() ==> (
        #[trigger] state.fills[i]).maker_base_lots_remaining.0 == 0
}

/// Each maker outranks the makers hit after it.
pub open spec fn fills_in_priority_order(fills: Seq<Fill>, side: Side) -> bool {
    forall|i: int, j: int|
        0 <= i < j < fills.len() ==> (#[trigger] fills[i]).maker_order_id.outranks(
            (#[trigger] fills[j]).maker_order_id,
            side,
        )
}

/// Fills that consumed a queue from its front: each maker outranks the makers hit after it,
/// each is or outranks every order left, and only the last may have something left.
pub open spec fn consumes_in_order(fills: Seq<Fill>, left: Seq<BookEntry>, side: Side) -> bool {
    &&& fills_in_priority_order(fills, side)
    &&& forall|i: int, j: int|
        0 <= i < fills.len() && 0 <= j < left.len() ==> (#[trigger] fills[i]).maker_order_id == (
        #[trigger] left[j]).key || fills[i].maker_order_id.outranks(left[j].key, side)
    &&& forall|i: int|
        0 <= i < fills.len() - 1 ==> (#[trigger] fills[i]).maker_base_lots_remaining.0 == 0
}

/// Liquidity is consumed in price-time priority: of any two fills, the earlier one hit the
/// better-priced order, or the older one at the same price; no order that was passed over
/// outranks one that was filled; and only the last fill may leave its maker a remainder.
pub proof fn law_fills_follow_priority(state: Crossing, terms: Terms)
    requires
        state.market.wf(),
        1 <= terms.taker <= state.market.seats.capacity(),
        follows_priority(state, terms),
    ensures
        ({
            let end = cross_run(state, terms).0;
            let side = terms.side.other();
            consumes_in_order(end.fills, end.market.book.queue(side), side)
        }),
    decreases terms.match_limit - state.touched,
{
    let (after, result) = state.turn(terms);
    lemma_turn_keeps_wf(state, terms);
    lemma_turn_follows_priority(state, terms);
    if result == Ok::<Option<MatchStop>, EngineError>(None) {
        law_fills_follow_priority(after, terms);
    }
}

proof fn lemma_turn_follows_priority(state: Crossing, terms: Terms)
    requires
        state.market.wf(),
        1 <= terms.taker <= state.market.seats.capacity(),
        follows_priority(state, terms),
    ensures
        follows_priority(state.turn(terms).0, terms),
{
    let side = terms.side.other();
    let queue = state.market.book.queue(side);
    let (after, result) = state.turn(terms);
    let m = state.market;
    if state.stops(terms) is None {
        let entry = state.next_maker(terms);
        assert(entry == queue[0]);
        m.lemma_best_is_resting(side);
        law_queue_is_price_time_priority(m.book, side);
        let rest = after.market.book.queue(side);
        if after.fills != state.fills {
            let fill = state.next_fill(terms);
            assert(after.fills == state.fills.push(fill));
            assert(fill.maker_order_id == queue[0].key);
            assert(after.market.book == m.book.resized(entry.key, fill.maker_base_lots_remaining));
            lemma_queue_head(m.book, side, fill.maker_base_lots_remaining);
            lemma_fill_follows_priority(state.fills, queue, fill, rest, side);
            if after.remaining.0 > 0 {
                assert(fill.maker_base_lots_remaining.0 == 0);
            }
        } else if after.market.book != m.book {
            let removed = if terms.behavior == SelfTradeBehavior::CancelProvide {
                entry.value.num_base_lots
            } else {
                least(state.remaining, entry.value.num_base_lots)
            };
            let left = BaseLots((entry.value.num_base_lots.0 - removed.0) as u64);
            lemma_queue_head(m.book, side, left);
            assert(after.market.book == m.book.resized(entry.key, left));
            assert forall|i: int, j: int|
                0 <= i < after.fills.len() && 0 <= j < rest.len() implies (
            #[trigger] after.fills[i]).maker_order_id.outranks((#[trigger] rest[j]).key, side) by {
                if left.0 == 0 {
                    assert(rest[j] == queue[j + 1]);
                    assert(state.fills[i].maker_order_id.outranks(queue[j + 1].key, side));
                } else {
                    assert(rest[j].key == queue[j].key);
                    assert(state.fills[i].maker_order_id.outranks(queue[j].key, side));
                }
            }
        }
    }
}

/// One more fill, against the head of the queue.
proof fn lemma_fill_follows_priority(
    fills: Seq<Fill>,
    queue: Seq<BookEntry>,
    fill: Fill,
    rest: Seq<BookEntry>,
    side: Side,
)
    requires
        in_priority_order(queue, side),
        fills_in_priority_order(fills, side),
        queue.len() > 0,
        fill.maker_order_id == queue[0].key,
        forall|i: int, j: int|
            0 <= i < fills.len() && 0 <= j < queue.len() ==> (
            #[trigger] fills[i]).maker_order_id.outranks((#[trigger] queue[j]).key, side),
        forall|i: int|
            0 <= i < fills.len() ==> (#[trigger] fills[i]).maker_base_lots_remaining.0 == 0,
        fill.maker_base_lots_remaining.0 == 0 ==> rest == queue.drop_first(),
        fill.maker_base_lots_remaining.0 > 0 ==> rest.len() == queue.len() && forall|j: int|
            0 <= j < rest.len() ==> (#[trigger] rest[j]).key == queue[j].key,
    ensures
        consumes_in_order(fills.push(fill), rest, side),
        fill.maker_base_lots_remaining.0 == 0 ==> forall|i: int, j: int|
            0 <= i < fills.push(fill).len() && 0 <= j < rest.len() ==> (#[trigger] fills.push(
                fill,
            )[i]).maker_order_id.outranks((#[trigger] rest[j]).key, side),
{
    let all = fills.push(fill);
    assert forall|i: int, j: int| 0 <= i < j < all.len() implies (
    #[trigger] all[i]).maker_order_id.outranks((#[trigger] all[j]).maker_order_id, side) by {
        if j < fills.len() {
            assert(fills[i].maker_order_id.outranks(fills[j].maker_order_id, side));
        } else {
            assert(fills[i].maker_order_id.outranks(queue[0].key, side));
        }
    }
    assert forall|i: int, j: int| 0 <= i < all.len() && 0 <= j < rest.len() implies {
        &&& (#[trigger] all[i]).maker_order_id == (#[trigger] rest[j]).key
            || all[i].maker_order_id.outranks(rest[j].key, side)
        &&& fill.maker_base_lots_remaining.0 == 0 ==> all[i].maker_order_id.outranks(
            rest[j].key,
            side,
        )
    } by {
        let k = if fill.maker_base_lots_remaining.0 == 0 {
            j + 1
        } else {
            j
        };
        assert(rest[j].key == queue[k].key);
        if i < fills.len() {
            assert(fills[i].maker_order_id.outranks(queue[k].key, side));
        } else if k > 0 {
            assert(queue[0].key.outranks(queue[k].key, side));
        }
    }
}

/// What any order, of whatever kind, reports of its fills: they are fair, they consumed the
/// other side from its front, and they add up to the reported totals.
pub proof fn law_outcome_matches_the_fills(m: MarketModel, seat: SeatIndex, packet: OrderPacket)
    requires
        m.wf(),
        1 <= seat <= m.seats.capacity(),
    ensures
        ({
            let (after, result, fills) = m.place_order(seat, packet);
            &&& consumes_in_order(
                fills,
                after.book.queue(packet.order_side().other()),
                packet.order_side().other(),
            )
            &&& forall|i: int|
                0 <= i < fills.len() ==> {
                    &&& (#[trigger] fills[i]).price_in_ticks
                        == fills[i].maker_order_id.price_in_ticks
                    &&& accepts(packet.order_side(), fills[i].price_in_ticks, packet.order_limit())
                    &&& fills[i].taker_seat == seat
                    &&& fills[i].maker_seat != seat
                }
            &&& match result {
                Ok(outcome) => {
                    &&& outcome.base_lots_filled.0 == base_in(fills)
                    &&& outcome.quote_lots_filled.0 == quote_in(fills)
                    &&& outcome.fee_in_quote_lots.0 == fees_in(fills)
                    &&& outcome.base_lots_filled.0 + outcome.base_lots_posted.0
                        <= packet.order_size().0
                    &&& outcome.order_id is Some <==> outcome.base_lots_posted.0 > 0
                },
                Err(_) => true,
            }
            &&& packet is PostOnly ==> fills.len() == 0
        }),
{
    if packet.order_size().0 > 0 {
        match packet {
            OrderPacket::PostOnly { side, price_in_ticks, num_base_lots, rejection } => {},
            OrderPacket::Limit {
                side,
                price_in_ticks,
                num_base_lots,
                self_trade_behavior,
                match_limit,
            } => {
                let terms = Terms {
                    taker: seat,
                    side,
                    limit: Some(price_in_ticks),
                    behavior: self_trade_behavior,
                    match_limit,
                };
                lemma_run_from_start(m, num_base_lots, terms);
            },
            OrderPacket::ImmediateOrCancel {
                side,
                price_in_ticks,
                num_base_lots,
                min_base_lots_to_fill,
                self_trade_behavior,
                match_limit,
            } => {
                let terms = Terms {
                    taker: seat,
                    side,
                    limit: price_in_ticks,
                    behavior: self_trade_behavior,
                    match_limit,
                };
                lemma_run_from_start(m, num_base_lots, terms);
            },
        }
    }
}

proof fn lemma_run_from_start(m: MarketModel, size: BaseLots, terms: Terms)
    requires
        m.wf(),
        1 <= terms.taker <= m.seats.capacity(),
    ensures
        ({
            let (end, stopped) = cross_run(Crossing::start(m, size), terms);
            &&& consumes_in_order(
                end.fills,
                end.market.book.queue(terms.side.other()),
                terms.side.other(),
            )
            &&& all_fair(end.fills, m, terms)
            &&& stopped is Ok ==> adds_up(end, terms, size)
        }),
{
    let start = Crossing::start(m, size);
    law_fills_are_fair(start, terms);
    law_fills_follow_priority(start, terms);
    if cross_run(start, terms).1 is Ok {
        law_totals_add_up(start, terms, size);
    }
}

/// A price that a post-only order may rest at never crosses, and it is the order's own
/// price unless that would.
pub proof fn law_resting_price_never_crosses(m: MarketModel, side: Side, price: Ticks)
    ensures
        match m.non_crossing_price(side, price) {
            Some(rest_at) => {
                &&& !m.would_cross(side, rest_at)
                &&& !m.would_cross(side, price) ==> rest_at == price
                &&& m.would_cross(side, price) ==> match side {
                    Side::Bid => m.would_cross(side, Ticks((rest_at.0 + 1) as u64)),
                    Side::Ask => m.would_cross(side, Ticks((rest_at.0 - 1) as u64)),
                }
            },
            None => m.would_cross(side, price),
        },
{
}

/// Cancelling an order right after it came to rest gives back exactly what it locked: the
/// seats, the totals and both queues are as they were.
pub proof fn law_cancelling_undoes_posting(
    m: MarketModel,
    seat: SeatIndex,
    side: Side,
    price: Ticks,
    size: BaseLots,
)
    requires
        m.wf(),
        1 <= seat <= m.seats.capacity(),
        m.book.next_sequence <= MAX_SEQUENCE_NUMBER,
        m.post(seat, side, price, size).1 is Ok,
    ensures
        ({
            let (posted, id) = m.post(seat, side, price, size);
            let (after, result) = posted.cancel_order(seat, id->Ok_0);
            &&& result == Ok::<BaseLots, EngineError>(size)
            &&& after.seats == m.seats
            &&& after.header == m.header
            &&& after.book.queue(Side::Bid) == m.book.queue(Side::Bid)
            &&& after.book.queue(Side::Ask) == m.book.queue(Side::Ask)
            &&& after.book.next_sequence == m.book.next_sequence + 1
        }),
{
    let (posted, result) = m.post(seat, side, price, size);
    let id = result->Ok_0;
    let order = crate::order::RestingOrder::lasting(seat as u64, size);
    let tree = m.book.side(side);
    crate::book::view::lemma_next_id_is_new(m.book, side, price);
    tree.lemma_with_new(id, order);
    assert(posted.book.get(id) == Some(order));
    lemma_value_is_natural(m.header.lot_config, price, size);
    let (freed, unlocked) = posted.unlock_backing(id, seat, size);
    assert(unlocked is Ok);
    assert(freed.seat(seat) == m.seat(seat));
    assert(freed.seats.values =~= m.seats.values);
    let grown = tree.with_new(id, order);
    let p = tree.position(id);
    grown.lemma_present(id);
    assert(grown.order[p] == grown.entries()[p].handle);
    assert(grown.entries()[p].key == id);
    assert(grown.key_at(p) == id);
    grown.lemma_position_present(id, p);
    grown.lemma_without_place(p);
    assert(grown.removed(id).entries() =~= tree.entries());
}

/// Cancelling a post-only order right after it was placed undoes it: the size comes back,
/// and every balance, the totals and the orders on both sides are as they were. Only the
/// sequence counter has moved on.
pub proof fn law_cancelling_undoes_post_only(
    m: MarketModel,
    seat: SeatIndex,
    side: Side,
    price_in_ticks: Ticks,
    num_base_lots: BaseLots,
    rejection: PostOnlyRejection,
)
    requires
        m.wf(),
        1 <= seat <= m.seats.capacity(),
        m.book.next_sequence <= MAX_SEQUENCE_NUMBER,
        m.place_order(
            seat,
            OrderPacket::PostOnly { side, price_in_ticks, num_base_lots, rejection },
        ).1 is Ok,
    ensures
        ({
            let packet = OrderPacket::PostOnly { side, price_in_ticks, num_base_lots, rejection };
            let (placed, result, fills) = m.place_order(seat, packet);
            let id = (result->Ok_0).order_id;
            let (after, cancelled) = placed.cancel_order(seat, id->0);
            &&& id is Some
            &&& cancelled == Ok::<BaseLots, EngineError>(num_base_lots)
            &&& after.seats == m.seats
            &&& after.header == m.header
            &&& after.book.queue(Side::Bid) == m.book.queue(Side::Bid)
            &&& after.book.queue(Side::Ask) == m.book.queue(Side::Ask)
            &&& after.book.next_sequence == m.book.next_sequence + 1
        }),
{
    let rest_at = m.non_crossing_price(side, price_in_ticks);
    assert(rest_at is Some);
    law_cancelling_undoes_posting(m, seat, side, rest_at->0, num_base_lots);
}

} // verus!
