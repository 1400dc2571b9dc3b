//! The two sides of a book stay apart.

use vstd::prelude::*;

#[allow(unused_imports)]
use super::matching_laws::lemma_turn_keeps_wf;
use super::model::{cross_run, least, Crossing, MarketModel, Terms};
#[allow(unused_imports)]
use super::order_laws::lemma_run_is_bounded;
#[allow(unused_imports)]
use crate::book::view::lemma_next_id_is_new;
use crate::book::BookView;
use crate::engine::error::EngineError;
use crate::engine::fill::MatchStop;
use crate::engine::packet::{OrderPacket, SelfTradeBehavior};
use crate::engine::trader::SeatIndex;
use crate::order::{FIFOOrderId, RestingOrder, Side, MAX_SEQUENCE_NUMBER};
use crate::quantities::{BaseLots, Ticks};
#[allow(unused_imports)]
use crate::tree::TreeKey;

verus! {

/// Every bid is below every ask.
pub open spec fn sides_apart(book: BookView) -> bool {
    forall|bid: FIFOOrderId, ask: FIFOOrderId| #[trigger]
        book.bids.contains_key(bid) && #[trigger] book.asks.contains_key(ask)
            ==> bid.price_in_ticks.0 < ask.price_in_ticks.0
}

/// No order of a side is priced better than its best.
proof fn lemma_best_bounds(book: BookView, side: Side, id: FIFOOrderId)
    requires
        book.wf(),
        book.side(side).contains_key(id),
    ensures
        book.best(side) is Some,
        match side {
            Side::Bid => id.price_in_ticks.0 <= (book.best(side)->0).key.price_in_ticks.0,
            Side::Ask => id.price_in_ticks.0 >= (book.best(side)->0).key.price_in_ticks.0,
        },
{
    let tree = book.side(side);
    tree.lemma_present(id);
    let i = tree.position(id);
    let n = tree.order.len();
    let first = match side {
        Side::Bid => n - 1,
        Side::Ask => 0,
    };
    assert(book.best(side) == Some(tree.entry_at(first)));
    if i < first {
        assert(tree.key_at(i).rank() < tree.key_at(first).rank());
    }
    if first < i {
        assert(tree.key_at(first).rank() < tree.key_at(i).rank());
    }
}

/// The best order of a side is one of its orders.
proof fn lemma_best_is_contained(book: BookView, side: Side)
    requires
        book.wf(),
        book.best(side) is Some,
    ensures
        book.side(side).contains_key((book.best(side)->0).key),
{
    let tree = book.side(side);
    let first = match side {
        Side::Bid => tree.order.len() - 1,
        Side::Ask => 0,
    };
    assert(book.best(side) == Some(tree.entry_at(first)));
    assert(tree.key_at(first) == (book.best(side)->0).key);
}

/// A book is uncrossed exactly if its sides are apart.
pub proof fn lemma_sides_apart(book: BookView)
    requires
        book.wf(),
    ensures
        sides_apart(book) == !book.crossed(),
{
    if book.best(Side::Bid) is Some {
        lemma_best_is_contained(book, Side::Bid);
    }
    if book.best(Side::Ask) is Some {
        lemma_best_is_contained(book, Side::Ask);
    }
    assert forall|bid: FIFOOrderId, ask: FIFOOrderId|
        #[trigger] book.bids.contains_key(bid) && #[trigger] book.asks.contains_key(ask)
            && !book.crossed() implies bid.price_in_ticks.0 < ask.price_in_ticks.0 by {
        lemma_best_bounds(book, Side::Bid, bid);
        lemma_best_bounds(book, Side::Ask, ask);
    }
}

/// Resizing an order brings no new one in.
proof fn lemma_resizing_adds_nothing(book: BookView, id: FIFOOrderId, size: BaseLots)
    requires
        book.wf(),
        book.contains(id),
    ensures
        book.resized(id, size).side(id.tagged_side().other()) == book.side(
            id.tagged_side().other(),
        ),
        forall|key: FIFOOrderId| #[trigger]
            book.resized(id, size).side(id.tagged_side()).contains_key(key) ==> book.side(
                id.tagged_side(),
            ).contains_key(key),
{
    let tree = book.side(id.tagged_side());
    tree.lemma_present(id);
    if size.0 == 0 {
        tree.lemma_without_place(tree.position(id));
        assert(book.resized(id, size).side(id.tagged_side()) == tree.without_place(
            tree.position(id),
        ));
    } else {
        let order = RestingOrder { num_base_lots: size, ..book.get(id)->0 };
        tree.lemma_with_value(tree.handle_of(id), order);
    }
}

/// A pass through the book brings no order in, and where it stopped for want of neither
/// funds nor an error, it stopped for the reason it gives.
proof fn lemma_run_adds_nothing(state: Crossing, terms: Terms)
    requires
        state.market.wf(),
        1 <= terms.taker <= state.market.seats.capacity(),
    ensures
        ({
            let (end, stopped) = cross_run(state, terms);
            let side = terms.side.other();
            &&& end.market.wf()
            &&& end.market.seats.capacity() == state.market.seats.capacity()
            &&& forall|key: FIFOOrderId| #[trigger]
                end.market.book.side(side).contains_key(key) ==> state.market.book.side(
                    side,
                ).contains_key(key)
            &&& match stopped {
                Ok(stop) => stop == MatchStop::InsufficientFunds || end.stops(terms) == Some(stop),
                Err(_) => true,
            }
        }),
    decreases terms.match_limit - state.touched,
{
    let (after, result) = state.turn(terms);
    let side = terms.side.other();
    lemma_turn_keeps_wf(state, terms);
    state.market.lemma_best_is_resting(side);
    if state.stops(terms) is None {
        let entry = state.next_maker(terms);
        let removed = if terms.behavior == SelfTradeBehavior::CancelProvide {
            entry.value.num_base_lots
        } else {
            least(state.remaining, entry.value.num_base_lots)
        };
        let left = BaseLots((entry.value.num_base_lots.0 - removed.0) as u64);
        lemma_resizing_adds_nothing(state.market.book, entry.key, left);
        lemma_resizing_adds_nothing(
            state.market.book,
            entry.key,
            state.next_fill(terms).maker_base_lots_remaining,
        );
    }
    if result == Ok::<Option<MatchStop>, EngineError>(None) {
        lemma_run_adds_nothing(after, terms);
    }
}

/// An order that comes to rest where it does not cross leaves the sides apart.
proof fn lemma_placing_keeps_apart(book: BookView, side: Side, price: Ticks, order: RestingOrder)
    requires
        book.wf(),
        book.next_sequence <= MAX_SEQUENCE_NUMBER,
        sides_apart(book),
        !book.side(side).is_full(),
        match (side, book.best(side.other())) {
            (Side::Bid, Some(ask)) => price.0 < ask.key.price_in_ticks.0,
            (Side::Ask, Some(bid)) => price.0 > bid.key.price_in_ticks.0,
            _ => true,
        },
    ensures
        sides_apart(book.placed(side, price, order)),
{
    let id = book.next_id(side, price);
    let after = book.placed(side, price, order);
    lemma_next_id_is_new(book, side, price);
    book.side(side).lemma_with_new(id, order);
    assert forall|bid: FIFOOrderId, ask: FIFOOrderId|
        #[trigger] after.bids.contains_key(bid) && #[trigger] after.asks.contains_key(
            ask,
        ) implies bid.price_in_ticks.0 < ask.price_in_ticks.0 by {
        match side {
            Side::Bid => {
                assert(book.asks.contains_key(ask));
                if bid == id {
                    lemma_best_bounds(book, Side::Ask, ask);
                } else {
                    assert(book.bids.contains_key(bid));
                }
            },
            Side::Ask => {
                assert(book.bids.contains_key(bid));
                if ask == id {
                    lemma_best_bounds(book, Side::Bid, bid);
                } else {
                    assert(book.asks.contains_key(ask));
                }
            },
        }
    }
}

/// A pass through an uncrossed book leaves it uncrossed.
proof fn lemma_run_keeps_apart(m: MarketModel, size: BaseLots, terms: Terms)
    requires
        m.wf(),
        1 <= terms.taker <= m.seats.capacity(),
        sides_apart(m.book),
    ensures
        ({
            let end = cross_run(Crossing::start(m, size), terms).0;
            &&& sides_apart(end.market.book)
            &&& end.market.wf()
            &&& end.market.book.next_sequence == m.book.next_sequence
            &&& end.market.seats.capacity() == m.seats.capacity()
        }),
{
    let start = Crossing::start(m, size);
    let end = cross_run(start, terms).0.market.book;
    lemma_run_is_bounded(start, terms);
    lemma_run_adds_nothing(start, terms);
    assert(end.side(terms.side) == m.book.side(terms.side));
    assert forall|bid: FIFOOrderId, ask: FIFOOrderId|
        #[trigger] end.bids.contains_key(bid) && #[trigger] end.asks.contains_key(
            ask,
        ) implies bid.price_in_ticks.0 < ask.price_in_ticks.0 by {
        match terms.side {
            Side::Bid => {
                assert(end.side(Side::Ask).contains_key(ask));
            },
            Side::Ask => {
                assert(end.side(Side::Bid).contains_key(bid));
            },
        }
        assert(m.book.bids.contains_key(bid));
        assert(m.book.asks.contains_key(ask));
    }
}

/// An uncrossed book stays uncrossed: matching runs before posting, so an order that would
/// cross fills instead of resting. Left out are orders that stopped matching early, for
/// their match limit or for want of funds, whose remainder rests where it would have
/// crossed.
pub proof fn law_uncrossed_books_stay_uncrossed(
    m: MarketModel,
    seat: SeatIndex,
    packet: OrderPacket,
)
    requires
        m.wf(),
        1 <= seat <= m.seats.capacity(),
        m.book.next_sequence <= MAX_SEQUENCE_NUMBER,
        !m.book.crossed(),
        m.place_order(seat, packet).1 is Ok,
        (m.place_order(seat, packet).1->Ok_0).stop != MatchStop::MatchLimit,
        (m.place_order(seat, packet).1->Ok_0).stop != MatchStop::InsufficientFunds,
    ensures
        !m.place_order(seat, packet).0.book.crossed(),
{
    lemma_sides_apart(m.book);
    let after = m.place_order(seat, packet).0;
    match packet {
        OrderPacket::PostOnly { side, price_in_ticks, num_base_lots, rejection } => {
            let rest_at = m.non_crossing_price(side, price_in_ticks)->0;
            lemma_posting_keeps_apart(m, seat, side, rest_at, num_base_lots);
        },
        OrderPacket::Limit {
            side,
            price_in_ticks,
            num_base_lots,
            self_trade_behavior,
            match_limit,
        } => {
            let terms = Terms {
                taker: seat,
                side,
                limit: Some(price_in_ticks),
                behavior: self_trade_behavior,
                match_limit,
            };
            let start = Crossing::start(m, num_base_lots);
            let end = cross_run(start, terms).0;
            lemma_run_keeps_apart(m, num_base_lots, terms);
            lemma_run_adds_nothing(start, terms);
            lemma_sides_apart(end.market.book);
            if end.remaining.0 > 0 {
                lemma_posting_keeps_apart(
                    end.market,
                    seat,
                    side,
                    price_in_ticks,
                    end.remaining,
                );
            }
        },
        OrderPacket::ImmediateOrCancel {
            side,
            price_in_ticks,
            num_base_lots,
            min_base_lots_to_fill,
            self_trade_behavior,
            match_limit,
        } => {
            let terms = Terms {
                taker: seat,
                side,
                limit: price_in_ticks,
                behavior: self_trade_behavior,
                match_limit,
            };
            lemma_run_keeps_apart(m, num_base_lots, terms);
            lemma_sides_apart(after.book);
        },
    }
}

/// Posting where nothing crosses leaves the book uncrossed.
proof fn lemma_posting_keeps_apart(
    m: MarketModel,
    seat: SeatIndex,
    side: Side,
    price: Ticks,
    size: BaseLots,
)
    requires
        m.wf(),
        1 <= seat <= m.seats.capacity(),
        m.book.next_sequence <= MAX_SEQUENCE_NUMBER,
        sides_apart(m.book),
        !m.would_cross(side, price),
        m.post(seat, side, price, size).1 is Ok,
    ensures
        !m.post(seat, side, price, size).0.book.crossed(),
{
    let order = RestingOrder::lasting(seat as u64, size);
    let backed = m.lock_backing(seat, side, price, size).0;
    assert(backed.book == m.book);
    crate::book::view::lemma_placed(m.book, side, price, order);
    lemma_placing_keeps_apart(m.book, side, price, order);
    lemma_sides_apart(m.book.placed(side, price, order));
}

} // verus!
