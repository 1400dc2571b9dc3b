//! What moves in and out of a market, seat by seat and lot by lot, and what the check of its
//! balances says of it.

use vstd::prelude::*;

#[allow(unused_imports)]
use super::conservation::{
    backing_of_ask, backing_of_bid, base_locked_of, base_of, quote_locked_of, quote_of,
};
use super::conservation::{ConservationError, SeatEntry};
use super::exchange_laws::{smaller, worth};
#[allow(unused_imports)]
use super::laws::{law_releasing_backing_conserves, law_reducing_conserves, lemma_first_owned_in};
use super::model::MarketModel;
#[allow(unused_imports)]
use super::sums::{lemma_weigh_agree, weigh};
use crate::book::BookEntry;
use crate::engine::error::EngineError;
use crate::engine::trader::{SeatIndex, TraderKey, TraderState};
use crate::order::{FIFOOrderId, RestingOrder, Side};
#[allow(unused_imports)]
use crate::quantities::lots::lemma_value_is_natural;
use crate::quantities::{BaseLots, QuoteLots};

verus! {

// ---------------------------------------------------------------------------------
// Deposits and withdrawals
// ---------------------------------------------------------------------------------

/// Every seat but one is as it was.
pub open spec fn only_seat_changes(before: MarketModel, after: MarketModel, seat: SeatIndex) -> bool {
    &&& after.seats.values.len() == before.seats.values.len()
    &&& after.seats.keys == before.seats.keys
    &&& after.seats.order == before.seats.order
    &&& after.book == before.book
    &&& forall|i: int|
        0 <= i < before.seats.values.len() && i != seat - 1 ==> (#[trigger] after.seats.values[i])
            == before.seats.values[i]
}

/// A deposit adds what it brings to the seat's free balances and to the market's totals,
/// and changes nothing else. It is refused only without a seat, or where one of the four
/// sums would run over, and then it changes nothing at all.
pub proof fn law_deposits_arrive(
    m: MarketModel,
    seat: SeatIndex,
    base: BaseLots,
    quote: QuoteLots,
)
    requires
        seat <= m.seats.values.len(),
    ensures
        ({
            let (after, result) = m.deposit(seat, base, quote);
            let (s, t) = (m.seats.values[seat - 1], after.seats.values[seat - 1]);
            let (h, g) = (m.header, after.header);
            let totals_fit = h.base_lots_deposited.0 + base.0 <= u64::MAX
                && h.quote_lots_deposited.0 + quote.0 <= u64::MAX;
            let seat_fits = s.base_lots_free.0 + base.0 <= u64::MAX && s.quote_lots_free.0
                + quote.0 <= u64::MAX;
            &&& result is Ok <==> seat != 0 && totals_fit && seat_fits
            &&& result is Err ==> after == m
            &&& !totals_fit ==> result == Err::<(), EngineError>(EngineError::Overflow)
            &&& totals_fit && seat == 0 ==> result == Err::<(), EngineError>(
                EngineError::SeatNotFound,
            )
            &&& totals_fit && seat != 0 && !seat_fits ==> result == Err::<(), EngineError>(
                EngineError::Overflow,
            )
            &&& result is Ok ==> {
                &&& t.base_lots_free.0 == s.base_lots_free.0 + base.0
                &&& t.quote_lots_free.0 == s.quote_lots_free.0 + quote.0
                &&& t.base_lots_locked == s.base_lots_locked
                &&& t.quote_lots_locked == s.quote_lots_locked
                &&& g.base_lots_deposited.0 == h.base_lots_deposited.0 + base.0
                &&& g.quote_lots_deposited.0 == h.quote_lots_deposited.0 + quote.0
                &&& g.collected_quote_lot_fees == h.collected_quote_lot_fees
                &&& g.unclaimed_quote_lot_fees == h.unclaimed_quote_lot_fees
                &&& g.lot_config == h.lot_config
                &&& g.fees == h.fees
                &&& only_seat_changes(m, after, seat)
            }
        }),
{
}

/// A withdrawal takes what it asks for from the seat's free balances and from the market's
/// totals, and changes nothing else. Locked funds do not count: it is refused where the
/// free balance, or the total, is less than what it asks for, and then changes nothing.
pub proof fn law_withdrawals_leave(
    m: MarketModel,
    seat: SeatIndex,
    base: BaseLots,
    quote: QuoteLots,
)
    requires
        seat <= m.seats.values.len(),
    ensures
        ({
            let (after, result) = m.withdraw(seat, base, quote);
            let (s, t) = (m.seats.values[seat - 1], after.seats.values[seat - 1]);
            let (h, g) = (m.header, after.header);
            let base_covers = base.0 <= s.base_lots_free.0;
            let quote_covers = quote.0 <= s.quote_lots_free.0;
            &&& result is Ok <==> seat != 0 && base_covers && quote_covers && base.0
                <= h.base_lots_deposited.0 && quote.0 <= h.quote_lots_deposited.0
            &&& result is Err ==> after == m
            &&& seat == 0 ==> result == Err::<(), EngineError>(EngineError::SeatNotFound)
            &&& seat != 0 && !base_covers ==> result == Err::<(), EngineError>(
                EngineError::InsufficientBaseFunds,
            )
            &&& seat != 0 && base_covers && !quote_covers ==> result == Err::<(), EngineError>(
                EngineError::InsufficientQuoteFunds,
            )
            &&& result is Ok ==> {
                &&& t.base_lots_free.0 == s.base_lots_free.0 - base.0
                &&& t.quote_lots_free.0 == s.quote_lots_free.0 - quote.0
                &&& t.base_lots_locked == s.base_lots_locked
                &&& t.quote_lots_locked == s.quote_lots_locked
                &&& g.base_lots_deposited.0 == h.base_lots_deposited.0 - base.0
                &&& g.quote_lots_deposited.0 == h.quote_lots_deposited.0 - quote.0
                &&& g.collected_quote_lot_fees == h.collected_quote_lot_fees
                &&& g.unclaimed_quote_lot_fees == h.unclaimed_quote_lot_fees
                &&& g.lot_config == h.lot_config
                &&& g.fees == h.fees
                &&& only_seat_changes(m, after, seat)
            }
        }),
{
}

/// Withdrawing what was just deposited leads back to where it began.
pub proof fn law_withdrawing_undoes_depositing(
    m: MarketModel,
    seat: SeatIndex,
    base: BaseLots,
    quote: QuoteLots,
)
    requires
        seat <= m.seats.values.len(),
        m.deposit(seat, base, quote).1 is Ok,
    ensures
        m.deposit(seat, base, quote).0.withdraw(seat, base, quote).1 is Ok,
        m.deposit(seat, base, quote).0.withdraw(seat, base, quote).0 == m,
{
    let after = m.deposit(seat, base, quote).0.withdraw(seat, base, quote).0;
    assert(after.seats.values =~= m.seats.values);
    assert(after =~= m);
}

/// Withdrawing everything pays out exactly both free balances, and leaves them empty.
pub proof fn law_withdrawing_all_empties_the_free_balances(m: MarketModel, seat: SeatIndex)
    requires
        1 <= seat <= m.seats.values.len(),
        m.withdraw_all(seat).1 is Ok,
    ensures
        ({
            let (after, result) = m.withdraw_all(seat);
            let (s, t) = (m.seats.values[seat - 1], after.seats.values[seat - 1]);
            &&& result->Ok_0.0 == s.base_lots_free
            &&& result->Ok_0.1 == s.quote_lots_free
            &&& t.base_lots_free.0 == 0
            &&& t.quote_lots_free.0 == 0
            &&& t.base_lots_locked == s.base_lots_locked
            &&& t.quote_lots_locked == s.quote_lots_locked
            &&& after.header.base_lots_deposited.0 == m.header.base_lots_deposited.0
                - s.base_lots_free.0
            &&& after.header.quote_lots_deposited.0 == m.header.quote_lots_deposited.0
                - s.quote_lots_free.0
            &&& only_seat_changes(m, after, seat)
        }),
{
    law_withdrawals_leave(
        m,
        seat,
        m.seats.values[seat - 1].base_lots_free,
        m.seats.values[seat - 1].quote_lots_free,
    );
}

/// A fee sweep pays out all of the unclaimed fees, takes them out of what the market holds,
/// and leaves every seat, the book and the lifetime fees alone.
pub proof fn law_fee_sweeps_pay_what_is_unclaimed(m: MarketModel)
    ensures
        ({
            let (after, result) = m.collect_fees();
            let (h, g) = (m.header, after.header);
            &&& result is Ok <==> h.unclaimed_quote_lot_fees.0 <= h.quote_lots_deposited.0
            &&& result is Err ==> after == m && result->Err_0 == EngineError::Overflow
            &&& result is Ok ==> {
                &&& result->Ok_0 == h.unclaimed_quote_lot_fees
                &&& g.unclaimed_quote_lot_fees.0 == 0
                &&& g.quote_lots_deposited.0 == h.quote_lots_deposited.0
                    - h.unclaimed_quote_lot_fees.0
                &&& g.base_lots_deposited == h.base_lots_deposited
                &&& g.collected_quote_lot_fees == h.collected_quote_lot_fees
                &&& g.lot_config == h.lot_config
                &&& g.fees == h.fees
                &&& after.seats == m.seats
                &&& after.book == m.book
            }
        }),
{
}

// ---------------------------------------------------------------------------------
// Seats
// ---------------------------------------------------------------------------------

/// Claiming gives a trader the seat it has, or a new one that holds nothing. It is refused
/// only to a new trader at a full table. Nobody else's seat changes.
pub proof fn law_claims_give_an_empty_seat(m: MarketModel, key: TraderKey)
    requires
        m.seats.wf(),
        m.seats.capacity() <= u32::MAX,
    ensures
        ({
            let (after, result) = m.claim_seat(key);
            let (before_map, map) = (m.seats.as_map(), after.seats.as_map());
            let seated = before_map.contains_key(key);
            &&& result is Ok <==> seated || m.seats.order.len() < m.seats.keys.len()
            &&& result is Err ==> after == m && result->Err_0 == EngineError::SeatTableFull
            &&& after.header == m.header
            &&& after.book == m.book
            &&& seated ==> after == m
            &&& result is Ok ==> {
                &&& map.contains_key(key)
                &&& 1 <= result->Ok_0 <= m.seats.keys.len()
                &&& after.seats.keys[result->Ok_0 - 1] == key
                &&& after.seats.values[result->Ok_0 - 1] == map[key]
                &&& !seated ==> {
                    &&& map == before_map.insert(key, map[key])
                    &&& map[key].base_lots_free.0 == 0
                    &&& map[key].base_lots_locked.0 == 0
                    &&& map[key].quote_lots_free.0 == 0
                    &&& map[key].quote_lots_locked.0 == 0
                }
            }
        }),
{
    let nothing = TraderState::nothing();
    if m.seats.contains_key(key) {
        m.seats.lemma_present(key);
    } else {
        crate::tree::laws::law_insert_is_map_insert(m.seats, key, nothing);
        if !m.seats.is_full() {
            let after = m.seats.with_new(key, nothing);
            m.seats.lemma_with_new(key, nothing);
            m.seats.lemma_next_handle();
            after.lemma_present(key);
            assert(after.as_map() =~= m.seats.as_map().insert(key, nothing));
        }
    }
}

/// A seat is given up exactly if it exists, all four of its balances are zero, and no order
/// on either side is its own; then it alone goes. Otherwise nothing changes, and the error
/// says whether there was a seat.
pub proof fn law_releases_take_only_idle_seats(m: MarketModel, key: TraderKey)
    requires
        m.seats.wf(),
        m.seats.capacity() <= u32::MAX,
    ensures
        ({
            let (after, result) = m.release_seat(key);
            let map = m.seats.as_map();
            let index = m.seats.handle_of(key);
            let idle = {
                &&& map[key].base_lots_free.0 == 0
                &&& map[key].base_lots_locked.0 == 0
                &&& map[key].quote_lots_free.0 == 0
                &&& map[key].quote_lots_locked.0 == 0
                &&& forall|i: int|
                    0 <= i < m.book.queue(Side::Bid).len() ==> (#[trigger] m.book.queue(
                        Side::Bid,
                    )[i]).value.trader_index != index
                &&& forall|i: int|
                    0 <= i < m.book.queue(Side::Ask).len() ==> (#[trigger] m.book.queue(
                        Side::Ask,
                    )[i]).value.trader_index != index
            };
            &&& result is Ok <==> map.contains_key(key) && idle
            &&& result is Err ==> after == m
            &&& !map.contains_key(key) ==> result == Err::<(), EngineError>(
                EngineError::SeatNotFound,
            )
            &&& map.contains_key(key) && !idle ==> result == Err::<(), EngineError>(
                EngineError::SeatNotEmpty,
            )
            &&& after.header == m.header
            &&& after.book == m.book
            &&& result is Ok ==> after.seats.as_map() == map.remove(key)
        }),
{
    crate::tree::laws::law_remove_is_map_remove(m.seats, key);
    lemma_first_owned_in(m.book.queue(Side::Bid), m.seats.handle_of(key));
    lemma_first_owned_in(m.book.queue(Side::Ask), m.seats.handle_of(key));
}

// ---------------------------------------------------------------------------------
// Reducing and cancelling
// ---------------------------------------------------------------------------------

/// The owner of an order takes off it what it asks for, or all of it if that is less. What
/// backed that size is free again: the size itself for an ask, its worth at the order's price
/// for a bid. The order stays with the rest, or goes if there is none, and nothing else
/// changes.
pub proof fn law_reductions_free_their_backing(
    m: MarketModel,
    seat: SeatIndex,
    id: FIFOOrderId,
    size: BaseLots,
)
    requires
        m.is_conserved(),
        1 <= seat <= m.seats.values.len(),
        m.book.get(id) is Some,
        (m.book.get(id)->0).trader_index == seat,
    ensures
        ({
            let (after, result) = m.reduce_order(seat, id, size);
            let order = m.book.get(id)->0;
            let gone = smaller(size.0 as int, order.num_base_lots.0 as int);
            let (s, t) = (m.seats.values[seat - 1], after.seats.values[seat - 1]);
            &&& result is Ok
            &&& result->Ok_0.0 == gone
            &&& after.header == m.header
            &&& match id.tagged_side() {
                Side::Ask => {
                    &&& t.base_lots_free.0 == s.base_lots_free.0 + gone
                    &&& t.base_lots_locked.0 == s.base_lots_locked.0 - gone
                    &&& t.quote_lots_free == s.quote_lots_free
                    &&& t.quote_lots_locked == s.quote_lots_locked
                },
                Side::Bid => {
                    let value = worth(m, id.price_in_ticks, gone);
                    &&& t.quote_lots_free.0 == s.quote_lots_free.0 + value
                    &&& t.quote_lots_locked.0 == s.quote_lots_locked.0 - value
                    &&& t.base_lots_free == s.base_lots_free
                    &&& t.base_lots_locked == s.base_lots_locked
                },
            }
            &&& forall|i: int|
                0 <= i < m.seats.values.len() && i != seat - 1 ==> (
                #[trigger] after.seats.values[i]) == m.seats.values[i]
            &&& gone == order.num_base_lots.0 ==> after.book.get(id) is None
            &&& gone < order.num_base_lots.0 ==> after.book.get(id) == Some(
                RestingOrder {
                    num_base_lots: BaseLots((order.num_base_lots.0 - gone) as u64),
                    ..order
                },
            )
            &&& forall|other: FIFOOrderId|
                other != id ==> #[trigger] after.book.get(other) == m.book.get(other)
        }),
{
    let order = m.book.get(id)->0;
    let gone = smaller(size.0 as int, order.num_base_lots.0 as int);
    let removed = BaseLots(gone as u64);
    let left = BaseLots((order.num_base_lots.0 - gone) as u64);
    let (after, result) = m.reduce_order(seat, id, size);
    let tree = m.book.side(id.tagged_side());
    tree.lemma_present(id);
    lemma_value_is_natural(m.header.lot_config, id.price_in_ticks, removed);
    law_releasing_backing_conserves(m, id, seat, removed);
    law_reducing_conserves(m, seat, id, size);
    assert(after.book == m.book.resized(id, left));
    assert forall|other: FIFOOrderId| other != id implies #[trigger] after.book.get(other)
        == m.book.get(other) by {
        if left.0 == 0 {
            crate::book::view::law_cancel_removes_only_its_order(m.book, id, other);
        } else {
            lemma_resizing_keeps_others(m, id, left, other);
        }
    }
    if left.0 == 0 {
        let stranger = FIFOOrderId {
            price_in_ticks: crate::quantities::Ticks(
                if id.price_in_ticks.0 == 0 {
                    1
                } else {
                    0
                },
            ),
            ..id
        };
        crate::book::view::law_cancel_removes_only_its_order(m.book, id, stranger);
    } else {
        crate::book::view::law_reducing_keeps_the_queue(m.book, id, left);
    }
}

proof fn lemma_resizing_keeps_others(
    m: MarketModel,
    id: FIFOOrderId,
    left: BaseLots,
    other: FIFOOrderId,
)
    requires
        m.wf(),
        m.book.contains(id),
        left.0 > 0,
        other != id,
    ensures
        m.book.resized(id, left).get(other) == m.book.get(other),
{
    let tree = m.book.side(id.tagged_side());
    let order = RestingOrder { num_base_lots: left, ..m.book.get(id)->0 };
    if other.tagged_side() == id.tagged_side() {
        tree.lemma_present(id);
        crate::tree::laws::law_insert_is_map_insert(tree, id, order);
        let after = tree.with_value(tree.handle_of(id), order);
        tree.lemma_with_value(tree.handle_of(id), order);
        assert(tree.inserted(id, order) == after);
        assert(after.as_map() == tree.as_map().insert(id, order));
        crate::tree::laws::law_remove_is_map_remove(tree, other);
        crate::tree::laws::law_remove_is_map_remove(after, other);
    }
}

// ---------------------------------------------------------------------------------
// The check of the balances
// ---------------------------------------------------------------------------------

/// A total as the check adds it up: exact, or the largest amount if it is more than that.
pub open spec fn added_up(total: int) -> int {
    smaller(total, u64::MAX as int)
}

/// What a market that passes the check holds: what the seats own in base, free and locked,
/// adds up to what was deposited; what they own in quote, with the unclaimed fees, does too;
/// the sizes of the asks add up to the base locked, and the values of the bids to the quote
/// locked; and every order's owner has a seat.
pub proof fn law_checked_markets_add_up(m: MarketModel)
    requires
        m.conservation_fault() is None,
    ensures
        ({
            let seats = m.seats.entries();
            &&& added_up(
                weigh(
                    seats,
                    |e: SeatEntry| e.value.base_lots_free.0 + e.value.base_lots_locked.0,
                ),
            ) == m.header.base_lots_deposited.0
            &&& added_up(
                weigh(
                    seats,
                    |e: SeatEntry| e.value.quote_lots_free.0 + e.value.quote_lots_locked.0,
                ) + m.header.unclaimed_quote_lot_fees.0,
            ) == m.header.quote_lots_deposited.0
            &&& added_up(
                weigh(m.book.asks.entries(), |e: BookEntry| e.value.num_base_lots.0 as int),
            ) == added_up(weigh(seats, |e: SeatEntry| e.value.base_lots_locked.0 as int))
            &&& added_up(
                weigh(
                    m.book.bids.entries(),
                    |e: BookEntry|
                        worth(m, e.key.price_in_ticks, e.value.num_base_lots.0 as int),
                ),
            ) == added_up(weigh(seats, |e: SeatEntry| e.value.quote_lots_locked.0 as int))
            &&& has_a_seat(m, m.book.asks.entries())
            &&& has_a_seat(m, m.book.bids.entries())
        }),
{
    lemma_same_sums(m);
    lemma_bids_are_seated(m, m.book.bids.entries());
}

/// What the check reports first, if a market does not add up.
pub proof fn law_faults_are_named(m: MarketModel)
    ensures
        ({
            let seats = m.seats.entries();
            let base = weigh(
                seats,
                |e: SeatEntry| e.value.base_lots_free.0 + e.value.base_lots_locked.0,
            );
            let quote = weigh(
                seats,
                |e: SeatEntry| e.value.quote_lots_free.0 + e.value.quote_lots_locked.0,
            ) + m.header.unclaimed_quote_lot_fees.0;
            let base_ok = added_up(base) == m.header.base_lots_deposited.0;
            let quote_ok = added_up(quote) == m.header.quote_lots_deposited.0;
            &&& !base_ok ==> m.conservation_fault() == Some(ConservationError::BaseNotConserved)
            &&& base_ok && !quote_ok ==> m.conservation_fault() == Some(
                ConservationError::QuoteNotConserved,
            )
            &&& base_ok && quote_ok && !has_a_seat(m, m.book.asks.entries())
                ==> m.conservation_fault() == Some(ConservationError::OrphanedOrder)
        }),
{
    lemma_same_sums(m);
}

/// Whether every one of these orders belongs to a claimed seat.
pub open spec fn has_a_seat(m: MarketModel, orders: Seq<BookEntry>) -> bool {
    forall|i: int|
        0 <= i < orders.len() ==> {
            &&& 1 <= (#[trigger] orders[i]).value.trader_index <= m.seats.keys.len()
            &&& m.seats.order.contains(orders[i].value.trader_index as SeatIndex)
        }
}

proof fn lemma_same_sums(m: MarketModel)
    ensures
        ({
            let seats = m.seats.entries();
            let config = m.header.lot_config;
            &&& weigh(
                seats,
                |e: SeatEntry| e.value.base_lots_free.0 + e.value.base_lots_locked.0,
            ) == weigh(seats, base_of())
            &&& weigh(
                seats,
                |e: SeatEntry| e.value.quote_lots_free.0 + e.value.quote_lots_locked.0,
            ) == weigh(seats, quote_of())
            &&& weigh(seats, |e: SeatEntry| e.value.base_lots_locked.0 as int) == weigh(
                seats,
                base_locked_of(),
            )
            &&& weigh(seats, |e: SeatEntry| e.value.quote_lots_locked.0 as int) == weigh(
                seats,
                quote_locked_of(),
            )
            &&& weigh(m.book.asks.entries(), |e: BookEntry| e.value.num_base_lots.0 as int)
                == weigh(m.book.asks.entries(), backing_of_ask())
            &&& weigh(
                m.book.bids.entries(),
                |e: BookEntry| worth(m, e.key.price_in_ticks, e.value.num_base_lots.0 as int),
            ) == weigh(m.book.bids.entries(), backing_of_bid(config))
        }),
{
    let seats = m.seats.entries();
    lemma_weigh_agree(
        seats,
        |e: SeatEntry| e.value.base_lots_free.0 + e.value.base_lots_locked.0,
        base_of(),
    );
    lemma_weigh_agree(
        seats,
        |e: SeatEntry| e.value.quote_lots_free.0 + e.value.quote_lots_locked.0,
        quote_of(),
    );
    lemma_weigh_agree(seats, |e: SeatEntry| e.value.base_lots_locked.0 as int, base_locked_of());
    lemma_weigh_agree(seats, |e: SeatEntry| e.value.quote_lots_locked.0 as int, quote_locked_of());
    lemma_weigh_agree(
        m.book.asks.entries(),
        |e: BookEntry| e.value.num_base_lots.0 as int,
        backing_of_ask(),
    );
    lemma_weigh_agree(
        m.book.bids.entries(),
        |e: BookEntry| worth(m, e.key.price_in_ticks, e.value.num_base_lots.0 as int),
        backing_of_bid(m.header.lot_config),
    );
}

proof fn lemma_bids_are_seated(m: MarketModel, bids: Seq<BookEntry>)
    requires
        m.bid_fault(bids) is None,
    ensures
        has_a_seat(m, bids),
    decreases bids.len(),
{
    if bids.len() > 0 {
        let rest = bids.drop_first();
        lemma_bids_are_seated(m, rest);
        assert forall|i: int| 0 <= i < bids.len() implies {
            &&& 1 <= (#[trigger] bids[i]).value.trader_index <= m.seats.keys.len()
            &&& m.seats.order.contains(bids[i].value.trader_index as SeatIndex)
        } by {
            if i > 0 {
                assert(rest[i - 1] == bids[i]);
            }
        }
    }
}

} // verus!
