//! What the engine promises: no operation on behalf of a claimed seat creates, destroys or
//! strands value.
//!
//! Each law here says of one operation that it keeps [`MarketModel::is_conserved`]. An
//! operation that reports an error keeps it too.

use vstd::prelude::*;

#[allow(unused_imports)]
use super::backing::{
    lemma_order_backed, lemma_order_placed, lemma_order_resized, lemma_seat_bounded,
    lemma_seat_replaced,
};
#[allow(unused_imports)]
use super::conservation::{backing_by_asker, backing_by_bidder, base_of, quote_of, SeatEntry};
use super::model::{least, MarketModel};
#[allow(unused_imports)]
use super::sums::{
    lemma_weigh_insert, lemma_weigh_nothing, lemma_weigh_remove,
};
use crate::engine::error::EngineError;
#[allow(unused_imports)]
use crate::engine::fees::FeeSchedule;
use crate::engine::trader::{SeatIndex, TraderKey, TraderState};
use crate::order::{FIFOOrderId, RestingOrder, Side, MAX_SEQUENCE_NUMBER};
#[allow(unused_imports)]
use crate::quantities::lots::{
    law_value_is_additive, law_value_is_monotonic, lemma_value_is_natural,
};
use crate::quantities::{BaseLots, LotConfig, QuoteLots, Ticks};
use crate::tree::Entry;

verus! {

/// The pieces of conservation, put back together after one live seat's balances moved.
pub(crate) proof fn lemma_conserved_again(m: MarketModel, after: MarketModel)
    requires
        m.is_conserved(),
        after.wf(),
        after.seats.order == m.seats.order,
        after.base_owned() == after.header.base_lots_deposited.0,
        after.quote_owned() + after.header.unclaimed_quote_lot_fees.0
            == after.header.quote_lots_deposited.0,
        after.orders_are_owned(),
        forall|x: SeatIndex|
            m.seats.is_live(x) ==> #[trigger] after.seat(x).base_lots_locked.0
                == after.base_backing(x) && after.seat(x).quote_lots_locked.0
                == after.quote_backing(x),
    ensures
        after.is_conserved(),
{
    assert forall|i: int| 0 <= i < after.seats.order.len() implies after.is_backed(
        #[trigger] after.seats.order[i],
    ) by {
        let x = after.seats.order[i];
        assert(m.seats.order.contains(m.seats.order[i]));
        assert(after.seat(x).base_lots_locked.0 == after.base_backing(x));
    }
}

/// In a conserved market, a live seat's locked funds are its backing.
pub(crate) proof fn lemma_backed(m: MarketModel, x: SeatIndex)
    requires
        m.is_conserved(),
        m.seats.is_live(x),
    ensures
        m.seat(x).base_lots_locked.0 == m.base_backing(x),
        m.seat(x).quote_lots_locked.0 == m.quote_backing(x),
        m.seat(x).base() <= u64::MAX,
        m.seat(x).quote() <= u64::MAX,
        1 <= x <= m.seats.capacity(),
{
    let i = m.seats.place_of(x);
    assert(0 <= i < m.seats.order.len() && m.seats.order[i] == x);
    assert(m.is_backed(m.seats.order[i]));
    lemma_seat_bounded(m, x, x);
}

// ---------------------------------------------------------------------------------
// Seats and funds
// ---------------------------------------------------------------------------------

/// A new market holds exactly what it thinks it holds: nothing.
pub proof fn law_a_new_market_is_conserved(
    lot_config: LotConfig,
    fees: FeeSchedule,
    bids: nat,
    asks: nat,
    seats: nat,
)
    requires
        super::MarketHeader::fresh(lot_config, fees).flaw() is None,
        bids <= u32::MAX,
        asks <= u32::MAX,
        seats <= u32::MAX,
    ensures
        (MarketModel {
            header: super::MarketHeader::fresh(lot_config, fees),
            seats: crate::tree::TreeView::blank(seats, TraderState::nothing()),
            book: crate::book::BookView::blank(bids, asks),
        }).is_conserved(),
{
}

/// Claiming a seat conserves value.
pub proof fn law_claiming_conserves(m: MarketModel, key: TraderKey)
    requires
        m.is_conserved(),
    ensures
        m.claim_seat(key).0.is_conserved(),
{
    let after = m.claim_seat(key).0;
    if !m.seats.contains_key(key) && !m.seats.is_full() {
        let nothing = TraderState::nothing();
        m.seats.lemma_with_new(key, nothing);
        m.seats.lemma_next_handle();
        let h = m.seats.next_handle();
        let p = m.seats.position(key);
        let entry: SeatEntry = Entry { handle: h, key, value: nothing };
        lemma_weigh_insert(m.seats.entries(), p, entry, base_of());
        lemma_weigh_insert(m.seats.entries(), p, entry, quote_of());
        assert(after.seats.order =~= m.seats.order.insert(p, h));
        assert forall|x: SeatIndex| m.seats.is_live(x) implies #[trigger] after.seats.is_live(x)
            && after.seat(x) == m.seat(x) by {
            let i = choose|i: int| 0 <= i < m.seats.order.len() && m.seats.order[i] == x;
            let j = if i < p {
                i
            } else {
                i + 1
            };
            assert(after.seats.order[j] == x);
            assert(x != h);
            assert(1 <= m.seats.order[i] <= m.seats.capacity());
        }
        assert forall|i: int| 0 <= i < after.seats.order.len() implies after.is_backed(
            #[trigger] after.seats.order[i],
        ) by {
            let x = after.seats.order[i];
            if i == p {
                assert(x == h);
                lemma_no_backing(m, h);
            } else {
                let j = if i < p {
                    i
                } else {
                    i - 1
                };
                assert(m.seats.order[j] == x);
                assert(m.is_backed(m.seats.order[j]));
                assert(m.seats.is_live(x));
            }
        }
        assert(after.wf());
        assert forall|i: int| 0 <= i < after.book.asks.order.len() implies {
            &&& after.seats.is_live(
                (#[trigger] after.book.asks.value_at(i)).trader_index as SeatIndex,
            )
            &&& after.book.asks.value_at(i).num_base_lots.0 > 0
        } by {
            assert(m.seats.is_live(m.book.asks.value_at(i).trader_index as SeatIndex));
        }
        assert forall|i: int| 0 <= i < after.book.bids.order.len() implies {
            &&& after.seats.is_live(
                (#[trigger] after.book.bids.value_at(i)).trader_index as SeatIndex,
            )
            &&& after.book.bids.value_at(i).num_base_lots.0 > 0
        } by {
            assert(m.seats.is_live(m.book.bids.value_at(i).trader_index as SeatIndex));
        }
    }
}

/// A slot that is not a live seat backs no order.
proof fn lemma_no_backing(m: MarketModel, h: SeatIndex)
    requires
        m.is_conserved(),
        !m.seats.is_live(h),
    ensures
        m.base_backing(h) == 0,
        m.quote_backing(h) == 0,
{
    let asks = m.book.asks.entries();
    assert forall|i: int| 0 <= i < asks.len() implies (backing_by_asker(h))(#[trigger] asks[i])
        == 0 by {
        assert(asks[i] == m.book.asks.entry_at(i));
        let owner = m.book.asks.value_at(i).trader_index;
        assert(m.seats.is_live(owner as SeatIndex));
        assert(1 <= owner <= m.seats.capacity());
    }
    lemma_weigh_nothing(asks, backing_by_asker(h));
    let bids = m.book.bids.entries();
    let w = backing_by_bidder(m.header.lot_config, h);
    assert forall|i: int| 0 <= i < bids.len() implies w(#[trigger] bids[i]) == 0 by {
        assert(bids[i] == m.book.bids.entry_at(i));
        let owner = m.book.bids.value_at(i).trader_index;
        assert(m.seats.is_live(owner as SeatIndex));
        assert(1 <= owner <= m.seats.capacity());
    }
    lemma_weigh_nothing(bids, w);
}

/// Releasing a seat conserves value, and leaves no order without an owner: a seat that
/// still owns one is never released.
pub proof fn law_releasing_conserves(m: MarketModel, key: TraderKey)
    requires
        m.is_conserved(),
    ensures
        m.release_seat(key).0.is_conserved(),
        m.seats.contains_key(key) && m.has_orders(m.seats.handle_of(key)) ==> m.release_seat(key)
            == (m, Err::<(), EngineError>(EngineError::SeatNotEmpty)),
{
    let after = m.release_seat(key).0;
    if m.release_seat(key).1 is Ok {
        m.seats.lemma_present(key);
        let i = m.seats.position(key);
        let h = m.seats.handle_of(key);
        m.seats.lemma_without_place(i);
        let entries = m.seats.entries();
        assert(entries[i] == m.seats.entry_at(i));
        assert(m.seats.value_at(i) == TraderState::nothing());
        lemma_weigh_remove(entries, i, base_of());
        lemma_weigh_remove(entries, i, quote_of());
        lemma_backed(m, h);
        lemma_first_owned_in(m.book.queue(Side::Ask), h);
        lemma_first_owned_in(m.book.queue(Side::Bid), h);
        assert forall|x: SeatIndex| x != h && m.seats.is_live(x) implies #[trigger] after.seats.is_live(
            x,
        ) by {
            let j = choose|j: int| 0 <= j < m.seats.order.len() && m.seats.order[j] == x;
            let k = if j < i {
                j
            } else {
                j - 1
            };
            assert(after.seats.order[k] == x);
        }
        assert forall|j: int| 0 <= j < after.seats.order.len() implies after.is_backed(
            #[trigger] after.seats.order[j],
        ) by {
            let k = if j < i {
                j
            } else {
                j + 1
            };
            assert(after.seats.order[j] == m.seats.order[k]);
            assert(m.is_backed(m.seats.order[k]));
        }
        assert forall|j: int| 0 <= j < after.book.asks.order.len() implies {
            &&& after.seats.is_live(
                (#[trigger] after.book.asks.value_at(j)).trader_index as SeatIndex,
            )
            &&& after.book.asks.value_at(j).num_base_lots.0 > 0
        } by {
            let owner = m.book.asks.value_at(j).trader_index;
            assert(m.seats.is_live(owner as SeatIndex));
            assert(1 <= owner <= m.seats.capacity());
            assert(m.book.queue(Side::Ask)[j] == m.book.asks.entry_at(j));
        }
        assert forall|j: int| 0 <= j < after.book.bids.order.len() implies {
            &&& after.seats.is_live(
                (#[trigger] after.book.bids.value_at(j)).trader_index as SeatIndex,
            )
            &&& after.book.bids.value_at(j).num_base_lots.0 > 0
        } by {
            let owner = m.book.bids.value_at(j).trader_index;
            assert(m.seats.is_live(owner as SeatIndex));
            assert(1 <= owner <= m.seats.capacity());
            let n = m.book.bids.order.len();
            assert(m.book.queue(Side::Bid)[n - 1 - j] == m.book.bids.entry_at(j));
        }
    }
}

/// Depositing to a claimed seat conserves value.
pub proof fn law_depositing_conserves(
    m: MarketModel,
    seat: SeatIndex,
    base: BaseLots,
    quote: QuoteLots,
)
    requires
        m.is_conserved(),
        m.seats.is_live(seat),
    ensures
        m.deposit(seat, base, quote).0.is_conserved(),
{
    let after = m.deposit(seat, base, quote).0;
    if m.deposit(seat, base, quote).1 is Ok {
        let s = m.seat(seat);
        let state = TraderState {
            base_lots_free: BaseLots((s.base_lots_free.0 + base.0) as u64),
            quote_lots_free: QuoteLots((s.quote_lots_free.0 + quote.0) as u64),
            ..s
        };
        lemma_seat_replaced(m, seat, state);
        lemma_balances_moved(m, after, seat, state);
    }
}

/// Withdrawing from a claimed seat conserves value.
pub proof fn law_withdrawing_conserves(
    m: MarketModel,
    seat: SeatIndex,
    base: BaseLots,
    quote: QuoteLots,
)
    requires
        m.is_conserved(),
        m.seats.is_live(seat),
    ensures
        m.withdraw(seat, base, quote).0.is_conserved(),
        m.withdraw_all(seat).0.is_conserved(),
        m.withdraw_all(seat).1 is Ok,
        m.withdraw(seat, base, quote).1 is Ok <==> base.0 <= m.seat(seat).base_lots_free.0
            && quote.0 <= m.seat(seat).quote_lots_free.0,
{
    lemma_backed(m, seat);
    lemma_seat_bounded(m, seat, seat);
    lemma_withdrawing_conserves(m, seat, base, quote);
    lemma_withdrawing_conserves(
        m,
        seat,
        m.seat(seat).base_lots_free,
        m.seat(seat).quote_lots_free,
    );
}

proof fn lemma_withdrawing_conserves(
    m: MarketModel,
    seat: SeatIndex,
    base: BaseLots,
    quote: QuoteLots,
)
    requires
        m.is_conserved(),
        m.seats.is_live(seat),
    ensures
        m.withdraw(seat, base, quote).0.is_conserved(),
{
    let after = m.withdraw(seat, base, quote).0;
    if m.withdraw(seat, base, quote).1 is Ok {
        let s = m.seat(seat);
        let state = TraderState {
            base_lots_free: BaseLots((s.base_lots_free.0 - base.0) as u64),
            quote_lots_free: QuoteLots((s.quote_lots_free.0 - quote.0) as u64),
            ..s
        };
        lemma_seat_replaced(m, seat, state);
        lemma_balances_moved(m, after, seat, state);
    }
}

/// A seat's free balances move together with the deposited totals.
proof fn lemma_balances_moved(
    m: MarketModel,
    after: MarketModel,
    seat: SeatIndex,
    state: TraderState,
)
    requires
        m.is_conserved(),
        m.seats.is_live(seat),
        after.seats == m.with_seat(seat, state).seats,
        after.book == m.book,
        after.header.lot_config == m.header.lot_config,
        after.header.fees == m.header.fees,
        after.header.unclaimed_quote_lot_fees == m.header.unclaimed_quote_lot_fees,
        state.base_lots_locked == m.seat(seat).base_lots_locked,
        state.quote_lots_locked == m.seat(seat).quote_lots_locked,
        after.header.base_lots_deposited.0 - m.header.base_lots_deposited.0 == state.base()
            - m.seat(seat).base(),
        after.header.quote_lots_deposited.0 - m.header.quote_lots_deposited.0 == state.quote()
            - m.seat(seat).quote(),
    ensures
        after.is_conserved(),
{
    lemma_seat_replaced(m, seat, state);
    let mid = m.with_seat(seat, state);
    assert(after.base_owned() == mid.base_owned());
    assert(after.quote_owned() == mid.quote_owned());
    assert(after.orders_are_owned());
    assert forall|x: SeatIndex| m.seats.is_live(x) implies #[trigger] after.seat(
        x,
    ).base_lots_locked.0 == after.base_backing(x) && after.seat(x).quote_lots_locked.0
        == after.quote_backing(x) by {
        lemma_backed(m, x);
        assert(mid.seat(x) == if x == seat {
            state
        } else {
            m.seat(x)
        });
        assert(after.seat(x) == mid.seat(x));
        assert(mid.base_backing(x) == m.base_backing(x));
        assert(mid.quote_backing(x) == m.quote_backing(x));
        assert(after.base_backing(x) == mid.base_backing(x));
        assert(after.quote_backing(x) == mid.quote_backing(x));
    }
    lemma_conserved_again(m, after);
}

/// Sweeping the fees conserves value, and always succeeds.
pub proof fn law_collecting_fees_conserves(m: MarketModel)
    requires
        m.is_conserved(),
    ensures
        m.collect_fees().0.is_conserved(),
        m.collect_fees().1 == Ok::<QuoteLots, EngineError>(m.header.unclaimed_quote_lot_fees),
        m.collect_fees().0.header.collected_quote_lot_fees == m.header.collected_quote_lot_fees,
{
    let after = m.collect_fees().0;
    let entries = m.seats.entries();
    assert forall|k: int| 0 <= k < entries.len() implies (quote_of())(#[trigger] entries[k])
        >= 0 by {}
    super::sums::lemma_weigh_natural(entries, quote_of());
    assert(after.base_owned() == m.base_owned());
    assert(after.quote_owned() == m.quote_owned());
    assert forall|x: SeatIndex| m.seats.is_live(x) implies #[trigger] after.seat(
        x,
    ).base_lots_locked.0 == after.base_backing(x) && after.seat(x).quote_lots_locked.0
        == after.quote_backing(x) by {
        lemma_backed(m, x);
        assert(after.base_backing(x) == m.base_backing(x));
        assert(after.quote_backing(x) == m.quote_backing(x));
    }
    lemma_conserved_again(m, after);
}

// ---------------------------------------------------------------------------------
// Orders
// ---------------------------------------------------------------------------------

/// Taking size off a resting order always succeeds, gives its owner back exactly what
/// backed that size, and conserves value.
pub proof fn law_releasing_backing_conserves(
    m: MarketModel,
    id: FIFOOrderId,
    seat: SeatIndex,
    removed: BaseLots,
)
    requires
        m.is_conserved(),
        m.book.get(id) is Some,
        (m.book.get(id)->0).trader_index == seat,
        removed.0 <= (m.book.get(id)->0).num_base_lots.0,
    ensures
        ({
            let order = m.book.get(id)->0;
            let (freed, result) = m.unlock_backing(id, seat, removed);
            let after = freed.with_book(
                freed.book.resized(id, BaseLots((order.num_base_lots.0 - removed.0) as u64)),
            );
            &&& result is Ok
            &&& after.is_conserved()
            &&& m.seats.is_live(seat)
            &&& freed.book == m.book
            &&& freed.header == m.header
            &&& match id.tagged_side() {
                Side::Ask => freed.seat(seat).base_lots_free.0 == m.seat(seat).base_lots_free.0
                    + removed.0,
                Side::Bid => freed.seat(seat).quote_lots_free.0 == m.seat(
                    seat,
                ).quote_lots_free.0 + m.value(id.price_in_ticks, removed),
            }
        }),
{
    let side = id.tagged_side();
    let tree = m.book.side(side);
    let order = m.book.get(id)->0;
    let left = BaseLots((order.num_base_lots.0 - removed.0) as u64);
    let config = m.header.lot_config;
    tree.lemma_present(id);
    let i = tree.position(id);
    assert(tree.value_at(i) == order);
    assert(m.seats.is_live(tree.value_at(i).trader_index as SeatIndex));
    lemma_backed(m, seat);
    lemma_order_backed(m, id);
    lemma_value_is_natural(config, id.price_in_ticks, removed);
    law_value_is_monotonic(
        config,
        id.price_in_ticks,
        id.price_in_ticks,
        removed,
        order.num_base_lots,
    );
    law_value_is_additive(config, id.price_in_ticks, removed, left);
    let (freed, result) = m.unlock_backing(id, seat, removed);
    let state = freed.seat(seat);
    assert(result is Ok);
    lemma_seat_replaced(m, seat, state);
    assert(freed == m.with_seat(seat, state)) by {
        assert(freed.seats.values =~= m.with_seat(seat, state).seats.values);
    }
    lemma_order_resized(freed, id, left);
    let after = freed.with_book(freed.book.resized(id, left));
    assert(after.base_owned() == freed.base_owned());
    assert(after.quote_owned() == freed.quote_owned());
    assert forall|x: SeatIndex| m.seats.is_live(x) implies #[trigger] after.seat(
        x,
    ).base_lots_locked.0 == after.base_backing(x) && after.seat(x).quote_lots_locked.0
        == after.quote_backing(x) by {
        lemma_backed(m, x);
        assert(after.seat(x) == freed.seat(x));
        assert(freed.base_backing(x) == m.base_backing(x));
        assert(freed.quote_backing(x) == m.quote_backing(x));
        assert(after.backing(side, x) == freed.backing(side, x) - (if order.trader_index == x {
            m.cost(side, id.price_in_ticks, order.num_base_lots) - m.cost(
                side,
                id.price_in_ticks,
                left,
            )
        } else {
            0
        }));
        assert(after.backing(side.other(), x) == freed.backing(side.other(), x));
        match side {
            Side::Ask => {
                assert(after.base_backing(x) == after.backing(side, x));
                assert(after.quote_backing(x) == after.backing(side.other(), x));
            },
            Side::Bid => {
                assert(after.quote_backing(x) == after.backing(side, x));
                assert(after.base_backing(x) == after.backing(side.other(), x));
            },
        }
    }
    lemma_conserved_again(m, after);
}

/// Reducing or cancelling an order conserves value, whoever asks. For the owner it always
/// succeeds.
pub proof fn law_reducing_conserves(
    m: MarketModel,
    seat: SeatIndex,
    id: FIFOOrderId,
    size: BaseLots,
)
    requires
        m.is_conserved(),
    ensures
        m.reduce_order(seat, id, size).0.is_conserved(),
        m.cancel_order(seat, id).0.is_conserved(),
        match m.book.get(id) {
            None => {
                &&& m.reduce_order(seat, id, size).1 == Err::<BaseLots, EngineError>(
                    EngineError::OrderNotFound,
                )
                &&& m.cancel_order(seat, id).1 == Err::<BaseLots, EngineError>(
                    EngineError::OrderNotFound,
                )
            },
            Some(order) => if order.trader_index != seat {
                &&& m.reduce_order(seat, id, size) == (
                    m,
                    Err::<BaseLots, EngineError>(EngineError::NotOrderOwner),
                )
                &&& m.cancel_order(seat, id) == (
                    m,
                    Err::<BaseLots, EngineError>(EngineError::NotOrderOwner),
                )
            } else {
                &&& m.reduce_order(seat, id, size).1 == Ok::<BaseLots, EngineError>(
                    least(order.num_base_lots, size),
                )
                &&& m.cancel_order(seat, id).1 == Ok::<BaseLots, EngineError>(order.num_base_lots)
            },
        },
{
    if let Some(order) = m.book.get(id) {
        if order.trader_index == seat {
            law_releasing_backing_conserves(m, id, seat, least(order.num_base_lots, size));
            law_releasing_backing_conserves(m, id, seat, order.num_base_lots);
        }
    }
}

/// Cancelling a seat's orders conserves value, always succeeds, and cancels at most as
/// many as asked.
pub proof fn law_cancelling_all_conserves(
    m: MarketModel,
    seat: SeatIndex,
    side: Side,
    limit: u32,
    done: u32,
)
    requires
        m.is_conserved(),
        done <= limit,
    ensures
        m.cancel_orders(seat, side, limit, done).0.is_conserved(),
        m.cancel_orders(seat, side, limit, done).1 is Ok,
        done <= m.cancel_orders(seat, side, limit, done).1->Ok_0 <= limit,
        m.cancel_orders(seat, side, limit, done).1->Ok_0 < limit ==> m.cancel_orders(
            seat,
            side,
            limit,
            done,
        ).0.best_of_seat(seat, side) is None,
    decreases limit - done,
{
    if done < limit {
        if let Some(id) = m.best_of_seat(seat, side) {
            lemma_first_owned(m, seat, side);
            law_reducing_conserves(m, seat, id, BaseLots(0));
            let after = m.cancel_order(seat, id).0;
            law_cancelling_all_conserves(after, seat, side, limit, (done + 1) as u32);
        }
    }
}

/// What a walk for a seat's order finds belongs to that seat.
pub(crate) proof fn lemma_first_owned(m: MarketModel, seat: SeatIndex, side: Side)
    requires
        m.wf(),
    ensures
        match m.best_of_seat(seat, side) {
            Some(id) => m.book.get(id) is Some && (m.book.get(id)->0).trader_index == seat,
            None => true,
        },
{
    let tree = m.book.side(side);
    let queue = m.book.queue(side);
    let n = tree.order.len();
    assert forall|i: int| 0 <= i < queue.len() implies {
        &&& m.book.get((#[trigger] queue[i]).key) == Some(queue[i].value)
    } by {
        let k = match side {
            Side::Bid => n - 1 - i,
            Side::Ask => i,
        };
        assert(queue[i] == tree.entry_at(k));
        assert(tree.key_at(k).tagged_side() == side);
        tree.lemma_position_present(tree.key_at(k), k);
    }
    lemma_first_owned_in(queue, seat);
}

pub(crate) proof fn lemma_first_owned_in(queue: Seq<crate::book::BookEntry>, seat: SeatIndex)
    ensures
        match super::model::first_owned(queue, seat) {
            Some(id) => exists|i: int|
                0 <= i < queue.len() && (#[trigger] queue[i]).key == id
                    && queue[i].value.trader_index == seat,
            None => forall|i: int|
                0 <= i < queue.len() ==> (#[trigger] queue[i]).value.trader_index != seat,
        },
    decreases queue.len(),
{
    if queue.len() > 0 {
        let rest = queue.drop_first();
        lemma_first_owned_in(rest, seat);
        assert forall|i: int| 1 <= i < queue.len() implies #[trigger] queue[i] == rest[i - 1] by {}
        if queue[0].value.trader_index != seat {
            if let Some(id) = super::model::first_owned(rest, seat) {
                let i = choose|i: int|
                    0 <= i < rest.len() && (#[trigger] rest[i]).key == id
                        && rest[i].value.trader_index == seat;
                assert(queue[i + 1] == rest[i]);
            }
        }
    }
}

/// Posting conserves value. A side that is full leaves the market exactly as it was.
pub proof fn law_posting_conserves(
    m: MarketModel,
    seat: SeatIndex,
    side: Side,
    price: Ticks,
    size: BaseLots,
)
    requires
        m.is_conserved(),
        m.seats.is_live(seat),
        size.0 > 0,
        m.book.next_sequence <= MAX_SEQUENCE_NUMBER,
    ensures
        m.post(seat, side, price, size).0.is_conserved(),
        m.post(seat, side, price, size).1 is Err ==> m.post(seat, side, price, size).0 == m,
        m.book.side(side).is_full() ==> m.post(seat, side, price, size).1 is Err,
{
    let config = m.header.lot_config;
    lemma_backed(m, seat);
    lemma_value_is_natural(config, price, size);
    let (backed, locked) = m.lock_backing(seat, side, price, size);
    let state = backed.seat(seat);
    assert(backed.seats.values =~= m.with_seat(seat, state).seats.values);
    if locked is Err {
        assert(m.seats.values.update(seat - 1, m.seat(seat)) =~= m.seats.values);
    } else {
        lemma_seat_replaced(m, seat, state);
        assert(backed == m.with_seat(seat, state));
        let (undone, unlocked) = backed.undo_lock(seat, side, price, size);
        if m.book.side(side).is_full() {
            assert(undone.seat(seat) == m.seat(seat));
            assert(undone.seats.values =~= m.seats.values);
            assert(undone == m);
        } else {
            lemma_order_placed(backed, seat, side, price, size);
            let order = RestingOrder::lasting(seat as u64, size);
            let after = backed.with_book(backed.book.placed(side, price, order));
            assert(after.base_owned() == backed.base_owned());
            assert(after.quote_owned() == backed.quote_owned());
            assert forall|x: SeatIndex| m.seats.is_live(x) implies #[trigger] after.seat(
                x,
            ).base_lots_locked.0 == after.base_backing(x) && after.seat(x).quote_lots_locked.0
                == after.quote_backing(x) by {
                lemma_backed(m, x);
                assert(after.seat(x) == backed.seat(x));
                assert(backed.base_backing(x) == m.base_backing(x));
                assert(backed.quote_backing(x) == m.quote_backing(x));
                assert(after.backing(side, x) == backed.backing(side, x) + (if x == seat {
                    m.cost(side, price, size)
                } else {
                    0
                }));
                assert(after.backing(side.other(), x) == backed.backing(side.other(), x));
                match side {
                    Side::Ask => {
                        assert(after.base_backing(x) == after.backing(side, x));
                        assert(after.quote_backing(x) == after.backing(side.other(), x));
                    },
                    Side::Bid => {
                        assert(after.quote_backing(x) == after.backing(side, x));
                        assert(after.base_backing(x) == after.backing(side.other(), x));
                    },
                }
            }
            lemma_conserved_again(m, after);
        }
    }
}

} // verus!
