//! How the parts of conservation move: one seat's balances, one order's backing.

use vstd::prelude::*;

use super::conservation::{
    backing_by_asker, backing_by_bidder, base_of, quote_of, SeatEntry,
};
use super::model::MarketModel;
#[allow(unused_imports)]
use super::sums::{
    lemma_weigh_at_least, lemma_weigh_at_least_two, lemma_weigh_insert, lemma_weigh_remove,
    lemma_weigh_update,
};
#[allow(unused_imports)]
use crate::book::view::lemma_next_id_is_new;
use crate::book::BookEntry;
use crate::engine::trader::{SeatIndex, TraderState};
use crate::order::{FIFOOrderId, RestingOrder, Side, MAX_SEQUENCE_NUMBER};
#[allow(unused_imports)]
use crate::quantities::lots::{law_zero_is_worthless, lemma_value_is_natural};
use crate::quantities::{BaseLots, Ticks};
use crate::tree::Entry;

verus! {

impl MarketModel {
    /// What an order on `side` takes to back: its size for an ask, its value for a bid.
    pub open spec fn cost(self, side: Side, price: Ticks, size: BaseLots) -> int {
        match side {
            Side::Ask => size.0 as int,
            Side::Bid => self.value(price, size),
        }
    }

    /// What backs a seat's orders on a side.
    pub open spec fn backing(self, side: Side, seat: SeatIndex) -> int {
        match side {
            Side::Ask => self.base_backing(seat),
            Side::Bid => self.quote_backing(seat),
        }
    }

    /// What a seat has locked for its orders on a side.
    pub open spec fn locked(self, side: Side, seat: SeatIndex) -> int {
        match side {
            Side::Ask => self.seat(seat).base_lots_locked.0 as int,
            Side::Bid => self.seat(seat).quote_lots_locked.0 as int,
        }
    }

    /// The weight of one order in what backs a seat.
    pub open spec fn backing_weight(self, side: Side, seat: SeatIndex) -> spec_fn(BookEntry) -> int {
        match side {
            Side::Ask => backing_by_asker(seat),
            Side::Bid => backing_by_bidder(self.header.lot_config, seat),
        }
    }

    /// The market with its book replaced.
    pub open spec fn with_book(self, book: crate::book::BookView) -> Self {
        MarketModel { book, ..self }
    }
}

/// Replacing a live seat's balances moves the totals by the difference, and nothing else.
pub proof fn lemma_seat_replaced(m: MarketModel, h: SeatIndex, state: TraderState)
    requires
        m.wf(),
        m.seats.is_live(h),
    ensures
        1 <= h <= m.seats.capacity(),
        m.with_seat(h, state).wf(),
        m.with_seat(h, state).base_owned() == m.base_owned() - m.seat(h).base() + state.base(),
        m.with_seat(h, state).quote_owned() == m.quote_owned() - m.seat(h).quote() + state.quote(),
        m.with_seat(h, state).seat(h) == state,
        forall|x: SeatIndex|
            x != h && m.seats.is_live(x) ==> #[trigger] m.with_seat(h, state).seat(x) == m.seat(x),
        forall|x: SeatIndex| #[trigger] m.with_seat(h, state).base_backing(x) == m.base_backing(x),
        forall|x: SeatIndex| #[trigger]
            m.with_seat(h, state).quote_backing(x) == m.quote_backing(x),
        m.with_seat(h, state).seats.order == m.seats.order,
        m.with_seat(h, state).header == m.header,
        m.with_seat(h, state).book == m.book,
{
    let i = m.seats.place_of(h);
    assert(0 <= i < m.seats.order.len() && m.seats.order[i] == h);
    m.seats.lemma_with_value(h, state);
    let entries = m.seats.entries();
    let entry: SeatEntry = Entry { value: state, ..m.seats.entry_at(i) };
    assert(entries[i] == m.seats.entry_at(i));
    assert(m.seats.value_at(i) == m.seat(h));
    lemma_weigh_update(entries, i, entry, base_of());
    lemma_weigh_update(entries, i, entry, quote_of());
    assert forall|x: SeatIndex|
        x != h && m.seats.is_live(x) implies #[trigger] m.with_seat(h, state).seat(x) == m.seat(
        x,
    ) by {
        let j = choose|j: int| 0 <= j < m.seats.order.len() && m.seats.order[j] == x;
        assert(1 <= m.seats.order[j] <= m.seats.capacity());
    }
}

/// A live seat owns no more than all seats together, and so do two.
pub proof fn lemma_seat_bounded(m: MarketModel, a: SeatIndex, b: SeatIndex)
    requires
        m.wf(),
        m.seats.is_live(a),
        m.seats.is_live(b),
    ensures
        0 <= m.seat(a).base() <= m.base_owned(),
        0 <= m.seat(a).quote() <= m.quote_owned(),
        a != b ==> m.seat(a).base() + m.seat(b).base() <= m.base_owned(),
        a != b ==> m.seat(a).quote() + m.seat(b).quote() <= m.quote_owned(),
{
    let entries = m.seats.entries();
    let i = m.seats.place_of(a);
    let j = m.seats.place_of(b);
    assert(0 <= i < m.seats.order.len() && m.seats.order[i] == a);
    assert(0 <= j < m.seats.order.len() && m.seats.order[j] == b);
    assert(entries[i] == m.seats.entry_at(i) && entries[j] == m.seats.entry_at(j));
    assert forall|k: int| 0 <= k < entries.len() implies (base_of())(#[trigger] entries[k])
        >= 0 by {}
    assert forall|k: int| 0 <= k < entries.len() implies (quote_of())(#[trigger] entries[k])
        >= 0 by {}
    lemma_weigh_at_least(entries, i, base_of());
    lemma_weigh_at_least(entries, i, quote_of());
    if a != b {
        lemma_weigh_at_least_two(entries, i, j, base_of());
        lemma_weigh_at_least_two(entries, i, j, quote_of());
    }
}

/// Backing is never negative.
proof fn lemma_weights_natural(m: MarketModel, side: Side, seat: SeatIndex)
    requires
        m.wf(),
    ensures
        forall|k: int|
            0 <= k < m.book.side(side).entries().len() ==> (m.backing_weight(side, seat))(
                #[trigger] m.book.side(side).entries()[k],
            ) >= 0,
{
    let entries = m.book.side(side).entries();
    assert forall|k: int| 0 <= k < entries.len() implies (m.backing_weight(side, seat))(
        #[trigger] entries[k],
    ) >= 0 by {
        lemma_value_is_natural(
            m.header.lot_config,
            entries[k].key.price_in_ticks,
            entries[k].value.num_base_lots,
        );
    }
}

/// A resting order costs no more than what backs its owner's orders on its side.
pub proof fn lemma_order_backed(m: MarketModel, id: FIFOOrderId)
    requires
        m.wf(),
        m.book.contains(id),
    ensures
        m.book.get(id) is Some,
        ({
            let order = m.book.get(id)->0;
            &&& 0 <= m.cost(id.tagged_side(), id.price_in_ticks, order.num_base_lots)
                <= m.backing(id.tagged_side(), order.trader_index as SeatIndex)
            &&& 1 <= order.trader_index <= m.seats.capacity()
        }),
{
    let side = id.tagged_side();
    let tree = m.book.side(side);
    tree.lemma_present(id);
    m.lemma_owner_in_range(id);
    let i = tree.position(id);
    let order = m.book.get(id)->0;
    let seat = order.trader_index as SeatIndex;
    assert(tree.entries()[i] == tree.entry_at(i));
    lemma_weights_natural(m, side, seat);
    lemma_weigh_at_least(tree.entries(), i, m.backing_weight(side, seat));
    lemma_value_is_natural(m.header.lot_config, id.price_in_ticks, order.num_base_lots);
}

/// Resizing an order moves its owner's backing by the difference in cost, and nothing
/// else.
pub proof fn lemma_order_resized(m: MarketModel, id: FIFOOrderId, size: BaseLots)
    requires
        m.wf(),
        m.book.contains(id),
    ensures
        ({
            let side = id.tagged_side();
            let order = m.book.get(id)->0;
            let after = m.with_book(m.book.resized(id, size));
            &&& after.wf()
            &&& forall|x: SeatIndex| #[trigger]
                after.backing(side, x) == m.backing(side, x) - (if order.trader_index == x {
                    m.cost(side, id.price_in_ticks, order.num_base_lots) - m.cost(
                        side,
                        id.price_in_ticks,
                        size,
                    )
                } else {
                    0
                })
            &&& forall|x: SeatIndex| #[trigger]
                after.backing(side.other(), x) == m.backing(side.other(), x)
            &&& m.orders_are_owned() ==> after.orders_are_owned()
            &&& after.seats == m.seats
            &&& after.header == m.header
        }),
{
    let side = id.tagged_side();
    let tree = m.book.side(side);
    let after = m.with_book(m.book.resized(id, size));
    let order = m.book.get(id)->0;
    m.lemma_resized(id, size);
    tree.lemma_present(id);
    let i = tree.position(id);
    assert(tree.entries()[i] == tree.entry_at(i));
    let shrunk = RestingOrder { num_base_lots: size, ..order };
    let entry: BookEntry = Entry { value: shrunk, ..tree.entry_at(i) };
    if size.0 == 0 {
        tree.lemma_without_place(i);
        law_zero_is_worthless(m.header.lot_config, id.price_in_ticks, size);
    } else {
        tree.lemma_with_value(tree.handle_of(id), shrunk);
    }
    assert forall|x: SeatIndex| #[trigger] after.backing(side, x) == m.backing(side, x) - (if
        order.trader_index == x {
        m.cost(side, id.price_in_ticks, order.num_base_lots) - m.cost(side, id.price_in_ticks, size)
    } else {
        0
    }) by {
        let w = m.backing_weight(side, x);
        if size.0 == 0 {
            lemma_weigh_remove(tree.entries(), i, w);
        } else {
            lemma_weigh_update(tree.entries(), i, entry, w);
        }
    }
    if m.orders_are_owned() {
        let rest = after.book.side(side);
        assert forall|j: int| 0 <= j < rest.order.len() implies {
            &&& m.seats.is_live((#[trigger] rest.value_at(j)).trader_index as SeatIndex)
            &&& rest.value_at(j).num_base_lots.0 > 0
        } by {
            assert(rest.entries()[j] == rest.entry_at(j));
            if size.0 == 0 {
                let k = if j < i {
                    j
                } else {
                    j + 1
                };
                assert(rest.entries()[j] == tree.entries()[k]);
                assert(tree.entries()[k] == tree.entry_at(k));
                assert(rest.value_at(j) == tree.value_at(k));
            } else {
                assert(rest.entries()[j] == tree.entries().update(i, entry)[j]);
                if j != i {
                    assert(tree.entries()[j] == tree.entry_at(j));
                    assert(rest.value_at(j) == tree.value_at(j));
                } else {
                    assert(tree.value_at(i) == order);
                    assert(rest.value_at(j) == shrunk);
                }
            }
        }
    }
}

/// An order that comes to rest adds its cost to its owner's backing, and nothing else.
pub proof fn lemma_order_placed(
    m: MarketModel,
    seat: SeatIndex,
    side: Side,
    price: Ticks,
    size: BaseLots,
)
    requires
        m.wf(),
        1 <= seat <= m.seats.capacity(),
        m.book.next_sequence <= MAX_SEQUENCE_NUMBER,
        !m.book.side(side).is_full(),
    ensures
        ({
            let after = m.with_book(
                m.book.placed(side, price, RestingOrder::lasting(seat as u64, size)),
            );
            &&& after.wf()
            &&& forall|x: SeatIndex| #[trigger]
                after.backing(side, x) == m.backing(side, x) + (if x == seat {
                    m.cost(side, price, size)
                } else {
                    0
                })
            &&& forall|x: SeatIndex| #[trigger]
                after.backing(side.other(), x) == m.backing(side.other(), x)
            &&& m.orders_are_owned() && m.seats.is_live(seat) && size.0 > 0
                ==> after.orders_are_owned()
            &&& after.seats == m.seats
            &&& after.header == m.header
        }),
{
    let order = RestingOrder::lasting(seat as u64, size);
    let after = m.with_book(m.book.placed(side, price, order));
    let tree = m.book.side(side);
    let id = m.book.next_id(side, price);
    m.lemma_posted(seat, side, price, size);
    lemma_next_id_is_new(m.book, side, price);
    tree.lemma_with_new(id, order);
    let p = tree.position(id);
    let entry: BookEntry = Entry { handle: tree.next_handle(), key: id, value: order };
    assert forall|x: SeatIndex| #[trigger] after.backing(side, x) == m.backing(side, x) + (if x
        == seat {
        m.cost(side, price, size)
    } else {
        0
    }) by {
        lemma_weigh_insert(tree.entries(), p, entry, m.backing_weight(side, x));
    }
    if m.orders_are_owned() && m.seats.is_live(seat) && size.0 > 0 {
        let grown = after.book.side(side);
        assert forall|j: int| 0 <= j < grown.order.len() implies {
            &&& m.seats.is_live((#[trigger] grown.value_at(j)).trader_index as SeatIndex)
            &&& grown.value_at(j).num_base_lots.0 > 0
        } by {
            assert(grown.entries()[j] == grown.entry_at(j));
            if j != p {
                let k = if j < p {
                    j
                } else {
                    j - 1
                };
                assert(grown.entries()[j] == tree.entries()[k]);
                assert(tree.entries()[k] == tree.entry_at(k));
                assert(grown.value_at(j) == tree.value_at(k));
            }
        }
    }
}

} // verus!
