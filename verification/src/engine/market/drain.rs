//! The whole market can be paid out.

use vstd::prelude::*;

#[allow(unused_imports)]
use super::history::lemma_cancels_keep_header;
#[allow(unused_imports)]
use super::laws::{
    law_cancelling_all_conserves, law_reducing_conserves, law_withdrawing_conserves,
    lemma_backed, lemma_first_owned, lemma_first_owned_in,
};
use super::model::{MarketModel, Step};
#[allow(unused_imports)]
use super::order_laws::{lemma_cancels_exhaust, lemma_own_side};
#[allow(unused_imports)]
use super::payout_laws::{
    law_a_drained_market_holds_only_fees, law_seats_without_orders_lock_nothing,
    law_unlocked_seats_can_be_emptied,
};
use crate::book::view::SideView;
use crate::engine::trader::{SeatIndex, TraderKey, TraderState};
use crate::order::Side;
use crate::quantities::{BaseLots, QuoteLots};

verus! {

impl MarketModel {
    /// Every order of each of these seats is cancelled, bids before asks.
    pub open spec fn cancel_everything(self, seats: Seq<SeatIndex>) -> Step<()>
        decreases seats.len(),
    {
        if seats.len() == 0 {
            (self, Ok(()))
        } else {
            let (one, bids) = self.cancel_orders(seats[0], Side::Bid, u32::MAX, 0);
            let (two, asks) = one.cancel_orders(seats[0], Side::Ask, u32::MAX, 0);
            match (bids, asks) {
                (Ok(_), Ok(_)) => two.cancel_everything(seats.drop_first()),
                (Err(error), _) => (two, Err(error)),
                (_, Err(error)) => (two, Err(error)),
            }
        }
    }

    /// Everything free leaves each of these seats. Gives the totals paid out.
    pub open spec fn withdraw_everything(self, seats: Seq<SeatIndex>) -> Step<(int, int)>
        decreases seats.len(),
    {
        if seats.len() == 0 {
            (self, Ok((0int, 0int)))
        } else {
            let (after, paid) = self.withdraw_all(seats[0]);
            match paid {
                Err(error) => (after, Err(error)),
                Ok((base, quote)) => {
                    let (end, rest) = after.withdraw_everything(seats.drop_first());
                    match rest {
                        Err(error) => (end, Err(error)),
                        Ok((more_base, more_quote)) => (
                            end,
                            Ok((base.0 + more_base, quote.0 + more_quote)),
                        ),
                    }
                },
            }
        }
    }
}

/// None of a side's orders belongs to a seat.
spec fn free_of(tree: SideView, seat: SeatIndex) -> bool {
    forall|i: int|
        0 <= i < tree.order.len() ==> (#[trigger] tree.value_at(i)).trader_index != seat
}

/// A walk of a side finds no order of a seat exactly if there is none.
proof fn lemma_free_of(m: MarketModel, side: Side, seat: SeatIndex)
    ensures
        m.best_of_seat(seat, side) is None <==> free_of(m.book.side(side), seat),
{
    let tree = m.book.side(side);
    let queue = m.book.queue(side);
    let n = tree.order.len();
    lemma_first_owned_in(queue, seat);
    if m.best_of_seat(seat, side) is None {
        assert forall|i: int| 0 <= i < n implies (#[trigger] tree.value_at(i)).trader_index
            != seat by {
            let k = match side {
                Side::Bid => n - 1 - i,
                Side::Ask => i,
            };
            assert(queue[k] == tree.entry_at(i));
        }
    }
    if free_of(tree, seat) {
        assert forall|k: int| 0 <= k < queue.len() implies (#[trigger] queue[k]).value.trader_index
            != seat by {
            let i = match side {
                Side::Bid => n - 1 - k,
                Side::Ask => k,
            };
            assert(queue[k] == tree.entry_at(i));
            assert(tree.value_at(i).trader_index != seat);
        }
    }
}

/// Cancelling a seat's orders keeps everybody's place, and gives nobody an order.
proof fn lemma_cancels_keep(
    m: MarketModel,
    seat: SeatIndex,
    side: Side,
    limit: u32,
    done: u32,
    other: SeatIndex,
)
    requires
        m.is_conserved(),
        done <= limit,
    ensures
        ({
            let after = m.cancel_orders(seat, side, limit, done).0;
            &&& after.seats.order == m.seats.order
            &&& after.seats.keys == m.seats.keys
            &&& free_of(m.book.side(side), other) ==> free_of(after.book.side(side), other)
            &&& after.book.side(side.other()) == m.book.side(side.other())
        }),
    decreases limit - done,
{
    if done < limit {
        if let Some(id) = m.best_of_seat(seat, side) {
            lemma_first_owned(m, seat, side);
            lemma_own_side(m, seat, side);
            law_reducing_conserves(m, seat, id, BaseLots(0));
            let after = m.cancel_order(seat, id).0;
            let tree = m.book.side(side);
            tree.lemma_present(id);
            let p = tree.position(id);
            tree.lemma_without_place(p);
            assert(after.book.side(side) == tree.without_place(p));
            let rest = tree.without_place(p);
            if free_of(tree, other) {
                assert forall|j: int| 0 <= j < rest.order.len() implies (
                #[trigger] rest.value_at(j)).trader_index != other by {
                    let k = if j < p {
                        j
                    } else {
                        j + 1
                    };
                    assert(rest.value_at(j) == tree.value_at(k));
                }
            }
            lemma_cancels_keep(after, seat, side, limit, (done + 1) as u32, other);
        }
    }
}

/// Cancelling a seat's orders on both sides leaves it none, and nobody more.
proof fn lemma_cancel_seat(m: MarketModel, seat: SeatIndex, other: SeatIndex)
    requires
        m.is_conserved(),
        m.seats.is_live(seat),
    ensures
        ({
            let (one, bids) = m.cancel_orders(seat, Side::Bid, u32::MAX, 0);
            let (two, asks) = one.cancel_orders(seat, Side::Ask, u32::MAX, 0);
            &&& bids is Ok
            &&& asks is Ok
            &&& two.is_conserved()
            &&& two.header == m.header
            &&& two.seats.order == m.seats.order
            &&& two.seats.keys == m.seats.keys
            &&& !two.has_orders(seat)
            &&& !m.has_orders(other) ==> !two.has_orders(other)
        }),
{
    let one = m.cancel_orders(seat, Side::Bid, u32::MAX, 0).0;
    law_cancelling_all_conserves(m, seat, Side::Bid, u32::MAX, 0);
    crate::tree::laws::lemma_len_bounded(m.book.bids);
    lemma_cancels_exhaust(m, seat, Side::Bid, u32::MAX, 0);
    lemma_cancels_keep_header(m, seat, Side::Bid, u32::MAX, 0);
    lemma_cancels_keep(m, seat, Side::Bid, u32::MAX, 0, other);
    let two = one.cancel_orders(seat, Side::Ask, u32::MAX, 0).0;
    law_cancelling_all_conserves(one, seat, Side::Ask, u32::MAX, 0);
    crate::tree::laws::lemma_len_bounded(one.book.asks);
    lemma_cancels_exhaust(one, seat, Side::Ask, u32::MAX, 0);
    lemma_cancels_keep_header(one, seat, Side::Ask, u32::MAX, 0);
    lemma_cancels_keep(one, seat, Side::Ask, u32::MAX, 0, other);
    assert(two.book.side(Side::Bid) == one.book.side(Side::Bid));
    lemma_free_of(m, Side::Bid, other);
    lemma_free_of(m, Side::Ask, other);
    lemma_free_of(two, Side::Bid, other);
    lemma_free_of(two, Side::Ask, other);
    lemma_free_of(one, Side::Bid, seat);
    lemma_free_of(two, Side::Bid, seat);
}

/// Cancelling everything always succeeds, and leaves none of the seats an order.
proof fn lemma_cancel_everything(m: MarketModel, seats: Seq<SeatIndex>)
    requires
        m.is_conserved(),
        forall|i: int| 0 <= i < seats.len() ==> m.seats.is_live(#[trigger] seats[i]),
    ensures
        ({
            let (after, result) = m.cancel_everything(seats);
            &&& result is Ok
            &&& after.is_conserved()
            &&& after.header == m.header
            &&& after.seats.order == m.seats.order
            &&& after.seats.keys == m.seats.keys
            &&& forall|i: int| 0 <= i < seats.len() ==> !after.has_orders(#[trigger] seats[i])
            &&& forall|x: SeatIndex| !m.has_orders(x) ==> !#[trigger] after.has_orders(x)
        }),
    decreases seats.len(),
{
    if seats.len() > 0 {
        let first = seats[0];
        let rest = seats.drop_first();
        lemma_cancel_seat(m, first, first);
        let one = m.cancel_orders(first, Side::Bid, u32::MAX, 0).0;
        let two = one.cancel_orders(first, Side::Ask, u32::MAX, 0).0;
        assert forall|i: int| 0 <= i < rest.len() implies two.seats.is_live(#[trigger] rest[i]) by {
            assert(m.seats.is_live(seats[i + 1]));
        }
        lemma_cancel_everything(two, rest);
        let after = m.cancel_everything(seats).0;
        assert(after == two.cancel_everything(rest).0);
        assert forall|x: SeatIndex| !m.has_orders(x) implies !#[trigger] after.has_orders(x) by {
            lemma_cancel_seat(m, first, x);
        }
        assert forall|i: int| 0 <= i < seats.len() implies !after.has_orders(
            #[trigger] seats[i],
        ) by {
            if i > 0 {
                assert(rest[i - 1] == seats[i]);
            }
        }
    }
}

/// Paying out a seat without orders empties it, and touches nothing else.
proof fn lemma_withdraw_seat(m: MarketModel, seat: SeatIndex)
    requires
        m.is_conserved(),
        m.seats.is_live(seat),
        !m.has_orders(seat),
    ensures
        ({
            let (after, paid) = m.withdraw_all(seat);
            &&& paid is Ok
            &&& after.is_conserved()
            &&& after.book == m.book
            &&& after.seats.order == m.seats.order
            &&& after.seats.keys == m.seats.keys
            &&& after.header.unclaimed_quote_lot_fees == m.header.unclaimed_quote_lot_fees
            &&& after.header.base_lots_deposited.0 == m.header.base_lots_deposited.0
                - paid->Ok_0.0.0
            &&& after.header.quote_lots_deposited.0 == m.header.quote_lots_deposited.0
                - paid->Ok_0.1.0
            &&& after.seat(seat) == TraderState::nothing()
            &&& forall|x: SeatIndex|
                m.seats.is_live(x) && x != seat ==> #[trigger] after.seat(x) == m.seat(x)
        }),
{
    law_seats_without_orders_lock_nothing(m, seat);
    law_unlocked_seats_can_be_emptied(m, seat);
    law_withdrawing_conserves(m, seat, BaseLots(0), QuoteLots(0));
    lemma_backed(m, seat);
    let after = m.withdraw_all(seat).0;
    assert forall|x: SeatIndex| m.seats.is_live(x) && x != seat implies #[trigger] after.seat(x)
        == m.seat(x) by {
        lemma_backed(m, x);
    }
}

/// Paying out seats without orders always succeeds and empties them all.
proof fn lemma_withdraw_everything(m: MarketModel, seats: Seq<SeatIndex>)
    requires
        m.is_conserved(),
        forall|i: int|
            0 <= i < seats.len() ==> m.seats.is_live(#[trigger] seats[i]) && !m.has_orders(
                seats[i],
            ),
    ensures
        ({
            let (after, paid) = m.withdraw_everything(seats);
            &&& paid is Ok
            &&& after.is_conserved()
            &&& after.book == m.book
            &&& after.seats.order == m.seats.order
            &&& after.seats.keys == m.seats.keys
            &&& after.header.unclaimed_quote_lot_fees == m.header.unclaimed_quote_lot_fees
            &&& after.header.base_lots_deposited.0 == m.header.base_lots_deposited.0 - (
            paid->Ok_0).0
            &&& after.header.quote_lots_deposited.0 == m.header.quote_lots_deposited.0 - (
            paid->Ok_0).1
            &&& forall|i: int|
                0 <= i < seats.len() ==> after.seat(#[trigger] seats[i]) == TraderState::nothing()
            &&& forall|x: SeatIndex|
                m.seats.is_live(x) && m.seat(x) == TraderState::nothing() ==> #[trigger] after.seat(
                    x,
                ) == TraderState::nothing()
        }),
    decreases seats.len(),
{
    if seats.len() > 0 {
        let first = seats[0];
        let rest = seats.drop_first();
        assert(m.seats.is_live(seats[0]));
        lemma_withdraw_seat(m, first);
        let one = m.withdraw_all(first).0;
        assert forall|i: int| 0 <= i < rest.len() implies one.seats.is_live(#[trigger] rest[i])
            && !one.has_orders(rest[i]) by {
            assert(m.seats.is_live(seats[i + 1]) && !m.has_orders(seats[i + 1]));
        }
        lemma_withdraw_everything(one, rest);
        let after = m.withdraw_everything(seats).0;
        assert forall|x: SeatIndex|
            m.seats.is_live(x) && m.seat(x) == TraderState::nothing() implies #[trigger] after.seat(
            x,
        ) == TraderState::nothing() by {
            assert(one.seat(x) == TraderState::nothing());
            assert(one.seats.is_live(x));
        }
        assert forall|i: int| 0 <= i < seats.len() implies after.seat(#[trigger] seats[i])
            == TraderState::nothing() by {
            if i == 0 {
                assert(one.seats.is_live(first));
            } else {
                assert(rest[i - 1] == seats[i]);
            }
        }
    }
}

/// The market can always be fully drained. Cancelling every claimed seat's orders on both
/// sides and then withdrawing from every seat always succeeds. The payouts sum to what the
/// market held, less the unclaimed fees, which are all that is left; and every seat can then
/// be released.
pub proof fn law_markets_can_always_be_drained(m: MarketModel, seats: Seq<SeatIndex>)
    requires
        m.is_conserved(),
        forall|x: SeatIndex| m.seats.is_live(x) <==> #[trigger] seats.contains(x),
    ensures
        ({
            let (quiet, cancelled) = m.cancel_everything(seats);
            let (drained, paid) = quiet.withdraw_everything(seats);
            &&& cancelled is Ok
            &&& paid is Ok
            &&& (paid->Ok_0).0 == m.header.base_lots_deposited.0
            &&& (paid->Ok_0).1 == m.header.quote_lots_deposited.0
                - m.header.unclaimed_quote_lot_fees.0
            &&& drained.is_conserved()
            &&& drained.header.unclaimed_quote_lot_fees == m.header.unclaimed_quote_lot_fees
            &&& drained.header.base_lots_deposited.0 == 0
            &&& drained.header.quote_lots_deposited == drained.header.unclaimed_quote_lot_fees
            &&& forall|key: TraderKey| #[trigger]
                m.seats.contains_key(key) ==> drained.release_seat(key).1 is Ok
        }),
{
    assert forall|i: int| 0 <= i < seats.len() implies m.seats.is_live(#[trigger] seats[i]) by {
        assert(seats.contains(seats[i]));
    }
    lemma_cancel_everything(m, seats);
    let quiet = m.cancel_everything(seats).0;
    assert forall|i: int| 0 <= i < seats.len() implies quiet.seats.is_live(#[trigger] seats[i])
        && !quiet.has_orders(seats[i]) by {
        assert(m.seats.is_live(seats[i]));
    }
    lemma_withdraw_everything(quiet, seats);
    let drained = quiet.withdraw_everything(seats).0;
    assert forall|i: int| 0 <= i < drained.seats.order.len() implies drained.seat(
        #[trigger] drained.seats.order[i],
    ) == TraderState::nothing() && !drained.has_orders(drained.seats.order[i]) by {
        let x = m.seats.order[i];
        assert(m.seats.is_live(x));
        assert(seats.contains(x));
        let k = choose|k: int| 0 <= k < seats.len() && seats[k] == x;
        assert(drained.seat(seats[k]) == TraderState::nothing());
        assert(!quiet.has_orders(seats[k]));
    }
    law_a_drained_market_holds_only_fees(drained);
    assert forall|key: TraderKey| #[trigger] m.seats.contains_key(
        key,
    ) implies drained.release_seat(key).1 is Ok by {
        let j = choose|j: int| 0 <= j < m.seats.order.len() && #[trigger] m.seats.key_at(j) == key;
        assert(drained.seats.key_at(j) == key);
        drained.seats.lemma_present(key);
        let i = drained.seats.position(key);
        assert(drained.seat(drained.seats.order[i]) == TraderState::nothing());
    }
}

} // verus!
