//! What a market owes can always be paid out, and its fees reconcile.

use vstd::prelude::*;

#[allow(unused_imports)]
use super::conservation::{
    backing_by_asker, backing_by_bidder, base_of, quote_of,
};
#[allow(unused_imports)]
use super::laws::{lemma_backed, lemma_first_owned_in};
use super::model::{cross_run, Crossing, MarketModel, Terms};
#[allow(unused_imports)]
use super::sums::lemma_weigh_nothing;
use crate::engine::error::EngineError;
use crate::engine::fill::MatchStop;
use crate::engine::packet::OrderPacket;
use crate::engine::trader::{SeatIndex, TraderState};
use crate::order::Side;
use crate::quantities::{BaseLots, QuoteLots};

verus! {

/// A seat without resting orders has nothing locked.
pub proof fn law_seats_without_orders_lock_nothing(m: MarketModel, seat: SeatIndex)
    requires
        m.is_conserved(),
        m.seats.is_live(seat),
        m.best_of_seat(seat, Side::Bid) is None,
        m.best_of_seat(seat, Side::Ask) is None,
    ensures
        m.seat(seat).base_lots_locked.0 == 0,
        m.seat(seat).quote_lots_locked.0 == 0,
{
    let asks = m.book.asks.entries();
    let bids = m.book.bids.entries();
    let config = m.header.lot_config;
    lemma_backed(m, seat);
    lemma_first_owned_in(m.book.queue(Side::Ask), seat);
    lemma_first_owned_in(m.book.queue(Side::Bid), seat);
    assert forall|i: int| 0 <= i < asks.len() implies (backing_by_asker(seat))(#[trigger] asks[i])
        == 0 by {
        assert(m.book.queue(Side::Ask)[i] == asks[i]);
    }
    assert forall|i: int| 0 <= i < bids.len() implies (backing_by_bidder(config, seat))(
        #[trigger] bids[i],
    ) == 0 by {
        assert(m.book.queue(Side::Bid)[bids.len() - 1 - i] == bids[i]);
    }
    lemma_weigh_nothing(asks, backing_by_asker(seat));
    lemma_weigh_nothing(bids, backing_by_bidder(config, seat));
}

/// Withdrawing everything from a seat with nothing locked always succeeds, pays out all it
/// holds, and leaves it empty, so that it can be released.
pub proof fn law_unlocked_seats_can_be_emptied(m: MarketModel, seat: SeatIndex)
    requires
        m.is_conserved(),
        m.seats.is_live(seat),
        m.seat(seat).base_lots_locked.0 == 0,
        m.seat(seat).quote_lots_locked.0 == 0,
    ensures
        m.withdraw_all(seat).1 == Ok::<(BaseLots, QuoteLots), EngineError>(
            (m.seat(seat).base_lots_free, m.seat(seat).quote_lots_free),
        ),
        m.withdraw_all(seat).0.seat(seat) == TraderState::nothing(),
{
    super::backing::lemma_seat_bounded(m, seat, seat);
    let i = m.seats.place_of(seat);
    assert(0 <= i < m.seats.order.len() && m.seats.order[i] == seat);
    assert(1 <= m.seats.order[i] <= m.seats.capacity());
}

/// When every seat is empty the market holds exactly its unswept fees and nothing else: no
/// stranded dust, no locked remainder.
pub proof fn law_a_drained_market_holds_only_fees(m: MarketModel)
    requires
        m.is_conserved(),
        forall|i: int|
            0 <= i < m.seats.order.len() ==> m.seat(#[trigger] m.seats.order[i])
                == TraderState::nothing(),
    ensures
        m.header.base_lots_deposited.0 == 0,
        m.header.quote_lots_deposited == m.header.unclaimed_quote_lot_fees,
{
    let seats = m.seats.entries();
    assert forall|i: int| 0 <= i < seats.len() implies (base_of())(#[trigger] seats[i]) == 0 && (
    quote_of())(seats[i]) == 0 by {
        assert(seats[i] == m.seats.entry_at(i));
        assert(m.seat(m.seats.order[i]) == TraderState::nothing());
    }
    lemma_weigh_nothing(seats, base_of());
    lemma_weigh_nothing(seats, quote_of());
}

/// Unclaimed fees never exceed the quote the market holds.
pub proof fn law_unclaimed_fees_are_held(m: MarketModel)
    requires
        m.is_conserved(),
    ensures
        m.header.unclaimed_quote_lot_fees.0 <= m.header.quote_lots_deposited.0,
{
    super::conservation::lemma_totals_natural(m);
}

// ---------------------------------------------------------------------------------
// Fees
// ---------------------------------------------------------------------------------

impl MarketModel {
    /// Fees swept so far: earned, and no longer unclaimed.
    pub open spec fn swept_fees(self) -> int {
        self.header.collected_quote_lot_fees.0 - self.header.unclaimed_quote_lot_fees.0
    }
}

/// A sweep pays out exactly the unclaimed fees, and lifetime fees stay what has been swept
/// plus what is unswept.
pub proof fn law_sweeps_reconcile(m: MarketModel)
    requires
        m.is_conserved(),
    ensures
        m.collect_fees().1 == Ok::<QuoteLots, EngineError>(m.header.unclaimed_quote_lot_fees),
        m.collect_fees().0.header.collected_quote_lot_fees == m.header.collected_quote_lot_fees,
        m.collect_fees().0.swept_fees() == m.swept_fees() + m.header.unclaimed_quote_lot_fees.0,
{
    law_unclaimed_fees_are_held(m);
}

/// One turn of the loop raises both fee totals by as much.
proof fn lemma_turn_reconciles(state: Crossing, terms: Terms)
    ensures
        state.turn(terms).0.market.swept_fees() == state.market.swept_fees(),
{
}

/// Matching raises both fee totals by as much, however it ends.
pub proof fn law_matching_reconciles(state: Crossing, terms: Terms)
    ensures
        cross_run(state, terms).0.market.swept_fees() == state.market.swept_fees(),
    decreases terms.match_limit - state.touched,
{
    lemma_turn_reconciles(state, terms);
    let (after, result) = state.turn(terms);
    if result == Ok::<Option<MatchStop>, EngineError>(None) {
        law_matching_reconciles(after, terms);
    }
}

/// No order changes what has been swept: fees are earned and unclaimed together.
pub proof fn law_orders_reconcile(m: MarketModel, seat: SeatIndex, packet: OrderPacket)
    ensures
        m.place_order(seat, packet).0.swept_fees() == m.swept_fees(),
{
    if packet.order_size().0 > 0 {
        match packet {
            OrderPacket::PostOnly { .. } => {},
            OrderPacket::Limit {
                side,
                price_in_ticks,
                num_base_lots,
                self_trade_behavior,
                match_limit,
            } => {
                law_matching_reconciles(
                    Crossing::start(m, num_base_lots),
                    Terms {
                        taker: seat,
                        side,
                        limit: Some(price_in_ticks),
                        behavior: self_trade_behavior,
                        match_limit,
                    },
                );
            },
            OrderPacket::ImmediateOrCancel {
                side,
                price_in_ticks,
                num_base_lots,
                min_base_lots_to_fill,
                self_trade_behavior,
                match_limit,
            } => {
                law_matching_reconciles(
                    Crossing::start(m, num_base_lots),
                    Terms {
                        taker: seat,
                        side,
                        limit: price_in_ticks,
                        behavior: self_trade_behavior,
                        match_limit,
                    },
                );
            },
        }
    }
}

} // verus!
