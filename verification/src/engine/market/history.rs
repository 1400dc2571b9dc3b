//! Histories: what holds of every market reached through its operations.

use vstd::prelude::*;

#[allow(unused_imports)]
use super::conservation::law_conserved_markets_pass;
use super::header::MarketHeader;
#[allow(unused_imports)]
use super::laws::{
    law_a_new_market_is_conserved, law_cancelling_all_conserves, law_claiming_conserves,
    law_collecting_fees_conserves, law_depositing_conserves, law_reducing_conserves,
    law_releasing_conserves, law_withdrawing_conserves,
};
#[allow(unused_imports)]
use super::matching_laws::law_placing_conserves;
use super::model::{cross_run, Crossing, MarketModel, Terms};
#[allow(unused_imports)]
use super::payout_laws::{law_orders_reconcile, law_sweeps_reconcile};
use super::Market;
use crate::engine::error::EngineError;
use crate::engine::fees::FeeSchedule;
use crate::engine::fill::MatchStop;
use crate::engine::packet::OrderPacket;
use crate::engine::trader::{SeatIndex, TraderKey, NO_SEAT};
use crate::order::{FIFOOrderId, Side, MAX_SEQUENCE_NUMBER};
use crate::quantities::{BaseLots, LotConfig, QuoteLots};

verus! {

/// Anything a caller can do to a market.
pub enum Operation {
    /// [`Market::claim_seat`].
    ClaimSeat { key: TraderKey },
    /// [`Market::release_seat`].
    ReleaseSeat { key: TraderKey },
    /// [`Market::deposit`].
    Deposit { seat: SeatIndex, base: BaseLots, quote: QuoteLots },
    /// [`Market::withdraw`].
    Withdraw { seat: SeatIndex, base: BaseLots, quote: QuoteLots },
    /// [`Market::withdraw_all`].
    WithdrawAll { seat: SeatIndex },
    /// [`Market::place_order`].
    PlaceOrder { seat: SeatIndex, packet: OrderPacket },
    /// [`Market::cancel_order`].
    CancelOrder { seat: SeatIndex, id: FIFOOrderId },
    /// [`Market::reduce_order`].
    ReduceOrder { seat: SeatIndex, id: FIFOOrderId, size: BaseLots },
    /// [`Market::cancel_orders_for_seat`].
    CancelOrders { seat: SeatIndex, side: Side, limit: u32 },
    /// [`Market::collect_fees`].
    CollectFees,
}

impl MarketModel {
    /// The market an operation leaves, whether it succeeds or fails.
    pub open spec fn after(self, op: Operation) -> MarketModel {
        match op {
            Operation::ClaimSeat { key } => self.claim_seat(key).0,
            Operation::ReleaseSeat { key } => self.release_seat(key).0,
            Operation::Deposit { seat, base, quote } => self.deposit(seat, base, quote).0,
            Operation::Withdraw { seat, base, quote } => self.withdraw(seat, base, quote).0,
            Operation::WithdrawAll { seat } => self.withdraw_all(seat).0,
            Operation::PlaceOrder { seat, packet } => self.place_order(seat, packet).0,
            Operation::CancelOrder { seat, id } => self.cancel_order(seat, id).0,
            Operation::ReduceOrder { seat, id, size } => self.reduce_order(seat, id, size).0,
            Operation::CancelOrders { seat, side, limit } => self.cancel_orders(
                seat,
                side,
                limit,
                0,
            ).0,
            Operation::CollectFees => self.collect_fees().0,
        }
    }

    /// Whether an index is a claimed seat, or none.
    pub open spec fn may_act(self, seat: SeatIndex) -> bool {
        seat == NO_SEAT || self.seats.is_live(seat)
    }

    /// The operations that the laws speak of: on behalf of a claimed seat, and with a
    /// sequence number left to issue.
    pub open spec fn admits(self, op: Operation) -> bool {
        match op {
            Operation::Deposit { seat, .. } => self.may_act(seat),
            Operation::Withdraw { seat, .. } => self.may_act(seat),
            Operation::WithdrawAll { seat } => self.may_act(seat),
            Operation::PlaceOrder { seat, packet } => {
                &&& self.may_act(seat)
                &&& self.book.next_sequence <= MAX_SEQUENCE_NUMBER
            },
            _ => true,
        }
    }

    /// The base lots an operation brings into the market, less those it takes out.
    pub open spec fn base_flow(self, op: Operation) -> int {
        match op {
            Operation::Deposit { seat, base, quote } => if self.deposit(seat, base, quote).1 is Ok {
                base.0 as int
            } else {
                0
            },
            Operation::Withdraw { seat, base, quote } => if self.withdraw(
                seat,
                base,
                quote,
            ).1 is Ok {
                -(base.0 as int)
            } else {
                0
            },
            Operation::WithdrawAll { seat } => match self.withdraw_all(seat).1 {
                Ok((base, _)) => -(base.0 as int),
                Err(_) => 0,
            },
            _ => 0,
        }
    }

    /// The fees an operation sweeps.
    pub open spec fn swept_by(self, op: Operation) -> int {
        match op {
            Operation::CollectFees => match self.collect_fees().1 {
                Ok(swept) => swept.0 as int,
                Err(_) => 0,
            },
            _ => 0,
        }
    }

    /// The quote lots an operation brings into the market, less those it takes out.
    pub open spec fn quote_flow(self, op: Operation) -> int {
        match op {
            Operation::Deposit { seat, base, quote } => if self.deposit(seat, base, quote).1 is Ok {
                quote.0 as int
            } else {
                0
            },
            Operation::Withdraw { seat, base, quote } => if self.withdraw(
                seat,
                base,
                quote,
            ).1 is Ok {
                -(quote.0 as int)
            } else {
                0
            },
            Operation::WithdrawAll { seat } => match self.withdraw_all(seat).1 {
                Ok((_, quote)) => -(quote.0 as int),
                Err(_) => 0,
            },
            _ => -self.swept_by(op),
        }
    }

    /// The market after a whole history.
    pub open spec fn after_all(self, ops: Seq<Operation>) -> MarketModel
        decreases ops.len(),
    {
        if ops.len() == 0 {
            self
        } else {
            self.after(ops[0]).after_all(ops.drop_first())
        }
    }

    /// Every step of a history is one that the laws speak of.
    pub open spec fn admits_all(self, ops: Seq<Operation>) -> bool
        decreases ops.len(),
    {
        ops.len() == 0 || (self.admits(ops[0]) && self.after(ops[0]).admits_all(ops.drop_first()))
    }

    /// The base lots a history brings in, less those it takes out.
    pub open spec fn base_flow_of(self, ops: Seq<Operation>) -> int
        decreases ops.len(),
    {
        if ops.len() == 0 {
            0
        } else {
            self.base_flow(ops[0]) + self.after(ops[0]).base_flow_of(ops.drop_first())
        }
    }

    /// The quote lots a history brings in, less those it takes out.
    pub open spec fn quote_flow_of(self, ops: Seq<Operation>) -> int
        decreases ops.len(),
    {
        if ops.len() == 0 {
            0
        } else {
            self.quote_flow(ops[0]) + self.after(ops[0]).quote_flow_of(ops.drop_first())
        }
    }

    /// The fees a history sweeps.
    pub open spec fn swept_by_all(self, ops: Seq<Operation>) -> int
        decreases ops.len(),
    {
        if ops.len() == 0 {
            0
        } else {
            self.swept_by(ops[0]) + self.after(ops[0]).swept_by_all(ops.drop_first())
        }
    }
}

// ---------------------------------------------------------------------------------
// One step
// ---------------------------------------------------------------------------------

/// No operation on behalf of a claimed seat creates or destroys value, whether it succeeds or
/// fails.
pub proof fn law_operations_conserve(m: MarketModel, op: Operation)
    requires
        m.is_conserved(),
        m.admits(op),
    ensures
        m.after(op).is_conserved(),
{
    match op {
        Operation::ClaimSeat { key } => {
            law_claiming_conserves(m, key);
        },
        Operation::ReleaseSeat { key } => {
            law_releasing_conserves(m, key);
        },
        Operation::Deposit { seat, base, quote } => {
            if seat != NO_SEAT {
                law_depositing_conserves(m, seat, base, quote);
            }
        },
        Operation::Withdraw { seat, base, quote } => {
            if seat != NO_SEAT {
                law_withdrawing_conserves(m, seat, base, quote);
            }
        },
        Operation::WithdrawAll { seat } => {
            if seat != NO_SEAT {
                law_withdrawing_conserves(m, seat, BaseLots(0), QuoteLots(0));
            }
        },
        Operation::PlaceOrder { seat, packet } => {
            if seat != NO_SEAT {
                law_placing_conserves(m, seat, packet);
            }
        },
        Operation::CancelOrder { seat, id } => {
            law_reducing_conserves(m, seat, id, BaseLots(0));
        },
        Operation::ReduceOrder { seat, id, size } => {
            law_reducing_conserves(m, seat, id, size);
        },
        Operation::CancelOrders { seat, side, limit } => {
            law_cancelling_all_conserves(m, seat, side, limit, 0);
        },
        Operation::CollectFees => {
            law_collecting_fees_conserves(m);
        },
    }
}

/// Cancelling orders moves nothing in or out.
pub(crate) proof fn lemma_cancels_keep_header(
    m: MarketModel,
    seat: SeatIndex,
    side: Side,
    limit: u32,
    done: u32,
)
    ensures
        m.cancel_orders(seat, side, limit, done).0.header == m.header,
    decreases limit - done,
{
    if done < limit {
        if let Some(id) = m.best_of_seat(seat, side) {
            let (after, result) = m.cancel_order(seat, id);
            if result is Ok {
                lemma_cancels_keep_header(after, seat, side, limit, (done + 1) as u32);
            }
        }
    }
}

/// Matching moves value between seats, and nothing in or out.
proof fn lemma_matching_keeps_totals(state: Crossing, terms: Terms)
    ensures
        ({
            let end = cross_run(state, terms).0.market.header;
            &&& end.base_lots_deposited == state.market.header.base_lots_deposited
            &&& end.quote_lots_deposited == state.market.header.quote_lots_deposited
        }),
    decreases terms.match_limit - state.touched,
{
    let (after, result) = state.turn(terms);
    if result == Ok::<Option<MatchStop>, EngineError>(None) {
        lemma_matching_keeps_totals(after, terms);
    }
}

/// No order moves anything in or out of the market, whether it succeeds or fails.
pub proof fn law_orders_keep_the_totals(m: MarketModel, seat: SeatIndex, packet: OrderPacket)
    ensures
        ({
            let after = m.place_order(seat, packet).0.header;
            &&& after.base_lots_deposited == m.header.base_lots_deposited
            &&& after.quote_lots_deposited == m.header.quote_lots_deposited
        }),
{
    match packet {
        OrderPacket::PostOnly { .. } => {},
        OrderPacket::Limit {
            side,
            price_in_ticks,
            num_base_lots,
            self_trade_behavior,
            match_limit,
        } => {
            let terms = Terms {
                taker: seat,
                side,
                limit: Some(price_in_ticks),
                behavior: self_trade_behavior,
                match_limit,
            };
            lemma_matching_keeps_totals(Crossing::start(m, num_base_lots), terms);
        },
        OrderPacket::ImmediateOrCancel {
            side,
            price_in_ticks,
            num_base_lots,
            min_base_lots_to_fill,
            self_trade_behavior,
            match_limit,
        } => {
            let terms = Terms {
                taker: seat,
                side,
                limit: price_in_ticks,
                behavior: self_trade_behavior,
                match_limit,
            };
            lemma_matching_keeps_totals(Crossing::start(m, num_base_lots), terms);
        },
    }
}

/// A sweep pays out exactly the unclaimed fees and touches neither seats nor book. One
/// right after it pays nothing.
pub proof fn law_sweeping_twice_pays_once(m: MarketModel)
    requires
        m.is_conserved(),
    ensures
        ({
            let (after, paid) = m.collect_fees();
            &&& paid == Ok::<QuoteLots, EngineError>(m.header.unclaimed_quote_lot_fees)
            &&& after.header.unclaimed_quote_lot_fees.0 == 0
            &&& after.header.quote_lots_deposited.0 == m.header.quote_lots_deposited.0
                - m.header.unclaimed_quote_lot_fees.0
            &&& after.header.base_lots_deposited == m.header.base_lots_deposited
            &&& after.header.collected_quote_lot_fees == m.header.collected_quote_lot_fees
            &&& after.seats == m.seats
            &&& after.book == m.book
            &&& after.collect_fees() == (after, Ok::<QuoteLots, EngineError>(QuoteLots(0)))
        }),
{
    law_sweeps_reconcile(m);
    super::payout_laws::law_unclaimed_fees_are_held(m);
}

/// What the market records of one operation: the totals it holds, and the fees swept.
spec fn records(m: MarketModel, op: Operation) -> bool {
    &&& m.after(op).header.base_lots_deposited.0 == m.header.base_lots_deposited.0 + m.base_flow(op)
    &&& m.after(op).header.quote_lots_deposited.0 == m.header.quote_lots_deposited.0
        + m.quote_flow(op)
    &&& m.after(op).swept_fees() == m.swept_fees() + m.swept_by(op)
}

/// A deposit raises the totals by what was deposited.
proof fn lemma_deposits_are_recorded(
    m: MarketModel,
    seat: SeatIndex,
    base: BaseLots,
    quote: QuoteLots,
)
    ensures
        records(m, Operation::Deposit { seat, base, quote }),
{
}

/// A withdrawal lowers the totals by what was withdrawn.
proof fn lemma_withdrawals_are_recorded(
    m: MarketModel,
    seat: SeatIndex,
    base: BaseLots,
    quote: QuoteLots,
)
    ensures
        records(m, Operation::Withdraw { seat, base, quote }),
        records(m, Operation::WithdrawAll { seat }),
{
}

/// Taking an order off the book leaves the totals alone.
proof fn lemma_reductions_are_recorded(
    m: MarketModel,
    seat: SeatIndex,
    id: FIFOOrderId,
    size: BaseLots,
)
    ensures
        records(m, Operation::ReduceOrder { seat, id, size }),
        records(m, Operation::CancelOrder { seat, id }),
{
    assert(m.reduce_order(seat, id, size).0.header == m.header);
    assert(m.cancel_order(seat, id).0.header == m.header);
}

/// An operation changes the totals the market records by exactly what it brings in or takes
/// out, and what has been swept by exactly what it sweeps.
pub proof fn law_operations_are_recorded(m: MarketModel, op: Operation)
    requires
        m.is_conserved(),
        m.admits(op),
    ensures
        m.after(op).header.base_lots_deposited.0 == m.header.base_lots_deposited.0 + m.base_flow(
            op,
        ),
        m.after(op).header.quote_lots_deposited.0 == m.header.quote_lots_deposited.0
            + m.quote_flow(op),
        m.after(op).swept_fees() == m.swept_fees() + m.swept_by(op),
{
    match op {
        Operation::PlaceOrder { seat, packet } => {
            law_orders_keep_the_totals(m, seat, packet);
            law_orders_reconcile(m, seat, packet);
        },
        Operation::CancelOrders { seat, side, limit } => {
            lemma_cancels_keep_header(m, seat, side, limit, 0);
        },
        Operation::CollectFees => {
            law_sweeping_twice_pays_once(m);
        },
        Operation::Deposit { seat, base, quote } => {
            lemma_deposits_are_recorded(m, seat, base, quote);
        },
        Operation::Withdraw { seat, base, quote } => {
            lemma_withdrawals_are_recorded(m, seat, base, quote);
        },
        Operation::WithdrawAll { seat } => {
            lemma_withdrawals_are_recorded(m, seat, BaseLots(0), QuoteLots(0));
        },
        Operation::CancelOrder { seat, id } => {
            lemma_reductions_are_recorded(m, seat, id, BaseLots(0));
        },
        Operation::ReduceOrder { seat, id, size } => {
            lemma_reductions_are_recorded(m, seat, id, size);
        },
        Operation::ClaimSeat { key } => {
            assert(m.claim_seat(key).0.header == m.header);
        },
        Operation::ReleaseSeat { key } => {
            assert(m.release_seat(key).0.header == m.header);
        },
    }
}

// ---------------------------------------------------------------------------------
// Any number of steps
// ---------------------------------------------------------------------------------

/// No sequence of operations on behalf of claimed seats creates, destroys or strands value.
/// What the market records as deposited is what was brought in less what was taken out, seen
/// from outside, and what has been swept is the sum of the sweeps.
pub proof fn law_histories_conserve(m: MarketModel, ops: Seq<Operation>)
    requires
        m.is_conserved(),
        m.admits_all(ops),
    ensures
        m.after_all(ops).is_conserved(),
        m.after_all(ops).header.base_lots_deposited.0 == m.header.base_lots_deposited.0
            + m.base_flow_of(ops),
        m.after_all(ops).header.quote_lots_deposited.0 == m.header.quote_lots_deposited.0
            + m.quote_flow_of(ops),
        m.after_all(ops).swept_fees() == m.swept_fees() + m.swept_by_all(ops),
    decreases ops.len(),
{
    if ops.len() > 0 {
        law_operations_conserve(m, ops[0]);
        law_operations_are_recorded(m, ops[0]);
        law_histories_conserve(m.after(ops[0]), ops.drop_first());
    }
}

/// Every market reached from a new one passes [`Market::check_conservation`], holds exactly
/// what was brought in less what was taken out, and has lifetime fees of what was swept plus
/// what is unclaimed.
pub proof fn law_reached_markets_are_sound<
    const BIDS: usize,
    const ASKS: usize,
    const SEATS: usize,
>(
    market: Market<BIDS, ASKS, SEATS>,
    lot_config: LotConfig,
    fees: FeeSchedule,
    ops: Seq<Operation>,
)
    requires
        market.wf(),
        MarketHeader::fresh(lot_config, fees).flaw() is None,
        Market::<BIDS, ASKS, SEATS>::blank_model(lot_config, fees).admits_all(ops),
        market.model() == Market::<BIDS, ASKS, SEATS>::blank_model(lot_config, fees).after_all(ops),
    ensures
        market.first_fault() is Ok,
        market.model().is_conserved(),
        market.model().header.base_lots_deposited.0 == Market::<BIDS, ASKS, SEATS>::blank_model(
            lot_config,
            fees,
        ).base_flow_of(ops),
        market.model().header.quote_lots_deposited.0 == Market::<BIDS, ASKS, SEATS>::blank_model(
            lot_config,
            fees,
        ).quote_flow_of(ops),
        market.model().header.collected_quote_lot_fees.0 == Market::<
            BIDS,
            ASKS,
            SEATS,
        >::blank_model(lot_config, fees).swept_by_all(ops)
            + market.model().header.unclaimed_quote_lot_fees.0,
{
    let start = Market::<BIDS, ASKS, SEATS>::blank_model(lot_config, fees);
    market.order_book().bid_tree().lemma_wf();
    market.order_book().ask_tree().lemma_wf();
    market.seat_table().lemma_wf();
    law_a_new_market_is_conserved(lot_config, fees, BIDS as nat, ASKS as nat, SEATS as nat);
    law_histories_conserve(start, ops);
    law_conserved_markets_pass(market);
}

/// An order placed on behalf of a claimed seat on a market reached from a new one, whether it
/// succeeds or fails, leaves a market that passes the check again and holds as much.
pub proof fn law_orders_keep_reached_markets_sound<
    const BIDS: usize,
    const ASKS: usize,
    const SEATS: usize,
>(
    before: Market<BIDS, ASKS, SEATS>,
    after: Market<BIDS, ASKS, SEATS>,
    lot_config: LotConfig,
    fees: FeeSchedule,
    ops: Seq<Operation>,
    seat: SeatIndex,
    packet: OrderPacket,
)
    requires
        before.wf(),
        after.wf(),
        MarketHeader::fresh(lot_config, fees).flaw() is None,
        Market::<BIDS, ASKS, SEATS>::blank_model(lot_config, fees).admits_all(ops),
        before.model() == Market::<BIDS, ASKS, SEATS>::blank_model(lot_config, fees).after_all(ops),
        before.model().admits(Operation::PlaceOrder { seat, packet }),
        after.model() == before.model().place_order(seat, packet).0,
    ensures
        after.first_fault() is Ok,
        after.model().header.base_lots_deposited == before.model().header.base_lots_deposited,
        after.model().header.quote_lots_deposited == before.model().header.quote_lots_deposited,
{
    law_reached_markets_are_sound(before, lot_config, fees, ops);
    law_operations_conserve(before.model(), Operation::PlaceOrder { seat, packet });
    law_orders_keep_the_totals(before.model(), seat, packet);
    law_conserved_markets_pass(after);
}

} // verus!
