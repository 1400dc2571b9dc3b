//! What the market is built to preserve: it holds exactly what it thinks it holds.

use vstd::prelude::*;

use super::model::MarketModel;
#[allow(unused_imports)]
use super::sums::{
    lemma_weigh_agree, lemma_weigh_insert, lemma_weigh_natural,
    lemma_weigh_nothing, weigh,
};
use super::Market;
use crate::book::BookEntry;
use crate::engine::trader::{SeatIndex, TraderKey, TraderState};
use crate::order::RestingOrder;
#[allow(unused_imports)]
use crate::quantities::lots::lemma_value_is_natural;
use crate::quantities::{BaseLots, LotConfig, QuoteLots};
use crate::tree::{Entry, Invariant};

verus! {

/// A claimed seat.
pub type SeatEntry = Entry<TraderKey, TraderState>;

/// What a seat owns in base lots.
pub open spec fn base_of() -> spec_fn(SeatEntry) -> int {
    |e: SeatEntry| e.value.base()
}

/// What a seat owns in quote lots.
pub open spec fn quote_of() -> spec_fn(SeatEntry) -> int {
    |e: SeatEntry| e.value.quote()
}

/// What a seat has locked in base lots.
pub open spec fn base_locked_of() -> spec_fn(SeatEntry) -> int {
    |e: SeatEntry| e.value.base_lots_locked.0 as int
}

/// What a seat has locked in quote lots.
pub open spec fn quote_locked_of() -> spec_fn(SeatEntry) -> int {
    |e: SeatEntry| e.value.quote_lots_locked.0 as int
}

/// The base lots behind an ask.
pub open spec fn backing_of_ask() -> spec_fn(BookEntry) -> int {
    |e: BookEntry| e.value.num_base_lots.0 as int
}

/// The quote lots behind a bid.
pub open spec fn backing_of_bid(config: LotConfig) -> spec_fn(BookEntry) -> int {
    |e: BookEntry| config.value(e.key.price_in_ticks, e.value.num_base_lots)
}

/// The base lots behind an ask, if it belongs to `seat`.
pub open spec fn backing_by_asker(seat: SeatIndex) -> spec_fn(BookEntry) -> int {
    |e: BookEntry|
        if e.value.trader_index == seat {
            e.value.num_base_lots.0 as int
        } else {
            0
        }
}

/// The quote lots behind a bid, if it belongs to `seat`.
pub open spec fn backing_by_bidder(config: LotConfig, seat: SeatIndex) -> spec_fn(BookEntry) -> int {
    |e: BookEntry|
        if e.value.trader_index == seat {
            config.value(e.key.price_in_ticks, e.value.num_base_lots)
        } else {
            0
        }
}

impl MarketModel {
    /// Base lots owned by all seats.
    pub open spec fn base_owned(self) -> int {
        weigh(self.seats.entries(), base_of())
    }

    /// Quote lots owned by all seats.
    pub open spec fn quote_owned(self) -> int {
        weigh(self.seats.entries(), quote_of())
    }

    /// Base lots behind the asks of a seat.
    pub open spec fn base_backing(self, seat: SeatIndex) -> int {
        weigh(self.book.asks.entries(), backing_by_asker(seat))
    }

    /// Quote lots behind the bids of a seat.
    pub open spec fn quote_backing(self, seat: SeatIndex) -> int {
        weigh(
            self.book.bids.entries(),
            backing_by_bidder(self.header.lot_config, seat),
        )
    }

    /// What is locked at a seat is exactly what backs its resting orders.
    pub open spec fn is_backed(self, seat: SeatIndex) -> bool {
        &&& self.seat(seat).base_lots_locked.0 == self.base_backing(seat)
        &&& self.seat(seat).quote_lots_locked.0 == self.quote_backing(seat)
    }

    /// Every seat's locked funds are exactly what backs its resting orders.
    pub open spec fn seats_are_backed(self) -> bool {
        forall|i: int|
            0 <= i < self.seats.order.len() ==> self.is_backed(#[trigger] self.seats.order[i])
    }

    /// Every resting order has a size and a live owner.
    pub open spec fn orders_are_owned(self) -> bool {
        &&& forall|i: int|
            0 <= i < self.book.asks.order.len() ==> {
                &&& self.seats.is_live((#[trigger] self.book.asks.value_at(i)).trader_index as SeatIndex)
                &&& self.book.asks.value_at(i).num_base_lots.0 > 0
            }
        &&& forall|i: int|
            0 <= i < self.book.bids.order.len() ==> {
                &&& self.seats.is_live((#[trigger] self.book.bids.value_at(i)).trader_index as SeatIndex)
                &&& self.book.bids.value_at(i).num_base_lots.0 > 0
            }
    }

    /// The market holds exactly what it thinks it holds: balances sum to the deposited
    /// totals, each seat's locked funds are exactly what backs its resting orders, and
    /// every order has a live owner.
    pub open spec fn is_conserved(self) -> bool {
        &&& self.wf()
        &&& self.base_owned() == self.header.base_lots_deposited.0
        &&& self.quote_owned() + self.header.unclaimed_quote_lot_fees.0
            == self.header.quote_lots_deposited.0
        &&& self.seats_are_backed()
        &&& self.orders_are_owned()
    }
}

/// A market-level invariant that [`Market::check_conservation`] found violated.
#[derive(Copy, Clone, Debug, PartialEq, Eq)]
pub enum ConservationError {
    /// Seat base balances do not sum to `base_lots_deposited`.
    BaseNotConserved,
    /// Seat quote balances plus unclaimed fees do not sum to `quote_lots_deposited`.
    QuoteNotConserved,
    /// Resting order sizes do not match the base lots locked across all seats.
    LockedBaseMismatch,
    /// Resting bid values do not match the quote lots locked across all seats.
    LockedQuoteMismatch,
    /// A resting order points at a seat that does not exist.
    OrphanedOrder,
    /// The book's own structure is corrupt.
    Book(Invariant),
}

/// A total that may exceed what can be represented, clamped.
pub open spec fn capped(total: int) -> int {
    if total <= u64::MAX {
        total
    } else {
        u64::MAX as int
    }
}

impl MarketModel {
    /// Whether an order's owner is a claimed seat.
    pub open spec fn owner_is_seated(self, order: RestingOrder) -> bool {
        &&& 1 <= order.trader_index <= self.seats.capacity()
        &&& self.seats.is_live(order.trader_index as SeatIndex)
    }

    /// Whether every one of these orders belongs to a claimed seat.
    pub open spec fn owners_are_seated(self, orders: Seq<BookEntry>) -> bool {
        forall|i: int| 0 <= i < orders.len() ==> self.owner_is_seated((#[trigger] orders[i]).value)
    }

    /// The first bid without a claimed owner, or with a value that exceeds `u64`.
    pub open spec fn bid_fault(self, bids: Seq<BookEntry>) -> Option<ConservationError>
        decreases bids.len(),
    {
        if bids.len() == 0 {
            None
        } else if !self.owner_is_seated(bids[0].value) {
            Some(ConservationError::OrphanedOrder)
        } else if self.value(bids[0].key.price_in_ticks, bids[0].value.num_base_lots) > u64::MAX {
            Some(ConservationError::LockedQuoteMismatch)
        } else {
            self.bid_fault(bids.drop_first())
        }
    }

    /// The first way in which this market does not hold what it thinks it holds.
    pub open spec fn conservation_fault(self) -> Option<ConservationError> {
        let seats = self.seats.entries();
        let asks = self.book.asks.entries();
        let bids = self.book.bids.entries();
        if capped(weigh(seats, base_of())) != self.header.base_lots_deposited.0 {
            Some(ConservationError::BaseNotConserved)
        } else if capped(weigh(seats, quote_of()) + self.header.unclaimed_quote_lot_fees.0)
            != self.header.quote_lots_deposited.0 {
            Some(ConservationError::QuoteNotConserved)
        } else if !self.owners_are_seated(asks) {
            Some(ConservationError::OrphanedOrder)
        } else if self.bid_fault(bids) is Some {
            self.bid_fault(bids)
        } else if capped(weigh(asks, backing_of_ask())) != capped(weigh(seats, base_locked_of())) {
            Some(ConservationError::LockedBaseMismatch)
        } else if capped(weigh(bids, backing_of_bid(self.header.lot_config))) != capped(
            weigh(seats, quote_locked_of()),
        ) {
            Some(ConservationError::LockedQuoteMismatch)
        } else {
            None
        }
    }
}

impl<const BIDS: usize, const ASKS: usize, const SEATS: usize> Market<BIDS, ASKS, SEATS> {
    /// The first fault of the book, and else of the balances.
    pub open spec fn first_fault(self) -> Result<(), ConservationError> {
        match self.order_book().first_violation() {
            Err(violation) => Err(ConservationError::Book(violation)),
            Ok(_) => match self.model().conservation_fault() {
                Some(fault) => Err(fault),
                None => Ok(()),
            },
        }
    }

    /// Verifies that the market holds exactly what it thinks it holds.
    ///
    /// This is the invariant the whole engine exists to preserve, stated four ways:
    /// balances sum to the deposited totals, locked funds correspond exactly to resting
    /// orders, and every order has a live owner. If any of these can be broken by a
    /// sequence of operations, the market can be drained.
    ///
    /// O(seats + orders), each with a lookup, so it belongs in tests and fuzz harnesses
    /// rather than on the hot path.
    ///
    /// # Errors
    ///
    /// The first [`ConservationError`] found.
    pub fn check_conservation(&self) -> (result: Result<(), ConservationError>)
        requires
            BIDS <= u32::MAX,
            ASKS <= u32::MAX,
            self.seat_table().wf(),
            self.model().header.lot_config.base_lots_per_base_unit > 0,
        ensures
            result == self.first_fault(),
    {
        match self.book.check() {
            Ok(()) => {},
            Err(violation) => {
                return Err(ConservationError::Book(violation));
            },
        }
        proof {
            lemma_totals_natural(self.model());
        }
        let (base_total, quote_total, base_locked, quote_locked) = self.seat_totals();
        if base_total.0 != self.header.base_lots_deposited.0 {
            return Err(ConservationError::BaseNotConserved);
        }
        let quote_accounted = quote_total.saturating_add(self.header.unclaimed_quote_lot_fees);
        if quote_accounted.0 != self.header.quote_lots_deposited.0 {
            return Err(ConservationError::QuoteNotConserved);
        }
        // Every locked lot must be backed by a resting order, and vice versa.
        let resting_base = match self.resting_base() {
            Some(total) => total,
            None => {
                return Err(ConservationError::OrphanedOrder);
            },
        };
        let resting_quote = match self.resting_quote() {
            Ok(total) => total,
            Err(fault) => {
                return Err(fault);
            },
        };
        if resting_base.0 != base_locked.0 {
            return Err(ConservationError::LockedBaseMismatch);
        }
        if resting_quote.0 != quote_locked.0 {
            return Err(ConservationError::LockedQuoteMismatch);
        }
        Ok(())
    }

    /// Owned and locked totals over all claimed seats, clamped: base, quote, locked base,
    /// locked quote.
    fn seat_totals(&self) -> (totals: (BaseLots, QuoteLots, BaseLots, QuoteLots))
        requires
            self.seat_table().wf(),
        ensures
            totals.0.0 == capped(weigh(self.model().seats.entries(), base_of())),
            totals.1.0 == capped(weigh(self.model().seats.entries(), quote_of())),
            totals.2.0 == capped(weigh(self.model().seats.entries(), base_locked_of())),
            totals.3.0 == capped(weigh(self.model().seats.entries(), quote_locked_of())),
    {
        let ghost all = self.model().seats.entries();
        let mut base_total = BaseLots(0);
        let mut quote_total = QuoteLots(0);
        let mut base_locked = BaseLots(0);
        let mut quote_locked = QuoteLots(0);
        let ghost mut b: int = 0;
        let ghost mut q: int = 0;
        let ghost mut bl: int = 0;
        let ghost mut ql: int = 0;
        let mut seats = self.traders.iter_indexed();
        loop
            invariant
                all == self.model().seats.entries(),
                seats.wf(),
                b >= 0,
                q >= 0,
                bl >= 0,
                ql >= 0,
                base_total.0 == capped(b),
                quote_total.0 == capped(q),
                base_locked.0 == capped(bl),
                quote_locked.0 == capped(ql),
                b + weigh(seats.rest(), base_of()) == weigh(all, base_of()),
                q + weigh(seats.rest(), quote_of()) == weigh(all, quote_of()),
                bl + weigh(seats.rest(), base_locked_of()) == weigh(all, base_locked_of()),
                ql + weigh(seats.rest(), quote_locked_of()) == weigh(all, quote_locked_of()),
            decreases seats.rest().len(),
        {
            match seats.next() {
                None => {
                    return (base_total, quote_total, base_locked, quote_locked);
                },
                Some(entry) => {
                    let state = entry.value;
                    base_total = base_total.saturating_add(state.total_base_lots());
                    quote_total = quote_total.saturating_add(state.total_quote_lots());
                    base_locked = base_locked.saturating_add(state.base_lots_locked);
                    quote_locked = quote_locked.saturating_add(state.quote_lots_locked);
                    proof {
                        b = b + state.base();
                        q = q + state.quote();
                        bl = bl + state.base_lots_locked.0;
                        ql = ql + state.quote_lots_locked.0;
                    }
                },
            }
        }
    }

    /// The size of all resting asks, clamped; `None` if one has no claimed owner.
    fn resting_base(&self) -> (total: Option<BaseLots>)
        requires
            self.order_book().first_violation() is Ok,
            self.seat_table().wf(),
        ensures
            match total {
                Some(lots) => {
                    &&& self.model().owners_are_seated(self.model().book.asks.entries())
                    &&& lots.0 == capped(
                        weigh(self.model().book.asks.entries(), backing_of_ask()),
                    )
                },
                None => !self.model().owners_are_seated(self.model().book.asks.entries()),
            },
    {
        let ghost m = self.model();
        let ghost all = m.book.asks.entries();
        proof {
            self.traders.lemma_wf();
        }
        let mut total = BaseLots(0);
        let ghost mut sum: int = 0;
        let ghost mut seen: int = 0;
        let mut asks = self.book.asks().iter();
        loop
            invariant
                m == self.model(),
                all == m.book.asks.entries(),
                self.seat_table().wf(),
                m.seats.capacity() == SEATS,
                asks.wf(),
                0 <= seen <= all.len(),
                asks.rest() == all.skip(seen),
                sum >= 0,
                total.0 == capped(sum),
                sum + weigh(asks.rest(), backing_of_ask()) == weigh(all, backing_of_ask()),
                forall|i: int|
                    0 <= i < seen ==> m.owner_is_seated((#[trigger] all[i]).value),
            decreases all.len() - seen,
        {
            match asks.next() {
                None => {
                    return Some(total);
                },
                Some(entry) => {
                    assert(entry == all[seen]);
                    if !self.traders.is_claimed(entry.value.trader_index) {
                        return None;
                    }
                    total = total.saturating_add(entry.value.num_base_lots);
                    proof {
                        sum = sum + entry.value.num_base_lots.0;
                        assert(all.skip(seen).drop_first() =~= all.skip(seen + 1));
                        seen = seen + 1;
                    }
                },
            }
        }
    }

    /// The value of all resting bids, clamped, or the first fault among them.
    fn resting_quote(&self) -> (total: Result<QuoteLots, ConservationError>)
        requires
            self.order_book().first_violation() is Ok,
            self.seat_table().wf(),
            self.model().header.lot_config.base_lots_per_base_unit > 0,
        ensures
            match total {
                Ok(lots) => {
                    &&& self.model().bid_fault(self.model().book.bids.entries()) is None
                    &&& lots.0 == capped(
                        weigh(
                            self.model().book.bids.entries(),
                            backing_of_bid(self.model().header.lot_config),
                        ),
                    )
                },
                Err(fault) => self.model().bid_fault(self.model().book.bids.entries()) == Some(
                    fault,
                ),
            },
    {
        let ghost m = self.model();
        let ghost all = m.book.bids.entries();
        let ghost w = backing_of_bid(m.header.lot_config);
        proof {
            self.traders.lemma_wf();
        }
        let mut total = QuoteLots(0);
        let ghost mut sum: int = 0;
        let mut bids = self.book.bids().iter();
        loop
            invariant
                m == self.model(),
                all == m.book.bids.entries(),
                w == backing_of_bid(m.header.lot_config),
                self.seat_table().wf(),
                m.seats.capacity() == SEATS,
                self.model().header.lot_config.base_lots_per_base_unit > 0,
                bids.wf(),
                sum >= 0,
                total.0 == capped(sum),
                sum + weigh(bids.rest(), w) == weigh(all, w),
                m.bid_fault(bids.rest()) == m.bid_fault(all),
            decreases bids.rest().len(),
        {
            match bids.next() {
                None => {
                    return Ok(total);
                },
                Some(entry) => {
                    if !self.traders.is_claimed(entry.value.trader_index) {
                        return Err(ConservationError::OrphanedOrder);
                    }
                    let value = match self.quote_value(
                        entry.key.price_in_ticks,
                        entry.value.num_base_lots,
                    ) {
                        Ok(value) => value,
                        Err(_) => {
                            return Err(ConservationError::LockedQuoteMismatch);
                        },
                    };
                    proof {
                        lemma_value_is_natural(
                            m.header.lot_config,
                            entry.key.price_in_ticks,
                            entry.value.num_base_lots,
                        );
                        sum = sum + m.value(entry.key.price_in_ticks, entry.value.num_base_lots);
                    }
                    total = total.saturating_add(value);
                },
            }
        }
    }
}

/// Owned totals are never negative.
pub(crate) proof fn lemma_totals_natural(m: MarketModel)
    ensures
        weigh(m.seats.entries(), base_of()) >= 0,
        weigh(m.seats.entries(), quote_of()) >= 0,
{
    let seats = m.seats.entries();
    assert forall|i: int| 0 <= i < seats.len() implies (base_of())(#[trigger] seats[i]) >= 0 by {}
    assert forall|i: int| 0 <= i < seats.len() implies (quote_of())(#[trigger] seats[i])
        >= 0 by {}
    lemma_weigh_natural(seats, base_of());
    lemma_weigh_natural(seats, quote_of());
}

// ---------------------------------------------------------------------------------
// A conserved market passes the check
// ---------------------------------------------------------------------------------

/// A weight that falls on the seat with one index only.
spec fn only_at(owner: int, amount: int) -> spec_fn(SeatEntry) -> int {
    |e: SeatEntry|
        if e.handle == owner {
            amount
        } else {
            0
        }
}

/// Among seats, an amount that falls on one live seat is counted once.
proof fn lemma_counted_once(seats: Seq<SeatEntry>, i: int, amount: int)
    requires
        0 <= i < seats.len(),
        forall|a: int, b: int|
            0 <= a < seats.len() && 0 <= b < seats.len() && a != b ==> (
            #[trigger] seats[a]).handle != (#[trigger] seats[b]).handle,
    ensures
        weigh(seats, only_at(seats[i].handle as int, amount)) == amount,
{
    let w = only_at(seats[i].handle as int, amount);
    let rest = seats.remove(i);
    assert forall|j: int| 0 <= j < rest.len() implies w(#[trigger] rest[j]) == 0 by {
        assert(rest[j] == seats[if j < i {
            j
        } else {
            j + 1
        }]);
    }
    lemma_weigh_nothing(rest, w);
    lemma_weigh_insert(rest, i, seats[i], w);
    assert(rest.insert(i, seats[i]) =~= seats);
}

/// What a seat's share of some orders is, by seat.
spec fn share_of(orders: Seq<BookEntry>, amount: spec_fn(BookEntry) -> int) -> spec_fn(
    SeatEntry,
) -> int {
    |e: SeatEntry| weigh(orders, owned_by(e.handle, amount))
}

/// An order's weight, if it belongs to `seat`.
spec fn owned_by(seat: SeatIndex, amount: spec_fn(BookEntry) -> int) -> spec_fn(BookEntry) -> int {
    |e: BookEntry|
        if e.value.trader_index == seat {
            amount(e)
        } else {
            0
        }
}

/// Adding up two weights adds up the sums.
proof fn lemma_weigh_sum(
    seats: Seq<SeatEntry>,
    a: spec_fn(SeatEntry) -> int,
    b: spec_fn(SeatEntry) -> int,
    both: spec_fn(SeatEntry) -> int,
)
    requires
        forall|i: int|
            0 <= i < seats.len() ==> both(#[trigger] seats[i]) == a(seats[i]) + b(seats[i]),
    ensures
        weigh(seats, both) == weigh(seats, a) + weigh(seats, b),
    decreases seats.len(),
{
    if seats.len() > 0 {
        let rest = seats.drop_first();
        assert forall|i: int| 0 <= i < rest.len() implies both(#[trigger] rest[i]) == a(rest[i])
            + b(rest[i]) by {
            assert(rest[i] == seats[i + 1]);
        }
        lemma_weigh_sum(rest, a, b, both);
    }
}

/// The seats' shares of some orders add up to all of them, if every order has one of the
/// seats for its owner.
proof fn lemma_shares_add_up(
    seats: Seq<SeatEntry>,
    orders: Seq<BookEntry>,
    amount: spec_fn(BookEntry) -> int,
)
    requires
        forall|a: int, b: int|
            0 <= a < seats.len() && 0 <= b < seats.len() && a != b ==> (
            #[trigger] seats[a]).handle != (#[trigger] seats[b]).handle,
        forall|i: int|
            0 <= i < orders.len() ==> exists|j: int|
                0 <= j < seats.len() && (#[trigger] orders[i]).value.trader_index == (
                #[trigger] seats[j]).handle,
    ensures
        weigh(seats, share_of(orders, amount)) == weigh(orders, amount),
    decreases orders.len(),
{
    if orders.len() == 0 {
        assert forall|i: int| 0 <= i < seats.len() implies (share_of(orders, amount))(
            #[trigger] seats[i],
        ) == 0 by {}
        lemma_weigh_nothing(seats, share_of(orders, amount));
    } else {
        let head = orders[0];
        let rest = orders.drop_first();
        assert forall|i: int| 0 <= i < rest.len() implies exists|j: int|
            0 <= j < seats.len() && (#[trigger] rest[i]).value.trader_index == (
            #[trigger] seats[j]).handle by {
            assert(rest[i] == orders[i + 1]);
            let j = choose|j: int|
                0 <= j < seats.len() && orders[i + 1].value.trader_index == (
                #[trigger] seats[j]).handle;
            assert(rest[i].value.trader_index == seats[j].handle);
        }
        lemma_shares_add_up(seats, rest, amount);
        let j = choose|j: int|
            0 <= j < seats.len() && orders[0].value.trader_index == (#[trigger] seats[j]).handle;
        let owner = seats[j].handle as int;
        lemma_counted_once(seats, j, amount(head));
        let one = only_at(owner, amount(head));
        assert forall|i: int| 0 <= i < seats.len() implies (share_of(orders, amount))(
            #[trigger] seats[i],
        ) == one(seats[i]) + (share_of(rest, amount))(seats[i]) by {
            let w = owned_by(seats[i].handle, amount);
            assert(weigh(orders, w) == w(orders[0]) + weigh(rest, w));
        }
        lemma_weigh_sum(seats, one, share_of(rest, amount), share_of(orders, amount));
    }
}

/// A conserved market passes the check of its balances.
pub proof fn law_conserved_means_no_fault(m: MarketModel)
    requires
        m.is_conserved(),
    ensures
        m.conservation_fault() is None,
{
    let seats = m.seats.entries();
    let asks = m.book.asks.entries();
    let bids = m.book.bids.entries();
    let config = m.header.lot_config;
    lemma_totals_natural(m);
    assert forall|a: int, b: int|
        0 <= a < seats.len() && 0 <= b < seats.len() && a != b implies (
    #[trigger] seats[a]).handle != (#[trigger] seats[b]).handle by {
        assert(seats[a] == m.seats.entry_at(a) && seats[b] == m.seats.entry_at(b));
        assert(m.seats.order[a] != m.seats.order[b]);
    }
    assert forall|i: int| 0 <= i < asks.len() implies {
        &&& m.owner_is_seated((#[trigger] asks[i]).value)
        &&& exists|j: int|
            0 <= j < seats.len() && asks[i].value.trader_index == (#[trigger] seats[j]).handle
    } by {
        assert(asks[i] == m.book.asks.entry_at(i));
        let owner = m.book.asks.value_at(i).trader_index;
        assert(m.seats.is_live(owner as SeatIndex));
        assert(1 <= owner <= m.seats.capacity());
        let j = choose|j: int|
            0 <= j < m.seats.order.len() && m.seats.order[j] == owner as SeatIndex;
        assert(seats[j] == m.seats.entry_at(j));
    }
    assert forall|i: int| 0 <= i < bids.len() implies {
        &&& m.owner_is_seated((#[trigger] bids[i]).value)
        &&& exists|j: int|
            0 <= j < seats.len() && bids[i].value.trader_index == (#[trigger] seats[j]).handle
        &&& m.value(bids[i].key.price_in_ticks, bids[i].value.num_base_lots) <= u64::MAX
    } by {
        assert(bids[i] == m.book.bids.entry_at(i));
        let owner = m.book.bids.value_at(i).trader_index;
        assert(m.seats.is_live(owner as SeatIndex));
        assert(1 <= owner <= m.seats.capacity());
        let j = choose|j: int|
            0 <= j < m.seats.order.len() && m.seats.order[j] == owner as SeatIndex;
        assert(seats[j] == m.seats.entry_at(j));
        let id = m.book.bids.key_at(i);
        assert(id.tagged_side() == crate::order::Side::Bid);
        m.book.bids.lemma_position_present(id, i);
        super::backing::lemma_order_backed(m, id);
        super::laws::lemma_backed(m, owner as SeatIndex);
    }
    lemma_no_bid_fault(m, bids);
    lemma_shares_add_up(seats, asks, backing_of_ask());
    lemma_shares_add_up(seats, bids, backing_of_bid(config));
    assert forall|i: int| 0 <= i < seats.len() implies {
        &&& (base_locked_of())(#[trigger] seats[i]) == (share_of(asks, backing_of_ask()))(seats[i])
        &&& (quote_locked_of())(seats[i]) == (share_of(bids, backing_of_bid(config)))(seats[i])
    } by {
        assert(seats[i] == m.seats.entry_at(i));
        let h = m.seats.order[i];
        assert(m.is_backed(m.seats.order[i]));
        lemma_weigh_agree(asks, backing_by_asker(h), owned_by(h, backing_of_ask()));
        lemma_weigh_agree(
            bids,
            backing_by_bidder(config, h),
            owned_by(h, backing_of_bid(config)),
        );
    }
    lemma_weigh_agree(seats, base_locked_of(), share_of(asks, backing_of_ask()));
    lemma_weigh_agree(seats, quote_locked_of(), share_of(bids, backing_of_bid(config)));
}

proof fn lemma_no_bid_fault(m: MarketModel, bids: Seq<BookEntry>)
    requires
        forall|i: int|
            0 <= i < bids.len() ==> {
                &&& m.owner_is_seated((#[trigger] bids[i]).value)
                &&& m.value(bids[i].key.price_in_ticks, bids[i].value.num_base_lots) <= u64::MAX
            },
    ensures
        m.bid_fault(bids) is None,
    decreases bids.len(),
{
    if bids.len() > 0 {
        let rest = bids.drop_first();
        assert forall|i: int| 0 <= i < rest.len() implies {
            &&& m.owner_is_seated((#[trigger] rest[i]).value)
            &&& m.value(rest[i].key.price_in_ticks, rest[i].value.num_base_lots) <= u64::MAX
        } by {
            assert(rest[i] == bids[i + 1]);
        }
        lemma_no_bid_fault(m, rest);
    }
}

/// A well-formed market that conserves value passes [`Market::check_conservation`].
pub proof fn law_conserved_markets_pass<
    const BIDS: usize,
    const ASKS: usize,
    const SEATS: usize,
>(market: Market<BIDS, ASKS, SEATS>)
    requires
        market.wf(),
        market.model().is_conserved(),
    ensures
        market.first_fault() is Ok,
{
    law_conserved_means_no_fault(market.model());
    market.book.bid_tree().lemma_wf();
    market.book.ask_tree().lemma_wf();
    market.book.bid_tree().law_check_decides_well_formedness();
    market.book.ask_tree().law_check_decides_well_formedness();
    let bids = market.model().book.bids;
    let asks = market.model().book.asks;
    assert forall|i: int| 0 <= i < bids.order.len() implies (#[trigger] bids.key_at(
        i,
    )).tagged_side() == crate::order::Side::Bid by {}
    assert forall|i: int| 0 <= i < asks.order.len() implies (#[trigger] asks.key_at(
        i,
    )).tagged_side() == crate::order::Side::Ask by {}
}

} // verus!
