//! What a match produced, and how a caller observes it.

use vstd::prelude::*;

use super::trader::SeatIndex;
use crate::order::FIFOOrderId;
use crate::quantities::{BaseLots, QuoteLots, Ticks};

verus! {

/// A single maker order being hit.
#[derive(Copy, Clone, Debug, PartialEq, Eq, Structural)]
pub struct Fill {
    /// The resting order that was hit.
    pub maker_order_id: FIFOOrderId,
    /// Seat that owned the resting order.
    pub maker_seat: SeatIndex,
    /// Seat that took the liquidity.
    pub taker_seat: SeatIndex,
    /// Execution price. Always the *maker's* price — the taker's limit only decides
    /// whether the fill happens, never at what price, which is what makes resting a
    /// quote worth doing.
    pub price_in_ticks: Ticks,
    /// Size traded.
    pub base_lots_filled: BaseLots,
    /// Gross quote value, before fee.
    pub quote_lots_filled: QuoteLots,
    /// Fee taken from the taker on this fill.
    pub fee_in_quote_lots: QuoteLots,
    /// Size still resting on the maker order afterwards; zero if it was consumed.
    pub maker_base_lots_remaining: BaseLots,
}

/// Why matching stopped.
///
/// Returned rather than discarded because it is the difference between "the book is
/// thin" and "you set `match_limit` too low" — a distinction a market maker tuning its
/// parameters cannot otherwise make from outside.
#[derive(Copy, Clone, Debug, PartialEq, Eq, Structural)]
pub enum MatchStop {
    /// The order was completely filled.
    FullyFilled,
    /// The next resting order was outside the limit price.
    PriceLimit,
    /// `match_limit` resting orders were consumed.
    MatchLimit,
    /// The opposite side ran out of liquidity.
    BookEmpty,
    /// The taker could not fund the next fill.
    InsufficientFunds,
    /// The order never attempted to take.
    DidNotCross,
}

/// The result of submitting an order.
#[derive(Copy, Clone, Debug, PartialEq, Eq)]
pub struct OrderOutcome {
    /// Id of the resting remainder, if any part of the order posted.
    pub order_id: Option<FIFOOrderId>,
    /// Total size taken from the book.
    pub base_lots_filled: BaseLots,
    /// Total gross quote value taken, before fee.
    pub quote_lots_filled: QuoteLots,
    /// Total fee charged to the taker.
    pub fee_in_quote_lots: QuoteLots,
    /// Size left resting on the book.
    pub base_lots_posted: BaseLots,
    /// Size removed by self-trade handling — cancelled or decremented, never traded.
    pub base_lots_self_traded: BaseLots,
    /// Why matching ended.
    pub stop: MatchStop,
}

impl OrderOutcome {
    /// An order that neither filled nor posted.
    pub open spec fn idle(stop: MatchStop) -> Self {
        OrderOutcome {
            order_id: None,
            base_lots_filled: BaseLots(0),
            quote_lots_filled: QuoteLots(0),
            fee_in_quote_lots: QuoteLots(0),
            base_lots_posted: BaseLots(0),
            base_lots_self_traded: BaseLots(0),
            stop,
        }
    }

    /// An order that neither filled nor posted.
    pub fn empty(stop: MatchStop) -> (outcome: Self)
        ensures
            outcome == OrderOutcome::idle(stop),
    {
        OrderOutcome {
            order_id: None,
            base_lots_filled: BaseLots(0),
            quote_lots_filled: QuoteLots(0),
            fee_in_quote_lots: QuoteLots(0),
            base_lots_posted: BaseLots(0),
            base_lots_self_traded: BaseLots(0),
            stop,
        }
    }

    /// Whether any liquidity was taken.
    pub fn did_fill(&self) -> (filled: bool)
        ensures
            filled == (self.base_lots_filled.0 != 0),
    {
        !self.base_lots_filled.is_zero()
    }

    /// Whether any size came to rest.
    pub fn did_post(&self) -> (posted: bool)
        ensures
            posted == (self.base_lots_posted.0 != 0),
    {
        !self.base_lots_posted.is_zero()
    }
}

/// Receives each fill as it happens.
///
/// The engine reports fills through this rather than returning a list because it has no
/// allocator: on-chain the implementation emits a log or a self-CPI event, and in tests
/// it pushes to a `Vec`. `()` implements it as a no-op, so callers that only want the
/// aggregate totals pay nothing.
pub trait FillObserver: Sized {
    /// `after` is what this observer may become when `before` is told of a fill.
    spec fn told(before: Self, fill: Fill, after: Self) -> bool;

    /// Called once per maker order consumed, in execution order.
    fn on_fill(&mut self, fill: &Fill)
        ensures
            Self::told(*old(self), *fill, *final(self)),
    ;
}

/// `after` is what an observer may become when `before` is told of `fills`, one by one
/// and in order: `steps` are the states it goes through.
pub open spec fn goes_through<O: FillObserver>(
    before: O,
    fills: Seq<Fill>,
    after: O,
    steps: Seq<O>,
) -> bool {
    &&& steps.len() == fills.len() + 1
    &&& steps[0] == before
    &&& steps.last() == after
    &&& forall|i: int|
        0 <= i < fills.len() ==> #[trigger] O::told(steps[i], fills[i], steps[i + 1])
}

/// `after` is what an observer may become when `before` is told of `fills`, one by one
/// and in order.
pub open spec fn told_all<O: FillObserver>(before: O, fills: Seq<Fill>, after: O) -> bool {
    exists|steps: Seq<O>| goes_through(before, fills, after, steps)
}

/// An observer that hears nothing stays as it is.
pub proof fn lemma_told_nothing<O: FillObserver>(observer: O)
    ensures
        told_all(observer, Seq::empty(), observer),
{
    assert(goes_through(observer, Seq::empty(), observer, seq![observer]));
}

/// Hearing one fill more.
pub proof fn lemma_told_one_more<O: FillObserver>(
    before: O,
    fills: Seq<Fill>,
    last: O,
    fill: Fill,
    after: O,
)
    requires
        told_all(before, fills, last),
        O::told(last, fill, after),
    ensures
        told_all(before, fills.push(fill), after),
{
    let steps = choose|steps: Seq<O>| goes_through(before, fills, last, steps);
    let longer = steps.push(after);
    assert forall|i: int| 0 <= i < fills.push(fill).len() implies #[trigger] O::told(
        longer[i],
        fills.push(fill)[i],
        longer[i + 1],
    ) by {
        if i < fills.len() {
            assert(O::told(steps[i], fills[i], steps[i + 1]));
        }
    }
    assert(goes_through(before, fills.push(fill), after, longer));
}

impl FillObserver for () {
    open spec fn told(before: Self, fill: Fill, after: Self) -> bool {
        true
    }

    fn on_fill(&mut self, _fill: &Fill) {
    }
}

impl FillObserver for Vec<Fill> {
    open spec fn told(before: Self, fill: Fill, after: Self) -> bool {
        after@ == before@.push(fill)
    }

    fn on_fill(&mut self, fill: &Fill) {
        self.push(*fill);
    }
}

/// A vector of fills ends up with every fill appended, in order.
pub proof fn law_a_vector_records_every_fill(before: Vec<Fill>, fills: Seq<Fill>, after: Vec<Fill>)
    requires
        told_all(before, fills, after),
    ensures
        after@ == before@ + fills,
{
    let steps = choose|steps: Seq<Vec<Fill>>| goes_through(before, fills, after, steps);
    lemma_recorded_so_far(before, fills, after, steps, fills.len() as int);
    assert(fills.take(fills.len() as int) =~= fills);
}

proof fn lemma_recorded_so_far(
    before: Vec<Fill>,
    fills: Seq<Fill>,
    after: Vec<Fill>,
    steps: Seq<Vec<Fill>>,
    n: int,
)
    requires
        goes_through(before, fills, after, steps),
        0 <= n <= fills.len(),
    ensures
        steps[n]@ == before@ + fills.take(n),
    decreases n,
{
    if n > 0 {
        lemma_recorded_so_far(before, fills, after, steps, n - 1);
        assert(<Vec<Fill> as FillObserver>::told(steps[n - 1], fills[n - 1], steps[n - 1 + 1]));
        assert(fills.take(n) =~= fills.take(n - 1).push(fills[n - 1]));
        assert(steps[n]@ =~= before@ + fills.take(n));
    } else {
        assert(steps[0]@ =~= before@ + fills.take(0));
    }
}

} // verus!
