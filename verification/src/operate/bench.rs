//! Pricing every instruction the current market state allows.
//!
//! What is measured is whatever is on the book right now. An instruction whose
//! preconditions the current market does not meet is reported as unmeasurable, with the
//! reason. A benchmark that arranges its own book is measuring the book it chose.

use vstd::prelude::*;
use vstd::string::StringExecFns;

use crate::client::address::{try_log_authority, Address};
use crate::client::instruction::{
    batch_update, batching, cancel_all_orders, cancel_order, cancelling, cancelling_all,
    claim_seat, claiming, collect_fees, collecting, deposit, depositing, place_order, placement,
    post_only, swap, swapping, withdraw, withdrawing, Call, Instruction, MarketAddresses, Receipt,
};
use crate::client::program::ProgramConstants;
use crate::client::state::{
    seat_held, top_levels, total_size, BookOrder, MarketState,
};
use crate::engine::{OrderPacket, PostOnlyRejection, TraderKey};
use crate::order::{FIFOOrderId, Side};
use crate::quantities::{BaseLots, QuoteLots, Ticks};
use crate::text::{decimal, digits};

verus! {

/// What a sample measures. A sweep is only a number worth reading next to the depth it
/// crossed.
#[derive(Copy, Clone, Debug, PartialEq, Eq)]
pub enum Measured {
    /// Claiming a seat.
    ClaimSeat,
    /// Moving money in.
    Deposit,
    /// Moving money out.
    Withdraw,
    /// A post-only order that rests.
    PostOnly,
    /// The same, with a receipt.
    PostOnlyWithReceipt,
    /// Four placements in one instruction.
    BatchPlace,
    /// One cancel.
    CancelOne,
    /// Four cancels and four placements in one instruction.
    BatchReplace,
    /// Up to eight cancels on one side.
    CancelAll,
    /// A fee sweep.
    CollectFees,
    /// A swap against an empty book.
    SwapCrossing,
    /// A swap that takes the best ask.
    SwapOneLevel,
    /// A swap that takes every ask, over this many price levels.
    SwapSweeping(usize),
}

impl Measured {
    /// What a sample is reported as.
    pub open spec fn text(self) -> Seq<char> {
        match self {
            Measured::ClaimSeat => "claim seat"@,
            Measured::Deposit => "deposit"@,
            Measured::Withdraw => "withdraw"@,
            Measured::PostOnly => "post-only, rests"@,
            Measured::PostOnlyWithReceipt => "post-only, with receipt"@,
            Measured::BatchPlace => "batch: 0 cancels, 4 places"@,
            Measured::CancelOne => "cancel one"@,
            Measured::BatchReplace => "batch: 4 cancels, 4 places"@,
            Measured::CancelAll => "cancel all, up to 8"@,
            Measured::CollectFees => "collect fees"@,
            Measured::SwapCrossing => "swap, crossing"@,
            Measured::SwapOneLevel => "swap, 1 level"@,
            Measured::SwapSweeping(levels) => "swap, sweeping "@ + digits(levels as nat)
                + " level(s)"@,
        }
    }

    /// What a sample is reported as.
    pub fn label(&self) -> (label: String)
        ensures
            label@ == self.text(),
    {
        match self {
            Measured::ClaimSeat => String::from_str("claim seat"),
            Measured::Deposit => String::from_str("deposit"),
            Measured::Withdraw => String::from_str("withdraw"),
            Measured::PostOnly => String::from_str("post-only, rests"),
            Measured::PostOnlyWithReceipt => String::from_str("post-only, with receipt"),
            Measured::BatchPlace => String::from_str("batch: 0 cancels, 4 places"),
            Measured::CancelOne => String::from_str("cancel one"),
            Measured::BatchReplace => String::from_str("batch: 4 cancels, 4 places"),
            Measured::CancelAll => String::from_str("cancel all, up to 8"),
            Measured::CollectFees => String::from_str("collect fees"),
            Measured::SwapCrossing => String::from_str("swap, crossing"),
            Measured::SwapOneLevel => String::from_str("swap, 1 level"),
            Measured::SwapSweeping(levels) => {
                let mut label = String::from_str("swap, sweeping ");
                label.append(decimal(*levels as u64).as_str());
                label.append(" level(s)");
                label
            },
        }
    }
}

/// Why an instruction could not be priced.
#[derive(Copy, Clone, Debug, PartialEq, Eq)]
pub enum Unmeasurable {
    /// Nothing of ours is resting.
    NothingResting,
    /// Fewer than four of our orders are resting.
    FewerThanFourResting,
    /// No asks are resting.
    NoAsks,
}

impl Unmeasurable {
    /// Why, in words.
    pub open spec fn text(self) -> Seq<char> {
        match self {
            Unmeasurable::NothingResting => "nothing of ours is resting"@,
            Unmeasurable::FewerThanFourResting => "fewer than four of our orders are resting"@,
            Unmeasurable::NoAsks => "no asks are resting"@,
        }
    }

    /// Why, in words.
    pub fn reason(&self) -> (reason: &'static str)
        ensures
            reason@ == self.text(),
    {
        match self {
            Unmeasurable::NothingResting => "nothing of ours is resting",
            Unmeasurable::FewerThanFourResting => "fewer than four of our orders are resting",
            Unmeasurable::NoAsks => "no asks are resting",
        }
    }
}

/// One measurement to make, or why it cannot be made.
#[derive(Debug)]
pub struct Probe {
    /// What is measured.
    pub what: Measured,
    /// How many accounts the instruction names.
    pub accounts: usize,
    /// The instruction to simulate.
    pub instruction: Result<Instruction, Unmeasurable>,
}

/// A probe with its lists as sequences.
pub struct ProbeView {
    /// What is measured.
    pub what: Measured,
    /// How many accounts the instruction names.
    pub accounts: nat,
    /// The instruction to simulate.
    pub call: Result<Call, Unmeasurable>,
}

impl Probe {
    /// The probe with its lists as sequences.
    pub open spec fn view(self) -> ProbeView {
        ProbeView {
            what: self.what,
            accounts: self.accounts as nat,
            call: match self.instruction {
                Ok(instruction) => Ok(instruction.view()),
                Err(why) => Err(why),
            },
        }
    }
}

/// Probes with their lists as sequences.
pub open spec fn views(probes: Seq<Probe>) -> Seq<ProbeView> {
    probes.map_values(|probe: Probe| probe.view())
}

/// A measurement that can be made.
pub open spec fn measuring(what: Measured, call: Call) -> ProbeView {
    ProbeView { what, accounts: call.accounts.len(), call: Ok(call) }
}

/// A measurement that cannot be made.
pub open spec fn missing(what: Measured, accounts: nat, why: Unmeasurable) -> ProbeView {
    ProbeView { what, accounts, call: Err(why) }
}

/// A measurement that can be made.
fn measure(what: Measured, instruction: Instruction) -> (probe: Probe)
    ensures
        probe.view() == measuring(what, instruction.view()),
{
    let accounts = instruction.accounts.len();
    Probe { what, accounts, instruction: Ok(instruction) }
}

/// A measurement that cannot be made.
fn unmeasurable(what: Measured, accounts: usize, why: Unmeasurable) -> (probe: Probe)
    ensures
        probe.view() == missing(what, accounts as nat, why),
{
    Probe { what, accounts, instruction: Err(why) }
}

/// The addresses every sample needs.
#[derive(Copy, Clone, Debug)]
pub struct Context {
    /// The market.
    pub addresses: MarketAddresses,
    /// The wallet that would sign.
    pub trader: Address,
    /// Its base token account.
    pub token_base: Address,
    /// Its quote token account.
    pub token_quote: Address,
}

/// Moving money in and out.
fn funds(context: &Context) -> (probes: Vec<Probe>)
    ensures
        views(probes@) == funding_probes(*context),
{
    let probes = vec![
        measure(
            Measured::Deposit,
            deposit(
                &context.addresses,
                &context.trader,
                &context.token_base,
                &context.token_quote,
                BaseLots(1),
                QuoteLots(1),
            ),
        ),
        measure(
            Measured::Withdraw,
            withdraw(
                &context.addresses,
                &context.trader,
                &context.token_base,
                &context.token_quote,
                BaseLots(1),
                QuoteLots(1),
            ),
        ),
    ];
    proof {
        assert(views(probes@) =~= funding_probes(*context));
    }
    probes
}

/// Moving money in and out.
pub open spec fn funding_probes(context: Context) -> Seq<ProbeView> {
    seq![
        measuring(
            Measured::Deposit,
            depositing(
                context.addresses,
                context.trader,
                context.token_base,
                context.token_quote,
                BaseLots(1),
                QuoteLots(1),
            ),
        ),
        measuring(
            Measured::Withdraw,
            withdrawing(
                context.addresses,
                context.trader,
                context.token_base,
                context.token_quote,
                BaseLots(1),
                QuoteLots(1),
            ),
        ),
    ]
}

// ---------------------------------------------------------------------------------
// Quoting
// ---------------------------------------------------------------------------------

/// One tick below the best bid, and never below one.
pub open spec fn bid_outside(bids: Seq<BookOrder>) -> int {
    if bids.len() == 0 || bids[0].id.price_in_ticks.0 <= 1 {
        1
    } else {
        bids[0].id.price_in_ticks.0 - 1
    }
}

/// One tick above the best ask. Without asks, two above where the bid stands.
pub open spec fn ask_outside(bids: Seq<BookOrder>, asks: Seq<BookOrder>) -> int {
    if asks.len() == 0 {
        if bids.len() == 0 {
            3
        } else if bids[0].id.price_in_ticks.0 == 0 {
            2
        } else {
            bids[0].id.price_in_ticks.0 + 1
        }
    } else if asks[0].id.price_in_ticks.0 == u64::MAX {
        u64::MAX as int
    } else {
        asks[0].id.price_in_ticks.0 + 1
    }
}

/// One tick outside the touch on each side, so a post-only rests instead of crossing.
pub fn quote_prices(state: &MarketState) -> (prices: (Ticks, Ticks))
    requires
        ask_outside(state.bids@, state.asks@) <= u64::MAX,
    ensures
        prices.0.0 == bid_outside(state.bids@),
        prices.1.0 == ask_outside(state.bids@, state.asks@),
{
    let bid = match state.best_bid() {
        Some(order) => order.price_in_ticks().as_u64().saturating_sub(1),
        None => 1,
    };
    let ask = match state.best_ask() {
        Some(order) => order.price_in_ticks().as_u64().saturating_add(1),
        None => bid + 2,
    };
    let bid = if bid < 1 {
        1
    } else {
        bid
    };
    (Ticks(bid), Ticks(ask))
}

/// A quote that is rejected rather than slid.
pub open spec fn quote(side: Side, price: int) -> OrderPacket {
    OrderPacket::PostOnly {
        side,
        price_in_ticks: Ticks(price as u64),
        num_base_lots: BaseLots(1),
        rejection: PostOnlyRejection::Reject,
    }
}

/// A price some ticks lower, and never below zero.
pub open spec fn lower(price: int, ticks: int) -> int {
    if price < ticks {
        0
    } else {
        price - ticks
    }
}

/// Four bids, each a tick below the one before.
pub open spec fn ladder_from(price: int) -> Seq<OrderPacket> {
    seq![
        quote(Side::Bid, lower(price, 0)),
        quote(Side::Bid, lower(price, 1)),
        quote(Side::Bid, lower(price, 2)),
        quote(Side::Bid, lower(price, 3)),
    ]
}

/// Four bids, each a tick below the one before.
fn ladder(bid: Ticks) -> (packets: Vec<OrderPacket>)
    ensures
        packets@ == ladder_from(bid.0 as int),
{
    let mut packets: Vec<OrderPacket> = Vec::new();
    let mut level: u64 = 0;
    while level < 4
        invariant
            level <= 4,
            packets@.len() == level,
            forall|i: int|
                0 <= i < level ==> #[trigger] packets@[i] == quote(
                    Side::Bid,
                    lower(bid.0 as int, i),
                ),
        decreases 4 - level,
    {
        packets.push(
            post_only(
                Side::Bid,
                Ticks(bid.as_u64().saturating_sub(level)),
                BaseLots(1),
                PostOnlyRejection::Reject,
            ),
        );
        level = level + 1;
    }
    proof {
        assert(packets@ =~= ladder_from(bid.0 as int));
    }
    packets
}

/// Resting a quote, one at a time and batched.
///
/// Prices are placed outside the current touch so the order rests rather than trades —
/// a post-only that crosses is rejected, and a rejection is not a measurement.
fn quoting(constants: &ProgramConstants, context: &Context, state: &MarketState) -> (probes: Vec<
    Probe,
>)
    requires
        ask_outside(state.bids@, state.asks@) <= u64::MAX,
        constants.log_authority(context.addresses.program_id) is Some,
    ensures
        views(probes@) == quoting_probes(*constants, *context, *state),
{
    let (bid, ask) = quote_prices(state);
    let one = post_only(Side::Bid, bid, BaseLots(1), PostOnlyRejection::Reject);
    let other = post_only(Side::Ask, ask, BaseLots(1), PostOnlyRejection::Reject);
    let rungs = ladder(bid);
    let addresses = &context.addresses;
    let trader = &context.trader;
    let no_cancels: Vec<FIFOOrderId> = Vec::new();
    let probes = vec![
        measure(
            Measured::PostOnly,
            place_order(constants, addresses, trader, &one, Receipt::Off),
        ),
        measure(
            Measured::PostOnlyWithReceipt,
            place_order(constants, addresses, trader, &other, Receipt::On),
        ),
        measure(
            Measured::BatchPlace,
            batch_update(addresses, trader, no_cancels.as_slice(), rungs.as_slice()),
        ),
    ];
    proof {
        assert(no_cancels@ =~= Seq::empty());
        assert(views(probes@) =~= quoting_probes(*constants, *context, *state));
    }
    probes
}

/// Resting a quote, one at a time and batched.
pub open spec fn quoting_probes(
    constants: ProgramConstants,
    context: Context,
    state: MarketState,
) -> Seq<ProbeView> {
    let bid = bid_outside(state.bids@);
    let ask = ask_outside(state.bids@, state.asks@);
    seq![
        measuring(
            Measured::PostOnly,
            placement(
                constants,
                context.addresses,
                context.trader,
                quote(Side::Bid, bid),
                Receipt::Off,
            ),
        ),
        measuring(
            Measured::PostOnlyWithReceipt,
            placement(
                constants,
                context.addresses,
                context.trader,
                quote(Side::Ask, ask),
                Receipt::On,
            ),
        ),
        measuring(
            Measured::BatchPlace,
            batching(context.addresses, context.trader, Seq::empty(), ladder_from(bid)),
        ),
    ]
}

// ---------------------------------------------------------------------------------
// Cancelling
// ---------------------------------------------------------------------------------

/// The ids of a seat's orders, in order.
pub open spec fn ids_of(orders: Seq<BookOrder>, seat: u32) -> Seq<FIFOOrderId>
    decreases orders.len(),
{
    if orders.len() == 0 {
        Seq::empty()
    } else if orders.last().trader_index == seat {
        ids_of(orders.drop_last(), seat).push(orders.last().id)
    } else {
        ids_of(orders.drop_last(), seat)
    }
}

/// The ids of our orders: bids, then asks. None without a seat.
pub open spec fn our_ids(state: MarketState, seat: Option<u32>) -> Seq<FIFOOrderId> {
    match seat {
        Some(index) => ids_of(state.bids@, index) + ids_of(state.asks@, index),
        None => Seq::empty(),
    }
}

/// Appends the ids of a seat's orders.
fn collect_ids(orders: &Vec<BookOrder>, seat: u32, ids: &mut Vec<FIFOOrderId>)
    ensures
        final(ids)@ == old(ids)@ + ids_of(orders@, seat),
{
    let mut i: usize = 0;
    proof {
        assert(ids@ =~= old(ids)@ + ids_of(orders@.take(0), seat));
    }
    while i < orders.len()
        invariant
            i <= orders@.len(),
            ids@ == old(ids)@ + ids_of(orders@.take(i as int), seat),
        decreases orders@.len() - i,
    {
        proof {
            assert(orders@.take(i + 1).drop_last() =~= orders@.take(i as int));
        }
        let ghost before = ids@;
        if orders[i].trader_index == seat {
            ids.push(orders[i].id);
            proof {
                assert(before.push(orders@[i as int].id) =~= old(ids)@ + ids_of(
                    orders@.take(i as int),
                    seat,
                ).push(orders@[i as int].id));
            }
        }
        i = i + 1;
    }
    proof {
        assert(orders@.take(i as int) =~= orders@);
    }
}

/// Taking an order back off the book.
fn cancelling_samples(context: &Context, state: &MarketState, seat: Option<u32>) -> (probes: Vec<
    Probe,
>)
    requires
        ask_outside(state.bids@, state.asks@) <= u64::MAX,
    ensures
        views(probes@) == cancelling_probes(*context, *state, seat),
{
    let mut ours: Vec<FIFOOrderId> = Vec::new();
    match seat {
        None => {},
        Some(index) => {
            collect_ids(&state.bids, index, &mut ours);
            collect_ids(&state.asks, index, &mut ours);
        },
    }
    proof {
        assert(ours@ =~= our_ids(*state, seat));
    }
    let addresses = &context.addresses;
    let trader = &context.trader;
    let mut probes: Vec<Probe> = Vec::new();
    if ours.len() > 0 {
        probes.push(measure(Measured::CancelOne, cancel_order(addresses, trader, &ours[0])));
    } else {
        probes.push(unmeasurable(Measured::CancelOne, 2, Unmeasurable::NothingResting));
    }
    if ours.len() >= 4 {
        let (bid, _) = quote_prices(state);
        let rungs = ladder(bid);
        let first = vec![ours[0], ours[1], ours[2], ours[3]];
        proof {
            assert(first@ =~= ours@.take(4));
        }
        probes.push(
            measure(
                Measured::BatchReplace,
                batch_update(addresses, trader, first.as_slice(), rungs.as_slice()),
            ),
        );
    } else {
        probes.push(
            unmeasurable(Measured::BatchReplace, 2, Unmeasurable::FewerThanFourResting),
        );
    }
    probes.push(
        measure(Measured::CancelAll, cancel_all_orders(addresses, trader, Side::Bid, 8)),
    );
    proof {
        assert(views(probes@) =~= cancelling_probes(*context, *state, seat));
    }
    probes
}

/// Taking an order back off the book.
pub open spec fn cancelling_probes(
    context: Context,
    state: MarketState,
    seat: Option<u32>,
) -> Seq<ProbeView> {
    let ours = our_ids(state, seat);
    seq![
        if ours.len() > 0 {
            measuring(
                Measured::CancelOne,
                cancelling(context.addresses, context.trader, ours[0]),
            )
        } else {
            missing(Measured::CancelOne, 2, Unmeasurable::NothingResting)
        },
        if ours.len() >= 4 {
            measuring(
                Measured::BatchReplace,
                batching(
                    context.addresses,
                    context.trader,
                    ours.take(4),
                    ladder_from(bid_outside(state.bids@)),
                ),
            )
        } else {
            missing(Measured::BatchReplace, 2, Unmeasurable::FewerThanFourResting)
        },
        measuring(
            Measured::CancelAll,
            cancelling_all(context.addresses, context.trader, Side::Bid, 8),
        ),
    ]
}

// ---------------------------------------------------------------------------------
// Taking
// ---------------------------------------------------------------------------------

/// The total size of some orders.
fn sum_of(orders: &Vec<BookOrder>) -> (total: u64)
    requires
        total_size(orders@) <= u64::MAX,
    ensures
        total == total_size(orders@),
{
    let mut total: u64 = 0;
    let mut i: usize = 0;
    proof {
        assert(orders@.skip(0) =~= orders@);
    }
    while i < orders.len()
        invariant
            i <= orders@.len(),
            total_size(orders@) <= u64::MAX,
            total + total_size(orders@.skip(i as int)) == total_size(orders@),
        decreases orders@.len() - i,
    {
        proof {
            let rest = orders@.skip(i as int);
            assert(rest[0] == orders@[i as int]);
            assert(rest.drop_first() =~= orders@.skip(i + 1));
            lemma_total_is_natural(orders@.skip(i + 1));
        }
        total = total + orders[i].num_base_lots.as_u64();
        i = i + 1;
    }
    proof {
        assert(orders@.skip(i as int) =~= Seq::empty());
    }
    total
}

/// A total is never negative.
proof fn lemma_total_is_natural(orders: Seq<BookOrder>)
    ensures
        total_size(orders) >= 0,
    decreases orders.len(),
{
    if orders.len() > 0 {
        lemma_total_is_natural(orders.drop_first());
    }
}

/// Crossing the book, which is the number that decides whether an aggregator routes here.
///
/// Sized to the resting depth so the sweep is real: a taker that fills nothing costs
/// almost nothing and would flatter the table.
fn taking(constants: &ProgramConstants, context: &Context, state: &MarketState) -> (probes: Vec<
    Probe,
>)
    requires
        total_size(state.asks@) <= u64::MAX,
        state.asks@.len() <= u32::MAX,
    ensures
        views(probes@) == taking_probes(*constants, *context, *state),
{
    let n = state.asks.len();
    if n == 0 {
        let probes = vec![unmeasurable(Measured::SwapCrossing, 8, Unmeasurable::NoAsks)];
        proof {
            assert(views(probes@) =~= taking_probes(*constants, *context, *state));
        }
        return probes;
    }
    let best = state.asks[0];
    let worst = state.asks[n - 1];
    let everything = sum_of(&state.asks);
    let levels = state.level_two(Side::Ask, usize::MAX).len();
    let probes = vec![
        measure(
            Measured::SwapOneLevel,
            swap(
                constants,
                &context.addresses,
                &context.trader,
                &context.token_base,
                &context.token_quote,
                Side::Bid,
                best.price_in_ticks(),
                best.num_base_lots,
                BaseLots(0),
                64,
                Receipt::Off,
            ),
        ),
        measure(
            Measured::SwapSweeping(levels),
            swap(
                constants,
                &context.addresses,
                &context.trader,
                &context.token_base,
                &context.token_quote,
                Side::Bid,
                worst.price_in_ticks(),
                BaseLots(everything),
                BaseLots(0),
                64,
                Receipt::Off,
            ),
        ),
    ];
    proof {
        assert(views(probes@) =~= taking_probes(*constants, *context, *state));
    }
    probes
}

/// Crossing the book.
pub open spec fn taking_probes(
    constants: ProgramConstants,
    context: Context,
    state: MarketState,
) -> Seq<ProbeView> {
    let asks = state.asks@;
    if asks.len() == 0 {
        seq![missing(Measured::SwapCrossing, 8, Unmeasurable::NoAsks)]
    } else {
        seq![
            measuring(
                Measured::SwapOneLevel,
                swapping(
                    constants,
                    context.addresses,
                    context.trader,
                    context.token_base,
                    context.token_quote,
                    Side::Bid,
                    asks[0].id.price_in_ticks,
                    asks[0].num_base_lots,
                    BaseLots(0),
                    64,
                    Receipt::Off,
                ),
            ),
            measuring(
                Measured::SwapSweeping(
                    top_levels(asks, usize::MAX as int).len() as usize,
                ),
                swapping(
                    constants,
                    context.addresses,
                    context.trader,
                    context.token_base,
                    context.token_quote,
                    Side::Bid,
                    asks.last().id.price_in_ticks,
                    BaseLots(total_size(asks) as u64),
                    BaseLots(0),
                    64,
                    Receipt::Off,
                ),
            ),
        ]
    }
}

// ---------------------------------------------------------------------------------
// The whole table
// ---------------------------------------------------------------------------------

/// Whether every price and size the measurements need can be represented.
pub open spec fn is_measurable(state: MarketState) -> bool {
    &&& ask_outside(state.bids@, state.asks@) <= u64::MAX
    &&& total_size(state.asks@) <= u64::MAX
    &&& state.asks@.len() <= u32::MAX
}

/// Whether every price and size the measurements need can be represented.
pub fn can_be_measured(state: &MarketState) -> (measurable: bool)
    ensures
        measurable == is_measurable(*state),
{
    if state.asks.len() > u32::MAX as usize {
        return false;
    }
    if state.asks.len() == 0 && state.bids.len() > 0
        && state.bids[0].price_in_ticks().as_u64() == u64::MAX {
        return false;
    }
    let mut total: u64 = 0;
    let mut i: usize = 0;
    proof {
        assert(state.asks@.skip(0) =~= state.asks@);
    }
    while i < state.asks.len()
        invariant
            i <= state.asks@.len(),
            total + total_size(state.asks@.skip(i as int)) == total_size(state.asks@),
        decreases state.asks@.len() - i,
    {
        proof {
            let rest = state.asks@.skip(i as int);
            assert(rest[0] == state.asks@[i as int]);
            assert(rest.drop_first() =~= state.asks@.skip(i + 1));
            lemma_total_is_natural(state.asks@.skip(i + 1));
        }
        match total.checked_add(state.asks[i].num_base_lots.as_u64()) {
            Some(sum) => {
                total = sum;
            },
            None => {
                return false;
            },
        }
        i = i + 1;
    }
    proof {
        assert(state.asks@.skip(i as int) =~= Seq::empty());
    }
    true
}

/// The seat a wallet holds on a market.
pub open spec fn seat_on(state: MarketState, trader: Address) -> Option<u32> {
    match seat_held(state.traders@, TraderKey(trader.0)) {
        Some(seat) => Some(seat.index),
        None => None,
    }
}

/// Every measurement, in the order they are reported.
pub open spec fn all_probes(
    constants: ProgramConstants,
    context: Context,
    state: MarketState,
) -> Seq<ProbeView> {
    seq![measuring(Measured::ClaimSeat, claiming(context.addresses, context.trader))]
        + funding_probes(context) + quoting_probes(constants, context, state) + cancelling_probes(
        context,
        state,
        seat_on(state, context.trader),
    ) + seq![
        measuring(
            Measured::CollectFees,
            collecting(context.addresses, Address(state.account.fee_recipient)),
        ),
    ] + taking_probes(constants, context, state)
}

/// Plans a measurement of every instruction the current market state allows.
pub fn plan(constants: &ProgramConstants, context: &Context, state: &MarketState) -> (probes: Vec<
    Probe,
>)
    requires
        is_measurable(*state),
        constants.log_authority(context.addresses.program_id) is Some,
    ensures
        views(probes@) == all_probes(*constants, *context, *state),
{
    let seat = state.seat_of(&TraderKey::new(context.trader.to_bytes()));
    let mut probes: Vec<Probe> = Vec::new();
    probes.push(measure(Measured::ClaimSeat, claim_seat(&context.addresses, &context.trader)));
    let mut more = funds(context);
    probes.append(&mut more);
    let mut more = quoting(constants, context, state);
    probes.append(&mut more);
    let mut more = cancelling_samples(context, state, seat);
    probes.append(&mut more);
    probes.push(
        measure(
            Measured::CollectFees,
            collect_fees(&context.addresses, &state.fee_recipient()),
        ),
    );
    let mut more = taking(constants, context, state);
    probes.append(&mut more);
    proof {
        assert(views(probes@) =~= all_probes(*constants, *context, *state));
    }
    probes
}

/// As [`plan`], or `None` if the receipt's authority cannot be derived.
pub fn try_plan(constants: &ProgramConstants, context: &Context, state: &MarketState) -> (probes:
    Option<Vec<Probe>>)
    requires
        is_measurable(*state),
    ensures
        match probes {
            Some(planned) => {
                &&& constants.log_authority(context.addresses.program_id) is Some
                &&& views(planned@) == all_probes(*constants, *context, *state)
            },
            None => constants.log_authority(context.addresses.program_id) is None,
        },
{
    match try_log_authority(constants, &context.addresses.program_id) {
        Some(_) => Some(plan(constants, context, state)),
        None => None,
    }
}

// ---------------------------------------------------------------------------------
// Reading a simulation
// ---------------------------------------------------------------------------------

/// What a cluster said of a simulated transaction.
#[derive(Clone, Debug)]
pub struct Simulation {
    /// Why it reverted, if it did.
    pub error: Option<String>,
    /// The compute it burned.
    pub compute_units: Option<u64>,
}

/// Why a simulation gives no cost.
#[derive(Clone, Debug)]
pub enum NoCost {
    /// The cluster could not be asked.
    NotSimulated(String),
    /// The instruction reverted.
    Reverted(String),
    /// The endpoint reported no compute.
    NotReported,
}

impl NoCost {
    /// Why, in words.
    pub open spec fn text(self) -> Seq<char> {
        match self {
            NoCost::NotSimulated(why) => why@,
            NoCost::Reverted(why) => why@,
            NoCost::NotReported => "the endpoint reported no compute"@,
        }
    }

    /// Why, in words.
    pub fn reason(&self) -> (reason: &str)
        ensures
            reason@ == self.text(),
    {
        match self {
            NoCost::NotSimulated(why) => why.as_str(),
            NoCost::Reverted(why) => why.as_str(),
            NoCost::NotReported => "the endpoint reported no compute",
        }
    }
}

/// What an instruction costs, from what the cluster said of it.
///
/// A reverted instruction reports the compute it burned before reverting, which is not the
/// number being asked for. Reporting it as a cost would be a lie of the most convenient
/// kind — reverts are cheap.
pub fn cost_of(simulation: Result<Simulation, String>) -> (cost: Result<u64, NoCost>)
    ensures
        match simulation {
            Err(why) => cost is Err && cost->Err_0 == NoCost::NotSimulated(why),
            Ok(said) => match said.error {
                Some(why) => cost is Err && cost->Err_0 == NoCost::Reverted(why),
                None => match said.compute_units {
                    Some(units) => cost is Ok && cost->Ok_0 == units,
                    None => cost is Err && cost->Err_0 == NoCost::NotReported,
                },
            },
        },
{
    match simulation {
        Err(why) => Err(NoCost::NotSimulated(why)),
        Ok(said) => match said.error {
            Some(why) => Err(NoCost::Reverted(why)),
            None => match said.compute_units {
                Some(units) => Ok(units),
                None => Err(NoCost::NotReported),
            },
        },
    }
}

} // verus!
