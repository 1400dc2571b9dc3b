//! What an operator's plans come to: where quotes stand, which orders are taken back, what
//! is measured in which order, and when a record can be used.

use vstd::prelude::*;

use super::bench::{
    all_probes, ask_outside, bid_outside, ids_of, is_measurable, ladder_from, our_ids, seat_on,
    Context, Measured, ProbeView, Unmeasurable,
};
use super::launch::opening;
use super::record::{MarketRecord, RecordError, RecordField};
use super::trade::receipt_for;
use crate::client::address::{parsed_address, Address};
use crate::client::instruction::{
    batching, cancelling, cancelling_all, claiming, collecting, depositing, placement, swapping,
    token_program, withdrawing, Call, Receipt,
};
use crate::client::program::ProgramConstants;
#[allow(unused_imports)]
use crate::client::setup_laws::{law_allocations_are_laid_out, law_token_accounts_are_set_up};
use crate::client::setup_laws::{allocates, opens};
use crate::client::state::{BookOrder, Level, MarketState};
#[allow(unused_imports)]
use crate::client::state_laws::{
    law_levels_stand_for_their_orders, law_seats_are_found_by_wallet, law_total_is_every_order,
};
use crate::client::state_laws::{shows, size_between};
use crate::engine::{OrderPacket, PostOnlyRejection, TraderKey};
use crate::order::Side;
use crate::quantities::{BaseLots, QuoteLots, Ticks};

verus! {

// ---------------------------------------------------------------------------------
// Quoting
// ---------------------------------------------------------------------------------

/// The price of the order at the front of a queue.
pub open spec fn front(orders: Seq<BookOrder>) -> int {
    orders[0].id.price_in_ticks.0 as int
}

/// A bid stands one tick below the best bid, and at one where there is none to stand below.
pub proof fn law_bids_stand_outside(bids: Seq<BookOrder>)
    ensures
        bids.len() > 0 && front(bids) >= 2 ==> bid_outside(bids) == front(bids) - 1,
        bids.len() > 0 && front(bids) < 2 ==> bid_outside(bids) == 1,
        bids.len() == 0 ==> bid_outside(bids) == 1,
{
}

/// An ask stands one tick above the best ask, or at the highest price where that is the
/// best ask. Without asks it stands two above where the bid would stand before that is held
/// at one, so that it does not cross the best bid.
pub proof fn law_asks_stand_outside(bids: Seq<BookOrder>, asks: Seq<BookOrder>)
    ensures
        asks.len() > 0 && front(asks) < u64::MAX ==> ask_outside(bids, asks) == front(asks) + 1,
        asks.len() > 0 && front(asks) == u64::MAX ==> ask_outside(bids, asks) == u64::MAX,
        asks.len() == 0 && bids.len() > 0 && front(bids) >= 1 ==> ask_outside(bids, asks) == front(
            bids,
        ) + 1,
        asks.len() == 0 && bids.len() > 0 && front(bids) == 0 ==> ask_outside(bids, asks) == 2,
        asks.len() == 0 && bids.len() == 0 ==> ask_outside(bids, asks) == 3,
        asks.len() == 0 && bids.len() > 0 ==> ask_outside(bids, asks) > front(bids),
        asks.len() == 0 ==> ask_outside(bids, asks) > bid_outside(bids),
{
}

/// A post-only order for one lot, which is rejected where it would cross.
pub open spec fn is_quote(packet: OrderPacket, on: Side, at: int) -> bool {
    match packet {
        OrderPacket::PostOnly { side, price_in_ticks, num_base_lots, rejection } => {
            &&& side == on
            &&& price_in_ticks.0 == at
            &&& num_base_lots.0 == 1
            &&& rejection == PostOnlyRejection::Reject
        },
        _ => false,
    }
}

/// A ladder is four bids, each a tick below the one before, until they reach zero.
pub proof fn law_ladders_step_down(price: int, i: int)
    requires
        0 <= price <= u64::MAX,
        0 <= i < 4,
    ensures
        ladder_from(price).len() == 4,
        is_quote(
            ladder_from(price)[i],
            Side::Bid,
            if price >= i {
                price - i
            } else {
                0
            },
        ),
{
}

// ---------------------------------------------------------------------------------
// Cancelling
// ---------------------------------------------------------------------------------

/// A seat's orders are all of those in the queue that are its own, in queue order.
pub proof fn law_own_orders_are_all_of_ours(orders: Seq<BookOrder>, seat: u32)
    ensures
        ids_of(orders, seat) == orders.filter(|order: BookOrder| order.trader_index == seat)
            .map_values(|order: BookOrder| order.id),
    decreases orders.len(),
{
    reveal(Seq::filter);
    if orders.len() > 0 {
        law_own_orders_are_all_of_ours(orders.drop_last(), seat);
    }
    assert(ids_of(orders, seat) =~= orders.filter(
        |order: BookOrder| order.trader_index == seat,
    ).map_values(|order: BookOrder| order.id));
}

/// With a seat, our orders are its bids and then its asks; without one there are none.
pub proof fn law_our_orders_are_bids_then_asks(state: MarketState, seat: Option<u32>)
    ensures
        match seat {
            None => our_ids(state, seat).len() == 0,
            Some(index) => our_ids(state, seat) == ids_of(state.bids@, index) + ids_of(
                state.asks@,
                index,
            ),
        },
{
}

// ---------------------------------------------------------------------------------
// The plan
// ---------------------------------------------------------------------------------

/// A measurement of this call, which names as many accounts as the call does.
pub open spec fn measures(probe: ProbeView, what: Measured, call: Call) -> bool {
    &&& probe.what == what
    &&& probe.call == (Ok::<_, Unmeasurable>(call))
    &&& probe.accounts == call.accounts.len()
}

/// A measurement that the book does not allow.
pub open spec fn lacks(probe: ProbeView, what: Measured, accounts: int, why: Unmeasurable) -> bool {
    &&& probe.what == what
    &&& probe.call == (Err::<Call, _>(why))
    &&& probe.accounts == accounts
}

/// A plan begins with what needs no book: a claim, one lot in, and one lot out.
pub proof fn law_plans_begin_with_funds(
    constants: ProgramConstants,
    context: Context,
    state: MarketState,
)
    ensures
        ({
            let probes = all_probes(constants, context, state);
            &&& probes.len() == (if state.asks@.len() == 0 {
                11int
            } else {
                12int
            })
            &&& measures(
                probes[0],
                Measured::ClaimSeat,
                claiming(context.addresses, context.trader),
            )
            &&& measures(
                probes[1],
                Measured::Deposit,
                depositing(
                    context.addresses,
                    context.trader,
                    context.token_base,
                    context.token_quote,
                    BaseLots(1),
                    QuoteLots(1),
                ),
            )
            &&& measures(
                probes[2],
                Measured::Withdraw,
                withdrawing(
                    context.addresses,
                    context.trader,
                    context.token_base,
                    context.token_quote,
                    BaseLots(1),
                    QuoteLots(1),
                ),
            )
        }),
{
}

/// Then come a bid and an ask outside the touch, the ask with a receipt, and a batch of a
/// ladder of bids that takes nothing back.
pub proof fn law_plans_quote_outside_the_touch(
    constants: ProgramConstants,
    context: Context,
    state: MarketState,
)
    requires
        ask_outside(state.bids@, state.asks@) <= u64::MAX,
    ensures
        ({
            let probes = all_probes(constants, context, state);
            let bid = OrderPacket::PostOnly {
                side: Side::Bid,
                price_in_ticks: Ticks(bid_outside(state.bids@) as u64),
                num_base_lots: BaseLots(1),
                rejection: PostOnlyRejection::Reject,
            };
            let ask = OrderPacket::PostOnly {
                side: Side::Ask,
                price_in_ticks: Ticks(ask_outside(state.bids@, state.asks@) as u64),
                num_base_lots: BaseLots(1),
                rejection: PostOnlyRejection::Reject,
            };
            &&& measures(
                probes[3],
                Measured::PostOnly,
                placement(constants, context.addresses, context.trader, bid, Receipt::Off),
            )
            &&& measures(
                probes[4],
                Measured::PostOnlyWithReceipt,
                placement(constants, context.addresses, context.trader, ask, Receipt::On),
            )
            &&& measures(
                probes[5],
                Measured::BatchPlace,
                batching(
                    context.addresses,
                    context.trader,
                    Seq::empty(),
                    ladder_from(bid_outside(state.bids@)),
                ),
            )
        }),
{
}

/// Then our first order is taken back, where there is one; our first four are replaced by a
/// ladder, where there are four; up to eight bids are taken back; and the fees are swept to
/// whom the account names.
pub proof fn law_plans_take_our_orders_back(
    constants: ProgramConstants,
    context: Context,
    state: MarketState,
)
    ensures
        ({
            let probes = all_probes(constants, context, state);
            let ours = our_ids(state, seat_on(state, context.trader));
            &&& ours.len() == 0 ==> lacks(
                probes[6],
                Measured::CancelOne,
                2,
                Unmeasurable::NothingResting,
            )
            &&& ours.len() > 0 ==> measures(
                probes[6],
                Measured::CancelOne,
                cancelling(context.addresses, context.trader, ours[0]),
            )
            &&& ours.len() < 4 ==> lacks(
                probes[7],
                Measured::BatchReplace,
                2,
                Unmeasurable::FewerThanFourResting,
            )
            &&& ours.len() >= 4 ==> measures(
                probes[7],
                Measured::BatchReplace,
                batching(
                    context.addresses,
                    context.trader,
                    seq![ours[0], ours[1], ours[2], ours[3]],
                    ladder_from(bid_outside(state.bids@)),
                ),
            )
            &&& measures(
                probes[8],
                Measured::CancelAll,
                cancelling_all(context.addresses, context.trader, Side::Bid, 8),
            )
            &&& measures(
                probes[9],
                Measured::CollectFees,
                collecting(context.addresses, Address(state.account.fee_recipient)),
            )
        }),
{
    let ours = our_ids(state, seat_on(state, context.trader));
    if ours.len() >= 4 {
        assert(ours.take(4) =~= seq![ours[0], ours[1], ours[2], ours[3]]);
    }
}

/// Last, the best ask is taken at its own price and size, and then every ask, at the worst
/// ask's price and for what all of them hold, over as many levels as the asks show; without asks there is nothing to take.
pub proof fn law_plans_take_the_asks(
    constants: ProgramConstants,
    context: Context,
    state: MarketState,
)
    requires
        is_measurable(state),
    ensures
        ({
            let probes = all_probes(constants, context, state);
            let asks = state.asks@;
            &&& asks.len() == 0 ==> lacks(
                probes[10],
                Measured::SwapCrossing,
                8,
                Unmeasurable::NoAsks,
            )
            &&& asks.len() > 0 ==> {
                &&& measures(
                    probes[10],
                    Measured::SwapOneLevel,
                    swapping(
                        constants,
                        context.addresses,
                        context.trader,
                        context.token_base,
                        context.token_quote,
                        Side::Bid,
                        asks[0].id.price_in_ticks,
                        asks[0].num_base_lots,
                        BaseLots(0),
                        64,
                        Receipt::Off,
                    ),
                )
                &&& exists|levels: Seq<Level>| #[trigger]
                    shows(levels, asks, usize::MAX as nat) && probes[11].what
                        == Measured::SwapSweeping(levels.len() as usize)
                &&& size_between(asks, 0, asks.len() as int) <= u64::MAX
                &&& measures(
                    probes[11],
                    probes[11].what,
                    swapping(
                        constants,
                        context.addresses,
                        context.trader,
                        context.token_base,
                        context.token_quote,
                        Side::Bid,
                        asks[asks.len() - 1].id.price_in_ticks,
                        BaseLots(size_between(asks, 0, asks.len() as int) as u64),
                        BaseLots(0),
                        64,
                        Receipt::Off,
                    ),
                )
            }
        }),
{
    law_total_is_every_order(state.asks@);
    law_levels_stand_for_their_orders(state.asks@, usize::MAX as nat);
}

/// A market can be measured unless it has more asks than can be counted or held, or has no
/// asks and a bid at the highest price, above which no ask could stand.
pub proof fn law_ordinary_markets_can_be_measured(state: MarketState)
    ensures
        is_measurable(state) <==> {
            &&& state.asks@.len() <= u32::MAX
            &&& size_between(state.asks@, 0, state.asks@.len() as int) <= u64::MAX
            &&& !(state.asks@.len() == 0 && state.bids@.len() > 0 && front(state.bids@)
                == u64::MAX)
        },
{
    law_total_is_every_order(state.asks@);
}

/// A wallet's seat is that of the trader whose key is the wallet's address.
pub proof fn law_seats_are_found_by_address(state: MarketState, trader: Address)
    ensures
        seat_on(state, trader) is Some <==> exists|i: int|
            0 <= i < state.traders@.len() && (#[trigger] state.traders@[i]).key == TraderKey(
                trader.0,
            ),
        match seat_on(state, trader) {
            Some(index) => exists|i: int|
                0 <= i < state.traders@.len() && (#[trigger] state.traders@[i]).key
                    == TraderKey(trader.0) && state.traders@[i].index == index,
            None => true,
        },
{
    law_seats_are_found_by_wallet(state.traders@, TraderKey(trader.0));
}

/// A receipt is asked for exactly where one is wanted.
pub proof fn law_receipts_are_as_wanted(wanted: bool)
    ensures
        receipt_for(wanted) == Receipt::On <==> wanted,
        receipt_for(wanted) == Receipt::Off <==> !wanted,
{
}

// ---------------------------------------------------------------------------------
// Launching
// ---------------------------------------------------------------------------------

/// Opening two token accounts allocates each, the payer paying, and at once opens it for
/// its own mint and its owner: base with base, quote with quote.
pub proof fn law_openings_pair_accounts_with_mints(
    payer: Address,
    owner: Address,
    base: Address,
    quote: Address,
    base_mint: Address,
    quote_mint: Address,
    token_rent: u64,
)
    ensures
        ({
            let calls = opening(payer, owner, base, quote, base_mint, quote_mint, token_rent);
            &&& calls.len() == 4
            &&& allocates(
                calls[0].program_id,
                calls[0].accounts,
                calls[0].data,
                payer,
                base,
                token_rent,
                165,
                token_program(),
            )
            &&& opens(
                calls[1].program_id,
                calls[1].accounts,
                calls[1].data,
                base,
                base_mint,
                owner,
            )
            &&& allocates(
                calls[2].program_id,
                calls[2].accounts,
                calls[2].data,
                payer,
                quote,
                token_rent,
                165,
                token_program(),
            )
            &&& opens(
                calls[3].program_id,
                calls[3].accounts,
                calls[3].data,
                quote,
                quote_mint,
                owner,
            )
        }),
{
    law_allocations_are_laid_out(payer, base, token_rent, 165, token_program());
    law_allocations_are_laid_out(payer, quote, token_rent, 165, token_program());
    law_token_accounts_are_set_up(base, base_mint, owner);
    law_token_accounts_are_set_up(quote, quote_mint, owner);
}

// ---------------------------------------------------------------------------------
// Records
// ---------------------------------------------------------------------------------

/// Each entry of a record is read from the text under its own name.
pub proof fn law_entries_are_read_from_their_own_text(record: MarketRecord)
    ensures
        record.entry(RecordField::ProgramId) == record.program_id@,
        record.entry(RecordField::Market) == record.market@,
        record.entry(RecordField::BaseVault) == record.base_vault@,
        record.entry(RecordField::QuoteVault) == record.quote_vault@,
        record.entry(RecordField::BaseMint) == record.base_mint@,
        record.entry(RecordField::QuoteMint) == record.quote_mint@,
        record.entry(RecordField::PayerBase) == record.payer_base@,
        record.entry(RecordField::PayerQuote) == record.payer_quote@,
        forall|field: RecordField|
            match parsed_address(record.entry(field)) {
                Some(bytes) => #[trigger] record.address(field) == (Ok::<_, RecordError>(
                    Address(bytes),
                )),
                None => record.address(field) == (Err::<Address, _>(
                    RecordError::NotAnAddress(field),
                )),
            },
{
}

/// A record can be used exactly if its program, its market and its two vaults each spell an
/// address and the market has a signer. The first of these that fails is what is reported.
pub proof fn law_records_are_refused_by_their_first_fault(
    record: MarketRecord,
    constants: ProgramConstants,
)
    ensures
        match record.addressed(constants) {
            Ok(addresses) => {
                &&& parsed_address(record.program_id@) == Some(addresses.program_id.0)
                &&& parsed_address(record.market@) == Some(addresses.market.0)
                &&& parsed_address(record.base_vault@) == Some(addresses.base_vault.0)
                &&& parsed_address(record.quote_vault@) == Some(addresses.quote_vault.0)
                &&& constants.vault_signer(addresses.program_id, addresses.market) is Some
                &&& addresses.vault_signer == constants.vault_signer(
                    addresses.program_id,
                    addresses.market,
                )->Some_0.0
                &&& addresses.token_program == token_program()
            },
            Err(RecordError::NotAnAddress(RecordField::ProgramId)) => parsed_address(
                record.program_id@,
            ) is None,
            Err(RecordError::NotAnAddress(RecordField::Market)) => {
                &&& parsed_address(record.program_id@) is Some
                &&& parsed_address(record.market@) is None
            },
            Err(RecordError::NotAnAddress(RecordField::BaseVault)) => {
                &&& parsed_address(record.program_id@) is Some
                &&& parsed_address(record.market@) is Some
                &&& parsed_address(record.base_vault@) is None
            },
            Err(RecordError::NotAnAddress(RecordField::QuoteVault)) => {
                &&& parsed_address(record.program_id@) is Some
                &&& parsed_address(record.market@) is Some
                &&& parsed_address(record.base_vault@) is Some
                &&& parsed_address(record.quote_vault@) is None
            },
            Err(RecordError::NotAnAddress(_)) => false,
            Err(RecordError::NoVaultSigner) => {
                &&& parsed_address(record.program_id@) is Some
                &&& parsed_address(record.market@) is Some
                &&& parsed_address(record.base_vault@) is Some
                &&& parsed_address(record.quote_vault@) is Some
                &&& constants.vault_signer(
                    Address(parsed_address(record.program_id@)->Some_0),
                    Address(parsed_address(record.market@)->Some_0),
                ) is None
            },
        },
{
}

} // verus!
