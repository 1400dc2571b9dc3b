//! Taking a seat, funding it, and trading.

use vstd::prelude::*;

use crate::client::address::Address;
use crate::client::instruction::{
    can_receipt, cancel_all_orders, cancelling_all, claim_seat, claiming, deposit, depositing,
    limit, placement, try_place_order, Instruction, MarketAddresses, Receipt,
};
use crate::client::program::ProgramConstants;
use crate::client::setup::calls;
use crate::engine::{OrderPacket, SelfTradeBehavior};
use crate::order::Side;
use crate::quantities::{BaseLots, QuoteLots, Ticks};

verus! {

/// Claims a seat and deposits funds in one transaction.
///
/// Claiming is idempotent, so this is safe to repeat and does not need the market read
/// first to find out whether a seat already exists.
pub fn fund(
    addresses: &MarketAddresses,
    trader: &Address,
    trader_base: &Address,
    trader_quote: &Address,
    base_lots: u64,
    quote_lots: u64,
) -> (instructions: Vec<Instruction>)
    ensures
        calls(instructions@) == seq![
            claiming(*addresses, *trader),
            depositing(
                *addresses,
                *trader,
                *trader_base,
                *trader_quote,
                BaseLots(base_lots),
                QuoteLots(quote_lots),
            ),
        ],
{
    let instructions = vec![
        claim_seat(addresses, trader),
        deposit(
            addresses,
            trader,
            trader_base,
            trader_quote,
            BaseLots(base_lots),
            QuoteLots(quote_lots),
        ),
    ];
    proof {
        assert(calls(instructions@) =~= seq![
            claiming(*addresses, *trader),
            depositing(
                *addresses,
                *trader,
                *trader_base,
                *trader_quote,
                BaseLots(base_lots),
                QuoteLots(quote_lots),
            ),
        ]);
    }
    instructions
}

/// Whether a receipt is wanted.
pub open spec fn receipt_for(wanted: bool) -> Receipt {
    if wanted {
        Receipt::On
    } else {
        Receipt::Off
    }
}

/// Places one limit order. `None` if a receipt was asked for and its authority cannot be
/// derived.
pub fn place(
    constants: &ProgramConstants,
    addresses: &MarketAddresses,
    trader: &Address,
    side: Side,
    price_in_ticks: u64,
    base_lots: u64,
    receipt: bool,
) -> (instruction: Option<Instruction>)
    ensures
        match instruction {
            Some(built) => {
                &&& can_receipt(*constants, receipt_for(receipt), addresses.program_id)
                &&& built.view() == placement(
                    *constants,
                    *addresses,
                    *trader,
                    OrderPacket::Limit {
                        side,
                        price_in_ticks: Ticks(price_in_ticks),
                        num_base_lots: BaseLots(base_lots),
                        self_trade_behavior: SelfTradeBehavior::DecrementTake,
                        match_limit: u32::MAX,
                    },
                    receipt_for(receipt),
                )
            },
            None => !can_receipt(*constants, receipt_for(receipt), addresses.program_id),
        },
{
    let packet = limit(side, Ticks(price_in_ticks), BaseLots(base_lots));
    try_place_order(
        constants,
        addresses,
        trader,
        &packet,
        if receipt {
            Receipt::On
        } else {
            Receipt::Off
        },
    )
}

/// Cancels every resting order on one side, up to `limit`.
pub fn cancel_all(addresses: &MarketAddresses, trader: &Address, side: Side, limit: u32) -> (
    instruction: Instruction)
    ensures
        instruction.view() == cancelling_all(*addresses, *trader, side, limit),
{
    cancel_all_orders(addresses, trader, side, limit)
}

} // verus!
