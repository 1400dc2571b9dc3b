//! What the program is handed by each instruction: which account stands at which place, and
//! which field at which offset.

use vstd::prelude::*;

use super::address::Address;
use super::grammar::{order_ids_bytes, packet_bytes};
#[allow(unused_imports)]
use super::grammar::head_of;
use super::instruction::{
    amounts_data, batch_data, batching, cancel_all_data, cancelling, cancelling_all, claiming,
    collecting, depositing, evicting, initialize_market_data, placement, reduce_order_data,
    reducing, swapping, withdrawing, AccountMeta, MarketAddresses, Receipt,
};
use super::program::{Discriminant, ProgramConstants, SizeClass};
#[allow(unused_imports)]
use crate::bytes::{lemma_u32, lemma_u64, u32_bytes, u32_of, u64_bytes, u64_of};
use crate::engine::{OrderPacket, PostOnlyRejection, SelfTradeBehavior};
use crate::order::{FIFOOrderId, Side};
use crate::quantities::{BaseLots, LotConfig, QuoteLots, Ticks};

verus! {

// ---------------------------------------------------------------------------------
// Accounts
// ---------------------------------------------------------------------------------

/// An account that may be written and does not sign.
pub open spec fn is_written(meta: AccountMeta, pubkey: Address) -> bool {
    meta.pubkey == pubkey && meta.is_writable && !meta.is_signer
}

/// An account that is only read and does not sign.
pub open spec fn is_read(meta: AccountMeta, pubkey: Address) -> bool {
    meta.pubkey == pubkey && !meta.is_writable && !meta.is_signer
}

/// An account that signs and is not written.
pub open spec fn is_signing(meta: AccountMeta, pubkey: Address) -> bool {
    meta.pubkey == pubkey && !meta.is_writable && meta.is_signer
}

/// The market, and a trader who signs, at the front.
pub open spec fn opens_with_trader(
    accounts: Seq<AccountMeta>,
    addresses: MarketAddresses,
    trader: Address,
) -> bool {
    &&& accounts.len() >= 2
    &&& is_written(accounts[0], addresses.market)
    &&& is_signing(accounts[1], trader)
}

/// The trader's token accounts at places two and three, and the vaults they pair with at
/// four and five: base with base, quote with quote.
pub open spec fn pairs_with_vaults(
    accounts: Seq<AccountMeta>,
    addresses: MarketAddresses,
    trader_base: Address,
    trader_quote: Address,
) -> bool {
    &&& accounts.len() >= 6
    &&& is_written(accounts[2], trader_base)
    &&& is_written(accounts[3], trader_quote)
    &&& is_written(accounts[4], addresses.base_vault)
    &&& is_written(accounts[5], addresses.quote_vault)
}

/// A receipt puts the event signer and the program behind the first `n` accounts; without
/// one nothing stands there.
pub open spec fn ends_with_receipt(
    accounts: Seq<AccountMeta>,
    n: int,
    constants: ProgramConstants,
    program_id: Address,
    receipt: Receipt,
) -> bool {
    match receipt {
        Receipt::Off => accounts.len() == n,
        Receipt::On => {
            &&& accounts.len() == n + 2
            &&& is_read(accounts[n], constants.log_authority(program_id)->Some_0.0)
            &&& is_read(accounts[n + 1], program_id)
        },
    }
}

/// A deposit names, in this order: the market, the trader, the trader's base and quote
/// accounts, the base and quote vaults they pair with, and the token program. It goes to
/// the market's program.
pub proof fn law_deposits_name_their_accounts(
    addresses: MarketAddresses,
    trader: Address,
    trader_base: Address,
    trader_quote: Address,
    base_lots: BaseLots,
    quote_lots: QuoteLots,
)
    ensures
        ({
            let call = depositing(
                addresses,
                trader,
                trader_base,
                trader_quote,
                base_lots,
                quote_lots,
            );
            &&& call.program_id == addresses.program_id
            &&& call.accounts.len() == 7
            &&& opens_with_trader(call.accounts, addresses, trader)
            &&& pairs_with_vaults(call.accounts, addresses, trader_base, trader_quote)
            &&& is_read(call.accounts[6], addresses.token_program)
            &&& carries_amounts(call.data, 2, base_lots.0, quote_lots.0)
        }),
{
    lemma_amounts(Discriminant::Deposit, base_lots, quote_lots);
}

/// A withdrawal names the same accounts at the same places as a deposit, and the vault
/// signer before the token program.
pub proof fn law_withdrawals_name_their_accounts(
    addresses: MarketAddresses,
    trader: Address,
    trader_base: Address,
    trader_quote: Address,
    base_lots: BaseLots,
    quote_lots: QuoteLots,
)
    ensures
        ({
            let call = withdrawing(
                addresses,
                trader,
                trader_base,
                trader_quote,
                base_lots,
                quote_lots,
            );
            let reverse = depositing(
                addresses,
                trader,
                trader_base,
                trader_quote,
                base_lots,
                quote_lots,
            );
            &&& call.program_id == addresses.program_id
            &&& call.accounts.len() == 8
            &&& opens_with_trader(call.accounts, addresses, trader)
            &&& pairs_with_vaults(call.accounts, addresses, trader_base, trader_quote)
            &&& is_read(call.accounts[6], addresses.vault_signer)
            &&& is_read(call.accounts[7], addresses.token_program)
            &&& call.accounts.take(6) == reverse.accounts.take(6)
            &&& carries_amounts(call.data, 3, base_lots.0, quote_lots.0)
        }),
{
    lemma_amounts(Discriminant::Withdraw, base_lots, quote_lots);
    let call = withdrawing(addresses, trader, trader_base, trader_quote, base_lots, quote_lots);
    let reverse = depositing(addresses, trader, trader_base, trader_quote, base_lots, quote_lots);
    assert(call.accounts.take(6) =~= reverse.accounts.take(6));
}

/// A swap names a withdrawal's accounts, and what a receipt needs behind them.
pub proof fn law_swaps_name_their_accounts(
    constants: ProgramConstants,
    addresses: MarketAddresses,
    trader: Address,
    trader_base: Address,
    trader_quote: Address,
    side: Side,
    price_in_ticks: Ticks,
    num_base_lots: BaseLots,
    min_base_lots_to_fill: BaseLots,
    match_limit: u32,
    receipt: Receipt,
)
    ensures
        ({
            let call = swapping(
                constants,
                addresses,
                trader,
                trader_base,
                trader_quote,
                side,
                price_in_ticks,
                num_base_lots,
                min_base_lots_to_fill,
                match_limit,
                receipt,
            );
            &&& call.program_id == addresses.program_id
            &&& opens_with_trader(call.accounts, addresses, trader)
            &&& pairs_with_vaults(call.accounts, addresses, trader_base, trader_quote)
            &&& is_read(call.accounts[6], addresses.vault_signer)
            &&& is_read(call.accounts[7], addresses.token_program)
            &&& ends_with_receipt(call.accounts, 8, constants, addresses.program_id, receipt)
            &&& call.data.len() == 30 + receipt_len(receipt)
            &&& call.data[0] == 10
            &&& call.data[1] == side_byte(side)
            &&& u64_of(call.data.subrange(2, 10)) == price_in_ticks.0
            &&& u64_of(call.data.subrange(10, 18)) == num_base_lots.0
            &&& u64_of(call.data.subrange(18, 26)) == min_base_lots_to_fill.0
            &&& u32_of(call.data.subrange(26, 30)) == match_limit
            &&& receipt == Receipt::On ==> call.data[30] == constants.log_authority(
                addresses.program_id,
            )->Some_0.1
        }),
{
    let call = swapping(
        constants,
        addresses,
        trader,
        trader_base,
        trader_quote,
        side,
        price_in_ticks,
        num_base_lots,
        min_base_lots_to_fill,
        match_limit,
        receipt,
    );
    lemma_u64(price_in_ticks.0);
    lemma_u64(num_base_lots.0);
    lemma_u64(min_base_lots_to_fill.0);
    lemma_u32(match_limit);
    assert(call.data.subrange(2, 10) =~= u64_bytes(price_in_ticks.0));
    assert(call.data.subrange(10, 18) =~= u64_bytes(num_base_lots.0));
    assert(call.data.subrange(18, 26) =~= u64_bytes(min_base_lots_to_fill.0));
    assert(call.data.subrange(26, 30) =~= u32_bytes(match_limit));
}

/// Claiming, cancelling, reducing and batching touch the market and are signed by the
/// trader; evicting is not signed by the trader it evicts. None names another account.
pub proof fn law_small_instructions_name_their_accounts(
    addresses: MarketAddresses,
    trader: Address,
    order_id: FIFOOrderId,
    base_lots: BaseLots,
    side: Side,
    limit: u32,
    cancels: Seq<FIFOOrderId>,
    orders: Seq<OrderPacket>,
)
    ensures
        ({
            let claim = claiming(addresses, trader);
            let evict = evicting(addresses, trader);
            let cancel = cancelling(addresses, trader, order_id);
            let reduce = reducing(addresses, trader, order_id, base_lots);
            let all = cancelling_all(addresses, trader, side, limit);
            let batch = batching(addresses, trader, cancels, orders);
            &&& claim.program_id == addresses.program_id
            &&& evict.program_id == addresses.program_id
            &&& cancel.program_id == addresses.program_id
            &&& reduce.program_id == addresses.program_id
            &&& all.program_id == addresses.program_id
            &&& batch.program_id == addresses.program_id
            &&& claim.accounts.len() == 2 && opens_with_trader(claim.accounts, addresses, trader)
            &&& cancel.accounts.len() == 2 && opens_with_trader(cancel.accounts, addresses, trader)
            &&& reduce.accounts.len() == 2 && opens_with_trader(reduce.accounts, addresses, trader)
            &&& all.accounts.len() == 2 && opens_with_trader(all.accounts, addresses, trader)
            &&& batch.accounts.len() == 2 && opens_with_trader(batch.accounts, addresses, trader)
            &&& evict.accounts.len() == 2
            &&& is_written(evict.accounts[0], addresses.market)
            &&& is_read(evict.accounts[1], trader)
            &&& claim.data == seq![1u8]
            &&& evict.data == seq![11u8]
        }),
{
}

/// A placement touches the market and is signed by the trader, and what a receipt needs
/// stands behind them.
pub proof fn law_placements_name_their_accounts(
    constants: ProgramConstants,
    addresses: MarketAddresses,
    trader: Address,
    packet: OrderPacket,
    receipt: Receipt,
)
    ensures
        ({
            let call = placement(constants, addresses, trader, packet, receipt);
            &&& call.program_id == addresses.program_id
            &&& opens_with_trader(call.accounts, addresses, trader)
            &&& ends_with_receipt(call.accounts, 2, constants, addresses.program_id, receipt)
            &&& call.data.len() == 1 + packet_bytes(packet).len() + receipt_len(receipt)
            &&& call.data[0] == 4
            &&& call.data.subrange(1, (1 + packet_bytes(packet).len()) as int) == packet_bytes(
                packet,
            )
            &&& receipt == Receipt::On ==> call.data.last() == constants.log_authority(
                addresses.program_id,
            )->Some_0.1
        }),
{
    let call = placement(constants, addresses, trader, packet, receipt);
    assert(call.data.subrange(1, (1 + packet_bytes(packet).len()) as int) =~= packet_bytes(packet));
}

/// A fee sweep moves quote from the quote vault to the recipient: the market, that vault
/// and the recipient are written, and nobody signs.
pub proof fn law_fee_sweeps_name_their_accounts(addresses: MarketAddresses, fee_recipient: Address)
    ensures
        ({
            let call = collecting(addresses, fee_recipient);
            &&& call.program_id == addresses.program_id
            &&& call.accounts.len() == 5
            &&& is_written(call.accounts[0], addresses.market)
            &&& is_written(call.accounts[1], addresses.quote_vault)
            &&& is_written(call.accounts[2], fee_recipient)
            &&& is_read(call.accounts[3], addresses.vault_signer)
            &&& is_read(call.accounts[4], addresses.token_program)
            &&& call.data == seq![8u8]
        }),
{
}

// ---------------------------------------------------------------------------------
// Data
// ---------------------------------------------------------------------------------

/// How many bytes a receipt adds.
pub open spec fn receipt_len(receipt: Receipt) -> int {
    match receipt {
        Receipt::Off => 0,
        Receipt::On => 1,
    }
}

/// The byte for a side: zero for a bid, one for an ask.
pub open spec fn side_byte(side: Side) -> u8 {
    if side == Side::Bid {
        0
    } else {
        1
    }
}

/// The byte for a self-trade policy.
pub open spec fn policy_byte(behavior: SelfTradeBehavior) -> u8 {
    if behavior == SelfTradeBehavior::DecrementTake {
        0
    } else if behavior == SelfTradeBehavior::CancelProvide {
        1
    } else {
        2
    }
}

/// A leading byte, and two integers of eight bytes behind it.
pub open spec fn carries_amounts(data: Seq<u8>, tag: u8, first: u64, second: u64) -> bool {
    &&& data.len() == 17
    &&& data[0] == tag
    &&& u64_of(data.subrange(1, 9)) == first
    &&& u64_of(data.subrange(9, 17)) == second
}

proof fn lemma_amounts(discriminant: Discriminant, base_lots: BaseLots, quote_lots: QuoteLots)
    ensures
        carries_amounts(
            amounts_data(discriminant, base_lots, quote_lots),
            discriminant.tag(),
            base_lots.0,
            quote_lots.0,
        ),
{
    let data = amounts_data(discriminant, base_lots, quote_lots);
    lemma_u64(base_lots.0);
    lemma_u64(quote_lots.0);
    assert(data.subrange(1, 9) =~= u64_bytes(base_lots.0));
    assert(data.subrange(9, 17) =~= u64_bytes(quote_lots.0));
}

/// Where the fields of a packet stand: its kind, its side, whether it is priced, its price
/// and its size, and then what its kind needs.
pub proof fn law_packets_are_laid_out(packet: OrderPacket)
    ensures
        ({
            let data = packet_bytes(packet);
            match packet {
                OrderPacket::Limit {
                    side,
                    price_in_ticks,
                    num_base_lots,
                    self_trade_behavior,
                    match_limit,
                } => {
                    &&& data.len() == 24
                    &&& data[0] == 0
                    &&& data[1] == side_byte(side)
                    &&& data[2] == 1
                    &&& u64_of(data.subrange(3, 11)) == price_in_ticks.0
                    &&& u64_of(data.subrange(11, 19)) == num_base_lots.0
                    &&& data[19] == policy_byte(self_trade_behavior)
                    &&& u32_of(data.subrange(20, 24)) == match_limit
                },
                OrderPacket::PostOnly { side, price_in_ticks, num_base_lots, rejection } => {
                    &&& data.len() == 20
                    &&& data[0] == 1
                    &&& data[1] == side_byte(side)
                    &&& data[2] == 1
                    &&& u64_of(data.subrange(3, 11)) == price_in_ticks.0
                    &&& u64_of(data.subrange(11, 19)) == num_base_lots.0
                    &&& data[19] == (if rejection == PostOnlyRejection::Reject {
                        0u8
                    } else {
                        1u8
                    })
                },
                OrderPacket::ImmediateOrCancel {
                    side,
                    price_in_ticks,
                    num_base_lots,
                    min_base_lots_to_fill,
                    self_trade_behavior,
                    match_limit,
                } => {
                    &&& data.len() == 32
                    &&& data[0] == 2
                    &&& data[1] == side_byte(side)
                    &&& data[2] == (if price_in_ticks is Some {
                        1u8
                    } else {
                        0u8
                    })
                    &&& u64_of(data.subrange(3, 11)) == (match price_in_ticks {
                        Some(price) => price.0,
                        None => 0u64,
                    })
                    &&& u64_of(data.subrange(11, 19)) == num_base_lots.0
                    &&& u64_of(data.subrange(19, 27)) == min_base_lots_to_fill.0
                    &&& data[27] == policy_byte(self_trade_behavior)
                    &&& u32_of(data.subrange(28, 32)) == match_limit
                },
            }
        }),
{
    let data = packet_bytes(packet);
    let head = head_of(packet);
    lemma_u64(head.price.0);
    lemma_u64(head.size.0);
    assert(data.subrange(3, 11) =~= u64_bytes(head.price.0));
    assert(data.subrange(11, 19) =~= u64_bytes(head.size.0));
    match packet {
        OrderPacket::Limit { match_limit, .. } => {
            lemma_u32(match_limit);
            assert(data.subrange(20, 24) =~= u32_bytes(match_limit));
        },
        OrderPacket::PostOnly { .. } => {},
        OrderPacket::ImmediateOrCancel { min_base_lots_to_fill, match_limit, .. } => {
            lemma_u64(min_base_lots_to_fill.0);
            lemma_u32(match_limit);
            assert(data.subrange(19, 27) =~= u64_bytes(min_base_lots_to_fill.0));
            assert(data.subrange(28, 32) =~= u32_bytes(match_limit));
        },
    }
}

/// Where the fields of a cancel, a reduction and a cancel-all stand.
pub proof fn law_cancels_are_laid_out(
    addresses: MarketAddresses,
    trader: Address,
    order_id: FIFOOrderId,
    base_lots: BaseLots,
    side: Side,
    limit: u32,
)
    ensures
        carries_amounts(
            cancelling(addresses, trader, order_id).data,
            5,
            order_id.price_in_ticks.0,
            order_id.order_sequence_number,
        ),
        ({
            let data = reducing(addresses, trader, order_id, base_lots).data;
            &&& data.len() == 25
            &&& carries_amounts(
                data.take(17),
                6,
                order_id.price_in_ticks.0,
                order_id.order_sequence_number,
            )
            &&& u64_of(data.subrange(17, 25)) == base_lots.0
        }),
        ({
            let data = cancelling_all(addresses, trader, side, limit).data;
            &&& data.len() == 6
            &&& data[0] == 7
            &&& data[1] == side_byte(side)
            &&& u32_of(data.subrange(2, 6)) == limit
        }),
{
    lemma_u64(order_id.price_in_ticks.0);
    lemma_u64(order_id.order_sequence_number);
    lemma_u64(base_lots.0);
    lemma_u32(limit);
    let price = u64_bytes(order_id.price_in_ticks.0);
    let sequence = u64_bytes(order_id.order_sequence_number);
    let cancel = cancelling(addresses, trader, order_id).data;
    assert(cancel.subrange(1, 9) =~= price);
    assert(cancel.subrange(9, 17) =~= sequence);
    let reduce = reduce_order_data(order_id, base_lots);
    assert(reduce.take(17).subrange(1, 9) =~= price);
    assert(reduce.take(17).subrange(9, 17) =~= sequence);
    assert(reduce.subrange(17, 25) =~= u64_bytes(base_lots.0));
    assert(cancel_all_data(side, limit).subrange(2, 6) =~= u32_bytes(limit));
}

/// Where the fields of a creation stand.
pub proof fn law_creations_are_laid_out(
    size_class: SizeClass,
    lot_config: LotConfig,
    taker_fee_bps: u64,
    bump: u8,
)
    ensures
        ({
            let data = initialize_market_data(size_class, lot_config, taker_fee_bps, bump);
            &&& data.len() == 50
            &&& data[0] == 0
            &&& u64_of(data.subrange(1, 9)) == (match size_class {
                SizeClass::Small => 0u64,
                SizeClass::Medium => 1u64,
                SizeClass::Large => 2u64,
            })
            &&& u64_of(data.subrange(9, 17)) == lot_config.base_lots_per_base_unit
            &&& u64_of(data.subrange(17, 25)) == lot_config.tick_size_in_quote_lots_per_base_unit
            &&& u64_of(data.subrange(25, 33)) == lot_config.base_atoms_per_base_lot
            &&& u64_of(data.subrange(33, 41)) == lot_config.quote_atoms_per_quote_lot
            &&& u64_of(data.subrange(41, 49)) == taker_fee_bps
            &&& data[49] == bump
        }),
{
    let data = initialize_market_data(size_class, lot_config, taker_fee_bps, bump);
    lemma_u64(size_class.code());
    lemma_u64(lot_config.base_lots_per_base_unit);
    lemma_u64(lot_config.tick_size_in_quote_lots_per_base_unit);
    lemma_u64(lot_config.base_atoms_per_base_lot);
    lemma_u64(lot_config.quote_atoms_per_quote_lot);
    lemma_u64(taker_fee_bps);
    assert(data.subrange(1, 9) =~= u64_bytes(size_class.code()));
    assert(data.subrange(9, 17) =~= u64_bytes(lot_config.base_lots_per_base_unit));
    assert(data.subrange(17, 25) =~= u64_bytes(lot_config.tick_size_in_quote_lots_per_base_unit));
    assert(data.subrange(25, 33) =~= u64_bytes(lot_config.base_atoms_per_base_lot));
    assert(data.subrange(33, 41) =~= u64_bytes(lot_config.quote_atoms_per_quote_lot));
    assert(data.subrange(41, 49) =~= u64_bytes(taker_fee_bps));
}

/// Ids one after the other take sixteen bytes each.
proof fn lemma_ids_are_laid_out(ids: Seq<FIFOOrderId>)
    ensures
        order_ids_bytes(ids).len() == 16 * ids.len(),
        forall|i: int|
            0 <= i < ids.len() ==> {
                &&& u64_of(order_ids_bytes(ids).subrange(16 * i, 16 * i + 8)) == (
                #[trigger] ids[i]).price_in_ticks.0
                &&& u64_of(order_ids_bytes(ids).subrange(16 * i + 8, 16 * i + 16))
                    == ids[i].order_sequence_number
            },
    decreases ids.len(),
{
    if ids.len() > 0 {
        let rest = ids.drop_first();
        let all = order_ids_bytes(ids);
        let behind = order_ids_bytes(rest);
        lemma_ids_are_laid_out(rest);
        lemma_u64(ids[0].price_in_ticks.0);
        lemma_u64(ids[0].order_sequence_number);
        assert forall|i: int| 0 <= i < ids.len() implies {
            &&& u64_of(all.subrange(16 * i, 16 * i + 8)) == (#[trigger] ids[i]).price_in_ticks.0
            &&& u64_of(all.subrange(16 * i + 8, 16 * i + 16)) == ids[i].order_sequence_number
        } by {
            if i == 0 {
                assert(all.subrange(0, 8) =~= u64_bytes(ids[0].price_in_ticks.0));
                assert(all.subrange(8, 16) =~= u64_bytes(ids[0].order_sequence_number));
            } else {
                let k = i - 1;
                assert(rest[k] == ids[i]);
                assert(all.subrange(16 * i, 16 * i + 8) =~= behind.subrange(16 * k, 16 * k + 8));
                assert(all.subrange(16 * i + 8, 16 * i + 16) =~= behind.subrange(
                    16 * k + 8,
                    16 * k + 16,
                ));
            }
        }
    }
}

/// A batch counts its cancels in one byte and names each in sixteen, then counts its orders
/// in one byte. A list longer than a byte can count is cut short; a shorter one is whole.
pub proof fn law_batches_are_laid_out(
    addresses: MarketAddresses,
    trader: Address,
    cancels: Seq<FIFOOrderId>,
    orders: Seq<OrderPacket>,
)
    ensures
        ({
            let data = batching(addresses, trader, cancels, orders).data;
            let n = if cancels.len() < 255 {
                cancels.len() as int
            } else {
                255
            };
            let m = if orders.len() < 255 {
                orders.len() as int
            } else {
                255
            };
            &&& data.len() >= 3 + 16 * n
            &&& data[0] == 13
            &&& data[1] == n
            &&& forall|i: int|
                0 <= i < n ==> {
                    &&& u64_of(data.subrange(2 + 16 * i, 10 + 16 * i)) == (
                    #[trigger] cancels[i]).price_in_ticks.0
                    &&& u64_of(data.subrange(10 + 16 * i, 18 + 16 * i))
                        == cancels[i].order_sequence_number
                }
            &&& data[2 + 16 * n] == m
            &&& data.skip(3 + 16 * n) == super::grammar::packets_bytes(orders.take(m))
        }),
{
    let ids = super::instruction::listed(cancels);
    let packets = super::instruction::listed(orders);
    let data = batch_data(ids, packets);
    let n = ids.len() as int;
    let m = packets.len() as int;
    let listed = order_ids_bytes(ids);
    lemma_ids_are_laid_out(ids);
    assert(orders.take(m) =~= packets);
    assert forall|i: int| 0 <= i < n implies {
        &&& u64_of(data.subrange(2 + 16 * i, 10 + 16 * i)) == (
        #[trigger] cancels[i]).price_in_ticks.0
        &&& u64_of(data.subrange(10 + 16 * i, 18 + 16 * i)) == cancels[i].order_sequence_number
    } by {
        assert(ids[i] == cancels[i]);
        assert(data.subrange(2 + 16 * i, 10 + 16 * i) =~= listed.subrange(16 * i, 16 * i + 8));
        assert(data.subrange(10 + 16 * i, 18 + 16 * i) =~= listed.subrange(
            16 * i + 8,
            16 * i + 16,
        ));
    }
    assert(data.skip(3 + 16 * n) =~= super::grammar::packets_bytes(packets));
}

} // verus!
