//! Where each field of an encoded value stands, and how an integer is written: byte by byte.

use vstd::prelude::*;

use crate::bytes::{u32_bytes, u32_of, u64_bytes, u64_of, Plain};
#[allow(unused_imports)]
use crate::bytes::{le_bytes, le_value, lemma_u32, lemma_u64};
use crate::client::program::MarketAccountHeader;
use crate::engine::{MarketHeader, TraderKey, TraderState};
use crate::order::{FIFOOrderId, RestingOrder};
use crate::quantities::LotConfig;
use crate::tree::Node;

verus! {

/// The eight bytes at an offset are this integer's.
pub open spec fn holds_long(bytes: Seq<u8>, at: int, value: u64) -> bool {
    0 <= at && at + 8 <= bytes.len() && bytes.subrange(at, at + 8) == u64_bytes(value)
}

/// The four bytes at an offset are this integer's.
pub open spec fn holds_short(bytes: Seq<u8>, at: int, value: u32) -> bool {
    0 <= at && at + 4 <= bytes.len() && bytes.subrange(at, at + 4) == u32_bytes(value)
}

/// Four bytes, the lowest first.
pub proof fn law_short_integers_are_little_endian(value: u32)
    ensures
        u32_bytes(value).len() == 4,
        u32_bytes(value)[0] == value as int % 256,
        u32_bytes(value)[1] == value as int / 0x100 % 256,
        u32_bytes(value)[2] == value as int / 0x1_0000 % 256,
        u32_bytes(value)[3] == value as int / 0x100_0000,
{
    reveal(u32_bytes);
    reveal_with_fuel(le_bytes, 5);
    lemma_u32(value);
}

/// Eight bytes, the lowest first.
pub proof fn law_long_integers_are_little_endian(value: u64)
    ensures
        u64_bytes(value).len() == 8,
        u64_bytes(value)[0] == value as int % 256,
        u64_bytes(value)[1] == value as int / 0x100 % 256,
        u64_bytes(value)[2] == value as int / 0x1_0000 % 256,
        u64_bytes(value)[3] == value as int / 0x100_0000 % 256,
        u64_bytes(value)[4] == value as int / 0x1_0000_0000 % 256,
        u64_bytes(value)[5] == value as int / 0x100_0000_0000 % 256,
        u64_bytes(value)[6] == value as int / 0x1_0000_0000_0000 % 256,
        u64_bytes(value)[7] == value as int / 0x100_0000_0000_0000,
{
    reveal(u64_bytes);
    reveal_with_fuel(le_bytes, 9);
    lemma_u64(value);
}

/// What four bytes are read as.
pub proof fn law_short_integers_are_read(bytes: Seq<u8>)
    requires
        bytes.len() == 4,
    ensures
        u32_of(bytes) == bytes[0] + 0x100 * bytes[1] + 0x1_0000 * bytes[2] + 0x100_0000 * bytes[3],
{
    reveal(u32_of);
    reveal_with_fuel(le_value, 5);
}

/// What eight bytes are read as.
pub proof fn law_long_integers_are_read(bytes: Seq<u8>)
    requires
        bytes.len() == 8,
    ensures
        u64_of(bytes) == bytes[0] + 0x100 * bytes[1] + 0x1_0000 * bytes[2] + 0x100_0000 * bytes[3]
            + 0x1_0000_0000 * bytes[4] + 0x100_0000_0000 * bytes[5] + 0x1_0000_0000_0000 * bytes[6]
            + 0x100_0000_0000_0000 * bytes[7],
{
    reveal(u64_of);
    reveal_with_fuel(le_value, 9);
}

/// An order's id is its price and its stored sequence number.
pub proof fn law_ids_are_laid_out(id: FIFOOrderId)
    ensures
        id.to_bytes().len() == 16,
        holds_long(id.to_bytes(), 0, id.price_in_ticks.0),
        holds_long(id.to_bytes(), 8, id.order_sequence_number),
{
    id.lemma_byte_len();
    lemma_u64(id.price_in_ticks.0);
    lemma_u64(id.order_sequence_number);
    assert(id.to_bytes().subrange(0, 8) =~= u64_bytes(id.price_in_ticks.0));
    assert(id.to_bytes().subrange(8, 16) =~= u64_bytes(id.order_sequence_number));
}

/// An order is its seat, its size, and its two expiries.
pub proof fn law_orders_are_laid_out(order: RestingOrder)
    ensures
        order.to_bytes().len() == 32,
        holds_long(order.to_bytes(), 0, order.trader_index),
        holds_long(order.to_bytes(), 8, order.num_base_lots.0),
        holds_long(order.to_bytes(), 16, order.last_valid_slot),
        holds_long(order.to_bytes(), 24, order.last_valid_unix_timestamp_in_seconds),
{
    order.lemma_byte_len();
    lemma_u64(order.trader_index);
    lemma_u64(order.num_base_lots.0);
    lemma_u64(order.last_valid_slot);
    lemma_u64(order.last_valid_unix_timestamp_in_seconds);
    let bytes = order.to_bytes();
    assert(bytes.subrange(0, 8) =~= u64_bytes(order.trader_index));
    assert(bytes.subrange(8, 16) =~= u64_bytes(order.num_base_lots.0));
    assert(bytes.subrange(16, 24) =~= u64_bytes(order.last_valid_slot));
    assert(bytes.subrange(24, 32) =~= u64_bytes(order.last_valid_unix_timestamp_in_seconds));
}

/// A seat is its free base, its locked base, its free quote, and its locked quote.
pub proof fn law_seats_are_laid_out(state: TraderState)
    ensures
        state.to_bytes().len() == 32,
        holds_long(state.to_bytes(), 0, state.base_lots_free.0),
        holds_long(state.to_bytes(), 8, state.base_lots_locked.0),
        holds_long(state.to_bytes(), 16, state.quote_lots_free.0),
        holds_long(state.to_bytes(), 24, state.quote_lots_locked.0),
{
    state.lemma_byte_len();
    lemma_u64(state.base_lots_free.0);
    lemma_u64(state.base_lots_locked.0);
    lemma_u64(state.quote_lots_free.0);
    lemma_u64(state.quote_lots_locked.0);
    let bytes = state.to_bytes();
    assert(bytes.subrange(0, 8) =~= u64_bytes(state.base_lots_free.0));
    assert(bytes.subrange(8, 16) =~= u64_bytes(state.base_lots_locked.0));
    assert(bytes.subrange(16, 24) =~= u64_bytes(state.quote_lots_free.0));
    assert(bytes.subrange(24, 32) =~= u64_bytes(state.quote_lots_locked.0));
}

/// A trader's key is its own thirty-two bytes.
pub proof fn law_keys_are_laid_out(key: TraderKey)
    ensures
        key.to_bytes().len() == 32,
        forall|i: int| 0 <= i < 32 ==> #[trigger] key.to_bytes()[i] == key.0[i],
{
    key.lemma_byte_len();
}

/// A geometry is its lots per unit, its tick size, and the atoms in a lot of each token.
pub proof fn law_geometries_are_laid_out(config: LotConfig)
    ensures
        config.to_bytes().len() == 32,
        holds_long(config.to_bytes(), 0, config.base_lots_per_base_unit),
        holds_long(config.to_bytes(), 8, config.tick_size_in_quote_lots_per_base_unit),
        holds_long(config.to_bytes(), 16, config.base_atoms_per_base_lot),
        holds_long(config.to_bytes(), 24, config.quote_atoms_per_quote_lot),
{
    config.lemma_byte_len();
    lemma_u64(config.base_lots_per_base_unit);
    lemma_u64(config.tick_size_in_quote_lots_per_base_unit);
    lemma_u64(config.base_atoms_per_base_lot);
    lemma_u64(config.quote_atoms_per_quote_lot);
    let bytes = config.to_bytes();
    assert(bytes.subrange(0, 8) =~= u64_bytes(config.base_lots_per_base_unit));
    assert(bytes.subrange(8, 16) =~= u64_bytes(config.tick_size_in_quote_lots_per_base_unit));
    assert(bytes.subrange(16, 24) =~= u64_bytes(config.base_atoms_per_base_lot));
    assert(bytes.subrange(24, 32) =~= u64_bytes(config.quote_atoms_per_quote_lot));
}

/// A market's header is its geometry, its fee rate, what was deposited of each token, and
/// the fees that were collected and that are unclaimed.
pub proof fn law_market_headers_are_laid_out(header: MarketHeader)
    ensures
        header.to_bytes().len() == 72,
        header.to_bytes().subrange(0, 32) == header.lot_config.to_bytes(),
        holds_long(header.to_bytes(), 32, header.fees.taker_fee_bps),
        holds_long(header.to_bytes(), 40, header.base_lots_deposited.0),
        holds_long(header.to_bytes(), 48, header.quote_lots_deposited.0),
        holds_long(header.to_bytes(), 56, header.collected_quote_lot_fees.0),
        holds_long(header.to_bytes(), 64, header.unclaimed_quote_lot_fees.0),
{
    header.lemma_byte_len();
    header.lot_config.lemma_byte_len();
    lemma_u64(header.fees.taker_fee_bps);
    lemma_u64(header.base_lots_deposited.0);
    lemma_u64(header.quote_lots_deposited.0);
    lemma_u64(header.collected_quote_lot_fees.0);
    lemma_u64(header.unclaimed_quote_lot_fees.0);
    let bytes = header.to_bytes();
    assert(bytes.subrange(0, 32) =~= header.lot_config.to_bytes());
    assert(bytes.subrange(32, 40) =~= u64_bytes(header.fees.taker_fee_bps));
    assert(bytes.subrange(40, 48) =~= u64_bytes(header.base_lots_deposited.0));
    assert(bytes.subrange(48, 56) =~= u64_bytes(header.quote_lots_deposited.0));
    assert(bytes.subrange(56, 64) =~= u64_bytes(header.collected_quote_lot_fees.0));
    assert(bytes.subrange(64, 72) =~= u64_bytes(header.unclaimed_quote_lot_fees.0));
}

/// A slot of an arena is its links, its color, its key, and its value.
pub proof fn law_slots_are_laid_out<K: Plain, V: Plain>(node: Node<K, V>)
    ensures
        node.to_bytes().len() == 16 + K::byte_len() + V::byte_len(),
        holds_short(node.to_bytes(), 0, node.left),
        holds_short(node.to_bytes(), 4, node.right),
        holds_short(node.to_bytes(), 8, node.parent),
        holds_short(node.to_bytes(), 12, node.color),
        node.to_bytes().subrange(16, 16 + K::byte_len() as int) == node.key.to_bytes(),
        node.to_bytes().skip(16 + K::byte_len() as int) == node.value.to_bytes(),
{
    node.lemma_byte_len();
    node.key.lemma_byte_len();
    node.value.lemma_byte_len();
    lemma_u32(node.left);
    lemma_u32(node.right);
    lemma_u32(node.parent);
    lemma_u32(node.color);
    let bytes = node.to_bytes();
    assert(bytes.subrange(0, 4) =~= u32_bytes(node.left));
    assert(bytes.subrange(4, 8) =~= u32_bytes(node.right));
    assert(bytes.subrange(8, 12) =~= u32_bytes(node.parent));
    assert(bytes.subrange(12, 16) =~= u32_bytes(node.color));
    assert(bytes.subrange(16, 16 + K::byte_len() as int) =~= node.key.to_bytes());
    assert(bytes.skip(16 + K::byte_len() as int) =~= node.value.to_bytes());
}

/// An account's preamble is four integers and six addresses.
pub proof fn law_preambles_are_laid_out(header: MarketAccountHeader)
    ensures
        header.to_bytes().len() == 224,
        holds_long(header.to_bytes(), 0, header.discriminator),
        holds_long(header.to_bytes(), 8, header.version),
        holds_long(header.to_bytes(), 16, header.size_class),
        holds_long(header.to_bytes(), 24, header.vault_signer_bump),
        header.to_bytes().subrange(32, 64) == header.base_mint@,
        header.to_bytes().subrange(64, 96) == header.quote_mint@,
        header.to_bytes().subrange(96, 128) == header.base_vault@,
        header.to_bytes().subrange(128, 160) == header.quote_vault@,
        header.to_bytes().subrange(160, 192) == header.authority@,
        header.to_bytes().subrange(192, 224) == header.fee_recipient@,
{
    header.lemma_byte_len();
    lemma_u64(header.discriminator);
    lemma_u64(header.version);
    lemma_u64(header.size_class);
    lemma_u64(header.vault_signer_bump);
    let bytes = header.to_bytes();
    assert(bytes.subrange(0, 8) =~= u64_bytes(header.discriminator));
    assert(bytes.subrange(8, 16) =~= u64_bytes(header.version));
    assert(bytes.subrange(16, 24) =~= u64_bytes(header.size_class));
    assert(bytes.subrange(24, 32) =~= u64_bytes(header.vault_signer_bump));
    assert(bytes.subrange(32, 64) =~= header.base_mint@);
    assert(bytes.subrange(64, 96) =~= header.quote_mint@);
    assert(bytes.subrange(96, 128) =~= header.base_vault@);
    assert(bytes.subrange(128, 160) =~= header.quote_vault@);
    assert(bytes.subrange(160, 192) =~= header.authority@);
    assert(bytes.subrange(192, 224) =~= header.fee_recipient@);
}

} // verus!
