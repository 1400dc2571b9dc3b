//! The grammar of instruction data: what each kind of field is, read from the front of a
//! run of bytes, and what it is written as.
//!
//! Every `read_*` function gives the field and what follows it, or why the bytes do not begin
//! with one. The laws say that what is written is what is read.

use vstd::prelude::*;

#[allow(unused_imports)]
use crate::bytes::{lemma_u32, lemma_u64};
use crate::bytes::{u32_bytes, u32_of, u64_bytes, u64_of};
use crate::engine::{OrderPacket, PostOnlyRejection, SelfTradeBehavior};
use crate::order::{FIFOOrderId, Side};
use crate::quantities::{BaseLots, LotConfig, Ticks};

verus! {

/// Why bytes do not begin with a field.
#[derive(Copy, Clone, Debug, PartialEq, Eq, Structural)]
pub enum Unreadable {
    /// The bytes end before the field does.
    Early,
    /// The field holds a value outside its defined range.
    OutOfRange,
}

/// A field and the bytes after it.
pub type Read<T> = Result<(T, Seq<u8>), Unreadable>;

/// One byte.
pub open spec fn read_u8(bytes: Seq<u8>) -> Read<u8> {
    if bytes.len() >= 1 {
        Ok((bytes[0], bytes.skip(1)))
    } else {
        Err(Unreadable::Early)
    }
}

/// Four bytes, little-endian.
pub open spec fn read_u32(bytes: Seq<u8>) -> Read<u32> {
    if bytes.len() >= 4 {
        Ok((u32_of(bytes.take(4)), bytes.skip(4)))
    } else {
        Err(Unreadable::Early)
    }
}

/// Eight bytes, little-endian.
pub open spec fn read_u64(bytes: Seq<u8>) -> Read<u64> {
    if bytes.len() >= 8 {
        Ok((u64_of(bytes.take(8)), bytes.skip(8)))
    } else {
        Err(Unreadable::Early)
    }
}

// ---------------------------------------------------------------------------------
// Tags
// ---------------------------------------------------------------------------------

/// The byte a side is written as.
pub open spec fn side_tag(side: Side) -> u8 {
    match side {
        Side::Bid => 0u8,
        Side::Ask => 1u8,
    }
}

/// The byte a self-trade policy is written as.
pub open spec fn self_trade_tag(behavior: SelfTradeBehavior) -> u8 {
    match behavior {
        SelfTradeBehavior::DecrementTake => 0u8,
        SelfTradeBehavior::CancelProvide => 1u8,
        SelfTradeBehavior::Abort => 2u8,
    }
}

/// The byte a post-only policy is written as.
pub open spec fn rejection_tag(rejection: PostOnlyRejection) -> u8 {
    match rejection {
        PostOnlyRejection::Reject => 0u8,
        PostOnlyRejection::Slide => 1u8,
    }
}

/// A side.
pub open spec fn read_side(bytes: Seq<u8>) -> Read<Side> {
    match read_u8(bytes) {
        Ok((0, rest)) => Ok((Side::Bid, rest)),
        Ok((1, rest)) => Ok((Side::Ask, rest)),
        Ok(_) => Err(Unreadable::OutOfRange),
        Err(why) => Err(why),
    }
}

/// A self-trade policy.
pub open spec fn read_self_trade(bytes: Seq<u8>) -> Read<SelfTradeBehavior> {
    match read_u8(bytes) {
        Ok((0, rest)) => Ok((SelfTradeBehavior::DecrementTake, rest)),
        Ok((1, rest)) => Ok((SelfTradeBehavior::CancelProvide, rest)),
        Ok((2, rest)) => Ok((SelfTradeBehavior::Abort, rest)),
        Ok(_) => Err(Unreadable::OutOfRange),
        Err(why) => Err(why),
    }
}

/// A post-only policy.
pub open spec fn read_rejection(bytes: Seq<u8>) -> Read<PostOnlyRejection> {
    match read_u8(bytes) {
        Ok((0, rest)) => Ok((PostOnlyRejection::Reject, rest)),
        Ok((1, rest)) => Ok((PostOnlyRejection::Slide, rest)),
        Ok(_) => Err(Unreadable::OutOfRange),
        Err(why) => Err(why),
    }
}

/// A flag: one byte, zero or one. The deployed program writes no other.
pub open spec fn read_flag(bytes: Seq<u8>) -> Read<bool> {
    match read_u8(bytes) {
        Ok((0, rest)) => Ok((false, rest)),
        Ok((1, rest)) => Ok((true, rest)),
        Ok(_) => Err(Unreadable::OutOfRange),
        Err(why) => Err(why),
    }
}

// ---------------------------------------------------------------------------------
// Order ids and lot geometry
// ---------------------------------------------------------------------------------

/// An order id as bytes: its price, then its stored sequence number.
pub open spec fn order_id_bytes(id: FIFOOrderId) -> Seq<u8> {
    u64_bytes(id.price_in_ticks.0) + u64_bytes(id.order_sequence_number)
}

/// An order id.
pub open spec fn read_order_id(bytes: Seq<u8>) -> Read<FIFOOrderId> {
    match read_u64(bytes) {
        Ok((price, rest)) => match read_u64(rest) {
            Ok((order_sequence_number, rest)) => Ok(
                (FIFOOrderId { price_in_ticks: Ticks(price), order_sequence_number }, rest),
            ),
            Err(why) => Err(why),
        },
        Err(why) => Err(why),
    }
}

/// Lot geometry as bytes.
pub open spec fn lot_config_bytes(config: LotConfig) -> Seq<u8> {
    u64_bytes(config.base_lots_per_base_unit) + (u64_bytes(
        config.tick_size_in_quote_lots_per_base_unit,
    ) + (u64_bytes(config.base_atoms_per_base_lot) + u64_bytes(config.quote_atoms_per_quote_lot)))
}

/// Lot geometry, not checked for sense.
pub open spec fn read_lot_config(bytes: Seq<u8>) -> Read<LotConfig> {
    match read_u64(bytes) {
        Ok((base_lots_per_base_unit, rest)) => match read_u64(rest) {
            Ok((tick_size_in_quote_lots_per_base_unit, rest)) => match read_u64(rest) {
                Ok((base_atoms_per_base_lot, rest)) => match read_u64(rest) {
                    Ok((quote_atoms_per_quote_lot, rest)) => Ok(
                        (
                            LotConfig {
                                base_lots_per_base_unit,
                                tick_size_in_quote_lots_per_base_unit,
                                base_atoms_per_base_lot,
                                quote_atoms_per_quote_lot,
                            },
                            rest,
                        ),
                    ),
                    Err(why) => Err(why),
                },
                Err(why) => Err(why),
            },
            Err(why) => Err(why),
        },
        Err(why) => Err(why),
    }
}

// ---------------------------------------------------------------------------------
// Order packets
// ---------------------------------------------------------------------------------

/// The part every packet begins with. An unpriced market order is a priced packet with
/// the price flag cleared.
pub struct PacketHead {
    /// Which kind of packet follows.
    pub kind: u8,
    /// Which side the order is on.
    pub side: Side,
    /// Whether the price means anything.
    pub has_price: bool,
    /// Limit price, or zero.
    pub price: Ticks,
    /// Size.
    pub size: BaseLots,
}

/// A packet's head.
pub open spec fn head_of(packet: OrderPacket) -> PacketHead {
    PacketHead {
        kind: match packet {
            OrderPacket::Limit { .. } => 0u8,
            OrderPacket::PostOnly { .. } => 1u8,
            OrderPacket::ImmediateOrCancel { .. } => 2u8,
        },
        side: packet.order_side(),
        has_price: packet.order_limit() is Some,
        price: match packet.order_limit() {
            Some(price) => price,
            None => Ticks(0),
        },
        size: packet.order_size(),
    }
}

/// A head as bytes.
pub open spec fn head_bytes(head: PacketHead) -> Seq<u8> {
    seq![head.kind] + (seq![side_tag(head.side)] + (seq![
        if head.has_price {
            1u8
        } else {
            0u8
        },
    ] + (u64_bytes(head.price.0) + u64_bytes(head.size.0))))
}

/// What follows a packet's head.
pub open spec fn tail_bytes(packet: OrderPacket) -> Seq<u8> {
    match packet {
        OrderPacket::Limit { self_trade_behavior, match_limit, .. } => seq![
            self_trade_tag(self_trade_behavior),
        ] + u32_bytes(match_limit),
        OrderPacket::PostOnly { rejection, .. } => seq![rejection_tag(rejection)],
        OrderPacket::ImmediateOrCancel {
            min_base_lots_to_fill,
            self_trade_behavior,
            match_limit,
            ..
        } => u64_bytes(min_base_lots_to_fill.0) + (seq![self_trade_tag(self_trade_behavior)]
            + u32_bytes(match_limit)),
    }
}

/// An order packet as bytes.
pub open spec fn packet_bytes(packet: OrderPacket) -> Seq<u8> {
    head_bytes(head_of(packet)) + tail_bytes(packet)
}

/// Which kind of packet follows: limit, post-only, or immediate.
pub open spec fn read_kind(bytes: Seq<u8>) -> Read<u8> {
    match read_u8(bytes) {
        Ok((kind, rest)) => if kind <= 2 {
            Ok((kind, rest))
        } else {
            Err(Unreadable::OutOfRange)
        },
        Err(why) => Err(why),
    }
}

/// A packet's head.
pub open spec fn read_head(bytes: Seq<u8>) -> Read<PacketHead> {
    match read_kind(bytes) {
        Ok((kind, rest)) => match read_side(rest) {
            Ok((side, rest)) => match read_flag(rest) {
                Ok((has_price, rest)) => match read_u64(rest) {
                    Ok((price, rest)) => match read_u64(rest) {
                        Ok((size, rest)) => Ok(
                            (
                                PacketHead {
                                    kind,
                                    side,
                                    has_price,
                                    price: Ticks(price),
                                    size: BaseLots(size),
                                },
                                rest,
                            ),
                        ),
                        Err(why) => Err(why),
                    },
                    Err(why) => Err(why),
                },
                Err(why) => Err(why),
            },
            Err(why) => Err(why),
        },
        Err(why) => Err(why),
    }
}

/// How matching is bounded: the self-trade policy and the match limit.
pub open spec fn read_terms(bytes: Seq<u8>) -> Read<(SelfTradeBehavior, u32)> {
    match read_self_trade(bytes) {
        Ok((behavior, rest)) => match read_u32(rest) {
            Ok((match_limit, rest)) => Ok(((behavior, match_limit), rest)),
            Err(why) => Err(why),
        },
        Err(why) => Err(why),
    }
}

/// What follows a head, as the packet the two make up. A limit or post-only order must
/// be priced.
pub open spec fn read_tail(head: PacketHead, bytes: Seq<u8>) -> Read<OrderPacket> {
    if head.kind == 0 && head.has_price {
        match read_terms(bytes) {
            Ok(((self_trade_behavior, match_limit), rest)) => Ok(
                (
                    OrderPacket::Limit {
                        side: head.side,
                        price_in_ticks: head.price,
                        num_base_lots: head.size,
                        self_trade_behavior,
                        match_limit,
                    },
                    rest,
                ),
            ),
            Err(why) => Err(why),
        }
    } else if head.kind == 1 && head.has_price {
        match read_rejection(bytes) {
            Ok((rejection, rest)) => Ok(
                (
                    OrderPacket::PostOnly {
                        side: head.side,
                        price_in_ticks: head.price,
                        num_base_lots: head.size,
                        rejection,
                    },
                    rest,
                ),
            ),
            Err(why) => Err(why),
        }
    } else if head.kind == 2 {
        match read_u64(bytes) {
            Ok((min, rest)) => match read_terms(rest) {
                Ok(((self_trade_behavior, match_limit), rest)) => Ok(
                    (
                        OrderPacket::ImmediateOrCancel {
                            side: head.side,
                            price_in_ticks: if head.has_price {
                                Some(head.price)
                            } else {
                                None
                            },
                            num_base_lots: head.size,
                            min_base_lots_to_fill: BaseLots(min),
                            self_trade_behavior,
                            match_limit,
                        },
                        rest,
                    ),
                ),
                Err(why) => Err(why),
            },
            Err(why) => Err(why),
        }
    } else {
        Err(Unreadable::OutOfRange)
    }
}

/// An order packet.
pub open spec fn read_packet(bytes: Seq<u8>) -> Read<OrderPacket> {
    match read_head(bytes) {
        Ok((head, rest)) => read_tail(head, rest),
        Err(why) => Err(why),
    }
}

// ---------------------------------------------------------------------------------
// Lists
// ---------------------------------------------------------------------------------

/// Order ids, one after the other.
pub open spec fn order_ids_bytes(ids: Seq<FIFOOrderId>) -> Seq<u8>
    decreases ids.len(),
{
    if ids.len() == 0 {
        Seq::empty()
    } else {
        order_id_bytes(ids[0]) + order_ids_bytes(ids.drop_first())
    }
}

/// `count` order ids.
pub open spec fn read_order_ids(bytes: Seq<u8>, count: nat) -> Read<Seq<FIFOOrderId>>
    decreases count,
{
    if count == 0 {
        Ok((Seq::empty(), bytes))
    } else {
        match read_order_id(bytes) {
            Ok((id, rest)) => match read_order_ids(rest, (count - 1) as nat) {
                Ok((ids, rest)) => Ok((seq![id] + ids, rest)),
                Err(why) => Err(why),
            },
            Err(why) => Err(why),
        }
    }
}

/// Order packets, one after the other.
pub open spec fn packets_bytes(packets: Seq<OrderPacket>) -> Seq<u8>
    decreases packets.len(),
{
    if packets.len() == 0 {
        Seq::empty()
    } else {
        packet_bytes(packets[0]) + packets_bytes(packets.drop_first())
    }
}

/// `count` order packets.
pub open spec fn read_packets(bytes: Seq<u8>, count: nat) -> Read<Seq<OrderPacket>>
    decreases count,
{
    if count == 0 {
        Ok((Seq::empty(), bytes))
    } else {
        match read_packet(bytes) {
            Ok((packet, rest)) => match read_packets(rest, (count - 1) as nat) {
                Ok((packets, rest)) => Ok((seq![packet] + packets, rest)),
                Err(why) => Err(why),
            },
            Err(why) => Err(why),
        }
    }
}

// ---------------------------------------------------------------------------------
// What is written is what is read
// ---------------------------------------------------------------------------------

/// A byte is read back, and what follows it is left.
pub proof fn lemma_read_u8(value: u8, rest: Seq<u8>)
    ensures
        read_u8(seq![value] + rest) == Ok::<_, Unreadable>((value, rest)),
{
    assert((seq![value] + rest).skip(1) =~= rest);
}

/// A `u32` is read back, and what follows it is left.
pub proof fn lemma_read_u32(value: u32, rest: Seq<u8>)
    ensures
        read_u32(u32_bytes(value) + rest) == Ok::<_, Unreadable>((value, rest)),
{
    lemma_u32(value);
    assert((u32_bytes(value) + rest).take(4) =~= u32_bytes(value));
    assert((u32_bytes(value) + rest).skip(4) =~= rest);
}

/// A `u64` is read back, and what follows it is left.
pub proof fn lemma_read_u64(value: u64, rest: Seq<u8>)
    ensures
        read_u64(u64_bytes(value) + rest) == Ok::<_, Unreadable>((value, rest)),
{
    lemma_u64(value);
    assert((u64_bytes(value) + rest).take(8) =~= u64_bytes(value));
    assert((u64_bytes(value) + rest).skip(8) =~= rest);
}

/// A side is read back, and what follows it is left.
pub proof fn lemma_read_side(side: Side, rest: Seq<u8>)
    ensures
        read_side(seq![side_tag(side)] + rest) == Ok::<_, Unreadable>((side, rest)),
{
    lemma_read_u8(side_tag(side), rest);
}

/// An order id is read back, and what follows it is left.
pub proof fn law_order_ids_are_read_back(id: FIFOOrderId, rest: Seq<u8>)
    ensures
        read_order_id(order_id_bytes(id) + rest) == Ok::<_, Unreadable>((id, rest)),
{
    let price = u64_bytes(id.price_in_ticks.0);
    let sequence = u64_bytes(id.order_sequence_number);
    assert(order_id_bytes(id) + rest =~= price + (sequence + rest));
    lemma_read_u64(id.price_in_ticks.0, sequence + rest);
    lemma_read_u64(id.order_sequence_number, rest);
}

/// Lot geometry is read back, and what follows it is left.
pub proof fn law_lot_configs_are_read_back(config: LotConfig, rest: Seq<u8>)
    ensures
        read_lot_config(lot_config_bytes(config) + rest) == Ok::<_, Unreadable>((config, rest)),
{
    let a = u64_bytes(config.base_lots_per_base_unit);
    let b = u64_bytes(config.tick_size_in_quote_lots_per_base_unit);
    let c = u64_bytes(config.base_atoms_per_base_lot);
    let d = u64_bytes(config.quote_atoms_per_quote_lot);
    assert(lot_config_bytes(config) + rest =~= a + (b + (c + (d + rest))));
    lemma_read_u64(config.base_lots_per_base_unit, b + (c + (d + rest)));
    lemma_read_u64(config.tick_size_in_quote_lots_per_base_unit, c + (d + rest));
    lemma_read_u64(config.base_atoms_per_base_lot, d + rest);
    lemma_read_u64(config.quote_atoms_per_quote_lot, rest);
}

/// A head is read back, and what follows it is left.
proof fn lemma_read_head(head: PacketHead, rest: Seq<u8>)
    requires
        head.kind <= 2,
    ensures
        read_head(head_bytes(head) + rest) == Ok::<_, Unreadable>((head, rest)),
{
    let flag: u8 = if head.has_price {
        1
    } else {
        0
    };
    let price = u64_bytes(head.price.0);
    let size = u64_bytes(head.size.0);
    let after_flag = price + (size + rest);
    let after_side = seq![flag] + after_flag;
    let after_kind = seq![side_tag(head.side)] + after_side;
    assert(head_bytes(head) + rest =~= seq![head.kind] + after_kind);
    lemma_read_u8(head.kind, after_kind);
    lemma_read_side(head.side, after_side);
    lemma_read_u8(flag, after_flag);
    lemma_read_u64(head.price.0, size + rest);
    lemma_read_u64(head.size.0, rest);
}

/// Matching terms are read back, and what follows them is left.
proof fn lemma_read_terms(behavior: SelfTradeBehavior, match_limit: u32, rest: Seq<u8>)
    ensures
        read_terms(seq![self_trade_tag(behavior)] + (u32_bytes(match_limit) + rest)) == Ok::<_, Unreadable>(
            ((behavior, match_limit), rest),
        ),
{
    lemma_read_u8(self_trade_tag(behavior), u32_bytes(match_limit) + rest);
    lemma_read_u32(match_limit, rest);
}

/// A tail is read back as the packet it came from, and what follows it is left.
proof fn lemma_read_tail(packet: OrderPacket, rest: Seq<u8>)
    ensures
        read_tail(head_of(packet), tail_bytes(packet) + rest) == Ok::<_, Unreadable>((packet, rest)),
{
    let tail = tail_bytes(packet);
    match packet {
        OrderPacket::Limit { self_trade_behavior, match_limit, .. } => {
            let tag = seq![self_trade_tag(self_trade_behavior)];
            assert(tail + rest =~= tag + (u32_bytes(match_limit) + rest));
            lemma_read_terms(self_trade_behavior, match_limit, rest);
        },
        OrderPacket::PostOnly { rejection, .. } => {
            lemma_read_u8(rejection_tag(rejection), rest);
        },
        OrderPacket::ImmediateOrCancel {
            min_base_lots_to_fill,
            self_trade_behavior,
            match_limit,
            ..
        } => {
            let tag = seq![self_trade_tag(self_trade_behavior)];
            let terms = tag + (u32_bytes(match_limit) + rest);
            assert(tail + rest =~= u64_bytes(min_base_lots_to_fill.0) + terms);
            lemma_read_u64(min_base_lots_to_fill.0, terms);
            lemma_read_terms(self_trade_behavior, match_limit, rest);
        },
    }
}

/// Every packet that can be written is read back as it was, whatever follows it.
pub proof fn law_packets_are_read_back(packet: OrderPacket, rest: Seq<u8>)
    ensures
        read_packet(packet_bytes(packet) + rest) == Ok::<_, Unreadable>((packet, rest)),
{
    let head = head_of(packet);
    let tail = tail_bytes(packet);
    assert(packet_bytes(packet) + rest =~= head_bytes(head) + (tail + rest));
    lemma_read_head(head, tail + rest);
    lemma_read_tail(packet, rest);
}

/// A list of order ids is read back, and what follows it is left.
pub proof fn law_order_id_lists_are_read_back(ids: Seq<FIFOOrderId>, rest: Seq<u8>)
    ensures
        read_order_ids(order_ids_bytes(ids) + rest, ids.len()) == Ok::<_, Unreadable>((ids, rest)),
    decreases ids.len(),
{
    if ids.len() == 0 {
        assert(order_ids_bytes(ids) + rest =~= rest);
        assert(ids =~= Seq::empty());
    } else {
        let tail = order_ids_bytes(ids.drop_first());
        assert(order_ids_bytes(ids) + rest =~= order_id_bytes(ids[0]) + (tail + rest));
        law_order_ids_are_read_back(ids[0], tail + rest);
        law_order_id_lists_are_read_back(ids.drop_first(), rest);
        assert(seq![ids[0]] + ids.drop_first() =~= ids);
    }
}

/// A list of packets is read back, and what follows it is left.
pub proof fn law_packet_lists_are_read_back(packets: Seq<OrderPacket>, rest: Seq<u8>)
    ensures
        read_packets(packets_bytes(packets) + rest, packets.len()) == Ok::<_, Unreadable>((packets, rest)),
    decreases packets.len(),
{
    if packets.len() == 0 {
        assert(packets_bytes(packets) + rest =~= rest);
        assert(packets =~= Seq::empty());
    } else {
        let tail = packets_bytes(packets.drop_first());
        assert(packets_bytes(packets) + rest =~= packet_bytes(packets[0]) + (tail + rest));
        law_packets_are_read_back(packets[0], tail + rest);
        law_packet_lists_are_read_back(packets.drop_first(), rest);
        assert(seq![packets[0]] + packets.drop_first() =~= packets);
    }
}

} // verus!
