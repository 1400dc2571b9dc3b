//! A cursor over instruction data.

use vstd::prelude::*;

use super::grammar::{
    read_flag, read_head, read_kind, read_lot_config, read_order_id, read_order_ids, read_packet,
    read_packets, read_rejection, read_self_trade, read_side, read_tail, read_terms, read_u32,
    read_u64, read_u8, PacketHead, Read, Unreadable,
};
use crate::bytes::{take_u32, take_u64};
use crate::engine::{OrderPacket, PostOnlyRejection, SelfTradeBehavior};
use crate::order::{FIFOOrderId, Side};
use crate::quantities::{BaseLots, LotConfig, QuoteLots, Ticks};

verus! {

/// Reads fields off the front of a run of bytes.
///
/// A failed read leaves the cursor somewhere inside the bytes; what was read before it is
/// not affected.
pub struct Reader<'a> {
    bytes: &'a [u8],
    at: usize,
}

/// What a read gives: the field, with the cursor behind it, or why there is none.
pub open spec fn gives<T>(read: Read<T>, field: Result<T, Unreadable>, rest: Seq<u8>) -> bool {
    match read {
        Ok((value, after)) => field == Ok::<T, Unreadable>(value) && rest == after,
        Err(why) => field == Err::<T, Unreadable>(why),
    }
}

impl<'a> Reader<'a> {
    /// The bytes not read yet.
    pub closed spec fn rest(self) -> Seq<u8> {
        self.bytes@.skip(self.at as int)
    }

    /// The cursor stands inside its bytes.
    pub closed spec fn wf(self) -> bool {
        self.at <= self.bytes@.len()
    }

    /// A reader over all of `bytes`.
    pub fn new(bytes: &'a [u8]) -> (reader: Self)
        ensures
            reader.wf(),
            reader.rest() == bytes@,
    {
        let reader = Reader { bytes, at: 0 };
        proof {
            assert(reader.rest() =~= bytes@);
        }
        reader
    }

    /// One byte.
    pub fn u8(&mut self) -> (field: Result<u8, Unreadable>)
        requires
            old(self).wf(),
        ensures
            final(self).wf(),
            gives(read_u8(old(self).rest()), field, final(self).rest()),
    {
        let len = self.bytes.len();
        if len - self.at < 1 {
            return Err(Unreadable::Early);
        }
        let value = self.bytes[self.at];
        self.at = self.at + 1;
        proof {
            assert(self.rest() =~= old(self).rest().skip(1));
        }
        Ok(value)
    }

    /// One byte, if there is one: the form an optional trailing field takes.
    pub fn optional_u8(&mut self) -> (field: Option<u8>)
        requires
            old(self).wf(),
        ensures
            final(self).wf(),
            match read_u8(old(self).rest()) {
                Ok((value, rest)) => field == Some(value) && final(self).rest() == rest,
                Err(_) => field is None,
            },
    {
        match self.u8() {
            Ok(value) => Some(value),
            Err(_) => None,
        }
    }

    /// Four bytes, little-endian.
    pub fn u32(&mut self) -> (field: Result<u32, Unreadable>)
        requires
            old(self).wf(),
        ensures
            final(self).wf(),
            gives(read_u32(old(self).rest()), field, final(self).rest()),
    {
        let len = self.bytes.len();
        if len - self.at < 4 {
            return Err(Unreadable::Early);
        }
        let value = take_u32(self.bytes, self.at);
        proof {
            assert(self.rest().take(4) =~= self.bytes@.subrange(self.at as int, self.at + 4));
        }
        self.at = self.at + 4;
        proof {
            assert(self.rest() =~= old(self).rest().skip(4));
        }
        Ok(value)
    }

    /// Eight bytes, little-endian.
    pub fn u64(&mut self) -> (field: Result<u64, Unreadable>)
        requires
            old(self).wf(),
        ensures
            final(self).wf(),
            gives(read_u64(old(self).rest()), field, final(self).rest()),
    {
        let len = self.bytes.len();
        if len - self.at < 8 {
            return Err(Unreadable::Early);
        }
        let value = take_u64(self.bytes, self.at);
        proof {
            assert(self.rest().take(8) =~= self.bytes@.subrange(self.at as int, self.at + 8));
        }
        self.at = self.at + 8;
        proof {
            assert(self.rest() =~= old(self).rest().skip(8));
        }
        Ok(value)
    }

    /// A base size.
    pub fn base_lots(&mut self) -> (field: Result<BaseLots, Unreadable>)
        requires
            old(self).wf(),
        ensures
            final(self).wf(),
            match read_u64(old(self).rest()) {
                Ok((value, rest)) => field == Ok::<_, Unreadable>(BaseLots(value)) && final(self).rest() == rest,
                Err(why) => field is Err && field->Err_0 == why,
            },
    {
        match self.u64() {
            Ok(value) => Ok(BaseLots(value)),
            Err(why) => Err(why),
        }
    }

    /// A quote amount.
    pub fn quote_lots(&mut self) -> (field: Result<QuoteLots, Unreadable>)
        requires
            old(self).wf(),
        ensures
            final(self).wf(),
            match read_u64(old(self).rest()) {
                Ok((value, rest)) => {
                    field == Ok::<_, Unreadable>(QuoteLots(value)) && final(self).rest() == rest
                },
                Err(why) => field is Err && field->Err_0 == why,
            },
    {
        match self.u64() {
            Ok(value) => Ok(QuoteLots(value)),
            Err(why) => Err(why),
        }
    }

    /// A side.
    pub fn side(&mut self) -> (field: Result<Side, Unreadable>)
        requires
            old(self).wf(),
        ensures
            final(self).wf(),
            gives(read_side(old(self).rest()), field, final(self).rest()),
    {
        match self.u8() {
            Ok(0) => Ok(Side::Bid),
            Ok(1) => Ok(Side::Ask),
            Ok(_) => Err(Unreadable::OutOfRange),
            Err(why) => Err(why),
        }
    }

    fn self_trade(&mut self) -> (field: Result<SelfTradeBehavior, Unreadable>)
        requires
            old(self).wf(),
        ensures
            final(self).wf(),
            gives(read_self_trade(old(self).rest()), field, final(self).rest()),
    {
        match self.u8() {
            Ok(0) => Ok(SelfTradeBehavior::DecrementTake),
            Ok(1) => Ok(SelfTradeBehavior::CancelProvide),
            Ok(2) => Ok(SelfTradeBehavior::Abort),
            Ok(_) => Err(Unreadable::OutOfRange),
            Err(why) => Err(why),
        }
    }

    fn rejection(&mut self) -> (field: Result<PostOnlyRejection, Unreadable>)
        requires
            old(self).wf(),
        ensures
            final(self).wf(),
            gives(read_rejection(old(self).rest()), field, final(self).rest()),
    {
        match self.u8() {
            Ok(0) => Ok(PostOnlyRejection::Reject),
            Ok(1) => Ok(PostOnlyRejection::Slide),
            Ok(_) => Err(Unreadable::OutOfRange),
            Err(why) => Err(why),
        }
    }

    fn flag(&mut self) -> (field: Result<bool, Unreadable>)
        requires
            old(self).wf(),
        ensures
            final(self).wf(),
            gives(read_flag(old(self).rest()), field, final(self).rest()),
    {
        match self.u8() {
            Ok(0) => Ok(false),
            Ok(1) => Ok(true),
            Ok(_) => Err(Unreadable::OutOfRange),
            Err(why) => Err(why),
        }
    }

    /// An order id.
    pub fn order_id(&mut self) -> (field: Result<FIFOOrderId, Unreadable>)
        requires
            old(self).wf(),
        ensures
            final(self).wf(),
            gives(read_order_id(old(self).rest()), field, final(self).rest()),
    {
        let price = match self.u64() {
            Ok(price) => price,
            Err(why) => {
                return Err(why);
            },
        };
        match self.u64() {
            Ok(order_sequence_number) => Ok(
                FIFOOrderId { price_in_ticks: Ticks(price), order_sequence_number },
            ),
            Err(why) => Err(why),
        }
    }

    /// Lot geometry, not checked for sense.
    pub fn lot_config(&mut self) -> (field: Result<LotConfig, Unreadable>)
        requires
            old(self).wf(),
        ensures
            final(self).wf(),
            gives(read_lot_config(old(self).rest()), field, final(self).rest()),
    {
        let base_lots_per_base_unit = match self.u64() {
            Ok(value) => value,
            Err(why) => {
                return Err(why);
            },
        };
        let tick_size_in_quote_lots_per_base_unit = match self.u64() {
            Ok(value) => value,
            Err(why) => {
                return Err(why);
            },
        };
        let base_atoms_per_base_lot = match self.u64() {
            Ok(value) => value,
            Err(why) => {
                return Err(why);
            },
        };
        match self.u64() {
            Ok(quote_atoms_per_quote_lot) => Ok(
                LotConfig {
                    base_lots_per_base_unit,
                    tick_size_in_quote_lots_per_base_unit,
                    base_atoms_per_base_lot,
                    quote_atoms_per_quote_lot,
                },
            ),
            Err(why) => Err(why),
        }
    }

    fn kind(&mut self) -> (field: Result<u8, Unreadable>)
        requires
            old(self).wf(),
        ensures
            final(self).wf(),
            gives(read_kind(old(self).rest()), field, final(self).rest()),
    {
        match self.u8() {
            Ok(kind) => if kind <= 2 {
                Ok(kind)
            } else {
                Err(Unreadable::OutOfRange)
            },
            Err(why) => Err(why),
        }
    }

    fn packet_head(&mut self) -> (field: Result<PacketHead, Unreadable>)
        requires
            old(self).wf(),
        ensures
            final(self).wf(),
            gives(read_head(old(self).rest()), field, final(self).rest()),
    {
        let kind = match self.kind() {
            Ok(kind) => kind,
            Err(why) => {
                return Err(why);
            },
        };
        let side = match self.side() {
            Ok(side) => side,
            Err(why) => {
                return Err(why);
            },
        };
        let has_price = match self.flag() {
            Ok(has_price) => has_price,
            Err(why) => {
                return Err(why);
            },
        };
        let price = match self.u64() {
            Ok(price) => price,
            Err(why) => {
                return Err(why);
            },
        };
        match self.u64() {
            Ok(size) => Ok(
                PacketHead { kind, side, has_price, price: Ticks(price), size: BaseLots(size) },
            ),
            Err(why) => Err(why),
        }
    }

    fn terms(&mut self) -> (field: Result<(SelfTradeBehavior, u32), Unreadable>)
        requires
            old(self).wf(),
        ensures
            final(self).wf(),
            gives(read_terms(old(self).rest()), field, final(self).rest()),
    {
        let behavior = match self.self_trade() {
            Ok(behavior) => behavior,
            Err(why) => {
                return Err(why);
            },
        };
        match self.u32() {
            Ok(match_limit) => Ok((behavior, match_limit)),
            Err(why) => Err(why),
        }
    }

    fn packet_tail(&mut self, head: PacketHead) -> (field: Result<OrderPacket, Unreadable>)
        requires
            old(self).wf(),
        ensures
            final(self).wf(),
            gives(read_tail(head, old(self).rest()), field, final(self).rest()),
    {
        if head.kind == 0 && head.has_price {
            match self.terms() {
                Ok((self_trade_behavior, match_limit)) => Ok(
                    OrderPacket::Limit {
                        side: head.side,
                        price_in_ticks: head.price,
                        num_base_lots: head.size,
                        self_trade_behavior,
                        match_limit,
                    },
                ),
                Err(why) => Err(why),
            }
        } else if head.kind == 1 && head.has_price {
            match self.rejection() {
                Ok(rejection) => Ok(
                    OrderPacket::PostOnly {
                        side: head.side,
                        price_in_ticks: head.price,
                        num_base_lots: head.size,
                        rejection,
                    },
                ),
                Err(why) => Err(why),
            }
        } else if head.kind == 2 {
            let min = match self.u64() {
                Ok(min) => min,
                Err(why) => {
                    return Err(why);
                },
            };
            match self.terms() {
                Ok((self_trade_behavior, match_limit)) => Ok(
                    OrderPacket::ImmediateOrCancel {
                        side: head.side,
                        price_in_ticks: if head.has_price {
                            Some(head.price)
                        } else {
                            None
                        },
                        num_base_lots: head.size,
                        min_base_lots_to_fill: BaseLots(min),
                        self_trade_behavior,
                        match_limit,
                    },
                ),
                Err(why) => Err(why),
            }
        } else {
            Err(Unreadable::OutOfRange)
        }
    }

    /// An order packet.
    pub fn order_packet(&mut self) -> (field: Result<OrderPacket, Unreadable>)
        requires
            old(self).wf(),
        ensures
            final(self).wf(),
            gives(read_packet(old(self).rest()), field, final(self).rest()),
    {
        match self.packet_head() {
            Ok(head) => self.packet_tail(head),
            Err(why) => Err(why),
        }
    }

    /// `count` order ids.
    pub fn order_ids(&mut self, count: u8) -> (field: Result<Vec<FIFOOrderId>, Unreadable>)
        requires
            old(self).wf(),
        ensures
            final(self).wf(),
            match read_order_ids(old(self).rest(), count as nat) {
                Ok((ids, rest)) => {
                    &&& field is Ok
                    &&& field->Ok_0@ == ids
                    &&& final(self).rest() == rest
                },
                Err(why) => field is Err && field->Err_0 == why,
            },
    {
        let ghost start = self.rest();
        let mut ids: Vec<FIFOOrderId> = Vec::with_capacity(count as usize);
        let mut i: u8 = 0;
        while i < count
            invariant
                i <= count,
                start == old(self).rest(),
                self.wf(),
                match read_order_ids(self.rest(), (count - i) as nat) {
                    Ok((more, rest)) => read_order_ids(start, count as nat) == Ok::<_, Unreadable>(
                        (ids@ + more, rest),
                    ),
                    Err(why) => read_order_ids(start, count as nat) == Err::<(Seq<FIFOOrderId>, Seq<u8>), Unreadable>(why),
                },
            decreases count - i,
        {
            let ghost before = ids@;
            match self.order_id() {
                Ok(id) => {
                    ids.push(id);
                    i = i + 1;
                    proof {
                        match read_order_ids(self.rest(), (count - i) as nat) {
                            Ok((more, rest)) => {
                                assert(ids@ + more =~= before + (seq![id] + more));
                            },
                            Err(_) => {},
                        }
                    }
                },
                Err(why) => {
                    return Err(why);
                },
            }
        }
        proof {
            assert(ids@ + Seq::<FIFOOrderId>::empty() =~= ids@);
        }
        Ok(ids)
    }

    /// `count` order packets.
    pub fn order_packets(&mut self, count: u8) -> (field: Result<Vec<OrderPacket>, Unreadable>)
        requires
            old(self).wf(),
        ensures
            final(self).wf(),
            match read_packets(old(self).rest(), count as nat) {
                Ok((packets, rest)) => {
                    &&& field is Ok
                    &&& field->Ok_0@ == packets
                    &&& final(self).rest() == rest
                },
                Err(why) => field is Err && field->Err_0 == why,
            },
    {
        let ghost start = self.rest();
        let mut packets: Vec<OrderPacket> = Vec::with_capacity(count as usize);
        let mut i: u8 = 0;
        while i < count
            invariant
                i <= count,
                start == old(self).rest(),
                self.wf(),
                match read_packets(self.rest(), (count - i) as nat) {
                    Ok((more, rest)) => read_packets(start, count as nat) == Ok::<_, Unreadable>(
                        (packets@ + more, rest),
                    ),
                    Err(why) => read_packets(start, count as nat) == Err::<(Seq<OrderPacket>, Seq<u8>), Unreadable>(why),
                },
            decreases count - i,
        {
            let ghost before = packets@;
            match self.order_packet() {
                Ok(packet) => {
                    packets.push(packet);
                    i = i + 1;
                    proof {
                        match read_packets(self.rest(), (count - i) as nat) {
                            Ok((more, rest)) => {
                                assert(packets@ + more =~= before + (seq![packet] + more));
                            },
                            Err(_) => {},
                        }
                    }
                },
                Err(why) => {
                    return Err(why);
                },
            }
        }
        proof {
            assert(packets@ + Seq::<OrderPacket>::empty() =~= packets@);
        }
        Ok(packets)
    }
}

} // verus!
