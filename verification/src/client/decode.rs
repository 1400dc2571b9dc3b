//! Reading instructions back off the chain.
//!
//! The builders in [`instruction`](super::instruction) write; this reads. An indexer
//! needs the reverse direction to know what a transaction asked for, and it closes the
//! loop on the builders: anything they can construct, this recognises.

use vstd::prelude::*;
use vstd::string::StringExecFns;

use super::grammar::{
    read_lot_config, read_order_id, read_order_ids, read_packet, read_packets, read_side, read_u32,
    read_u64, read_u8, Unreadable,
};
use super::program::{Discriminant, SizeClass};
use super::reader::Reader;
use crate::engine::OrderPacket;
use crate::order::{FIFOOrderId, Side};
use crate::quantities::{BaseLots, LotConfig, QuoteLots, Ticks};
use crate::text::{decimal, digits};

verus! {

/// An instruction as it appeared on chain.
#[allow(inconsistent_fields)]
#[derive(Clone, Debug, PartialEq, Eq)]
pub enum ClobInstruction {
    /// Market creation.
    InitializeMarket {
        /// Book and seat capacities.
        size_class: SizeClass,
        /// Tick and lot geometry.
        lot_config: LotConfig,
        /// Taker fee in basis points.
        taker_fee_bps: u64,
    },
    /// Seat claim.
    ClaimSeat,
    /// Tokens in.
    Deposit {
        /// Base lots credited.
        base_lots: BaseLots,
        /// Quote lots credited.
        quote_lots: QuoteLots,
    },
    /// Tokens out.
    Withdraw {
        /// Base lots debited.
        base_lots: BaseLots,
        /// Quote lots debited.
        quote_lots: QuoteLots,
    },
    /// An order against funds already on the market.
    PlaceOrder {
        /// What was submitted.
        packet: OrderPacket,
        /// Whether an event receipt was requested.
        receipt: bool,
    },
    /// A cancel.
    CancelOrder {
        /// The order removed.
        order_id: FIFOOrderId,
    },
    /// A partial cancel.
    ReduceOrder {
        /// The order shrunk.
        order_id: FIFOOrderId,
        /// Size removed.
        base_lots: BaseLots,
    },
    /// A bounded cancel-all on one side.
    CancelAllOrders {
        /// Side cleared.
        side: Side,
        /// Maximum orders cancelled.
        limit: u32,
    },
    /// A fee sweep.
    CollectFees,
    /// An emitted event. Only ever appears as an inner instruction.
    LogEvent,
    /// Deposit, match and withdraw in one.
    Swap {
        /// Side the taker was on.
        side: Side,
        /// Limit price.
        price_in_ticks: Ticks,
        /// Size requested.
        num_base_lots: BaseLots,
        /// Minimum fill, below which the whole thing reverts.
        min_base_lots_to_fill: BaseLots,
        /// Maximum resting orders consumed.
        match_limit: u32,
        /// Whether an event receipt was requested.
        receipt: bool,
    },
    /// A permissionless seat eviction.
    EvictSeat,
    /// Cancels and placements in one instruction.
    BatchUpdate {
        /// Orders cancelled, in order.
        cancels: Vec<FIFOOrderId>,
        /// Orders submitted, in order.
        orders: Vec<OrderPacket>,
    },
}

/// An instruction with its lists as sequences.
pub enum InstructionView {
    /// An instruction without lists.
    Single(ClobInstruction),
    /// Cancels and placements.
    Batch {
        /// Orders cancelled, in order.
        cancels: Seq<FIFOOrderId>,
        /// Orders submitted, in order.
        orders: Seq<OrderPacket>,
    },
}

/// Why an instruction could not be decoded.
#[derive(Copy, Clone, Debug, PartialEq, Eq)]
pub enum InstructionDecodeError {
    /// The data was empty.
    Empty,
    /// The leading byte is not an instruction this program defines.
    UnknownDiscriminant(u8),
    /// The data ended before the instruction's fields did.
    Truncated,
    /// A field held a value outside its defined range.
    Malformed,
}

impl InstructionDecodeError {
    /// What went wrong, in words.
    pub open spec fn text(self) -> Seq<char> {
        match self {
            InstructionDecodeError::Empty => "empty instruction data"@,
            InstructionDecodeError::UnknownDiscriminant(tag) => {
                "unknown discriminant "@ + digits(tag as nat)
            },
            InstructionDecodeError::Truncated => "instruction data ended early"@,
            InstructionDecodeError::Malformed => "instruction field out of range"@,
        }
    }

    /// What went wrong, in words.
    pub fn message(&self) -> (message: String)
        ensures
            message@ == self.text(),
    {
        match self {
            InstructionDecodeError::Empty => String::from_str("empty instruction data"),
            InstructionDecodeError::UnknownDiscriminant(tag) => {
                let mut message = String::from_str("unknown discriminant ");
                message.append(decimal(*tag as u64).as_str());
                message
            },
            InstructionDecodeError::Truncated => String::from_str("instruction data ended early"),
            InstructionDecodeError::Malformed => {
                String::from_str("instruction field out of range")
            },
        }
    }
}

/// What attributing a batch means: `side` is the side of the first of these orders that may
/// take, and there is none only if all of them are post-only.
pub open spec fn is_first_taking_side(orders: Seq<OrderPacket>, side: Option<Side>) -> bool {
    match side {
        Some(side) => exists|i: int|
            {
                &&& 0 <= i < orders.len()
                &&& !(#[trigger] orders[i] is PostOnly)
                &&& match orders[i] {
                    OrderPacket::Limit { side: taken, .. } => taken == side,
                    OrderPacket::ImmediateOrCancel { side: taken, .. } => taken == side,
                    OrderPacket::PostOnly { .. } => false,
                }
                &&& forall|j: int| 0 <= j < i ==> (#[trigger] orders[j]) is PostOnly
            },
        None => forall|i: int| 0 <= i < orders.len() ==> (#[trigger] orders[i]) is PostOnly,
    }
}

/// A batch is attributed to the first order in it that may take: a limit order or an
/// immediate one. Only a batch of nothing but post-only orders is attributed to nobody.
pub proof fn law_batches_are_attributed(packets: Seq<OrderPacket>)
    ensures
        is_first_taking_side(packets, first_taker(packets)),
    decreases packets.len(),
{
    if packets.len() > 0 {
        let rest = packets.drop_first();
        law_batches_are_attributed(rest);
        if packets[0] is PostOnly {
            if let Some(side) = first_taker(rest) {
                let i = choose|i: int|
                    {
                        &&& 0 <= i < rest.len()
                        &&& !(#[trigger] rest[i] is PostOnly)
                        &&& match rest[i] {
                            OrderPacket::Limit { side: taken, .. } => taken == side,
                            OrderPacket::ImmediateOrCancel { side: taken, .. } => taken == side,
                            OrderPacket::PostOnly { .. } => false,
                        }
                        &&& forall|j: int| 0 <= j < i ==> (#[trigger] rest[j]) is PostOnly
                    };
                assert(packets[i + 1] == rest[i]);
                assert forall|j: int| 0 <= j < i + 1 implies (
                #[trigger] packets[j]) is PostOnly by {
                    if j > 0 {
                        assert(rest[j - 1] == packets[j]);
                    }
                }
            } else {
                assert forall|i: int| 0 <= i < packets.len() implies (
                #[trigger] packets[i]) is PostOnly by {
                    if i > 0 {
                        assert(rest[i - 1] == packets[i]);
                    }
                }
            }
        } else {
            assert(!(packets[0] is PostOnly));
        }
    }
}

/// One order alone in a batch is attributed as it would be by itself.
pub proof fn law_a_batch_of_one_is_its_order(packet: OrderPacket)
    ensures
        first_taker(seq![packet]) == (match packet {
            OrderPacket::Limit { side, .. } => Some(side),
            OrderPacket::ImmediateOrCancel { side, .. } => Some(side),
            OrderPacket::PostOnly { .. } => None,
        }),
{
    law_batches_are_attributed(seq![packet]);
    assert(seq![packet][0] == packet);
}

/// The first taker among some packets.
pub open spec fn first_taker(packets: Seq<OrderPacket>) -> Option<Side>
    decreases packets.len(),
{
    if packets.len() == 0 {
        None
    } else if packets[0] is PostOnly {
        first_taker(packets.drop_first())
    } else {
        Some(packets[0].order_side())
    }
}

impl ClobInstruction {
    /// The instruction with its lists as sequences.
    pub open spec fn view(self) -> InstructionView {
        match self {
            ClobInstruction::BatchUpdate { cancels, orders } => InstructionView::Batch {
                cancels: cancels@,
                orders: orders@,
            },
            other => InstructionView::Single(other),
        }
    }

    /// The side a taker was on, for the instructions that take liquidity.
    ///
    /// This is what tells an observer which half of the book any fills came from: a
    /// taker on the bid consumes asks.
    pub fn taker_side(&self) -> (side: Option<Side>)
        ensures
            side == match *self {
                ClobInstruction::PlaceOrder { packet, .. } => if packet is PostOnly {
                    None
                } else {
                    Some(packet.order_side())
                },
                ClobInstruction::Swap { side, .. } => Some(side),
                ClobInstruction::BatchUpdate { orders, .. } => first_taker(orders@),
                _ => None,
            },
            *self matches ClobInstruction::BatchUpdate { orders, .. } ==> is_first_taking_side(
                orders@,
                side,
            ),
            *self matches ClobInstruction::PlaceOrder { packet, .. } ==> is_first_taking_side(
                seq![packet],
                side,
            ),
    {
        proof {
            if let ClobInstruction::BatchUpdate { orders, .. } = self {
                law_batches_are_attributed(orders@);
            }
            if let ClobInstruction::PlaceOrder { packet, .. } = self {
                law_a_batch_of_one_is_its_order(*packet);
                law_batches_are_attributed(seq![*packet]);
            }
        }
        match self {
            ClobInstruction::PlaceOrder { packet, .. } => if packet.can_take() {
                Some(packet.side())
            } else {
                None
            },
            ClobInstruction::Swap { side, .. } => Some(*side),
            // A batch is a taker if any order in it is. Reporting the first such side is
            // enough for attribution: a batch crossing both sides at once would be a
            // maker trading against itself, which the engine rejects before this matters.
            ClobInstruction::BatchUpdate { orders, .. } => {
                let mut i: usize = 0;
                proof {
                    assert(orders@.skip(0) =~= orders@);
                }
                while i < orders.len()
                    invariant
                        i <= orders@.len(),
                        *self matches ClobInstruction::BatchUpdate { orders: o, .. } && o == *orders,
                        first_taker(orders@.skip(i as int)) == first_taker(orders@),
                        is_first_taking_side(orders@, first_taker(orders@)),
                    decreases orders@.len() - i,
                {
                    proof {
                        assert(orders@.skip(i as int).drop_first() =~= orders@.skip(i + 1));
                    }
                    if orders[i].can_take() {
                        return Some(orders[i].side());
                    }
                    i = i + 1;
                }
                None
            },
            _ => None,
        }
    }

    /// Whether this instruction can add liquidity to the book.
    pub fn can_post(&self) -> (may: bool)
        ensures
            may == match *self {
                ClobInstruction::PlaceOrder { packet, .. } => !(packet is ImmediateOrCancel),
                ClobInstruction::BatchUpdate { orders, .. } => exists|i: int|
                    0 <= i < orders@.len() && !(#[trigger] orders@[i] is ImmediateOrCancel),
                _ => false,
            },
    {
        match self {
            ClobInstruction::PlaceOrder { packet, .. } => packet.can_post(),
            ClobInstruction::BatchUpdate { orders, .. } => {
                let mut i: usize = 0;
                while i < orders.len()
                    invariant
                        i <= orders@.len(),
                        *self matches ClobInstruction::BatchUpdate { orders: o, .. } && o == *orders,
                        forall|j: int|
                            0 <= j < i ==> (#[trigger] orders@[j]) is ImmediateOrCancel,
                    decreases orders@.len() - i,
                {
                    if orders[i].can_post() {
                        return true;
                    }
                    i = i + 1;
                }
                false
            },
            _ => false,
        }
    }
}

// ---------------------------------------------------------------------------------
// What bytes mean
// ---------------------------------------------------------------------------------

/// What decoding gives.
pub type Decoded = Result<InstructionView, InstructionDecodeError>;

/// The error a field that cannot be read gives.
pub open spec fn refusal(why: Unreadable) -> InstructionDecodeError {
    match why {
        Unreadable::Early => InstructionDecodeError::Truncated,
        Unreadable::OutOfRange => InstructionDecodeError::Malformed,
    }
}

/// The instruction was read, or one of its fields was not.
pub open spec fn whole(instruction: Result<ClobInstruction, Unreadable>) -> Decoded {
    match instruction {
        Ok(instruction) => Ok(InstructionView::Single(instruction)),
        Err(why) => Err(refusal(why)),
    }
}

/// A creation's fields.
pub open spec fn initialize_market_in(bytes: Seq<u8>) -> Decoded {
    match read_u64(bytes) {
        Err(why) => Err(refusal(why)),
        Ok((code, rest)) => match SizeClass::coded(code) {
            None => Err(InstructionDecodeError::Malformed),
            Some(size_class) => match read_lot_config(rest) {
                Err(why) => Err(refusal(why)),
                Ok((lot_config, rest)) => match read_u64(rest) {
                    Err(why) => Err(refusal(why)),
                    Ok((taker_fee_bps, _)) => Ok(
                        InstructionView::Single(
                            ClobInstruction::InitializeMarket {
                                size_class,
                                lot_config,
                                taker_fee_bps,
                            },
                        ),
                    ),
                },
            },
        },
    }
}

/// Two amounts: base lots, then quote lots.
pub open spec fn amounts_in(bytes: Seq<u8>) -> Result<(BaseLots, QuoteLots), Unreadable> {
    match read_u64(bytes) {
        Err(why) => Err(why),
        Ok((base, rest)) => match read_u64(rest) {
            Err(why) => Err(why),
            Ok((quote, _)) => Ok((BaseLots(base), QuoteLots(quote))),
        },
    }
}

/// A placement's fields. Nothing but the receipt's bump follows a packet, so a trailing
/// byte means exactly that.
pub open spec fn place_order_in(bytes: Seq<u8>) -> Result<ClobInstruction, Unreadable> {
    match read_packet(bytes) {
        Err(why) => Err(why),
        Ok((packet, rest)) => Ok(
            ClobInstruction::PlaceOrder { packet, receipt: rest.len() > 0 },
        ),
    }
}

/// A reduction's fields.
pub open spec fn reduce_order_in(bytes: Seq<u8>) -> Result<ClobInstruction, Unreadable> {
    match read_order_id(bytes) {
        Err(why) => Err(why),
        Ok((order_id, rest)) => match read_u64(rest) {
            Err(why) => Err(why),
            Ok((lots, _)) => Ok(
                ClobInstruction::ReduceOrder { order_id, base_lots: BaseLots(lots) },
            ),
        },
    }
}

/// A cancel-all's fields.
pub open spec fn cancel_all_in(bytes: Seq<u8>) -> Result<ClobInstruction, Unreadable> {
    match read_side(bytes) {
        Err(why) => Err(why),
        Ok((side, rest)) => match read_u32(rest) {
            Err(why) => Err(why),
            Ok((limit, _)) => Ok(ClobInstruction::CancelAllOrders { side, limit }),
        },
    }
}

/// A swap's fields.
pub open spec fn swap_in(bytes: Seq<u8>) -> Result<ClobInstruction, Unreadable> {
    match read_side(bytes) {
        Err(why) => Err(why),
        Ok((side, rest)) => match read_u64(rest) {
            Err(why) => Err(why),
            Ok((price, rest)) => match read_u64(rest) {
                Err(why) => Err(why),
                Ok((size, rest)) => match read_u64(rest) {
                    Err(why) => Err(why),
                    Ok((min, rest)) => match read_u32(rest) {
                        Err(why) => Err(why),
                        Ok((match_limit, rest)) => Ok(
                            ClobInstruction::Swap {
                                side,
                                price_in_ticks: Ticks(price),
                                num_base_lots: BaseLots(size),
                                min_base_lots_to_fill: BaseLots(min),
                                match_limit,
                                receipt: rest.len() > 0,
                            },
                        ),
                    },
                },
            },
        },
    }
}

/// A batch's fields: two lists, each behind its length.
pub open spec fn batch_in(bytes: Seq<u8>) -> Decoded {
    match read_u8(bytes) {
        Err(why) => Err(refusal(why)),
        Ok((cancel_count, rest)) => match read_order_ids(rest, cancel_count as nat) {
            Err(why) => Err(refusal(why)),
            Ok((cancels, rest)) => match read_u8(rest) {
                Err(why) => Err(refusal(why)),
                Ok((order_count, rest)) => match read_packets(rest, order_count as nat) {
                    Err(why) => Err(refusal(why)),
                    Ok((orders, _)) => Ok(InstructionView::Batch { cancels, orders }),
                },
            },
        },
    }
}

/// What the bytes behind the leading byte mean.
pub open spec fn fields_in(discriminant: Discriminant, bytes: Seq<u8>) -> Decoded {
    match discriminant {
        Discriminant::InitializeMarket => initialize_market_in(bytes),
        Discriminant::ClaimSeat => whole(Ok(ClobInstruction::ClaimSeat)),
        Discriminant::Deposit => whole(
            match amounts_in(bytes) {
                Ok((base_lots, quote_lots)) => Ok(
                    ClobInstruction::Deposit { base_lots, quote_lots },
                ),
                Err(why) => Err(why),
            },
        ),
        Discriminant::Withdraw => whole(
            match amounts_in(bytes) {
                Ok((base_lots, quote_lots)) => Ok(
                    ClobInstruction::Withdraw { base_lots, quote_lots },
                ),
                Err(why) => Err(why),
            },
        ),
        Discriminant::PlaceOrder => whole(place_order_in(bytes)),
        Discriminant::CancelOrder => whole(
            match read_order_id(bytes) {
                Ok((order_id, _)) => Ok(ClobInstruction::CancelOrder { order_id }),
                Err(why) => Err(why),
            },
        ),
        Discriminant::ReduceOrder => whole(reduce_order_in(bytes)),
        Discriminant::CancelAllOrders => whole(cancel_all_in(bytes)),
        Discriminant::CollectFees => whole(Ok(ClobInstruction::CollectFees)),
        Discriminant::LogEvent => whole(Ok(ClobInstruction::LogEvent)),
        Discriminant::Swap => whole(swap_in(bytes)),
        Discriminant::EvictSeat => whole(Ok(ClobInstruction::EvictSeat)),
        Discriminant::BatchUpdate => batch_in(bytes),
    }
}

/// What an instruction's data means: its leading byte names it, and its fields follow.
/// What stands behind the fields is not looked at.
pub open spec fn decoded(data: Seq<u8>) -> Decoded {
    if data.len() == 0 {
        Err(InstructionDecodeError::Empty)
    } else if exists|d: Discriminant| d.tag() == data[0] {
        fields_in(choose|d: Discriminant| d.tag() == data[0], data.skip(1))
    } else {
        Err(InstructionDecodeError::UnknownDiscriminant(data[0]))
    }
}

/// Data that begins with an instruction's byte means that instruction.
pub proof fn lemma_decoded(discriminant: Discriminant, bytes: Seq<u8>)
    ensures
        decoded(seq![discriminant.tag()] + bytes) == fields_in(discriminant, bytes),
{
    let data = seq![discriminant.tag()] + bytes;
    assert(discriminant.tag() == data[0]);
    let chosen = choose|d: Discriminant| d.tag() == data[0];
    super::program::law_tags_are_distinct(chosen, discriminant);
    assert(data.skip(1) =~= bytes);
}

/// The leading byte of an instruction.
pub open spec fn tag_of(instruction: InstructionView) -> u8 {
    match instruction {
        InstructionView::Batch { .. } => Discriminant::BatchUpdate.tag(),
        InstructionView::Single(single) => match single {
            ClobInstruction::InitializeMarket { .. } => Discriminant::InitializeMarket.tag(),
            ClobInstruction::ClaimSeat => Discriminant::ClaimSeat.tag(),
            ClobInstruction::Deposit { .. } => Discriminant::Deposit.tag(),
            ClobInstruction::Withdraw { .. } => Discriminant::Withdraw.tag(),
            ClobInstruction::PlaceOrder { .. } => Discriminant::PlaceOrder.tag(),
            ClobInstruction::CancelOrder { .. } => Discriminant::CancelOrder.tag(),
            ClobInstruction::ReduceOrder { .. } => Discriminant::ReduceOrder.tag(),
            ClobInstruction::CancelAllOrders { .. } => Discriminant::CancelAllOrders.tag(),
            ClobInstruction::CollectFees => Discriminant::CollectFees.tag(),
            ClobInstruction::LogEvent => Discriminant::LogEvent.tag(),
            ClobInstruction::Swap { .. } => Discriminant::Swap.tag(),
            ClobInstruction::EvictSeat => Discriminant::EvictSeat.tag(),
            ClobInstruction::BatchUpdate { .. } => Discriminant::BatchUpdate.tag(),
        },
    }
}

/// The name of an instruction's fields, whatever they hold.
proof fn lemma_fields_keep_the_tag(discriminant: Discriminant, bytes: Seq<u8>)
    requires
        fields_in(discriminant, bytes) is Ok,
    ensures
        tag_of(fields_in(discriminant, bytes)->Ok_0) == discriminant.tag(),
{
    match discriminant {
        Discriminant::PlaceOrder => {
            let read = place_order_in(bytes);
            assert(read is Ok && read->Ok_0 is PlaceOrder);
        },
        Discriminant::ReduceOrder => {
            let read = reduce_order_in(bytes);
            assert(read is Ok && read->Ok_0 is ReduceOrder);
        },
        Discriminant::CancelAllOrders => {
            let read = cancel_all_in(bytes);
            assert(read is Ok && read->Ok_0 is CancelAllOrders);
        },
        Discriminant::Swap => {
            let read = swap_in(bytes);
            assert(read is Ok && read->Ok_0 is Swap);
        },
        _ => {},
    }
}

/// Anything that decodes reports the discriminant it was decoded from.
pub proof fn law_decoding_keeps_the_discriminant(data: Seq<u8>)
    requires
        decoded(data) is Ok,
    ensures
        data.len() > 0,
        tag_of(decoded(data)->Ok_0) == data[0],
{
    let chosen = choose|d: Discriminant| d.tag() == data[0];
    lemma_fields_keep_the_tag(chosen, data.skip(1));
}

// ---------------------------------------------------------------------------------
// Decoding
// ---------------------------------------------------------------------------------

/// A decoded instruction, or the error, as the specification has it.
pub open spec fn result_view(
    result: Result<ClobInstruction, InstructionDecodeError>,
) -> Decoded {
    match result {
        Ok(instruction) => Ok(instruction.view()),
        Err(error) => Err(error),
    }
}

/// The error a field that cannot be read gives.
fn refused(why: Unreadable) -> (error: InstructionDecodeError)
    ensures
        error == refusal(why),
{
    match why {
        Unreadable::Early => InstructionDecodeError::Truncated,
        Unreadable::OutOfRange => InstructionDecodeError::Malformed,
    }
}

/// Decodes one instruction's data.
///
/// # Errors
///
/// [`InstructionDecodeError`] if the data is empty, carries an unknown discriminant, ends
/// before its fields do, or holds a field outside its range.
pub fn decode(data: &[u8]) -> (result: Result<ClobInstruction, InstructionDecodeError>)
    ensures
        result_view(result) == decoded(data@),
{
    if data.len() == 0 {
        return Err(InstructionDecodeError::Empty);
    }
    let mut reader = Reader::new(data);
    let tag = data[0];
    let _ = reader.u8();
    let discriminant = match Discriminant::parse(tag) {
        Some(discriminant) => discriminant,
        None => {
            return Err(InstructionDecodeError::UnknownDiscriminant(tag));
        },
    };
    proof {
        assert(data@ =~= seq![tag] + data@.skip(1));
        lemma_decoded(discriminant, data@.skip(1));
    }
    match discriminant {
        Discriminant::InitializeMarket => decode_initialize_market(reader),
        Discriminant::ClaimSeat => Ok(ClobInstruction::ClaimSeat),
        Discriminant::Deposit => match decode_amounts(reader) {
            Ok((base_lots, quote_lots)) => Ok(
                ClobInstruction::Deposit { base_lots, quote_lots },
            ),
            Err(why) => Err(refused(why)),
        },
        Discriminant::Withdraw => match decode_amounts(reader) {
            Ok((base_lots, quote_lots)) => Ok(
                ClobInstruction::Withdraw { base_lots, quote_lots },
            ),
            Err(why) => Err(refused(why)),
        },
        Discriminant::PlaceOrder => match reader.order_packet() {
            Ok(packet) => Ok(
                ClobInstruction::PlaceOrder { packet, receipt: reader.optional_u8().is_some() },
            ),
            Err(why) => Err(refused(why)),
        },
        Discriminant::CancelOrder => match reader.order_id() {
            Ok(order_id) => Ok(ClobInstruction::CancelOrder { order_id }),
            Err(why) => Err(refused(why)),
        },
        Discriminant::ReduceOrder => match reader.order_id() {
            Ok(order_id) => match reader.base_lots() {
                Ok(base_lots) => Ok(ClobInstruction::ReduceOrder { order_id, base_lots }),
                Err(why) => Err(refused(why)),
            },
            Err(why) => Err(refused(why)),
        },
        Discriminant::CancelAllOrders => match reader.side() {
            Ok(side) => match reader.u32() {
                Ok(limit) => Ok(ClobInstruction::CancelAllOrders { side, limit }),
                Err(why) => Err(refused(why)),
            },
            Err(why) => Err(refused(why)),
        },
        Discriminant::CollectFees => Ok(ClobInstruction::CollectFees),
        Discriminant::LogEvent => Ok(ClobInstruction::LogEvent),
        Discriminant::Swap => match decode_swap(reader) {
            Ok(swap) => Ok(swap),
            Err(why) => Err(refused(why)),
        },
        Discriminant::EvictSeat => Ok(ClobInstruction::EvictSeat),
        Discriminant::BatchUpdate => decode_batch(reader),
    }
}

fn decode_initialize_market(reader: Reader<'_>) -> (result: Result<
    ClobInstruction,
    InstructionDecodeError,
>)
    requires
        reader.wf(),
    ensures
        result_view(result) == initialize_market_in(reader.rest()),
{
    let mut reader = reader;
    let code = match reader.u64() {
        Ok(code) => code,
        Err(why) => {
            return Err(refused(why));
        },
    };
    let size_class = match SizeClass::from_u64(code) {
        Some(size_class) => size_class,
        None => {
            return Err(InstructionDecodeError::Malformed);
        },
    };
    let lot_config = match reader.lot_config() {
        Ok(lot_config) => lot_config,
        Err(why) => {
            return Err(refused(why));
        },
    };
    match reader.u64() {
        Ok(taker_fee_bps) => Ok(
            ClobInstruction::InitializeMarket { size_class, lot_config, taker_fee_bps },
        ),
        Err(why) => Err(refused(why)),
    }
}

fn decode_amounts(reader: Reader<'_>) -> (amounts: Result<(BaseLots, QuoteLots), Unreadable>)
    requires
        reader.wf(),
    ensures
        amounts == amounts_in(reader.rest()),
{
    let mut reader = reader;
    match reader.base_lots() {
        Ok(base_lots) => match reader.quote_lots() {
            Ok(quote_lots) => Ok((base_lots, quote_lots)),
            Err(why) => Err(why),
        },
        Err(why) => Err(why),
    }
}

fn decode_swap(reader: Reader<'_>) -> (swap: Result<ClobInstruction, Unreadable>)
    requires
        reader.wf(),
    ensures
        swap == swap_in(reader.rest()),
{
    let mut reader = reader;
    let side = match reader.side() {
        Ok(side) => side,
        Err(why) => {
            return Err(why);
        },
    };
    let price = match reader.u64() {
        Ok(price) => price,
        Err(why) => {
            return Err(why);
        },
    };
    let num_base_lots = match reader.base_lots() {
        Ok(lots) => lots,
        Err(why) => {
            return Err(why);
        },
    };
    let min_base_lots_to_fill = match reader.base_lots() {
        Ok(lots) => lots,
        Err(why) => {
            return Err(why);
        },
    };
    let match_limit = match reader.u32() {
        Ok(limit) => limit,
        Err(why) => {
            return Err(why);
        },
    };
    let receipt = reader.optional_u8().is_some();
    Ok(
        ClobInstruction::Swap {
            side,
            price_in_ticks: Ticks(price),
            num_base_lots,
            min_base_lots_to_fill,
            match_limit,
            receipt,
        },
    )
}

fn decode_batch(reader: Reader<'_>) -> (result: Result<ClobInstruction, InstructionDecodeError>)
    requires
        reader.wf(),
    ensures
        result_view(result) == batch_in(reader.rest()),
{
    let mut reader = reader;
    let cancel_count = match reader.u8() {
        Ok(count) => count,
        Err(why) => {
            return Err(refused(why));
        },
    };
    let cancels = match reader.order_ids(cancel_count) {
        Ok(cancels) => cancels,
        Err(why) => {
            return Err(refused(why));
        },
    };
    let order_count = match reader.u8() {
        Ok(count) => count,
        Err(why) => {
            return Err(refused(why));
        },
    };
    match reader.order_packets(order_count) {
        Ok(orders) => Ok(ClobInstruction::BatchUpdate { cancels, orders }),
        Err(why) => Err(refused(why)),
    }
}

} // verus!
