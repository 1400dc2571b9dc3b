//! Decoding trade events out of a transaction.
//!
//! Events arrive as *inner instruction data*, not as logs. An indexer walking a
//! transaction looks at each inner instruction addressed to this program, checks the
//! leading [`Discriminant::LogEvent`] byte, and hands the rest here.
//!
//! The layout is fixed little-endian and versioned. A decoder that does not recognise
//! the version must stop rather than guess, which is why [`decode`] rejects instead of
//! reading what it can.

use vstd::prelude::*;
use vstd::slice::slice_subrange;
use vstd::string::StringExecFns;

use super::program::{Discriminant, ProgramConstants};
#[allow(unused_imports)]
use crate::bytes::{lemma_u32, lemma_u64};
use crate::bytes::{take_u32, take_u64, u32_bytes, u32_of, u64_bytes, u64_of};
use crate::engine::MatchStop;
use crate::order::FIFOOrderId;
use crate::quantities::{BaseLots, QuoteLots, Ticks};
use crate::text::{decimal, digits};

verus! {

/// Bytes in the fixed part of the payload.
pub const SUMMARY_LEN: usize = 64;

/// Bytes per serialised fill.
pub const FILL_LEN: usize = 48;

/// Why an event payload could not be decoded.
#[allow(inconsistent_fields)]
#[derive(Copy, Clone, Debug, PartialEq, Eq)]
pub enum EventError {
    /// The data did not begin with the `LogEvent` discriminant.
    NotAnEvent,
    /// The payload is shorter than the fixed summary.
    TooShort,
    /// Written by a program version this decoder does not understand.
    UnknownVersion(u8),
    /// The event kind byte is not one this decoder knows.
    UnknownKind(u8),
    /// The stop code is not a known [`MatchStop`].
    UnknownStop(u8),
    /// The declared fill count does not fit in the remaining bytes.
    FillCountMismatch {
        /// Fill count the event claims to carry.
        declared: u32,
        /// Fill records the payload has room for.
        available: usize,
    },
}

impl EventError {
    /// What went wrong, in words.
    pub open spec fn text(self) -> Seq<char> {
        match self {
            EventError::NotAnEvent => "not a LogEvent instruction"@,
            EventError::TooShort => "payload shorter than the event summary"@,
            EventError::UnknownVersion(version) => {
                "unknown event version "@ + digits(version as nat)
            },
            EventError::UnknownKind(kind) => "unknown event kind "@ + digits(kind as nat),
            EventError::UnknownStop(stop) => "unknown match stop code "@ + digits(stop as nat),
            EventError::FillCountMismatch { declared, available } => "event declares "@ + digits(
                declared as nat,
            ) + " fills but carries "@ + digits(available as nat),
        }
    }

    /// What went wrong, in words.
    pub fn message(&self) -> (message: String)
        ensures
            message@ == self.text(),
    {
        match self {
            EventError::NotAnEvent => String::from_str("not a LogEvent instruction"),
            EventError::TooShort => String::from_str("payload shorter than the event summary"),
            EventError::UnknownVersion(version) => {
                let mut message = String::from_str("unknown event version ");
                message.append(decimal(*version as u64).as_str());
                message
            },
            EventError::UnknownKind(kind) => {
                let mut message = String::from_str("unknown event kind ");
                message.append(decimal(*kind as u64).as_str());
                message
            },
            EventError::UnknownStop(stop) => {
                let mut message = String::from_str("unknown match stop code ");
                message.append(decimal(*stop as u64).as_str());
                message
            },
            EventError::FillCountMismatch { declared, available } => {
                let mut message = String::from_str("event declares ");
                message.append(decimal(*declared as u64).as_str());
                message.append(" fills but carries ");
                message.append(decimal(*available as u64).as_str());
                message
            },
        }
    }
}

/// One maker order consumed.
#[derive(Copy, Clone, Debug, PartialEq, Eq)]
pub struct FillRecord {
    /// Seat that owned the resting order.
    pub maker_seat: u32,
    /// Size traded.
    pub base_lots_filled: BaseLots,
    /// The resting order that was hit.
    pub maker_order_id: FIFOOrderId,
    /// Execution price. Always the maker's price.
    pub price_in_ticks: Ticks,
    /// Gross quote value.
    pub quote_lots_filled: QuoteLots,
    /// Fee charged to the taker on this fill.
    pub fee_in_quote_lots: QuoteLots,
    /// Size still resting on the maker order; zero if it was consumed.
    pub maker_base_lots_remaining: BaseLots,
}

/// A decoded order-placed event.
#[derive(Clone, Debug, PartialEq, Eq)]
pub struct OrderPlaced {
    /// Seat that submitted the order.
    pub taker_seat: u32,
    /// Id of the resting remainder, if any part of the order posted.
    pub order_id: Option<FIFOOrderId>,
    /// Total size taken.
    pub base_lots_filled: BaseLots,
    /// Total gross quote value taken.
    pub quote_lots_filled: QuoteLots,
    /// Total fee charged.
    pub fee_in_quote_lots: QuoteLots,
    /// Size left resting.
    pub base_lots_posted: BaseLots,
    /// Why matching ended.
    pub stop: MatchStop,
    /// How many fills occurred, including any the event could not carry.
    pub fills_seen: u32,
    /// The fills the event does carry.
    ///
    /// Shorter than `fills_seen` when [`OrderPlaced::truncated`] is set. The aggregate
    /// totals above stay exact regardless, so a consumer that needs the missing tail
    /// knows to reconstruct it from account diffs rather than silently recording a
    /// short trade.
    pub fills: Vec<FillRecord>,
}

/// An event with its fills as a sequence.
#[verifier::ext_equal]
pub struct EventView {
    /// Seat that submitted the order.
    pub taker_seat: u32,
    /// Id of the resting remainder, if any part of the order posted.
    pub order_id: Option<FIFOOrderId>,
    /// Total size taken.
    pub base_lots_filled: BaseLots,
    /// Total gross quote value taken.
    pub quote_lots_filled: QuoteLots,
    /// Total fee charged.
    pub fee_in_quote_lots: QuoteLots,
    /// Size left resting.
    pub base_lots_posted: BaseLots,
    /// Why matching ended.
    pub stop: MatchStop,
    /// How many fills occurred.
    pub fills_seen: u32,
    /// The fills the event carries.
    pub fills: Seq<FillRecord>,
}

impl OrderPlaced {
    /// The event with its fills as a sequence.
    pub open spec fn view(self) -> EventView {
        EventView {
            taker_seat: self.taker_seat,
            order_id: self.order_id,
            base_lots_filled: self.base_lots_filled,
            quote_lots_filled: self.quote_lots_filled,
            fee_in_quote_lots: self.fee_in_quote_lots,
            base_lots_posted: self.base_lots_posted,
            stop: self.stop,
            fills_seen: self.fills_seen,
            fills: self.fills@,
        }
    }

    /// Whether the per-fill detail is incomplete.
    pub fn truncated(&self) -> (truncated: bool)
        ensures
            truncated == (self.fills_seen > self.fills@.len()),
    {
        self.fills_seen as usize > self.fills.len()
    }
}

// ---------------------------------------------------------------------------------
// What bytes mean
// ---------------------------------------------------------------------------------

/// The byte a stop reason is written as.
pub open spec fn stop_tag(stop: MatchStop) -> u8 {
    match stop {
        MatchStop::FullyFilled => 0u8,
        MatchStop::PriceLimit => 1u8,
        MatchStop::MatchLimit => 2u8,
        MatchStop::BookEmpty => 3u8,
        MatchStop::InsufficientFunds => 4u8,
        MatchStop::DidNotCross => 5u8,
    }
}

/// The stop reason written as this byte.
pub open spec fn stop_in(tag: u8) -> Option<MatchStop> {
    if tag == 0 {
        Some(MatchStop::FullyFilled)
    } else if tag == 1 {
        Some(MatchStop::PriceLimit)
    } else if tag == 2 {
        Some(MatchStop::MatchLimit)
    } else if tag == 3 {
        Some(MatchStop::BookEmpty)
    } else if tag == 4 {
        Some(MatchStop::InsufficientFunds)
    } else if tag == 5 {
        Some(MatchStop::DidNotCross)
    } else {
        None
    }
}

/// The `u32` at an offset.
pub open spec fn word32(payload: Seq<u8>, offset: int) -> u32 {
    u32_of(payload.subrange(offset, offset + 4))
}

/// The `u64` at an offset.
pub open spec fn word64(payload: Seq<u8>, offset: int) -> u64 {
    u64_of(payload.subrange(offset, offset + 8))
}

/// The fill record at an offset.
pub open spec fn fill_at(payload: Seq<u8>, offset: int) -> FillRecord {
    let price = Ticks(word64(payload, offset + 8));
    FillRecord {
        maker_seat: word32(payload, offset),
        base_lots_filled: BaseLots(word32(payload, offset + 4) as u64),
        maker_order_id: FIFOOrderId {
            price_in_ticks: price,
            order_sequence_number: word64(payload, offset + 16),
        },
        price_in_ticks: price,
        quote_lots_filled: QuoteLots(word64(payload, offset + 24)),
        fee_in_quote_lots: QuoteLots(word64(payload, offset + 32)),
        maker_base_lots_remaining: BaseLots(word64(payload, offset + 40)),
    }
}

/// How many fill records a payload has room for.
pub open spec fn room_for_fills(payload: Seq<u8>) -> int {
    (payload.len() - SUMMARY_LEN) / (FILL_LEN as int)
}

/// The event a payload describes, given its stop reason.
pub open spec fn event_in(payload: Seq<u8>, stop: MatchStop) -> EventView {
    let posted = word64(payload, 48);
    EventView {
        taker_seat: word32(payload, 4),
        // Nothing posted means no id; the posted size is the flag, since a zero
        // sequence number is a perfectly real order id.
        order_id: if posted == 0 {
            None
        } else {
            Some(
                FIFOOrderId {
                    price_in_ticks: Ticks(word64(payload, 8)),
                    order_sequence_number: word64(payload, 16),
                },
            )
        },
        base_lots_filled: BaseLots(word64(payload, 24)),
        quote_lots_filled: QuoteLots(word64(payload, 32)),
        fee_in_quote_lots: QuoteLots(word64(payload, 40)),
        base_lots_posted: BaseLots(posted),
        stop,
        fills_seen: word32(payload, 56),
        fills: Seq::new(
            word32(payload, 60) as nat,
            |i: int| fill_at(payload, SUMMARY_LEN + i * FILL_LEN),
        ),
    }
}

/// What an inner instruction's data means: a discriminant, the log authority's bump, and
/// the payload.
pub open spec fn decoded_event(constants: ProgramConstants, data: Seq<u8>) -> Result<
    EventView,
    EventError,
> {
    let payload = data.skip(2);
    if data.len() == 0 || data[0] != Discriminant::LogEvent.tag() {
        Err(EventError::NotAnEvent)
    } else if data.len() < 2 + SUMMARY_LEN {
        Err(EventError::TooShort)
    } else if payload[0] != constants.event_version {
        Err(EventError::UnknownVersion(payload[0]))
    } else if payload[1] != constants.event_order_placed {
        Err(EventError::UnknownKind(payload[1]))
    } else if stop_in(payload[2]) is None {
        Err(EventError::UnknownStop(payload[2]))
    } else if word32(payload, 60) > room_for_fills(payload) {
        Err(
            EventError::FillCountMismatch {
                declared: word32(payload, 60),
                available: room_for_fills(payload) as usize,
            },
        )
    } else {
        Ok(event_in(payload, stop_in(payload[2])->Some_0))
    }
}

// ---------------------------------------------------------------------------------
// Decoding
// ---------------------------------------------------------------------------------

/// The stop reason written as `value`.
fn stop_from_u8(value: u8) -> (stop: Result<MatchStop, EventError>)
    ensures
        match stop_in(value) {
            Some(known) => stop == Ok::<MatchStop, EventError>(known),
            None => stop == Err::<MatchStop, EventError>(EventError::UnknownStop(value)),
        },
{
    match value {
        0 => Ok(MatchStop::FullyFilled),
        1 => Ok(MatchStop::PriceLimit),
        2 => Ok(MatchStop::MatchLimit),
        3 => Ok(MatchStop::BookEmpty),
        4 => Ok(MatchStop::InsufficientFunds),
        5 => Ok(MatchStop::DidNotCross),
        other => Err(EventError::UnknownStop(other)),
    }
}

/// The fill record at `offset`.
fn read_fill(payload: &[u8], offset: usize) -> (fill: FillRecord)
    requires
        offset + FILL_LEN <= payload@.len(),
    ensures
        fill == fill_at(payload@, offset as int),
{
    let len = payload.len();
    let price = Ticks(take_u64(payload, offset + 8));
    FillRecord {
        maker_seat: take_u32(payload, offset),
        base_lots_filled: BaseLots(take_u32(payload, offset + 4) as u64),
        maker_order_id: FIFOOrderId::from_encoded(price, take_u64(payload, offset + 16)),
        price_in_ticks: price,
        quote_lots_filled: QuoteLots(take_u64(payload, offset + 24)),
        fee_in_quote_lots: QuoteLots(take_u64(payload, offset + 32)),
        maker_base_lots_remaining: BaseLots(take_u64(payload, offset + 40)),
    }
}

/// The first `count` fill records.
fn read_fills(payload: &[u8], count: u32) -> (fills: Vec<FillRecord>)
    requires
        payload@.len() >= SUMMARY_LEN,
        count <= room_for_fills(payload@),
    ensures
        fills@ == Seq::new(
            count as nat,
            |i: int| fill_at(payload@, SUMMARY_LEN + i * FILL_LEN),
        ),
{
    let len = payload.len();
    let mut fills: Vec<FillRecord> = Vec::new();
    let mut offset: usize = SUMMARY_LEN;
    let mut i: u32 = 0;
    while i < count
        invariant
            i <= count,
            len == payload@.len(),
            SUMMARY_LEN <= len,
            count <= room_for_fills(payload@),
            offset == SUMMARY_LEN + i * FILL_LEN,
            fills@ == Seq::new(
                i as nat,
                |j: int| fill_at(payload@, SUMMARY_LEN + j * FILL_LEN),
            ),
        decreases count - i,
    {
        fills.push(read_fill(payload, offset));
        offset = offset + FILL_LEN;
        i = i + 1;
        proof {
            assert(fills@ =~= Seq::new(
                i as nat,
                |j: int| fill_at(payload@, SUMMARY_LEN + j * FILL_LEN),
            ));
        }
    }
    fills
}

/// A decoded event, or the error, as the specification has it.
pub open spec fn event_result(result: Result<OrderPlaced, EventError>) -> Result<
    EventView,
    EventError,
> {
    match result {
        Ok(event) => Ok(event.view()),
        Err(error) => Err(error),
    }
}

/// Decodes an inner instruction's data into an event.
///
/// `data` is the whole instruction payload, discriminant included, exactly as it appears
/// in a transaction record.
///
/// # Errors
///
/// [`EventError`] if the data is not an event, is truncated, or was written by a version
/// this decoder does not understand.
pub fn decode(constants: &ProgramConstants, data: &[u8]) -> (result: Result<
    OrderPlaced,
    EventError,
>)
    ensures
        event_result(result) == decoded_event(*constants, data@),
{
    // [discriminant][log authority bump][payload]
    if data.len() == 0 || data[0] != Discriminant::LogEvent.as_u8() {
        return Err(EventError::NotAnEvent);
    }
    if data.len() < 2 + SUMMARY_LEN {
        return Err(EventError::TooShort);
    }
    let payload = slice_subrange(data, 2, data.len());
    proof {
        assert(payload@ =~= data@.skip(2));
    }
    if payload[0] != constants.event_version {
        return Err(EventError::UnknownVersion(payload[0]));
    }
    if payload[1] != constants.event_order_placed {
        return Err(EventError::UnknownKind(payload[1]));
    }
    let stop = match stop_from_u8(payload[2]) {
        Ok(stop) => stop,
        Err(error) => {
            return Err(error);
        },
    };
    let base_lots_posted = BaseLots(take_u64(payload, 48));
    let fills_seen = take_u32(payload, 56);
    let fills_recorded = take_u32(payload, 60);
    let available = (payload.len() - SUMMARY_LEN) / FILL_LEN;
    if fills_recorded as usize > available {
        return Err(EventError::FillCountMismatch { declared: fills_recorded, available });
    }
    let fills = read_fills(payload, fills_recorded);
    let order_id = if base_lots_posted.is_zero() {
        None
    } else {
        Some(FIFOOrderId::from_encoded(Ticks(take_u64(payload, 8)), take_u64(payload, 16)))
    };
    Ok(
        OrderPlaced {
            taker_seat: take_u32(payload, 4),
            order_id,
            base_lots_filled: BaseLots(take_u64(payload, 24)),
            quote_lots_filled: QuoteLots(take_u64(payload, 32)),
            fee_in_quote_lots: QuoteLots(take_u64(payload, 40)),
            base_lots_posted,
            stop,
            fills_seen,
            fills,
        },
    )
}

/// Every event among some instructions' data, in order, or the first that does not decode.
pub open spec fn decoded_events(constants: ProgramConstants, instructions: Seq<Seq<u8>>) -> Result<
    Seq<EventView>,
    EventError,
>
    decreases instructions.len(),
{
    if instructions.len() == 0 {
        Ok(Seq::empty())
    } else {
        let rest = instructions.drop_last();
        let last = instructions.last();
        match decoded_events(constants, rest) {
            Err(error) => Err(error),
            Ok(events) => if last.len() == 0 || last[0] != Discriminant::LogEvent.tag() {
                Ok(events)
            } else {
                match decoded_event(constants, last) {
                    Ok(event) => Ok(events.push(event)),
                    Err(error) => Err(error),
                }
            },
        }
    }
}

/// An error among the first instructions is the answer for all of them.
proof fn lemma_first_error(
    constants: ProgramConstants,
    instructions: Seq<Seq<u8>>,
    n: int,
    error: EventError,
)
    requires
        0 <= n <= instructions.len(),
        decoded_events(constants, instructions.take(n)) == Err::<Seq<EventView>, EventError>(
            error,
        ),
    ensures
        decoded_events(constants, instructions) == Err::<Seq<EventView>, EventError>(error),
    decreases instructions.len(),
{
    if n == instructions.len() {
        assert(instructions.take(n) =~= instructions);
    } else {
        assert(instructions.drop_last().take(n) =~= instructions.take(n));
        lemma_first_error(constants, instructions.drop_last(), n, error);
    }
}

/// Instructions' data as sequences.
pub open spec fn contents(instructions: Seq<&[u8]>) -> Seq<Seq<u8>> {
    instructions.map_values(|data: &[u8]| data@)
}

/// Events with their fills as sequences.
pub open spec fn event_views(events: Seq<OrderPlaced>) -> Seq<EventView> {
    events.map_values(|event: OrderPlaced| event.view())
}

/// Decodes every event in a transaction's inner instructions, skipping anything else.
///
/// The intended entry point for an indexer: hand it each inner instruction's data and
/// take what comes back.
///
/// # Errors
///
/// The first [`EventError`], if an event does not decode.
pub fn decode_all(constants: &ProgramConstants, instructions: &[&[u8]]) -> (result: Result<
    Vec<OrderPlaced>,
    EventError,
>)
    ensures
        match decoded_events(*constants, contents(instructions@)) {
            Ok(events) => result is Ok && event_views(result->Ok_0@) == events,
            Err(error) => result is Err && result->Err_0 == error,
        },
{
    let ghost all = contents(instructions@);
    let mut events: Vec<OrderPlaced> = Vec::new();
    let mut i: usize = 0;
    proof {
        assert(event_views(events@) =~= Seq::<EventView>::empty());
    }
    while i < instructions.len()
        invariant
            i <= instructions@.len(),
            all == contents(instructions@),
            decoded_events(*constants, all.take(i as int)) == Ok::<Seq<EventView>, EventError>(
                event_views(events@),
            ),
        decreases instructions@.len() - i,
    {
        let data = instructions[i];
        proof {
            assert(all.take(i + 1).drop_last() =~= all.take(i as int));
            assert(all.take(i + 1).last() == data@);
        }
        if data.len() > 0 && data[0] == Discriminant::LogEvent.as_u8() {
            let ghost before = events@;
            match decode(constants, data) {
                Ok(event) => {
                    events.push(event);
                    proof {
                        assert(event_views(events@) =~= event_views(before).push(event.view()));
                    }
                },
                Err(error) => {
                    proof {
                        lemma_first_error(*constants, all, i + 1, error);
                    }
                    return Err(error);
                },
            }
        }
        i = i + 1;
    }
    proof {
        assert(all.take(instructions@.len() as int) =~= all);
    }
    Ok(events)
}

// ---------------------------------------------------------------------------------
// What is written is what is read
// ---------------------------------------------------------------------------------

/// A fill record as the program writes it. The size takes four bytes.
pub open spec fn fill_bytes(fill: FillRecord) -> Seq<u8> {
    u32_bytes(fill.maker_seat) + u32_bytes(fill.base_lots_filled.0 as u32) + u64_bytes(
        fill.price_in_ticks.0,
    ) + u64_bytes(fill.maker_order_id.order_sequence_number) + u64_bytes(fill.quote_lots_filled.0)
        + u64_bytes(fill.fee_in_quote_lots.0) + u64_bytes(fill.maker_base_lots_remaining.0)
}

/// Whether a fill survives being written: its size fits, and its id is at its price.
pub open spec fn is_recordable(fill: FillRecord) -> bool {
    &&& fill.base_lots_filled.0 <= u32::MAX
    &&& fill.maker_order_id.price_in_ticks == fill.price_in_ticks
}

/// A recorded fill is read back, wherever in a payload it stands.
pub proof fn law_fills_are_read_back(payload: Seq<u8>, offset: int, fill: FillRecord)
    requires
        is_recordable(fill),
        0 <= offset,
        offset + FILL_LEN <= payload.len(),
        payload.subrange(offset, offset + FILL_LEN) == fill_bytes(fill),
    ensures
        fill_at(payload, offset) == fill,
{
    lemma_u32(fill.maker_seat);
    lemma_u32(fill.base_lots_filled.0 as u32);
    lemma_u64(fill.price_in_ticks.0);
    lemma_u64(fill.maker_order_id.order_sequence_number);
    lemma_u64(fill.quote_lots_filled.0);
    lemma_u64(fill.fee_in_quote_lots.0);
    lemma_u64(fill.maker_base_lots_remaining.0);
    let record = payload.subrange(offset, offset + FILL_LEN);
    lemma_within(payload, offset, FILL_LEN as int);
    assert(record.subrange(0, 4) =~= u32_bytes(fill.maker_seat));
    assert(record.subrange(4, 8) =~= u32_bytes(fill.base_lots_filled.0 as u32));
    assert(record.subrange(8, 16) =~= u64_bytes(fill.price_in_ticks.0));
    assert(record.subrange(16, 24) =~= u64_bytes(fill.maker_order_id.order_sequence_number));
    assert(record.subrange(24, 32) =~= u64_bytes(fill.quote_lots_filled.0));
    assert(record.subrange(32, 40) =~= u64_bytes(fill.fee_in_quote_lots.0));
    assert(record.subrange(40, 48) =~= u64_bytes(fill.maker_base_lots_remaining.0));
}

/// A part of a part is a part.
proof fn lemma_within(payload: Seq<u8>, offset: int, len: int)
    requires
        0 <= offset,
        0 <= len,
        offset + len <= payload.len(),
    ensures
        forall|a: int, b: int|
            0 <= a <= b <= len ==> #[trigger] payload.subrange(offset, offset + len).subrange(a, b)
                == payload.subrange(offset + a, offset + b),
{
    assert forall|a: int, b: int| 0 <= a <= b <= len implies #[trigger] payload.subrange(
        offset,
        offset + len,
    ).subrange(a, b) == payload.subrange(offset + a, offset + b) by {
        assert(payload.subrange(offset, offset + len).subrange(a, b) =~= payload.subrange(
            offset + a,
            offset + b,
        ));
    }
}

/// The fixed part of a payload as the program writes it: `recorded` fills follow. Byte 3
/// means nothing.
pub open spec fn summary_bytes(
    constants: ProgramConstants,
    event: EventView,
    recorded: u32,
    spare: u8,
) -> Seq<u8> {
    seq![constants.event_version, constants.event_order_placed, stop_tag(event.stop), spare]
        + u32_bytes(event.taker_seat) + u64_bytes(id_price(event)) + u64_bytes(id_sequence(event))
        + u64_bytes(event.base_lots_filled.0) + u64_bytes(event.quote_lots_filled.0) + u64_bytes(
        event.fee_in_quote_lots.0,
    ) + u64_bytes(event.base_lots_posted.0) + u32_bytes(event.fills_seen) + u32_bytes(recorded)
}

/// The price of the resting remainder, or zero.
pub open spec fn id_price(event: EventView) -> u64 {
    match event.order_id {
        Some(id) => id.price_in_ticks.0,
        None => 0u64,
    }
}

/// The stored sequence number of the resting remainder, or zero.
pub open spec fn id_sequence(event: EventView) -> u64 {
    match event.order_id {
        Some(id) => id.order_sequence_number,
        None => 0u64,
    }
}

/// The fill records of an event, one after the other.
pub open spec fn fills_bytes(fills: Seq<FillRecord>) -> Seq<u8>
    decreases fills.len(),
{
    if fills.len() == 0 {
        Seq::empty()
    } else {
        fills_bytes(fills.drop_last()) + fill_bytes(fills.last())
    }
}

/// Every fill record takes its forty-eight bytes.
proof fn lemma_fills_bytes(fills: Seq<FillRecord>)
    ensures
        fills_bytes(fills).len() == fills.len() * FILL_LEN,
        forall|i: int|
            0 <= i < fills.len() ==> #[trigger] fills_bytes(fills).subrange(
                i * FILL_LEN,
                (i + 1) * FILL_LEN,
            ) == fill_bytes(fills[i]),
    decreases fills.len(),
{
    if fills.len() > 0 {
        let rest = fills.drop_last();
        let last = fills.last();
        lemma_fills_bytes(rest);
        lemma_u32(last.maker_seat);
        lemma_u32(last.base_lots_filled.0 as u32);
        lemma_u64(last.price_in_ticks.0);
        lemma_u64(last.maker_order_id.order_sequence_number);
        lemma_u64(last.quote_lots_filled.0);
        lemma_u64(last.fee_in_quote_lots.0);
        lemma_u64(last.maker_base_lots_remaining.0);
        assert(fill_bytes(last).len() == FILL_LEN);
        assert forall|i: int| 0 <= i < fills.len() implies #[trigger] fills_bytes(fills).subrange(
            i * FILL_LEN,
            (i + 1) * FILL_LEN,
        ) == fill_bytes(fills[i]) by {
            if i < rest.len() {
                assert(fills_bytes(fills).subrange(i * FILL_LEN, (i + 1) * FILL_LEN)
                    =~= fills_bytes(rest).subrange(i * FILL_LEN, (i + 1) * FILL_LEN));
            } else {
                assert(fills_bytes(fills).subrange(i * FILL_LEN, (i + 1) * FILL_LEN)
                    =~= fill_bytes(last));
            }
        }
    }
}

/// An event the program writes is the event that is read back: the totals, the resting
/// remainder, and every fill it carries, in order.
pub proof fn law_events_are_read_back(
    constants: ProgramConstants,
    event: EventView,
    bump: u8,
    spare: u8,
    trailing: Seq<u8>,
)
    requires
        event.fills.len() <= u32::MAX,
        forall|i: int| 0 <= i < event.fills.len() ==> is_recordable(#[trigger] event.fills[i]),
        event.order_id is Some <==> event.base_lots_posted.0 != 0,
    ensures
        decoded_event(
            constants,
            seq![Discriminant::LogEvent.tag(), bump] + (summary_bytes(
                constants,
                event,
                event.fills.len() as u32,
                spare,
            ) + fills_bytes(event.fills) + trailing),
        ) == Ok::<EventView, EventError>(event),
{
    let recorded = event.fills.len() as u32;
    let summary = summary_bytes(constants, event, recorded, spare);
    let fills = fills_bytes(event.fills);
    let payload = summary + fills + trailing;
    let data = seq![Discriminant::LogEvent.tag(), bump] + payload;
    assert(data.skip(2) =~= payload);
    lemma_summary(constants, event, recorded, spare, fills + trailing);
    assert(payload =~= summary + (fills + trailing));
    lemma_fills_bytes(event.fills);
    let decoded = event_in(payload, event.stop);
    assert forall|i: int| 0 <= i < recorded implies #[trigger] decoded.fills[i]
        == event.fills[i] by {
        let offset = SUMMARY_LEN + i * FILL_LEN;
        assert(payload.subrange(offset, offset + FILL_LEN) =~= fills.subrange(
            i * FILL_LEN,
            (i + 1) * FILL_LEN,
        ));
        law_fills_are_read_back(payload, offset, event.fills[i]);
    }
    assert(decoded.fills =~= event.fills);
    assert(decoded =~= event);
}

/// The fields of a payload's fixed part are where they were written.
proof fn lemma_summary(
    constants: ProgramConstants,
    event: EventView,
    recorded: u32,
    spare: u8,
    rest: Seq<u8>,
)
    ensures
        summary_bytes(constants, event, recorded, spare).len() == SUMMARY_LEN,
        ({
            let payload = summary_bytes(constants, event, recorded, spare) + rest;
            &&& payload[0] == constants.event_version
            &&& payload[1] == constants.event_order_placed
            &&& payload[2] == stop_tag(event.stop)
            &&& word32(payload, 4) == event.taker_seat
            &&& word64(payload, 8) == id_price(event)
            &&& word64(payload, 16) == id_sequence(event)
            &&& word64(payload, 24) == event.base_lots_filled.0
            &&& word64(payload, 32) == event.quote_lots_filled.0
            &&& word64(payload, 40) == event.fee_in_quote_lots.0
            &&& word64(payload, 48) == event.base_lots_posted.0
            &&& word32(payload, 56) == event.fills_seen
            &&& word32(payload, 60) == recorded
        }),
{
    let payload = summary_bytes(constants, event, recorded, spare) + rest;
    lemma_u32(event.taker_seat);
    lemma_u64(id_price(event));
    lemma_u64(id_sequence(event));
    lemma_u64(event.base_lots_filled.0);
    lemma_u64(event.quote_lots_filled.0);
    lemma_u64(event.fee_in_quote_lots.0);
    lemma_u64(event.base_lots_posted.0);
    lemma_u32(event.fills_seen);
    lemma_u32(recorded);
    assert(payload.subrange(4, 8) =~= u32_bytes(event.taker_seat));
    assert(payload.subrange(8, 16) =~= u64_bytes(id_price(event)));
    assert(payload.subrange(16, 24) =~= u64_bytes(id_sequence(event)));
    assert(payload.subrange(24, 32) =~= u64_bytes(event.base_lots_filled.0));
    assert(payload.subrange(32, 40) =~= u64_bytes(event.quote_lots_filled.0));
    assert(payload.subrange(40, 48) =~= u64_bytes(event.fee_in_quote_lots.0));
    assert(payload.subrange(48, 56) =~= u64_bytes(event.base_lots_posted.0));
    assert(payload.subrange(56, 60) =~= u32_bytes(event.fills_seen));
    assert(payload.subrange(60, 64) =~= u32_bytes(recorded));
}

} // verus!
