//! Which bytes of an event are read as what, which events are refused and why, and what a
//! run of instructions yields.

use vstd::prelude::*;

#[allow(unused_imports)]
use super::decode_laws::{long, short};
#[allow(unused_imports)]
use super::event::{fill_at, room_for_fills};
use super::event::{decoded_event, decoded_events, EventError, EventView};
use super::program::ProgramConstants;
use crate::engine::MatchStop;

verus! {

/// The data of an instruction that logs an event.
pub open spec fn is_logged(data: Seq<u8>) -> bool {
    data.len() > 0 && data[0] == 9
}

/// How many whole fill records stand behind the summary.
pub open spec fn records_behind(data: Seq<u8>) -> int {
    (data.len() - 66) / 48
}

/// What is refused, and as what: the first of these that holds.
pub open spec fn refusal(constants: ProgramConstants, data: Seq<u8>) -> Option<EventError> {
    if data.len() == 0 {
        Some(EventError::NotAnEvent)
    } else if data[0] != 9 {
        Some(EventError::NotAnEvent)
    } else if data.len() < 66 {
        Some(EventError::TooShort)
    } else if data[2] != constants.event_version {
        Some(EventError::UnknownVersion(data[2]))
    } else if data[3] != constants.event_order_placed {
        Some(EventError::UnknownKind(data[3]))
    } else if data[4] > 5 {
        Some(EventError::UnknownStop(data[4]))
    } else if short(data, 62) as int * 48 > data.len() - 66 {
        Some(
            EventError::FillCountMismatch {
                declared: short(data, 62),
                available: records_behind(data) as usize,
            },
        )
    } else {
        None
    }
}

/// An event is refused exactly where it is not one, ends early, is of another version or
/// kind, has an unknown stop, or claims more fills than it carries: and otherwise is read.
pub proof fn law_events_are_refused(constants: ProgramConstants, data: Seq<u8>)
    ensures
        match refusal(constants, data) {
            Some(error) => decoded_event(constants, data) == (Err::<EventView, _>(error)),
            None => decoded_event(constants, data) is Ok,
        },
{
    lemma_words(data);
    if data.len() >= 66 {
        let payload = data.skip(2);
        let k = short(data, 62) as int;
        assert(payload.len() == data.len() - 2);
        assert(payload[0] == data[2] && payload[1] == data[3] && payload[2] == data[4]);
        assert(room_for_fills(payload) == records_behind(data));
        assert(k > (data.len() - 66) / 48 <==> k * 48 > data.len() - 66);
    }
}

/// The integers of a payload, counted from the front of the data.
proof fn lemma_words(data: Seq<u8>)
    ensures
        forall|i: int|
            0 <= i && i + 10 <= data.len() ==> #[trigger] data.skip(2).subrange(i, i + 8)
                == data.subrange(i + 2, i + 10),
        forall|i: int|
            0 <= i && i + 6 <= data.len() ==> #[trigger] data.skip(2).subrange(i, i + 4)
                == data.subrange(i + 2, i + 6),
{
    assert forall|i: int| 0 <= i && i + 10 <= data.len() implies #[trigger] data.skip(2).subrange(
        i,
        i + 8,
    ) == data.subrange(i + 2, i + 10) by {
        assert(data.skip(2).subrange(i, i + 8) =~= data.subrange(i + 2, i + 10));
    }
    assert forall|i: int| 0 <= i && i + 6 <= data.len() implies #[trigger] data.skip(2).subrange(
        i,
        i + 4,
    ) == data.subrange(i + 2, i + 6) by {
        assert(data.skip(2).subrange(i, i + 4) =~= data.subrange(i + 2, i + 6));
    }
}

/// Every field of an event is at its place behind the byte that names it, and the log
/// authority's bump, and each fill is forty-eight bytes on from the last.
pub proof fn law_events_are_laid_out(constants: ProgramConstants, data: Seq<u8>)
    requires
        decoded_event(constants, data) is Ok,
    ensures
        ({
            let event = decoded_event(constants, data)->Ok_0;
            &&& event.taker_seat == short(data, 6)
            &&& event.base_lots_filled.0 == long(data, 26)
            &&& event.quote_lots_filled.0 == long(data, 34)
            &&& event.fee_in_quote_lots.0 == long(data, 42)
            &&& event.base_lots_posted.0 == long(data, 50)
            &&& event.fills_seen == short(data, 58)
            &&& event.fills.len() == short(data, 62)
            // Nothing rests where nothing was posted, whatever the id's bytes hold.
            &&& match event.order_id {
                None => long(data, 50) == 0,
                Some(id) => {
                    &&& long(data, 50) != 0
                    &&& id.price_in_ticks.0 == long(data, 10)
                    &&& id.order_sequence_number == long(data, 18)
                },
            }
            &&& event.stop == (if data[4] == 0 {
                MatchStop::FullyFilled
            } else if data[4] == 1 {
                MatchStop::PriceLimit
            } else if data[4] == 2 {
                MatchStop::MatchLimit
            } else if data[4] == 3 {
                MatchStop::BookEmpty
            } else if data[4] == 4 {
                MatchStop::InsufficientFunds
            } else {
                MatchStop::DidNotCross
            })
        }),
{
    law_events_are_refused(constants, data);
    lemma_words(data);
    assert(data.skip(2)[2] == data[4]);
    let payload = data.skip(2);
    assert(payload.subrange(4, 8) == data.subrange(6, 10));
    assert(payload.subrange(8, 16) == data.subrange(10, 18));
    assert(payload.subrange(16, 24) == data.subrange(18, 26));
    assert(payload.subrange(24, 32) == data.subrange(26, 34));
    assert(payload.subrange(32, 40) == data.subrange(34, 42));
    assert(payload.subrange(40, 48) == data.subrange(42, 50));
    assert(payload.subrange(48, 56) == data.subrange(50, 58));
    assert(payload.subrange(56, 60) == data.subrange(58, 62));
    assert(payload.subrange(60, 64) == data.subrange(62, 66));
}

/// The fields of one fill of an event, each at its place.
pub proof fn law_fills_are_laid_out(constants: ProgramConstants, data: Seq<u8>, i: int)
    requires
        decoded_event(constants, data) is Ok,
        0 <= i < decoded_event(constants, data)->Ok_0.fills.len(),
    ensures
        ({
            let fill = decoded_event(constants, data)->Ok_0.fills[i];
            let at = 66 + 48 * i;
            &&& at + 48 <= data.len()
            &&& fill.maker_seat == short(data, at)
            &&& fill.base_lots_filled.0 == short(data, at + 4)
            &&& fill.price_in_ticks.0 == long(data, at + 8)
            // The maker's order rests at the price that it traded at.
            &&& fill.maker_order_id.price_in_ticks == fill.price_in_ticks
            &&& fill.maker_order_id.order_sequence_number == long(data, at + 16)
            &&& fill.quote_lots_filled.0 == long(data, at + 24)
            &&& fill.fee_in_quote_lots.0 == long(data, at + 32)
            &&& fill.maker_base_lots_remaining.0 == long(data, at + 40)
        }),
{
    law_events_are_laid_out(constants, data);
    law_events_are_refused(constants, data);
    let payload = data.skip(2);
    let offset = 64 + i * 48;
    assert(offset + 48 <= payload.len());
    assert(decoded_event(constants, data)->Ok_0.fills[i] == fill_at(payload, offset));
    assert(payload.subrange(offset, offset + 4) =~= data.subrange(offset + 2, offset + 6));
    assert(payload.subrange(offset + 4, offset + 8) =~= data.subrange(offset + 6, offset + 10));
    assert(payload.subrange(offset + 8, offset + 16) =~= data.subrange(offset + 10, offset + 18));
    assert(payload.subrange(offset + 16, offset + 24) =~= data.subrange(offset + 18, offset + 26));
    assert(payload.subrange(offset + 24, offset + 32) =~= data.subrange(offset + 26, offset + 34));
    assert(payload.subrange(offset + 32, offset + 40) =~= data.subrange(offset + 34, offset + 42));
    assert(payload.subrange(offset + 40, offset + 48) =~= data.subrange(offset + 42, offset + 50));
}

/// The instructions that log events, in their order.
pub open spec fn logged(instructions: Seq<Seq<u8>>) -> Seq<Seq<u8>> {
    instructions.filter(|data: Seq<u8>| is_logged(data))
}

/// Where a run of instructions decodes, every instruction that logs an event yields one,
/// in order, and no other instruction yields any.
pub proof fn law_runs_yield_every_event(constants: ProgramConstants, instructions: Seq<Seq<u8>>)
    requires
        decoded_events(constants, instructions) is Ok,
    ensures
        ({
            let events = decoded_events(constants, instructions)->Ok_0;
            &&& events.len() == logged(instructions).len()
            &&& forall|i: int|
                0 <= i < events.len() ==> decoded_event(
                    constants,
                    #[trigger] logged(instructions)[i],
                ) == (Ok::<_, EventError>(events[i]))
        }),
    decreases instructions.len(),
{
    reveal(Seq::filter);
    if instructions.len() > 0 {
        let rest = instructions.drop_last();
        law_runs_yield_every_event(constants, rest);
        let events = decoded_events(constants, instructions)->Ok_0;
        let earlier = decoded_events(constants, rest)->Ok_0;
        assert forall|i: int| 0 <= i < events.len() implies decoded_event(
            constants,
            #[trigger] logged(instructions)[i],
        ) == (Ok::<_, EventError>(events[i])) by {
            if i < earlier.len() {
                assert(logged(instructions)[i] == logged(rest)[i]);
            }
        }
    }
}

/// Where a run of instructions does not decode, one that logs an event was refused, for the
/// reason given, and every event logged before it decodes.
pub proof fn law_runs_fail_by_their_first_refusal(
    constants: ProgramConstants,
    instructions: Seq<Seq<u8>>,
)
    requires
        decoded_events(constants, instructions) is Err,
    ensures
        exists|i: int|
            0 <= i < instructions.len() && is_logged(#[trigger] instructions[i]) && decoded_event(
                constants,
                instructions[i],
            ) == (Err::<EventView, _>(decoded_events(constants, instructions)->Err_0)) && (
            forall|j: int|
                0 <= j < i && is_logged(#[trigger] instructions[j]) ==> decoded_event(
                    constants,
                    instructions[j],
                ) is Ok),
    decreases instructions.len(),
{
    if instructions.len() > 0 {
        let rest = instructions.drop_last();
        let last = instructions.len() - 1;
        if decoded_events(constants, rest) is Err {
            law_runs_fail_by_their_first_refusal(constants, rest);
            let i = choose|i: int|
                0 <= i < rest.len() && is_logged(#[trigger] rest[i]) && decoded_event(
                    constants,
                    rest[i],
                ) == (Err::<EventView, _>(decoded_events(constants, rest)->Err_0)) && (forall|
                    j: int,
                |
                    0 <= j < i && is_logged(#[trigger] rest[j]) ==> decoded_event(
                        constants,
                        rest[j],
                    ) is Ok);
            assert(instructions[i] == rest[i]);
            assert forall|j: int| 0 <= j < i && is_logged(#[trigger] instructions[j]) implies
                decoded_event(constants, instructions[j]) is Ok by {
                assert(rest[j] == instructions[j]);
            }
        } else {
            assert(is_logged(instructions[last]));
            assert forall|j: int| 0 <= j < last && is_logged(#[trigger] instructions[j]) implies
                decoded_event(constants, instructions[j]) is Ok by {
                lemma_decoded_runs_decode(constants, rest, j);
                assert(rest[j] == instructions[j]);
            }
        }
    }
}

/// Every event of a run that decodes decodes.
proof fn lemma_decoded_runs_decode(
    constants: ProgramConstants,
    instructions: Seq<Seq<u8>>,
    i: int,
)
    requires
        decoded_events(constants, instructions) is Ok,
        0 <= i < instructions.len(),
        is_logged(instructions[i]),
    ensures
        decoded_event(constants, instructions[i]) is Ok,
    decreases instructions.len(),
{
    if i < instructions.len() - 1 {
        lemma_decoded_runs_decode(constants, instructions.drop_last(), i);
    }
}

} // verus!
