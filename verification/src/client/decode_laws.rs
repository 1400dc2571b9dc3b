//! Which bytes of an instruction are read as what, and which are refused: byte by byte, for
//! data of any length.

use vstd::prelude::*;

#[allow(unused_imports)]
use super::decode::{fields_in, lemma_decoded};
use super::decode::{decoded, ClobInstruction, Decoded, InstructionDecodeError, InstructionView};
use super::grammar::{read_order_ids, read_packet, read_packets, Read, Unreadable};
use super::program::{Discriminant, SizeClass};
#[allow(unused_imports)]
use crate::bytes::{u32_of, u64_of};
use crate::engine::{OrderPacket, PostOnlyRejection, SelfTradeBehavior};
use crate::order::{FIFOOrderId, Side};
use crate::quantities::{BaseLots, LotConfig, QuoteLots, Ticks};

verus! {

/// The eight-byte integer at an offset.
pub open spec fn long(data: Seq<u8>, at: int) -> u64 {
    u64_of(data.subrange(at, at + 8))
}

/// The four-byte integer at an offset.
pub open spec fn short(data: Seq<u8>, at: int) -> u32 {
    u32_of(data.subrange(at, at + 4))
}

/// The side that a byte of zero or one names.
pub open spec fn side_at(data: Seq<u8>, at: int) -> Side {
    if data[at] == 0 {
        Side::Bid
    } else {
        Side::Ask
    }
}

/// The self-trade policy that a byte of zero, one or two names.
pub open spec fn policy_at(data: Seq<u8>, at: int) -> SelfTradeBehavior {
    if data[at] == 0 {
        SelfTradeBehavior::DecrementTake
    } else if data[at] == 1 {
        SelfTradeBehavior::CancelProvide
    } else {
        SelfTradeBehavior::Abort
    }
}

/// The data ends before the instruction does.
pub open spec fn ends_early() -> Decoded {
    Err(InstructionDecodeError::Truncated)
}

/// A field holds what it may not.
pub open spec fn out_of_range() -> Decoded {
    Err(InstructionDecodeError::Malformed)
}

/// An instruction was read.
pub open spec fn is_read_as(instruction: ClobInstruction) -> Decoded {
    Ok(InstructionView::Single(instruction))
}

/// Parts of parts.
proof fn lemma_cuts(data: Seq<u8>)
    ensures
        forall|k: int, n: int|
            0 <= k && 0 <= n && k + n <= data.len() ==> #[trigger] data.skip(k).take(n)
                == data.subrange(k, k + n),
        forall|k: int, n: int|
            0 <= k && 0 <= n && k + n <= data.len() ==> #[trigger] data.skip(k).skip(n)
                == data.skip(k + n),
        data.skip(0) == data,
{
    assert forall|k: int, n: int| 0 <= k && 0 <= n && k + n <= data.len() implies #[trigger] data.skip(
        k,
    ).take(n) == data.subrange(k, k + n) by {
        assert(data.skip(k).take(n) =~= data.subrange(k, k + n));
    }
    assert forall|k: int, n: int| 0 <= k && 0 <= n && k + n <= data.len() implies #[trigger] data.skip(
        k,
    ).skip(n) == data.skip(k + n) by {
        assert(data.skip(k).skip(n) =~= data.skip(k + n));
    }
    assert(data.skip(0) =~= data);
}

proof fn lemma_named(discriminant: Discriminant, data: Seq<u8>)
    requires
        data.len() > 0,
        data[0] == discriminant.tag(),
    ensures
        decoded(data) == fields_in(discriminant, data.skip(1)),
{
    assert(data =~= seq![discriminant.tag()] + data.skip(1));
    lemma_decoded(discriminant, data.skip(1));
}

/// What is refused by its first byte: nothing at all, and a byte that names no instruction.
/// Those that name one are zero to eleven, and thirteen.
pub proof fn law_unknown_data_is_refused(data: Seq<u8>)
    ensures
        decoded(data) == (Err::<InstructionView, _>(InstructionDecodeError::Empty)) <==> data.len()
            == 0,
        data.len() > 0 ==> (decoded(data) == (Err::<InstructionView, _>(
            InstructionDecodeError::UnknownDiscriminant(data[0]),
        )) <==> data[0] == 12 || data[0] > 13),
{
    if data.len() > 0 {
        let tag = data[0];
        if tag == 12 || tag > 13 {
            assert(forall|d: Discriminant| d.tag() != tag);
        } else {
            let d = if tag == 0 {
                Discriminant::InitializeMarket
            } else if tag == 1 {
                Discriminant::ClaimSeat
            } else if tag == 2 {
                Discriminant::Deposit
            } else if tag == 3 {
                Discriminant::Withdraw
            } else if tag == 4 {
                Discriminant::PlaceOrder
            } else if tag == 5 {
                Discriminant::CancelOrder
            } else if tag == 6 {
                Discriminant::ReduceOrder
            } else if tag == 7 {
                Discriminant::CancelAllOrders
            } else if tag == 8 {
                Discriminant::CollectFees
            } else if tag == 9 {
                Discriminant::LogEvent
            } else if tag == 10 {
                Discriminant::Swap
            } else if tag == 11 {
                Discriminant::EvictSeat
            } else {
                Discriminant::BatchUpdate
            };
            lemma_named(d, data);
        }
    }
}

/// Claims, fee sweeps, events and evictions have no fields: whatever follows their byte is
/// not looked at.
pub proof fn law_bare_data_is_read(data: Seq<u8>)
    requires
        data.len() > 0,
    ensures
        data[0] == 1 ==> decoded(data) == is_read_as(ClobInstruction::ClaimSeat),
        data[0] == 8 ==> decoded(data) == is_read_as(ClobInstruction::CollectFees),
        data[0] == 9 ==> decoded(data) == is_read_as(ClobInstruction::LogEvent),
        data[0] == 11 ==> decoded(data) == is_read_as(ClobInstruction::EvictSeat),
{
    if data[0] == 1 {
        lemma_named(Discriminant::ClaimSeat, data);
    } else if data[0] == 8 {
        lemma_named(Discriminant::CollectFees, data);
    } else if data[0] == 9 {
        lemma_named(Discriminant::LogEvent, data);
    } else if data[0] == 11 {
        lemma_named(Discriminant::EvictSeat, data);
    }
}

/// A deposit or a withdrawal is base lots and then quote lots, eight bytes each; what
/// follows is not looked at.
pub proof fn law_transfer_data_is_read(data: Seq<u8>)
    requires
        data.len() > 0,
        data[0] == 2 || data[0] == 3,
    ensures
        decoded(data) == (if data.len() < 17 {
            ends_early()
        } else if data[0] == 2 {
            is_read_as(
                ClobInstruction::Deposit {
                    base_lots: BaseLots(long(data, 1)),
                    quote_lots: QuoteLots(long(data, 9)),
                },
            )
        } else {
            is_read_as(
                ClobInstruction::Withdraw {
                    base_lots: BaseLots(long(data, 1)),
                    quote_lots: QuoteLots(long(data, 9)),
                },
            )
        }),
{
    lemma_cuts(data);
    if data[0] == 2 {
        lemma_named(Discriminant::Deposit, data);
    } else {
        lemma_named(Discriminant::Withdraw, data);
    }
    if data.len() >= 9 {
        assert(data.skip(1).skip(8) == data.skip(9));
    }
}

/// A cancel is an id of sixteen bytes, and a reduction has eight more for the size.
pub proof fn law_cancel_data_is_read(data: Seq<u8>)
    requires
        data.len() > 0,
        data[0] == 5 || data[0] == 6,
    ensures
        ({
            let order_id = FIFOOrderId {
                price_in_ticks: Ticks(long(data, 1)),
                order_sequence_number: long(data, 9),
            };
            decoded(data) == (if data[0] == 5 {
                if data.len() < 17 {
                    ends_early()
                } else {
                    is_read_as(ClobInstruction::CancelOrder { order_id })
                }
            } else {
                if data.len() < 25 {
                    ends_early()
                } else {
                    is_read_as(
                        ClobInstruction::ReduceOrder {
                            order_id,
                            base_lots: BaseLots(long(data, 17)),
                        },
                    )
                }
            })
        }),
{
    lemma_cuts(data);
    if data[0] == 5 {
        lemma_named(Discriminant::CancelOrder, data);
    } else {
        lemma_named(Discriminant::ReduceOrder, data);
    }
    if data.len() >= 9 {
        assert(data.skip(1).skip(8) == data.skip(9));
    }
    if data.len() >= 17 {
        assert(data.skip(9).skip(8) == data.skip(17));
    }
}

/// A cancel-all is a side, and a limit of four bytes. A side that is neither is refused
/// before the limit is looked at.
pub proof fn law_cancel_all_data_is_read(data: Seq<u8>)
    requires
        data.len() > 0,
        data[0] == 7,
    ensures
        decoded(data) == (if data.len() < 2 {
            ends_early()
        } else if data[1] > 1 {
            out_of_range()
        } else if data.len() < 6 {
            ends_early()
        } else {
            is_read_as(
                ClobInstruction::CancelAllOrders { side: side_at(data, 1), limit: short(data, 2) },
            )
        }),
{
    lemma_cuts(data);
    lemma_named(Discriminant::CancelAllOrders, data);
    if data.len() >= 2 {
        assert(data.skip(1)[0] == data[1]);
        assert(data.skip(1).skip(1) == data.skip(2));
    }
}

/// A swap is a side, its price, size and minimum of eight bytes each, and a limit of four;
/// anything behind that is a receipt.
pub proof fn law_swap_data_is_read(data: Seq<u8>)
    requires
        data.len() > 0,
        data[0] == 10,
    ensures
        decoded(data) == (if data.len() < 2 {
            ends_early()
        } else if data[1] > 1 {
            out_of_range()
        } else if data.len() < 30 {
            ends_early()
        } else {
            is_read_as(
                ClobInstruction::Swap {
                    side: side_at(data, 1),
                    price_in_ticks: Ticks(long(data, 2)),
                    num_base_lots: BaseLots(long(data, 10)),
                    min_base_lots_to_fill: BaseLots(long(data, 18)),
                    match_limit: short(data, 26),
                    receipt: data.len() > 30,
                },
            )
        }),
{
    lemma_cuts(data);
    lemma_named(Discriminant::Swap, data);
    if data.len() >= 2 {
        assert(data.skip(1)[0] == data[1]);
        assert(data.skip(1).skip(1) == data.skip(2));
    }
    if data.len() >= 10 {
        assert(data.skip(2).skip(8) == data.skip(10));
    }
    if data.len() >= 18 {
        assert(data.skip(10).skip(8) == data.skip(18));
    }
    if data.len() >= 26 {
        assert(data.skip(18).skip(8) == data.skip(26));
    }
    if data.len() >= 30 {
        assert(data.skip(26).skip(4) == data.skip(30));
    }
}

/// A creation is a size class, four numbers of lot geometry, and a fee rate, eight bytes
/// each. A class that is none is refused before the rest is looked at.
pub proof fn law_creation_data_is_read(data: Seq<u8>)
    requires
        data.len() > 0,
        data[0] == 0,
    ensures
        decoded(data) == (if data.len() < 9 {
            ends_early()
        } else if long(data, 1) > 2 {
            out_of_range()
        } else if data.len() < 49 {
            ends_early()
        } else {
            is_read_as(
                ClobInstruction::InitializeMarket {
                    size_class: if long(data, 1) == 0 {
                        SizeClass::Small
                    } else if long(data, 1) == 1 {
                        SizeClass::Medium
                    } else {
                        SizeClass::Large
                    },
                    lot_config: LotConfig {
                        base_lots_per_base_unit: long(data, 9),
                        tick_size_in_quote_lots_per_base_unit: long(data, 17),
                        base_atoms_per_base_lot: long(data, 25),
                        quote_atoms_per_quote_lot: long(data, 33),
                    },
                    taker_fee_bps: long(data, 41),
                },
            )
        }),
{
    lemma_cuts(data);
    lemma_named(Discriminant::InitializeMarket, data);
    if data.len() >= 9 {
        assert(data.skip(1).skip(8) == data.skip(9));
    }
    if data.len() >= 17 {
        assert(data.skip(9).skip(8) == data.skip(17));
    }
    if data.len() >= 25 {
        assert(data.skip(17).skip(8) == data.skip(25));
    }
    if data.len() >= 33 {
        assert(data.skip(25).skip(8) == data.skip(33));
    }
    if data.len() >= 41 {
        assert(data.skip(33).skip(8) == data.skip(41));
    }
}

// ---------------------------------------------------------------------------------
// Packets
// ---------------------------------------------------------------------------------

/// A packet ended early.
pub open spec fn packet_ends() -> Read<OrderPacket> {
    Err(Unreadable::Early)
}

/// A field of a packet holds what it may not.
pub open spec fn packet_is_wrong() -> Read<OrderPacket> {
    Err(Unreadable::OutOfRange)
}

/// A packet begins with its kind, its side, whether it is priced, its price and its size.
/// A limit order has its policy and its limit behind that, a post-only order its policy, and
/// an immediate order its minimum, its policy and its limit. The first two must be priced.
/// What is refused first is what stands first.
pub proof fn law_packets_are_read(data: Seq<u8>)
    ensures
        read_packet(data) == (if data.len() < 1 {
            packet_ends()
        } else if data[0] > 2 {
            packet_is_wrong()
        } else if data.len() < 2 {
            packet_ends()
        } else if data[1] > 1 {
            packet_is_wrong()
        } else if data.len() < 3 {
            packet_ends()
        } else if data[2] > 1 {
            packet_is_wrong()
        } else if data.len() < 19 {
            packet_ends()
        } else if data[0] < 2 && data[2] == 0 {
            packet_is_wrong()
        } else if data[0] == 0 {
            if data.len() < 20 {
                packet_ends()
            } else if data[19] > 2 {
                packet_is_wrong()
            } else if data.len() < 24 {
                packet_ends()
            } else {
                Ok(
                    (
                        OrderPacket::Limit {
                            side: side_at(data, 1),
                            price_in_ticks: Ticks(long(data, 3)),
                            num_base_lots: BaseLots(long(data, 11)),
                            self_trade_behavior: policy_at(data, 19),
                            match_limit: short(data, 20),
                        },
                        data.skip(24),
                    ),
                )
            }
        } else if data[0] == 1 {
            if data.len() < 20 {
                packet_ends()
            } else if data[19] > 1 {
                packet_is_wrong()
            } else {
                Ok(
                    (
                        OrderPacket::PostOnly {
                            side: side_at(data, 1),
                            price_in_ticks: Ticks(long(data, 3)),
                            num_base_lots: BaseLots(long(data, 11)),
                            rejection: if data[19] == 0 {
                                PostOnlyRejection::Reject
                            } else {
                                PostOnlyRejection::Slide
                            },
                        },
                        data.skip(20),
                    ),
                )
            }
        } else {
            if data.len() < 28 {
                packet_ends()
            } else if data[27] > 2 {
                packet_is_wrong()
            } else if data.len() < 32 {
                packet_ends()
            } else {
                Ok(
                    (
                        OrderPacket::ImmediateOrCancel {
                            side: side_at(data, 1),
                            price_in_ticks: if data[2] == 1 {
                                Some(Ticks(long(data, 3)))
                            } else {
                                None
                            },
                            num_base_lots: BaseLots(long(data, 11)),
                            min_base_lots_to_fill: BaseLots(long(data, 19)),
                            self_trade_behavior: policy_at(data, 27),
                            match_limit: short(data, 28),
                        },
                        data.skip(32),
                    ),
                )
            }
        }),
{
    lemma_cuts(data);
    if data.len() >= 1 {
        assert(data.skip(1).len() == data.len() - 1);
    }
    if data.len() >= 2 {
        assert(data.skip(1)[0] == data[1]);
        assert(data.skip(1).skip(1) == data.skip(2));
    }
    if data.len() >= 3 {
        assert(data.skip(2)[0] == data[2]);
        assert(data.skip(2).skip(1) == data.skip(3));
    }
    if data.len() >= 11 {
        assert(data.skip(3).skip(8) == data.skip(11));
        assert(data.skip(3).take(8) == data.subrange(3, 11));
    }
    if data.len() >= 19 {
        assert(data.skip(11).skip(8) == data.skip(19));
        assert(data.skip(11).take(8) == data.subrange(11, 19));
    }
    if data.len() >= 20 {
        assert(data.skip(19)[0] == data[19]);
        assert(data.skip(19).skip(1) == data.skip(20));
    }
    if data.len() >= 24 {
        assert(data.skip(20).skip(4) == data.skip(24));
        assert(data.skip(20).take(4) == data.subrange(20, 24));
    }
    if data.len() >= 27 {
        assert(data.skip(19).skip(8) == data.skip(27));
        assert(data.skip(19).take(8) == data.subrange(19, 27));
    }
    if data.len() >= 28 {
        assert(data.skip(27)[0] == data[27]);
        assert(data.skip(27).skip(1) == data.skip(28));
    }
    if data.len() >= 32 {
        assert(data.skip(28).skip(4) == data.skip(32));
        assert(data.skip(28).take(4) == data.subrange(28, 32));
    }
}

/// A placement is a packet, and anything behind it is a receipt.
pub proof fn law_placement_data_is_read(data: Seq<u8>)
    requires
        data.len() > 0,
        data[0] == 4,
    ensures
        decoded(data) == (match read_packet(data.skip(1)) {
            Ok((packet, rest)) => is_read_as(
                ClobInstruction::PlaceOrder { packet, receipt: rest.len() > 0 },
            ),
            Err(Unreadable::Early) => ends_early(),
            Err(Unreadable::OutOfRange) => out_of_range(),
        }),
{
    lemma_named(Discriminant::PlaceOrder, data);
}

// ---------------------------------------------------------------------------------
// Lists
// ---------------------------------------------------------------------------------

/// Ids stand one after the other, sixteen bytes each; where there are too few bytes for all
/// of them, none are read.
pub proof fn law_id_lists_are_read(data: Seq<u8>, count: nat)
    ensures
        match read_order_ids(data, count) {
            Ok((ids, rest)) => {
                &&& data.len() >= 16 * count
                &&& ids.len() == count
                &&& rest == data.skip(16 * count as int)
                &&& forall|i: int|
                    0 <= i < count ==> {
                        &&& (#[trigger] ids[i]).price_in_ticks.0 == long(data, 16 * i)
                        &&& ids[i].order_sequence_number == long(data, 16 * i + 8)
                    }
            },
            Err(why) => data.len() < 16 * count && why == Unreadable::Early,
        },
    decreases count,
{
    lemma_cuts(data);
    if count > 0 && data.len() >= 16 {
        let behind = data.skip(16);
        assert(data.skip(0).skip(8) == data.skip(8));
        assert(data.skip(0).take(8) == data.subrange(0, 8));
        assert(data.skip(8).skip(8) == behind);
        assert(data.skip(8).take(8) == data.subrange(8, 16));
        law_id_lists_are_read(behind, (count - 1) as nat);
        if let Ok((later, rest)) = read_order_ids(behind, (count - 1) as nat) {
            let (ids, left) = read_order_ids(data, count)->Ok_0;
            assert(rest =~= data.skip(16 * count as int));
            assert forall|i: int| 0 <= i < count implies {
                &&& (#[trigger] ids[i]).price_in_ticks.0 == long(data, 16 * i)
                &&& ids[i].order_sequence_number == long(data, 16 * i + 8)
            } by {
                if i > 0 {
                    let k = i - 1;
                    assert(ids[i] == later[k]);
                    assert(behind.subrange(16 * k, 16 * k + 8) =~= data.subrange(
                        16 * i,
                        16 * i + 8,
                    ));
                    assert(behind.subrange(16 * k + 8, 16 * k + 16) =~= data.subrange(
                        16 * i + 8,
                        16 * i + 16,
                    ));
                }
            }
        }
    } else if count == 0 {
        assert(data.skip(0) =~= data);
    } else {
        assert(data.skip(0).take(8) == data.take(8) || data.len() < 8);
    }
}

/// Packets that stand one after the other: packet `i` is what is read at offset `at[i]`, and
/// the next begins where it ends.
pub open spec fn stand_at(data: Seq<u8>, packets: Seq<OrderPacket>, at: Seq<int>) -> bool {
    &&& at.len() == packets.len() + 1
    &&& at[0] == 0
    &&& forall|i: int|
        0 <= i < packets.len() ==> {
            &&& 0 <= #[trigger] at[i] <= at[i + 1] <= data.len()
            &&& read_packet(data.skip(at[i])) == (Ok::<_, Unreadable>(
                (packets[i], data.skip(at[i + 1])),
            ))
        }
}

/// A list of packets is as many as it counts, each where the one before it ended.
pub proof fn law_packet_lists_are_read(data: Seq<u8>, count: nat)
    requires
        read_packets(data, count) is Ok,
    ensures
        ({
            let (packets, rest) = read_packets(data, count)->Ok_0;
            &&& packets.len() == count
            &&& exists|at: Seq<int>| #[trigger]
                stand_at(data, packets, at) && rest == data.skip(at.last())
        }),
{
    lemma_packets_stand(data, count);
}

proof fn lemma_packets_stand(data: Seq<u8>, count: nat) -> (at: Seq<int>)
    requires
        read_packets(data, count) is Ok,
    ensures
        ({
            let (packets, rest) = read_packets(data, count)->Ok_0;
            &&& packets.len() == count
            &&& stand_at(data, packets, at)
            &&& 0 <= at.last() <= data.len()
            &&& rest == data.skip(at.last())
        }),
    decreases count,
{
    lemma_cuts(data);
    if count == 0 {
        seq![0int]
    } else {
        law_packets_are_read(data);
        let (packet, behind) = read_packet(data)->Ok_0;
        let n = data.len() - behind.len();
        assert(behind =~= data.skip(n));
        let later_at = lemma_packets_stand(behind, (count - 1) as nat);
        let (later, rest) = read_packets(behind, (count - 1) as nat)->Ok_0;
        let (packets, left) = read_packets(data, count)->Ok_0;
        let at = Seq::new(
            later_at.len() + 1,
            |i: int|
                if i == 0 {
                    0
                } else {
                    n + later_at[i - 1]
                },
        );
        assert forall|i: int| 0 <= i < packets.len() implies {
            &&& 0 <= #[trigger] at[i] <= at[i + 1] <= data.len()
            &&& read_packet(data.skip(at[i])) == (Ok::<_, Unreadable>(
                (packets[i], data.skip(at[i + 1])),
            ))
        } by {
            if i == 0 {
                assert(later_at[0] == 0);
            } else {
                let k = i - 1;
                assert(0 <= later_at[k] <= later_at[k + 1] <= behind.len());
                assert(packets[i] == later[k]);
                assert(behind.skip(later_at[k]) =~= data.skip(at[i]));
                assert(behind.skip(later_at[k + 1]) =~= data.skip(at[i + 1]));
            }
        }
        assert(behind.skip(later_at.last()) =~= data.skip(at.last()));
        at
    }
}

/// A batch is a count of cancels, their ids, a count of orders, and their packets.
pub proof fn law_batch_data_is_read(data: Seq<u8>)
    requires
        data.len() > 0,
        data[0] == 13,
    ensures
        data.len() < 2 || data.len() < 3 + 16 * data[1] ==> decoded(data) == ends_early(),
        data.len() >= 2 && data.len() >= 3 + 16 * data[1] ==> {
            let n = data[1] as int;
            match read_packets(data.skip(3 + 16 * n), data[2 + 16 * n] as nat) {
                Ok((packets, _)) => match decoded(data) {
                    Ok(InstructionView::Batch { cancels, orders }) => {
                        &&& orders == packets
                        &&& cancels.len() == n
                        &&& forall|i: int|
                            0 <= i < n ==> {
                                &&& (#[trigger] cancels[i]).price_in_ticks.0 == long(
                                    data,
                                    2 + 16 * i,
                                )
                                &&& cancels[i].order_sequence_number == long(data, 10 + 16 * i)
                            }
                    },
                    _ => false,
                },
                Err(Unreadable::Early) => decoded(data) == ends_early(),
                Err(Unreadable::OutOfRange) => decoded(data) == out_of_range(),
            }
        },
{
    lemma_named(Discriminant::BatchUpdate, data);
    if data.len() >= 2 {
        let n = data[1] as int;
        let listed = data.skip(2);
        assert(data.skip(1)[0] == data[1]);
        assert(data.skip(1).skip(1) =~= listed);
        law_id_lists_are_read(listed, n as nat);
        if data.len() >= 3 + 16 * n {
            assert(listed.skip(16 * n) =~= data.skip(2 + 16 * n));
            assert(data.skip(2 + 16 * n)[0] == data[2 + 16 * n]);
            assert(data.skip(2 + 16 * n).skip(1) =~= data.skip(3 + 16 * n));
            let (ids, rest) = read_order_ids(listed, n as nat)->Ok_0;
            assert forall|i: int| 0 <= i < n implies {
                &&& (#[trigger] ids[i]).price_in_ticks.0 == long(data, 2 + 16 * i)
                &&& ids[i].order_sequence_number == long(data, 10 + 16 * i)
            } by {
                assert(listed.subrange(16 * i, 16 * i + 8) =~= data.subrange(
                    2 + 16 * i,
                    10 + 16 * i,
                ));
                assert(listed.subrange(16 * i + 8, 16 * i + 16) =~= data.subrange(
                    10 + 16 * i,
                    18 + 16 * i,
                ));
            }
        }
    }
}

} // verus!
