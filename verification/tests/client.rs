//! Addresses, instruction builders, market setup, and the command line's decisions.

use clob::client::address::{log_authority, try_log_authority, try_vault_signer, vault_signer, Address};
use clob::client::decode::{self, ClobInstruction, InstructionDecodeError};
use clob::client::instruction::{
    self, token_program_id, Instruction, MarketAddresses, Receipt,
};
use clob::client::program::{Discriminant, ProgramConstants, SizeClass};
use clob::client::reader::Reader;
use clob::client::setup::{create_market, try_create_market, CreateMarketParams, TOKEN_ACCOUNT_LEN};
use clob::client::state::{BookOrder, MarketState, Seat};
use clob::client::token::{
    initialize_account, initialize_mint, mint_to, INITIALIZE_ACCOUNT_3, MINT_LEN,
};
use clob::engine::{
    FeeSchedule, MarketHeader, OrderPacket, PostOnlyRejection, SelfTradeBehavior, TraderKey, TraderState,
};
use clob::operate::bench::{
    can_be_measured, cost_of, quote_prices, try_plan, Context, Measured, NoCost, Simulation,
    Unmeasurable,
};
use clob::operate::launch;
use clob::operate::record::{MarketRecord, RecordError, RecordField};
use clob::operate::trade;
use clob::order::{FIFOOrderId, Side};
use clob::quantities::{BaseLots, LotConfig, QuoteLots, Ticks};
use spl_token::solana_program::program_pack::Pack;
use spl_token::solana_program::pubkey::Pubkey as SplPubkey;

/// What a deployed program would fix. The values are arbitrary.
fn constants() -> ProgramConstants {
    ProgramConstants {
        vault_signer_seed: b"vault".to_vec(),
        log_authority_seed: b"log".to_vec(),
        market_discriminator: 1,
        market_version: 1,
        event_version: 1,
        event_order_placed: 1,
    }
}

/// Seeds no address can be derived from: one is too long.
fn broken_constants() -> ProgramConstants {
    ProgramConstants {
        vault_signer_seed: vec![0; 33],
        log_authority_seed: vec![0; 33],
        ..constants()
    }
}

fn system_program_id() -> Address {
    Address(solana_system_interface::program::ID.to_bytes())
}

fn spl_address(address: &Address) -> SplPubkey {
    SplPubkey::new_from_array(address.0)
}

fn addresses() -> MarketAddresses {
    MarketAddresses::new(
        &constants(),
        Address::new_from_array([1u8; 32]),
        Address::new_from_array([2u8; 32]),
        Address::new_from_array([3u8; 32]),
        Address::new_from_array([4u8; 32]),
    )
}

fn key(byte: u8) -> Address {
    Address::new_from_array([byte; 32])
}

/// Splits an instruction into its discriminant and a reader over the rest, exactly as
/// the program's dispatcher does.
fn parse(instruction: &Instruction) -> (Discriminant, Reader<'_>) {
    let (&tag, rest) = instruction.data.split_first().expect("data is never empty");
    (
        Discriminant::parse(tag).expect("builder emitted an unknown discriminant"),
        Reader::new(rest),
    )
}

#[test]
fn initialize_market_round_trips() {
    let lots = LotConfig::new(1_000, 2_000, 1_000_000, 1).unwrap();
    let instruction = instruction::initialize_market(
        &constants(),
        &addresses(),
        &key(5),
        &key(6),
        &key(7),
        &key(8),
        SizeClass::Medium,
        &lots,
        7,
    );

    let (tag, mut reader) = parse(&instruction);
    assert_eq!(tag, Discriminant::InitializeMarket);
    assert_eq!(SizeClass::from_u64(reader.u64().unwrap()), Some(SizeClass::Medium));
    assert_eq!(reader.u64().unwrap(), lots.base_lots_per_base_unit);
    assert_eq!(reader.u64().unwrap(), lots.tick_size_in_quote_lots_per_base_unit);
    assert_eq!(reader.u64().unwrap(), lots.base_atoms_per_base_lot);
    assert_eq!(reader.u64().unwrap(), lots.quote_atoms_per_quote_lot);
    assert_eq!(reader.u64().unwrap(), 7);
    // The bump the program verifies the vault signer against.
    assert_eq!(
        reader.u8().unwrap(),
        vault_signer(&constants(), &addresses().program_id, &addresses().market).1
    );
    assert_eq!(instruction.accounts.len(), 8);
}

#[test]
fn deposit_and_withdraw_round_trip() {
    let a = addresses();
    for (withdraw, expected) in [(false, Discriminant::Deposit), (true, Discriminant::Withdraw)] {
        let instruction = if withdraw {
            instruction::withdraw(&a, &key(9), &key(10), &key(11), BaseLots(30), QuoteLots(5_000))
        } else {
            instruction::deposit(&a, &key(9), &key(10), &key(11), BaseLots(30), QuoteLots(5_000))
        };

        let (tag, mut reader) = parse(&instruction);
        assert_eq!(tag, expected);
        assert_eq!(reader.base_lots().unwrap(), BaseLots(30));
        assert_eq!(reader.quote_lots().unwrap(), QuoteLots(5_000));
        // Withdrawing needs the vault signer; depositing does not.
        assert_eq!(instruction.accounts.len(), if withdraw { 8 } else { 7 });
    }
}

#[test]
fn cancel_and_reduce_round_trip() {
    let a = addresses();
    let id = FIFOOrderId::new(Side::Bid, Ticks(1234), 99);

    let cancel = instruction::cancel_order(&a, &key(9), &id);
    let (tag, mut reader) = parse(&cancel);
    assert_eq!(tag, Discriminant::CancelOrder);
    assert_eq!(reader.order_id().unwrap(), id);

    let reduce = instruction::reduce_order(&a, &key(9), &id, BaseLots(4));
    let (tag, mut reader) = parse(&reduce);
    assert_eq!(tag, Discriminant::ReduceOrder);
    assert_eq!(reader.order_id().unwrap(), id);
    assert_eq!(reader.base_lots().unwrap(), BaseLots(4));
}

#[test]
fn cancel_all_round_trips() {
    let instruction = instruction::cancel_all_orders(&addresses(), &key(9), Side::Ask, 12);
    let (tag, mut reader) = parse(&instruction);

    assert_eq!(tag, Discriminant::CancelAllOrders);
    assert_eq!(reader.side().unwrap(), Side::Ask);
    assert_eq!(reader.u32().unwrap(), 12);
}

#[test]
fn swap_round_trips() {
    let instruction = instruction::swap(
        &constants(),
        &addresses(),
        &key(9),
        &key(10),
        &key(11),
        Side::Bid,
        Ticks(105),
        BaseLots(25),
        BaseLots(20),
        16,
        Receipt::Off,
    );

    let (tag, mut reader) = parse(&instruction);
    assert_eq!(tag, Discriminant::Swap);
    assert_eq!(reader.side().unwrap(), Side::Bid);
    assert_eq!(reader.u64().unwrap(), 105);
    assert_eq!(reader.u64().unwrap(), 25);
    assert_eq!(reader.u64().unwrap(), 20);
    assert_eq!(reader.u32().unwrap(), 16);
    assert_eq!(instruction.accounts.len(), 8);
}

#[test]
fn the_receipt_adds_two_accounts_and_a_bump() {
    let a = addresses();
    let packet = instruction::market_order(Side::Bid, BaseLots(10), 8);

    let plain = instruction::place_order(&constants(), &a, &key(9), &packet, Receipt::Off);
    let receipt = instruction::place_order(&constants(), &a, &key(9), &packet, Receipt::On);

    assert_eq!(plain.accounts.len(), 2);
    assert_eq!(receipt.accounts.len(), 4);
    assert_eq!(receipt.data.len(), plain.data.len() + 1);
    assert_eq!(
        *receipt.data.last().unwrap(),
        log_authority(&constants(), &a.program_id).1
    );

    // The log authority and the program, in that order.
    assert_eq!(
        receipt.accounts[2].pubkey,
        log_authority(&constants(), &a.program_id).0
    );
    assert_eq!(receipt.accounts[3].pubkey, a.program_id);
}

#[test]
fn a_receipt_does_not_disturb_the_packet_the_program_reads() {
    // The bump is appended after the packet, so both forms must decode identically up
    // to that point.
    let a = addresses();
    let packet = instruction::limit(Side::Ask, Ticks(101), BaseLots(7));

    for receipt in [Receipt::Off, Receipt::On] {
        let instruction = instruction::place_order(&constants(), &a, &key(9), &packet, receipt);
        let (tag, mut reader) = parse(&instruction);
        assert_eq!(tag, Discriminant::PlaceOrder);
        assert_eq!(reader.order_packet().unwrap(), packet);
    }
}

// Setup

fn params() -> CreateMarketParams {
    CreateMarketParams {
        program_id: Address::new_from_array([1u8; 32]),
        payer: Address::new_from_array([2u8; 32]),
        market: Address::new_from_array([3u8; 32]),
        base_vault: Address::new_from_array([4u8; 32]),
        quote_vault: Address::new_from_array([5u8; 32]),
        base_mint: Address::new_from_array([6u8; 32]),
        quote_mint: Address::new_from_array([7u8; 32]),
        authority: Address::new_from_array([8u8; 32]),
        fee_recipient: Address::new_from_array([9u8; 32]),
        size_class: SizeClass::Small,
        lot_config: LotConfig::new(1_000, 1_000, 1_000_000, 1).unwrap(),
        taker_fee_bps: 2,
        market_rent_lamports: 1_000_000,
        vault_rent_lamports: 2_000_000,
    }
}

#[test]
fn the_sequence_allocates_before_it_initialises() {
    let setup = create_market(&constants(), &params());
    assert_eq!(setup.instructions.len(), 6);

    // Market allocation first, market initialisation last: everything the last
    // instruction validates has to exist by the time it runs.
    assert_eq!(setup.instructions[0].program_id, system_program_id());
    assert_eq!(setup.instructions[5].program_id, params().program_id);
    // Vault allocation always immediately precedes its own initialisation.
    assert_eq!(setup.instructions[1].program_id, system_program_id());
    assert_eq!(setup.instructions[2].program_id, token_program_id());
}

#[test]
fn the_market_account_is_allocated_at_its_declared_size() {
    // A wrong size here is rejected by the program rather than silently truncating
    // the book, so the two have to agree.
    let setup = create_market(&constants(), &params());
    let space = u64::from_le_bytes(setup.instructions[0].data[12..20].try_into().unwrap());
    assert_eq!(space, SizeClass::Small.account_len() as u64);
}

#[test]
fn both_vaults_are_owned_by_the_market_pda() {
    let setup = create_market(&constants(), &params());
    let expected = vault_signer(&constants(), &params().program_id, &params().market).0;

    for index in [2, 4] {
        assert_eq!(setup.instructions[index].data[0], INITIALIZE_ACCOUNT_3);
        assert_eq!(&setup.instructions[index].data[1..33], expected.0.as_slice());
    }
}

#[test]
fn every_new_account_signs() {
    let setup = create_market(&constants(), &params());
    for key in [params().market, params().base_vault, params().quote_vault] {
        assert!(setup.signers.contains(&key), "{key:?} must sign");
    }
    assert!(setup.signers.contains(&params().authority));
}

#[test]
fn an_authority_that_is_also_the_payer_is_not_listed_twice() {
    let mut p = params();
    p.authority = p.payer;
    let setup = create_market(&constants(), &p);

    assert_eq!(setup.signers.len(), 4);
}

#[test]
fn the_token_account_size_matches_spl_token() {
    assert_eq!(TOKEN_ACCOUNT_LEN as usize, spl_token::state::Account::LEN);
}

#[test]
fn the_hand_rolled_initialize_matches_spl_tokens_own_encoder() {
    let p = params();
    let setup = create_market(&constants(), &p);
    let vault_signer = vault_signer(&constants(), &p.program_id, &p.market).0;

    let expected = spl_token::instruction::initialize_account3(
        &spl_token::ID,
        &spl_address(&p.base_vault),
        &spl_address(&p.base_mint),
        &spl_address(&vault_signer),
    )
    .unwrap();

    // Index 2 is the base vault's initialisation.
    let built = &setup.instructions[2];
    assert_eq!(built.data, expected.data, "instruction data must match byte for byte");
    assert_eq!(built.program_id.to_bytes(), expected.program_id.to_bytes());
    assert_eq!(
        built.accounts.iter().map(|a| a.pubkey.to_bytes()).collect::<Vec<_>>(),
        expected.accounts.iter().map(|a| a.pubkey.to_bytes()).collect::<Vec<_>>()
    );
}

#[test]
fn the_token_program_id_matches_spl_token() {
    assert_eq!(token_program_id().to_bytes(), spl_token::ID.to_bytes());
}

#[test]
fn derivations_are_deterministic_and_distinct() {
    let program = Address::new_from_array([1u8; 32]);
    let market = Address::new_from_array([2u8; 32]);

    assert_eq!(vault_signer(&constants(), &program, &market), vault_signer(&constants(), &program, &market));
    assert_ne!(vault_signer(&constants(), &program, &market).0, log_authority(&constants(), &program).0);
}

#[test]
fn each_market_gets_its_own_vault_signer() {
    // Otherwise one market's authority could move another's vaults.
    let program = Address::new_from_array([1u8; 32]);
    let a = vault_signer(&constants(), &program, &Address::new_from_array([2u8; 32]));
    let b = vault_signer(&constants(), &program, &Address::new_from_array([3u8; 32]));

    assert_ne!(a.0, b.0);
}

fn spl_key(byte: u8) -> SplPubkey {
    SplPubkey::new_from_array([byte; 32])
}

#[test]
fn the_mint_size_matches_spl_token() {
    assert_eq!(MINT_LEN as usize, spl_token::state::Mint::LEN);
}

#[test]
fn initialize_mint_matches_spl_token() {
    let ours = initialize_mint(&key(1), &key(2), 9);
    let theirs =
        spl_token::instruction::initialize_mint2(&spl_token::ID, &spl_key(1), &spl_key(2), None, 9)
            .unwrap();

    assert_eq!(ours.data, theirs.data);
    assert_eq!(ours.accounts.len(), theirs.accounts.len());
}

#[test]
fn initialize_account_matches_spl_token() {
    let ours = initialize_account(&key(1), &key(2), &key(3));
    let theirs = spl_token::instruction::initialize_account3(
        &spl_token::ID,
        &spl_key(1),
        &spl_key(2),
        &spl_key(3),
    )
    .unwrap();

    assert_eq!(ours.data, theirs.data);
    assert_eq!(ours.accounts.len(), theirs.accounts.len());
}

#[test]
fn mint_to_matches_spl_token() {
    let ours = mint_to(&key(1), &key(2), &key(3), 42);
    let theirs = spl_token::instruction::mint_to(
        &spl_token::ID,
        &spl_key(1),
        &spl_key(2),
        &spl_key(3),
        &[],
        42,
    )
    .unwrap();

    assert_eq!(ours.data, theirs.data);
    assert_eq!(ours.accounts.len(), theirs.accounts.len());
}

#[test]
fn our_token_program_id_is_the_real_one() {
    assert_eq!(token_program_id().to_bytes(), spl_token::ID.to_bytes());
}

#[test]
fn every_defined_discriminant_is_reachable() {
    // A tag the SDK cannot decode is an instruction an observer would silently drop, so
    // the two lists have to stay the same length.
    for tag in 0u8..12 {
        assert!(
            Discriminant::parse(tag).is_some(),
            "tag {tag} is not a known discriminant"
        );
    }
    assert!(
        Discriminant::parse(12).is_none(),
        "12 must not be a discriminant — add it here when it becomes one"
    );
}

#[test]
fn a_discriminant_is_read_back_from_its_byte() {
    for tag in 0u8..=255 {
        match Discriminant::parse(tag) {
            Some(discriminant) => assert_eq!(discriminant.as_u8(), tag),
            None => assert!(tag == 12 || tag > 13),
        }
    }
}

/// Every packet shape, with every policy.
fn packets() -> Vec<OrderPacket> {
    let mut packets = Vec::new();
    for side in [Side::Bid, Side::Ask] {
        for behavior in [
            SelfTradeBehavior::DecrementTake,
            SelfTradeBehavior::CancelProvide,
            SelfTradeBehavior::Abort,
        ] {
            packets.push(OrderPacket::Limit {
                side,
                price_in_ticks: Ticks(u64::MAX),
                num_base_lots: BaseLots(1 << 40),
                self_trade_behavior: behavior,
                match_limit: 0x0102_0304,
            });
            for price in [None, Some(Ticks(0)), Some(Ticks(77))] {
                packets.push(OrderPacket::ImmediateOrCancel {
                    side,
                    price_in_ticks: price,
                    num_base_lots: BaseLots(3),
                    min_base_lots_to_fill: BaseLots(2),
                    self_trade_behavior: behavior,
                    match_limit: u32::MAX,
                });
            }
        }
        for rejection in [PostOnlyRejection::Reject, PostOnlyRejection::Slide] {
            packets.push(OrderPacket::PostOnly {
                side,
                price_in_ticks: Ticks(5),
                num_base_lots: BaseLots(6),
                rejection,
            });
        }
    }
    packets
}

#[test]
fn anything_that_can_be_built_is_recognised() {
    let a = addresses();
    for packet in packets() {
        for (receipt, expected) in [(Receipt::Off, false), (Receipt::On, true)] {
            let built = instruction::place_order(&constants(), &a, &key(9), &packet, receipt);
            assert_eq!(
                decode::decode(&built.data),
                Ok(ClobInstruction::PlaceOrder { packet, receipt: expected })
            );
        }
    }

    let id = FIFOOrderId::new(Side::Bid, Ticks(1234), 99);
    let other = FIFOOrderId::new(Side::Ask, Ticks(1), 0);
    let lots = LotConfig::new(1_000, 2_000, 1_000_000, 1).unwrap();
    let cases = vec![
        (instruction::claim_seat(&a, &key(9)), ClobInstruction::ClaimSeat),
        (instruction::evict_seat(&a, &key(9)), ClobInstruction::EvictSeat),
        (instruction::collect_fees(&a, &key(9)), ClobInstruction::CollectFees),
        (
            instruction::deposit(&a, &key(9), &key(1), &key(2), BaseLots(3), QuoteLots(4)),
            ClobInstruction::Deposit { base_lots: BaseLots(3), quote_lots: QuoteLots(4) },
        ),
        (
            instruction::withdraw(&a, &key(9), &key(1), &key(2), BaseLots(3), QuoteLots(4)),
            ClobInstruction::Withdraw { base_lots: BaseLots(3), quote_lots: QuoteLots(4) },
        ),
        (
            instruction::cancel_order(&a, &key(9), &id),
            ClobInstruction::CancelOrder { order_id: id },
        ),
        (
            instruction::reduce_order(&a, &key(9), &id, BaseLots(8)),
            ClobInstruction::ReduceOrder { order_id: id, base_lots: BaseLots(8) },
        ),
        (
            instruction::cancel_all_orders(&a, &key(9), Side::Ask, 12),
            ClobInstruction::CancelAllOrders { side: Side::Ask, limit: 12 },
        ),
        (
            instruction::initialize_market(
                &constants(), &a, &key(5), &key(6), &key(7), &key(8), SizeClass::Large, &lots, 9,
            ),
            ClobInstruction::InitializeMarket {
                size_class: SizeClass::Large,
                lot_config: lots,
                taker_fee_bps: 9,
            },
        ),
        (
            instruction::swap(
                &constants(), &a, &key(9), &key(1), &key(2), Side::Ask, Ticks(4), BaseLots(5),
                BaseLots(6), 7, Receipt::On,
            ),
            ClobInstruction::Swap {
                side: Side::Ask,
                price_in_ticks: Ticks(4),
                num_base_lots: BaseLots(5),
                min_base_lots_to_fill: BaseLots(6),
                match_limit: 7,
                receipt: true,
            },
        ),
        (
            instruction::batch_update(&a, &key(9), &[id, other], &packets()),
            ClobInstruction::BatchUpdate { cancels: vec![id, other], orders: packets() },
        ),
        (
            instruction::batch_update(&a, &key(9), &[], &[]),
            ClobInstruction::BatchUpdate { cancels: vec![], orders: vec![] },
        ),
    ];
    for (built, expected) in cases {
        assert_eq!(decode::decode(&built.data), Ok(expected));
        assert_eq!(built.program_id, a.program_id);
        // A creation ends in bumps that say nothing of the instruction. Anything else is
        // not read as the same thing with its last byte cut off.
        if built.data[0] != Discriminant::InitializeMarket.as_u8() {
            let cut = &built.data[..built.data.len() - 1];
            assert_ne!(decode::decode(cut), decode::decode(&built.data));
        }
    }
}

#[test]
fn instruction_data_nobody_vouched_for_is_refused() {
    assert_eq!(decode::decode(&[]), Err(InstructionDecodeError::Empty));
    assert_eq!(decode::decode(&[200]), Err(InstructionDecodeError::UnknownDiscriminant(200)));
    assert_eq!(decode::decode(&[2, 0]), Err(InstructionDecodeError::Truncated));
    let mut creation = vec![0u8];
    creation.extend_from_slice(&7u64.to_le_bytes());
    assert_eq!(decode::decode(&creation), Err(InstructionDecodeError::Malformed));
    assert_eq!(decode::decode(&[0, 1]), Err(InstructionDecodeError::Truncated));
    // A count larger than the buffer, and a side that is neither.
    assert_eq!(decode::decode(&[13, 255]), Err(InstructionDecodeError::Truncated));
    assert_eq!(decode::decode(&[7, 2, 0, 0, 0, 0]), Err(InstructionDecodeError::Malformed));
    assert_eq!(decode::decode(&[7, 1, 0, 0, 0]), Err(InstructionDecodeError::Truncated));
    assert_eq!(
        InstructionDecodeError::UnknownDiscriminant(200).message(),
        "unknown discriminant 200"
    );
    assert_eq!(InstructionDecodeError::Empty.message(), "empty instruction data");

    let mut state = 1u64;
    for len in 0..256usize {
        let data: Vec<u8> = (0..len)
            .map(|_| {
                state = state.wrapping_mul(6364136223846793005).wrapping_add(1442695040888963407);
                (state >> 56) as u8
            })
            .collect();
        let _ = decode::decode(&data);
        for tag in 0u8..14 {
            let mut tagged = vec![tag];
            tagged.extend_from_slice(&data);
            let _ = decode::decode(&tagged);
        }
    }
}

#[test]
fn bytes_out_of_range_are_malformed_and_not_truncated() {
    let a = addresses();
    let with = |data: &[u8], at: usize, byte: u8| {
        let mut changed = data.to_vec();
        changed[at] = byte;
        decode::decode(&changed)
    };
    let limit = OrderPacket::limit(Side::Bid, Ticks(9), BaseLots(4));
    let post_only = OrderPacket::post_only(Side::Ask, Ticks(9), BaseLots(4));

    // Of a packet: its kind, its side, whether it is priced, and its policy.
    for packet in [limit, post_only] {
        let data = instruction::place_order(&constants(), &a, &key(9), &packet, Receipt::Off).data;
        assert!(decode::decode(&data).is_ok());
        for (at, byte) in [(1usize, 3u8), (2, 2), (3, 2), (20, 3)] {
            assert_eq!(with(&data, at, byte), Err(InstructionDecodeError::Malformed));
        }
        // A resting order has to be priced.
        assert_eq!(with(&data, 3, 0), Err(InstructionDecodeError::Malformed));
        assert_eq!(decode::decode(&data[..20]), Err(InstructionDecodeError::Truncated));

        let batch = instruction::batch_update(&a, &key(9), &[], &[packet]).data;
        assert!(decode::decode(&batch).is_ok());
        for (at, byte) in [(3usize, 3u8), (4, 2), (5, 2), (22, 3)] {
            assert_eq!(with(&batch, at, byte), Err(InstructionDecodeError::Malformed));
        }
        assert_eq!(decode::decode(&batch[..22]), Err(InstructionDecodeError::Truncated));
    }

    let swap = instruction::swap(
        &constants(), &a, &key(9), &key(1), &key(2), Side::Ask, Ticks(4), BaseLots(5), BaseLots(6),
        7, Receipt::Off,
    )
    .data;
    assert!(decode::decode(&swap).is_ok());
    assert_eq!(with(&swap, 1, 2), Err(InstructionDecodeError::Malformed));
    assert_eq!(decode::decode(&swap[..9]), Err(InstructionDecodeError::Truncated));
}

#[test]
fn a_batch_is_truncated_to_what_its_length_can_say() {
    let ids = vec![FIFOOrderId::new(Side::Ask, Ticks(1), 0); 300];
    let built = instruction::batch_update(&addresses(), &key(9), &ids, &[]);
    assert_eq!(built.data[1], 255);
    assert_eq!(built.data.len(), 2 + 255 * 16 + 1);
}

#[test]
fn the_taker_side_is_the_first_order_that_takes() {
    let resting = instruction::post_only(Side::Bid, Ticks(1), BaseLots(1), PostOnlyRejection::Slide);
    let taking = instruction::fill_or_kill(Side::Ask, Ticks(1), BaseLots(1));
    let batch = ClobInstruction::BatchUpdate { cancels: vec![], orders: vec![resting, taking] };
    assert_eq!(batch.taker_side(), Some(Side::Ask));
    assert!(batch.can_post());
    let only_taking = ClobInstruction::BatchUpdate { cancels: vec![], orders: vec![taking] };
    assert!(!only_taking.can_post());
    let placed = ClobInstruction::PlaceOrder { packet: resting, receipt: false };
    assert_eq!(placed.taker_side(), None);
    assert!(placed.can_post());
    assert_eq!(ClobInstruction::ClaimSeat.taker_side(), None);
}

#[test]
fn exact_bytes_of_a_limit_order() {
    let packet = instruction::limit(Side::Ask, Ticks(150_000), BaseLots(25));
    let built = instruction::place_order(&constants(), &addresses(), &key(100), &packet, Receipt::Off);
    let mut expected = vec![4u8, 0, 1, 1];
    expected.extend_from_slice(&150_000u64.to_le_bytes());
    expected.extend_from_slice(&25u64.to_le_bytes());
    expected.push(0);
    expected.extend_from_slice(&[0xff; 4]);
    assert_eq!(built.data, expected);
    assert!(built.accounts[1].is_signer && !built.accounts[1].is_writable);
    assert!(!built.accounts[0].is_signer && built.accounts[0].is_writable);
}

/// Every instruction that can be built, by name.
fn instruction_cases() -> Vec<(&'static str, Instruction)> {
    let market = addresses();
    let trader = key(100);
    let base = key(101);
    let quote = key(102);
    let order_id = FIFOOrderId::from_encoded(Ticks(150_000), 0xffff_ffff_ffff_fff0);
    let place = |packet: &OrderPacket, receipt: Receipt| {
        instruction::place_order(&constants(), &market, &trader, packet, receipt)
    };
    let quote_at = |side, price, rejection| {
        instruction::post_only(side, Ticks(price), BaseLots(10), rejection)
    };
    vec![
        ("claimSeat", instruction::claim_seat(&market, &trader)),
        ("evictSeat", instruction::evict_seat(&market, &trader)),
        (
            "deposit",
            instruction::deposit(&market, &trader, &base, &quote, BaseLots(1_000), QuoteLots(2_000_000)),
        ),
        (
            "withdraw",
            instruction::withdraw(&market, &trader, &base, &quote, BaseLots(7), QuoteLots(0)),
        ),
        ("limit", place(&instruction::limit(Side::Ask, Ticks(150_000), BaseLots(25)), Receipt::Off)),
        (
            "limitWithReceipt",
            place(&instruction::limit(Side::Bid, Ticks(149_000), BaseLots(25)), Receipt::On),
        ),
        ("postOnlyReject", place(&quote_at(Side::Bid, 149_000, PostOnlyRejection::Reject), Receipt::Off)),
        ("postOnlySlide", place(&quote_at(Side::Ask, 151_000, PostOnlyRejection::Slide), Receipt::Off)),
        (
            "fillOrKill",
            place(&instruction::fill_or_kill(Side::Bid, Ticks(151_000), BaseLots(40)), Receipt::Off),
        ),
        ("marketOrder", place(&instruction::market_order(Side::Ask, BaseLots(40), 64), Receipt::Off)),
        ("cancelOrder", instruction::cancel_order(&market, &trader, &order_id)),
        ("reduceOrder", instruction::reduce_order(&market, &trader, &order_id, BaseLots(5))),
        ("cancelAllOrders", instruction::cancel_all_orders(&market, &trader, Side::Bid, 32)),
        (
            "batchUpdate",
            instruction::batch_update(
                &market,
                &trader,
                &[order_id, FIFOOrderId::from_encoded(Ticks(149_000), 5)],
                &[
                    quote_at(Side::Bid, 148_000, PostOnlyRejection::Reject),
                    quote_at(Side::Ask, 152_000, PostOnlyRejection::Reject),
                ],
            ),
        ),
        ("batchUpdateEmpty", instruction::batch_update(&market, &trader, &[], &[])),
        (
            "swap",
            instruction::swap(
                &constants(), &market, &trader, &base, &quote, Side::Bid, Ticks(151_000), BaseLots(30),
                BaseLots(10), 64, Receipt::Off,
            ),
        ),
        ("collectFees", instruction::collect_fees(&market, &key(8))),
        (
            "initializeMarket",
            instruction::initialize_market(
                &constants(), &market, &key(2), &key(3), &key(7), &key(8), SizeClass::Small,
                &LotConfig::new(1_000, 1_000, 1_000_000, 1).expect("a valid configuration"), 2,
            ),
        ),
    ]
}

#[test]
fn every_case_is_named_once() {
    // A second implementation dispatches on these names. A duplicate would silently test
    // one case twice and leave another untested.
    let cases = instruction_cases();
    let mut names: Vec<&str> = cases.iter().map(|case| case.0).collect();
    names.sort_unstable();
    let total = names.len();
    names.dedup();
    assert_eq!(names.len(), total, "two cases share a name");
}

#[test]
fn every_case_carries_bytes_and_accounts() {
    for (name, case) in instruction_cases() {
        assert!(!case.data.is_empty(), "{name} encodes to nothing");
        assert!(!case.accounts.is_empty(), "{name} names no accounts");
    }
}

// -------------------------------------------------------------------------------------
// Addresses and outside encoders
// -------------------------------------------------------------------------------------

#[test]
fn derived_addresses_are_what_the_outside_crate_derives() {
    let (found, bump) = vault_signer(&constants(), &key(1), &key(2));
    let (expected, expected_bump) = solana_pubkey::Pubkey::find_program_address(
        &[b"vault", &[2u8; 32]],
        &solana_pubkey::Pubkey::new_from_array([1u8; 32]),
    );
    assert_eq!((found.0, bump), (expected.to_bytes(), expected_bump));
    // Deriving again without the search gives the same address.
    let again = solana_pubkey::Pubkey::create_program_address(
        &[b"vault", &[2u8; 32], &[bump]],
        &solana_pubkey::Pubkey::new_from_array([1u8; 32]),
    );
    assert_eq!(again.unwrap().to_bytes(), found.0);
}

#[test]
fn what_cannot_be_derived_is_reported() {
    let none = broken_constants();
    assert_eq!(try_vault_signer(&none, &key(1), &key(2)), None);
    assert_eq!(try_log_authority(&none, &key(1)), None);
    assert_eq!(MarketAddresses::try_new(&none, key(1), key(2), key(3), key(4)), None);
    assert_eq!(try_create_market(&none, &params()), None);
    let packet = instruction::limit(Side::Bid, Ticks(1), BaseLots(1));
    let a = addresses();
    assert_eq!(instruction::try_place_order(&none, &a, &key(9), &packet, Receipt::On), None);
    assert!(instruction::try_place_order(&none, &a, &key(9), &packet, Receipt::Off).is_some());
    assert!(trade::place(&none, &a, &key(9), Side::Bid, 1, 1, true).is_none());
    assert_eq!(
        instruction::try_swap(
            &none, &a, &key(9), &key(1), &key(2), Side::Bid, Ticks(1), BaseLots(1), BaseLots(0), 1,
            Receipt::On,
        ),
        None
    );

    let some = constants();
    assert_eq!(
        MarketAddresses::try_new(&some, key(1), key(2), key(3), key(4)),
        Some(MarketAddresses::new(&some, key(1), key(2), key(3), key(4)))
    );
    assert_eq!(try_create_market(&some, &params()), Some(create_market(&some, &params())));
    assert_eq!(
        instruction::try_place_order(&some, &a, &key(9), &packet, Receipt::On),
        Some(instruction::place_order(&some, &a, &key(9), &packet, Receipt::On))
    );
}

#[test]
fn addresses_are_written_and_read_in_base58() {
    let token = token_program_id();
    let text = token.display();
    assert_eq!(text, "TokenkegQfeZyiNwAJbNbGKPFXCWuBvf9Ss623VQ5DA");
    assert_eq!(Address::parse(&text), Some(token));
    assert_eq!(Address::parse("not an address"), None);
    assert_eq!(Address::parse(""), None);
    assert_eq!(Address([0; 32]).display(), "1".repeat(32));
}

#[test]
fn system_instructions_are_what_the_outside_crate_builds() {
    let setup = create_market(&constants(), &params());
    let built = &setup.instructions[0];
    let p = |byte| solana_pubkey::Pubkey::new_from_array([byte; 32]);
    let expected = solana_system_interface::instruction::create_account(
        &p(2),
        &p(3),
        1_000_000,
        SizeClass::Small.account_len() as u64,
        &p(1),
    );
    assert_eq!(built.data, expected.data);
    assert_eq!(built.data[..4], [0, 0, 0, 0]);
    assert_eq!(built.data[4..12], 1_000_000u64.to_le_bytes());
    assert_eq!(built.data[20..52], [1u8; 32]);
    for (ours, theirs) in built.accounts.iter().zip(expected.accounts.iter()) {
        assert_eq!(ours.pubkey.0, theirs.pubkey.to_bytes());
        assert_eq!((ours.is_signer, ours.is_writable), (theirs.is_signer, theirs.is_writable));
    }

    let plan = launch::create_trader(&key(1), &key(2), &key(3), &key(4), &key(5), &key(6), 77, 10);
    assert_eq!(plan.len(), 7);
    let expected = solana_system_interface::instruction::transfer(&p(1), &p(2), 100_000_000);
    assert_eq!(plan[0].data, expected.data);
    assert_eq!(plan[0].data[..4], [2, 0, 0, 0]);
    assert_eq!(plan[0].program_id, system_program_id());
    assert!(plan[0].accounts[0].is_signer && !plan[0].accounts[1].is_signer);
    assert_eq!(plan[5].data[1..], 10_000_000_000u64.to_le_bytes());
    assert_eq!(plan[6].data[1..], 10_000_000u64.to_le_bytes());
}

// -------------------------------------------------------------------------------------
// The command line's decisions
// -------------------------------------------------------------------------------------

#[test]
fn launching_a_market_takes_three_transactions() {
    assert!(!launch::can_afford_market(199_999_999));
    assert!(launch::can_afford_market(200_000_000));
    assert_eq!(launch::default_lot_config(), LotConfig::new(1_000, 1_000, 1_000_000, 1).unwrap());

    let mints = launch::create_mints(&key(1), &key(2), &key(3), 55);
    assert_eq!(mints.len(), 4);
    assert_eq!(mints[1].data[..2], [20, 9]);
    assert_eq!(mints[3].data[..2], [20, 6]);
    assert_eq!(mints[0].data[12..20], 82u64.to_le_bytes());

    let funding = launch::fund_payer(&key(1), &key(4), &key(5), &key(2), &key(3), 66);
    assert_eq!(funding.len(), 6);
    assert_eq!(funding[4].data[1..], 1_000_000_000_000_000u64.to_le_bytes());
    assert_eq!(funding[5].data[1..], 1_000_000_000_000u64.to_le_bytes());

    let params = launch::market_params(
        &key(9), &key(1), &key(6), &key(7), &key(8), &key(2), &key(3), &key(5), 2, 1_000, 66,
    );
    assert_eq!(params.authority, key(1));
    assert_eq!(params.fee_recipient, key(5));
    assert_eq!(params.size_class, SizeClass::Small);
    assert_eq!(create_market(&constants(), &params).instructions.len(), 6);
}

#[test]
fn a_record_gives_back_the_addresses_it_was_made_from() {
    let a = addresses();
    let mut record = MarketRecord::new(&a, &key(10), &key(11), &key(12), &key(13));
    assert_eq!(record.addresses(&constants()), Ok(a));
    assert_eq!(record.payer_token_accounts(), Ok((key(12), key(13))));
    assert_eq!(record.parse(RecordField::QuoteMint), Ok(key(11)));
    assert_eq!(MarketRecord::file_name("devnet"), "devnet.json");
    assert_eq!(record.addresses(&broken_constants()), Err(RecordError::NoVaultSigner));

    record.market = "nonsense".to_string();
    assert_eq!(
        record.addresses(&constants()),
        Err(RecordError::NotAnAddress(RecordField::Market))
    );
    record.payer_quote = String::new();
    assert_eq!(
        record.payer_token_accounts(),
        Err(RecordError::NotAnAddress(RecordField::PayerQuote))
    );
    assert_eq!(RecordField::PayerQuote.name(), "payer_quote");
}

#[test]
fn trading_commands_build_what_they_say() {
    let a = addresses();
    let funding = trade::fund(&a, &key(9), &key(10), &key(11), 5, 6);
    assert_eq!(funding[0], instruction::claim_seat(&a, &key(9)));
    assert_eq!(
        funding[1],
        instruction::deposit(&a, &key(9), &key(10), &key(11), BaseLots(5), QuoteLots(6))
    );
    let placed = trade::place(&constants(), &a, &key(9), Side::Ask, 100, 7, false).unwrap();
    assert_eq!(
        decode::decode(&placed.data),
        Ok(ClobInstruction::PlaceOrder {
            packet: instruction::limit(Side::Ask, Ticks(100), BaseLots(7)),
            receipt: false,
        })
    );
    assert_eq!(
        trade::cancel_all(&a, &key(9), Side::Bid, 64),
        instruction::cancel_all_orders(&a, &key(9), Side::Bid, 64)
    );
}

fn order(side: Side, price: u64, sequence: u64, seat: u32, size: u64) -> BookOrder {
    BookOrder {
        id: FIFOOrderId::new(side, Ticks(price), sequence),
        trader_index: seat,
        num_base_lots: BaseLots(size),
    }
}

fn state(bids: Vec<BookOrder>, asks: Vec<BookOrder>) -> MarketState {
    MarketState {
        account: clob::client::program::MarketAccountHeader {
            discriminator: 1,
            version: 1,
            size_class: 0,
            vault_signer_bump: 0,
            base_mint: [0; 32],
            quote_mint: [0; 32],
            base_vault: [0; 32],
            quote_vault: [0; 32],
            authority: [0; 32],
            fee_recipient: [44; 32],
        },
        size_class: SizeClass::Small,
        header: MarketHeader::new(launch::default_lot_config(), FeeSchedule::free()).unwrap(),
        bids,
        asks,
        traders: vec![Seat { index: 3, key: TraderKey([9; 32]), state: TraderState::default() }],
    }
}

#[test]
fn quotes_stand_one_tick_outside_the_touch() {
    let (bid, ask) = (order(Side::Bid, 100, 0, 3, 1), order(Side::Ask, 110, 1, 3, 1));
    let prices = |bids, asks| quote_prices(&state(bids, asks));
    assert_eq!(prices(vec![bid], vec![ask]), (Ticks(99), Ticks(111)));
    assert_eq!(prices(vec![], vec![]), (Ticks(1), Ticks(3)));
    assert_eq!(prices(vec![bid], vec![]), (Ticks(99), Ticks(101)));
    assert_eq!(prices(vec![order(Side::Bid, 0, 0, 3, 1)], vec![]), (Ticks(1), Ticks(2)));
    assert_eq!(
        prices(vec![], vec![order(Side::Ask, u64::MAX, 0, 3, 1)]),
        (Ticks(1), Ticks(u64::MAX))
    );
}

#[test]
fn a_plan_measures_what_the_book_allows() {
    let context = Context {
        addresses: addresses(),
        trader: key(9),
        token_base: key(10),
        token_quote: key(11),
    };
    let empty = state(vec![], vec![]);
    assert!(can_be_measured(&empty));
    let probes = try_plan(&constants(), &context, &empty).unwrap();
    let what: Vec<Measured> = probes.iter().map(|probe| probe.what).collect();
    assert_eq!(
        what,
        vec![
            Measured::ClaimSeat,
            Measured::Deposit,
            Measured::Withdraw,
            Measured::PostOnly,
            Measured::PostOnlyWithReceipt,
            Measured::BatchPlace,
            Measured::CancelOne,
            Measured::BatchReplace,
            Measured::CancelAll,
            Measured::CollectFees,
            Measured::SwapCrossing,
        ]
    );
    assert_eq!(probes[6].instruction, Err(Unmeasurable::NothingResting));
    assert_eq!(probes[7].instruction, Err(Unmeasurable::FewerThanFourResting));
    assert_eq!((probes[10].accounts, &probes[10].instruction), (8, &Err(Unmeasurable::NoAsks)));

    let bids: Vec<BookOrder> = (0..4).map(|i| order(Side::Bid, 100 - i, i, 3, 1)).collect();
    let asks = vec![
        order(Side::Ask, 110, 4, 3, 5),
        order(Side::Ask, 110, 5, 8, 6),
        order(Side::Ask, 111, 6, 8, 7),
    ];
    let full = state(bids.clone(), asks);
    let probes = try_plan(&constants(), &context, &full).unwrap();
    assert_eq!(
        probes[6].instruction,
        Ok(instruction::cancel_order(&context.addresses, &key(9), &bids[0].id))
    );
    let ladder: Vec<OrderPacket> = (0..4)
        .map(|i| {
            instruction::post_only(Side::Bid, Ticks(99 - i), BaseLots(1), PostOnlyRejection::Reject)
        })
        .collect();
    let ids: Vec<FIFOOrderId> = bids.iter().map(|order| order.id).collect();
    assert_eq!(
        probes[7].instruction,
        Ok(instruction::batch_update(&context.addresses, &key(9), &ids, &ladder))
    );
    assert_eq!(probes[9].instruction, Ok(instruction::collect_fees(&context.addresses, &key(44))));
    assert_eq!(probes[10].what, Measured::SwapOneLevel);
    assert_eq!(probes[11].what, Measured::SwapSweeping(2));
    assert_eq!(probes[11].what.label(), "swap, sweeping 2 level(s)");
    assert_eq!(probes[5].what.label(), "batch: 0 cancels, 4 places");
    assert_eq!(Unmeasurable::NoAsks.reason(), "no asks are resting");
    let sweep = probes[11].instruction.as_ref().unwrap();
    assert_eq!(
        decode::decode(&sweep.data),
        Ok(ClobInstruction::Swap {
            side: Side::Bid,
            price_in_ticks: Ticks(111),
            num_base_lots: BaseLots(18),
            min_base_lots_to_fill: BaseLots(0),
            match_limit: 64,
            receipt: false,
        })
    );

    assert!(try_plan(&broken_constants(), &context, &full).is_none());
    let huge = state(
        vec![],
        vec![order(Side::Ask, 1, 0, 1, u64::MAX), order(Side::Ask, 2, 1, 1, 1)],
    );
    assert!(!can_be_measured(&huge));
    assert!(!can_be_measured(&state(vec![order(Side::Bid, u64::MAX, 0, 1, 1)], vec![])));
}

#[test]
fn only_a_simulation_that_succeeded_has_a_cost() {
    let said = |error: Option<&str>, units| {
        Ok(Simulation { error: error.map(|text| text.to_string()), compute_units: units })
    };
    assert!(matches!(cost_of(said(None, Some(1_500))), Ok(1_500)));
    assert!(matches!(cost_of(said(None, None)), Err(NoCost::NotReported)));
    assert_eq!(NoCost::NotReported.reason(), "the endpoint reported no compute");
    assert_eq!(NoCost::Reverted("why".to_string()).reason(), "why");
    assert!(matches!(
        cost_of(said(Some("reverted"), Some(9))),
        Err(NoCost::Reverted(why)) if why == "reverted"
    ));
    assert!(matches!(
        cost_of(Err("no route".to_string())),
        Err(NoCost::NotSimulated(why)) if why == "no route"
    ));
}
