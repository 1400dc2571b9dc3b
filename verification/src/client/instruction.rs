//! Typed instruction builders.
//!
//! Every instruction the program accepts, built from typed arguments rather than
//! hand-assembled bytes. What each builder writes is stated in the terms of
//! [`grammar`](super::grammar), and the laws at the end say that
//! [`decode`](super::decode::decode) recognises it.

use vstd::prelude::*;

use super::address::{
    log_authority, try_log_authority, try_vault_signer, vault_signer, Address,
};
#[allow(unused_imports)]
use super::decode::{decoded, lemma_decoded, ClobInstruction, InstructionView};
use super::grammar::{
    lot_config_bytes, order_id_bytes, order_ids_bytes, packet_bytes, packets_bytes, rejection_tag,
    self_trade_tag, side_tag,
};
#[allow(unused_imports)]
use super::grammar::{
    head_bytes, head_of, law_lot_configs_are_read_back, law_order_id_lists_are_read_back,
    law_order_ids_are_read_back, law_packet_lists_are_read_back, law_packets_are_read_back,
    lemma_read_side, lemma_read_u32, lemma_read_u64, lemma_read_u8, tail_bytes,
};
#[allow(unused_imports)]
use super::instruction_laws::{
    is_read, is_signing, is_written, opens_with_trader, pairs_with_vaults,
};
use super::program::{Discriminant, ProgramConstants, SizeClass};
use crate::bytes::{put_u32, put_u64, u32_bytes, u64_bytes};
use crate::engine::{OrderPacket, PostOnlyRejection, SelfTradeBehavior};
use crate::order::{FIFOOrderId, Side};
use crate::quantities::{BaseLots, LotConfig, QuoteLots, Ticks};

verus! {

/// An account an instruction touches, and how.
#[derive(Copy, Clone, Debug, PartialEq, Eq)]
pub struct AccountMeta {
    /// The account.
    pub pubkey: Address,
    /// Whether it must sign.
    pub is_signer: bool,
    /// Whether it may be written.
    pub is_writable: bool,
}

/// A writable account.
pub open spec fn writable(pubkey: Address, is_signer: bool) -> AccountMeta {
    AccountMeta { pubkey, is_signer, is_writable: true }
}

/// A read-only account.
pub open spec fn readonly(pubkey: Address, is_signer: bool) -> AccountMeta {
    AccountMeta { pubkey, is_signer, is_writable: false }
}

impl AccountMeta {
    /// A writable account.
    pub fn new(pubkey: Address, is_signer: bool) -> (meta: Self)
        ensures
            meta == writable(pubkey, is_signer),
    {
        AccountMeta { pubkey, is_signer, is_writable: true }
    }

    /// A read-only account.
    pub fn new_readonly(pubkey: Address, is_signer: bool) -> (meta: Self)
        ensures
            meta == readonly(pubkey, is_signer),
    {
        AccountMeta { pubkey, is_signer, is_writable: false }
    }
}

/// One instruction of a transaction.
#[derive(Clone, Debug, PartialEq, Eq)]
pub struct Instruction {
    /// The program to run.
    pub program_id: Address,
    /// The accounts it is given, in order.
    pub accounts: Vec<AccountMeta>,
    /// What it is told.
    pub data: Vec<u8>,
}

/// An instruction with its lists as sequences.
pub struct Call {
    /// The program to run.
    pub program_id: Address,
    /// The accounts it is given, in order.
    pub accounts: Seq<AccountMeta>,
    /// What it is told.
    pub data: Seq<u8>,
}

impl Instruction {
    /// The instruction with its lists as sequences.
    pub open spec fn view(self) -> Call {
        Call { program_id: self.program_id, accounts: self.accounts@, data: self.data@ }
    }
}

/// Whether an order should emit an event receipt.
///
/// Emission costs about 1,500 compute units and two extra accounts, so it is a choice
/// rather than a default. A market maker cancel-replacing continuously already knows
/// what it submitted; a taker or an aggregator wants the receipt.
#[derive(Copy, Clone, Debug, PartialEq, Eq, Structural)]
pub enum Receipt {
    /// No event. Two accounts.
    Off,
    /// Emit an event. Adds the log authority and the program to the account list.
    On,
}

impl Default for Receipt {
    fn default() -> (receipt: Self)
        ensures
            receipt == Receipt::Off,
    {
        Receipt::Off
    }
}

/// Everything needed to address a market.
#[derive(Copy, Clone, Debug, PartialEq, Eq)]
pub struct MarketAddresses {
    /// The program.
    pub program_id: Address,
    /// The market account.
    pub market: Address,
    /// Vault holding base deposits.
    pub base_vault: Address,
    /// Vault holding quote deposits.
    pub quote_vault: Address,
    /// Authority owning both vaults.
    pub vault_signer: Address,
    /// SPL Token program.
    pub token_program: Address,
}

/// The canonical SPL Token program id.
pub open spec fn token_program() -> Address {
    Address(
        [
            6u8, 221, 246, 225, 215, 101, 161, 147, 217, 203, 225, 70, 206, 235, 121, 172, 28, 180,
            133, 237, 95, 91, 55, 145, 58, 140, 245, 133, 126, 255, 0, 169,
        ],
    )
}

/// The canonical SPL Token program id.
pub fn token_program_id() -> (id: Address)
    ensures
        id == token_program(),
{
    Address(
        [
            6u8, 221, 246, 225, 215, 101, 161, 147, 217, 203, 225, 70, 206, 235, 121, 172, 28, 180,
            133, 237, 95, 91, 55, 145, 58, 140, 245, 133, 126, 255, 0, 169,
        ],
    )
}

impl MarketAddresses {
    /// The addresses of a market whose vault signer is `signer`.
    pub open spec fn with_signer(
        program_id: Address,
        market: Address,
        base_vault: Address,
        quote_vault: Address,
        signer: Address,
    ) -> Self {
        MarketAddresses {
            program_id,
            market,
            base_vault,
            quote_vault,
            vault_signer: signer,
            token_program: token_program(),
        }
    }

    /// Fills in the vault signer and token program from the market address.
    pub fn new(
        constants: &ProgramConstants,
        program_id: Address,
        market: Address,
        base_vault: Address,
        quote_vault: Address,
    ) -> (addresses: Self)
        requires
            constants.vault_signer(program_id, market) is Some,
        ensures
            addresses == Self::with_signer(
                program_id,
                market,
                base_vault,
                quote_vault,
                constants.vault_signer(program_id, market)->Some_0.0,
            ),
    {
        MarketAddresses {
            vault_signer: vault_signer(constants, &program_id, &market).0,
            program_id,
            market,
            base_vault,
            quote_vault,
            token_program: token_program_id(),
        }
    }

    /// As [`MarketAddresses::new`], or `None` if the vault signer cannot be derived.
    pub fn try_new(
        constants: &ProgramConstants,
        program_id: Address,
        market: Address,
        base_vault: Address,
        quote_vault: Address,
    ) -> (addresses: Option<Self>)
        ensures
            addresses == match constants.vault_signer(program_id, market) {
                Some((signer, _)) => Some(
                    Self::with_signer(program_id, market, base_vault, quote_vault, signer),
                ),
                None => None,
            },
    {
        match try_vault_signer(constants, &program_id, &market) {
            Some(_) => Some(Self::new(constants, program_id, market, base_vault, quote_vault)),
            None => None,
        }
    }
}

// ---------------------------------------------------------------------------------
// Encoding
// ---------------------------------------------------------------------------------

/// Encoder for one instruction's data.
struct Data(Vec<u8>);

impl Data {
    spec fn view(self) -> Seq<u8> {
        self.0@
    }

    fn new(discriminant: Discriminant) -> (data: Self)
        ensures
            data.view() == seq![discriminant.tag()],
    {
        let mut bytes: Vec<u8> = Vec::new();
        bytes.push(discriminant.as_u8());
        proof {
            assert(bytes@ =~= seq![discriminant.tag()]);
        }
        Data(bytes)
    }

    fn u8(self, value: u8) -> (data: Self)
        ensures
            data.view() == self.view() + seq![value],
    {
        let mut bytes = self.0;
        bytes.push(value);
        proof {
            assert(bytes@ =~= self.view() + seq![value]);
        }
        Data(bytes)
    }

    fn u32(self, value: u32) -> (data: Self)
        ensures
            data.view() == self.view() + u32_bytes(value),
    {
        let mut bytes = self.0;
        put_u32(&mut bytes, value);
        Data(bytes)
    }

    fn u64(self, value: u64) -> (data: Self)
        ensures
            data.view() == self.view() + u64_bytes(value),
    {
        let mut bytes = self.0;
        put_u64(&mut bytes, value);
        Data(bytes)
    }

    fn side(self, side: Side) -> (data: Self)
        ensures
            data.view() == self.view() + seq![side_tag(side)],
    {
        match side {
            Side::Bid => self.u8(0),
            Side::Ask => self.u8(1),
        }
    }

    fn order_id(self, id: &FIFOOrderId) -> (data: Self)
        ensures
            data.view() == self.view() + order_id_bytes(*id),
    {
        let data = self.u64(id.price_in_ticks.as_u64()).u64(id.order_sequence_number);
        proof {
            assert(data.view() =~= self.view() + order_id_bytes(*id));
        }
        data
    }

    fn self_trade(self, behavior: SelfTradeBehavior) -> (data: Self)
        ensures
            data.view() == self.view() + seq![self_trade_tag(behavior)],
    {
        match behavior {
            SelfTradeBehavior::DecrementTake => self.u8(0),
            SelfTradeBehavior::CancelProvide => self.u8(1),
            SelfTradeBehavior::Abort => self.u8(2),
        }
    }

    fn rejection(self, rejection: PostOnlyRejection) -> (data: Self)
        ensures
            data.view() == self.view() + seq![rejection_tag(rejection)],
    {
        match rejection {
            PostOnlyRejection::Reject => self.u8(0),
            PostOnlyRejection::Slide => self.u8(1),
        }
    }

    /// Order packets are fixed-width up to their kind-specific tail, so an unpriced
    /// market order is a priced packet with the price flag cleared.
    fn packet(self, packet: &OrderPacket) -> (data: Self)
        ensures
            data.view() == self.view() + packet_bytes(*packet),
    {
        let (kind, has_price, price): (u8, bool, Ticks) = match packet {
            OrderPacket::Limit { price_in_ticks, .. } => (0, true, *price_in_ticks),
            OrderPacket::PostOnly { price_in_ticks, .. } => (1, true, *price_in_ticks),
            OrderPacket::ImmediateOrCancel { price_in_ticks, .. } => match price_in_ticks {
                Some(price) => (2, true, *price),
                None => (2, false, Ticks(0)),
            },
        };
        let head = self.u8(kind).side(packet.side()).u8(
            if has_price {
                1
            } else {
                0
            },
        ).u64(price.as_u64()).u64(packet.num_base_lots().as_u64());
        proof {
            assert(head.view() =~= self.view() + head_bytes(head_of(*packet)));
        }
        let data = head.packet_tail(packet);
        proof {
            assert(data.view() =~= self.view() + packet_bytes(*packet));
        }
        data
    }

    /// What follows a packet's head.
    fn packet_tail(self, packet: &OrderPacket) -> (data: Self)
        ensures
            data.view() == self.view() + tail_bytes(*packet),
    {
        let data = match packet {
            OrderPacket::Limit { self_trade_behavior, match_limit, .. } => {
                self.self_trade(*self_trade_behavior).u32(*match_limit)
            },
            OrderPacket::PostOnly { rejection, .. } => self.rejection(*rejection),
            OrderPacket::ImmediateOrCancel {
                min_base_lots_to_fill,
                self_trade_behavior,
                match_limit,
                ..
            } => {
                self.u64(min_base_lots_to_fill.as_u64()).self_trade(*self_trade_behavior).u32(
                    *match_limit,
                )
            },
        };
        proof {
            assert(data.view() =~= self.view() + tail_bytes(*packet));
        }
        data
    }

    /// Appends the log-authority bump when a receipt was asked for.
    fn receipt(
        self,
        constants: &ProgramConstants,
        receipt: Receipt,
        program_id: &Address,
    ) -> (data: Self)
        requires
            receipt == Receipt::On ==> constants.log_authority(*program_id) is Some,
        ensures
            data.view() == self.view() + bump_bytes(*constants, receipt, *program_id),
    {
        match receipt {
            Receipt::Off => {
                proof {
                    assert(self.view() =~= self.view() + Seq::<u8>::empty());
                }
                self
            },
            Receipt::On => self.u8(log_authority(constants, program_id).1),
        }
    }

    fn into_vec(self) -> (bytes: Vec<u8>)
        ensures
            bytes@ == self.view(),
    {
        self.0
    }
}

/// The trailing byte a receipt adds.
pub open spec fn bump_bytes(
    constants: ProgramConstants,
    receipt: Receipt,
    program_id: Address,
) -> Seq<u8> {
    match receipt {
        Receipt::Off => Seq::empty(),
        Receipt::On => seq![constants.log_authority(program_id)->Some_0.1],
    }
}

/// The two accounts a receipt adds.
pub open spec fn receipt_metas(
    constants: ProgramConstants,
    receipt: Receipt,
    program_id: Address,
) -> Seq<AccountMeta> {
    match receipt {
        Receipt::Off => Seq::empty(),
        Receipt::On => seq![
            readonly(constants.log_authority(program_id)->Some_0.0, false),
            readonly(program_id, false),
        ],
    }
}

/// Whether what a receipt needs can be derived.
pub open spec fn can_receipt(
    constants: ProgramConstants,
    receipt: Receipt,
    program_id: Address,
) -> bool {
    receipt == Receipt::On ==> constants.log_authority(program_id) is Some
}

/// Appends the two accounts a receipt needs.
fn receipt_accounts(
    constants: &ProgramConstants,
    accounts: &mut Vec<AccountMeta>,
    receipt: Receipt,
    program_id: &Address,
)
    requires
        can_receipt(*constants, receipt, *program_id),
    ensures
        final(accounts)@ == old(accounts)@ + receipt_metas(*constants, receipt, *program_id),
{
    match receipt {
        Receipt::Off => {},
        Receipt::On => {
            accounts.push(
                AccountMeta::new_readonly(log_authority(constants, program_id).0, false),
            );
            accounts.push(AccountMeta::new_readonly(*program_id, false));
        },
    }
    proof {
        assert(accounts@ =~= old(accounts)@ + receipt_metas(*constants, receipt, *program_id));
    }
}

// ---------------------------------------------------------------------------------
// Instructions
// ---------------------------------------------------------------------------------

/// A creation's data.
pub open spec fn initialize_market_data(
    size_class: SizeClass,
    lot_config: LotConfig,
    taker_fee_bps: u64,
    bump: u8,
) -> Seq<u8> {
    seq![Discriminant::InitializeMarket.tag()] + (u64_bytes(size_class.code()) + (lot_config_bytes(
        lot_config,
    ) + (u64_bytes(taker_fee_bps) + seq![bump])))
}

/// Creates a market in an account the caller has already allocated.
///
/// Allocation stays with the caller because it needs the payer's signature on a
/// `CreateAccount` from the system program; this instruction validates the size it was
/// given rather than choosing it.
pub fn initialize_market(
    constants: &ProgramConstants,
    addresses: &MarketAddresses,
    base_mint: &Address,
    quote_mint: &Address,
    authority: &Address,
    fee_recipient: &Address,
    size_class: SizeClass,
    lot_config: &LotConfig,
    taker_fee_bps: u64,
) -> (instruction: Instruction)
    requires
        constants.vault_signer(addresses.program_id, addresses.market) is Some,
    ensures
        instruction.view() == (Call {
            program_id: addresses.program_id,
            accounts: seq![
                writable(addresses.market, false),
                readonly(*base_mint, false),
                readonly(*quote_mint, false),
                readonly(addresses.base_vault, false),
                readonly(addresses.quote_vault, false),
                readonly(addresses.vault_signer, false),
                readonly(*authority, true),
                readonly(*fee_recipient, false),
            ],
            data: initialize_market_data(
                size_class,
                *lot_config,
                taker_fee_bps,
                constants.vault_signer(addresses.program_id, addresses.market)->Some_0.1,
            ),
        }),
        instruction.accounts@.len() == 8,
        is_written(instruction.accounts@[0], addresses.market),
        is_read(instruction.accounts@[1], *base_mint),
        is_read(instruction.accounts@[2], *quote_mint),
        is_read(instruction.accounts@[3], addresses.base_vault),
        is_read(instruction.accounts@[4], addresses.quote_vault),
        is_read(instruction.accounts@[5], addresses.vault_signer),
        is_signing(instruction.accounts@[6], *authority),
        is_read(instruction.accounts@[7], *fee_recipient),
{
    let bump = vault_signer(constants, &addresses.program_id, &addresses.market).1;
    let data = Data::new(Discriminant::InitializeMarket).u64(size_class.as_u64()).u64(
        lot_config.base_lots_per_base_unit,
    ).u64(lot_config.tick_size_in_quote_lots_per_base_unit).u64(
        lot_config.base_atoms_per_base_lot,
    ).u64(lot_config.quote_atoms_per_quote_lot).u64(taker_fee_bps).u8(bump).into_vec();
    proof {
        assert(data@ =~= initialize_market_data(size_class, *lot_config, taker_fee_bps, bump));
    }
    let instruction = Instruction {
        program_id: addresses.program_id,
        accounts: vec![
            AccountMeta::new(addresses.market, false),
            AccountMeta::new_readonly(*base_mint, false),
            AccountMeta::new_readonly(*quote_mint, false),
            AccountMeta::new_readonly(addresses.base_vault, false),
            AccountMeta::new_readonly(addresses.quote_vault, false),
            AccountMeta::new_readonly(addresses.vault_signer, false),
            AccountMeta::new_readonly(*authority, true),
            AccountMeta::new_readonly(*fee_recipient, false),
        ],
        data,
    };
    proof {
        assert(instruction.accounts@ =~= seq![
            writable(addresses.market, false),
            readonly(*base_mint, false),
            readonly(*quote_mint, false),
            readonly(addresses.base_vault, false),
            readonly(addresses.quote_vault, false),
            readonly(addresses.vault_signer, false),
            readonly(*authority, true),
            readonly(*fee_recipient, false),
        ]);
    }
    instruction
}

/// The market, writable, and the trader, signing: what most instructions touch.
pub open spec fn market_and_trader(addresses: MarketAddresses, trader: Address) -> Seq<
    AccountMeta,
> {
    seq![writable(addresses.market, false), readonly(trader, true)]
}

/// The market and the trader.
fn market_and_trader_metas(addresses: &MarketAddresses, trader: &Address) -> (accounts: Vec<
    AccountMeta,
>)
    ensures
        accounts@ == market_and_trader(*addresses, *trader),
{
    let accounts = vec![
        AccountMeta::new(addresses.market, false),
        AccountMeta::new_readonly(*trader, true),
    ];
    proof {
        assert(accounts@ =~= market_and_trader(*addresses, *trader));
    }
    accounts
}

/// What [`claim_seat`] builds.
pub open spec fn claiming(
    addresses: MarketAddresses,
    trader: Address,
) -> Call {
    Call {
        program_id: addresses.program_id,
        accounts: market_and_trader(addresses, trader),
        data: seq![Discriminant::ClaimSeat.tag()],
    }
}

/// Claims a seat, or returns the existing one. Idempotent, so it is safe to send before
/// a first order without reading the market first.
pub fn claim_seat(addresses: &MarketAddresses, trader: &Address) -> (instruction: Instruction)
    ensures
        instruction.view() == claiming(*addresses, *trader),
{
    Instruction {
        program_id: addresses.program_id,
        accounts: market_and_trader_metas(addresses, trader),
        data: Data::new(Discriminant::ClaimSeat).into_vec(),
    }
}

/// What [`evict_seat`] builds.
pub open spec fn evicting(
    addresses: MarketAddresses,
    trader: Address,
) -> Call {
    Call {
        program_id: addresses.program_id,
        accounts: seq![writable(addresses.market, false), readonly(trader, false)],
        data: seq![Discriminant::EvictSeat.tag()],
    }
}

/// Returns an empty seat to the market, making room for a new trader.
///
/// Permissionless: no signature from the evicted trader, and none needed. The
/// instruction only succeeds on a seat holding nothing at all, and losing an empty seat
/// costs its owner nothing — claiming is free and idempotent. Requiring a signature
/// would put the market's liveness in the hands of the people who have already stopped
/// participating.
///
/// Use [`MarketState::evictable_seats`](super::state::MarketState::evictable_seats) to
/// find candidates without guessing.
pub fn evict_seat(addresses: &MarketAddresses, trader: &Address) -> (instruction: Instruction)
    ensures
        instruction.view() == evicting(*addresses, *trader),
{
    let accounts = vec![
        AccountMeta::new(addresses.market, false),
        AccountMeta::new_readonly(*trader, false),
    ];
    proof {
        assert(accounts@ =~= seq![writable(addresses.market, false), readonly(*trader, false)]);
    }
    Instruction {
        program_id: addresses.program_id,
        accounts,
        data: Data::new(Discriminant::EvictSeat).into_vec(),
    }
}

/// Two amounts behind a leading byte.
pub open spec fn amounts_data(
    discriminant: Discriminant,
    base_lots: BaseLots,
    quote_lots: QuoteLots,
) -> Seq<u8> {
    seq![discriminant.tag()] + (u64_bytes(base_lots.0) + u64_bytes(quote_lots.0))
}

/// Two amounts behind a leading byte.
fn amounts(discriminant: Discriminant, base_lots: BaseLots, quote_lots: QuoteLots) -> (data: Vec<
    u8,
>)
    ensures
        data@ == amounts_data(discriminant, base_lots, quote_lots),
{
    let data = Data::new(discriminant).u64(base_lots.as_u64()).u64(quote_lots.as_u64()).into_vec();
    proof {
        assert(data@ =~= amounts_data(discriminant, base_lots, quote_lots));
    }
    data
}

/// What [`deposit`] builds.
pub open spec fn depositing(
    addresses: MarketAddresses,
    trader: Address,
    trader_base: Address,
    trader_quote: Address,
    base_lots: BaseLots,
    quote_lots: QuoteLots,
) -> Call {
    Call {
        program_id: addresses.program_id,
        accounts: seq![
            writable(addresses.market, false),
            readonly(trader, true),
            writable(trader_base, false),
            writable(trader_quote, false),
            writable(addresses.base_vault, false),
            writable(addresses.quote_vault, false),
            readonly(addresses.token_program, false),
        ],
        data: amounts_data(Discriminant::Deposit, base_lots, quote_lots),
    }
}

/// Moves tokens in and credits a seat. Amounts are in lots, which convert to atoms
/// exactly — atoms would round down and strand the remainder in the vault.
pub fn deposit(
    addresses: &MarketAddresses,
    trader: &Address,
    trader_base: &Address,
    trader_quote: &Address,
    base_lots: BaseLots,
    quote_lots: QuoteLots,
) -> (instruction: Instruction)
    ensures
        instruction.view() == depositing(*addresses, *trader, *trader_base, *trader_quote, base_lots, quote_lots),
        instruction.accounts@.len() == 7,
        opens_with_trader(instruction.accounts@, *addresses, *trader),
        pairs_with_vaults(instruction.accounts@, *addresses, *trader_base, *trader_quote),
        is_read(instruction.accounts@[6], addresses.token_program),
{
    let accounts = vec![
        AccountMeta::new(addresses.market, false),
        AccountMeta::new_readonly(*trader, true),
        AccountMeta::new(*trader_base, false),
        AccountMeta::new(*trader_quote, false),
        AccountMeta::new(addresses.base_vault, false),
        AccountMeta::new(addresses.quote_vault, false),
        AccountMeta::new_readonly(addresses.token_program, false),
    ];
    proof {
        assert(accounts@ =~= seq![
            writable(addresses.market, false),
            readonly(*trader, true),
            writable(*trader_base, false),
            writable(*trader_quote, false),
            writable(addresses.base_vault, false),
            writable(addresses.quote_vault, false),
            readonly(addresses.token_program, false),
        ]);
    }
    Instruction {
        program_id: addresses.program_id,
        accounts,
        data: amounts(Discriminant::Deposit, base_lots, quote_lots),
    }
}

/// The accounts of an instruction that moves tokens out of the vaults.
pub open spec fn settlement_metas(
    addresses: MarketAddresses,
    trader: Address,
    trader_base: Address,
    trader_quote: Address,
) -> Seq<AccountMeta> {
    seq![
        writable(addresses.market, false),
        readonly(trader, true),
        writable(trader_base, false),
        writable(trader_quote, false),
        writable(addresses.base_vault, false),
        writable(addresses.quote_vault, false),
        readonly(addresses.vault_signer, false),
        readonly(addresses.token_program, false),
    ]
}

/// The accounts of an instruction that moves tokens out of the vaults.
fn settlement_accounts(
    addresses: &MarketAddresses,
    trader: &Address,
    trader_base: &Address,
    trader_quote: &Address,
) -> (accounts: Vec<AccountMeta>)
    ensures
        accounts@ == settlement_metas(*addresses, *trader, *trader_base, *trader_quote),
{
    let accounts = vec![
        AccountMeta::new(addresses.market, false),
        AccountMeta::new_readonly(*trader, true),
        AccountMeta::new(*trader_base, false),
        AccountMeta::new(*trader_quote, false),
        AccountMeta::new(addresses.base_vault, false),
        AccountMeta::new(addresses.quote_vault, false),
        AccountMeta::new_readonly(addresses.vault_signer, false),
        AccountMeta::new_readonly(addresses.token_program, false),
    ];
    proof {
        assert(accounts@ =~= settlement_metas(*addresses, *trader, *trader_base, *trader_quote));
    }
    accounts
}

/// What [`withdraw`] builds.
pub open spec fn withdrawing(
    addresses: MarketAddresses,
    trader: Address,
    trader_base: Address,
    trader_quote: Address,
    base_lots: BaseLots,
    quote_lots: QuoteLots,
) -> Call {
    Call {
        program_id: addresses.program_id,
        accounts: settlement_metas(addresses, trader, trader_base, trader_quote),
        data: amounts_data(Discriminant::Withdraw, base_lots, quote_lots),
    }
}

/// Debits a seat and moves tokens out. Only free balances can leave; funds locked
/// behind resting orders have to be cancelled first.
pub fn withdraw(
    addresses: &MarketAddresses,
    trader: &Address,
    trader_base: &Address,
    trader_quote: &Address,
    base_lots: BaseLots,
    quote_lots: QuoteLots,
) -> (instruction: Instruction)
    ensures
        instruction.view() == withdrawing(*addresses, *trader, *trader_base, *trader_quote, base_lots, quote_lots),
        instruction.accounts@.len() == 8,
        opens_with_trader(instruction.accounts@, *addresses, *trader),
        pairs_with_vaults(instruction.accounts@, *addresses, *trader_base, *trader_quote),
        is_read(instruction.accounts@[6], addresses.vault_signer),
        is_read(instruction.accounts@[7], addresses.token_program),
{
    Instruction {
        program_id: addresses.program_id,
        accounts: settlement_accounts(addresses, trader, trader_base, trader_quote),
        data: amounts(Discriminant::Withdraw, base_lots, quote_lots),
    }
}

/// A placement's data.
pub open spec fn place_order_data(packet: OrderPacket, bump: Seq<u8>) -> Seq<u8> {
    seq![Discriminant::PlaceOrder.tag()] + (packet_bytes(packet) + bump)
}

/// Submits an order against funds already on the market.
pub fn place_order(
    constants: &ProgramConstants,
    addresses: &MarketAddresses,
    trader: &Address,
    packet: &OrderPacket,
    receipt: Receipt,
) -> (instruction: Instruction)
    requires
        can_receipt(*constants, receipt, addresses.program_id),
    ensures
        instruction.view() == placement(*constants, *addresses, *trader, *packet, receipt),
{
    let mut accounts = market_and_trader_metas(addresses, trader);
    receipt_accounts(constants, &mut accounts, receipt, &addresses.program_id);
    let data = Data::new(Discriminant::PlaceOrder).packet(packet).receipt(
        constants,
        receipt,
        &addresses.program_id,
    ).into_vec();
    proof {
        assert(data@ =~= place_order_data(
            *packet,
            bump_bytes(*constants, receipt, addresses.program_id),
        ));
    }
    Instruction { program_id: addresses.program_id, accounts, data }
}

/// What [`place_order`] builds.
pub open spec fn placement(
    constants: ProgramConstants,
    addresses: MarketAddresses,
    trader: Address,
    packet: OrderPacket,
    receipt: Receipt,
) -> Call {
    Call {
        program_id: addresses.program_id,
        accounts: market_and_trader(addresses, trader) + receipt_metas(
            constants,
            receipt,
            addresses.program_id,
        ),
        data: place_order_data(packet, bump_bytes(constants, receipt, addresses.program_id)),
    }
}

/// As [`place_order`], or `None` if a receipt was asked for and its authority cannot be
/// derived.
pub fn try_place_order(
    constants: &ProgramConstants,
    addresses: &MarketAddresses,
    trader: &Address,
    packet: &OrderPacket,
    receipt: Receipt,
) -> (instruction: Option<Instruction>)
    ensures
        match instruction {
            Some(built) => {
                &&& can_receipt(*constants, receipt, addresses.program_id)
                &&& built.view() == placement(*constants, *addresses, *trader, *packet, receipt)
            },
            None => !can_receipt(*constants, receipt, addresses.program_id),
        },
{
    if receipt == Receipt::On && try_log_authority(constants, &addresses.program_id).is_none() {
        return None;
    }
    Some(place_order(constants, addresses, trader, packet, receipt))
}

/// What [`cancel_order`] builds.
pub open spec fn cancelling(
    addresses: MarketAddresses,
    trader: Address,
    order_id: FIFOOrderId,
) -> Call {
    Call {
        program_id: addresses.program_id,
        accounts: market_and_trader(addresses, trader),
        data: seq![Discriminant::CancelOrder.tag()] + order_id_bytes(order_id),
    }
}

/// Cancels a resting order and releases its backing funds.
pub fn cancel_order(addresses: &MarketAddresses, trader: &Address, order_id: &FIFOOrderId) -> (
    instruction: Instruction)
    ensures
        instruction.view() == cancelling(*addresses, *trader, *order_id),
{
    Instruction {
        program_id: addresses.program_id,
        accounts: market_and_trader_metas(addresses, trader),
        data: Data::new(Discriminant::CancelOrder).order_id(order_id).into_vec(),
    }
}

/// A reduction's data.
pub open spec fn reduce_order_data(order_id: FIFOOrderId, base_lots: BaseLots) -> Seq<u8> {
    seq![Discriminant::ReduceOrder.tag()] + (order_id_bytes(order_id) + u64_bytes(base_lots.0))
}

/// What [`reduce_order`] builds.
pub open spec fn reducing(
    addresses: MarketAddresses,
    trader: Address,
    order_id: FIFOOrderId,
    base_lots: BaseLots,
) -> Call {
    Call {
        program_id: addresses.program_id,
        accounts: market_and_trader(addresses, trader),
        data: reduce_order_data(order_id, base_lots),
    }
}

/// Shrinks a resting order without giving up its queue position.
pub fn reduce_order(
    addresses: &MarketAddresses,
    trader: &Address,
    order_id: &FIFOOrderId,
    base_lots: BaseLots,
) -> (instruction: Instruction)
    ensures
        instruction.view() == reducing(*addresses, *trader, *order_id, base_lots),
{
    let data = Data::new(Discriminant::ReduceOrder).order_id(order_id).u64(
        base_lots.as_u64(),
    ).into_vec();
    proof {
        assert(data@ =~= reduce_order_data(*order_id, base_lots));
    }
    Instruction {
        program_id: addresses.program_id,
        accounts: market_and_trader_metas(addresses, trader),
        data,
    }
}

/// At most the first 255 of a list: what a length byte can express.
pub open spec fn listed<T>(items: Seq<T>) -> Seq<T> {
    if items.len() <= 255 {
        items
    } else {
        items.take(255)
    }
}

/// A batch's data.
pub open spec fn batch_data(cancels: Seq<FIFOOrderId>, orders: Seq<OrderPacket>) -> Seq<u8> {
    seq![Discriminant::BatchUpdate.tag()] + (seq![cancels.len() as u8] + (order_ids_bytes(cancels)
        + (seq![orders.len() as u8] + packets_bytes(orders))))
}

/// What [`batch_update`] builds.
pub open spec fn batching(
    addresses: MarketAddresses,
    trader: Address,
    cancels: Seq<FIFOOrderId>,
    orders: Seq<OrderPacket>,
) -> Call {
    Call {
        program_id: addresses.program_id,
        accounts: market_and_trader(addresses, trader),
        data: batch_data(listed(cancels), listed(orders)),
    }
}

/// Cancels a set of orders and places a set of orders, in one instruction.
///
/// The market-maker cycle. Doing it as separate instructions means a transaction per
/// quote update, and a maker refreshing a two-sided ladder does that continuously.
///
/// Cancels run first, because releasing the capital behind stale quotes is what funds
/// the new ones. A cancel that finds nothing is not an error — the order was filled,
/// which is the ordinary case rather than a failure. Placement is all-or-nothing.
///
/// There is no receipt form: the receipt exists for takers and aggregators, and a maker
/// already knows what it submitted.
///
/// Counts above 255 are rejected by the caller's transaction size long before they reach
/// this, and both lists are truncated to what a `u8` can express.
pub fn batch_update(
    addresses: &MarketAddresses,
    trader: &Address,
    cancels: &[FIFOOrderId],
    orders: &[OrderPacket],
) -> (instruction: Instruction)
    ensures
        instruction.view() == batching(*addresses, *trader, cancels@, orders@),
{
    let ghost ids = listed(cancels@);
    let ghost packets = listed(orders@);
    let cancel_count: usize = if cancels.len() <= 255 {
        cancels.len()
    } else {
        255
    };
    let order_count: usize = if orders.len() <= 255 {
        orders.len()
    } else {
        255
    };
    let mut data = Data::new(Discriminant::BatchUpdate).u8(cancel_count as u8);
    let ghost start = data.view();
    let mut i: usize = 0;
    proof {
        assert(ids.skip(0) =~= ids);
    }
    while i < cancel_count
        invariant
            i <= cancel_count == ids.len(),
            ids == listed(cancels@),
            cancel_count <= cancels@.len(),
            data.view() + order_ids_bytes(ids.skip(i as int)) == start + order_ids_bytes(ids),
        decreases cancel_count - i,
    {
        let ghost before = data.view();
        data = data.order_id(&cancels[i]);
        proof {
            let rest = ids.skip(i as int);
            assert(rest[0] == cancels@[i as int]);
            assert(rest.drop_first() =~= ids.skip(i + 1));
            assert(before + order_ids_bytes(rest) =~= data.view() + order_ids_bytes(
                ids.skip(i + 1),
            ));
        }
        i = i + 1;
    }
    proof {
        assert(ids.skip(ids.len() as int) =~= Seq::empty());
        assert(data.view() =~= start + order_ids_bytes(ids));
    }
    data = data.u8(order_count as u8);
    let ghost middle = data.view();
    let mut j: usize = 0;
    proof {
        assert(packets.skip(0) =~= packets);
    }
    while j < order_count
        invariant
            j <= order_count == packets.len(),
            packets == listed(orders@),
            order_count <= orders@.len(),
            data.view() + packets_bytes(packets.skip(j as int)) == middle + packets_bytes(packets),
        decreases order_count - j,
    {
        let ghost before = data.view();
        data = data.packet(&orders[j]);
        proof {
            let rest = packets.skip(j as int);
            assert(rest[0] == orders@[j as int]);
            assert(rest.drop_first() =~= packets.skip(j + 1));
            assert(before + packets_bytes(rest) =~= data.view() + packets_bytes(
                packets.skip(j + 1),
            ));
        }
        j = j + 1;
    }
    proof {
        assert(packets.skip(packets.len() as int) =~= Seq::empty());
        assert(data.view() =~= batch_data(ids, packets));
    }
    Instruction {
        program_id: addresses.program_id,
        accounts: market_and_trader_metas(addresses, trader),
        data: data.into_vec(),
    }
}

/// A cancel-all's data.
pub open spec fn cancel_all_data(side: Side, limit: u32) -> Seq<u8> {
    seq![Discriminant::CancelAllOrders.tag()] + (seq![side_tag(side)] + u32_bytes(limit))
}

/// What [`cancel_all_orders`] builds.
pub open spec fn cancelling_all(
    addresses: MarketAddresses,
    trader: Address,
    side: Side,
    limit: u32,
) -> Call {
    Call {
        program_id: addresses.program_id,
        accounts: market_and_trader(addresses, trader),
        data: cancel_all_data(side, limit),
    }
}

/// Cancels up to `limit` of the caller's orders on one side.
///
/// The bound is the caller's to set. An unbounded cancel-all on a deep book can exceed
/// the compute budget and revert, which is the worst possible moment to fail.
pub fn cancel_all_orders(
    addresses: &MarketAddresses,
    trader: &Address,
    side: Side,
    limit: u32,
) -> (instruction: Instruction)
    ensures
        instruction.view() == cancelling_all(*addresses, *trader, side, limit),
{
    let data = Data::new(Discriminant::CancelAllOrders).side(side).u32(limit).into_vec();
    proof {
        assert(data@ =~= cancel_all_data(side, limit));
    }
    Instruction {
        program_id: addresses.program_id,
        accounts: market_and_trader_metas(addresses, trader),
        data,
    }
}

/// What [`collect_fees`] builds.
pub open spec fn collecting(
    addresses: MarketAddresses,
    fee_recipient: Address,
) -> Call {
    Call {
        program_id: addresses.program_id,
        accounts: seq![
            writable(addresses.market, false),
            writable(addresses.quote_vault, false),
            writable(fee_recipient, false),
            readonly(addresses.vault_signer, false),
            readonly(addresses.token_program, false),
        ],
        data: seq![Discriminant::CollectFees.tag()],
    }
}

/// Sweeps accrued fees to the market's fee recipient. Permissionless — the recipient is
/// fixed in the market header, so there is nothing to gain by calling it.
pub fn collect_fees(addresses: &MarketAddresses, fee_recipient: &Address) -> (instruction:
    Instruction)
    ensures
        instruction.view() == collecting(*addresses, *fee_recipient),
        instruction.accounts@.len() == 5,
        is_written(instruction.accounts@[0], addresses.market),
        is_written(instruction.accounts@[1], addresses.quote_vault),
        is_written(instruction.accounts@[2], *fee_recipient),
        is_read(instruction.accounts@[3], addresses.vault_signer),
        is_read(instruction.accounts@[4], addresses.token_program),
{
    let accounts = vec![
        AccountMeta::new(addresses.market, false),
        AccountMeta::new(addresses.quote_vault, false),
        AccountMeta::new(*fee_recipient, false),
        AccountMeta::new_readonly(addresses.vault_signer, false),
        AccountMeta::new_readonly(addresses.token_program, false),
    ];
    proof {
        assert(accounts@ =~= seq![
            writable(addresses.market, false),
            writable(addresses.quote_vault, false),
            writable(*fee_recipient, false),
            readonly(addresses.vault_signer, false),
            readonly(addresses.token_program, false),
        ]);
    }
    Instruction {
        program_id: addresses.program_id,
        accounts,
        data: Data::new(Discriminant::CollectFees).into_vec(),
    }
}

/// A swap's data.
pub open spec fn swap_data(
    side: Side,
    price_in_ticks: Ticks,
    num_base_lots: BaseLots,
    min_base_lots_to_fill: BaseLots,
    match_limit: u32,
    bump: Seq<u8>,
) -> Seq<u8> {
    seq![Discriminant::Swap.tag()] + (seq![side_tag(side)] + (u64_bytes(price_in_ticks.0) + (
    u64_bytes(num_base_lots.0) + (u64_bytes(min_base_lots_to_fill.0) + (u32_bytes(match_limit)
        + bump)))))
}

/// What [`swap`] builds.
pub open spec fn swapping(
    constants: ProgramConstants,
    addresses: MarketAddresses,
    trader: Address,
    trader_base: Address,
    trader_quote: Address,
    side: Side,
    price_in_ticks: Ticks,
    num_base_lots: BaseLots,
    min_base_lots_to_fill: BaseLots,
    match_limit: u32,
    receipt: Receipt,
) -> Call {
    Call {
        program_id: addresses.program_id,
        accounts: settlement_metas(addresses, trader, trader_base, trader_quote) + receipt_metas(
            constants,
            receipt,
            addresses.program_id,
        ),
        data: swap_data(
            side,
            price_in_ticks,
            num_base_lots,
            min_base_lots_to_fill,
            match_limit,
            bump_bytes(constants, receipt, addresses.program_id),
        ),
    }
}

/// Deposits, matches and withdraws in one instruction, for a caller holding no balance
/// on the market.
///
/// A swap must be priced: the program moves in the most the order could cost, and an
/// unpriced market buy has no bounded cost.
pub fn swap(
    constants: &ProgramConstants,
    addresses: &MarketAddresses,
    trader: &Address,
    trader_base: &Address,
    trader_quote: &Address,
    side: Side,
    price_in_ticks: Ticks,
    num_base_lots: BaseLots,
    min_base_lots_to_fill: BaseLots,
    match_limit: u32,
    receipt: Receipt,
) -> (instruction: Instruction)
    requires
        can_receipt(*constants, receipt, addresses.program_id),
    ensures
        instruction.view() == swapping(
            *constants,
            *addresses,
            *trader,
            *trader_base,
            *trader_quote,
            side,
            price_in_ticks,
            num_base_lots,
            min_base_lots_to_fill,
            match_limit,
            receipt,
        ),
{
    let mut accounts = settlement_accounts(addresses, trader, trader_base, trader_quote);
    receipt_accounts(constants, &mut accounts, receipt, &addresses.program_id);
    let data = Data::new(Discriminant::Swap).side(side).u64(price_in_ticks.as_u64()).u64(
        num_base_lots.as_u64(),
    ).u64(min_base_lots_to_fill.as_u64()).u32(match_limit).receipt(
        constants,
        receipt,
        &addresses.program_id,
    ).into_vec();
    proof {
        assert(data@ =~= swap_data(
            side,
            price_in_ticks,
            num_base_lots,
            min_base_lots_to_fill,
            match_limit,
            bump_bytes(*constants, receipt, addresses.program_id),
        ));
    }
    Instruction { program_id: addresses.program_id, accounts, data }
}

/// As [`swap`], or `None` if a receipt was asked for and its authority cannot be derived.
pub fn try_swap(
    constants: &ProgramConstants,
    addresses: &MarketAddresses,
    trader: &Address,
    trader_base: &Address,
    trader_quote: &Address,
    side: Side,
    price_in_ticks: Ticks,
    num_base_lots: BaseLots,
    min_base_lots_to_fill: BaseLots,
    match_limit: u32,
    receipt: Receipt,
) -> (instruction: Option<Instruction>)
    ensures
        match instruction {
            Some(built) => {
                &&& can_receipt(*constants, receipt, addresses.program_id)
                &&& built.view() == swapping(
                    *constants,
                    *addresses,
                    *trader,
                    *trader_base,
                    *trader_quote,
                    side,
                    price_in_ticks,
                    num_base_lots,
                    min_base_lots_to_fill,
                    match_limit,
                    receipt,
                )
            },
            None => !can_receipt(*constants, receipt, addresses.program_id),
        },
{
    if receipt == Receipt::On && try_log_authority(constants, &addresses.program_id).is_none() {
        return None;
    }
    Some(
        swap(
            constants,
            addresses,
            trader,
            trader_base,
            trader_quote,
            side,
            price_in_ticks,
            num_base_lots,
            min_base_lots_to_fill,
            match_limit,
            receipt,
        ),
    )
}

// ---------------------------------------------------------------------------------
// Convenience constructors for the common order shapes
// ---------------------------------------------------------------------------------

/// A good-till-cancelled limit order that crosses first and rests the remainder.
pub fn limit(side: Side, price_in_ticks: Ticks, num_base_lots: BaseLots) -> (packet: OrderPacket)
    ensures
        packet == (OrderPacket::Limit {
            side,
            price_in_ticks,
            num_base_lots,
            self_trade_behavior: SelfTradeBehavior::DecrementTake,
            match_limit: u32::MAX,
        }),
{
    OrderPacket::limit(side, price_in_ticks, num_base_lots)
}

/// A quote that rests or is rejected, never taking liquidity.
pub fn post_only(
    side: Side,
    price_in_ticks: Ticks,
    num_base_lots: BaseLots,
    rejection: PostOnlyRejection,
) -> (packet: OrderPacket)
    ensures
        packet == (OrderPacket::PostOnly { side, price_in_ticks, num_base_lots, rejection }),
{
    OrderPacket::PostOnly { side, price_in_ticks, num_base_lots, rejection }
}

/// An unpriced sweep that keeps whatever it fills.
pub fn market_order(side: Side, num_base_lots: BaseLots, match_limit: u32) -> (packet: OrderPacket)
    ensures
        packet == (OrderPacket::ImmediateOrCancel {
            side,
            price_in_ticks: None,
            num_base_lots,
            min_base_lots_to_fill: BaseLots(0),
            self_trade_behavior: SelfTradeBehavior::DecrementTake,
            match_limit,
        }),
{
    OrderPacket::ImmediateOrCancel {
        side,
        price_in_ticks: None,
        num_base_lots,
        min_base_lots_to_fill: BaseLots(0),
        self_trade_behavior: SelfTradeBehavior::DecrementTake,
        match_limit,
    }
}

/// An all-or-nothing immediate order.
pub fn fill_or_kill(side: Side, price_in_ticks: Ticks, num_base_lots: BaseLots) -> (packet:
    OrderPacket)
    ensures
        packet == (OrderPacket::ImmediateOrCancel {
            side,
            price_in_ticks: Some(price_in_ticks),
            num_base_lots,
            min_base_lots_to_fill: num_base_lots,
            self_trade_behavior: SelfTradeBehavior::DecrementTake,
            match_limit: u32::MAX,
        }),
{
    OrderPacket::fill_or_kill(side, price_in_ticks, num_base_lots)
}

// ---------------------------------------------------------------------------------
// Anything that can be built is recognised
// ---------------------------------------------------------------------------------

/// A creation decodes to what it was built from.
pub proof fn law_creations_are_recognised(
    size_class: SizeClass,
    lot_config: LotConfig,
    taker_fee_bps: u64,
    bump: u8,
)
    ensures
        decoded(initialize_market_data(size_class, lot_config, taker_fee_bps, bump)) == Ok::<
            InstructionView,
            super::decode::InstructionDecodeError,
        >(
            InstructionView::Single(
                ClobInstruction::InitializeMarket { size_class, lot_config, taker_fee_bps },
            ),
        ),
{
    let fee = u64_bytes(taker_fee_bps) + seq![bump];
    let lots = lot_config_bytes(lot_config) + fee;
    lemma_decoded(Discriminant::InitializeMarket, u64_bytes(size_class.code()) + lots);
    lemma_read_u64(size_class.code(), lots);
    law_lot_configs_are_read_back(lot_config, fee);
    lemma_read_u64(taker_fee_bps, seq![bump]);
}

/// Deposits and withdrawals decode to what they were built from.
pub proof fn law_transfers_are_recognised(base_lots: BaseLots, quote_lots: QuoteLots)
    ensures
        decoded(amounts_data(Discriminant::Deposit, base_lots, quote_lots)) == Ok::<
            InstructionView,
            super::decode::InstructionDecodeError,
        >(InstructionView::Single(ClobInstruction::Deposit { base_lots, quote_lots })),
        decoded(amounts_data(Discriminant::Withdraw, base_lots, quote_lots)) == Ok::<
            InstructionView,
            super::decode::InstructionDecodeError,
        >(InstructionView::Single(ClobInstruction::Withdraw { base_lots, quote_lots })),
{
    let base = u64_bytes(base_lots.0);
    let quote = u64_bytes(quote_lots.0);
    lemma_decoded(Discriminant::Deposit, base + quote);
    lemma_decoded(Discriminant::Withdraw, base + quote);
    lemma_read_u64(base_lots.0, quote);
    lemma_read_u64(quote_lots.0, Seq::empty());
    assert(quote + Seq::<u8>::empty() =~= quote);
}

/// A placement decodes to the packet it was built from, and the receipt never changes how
/// the packet decodes.
pub proof fn law_placements_are_recognised(packet: OrderPacket, bump: Seq<u8>)
    requires
        bump.len() <= 1,
    ensures
        decoded(place_order_data(packet, bump)) == Ok::<
            InstructionView,
            super::decode::InstructionDecodeError,
        >(
            InstructionView::Single(
                ClobInstruction::PlaceOrder { packet, receipt: bump.len() == 1 },
            ),
        ),
{
    lemma_decoded(Discriminant::PlaceOrder, packet_bytes(packet) + bump);
    law_packets_are_read_back(packet, bump);
}

/// Cancels and reductions decode to what they were built from.
pub proof fn law_cancels_are_recognised(order_id: FIFOOrderId, base_lots: BaseLots)
    ensures
        decoded(seq![Discriminant::CancelOrder.tag()] + order_id_bytes(order_id)) == Ok::<
            InstructionView,
            super::decode::InstructionDecodeError,
        >(InstructionView::Single(ClobInstruction::CancelOrder { order_id })),
        decoded(reduce_order_data(order_id, base_lots)) == Ok::<
            InstructionView,
            super::decode::InstructionDecodeError,
        >(InstructionView::Single(ClobInstruction::ReduceOrder { order_id, base_lots })),
{
    let lots = u64_bytes(base_lots.0);
    lemma_decoded(Discriminant::CancelOrder, order_id_bytes(order_id));
    lemma_decoded(Discriminant::ReduceOrder, order_id_bytes(order_id) + lots);
    law_order_ids_are_read_back(order_id, Seq::empty());
    assert(order_id_bytes(order_id) + Seq::<u8>::empty() =~= order_id_bytes(order_id));
    law_order_ids_are_read_back(order_id, lots);
    lemma_read_u64(base_lots.0, Seq::empty());
    assert(lots + Seq::<u8>::empty() =~= lots);
}

/// A cancel-all decodes to what it was built from.
pub proof fn law_cancel_alls_are_recognised(side: Side, limit: u32)
    ensures
        decoded(cancel_all_data(side, limit)) == Ok::<
            InstructionView,
            super::decode::InstructionDecodeError,
        >(InstructionView::Single(ClobInstruction::CancelAllOrders { side, limit })),
{
    let bytes = u32_bytes(limit);
    lemma_decoded(Discriminant::CancelAllOrders, seq![side_tag(side)] + bytes);
    lemma_read_side(side, bytes);
    lemma_read_u32(limit, Seq::empty());
    assert(bytes + Seq::<u8>::empty() =~= bytes);
}

/// A swap decodes to what it was built from.
pub proof fn law_swaps_are_recognised(
    side: Side,
    price_in_ticks: Ticks,
    num_base_lots: BaseLots,
    min_base_lots_to_fill: BaseLots,
    match_limit: u32,
    bump: Seq<u8>,
)
    requires
        bump.len() <= 1,
    ensures
        decoded(
            swap_data(
                side,
                price_in_ticks,
                num_base_lots,
                min_base_lots_to_fill,
                match_limit,
                bump,
            ),
        ) == Ok::<InstructionView, super::decode::InstructionDecodeError>(
            InstructionView::Single(
                ClobInstruction::Swap {
                    side,
                    price_in_ticks,
                    num_base_lots,
                    min_base_lots_to_fill,
                    match_limit,
                    receipt: bump.len() == 1,
                },
            ),
        ),
{
    let after_min = u32_bytes(match_limit) + bump;
    let after_size = u64_bytes(min_base_lots_to_fill.0) + after_min;
    let after_price = u64_bytes(num_base_lots.0) + after_size;
    let after_side = u64_bytes(price_in_ticks.0) + after_price;
    lemma_decoded(Discriminant::Swap, seq![side_tag(side)] + after_side);
    lemma_read_side(side, after_side);
    lemma_read_u64(price_in_ticks.0, after_price);
    lemma_read_u64(num_base_lots.0, after_size);
    lemma_read_u64(min_base_lots_to_fill.0, after_min);
    lemma_read_u32(match_limit, bump);
}

/// A batch decodes to what it was built from.
pub proof fn law_batches_are_recognised(cancels: Seq<FIFOOrderId>, orders: Seq<OrderPacket>)
    requires
        cancels.len() <= 255,
        orders.len() <= 255,
    ensures
        decoded(batch_data(cancels, orders)) == Ok::<
            InstructionView,
            super::decode::InstructionDecodeError,
        >(InstructionView::Batch { cancels, orders }),
{
    let packets = packets_bytes(orders);
    let after_cancels = seq![orders.len() as u8] + packets;
    let after_count = order_ids_bytes(cancels) + after_cancels;
    lemma_decoded(Discriminant::BatchUpdate, seq![cancels.len() as u8] + after_count);
    lemma_read_u8(cancels.len() as u8, after_count);
    law_order_id_lists_are_read_back(cancels, after_cancels);
    lemma_read_u8(orders.len() as u8, packets);
    law_packet_lists_are_read_back(orders, Seq::empty());
    assert(packets + Seq::<u8>::empty() =~= packets);
}

/// The instructions without fields decode to themselves.
pub proof fn law_bare_instructions_are_recognised()
    ensures
        decoded(seq![Discriminant::ClaimSeat.tag()]) == Ok::<
            InstructionView,
            super::decode::InstructionDecodeError,
        >(InstructionView::Single(ClobInstruction::ClaimSeat)),
        decoded(seq![Discriminant::EvictSeat.tag()]) == Ok::<
            InstructionView,
            super::decode::InstructionDecodeError,
        >(InstructionView::Single(ClobInstruction::EvictSeat)),
        decoded(seq![Discriminant::CollectFees.tag()]) == Ok::<
            InstructionView,
            super::decode::InstructionDecodeError,
        >(InstructionView::Single(ClobInstruction::CollectFees)),
{
    let none = Seq::<u8>::empty();
    lemma_decoded(Discriminant::ClaimSeat, none);
    lemma_decoded(Discriminant::EvictSeat, none);
    lemma_decoded(Discriminant::CollectFees, none);
    assert(seq![Discriminant::ClaimSeat.tag()] + none =~= seq![Discriminant::ClaimSeat.tag()]);
    assert(seq![Discriminant::EvictSeat.tag()] + none =~= seq![Discriminant::EvictSeat.tag()]);
    assert(seq![Discriminant::CollectFees.tag()] + none =~= seq![Discriminant::CollectFees.tag()]);
}

} // verus!
