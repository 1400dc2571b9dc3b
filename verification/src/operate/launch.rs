//! Creating a market and its participants from nothing.
//!
//! Three transactions rather than one: mints and token accounts are independent, but the
//! six market-creation instructions must land together, or an allocated-but-uninitialised
//! market account would be left owned by the program with no authority able to finish it.

use vstd::prelude::*;

use crate::client::address::Address;
use crate::client::instruction::{token_program_id, Instruction};
#[allow(unused_imports)]
use crate::client::instruction::{token_program, Call};
use crate::client::program::SizeClass;
use crate::client::setup::{calls, CreateMarketParams};
use crate::client::system::{account_creation, create_account, lamport_transfer, transfer};
use crate::client::token::{
    account_initialisation, initialize_account, initialize_mint, mint_initialisation, mint_to,
    minting, MINT_LEN, TOKEN_ACCOUNT_LEN,
};
use crate::quantities::LotConfig;

verus! {

/// Decimals of the base token. A SOL/USDC-shaped market: 9-decimal base, 6-decimal quote.
pub const BASE_DECIMALS: u8 = 9;

/// Decimals of the quote token.
pub const QUOTE_DECIMALS: u8 = 6;

/// Atoms in a whole unit of the base token.
pub const ATOMS_PER_BASE_UNIT: u64 = 1_000_000_000;

/// Atoms in a whole unit of the quote token.
pub const ATOMS_PER_QUOTE_UNIT: u64 = 1_000_000;

/// How much of each token to mint to the payer, in whole units.
pub const SUPPLY_IN_UNITS: u64 = 1_000_000;

/// Rent for a 19 KB market, two vaults, two mints and two token accounts, plus fees and
/// a margin. Checked before the first transaction rather than discovered before the last.
pub const MINIMUM_LAMPORTS: u64 = 200_000_000;

/// SOL transferred to a new trader, enough for a few hundred transactions.
pub const FUNDING_LAMPORTS: u64 = 100_000_000;

/// The geometry of a launched market.
///
/// One base lot is 0.001 of a base unit and one tick is 0.001 quote units, so a price of
/// 150_000 ticks reads as $150. The tick size divides the base lots per unit exactly,
/// which is the invariant that keeps every fill's quote value a whole number.
pub fn default_lot_config() -> (config: LotConfig)
    ensures
        config.is_valid(),
        config == (LotConfig {
            base_lots_per_base_unit: 1_000,
            tick_size_in_quote_lots_per_base_unit: 1_000,
            base_atoms_per_base_lot: 1_000_000,
            quote_atoms_per_quote_lot: 1,
        }),
{
    LotConfig {
        base_lots_per_base_unit: 1_000,
        tick_size_in_quote_lots_per_base_unit: 1_000,
        base_atoms_per_base_lot: 1_000_000,
        quote_atoms_per_quote_lot: 1,
    }
}

/// Whether a balance covers creating a market. Running out between the transactions leaves
/// orphaned mints and rent that is awkward to reclaim.
pub fn can_afford_market(balance: u64) -> (enough: bool)
    ensures
        enough == (balance >= MINIMUM_LAMPORTS),
{
    balance >= MINIMUM_LAMPORTS
}

/// The first transaction: both mints, allocated and initialised, with the payer holding the
/// mint authority.
pub fn create_mints(
    payer: &Address,
    base_mint: &Address,
    quote_mint: &Address,
    mint_rent: u64,
) -> (instructions: Vec<Instruction>)
    ensures
        calls(instructions@) == seq![
            account_creation(*payer, *base_mint, mint_rent, MINT_LEN, token_program()),
            mint_initialisation(*base_mint, *payer, BASE_DECIMALS),
            account_creation(*payer, *quote_mint, mint_rent, MINT_LEN, token_program()),
            mint_initialisation(*quote_mint, *payer, QUOTE_DECIMALS),
        ],
{
    let token = token_program_id();
    let instructions = vec![
        create_account(payer, base_mint, mint_rent, MINT_LEN, &token),
        initialize_mint(base_mint, payer, BASE_DECIMALS),
        create_account(payer, quote_mint, mint_rent, MINT_LEN, &token),
        initialize_mint(quote_mint, payer, QUOTE_DECIMALS),
    ];
    proof {
        assert(calls(instructions@) =~= seq![
            account_creation(*payer, *base_mint, mint_rent, MINT_LEN, token_program()),
            mint_initialisation(*base_mint, *payer, BASE_DECIMALS),
            account_creation(*payer, *quote_mint, mint_rent, MINT_LEN, token_program()),
            mint_initialisation(*quote_mint, *payer, QUOTE_DECIMALS),
        ]);
    }
    instructions
}

/// What opening two token accounts takes.
pub open spec fn opening(
    payer: Address,
    owner: Address,
    base: Address,
    quote: Address,
    base_mint: Address,
    quote_mint: Address,
    token_rent: u64,
) -> Seq<Call> {
    seq![
        account_creation(payer, base, token_rent, TOKEN_ACCOUNT_LEN, token_program()),
        account_initialisation(base, base_mint, owner),
        account_creation(payer, quote, token_rent, TOKEN_ACCOUNT_LEN, token_program()),
        account_initialisation(quote, quote_mint, owner),
    ]
}

/// The second transaction: the payer's two token accounts, opened and filled.
pub fn fund_payer(
    payer: &Address,
    payer_base: &Address,
    payer_quote: &Address,
    base_mint: &Address,
    quote_mint: &Address,
    token_rent: u64,
) -> (instructions: Vec<Instruction>)
    ensures
        calls(instructions@) == opening(
            *payer,
            *payer,
            *payer_base,
            *payer_quote,
            *base_mint,
            *quote_mint,
            token_rent,
        ) + seq![
            minting(*base_mint, *payer_base, *payer, 1_000_000_000_000_000),
            minting(*quote_mint, *payer_quote, *payer, 1_000_000_000_000),
        ],
{
    let token = token_program_id();
    let instructions = vec![
        create_account(payer, payer_base, token_rent, TOKEN_ACCOUNT_LEN, &token),
        initialize_account(payer_base, base_mint, payer),
        create_account(payer, payer_quote, token_rent, TOKEN_ACCOUNT_LEN, &token),
        initialize_account(payer_quote, quote_mint, payer),
        mint_to(base_mint, payer_base, payer, SUPPLY_IN_UNITS * ATOMS_PER_BASE_UNIT),
        mint_to(quote_mint, payer_quote, payer, SUPPLY_IN_UNITS * ATOMS_PER_QUOTE_UNIT),
    ];
    proof {
        assert(calls(instructions@) =~= opening(
            *payer,
            *payer,
            *payer_base,
            *payer_quote,
            *base_mint,
            *quote_mint,
            token_rent,
        ) + seq![
            minting(*base_mint, *payer_base, *payer, 1_000_000_000_000_000),
            minting(*quote_mint, *payer_quote, *payer, 1_000_000_000_000),
        ]);
    }
    instructions
}

/// What the third transaction creates: a small market the payer has authority over, whose
/// fees go to the payer's quote account.
pub fn market_params(
    program_id: &Address,
    payer: &Address,
    market: &Address,
    base_vault: &Address,
    quote_vault: &Address,
    base_mint: &Address,
    quote_mint: &Address,
    payer_quote: &Address,
    taker_fee_bps: u64,
    market_rent: u64,
    token_rent: u64,
) -> (params: CreateMarketParams)
    ensures
        params.program_id == *program_id,
        params.payer == *payer,
        params.market == *market,
        params.base_vault == *base_vault,
        params.quote_vault == *quote_vault,
        params.base_mint == *base_mint,
        params.quote_mint == *quote_mint,
        params.authority == *payer,
        params.fee_recipient == *payer_quote,
        params.size_class == SizeClass::Small,
        params.lot_config.is_valid(),
        params.lot_config.base_lots_per_base_unit == 1_000,
        params.lot_config.tick_size_in_quote_lots_per_base_unit == 1_000,
        params.lot_config.base_atoms_per_base_lot == 1_000_000,
        params.lot_config.quote_atoms_per_quote_lot == 1,
        params.taker_fee_bps == taker_fee_bps,
        params.market_rent_lamports == market_rent,
        params.vault_rent_lamports == token_rent,
{
    CreateMarketParams {
        program_id: *program_id,
        payer: *payer,
        market: *market,
        base_vault: *base_vault,
        quote_vault: *quote_vault,
        base_mint: *base_mint,
        quote_mint: *quote_mint,
        authority: *payer,
        fee_recipient: *payer_quote,
        size_class: SizeClass::Small,
        lot_config: default_lot_config(),
        taker_fee_bps,
        market_rent_lamports: market_rent,
        vault_rent_lamports: token_rent,
    }
}

/// Creates a second wallet: some SOL, two token accounts, and `units` whole units of each
/// token.
///
/// A market with one participant cannot produce a real trade. The payer keeps the mint
/// authority, so this mints directly rather than transferring — one fewer moving part, and
/// the balances start round.
pub fn create_trader(
    payer: &Address,
    trader: &Address,
    base: &Address,
    quote: &Address,
    base_mint: &Address,
    quote_mint: &Address,
    token_rent: u64,
    units: u64,
) -> (instructions: Vec<Instruction>)
    requires
        units * ATOMS_PER_BASE_UNIT <= u64::MAX,
    ensures
        calls(instructions@) == seq![lamport_transfer(*payer, *trader, FUNDING_LAMPORTS)]
            + opening(*payer, *trader, *base, *quote, *base_mint, *quote_mint, token_rent) + seq![
            minting(*base_mint, *base, *payer, (units * 1_000_000_000) as u64),
            minting(*quote_mint, *quote, *payer, (units * 1_000_000) as u64),
        ],
{
    let token = token_program_id();
    let instructions = vec![
        transfer(payer, trader, FUNDING_LAMPORTS),
        create_account(payer, base, token_rent, TOKEN_ACCOUNT_LEN, &token),
        initialize_account(base, base_mint, trader),
        create_account(payer, quote, token_rent, TOKEN_ACCOUNT_LEN, &token),
        initialize_account(quote, quote_mint, trader),
        mint_to(base_mint, base, payer, units * ATOMS_PER_BASE_UNIT),
        mint_to(quote_mint, quote, payer, units * ATOMS_PER_QUOTE_UNIT),
    ];
    proof {
        assert(calls(instructions@) =~= seq![lamport_transfer(*payer, *trader, FUNDING_LAMPORTS)]
            + opening(*payer, *trader, *base, *quote, *base_mint, *quote_mint, token_rent) + seq![
            minting(*base_mint, *base, *payer, (units * 1_000_000_000) as u64),
            minting(*quote_mint, *quote, *payer, (units * 1_000_000) as u64),
        ]);
    }
    instructions
}

} // verus!
