//! Creating a market from nothing.
//!
//! The program's `InitializeMarket` validates an account it is handed; it does not
//! allocate one. Allocation needs a `CreateAccount` signed by the payer *and* by the
//! new account's keypair, which a program cannot produce — and folding it in would mean
//! the same instruction both chooses the size and checks it, which is not a check.
//!
//! So a market takes six instructions, and this builds all six in the right order.
//!
//! # What the caller still owes
//!
//! Rent. Both amounts are parameters rather than constants because rent is a cluster
//! parameter the client reads from an RPC, and hard-coding today's value into an SDK is
//! how a deploy breaks eighteen months later. [`SizeClass::account_len`] and
//! [`TOKEN_ACCOUNT_LEN`] give the sizes to price.

use vstd::prelude::*;

use super::address::{try_vault_signer, vault_signer, Address};
use super::instruction::{
    initialize_market, initialize_market_data, readonly, token_program_id, writable, Call,
    Instruction, MarketAddresses,
};
#[allow(unused_imports)]
use super::instruction::token_program;
use super::program::{ProgramConstants, SizeClass, HEADER_LEN};
#[allow(unused_imports)]
use super::program::lemma_market_lens;
use super::system::{account_creation, create_account};
use super::token::{account_initialisation, initialize_account};
use crate::quantities::LotConfig;

pub use super::token::TOKEN_ACCOUNT_LEN;

verus! {

/// What a new market needs.
#[derive(Copy, Clone, Debug, PartialEq, Eq)]
pub struct CreateMarketParams {
    /// The market program.
    pub program_id: Address,
    /// Pays rent for all three new accounts. Must sign.
    pub payer: Address,
    /// Address of the market account. A fresh keypair; must sign.
    pub market: Address,
    /// Address of the base vault. A fresh keypair; must sign.
    pub base_vault: Address,
    /// Address of the quote vault. A fresh keypair; must sign.
    pub quote_vault: Address,
    /// Base token mint.
    pub base_mint: Address,
    /// Quote token mint.
    pub quote_mint: Address,
    /// May change the fee recipient. Must sign. Cannot touch trader funds.
    pub authority: Address,
    /// Receives swept fees.
    pub fee_recipient: Address,
    /// Book and seat capacities.
    pub size_class: SizeClass,
    /// Tick and lot geometry.
    pub lot_config: LotConfig,
    /// Taker fee in basis points.
    pub taker_fee_bps: u64,
    /// Rent-exempt lamports for the market account.
    pub market_rent_lamports: u64,
    /// Rent-exempt lamports for each vault.
    pub vault_rent_lamports: u64,
}

/// The instructions that create a market, plus the addresses to use afterwards.
#[derive(Clone, Debug, PartialEq, Eq)]
pub struct MarketSetup {
    /// In order. All six belong in one transaction so a half-created market cannot
    /// exist: an allocated but uninitialised market account is owned by the program and
    /// has no authority, so nobody could finish or reclaim it.
    pub instructions: Vec<Instruction>,
    /// Addresses for every later instruction on this market.
    pub addresses: MarketAddresses,
    /// Every key that must sign the transaction.
    pub signers: Vec<Address>,
}

/// Instructions with their lists as sequences.
pub open spec fn calls(instructions: Seq<Instruction>) -> Seq<Call> {
    instructions.map_values(|instruction: Instruction| instruction.view())
}

impl CreateMarketParams {
    /// The market's vault signer and its bump, if the derivation finds one.
    pub open spec fn signer(self, constants: ProgramConstants) -> Option<(Address, u8)> {
        constants.vault_signer(self.program_id, self.market)
    }

    /// The addresses of the market to be.
    pub open spec fn addresses(self, signer: Address) -> MarketAddresses {
        MarketAddresses::with_signer(
            self.program_id,
            self.market,
            self.base_vault,
            self.quote_vault,
            signer,
        )
    }

    /// The six instructions: the market is allocated first and initialised last, and
    /// each vault is allocated right before it is initialised, owned by the signer.
    pub open spec fn sequence(self, signer: Address, bump: u8) -> Seq<Call> {
        seq![
            account_creation(
                self.payer,
                self.market,
                self.market_rent_lamports,
                (HEADER_LEN + self.size_class.market_len()) as u64,
                self.program_id,
            ),
            account_creation(
                self.payer,
                self.base_vault,
                self.vault_rent_lamports,
                TOKEN_ACCOUNT_LEN,
                token_program(),
            ),
            account_initialisation(self.base_vault, self.base_mint, signer),
            account_creation(
                self.payer,
                self.quote_vault,
                self.vault_rent_lamports,
                TOKEN_ACCOUNT_LEN,
                token_program(),
            ),
            account_initialisation(self.quote_vault, self.quote_mint, signer),
            Call {
                program_id: self.program_id,
                accounts: seq![
                    writable(self.market, false),
                    readonly(self.base_mint, false),
                    readonly(self.quote_mint, false),
                    readonly(self.base_vault, false),
                    readonly(self.quote_vault, false),
                    readonly(signer, false),
                    readonly(self.authority, true),
                    readonly(self.fee_recipient, false),
                ],
                data: initialize_market_data(
                    self.size_class,
                    self.lot_config,
                    self.taker_fee_bps,
                    bump,
                ),
            },
        ]
    }

    /// The payer and the three new accounts, and the authority unless it is one of them.
    pub open spec fn signers(self) -> Seq<Address> {
        let new = seq![self.payer, self.market, self.base_vault, self.quote_vault];
        if new.contains(self.authority) {
            new
        } else {
            new.push(self.authority)
        }
    }
}

impl MarketSetup {
    /// Whether this is what creates the market `params` describes.
    pub open spec fn creates(self, params: CreateMarketParams, signer: Address, bump: u8) -> bool {
        &&& calls(self.instructions@) == params.sequence(signer, bump)
        &&& self.addresses == params.addresses(signer)
        &&& self.signers@ == params.signers()
    }
}

/// Builds the full market-creation sequence.
pub fn create_market(constants: &ProgramConstants, params: &CreateMarketParams) -> (setup:
    MarketSetup)
    requires
        params.signer(*constants) is Some,
    ensures
        setup.creates(
            *params,
            params.signer(*constants)->Some_0.0,
            params.signer(*constants)->Some_0.1,
        ),
{
    let (signer, bump) = vault_signer(constants, &params.program_id, &params.market);
    let addresses = MarketAddresses {
        program_id: params.program_id,
        market: params.market,
        base_vault: params.base_vault,
        quote_vault: params.quote_vault,
        vault_signer: signer,
        token_program: token_program_id(),
    };
    proof {
        lemma_market_lens();
    }
    let mut instructions: Vec<Instruction> = Vec::new();
    instructions.push(
        create_account(
            &params.payer,
            &params.market,
            params.market_rent_lamports,
            params.size_class.account_len() as u64,
            &params.program_id,
        ),
    );
    instructions.push(
        create_account(
            &params.payer,
            &params.base_vault,
            params.vault_rent_lamports,
            TOKEN_ACCOUNT_LEN,
            &token_program_id(),
        ),
    );
    // Both vaults are owned by the market's signer, which is what makes them unspendable
    // by anyone but this program.
    instructions.push(initialize_account(&params.base_vault, &params.base_mint, &signer));
    instructions.push(
        create_account(
            &params.payer,
            &params.quote_vault,
            params.vault_rent_lamports,
            TOKEN_ACCOUNT_LEN,
            &token_program_id(),
        ),
    );
    instructions.push(initialize_account(&params.quote_vault, &params.quote_mint, &signer));
    instructions.push(
        initialize_market(
            constants,
            &addresses,
            &params.base_mint,
            &params.quote_mint,
            &params.authority,
            &params.fee_recipient,
            params.size_class,
            &params.lot_config,
            params.taker_fee_bps,
        ),
    );
    let signers = signers_of(params);
    let setup = MarketSetup { instructions, addresses, signers };
    proof {
        assert(calls(setup.instructions@) =~= params.sequence(signer, bump));
    }
    setup
}

/// Every key that must sign.
fn signers_of(params: &CreateMarketParams) -> (signers: Vec<Address>)
    ensures
        signers@ == params.signers(),
{
    let mut signers: Vec<Address> = Vec::new();
    signers.push(params.payer);
    signers.push(params.market);
    signers.push(params.base_vault);
    signers.push(params.quote_vault);
    proof {
        let new = seq![params.payer, params.market, params.base_vault, params.quote_vault];
        assert(signers@ =~= new);
        assert(new[0] == params.payer && new[1] == params.market && new[2] == params.base_vault
            && new[3] == params.quote_vault);
    }
    let authority = params.authority;
    if !authority.is(&params.payer) && !authority.is(&params.market) && !authority.is(
        &params.base_vault,
    ) && !authority.is(&params.quote_vault) {
        signers.push(authority);
    }
    signers
}

/// As [`create_market`], or `None` if the vault signer cannot be derived.
pub fn try_create_market(constants: &ProgramConstants, params: &CreateMarketParams) -> (setup:
    Option<MarketSetup>)
    ensures
        match setup {
            Some(built) => {
                &&& params.signer(*constants) is Some
                &&& built.creates(
                    *params,
                    params.signer(*constants)->Some_0.0,
                    params.signer(*constants)->Some_0.1,
                )
            },
            None => params.signer(*constants) is None,
        },
{
    match try_vault_signer(constants, &params.program_id, &params.market) {
        Some(_) => Some(create_market(constants, params)),
        None => None,
    }
}

/// Every new account signs, and so does the authority; nobody is listed twice if the new
/// accounts and the payer are distinct.
pub proof fn law_every_new_account_signs(params: CreateMarketParams)
    ensures
        params.signers().contains(params.payer),
        params.signers().contains(params.market),
        params.signers().contains(params.base_vault),
        params.signers().contains(params.quote_vault),
        params.signers().contains(params.authority),
        seq![params.payer, params.market, params.base_vault, params.quote_vault].no_duplicates()
            ==> params.signers().no_duplicates(),
{
    let new = seq![params.payer, params.market, params.base_vault, params.quote_vault];
    let all = params.signers();
    assert(all[0] == params.payer);
    assert(all[1] == params.market);
    assert(all[2] == params.base_vault);
    assert(all[3] == params.quote_vault);
    if new.contains(params.authority) {
        assert(all == new);
    } else {
        assert(all[4] == params.authority);
        if new.no_duplicates() {
            assert forall|i: int, j: int| 0 <= i < all.len() && 0 <= j < all.len() && i != j
                implies all[i] != all[j] by {
                if i < 4 && j < 4 {
                    assert(new[i] != new[j]);
                } else if i < 4 {
                    assert(new.contains(new[i]));
                } else {
                    assert(new.contains(new[j]));
                }
            }
        }
    }
}

} // verus!
