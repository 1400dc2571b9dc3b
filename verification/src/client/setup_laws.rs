//! What creating a market comes to: which accounts are allocated, of what size and whose,
//! what each is initialised as, and who signs.

use vstd::prelude::*;

use super::address::Address;
#[allow(unused_imports)]
use super::address::derived_address;
#[allow(unused_imports)]
use super::instruction::token_program;
use super::instruction::{AccountMeta, Instruction, MarketAddresses};
#[allow(unused_imports)]
use super::instruction_laws::law_creations_are_laid_out;
use super::instruction_laws::{is_read, is_signing, is_written};
use super::program::{ProgramConstants, SizeClass};
#[allow(unused_imports)]
use super::program::lemma_market_lens;
#[allow(unused_imports)]
use super::setup::calls;
use super::setup::{CreateMarketParams, MarketSetup};
use super::system::{account_creation, lamport_transfer};
use super::token::{account_initialisation, mint_initialisation, minting};
#[allow(unused_imports)]
use crate::bytes::{lemma_u32, lemma_u64, u32_bytes, u32_of, u64_bytes, u64_of};

verus! {

/// An account that signs and is written.
pub open spec fn is_paying(meta: AccountMeta, pubkey: Address) -> bool {
    meta.pubkey == pubkey && meta.is_writable && meta.is_signer
}

/// This allocates an account: the payer and the account sign, the system program is
/// called, and the data is a tag of zero, the rent, the size, and the owner.
pub open spec fn allocates(
    program_id: Address,
    accounts: Seq<AccountMeta>,
    data: Seq<u8>,
    payer: Address,
    account: Address,
    rent: u64,
    space: u64,
    owner: Address,
) -> bool {
    &&& forall|i: int| 0 <= i < 32 ==> #[trigger] program_id.0[i] == 0
    &&& accounts.len() == 2
    &&& is_paying(accounts[0], payer)
    &&& is_paying(accounts[1], account)
    &&& data.len() == 52
    &&& u32_of(data.subrange(0, 4)) == 0
    &&& u64_of(data.subrange(4, 12)) == rent
    &&& u64_of(data.subrange(12, 20)) == space
    &&& data.subrange(20, 52) == owner.0@
}

/// This makes an account hold one mint's tokens for an owner.
pub open spec fn opens(
    program_id: Address,
    accounts: Seq<AccountMeta>,
    data: Seq<u8>,
    account: Address,
    mint: Address,
    owner: Address,
) -> bool {
    &&& program_id == token_program()
    &&& accounts.len() == 2
    &&& is_written(accounts[0], account)
    &&& is_read(accounts[1], mint)
    &&& data.len() == 33
    &&& data[0] == 18
    &&& data.subrange(1, 33) == owner.0@
}

/// An allocation is laid out as the system program reads it.
pub proof fn law_allocations_are_laid_out(
    payer: Address,
    account: Address,
    rent: u64,
    space: u64,
    owner: Address,
)
    ensures
        ({
            let call = account_creation(payer, account, rent, space, owner);
            allocates(
                call.program_id,
                call.accounts,
                call.data,
                payer,
                account,
                rent,
                space,
                owner,
            )
        }),
{
    let data = account_creation(payer, account, rent, space, owner).data;
    lemma_u32(0);
    lemma_u64(rent);
    lemma_u64(space);
    assert(data.subrange(0, 4) =~= u32_bytes(0));
    assert(data.subrange(4, 12) =~= u64_bytes(rent));
    assert(data.subrange(12, 20) =~= u64_bytes(space));
    assert(data.subrange(20, 52) =~= owner.0@);
}

/// A transfer is signed by the sender alone, and is a tag of two and the amount.
pub proof fn law_lamport_transfers_are_laid_out(from: Address, to: Address, lamports: u64)
    ensures
        ({
            let call = lamport_transfer(from, to, lamports);
            &&& forall|i: int| 0 <= i < 32 ==> #[trigger] call.program_id.0[i] == 0
            &&& call.accounts.len() == 2
            &&& is_paying(call.accounts[0], from)
            &&& is_written(call.accounts[1], to)
            &&& call.data.len() == 12
            &&& u32_of(call.data.subrange(0, 4)) == 2
            &&& u64_of(call.data.subrange(4, 12)) == lamports
        }),
{
    let data = lamport_transfer(from, to, lamports).data;
    lemma_u32(2);
    lemma_u64(lamports);
    assert(data.subrange(0, 4) =~= u32_bytes(2));
    assert(data.subrange(4, 12) =~= u64_bytes(lamports));
}

/// A mint is set up with its decimals and the authority that may mint, and nobody may
/// freeze it.
pub proof fn law_mints_are_set_up(mint: Address, authority: Address, decimals: u8)
    ensures
        ({
            let call = mint_initialisation(mint, authority, decimals);
            &&& call.program_id == token_program()
            &&& call.accounts.len() == 1
            &&& is_written(call.accounts[0], mint)
            &&& call.data.len() == 35
            &&& call.data[0] == 20
            &&& call.data[1] == decimals
            &&& call.data.subrange(2, 34) == authority.0@
            &&& call.data[34] == 0
        }),
{
    let data = mint_initialisation(mint, authority, decimals).data;
    assert(data.subrange(2, 34) =~= authority.0@);
}

/// A token account is set up for its mint and its owner, who need not sign.
pub proof fn law_token_accounts_are_set_up(account: Address, mint: Address, owner: Address)
    ensures
        ({
            let call = account_initialisation(account, mint, owner);
            opens(call.program_id, call.accounts, call.data, account, mint, owner)
        }),
{
    let data = account_initialisation(account, mint, owner).data;
    assert(data.subrange(1, 33) =~= owner.0@);
}

/// Minting names the mint, the account that receives, and the authority, who signs.
pub proof fn law_minting_names_its_accounts(
    mint: Address,
    account: Address,
    authority: Address,
    amount: u64,
)
    ensures
        ({
            let call = minting(mint, account, authority, amount);
            &&& call.program_id == token_program()
            &&& call.accounts.len() == 3
            &&& is_written(call.accounts[0], mint)
            &&& is_written(call.accounts[1], account)
            &&& is_signing(call.accounts[2], authority)
            &&& call.data.len() == 9
            &&& call.data[0] == 7
            &&& u64_of(call.data.subrange(1, 9)) == amount
        }),
{
    let data = minting(mint, account, authority, amount).data;
    lemma_u64(amount);
    assert(data.subrange(1, 9) =~= u64_bytes(amount));
}

/// The bytes that an account of each class takes.
pub open spec fn account_bytes(class: SizeClass) -> u64 {
    match class {
        SizeClass::Small => 19_296,
        SizeClass::Medium => 76_128,
        SizeClass::Large => 303_456,
    }
}

/// An instruction that allocates.
pub open spec fn is_allocation(
    instruction: Instruction,
    payer: Address,
    account: Address,
    rent: u64,
    space: u64,
    owner: Address,
) -> bool {
    allocates(
        instruction.program_id,
        instruction.accounts@,
        instruction.data@,
        payer,
        account,
        rent,
        space,
        owner,
    )
}

/// An instruction that opens a token account.
pub open spec fn is_opening(
    instruction: Instruction,
    account: Address,
    mint: Address,
    owner: Address,
) -> bool {
    opens(
        instruction.program_id,
        instruction.accounts@,
        instruction.data@,
        account,
        mint,
        owner,
    )
}

/// A market is created by six instructions. The market is allocated, the payer paying, at
/// the size of its class, and owned by the program. Each vault is allocated, owned by the
/// token program, and at once opened for its own mint with the market's signer as owner.
/// The market is initialised last.
pub proof fn law_setups_create_the_market(
    setup: MarketSetup,
    params: CreateMarketParams,
    signer: Address,
    bump: u8,
)
    requires
        setup.creates(params, signer, bump),
    ensures
        setup.instructions@.len() == 6,
        is_allocation(
            setup.instructions@[0],
            params.payer,
            params.market,
            params.market_rent_lamports,
            account_bytes(params.size_class),
            params.program_id,
        ),
        is_allocation(
            setup.instructions@[1],
            params.payer,
            params.base_vault,
            params.vault_rent_lamports,
            165,
            token_program(),
        ),
        is_opening(setup.instructions@[2], params.base_vault, params.base_mint, signer),
        is_allocation(
            setup.instructions@[3],
            params.payer,
            params.quote_vault,
            params.vault_rent_lamports,
            165,
            token_program(),
        ),
        is_opening(setup.instructions@[4], params.quote_vault, params.quote_mint, signer),
{
    lemma_market_lens();
    let sequence = params.sequence(signer, bump);
    assert(calls(setup.instructions@).len() == 6);
    assert forall|i: int| 0 <= i < 6 implies #[trigger] setup.instructions@[i].view()
        == sequence[i] by {
        assert(calls(setup.instructions@)[i] == sequence[i]);
    }
    law_allocations_are_laid_out(
        params.payer,
        params.market,
        params.market_rent_lamports,
        account_bytes(params.size_class),
        params.program_id,
    );
    law_allocations_are_laid_out(
        params.payer,
        params.base_vault,
        params.vault_rent_lamports,
        165,
        token_program(),
    );
    law_allocations_are_laid_out(
        params.payer,
        params.quote_vault,
        params.vault_rent_lamports,
        165,
        token_program(),
    );
    law_token_accounts_are_set_up(params.base_vault, params.base_mint, signer);
    law_token_accounts_are_set_up(params.quote_vault, params.quote_mint, signer);
    assert(setup.instructions@[0].view() == sequence[0]);
    assert(setup.instructions@[1].view() == sequence[1]);
    assert(setup.instructions@[2].view() == sequence[2]);
    assert(setup.instructions@[3].view() == sequence[3]);
    assert(setup.instructions@[4].view() == sequence[4]);
}

/// The last instruction initialises the market with its two mints, its two vaults, the
/// signer, the authority, who signs, and who receives the fees; and with the capacities,
/// the geometry, the fee rate, and the signer's bump.
pub proof fn law_setups_initialise_the_market(
    setup: MarketSetup,
    params: CreateMarketParams,
    signer: Address,
    bump: u8,
)
    requires
        setup.creates(params, signer, bump),
    ensures
        setup.instructions@.len() == 6,
        ({
            let last = setup.instructions@[5];
            let data = last.data@;
            &&& last.program_id == params.program_id
            &&& last.accounts@.len() == 8
            &&& is_written(last.accounts@[0], params.market)
            &&& is_read(last.accounts@[1], params.base_mint)
            &&& is_read(last.accounts@[2], params.quote_mint)
            &&& is_read(last.accounts@[3], params.base_vault)
            &&& is_read(last.accounts@[4], params.quote_vault)
            &&& is_read(last.accounts@[5], signer)
            &&& is_signing(last.accounts@[6], params.authority)
            &&& is_read(last.accounts@[7], params.fee_recipient)
            &&& data.len() == 50
            &&& data[0] == 0
            &&& u64_of(data.subrange(1, 9)) == (match params.size_class {
                SizeClass::Small => 0u64,
                SizeClass::Medium => 1u64,
                SizeClass::Large => 2u64,
            })
            &&& u64_of(data.subrange(9, 17)) == params.lot_config.base_lots_per_base_unit
            &&& u64_of(data.subrange(17, 25))
                == params.lot_config.tick_size_in_quote_lots_per_base_unit
            &&& u64_of(data.subrange(25, 33)) == params.lot_config.base_atoms_per_base_lot
            &&& u64_of(data.subrange(33, 41)) == params.lot_config.quote_atoms_per_quote_lot
            &&& u64_of(data.subrange(41, 49)) == params.taker_fee_bps
            &&& data[49] == bump
        }),
{
    let sequence = params.sequence(signer, bump);
    assert(calls(setup.instructions@).len() == 6);
    assert(calls(setup.instructions@)[5] == sequence[5]);
    law_creations_are_laid_out(params.size_class, params.lot_config, params.taker_fee_bps, bump);
}

/// What is handed back for later use is the market that was created: its program, its
/// vaults, its signer, and the token program. The signers are the payer and the three new
/// accounts, in that order, and then the authority where it is none of these.
pub proof fn law_setups_hand_back_the_market(
    setup: MarketSetup,
    params: CreateMarketParams,
    signer: Address,
    bump: u8,
)
    requires
        setup.creates(params, signer, bump),
    ensures
        setup.addresses.program_id == params.program_id,
        setup.addresses.market == params.market,
        setup.addresses.base_vault == params.base_vault,
        setup.addresses.quote_vault == params.quote_vault,
        setup.addresses.vault_signer == signer,
        setup.addresses.token_program == token_program(),
        ({
            let signers = setup.signers@;
            let is_new = params.authority == params.payer || params.authority == params.market
                || params.authority == params.base_vault || params.authority == params.quote_vault;
            &&& signers.len() == (if is_new {
                4int
            } else {
                5int
            })
            &&& signers[0] == params.payer
            &&& signers[1] == params.market
            &&& signers[2] == params.base_vault
            &&& signers[3] == params.quote_vault
            &&& !is_new ==> signers[4] == params.authority
        }),
{
    let new = seq![params.payer, params.market, params.base_vault, params.quote_vault];
    assert(new[0] == params.payer && new[1] == params.market && new[2] == params.base_vault
        && new[3] == params.quote_vault);
}

/// The addresses of a market are kept as they were given, and its token program is the one
/// whose id begins with the bytes 6, 221, 246, 225 and ends with 0, 169.
pub proof fn law_addresses_are_kept(
    program_id: Address,
    market: Address,
    base_vault: Address,
    quote_vault: Address,
    signer: Address,
)
    ensures
        ({
            let addresses = MarketAddresses::with_signer(
                program_id,
                market,
                base_vault,
                quote_vault,
                signer,
            );
            &&& addresses.program_id == program_id
            &&& addresses.market == market
            &&& addresses.base_vault == base_vault
            &&& addresses.quote_vault == quote_vault
            &&& addresses.vault_signer == signer
            &&& addresses.token_program == token_program()
        }),
        token_program().0@ == seq![
            6u8, 221, 246, 225, 215, 101, 161, 147, 217, 203, 225, 70, 206, 235, 121, 172, 28, 180,
            133, 237, 95, 91, 55, 145, 58, 140, 245, 133, 126, 255, 0, 169,
        ],
{
}

/// A market's signer is derived from the vault seed and the market, in that order, and the
/// event signer from its own seed alone, so that it is one for every market.
pub proof fn law_signers_are_derived_from_their_seeds(
    constants: ProgramConstants,
    program_id: Address,
    market: Address,
)
    ensures
        match derived_address(seq![constants.vault_signer_seed@, market.0@], program_id.0) {
            Some((bytes, bump)) => constants.vault_signer(program_id, market) == Some(
                (Address(bytes), bump),
            ),
            None => constants.vault_signer(program_id, market) is None,
        },
        match derived_address(seq![constants.log_authority_seed@], program_id.0) {
            Some((bytes, bump)) => constants.log_authority(program_id) == Some(
                (Address(bytes), bump),
            ),
            None => constants.log_authority(program_id) is None,
        },
{
}

} // verus!
