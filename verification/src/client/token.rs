//! The SPL Token instructions a market needs, hand-encoded.
//!
//! Three fixed encodings are cheaper than a large dependency, and the tests check all
//! three against the real program's own encoder so the shortcut cannot rot.

use vstd::prelude::*;

use super::address::Address;
use super::instruction::{
    readonly, token_program, token_program_id, writable, AccountMeta, Call, Instruction,
};
use crate::bytes::{put_all, put_u64, u64_bytes};

verus! {

/// Bytes in an SPL mint account.
pub const MINT_LEN: u64 = 82;

/// Bytes in an SPL token account.
///
/// Part of the SPL Token program's fixed on-chain layout rather than an implementation
/// detail of any crate version, which is why it is stated here instead of pulling in a
/// dependency for one number.
pub const TOKEN_ACCOUNT_LEN: u64 = 165;

/// `TokenInstruction::InitializeMint2`.
pub const INITIALIZE_MINT_2: u8 = 20;

/// `TokenInstruction::InitializeAccount3` — sets an account's mint and owner without
/// needing the rent sysvar or the owner's signature.
pub const INITIALIZE_ACCOUNT_3: u8 = 18;

/// `TokenInstruction::MintTo`.
pub const MINT_TO: u8 = 7;

/// What [`initialize_mint`] builds.
pub open spec fn mint_initialisation(mint: Address, authority: Address, decimals: u8) -> Call {
    Call {
        program_id: token_program(),
        accounts: seq![writable(mint, false)],
        data: seq![INITIALIZE_MINT_2, decimals] + authority.0@ + seq![0u8],
    }
}

/// What [`initialize_account`] builds.
pub open spec fn account_initialisation(account: Address, mint: Address, owner: Address) -> Call {
    Call {
        program_id: token_program(),
        accounts: seq![writable(account, false), readonly(mint, false)],
        data: seq![INITIALIZE_ACCOUNT_3] + owner.0@,
    }
}

/// What [`mint_to`] builds.
pub open spec fn minting(mint: Address, account: Address, authority: Address, amount: u64) -> Call {
    Call {
        program_id: token_program(),
        accounts: seq![
            writable(mint, false),
            writable(account, false),
            readonly(authority, true),
        ],
        data: seq![MINT_TO] + u64_bytes(amount),
    }
}

/// Sets a freshly allocated account up as a mint.
///
/// No freeze authority: a freezable test token would let the mint authority halt a
/// market, which is not the thing being tested here.
pub fn initialize_mint(mint: &Address, authority: &Address, decimals: u8) -> (instruction:
    Instruction)
    ensures
        instruction.view() == mint_initialisation(*mint, *authority, decimals),
{
    let mut data: Vec<u8> = Vec::with_capacity(35);
    data.push(INITIALIZE_MINT_2);
    data.push(decimals);
    put_all(&mut data, authority.0.as_slice());
    data.push(0);  // no freeze authority
    let accounts = vec![AccountMeta::new(*mint, false)];
    proof {
        let expected = mint_initialisation(*mint, *authority, decimals);
        assert(data@ =~= expected.data);
        assert(accounts@ =~= expected.accounts);
    }
    Instruction { program_id: token_program_id(), accounts, data }
}

/// Sets a freshly allocated account up as a token account.
pub fn initialize_account(account: &Address, mint: &Address, owner: &Address) -> (instruction:
    Instruction)
    ensures
        instruction.view() == account_initialisation(*account, *mint, *owner),
{
    let mut data: Vec<u8> = Vec::with_capacity(33);
    data.push(INITIALIZE_ACCOUNT_3);
    put_all(&mut data, owner.0.as_slice());
    let accounts = vec![AccountMeta::new(*account, false), AccountMeta::new_readonly(*mint, false)];
    proof {
        let expected = account_initialisation(*account, *mint, *owner);
        assert(data@ =~= expected.data);
        assert(accounts@ =~= expected.accounts);
    }
    Instruction { program_id: token_program_id(), accounts, data }
}

/// Mints `amount` atoms into `account`.
pub fn mint_to(mint: &Address, account: &Address, authority: &Address, amount: u64) -> (instruction:
    Instruction)
    ensures
        instruction.view() == minting(*mint, *account, *authority, amount),
{
    let mut data: Vec<u8> = Vec::with_capacity(9);
    data.push(MINT_TO);
    put_u64(&mut data, amount);
    let accounts = vec![
        AccountMeta::new(*mint, false),
        AccountMeta::new(*account, false),
        AccountMeta::new_readonly(*authority, true),
    ];
    proof {
        let expected = minting(*mint, *account, *authority, amount);
        assert(data@ =~= expected.data);
        assert(accounts@ =~= expected.accounts);
    }
    Instruction { program_id: token_program_id(), accounts, data }
}

} // verus!
