//! The system program's instructions a market needs: allocating accounts and moving SOL.

use solana_pubkey::Pubkey;
use solana_system_interface::instruction as system;
use vstd::prelude::*;

use super::address::Address;
use super::instruction::{writable, AccountMeta, Call, Instruction};
use crate::bytes::{u32_bytes, u64_bytes};

verus! {

/// The system program.
pub open spec fn system_program() -> Address {
    Address(
        [
            0u8, 0, 0, 0, 0, 0, 0, 0, 0, 0, 0, 0, 0, 0, 0, 0, 0, 0, 0, 0, 0, 0, 0, 0, 0, 0, 0, 0, 0, 0,
            0, 0,
        ],
    )
}

/// An allocation: the funder and the new account both sign, and the data is the tag, the
/// lamports, the size, and the owner.
pub open spec fn account_creation(
    from: Address,
    to: Address,
    lamports: u64,
    space: u64,
    owner: Address,
) -> Call {
    Call {
        program_id: system_program(),
        accounts: seq![writable(from, true), writable(to, true)],
        data: u32_bytes(0) + u64_bytes(lamports) + u64_bytes(space) + owner.0@,
    }
}

/// A transfer: the sender signs, and the data is the tag and the lamports.
pub open spec fn lamport_transfer(from: Address, to: Address, lamports: u64) -> Call {
    Call {
        program_id: system_program(),
        accounts: seq![writable(from, true), writable(to, false)],
        data: u32_bytes(2) + u64_bytes(lamports),
    }
}

/// Calls `solana_system_interface::instruction::create_account`. It names the system
/// program, both accounts as writable signers, and serialises the `CreateAccount` variant
/// with bincode: a four-byte tag, two little-endian integers, and the owner's raw bytes.
#[verifier::external_body]
pub(crate) fn create_account(
    from: &Address,
    to: &Address,
    lamports: u64,
    space: u64,
    owner: &Address,
) -> (instruction: Instruction)
    ensures
        instruction.view() == account_creation(*from, *to, lamports, space, *owner),
{
    let (from, to) = (Pubkey::new_from_array(from.0), Pubkey::new_from_array(to.0));
    let built =
        system::create_account(&from, &to, lamports, space, &Pubkey::new_from_array(owner.0));
    Instruction {
        program_id: Address(built.program_id.to_bytes()),
        accounts: built.accounts.iter().map(|meta| AccountMeta {
            pubkey: Address(meta.pubkey.to_bytes()),
            is_signer: meta.is_signer,
            is_writable: meta.is_writable,
        }).collect(),
        data: built.data,
    }
}

/// Calls `solana_system_interface::instruction::transfer`. It names the system program,
/// the sender as a writable signer and the receiver as writable, and serialises the
/// `Transfer` variant with bincode: a four-byte tag and the lamports, little-endian.
#[verifier::external_body]
pub(crate) fn transfer(from: &Address, to: &Address, lamports: u64) -> (instruction: Instruction)
    ensures
        instruction.view() == lamport_transfer(*from, *to, lamports),
{
    let (from, to) = (Pubkey::new_from_array(from.0), Pubkey::new_from_array(to.0));
    let built = system::transfer(&from, &to, lamports);
    Instruction {
        program_id: Address(built.program_id.to_bytes()),
        accounts: built.accounts.iter().map(|meta| AccountMeta {
            pubkey: Address(meta.pubkey.to_bytes()),
            is_signer: meta.is_signer,
            is_writable: meta.is_writable,
        }).collect(),
        data: built.data,
    }
}

} // verus!
