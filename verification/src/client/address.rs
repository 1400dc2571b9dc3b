//! Program-derived addresses.
//!
//! Both derivations are also done on-chain, but with the bump supplied rather than
//! searched for — the search loops until it finds an off-curve address and costs on the
//! order of a thousand compute units. Doing the search here and passing the answer down is
//! why order entry is as cheap as it is.

use solana_pubkey::Pubkey;
use vstd::prelude::*;

use super::program::ProgramConstants;
use crate::bytes::same_bytes;

verus! {

/// A Solana account address.
#[derive(Copy, Clone, Debug, PartialEq, Eq, Hash)]
pub struct Address(pub [u8; 32]);

impl Address {
    /// Wraps raw bytes.
    pub fn new_from_array(bytes: [u8; 32]) -> (address: Self)
        ensures
            address == Address(bytes),
    {
        Address(bytes)
    }

    /// The underlying bytes.
    pub fn to_bytes(&self) -> (bytes: [u8; 32])
        ensures
            bytes == self.0,
    {
        self.0
    }

    /// Whether two addresses are one.
    pub fn is(&self, other: &Address) -> (same: bool)
        ensures
            same == (*self == *other),
    {
        same_bytes(&self.0, &other.0)
    }
}

/// The address that `Pubkey::from_str` reads from a text.
pub uninterp spec fn parsed_address(text: Seq<char>) -> Option<[u8; 32]>;

/// The text that `Pubkey`'s `Display` writes for an address.
pub uninterp spec fn displayed_address(address: [u8; 32]) -> Seq<char>;

/// Calls `solana_pubkey::Pubkey::from_str`, which reads base58. What it reads depends on
/// the text alone and is taken under the name [`parsed_address`]; the two errors it tells
/// apart, a bad character and a wrong length, are both `None` here.
#[verifier::external_body]
fn parse_pubkey(text: &str) -> (address: Option<Address>)
    ensures
        address == match parsed_address(text@) {
            Some(bytes) => Some(Address(bytes)),
            None => None,
        },
{
    text.parse::<Pubkey>().ok().map(|key| Address(key.to_bytes()))
}

/// Calls `to_string` on a `solana_pubkey::Pubkey`, which writes base58. What it writes
/// depends on the address alone and is taken under the name [`displayed_address`];
/// besides, it is a text that `from_str` reads back as the same address.
#[verifier::external_body]
fn display_pubkey(address: &Address) -> (text: String)
    ensures
        text@ == displayed_address(address.0),
        parsed_address(text@) == Some(address.0),
{
    Pubkey::new_from_array(address.0).to_string()
}

impl Address {
    /// The address a text spells, if it spells one.
    pub fn parse(text: &str) -> (address: Option<Address>)
        ensures
            address == match parsed_address(text@) {
                Some(bytes) => Some(Address(bytes)),
                None => None,
            },
    {
        parse_pubkey(text)
    }

    /// The address as text. Parsing gives it back.
    pub fn display(&self) -> (text: String)
        ensures
            text@ == displayed_address(self.0),
            parsed_address(text@) == Some(self.0),
    {
        display_pubkey(self)
    }
}

/// The address, and the bump it was found at, that `Pubkey::try_find_program_address`
/// derives from these seeds for this program.
pub uninterp spec fn derived_address(seeds: Seq<Seq<u8>>, program_id: [u8; 32]) -> Option<
    ([u8; 32], u8),
>;

/// A found address as this library has it.
pub open spec fn found(derived: Option<([u8; 32], u8)>) -> Option<(Address, u8)> {
    match derived {
        Some((bytes, bump)) => Some((Address(bytes), bump)),
        None => None,
    }
}

/// Calls `solana_pubkey::Pubkey::try_find_program_address`: the search, over bumps from
/// 255 down, for an address off the curve. The result depends on the seeds and the program
/// alone, and is taken under the name [`derived_address`]; nothing else is claimed of it.
/// `None` means no bump gave an address, or the seeds were too many or too long, which is
/// where `find_program_address` would panic.
#[verifier::external_body]
fn try_find_program_address(seeds: &[&[u8]], program_id: &Address) -> (address: Option<
    (Address, u8),
>)
    ensures
        address == found(
            derived_address(seeds@.map_values(|seed: &[u8]| seed@), program_id.0),
        ),
{
    Pubkey::try_find_program_address(seeds, &Pubkey::new_from_array(program_id.0)).map(
        |(address, bump)| (Address(address.to_bytes()), bump),
    )
}

impl ProgramConstants {
    /// The vault signer of a market, if the derivation finds one.
    pub open spec fn vault_signer(self, program_id: Address, market: Address) -> Option<
        (Address, u8),
    > {
        found(derived_address(seq![self.vault_signer_seed@, market.0@], program_id.0))
    }

    /// The event signer, if the derivation finds one.
    pub open spec fn log_authority(self, program_id: Address) -> Option<(Address, u8)> {
        found(derived_address(seq![self.log_authority_seed@], program_id.0))
    }
}

/// The authority owning a market's two token vaults, and its bump, or `None` if no bump
/// gives an address.
pub fn try_vault_signer(
    constants: &ProgramConstants,
    program_id: &Address,
    market: &Address,
) -> (signer: Option<(Address, u8)>)
    ensures
        signer == constants.vault_signer(*program_id, *market),
{
    let seeds: [&[u8]; 2] = [constants.vault_signer_seed.as_slice(), market.0.as_slice()];
    proof {
        assert(seeds@.map_values(|seed: &[u8]| seed@) =~= seq![
            constants.vault_signer_seed@,
            market.0@,
        ]);
    }
    try_find_program_address(seeds.as_slice(), program_id)
}

/// The program-wide event signer, and its bump, or `None` if no bump gives an address.
pub fn try_log_authority(constants: &ProgramConstants, program_id: &Address) -> (signer: Option<
    (Address, u8),
>)
    ensures
        signer == constants.log_authority(*program_id),
{
    let seeds: [&[u8]; 1] = [constants.log_authority_seed.as_slice()];
    proof {
        assert(seeds@.map_values(|seed: &[u8]| seed@) =~= seq![constants.log_authority_seed@]);
    }
    try_find_program_address(seeds.as_slice(), program_id)
}

/// The authority owning a market's two token vaults, and its bump.
///
/// One signer for both vaults rather than one each: a vault is only ever moved by this
/// authority, so a second address would be a second thing to derive and pass for no gain.
pub fn vault_signer(
    constants: &ProgramConstants,
    program_id: &Address,
    market: &Address,
) -> (signer: (Address, u8))
    requires
        constants.vault_signer(*program_id, *market) is Some,
    ensures
        Some(signer) == constants.vault_signer(*program_id, *market),
{
    try_vault_signer(constants, program_id, market).unwrap()
}

/// The program-wide event signer, and its bump.
///
/// Not market-scoped, because its only job is to prove that an event came from this
/// program. Which market the event concerns is already in the transaction's accounts.
pub fn log_authority(constants: &ProgramConstants, program_id: &Address) -> (signer: (Address, u8))
    requires
        constants.log_authority(*program_id) is Some,
    ensures
        Some(signer) == constants.log_authority(*program_id),
{
    try_log_authority(constants, program_id).unwrap()
}

} // verus!
