//! Remembering what was created.
//!
//! Creating a market mints tokens and allocates accounts whose addresses are random;
//! every later command needs them. Rather than making the user paste six addresses per
//! call, they are written down and read back by default. Addresses only: a secret does
//! not belong in a document people copy around.

use vstd::prelude::*;
use vstd::string::StringExecFns;

use crate::client::address::{displayed_address, parsed_address, Address};
use crate::client::instruction::MarketAddresses;
use crate::client::program::ProgramConstants;

verus! {

/// A market that was created, and everything needed to use it again.
#[derive(Clone, Debug)]
pub struct MarketRecord {
    /// The deployed program.
    pub program_id: String,
    /// The market account.
    pub market: String,
    /// Vault holding base deposits.
    pub base_vault: String,
    /// Vault holding quote deposits.
    pub quote_vault: String,
    /// Base token mint.
    pub base_mint: String,
    /// Quote token mint.
    pub quote_mint: String,
    /// The payer's base token account.
    pub payer_base: String,
    /// The payer's quote token account.
    pub payer_quote: String,
}

/// An entry of a record.
#[derive(Copy, Clone, Debug, PartialEq, Eq)]
pub enum RecordField {
    /// `program_id`.
    ProgramId,
    /// `market`.
    Market,
    /// `base_vault`.
    BaseVault,
    /// `quote_vault`.
    QuoteVault,
    /// `base_mint`.
    BaseMint,
    /// `quote_mint`.
    QuoteMint,
    /// `payer_base`.
    PayerBase,
    /// `payer_quote`.
    PayerQuote,
}

impl RecordField {
    /// The entry's name.
    pub open spec fn text(self) -> Seq<char> {
        match self {
            RecordField::ProgramId => "program_id"@,
            RecordField::Market => "market"@,
            RecordField::BaseVault => "base_vault"@,
            RecordField::QuoteVault => "quote_vault"@,
            RecordField::BaseMint => "base_mint"@,
            RecordField::QuoteMint => "quote_mint"@,
            RecordField::PayerBase => "payer_base"@,
            RecordField::PayerQuote => "payer_quote"@,
        }
    }

    /// The entry's name.
    pub fn name(self) -> (name: &'static str)
        ensures
            name@ == self.text(),
    {
        match self {
            RecordField::ProgramId => "program_id",
            RecordField::Market => "market",
            RecordField::BaseVault => "base_vault",
            RecordField::QuoteVault => "quote_vault",
            RecordField::BaseMint => "base_mint",
            RecordField::QuoteMint => "quote_mint",
            RecordField::PayerBase => "payer_base",
            RecordField::PayerQuote => "payer_quote",
        }
    }
}

/// Why a record cannot be used.
#[derive(Copy, Clone, Debug, PartialEq, Eq)]
pub enum RecordError {
    /// An entry does not spell an address.
    NotAnAddress(RecordField),
    /// The market's vault signer cannot be derived.
    NoVaultSigner,
}

impl MarketRecord {
    /// What an entry holds.
    pub open spec fn entry(self, field: RecordField) -> Seq<char> {
        match field {
            RecordField::ProgramId => self.program_id@,
            RecordField::Market => self.market@,
            RecordField::BaseVault => self.base_vault@,
            RecordField::QuoteVault => self.quote_vault@,
            RecordField::BaseMint => self.base_mint@,
            RecordField::QuoteMint => self.quote_mint@,
            RecordField::PayerBase => self.payer_base@,
            RecordField::PayerQuote => self.payer_quote@,
        }
    }

    /// The address an entry spells.
    pub open spec fn address(self, field: RecordField) -> Result<Address, RecordError> {
        match parsed_address(self.entry(field)) {
            Some(bytes) => Ok(Address(bytes)),
            None => Err(RecordError::NotAnAddress(field)),
        }
    }

    /// The market's addresses, or the first entry that spells none.
    pub open spec fn addressed(self, constants: ProgramConstants) -> Result<
        MarketAddresses,
        RecordError,
    > {
        match self.address(RecordField::ProgramId) {
            Err(error) => Err(error),
            Ok(program_id) => match self.address(RecordField::Market) {
                Err(error) => Err(error),
                Ok(market) => match self.address(RecordField::BaseVault) {
                    Err(error) => Err(error),
                    Ok(base_vault) => match self.address(RecordField::QuoteVault) {
                        Err(error) => Err(error),
                        Ok(quote_vault) => match constants.vault_signer(program_id, market) {
                            None => Err(RecordError::NoVaultSigner),
                            Some((signer, _)) => Ok(
                                MarketAddresses::with_signer(
                                    program_id,
                                    market,
                                    base_vault,
                                    quote_vault,
                                    signer,
                                ),
                            ),
                        },
                    },
                },
            },
        }
    }

    /// Writes addresses down.
    pub fn new(
        addresses: &MarketAddresses,
        base_mint: &Address,
        quote_mint: &Address,
        payer_base: &Address,
        payer_quote: &Address,
    ) -> (record: Self)
        ensures
            record.address(RecordField::ProgramId) == Ok::<Address, RecordError>(
                addresses.program_id,
            ),
            record.address(RecordField::Market) == Ok::<Address, RecordError>(addresses.market),
            record.address(RecordField::BaseVault) == Ok::<Address, RecordError>(
                addresses.base_vault,
            ),
            record.address(RecordField::QuoteVault) == Ok::<Address, RecordError>(
                addresses.quote_vault,
            ),
            record.address(RecordField::BaseMint) == Ok::<Address, RecordError>(*base_mint),
            record.address(RecordField::QuoteMint) == Ok::<Address, RecordError>(*quote_mint),
            record.address(RecordField::PayerBase) == Ok::<Address, RecordError>(*payer_base),
            record.address(RecordField::PayerQuote) == Ok::<Address, RecordError>(*payer_quote),
            record.program_id@ == displayed_address(addresses.program_id.0),
            record.market@ == displayed_address(addresses.market.0),
            record.base_vault@ == displayed_address(addresses.base_vault.0),
            record.quote_vault@ == displayed_address(addresses.quote_vault.0),
            record.base_mint@ == displayed_address(base_mint.0),
            record.quote_mint@ == displayed_address(quote_mint.0),
            record.payer_base@ == displayed_address(payer_base.0),
            record.payer_quote@ == displayed_address(payer_quote.0),
    {
        MarketRecord {
            program_id: addresses.program_id.display(),
            market: addresses.market.display(),
            base_vault: addresses.base_vault.display(),
            quote_vault: addresses.quote_vault.display(),
            base_mint: base_mint.display(),
            quote_mint: quote_mint.display(),
            payer_base: payer_base.display(),
            payer_quote: payer_quote.display(),
        }
    }

    /// The file a cluster's record is kept in, e.g. `devnet.json`.
    pub fn file_name(cluster: &str) -> (name: String)
        ensures
            name@ == cluster@ + ".json"@,
    {
        let mut name = String::from_str(cluster);
        name.append(".json");
        name
    }

    /// The address an entry spells.
    pub fn parse(&self, field: RecordField) -> (address: Result<Address, RecordError>)
        ensures
            address == self.address(field),
    {
        let text = match field {
            RecordField::ProgramId => self.program_id.as_str(),
            RecordField::Market => self.market.as_str(),
            RecordField::BaseVault => self.base_vault.as_str(),
            RecordField::QuoteVault => self.quote_vault.as_str(),
            RecordField::BaseMint => self.base_mint.as_str(),
            RecordField::QuoteMint => self.quote_mint.as_str(),
            RecordField::PayerBase => self.payer_base.as_str(),
            RecordField::PayerQuote => self.payer_quote.as_str(),
        };
        match Address::parse(text) {
            Some(address) => Ok(address),
            None => Err(RecordError::NotAnAddress(field)),
        }
    }

    /// The addresses every instruction builder takes.
    ///
    /// # Errors
    ///
    /// The first entry that does not spell an address.
    pub fn addresses(&self, constants: &ProgramConstants) -> (result: Result<
        MarketAddresses,
        RecordError,
    >)
        ensures
            result == self.addressed(*constants),
    {
        let program_id = match self.parse(RecordField::ProgramId) {
            Ok(address) => address,
            Err(error) => {
                return Err(error);
            },
        };
        let market = match self.parse(RecordField::Market) {
            Ok(address) => address,
            Err(error) => {
                return Err(error);
            },
        };
        let base_vault = match self.parse(RecordField::BaseVault) {
            Ok(address) => address,
            Err(error) => {
                return Err(error);
            },
        };
        let quote_vault = match self.parse(RecordField::QuoteVault) {
            Ok(address) => address,
            Err(error) => {
                return Err(error);
            },
        };
        match MarketAddresses::try_new(constants, program_id, market, base_vault, quote_vault) {
            Some(addresses) => Ok(addresses),
            None => Err(RecordError::NoVaultSigner),
        }
    }

    /// The payer's two token accounts, in the order the builders take them.
    ///
    /// # Errors
    ///
    /// The first entry that does not spell an address.
    pub fn payer_token_accounts(&self) -> (result: Result<(Address, Address), RecordError>)
        ensures
            result == match self.address(RecordField::PayerBase) {
                Err(error) => Err(error),
                Ok(base) => match self.address(RecordField::PayerQuote) {
                    Err(error) => Err(error),
                    Ok(quote) => Ok((base, quote)),
                },
            },
    {
        match self.parse(RecordField::PayerBase) {
            Err(error) => Err(error),
            Ok(base) => match self.parse(RecordField::PayerQuote) {
                Err(error) => Err(error),
                Ok(quote) => Ok((base, quote)),
            },
        }
    }
}

/// What was written down is what is used later: a record that spells a market's addresses
/// gives those addresses back.
pub proof fn law_records_are_read_back(
    record: MarketRecord,
    constants: ProgramConstants,
    addresses: MarketAddresses,
)
    requires
        record.address(RecordField::ProgramId) == Ok::<Address, RecordError>(addresses.program_id),
        record.address(RecordField::Market) == Ok::<Address, RecordError>(addresses.market),
        record.address(RecordField::BaseVault) == Ok::<Address, RecordError>(addresses.base_vault),
        record.address(RecordField::QuoteVault) == Ok::<Address, RecordError>(
            addresses.quote_vault,
        ),
        constants.vault_signer(addresses.program_id, addresses.market) is Some,
        addresses == MarketAddresses::with_signer(
            addresses.program_id,
            addresses.market,
            addresses.base_vault,
            addresses.quote_vault,
            constants.vault_signer(addresses.program_id, addresses.market)->Some_0.0,
        ),
    ensures
        record.addressed(constants) == Ok::<MarketAddresses, RecordError>(addresses),
{
}

} // verus!
