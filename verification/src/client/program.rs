//! What a client has to know of the deployed program.

use vstd::prelude::*;

#[allow(unused_imports)]
use crate::bytes::{lemma_parts_agree, lemma_u64};
use crate::bytes::{put_all, put_u64, take_array, take_u64, u64_bytes, Plain};
use crate::engine::Market;

verus! {

/// The values a program binary fixes. They are the program's to choose, so a client is
/// given them rather than choosing its own.
#[derive(Clone, Debug)]
pub struct ProgramConstants {
    /// First seed of a market's vault signer.
    pub vault_signer_seed: Vec<u8>,
    /// The only seed of the event signer.
    pub log_authority_seed: Vec<u8>,
    /// First eight bytes of every market account.
    pub market_discriminator: u64,
    /// Account layout version.
    pub market_version: u64,
    /// Event layout version.
    pub event_version: u8,
    /// The kind byte of an order-placed event.
    pub event_order_placed: u8,
}

/// The instructions the program accepts, by their leading byte.
///
/// The bytes are the deployed program's, and have to be kept in step with it.
#[derive(Copy, Clone, Debug, PartialEq, Eq, Structural)]
pub enum Discriminant {
    /// Market creation.
    InitializeMarket,
    /// Seat claim.
    ClaimSeat,
    /// Tokens in.
    Deposit,
    /// Tokens out.
    Withdraw,
    /// An order against funds already on the market.
    PlaceOrder,
    /// A cancel.
    CancelOrder,
    /// A partial cancel.
    ReduceOrder,
    /// A bounded cancel-all on one side.
    CancelAllOrders,
    /// A fee sweep.
    CollectFees,
    /// An emitted event.
    LogEvent,
    /// Deposit, match and withdraw in one.
    Swap,
    /// A permissionless seat eviction.
    EvictSeat,
    /// Cancels and placements in one instruction.
    BatchUpdate,
}

impl Discriminant {
    /// The leading byte.
    pub open spec fn tag(self) -> u8 {
        match self {
            Discriminant::InitializeMarket => 0u8,
            Discriminant::ClaimSeat => 1u8,
            Discriminant::Deposit => 2u8,
            Discriminant::Withdraw => 3u8,
            Discriminant::PlaceOrder => 4u8,
            Discriminant::CancelOrder => 5u8,
            Discriminant::ReduceOrder => 6u8,
            Discriminant::CancelAllOrders => 7u8,
            Discriminant::CollectFees => 8u8,
            Discriminant::LogEvent => 9u8,
            Discriminant::Swap => 10u8,
            Discriminant::EvictSeat => 11u8,
            Discriminant::BatchUpdate => 13u8,
        }
    }

    /// The leading byte.
    pub fn as_u8(self) -> (tag: u8)
        ensures
            tag == self.tag(),
    {
        match self {
            Discriminant::InitializeMarket => 0,
            Discriminant::ClaimSeat => 1,
            Discriminant::Deposit => 2,
            Discriminant::Withdraw => 3,
            Discriminant::PlaceOrder => 4,
            Discriminant::CancelOrder => 5,
            Discriminant::ReduceOrder => 6,
            Discriminant::CancelAllOrders => 7,
            Discriminant::CollectFees => 8,
            Discriminant::LogEvent => 9,
            Discriminant::Swap => 10,
            Discriminant::EvictSeat => 11,
            Discriminant::BatchUpdate => 13,
        }
    }

    /// The instruction with this leading byte, if there is one.
    pub fn parse(tag: u8) -> (discriminant: Option<Self>)
        ensures
            match discriminant {
                Some(found) => found.tag() == tag,
                None => forall|other: Discriminant| other.tag() != tag,
            },
    {
        match tag {
            0 => Some(Discriminant::InitializeMarket),
            1 => Some(Discriminant::ClaimSeat),
            2 => Some(Discriminant::Deposit),
            3 => Some(Discriminant::Withdraw),
            4 => Some(Discriminant::PlaceOrder),
            5 => Some(Discriminant::CancelOrder),
            6 => Some(Discriminant::ReduceOrder),
            7 => Some(Discriminant::CancelAllOrders),
            8 => Some(Discriminant::CollectFees),
            9 => Some(Discriminant::LogEvent),
            10 => Some(Discriminant::Swap),
            11 => Some(Discriminant::EvictSeat),
            13 => Some(Discriminant::BatchUpdate),
            _ => None,
        }
    }
}

/// No two instructions share a leading byte.
pub proof fn law_tags_are_distinct(a: Discriminant, b: Discriminant)
    requires
        a.tag() == b.tag(),
    ensures
        a == b,
{
}

/// Bytes in the preamble of a market account.
pub const HEADER_LEN: usize = 224;

/// The capacities a market can be created at.
#[derive(Copy, Clone, Debug, PartialEq, Eq, Structural)]
pub enum SizeClass {
    /// 128 orders a side, 32 seats.
    Small,
    /// 512 orders a side, 128 seats.
    Medium,
    /// 2048 orders a side, 512 seats.
    Large,
}

impl SizeClass {
    /// The number an account and an instruction carry.
    pub open spec fn code(self) -> u64 {
        match self {
            SizeClass::Small => 0u64,
            SizeClass::Medium => 1u64,
            SizeClass::Large => 2u64,
        }
    }

    /// The class with this number, if there is one.
    pub open spec fn coded(code: u64) -> Option<SizeClass> {
        if code == 0 {
            Some(SizeClass::Small)
        } else if code == 1 {
            Some(SizeClass::Medium)
        } else if code == 2 {
            Some(SizeClass::Large)
        } else {
            None
        }
    }

    /// Seats a market of this class has.
    pub open spec fn seats(self) -> usize {
        match self {
            SizeClass::Small => 32usize,
            SizeClass::Medium => 128usize,
            SizeClass::Large => 512usize,
        }
    }

    /// Bytes in the market behind the preamble.
    pub open spec fn market_len(self) -> nat {
        match self {
            SizeClass::Small => Market::<128, 128, 32>::byte_len(),
            SizeClass::Medium => Market::<512, 512, 128>::byte_len(),
            SizeClass::Large => Market::<2048, 2048, 512>::byte_len(),
        }
    }

    /// The number an account and an instruction carry.
    pub fn as_u64(self) -> (code: u64)
        ensures
            code == self.code(),
    {
        match self {
            SizeClass::Small => 0,
            SizeClass::Medium => 1,
            SizeClass::Large => 2,
        }
    }

    /// The class with this number, if there is one.
    pub fn from_u64(code: u64) -> (class: Option<Self>)
        ensures
            class == SizeClass::coded(code),
    {
        match code {
            0 => Some(SizeClass::Small),
            1 => Some(SizeClass::Medium),
            2 => Some(SizeClass::Large),
            _ => None,
        }
    }

    /// Bytes in an account of this class, preamble included.
    pub fn account_len(self) -> (len: usize)
        ensures
            len == HEADER_LEN + self.market_len(),
    {
        proof {
            lemma_market_lens();
        }
        match self {
            SizeClass::Small => HEADER_LEN + Market::<128, 128, 32>::size_in_bytes(),
            SizeClass::Medium => HEADER_LEN + Market::<512, 512, 128>::size_in_bytes(),
            SizeClass::Large => HEADER_LEN + Market::<2048, 2048, 512>::size_in_bytes(),
        }
    }
}

/// The size of a market of each class.
pub proof fn lemma_market_lens()
    ensures
        Market::<128, 128, 32>::byte_len() == 19_072,
        Market::<512, 512, 128>::byte_len() == 75_904,
        Market::<2048, 2048, 512>::byte_len() == 303_232,
{
}

/// A number names the class it is the number of.
pub proof fn law_size_classes_round_trip(class: SizeClass)
    ensures
        SizeClass::coded(class.code()) == Some(class),
{
}

/// The preamble of a market account: what the program checks before it looks at the
/// market behind it. The fields stand in the order the deployed program lays them out in,
/// and have to be kept in step with it.
#[derive(Copy, Clone, Debug, PartialEq, Eq)]
pub struct MarketAccountHeader {
    /// Says that this is a market account.
    pub discriminator: u64,
    /// Layout version.
    pub version: u64,
    /// Which capacities follow. See [`SizeClass`].
    pub size_class: u64,
    /// Bump of the vault signer.
    pub vault_signer_bump: u64,
    /// Base token mint.
    pub base_mint: [u8; 32],
    /// Quote token mint.
    pub quote_mint: [u8; 32],
    /// Vault holding base deposits.
    pub base_vault: [u8; 32],
    /// Vault holding quote deposits.
    pub quote_vault: [u8; 32],
    /// May change the fee recipient.
    pub authority: [u8; 32],
    /// Receives swept fees.
    pub fee_recipient: [u8; 32],
}

impl Plain for MarketAccountHeader {
    open spec fn byte_len() -> nat {
        224
    }

    open spec fn to_bytes(self) -> Seq<u8> {
        u64_bytes(self.discriminator)
            + u64_bytes(self.version)
            + u64_bytes(self.size_class)
            + u64_bytes(self.vault_signer_bump)
            + self.base_mint@
            + self.quote_mint@
            + self.base_vault@
            + self.quote_vault@
            + self.authority@
            + self.fee_recipient@
    }

    proof fn lemma_byte_len(self) {
        lemma_u64(self.discriminator);
        lemma_u64(self.version);
        lemma_u64(self.size_class);
        lemma_u64(self.vault_signer_bump);
    }

    proof fn lemma_bytes_injective(self, other: Self) {
        lemma_u64(self.discriminator);
        lemma_u64(self.version);
        lemma_u64(self.size_class);
        lemma_u64(self.vault_signer_bump);
        lemma_u64(other.discriminator);
        lemma_u64(other.version);
        lemma_u64(other.size_class);
        lemma_u64(other.vault_signer_bump);
        let a4 = u64_bytes(self.discriminator) + u64_bytes(self.version) + u64_bytes(
            self.size_class,
        ) + u64_bytes(self.vault_signer_bump);
        let b4 = u64_bytes(other.discriminator) + u64_bytes(other.version) + u64_bytes(
            other.size_class,
        ) + u64_bytes(other.vault_signer_bump);
        let a5 = a4 + self.base_mint@;
        let b5 = b4 + other.base_mint@;
        let a6 = a5 + self.quote_mint@;
        let b6 = b5 + other.quote_mint@;
        let a7 = a6 + self.base_vault@;
        let b7 = b6 + other.base_vault@;
        let a8 = a7 + self.quote_vault@;
        let b8 = b7 + other.quote_vault@;
        let a9 = a8 + self.authority@;
        let b9 = b8 + other.authority@;
        lemma_parts_agree(a9, self.fee_recipient@, b9, other.fee_recipient@);
        lemma_parts_agree(a8, self.authority@, b8, other.authority@);
        lemma_parts_agree(a7, self.quote_vault@, b7, other.quote_vault@);
        lemma_parts_agree(a6, self.base_vault@, b6, other.base_vault@);
        lemma_parts_agree(a5, self.quote_mint@, b5, other.quote_mint@);
        lemma_parts_agree(a4, self.base_mint@, b4, other.base_mint@);
        let a2 = u64_bytes(self.discriminator) + u64_bytes(self.version);
        let b2 = u64_bytes(other.discriminator) + u64_bytes(other.version);
        lemma_parts_agree(
            a2 + u64_bytes(self.size_class),
            u64_bytes(self.vault_signer_bump),
            b2 + u64_bytes(other.size_class),
            u64_bytes(other.vault_signer_bump),
        );
        lemma_parts_agree(a2, u64_bytes(self.size_class), b2, u64_bytes(other.size_class));
        lemma_parts_agree(
            u64_bytes(self.discriminator),
            u64_bytes(self.version),
            u64_bytes(other.discriminator),
            u64_bytes(other.version),
        );
        assert(self.base_mint =~= other.base_mint);
        assert(self.quote_mint =~= other.quote_mint);
        assert(self.base_vault =~= other.base_vault);
        assert(self.quote_vault =~= other.quote_vault);
        assert(self.authority =~= other.authority);
        assert(self.fee_recipient =~= other.fee_recipient);
    }

    fn size_in_bytes() -> (size: usize) {
        224
    }

    fn put(&self, out: &mut Vec<u8>) {
        put_u64(out, self.discriminator);
        put_u64(out, self.version);
        put_u64(out, self.size_class);
        put_u64(out, self.vault_signer_bump);
        put_all(out, self.base_mint.as_slice());
        put_all(out, self.quote_mint.as_slice());
        put_all(out, self.base_vault.as_slice());
        put_all(out, self.quote_vault.as_slice());
        put_all(out, self.authority.as_slice());
        put_all(out, self.fee_recipient.as_slice());
        proof {
            assert(out@ =~= old(out)@ + self.to_bytes());
        }
    }

    fn take(bytes: &[u8], at: usize) -> (value: Self) {
        let len = bytes.len();
        let value = MarketAccountHeader {
            discriminator: take_u64(bytes, at),
            version: take_u64(bytes, at + 8),
            size_class: take_u64(bytes, at + 16),
            vault_signer_bump: take_u64(bytes, at + 24),
            base_mint: take_array(bytes, at + 32),
            quote_mint: take_array(bytes, at + 64),
            base_vault: take_array(bytes, at + 96),
            quote_vault: take_array(bytes, at + 128),
            authority: take_array(bytes, at + 160),
            fee_recipient: take_array(bytes, at + 192),
        };
        proof {
            assert(value.to_bytes() =~= bytes@.subrange(at as int, at + 224));
        }
        value
    }
}

} // verus!
