//! Which accounts are refused and why, and what an observer is shown of one that is not.

use vstd::prelude::*;

#[allow(unused_imports)]
use super::program::lemma_market_lens;
use super::program::{MarketAccountHeader, ProgramConstants, SizeClass};
use super::setup_laws::account_bytes;
use super::state::{
    decoded_state, observed, order_of, seat_of_entry, DecodeError, MarketState, StateView,
};
use crate::book::BookEntry;
#[allow(unused_imports)]
use crate::bytes::lemma_value_of;
use crate::bytes::Plain;
use crate::engine::{Market, TraderKey, TraderState};
use crate::order::Side;
use crate::tree::Entry;

verus! {

/// Data that cannot hold a preamble is too short, and no other data is.
pub proof fn law_short_accounts_are_refused(constants: ProgramConstants, data: Seq<u8>)
    ensures
        decoded_state(constants, data) == (Err::<StateView, _>(DecodeError::TooShort))
            <==> data.len() < 224,
{
}

/// The class that a preamble's number names.
pub open spec fn class_of(code: u64) -> Option<SizeClass> {
    if code == 0 {
        Some(SizeClass::Small)
    } else if code == 1 {
        Some(SizeClass::Medium)
    } else if code == 2 {
        Some(SizeClass::Large)
    } else {
        None
    }
}

/// Behind a preamble, an account is refused by its discriminator, then by its version, then
/// by its class, and then where it is shorter than an account of that class. What is longer
/// is not refused for it.
pub proof fn law_accounts_are_refused_by_their_preamble(
    constants: ProgramConstants,
    account: MarketAccountHeader,
    rest: Seq<u8>,
)
    requires
        224 + rest.len() <= usize::MAX,
    ensures
        ({
            let data = account.to_bytes() + rest;
            let result = decoded_state(constants, data);
            if account.discriminator != constants.market_discriminator {
                result == (Err::<StateView, _>(DecodeError::NotAMarket))
            } else if account.version != constants.market_version {
                result == (Err::<StateView, _>(
                    DecodeError::VersionMismatch {
                        found: account.version,
                        expected: constants.market_version,
                    },
                ))
            } else {
                match class_of(account.size_class) {
                    None => result == (Err::<StateView, _>(
                        DecodeError::UnknownSizeClass(account.size_class),
                    )),
                    Some(class) => if 224 + rest.len() < account_bytes(class) {
                        result == (Err::<StateView, _>(
                            DecodeError::Truncated {
                                expected: account_bytes(class) as usize,
                                found: (224 + rest.len()) as usize,
                            },
                        ))
                    } else {
                        match result {
                            Ok(state) => state.account == account && state.size_class == class,
                            Err(DecodeError::Corrupt) => true,
                            Err(DecodeError::InvalidLotConfig(_)) => true,
                            Err(_) => false,
                        }
                    },
                }
            }
        }),
{
    let data = account.to_bytes() + rest;
    account.lemma_byte_len();
    assert(data.subrange(0, 224) =~= account.to_bytes());
    lemma_value_of(account);
    lemma_market_lens();
}

/// An order is shown with its id, its size, and the seat that owns it.
pub proof fn law_orders_are_shown(entry: BookEntry)
    requires
        entry.value.trader_index <= u32::MAX,
    ensures
        order_of(entry).id == entry.key,
        order_of(entry).num_base_lots == entry.value.num_base_lots,
        order_of(entry).trader_index == entry.value.trader_index,
{
}

/// A seat is shown with the index that orders know it by, its wallet, and its balances.
pub proof fn law_seats_are_shown(entry: Entry<TraderKey, TraderState>)
    ensures
        seat_of_entry(entry).index == entry.handle,
        seat_of_entry(entry).key == entry.key,
        seat_of_entry(entry).state == entry.value,
{
}

/// An observer is shown the preamble, the header, every bid and every ask in the order they
/// would be matched, and every seat.
pub proof fn law_markets_are_shown<const BIDS: usize, const ASKS: usize, const SEATS: usize>(
    account: MarketAccountHeader,
    size_class: SizeClass,
    market: Market<BIDS, ASKS, SEATS>,
)
    ensures
        ({
            let shown = observed(account, size_class, market);
            let bids = market.model().book.queue(Side::Bid);
            let asks = market.model().book.queue(Side::Ask);
            let seats = market.model().seats.entries();
            &&& shown.account == account
            &&& shown.size_class == size_class
            &&& shown.header == market.head()
            &&& shown.bids.len() == bids.len()
            &&& forall|i: int|
                0 <= i < bids.len() ==> #[trigger] shown.bids[i] == order_of(bids[i])
            &&& shown.asks.len() == asks.len()
            &&& forall|i: int|
                0 <= i < asks.len() ==> #[trigger] shown.asks[i] == order_of(asks[i])
            &&& shown.traders.len() == seats.len()
            &&& forall|i: int|
                0 <= i < seats.len() ==> #[trigger] shown.traders[i] == seat_of_entry(seats[i])
        }),
{
}

/// The side of a state that is asked for is the side that is given.
pub proof fn law_sides_are_kept_apart(state: MarketState)
    ensures
        state.orders(Side::Bid) == state.bids@,
        state.orders(Side::Ask) == state.asks@,
        state.view().bids == state.bids@,
        state.view().asks == state.asks@,
        state.view().traders == state.traders@,
        state.view().account == state.account,
        state.view().header == state.header,
        state.view().size_class == state.size_class,
{
}

/// Each class has its own number, seats and size, the larger the more; a market of a class
/// has as many seats and as many orders a side as the class says.
pub proof fn law_classes_fix_their_capacities(class: SizeClass)
    ensures
        class.code() == (match class {
            SizeClass::Small => 0u64,
            SizeClass::Medium => 1u64,
            SizeClass::Large => 2u64,
        }),
        class_of(class.code()) == Some(class),
        class.seats() == (match class {
            SizeClass::Small => 32usize,
            SizeClass::Medium => 128usize,
            SizeClass::Large => 512usize,
        }),
        224 + class.market_len() == account_bytes(class),
        forall|code: u64| #[trigger] SizeClass::coded(code) == class_of(code),
{
    lemma_market_lens();
}

} // verus!
