//! Decoding a market account.
//!
//! On-chain the market is operated on in place and never copied, because compute is
//! scarce. Off-chain the opposite is true: an indexer wants owned, size-agnostic data it
//! can hold, diff and serialise. So this decodes once into plain structures rather than
//! handing back a market whose capacities are const generics.

use vstd::prelude::*;
use vstd::string::StringExecFns;

use super::address::Address;
use super::program::{MarketAccountHeader, ProgramConstants, SizeClass, HEADER_LEN};
#[allow(unused_imports)]
use super::state_laws::{
    are_swept, cost_of_sweep, law_levels_stand_for_their_orders, law_sweeps_need_the_size,
    law_sweeps_take_from_the_front, lemma_sweep_is_natural, shows, size_between,
};
#[allow(unused_imports)]
use super::program::lemma_market_lens;
use crate::book::view::marketable;
use crate::book::BookEntry;
#[allow(unused_imports)]
use crate::bytes::lemma_value_of;
use crate::bytes::{same_bytes, value_of, Plain};
#[allow(unused_imports)]
use crate::engine::market::laws::lemma_first_owned_in;
#[allow(unused_imports)]
use crate::engine::market::model::{first_owned, MarketModel};
use crate::engine::{FeeSchedule, Market, MarketHeader, TraderKey, TraderState};
use crate::order::{FIFOOrderId, Side};
use crate::quantities::{BaseLots, LotConfig, LotConfigError, QuoteLots, Ticks};
use crate::text::{decimal, digits};
use crate::tree::Entry;
#[allow(unused_imports)]
use crate::tree::TreeKey;

verus! {

/// Why a market account could not be decoded.
#[allow(inconsistent_fields)]
#[derive(Copy, Clone, Debug, PartialEq, Eq)]
pub enum DecodeError {
    /// The buffer is shorter than the header.
    TooShort,
    /// The first eight bytes are not the market discriminator.
    NotAMarket,
    /// The account was written by an incompatible program version.
    VersionMismatch {
        /// Version found in the account.
        found: u64,
        /// Version this client understands.
        expected: u64,
    },
    /// The size class byte is not one this client knows.
    UnknownSizeClass(u64),
    /// The account is shorter than its declared size class requires.
    Truncated {
        /// Bytes the declared size class needs.
        expected: usize,
        /// Bytes the buffer actually holds.
        found: usize,
    },
    /// A walk over a tree in the account cannot be finished: a link leaves the arena, the
    /// links go round in a circle, or there are more entries than the tree records.
    ///
    /// No program leaves an account like this. An observer is handed whatever was read,
    /// though, and panicking or looping is not an answer. A tree that can be walked to its
    /// end is decoded as the walk finds it, whether or not its links are otherwise sound.
    Corrupt,
    /// The lot geometry is not one any market could have been created with.
    ///
    /// Reading a `LotConfig` out of account bytes bypasses [`LotConfig::new`] and its
    /// checks entirely. A zero in the wrong field divides by zero the first time anything
    /// is priced, so the config is re-checked here rather than trusted.
    InvalidLotConfig(LotConfigError),
}

impl DecodeError {
    /// What went wrong, in words.
    pub open spec fn text(self) -> Seq<char> {
        match self {
            DecodeError::TooShort => "buffer shorter than the market header"@,
            DecodeError::NotAMarket => "not a market account"@,
            DecodeError::VersionMismatch { found, expected } => "market version "@ + digits(
                found as nat,
            ) + ", expected "@ + digits(expected as nat),
            DecodeError::UnknownSizeClass(value) => "unknown size class "@ + digits(value as nat),
            DecodeError::Truncated { expected, found } => "account is "@ + digits(found as nat)
                + " bytes, expected "@ + digits(expected as nat),
            DecodeError::Corrupt => "the market's trees do not hold together"@,
            DecodeError::InvalidLotConfig(error) => "the market's lot configuration is invalid: "@
                + error.variant(),
        }
    }

    /// What went wrong, in words.
    pub fn message(&self) -> (message: String)
        ensures
            message@ == self.text(),
    {
        match self {
            DecodeError::TooShort => String::from_str("buffer shorter than the market header"),
            DecodeError::NotAMarket => String::from_str("not a market account"),
            DecodeError::VersionMismatch { found, expected } => {
                let mut message = String::from_str("market version ");
                message.append(decimal(*found).as_str());
                message.append(", expected ");
                message.append(decimal(*expected).as_str());
                message
            },
            DecodeError::UnknownSizeClass(value) => {
                let mut message = String::from_str("unknown size class ");
                message.append(decimal(*value).as_str());
                message
            },
            DecodeError::Truncated { expected, found } => {
                let mut message = String::from_str("account is ");
                message.append(decimal(*found as u64).as_str());
                message.append(" bytes, expected ");
                message.append(decimal(*expected as u64).as_str());
                message
            },
            DecodeError::Corrupt => String::from_str("the market's trees do not hold together"),
            DecodeError::InvalidLotConfig(error) => {
                let mut message = String::from_str("the market's lot configuration is invalid: ");
                message.append(error.name());
                message
            },
        }
    }
}

/// One resting order.
#[derive(Copy, Clone, Debug, PartialEq, Eq)]
pub struct BookOrder {
    /// Identity, from which price and side decode.
    pub id: FIFOOrderId,
    /// Seat index of the owner.
    pub trader_index: u32,
    /// Remaining size.
    pub num_base_lots: BaseLots,
}

impl BookOrder {
    /// Limit price.
    pub fn price_in_ticks(&self) -> (price: Ticks)
        ensures
            price == self.id.price_in_ticks,
    {
        self.id.price_in_ticks
    }

    /// Arrival order across the whole market.
    pub fn sequence_number(&self) -> (sequence: u64)
        ensures
            sequence == self.id.raw_sequence(),
    {
        self.id.sequence_number()
    }
}

/// A claimed seat: who holds it, what they hold, and the index it is known by.
///
/// Resting orders carry the index rather than the wallet, so this is the join between
/// an order on the book and the wallet that owns it. An observer needs that join to tell
/// a fill from a self-trade — a distinction only ownership can make, and one that
/// decides whether a trade is reported as volume at all.
#[derive(Copy, Clone, Debug, PartialEq, Eq)]
pub struct Seat {
    /// What resting orders refer to this seat by.
    pub index: u32,
    /// The wallet holding it.
    pub key: TraderKey,
    /// Its balances.
    pub state: TraderState,
}

/// One aggregated price level.
#[derive(Copy, Clone, Debug, PartialEq, Eq)]
pub struct Level {
    /// Price.
    pub price_in_ticks: Ticks,
    /// Total resting size at this price.
    pub base_lots: BaseLots,
    /// How many individual orders make it up. Depth of one large order and depth of
    /// twenty small ones behave very differently, and the count is the only way to tell.
    pub order_count: u32,
}

/// The result of pricing a hypothetical sweep.
#[derive(Copy, Clone, Debug, PartialEq, Eq)]
pub struct Sweep {
    /// Size that would fill.
    pub base_lots: BaseLots,
    /// Gross quote value, before fees.
    pub quote_lots: QuoteLots,
    /// Worst price reached.
    pub worst_price_in_ticks: Ticks,
}

/// A decoded market, independent of its on-chain capacities.
#[derive(Clone, Debug, PartialEq, Eq)]
pub struct MarketState {
    /// The account preamble: mints, vaults, authority.
    pub account: MarketAccountHeader,
    /// Which capacities this account was created at.
    pub size_class: SizeClass,
    /// Configuration and running totals.
    pub header: MarketHeader,
    /// Bids, best first — highest price, oldest within a price.
    pub bids: Vec<BookOrder>,
    /// Asks, best first — lowest price, oldest within a price.
    pub asks: Vec<BookOrder>,
    /// Claimed seats, with the index resting orders refer to them by.
    pub traders: Vec<Seat>,
}

/// A decoded market with its lists as sequences.
pub struct StateView {
    /// The account preamble.
    pub account: MarketAccountHeader,
    /// Which capacities this account was created at.
    pub size_class: SizeClass,
    /// Configuration and running totals.
    pub header: MarketHeader,
    /// Bids, best first.
    pub bids: Seq<BookOrder>,
    /// Asks, best first.
    pub asks: Seq<BookOrder>,
    /// Claimed seats.
    pub traders: Seq<Seat>,
}

// ---------------------------------------------------------------------------------
// What an account means
// ---------------------------------------------------------------------------------

/// An order as an observer sees it.
pub open spec fn order_of(entry: BookEntry) -> BookOrder {
    BookOrder {
        id: entry.key,
        trader_index: entry.value.trader_index as u32,
        num_base_lots: entry.value.num_base_lots,
    }
}

/// Orders as an observer sees them.
pub open spec fn orders_of(entries: Seq<BookEntry>) -> Seq<BookOrder> {
    entries.map_values(|entry: BookEntry| order_of(entry))
}

/// A seat as an observer sees it.
pub open spec fn seat_of_entry(entry: Entry<TraderKey, TraderState>) -> Seat {
    Seat { index: entry.handle, key: entry.key, state: entry.value }
}

/// Seats as an observer sees them.
pub open spec fn seats_of(entries: Seq<Entry<TraderKey, TraderState>>) -> Seq<Seat> {
    entries.map_values(|entry: Entry<TraderKey, TraderState>| seat_of_entry(entry))
}

/// What an observer sees of a market.
pub open spec fn observed<const BIDS: usize, const ASKS: usize, const SEATS: usize>(
    account: MarketAccountHeader,
    size_class: SizeClass,
    market: Market<BIDS, ASKS, SEATS>,
) -> StateView {
    StateView {
        account,
        size_class,
        header: market.head(),
        bids: orders_of(market.model().book.queue(Side::Bid)),
        asks: orders_of(market.model().book.queue(Side::Ask)),
        traders: seats_of(market.model().seats.entries()),
    }
}

/// What a market of known capacities means, behind its preamble.
pub open spec fn decoded_market<const BIDS: usize, const ASKS: usize, const SEATS: usize>(
    account: MarketAccountHeader,
    size_class: SizeClass,
    data: Seq<u8>,
) -> Result<StateView, DecodeError> {
    let needed = Market::<BIDS, ASKS, SEATS>::byte_len();
    let market = Market::<BIDS, ASKS, SEATS>::of_bytes(
        data.subrange(HEADER_LEN as int, HEADER_LEN + needed),
    );
    if data.len() < HEADER_LEN + needed {
        Err(
            DecodeError::Truncated {
                expected: (needed + HEADER_LEN) as usize,
                found: data.len() as usize,
            },
        )
    } else {
        match (
            market.order_book().bid_tree().met(false),
            market.order_book().ask_tree().met(true),
            market.seat_table().tree().met(true),
        ) {
            (Some(bids), Some(asks), Some(seats)) => match market.head().lot_config.flaw() {
                Some(flaw) => Err(DecodeError::InvalidLotConfig(flaw)),
                None => Ok(
                    StateView {
                        account,
                        size_class,
                        header: market.head(),
                        bids: orders_of(bids),
                        asks: orders_of(asks),
                        traders: seats_of(seats),
                    },
                ),
            },
            _ => Err(DecodeError::Corrupt),
        }
    }
}

/// What a market account means.
pub open spec fn decoded_state(constants: ProgramConstants, data: Seq<u8>) -> Result<
    StateView,
    DecodeError,
> {
    let account = value_of::<MarketAccountHeader>(data.subrange(0, HEADER_LEN as int));
    if data.len() < HEADER_LEN {
        Err(DecodeError::TooShort)
    } else if account.discriminator != constants.market_discriminator {
        Err(DecodeError::NotAMarket)
    } else if account.version != constants.market_version {
        Err(
            DecodeError::VersionMismatch {
                found: account.version,
                expected: constants.market_version,
            },
        )
    } else {
        match SizeClass::coded(account.size_class) {
            None => Err(DecodeError::UnknownSizeClass(account.size_class)),
            Some(SizeClass::Small) => decoded_market::<128, 128, 32>(
                account,
                SizeClass::Small,
                data,
            ),
            Some(SizeClass::Medium) => decoded_market::<512, 512, 128>(
                account,
                SizeClass::Medium,
                data,
            ),
            Some(SizeClass::Large) => decoded_market::<2048, 2048, 512>(
                account,
                SizeClass::Large,
                data,
            ),
        }
    }
}

/// A decoded state, or the error, as the specification has it.
pub open spec fn state_result(result: Result<MarketState, DecodeError>) -> Result<
    StateView,
    DecodeError,
> {
    match result {
        Ok(state) => Ok(state.view()),
        Err(error) => Err(error),
    }
}

// ---------------------------------------------------------------------------------
// Collecting
// ---------------------------------------------------------------------------------

/// An order as an observer sees it.
fn observe_order(entry: BookEntry) -> (order: BookOrder)
    ensures
        order == order_of(entry),
{
    BookOrder {
        id: entry.key,
        trader_index: entry.value.trader_index as u32,
        num_base_lots: entry.value.num_base_lots,
    }
}

/// Orders as an observer sees them.
fn observe_orders(entries: &Vec<BookEntry>) -> (orders: Vec<BookOrder>)
    ensures
        orders@ == orders_of(entries@),
{
    let mut orders: Vec<BookOrder> = Vec::new();
    let mut i: usize = 0;
    while i < entries.len()
        invariant
            i <= entries@.len(),
            orders@ =~= orders_of(entries@.take(i as int)),
        decreases entries@.len() - i,
    {
        orders.push(observe_order(entries[i]));
        i = i + 1;
    }
    proof {
        assert(entries@.take(i as int) =~= entries@);
    }
    orders
}

/// Seats as an observer sees them.
fn observe_seats(entries: &Vec<Entry<TraderKey, TraderState>>) -> (seats: Vec<Seat>)
    ensures
        seats@ == seats_of(entries@),
{
    let mut seats: Vec<Seat> = Vec::new();
    let mut i: usize = 0;
    while i < entries.len()
        invariant
            i <= entries@.len(),
            seats@ =~= seats_of(entries@.take(i as int)),
        decreases entries@.len() - i,
    {
        let entry = entries[i];
        seats.push(Seat { index: entry.handle, key: entry.key, state: entry.value });
        i = i + 1;
    }
    proof {
        assert(entries@.take(i as int) =~= entries@);
    }
    seats
}

/// Decodes a market of known capacities, behind its preamble.
fn decode_sized<const BIDS: usize, const ASKS: usize, const SEATS: usize>(
    account: MarketAccountHeader,
    size_class: SizeClass,
    data: &[u8],
) -> (result: Result<MarketState, DecodeError>)
    requires
        BIDS <= u32::MAX,
        ASKS <= u32::MAX,
        SEATS <= u32::MAX,
        Market::<BIDS, ASKS, SEATS>::byte_len() + HEADER_LEN <= usize::MAX,
        data@.len() >= HEADER_LEN,
    ensures
        state_result(result) == decoded_market::<BIDS, ASKS, SEATS>(account, size_class, data@),
{
    let needed = Market::<BIDS, ASKS, SEATS>::size_in_bytes();
    if data.len() - HEADER_LEN < needed {
        return Err(
            DecodeError::Truncated { expected: needed + HEADER_LEN, found: data.len() },
        );
    }
    let market = Market::<BIDS, ASKS, SEATS>::take(data, HEADER_LEN);
    let (bids, asks, seats) = match (
        market.book().bids().walk(false),
        market.book().asks().walk(true),
        market.traders().seat_tree().walk(true),
    ) {
        (Some(bids), Some(asks), Some(seats)) => (bids, asks, seats),
        _ => {
            return Err(DecodeError::Corrupt);
        },
    };
    let header = *market.header();
    // Reading a header bypasses LotConfig::new, so nothing has checked these numbers.
    // Refusing here means anything that survives decoding is safe to price; the
    // alternative is a divide by zero in whatever reads it next.
    match header.lot_config.validate() {
        Ok(()) => {},
        Err(error) => {
            return Err(DecodeError::InvalidLotConfig(error));
        },
    }
    Ok(
        MarketState {
            account,
            size_class,
            header,
            bids: observe_orders(&bids),
            asks: observe_orders(&asks),
            traders: observe_seats(&seats),
        },
    )
}

// ---------------------------------------------------------------------------------
// What can be read off a state
// ---------------------------------------------------------------------------------

/// Whether one of these orders belongs to the seat with this index.
pub open spec fn owns_any(orders: Seq<BookOrder>, index: u32) -> bool {
    exists|i: int| 0 <= i < orders.len() && (#[trigger] orders[i]).trader_index == index
}

/// Whether a seat holds nothing and owns no order.
pub open spec fn is_idle(seat: Seat, bids: Seq<BookOrder>, asks: Seq<BookOrder>) -> bool {
    &&& seat.state == TraderState::nothing()
    &&& !owns_any(bids, seat.index)
    &&& !owns_any(asks, seat.index)
}

/// The keys of the seats that hold nothing and own no order, in order.
pub open spec fn idle_seats(
    seats: Seq<Seat>,
    bids: Seq<BookOrder>,
    asks: Seq<BookOrder>,
) -> Seq<TraderKey>
    decreases seats.len(),
{
    if seats.len() == 0 {
        Seq::empty()
    } else if is_idle(seats.last(), bids, asks) {
        idle_seats(seats.drop_last(), bids, asks).push(seats.last().key)
    } else {
        idle_seats(seats.drop_last(), bids, asks)
    }
}

/// Whether one of these orders belongs to the seat with this index.
fn has_order(orders: &Vec<BookOrder>, index: u32) -> (found: bool)
    ensures
        found == owns_any(orders@, index),
{
    let mut i: usize = 0;
    while i < orders.len()
        invariant
            i <= orders@.len(),
            forall|j: int| 0 <= j < i ==> (#[trigger] orders@[j]).trader_index != index,
        decreases orders@.len() - i,
    {
        if orders[i].trader_index == index {
            return true;
        }
        i = i + 1;
    }
    false
}

/// The first seat a wallet holds.
pub open spec fn seat_held(seats: Seq<Seat>, key: TraderKey) -> Option<Seat>
    decreases seats.len(),
{
    if seats.len() == 0 {
        None
    } else if seats[0].key == key {
        Some(seats[0])
    } else {
        seat_held(seats.drop_first(), key)
    }
}

/// A size, clamped at the largest.
pub open spec fn capped_lots(size: int) -> BaseLots {
    if size <= u64::MAX {
        BaseLots(size as u64)
    } else {
        BaseLots(u64::MAX)
    }
}

/// Orders aggregated into price levels: neighbours at one price make up one level.
pub open spec fn levels_of(orders: Seq<BookOrder>) -> Seq<Level>
    decreases orders.len(),
{
    if orders.len() == 0 {
        Seq::empty()
    } else {
        let levels = levels_of(orders.drop_last());
        let order = orders.last();
        if levels.len() > 0 && levels.last().price_in_ticks == order.id.price_in_ticks {
            levels.drop_last().push(
                Level {
                    price_in_ticks: order.id.price_in_ticks,
                    base_lots: capped_lots(levels.last().base_lots.0 + order.num_base_lots.0),
                    order_count: (levels.last().order_count + 1) as u32,
                },
            )
        } else {
            levels.push(
                Level {
                    price_in_ticks: order.id.price_in_ticks,
                    base_lots: order.num_base_lots,
                    order_count: 1,
                },
            )
        }
    }
}

/// The first `depth` levels, or all of them.
pub open spec fn top_levels(orders: Seq<BookOrder>, depth: int) -> Seq<Level> {
    let levels = levels_of(orders);
    if levels.len() <= depth {
        levels
    } else {
        levels.take(depth)
    }
}

/// The total size of the leading orders at or better than `limit`.
pub open spec fn leading_size(orders: Seq<BookOrder>, side: Side, limit: Ticks) -> int
    decreases orders.len(),
{
    if orders.len() == 0 || !marketable(side, orders[0].id.price_in_ticks, limit) {
        0
    } else {
        orders[0].num_base_lots.0 + leading_size(orders.drop_first(), side, limit)
    }
}

/// The total size of all orders.
pub open spec fn total_size(orders: Seq<BookOrder>) -> int
    decreases orders.len(),
{
    if orders.len() == 0 {
        0
    } else {
        orders[0].num_base_lots.0 + total_size(orders.drop_first())
    }
}

/// What sweeping `remaining` off the front of `orders` costs on top of `spent`, and the
/// price of the last order touched. `None` if there is too little, or a sum exceeds `u64`.
pub open spec fn swept(config: LotConfig, orders: Seq<BookOrder>, remaining: u64, spent: int) -> Option<
    (int, Ticks),
>
    decreases orders.len(),
{
    if orders.len() == 0 {
        None
    } else {
        let order = orders[0];
        let taken = if remaining < order.num_base_lots.0 {
            remaining
        } else {
            order.num_base_lots.0
        };
        let cost = spent + config.value(order.id.price_in_ticks, BaseLots(taken));
        if config.value(order.id.price_in_ticks, BaseLots(taken)) > u64::MAX || cost > u64::MAX {
            None
        } else if taken == remaining {
            Some((cost, order.id.price_in_ticks))
        } else {
            swept(config, orders.drop_first(), (remaining - taken) as u64, cost)
        }
    }
}

impl MarketState {
    /// The state with its lists as sequences.
    pub open spec fn view(self) -> StateView {
        StateView {
            account: self.account,
            size_class: self.size_class,
            header: self.header,
            bids: self.bids@,
            asks: self.asks@,
            traders: self.traders@,
        }
    }

    /// The orders on a side, best first.
    pub open spec fn orders(self, side: Side) -> Seq<BookOrder> {
        match side {
            Side::Bid => self.bids@,
            Side::Ask => self.asks@,
        }
    }

    /// Decodes a market account's raw data.
    ///
    /// # Errors
    ///
    /// [`DecodeError`] describing what about the buffer was wrong.
    pub fn decode(constants: &ProgramConstants, data: &[u8]) -> (result: Result<Self, DecodeError>)
        ensures
            state_result(result) == decoded_state(*constants, data@),
    {
        if data.len() < HEADER_LEN {
            return Err(DecodeError::TooShort);
        }
        let account = MarketAccountHeader::take(data, 0);
        proof {
            lemma_value_of(account);
            lemma_market_lens();
        }
        if account.discriminator != constants.market_discriminator {
            return Err(DecodeError::NotAMarket);
        }
        if account.version != constants.market_version {
            return Err(
                DecodeError::VersionMismatch {
                    found: account.version,
                    expected: constants.market_version,
                },
            );
        }
        match SizeClass::from_u64(account.size_class) {
            None => Err(DecodeError::UnknownSizeClass(account.size_class)),
            Some(SizeClass::Small) => decode_sized::<128, 128, 32>(
                account,
                SizeClass::Small,
                data,
            ),
            Some(SizeClass::Medium) => decode_sized::<512, 512, 128>(
                account,
                SizeClass::Medium,
                data,
            ),
            Some(SizeClass::Large) => decode_sized::<2048, 2048, 512>(
                account,
                SizeClass::Large,
                data,
            ),
        }
    }

    /// Lot and tick geometry.
    pub fn lot_config(&self) -> (config: &LotConfig)
        ensures
            *config == self.header.lot_config,
    {
        &self.header.lot_config
    }

    /// Fee rate.
    pub fn fees(&self) -> (fees: &FeeSchedule)
        ensures
            *fees == self.header.fees,
    {
        &self.header.fees
    }

    /// Where a fee sweep sends the quote it collects.
    ///
    /// Needed by callers rather than only by the venue:
    /// [`collect_fees`](super::instruction::collect_fees) is permissionless, and the
    /// recipient it must be given is fixed in the account — which is exactly why anyone
    /// may call it and nobody gains by doing so.
    pub fn fee_recipient(&self) -> (recipient: Address)
        ensures
            recipient == Address(self.account.fee_recipient),
    {
        Address(self.account.fee_recipient)
    }

    /// The market's authority.
    pub fn authority(&self) -> (authority: Address)
        ensures
            authority == Address(self.account.authority),
    {
        Address(self.account.authority)
    }

    /// Orders on `side`, best first.
    pub fn side(&self, side: Side) -> (orders: &[BookOrder])
        ensures
            orders@ == self.orders(side),
    {
        match side {
            Side::Bid => self.bids.as_slice(),
            Side::Ask => self.asks.as_slice(),
        }
    }

    /// Highest-priority bid.
    pub fn best_bid(&self) -> (best: Option<&BookOrder>)
        ensures
            match best {
                Some(order) => self.bids@.len() > 0 && *order == self.bids@[0],
                None => self.bids@.len() == 0,
            },
    {
        if self.bids.len() == 0 {
            None
        } else {
            Some(&self.bids[0])
        }
    }

    /// Highest-priority ask.
    pub fn best_ask(&self) -> (best: Option<&BookOrder>)
        ensures
            match best {
                Some(order) => self.asks@.len() > 0 && *order == self.asks@[0],
                None => self.asks@.len() == 0,
            },
    {
        if self.asks.len() == 0 {
            None
        } else {
            Some(&self.asks[0])
        }
    }

    /// Best ask minus best bid, in ticks. `None` if either side is empty or the book is
    /// crossed — a crossed book is a transient state, not a negative spread.
    pub fn spread_in_ticks(&self) -> (spread: Option<u64>)
        ensures
            spread == if self.bids@.len() == 0 || self.asks@.len() == 0 {
                None
            } else if self.asks@[0].id.price_in_ticks.0 < self.bids@[0].id.price_in_ticks.0 {
                None
            } else {
                Some(
                    (self.asks@[0].id.price_in_ticks.0 - self.bids@[0].id.price_in_ticks.0) as u64,
                )
            },
    {
        let bid = match self.best_bid() {
            Some(order) => order.price_in_ticks().as_u64(),
            None => {
                return None;
            },
        };
        let ask = match self.best_ask() {
            Some(order) => order.price_in_ticks().as_u64(),
            None => {
                return None;
            },
        };
        ask.checked_sub(bid)
    }

    /// Midpoint of the touch, in ticks, rounded down. `None` if either side is empty or
    /// the sum of the two prices exceeds `u64`.
    ///
    /// Defined even when the book is crossed, unlike
    /// [`spread_in_ticks`](Self::spread_in_ticks) — a crossed midpoint is still the
    /// average of the two prices, whereas a negative spread is not a spread.
    pub fn mid_price_in_ticks(&self) -> (mid: Option<u64>)
        ensures
            mid == if self.bids@.len() == 0 || self.asks@.len() == 0 {
                None
            } else if self.asks@[0].id.price_in_ticks.0 + self.bids@[0].id.price_in_ticks.0
                > u64::MAX {
                None
            } else {
                Some(
                    ((self.asks@[0].id.price_in_ticks.0 + self.bids@[0].id.price_in_ticks.0)
                        / 2) as u64,
                )
            },
    {
        let bid = match self.best_bid() {
            Some(order) => order.price_in_ticks().as_u64(),
            None => {
                return None;
            },
        };
        let ask = match self.best_ask() {
            Some(order) => order.price_in_ticks().as_u64(),
            None => {
                return None;
            },
        };
        match bid.checked_add(ask) {
            Some(sum) => Some(sum / 2),
            None => None,
        }
    }

    /// Seats that hold nothing and own no order, which anyone may evict to make room.
    ///
    /// Worth checking before giving up on a full market: a table can fill with seats
    /// belonging to traders who claimed one and never came back, and those are exactly
    /// the seats [`evict_seat`](super::instruction::evict_seat) exists to reclaim.
    ///
    /// A seat with a resting order is never listed, not even one whose order locks nothing
    /// because it is worth nothing.
    pub fn evictable_seats(&self) -> (keys: Vec<TraderKey>)
        ensures
            keys@ == idle_seats(self.traders@, self.bids@, self.asks@),
    {
        let mut keys: Vec<TraderKey> = Vec::new();
        let mut i: usize = 0;
        while i < self.traders.len()
            invariant
                i <= self.traders@.len(),
                keys@ == idle_seats(self.traders@.take(i as int), self.bids@, self.asks@),
            decreases self.traders@.len() - i,
        {
            proof {
                let seen = self.traders@.take(i + 1);
                assert(seen.drop_last() =~= self.traders@.take(i as int));
            }
            let index = self.traders[i].index;
            if self.traders[i].state.is_empty() && !has_order(&self.bids, index) && !has_order(
                &self.asks,
                index,
            ) {
                keys.push(self.traders[i].key);
            }
            i = i + 1;
        }
        proof {
            assert(self.traders@.take(i as int) =~= self.traders@);
        }
        keys
    }

    /// Whether the trader table is full, so a new trader needs a seat freed first.
    pub fn seats_are_full(&self) -> (full: bool)
        ensures
            full == (self.traders@.len() >= self.size_class.seats()),
    {
        self.traders.len() >= self.seat_capacity()
    }

    /// How many seats this market was created with.
    pub fn seat_capacity(&self) -> (seats: usize)
        ensures
            seats == self.size_class.seats(),
    {
        match self.size_class {
            SizeClass::Small => 32,
            SizeClass::Medium => 128,
            SizeClass::Large => 512,
        }
    }

    /// The place of a wallet's seat among the claimed ones.
    fn find_seat(&self, key: &TraderKey) -> (place: Option<usize>)
        ensures
            match place {
                Some(i) => {
                    &&& i < self.traders@.len()
                    &&& seat_held(self.traders@, *key) == Some(self.traders@[i as int])
                },
                None => seat_held(self.traders@, *key) is None,
            },
    {
        let mut i: usize = 0;
        proof {
            assert(self.traders@.skip(0) =~= self.traders@);
        }
        while i < self.traders.len()
            invariant
                i <= self.traders@.len(),
                seat_held(self.traders@.skip(i as int), *key) == seat_held(self.traders@, *key),
            decreases self.traders@.len() - i,
        {
            proof {
                let left = self.traders@.skip(i as int);
                assert(left[0] == self.traders@[i as int]);
                assert(left.drop_first() =~= self.traders@.skip(i + 1));
            }
            if same_bytes(&self.traders[i].key.0, &key.0) {
                return Some(i);
            }
            i = i + 1;
        }
        None
    }

    /// The seat index a wallet's orders carry, if it holds a seat.
    ///
    /// This is how an observer resolves the trader that submitted a transaction into
    /// something comparable with the orders on the book. Without it, a self-trade and a
    /// fill are indistinguishable — both remove liquidity from the side opposite the
    /// taker — and reported volume becomes something anyone can inflate for free.
    pub fn seat_of(&self, key: &TraderKey) -> (index: Option<u32>)
        ensures
            index == match seat_held(self.traders@, *key) {
                Some(seat) => Some(seat.index),
                None => None,
            },
    {
        match self.find_seat(key) {
            Some(i) => Some(self.traders[i].index),
            None => None,
        }
    }

    /// Balances for a trader, if they hold a seat.
    pub fn trader(&self, key: &TraderKey) -> (state: Option<&TraderState>)
        ensures
            match (state, seat_held(self.traders@, *key)) {
                (Some(held), Some(seat)) => *held == seat.state,
                (None, None) => true,
                _ => false,
            },
    {
        match self.find_seat(key) {
            Some(i) => Some(&self.traders[i].state),
            None => None,
        }
    }

    /// Aggregates `side` into price levels, best first, up to `depth` levels.
    ///
    /// This is the view a UI renders and an indexer publishes. Individual orders are the
    /// venue's business; a price and a size is what a trader reads.
    pub fn level_two(&self, side: Side, depth: usize) -> (levels: Vec<Level>)
        requires
            self.orders(side).len() <= u32::MAX,
        ensures
            levels@ == top_levels(self.orders(side), depth as int),
            shows(levels@, self.orders(side), depth as nat),
    {
        proof {
            law_levels_stand_for_their_orders(self.orders(side), depth as nat);
        }
        let orders = self.side(side);
        let ghost all = orders@;
        let mut levels: Vec<Level> = Vec::new();
        let mut i: usize = 0;
        while i < orders.len()
            invariant
                i <= all.len() <= u32::MAX,
                all == orders@,
                all == self.orders(side),
                levels@ == levels_of(all.take(i as int)),
                levels@.len() <= depth,
                shows(top_levels(all, depth as int), all, depth as nat),
            decreases all.len() - i,
        {
            let order = orders[i];
            proof {
                let seen = all.take(i + 1);
                assert(seen.drop_last() =~= all.take(i as int));
                assert(seen.last() == order);
                lemma_level_counts(all.take(i as int));
            }
            let n = levels.len();
            if n > 0 && levels[n - 1].price_in_ticks.as_u64() == order.price_in_ticks().as_u64() {
                let last = levels[n - 1];
                let merged = Level {
                    price_in_ticks: order.price_in_ticks(),
                    base_lots: last.base_lots.saturating_add(order.num_base_lots),
                    order_count: last.order_count + 1,
                };
                proof {
                    assert(last.price_in_ticks == order.id.price_in_ticks);
                    assert(merged.base_lots == capped_lots(
                        last.base_lots.0 + order.num_base_lots.0,
                    ));
                }
                let ghost before = levels@;
                levels[n - 1] = merged;
                proof {
                    assert(levels@ =~= before.drop_last().push(merged));
                }
            } else {
                if n == depth {
                    proof {
                        lemma_levels_prefix(all, i + 1, depth as int);
                        assert(levels_of(all.take(i + 1)).take(depth as int) =~= levels@);
                    }
                    return levels;
                }
                levels.push(
                    Level {
                        price_in_ticks: order.price_in_ticks(),
                        base_lots: order.num_base_lots,
                        order_count: 1,
                    },
                );
            }
            i = i + 1;
        }
        proof {
            assert(all.take(i as int) =~= all);
        }
        levels
    }

    /// Total resting size on `side` at prices at or better than `limit`. Clamped at the
    /// largest size.
    pub fn depth_at_or_better(&self, side: Side, limit: Ticks) -> (depth: BaseLots)
        ensures
            depth == capped_lots(leading_size(self.orders(side), side, limit)),
    {
        let orders = self.side(side);
        let ghost all = orders@;
        let mut total = BaseLots(0);
        let ghost mut sum: int = 0;
        let mut i: usize = 0;
        proof {
            assert(all.skip(0) =~= all);
        }
        while i < orders.len()
            invariant
                i <= all.len(),
                all == orders@,
                all == self.orders(side),
                sum >= 0,
                total == capped_lots(sum),
                sum + leading_size(all.skip(i as int), side, limit) == leading_size(
                    all,
                    side,
                    limit,
                ),
            decreases all.len() - i,
        {
            let order = orders[i];
            proof {
                assert(all.skip(i as int)[0] == order);
                assert(all.skip(i as int).drop_first() =~= all.skip(i + 1));
            }
            let reached = match side {
                Side::Bid => order.price_in_ticks().as_u64() >= limit.as_u64(),
                Side::Ask => order.price_in_ticks().as_u64() <= limit.as_u64(),
            };
            if !reached {
                return total;
            }
            total = total.saturating_add(order.num_base_lots);
            proof {
                sum = sum + order.num_base_lots.0;
            }
            i = i + 1;
        }
        total
    }

    /// What sweeping `size` from `side` would cost, and the worst price it reaches.
    ///
    /// `None` if the book cannot fill that much. Ignores fees, which the caller applies
    /// from [`MarketState::fees`].
    pub fn quote_sweep(&self, side: Side, size: BaseLots) -> (sweep: Option<Sweep>)
        requires
            self.header.lot_config.base_lots_per_base_unit > 0,
        ensures
            sweep == match swept(self.header.lot_config, self.orders(side), size.0, 0) {
                Some((cost, worst)) => Some(
                    Sweep {
                        base_lots: size,
                        quote_lots: QuoteLots(cost as u64),
                        worst_price_in_ticks: worst,
                    },
                ),
                None => None,
            },
            forall|n: int| #[trigger]
                are_swept(self.orders(side), size.0, n) ==> {
                    let cost = cost_of_sweep(
                        self.header.lot_config,
                        self.orders(side),
                        size.0,
                        n,
                    );
                    if cost <= u64::MAX {
                        &&& sweep is Some
                        &&& (sweep->0).base_lots == size
                        &&& (sweep->0).quote_lots.0 == cost
                        &&& (sweep->0).worst_price_in_ticks == self.orders(
                            side,
                        )[n - 1].id.price_in_ticks
                    } else {
                        sweep is None
                    }
                },
            (self.orders(side).len() == 0 || size_between(
                self.orders(side),
                0,
                self.orders(side).len() as int,
            ) < size.0) ==> sweep is None,
    {
        proof {
            self.lemma_sweeps(side, size);
        }
        let orders = self.side(side);
        let ghost all = orders@;
        let ghost config = self.header.lot_config;
        let mut remaining = size;
        let mut quote_lots = QuoteLots(0);
        let mut i: usize = 0;
        proof {
            assert(all.skip(0) =~= all);
        }
        while i < orders.len()
            invariant
                i <= all.len(),
                all == orders@,
                all == self.orders(side),
                config == self.header.lot_config,
                config.base_lots_per_base_unit > 0,
                swept(config, all.skip(i as int), remaining.0, quote_lots.0 as int) == swept(
                    config,
                    all,
                    size.0,
                    0,
                ),
            decreases all.len() - i,
        {
            let order = orders[i];
            proof {
                self.lemma_sweeps(side, size);
                assert(all.skip(i as int)[0] == order);
                assert(all.skip(i as int).drop_first() =~= all.skip(i + 1));
            }
            let taken = remaining.min(order.num_base_lots);
            let value = match self.lot_config().quote_lots_for(order.price_in_ticks(), taken) {
                Some(value) => value,
                None => {
                    return None;
                },
            };
            proof {
                crate::quantities::lots::lemma_value_is_natural(
                    config,
                    order.id.price_in_ticks,
                    taken,
                );
            }
            quote_lots = match quote_lots.checked_add(value) {
                Some(sum) => sum,
                None => {
                    return None;
                },
            };
            remaining = BaseLots(remaining.0 - taken.0);
            if remaining.is_zero() {
                return Some(
                    Sweep {
                        base_lots: size,
                        quote_lots,
                        // The last level touched is the worst price reached.
                        worst_price_in_ticks: order.price_in_ticks(),
                    },
                );
            }
            i = i + 1;
        }
        None
    }
}

impl MarketState {
    /// What a sweep of a side costs, however many orders it takes.
    proof fn lemma_sweeps(self, side: Side, size: BaseLots)
        requires
            self.header.lot_config.base_lots_per_base_unit > 0,
        ensures
            forall|n: int| #[trigger]
                are_swept(self.orders(side), size.0, n) ==> {
                    let config = self.header.lot_config;
                    let orders = self.orders(side);
                    let cost = cost_of_sweep(config, orders, size.0, n);
                    &&& 0 <= cost
                    &&& swept(config, orders, size.0, 0) == (if cost <= u64::MAX {
                        Some((cost, orders[n - 1].id.price_in_ticks))
                    } else {
                        None
                    })
                },
            (self.orders(side).len() == 0 || size_between(
                self.orders(side),
                0,
                self.orders(side).len() as int,
            ) < size.0) ==> swept(self.header.lot_config, self.orders(side), size.0, 0) is None,
    {
        let config = self.header.lot_config;
        let orders = self.orders(side);
        assert forall|n: int| #[trigger] are_swept(orders, size.0, n) implies {
            let cost = cost_of_sweep(config, orders, size.0, n);
            &&& 0 <= cost
            &&& swept(config, orders, size.0, 0) == (if cost <= u64::MAX {
                Some((cost, orders[n - 1].id.price_in_ticks))
            } else {
                None
            })
        } by {
            law_sweeps_take_from_the_front(config, orders, size.0, n);
            lemma_sweep_is_natural(config, orders, size.0, n);
        }
        if orders.len() == 0 || size_between(orders, 0, orders.len() as int) < size.0 {
            law_sweeps_need_the_size(config, orders, size.0);
        }
    }
}

/// A level never counts more orders than there are.
proof fn lemma_level_counts(orders: Seq<BookOrder>)
    requires
        orders.len() <= u32::MAX,
    ensures
        levels_of(orders).len() <= orders.len(),
        forall|i: int|
            0 <= i < levels_of(orders).len() ==> 1 <= (#[trigger] levels_of(
                orders,
            )[i]).order_count <= orders.len(),
    decreases orders.len(),
{
    if orders.len() > 0 {
        lemma_level_counts(orders.drop_last());
        let before = levels_of(orders.drop_last());
        let after = levels_of(orders);
        assert forall|i: int| 0 <= i < after.len() implies 1 <= (
        #[trigger] after[i]).order_count <= orders.len() by {
            if i < before.len() - 1 {
                assert(after[i] == before[i]);
            } else if i == before.len() - 1 && after.len() > before.len() {
                assert(after[i] == before[i]);
            }
        }
    }
}

/// Later orders do not change the levels before the last.
proof fn lemma_levels_prefix(orders: Seq<BookOrder>, n: int, depth: int)
    requires
        0 <= n <= orders.len(),
        0 <= depth < levels_of(orders.take(n)).len(),
    ensures
        levels_of(orders).len() > depth,
        levels_of(orders).take(depth) == levels_of(orders.take(n)).take(depth),
    decreases orders.len(),
{
    if n == orders.len() {
        assert(orders.take(n) =~= orders);
    } else {
        assert(orders.drop_last().take(n) =~= orders.take(n));
        lemma_levels_prefix(orders.drop_last(), n, depth);
        assert(levels_of(orders).take(depth) =~= levels_of(orders.drop_last()).take(depth));
    }
}

// ---------------------------------------------------------------------------------
// Laws
// ---------------------------------------------------------------------------------

/// Whatever survives decoding is safe to price.
pub proof fn law_decoded_markets_can_be_priced(constants: ProgramConstants, data: Seq<u8>)
    requires
        decoded_state(constants, data) is Ok,
    ensures
        decoded_state(constants, data)->Ok_0.header.lot_config.is_valid(),
{
}

/// An account is read back as the market that was written to it, whatever trails it.
pub proof fn law_accounts_are_read_back<const BIDS: usize, const ASKS: usize, const SEATS: usize>(
    account: MarketAccountHeader,
    size_class: SizeClass,
    market: Market<BIDS, ASKS, SEATS>,
    trailing: Seq<u8>,
)
    requires
        market.wf(),
        market.model().header.lot_config.is_valid(),
    ensures
        decoded_market::<BIDS, ASKS, SEATS>(
            account,
            size_class,
            account.to_bytes() + market.to_bytes() + trailing,
        ) == Ok::<StateView, DecodeError>(observed(account, size_class, market)),
        value_of::<MarketAccountHeader>(
            (account.to_bytes() + market.to_bytes() + trailing).subrange(0, HEADER_LEN as int),
        ) == account,
{
    let data = account.to_bytes() + market.to_bytes() + trailing;
    account.lemma_byte_len();
    market.lemma_byte_len();
    assert(data.subrange(0, HEADER_LEN as int) =~= account.to_bytes());
    lemma_value_of(account);
    assert(data.subrange(
        HEADER_LEN as int,
        HEADER_LEN + Market::<BIDS, ASKS, SEATS>::byte_len(),
    ) =~= market.to_bytes());
    market.law_markets_are_read_back();
    market.order_book().bid_tree().lemma_wf();
    market.order_book().ask_tree().lemma_wf();
    market.seat_table().tree().lemma_wf();
    market.order_book().bid_tree().law_walks_meet_the_entries();
    market.order_book().ask_tree().law_walks_meet_the_entries();
    market.seat_table().tree().law_walks_meet_the_entries();
}

/// A market account decodes to the market it was written from.
pub proof fn law_small_accounts_are_read_back(
    constants: ProgramConstants,
    account: MarketAccountHeader,
    market: Market<128, 128, 32>,
    trailing: Seq<u8>,
)
    requires
        market.wf(),
        market.model().header.lot_config.is_valid(),
        account.discriminator == constants.market_discriminator,
        account.version == constants.market_version,
        account.size_class == SizeClass::Small.code(),
    ensures
        decoded_state(constants, account.to_bytes() + market.to_bytes() + trailing) == Ok::<
            StateView,
            DecodeError,
        >(observed(account, SizeClass::Small, market)),
{
    account.lemma_byte_len();
    law_accounts_are_read_back(account, SizeClass::Small, market, trailing);
}

/// As [`law_small_accounts_are_read_back`], for the middle class.
pub proof fn law_medium_accounts_are_read_back(
    constants: ProgramConstants,
    account: MarketAccountHeader,
    market: Market<512, 512, 128>,
    trailing: Seq<u8>,
)
    requires
        market.wf(),
        market.model().header.lot_config.is_valid(),
        account.discriminator == constants.market_discriminator,
        account.version == constants.market_version,
        account.size_class == SizeClass::Medium.code(),
    ensures
        decoded_state(constants, account.to_bytes() + market.to_bytes() + trailing) == Ok::<
            StateView,
            DecodeError,
        >(observed(account, SizeClass::Medium, market)),
{
    account.lemma_byte_len();
    law_accounts_are_read_back(account, SizeClass::Medium, market, trailing);
}

/// As [`law_small_accounts_are_read_back`], for the largest class.
pub proof fn law_large_accounts_are_read_back(
    constants: ProgramConstants,
    account: MarketAccountHeader,
    market: Market<2048, 2048, 512>,
    trailing: Seq<u8>,
)
    requires
        market.wf(),
        market.model().header.lot_config.is_valid(),
        account.discriminator == constants.market_discriminator,
        account.version == constants.market_version,
        account.size_class == SizeClass::Large.code(),
    ensures
        decoded_state(constants, account.to_bytes() + market.to_bytes() + trailing) == Ok::<
            StateView,
            DecodeError,
        >(observed(account, SizeClass::Large, market)),
{
    account.lemma_byte_len();
    law_accounts_are_read_back(account, SizeClass::Large, market, trailing);
}

/// Two claimed seats differ in their index and in their wallet.
pub proof fn law_seat_indices_join_orders_to_wallets<
    const BIDS: usize,
    const ASKS: usize,
    const SEATS: usize,
>(market: Market<BIDS, ASKS, SEATS>, i: int, j: int)
    requires
        market.wf(),
        0 <= i < j < seats_of(market.model().seats.entries()).len(),
    ensures
        seats_of(market.model().seats.entries())[i].index != seats_of(
            market.model().seats.entries(),
        )[j].index,
        seats_of(market.model().seats.entries())[i].key != seats_of(
            market.model().seats.entries(),
        )[j].key,
{
    let seats = market.model().seats;
    market.seat_table().tree().lemma_wf();
    assert(seats.order[i] != seats.order[j]);
    assert(seats.key_at(i).rank() < seats.key_at(j).rank());
}

/// On a market that conserves value, every resting order's owner is found among the
/// claimed seats.
pub proof fn law_resting_orders_belong_to_claimed_seats<
    const BIDS: usize,
    const ASKS: usize,
    const SEATS: usize,
>(market: Market<BIDS, ASKS, SEATS>, side: Side, i: int)
    requires
        market.wf(),
        market.model().is_conserved(),
        0 <= i < orders_of(market.model().book.queue(side)).len(),
    ensures
        exists|k: int|
            0 <= k < seats_of(market.model().seats.entries()).len() && orders_of(
                market.model().book.queue(side),
            )[i].trader_index == (#[trigger] seats_of(market.model().seats.entries())[k]).index,
{
    let m = market.model();
    market.seat_table().lemma_wf();
    market.order_book().bid_tree().lemma_wf();
    market.order_book().ask_tree().lemma_wf();
    let (tree, place) = match side {
        Side::Bid => (m.book.bids, m.book.bids.len() - 1 - i),
        Side::Ask => (m.book.asks, i),
    };
    assert(m.book.queue(side)[i] == tree.entry_at(place));
    let owner = tree.value_at(place).trader_index;
    assert(m.seats.is_live(owner as u32));
    assert(1 <= owner <= m.seats.capacity());
    let k = choose|k: int| 0 <= k < m.seats.order.len() && m.seats.order[k] == owner as u32;
    assert(seats_of(m.seats.entries())[k].index == owner as u32);
}

/// The list of idle seats names exactly the wallets of idle seats.
proof fn lemma_idle_seats(
    seats: Seq<Seat>,
    bids: Seq<BookOrder>,
    asks: Seq<BookOrder>,
    key: TraderKey,
)
    ensures
        idle_seats(seats, bids, asks).contains(key) <==> exists|i: int|
            0 <= i < seats.len() && (#[trigger] seats[i]).key == key && is_idle(
                seats[i],
                bids,
                asks,
            ),
    decreases seats.len(),
{
    if seats.len() > 0 {
        let before = seats.drop_last();
        let listed = idle_seats(before, bids, asks);
        lemma_idle_seats(before, bids, asks, key);
        assert forall|i: int| 0 <= i < before.len() implies #[trigger] before[i] == seats[i] by {}
        let n = seats.len() - 1;
        if is_idle(seats[n], bids, asks) {
            let all = idle_seats(seats, bids, asks);
            assert(all == listed.push(seats[n].key));
            assert(all[listed.len() as int] == seats[n].key);
            if listed.contains(key) {
                let j = choose|j: int| 0 <= j < listed.len() && listed[j] == key;
                assert(all[j] == key);
            }
            if all.contains(key) && seats[n].key != key {
                let j = choose|j: int| 0 <= j < all.len() && all[j] == key;
                assert(listed[j] == key);
            }
        }
        if listed.contains(key) {
            let i = choose|i: int|
                0 <= i < before.len() && (#[trigger] before[i]).key == key && is_idle(
                    before[i],
                    bids,
                    asks,
                );
            assert(seats[i].key == key && is_idle(seats[i], bids, asks));
        }
        if exists|i: int|
            0 <= i < seats.len() && (#[trigger] seats[i]).key == key && is_idle(
                seats[i],
                bids,
                asks,
            ) {
            let i = choose|i: int|
                0 <= i < seats.len() && (#[trigger] seats[i]).key == key && is_idle(
                    seats[i],
                    bids,
                    asks,
                );
            if i < n {
                assert(before[i].key == key && is_idle(before[i], bids, asks));
            }
        }
    }
}

/// A queue's orders as an observer sees them belong to a seat exactly if the queue's do.
proof fn lemma_owns_any(queue: Seq<BookEntry>, seat: u32)
    requires
        forall|i: int|
            0 <= i < queue.len() ==> (#[trigger] queue[i]).value.trader_index <= u32::MAX,
    ensures
        owns_any(orders_of(queue), seat) == (first_owned(queue, seat) is Some),
{
    lemma_first_owned_in(queue, seat);
    let orders = orders_of(queue);
    assert forall|i: int| 0 <= i < queue.len() implies (#[trigger] orders[i]).trader_index
        == queue[i].value.trader_index by {}
    if let Some(id) = first_owned(queue, seat) {
        let i = choose|i: int|
            0 <= i < queue.len() && (#[trigger] queue[i]).key == id
                && queue[i].value.trader_index == seat;
        assert(orders[i].trader_index == seat);
    }
    if owns_any(orders, seat) {
        let i = choose|i: int| 0 <= i < orders.len() && (#[trigger] orders[i]).trader_index == seat;
        assert(queue[i].value.trader_index == seat);
    }
}

/// The seats an observer finds evictable are exactly those that the market would release.
pub proof fn law_evictable_seats_are_those_released<
    const BIDS: usize,
    const ASKS: usize,
    const SEATS: usize,
>(market: Market<BIDS, ASKS, SEATS>, key: TraderKey)
    requires
        market.wf(),
    ensures
        idle_seats(
            seats_of(market.model().seats.entries()),
            orders_of(market.model().book.queue(Side::Bid)),
            orders_of(market.model().book.queue(Side::Ask)),
        ).contains(key) <==> market.model().release_seat(key).1 is Ok,
{
    let m = market.model();
    let seats = seats_of(m.seats.entries());
    let bids = orders_of(m.book.queue(Side::Bid));
    let asks = orders_of(m.book.queue(Side::Ask));
    market.seat_table().lemma_wf();
    lemma_idle_seats(seats, bids, asks, key);
    lemma_owners_fit(m, Side::Bid);
    lemma_owners_fit(m, Side::Ask);
    assert forall|i: int| 0 <= i < seats.len() implies {
        &&& (#[trigger] seats[i]).key == m.seats.key_at(i)
        &&& seats[i].index == m.seats.order[i]
        &&& seats[i].state == m.seats.value_at(i)
        &&& is_idle(seats[i], bids, asks) <==> seats[i].state == TraderState::nothing()
            && !m.has_orders(m.seats.order[i])
    } by {
        lemma_owns_any(m.book.queue(Side::Bid), m.seats.order[i]);
        lemma_owns_any(m.book.queue(Side::Ask), m.seats.order[i]);
    }
    if m.seats.contains_key(key) {
        m.seats.lemma_present(key);
        let i = m.seats.position(key);
        assert(seats[i].key == key);
        assert forall|j: int| 0 <= j < seats.len() && (#[trigger] seats[j]).key == key implies j
            == i by {
            m.seats.lemma_position_present(key, j);
        }
    } else {
        assert forall|j: int| 0 <= j < seats.len() implies (#[trigger] seats[j]).key != key by {
            assert(m.seats.key_at(j) != key);
        }
    }
}

/// Owners in a queue are seat indices.
proof fn lemma_owners_fit(m: MarketModel, side: Side)
    requires
        m.wf(),
    ensures
        forall|i: int|
            0 <= i < m.book.queue(side).len() ==> (#[trigger] m.book.queue(
                side,
            )[i]).value.trader_index <= u32::MAX,
{
    let tree = m.book.side(side);
    let queue = m.book.queue(side);
    let n = tree.order.len();
    assert forall|i: int| 0 <= i < queue.len() implies (#[trigger] queue[i]).value.trader_index
        <= u32::MAX by {
        let k = match side {
            Side::Bid => n - 1 - i,
            Side::Ask => i,
        };
        assert(queue[i] == tree.entry_at(k));
        assert(1 <= tree.value_at(k).trader_index <= m.seats.capacity());
    }
}

} // verus!
