//! Decoding market accounts and trade events, including ones nobody vouched for.

use clob::bytes::Plain;
use clob::client::address::Address;
use clob::client::event::{self, EventError};
use clob::client::program::{
    Discriminant, MarketAccountHeader, ProgramConstants, SizeClass, HEADER_LEN,
};
use clob::client::state::{DecodeError, MarketState};
use clob::engine::{FeeSchedule, Fill, Market, MatchStop, OrderOutcome, OrderPacket, TraderKey};
use clob::order::{FIFOOrderId, Side};
use clob::quantities::{BaseLots, LotConfig, LotConfigError, QuoteLots, Ticks};

/// What a deployed program would fix. The values are arbitrary.
fn constants() -> ProgramConstants {
    ProgramConstants {
        vault_signer_seed: b"vault".to_vec(),
        log_authority_seed: b"log".to_vec(),
        market_discriminator: MARKET_DISCRIMINATOR,
        market_version: MARKET_VERSION,
        event_version: 1,
        event_order_placed: 1,
    }
}

const MARKET_DISCRIMINATOR: u64 = 0x74656b72616d5f62;
const MARKET_VERSION: u64 = 1;

type TestMarket = Market<128, 128, 32>;

fn lot_config() -> LotConfig {
    LotConfig::new(1_000, 1_000, 1_000_000, 1).unwrap()
}

/// Builds a market account exactly as the program would leave it.
fn account(taker_fee_bps: u64, build: impl FnOnce(&mut TestMarket)) -> Vec<u8> {
    let header = MarketAccountHeader {
        discriminator: MARKET_DISCRIMINATOR,
        version: MARKET_VERSION,
        size_class: SizeClass::Small.as_u64(),
        vault_signer_bump: 254,
        base_mint: [7u8; 32],
        quote_mint: [8u8; 32],
        base_vault: [9u8; 32],
        quote_vault: [10u8; 32],
        authority: [11u8; 32],
        fee_recipient: [12u8; 32],
    };
    let mut market =
        TestMarket::new_boxed(lot_config(), FeeSchedule::new(taker_fee_bps).unwrap()).unwrap();
    build(&mut market);
    let mut data = Vec::new();
    header.put(&mut data);
    market.put(&mut data);
    data
}

/// A ladder: bids at 100/99/98 and asks at 102/103, two orders on the best bid.
fn laddered() -> Vec<u8> {
    account(2, |market| {
        let a = market.claim_seat(TraderKey([1u8; 32])).unwrap();
        let b = market.claim_seat(TraderKey([2u8; 32])).unwrap();
        market
            .deposit(a, BaseLots(100_000), QuoteLots(100_000_000))
            .unwrap();
        market
            .deposit(b, BaseLots(100_000), QuoteLots(100_000_000))
            .unwrap();

        for (seat, price, size) in [
            (a, 100u64, 10u64),
            (b, 100, 5),
            (a, 99, 20),
            (a, 98, 30),
        ] {
            market
                .place_order(
                    seat,
                    OrderPacket::post_only(Side::Bid, Ticks(price), BaseLots(size)),
                    &mut (),
                )
                .unwrap();
        }
        for (price, size) in [(102u64, 7u64), (103, 12)] {
            market
                .place_order(
                    b,
                    OrderPacket::post_only(Side::Ask, Ticks(price), BaseLots(size)),
                    &mut (),
                )
                .unwrap();
        }
    })
}

#[test]
fn a_market_decodes_into_owned_size_agnostic_state() {
    let state = MarketState::decode(&constants(), &laddered()).unwrap();

    assert_eq!(state.size_class, SizeClass::Small);
    assert_eq!(state.account.base_mint, [7u8; 32]);
    assert_eq!(state.lot_config(), &lot_config());
    assert_eq!(state.fees().taker_fee_bps, 2);
    assert_eq!(state.bids.len(), 4);
    assert_eq!(state.asks.len(), 2);
    assert_eq!(state.traders.len(), 2);
}

#[test]
fn orders_arrive_in_priority_order() {
    let state = MarketState::decode(&constants(), &laddered()).unwrap();

    let bid_prices: Vec<u64> = state
        .bids
        .iter()
        .map(|o| o.price_in_ticks().as_u64())
        .collect();
    let ask_prices: Vec<u64> = state
        .asks
        .iter()
        .map(|o| o.price_in_ticks().as_u64())
        .collect();

    assert_eq!(bid_prices, vec![100, 100, 99, 98]);
    assert_eq!(ask_prices, vec![102, 103]);
    // Within the best bid, the earlier order comes first.
    assert!(state.bids[0].sequence_number() < state.bids[1].sequence_number());
    assert_eq!(state.best_bid().unwrap().num_base_lots, BaseLots(10));
}

#[test]
fn level_two_aggregates_orders_at_the_same_price() {
    // The view a UI renders: a price and a size, not a list of orders.
    let state = MarketState::decode(&constants(), &laddered()).unwrap();
    let levels = state.level_two(Side::Bid, 10);

    assert_eq!(levels.len(), 3);
    assert_eq!(levels[0].price_in_ticks, Ticks(100));
    assert_eq!(levels[0].base_lots, BaseLots(15), "10 + 5 at the touch");
    assert_eq!(levels[0].order_count, 2);
    assert_eq!(levels[1].base_lots, BaseLots(20));
    assert_eq!(levels[2].base_lots, BaseLots(30));
}

#[test]
fn level_two_respects_its_depth_bound() {
    let state = MarketState::decode(&constants(), &laddered()).unwrap();
    assert_eq!(state.level_two(Side::Bid, 2).len(), 2);
    assert_eq!(state.level_two(Side::Bid, 0).len(), 0);
}

#[test]
fn spread_and_mid_read_off_the_touch() {
    let state = MarketState::decode(&constants(), &laddered()).unwrap();
    assert_eq!(state.spread_in_ticks(), Some(2));
    assert_eq!(state.mid_price_in_ticks(), Some(101));
}

#[test]
fn a_crossed_book_has_a_midpoint_but_no_spread() {
    // The engine will not produce a crossed book — matching runs before posting, so a
    // crossing order fills instead of resting. But an indexer feeds this decoder
    // whatever bytes it reads, and an accessor that panics on an impossible state is
    // still a crash. So the state is built directly rather than through the engine.
    let mut state = MarketState::decode(&constants(), &laddered()).unwrap();
    state.bids[0].id = FIFOOrderId::new(Side::Bid, Ticks(105), 0);
    state.asks[0].id = FIFOOrderId::new(Side::Ask, Ticks(100), 1);

    assert_eq!(state.spread_in_ticks(), None, "a negative spread is not a spread");
    assert_eq!(state.mid_price_in_ticks(), Some(102), "an average is still an average");
}

#[test]
fn extreme_prices_do_not_panic_the_accessors() {
    let mut state = MarketState::decode(&constants(), &laddered()).unwrap();
    state.bids[0].id = FIFOOrderId::new(Side::Bid, Ticks(u64::MAX), 0);
    state.asks[0].id = FIFOOrderId::new(Side::Ask, Ticks(u64::MAX), 1);

    // The midpoint would overflow a u64 sum, so it reports nothing rather than wrapping.
    assert_eq!(state.mid_price_in_ticks(), None);
    assert_eq!(state.spread_in_ticks(), Some(0));
}

#[test]
fn depth_and_sweep_pricing_match_the_book() {
    let state = MarketState::decode(&constants(), &laddered()).unwrap();

    assert_eq!(state.depth_at_or_better(Side::Bid, Ticks(99)), BaseLots(35));
    assert_eq!(state.depth_at_or_better(Side::Bid, Ticks(101)), BaseLots(0));

    // Sweeping 15 asks: all 7 at 102, then 8 of the 12 at 103.
    let sweep = state.quote_sweep(Side::Ask, BaseLots(15)).unwrap();
    assert_eq!(sweep.base_lots, BaseLots(15));
    assert_eq!(sweep.quote_lots, QuoteLots(7 * 102 + 8 * 103));
    assert_eq!(sweep.worst_price_in_ticks, Ticks(103));

    // Stopping exactly at the top level does not reach into the next one.
    let touch = state.quote_sweep(Side::Ask, BaseLots(7)).unwrap();
    assert_eq!(touch.worst_price_in_ticks, Ticks(102));

    // The book holds 19; more than that cannot be priced.
    assert_eq!(state.quote_sweep(Side::Ask, BaseLots(19)).unwrap().base_lots, BaseLots(19));
    assert_eq!(state.quote_sweep(Side::Ask, BaseLots(20)), None);
}

#[test]
fn bad_accounts_are_rejected_with_a_reason() {
    assert_eq!(MarketState::decode(&constants(), &[0u8; 8]), Err(DecodeError::TooShort));

    let mut zeroed = vec![0u8; SizeClass::Small.account_len()];
    assert_eq!(MarketState::decode(&constants(), &zeroed), Err(DecodeError::NotAMarket));

    let mut data = laddered();
    data[8..16].copy_from_slice(&99u64.to_le_bytes());
    assert_eq!(
        MarketState::decode(&constants(), &data),
        Err(DecodeError::VersionMismatch {
            found: 99,
            expected: MARKET_VERSION
        })
    );

    let mut data = laddered();
    data[16..24].copy_from_slice(&7u64.to_le_bytes());
    assert_eq!(MarketState::decode(&constants(), &data), Err(DecodeError::UnknownSizeClass(7)));

    // A correctly-tagged but truncated account.
    zeroed[..8].copy_from_slice(&MARKET_DISCRIMINATOR.to_le_bytes());
    zeroed[8..16].copy_from_slice(&MARKET_VERSION.to_le_bytes());
    zeroed.truncate(HEADER_LEN + 16);
    assert!(matches!(
        MarketState::decode(&constants(), &zeroed),
        Err(DecodeError::Truncated { .. })
    ));
}

// ---------------------------------------------------------------------------------
// Events
// ---------------------------------------------------------------------------------

/// How many fills an event carries before it is cut short.
const MAX_LOGGED_FILLS: usize = 8;

/// The event sink of the program, as far as an observer can tell: it keeps the first fills
/// and counts the rest.
struct EventBuffer {
    fills: Vec<Fill>,
    seen: u32,
}

impl EventBuffer {
    fn new() -> Self {
        EventBuffer { fills: Vec::new(), seen: 0 }
    }

    fn on_fill(&mut self, fill: &Fill) {
        if self.fills.len() < MAX_LOGGED_FILLS {
            self.fills.push(*fill);
        }
        self.seen += 1;
    }
}

fn stop_code(stop: MatchStop) -> u8 {
    match stop {
        MatchStop::FullyFilled => 0,
        MatchStop::PriceLimit => 1,
        MatchStop::MatchLimit => 2,
        MatchStop::BookEmpty => 3,
        MatchStop::InsufficientFunds => 4,
        MatchStop::DidNotCross => 5,
    }
}

/// An event the way the program emits it: discriminant, bump, payload.
fn as_instruction_data(buffer: &EventBuffer, outcome: &OrderOutcome, seat: u32) -> Vec<u8> {
    let mut data = vec![Discriminant::LogEvent.as_u8(), 255];
    data.extend_from_slice(&[1, 1, stop_code(outcome.stop), 0]);
    data.extend_from_slice(&seat.to_le_bytes());
    let (price, sequence) = match outcome.order_id {
        Some(id) => (id.price_in_ticks.as_u64(), id.order_sequence_number),
        None => (0, 0),
    };
    for word in [
        price,
        sequence,
        outcome.base_lots_filled.as_u64(),
        outcome.quote_lots_filled.as_u64(),
        outcome.fee_in_quote_lots.as_u64(),
        outcome.base_lots_posted.as_u64(),
    ] {
        data.extend_from_slice(&word.to_le_bytes());
    }
    data.extend_from_slice(&buffer.seen.to_le_bytes());
    data.extend_from_slice(&(buffer.fills.len() as u32).to_le_bytes());
    for fill in &buffer.fills {
        data.extend_from_slice(&fill.maker_seat.to_le_bytes());
        data.extend_from_slice(&(fill.base_lots_filled.as_u64() as u32).to_le_bytes());
        for word in [
            fill.price_in_ticks.as_u64(),
            fill.maker_order_id.order_sequence_number,
            fill.quote_lots_filled.as_u64(),
            fill.fee_in_quote_lots.as_u64(),
            fill.maker_base_lots_remaining.as_u64(),
        ] {
            data.extend_from_slice(&word.to_le_bytes());
        }
    }
    data
}

fn fill(seat: u32, price: u64, size: u64) -> Fill {
    Fill {
        maker_order_id: FIFOOrderId::new(Side::Ask, Ticks(price), seat as u64),
        maker_seat: seat,
        taker_seat: 42,
        price_in_ticks: Ticks(price),
        base_lots_filled: BaseLots(size),
        quote_lots_filled: QuoteLots(size * price),
        fee_in_quote_lots: QuoteLots(1),
        maker_base_lots_remaining: BaseLots(3),
    }
}

#[test]
fn an_event_written_by_the_program_decodes_here() {
    let mut buffer = EventBuffer::new();
    buffer.on_fill(&fill(11, 100, 10));
    buffer.on_fill(&fill(12, 101, 5));

    let outcome = OrderOutcome {
        base_lots_filled: BaseLots(15),
        quote_lots_filled: QuoteLots(1_505),
        fee_in_quote_lots: QuoteLots(2),
        ..OrderOutcome::empty(MatchStop::FullyFilled)
    };

    let decoded = event::decode(&constants(), &as_instruction_data(&buffer, &outcome, 42)).unwrap();

    assert_eq!(decoded.taker_seat, 42);
    assert_eq!(decoded.stop, MatchStop::FullyFilled);
    assert_eq!(decoded.base_lots_filled, BaseLots(15));
    assert_eq!(decoded.quote_lots_filled, QuoteLots(1_505));
    assert_eq!(decoded.fee_in_quote_lots, QuoteLots(2));
    assert!(!decoded.truncated());
    assert_eq!(decoded.fills.len(), 2);
    assert_eq!(decoded.fills[0].maker_seat, 11);
    assert_eq!(decoded.fills[0].price_in_ticks, Ticks(100));
    assert_eq!(decoded.fills[1].quote_lots_filled, QuoteLots(505));
    assert_eq!(decoded.fills[1].maker_base_lots_remaining, BaseLots(3));
}

#[test]
fn nothing_posted_means_no_order_id() {
    // A zero sequence number is a perfectly real order id, so the posted size is what
    // signals absence — a decoder keying off the id would invent an order.
    let outcome = OrderOutcome::empty(MatchStop::BookEmpty);
    let decoded = event::decode(&constants(), &as_instruction_data(&EventBuffer::new(), &outcome, 1)).unwrap();

    assert_eq!(decoded.order_id, None);
    assert_eq!(decoded.stop, MatchStop::BookEmpty);
}

#[test]
fn a_resting_remainder_carries_its_id() {
    let id = FIFOOrderId::new(Side::Bid, Ticks(100), 0);
    let outcome = OrderOutcome {
        order_id: Some(id),
        base_lots_posted: BaseLots(5),
        ..OrderOutcome::empty(MatchStop::BookEmpty)
    };

    let decoded = event::decode(&constants(), &as_instruction_data(&EventBuffer::new(), &outcome, 1)).unwrap();

    assert_eq!(decoded.order_id, Some(id));
    assert_eq!(decoded.base_lots_posted, BaseLots(5));
    assert_eq!(decoded.order_id.unwrap().side(), Side::Bid);
}

#[test]
fn truncation_is_visible_and_the_totals_are_not_affected() {
    let mut buffer = EventBuffer::new();
    for i in 0..MAX_LOGGED_FILLS + 5 {
        buffer.on_fill(&fill(i as u32, 100, 1));
    }
    let outcome = OrderOutcome {
        base_lots_filled: BaseLots((MAX_LOGGED_FILLS + 5) as u64),
        ..OrderOutcome::empty(MatchStop::FullyFilled)
    };

    let decoded = event::decode(&constants(), &as_instruction_data(&buffer, &outcome, 1)).unwrap();

    assert!(decoded.truncated());
    assert_eq!(decoded.fills_seen as usize, MAX_LOGGED_FILLS + 5);
    assert_eq!(decoded.fills.len(), MAX_LOGGED_FILLS);
    assert_eq!(
        decoded.base_lots_filled,
        BaseLots((MAX_LOGGED_FILLS + 5) as u64)
    );
}

#[test]
fn malformed_payloads_are_refused_rather_than_guessed_at() {
    let outcome = OrderOutcome::empty(MatchStop::BookEmpty);
    let good = as_instruction_data(&EventBuffer::new(), &outcome, 1);

    // Not an event at all.
    assert_eq!(event::decode(&constants(), &[]), Err(EventError::NotAnEvent));
    assert_eq!(event::decode(&constants(), &[4, 0, 0]), Err(EventError::NotAnEvent));

    // Right discriminant, short payload.
    assert_eq!(
        event::decode(&constants(), &good[..20]),
        Err(EventError::TooShort)
    );

    // A version this decoder does not know. Reading it anyway is how a schema change
    // becomes silent data corruption in an index.
    let mut wrong_version = good.clone();
    wrong_version[2] = 99;
    assert_eq!(
        event::decode(&constants(), &wrong_version),
        Err(EventError::UnknownVersion(99))
    );

    let mut wrong_kind = good.clone();
    wrong_kind[3] = 77;
    assert_eq!(
        event::decode(&constants(), &wrong_kind),
        Err(EventError::UnknownKind(77))
    );

    let mut wrong_stop = good.clone();
    wrong_stop[4] = 200;
    assert_eq!(
        event::decode(&constants(), &wrong_stop),
        Err(EventError::UnknownStop(200))
    );

    // Claims more fills than it carries.
    let mut lying = good.clone();
    let count_at = 2 + 60;
    lying[count_at..count_at + 4].copy_from_slice(&99u32.to_le_bytes());
    assert!(matches!(
        event::decode(&constants(), &lying),
        Err(EventError::FillCountMismatch { declared: 99, .. })
    ));
}

#[test]
fn decode_all_picks_events_out_of_a_mixed_instruction_list() {
    // What an indexer actually does: walk every inner instruction and keep the ones
    // addressed to this program's event sink.
    let outcome = OrderOutcome::empty(MatchStop::BookEmpty);
    let event_data = as_instruction_data(&EventBuffer::new(), &outcome, 7);
    let token_transfer = vec![3u8, 0, 0, 0, 0];

    let instructions: Vec<&[u8]> = vec![&token_transfer, &event_data, &token_transfer];
    let decoded = event::decode_all(&constants(), &instructions).unwrap();

    assert_eq!(decoded.len(), 1);
    assert_eq!(decoded[0].taker_seat, 7);
}

// -------------------------------------------------------------------------------------
// Seat indices
//
// An observer resolves the wallet that signed a transaction into a seat index, then
// compares that index against the owner of every order the transaction consumed. If the
// two ever disagree, a self-trade reads as a fill and reported volume becomes something
// anyone can inflate by crossing their own quotes. These check they agree.
// -------------------------------------------------------------------------------------

#[test]
fn a_seat_index_matches_the_orders_that_wallet_owns() {
    let wallets = [TraderKey([1u8; 32]), TraderKey([2u8; 32])];
    let state = MarketState::decode(&constants(), &laddered()).unwrap();

    for wallet in wallets {
        let seat = state.seat_of(&wallet).expect("wallet holds a seat");

        // Every order carrying this index must be reachable from this wallet, and the
        // wallet must own at least one — otherwise the join proves nothing.
        let owned: Vec<_> = [Side::Bid, Side::Ask]
            .iter()
            .flat_map(|side| state.side(*side))
            .filter(|order| order.trader_index == seat)
            .collect();
        assert!(!owned.is_empty(), "{wallet:?} has no orders at seat {seat}");
    }

    // Two wallets, two distinct seats. A shared index would make them one trader.
    assert_ne!(
        state.seat_of(&wallets[0]).unwrap(),
        state.seat_of(&wallets[1]).unwrap()
    );
}

#[test]
fn every_resting_order_belongs_to_a_claimed_seat() {
    let state = MarketState::decode(&constants(), &laddered()).unwrap();
    let claimed: Vec<u32> = state.traders.iter().map(|seat| seat.index).collect();

    for side in [Side::Bid, Side::Ask] {
        for order in state.side(side) {
            assert!(
                claimed.contains(&order.trader_index),
                "order {:?} points at seat {} which nobody holds",
                order.id,
                order.trader_index
            );
        }
    }
}

#[test]
fn a_wallet_without_a_seat_resolves_to_nothing() {
    // The observer treats an unresolved trader as "cannot tell", not as seat zero —
    // which would silently attribute someone else's liquidity to them.
    let state = MarketState::decode(&constants(), &laddered()).unwrap();
    assert_eq!(state.seat_of(&TraderKey([99u8; 32])), None);
}

/// A well-formed market with one resting ask, as the program would leave it.
fn quoted_account() -> Vec<u8> {
    account(2, |market| {
        let seat = market.claim_seat(TraderKey([1u8; 32])).unwrap();
        market
            .deposit(seat, BaseLots(1_000_000), QuoteLots(1_000_000_000))
            .unwrap();
        market
            .place_order(
                seat,
                OrderPacket::Limit {
                    side: Side::Ask,
                    price_in_ticks: Ticks(100),
                    num_base_lots: BaseLots(10),
                    self_trade_behavior: Default::default(),
                    match_limit: 64,
                },
                &mut (),
            )
            .unwrap();
    })
}

/// Overwrites one `u64` of the lot config, which sits at the very start of the market
/// header. This is what a hostile account looks like: structurally valid, arithmetically
/// impossible.
fn corrupt_lot_config(data: &mut [u8], field: usize, value: u64) {
    let offset = HEADER_LEN + field * 8;
    data[offset..offset + 8].copy_from_slice(&value.to_le_bytes());
}

#[test]
fn a_zero_lot_config_is_refused_rather_than_decoded() {
    // base_lots_per_base_unit divides in quote_lots_per_base_lot_per_tick. Decoding a
    // zero there produces a state that panics the first time anyone prices anything.
    for field in 0..4 {
        let mut data = quoted_account();
        corrupt_lot_config(&mut data, field, 0);

        assert!(
            MarketState::decode(&constants(), &data).is_err(),
            "a zero in lot config field {field} must not decode"
        );
    }
}

#[test]
fn a_tick_size_that_breaks_exactness_is_refused() {
    // The invariant every fill's quote value depends on: tick_size must divide by
    // base_lots_per_base_unit. Without it, quote values silently round.
    let mut data = quoted_account();
    corrupt_lot_config(&mut data, 1, 1_001);

    assert!(MarketState::decode(&constants(), &data).is_err());
}

#[test]
fn a_well_formed_account_still_decodes() {
    // The check must reject the impossible without rejecting the ordinary.
    let state = MarketState::decode(&constants(), &quoted_account()).expect("a real market decodes");
    assert_eq!(state.side(Side::Ask).len(), 1);
}

#[test]
fn pricing_a_decoded_market_never_panics() {
    // Whatever survived decoding must be safe to use. This is the property that matters:
    // the indexer prices every fill it derives, on every account it is handed.
    let state = MarketState::decode(&constants(), &quoted_account()).unwrap();

    for size in [0u64, 1, u64::MAX] {
        let _ = state.quote_sweep(Side::Ask, BaseLots(size));
        let _ = state.depth_at_or_better(Side::Ask, Ticks(size));
    }
    let _ = state.mid_price_in_ticks();
    let _ = state.spread_in_ticks();
}

#[test]
fn arbitrary_bytes_never_panic_the_decoder() {
    // Length, alignment and discriminator are all attacker-controlled in the sense that
    // nothing upstream guarantees them.
    for len in [0usize, 1, 7, 8, HEADER_LEN, HEADER_LEN + 1, 1_000, 100_000] {
        let _ = MarketState::decode(&constants(), &vec![0u8; len]);
        let _ = MarketState::decode(&constants(), &vec![0xffu8; len]);
    }

    // A valid header with a nonsense size class, and a valid size class on a short body.
    let mut data = quoted_account();
    data[16..24].copy_from_slice(&u64::MAX.to_le_bytes());
    let _ = MarketState::decode(&constants(), &data);

    let truncated = quoted_account();
    for cut in [HEADER_LEN, HEADER_LEN + 100, truncated.len() - 1] {
        let _ = MarketState::decode(&constants(), &truncated[..cut]);
    }
}

#[test]
fn an_event_claiming_more_fills_than_it_carries_is_refused() {
    // The classic length-prefix attack: say 255 fills, supply one. A decoder that
    // trusted the count would read past the buffer or report fills that are not there.
    let mut data = vec![0u8; 4 + 64];
    // fills_recorded sits in the summary; set it absurdly high whatever the layout.
    for byte in data.iter_mut().skip(4).take(8) {
        *byte = 0xff;
    }
    let _ = event::decode(&constants(), &data);

    // And with a header that is otherwise in order.
    let outcome = OrderOutcome::empty(MatchStop::BookEmpty);
    let mut lying = as_instruction_data(&EventBuffer::new(), &outcome, 1);
    lying[62..66].copy_from_slice(&255u32.to_le_bytes());
    lying.extend_from_slice(&[0u8; 48]);
    assert_eq!(
        event::decode(&constants(), &lying),
        Err(EventError::FillCountMismatch { declared: 255, available: 1 })
    );
}

// -------------------------------------------------------------------------------------
// What else an observer relies on
// -------------------------------------------------------------------------------------

#[test]
fn a_damaged_tree_is_refused() {
    // The first bid's left link points out of the arena.
    let mut data = laddered();
    let bids_at = HEADER_LEN + 72 + 16 + 32 * 80 + 8;
    data[bids_at + 16..bids_at + 20].copy_from_slice(&9_999u32.to_le_bytes());
    assert_eq!(MarketState::decode(&constants(), &data), Err(DecodeError::Corrupt));

    // The tree claims fewer orders than it links.
    let mut data = laddered();
    data[bids_at + 12..bids_at + 16].copy_from_slice(&1u32.to_le_bytes());
    assert_eq!(MarketState::decode(&constants(), &data), Err(DecodeError::Corrupt));

    // The lowest bid is its own parent, so a walk never leaves it.
    let mut data = laddered();
    let fourth_at = bids_at + 16 + 3 * 64;
    data[fourth_at + 8..fourth_at + 12].copy_from_slice(&4u32.to_le_bytes());
    assert_eq!(MarketState::decode(&constants(), &data), Err(DecodeError::Corrupt));
}

#[test]
fn a_damaged_tree_that_can_be_walked_is_read_as_the_walk_finds_it() {
    // Every bid changes colour, and the best one's price is no longer the highest.
    let mut data = laddered();
    let bids_at = HEADER_LEN + 72 + 16 + 32 * 80 + 8;
    for slot in 0..4usize {
        data[bids_at + 16 + slot * 64 + 12] ^= 1;
    }
    data[bids_at + 16 + 16..bids_at + 16 + 24].copy_from_slice(&1u64.to_le_bytes());
    // The tree claims more orders than it links.
    data[bids_at + 12..bids_at + 16].copy_from_slice(&9u32.to_le_bytes());

    let state = MarketState::decode(&constants(), &data).unwrap();
    let bids: Vec<(u64, u64)> = state
        .bids
        .iter()
        .map(|o| (o.price_in_ticks().as_u64(), o.num_base_lots.as_u64()))
        .collect();
    assert_eq!(bids, vec![(1, 10), (100, 5), (99, 20), (98, 30)]);
    assert_eq!(state.asks.len(), 2);
}

#[test]
fn every_size_class_decodes() {
    fn sized<const B: usize, const A: usize, const S: usize>(class: SizeClass) {
        let header = MarketAccountHeader {
            discriminator: MARKET_DISCRIMINATOR,
            version: MARKET_VERSION,
            size_class: class.as_u64(),
            vault_signer_bump: 0,
            base_mint: [0; 32],
            quote_mint: [0; 32],
            base_vault: [0; 32],
            quote_vault: [0; 32],
            authority: [4; 32],
            fee_recipient: [5; 32],
        };
        let mut market = Market::<B, A, S>::new_boxed(lot_config(), FeeSchedule::free()).unwrap();
        let seat = market.claim_seat(TraderKey([3; 32])).unwrap();
        market.deposit(seat, BaseLots(9), QuoteLots(0)).unwrap();
        market
            .place_order(seat, OrderPacket::post_only(Side::Ask, Ticks(5), BaseLots(9)), &mut ())
            .unwrap();
        let mut data = Vec::new();
        header.put(&mut data);
        market.put(&mut data);
        assert_eq!(data.len(), class.account_len());

        let state = MarketState::decode(&constants(), &data).unwrap();
        assert_eq!(state.size_class, class);
        assert_eq!(state.seat_capacity(), S);
        assert_eq!(state.best_ask().unwrap().num_base_lots, BaseLots(9));
        assert_eq!(state.authority(), Address([4; 32]));
        assert_eq!(state.fee_recipient(), Address([5; 32]));

        data.truncate(data.len() - 1);
        let whole = class.account_len();
        let error = MarketState::decode(&constants(), &data).unwrap_err();
        assert_eq!(error, DecodeError::Truncated { expected: whole, found: whole - 1 });
    }
    sized::<128, 128, 32>(SizeClass::Small);
    sized::<512, 512, 128>(SizeClass::Medium);
    sized::<2048, 2048, 512>(SizeClass::Large);
    assert_eq!(SizeClass::Small.account_len(), 224 + 19_072);
}

#[test]
fn idle_seats_are_evictable_and_quoting_ones_are_not() {
    let data = account(0, |market| {
        let quoting = market.claim_seat(TraderKey([1; 32])).unwrap();
        market.deposit(quoting, BaseLots(5), QuoteLots(0)).unwrap();
        market
            .place_order(quoting, OrderPacket::post_only(Side::Ask, Ticks(9), BaseLots(5)), &mut ())
            .unwrap();
        market.claim_seat(TraderKey([2; 32])).unwrap();
    });
    let state = MarketState::decode(&constants(), &data).unwrap();
    assert_eq!(state.evictable_seats(), vec![TraderKey([2; 32])]);
    assert!(!state.seats_are_full());
    assert_eq!(state.trader(&TraderKey([1; 32])).unwrap().base_lots_locked, BaseLots(5));
    assert_eq!(state.trader(&TraderKey([7; 32])), None);
}

#[test]
fn decoding_errors_say_what_went_wrong() {
    assert_eq!(DecodeError::TooShort.message(), "buffer shorter than the market header");
    assert_eq!(
        DecodeError::VersionMismatch { found: 99, expected: 1 }.message(),
        "market version 99, expected 1"
    );
    assert_eq!(
        DecodeError::Truncated { expected: 1_000, found: 20 }.message(),
        "account is 20 bytes, expected 1000"
    );
    assert_eq!(
        DecodeError::InvalidLotConfig(LotConfigError::ZeroTickSize).message(),
        "the market's lot configuration is invalid: ZeroTickSize"
    );
    assert_eq!(EventError::UnknownStop(200).message(), "unknown match stop code 200");
    assert_eq!(
        EventError::FillCountMismatch { declared: 99, available: 0 }.message(),
        "event declares 99 fills but carries 0"
    );
    assert_eq!(Ticks(18_446_744_073_709_551_615).display(), "18446744073709551615");
    assert_eq!(BaseLots(0).display(), "0");
}

#[test]
fn a_bad_event_among_good_ones_is_reported() {
    let outcome = OrderOutcome::empty(MatchStop::BookEmpty);
    let good = as_instruction_data(&EventBuffer::new(), &outcome, 7);
    let bad = good[..10].to_vec();
    let instructions: Vec<&[u8]> = vec![&good, &bad];
    assert_eq!(event::decode_all(&constants(), &instructions), Err(EventError::TooShort));
}

#[test]
fn a_seat_with_a_worthless_bid_is_not_evictable() {
    let data = account(0, |market| {
        let quoting = market.claim_seat(TraderKey([1; 32])).unwrap();
        market
            .place_order(quoting, OrderPacket::limit(Side::Bid, Ticks(0), BaseLots(1)), &mut ())
            .unwrap();
        market.claim_seat(TraderKey([2; 32])).unwrap();
    });
    let state = MarketState::decode(&constants(), &data).unwrap();
    assert_eq!(state.trader(&TraderKey([1; 32])), Some(&Default::default()));
    assert_eq!(state.evictable_seats(), vec![TraderKey([2; 32])]);
}
