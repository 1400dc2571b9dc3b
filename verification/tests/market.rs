//! How orders behave: execution price, priority, every stop condition, the order types,
//! the self-trade policies, and that value is conserved throughout.

use clob::engine::{
    ConservationError, EngineError, FeeSchedule, Fill, Market, MatchStop, OrderOutcome, OrderPacket,
    PostOnlyRejection, SeatIndex, SelfTradeBehavior, TraderKey, NO_SEAT,
};
use clob::order::{FIFOOrderId, Side};
use clob::quantities::{BaseLots, LotConfig, LotConfigError, QuoteLots, Ticks};
use clob::tree::Invariant;

/// The ids resting on `side`, best first.
fn queue(market: &TestMarket, side: Side) -> Vec<FIFOOrderId> {
    let mut ids = Vec::new();
    let mut orders = market.book().iter_side(side);
    while let Some(entry) = orders.next() {
        ids.push(entry.key);
    }
    ids
}

type TestMarket = Market<32, 32, 8>;

/// SOL/USDC-shaped geometry: one base lot is 0.001 SOL, one tick is $0.001.
fn lot_config() -> LotConfig {
    LotConfig::new(1_000, 1_000, 1_000_000, 1).unwrap()
}

/// A market with the given taker fee, in basis points.
fn market_with_fee(taker_fee_bps: u64) -> Box<TestMarket> {
    TestMarket::new_boxed(lot_config(), FeeSchedule::new(taker_fee_bps).unwrap()).unwrap()
}

/// A fee-free market, so tests about matching are not also tests about rounding.
fn market() -> Box<TestMarket> {
    market_with_fee(0)
}

/// Claims a seat identified by `id` and funds it generously.
fn funded_seat(market: &mut TestMarket, id: u8) -> SeatIndex {
    let seat = market.claim_seat(TraderKey([id; 32])).unwrap();
    market
        .deposit(seat, BaseLots(1_000_000), QuoteLots(1_000_000_000))
        .unwrap();
    seat
}

/// Claims a seat with exactly the balances given.
fn seat_with(market: &mut TestMarket, id: u8, base: u64, quote: u64) -> SeatIndex {
    let seat = market.claim_seat(TraderKey([id; 32])).unwrap();
    market
        .deposit(seat, BaseLots(base), QuoteLots(quote))
        .unwrap();
    seat
}

/// Rests a plain limit order that is expected to post in full.
fn rest(
    market: &mut TestMarket,
    seat: SeatIndex,
    side: Side,
    price: u64,
    size: u64,
) -> FIFOOrderId {
    let outcome = market
        .place_order(
            seat,
            OrderPacket::post_only(side, Ticks(price), BaseLots(size)),
            &mut (),
        )
        .expect("order should post");
    outcome.order_id.expect("post-only always rests")
}

/// Collects fills while placing an order.
fn place_recording(
    market: &mut TestMarket,
    seat: SeatIndex,
    packet: OrderPacket,
) -> (Result<OrderOutcome, EngineError>, Vec<Fill>) {
    let mut fills = Vec::new();
    let outcome = market.place_order(seat, packet, &mut fills);
    (outcome, fills)
}

/// Free balances for a seat, as `(base, quote)`.
fn free(market: &TestMarket, seat: SeatIndex) -> (u64, u64) {
    let state = market.traders().state(seat).unwrap();
    (
        state.base_lots_free.as_u64(),
        state.quote_lots_free.as_u64(),
    )
}

/// Locked balances for a seat, as `(base, quote)`.
fn locked(market: &TestMarket, seat: SeatIndex) -> (u64, u64) {
    let state = market.traders().state(seat).unwrap();
    (
        state.base_lots_locked.as_u64(),
        state.quote_lots_locked.as_u64(),
    )
}

/// The prices resting on `side`, best first.
fn prices(market: &TestMarket, side: Side) -> Vec<u64> {
    queue(market, side)
        .iter()
        .map(|id| id.price_in_ticks.as_u64())
        .collect()
}

#[test]
fn fills_execute_at_the_makers_price_not_the_takers() {
    // The economic core of resting a quote: a maker who asked 100 gets 100 even when
    // the taker would have paid 110. Any other rule makes posting strictly worse than
    // taking, and the book empties out.
    let mut market = market();
    let maker = funded_seat(&mut market, 1);
    let taker = funded_seat(&mut market, 2);
    rest(&mut market, maker, Side::Ask, 100, 10);

    let (outcome, fills) = place_recording(
        &mut market,
        taker,
        OrderPacket::limit(Side::Bid, Ticks(110), BaseLots(10)),
    );
    let outcome = outcome.unwrap();

    assert_eq!(fills.len(), 1);
    assert_eq!(fills[0].price_in_ticks, Ticks(100));
    assert_eq!(outcome.quote_lots_filled, QuoteLots(1_000));
    assert_eq!(market.check_conservation(), Ok(()));
}

#[test]
fn liquidity_is_consumed_in_price_then_time_order() {
    let mut market = market();
    let maker_a = funded_seat(&mut market, 1);
    let maker_b = funded_seat(&mut market, 2);
    let taker = funded_seat(&mut market, 3);

    // Two asks at 101 with A first, and a better one at 100 posted last.
    let second_at_101 = rest(&mut market, maker_a, Side::Ask, 101, 5);
    let _third_at_101 = rest(&mut market, maker_b, Side::Ask, 101, 5);
    let best = rest(&mut market, maker_b, Side::Ask, 100, 5);
    let _ = second_at_101;

    let (_, fills) = place_recording(
        &mut market,
        taker,
        OrderPacket::limit(Side::Bid, Ticks(101), BaseLots(15)),
    );

    let order: Vec<_> = fills.iter().map(|f| (f.price_in_ticks.as_u64(), f.maker_seat)).collect();
    assert_eq!(order, vec![(100, maker_b), (101, maker_a), (101, maker_b)]);
    assert_eq!(fills[0].maker_order_id, best);
}

#[test]
fn a_partial_fill_leaves_the_maker_at_the_front_of_the_queue() {
    let mut market = market();
    let maker = funded_seat(&mut market, 1);
    let other = funded_seat(&mut market, 2);
    let taker = funded_seat(&mut market, 3);

    let first = rest(&mut market, maker, Side::Ask, 100, 10);
    let second = rest(&mut market, other, Side::Ask, 100, 10);

    let (_, fills) = place_recording(
        &mut market,
        taker,
        OrderPacket::market(Side::Bid, BaseLots(4)),
    );

    assert_eq!(fills[0].maker_base_lots_remaining, BaseLots(6));
    // Still ahead of the order that arrived after it.
    let queue: Vec<_> = queue(&market, Side::Ask);
    assert_eq!(queue, vec![first, second]);
    assert_eq!(market.check_conservation(), Ok(()));
}

#[test]
fn a_sweep_walks_down_the_book_until_the_size_is_met() {
    let mut market = market();
    let maker = funded_seat(&mut market, 1);
    let taker = funded_seat(&mut market, 2);
    for (price, size) in [(100u64, 5u64), (101, 5), (102, 5)] {
        rest(&mut market, maker, Side::Ask, price, size);
    }

    let (outcome, fills) = place_recording(
        &mut market,
        taker,
        OrderPacket::market(Side::Bid, BaseLots(12)),
    );
    let outcome = outcome.unwrap();

    assert_eq!(fills.len(), 3);
    assert_eq!(outcome.base_lots_filled, BaseLots(12));
    // 5 at 100, 5 at 101, 2 at 102.
    assert_eq!(outcome.quote_lots_filled, QuoteLots(500 + 505 + 204));
    assert_eq!(outcome.stop, MatchStop::FullyFilled);
    assert_eq!(prices(&market, Side::Ask), vec![102]);
}

#[test]
fn a_limit_order_rests_whatever_it_could_not_fill() {
    let mut market = market();
    let maker = funded_seat(&mut market, 1);
    let taker = funded_seat(&mut market, 2);
    rest(&mut market, maker, Side::Ask, 100, 4);

    let outcome = market
        .place_order(
            taker,
            OrderPacket::limit(Side::Bid, Ticks(100), BaseLots(10)),
            &mut (),
        )
        .unwrap();

    assert_eq!(outcome.base_lots_filled, BaseLots(4));
    assert_eq!(outcome.base_lots_posted, BaseLots(6));
    assert_eq!(market.book().best_bid().unwrap().key, outcome.order_id.unwrap());
    // The posted remainder is backed by locked quote, not free quote.
    assert_eq!(locked(&market, taker).1, 600);
    assert_eq!(market.check_conservation(), Ok(()));
}

#[test]
fn matching_stops_at_the_limit_price() {
    let mut market = market();
    let maker = funded_seat(&mut market, 1);
    let taker = funded_seat(&mut market, 2);
    rest(&mut market, maker, Side::Ask, 100, 5);
    rest(&mut market, maker, Side::Ask, 105, 5);

    let outcome = market
        .place_order(
            taker,
            OrderPacket::ImmediateOrCancel {
                side: Side::Bid,
                price_in_ticks: Some(Ticks(102)),
                num_base_lots: BaseLots(10),
                min_base_lots_to_fill: BaseLots(0),
                self_trade_behavior: SelfTradeBehavior::DecrementTake,
                match_limit: u32::MAX,
            },
            &mut (),
        )
        .unwrap();

    assert_eq!(outcome.base_lots_filled, BaseLots(5));
    assert_eq!(outcome.stop, MatchStop::PriceLimit);
    assert_eq!(prices(&market, Side::Ask), vec![105]);
}

#[test]
fn match_limit_bounds_the_walk() {
    // The reason this exists: an unbounded sweep can exceed the compute budget and
    // revert, costing the taker its fee for nothing.
    let mut market = market();
    let maker = funded_seat(&mut market, 1);
    let taker = funded_seat(&mut market, 2);
    for price in 100..110u64 {
        rest(&mut market, maker, Side::Ask, price, 1);
    }

    let outcome = market
        .place_order(
            taker,
            OrderPacket::ImmediateOrCancel {
                side: Side::Bid,
                price_in_ticks: None,
                num_base_lots: BaseLots(10),
                min_base_lots_to_fill: BaseLots(0),
                self_trade_behavior: SelfTradeBehavior::DecrementTake,
                match_limit: 3,
            },
            &mut (),
        )
        .unwrap();

    assert_eq!(outcome.base_lots_filled, BaseLots(3));
    assert_eq!(outcome.stop, MatchStop::MatchLimit);
}

#[test]
fn an_empty_book_reports_why_nothing_happened() {
    let mut market = market();
    let taker = funded_seat(&mut market, 1);

    let outcome = market
        .place_order(taker, OrderPacket::market(Side::Bid, BaseLots(5)), &mut ())
        .unwrap();

    assert_eq!(outcome.base_lots_filled, BaseLots(0));
    assert_eq!(outcome.stop, MatchStop::BookEmpty);
}

#[test]
fn an_underfunded_taker_stops_rather_than_filling_what_it_cannot_pay_for() {
    let mut market = market();
    let maker = funded_seat(&mut market, 1);
    // Enough quote for one lot at 100 (100 quote lots), not two.
    let taker = seat_with(&mut market, 2, 0, 150);
    rest(&mut market, maker, Side::Ask, 100, 1);
    rest(&mut market, maker, Side::Ask, 101, 1);

    let outcome = market
        .place_order(taker, OrderPacket::market(Side::Bid, BaseLots(2)), &mut ())
        .unwrap();

    assert_eq!(outcome.base_lots_filled, BaseLots(1));
    assert_eq!(outcome.stop, MatchStop::InsufficientFunds);
    assert_eq!(free(&market, taker), (1, 50));
    assert_eq!(market.check_conservation(), Ok(()));
}

#[test]
fn a_taker_selling_receives_the_proceeds_less_the_fee() {
    // 10 bps on a 1_000 quote lot fill.
    let mut market = market_with_fee(10);
    let maker = funded_seat(&mut market, 1);
    let taker = seat_with(&mut market, 2, 10, 0);
    rest(&mut market, maker, Side::Bid, 100, 10);

    let outcome = market
        .place_order(taker, OrderPacket::market(Side::Ask, BaseLots(10)), &mut ())
        .unwrap();

    assert_eq!(outcome.quote_lots_filled, QuoteLots(1_000));
    assert_eq!(outcome.fee_in_quote_lots, QuoteLots(1));
    assert_eq!(free(&market, taker), (0, 999));
    // The maker pays nothing.
    assert_eq!(free(&market, maker).1, 1_000_000_000 - 1_000);
    assert_eq!(market.header().unclaimed_quote_lot_fees, QuoteLots(1));
    assert_eq!(market.check_conservation(), Ok(()));
}

#[test]
fn a_taker_buying_pays_the_fee_on_top_of_the_fill() {
    let mut market = market_with_fee(10);
    let maker = funded_seat(&mut market, 1);
    let taker = seat_with(&mut market, 2, 0, 5_000);
    rest(&mut market, maker, Side::Ask, 100, 10);

    market
        .place_order(taker, OrderPacket::market(Side::Bid, BaseLots(10)), &mut ())
        .unwrap();

    // 1_000 to the maker, 1 to the venue.
    assert_eq!(free(&market, taker), (10, 5_000 - 1_001));
    assert_eq!(free(&market, maker).1, 1_000_000_000 + 1_000);
    assert_eq!(market.check_conservation(), Ok(()));
}

#[test]
fn cancelling_returns_exactly_what_was_locked() {
    let mut market = market();
    let maker = funded_seat(&mut market, 1);
    let before = free(&market, maker);

    let id = rest(&mut market, maker, Side::Bid, 100, 7);
    assert_eq!(locked(&market, maker).1, 700);

    let cancelled = market.cancel_order(maker, &id).unwrap();

    assert_eq!(cancelled, BaseLots(7));
    assert_eq!(free(&market, maker), before);
    assert_eq!(locked(&market, maker), (0, 0));
}

#[test]
fn only_the_owner_can_cancel_or_reduce() {
    let mut market = market();
    let maker = funded_seat(&mut market, 1);
    let stranger = funded_seat(&mut market, 2);
    let id = rest(&mut market, maker, Side::Ask, 100, 5);

    assert_eq!(
        market.cancel_order(stranger, &id),
        Err(EngineError::NotOrderOwner)
    );
    assert_eq!(
        market.reduce_order(stranger, &id, BaseLots(1)),
        Err(EngineError::NotOrderOwner)
    );
    assert!(market.book().contains(&id));
}

#[test]
fn reducing_releases_funds_proportionally_and_keeps_priority() {
    let mut market = market();
    let maker = funded_seat(&mut market, 1);
    let id = rest(&mut market, maker, Side::Bid, 100, 10);
    assert_eq!(locked(&market, maker).1, 1_000);

    let removed = market.reduce_order(maker, &id, BaseLots(4)).unwrap();

    assert_eq!(removed, BaseLots(4));
    assert_eq!(locked(&market, maker).1, 600);
    assert_eq!(market.book().best_bid().unwrap().key, id);
    assert_eq!(market.check_conservation(), Ok(()));
}

#[test]
fn cancel_all_for_a_seat_leaves_other_traders_alone() {
    let mut market = market();
    let mine = funded_seat(&mut market, 1);
    let theirs = funded_seat(&mut market, 2);
    for price in 100..104u64 {
        rest(&mut market, mine, Side::Bid, price, 1);
    }
    let survivor = rest(&mut market, theirs, Side::Bid, 99, 1);

    let cancelled = market.cancel_orders_for_seat(mine, Side::Bid, u32::MAX).unwrap();

    assert_eq!(cancelled, 4);
    assert_eq!(market.book().len(Side::Bid), 1);
    assert_eq!(market.book().best_bid().unwrap().key, survivor);
    assert_eq!(locked(&market, mine), (0, 0));
}

#[test]
fn cancel_all_respects_its_bound() {
    let mut market = market();
    let seat = funded_seat(&mut market, 1);
    for price in 100..106u64 {
        rest(&mut market, seat, Side::Bid, price, 1);
    }

    assert_eq!(market.cancel_orders_for_seat(seat, Side::Bid, 2).unwrap(), 2);
    assert_eq!(market.book().len(Side::Bid), 4);
}

#[test]
fn a_bounded_cancel_takes_the_best_priced_orders_first() {
    let mut market = market();
    let mine = funded_seat(&mut market, 1);
    let theirs = funded_seat(&mut market, 2);
    let worst = rest(&mut market, mine, Side::Bid, 99, 1);
    rest(&mut market, mine, Side::Bid, 101, 1);
    let between = rest(&mut market, theirs, Side::Bid, 100, 1);
    rest(&mut market, mine, Side::Bid, 100, 1);
    let across = rest(&mut market, mine, Side::Ask, 105, 1);

    assert_eq!(market.cancel_orders_for_seat(mine, Side::Bid, 0).unwrap(), 0);
    assert_eq!(market.cancel_orders_for_seat(mine, Side::Bid, 2).unwrap(), 2);
    assert_eq!(queue(&market, Side::Bid), vec![between, worst]);

    // Fewer are left than the limit allows.
    assert_eq!(market.cancel_orders_for_seat(mine, Side::Bid, 2).unwrap(), 1);
    assert_eq!(queue(&market, Side::Bid), vec![between]);
    assert_eq!(queue(&market, Side::Ask), vec![across]);
    assert_eq!(market.check_conservation(), Ok(()));
}

#[test]
fn only_the_last_fill_leaves_its_maker_anything() {
    let mut market = market();
    let maker = funded_seat(&mut market, 1);
    let taker = funded_seat(&mut market, 2);
    let third = rest(&mut market, maker, Side::Ask, 102, 5);
    rest(&mut market, maker, Side::Ask, 100, 5);
    rest(&mut market, maker, Side::Ask, 101, 5);
    let fourth = rest(&mut market, maker, Side::Ask, 102, 5);

    let (_, fills) =
        place_recording(&mut market, taker, OrderPacket::market(Side::Bid, BaseLots(12)));

    let left: Vec<_> = fills.iter().map(|f| f.maker_base_lots_remaining.as_u64()).collect();
    assert_eq!(left, vec![0, 0, 3]);
    assert_eq!(fills[2].maker_order_id, third);
    assert_eq!(queue(&market, Side::Ask), vec![third, fourth]);
}

fn post_only(side: Side, price: u64, size: u64, rejection: PostOnlyRejection) -> OrderPacket {
    OrderPacket::PostOnly {
        side,
        price_in_ticks: Ticks(price),
        num_base_lots: BaseLots(size),
        rejection,
    }
}

#[test]
fn a_post_only_order_that_does_not_cross_rests_at_its_own_price() {
    let mut market = market();
    let maker = funded_seat(&mut market, 1);
    let other = funded_seat(&mut market, 2);
    rest(&mut market, other, Side::Ask, 105, 5);

    let outcome = market
        .place_order(maker, post_only(Side::Bid, 100, 5, PostOnlyRejection::Reject), &mut ())
        .unwrap();

    assert_eq!(outcome.base_lots_posted, BaseLots(5));
    assert_eq!(outcome.stop, MatchStop::DidNotCross);
    assert_eq!(prices(&market, Side::Bid), vec![100]);
}

#[test]
fn a_crossing_post_only_order_is_rejected_by_default() {
    let mut market = market();
    let maker = funded_seat(&mut market, 1);
    let other = funded_seat(&mut market, 2);
    rest(&mut market, other, Side::Ask, 100, 5);

    assert_eq!(
        market.place_order(maker, post_only(Side::Bid, 105, 5, PostOnlyRejection::Reject), &mut ()),
        Err(EngineError::PostOnlyWouldCross)
    );
    // Nothing rested and nothing was taken: the resting ask is untouched.
    assert!(market.book().is_empty(Side::Bid));
    assert_eq!(market.book().best_ask().unwrap().value.num_base_lots, BaseLots(5));
}

#[test]
fn a_crossing_post_only_order_slides_just_inside_the_touch() {
    // Saves a market maker a round trip when the book moved between quoting and landing.
    let mut market = market();
    let maker = funded_seat(&mut market, 1);
    let other = funded_seat(&mut market, 2);
    rest(&mut market, other, Side::Ask, 100, 5);

    let outcome = market
        .place_order(maker, post_only(Side::Bid, 105, 5, PostOnlyRejection::Slide), &mut ())
        .unwrap();

    assert_eq!(outcome.order_id.unwrap().price_in_ticks, Ticks(99));
    assert_eq!(prices(&market, Side::Bid), vec![99]);
    // Funds are locked at the slid price, not the requested one.
    assert_eq!(locked(&market, maker).1, 99 * 5);
    assert_eq!(market.check_conservation(), Ok(()));
}

#[test]
fn an_ask_slides_upward_past_the_best_bid() {
    let mut market = market();
    let maker = funded_seat(&mut market, 1);
    let other = funded_seat(&mut market, 2);
    rest(&mut market, other, Side::Bid, 100, 5);

    let outcome = market
        .place_order(maker, post_only(Side::Ask, 95, 5, PostOnlyRejection::Slide), &mut ())
        .unwrap();

    assert_eq!(outcome.order_id.unwrap().price_in_ticks, Ticks(101));
}

#[test]
fn a_bid_with_nowhere_to_slide_is_rejected() {
    // The best ask is one tick, so the only non-crossing bid price would be zero.
    let mut market = market();
    let maker = funded_seat(&mut market, 1);
    let other = funded_seat(&mut market, 2);
    rest(&mut market, other, Side::Ask, 1, 5);

    assert_eq!(
        market.place_order(maker, post_only(Side::Bid, 5, 5, PostOnlyRejection::Slide), &mut ()),
        Err(EngineError::PostOnlyNoRoom)
    );
}

#[test]
fn a_post_only_order_never_takes_even_when_it_could() {
    let mut market = market();
    let maker = funded_seat(&mut market, 1);
    let other = funded_seat(&mut market, 2);
    rest(&mut market, other, Side::Ask, 100, 5);

    market
        .place_order(maker, post_only(Side::Bid, 105, 5, PostOnlyRejection::Slide), &mut ())
        .unwrap();

    assert_eq!(market.header().collected_quote_lot_fees, QuoteLots(0));
    assert_eq!(market.book().best_ask().unwrap().value.num_base_lots, BaseLots(5));
}

#[test]
fn an_ioc_order_discards_whatever_it_could_not_fill() {
    let mut market = market();
    let maker = funded_seat(&mut market, 1);
    let taker = funded_seat(&mut market, 2);
    rest(&mut market, maker, Side::Ask, 100, 3);

    let outcome = market
        .place_order(taker, OrderPacket::market(Side::Bid, BaseLots(10)), &mut ())
        .unwrap();

    assert_eq!(outcome.base_lots_filled, BaseLots(3));
    assert_eq!(outcome.base_lots_posted, BaseLots(0));
    assert_eq!(outcome.order_id, None);
    assert!(market.book().is_empty(Side::Bid));
}

#[test]
fn fill_or_kill_succeeds_when_the_book_is_deep_enough() {
    let mut market = market();
    let maker = funded_seat(&mut market, 1);
    let taker = funded_seat(&mut market, 2);
    rest(&mut market, maker, Side::Ask, 100, 5);
    rest(&mut market, maker, Side::Ask, 101, 5);

    let outcome = market
        .place_order(
            taker,
            OrderPacket::fill_or_kill(Side::Bid, Ticks(101), BaseLots(10)),
            &mut (),
        )
        .unwrap();

    assert_eq!(outcome.base_lots_filled, BaseLots(10));
    assert_eq!(market.check_conservation(), Ok(()));
}

#[test]
fn fill_or_kill_reports_a_shortfall_rather_than_filling_partially() {
    let mut market = market();
    let maker = funded_seat(&mut market, 1);
    let taker = funded_seat(&mut market, 2);
    rest(&mut market, maker, Side::Ask, 100, 3);

    assert_eq!(
        market.place_order(
            taker,
            OrderPacket::fill_or_kill(Side::Bid, Ticks(100), BaseLots(10)),
            &mut ()
        ),
        Err(EngineError::MinimumFillNotMet)
    );
}

#[test]
fn a_failed_minimum_fill_relies_on_the_caller_discarding_the_market() {
    // Pinning documented behaviour rather than asserting it is desirable: the minimum
    // is checked *after* matching, so the error leaves the fills applied. On Solana a
    // returned error reverts the whole instruction, which is exactly the all-or-nothing
    // semantic this order type promises. Anywhere else, the caller must throw the
    // mutated market away -- see `Market::place_order`.
    let mut market = market();
    let maker = funded_seat(&mut market, 1);
    // Starts with no base, so any base it holds afterwards came from the failed order.
    let taker = seat_with(&mut market, 2, 0, 100_000);
    rest(&mut market, maker, Side::Ask, 100, 3);

    let err = market
        .place_order(
            taker,
            OrderPacket::fill_or_kill(Side::Bid, Ticks(100), BaseLots(10)),
            &mut (),
        )
        .unwrap_err();
    assert_eq!(err, EngineError::MinimumFillNotMet);

    // The partial fill really did land, and value is still conserved -- the state is
    // inconsistent with the caller's intent, not with the market's books.
    assert_eq!(free(&market, taker).0, 3);
    assert_eq!(market.check_conservation(), Ok(()));
}

#[test]
fn a_partial_minimum_is_honoured_when_met() {
    let mut market = market();
    let maker = funded_seat(&mut market, 1);
    let taker = funded_seat(&mut market, 2);
    rest(&mut market, maker, Side::Ask, 100, 6);

    let outcome = market
        .place_order(
            taker,
            OrderPacket::ImmediateOrCancel {
                side: Side::Bid,
                price_in_ticks: None,
                num_base_lots: BaseLots(10),
                min_base_lots_to_fill: BaseLots(5),
                self_trade_behavior: SelfTradeBehavior::DecrementTake,
                match_limit: u32::MAX,
            },
            &mut (),
        )
        .unwrap();

    assert_eq!(outcome.base_lots_filled, BaseLots(6));
}

#[test]
fn a_zero_size_order_is_rejected_before_anything_happens() {
    let mut market = market();
    let seat = funded_seat(&mut market, 1);

    assert_eq!(
        market.place_order(seat, OrderPacket::limit(Side::Bid, Ticks(100), BaseLots(0)), &mut ()),
        Err(EngineError::ZeroSize)
    );
}

#[test]
fn an_unknown_seat_cannot_trade() {
    let mut market = market();

    assert_eq!(
        market.place_order(
            NO_SEAT,
            OrderPacket::limit(Side::Bid, Ticks(100), BaseLots(1)),
            &mut ()
        ),
        Err(EngineError::SeatNotFound)
    );
}

#[test]
fn an_unfunded_maker_cannot_post() {
    let mut market = market();
    let seat = seat_with(&mut market, 1, 0, 50);

    // 5 lots at 100 ticks costs 500 quote lots; the seat has 50.
    assert_eq!(
        market.place_order(seat, post_only(Side::Bid, 100, 5, PostOnlyRejection::Reject), &mut ()),
        Err(EngineError::InsufficientQuoteFunds)
    );
    assert!(market.book().is_empty(Side::Bid));
    assert_eq!(market.check_conservation(), Ok(()));
}

#[test]
fn locked_funds_cannot_be_withdrawn() {
    let mut market = market();
    let seat = seat_with(&mut market, 1, 10, 0);
    rest(&mut market, seat, Side::Ask, 100, 10);

    assert_eq!(
        market.withdraw(seat, BaseLots(1), QuoteLots(0)),
        Err(EngineError::InsufficientBaseFunds)
    );
    assert_eq!(market.check_conservation(), Ok(()));
}

#[test]
fn a_full_book_side_leaves_the_seat_exactly_as_it_was() {
    let mut market = TestMarket::new_boxed(lot_config(), FeeSchedule::free()).unwrap();
    let seat = funded_seat(&mut market, 1);
    for price in 1..=32u64 {
        rest(&mut market, seat, Side::Bid, price, 1);
    }
    let before = (free(&market, seat), locked(&market, seat));

    assert_eq!(
        market.place_order(seat, post_only(Side::Bid, 50, 1, PostOnlyRejection::Reject), &mut ()),
        Err(EngineError::BookSideFull)
    );

    // The lock taken in anticipation of posting must be released on failure.
    assert_eq!((free(&market, seat), locked(&market, seat)), before);
    assert_eq!(market.check_conservation(), Ok(()));
}

/// `mine` rests an ask at 100; a stranger rests one at 101. `mine` then bids through
/// both. What happens to the ask at 100 is the policy under test.
fn crossing_own_quote() -> (Box<TestMarket>, u32, u32) {
    let mut market = market();
    let mine = funded_seat(&mut market, 1);
    let theirs = funded_seat(&mut market, 2);
    rest(&mut market, mine, Side::Ask, 100, 10);
    rest(&mut market, theirs, Side::Ask, 101, 10);
    (market, mine, theirs)
}

fn bid_through(behavior: SelfTradeBehavior, size: u64) -> OrderPacket {
    OrderPacket::Limit {
        side: Side::Bid,
        price_in_ticks: Ticks(101),
        num_base_lots: BaseLots(size),
        self_trade_behavior: behavior,
        match_limit: u32::MAX,
    }
}

#[test]
fn decrement_take_shrinks_both_sides_and_trades_nothing() {
    let (mut market, mine, _) = crossing_own_quote();
    let before = free(&market, mine);

    let outcome = market
        .place_order(mine, bid_through(SelfTradeBehavior::DecrementTake, 10), &mut ())
        .unwrap();

    // The overlap is removed from the book but never trades: no fill, no fee, and the
    // taker's own size is consumed by the removal.
    assert_eq!(outcome.base_lots_filled, BaseLots(0));
    assert_eq!(outcome.base_lots_self_traded, BaseLots(10));
    assert_eq!(outcome.base_lots_posted, BaseLots(0));
    assert_eq!(market.header().collected_quote_lot_fees.as_u64(), 0);

    // Own ask gone, stranger's untouched, and the locked base came back.
    assert_eq!(prices(&market, Side::Ask), vec![101]);
    assert_eq!(free(&market, mine), (before.0 + 10, before.1));
    assert_eq!(market.check_conservation(), Ok(()));
}

#[test]
fn decrement_take_only_removes_the_overlap() {
    let (mut market, mine, _) = crossing_own_quote();

    // Taker size 4 against an own resting 10: only 4 comes off.
    let outcome = market
        .place_order(mine, bid_through(SelfTradeBehavior::DecrementTake, 4), &mut ())
        .unwrap();

    assert_eq!(outcome.base_lots_self_traded, BaseLots(4));
    assert_eq!(
        market.book().best_ask().unwrap().value.num_base_lots,
        BaseLots(6)
    );
    assert_eq!(market.check_conservation(), Ok(()));
}

#[test]
fn cancel_provide_pulls_the_stale_quote_and_keeps_matching() {
    let (mut market, mine, theirs) = crossing_own_quote();

    let (outcome, fills) =
        place_recording(&mut market, mine, bid_through(SelfTradeBehavior::CancelProvide, 10));
    let outcome = outcome.unwrap();

    // The own ask is cancelled outright without consuming taker size, so the full 10
    // goes on to trade against the stranger at 101.
    assert_eq!(outcome.base_lots_self_traded, BaseLots(10));
    assert_eq!(outcome.base_lots_filled, BaseLots(10));
    assert_eq!(fills.len(), 1);
    assert_eq!(fills[0].maker_seat, theirs);
    assert_eq!(fills[0].price_in_ticks, Ticks(101));
    assert!(market.book().is_empty(Side::Ask));
    assert_eq!(market.check_conservation(), Ok(()));
}

#[test]
fn abort_rejects_the_whole_order() {
    let (mut market, mine, _) = crossing_own_quote();
    let book_before: Vec<_> = queue(&market, Side::Ask);

    assert_eq!(
        market.place_order(mine, bid_through(SelfTradeBehavior::Abort, 10), &mut ()),
        Err(EngineError::SelfTradeAborted)
    );

    // Aborting happens before anything is settled, so the book is untouched.
    let book_after: Vec<_> = queue(&market, Side::Ask);
    assert_eq!(book_before, book_after);
    assert_eq!(market.check_conservation(), Ok(()));
}

#[test]
fn a_self_trade_against_a_deeper_level_still_reaches_better_liquidity_first() {
    // Own quote sits behind a stranger's better one: the stranger fills first, and only
    // then does the self-trade policy come into play.
    let mut market = market();
    let mine = funded_seat(&mut market, 1);
    let theirs = funded_seat(&mut market, 2);
    rest(&mut market, theirs, Side::Ask, 100, 5);
    rest(&mut market, mine, Side::Ask, 101, 5);

    let (outcome, fills) =
        place_recording(&mut market, mine, bid_through(SelfTradeBehavior::DecrementTake, 10));
    let outcome = outcome.unwrap();

    assert_eq!(fills.len(), 1);
    assert_eq!(fills[0].maker_seat, theirs);
    assert_eq!(outcome.base_lots_filled, BaseLots(5));
    assert_eq!(outcome.base_lots_self_traded, BaseLots(5));
    assert!(market.book().is_empty(Side::Ask));
    assert_eq!(market.check_conservation(), Ok(()));
}

#[test]
fn self_trade_handling_is_counted_against_the_match_limit() {
    // Otherwise a trader with many own quotes at the touch could force an unbounded
    // walk and blow the compute budget.
    let mut market = market();
    let mine = funded_seat(&mut market, 1);
    for price in 100..106u64 {
        rest(&mut market, mine, Side::Ask, price, 1);
    }

    let outcome = market
        .place_order(
            mine,
            OrderPacket::Limit {
                side: Side::Bid,
                price_in_ticks: Ticks(110),
                num_base_lots: BaseLots(6),
                self_trade_behavior: SelfTradeBehavior::CancelProvide,
                match_limit: 2,
            },
            &mut (),
        )
        .unwrap();

    assert_eq!(outcome.base_lots_self_traded, BaseLots(2));
    assert_eq!(market.book().len(Side::Ask), 4);
    assert_eq!(market.check_conservation(), Ok(()));
}

// -------------------------------------------------------------------------------------
// Conservation
// -------------------------------------------------------------------------------------

/// A small deterministic generator, so a long random run needs nothing from outside.
struct Dice(u64);

impl Dice {
    fn roll(&mut self, below: u64) -> u64 {
        self.0 = self.0.wrapping_mul(6364136223846793005).wrapping_add(1442695040888963407);
        (self.0 >> 33) % below
    }
}

/// Any packet at all, mostly near the touch.
fn random_packet(dice: &mut Dice) -> OrderPacket {
    let side = if dice.roll(2) == 0 { Side::Bid } else { Side::Ask };
    let price = Ticks(90 + dice.roll(20));
    let size = BaseLots(dice.roll(30));
    let behavior = match dice.roll(3) {
        0 => SelfTradeBehavior::DecrementTake,
        1 => SelfTradeBehavior::CancelProvide,
        _ => SelfTradeBehavior::Abort,
    };
    match dice.roll(3) {
        0 => OrderPacket::Limit {
            side,
            price_in_ticks: price,
            num_base_lots: size,
            self_trade_behavior: behavior,
            match_limit: dice.roll(6) as u32,
        },
        1 => OrderPacket::PostOnly {
            side,
            price_in_ticks: price,
            num_base_lots: size,
            rejection: if dice.roll(2) == 0 { PostOnlyRejection::Reject } else { PostOnlyRejection::Slide },
        },
        _ => OrderPacket::ImmediateOrCancel {
            side,
            price_in_ticks: if dice.roll(2) == 0 { Some(price) } else { None },
            num_base_lots: size,
            min_base_lots_to_fill: BaseLots(dice.roll(4)),
            self_trade_behavior: behavior,
            match_limit: u32::MAX,
        },
    }
}

#[test]
fn value_is_conserved_and_the_market_can_be_drained() {
    let mut dice = Dice(7);
    let mut market = market_with_fee(5);
    let seats: Vec<SeatIndex> = (0..4)
        .map(|i| market.claim_seat(TraderKey([i as u8; 32])).unwrap())
        .collect();
    let (mut base_in, mut quote_in, mut swept) = (0u64, 0u64, 0u64);

    for _ in 0..3_000 {
        let seat = seats[dice.roll(4) as usize];
        match dice.roll(8) {
            0 => {
                let (base, quote) = (dice.roll(1_000), dice.roll(100_000));
                market.deposit(seat, BaseLots(base), QuoteLots(quote)).unwrap();
                base_in += base;
                quote_in += quote;
            }
            1 => {
                let (base, quote) = (dice.roll(50), dice.roll(5_000));
                if market.withdraw(seat, BaseLots(base), QuoteLots(quote)).is_ok() {
                    base_in -= base;
                    quote_in -= quote;
                }
            }
            2 => {
                let fees = market.collect_fees().unwrap().as_u64();
                quote_in -= fees;
                swept += fees;
            }
            3 => {
                let side = if dice.roll(2) == 0 { Side::Bid } else { Side::Ask };
                market.cancel_orders_for_seat(seat, side, dice.roll(3) as u32).unwrap();
            }
            4 => {
                if let Some(best) = market.book().best_bid() {
                    let _ = market.reduce_order(seat, &best.key, BaseLots(dice.roll(5)));
                }
            }
            _ => {
                let packet = random_packet(&mut dice);
                let _ = market.place_order(seat, packet, &mut ());
            }
        }
        assert_eq!(market.check_conservation(), Ok(()));
        let header = market.header();
        assert_eq!(header.base_lots_deposited.as_u64(), base_in);
        assert_eq!(header.quote_lots_deposited.as_u64(), quote_in);
        assert_eq!(
            header.collected_quote_lot_fees.as_u64(),
            swept + header.unclaimed_quote_lot_fees.as_u64()
        );
    }

    for seat in &seats {
        for side in [Side::Bid, Side::Ask] {
            market.cancel_orders_for_seat(*seat, side, u32::MAX).unwrap();
        }
        assert_eq!(locked(&market, *seat), (0, 0));
    }
    assert_eq!(market.book().len(Side::Bid) + market.book().len(Side::Ask), 0);
    for seat in &seats {
        let (base, quote) = market.withdraw_all(*seat).unwrap();
        base_in -= base.as_u64();
        quote_in -= quote.as_u64();
    }
    for i in 0..4u8 {
        market.release_seat(&TraderKey([i; 32])).unwrap();
    }
    assert_eq!(base_in, 0);
    assert_eq!(market.header().base_lots_deposited, BaseLots(0));
    assert_eq!(quote_in, market.header().unclaimed_quote_lot_fees.as_u64());
    assert_eq!(market.header().quote_lots_deposited, market.header().unclaimed_quote_lot_fees);
}

/// Where the pieces of a market's bytes stand.
const COLLECTED_AT: usize = 56;
const TABLE_AT: usize = 72;
const SEAT_SLOT: usize = 80;
const BOOK_AT: usize = TABLE_AT + 16 + 8 * SEAT_SLOT;
const BIDS_AT: usize = BOOK_AT + 8;
const ASKS_AT: usize = BIDS_AT + 16 + 32 * 64;

fn set_u64(bytes: &mut [u8], at: usize, value: u64) {
    bytes[at..at + 8].copy_from_slice(&value.to_le_bytes());
}

/// One bid and one ask from one seat, as bytes.
fn quoted_bytes() -> Vec<u8> {
    let mut market = market();
    let seat = funded_seat(&mut market, 1);
    rest(&mut market, seat, Side::Bid, 100, 7);
    rest(&mut market, seat, Side::Ask, 110, 3);
    let mut bytes = Vec::new();
    market.put(&mut bytes);
    bytes
}

fn check_bytes(bytes: &[u8]) -> Result<(), ConservationError> {
    TestMarket::take(bytes, 0).check_conservation()
}

#[test]
fn every_conservation_fault_is_told_apart() {
    assert_eq!(quoted_bytes().len(), TestMarket::size_in_bytes());
    assert_eq!(check_bytes(&quoted_bytes()), Ok(()));

    // The recorded deposits.
    let mut bytes = quoted_bytes();
    set_u64(&mut bytes, 40, 1);
    assert_eq!(check_bytes(&bytes), Err(ConservationError::BaseNotConserved));
    let mut bytes = quoted_bytes();
    set_u64(&mut bytes, 48, 1);
    assert_eq!(check_bytes(&bytes), Err(ConservationError::QuoteNotConserved));

    // The owner and the size of the ask, and the size of the bid.
    let ask_value = ASKS_AT + 16 + 16 + 16;
    let bid_value = BIDS_AT + 16 + 16 + 16;
    let mut bytes = quoted_bytes();
    set_u64(&mut bytes, ask_value, 5);
    assert_eq!(check_bytes(&bytes), Err(ConservationError::OrphanedOrder));
    let mut bytes = quoted_bytes();
    set_u64(&mut bytes, bid_value, u64::MAX);
    assert_eq!(check_bytes(&bytes), Err(ConservationError::OrphanedOrder));
    let mut bytes = quoted_bytes();
    set_u64(&mut bytes, ask_value + 8, 4);
    assert_eq!(check_bytes(&bytes), Err(ConservationError::LockedBaseMismatch));
    let mut bytes = quoted_bytes();
    set_u64(&mut bytes, bid_value + 8, 8);
    assert_eq!(check_bytes(&bytes), Err(ConservationError::LockedQuoteMismatch));
    let mut bytes = quoted_bytes();
    set_u64(&mut bytes, bid_value + 8, u64::MAX);
    assert_eq!(check_bytes(&bytes), Err(ConservationError::LockedQuoteMismatch));

    // The bid tree's root is recoloured.
    let mut bytes = quoted_bytes();
    bytes[BIDS_AT + 16 + 12] = 0;
    assert_eq!(
        check_bytes(&bytes),
        Err(ConservationError::Book(Invariant::RootNotBlack))
    );
}

#[test]
fn a_market_survives_its_bytes() {
    let bytes = quoted_bytes();
    let mut market = TestMarket::take(&bytes, 0);
    let mut again = Vec::new();
    market.put(&mut again);
    assert_eq!(again, bytes);

    let seat = market.seat_index(&TraderKey([1; 32]));
    assert_eq!(queue(&market, Side::Bid).len(), 1);
    assert_eq!(market.cancel_orders_for_seat(seat, Side::Bid, 9), Ok(1));
    assert_eq!(market.check_conservation(), Ok(()));
}

#[test]
fn seats_are_claimed_by_index() {
    let mut market = market();
    let seat = funded_seat(&mut market, 3);
    assert!(market.traders().is_claimed(seat as u64));
    assert!(!market.traders().is_claimed(0));
    assert!(!market.traders().is_claimed(seat as u64 + 1));
    assert!(!market.traders().is_claimed(u64::MAX));
    let mut seats = market.traders().iter_indexed();
    let entry = seats.next().unwrap();
    assert_eq!((entry.handle, entry.key), (seat, TraderKey([3; 32])));
    assert!(seats.next().is_none());
}

#[test]
fn a_rejecting_post_only_order_with_no_room_reports_the_cross() {
    let mut market = market();
    let maker = funded_seat(&mut market, 1);
    let other = funded_seat(&mut market, 2);
    rest(&mut market, other, Side::Ask, 1, 5);
    assert_eq!(
        market.place_order(maker, post_only(Side::Bid, 5, 5, PostOnlyRejection::Reject), &mut ()),
        Err(EngineError::PostOnlyWouldCross)
    );
}

#[test]
fn cancelling_unknown_orders_and_funding_unknown_seats_fail() {
    let mut market = market();
    let seat = funded_seat(&mut market, 1);
    let id = rest(&mut market, seat, Side::Bid, 100, 1);
    market.cancel_order(seat, &id).unwrap();
    assert_eq!(market.cancel_order(seat, &id), Err(EngineError::OrderNotFound));
    assert_eq!(market.reduce_order(seat, &id, BaseLots(1)), Err(EngineError::OrderNotFound));
    assert_eq!(
        market.deposit(NO_SEAT, BaseLots(1), QuoteLots(1)),
        Err(EngineError::SeatNotFound)
    );
    assert_eq!(
        market.withdraw(seat, BaseLots(0), QuoteLots(2_000_000_000)),
        Err(EngineError::InsufficientQuoteFunds)
    );
    assert_eq!(
        market.deposit(seat, BaseLots(u64::MAX), QuoteLots(0)),
        Err(EngineError::Overflow)
    );
}

#[test]
fn engine_errors_say_what_went_wrong() {
    assert_eq!(EngineError::SeatTableFull.message(), "trader table is at capacity");
    assert_eq!(EngineError::InvalidFeeRate.message(), "fee rate exceeds 100%");
    assert_eq!(
        EngineError::InvalidLotConfig(LotConfigError::ZeroTickSize).message(),
        "invalid lot config: tick_size_in_quote_lots_per_base_unit must be non-zero"
    );
}

#[test]
fn reducing_by_at_least_what_rests_is_a_cancel() {
    let (mut reduced, mut cancelled) = (market(), market());
    for (market, reduce) in [(&mut reduced, true), (&mut cancelled, false)] {
        let seat = funded_seat(market, 1);
        rest(market, seat, Side::Bid, 100, 7);
        let id = queue(market, Side::Bid)[0];
        let removed = if reduce {
            market.reduce_order(seat, &id, BaseLots(9))
        } else {
            market.cancel_order(seat, &id)
        };
        assert_eq!(removed, Ok(BaseLots(7)));
    }
    let (mut left, mut right) = (Vec::new(), Vec::new());
    reduced.put(&mut left);
    cancelled.put(&mut right);
    assert_eq!(left, right);
}

#[test]
fn lifetime_fees_survive_a_sweep() {
    let mut market = market_with_fee(100);
    let maker = funded_seat(&mut market, 1);
    let taker = funded_seat(&mut market, 2);
    rest(&mut market, maker, Side::Ask, 1_000, 10);
    let packet = OrderPacket::fill_or_kill(Side::Bid, Ticks(1_000), BaseLots(10));
    let outcome = market.place_order(taker, packet, &mut ()).unwrap();
    // One percent of ten lots at a thousand ticks.
    assert_eq!(outcome.quote_lots_filled, QuoteLots(10_000));
    assert_eq!(outcome.fee_in_quote_lots, QuoteLots(100));
    assert_eq!(market.collect_fees(), Ok(QuoteLots(100)));
    assert_eq!(market.header().unclaimed_quote_lot_fees, QuoteLots(0));
    assert_eq!(market.header().collected_quote_lot_fees, QuoteLots(100));
    assert_eq!(market.collect_fees(), Ok(QuoteLots(0)));
}

#[test]
fn a_seat_with_a_worthless_bid_is_not_released() {
    let mut market = market();
    let key = TraderKey([1; 32]);
    let seat = market.claim_seat(key).unwrap();
    let packet = OrderPacket::limit(Side::Bid, Ticks(0), BaseLots(1));
    let outcome = market.place_order(seat, packet, &mut ()).unwrap();
    assert_eq!(outcome.base_lots_posted, BaseLots(1));
    // The bid locks nothing, so the balances alone would let the seat go.
    assert_eq!(locked(&market, seat), (0, 0));

    assert_eq!(market.release_seat(&key), Err(EngineError::SeatNotEmpty));
    assert_eq!(market.seat_index(&key), seat);
    assert_eq!(queue(&market, Side::Bid), vec![outcome.order_id.unwrap()]);
    assert_eq!(market.check_conservation(), Ok(()));

    market.cancel_order(seat, &outcome.order_id.unwrap()).unwrap();
    assert_eq!(market.release_seat(&key), Ok(()));
    assert_eq!(market.release_seat(&key), Err(EngineError::SeatNotFound));
    assert_eq!(market.check_conservation(), Ok(()));
}

#[test]
fn an_uncrossed_book_stays_uncrossed_unless_matching_stops_early() {
    let mut market = market();
    let maker = funded_seat(&mut market, 1);
    let taker = funded_seat(&mut market, 2);
    rest(&mut market, maker, Side::Ask, 100, 5);
    rest(&mut market, maker, Side::Ask, 101, 5);

    let through = |match_limit| OrderPacket::Limit {
        side: Side::Bid,
        price_in_ticks: Ticks(100),
        num_base_lots: BaseLots(8),
        self_trade_behavior: SelfTradeBehavior::DecrementTake,
        match_limit,
    };
    let outcome = market.place_order(taker, through(64), &mut ()).unwrap();
    assert_eq!(outcome.stop, MatchStop::PriceLimit);
    assert_eq!(outcome.base_lots_posted, BaseLots(3));
    assert!(!market.book().is_crossed());

    // A match limit of zero rests the whole order, wherever it stands.
    let mut early = market_with_fee(0);
    let maker = funded_seat(&mut early, 1);
    let taker = funded_seat(&mut early, 2);
    rest(&mut early, maker, Side::Ask, 100, 5);
    let outcome = early.place_order(taker, through(0), &mut ()).unwrap();
    assert_eq!(outcome.stop, MatchStop::MatchLimit);
    assert!(early.book().is_crossed());
}

#[test]
fn a_fill_whose_fee_cannot_be_recorded_moves_nothing() {
    let mut market = market_with_fee(100);
    let maker = funded_seat(&mut market, 1);
    let taker = funded_seat(&mut market, 2);
    rest(&mut market, maker, Side::Ask, 1_000, 10);
    let mut bytes = Vec::new();
    market.put(&mut bytes);
    // Lifetime fees with no room for one more.
    set_u64(&mut bytes, COLLECTED_AT, u64::MAX);

    let mut full = TestMarket::take(&bytes, 0);
    assert_eq!(full.header().collected_quote_lot_fees, QuoteLots(u64::MAX));
    let packet = OrderPacket::fill_or_kill(Side::Bid, Ticks(1_000), BaseLots(10));
    assert_eq!(full.place_order(taker, packet, &mut ()), Err(EngineError::Overflow));
    assert_eq!(full.check_conservation(), Ok(()));
    let mut after = Vec::new();
    full.put(&mut after);
    assert_eq!(after, bytes);
}
