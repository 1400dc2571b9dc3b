//! The book: priority, placement, depth, and its bytes.

use clob::book::{OrderBook, Reduction};
use clob::bytes::Plain;
use clob::order::{FIFOOrderId, RestingOrder, Side};
use clob::quantities::{BaseLots, LotConfig, Ticks};
use clob::tree::{Invariant, RedBlackTree};

type Book = OrderBook<32, 32>;
type WideBook = OrderBook<64, 64>;
type Tree = RedBlackTree<FIFOOrderId, RestingOrder, 64>;

fn prices(book: &Book, side: Side) -> Vec<u64> {
    let mut prices = Vec::new();
    let mut orders = book.iter_side(side);
    while let Some(entry) = orders.next() {
        prices.push(entry.key.price_in_ticks.as_u64());
    }
    prices
}

fn wide_keys(book: &WideBook, side: Side) -> Vec<FIFOOrderId> {
    let mut keys = Vec::new();
    let mut orders = book.iter_side(side);
    while let Some(entry) = orders.next() {
        keys.push(entry.key);
    }
    keys
}

fn book_bytes(book: &WideBook) -> Vec<u8> {
    let mut bytes = Vec::new();
    book.put(&mut bytes);
    bytes
}


#[test]
fn zeroed_bytes_are_a_valid_empty_book() {
    let bytes = vec![0u8; Book::size_in_bytes()];
    let book = Book::take(&bytes, 0);

    assert!(book.is_empty(Side::Bid));
    assert!(book.is_empty(Side::Ask));
    assert_eq!(book.best_bid(), None);
    assert_eq!(book.check(), Ok(()));
}

#[test]
fn best_bid_is_highest_price_then_oldest() {
    let mut book = Book::new_boxed();
    book.place(Side::Bid, Ticks(100), RestingOrder::new(0, BaseLots(1)));
    let first_at_top = book
        .place(Side::Bid, Ticks(101), RestingOrder::new(1, BaseLots(2)))
        .unwrap();
    book.place(Side::Bid, Ticks(101), RestingOrder::new(2, BaseLots(3)));
    book.place(Side::Bid, Ticks(99), RestingOrder::new(3, BaseLots(4)));

    let best = book.best_bid().unwrap();
    assert_eq!(best.key, first_at_top);
    assert_eq!(best.key.price_in_ticks, Ticks(101));
    assert_eq!(best.value.trader_index, 1);
}

#[test]
fn best_ask_is_lowest_price_then_oldest() {
    let mut book = Book::new_boxed();
    book.place(Side::Ask, Ticks(105), RestingOrder::new(0, BaseLots(1)));
    let first_at_top = book
        .place(Side::Ask, Ticks(103), RestingOrder::new(1, BaseLots(2)))
        .unwrap();
    book.place(Side::Ask, Ticks(103), RestingOrder::new(2, BaseLots(3)));

    let best = book.best_ask().unwrap();
    assert_eq!(best.key, first_at_top);
    assert_eq!(best.value.trader_index, 1);
}

#[test]
fn sides_share_one_sequence_counter() {
    let mut book = Book::new_boxed();
    let bid = book
        .place(Side::Bid, Ticks(100), RestingOrder::new(0, BaseLots(1)))
        .unwrap();
    let ask = book
        .place(Side::Ask, Ticks(101), RestingOrder::new(0, BaseLots(1)))
        .unwrap();

    assert_eq!(bid.sequence_number(), 0);
    assert_eq!(ask.sequence_number(), 1);
    assert_eq!(book.next_sequence_number(), 2);
}

#[test]
fn a_full_side_neither_rests_nor_burns_a_sequence_number() {
    let mut book = OrderBook::<2, 2>::new_boxed();
    for trader in 0..2 {
        assert!(
            book.place(Side::Bid, Ticks(100 + trader), RestingOrder::new(trader, BaseLots(1)))
                .is_some()
        );
    }

    let sequence_before = book.next_sequence_number();
    assert_eq!(
        book.place(Side::Bid, Ticks(200), RestingOrder::new(9, BaseLots(1))),
        None
    );
    assert_eq!(book.next_sequence_number(), sequence_before);

    // The other side is unaffected by a full book.
    assert!(book.place(Side::Ask, Ticks(300), RestingOrder::new(9, BaseLots(1))).is_some());
}

#[test]
fn cancel_routes_by_the_encoded_side() {
    let mut book = Book::new_boxed();
    let bid = book
        .place(Side::Bid, Ticks(100), RestingOrder::new(7, BaseLots(5)))
        .unwrap();
    let ask = book
        .place(Side::Ask, Ticks(101), RestingOrder::new(8, BaseLots(6)))
        .unwrap();

    assert_eq!(book.cancel(&bid).unwrap().trader_index, 7);
    assert_eq!(book.cancel(&ask).unwrap().trader_index, 8);
    assert_eq!(book.cancel(&bid), None);
    assert_eq!(book.check(), Ok(()));
}

#[test]
fn partial_reduction_keeps_the_order_and_its_priority() {
    let mut book = Book::new_boxed();
    let first = book
        .place(Side::Bid, Ticks(100), RestingOrder::new(0, BaseLots(10)))
        .unwrap();
    book.place(Side::Bid, Ticks(100), RestingOrder::new(1, BaseLots(10)));

    let reduction = book.reduce(&first, BaseLots(4)).unwrap();

    assert_eq!(
        reduction,
        Reduction {
            base_lots_removed: BaseLots(4),
            base_lots_remaining: BaseLots(6),
            removed: false,
        }
    );
    // Still at the front of the queue: reducing must not cost time priority.
    assert_eq!(book.best_bid().unwrap().key, first);
    assert_eq!(book.get(&first).unwrap().num_base_lots, BaseLots(6));
}

#[test]
fn over_reduction_clamps_and_removes() {
    let mut book = Book::new_boxed();
    let id = book
        .place(Side::Bid, Ticks(100), RestingOrder::new(0, BaseLots(3)))
        .unwrap();

    let reduction = book.reduce(&id, BaseLots(999)).unwrap();

    assert_eq!(
        reduction,
        Reduction {
            base_lots_removed: BaseLots(3),
            base_lots_remaining: BaseLots(0),
            removed: true,
        }
    );
    assert!(!book.contains(&id));
    assert_eq!(book.reduce(&id, BaseLots(1)), None);
}

#[test]
fn spread_and_cross_detection() {
    let mut book = Book::new_boxed();
    assert_eq!(book.spread_in_ticks(), None);
    assert!(!book.is_crossed());

    book.place(Side::Bid, Ticks(100), RestingOrder::new(0, BaseLots(1)));
    assert_eq!(book.spread_in_ticks(), None, "one-sided book has no spread");

    book.place(Side::Ask, Ticks(103), RestingOrder::new(1, BaseLots(1)));
    assert_eq!(book.spread_in_ticks(), Some(3));
    assert!(!book.is_crossed());

    book.place(Side::Bid, Ticks(105), RestingOrder::new(2, BaseLots(1)));
    assert!(book.is_crossed());
    assert_eq!(book.spread_in_ticks(), None, "crossed book has no non-negative spread");
}

#[test]
fn clear_empties_the_book_but_not_the_counter() {
    let mut book = Book::new_boxed();
    book.place(Side::Bid, Ticks(100), RestingOrder::new(0, BaseLots(1)));
    book.place(Side::Ask, Ticks(101), RestingOrder::new(1, BaseLots(1)));

    book.clear();

    assert!(book.is_empty(Side::Bid) && book.is_empty(Side::Ask));
    // Sequence numbers must never be reused, or a stale client could cancel an
    // order it does not own.
    assert_eq!(book.next_sequence_number(), 2);
    let reused = book
        .place(Side::Bid, Ticks(100), RestingOrder::new(0, BaseLots(1)))
        .unwrap();
    assert_eq!(reused.sequence_number(), 2);
}



/// Bids at 100/99/98 and asks at 102/103/104, ten lots each.
fn ladder() -> Box<Book> {
    let mut book = Book::new_boxed();
    for (index, price) in [100u64, 99, 98].into_iter().enumerate() {
        book.place(Side::Bid, Ticks(price), RestingOrder::new(index as u64, BaseLots(10)));
    }
    for (index, price) in [102u64, 103, 104].into_iter().enumerate() {
        book.place(Side::Ask, Ticks(price), RestingOrder::new(index as u64, BaseLots(10)));
    }
    book
}

#[test]
fn iteration_starts_at_the_touch_on_both_sides() {
    let book = ladder();
    let bids: Vec<u64> = prices(&book, Side::Bid);
    let asks: Vec<u64> = prices(&book, Side::Ask);

    assert_eq!(bids, vec![100, 99, 98]);
    assert_eq!(asks, vec![102, 103, 104]);
}

#[test]
fn depth_accumulates_only_marketable_levels() {
    let book = ladder();

    // A seller with a limit of 99 reaches the 100 and 99 bids, not the 98.
    assert_eq!(book.depth_at_or_better(Side::Bid, Ticks(99)), BaseLots(20));
    assert_eq!(book.depth_at_or_better(Side::Ask, Ticks(103)), BaseLots(20));
}

#[test]
fn an_unmarketable_limit_finds_no_depth() {
    let book = ladder();
    assert_eq!(book.depth_at_or_better(Side::Bid, Ticks(101)), BaseLots(0));
    assert_eq!(book.depth_at_or_better(Side::Ask, Ticks(101)), BaseLots(0));
}

#[test]
fn total_depth_covers_every_level() {
    let book = ladder();
    assert_eq!(book.total_depth(Side::Bid), BaseLots(30));
    assert_eq!(book.total_depth(Side::Ask), BaseLots(30));
}

#[test]
fn sweep_price_reports_the_worst_level_touched() {
    let book = ladder();

    assert_eq!(book.sweep_price(Side::Ask, BaseLots(10)), Some(Ticks(102)));
    // One lot past the top level reaches the next.
    assert_eq!(book.sweep_price(Side::Ask, BaseLots(11)), Some(Ticks(103)));
    assert_eq!(book.sweep_price(Side::Bid, BaseLots(30)), Some(Ticks(98)));
    assert_eq!(book.sweep_price(Side::Bid, BaseLots(31)), None);
}

#[test]
fn an_empty_book_has_no_depth_and_no_sweep_price() {
    let book = Book::new_boxed();
    assert_eq!(book.total_depth(Side::Bid), BaseLots(0));
    assert_eq!(book.sweep_price(Side::Ask, BaseLots(1)), None);
}

#[test]
fn sizes_are_exactly_the_header_plus_the_arena() {
    // 16-byte tree header; slots of 16 link bytes + 16-byte key + 32-byte value.
    const SLOT: usize = 64;
    assert_eq!(Tree::size_in_bytes(), 16 + 64 * SLOT);
    // Book header is the 8-byte sequence counter, then both trees back to back.
    assert_eq!(WideBook::size_in_bytes(), 8 + 2 * Tree::size_in_bytes());
}

#[test]
fn a_market_slot_is_one_cache_line() {
    // Not required for correctness, but it is why the arena is laid out this way: a
    // 64-byte slot means one node visit is one cache line, and tree depth translates
    // directly into cache misses.
    assert_eq!(Tree::size_in_bytes() - 16, 64 * 64);
}

#[test]
fn alignment_is_eight_so_account_data_can_be_cast_directly() {
    assert_eq!(std::mem::align_of::<WideBook>(), 8);
    assert_eq!(std::mem::align_of::<Tree>(), 8);
    assert_eq!(std::mem::align_of::<FIFOOrderId>(), 8);
    assert_eq!(std::mem::align_of::<RestingOrder>(), 8);
    assert_eq!(std::mem::align_of::<LotConfig>(), 8);
}

#[test]
fn a_zeroed_account_is_a_usable_market() {
    // This is exactly what `SystemProgram::CreateAccount` hands back: zeroed bytes.
    let bytes = vec![0u8; WideBook::size_in_bytes()];
    let mut book = WideBook::take(&bytes, 0);

    assert_eq!(book.check(), Ok(()));
    assert!(book.is_empty(Side::Bid) && book.is_empty(Side::Ask));

    // No initialization instruction ran; the book is immediately usable.
    let id = book
        .place(Side::Bid, Ticks(100), RestingOrder::new(0, BaseLots(5)))
        .expect("a zeroed book has full capacity");
    assert_eq!(book.best_bid().unwrap().key, id);
}

#[test]
fn mutations_land_in_the_underlying_bytes() {
    let mut bytes = vec![0u8; WideBook::size_in_bytes()];

    let id = {
        let mut book = WideBook::take(&bytes, 0);
        let id = book
            .place(Side::Ask, Ticks(250), RestingOrder::new(42, BaseLots(7)))
            .unwrap();
        bytes.clear();
        book.put(&mut bytes);
        id
    };

    // Simulating the next transaction: a fresh cast over the same account data.
    let reloaded = WideBook::take(&bytes, 0);

    assert_eq!(reloaded.check(), Ok(()));
    assert_eq!(reloaded.best_ask().unwrap().key, id);
    assert_eq!(reloaded.get(&id).unwrap().trader_index, 42);
    assert_eq!(reloaded.next_sequence_number(), 1);
}

#[test]
fn state_survives_a_full_serialize_deserialize_cycle() {
    let mut book = WideBook::new_boxed();
    let mut ids = Vec::new();
    for i in 0..20u64 {
        let side = if i % 2 == 0 { Side::Bid } else { Side::Ask };
        let price = if side == Side::Bid { 100 - i } else { 200 + i };
        ids.push(
            book.place(side, Ticks(price), RestingOrder::new(i, BaseLots(i + 1)))
                .unwrap(),
        );
    }
    for id in ids.iter().step_by(3) {
        book.cancel(id);
    }

    let bytes = book_bytes(&book);
    let restored = WideBook::take(&bytes, 0);

    assert_eq!(restored.check(), Ok(()));
    assert_eq!(restored.best_bid().map(|e| e.key), book.best_bid().map(|e| e.key));
    assert_eq!(restored.total_depth(Side::Bid), book.total_depth(Side::Bid));
    assert_eq!(restored.total_depth(Side::Ask), book.total_depth(Side::Ask));
    assert_eq!(
        wide_keys(&restored, Side::Bid),
        wide_keys(&book, Side::Bid)
    );
}

#[test]
fn cancelled_orders_leave_recoverable_bytes_in_the_arena() {
    // Documenting a real consequence of not zeroing freed slots: the data is
    // unreachable through the tree, but still present in the account. Anything that
    // must actually be erased has to be overwritten explicitly.
    let mut book = WideBook::new_boxed();
    let id = book
        .place(Side::Bid, Ticks(100), RestingOrder::new(0xDEAD_BEEF, BaseLots(1)))
        .unwrap();
    book.cancel(&id);

    assert!(!book.contains(&id));
    assert_eq!(book.check(), Ok(()));

    let bytes = book_bytes(&book);
    let needle = 0xDEAD_BEEFu64.to_le_bytes();
    assert!(
        bytes.windows(needle.len()).any(|w| w == needle),
        "expected the cancelled trader index to remain in the arena"
    );
}

#[test]
fn lot_config_survives_a_raw_cast_and_revalidates() {
    let config = LotConfig::new(1_000, 1_000, 1_000_000, 1).unwrap();
    let mut bytes = Vec::new();
    config.put(&mut bytes);
    let restored = LotConfig::take(&bytes, 0);

    assert_eq!(restored, config);
    assert_eq!(restored.validate(), Ok(()));

    // A cast bypasses the constructor, so corrupt bytes must still be caught.
    let mut corrupt = bytes;
    corrupt[8..16].copy_from_slice(&1_500u64.to_le_bytes());
    let corrupt = LotConfig::take(&corrupt, 0);
    assert!(corrupt.validate().is_err(), "revalidation missed a bad tick size");
}

#[test]
fn a_misfiled_order_is_caught() {
    // An order on the bid tree whose id says it is an ask.
    let mut book = Book::new_boxed();
    book.place(Side::Bid, Ticks(100), RestingOrder::new(0, BaseLots(1)));
    let mut bytes = Vec::new();
    book.put(&mut bytes);
    let key_at = 8 + 16 + 16;
    bytes[key_at + 8..key_at + 16].copy_from_slice(&7u64.to_le_bytes());
    assert_eq!(Book::take(&bytes, 0).check(), Err(Invariant::BstOrderViolation));
}

#[test]
fn equal_prices_are_first_in_first_out_on_both_sides() {
    let mut book = Book::new_boxed();
    let mut ids = Vec::new();
    for trader in 0..4u64 {
        ids.push(book.place(Side::Bid, Ticks(100), RestingOrder::new(trader, BaseLots(1))).unwrap());
    }
    for id in &ids {
        assert_eq!(book.best_bid().unwrap().key, *id);
        book.cancel(id);
    }
    let mut ids = Vec::new();
    for trader in 0..4u64 {
        ids.push(book.place(Side::Ask, Ticks(100), RestingOrder::new(trader, BaseLots(1))).unwrap());
    }
    for id in &ids {
        assert_eq!(book.best_ask().unwrap().key, *id);
        book.cancel(id);
    }
}

#[test]
fn depth_is_clamped_rather_than_wrapped() {
    let mut book = Book::new_boxed();
    for trader in 0..2u64 {
        book.place(Side::Ask, Ticks(100), RestingOrder::new(trader, BaseLots(u64::MAX)));
    }
    assert_eq!(book.total_depth(Side::Ask), BaseLots(u64::MAX));
    assert_eq!(book.depth_at_or_better(Side::Ask, Ticks(100)), BaseLots(u64::MAX));
}
