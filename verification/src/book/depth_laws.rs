//! What the depth and liquidity queries say of the orders on a side, and what a queue holds.

use vstd::prelude::*;

#[allow(unused_imports)]
use super::view::{
    law_queue_is_price_time_priority, reached_price, size_at_or_better, total_size,
};
use super::{BookEntry, BookView};
use crate::order::{FIFOOrderId, Side};
use crate::quantities::Ticks;

verus! {

/// The size of the first `n` orders of a queue.
pub open spec fn size_of_first(queue: Seq<BookEntry>, n: int) -> int
    decreases n,
{
    if n <= 0 {
        0
    } else {
        size_of_first(queue, n - 1) + queue[n - 1].value.num_base_lots.0
    }
}

/// The first order, and then those behind it.
proof fn lemma_first_and_rest(queue: Seq<BookEntry>, n: int)
    requires
        1 <= n <= queue.len(),
    ensures
        size_of_first(queue, n) == queue[0].value.num_base_lots.0 + size_of_first(
            queue.drop_first(),
            n - 1,
        ),
    decreases n,
{
    if n > 1 {
        lemma_first_and_rest(queue, n - 1);
        assert(queue.drop_first()[n - 2] == queue[n - 1]);
    } else {
        assert(size_of_first(queue, 0) == 0);
    }
}

proof fn lemma_size_is_natural(queue: Seq<BookEntry>, n: int)
    ensures
        0 <= size_of_first(queue, n),
    decreases n,
{
    if n > 0 {
        lemma_size_is_natural(queue, n - 1);
    }
}

/// The total depth of a side is the sum over all of its orders.
pub proof fn law_total_depth_is_every_order(queue: Seq<BookEntry>)
    ensures
        total_size(queue) == size_of_first(queue, queue.len() as int),
    decreases queue.len(),
{
    if queue.len() > 0 {
        law_total_depth_is_every_order(queue.drop_first());
        lemma_first_and_rest(queue, queue.len() as int);
    }
}

/// Whether a price is at or better than `limit` for somebody who takes from `side`.
pub open spec fn is_within(side: Side, price: Ticks, limit: Ticks) -> bool {
    match side {
        Side::Bid => limit.0 <= price.0,
        Side::Ask => price.0 <= limit.0,
    }
}

/// The depth to a limit is the size of the orders within it, and those are the leading ones:
/// where the first `n` are within the limit and the others are not, it is the size of those
/// `n`.
pub proof fn law_depth_is_the_orders_within(
    queue: Seq<BookEntry>,
    side: Side,
    limit: Ticks,
    n: int,
)
    requires
        0 <= n <= queue.len(),
        forall|i: int|
            0 <= i < n ==> is_within(side, (#[trigger] queue[i]).key.price_in_ticks, limit),
        forall|i: int|
            n <= i < queue.len() ==> !is_within(
                side,
                (#[trigger] queue[i]).key.price_in_ticks,
                limit,
            ),
    ensures
        size_at_or_better(queue, side, limit) == size_of_first(queue, n),
    decreases queue.len(),
{
    if queue.len() > 0 {
        let rest = queue.drop_first();
        let k = if n > 0 {
            n - 1
        } else {
            0
        };
        assert forall|i: int| 0 <= i < k implies is_within(
            side,
            (#[trigger] rest[i]).key.price_in_ticks,
            limit,
        ) by {
            assert(rest[i] == queue[i + 1]);
        }
        assert forall|i: int| k <= i < rest.len() implies !is_within(
            side,
            (#[trigger] rest[i]).key.price_in_ticks,
            limit,
        ) by {
            assert(rest[i] == queue[i + 1]);
        }
        law_depth_is_the_orders_within(rest, side, limit, k);
        if n > 0 {
            assert(is_within(side, queue[0].key.price_in_ticks, limit));
            lemma_first_and_rest(queue, n);
        } else {
            assert(!is_within(side, queue[0].key.price_in_ticks, limit));
            assert(size_of_first(rest, 0) == 0);
            assert(size_of_first(queue, 0) == 0);
        }
    }
}

/// The orders of a side within a limit stand before those beyond it.
pub proof fn law_orders_within_lead(book: BookView, side: Side, limit: Ticks, i: int, j: int)
    requires
        book.wf(),
        0 <= i < j < book.queue(side).len(),
        is_within(side, book.queue(side)[j].key.price_in_ticks, limit),
    ensures
        is_within(side, book.queue(side)[i].key.price_in_ticks, limit),
{
    law_queue_is_price_time_priority(book, side);
    assert(book.queue(side)[i].key.outranks(book.queue(side)[j].key, side));
}

/// The price a sweep reaches is that of the order with which the sizes, added up from the
/// front, first come to the size that is swept.
pub proof fn law_sweep_price_is_where_the_size_is_met(queue: Seq<BookEntry>, size: int, n: int)
    requires
        1 <= n <= queue.len(),
        size <= size_of_first(queue, n),
        n > 1 ==> size_of_first(queue, n - 1) < size,
    ensures
        reached_price(queue, size) == Some(queue[n - 1].key.price_in_ticks),
    decreases n,
{
    if n > 1 {
        let rest = queue.drop_first();
        let first = queue[0].value.num_base_lots.0;
        lemma_first_and_rest(queue, n);
        lemma_first_and_rest(queue, n - 1);
        lemma_size_is_natural(rest, n - 2);
        law_sweep_price_is_where_the_size_is_met(rest, size - first, n - 1);
        assert(rest[n - 2] == queue[n - 1]);
    } else {
        assert(size_of_first(queue, 1) == size_of_first(queue, 0)
            + queue[0].value.num_base_lots.0);
        assert(size_of_first(queue, 0) == 0);
    }
}

/// A side that does not hold the size has no such price.
pub proof fn law_sweep_price_needs_the_size(queue: Seq<BookEntry>, size: int)
    requires
        queue.len() == 0 || size_of_first(queue, queue.len() as int) < size,
    ensures
        reached_price(queue, size) is None,
    decreases queue.len(),
{
    if queue.len() > 0 {
        let rest = queue.drop_first();
        lemma_first_and_rest(queue, queue.len() as int);
        lemma_size_is_natural(rest, rest.len() as int);
        law_sweep_price_needs_the_size(rest, size - queue[0].value.num_base_lots.0);
    }
}

/// A queue holds every order of its side, and nothing else: an order rests under an id with
/// that side's tag exactly if the queue has it, with what rests.
pub proof fn law_queues_hold_every_order(book: BookView, side: Side, id: FIFOOrderId)
    requires
        book.wf(),
        id.tagged_side() == side,
    ensures
        match book.get(id) {
            Some(order) => exists|i: int|
                0 <= i < book.queue(side).len() && (#[trigger] book.queue(side)[i]).key == id
                    && book.queue(side)[i].value == order,
            None => forall|i: int|
                0 <= i < book.queue(side).len() ==> (#[trigger] book.queue(side)[i]).key != id,
        },
        book.queue(side).len() == book.side(side).order.len(),
{
    let tree = book.side(side);
    let queue = book.queue(side);
    let n = tree.order.len() as int;
    assert(queue.len() == n);
    if tree.contains_key(id) {
        tree.lemma_present(id);
        let k = tree.position(id);
        let i = match side {
            Side::Bid => n - 1 - k,
            Side::Ask => k,
        };
        assert(queue[i] == tree.entry_at(k));
    } else {
        assert forall|i: int| 0 <= i < queue.len() implies (#[trigger] queue[i]).key != id by {
            let k = match side {
                Side::Bid => n - 1 - i,
                Side::Ask => i,
            };
            assert(queue[i] == tree.entry_at(k));
            assert(tree.key_at(k) != id);
        }
    }
}

/// A queue is in the order a taker meets it, in numbers: no price gets better along it, and
/// where two are the same, the older order stands first.
pub proof fn law_queues_go_from_best_to_worst(book: BookView, side: Side, i: int, j: int)
    requires
        book.wf(),
        0 <= i < j < book.queue(side).len(),
    ensures
        ({
            let (a, b) = (book.queue(side)[i].key, book.queue(side)[j].key);
            let (p, q) = (a.price_in_ticks.0, b.price_in_ticks.0);
            &&& side == Side::Bid ==> p >= q
            &&& side == Side::Ask ==> p <= q
            &&& p == q && side == Side::Bid ==> a.order_sequence_number > b.order_sequence_number
            &&& p == q && side == Side::Ask ==> a.order_sequence_number < b.order_sequence_number
        }),
{
    let tree = book.side(side);
    let n = tree.order.len() as int;
    let (k, l) = match side {
        Side::Bid => (n - 1 - i, n - 1 - j),
        Side::Ask => (i, j),
    };
    law_queue_is_price_time_priority(book, side);
    assert(book.queue(side)[i].key.outranks(book.queue(side)[j].key, side));
    assert(book.queue(side)[i] == tree.entry_at(k));
    assert(book.queue(side)[j] == tree.entry_at(l));
    assert(tree.key_at(k).tagged_side() == side);
    assert(tree.key_at(l).tagged_side() == side);
}

/// The touch of a side is the order at the front of its queue, if there is one.
pub proof fn law_the_touch_is_the_front(book: BookView, side: Side)
    ensures
        match book.best(side) {
            Some(entry) => book.queue(side).len() > 0 && book.queue(side)[0] == entry,
            None => book.queue(side).len() == 0,
        },
{
}

/// A book is crossed exactly if somebody would pay at least what somebody asks: a bid and an
/// ask rest, and the bid at the front is at or above the ask at the front.
pub proof fn law_crossed_books_can_be_matched(book: BookView)
    ensures
        book.crossed() <==> {
            &&& book.queue(Side::Bid).len() > 0
            &&& book.queue(Side::Ask).len() > 0
            &&& book.queue(Side::Bid)[0].key.price_in_ticks.0 >= book.queue(
                Side::Ask,
            )[0].key.price_in_ticks.0
        },
{
}

} // verus!
