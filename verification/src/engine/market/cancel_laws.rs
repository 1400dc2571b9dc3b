//! Which orders a bounded cancel takes, and how many.

use vstd::prelude::*;

#[allow(unused_imports)]
use super::laws::{law_reducing_conserves, lemma_first_owned};
#[allow(unused_imports)]
use super::model::{first_owned, MarketModel};
#[allow(unused_imports)]
use super::order_laws::lemma_own_side;
use crate::book::BookEntry;
use crate::engine::error::EngineError;
use crate::engine::trader::SeatIndex;
use crate::order::Side;
use crate::quantities::BaseLots;

verus! {

/// How many orders of a queue belong to a seat.
pub open spec fn count_owned(queue: Seq<BookEntry>, seat: SeatIndex) -> nat
    decreases queue.len(),
{
    if queue.len() == 0 {
        0
    } else {
        let rest = count_owned(queue.drop_first(), seat);
        if queue[0].value.trader_index == seat {
            rest + 1
        } else {
            rest
        }
    }
}

/// A queue without the first `count` orders of a seat, or without all of them where it has
/// no more. Everything else keeps its place.
pub open spec fn without_owned(queue: Seq<BookEntry>, seat: SeatIndex, count: nat) -> Seq<
    BookEntry,
>
    decreases queue.len(),
{
    if queue.len() == 0 || count == 0 {
        queue
    } else if queue[0].value.trader_index == seat {
        without_owned(queue.drop_first(), seat, (count - 1) as nat)
    } else {
        seq![queue[0]] + without_owned(queue.drop_first(), seat, count)
    }
}

/// A bounded cancel takes the seat's best-priced orders first: as many as the limit allows
/// or as there are, whichever is less, and exactly those. The rest of the side keeps its
/// order, and the other side is left alone.
pub proof fn law_cancelling_takes_the_first(
    m: MarketModel,
    seat: SeatIndex,
    side: Side,
    limit: u32,
)
    requires
        m.is_conserved(),
    ensures
        ({
            let (after, result) = m.cancel_orders(seat, side, limit, 0);
            let owned = count_owned(m.book.queue(side), seat);
            &&& result == Ok::<u32, EngineError>(
                if owned < limit {
                    owned as u32
                } else {
                    limit
                },
            )
            &&& after.book.queue(side) == without_owned(m.book.queue(side), seat, limit as nat)
            &&& after.book.queue(side.other()) == m.book.queue(side.other())
        }),
{
    lemma_cancels_take_the_first(m, seat, side, limit, 0);
}

/// The same, with `done` orders gone already.
proof fn lemma_cancels_take_the_first(
    m: MarketModel,
    seat: SeatIndex,
    side: Side,
    limit: u32,
    done: u32,
)
    requires
        m.is_conserved(),
        done <= limit,
    ensures
        ({
            let (after, result) = m.cancel_orders(seat, side, limit, done);
            let queue = m.book.queue(side);
            let owned = count_owned(queue, seat);
            &&& result == Ok::<u32, EngineError>(
                if done + owned < limit {
                    (done + owned) as u32
                } else {
                    limit
                },
            )
            &&& after.book.queue(side) == without_owned(queue, seat, (limit - done) as nat)
            &&& after.book.queue(side.other()) == m.book.queue(side.other())
        }),
    decreases limit - done,
{
    let queue = m.book.queue(side);
    if done < limit {
        match m.best_of_seat(seat, side) {
            None => {
                lemma_nothing_owned(queue, seat, (limit - done) as nat);
            },
            Some(id) => {
                lemma_first_owned(m, seat, side);
                law_reducing_conserves(m, seat, id, BaseLots(0));
                let after = m.cancel_order(seat, id).0;
                let i = lemma_first_place(queue, seat, (limit - done - 1) as nat);
                lemma_cancel_leaves(m, seat, side, i);
                lemma_cancels_take_the_first(after, seat, side, limit, (done + 1) as u32);
            },
        }
    }
}

/// Cancelling a seat's best order takes it out of its queue, and touches no other.
proof fn lemma_cancel_leaves(m: MarketModel, seat: SeatIndex, side: Side, i: int)
    requires
        m.is_conserved(),
        0 <= i < m.book.queue(side).len(),
        m.best_of_seat(seat, side) == Some(m.book.queue(side)[i].key),
    ensures
        ({
            let after = m.cancel_order(seat, m.book.queue(side)[i].key).0;
            &&& after.book.queue(side) == m.book.queue(side).remove(i)
            &&& after.book.queue(side.other()) == m.book.queue(side.other())
        }),
{
    let tree = m.book.side(side);
    let queue = m.book.queue(side);
    let id = queue[i].key;
    let k = match side {
        Side::Bid => tree.order.len() - 1 - i,
        Side::Ask => i,
    };
    lemma_first_owned(m, seat, side);
    lemma_own_side(m, seat, side);
    law_reducing_conserves(m, seat, id, BaseLots(0));
    let after = m.cancel_order(seat, id).0;
    assert(queue[i] == tree.entry_at(k));
    tree.lemma_position_present(id, k);
    tree.lemma_without_place(k);
    assert(after.book == m.book.resized(id, BaseLots(0)));
    assert(after.book.side(side) == tree.without_place(k));
    match side {
        Side::Bid => {
            assert(tree.entries().remove(k).reverse() =~= tree.entries().reverse().remove(i));
        },
        Side::Ask => {},
    }
}

/// Where a seat has no order in a queue, there is nothing to count and nothing to take.
proof fn lemma_nothing_owned(queue: Seq<BookEntry>, seat: SeatIndex, count: nat)
    requires
        first_owned(queue, seat) is None,
    ensures
        count_owned(queue, seat) == 0,
        without_owned(queue, seat, count) == queue,
    decreases queue.len(),
{
    if queue.len() > 0 {
        lemma_nothing_owned(queue.drop_first(), seat, count);
        assert(seq![queue[0]] + queue.drop_first() =~= queue);
    }
}

/// Taking a seat's first order out of a queue leaves one fewer of them, and taking `count`
/// more leaves what taking one more than `count` would have left.
proof fn lemma_first_place(queue: Seq<BookEntry>, seat: SeatIndex, count: nat) -> (i: int)
    requires
        first_owned(queue, seat) is Some,
    ensures
        0 <= i < queue.len(),
        first_owned(queue, seat) == Some(queue[i].key),
        count_owned(queue, seat) == count_owned(queue.remove(i), seat) + 1,
        without_owned(queue, seat, count + 1) == without_owned(queue.remove(i), seat, count),
    decreases queue.len(),
{
    let rest = queue.drop_first();
    if queue[0].value.trader_index == seat {
        assert(queue.remove(0) =~= rest);
        0
    } else {
        let j = lemma_first_place(rest, seat, count);
        let left = queue.remove(j + 1);
        assert(left.drop_first() =~= rest.remove(j));
        assert(left =~= seq![queue[0]] + rest.remove(j));
        j + 1
    }
}

} // verus!
