//! What a book holds, side by side.

use vstd::prelude::*;

use crate::order::{FIFOOrderId, RestingOrder, Side, MAX_SEQUENCE_NUMBER};
use crate::quantities::{BaseLots, Ticks};
use crate::tree::{Entry, TreeKey, TreeView};

verus! {

/// An entry in either side of the book.
pub type BookEntry = Entry<FIFOOrderId, RestingOrder>;

/// One side's tree, as its contents.
pub type SideView = TreeView<FIFOOrderId, RestingOrder>;

/// The contents of both sides, and the next sequence number.
#[verifier::ext_equal]
pub struct BookView {
    /// The bid tree.
    pub bids: SideView,
    /// The ask tree.
    pub asks: SideView,
    /// Next raw sequence number to issue.
    pub next_sequence: u64,
}

impl BookView {
    /// A book that was never written to.
    pub open spec fn blank(bids: nat, asks: nat) -> Self {
        BookView {
            bids: TreeView::blank(bids, RestingOrder::lasting(0, BaseLots(0))),
            asks: TreeView::blank(asks, RestingOrder::lasting(0, BaseLots(0))),
            next_sequence: 0,
        }
    }

    /// The tree of one side.
    pub open spec fn side(self, side: Side) -> SideView {
        match side {
            Side::Bid => self.bids,
            Side::Ask => self.asks,
        }
    }

    /// The book with the tree of one side replaced.
    pub open spec fn with_side(self, side: Side, tree: SideView) -> Self {
        match side {
            Side::Bid => BookView { bids: tree, ..self },
            Side::Ask => BookView { asks: tree, ..self },
        }
    }

    /// The orders on `side` in the sequence a taker consumes them: bids descending by
    /// price, asks ascending, and the oldest first within a price.
    pub open spec fn queue(self, side: Side) -> Seq<BookEntry> {
        match side {
            Side::Bid => self.bids.entries().reverse(),
            Side::Ask => self.asks.entries(),
        }
    }

    /// The best order on `side`.
    pub open spec fn best(self, side: Side) -> Option<BookEntry> {
        if self.queue(side).len() == 0 {
            None
        } else {
            Some(self.queue(side)[0])
        }
    }

    /// Whether the best bid is at or above the best ask.
    pub open spec fn crossed(self) -> bool {
        match (self.best(Side::Bid), self.best(Side::Ask)) {
            (Some(bid), Some(ask)) => bid.key.price_in_ticks.0 >= ask.key.price_in_ticks.0,
            _ => false,
        }
    }

    /// Every order of a side carries that side's tag and a sequence number already
    /// issued.
    pub open spec fn is_filed(tree: SideView, side: Side, next_sequence: u64) -> bool {
        forall|i: int|
            0 <= i < tree.order.len() ==> {
                &&& (#[trigger] tree.key_at(i)).tagged_side() == side
                &&& tree.key_at(i).raw_sequence() < next_sequence
            }
    }

    /// What every book built through its operations satisfies.
    pub open spec fn wf(self) -> bool {
        &&& self.bids.wf()
        &&& self.asks.wf()
        &&& self.bids.capacity() <= u32::MAX
        &&& self.asks.capacity() <= u32::MAX
        &&& BookView::is_filed(self.bids, Side::Bid, self.next_sequence)
        &&& BookView::is_filed(self.asks, Side::Ask, self.next_sequence)
        &&& self.next_sequence <= MAX_SEQUENCE_NUMBER + 1
    }

    /// The id the next order takes.
    pub open spec fn next_id(self, side: Side, price: Ticks) -> FIFOOrderId {
        FIFOOrderId::encoded(side, price, self.next_sequence)
    }

    /// The book after an order is offered: it rests if its side has room.
    pub open spec fn placed(self, side: Side, price: Ticks, order: RestingOrder) -> Self {
        if self.side(side).is_full() {
            self
        } else {
            let tree = self.side(side).with_new(self.next_id(side, price), order);
            BookView {
                next_sequence: (self.next_sequence + 1) as u64,
                ..self.with_side(side, tree)
            }
        }
    }

    /// The order with this id, if it rests.
    pub open spec fn get(self, id: FIFOOrderId) -> Option<RestingOrder> {
        self.side(id.tagged_side()).get(id)
    }

    /// Whether an order with this id rests.
    pub open spec fn contains(self, id: FIFOOrderId) -> bool {
        self.side(id.tagged_side()).contains_key(id)
    }

    /// The book without this order.
    pub open spec fn cancelled(self, id: FIFOOrderId) -> Self {
        self.with_side(id.tagged_side(), self.side(id.tagged_side()).removed(id))
    }

    /// The book with what rests under an id replaced.
    pub open spec fn with_order(self, id: FIFOOrderId, order: RestingOrder) -> Self {
        let tree = self.side(id.tagged_side());
        self.with_side(id.tagged_side(), tree.with_value(tree.handle_of(id), order))
    }

    /// The book with a resting order left at `size`, or removed if that is zero.
    pub open spec fn resized(self, id: FIFOOrderId, size: BaseLots) -> Self {
        if size.0 == 0 {
            self.cancelled(id)
        } else {
            self.with_order(
                id,
                RestingOrder { num_base_lots: size, ..self.get(id)->0 },
            )
        }
    }

    /// Both sides emptied. The sequence counter stays.
    pub open spec fn cleared(self) -> Self {
        BookView { bids: self.bids.cleared(), asks: self.asks.cleared(), ..self }
    }
}

/// The total size of some orders.
pub open spec fn total_size(queue: Seq<BookEntry>) -> int
    decreases queue.len(),
{
    if queue.len() == 0 {
        0
    } else {
        queue[0].value.num_base_lots.0 + total_size(queue.drop_first())
    }
}

/// Whether a taker hitting `side` with limit `limit` would accept `price`.
pub open spec fn marketable(side: Side, price: Ticks, limit: Ticks) -> bool {
    match side {
        Side::Bid => price.0 >= limit.0,
        Side::Ask => price.0 <= limit.0,
    }
}

/// The total size of the orders at prices at or better than `limit`.
pub open spec fn size_at_or_better(queue: Seq<BookEntry>, side: Side, limit: Ticks) -> int
    decreases queue.len(),
{
    if queue.len() == 0 {
        0
    } else {
        let head = queue[0];
        let rest = size_at_or_better(queue.drop_first(), side, limit);
        if marketable(side, head.key.price_in_ticks, limit) {
            head.value.num_base_lots.0 + rest
        } else {
            rest
        }
    }
}

/// The price of the order at which the sizes, added up along the queue, first reach
/// `size`.
pub open spec fn reached_price(queue: Seq<BookEntry>, size: int) -> Option<Ticks>
    decreases queue.len(),
{
    if queue.len() == 0 {
        None
    } else if queue[0].value.num_base_lots.0 >= size {
        Some(queue[0].key.price_in_ticks)
    } else {
        reached_price(queue.drop_first(), size - queue[0].value.num_base_lots.0)
    }
}

/// A size that may exceed what can be represented, clamped.
pub open spec fn clamped(size: int) -> BaseLots {
    if size <= u64::MAX {
        BaseLots(size as u64)
    } else {
        BaseLots(u64::MAX)
    }
}

/// Along a queue every order outranks those after it.
pub open spec fn in_priority_order(queue: Seq<BookEntry>, side: Side) -> bool {
    forall|i: int, j: int|
        0 <= i < j < queue.len() ==> (#[trigger] queue[i]).key.outranks(
            (#[trigger] queue[j]).key,
            side,
        )
}

/// The queue of either side is in price-time priority: best price first, and strictly
/// first come, first served within a price.
pub proof fn law_queue_is_price_time_priority(book: BookView, side: Side)
    requires
        book.wf(),
    ensures
        in_priority_order(book.queue(side), side),
{
    let tree = book.side(side);
    let queue = book.queue(side);
    let n = queue.len();
    assert forall|i: int, j: int| 0 <= i < j < n implies (#[trigger] queue[i]).key.outranks(
        (#[trigger] queue[j]).key,
        side,
    ) by {
        match side {
            Side::Bid => {
                assert(queue[i] == tree.entry_at(n - 1 - i));
                assert(queue[j] == tree.entry_at(n - 1 - j));
                assert(tree.key_at(n - 1 - j).rank() < tree.key_at(n - 1 - i).rank());
            },
            Side::Ask => {
                assert(queue[i] == tree.entry_at(i));
                assert(queue[j] == tree.entry_at(j));
                assert(tree.key_at(i).rank() < tree.key_at(j).rank());
            },
        }
    }
}

/// The best order is the one no other outranks: highest bid or lowest ask, and the oldest
/// at that price.
pub proof fn law_best_outranks_all(book: BookView, side: Side, i: int)
    requires
        book.wf(),
        0 < i < book.queue(side).len(),
    ensures
        book.best(side) is Some,
        (book.best(side)->0).key.outranks(book.queue(side)[i].key, side),
{
    law_queue_is_price_time_priority(book, side);
}

/// The next id was never used: no resting order has it.
pub proof fn lemma_next_id_is_new(book: BookView, side: Side, price: Ticks)
    requires
        book.wf(),
        book.next_sequence <= MAX_SEQUENCE_NUMBER,
    ensures
        !book.side(side).contains_key(book.next_id(side, price)),
        book.next_id(side, price).tagged_side() == side,
{
    let tree = book.side(side);
    let id = book.next_id(side, price);
    if tree.contains_key(id) {
        let i = choose|i: int| 0 <= i < tree.order.len() && #[trigger] tree.key_at(i) == id;
        assert(tree.key_at(i).raw_sequence() < book.next_sequence);
    }
}

/// Placing keeps the book well formed.
pub proof fn lemma_placed(book: BookView, side: Side, price: Ticks, order: RestingOrder)
    requires
        book.wf(),
        book.next_sequence <= MAX_SEQUENCE_NUMBER,
    ensures
        book.placed(side, price, order).wf(),
{
    let tree = book.side(side);
    let id = book.next_id(side, price);
    let after = book.placed(side, price, order);
    lemma_next_id_is_new(book, side, price);
    if !tree.is_full() {
        tree.lemma_with_new(id, order);
        let grown = tree.with_new(id, order);
        assert forall|i: int| 0 <= i < grown.order.len() implies {
            &&& (#[trigger] grown.key_at(i)).tagged_side() == side
            &&& grown.key_at(i).raw_sequence() < after.next_sequence
        } by {
            let p = tree.position(id);
            assert(grown.entries()[i] == grown.entry_at(i));
            if i != p {
                let k = if i < p {
                    i
                } else {
                    i - 1
                };
                assert(grown.entries()[i] == tree.entries()[k]);
                assert(tree.entries()[k] == tree.entry_at(k));
                assert(grown.key_at(i) == tree.key_at(k));
            }
        }
        let other = side.other();
        let rest = book.side(other);
        assert forall|i: int| 0 <= i < rest.order.len() implies {
            &&& (#[trigger] rest.key_at(i)).tagged_side() == other
            &&& rest.key_at(i).raw_sequence() < after.next_sequence
        } by {
            assert(rest.key_at(i).raw_sequence() < book.next_sequence);
        }
    }
}

/// Cancelling keeps the book well formed.
pub proof fn lemma_cancelled(book: BookView, id: FIFOOrderId)
    requires
        book.wf(),
    ensures
        book.cancelled(id).wf(),
{
    let tree = book.side(id.tagged_side());
    if tree.contains_key(id) {
        tree.lemma_present(id);
        let i = tree.position(id);
        tree.lemma_without_place(i);
        let rest = tree.without_place(i);
        assert forall|j: int| 0 <= j < rest.order.len() implies {
            &&& (#[trigger] rest.key_at(j)).tagged_side() == id.tagged_side()
            &&& rest.key_at(j).raw_sequence() < book.next_sequence
        } by {
            let k = if j < i {
                j
            } else {
                j + 1
            };
            assert(rest.entries()[j] == tree.entries()[k]);
            assert(rest.entries()[j] == rest.entry_at(j));
            assert(tree.entries()[k] == tree.entry_at(k));
            assert(rest.key_at(j) == tree.key_at(k));
        }
    }
}

/// Replacing what rests under an id keeps the book well formed.
pub proof fn lemma_with_order(book: BookView, id: FIFOOrderId, order: RestingOrder)
    requires
        book.wf(),
        book.contains(id),
    ensures
        book.with_order(id, order).wf(),
        book.with_order(id, order).get(id) == Some(order),
{
    let tree = book.side(id.tagged_side());
    tree.lemma_present(id);
    let h = tree.handle_of(id);
    tree.lemma_with_value(h, order);
    let after = tree.with_value(h, order);
    assert forall|j: int| 0 <= j < after.order.len() implies {
        &&& (#[trigger] after.key_at(j)).tagged_side() == id.tagged_side()
        &&& after.key_at(j).raw_sequence() < book.next_sequence
    } by {
        assert(after.key_at(j) == tree.key_at(j));
    }
}

/// Sequence numbers are unique across both sides and never issued twice: a new order's
/// number exceeds that of every order resting on either side.
pub proof fn law_sequence_numbers_are_unique(
    book: BookView,
    side: Side,
    price: Ticks,
    other: Side,
    i: int,
)
    requires
        book.wf(),
        book.next_sequence <= MAX_SEQUENCE_NUMBER,
        0 <= i < book.queue(other).len(),
    ensures
        book.queue(other)[i].key.raw_sequence() < book.next_id(side, price).raw_sequence(),
        book.next_id(side, price).tagged_side() == side,
{
    let tree = book.side(other);
    let n = tree.order.len();
    let k = match other {
        Side::Bid => n - 1 - i,
        Side::Ask => i,
    };
    assert(book.queue(other)[i] == tree.entry_at(k));
    assert(tree.key_at(k).raw_sequence() < book.next_sequence);
}

/// A later order never gets an earlier number, and a refused one gets none.
pub proof fn law_sequence_numbers_are_monotonic(
    book: BookView,
    side: Side,
    price: Ticks,
    order: RestingOrder,
)
    requires
        book.next_sequence <= MAX_SEQUENCE_NUMBER,
    ensures
        book.side(side).is_full() ==> book.placed(side, price, order) == book,
        !book.side(side).is_full() ==> book.placed(side, price, order).next_sequence
            == book.next_sequence + 1,
        book.cleared().next_sequence == book.next_sequence,
{
}

/// Reducing an order keeps its place in the queue, and every other order's.
pub proof fn law_reducing_keeps_the_queue(book: BookView, id: FIFOOrderId, size: BaseLots)
    requires
        book.wf(),
        book.contains(id),
        size.0 > 0,
    ensures
        book.resized(id, size).queue(id.tagged_side()).len() == book.queue(
            id.tagged_side(),
        ).len(),
        forall|i: int|
            0 <= i < book.queue(id.tagged_side()).len() ==> (#[trigger] book.resized(id, size).queue(
                id.tagged_side(),
            )[i]).key == book.queue(id.tagged_side())[i].key,
        book.resized(id, size).queue(id.tagged_side().other()) == book.queue(
            id.tagged_side().other(),
        ),
        book.resized(id, size).get(id) == Some(
            RestingOrder { num_base_lots: size, ..book.get(id)->0 },
        ),
{
    let side = id.tagged_side();
    let order = RestingOrder { num_base_lots: size, ..book.get(id)->0 };
    lemma_with_order(book, id, order);
    let tree = book.side(side);
    let after = book.resized(id, size);
    tree.lemma_present(id);
    tree.lemma_with_value(tree.handle_of(id), order);
    let q0 = book.queue(side);
    let q1 = after.queue(side);
    let n = q0.len();
    assert forall|i: int| 0 <= i < n implies (#[trigger] q1[i]).key == q0[i].key by {
        let k = match side {
            Side::Bid => n - 1 - i,
            Side::Ask => i,
        };
        assert(q0[i] == tree.entry_at(k));
        assert(q1[i] == after.side(side).entry_at(k));
        assert(after.side(side).key_at(k) == tree.key_at(k));
    }
}

/// An order cancelled is an order gone: it no longer rests, and every other order does as
/// before.
pub proof fn law_cancel_removes_only_its_order(
    book: BookView,
    id: FIFOOrderId,
    other: FIFOOrderId,
)
    requires
        book.wf(),
        id != other,
    ensures
        book.cancelled(id).get(id) is None,
        book.cancelled(id).get(other) == book.get(other),
{
    let tree = book.side(id.tagged_side());
    if tree.contains_key(id) {
        tree.lemma_present(id);
        tree.lemma_without_place(tree.position(id));
    }
}

/// A placed order rests under its new id, and every other order rests as before.
pub proof fn law_place_adds_only_its_order(
    book: BookView,
    side: Side,
    price: Ticks,
    order: RestingOrder,
    other: FIFOOrderId,
)
    requires
        book.wf(),
        book.next_sequence <= MAX_SEQUENCE_NUMBER,
        !book.side(side).is_full(),
        other != book.next_id(side, price),
    ensures
        book.get(book.next_id(side, price)) is None,
        book.placed(side, price, order).get(book.next_id(side, price)) == Some(order),
        book.placed(side, price, order).get(other) == book.get(other),
{
    let tree = book.side(side);
    let id = book.next_id(side, price);
    lemma_next_id_is_new(book, side, price);
    tree.lemma_with_new(id, order);
    tree.lemma_next_handle();
    if other.tagged_side() == side && tree.contains_key(other) {
        tree.lemma_present(other);
        assert(tree.with_new(id, order).handle_of(other) == tree.handle_of(other));
    }
}

} // verus!
