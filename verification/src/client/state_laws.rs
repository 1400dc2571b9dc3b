//! What an observer can rely on when it reads a decoded market: what a level, a sweep, a
//! depth and a lookup say of the orders and seats they were read from.

use vstd::prelude::*;

#[allow(unused_imports)]
use super::state::{
    idle_seats, is_idle, leading_size, levels_of, owns_any, seat_held, swept, top_levels, total_size,
};
use super::state::{BookOrder, Level, Seat};
use crate::engine::TraderKey;
use crate::order::Side;
#[allow(unused_imports)]
use crate::quantities::lots::lemma_value_is_natural;
use crate::quantities::{BaseLots, LotConfig, Ticks};

verus! {

// ---------------------------------------------------------------------------------
// Sums along a side
// ---------------------------------------------------------------------------------

/// The size of the orders from place `from` up to, and without, place `to`.
pub open spec fn size_between(orders: Seq<BookOrder>, from: int, to: int) -> int
    decreases to - from,
{
    if from >= to {
        0
    } else {
        size_between(orders, from, to - 1) + orders[to - 1].num_base_lots.0
    }
}

/// The quote lots that `size` base lots cost at `price`: one base lot costs `price` times
/// the tick, over the base lots in a unit.
pub open spec fn worth(config: LotConfig, price: Ticks, size: int) -> int {
    (price.0 * (config.tick_size_in_quote_lots_per_base_unit as int
        / config.base_lots_per_base_unit as int)) * size
}

/// What taking the first `n` orders whole costs.
pub open spec fn cost_of_first(config: LotConfig, orders: Seq<BookOrder>, n: int) -> int
    decreases n,
{
    if n <= 0 {
        0
    } else {
        cost_of_first(config, orders, n - 1) + worth(
            config,
            orders[n - 1].id.price_in_ticks,
            orders[n - 1].num_base_lots.0 as int,
        )
    }
}

/// Sums over a part do not depend on what follows it.
proof fn lemma_size_of_prefix(orders: Seq<BookOrder>, longer: Seq<BookOrder>, from: int, to: int)
    requires
        0 <= from,
        to <= orders.len() <= longer.len(),
        forall|i: int| 0 <= i < orders.len() ==> #[trigger] orders[i] == longer[i],
    ensures
        size_between(orders, from, to) == size_between(longer, from, to),
    decreases to - from,
{
    if from < to {
        lemma_size_of_prefix(orders, longer, from, to - 1);
        assert(orders[to - 1] == longer[to - 1]);
    }
}

/// A size is never negative, and grows along a side.
proof fn lemma_size_grows(orders: Seq<BookOrder>, from: int, mid: int, to: int)
    requires
        from <= mid <= to,
    ensures
        0 <= size_between(orders, from, mid) <= size_between(orders, from, to),
        size_between(orders, from, to) == size_between(orders, from, mid) + size_between(
            orders,
            mid,
            to,
        ),
    decreases to - from,
{
    if mid < to {
        lemma_size_grows(orders, from, mid, to - 1);
    } else if from < mid {
        lemma_size_grows(orders, from, mid - 1, to - 1);
    }
}

/// The first order, and then those behind it.
proof fn lemma_size_from_front(orders: Seq<BookOrder>, to: int)
    requires
        1 <= to <= orders.len(),
    ensures
        size_between(orders, 0, to) == orders[0].num_base_lots.0 + size_between(
            orders.drop_first(),
            0,
            to - 1,
        ),
    decreases to,
{
    if to > 1 {
        lemma_size_from_front(orders, to - 1);
        assert(orders.drop_first()[to - 2] == orders[to - 1]);
    } else {
        assert(size_between(orders, 0, 0) == 0);
    }
}

/// The first order, and then those behind it.
proof fn lemma_cost_from_front(config: LotConfig, orders: Seq<BookOrder>, n: int)
    requires
        1 <= n <= orders.len(),
    ensures
        cost_of_first(config, orders, n) == worth(
            config,
            orders[0].id.price_in_ticks,
            orders[0].num_base_lots.0 as int,
        ) + cost_of_first(config, orders.drop_first(), n - 1),
    decreases n,
{
    if n > 1 {
        lemma_cost_from_front(config, orders, n - 1);
        assert(orders.drop_first()[n - 2] == orders[n - 1]);
    } else {
        assert(cost_of_first(config, orders, 0) == 0);
    }
}

/// A cost is never negative.
proof fn lemma_cost_is_natural(config: LotConfig, orders: Seq<BookOrder>, n: int)
    requires
        config.base_lots_per_base_unit > 0,
        n <= orders.len(),
    ensures
        0 <= cost_of_first(config, orders, n),
    decreases n,
{
    if n > 0 {
        lemma_cost_is_natural(config, orders, n - 1);
        lemma_value_is_natural(
            config,
            orders[n - 1].id.price_in_ticks,
            orders[n - 1].num_base_lots,
        );
    }
}

/// The total size of a side is the sum over all of its orders.
pub proof fn law_total_is_every_order(orders: Seq<BookOrder>)
    ensures
        total_size(orders) == size_between(orders, 0, orders.len() as int),
    decreases orders.len(),
{
    if orders.len() > 0 {
        law_total_is_every_order(orders.drop_first());
        lemma_size_from_front(orders, orders.len() as int);
    }
}

// ---------------------------------------------------------------------------------
// Levels
// ---------------------------------------------------------------------------------

/// A level stands for the orders from place `from` up to place `to`: all of them are at its
/// price, its count is how many they are, and its size is their sum, clamped at the largest.
pub open spec fn stands_for(level: Level, orders: Seq<BookOrder>, from: int, to: int) -> bool {
    &&& 0 <= from < to <= orders.len()
    &&& forall|i: int|
        from <= i < to ==> (#[trigger] orders[i]).id.price_in_ticks == level.price_in_ticks
    &&& level.order_count == to - from
    &&& level.base_lots.0 == (if size_between(orders, from, to) <= u64::MAX {
        size_between(orders, from, to)
    } else {
        u64::MAX as int
    })
}

/// Levels cut a side into runs: level `k` stands for the orders from place `cuts[k]` up to
/// place `cuts[k + 1]`, and the next level is at another price.
pub open spec fn cut_into(levels: Seq<Level>, orders: Seq<BookOrder>, cuts: Seq<int>) -> bool {
    &&& cuts.len() == levels.len() + 1
    &&& cuts[0] == 0
    &&& 0 <= cuts.last() <= orders.len()
    &&& forall|k: int|
        0 <= k < levels.len() ==> stands_for(#[trigger] levels[k], orders, cuts[k], cuts[k + 1])
    &&& forall|k: int|
        0 < k < levels.len() ==> (#[trigger] levels[k]).price_in_ticks
            != levels[k - 1].price_in_ticks
}

proof fn lemma_levels_are_cut(orders: Seq<BookOrder>) -> (cuts: Seq<int>)
    requires
        orders.len() <= u32::MAX,
    ensures
        cut_into(levels_of(orders), orders, cuts),
        cuts.last() == orders.len(),
    decreases orders.len(),
{
    if orders.len() == 0 {
        seq![0int]
    } else {
        let before = orders.drop_last();
        let n = before.len() as int;
        let order = orders.last();
        let old_levels = levels_of(before);
        let levels = levels_of(orders);
        let old_cuts = lemma_levels_are_cut(before);
        let m = old_levels.len() as int;
        assert forall|k: int| 0 <= k < m implies {
            &&& 0 <= #[trigger] old_cuts[k] <= n
            &&& size_between(before, old_cuts[k], old_cuts[k + 1]) == size_between(
                orders,
                old_cuts[k],
                old_cuts[k + 1],
            )
        } by {
            assert(stands_for(old_levels[k], before, old_cuts[k], old_cuts[k + 1]));
            lemma_size_of_prefix(before, orders, old_cuts[k], old_cuts[k + 1]);
        }
        if m > 0 && old_levels.last().price_in_ticks == order.id.price_in_ticks {
            let cuts = old_cuts.update(m, n + 1);
            assert(stands_for(old_levels[m - 1], before, old_cuts[m - 1], old_cuts[m]));
            assert(old_cuts[m - 1] >= 0);
            assert(size_between(orders, old_cuts[m - 1], n + 1) == size_between(
                orders,
                old_cuts[m - 1],
                n,
            ) + order.num_base_lots.0);
            assert forall|k: int| 0 <= k < levels.len() implies stands_for(
                #[trigger] levels[k],
                orders,
                cuts[k],
                cuts[k + 1],
            ) by {
                if k < m - 1 {
                    assert(levels[k] == old_levels[k]);
                    assert(stands_for(old_levels[k], before, old_cuts[k], old_cuts[k + 1]));
                    assert(old_cuts[k] >= 0);
                    assert forall|i: int| cuts[k] <= i < cuts[k + 1] implies (
                    #[trigger] orders[i]).id.price_in_ticks == levels[k].price_in_ticks by {
                        assert(before[i] == orders[i]);
                    }
                } else {
                    assert forall|i: int| cuts[k] <= i < cuts[k + 1] implies (
                    #[trigger] orders[i]).id.price_in_ticks == levels[k].price_in_ticks by {
                        if i < n {
                            assert(before[i] == orders[i]);
                        }
                    }
                }
            }
            assert forall|k: int| 0 < k < levels.len() implies (
            #[trigger] levels[k]).price_in_ticks != levels[k - 1].price_in_ticks by {
                assert(levels[k].price_in_ticks == old_levels[k].price_in_ticks);
                assert(levels[k - 1].price_in_ticks == old_levels[k - 1].price_in_ticks);
            }
            cuts
        } else {
            let cuts = old_cuts.push(n + 1);
            assert(size_between(orders, n, n + 1) == order.num_base_lots.0) by {
                assert(size_between(orders, n, n) == 0);
            }
            assert forall|k: int| 0 <= k < levels.len() implies stands_for(
                #[trigger] levels[k],
                orders,
                cuts[k],
                cuts[k + 1],
            ) by {
                if k < m {
                    assert(levels[k] == old_levels[k]);
                    assert(stands_for(old_levels[k], before, old_cuts[k], old_cuts[k + 1]));
                    assert(old_cuts[k] >= 0);
                    assert forall|i: int| cuts[k] <= i < cuts[k + 1] implies (
                    #[trigger] orders[i]).id.price_in_ticks == levels[k].price_in_ticks by {
                        assert(before[i] == orders[i]);
                    }
                }
            }
            assert forall|k: int| 0 < k < levels.len() implies (
            #[trigger] levels[k]).price_in_ticks != levels[k - 1].price_in_ticks by {
                if k < m {
                    assert(levels[k] == old_levels[k]);
                    assert(levels[k - 1] == old_levels[k - 1]);
                } else {
                    assert(levels[k - 1] == old_levels.last());
                }
            }
            cuts
        }
    }
}

/// The levels shown of a side, up to `depth` of them: every level stands for all the orders
/// of its run, with their number and their summed size, and nothing is left out before the
/// depth is reached.
pub proof fn law_levels_stand_for_their_orders(orders: Seq<BookOrder>, depth: nat)
    requires
        orders.len() <= u32::MAX,
    ensures
        shows(top_levels(orders, depth as int), orders, depth),
{
    let levels = levels_of(orders);
    let shown = top_levels(orders, depth as int);
    let cuts = lemma_levels_are_cut(orders);
    if levels.len() <= depth {
        assert(cut_into(shown, orders, cuts));
    } else {
        let d = depth as int;
        let kept = cuts.take(d + 1);
        assert(stands_for(levels[d], orders, cuts[d], cuts[d + 1]));
        assert forall|k: int| 0 <= k < shown.len() implies stands_for(
            #[trigger] shown[k],
            orders,
            kept[k],
            kept[k + 1],
        ) by {
            assert(stands_for(levels[k], orders, cuts[k], cuts[k + 1]));
        }
        assert forall|k: int| 0 < k < shown.len() implies (#[trigger] shown[k]).price_in_ticks
            != shown[k - 1].price_in_ticks by {
            assert(levels[k].price_in_ticks != levels[k - 1].price_in_ticks);
        }
        assert(cut_into(shown, orders, kept));
        assert(orders[cuts[d]].id.price_in_ticks == levels[d].price_in_ticks);
        if d > 0 {
            assert(levels[d].price_in_ticks != levels[d - 1].price_in_ticks);
        }
    }
}

/// What is shown of a side at some depth: runs of one price each, from the front. If an
/// order is left over, the depth is used up, and that order is at another price.
pub open spec fn shows(shown: Seq<Level>, orders: Seq<BookOrder>, depth: nat) -> bool {
    exists|cuts: Seq<int>|
        {
            &&& #[trigger] cut_into(shown, orders, cuts)
            &&& shown.len() <= depth
            &&& cuts.last() < orders.len() ==> {
                &&& shown.len() == depth
                &&& depth > 0 ==> orders[cuts.last()].id.price_in_ticks
                    != shown.last().price_in_ticks
            }
        }
}

/// How many orders some levels count.
pub open spec fn counted(levels: Seq<Level>) -> int
    decreases levels.len(),
{
    if levels.len() == 0 {
        0
    } else {
        counted(levels.drop_last()) + levels.last().order_count
    }
}

/// How much size some levels hold.
pub open spec fn held(levels: Seq<Level>) -> int
    decreases levels.len(),
{
    if levels.len() == 0 {
        0
    } else {
        held(levels.drop_last()) + levels.last().base_lots.0
    }
}

/// Over all levels nothing is lost: every order is counted once, and the sizes add up to
/// the size of the side, as long as that can be represented.
pub proof fn law_levels_account_for_the_side(orders: Seq<BookOrder>)
    requires
        orders.len() <= u32::MAX,
    ensures
        counted(levels_of(orders)) == orders.len(),
        size_between(orders, 0, orders.len() as int) <= u64::MAX ==> held(levels_of(orders))
            == size_between(orders, 0, orders.len() as int),
{
    let levels = levels_of(orders);
    let cuts = lemma_levels_are_cut(orders);
    lemma_levels_add_up(levels, orders, cuts, levels.len() as int);
    assert(levels.take(levels.len() as int) =~= levels);
}

proof fn lemma_levels_add_up(levels: Seq<Level>, orders: Seq<BookOrder>, cuts: Seq<int>, k: int)
    requires
        cut_into(levels, orders, cuts),
        0 <= k <= levels.len(),
    ensures
        0 <= cuts[k] <= orders.len(),
        counted(levels.take(k)) == cuts[k],
        size_between(orders, 0, orders.len() as int) <= u64::MAX ==> held(levels.take(k))
            == size_between(orders, 0, cuts[k]),
    decreases k,
{
    if k > 0 {
        lemma_levels_add_up(levels, orders, cuts, k - 1);
        assert(stands_for(levels[k - 1], orders, cuts[k - 1], cuts[k - 1 + 1]));
        assert(levels.take(k).drop_last() =~= levels.take(k - 1));
        lemma_size_grows(orders, 0, cuts[k - 1], cuts[k]);
        lemma_size_grows(orders, 0, cuts[k], orders.len() as int);
    }
}

/// Where prices get no better along a side, each level is strictly worse than the one
/// before it, so every price has one level and its level holds every order at it.
pub proof fn law_levels_go_from_best_to_worst(orders: Seq<BookOrder>, side: Side, k: int)
    requires
        orders.len() <= u32::MAX,
        forall|i: int, j: int|
            0 <= i < j < orders.len() ==> match side {
                Side::Bid => (#[trigger] orders[i]).id.price_in_ticks.0 >= (
                #[trigger] orders[j]).id.price_in_ticks.0,
                Side::Ask => orders[i].id.price_in_ticks.0 <= orders[j].id.price_in_ticks.0,
            },
        0 < k < levels_of(orders).len(),
    ensures
        match side {
            Side::Bid => levels_of(orders)[k].price_in_ticks.0 < levels_of(
                orders,
            )[k - 1].price_in_ticks.0,
            Side::Ask => levels_of(orders)[k].price_in_ticks.0 > levels_of(
                orders,
            )[k - 1].price_in_ticks.0,
        },
{
    let levels = levels_of(orders);
    let cuts = lemma_levels_are_cut(orders);
    assert(stands_for(levels[k - 1], orders, cuts[k - 1], cuts[k - 1 + 1]));
    assert(stands_for(levels[k], orders, cuts[k], cuts[k + 1]));
    assert(orders[cuts[k - 1]].id.price_in_ticks == levels[k - 1].price_in_ticks);
    assert(orders[cuts[k]].id.price_in_ticks == levels[k].price_in_ticks);
}

// ---------------------------------------------------------------------------------
// Sweeps
// ---------------------------------------------------------------------------------

/// The first `n` orders, and no fewer, hold `size`.
pub open spec fn are_swept(orders: Seq<BookOrder>, size: u64, n: int) -> bool {
    &&& 1 <= n <= orders.len()
    &&& size <= size_between(orders, 0, n)
    &&& n > 1 ==> size_between(orders, 0, n - 1) < size
}

/// What a sweep over the first `n` orders costs: all but the last are taken whole, and the
/// last for what is then left.
pub open spec fn cost_of_sweep(
    config: LotConfig,
    orders: Seq<BookOrder>,
    size: u64,
    n: int,
) -> int {
    cost_of_first(config, orders, n - 1) + worth(
        config,
        orders[n - 1].id.price_in_ticks,
        size - size_between(orders, 0, n - 1),
    )
}

/// A sweep takes orders whole from the front, and of the last one what is left of the size:
/// it costs what those parts cost at their own prices, and its worst price is the last
/// order's. It fails only if that cost cannot be represented.
pub proof fn law_sweeps_take_from_the_front(
    config: LotConfig,
    orders: Seq<BookOrder>,
    size: u64,
    n: int,
)
    requires
        config.base_lots_per_base_unit > 0,
        are_swept(orders, size, n),
    ensures
        swept(config, orders, size, 0) == (if cost_of_sweep(config, orders, size, n) <= u64::MAX {
            Some((cost_of_sweep(config, orders, size, n), orders[n - 1].id.price_in_ticks))
        } else {
            None
        }),
        0 <= size - size_between(orders, 0, n - 1) <= orders[n - 1].num_base_lots.0,
{
    lemma_swept(config, orders, size, n, 0);
    if n == 1 {
        assert(size_between(orders, 0, 0) == 0);
    }
}

/// A sweep never costs less than nothing.
pub(crate) proof fn lemma_sweep_is_natural(
    config: LotConfig,
    orders: Seq<BookOrder>,
    size: u64,
    n: int,
)
    requires
        config.base_lots_per_base_unit > 0,
        are_swept(orders, size, n),
    ensures
        0 <= cost_of_sweep(config, orders, size, n),
{
    lemma_cost_is_natural(config, orders, n - 1);
    lemma_size_grows(orders, 0, n - 1, n);
    if n == 1 {
        assert(size_between(orders, 0, 0) == 0);
    }
    let part = (size - size_between(orders, 0, n - 1)) as u64;
    lemma_value_is_natural(config, orders[n - 1].id.price_in_ticks, BaseLots(part));
}

/// A side that does not hold the size cannot be swept for it.
pub proof fn law_sweeps_need_the_size(config: LotConfig, orders: Seq<BookOrder>, size: u64)
    requires
        orders.len() == 0 || size_between(orders, 0, orders.len() as int) < size,
    ensures
        swept(config, orders, size, 0) is None,
{
    lemma_not_swept(config, orders, size, 0);
}

proof fn lemma_swept(
    config: LotConfig,
    orders: Seq<BookOrder>,
    size: u64,
    n: int,
    spent: int,
)
    requires
        config.base_lots_per_base_unit > 0,
        are_swept(orders, size, n),
        0 <= spent,
    ensures
        swept(config, orders, size, spent) == (if spent + cost_of_sweep(config, orders, size, n)
            <= u64::MAX {
            Some((spent + cost_of_sweep(config, orders, size, n), orders[n - 1].id.price_in_ticks))
        } else {
            None
        }),
    decreases n,
{
    let first = orders[0];
    let rest = orders.drop_first();
    let whole = first.num_base_lots.0;
    if n == 1 {
        assert(size_between(orders, 0, 0) == 0);
        assert(size_between(orders, 0, 1) == whole);
        assert(cost_of_first(config, orders, 0) == 0);
        lemma_value_is_natural(config, first.id.price_in_ticks, BaseLots(size));
    } else {
        lemma_size_from_front(orders, n - 1);
        lemma_size_from_front(orders, n);
        lemma_size_grows(rest, 0, 0, n - 2);
        assert(whole < size);
        let left = (size - whole) as u64;
        assert(are_swept(rest, left, n - 1));
        let value = worth(config, first.id.price_in_ticks, whole as int);
        lemma_value_is_natural(config, first.id.price_in_ticks, first.num_base_lots);
        lemma_cost_from_front(config, orders, n - 1);
        assert(rest[n - 2] == orders[n - 1]);
        assert(cost_of_sweep(config, orders, size, n) == value + cost_of_sweep(
            config,
            rest,
            left,
            n - 1,
        ));
        lemma_cost_is_natural(config, rest, n - 2);
        let part = (left - size_between(rest, 0, n - 2)) as u64;
        lemma_size_grows(rest, 0, n - 2, n - 1);
        if n == 2 {
            assert(size_between(rest, 0, 0) == 0);
        }
        lemma_value_is_natural(config, rest[n - 2].id.price_in_ticks, BaseLots(part));
        assert(0 <= cost_of_sweep(config, rest, left, n - 1));
        if spent + value <= u64::MAX {
            lemma_swept(config, rest, left, n - 1, spent + value);
        }
    }
}

proof fn lemma_not_swept(config: LotConfig, orders: Seq<BookOrder>, size: u64, spent: int)
    requires
        orders.len() == 0 || size_between(orders, 0, orders.len() as int) < size,
    ensures
        swept(config, orders, size, spent) is None,
    decreases orders.len(),
{
    if orders.len() > 0 {
        let rest = orders.drop_first();
        let whole = orders[0].num_base_lots.0;
        lemma_size_from_front(orders, orders.len() as int);
        lemma_size_grows(rest, 0, 0, rest.len() as int);
        let value = config.value(orders[0].id.price_in_ticks, BaseLots(whole));
        lemma_not_swept(config, rest, (size - whole) as u64, spent + value);
    }
}

// ---------------------------------------------------------------------------------
// Depth
// ---------------------------------------------------------------------------------

/// Whether a price is at or better than `limit` for somebody who takes from `side`.
pub open spec fn is_within(side: Side, price: Ticks, limit: Ticks) -> bool {
    match side {
        Side::Bid => limit.0 <= price.0,
        Side::Ask => price.0 <= limit.0,
    }
}

/// The depth to a limit is the size of the leading orders within it: everything up to the
/// first order beyond it.
pub proof fn law_depth_ends_at_the_limit(
    orders: Seq<BookOrder>,
    side: Side,
    limit: Ticks,
    n: int,
)
    requires
        0 <= n <= orders.len(),
        forall|i: int| 0 <= i < n ==> is_within(side, (#[trigger] orders[i]).id.price_in_ticks, limit),
        n < orders.len() ==> !is_within(side, orders[n].id.price_in_ticks, limit),
    ensures
        leading_size(orders, side, limit) == size_between(orders, 0, n),
    decreases n,
{
    if n > 0 {
        let rest = orders.drop_first();
        assert(is_within(side, orders[0].id.price_in_ticks, limit));
        assert forall|i: int| 0 <= i < n - 1 implies is_within(
            side,
            (#[trigger] rest[i]).id.price_in_ticks,
            limit,
        ) by {
            assert(rest[i] == orders[i + 1]);
        }
        law_depth_ends_at_the_limit(rest, side, limit, n - 1);
        lemma_size_from_front(orders, n);
    } else {
        assert(size_between(orders, 0, 0) == 0);
    }
}

// ---------------------------------------------------------------------------------
// Seats
// ---------------------------------------------------------------------------------

/// The seat found for a wallet is the first that the wallet holds, and none is found only
/// if it holds none.
pub proof fn law_seats_are_found_by_wallet(seats: Seq<Seat>, key: TraderKey)
    ensures
        match seat_held(seats, key) {
            Some(seat) => exists|i: int|
                {
                    &&& 0 <= i < seats.len()
                    &&& #[trigger] seats[i] == seat
                    &&& seat.key == key
                    &&& forall|j: int| 0 <= j < i ==> (#[trigger] seats[j]).key != key
                },
            None => forall|i: int| 0 <= i < seats.len() ==> (#[trigger] seats[i]).key != key,
        },
    decreases seats.len(),
{
    if seats.len() > 0 {
        let rest = seats.drop_first();
        law_seats_are_found_by_wallet(rest, key);
        if seats[0].key == key {
            assert(seats[0] == seat_held(seats, key)->0);
        } else if let Some(seat) = seat_held(rest, key) {
            let i = choose|i: int|
                {
                    &&& 0 <= i < rest.len()
                    &&& #[trigger] rest[i] == seat
                    &&& seat.key == key
                    &&& forall|j: int| 0 <= j < i ==> (#[trigger] rest[j]).key != key
                };
            assert(seats[i + 1] == seat);
            assert forall|j: int| 0 <= j < i + 1 implies (#[trigger] seats[j]).key != key by {
                if j > 0 {
                    assert(rest[j - 1] == seats[j]);
                }
            }
        } else {
            assert forall|i: int| 0 <= i < seats.len() implies (#[trigger] seats[i]).key
                != key by {
                if i > 0 {
                    assert(rest[i - 1] == seats[i]);
                }
            }
        }
    }
}

/// Whether a seat's four balances are zero and no order on either side carries its index.
pub open spec fn holds_nothing(seat: Seat, bids: Seq<BookOrder>, asks: Seq<BookOrder>) -> bool {
    &&& seat.state.base_lots_free.0 == 0
    &&& seat.state.base_lots_locked.0 == 0
    &&& seat.state.quote_lots_free.0 == 0
    &&& seat.state.quote_lots_locked.0 == 0
    &&& forall|i: int| 0 <= i < bids.len() ==> (#[trigger] bids[i]).trader_index != seat.index
    &&& forall|i: int| 0 <= i < asks.len() ==> (#[trigger] asks[i]).trader_index != seat.index
}

/// The evictable seats are those that hold nothing, each named once, in the order they
/// stand.
pub proof fn law_evictable_seats_hold_nothing(
    seats: Seq<Seat>,
    bids: Seq<BookOrder>,
    asks: Seq<BookOrder>,
)
    ensures
        idle_seats(seats, bids, asks) == seats.filter(
            |seat: Seat| holds_nothing(seat, bids, asks),
        ).map_values(|seat: Seat| seat.key),
    decreases seats.len(),
{
    let wanted = |seat: Seat| holds_nothing(seat, bids, asks);
    let named = |seat: Seat| seat.key;
    reveal(Seq::filter);
    if seats.len() > 0 {
        let last = seats.last();
        law_evictable_seats_hold_nothing(seats.drop_last(), bids, asks);
        if is_idle(last, bids, asks) {
            assert(wanted(last));
            assert(seats.filter(wanted).map_values(named) =~= seats.drop_last().filter(
                wanted,
            ).map_values(named).push(last.key));
        } else {
            assert(!wanted(last)) by {
                if wanted(last) {
                    assert(!owns_any(bids, last.index));
                    assert(!owns_any(asks, last.index));
                }
            }
        }
    } else {
        assert(seats.filter(wanted).map_values(named) =~= Seq::empty());
    }
}

} // verus!
