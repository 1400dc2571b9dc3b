//! Adding something up over the entries of a tree.

use vstd::prelude::*;

use crate::tree::Entry;

verus! {

/// The sum of `weight` over `entries`.
pub open spec fn weigh<K, V>(entries: Seq<Entry<K, V>>, weight: spec_fn(Entry<K, V>) -> int) -> int
    decreases entries.len(),
{
    if entries.len() == 0 {
        0
    } else {
        weight(entries[0]) + weigh(entries.drop_first(), weight)
    }
}

/// An entry more, anywhere, adds its weight.
pub proof fn lemma_weigh_insert<K, V>(
    entries: Seq<Entry<K, V>>,
    i: int,
    entry: Entry<K, V>,
    weight: spec_fn(Entry<K, V>) -> int,
)
    requires
        0 <= i <= entries.len(),
    ensures
        weigh(entries.insert(i, entry), weight) == weigh(entries, weight) + weight(entry),
    decreases entries.len(),
{
    let longer = entries.insert(i, entry);
    if i == 0 {
        assert(longer.drop_first() =~= entries);
    } else {
        assert(longer.drop_first() =~= entries.drop_first().insert(i - 1, entry));
        lemma_weigh_insert(entries.drop_first(), i - 1, entry, weight);
    }
}

/// An entry less takes its weight away.
pub proof fn lemma_weigh_remove<K, V>(
    entries: Seq<Entry<K, V>>,
    i: int,
    weight: spec_fn(Entry<K, V>) -> int,
)
    requires
        0 <= i < entries.len(),
    ensures
        weigh(entries.remove(i), weight) == weigh(entries, weight) - weight(entries[i]),
{
    lemma_weigh_insert(entries.remove(i), i, entries[i], weight);
    assert(entries.remove(i).insert(i, entries[i]) =~= entries);
}

/// An entry changed trades its old weight for its new one.
pub proof fn lemma_weigh_update<K, V>(
    entries: Seq<Entry<K, V>>,
    i: int,
    entry: Entry<K, V>,
    weight: spec_fn(Entry<K, V>) -> int,
)
    requires
        0 <= i < entries.len(),
    ensures
        weigh(entries.update(i, entry), weight) == weigh(entries, weight) - weight(entries[i])
            + weight(entry),
{
    lemma_weigh_remove(entries, i, weight);
    lemma_weigh_insert(entries.remove(i), i, entry, weight);
    assert(entries.remove(i).insert(i, entry) =~= entries.update(i, entry));
}

/// With no negative weights, the sum is not negative.
pub proof fn lemma_weigh_natural<K, V>(
    entries: Seq<Entry<K, V>>,
    weight: spec_fn(Entry<K, V>) -> int,
)
    requires
        forall|i: int| 0 <= i < entries.len() ==> weight(#[trigger] entries[i]) >= 0,
    ensures
        weigh(entries, weight) >= 0,
    decreases entries.len(),
{
    if entries.len() > 0 {
        let rest = entries.drop_first();
        assert forall|i: int| 0 <= i < rest.len() implies weight(#[trigger] rest[i]) >= 0 by {
            assert(rest[i] == entries[i + 1]);
        }
        lemma_weigh_natural(rest, weight);
    }
}

/// With no negative weights, no entry outweighs the sum.
pub proof fn lemma_weigh_at_least<K, V>(
    entries: Seq<Entry<K, V>>,
    i: int,
    weight: spec_fn(Entry<K, V>) -> int,
)
    requires
        forall|j: int| 0 <= j < entries.len() ==> weight(#[trigger] entries[j]) >= 0,
        0 <= i < entries.len(),
    ensures
        weight(entries[i]) <= weigh(entries, weight),
{
    let rest = entries.remove(i);
    assert forall|j: int| 0 <= j < rest.len() implies weight(#[trigger] rest[j]) >= 0 by {
        assert(rest[j] == entries[if j < i {
            j
        } else {
            j + 1
        }]);
    }
    lemma_weigh_natural(rest, weight);
    lemma_weigh_remove(entries, i, weight);
}

/// With no negative weights, no two entries together outweigh the sum.
pub proof fn lemma_weigh_at_least_two<K, V>(
    entries: Seq<Entry<K, V>>,
    i: int,
    j: int,
    weight: spec_fn(Entry<K, V>) -> int,
)
    requires
        forall|k: int| 0 <= k < entries.len() ==> weight(#[trigger] entries[k]) >= 0,
        0 <= i < entries.len(),
        0 <= j < entries.len(),
        i != j,
    ensures
        weight(entries[i]) + weight(entries[j]) <= weigh(entries, weight),
{
    let rest = entries.remove(i);
    assert forall|k: int| 0 <= k < rest.len() implies weight(#[trigger] rest[k]) >= 0 by {
        assert(rest[k] == entries[if k < i {
            k
        } else {
            k + 1
        }]);
    }
    let k = if j < i {
        j
    } else {
        j - 1
    };
    assert(rest[k] == entries[j]);
    lemma_weigh_at_least(rest, k, weight);
    lemma_weigh_remove(entries, i, weight);
}

/// Weights that agree on every entry give one sum.
pub proof fn lemma_weigh_agree<K, V>(
    entries: Seq<Entry<K, V>>,
    a: spec_fn(Entry<K, V>) -> int,
    b: spec_fn(Entry<K, V>) -> int,
)
    requires
        forall|i: int| 0 <= i < entries.len() ==> a(#[trigger] entries[i]) == b(entries[i]),
    ensures
        weigh(entries, a) == weigh(entries, b),
    decreases entries.len(),
{
    if entries.len() > 0 {
        let rest = entries.drop_first();
        assert forall|i: int| 0 <= i < rest.len() implies a(#[trigger] rest[i]) == b(rest[i]) by {
            assert(rest[i] == entries[i + 1]);
        }
        lemma_weigh_agree(rest, a, b);
    }
}

/// If nothing weighs anything, neither does the sum.
pub proof fn lemma_weigh_nothing<K, V>(
    entries: Seq<Entry<K, V>>,
    weight: spec_fn(Entry<K, V>) -> int,
)
    requires
        forall|i: int| 0 <= i < entries.len() ==> weight(#[trigger] entries[i]) == 0,
    ensures
        weigh(entries, weight) == 0,
    decreases entries.len(),
{
    if entries.len() > 0 {
        let rest = entries.drop_first();
        assert forall|i: int| 0 <= i < rest.len() implies weight(#[trigger] rest[i]) == 0 by {
            assert(rest[i] == entries[i + 1]);
        }
        lemma_weigh_nothing(rest, weight);
    }
}

} // verus!
