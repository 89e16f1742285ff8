//! What the order of the terms and of the processors does not decide.

use vstd::prelude::*;

use crate::affinity;
use crate::affinity::{AffinityTerm, EntryFilter};
use crate::mask;
use crate::topology;
use crate::topology::{CpuIslandCandidate, CpuIslandKey, CpuSetEntry};

verus! {

/// The two sequences hold the same, each as often as the other, in whatever order.
pub open spec fn reordered<T>(a: Seq<T>, b: Seq<T>) -> bool {
    a.to_multiset() == b.to_multiset()
}

spec fn same_members<T>(a: Seq<T>, b: Seq<T>) -> bool {
    forall|x: T|
        #![trigger a.contains(x)]
        #![trigger b.contains(x)]
        a.contains(x) <==> b.contains(x)
}

proof fn lemma_members<T>(a: Seq<T>, b: Seq<T>)
    requires
        reordered(a, b),
    ensures
        a.len() == b.len(),
        same_members(a, b),
        same_members(b, a),
{
    broadcast use vstd::seq_lib::group_to_multiset_ensures;

    assert forall|x: T| a.contains(x) <==> b.contains(x) by {
        assert(a.contains(x) <==> a.to_multiset().count(x) > 0);
        assert(b.contains(x) <==> b.to_multiset().count(x) > 0);
    }
    assert(a.len() == a.to_multiset().len());
    assert(b.len() == b.to_multiset().len());
}

proof fn lemma_filter_counts<T>(s: Seq<T>, p: spec_fn(T) -> bool, x: T)
    ensures
        s.filter(p).to_multiset().count(x) == if p(x) {
            s.to_multiset().count(x)
        } else {
            0
        },
    decreases s.len(),
{
    broadcast use vstd::seq_lib::group_to_multiset_ensures;

    reveal(Seq::filter);
    if s.len() > 0 {
        lemma_filter_counts(s.drop_last(), p, x);
        assert(s.drop_last().push(s.last()) =~= s);
    } else {
        assert(!s.contains(x));
        assert(!s.filter(p).contains(x));
    }
}

proof fn lemma_filter_reordered<T>(a: Seq<T>, b: Seq<T>, p: spec_fn(T) -> bool)
    requires
        reordered(a, b),
    ensures
        reordered(a.filter(p), b.filter(p)),
{
    assert forall|x: T| a.filter(p).to_multiset().count(x) == b.filter(p).to_multiset().count(
        x,
    ) by {
        lemma_filter_counts(a, p, x);
        lemma_filter_counts(b, p, x);
    }
    assert(a.filter(p).to_multiset() =~= b.filter(p).to_multiset());
}

proof fn lemma_map_reordered<T, U>(a: Seq<T>, b: Seq<T>, f: spec_fn(T) -> U)
    requires
        reordered(a, b),
    ensures
        reordered(a.map_values(f), b.map_values(f)),
    decreases a.len(),
{
    broadcast use vstd::seq_lib::group_to_multiset_ensures;

    lemma_members(a, b);
    if a.len() > 0 {
        let x = a.last();
        assert(a[a.len() - 1] == x);
        assert(b.contains(x));
        let j = choose|j: int| 0 <= j < b.len() && b[j] == x;
        let shorter = a.drop_last();
        let rest = b.remove(j);
        assert(shorter =~= a.remove(a.len() - 1));
        assert(reordered(shorter, rest));
        lemma_map_reordered(shorter, rest, f);
        assert(a.map_values(f) =~= shorter.map_values(f).push(f(x)));
        assert(b.map_values(f) =~= rest.map_values(f).insert(j, f(x)));
    } else {
        assert(a.map_values(f) =~= b.map_values(f));
    }
}

proof fn lemma_picked_reordered(a: Seq<&CpuSetEntry>, b: Seq<&CpuSetEntry>, filter: EntryFilter)
    requires
        reordered(a, b),
    ensures
        reordered(affinity::picked(a, filter), affinity::picked(b, filter)),
{
    lemma_filter_reordered(a, b, |entry: &CpuSetEntry| affinity::selects(filter, entry));
}

proof fn lemma_usable_counts(entries: Seq<CpuSetEntry>, entry: &CpuSetEntry)
    ensures
        affinity::usable(entries).to_multiset().count(entry) == if affinity::is_usable(*entry) {
            entries.to_multiset().count(*entry)
        } else {
            0
        },
    decreases entries.len(),
{
    broadcast use vstd::seq_lib::group_to_multiset_ensures;

    reveal(Seq::filter);
    let candidates = affinity::usable(entries);
    if entries.len() > 0 {
        let before = entries.drop_last();
        let last = entries.last();
        lemma_usable_counts(before, entry);
        assert(before.push(last) =~= entries);
        if affinity::is_usable(last) {
            assert(candidates =~= affinity::usable(before).push(&last));
        } else {
            assert(candidates =~= affinity::usable(before));
        }
    } else {
        assert(!entries.contains(*entry));
        assert(!candidates.contains(entry));
    }
}

proof fn lemma_usable_reordered(a: Seq<CpuSetEntry>, b: Seq<CpuSetEntry>)
    requires
        reordered(a, b),
    ensures
        reordered(affinity::usable(a), affinity::usable(b)),
{
    let x = affinity::usable(a).to_multiset();
    let y = affinity::usable(b).to_multiset();
    assert forall|entry: &CpuSetEntry| x.count(entry) == y.count(entry) by {
        lemma_usable_counts(a, entry);
        lemma_usable_counts(b, entry);
    }
    assert(x =~= y);
}

/// The classes do not depend on the order of the processors.
proof fn lemma_classes_reordered(a: Seq<&CpuSetEntry>, b: Seq<&CpuSetEntry>)
    requires
        reordered(a, b),
        a.len() > 0,
    ensures
        affinity::homogeneous(a) == affinity::homogeneous(b),
        affinity::lowest_class(a) == affinity::lowest_class(b),
        affinity::highest_class(a) == affinity::highest_class(b),
        affinity::at_most_two_classes(a) == affinity::at_most_two_classes(b),
{
    lemma_members(a, b);
    lemma_class_bounds(a, b);
    lemma_class_bounds(b, a);
    if affinity::homogeneous(a) {
        lemma_alike_reordered(a, b);
    }
    if affinity::homogeneous(b) {
        lemma_alike_reordered(b, a);
    }
    if affinity::at_most_two_classes(a) {
        assert forall|i: int| 0 <= i < b.len() implies (#[trigger] b[i]).efficiency_class
            == affinity::lowest_class(b) || b[i].efficiency_class == affinity::highest_class(b) by {
            assert(b.contains(b[i]));
            let j = choose|j: int| 0 <= j < a.len() && a[j] == b[i];
            assert(a[j].efficiency_class == b[i].efficiency_class);
        }
    }
    if affinity::at_most_two_classes(b) {
        assert forall|i: int| 0 <= i < a.len() implies (#[trigger] a[i]).efficiency_class
            == affinity::lowest_class(a) || a[i].efficiency_class == affinity::highest_class(a) by {
            assert(a.contains(a[i]));
            let j = choose|j: int| 0 <= j < b.len() && b[j] == a[i];
            assert(b[j].efficiency_class == a[i].efficiency_class);
        }
    }
}

proof fn lemma_class_bounds(a: Seq<&CpuSetEntry>, b: Seq<&CpuSetEntry>)
    requires
        a.len() > 0,
        a.len() == b.len(),
        same_members(a, b),
    ensures
        affinity::lowest_class(a) <= affinity::lowest_class(b),
        affinity::highest_class(a) >= affinity::highest_class(b),
{
    affinity::lemma_extreme_classes(a);
    affinity::lemma_extreme_classes(b);
    let low = choose|i: int|
        0 <= i < b.len() && (#[trigger] b[i]).efficiency_class == affinity::lowest_class(b);
    let high = choose|i: int|
        0 <= i < b.len() && (#[trigger] b[i]).efficiency_class == affinity::highest_class(b);
    assert(b.contains(b[low]) && b.contains(b[high]));
    let i = choose|i: int| 0 <= i < a.len() && a[i] == b[low];
    let j = choose|j: int| 0 <= j < a.len() && a[j] == b[high];
    assert(affinity::lowest_class(a) <= a[i].efficiency_class);
    assert(a[j].efficiency_class <= affinity::highest_class(a));
}

proof fn lemma_alike_reordered(a: Seq<&CpuSetEntry>, b: Seq<&CpuSetEntry>)
    requires
        affinity::homogeneous(a),
        same_members(a, b),
    ensures
        affinity::homogeneous(b),
{
    assert forall|i: int, j: int| 0 <= i < b.len() && 0 <= j < b.len() implies (
    #[trigger] b[i]).efficiency_class == (#[trigger] b[j]).efficiency_class by {
        assert(b.contains(b[i]) && b.contains(b[j]));
        let k = choose|k: int| 0 <= k < a.len() && a[k] == b[i];
        let l = choose|l: int| 0 <= l < a.len() && a[l] == b[j];
        assert(a[k].efficiency_class == a[l].efficiency_class);
    }
}

pub proof fn lemma_highest_index(entries: Seq<&CpuSetEntry>)
    ensures
        forall|i: int|
            0 <= i < entries.len() ==> (#[trigger] entries[i]).logical_index
                <= topology::highest_index(entries),
        entries.len() > 0 ==> exists|i: int|
            0 <= i < entries.len() && (#[trigger] entries[i]).logical_index
                == topology::highest_index(entries),
    decreases entries.len(),
{
    if entries.len() > 0 {
        let before = entries.drop_last();
        let last = entries.len() - 1;
        lemma_highest_index(before);
        assert forall|i: int| 0 <= i < entries.len() implies (#[trigger] entries[i]).logical_index
            <= topology::highest_index(entries) by {
            if i < last {
                assert(before[i] == entries[i]);
            }
        }
        if before.len() > 0 {
            let i = choose|i: int|
                0 <= i < before.len() && (#[trigger] before[i]).logical_index
                    == topology::highest_index(before);
            assert(entries[i] == before[i]);
        }
        assert(entries[last] == entries.last());
    }
}

proof fn lemma_highest_index_bound(a: Seq<&CpuSetEntry>, b: Seq<&CpuSetEntry>)
    requires
        a.len() == b.len(),
        same_members(a, b),
    ensures
        topology::highest_index(a) >= topology::highest_index(b),
{
    lemma_highest_index(a);
    lemma_highest_index(b);
    if b.len() > 0 {
        let i = choose|i: int|
            0 <= i < b.len() && (#[trigger] b[i]).logical_index == topology::highest_index(b);
        assert(b.contains(b[i]));
        let j = choose|j: int| 0 <= j < a.len() && a[j] == b[i];
        assert(a[j].logical_index <= topology::highest_index(a));
    }
}

proof fn lemma_islands_reordered(
    a: Seq<&CpuSetEntry>,
    b: Seq<&CpuSetEntry>,
    key: CpuIslandKey,
)
    requires
        reordered(a, b),
    ensures
        topology::on_island(a, key).len() == topology::on_island(b, key).len(),
        topology::highest_index(topology::on_island(a, key)) == topology::highest_index(
            topology::on_island(b, key),
        ),
{
    let x = topology::on_island(a, key);
    let y = topology::on_island(b, key);
    lemma_filter_reordered(a, b, |entry: &CpuSetEntry| topology::island_key(entry) == key);
    lemma_members(x, y);
    lemma_highest_index_bound(x, y);
    lemma_highest_index_bound(y, x);
}

proof fn lemma_sharing_reordered(a: Seq<&CpuSetEntry>, b: Seq<&CpuSetEntry>, key: CpuIslandKey)
    requires
        reordered(a, b),
        exists|i: int| 0 <= i < a.len() && topology::island_key(#[trigger] a[i]) == key,
    ensures
        exists|i: int| 0 <= i < b.len() && topology::island_key(#[trigger] b[i]) == key,
{
    lemma_members(a, b);
    let i = choose|i: int| 0 <= i < a.len() && topology::island_key(#[trigger] a[i]) == key;
    assert(a.contains(a[i]));
    let j = choose|j: int| 0 <= j < b.len() && b[j] == a[i];
    assert(topology::island_key(b[j]) == key);
}

proof fn lemma_description_reordered(
    island: CpuIslandCandidate,
    a: Seq<&CpuSetEntry>,
    b: Seq<&CpuSetEntry>,
    pool: Seq<&CpuSetEntry>,
    other_pool: Seq<&CpuSetEntry>,
)
    requires
        reordered(a, b),
        reordered(pool, other_pool),
    ensures
        topology::describes_island(island, a, pool) == topology::describes_island(
            island,
            b,
            other_pool,
        ),
{
    lemma_islands_reordered(a, b, island.key);
    if exists|i: int|
        0 <= i < pool.len() && topology::island_key(#[trigger] pool[i]) == island.key {
        lemma_sharing_reordered(pool, other_pool, island.key);
    }
    if exists|i: int|
        0 <= i < other_pool.len() && topology::island_key(#[trigger] other_pool[i]) == island.key {
        lemma_sharing_reordered(other_pool, pool, island.key);
    }
}

/// What the processors of `entries` say of the island `key`.
pub open spec fn described(
    key: CpuIslandKey,
    entries: Seq<&CpuSetEntry>,
    pool: Seq<&CpuSetEntry>,
) -> CpuIslandCandidate {
    CpuIslandCandidate {
        key,
        count: topology::on_island(entries, key).len() as usize,
        max_logical_index: topology::highest_index(topology::on_island(entries, key)),
        shares_with_higher_efficiency: exists|i: int|
            0 <= i < pool.len() && topology::island_key(#[trigger] pool[i]) == key,
    }
}

pub proof fn lemma_described(entries: Seq<&CpuSetEntry>, pool: Seq<&CpuSetEntry>, i: int)
    requires
        0 <= i < entries.len() <= usize::MAX,
    ensures
        topology::describes_island(
            described(topology::island_key(entries[i]), entries, pool),
            entries,
            pool,
        ),
{
    let key = topology::island_key(entries[i]);
    let wanted = |entry: &CpuSetEntry| topology::island_key(entry) == key;
    entries.lemma_filter_len(wanted);
    entries.lemma_filter_contains(wanted, i);
    assert(entries.filter(wanted).contains(entries[i]));
    assert(topology::on_island(entries, key) == entries.filter(wanted));
}

/// The island `best` is preferred to the islands of the first processors.
spec fn is_best_so_far(
    best: CpuIslandCandidate,
    entries: Seq<&CpuSetEntry>,
    pool: Seq<&CpuSetEntry>,
    n: int,
) -> bool {
    &&& topology::describes_island(best, entries, pool)
    &&& forall|i: int|
        0 <= i < n && topology::island_key(#[trigger] entries[i]) != best.key
            ==> topology::preferred_island(
            best,
            described(topology::island_key(entries[i]), entries, pool),
        )
}

proof fn lemma_best_so_far(entries: Seq<&CpuSetEntry>, pool: Seq<&CpuSetEntry>, n: int) -> (best:
    CpuIslandCandidate)
    requires
        0 < n <= entries.len() <= usize::MAX,
    ensures
        is_best_so_far(best, entries, pool, n),
    decreases n,
{
    let own = described(topology::island_key(entries[n - 1]), entries, pool);
    lemma_described(entries, pool, n - 1);
    if n == 1 {
        own
    } else {
        let former = lemma_best_so_far(entries, pool, n - 1);
        if former.key == own.key || topology::preferred_island(former, own) {
            former
        } else {
            own
        }
    }
}

/// One island is preferred to every other one.
pub proof fn lemma_best_island_exists(entries: Seq<&CpuSetEntry>, pool: Seq<&CpuSetEntry>)
    requires
        0 < entries.len() <= usize::MAX,
    ensures
        topology::is_best_island(topology::best_island(entries, pool), entries, pool),
{
    let best = lemma_best_so_far(entries, pool, entries.len() as int);
    assert forall|other: CpuIslandCandidate| #[trigger]
        topology::describes_island(other, entries, pool) && other.key
            != best.key implies topology::preferred_island(best, other) by {
        let key = other.key;
        let wanted = |entry: &CpuSetEntry| topology::island_key(entry) == key;
        let members = entries.filter(wanted);
        assert(topology::on_island(entries, key) == members);
        assert(members.len() > 0);
        entries.lemma_filter_pred(wanted, 0);
        entries.lemma_filter_contains_rev(wanted, members[0]);
        assert(entries.contains(members[0]));
        let i = choose|i: int| 0 <= i < entries.len() && entries[i] == members[0];
        assert(topology::island_key(entries[i]) == key);
        assert(other == described(key, entries, pool));
    }
    assert(topology::is_best_island(best, entries, pool));
}

proof fn lemma_best_island_reordered(
    a: Seq<&CpuSetEntry>,
    b: Seq<&CpuSetEntry>,
    pool: Seq<&CpuSetEntry>,
    other_pool: Seq<&CpuSetEntry>,
)
    requires
        0 < a.len() <= usize::MAX,
        reordered(a, b),
        reordered(pool, other_pool),
    ensures
        topology::best_island(a, pool) == topology::best_island(b, other_pool),
{
    let best = topology::best_island(a, pool);
    lemma_best_island_exists(a, pool);
    lemma_description_reordered(best, a, b, pool, other_pool);
    assert forall|other: CpuIslandCandidate| #[trigger]
        topology::describes_island(other, b, other_pool) && other.key
            != best.key implies topology::preferred_island(best, other) by {
        lemma_description_reordered(other, a, b, pool, other_pool);
    }
    topology::lemma_best_island(best, b, other_pool);
}

proof fn lemma_one_island_reordered(a: Seq<&CpuSetEntry>, b: Seq<&CpuSetEntry>)
    requires
        topology::one_island(a),
        same_members(a, b),
    ensures
        topology::one_island(b),
{
    assert forall|i: int, j: int|
        0 <= i < b.len() && 0 <= j < b.len() implies topology::island_key(#[trigger] b[i])
        == topology::island_key(#[trigger] b[j]) by {
        assert(b.contains(b[i]) && b.contains(b[j]));
        let k = choose|k: int| 0 <= k < a.len() && a[k] == b[i];
        let l = choose|l: int| 0 <= l < a.len() && a[l] == b[j];
        assert(topology::island_key(a[k]) == topology::island_key(a[l]));
    }
}

pub proof fn lemma_picked_len(candidates: Seq<&CpuSetEntry>, filter: EntryFilter)
    ensures
        affinity::picked(candidates, filter).len() <= candidates.len(),
{
    candidates.lemma_filter_len(|entry: &CpuSetEntry| affinity::selects(filter, entry));
}

/// The tiers hold the same processors, however the processors are ordered.
proof fn lemma_tiers_reordered(a: Seq<&CpuSetEntry>, b: Seq<&CpuSetEntry>)
    requires
        0 < a.len() <= usize::MAX,
        reordered(a, b),
    ensures
        reordered(affinity::performance_tier(a), affinity::performance_tier(b)),
        reordered(affinity::efficiency_tier(a), affinity::efficiency_tier(b)),
        reordered(affinity::low_power_tier(a), affinity::low_power_tier(b)),
        reordered(affinity::cache_tier(a), affinity::cache_tier(b)),
{
    let low = affinity::lowest_class(a);
    let high = affinity::highest_class(a);
    lemma_classes_reordered(a, b);
    lemma_picked_reordered(a, b, EntryFilter::PreferredCache);
    lemma_picked_reordered(a, b, EntryFilter::Class(high));
    lemma_picked_reordered(a, b, EntryFilter::Class(low));
    lemma_picked_reordered(a, b, EntryFilter::BetweenClasses(low, high));
    lemma_picked_reordered(a, b, EntryFilter::AboveClass(low));
    let lowest = affinity::lowest_tier(a);
    let other = affinity::lowest_tier(b);
    lemma_members(lowest, other);
    if topology::one_island(lowest) {
        lemma_one_island_reordered(lowest, other);
    }
    if topology::one_island(other) {
        lemma_one_island_reordered(other, lowest);
    }
    if !topology::one_island(lowest) {
        lemma_picked_len(a, EntryFilter::Class(low));
        assert(lowest.len() > 0);
        lemma_best_island_reordered(
            lowest,
            other,
            affinity::picked(a, EntryFilter::AboveClass(low)),
            affinity::picked(b, EntryFilter::AboveClass(low)),
        );
        let island = affinity::low_power_island(a);
        assert(island == affinity::low_power_island(b));
        lemma_picked_reordered(lowest, other, EntryFilter::OnIsland(island));
        lemma_picked_reordered(lowest, other, EntryFilter::OffIsland(island));
    }
}

proof fn lemma_indexes_reordered(a: Seq<&CpuSetEntry>, b: Seq<&CpuSetEntry>)
    requires
        reordered(a, b),
    ensures
        reordered(affinity::indexes(a), affinity::indexes(b)),
        forall|index: usize| #[trigger]
            affinity::indexes(a).contains(index) <==> affinity::indexes(b).contains(index),
        forall|index: usize| #[trigger]
            affinity::has_index(a, index) <==> affinity::has_index(b, index),
{
    lemma_map_reordered(a, b, |entry: &CpuSetEntry| entry.logical_index);
    lemma_members(affinity::indexes(a), affinity::indexes(b));
    lemma_members(a, b);
    assert forall|index: usize| #[trigger]
        affinity::has_index(a, index) <==> affinity::has_index(b, index) by {
        lemma_has_index(a, index);
        lemma_has_index(b, index);
    }
}

proof fn lemma_has_index(entries: Seq<&CpuSetEntry>, index: usize)
    ensures
        affinity::has_index(entries, index) <==> affinity::indexes(entries).contains(index),
{
    let all = affinity::indexes(entries);
    if affinity::has_index(entries, index) {
        let i = choose|i: int|
            0 <= i < entries.len() && (#[trigger] entries[i]).logical_index == index;
        assert(all[i] == index);
    }
    if all.contains(index) {
        let i = choose|i: int| 0 <= i < all.len() && all[i] == index;
        assert(entries[i].logical_index == index);
    }
}

/// A term stands for the same processors, however the processors are ordered.
proof fn lemma_term_reordered(
    term: AffinityTerm,
    a: Seq<&CpuSetEntry>,
    b: Seq<&CpuSetEntry>,
    index: usize,
)
    requires
        0 < a.len() <= usize::MAX,
        reordered(a, b),
    ensures
        affinity::term_indexes(term, a).contains(index) <==> affinity::term_indexes(
            term,
            b,
        ).contains(index),
{
    lemma_tiers_reordered(a, b);
    lemma_indexes_reordered(a, b);
    lemma_indexes_reordered(affinity::performance_tier(a), affinity::performance_tier(b));
    lemma_indexes_reordered(affinity::efficiency_tier(a), affinity::efficiency_tier(b));
    lemma_indexes_reordered(affinity::low_power_tier(a), affinity::low_power_tier(b));
    lemma_indexes_reordered(affinity::cache_tier(a), affinity::cache_tier(b));
    if let AffinityTerm::LogicalIndex(number) = term {
        assert(affinity::has_index(a, number) <==> affinity::has_index(b, number));
    }
}

/// In the order of their indexes the processors have the same indexes, whatever their order was.
proof fn lemma_sorted_indexes(a: Seq<&CpuSetEntry>, b: Seq<&CpuSetEntry>)
    requires
        reordered(a, b),
    ensures
        affinity::indexes(affinity::by_index(a)) == affinity::indexes(affinity::by_index(b)),
        affinity::by_index(a).len() == affinity::by_index(b).len(),
{
    let x = affinity::by_index(a);
    let y = affinity::by_index(b);
    affinity::lemma_by_index(a);
    affinity::lemma_by_index(b);
    lemma_members(a, b);
    lemma_indexes_reordered(x, y);
    let leq = |m: usize, n: usize| m <= n;
    assert(vstd::relations::total_ordering(leq));
    assert(vstd::relations::sorted_by(affinity::indexes(x), leq)) by {
        assert forall|i: int, j: int| 0 <= i < j < x.len() implies #[trigger] leq(
            affinity::indexes(x)[i],
            affinity::indexes(x)[j],
        ) by {
            assert(x[i].logical_index <= x[j].logical_index);
        }
    }
    assert(vstd::relations::sorted_by(affinity::indexes(y), leq)) by {
        assert forall|i: int, j: int| 0 <= i < j < y.len() implies #[trigger] leq(
            affinity::indexes(y)[i],
            affinity::indexes(y)[j],
        ) by {
            assert(y[i].logical_index <= y[j].logical_index);
        }
    }
    vstd::seq_lib::lemma_sorted_unique(affinity::indexes(x), affinity::indexes(y), leq);
}

proof fn lemma_first_alike(x: Seq<&CpuSetEntry>, y: Seq<&CpuSetEntry>, index: usize)
    requires
        affinity::indexes(x) == affinity::indexes(y),
    ensures
        affinity::indexes(affinity::first_with_index(x, index)) == affinity::indexes(
            affinity::first_with_index(y, index),
        ),
    decreases x.len(),
{
    assert(affinity::indexes(x).len() == x.len());
    assert(affinity::indexes(y).len() == y.len());
    if x.len() > 0 {
        assert(affinity::indexes(x)[0] == x[0].logical_index);
        assert(affinity::indexes(y)[0] == y[0].logical_index);
        let p = x.subrange(1, x.len() as int);
        let q = y.subrange(1, y.len() as int);
        assert(affinity::indexes(p) =~= affinity::indexes(x).subrange(1, x.len() as int));
        assert(affinity::indexes(q) =~= affinity::indexes(y).subrange(1, y.len() as int));
        lemma_first_alike(p, q, index);
        assert(affinity::indexes(seq![x[0]]) =~= affinity::indexes(seq![y[0]]));
    } else {
        assert(affinity::first_with_index(x, index) =~= affinity::first_with_index(y, index));
    }
}

proof fn lemma_every_second_alike(
    x: Seq<&CpuSetEntry>,
    y: Seq<&CpuSetEntry>,
    from: usize,
    steps: nat,
)
    requires
        affinity::indexes(x) == affinity::indexes(y),
    ensures
        affinity::indexes(affinity::every_second_down(x, from, steps)) == affinity::indexes(
            affinity::every_second_down(y, from, steps),
        ),
    decreases steps,
{
    if steps > 0 {
        lemma_first_alike(x, y, from);
        if from >= 2 {
            let next = (from - 2) as usize;
            let left = (steps - 1) as nat;
            lemma_every_second_alike(x, y, next, left);
            let p = affinity::first_with_index(x, from);
            let q = affinity::first_with_index(y, from);
            let r = affinity::every_second_down(x, next, left);
            let s = affinity::every_second_down(y, next, left);
            assert(affinity::indexes(p + r) =~= affinity::indexes(p) + affinity::indexes(r));
            assert(affinity::indexes(q + s) =~= affinity::indexes(q) + affinity::indexes(s));
        }
    } else {
        assert(affinity::every_second_down(x, from, steps) =~= affinity::every_second_down(
            y,
            from,
            steps,
        ));
    }
}

proof fn lemma_uniform_reordered(a: Seq<&CpuSetEntry>, b: Seq<&CpuSetEntry>)
    requires
        a.len() > 0,
        reordered(a, b),
    ensures
        affinity::indexes(affinity::uniform_low_power(a)) == affinity::indexes(
            affinity::uniform_low_power(b),
        ),
{
    let x = affinity::by_index(a);
    let y = affinity::by_index(b);
    let count = x.len() as int;
    affinity::lemma_by_index(a);
    lemma_sorted_indexes(a, b);
    assert(affinity::indexes(x)[count - 1] == x.last().logical_index);
    assert(affinity::indexes(y)[count - 1] == y.last().logical_index);
    lemma_every_second_alike(x, y, x.last().logical_index, 4);
    if 2 < count <= 8 {
        let from = if count == 8 {
            count - 4
        } else {
            count - 2
        };
        assert(affinity::indexes(x.subrange(from, count)) =~= affinity::indexes(x).subrange(
            from,
            count,
        ));
        assert(affinity::indexes(y.subrange(from, count)) =~= affinity::indexes(y).subrange(
            from,
            count,
        ));
    }
}

proof fn lemma_single_term(a: Seq<AffinityTerm>, b: Seq<AffinityTerm>, term: AffinityTerm)
    requires
        reordered(a, b),
        a == seq![term],
    ensures
        b == seq![term],
{
    lemma_members(a, b);
    assert(b.contains(b[0]));
    assert(a.contains(b[0]));
    assert(b =~= seq![term]);
}

/// As a whole the terms stand for the same processors, however terms and processors are ordered.
proof fn lemma_whole_reordered(
    terms: Seq<AffinityTerm>,
    other_terms: Seq<AffinityTerm>,
    a: Seq<&CpuSetEntry>,
    b: Seq<&CpuSetEntry>,
    index: usize,
)
    requires
        0 < a.len() <= usize::MAX,
        reordered(terms, other_terms),
        reordered(a, b),
    ensures
        affinity::whole_indexes(terms, a).contains(index) <==> affinity::whole_indexes(
            other_terms,
            b,
        ).contains(index),
{
    lemma_classes_reordered(a, b);
    lemma_members(terms, other_terms);
    lemma_uniform_reordered(a, b);
    lemma_picked_reordered(a, b, EntryFilter::OddIndex);
    lemma_indexes_reordered(
        affinity::picked(a, EntryFilter::OddIndex),
        affinity::picked(b, EntryFilter::OddIndex),
    );
    assert(affinity::is_efficiency_plus_low_power(terms)
        == affinity::is_efficiency_plus_low_power(other_terms));
    assert((terms == seq![AffinityTerm::Efficiency]) == (other_terms
        == seq![AffinityTerm::Efficiency])) by {
        if terms == seq![AffinityTerm::Efficiency] {
            lemma_single_term(terms, other_terms, AffinityTerm::Efficiency);
        }
        if other_terms == seq![AffinityTerm::Efficiency] {
            lemma_single_term(other_terms, terms, AffinityTerm::Efficiency);
        }
    }
    assert((terms == seq![AffinityTerm::LowPowerEfficiency]) == (other_terms
        == seq![AffinityTerm::LowPowerEfficiency])) by {
        if terms == seq![AffinityTerm::LowPowerEfficiency] {
            lemma_single_term(terms, other_terms, AffinityTerm::LowPowerEfficiency);
        }
        if other_terms == seq![AffinityTerm::LowPowerEfficiency] {
            lemma_single_term(other_terms, terms, AffinityTerm::LowPowerEfficiency);
        }
    }
}

proof fn lemma_sum_reordered(
    terms: Seq<AffinityTerm>,
    other_terms: Seq<AffinityTerm>,
    a: Seq<&CpuSetEntry>,
    b: Seq<&CpuSetEntry>,
    index: usize,
)
    requires
        0 < a.len() <= usize::MAX,
        reordered(terms, other_terms),
        reordered(a, b),
        affinity::summed_indexes(terms, a).contains(index),
    ensures
        affinity::summed_indexes(other_terms, b).contains(index),
{
    affinity::lemma_sum_members(terms, a, index);
    affinity::lemma_sum_members(other_terms, b, index);
    lemma_members(terms, other_terms);
    let i = choose|i: int|
        0 <= i < terms.len() && affinity::term_indexes(#[trigger] terms[i], a).contains(index);
    assert(terms.contains(terms[i]));
    let j = choose|j: int| 0 <= j < other_terms.len() && other_terms[j] == terms[i];
    lemma_term_reordered(terms[i], a, b, index);
    assert(affinity::term_indexes(other_terms[j], b).contains(index));
}

/// An expression asks for the same processors, however its terms and the processors are ordered.
proof fn lemma_requested_reordered(
    terms: Seq<AffinityTerm>,
    other_terms: Seq<AffinityTerm>,
    a: Seq<&CpuSetEntry>,
    b: Seq<&CpuSetEntry>,
    index: usize,
)
    requires
        0 < a.len() <= usize::MAX,
        reordered(terms, other_terms),
        reordered(a, b),
        affinity::requested_indexes(terms, a).contains(index),
    ensures
        affinity::requested_indexes(other_terms, b).contains(index),
{
    let whole = affinity::whole_indexes(terms, a);
    let sum = affinity::summed_indexes(terms, a);
    let other_whole = affinity::whole_indexes(other_terms, b);
    let other_sum = affinity::summed_indexes(other_terms, b);
    let all = whole + sum;
    let other = other_whole + other_sum;
    let k = choose|k: int| 0 <= k < all.len() && all[k] == index;
    if k < whole.len() {
        assert(whole[k] == index);
        lemma_whole_reordered(terms, other_terms, a, b, index);
        let l = choose|l: int| 0 <= l < other_whole.len() && other_whole[l] == index;
        assert(other[l] == index);
    } else {
        assert(sum[k - whole.len()] == index);
        lemma_sum_reordered(terms, other_terms, a, b, index);
        let l = choose|l: int| 0 <= l < other_sum.len() && other_sum[l] == index;
        assert(other[other_whole.len() + l] == index);
    }
}

/// Neither the order of the terms nor the order of the processors decides what an expression
/// resolves to: where it resolves to a mask, or to none, it resolves to the same in any order.
pub proof fn law_order_decides_nothing(
    terms: Seq<AffinityTerm>,
    other_terms: Seq<AffinityTerm>,
    entries: Seq<CpuSetEntry>,
    other_entries: Seq<CpuSetEntry>,
    mask: Option<usize>,
    found: Result<Option<usize>, String>,
)
    requires
        entries.len() <= usize::MAX,
        reordered(terms, other_terms),
        reordered(entries, other_entries),
        affinity::resolves_to(terms, entries, Ok(mask)),
        affinity::resolves_to(other_terms, other_entries, found),
    ensures
        found == Ok::<Option<usize>, String>(mask),
{
    let a = affinity::usable(entries);
    let b = affinity::usable(other_entries);
    let wanted = affinity::requested_indexes(terms, a);
    let other = affinity::requested_indexes(other_terms, b);
    lemma_members(entries, other_entries);
    lemma_usable_reordered(entries, other_entries);
    lemma_members(a, b);
    entries.lemma_filter_len(|entry: CpuSetEntry| affinity::is_usable(entry));
    assert(a.len() <= entries.len());
    assert forall|index: usize| #[trigger] wanted.contains(index) <==> other.contains(index) by {
        if wanted.contains(index) {
            lemma_requested_reordered(terms, other_terms, a, b, index);
        }
        if other.contains(index) {
            lemma_requested_reordered(other_terms, terms, b, a, index);
        }
    }
    assert(mask::all_fit(wanted));
    assert(mask::all_fit(other)) by {
        assert forall|i: int| 0 <= i < other.len() implies #[trigger] other[i] < usize::BITS by {
            assert(other.contains(other[i]));
            assert(wanted.contains(other[i]));
            let j = choose|j: int| 0 <= j < wanted.len() && wanted[j] == other[i];
            assert(wanted[j] < usize::BITS);
        }
    }
    if wanted.len() > 0 {
        assert(wanted.contains(wanted[0]));
        assert(other.len() > 0);
    }
    if other.len() > 0 {
        assert(other.contains(other[0]));
        assert(wanted.contains(other[0]));
    }
    if let (Some(first), Ok(Some(second))) = (mask, found) {
        assert forall|cpu: int| 0 <= cpu < usize::BITS implies #[trigger] mask::has_cpu(first, cpu)
            == mask::has_cpu(second, cpu) by {
            assert(wanted.contains(cpu as usize) <==> other.contains(cpu as usize));
        }
        mask::lemma_extensional(first, second);
    }
}

} // verus!
