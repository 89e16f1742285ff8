//! What holds of every affinity expression, on every machine.

use vstd::prelude::*;

use crate::affinity;
use crate::affinity::{AffinityExpression, AffinityTerm, AffinityTiers, EntryFilter};
use crate::mask;
use crate::topology;
use crate::topology::CpuSetEntry;

verus! {

/// One of the processors is of a lower class than `class`.
pub open spec fn has_slower(candidates: Seq<&CpuSetEntry>, class: u8) -> bool {
    exists|i: int| 0 <= i < candidates.len() && (#[trigger] candidates[i]).efficiency_class < class
}

/// One of the processors is of a higher class than `class`.
pub open spec fn has_faster(candidates: Seq<&CpuSetEntry>, class: u8) -> bool {
    exists|i: int| 0 <= i < candidates.len() && (#[trigger] candidates[i]).efficiency_class > class
}

/// Some processor is neither of the lowest nor of the highest class.
pub open spec fn has_three_classes(candidates: Seq<&CpuSetEntry>) -> bool {
    exists|i: int|
        0 <= i < candidates.len() && has_slower(
            candidates,
            (#[trigger] candidates[i]).efficiency_class,
        ) && has_faster(candidates, candidates[i].efficiency_class)
}

/// The processors share group, memory node and last-level cache.
pub open spec fn share_island(a: &CpuSetEntry, b: &CpuSetEntry) -> bool {
    a.group == b.group && a.numa_node == b.numa_node && a.last_level_cache_index
        == b.last_level_cache_index
}

proof fn lemma_extremes(candidates: Seq<&CpuSetEntry>, entry: &CpuSetEntry)
    requires
        candidates.contains(entry),
    ensures
        entry.efficiency_class == affinity::lowest_class(candidates) <==> !has_slower(
            candidates,
            entry.efficiency_class,
        ),
        entry.efficiency_class == affinity::highest_class(candidates) <==> !has_faster(
            candidates,
            entry.efficiency_class,
        ),
        affinity::homogeneous(candidates) <==> affinity::lowest_class(candidates)
            == affinity::highest_class(candidates),
        affinity::lowest_class(candidates) <= entry.efficiency_class <= affinity::highest_class(
            candidates,
        ),
        has_three_classes(candidates) <==> !affinity::at_most_two_classes(candidates),
{
    let low = affinity::lowest_class(candidates);
    let high = affinity::highest_class(candidates);
    let at = choose|i: int| 0 <= i < candidates.len() && candidates[i] == entry;
    affinity::lemma_extreme_classes(candidates);
    let lowest = choose|i: int|
        0 <= i < candidates.len() && (#[trigger] candidates[i]).efficiency_class == low;
    let highest = choose|i: int|
        0 <= i < candidates.len() && (#[trigger] candidates[i]).efficiency_class == high;
    assert(low <= candidates[at].efficiency_class <= high);
    assert forall|class: u8| has_slower(candidates, class) <==> low < class by {
        if low < class {
            assert(candidates[lowest].efficiency_class < class);
        }
    }
    assert forall|class: u8| has_faster(candidates, class) <==> class < high by {
        if class < high {
            assert(candidates[highest].efficiency_class > class);
        }
    }
    if affinity::homogeneous(candidates) {
        assert(candidates[lowest].efficiency_class == candidates[highest].efficiency_class);
    }
    if low == high {
        assert forall|i: int, j: int|
            0 <= i < candidates.len() && 0 <= j < candidates.len() implies (
        #[trigger] candidates[i]).efficiency_class == (
        #[trigger] candidates[j]).efficiency_class by {
            assert(low <= candidates[i].efficiency_class <= high);
            assert(low <= candidates[j].efficiency_class <= high);
        }
    }
    if !affinity::at_most_two_classes(candidates) {
        let i = choose|i: int|
            0 <= i < candidates.len() && !((#[trigger] candidates[i]).efficiency_class == low
                || candidates[i].efficiency_class == high);
        assert(has_slower(candidates, candidates[i].efficiency_class));
        assert(has_faster(candidates, candidates[i].efficiency_class));
    }
    if has_three_classes(candidates) {
        let i = choose|i: int|
            0 <= i < candidates.len() && has_slower(
                candidates,
                (#[trigger] candidates[i]).efficiency_class,
            ) && has_faster(candidates, candidates[i].efficiency_class);
        assert(low < candidates[i].efficiency_class < high);
    }
}

/// The classes decide the tiers. A performance processor has slower ones beside it and no faster
/// one. With three classes or more an efficient processor has both, and a low-power one has no
/// slower one: no processor is both. With two classes what has no slower one is efficient or
/// low-power, and what has is neither. With one class there are no such tiers. Whatever the
/// classes, the cache tier is what is marked for it.
pub proof fn law_classes_decide_the_tiers(
    candidates: &[&CpuSetEntry],
    tiers: AffinityTiers,
    entry: &CpuSetEntry,
)
    requires
        call_ensures(AffinityTiers::classify, (candidates,), Ok::<AffinityTiers, String>(tiers)),
        candidates@.contains(entry),
    ensures
        tiers.performance@.contains(entry) <==> has_slower(candidates@, entry.efficiency_class)
            && !has_faster(candidates@, entry.efficiency_class),
        has_three_classes(candidates@) ==> {
            &&& tiers.efficiency@.contains(entry) <==> has_slower(
                candidates@,
                entry.efficiency_class,
            ) && has_faster(candidates@, entry.efficiency_class)
            &&& tiers.low_power_efficiency@.contains(entry) <==> !has_slower(
                candidates@,
                entry.efficiency_class,
            )
            &&& !(tiers.efficiency@.contains(entry) && tiers.low_power_efficiency@.contains(entry))
        },
        !has_three_classes(candidates@) && has_faster(candidates@, entry.efficiency_class) ==> (
        tiers.efficiency@.contains(entry) || tiers.low_power_efficiency@.contains(entry)),
        !has_three_classes(candidates@) && has_slower(candidates@, entry.efficiency_class)
            ==> !tiers.efficiency@.contains(entry) && !tiers.low_power_efficiency@.contains(entry),
        !has_slower(candidates@, entry.efficiency_class) && !has_faster(
            candidates@,
            entry.efficiency_class,
        ) ==> tiers.performance@.len() == 0 && tiers.efficiency@.len() == 0
            && tiers.low_power_efficiency@.len() == 0,
        tiers.cache@.contains(entry) <==> entry.cache,
{
    let all = candidates@;
    let low = affinity::lowest_class(all);
    let high = affinity::highest_class(all);
    lemma_extremes(all, entry);
    affinity::lemma_picked(all, EntryFilter::Class(high));
    affinity::lemma_picked(all, EntryFilter::Class(low));
    affinity::lemma_picked(all, EntryFilter::BetweenClasses(low, high));
    affinity::lemma_picked(all, EntryFilter::PreferredCache);
    let island = affinity::low_power_island(all);
    affinity::lemma_picked(affinity::lowest_tier(all), EntryFilter::OnIsland(island));
    affinity::lemma_picked(affinity::lowest_tier(all), EntryFilter::OffIsland(island));
}

/// The tiers hold nothing but processors that were to be sorted, and only where there are none is
/// there nothing to sort.
pub proof fn law_tiers_hold_only_what_was_sorted(
    candidates: &[&CpuSetEntry],
    sorted: Result<AffinityTiers, String>,
    entry: &CpuSetEntry,
)
    requires
        call_ensures(AffinityTiers::classify, (candidates,), sorted),
    ensures
        sorted is Err <==> candidates@.len() == 0,
        sorted is Ok && (sorted->Ok_0.performance@.contains(entry)
            || sorted->Ok_0.efficiency@.contains(entry)
            || sorted->Ok_0.low_power_efficiency@.contains(entry) || sorted->Ok_0.cache@.contains(
            entry,
        )) ==> candidates@.contains(entry),
{
    let all = candidates@;
    let low = affinity::lowest_class(all);
    let high = affinity::highest_class(all);
    affinity::lemma_picked(all, EntryFilter::Class(high));
    affinity::lemma_picked(all, EntryFilter::Class(low));
    affinity::lemma_picked(all, EntryFilter::BetweenClasses(low, high));
    affinity::lemma_picked(all, EntryFilter::PreferredCache);
    let island = affinity::low_power_island(all);
    affinity::lemma_picked(affinity::lowest_tier(all), EntryFilter::OnIsland(island));
    affinity::lemma_picked(affinity::lowest_tier(all), EntryFilter::OffIsland(island));
}

/// A faster processor sits on the island of `entry`.
pub open spec fn is_shared_with_faster(candidates: Seq<&CpuSetEntry>, entry: &CpuSetEntry) -> bool {
    exists|i: int|
        0 <= i < candidates.len() && (#[trigger] candidates[i]).efficiency_class
            > entry.efficiency_class && share_island(candidates[i], entry)
}

/// All processors as slow as `entry` sit on its island.
pub open spec fn is_only_island(candidates: Seq<&CpuSetEntry>, entry: &CpuSetEntry) -> bool {
    forall|i: int|
        0 <= i < candidates.len() && (#[trigger] candidates[i]).efficiency_class
            == entry.efficiency_class ==> share_island(candidates[i], entry)
}

proof fn lemma_lowest_tier(candidates: Seq<&CpuSetEntry>, entry: &CpuSetEntry)
    requires
        candidates.contains(entry),
        !has_slower(candidates, entry.efficiency_class),
    ensures
        topology::one_island(affinity::lowest_tier(candidates)) <==> is_only_island(
            candidates,
            entry,
        ),
        affinity::lowest_tier(candidates).contains(entry),
{
    let low = affinity::lowest_class(candidates);
    let lowest = affinity::lowest_tier(candidates);
    lemma_extremes(candidates, entry);
    affinity::lemma_picked(candidates, EntryFilter::Class(low));
    assert(lowest.contains(entry));
    let at = choose|i: int| 0 <= i < lowest.len() && lowest[i] == entry;
    if topology::one_island(lowest) {
        assert forall|i: int|
            0 <= i < candidates.len() && (#[trigger] candidates[i]).efficiency_class
                == entry.efficiency_class implies share_island(candidates[i], entry) by {
            assert(candidates.contains(candidates[i]));
            assert(lowest.contains(candidates[i]));
            let j = choose|j: int| 0 <= j < lowest.len() && lowest[j] == candidates[i];
            assert(topology::island_key(lowest[j]) == topology::island_key(lowest[at]));
        }
    }
    if is_only_island(candidates, entry) {
        assert forall|i: int, j: int| 0 <= i < lowest.len() && 0 <= j < lowest.len() implies
            topology::island_key(#[trigger] lowest[i]) == topology::island_key(
            #[trigger] lowest[j],
        ) by {
            assert(lowest.contains(lowest[i]) && lowest.contains(lowest[j]));
            let a = choose|a: int| 0 <= a < candidates.len() && candidates[a] == lowest[i];
            let b = choose|b: int| 0 <= b < candidates.len() && candidates[b] == lowest[j];
            assert(share_island(candidates[a], entry) && share_island(candidates[b], entry));
        }
    }
}

/// With two classes the slow processors on one island are efficient and low-power alike. On
/// several islands each slow processor is one or the other: those of one island go together, and
/// one island is the low-power one.
pub proof fn law_slow_islands_part_the_tiers(
    candidates: &[&CpuSetEntry],
    tiers: AffinityTiers,
    a: &CpuSetEntry,
    b: &CpuSetEntry,
)
    requires
        call_ensures(AffinityTiers::classify, (candidates,), Ok::<AffinityTiers, String>(tiers)),
        candidates@.contains(a),
        candidates@.contains(b),
        !has_three_classes(candidates@),
        has_faster(candidates@, a.efficiency_class),
        has_faster(candidates@, b.efficiency_class),
    ensures
        is_only_island(candidates@, a) ==> tiers.efficiency@.contains(a)
            && tiers.low_power_efficiency@.contains(a),
        !is_only_island(candidates@, a) ==> (tiers.efficiency@.contains(a)
            <==> !tiers.low_power_efficiency@.contains(a)),
        share_island(a, b) ==> (tiers.low_power_efficiency@.contains(a)
            <==> tiers.low_power_efficiency@.contains(b)) && (tiers.efficiency@.contains(a)
            <==> tiers.efficiency@.contains(b)),
        tiers.low_power_efficiency@.contains(a) && tiers.low_power_efficiency@.contains(b)
            ==> share_island(a, b),
{
    let all = candidates@;
    lemma_slow(all, a);
    lemma_slow(all, b);
    lemma_lowest_tier(all, a);
    lemma_lowest_tier(all, b);
    let lowest = affinity::lowest_tier(all);
    let island = affinity::low_power_island(all);
    affinity::lemma_picked(lowest, EntryFilter::OnIsland(island));
    affinity::lemma_picked(lowest, EntryFilter::OffIsland(island));
    let i = choose|i: int| 0 <= i < lowest.len() && lowest[i] == a;
    let j = choose|j: int| 0 <= j < lowest.len() && lowest[j] == b;
    assert(lowest[i] == a && lowest[j] == b);
}

proof fn lemma_slow(candidates: Seq<&CpuSetEntry>, entry: &CpuSetEntry)
    requires
        candidates.contains(entry),
        !has_three_classes(candidates),
        has_faster(candidates, entry.efficiency_class),
    ensures
        !has_slower(candidates, entry.efficiency_class),
        !affinity::homogeneous(candidates),
        affinity::at_most_two_classes(candidates),
        entry.efficiency_class == affinity::lowest_class(candidates),
{
    lemma_extremes(candidates, entry);
    let at = choose|i: int| 0 <= i < candidates.len() && candidates[i] == entry;
    assert(candidates[at].efficiency_class == entry.efficiency_class);
}

/// Of several slow islands the low-power one is one that no faster processor shares, if there is
/// one; of equals in this it reaches the highest number.
pub proof fn law_low_power_island_stands_apart(
    candidates: &[&CpuSetEntry],
    tiers: AffinityTiers,
    a: &CpuSetEntry,
    b: &CpuSetEntry,
)
    requires
        call_ensures(AffinityTiers::classify, (candidates,), Ok::<AffinityTiers, String>(tiers)),
        candidates@.contains(a),
        candidates@.contains(b),
        !has_three_classes(candidates@),
        has_faster(candidates@, a.efficiency_class),
        has_faster(candidates@, b.efficiency_class),
        tiers.low_power_efficiency@.contains(a),
        !tiers.low_power_efficiency@.contains(b),
    ensures
        is_shared_with_faster(candidates@, a) ==> is_shared_with_faster(candidates@, b),
        is_shared_with_faster(candidates@, a) == is_shared_with_faster(candidates@, b)
            ==> exists|i: int|
            0 <= i < candidates@.len() && (#[trigger] candidates@[i]).efficiency_class
                == a.efficiency_class && share_island(candidates@[i], a)
                && candidates@[i].logical_index >= b.logical_index,
{
    let all = candidates@;
    lemma_slow(all, a);
    lemma_slow(all, b);
    lemma_lowest_tier(all, a);
    lemma_lowest_tier(all, b);
    let low = affinity::lowest_class(all);
    let lowest = affinity::lowest_tier(all);
    let pool = affinity::picked(all, EntryFilter::AboveClass(low));
    affinity::lemma_picked(all, EntryFilter::Class(low));
    affinity::lemma_picked(all, EntryFilter::AboveClass(low));
    let best = topology::best_island(lowest, pool);
    affinity::lemma_picked(lowest, EntryFilter::OnIsland(best.key));
    crate::affinity_order::lemma_picked_len(all, EntryFilter::Class(low));
    assert(all.len() == candidates.len());
    crate::affinity_order::lemma_best_island_exists(lowest, pool);
    assert(topology::is_best_island(best, lowest, pool));
    let j = choose|j: int| 0 <= j < lowest.len() && lowest[j] == b;
    crate::affinity_order::lemma_described(lowest, pool, j);
    let other = crate::affinity_order::described(topology::island_key(b), lowest, pool);
    assert(topology::preferred_island(best, other));
    lemma_sharing(all, low, a);
    lemma_sharing(all, low, b);
    let ours = topology::on_island(lowest, best.key);
    let theirs = topology::on_island(lowest, other.key);
    crate::affinity_order::lemma_highest_index(ours);
    crate::affinity_order::lemma_highest_index(theirs);
    let keep = |entry: &CpuSetEntry| topology::island_key(entry) == other.key;
    lowest.lemma_filter_contains(keep, j);
    let m = choose|m: int| 0 <= m < theirs.len() && theirs[m] == b;
    assert(theirs[m].logical_index <= topology::highest_index(theirs));
    let n = choose|n: int|
        0 <= n < ours.len() && (#[trigger] ours[n]).logical_index == topology::highest_index(ours);
    let mine = |entry: &CpuSetEntry| topology::island_key(entry) == best.key;
    assert(ours.contains(ours[n]));
    lowest.lemma_filter_contains_rev(mine, ours[n]);
    lowest.lemma_filter_pred(mine, n);
    let i = choose|i: int| 0 <= i < all.len() && all[i] == ours[n];
    assert(share_island(all[i], a));
}

proof fn lemma_sharing(candidates: Seq<&CpuSetEntry>, low: u8, entry: &CpuSetEntry)
    requires
        entry.efficiency_class == low,
    ensures
        is_shared_with_faster(candidates, entry) <==> exists|i: int|
            0 <= i < affinity::picked(candidates, EntryFilter::AboveClass(low)).len()
                && topology::island_key(
                #[trigger] affinity::picked(candidates, EntryFilter::AboveClass(low))[i],
            ) == topology::island_key(entry),
{
    let pool = affinity::picked(candidates, EntryFilter::AboveClass(low));
    affinity::lemma_picked(candidates, EntryFilter::AboveClass(low));
    if is_shared_with_faster(candidates, entry) {
        let i = choose|i: int|
            0 <= i < candidates.len() && (#[trigger] candidates[i]).efficiency_class
                > entry.efficiency_class && share_island(candidates[i], entry);
        assert(candidates.contains(candidates[i]));
        assert(pool.contains(candidates[i]));
        let j = choose|j: int| 0 <= j < pool.len() && pool[j] == candidates[i];
        assert(topology::island_key(pool[j]) == topology::island_key(entry));
    }
    if exists|i: int|
        0 <= i < pool.len() && topology::island_key(#[trigger] pool[i]) == topology::island_key(
            entry,
        ) {
        let i = choose|i: int|
            0 <= i < pool.len() && topology::island_key(#[trigger] pool[i])
                == topology::island_key(entry);
        assert(pool.contains(pool[i]));
        let j = choose|j: int| 0 <= j < candidates.len() && candidates[j] == pool[i];
        assert(share_island(candidates[j], entry));
    }
}

/// A processor that a process may be given: of the first group, and reserved neither for another
/// process nor for real-time work.
pub open spec fn is_free(entry: CpuSetEntry) -> bool {
    entry.group == 0 && !entry.allocated_to_other && !entry.realtime
}

/// The entry at `i` is free and has the number `cpu`.
pub open spec fn is_free_at(entries: Seq<CpuSetEntry>, i: int, cpu: int) -> bool {
    0 <= i < entries.len() && is_free(entries[i]) && entries[i].logical_index == cpu
}

/// One of the free processors has the number `cpu`.
pub open spec fn has_free(entries: Seq<CpuSetEntry>, cpu: int) -> bool {
    exists|i: int| #[trigger] is_free_at(entries, i, cpu)
}

/// A free processor is of a lower class than `class`.
pub open spec fn has_slower_free(entries: Seq<CpuSetEntry>, class: u8) -> bool {
    exists|i: int|
        0 <= i < entries.len() && is_free(#[trigger] entries[i]) && entries[i].efficiency_class
            < class
}

/// A free processor is of a higher class than `class`.
pub open spec fn has_faster_free(entries: Seq<CpuSetEntry>, class: u8) -> bool {
    exists|i: int|
        0 <= i < entries.len() && is_free(#[trigger] entries[i]) && entries[i].efficiency_class
            > class
}

/// Some free processor has a slower and a faster one beside it.
pub open spec fn has_three_free_classes(entries: Seq<CpuSetEntry>) -> bool {
    exists|i: int|
        0 <= i < entries.len() && is_free(#[trigger] entries[i]) && has_slower_free(
            entries,
            entries[i].efficiency_class,
        ) && has_faster_free(entries, entries[i].efficiency_class)
}

/// All free processors are of one class.
pub open spec fn are_alike(entries: Seq<CpuSetEntry>) -> bool {
    forall|i: int, j: int|
        0 <= i < entries.len() && 0 <= j < entries.len() && is_free(#[trigger] entries[i])
            && is_free(#[trigger] entries[j]) ==> entries[i].efficiency_class
            == entries[j].efficiency_class
}

pub proof fn lemma_usable(entries: Seq<CpuSetEntry>)
    ensures
        forall|entry: &CpuSetEntry| #[trigger]
            affinity::usable(entries).contains(entry) <==> exists|i: int|
                0 <= i < entries.len() && is_free(#[trigger] entries[i]) && entries[i] == *entry,
        affinity::usable(entries).len() == entries.filter(|entry: CpuSetEntry| is_free(entry)).len(),
    decreases entries.len(),
{
    reveal(Seq::filter);
    if entries.len() > 0 {
        let before = entries.drop_last();
        let last = entries.last();
        lemma_usable(before);
        let fewer = affinity::usable(before);
        let all = affinity::usable(entries);
        assert(all =~= if is_free(last) {
            fewer.push(&last)
        } else {
            fewer
        });
        assert forall|entry: &CpuSetEntry| #[trigger]
            all.contains(entry) <==> exists|i: int|
                0 <= i < entries.len() && is_free(#[trigger] entries[i]) && entries[i] == *entry by {
            assert(fewer.contains(entry) <==> exists|i: int|
                0 <= i < before.len() && is_free(#[trigger] before[i]) && before[i] == *entry);
            if fewer.contains(entry) {
                let i = choose|i: int|
                    0 <= i < before.len() && is_free(#[trigger] before[i]) && before[i] == *entry;
                assert(entries[i] == before[i]);
                let k = choose|k: int| 0 <= k < fewer.len() && fewer[k] == entry;
                assert(all[k] == entry);
            }
            if is_free(last) && last == *entry {
                assert(all[fewer.len() as int] == entry);
                assert(is_free(entries[entries.len() - 1]));
            }
            if all.contains(entry) && !fewer.contains(entry) {
                let k = choose|k: int| 0 <= k < all.len() && all[k] == entry;
                if k < fewer.len() {
                    assert(fewer[k] == entry);
                }
                assert(is_free(entries[entries.len() - 1]));
            }
            if exists|i: int|
                0 <= i < entries.len() && is_free(#[trigger] entries[i]) && entries[i] == *entry {
                let i = choose|i: int|
                    0 <= i < entries.len() && is_free(#[trigger] entries[i]) && entries[i]
                        == *entry;
                if i < before.len() {
                    assert(is_free(before[i]) && before[i] == *entry);
                }
            }
        }
    }
}

pub proof fn lemma_machine(entries: Seq<CpuSetEntry>, i: int)
    requires
        0 <= i < entries.len(),
        is_free(entries[i]),
    ensures
        affinity::usable(entries).contains(&entries[i]),
        has_slower(affinity::usable(entries), entries[i].efficiency_class) <==> has_slower_free(
            entries,
            entries[i].efficiency_class,
        ),
        has_faster(affinity::usable(entries), entries[i].efficiency_class) <==> has_faster_free(
            entries,
            entries[i].efficiency_class,
        ),
        has_three_classes(affinity::usable(entries)) <==> has_three_free_classes(entries),
        affinity::homogeneous(affinity::usable(entries)) <==> are_alike(entries),
{
    let all = affinity::usable(entries);
    lemma_usable(entries);
    assert(all.contains(&entries[i]));
    assert forall|class: u8| #[trigger] has_slower(all, class) <==> has_slower_free(
        entries,
        class,
    ) by {
        lemma_some(entries, class);
    }
    assert forall|class: u8| #[trigger] has_faster(all, class) <==> has_faster_free(
        entries,
        class,
    ) by {
        lemma_some(entries, class);
    }
    if has_three_classes(all) {
        let k = choose|k: int|
            0 <= k < all.len() && has_slower(all, (#[trigger] all[k]).efficiency_class)
                && has_faster(all, all[k].efficiency_class);
        assert(all.contains(all[k]));
        let j = choose|j: int|
            0 <= j < entries.len() && is_free(#[trigger] entries[j]) && entries[j] == *all[k];
        assert(has_slower_free(entries, entries[j].efficiency_class));
    }
    if has_three_free_classes(entries) {
        let j = choose|j: int|
            0 <= j < entries.len() && is_free(#[trigger] entries[j]) && has_slower_free(
                entries,
                entries[j].efficiency_class,
            ) && has_faster_free(entries, entries[j].efficiency_class);
        assert(all.contains(&entries[j]));
        let k = choose|k: int| 0 <= k < all.len() && all[k] == &entries[j];
        assert(has_slower(all, all[k].efficiency_class));
    }
    if affinity::homogeneous(all) {
        assert forall|a: int, b: int|
            0 <= a < entries.len() && 0 <= b < entries.len() && is_free(#[trigger] entries[a])
                && is_free(#[trigger] entries[b]) implies entries[a].efficiency_class
            == entries[b].efficiency_class by {
            assert(all.contains(&entries[a]) && all.contains(&entries[b]));
            let p = choose|p: int| 0 <= p < all.len() && all[p] == &entries[a];
            let q = choose|q: int| 0 <= q < all.len() && all[q] == &entries[b];
            assert(all[p].efficiency_class == all[q].efficiency_class);
        }
    }
    if are_alike(entries) {
        assert forall|p: int, q: int| 0 <= p < all.len() && 0 <= q < all.len() implies (
        #[trigger] all[p]).efficiency_class == (#[trigger] all[q]).efficiency_class by {
            assert(all.contains(all[p]) && all.contains(all[q]));
            let a = choose|a: int|
                0 <= a < entries.len() && is_free(#[trigger] entries[a]) && entries[a] == *all[p];
            let b = choose|b: int|
                0 <= b < entries.len() && is_free(#[trigger] entries[b]) && entries[b] == *all[q];
            assert(entries[a].efficiency_class == entries[b].efficiency_class);
        }
    }
}

proof fn lemma_some(entries: Seq<CpuSetEntry>, class: u8)
    ensures
        has_slower(affinity::usable(entries), class) <==> has_slower_free(entries, class),
        has_faster(affinity::usable(entries), class) <==> has_faster_free(entries, class),
{
    let all = affinity::usable(entries);
    lemma_usable(entries);
    if has_slower(all, class) {
        let k = choose|k: int| 0 <= k < all.len() && (#[trigger] all[k]).efficiency_class < class;
        assert(all.contains(all[k]));
        let i = choose|i: int|
            0 <= i < entries.len() && is_free(#[trigger] entries[i]) && entries[i] == *all[k];
        assert(entries[i].efficiency_class < class);
    }
    if has_slower_free(entries, class) {
        let i = choose|i: int|
            0 <= i < entries.len() && is_free(#[trigger] entries[i])
                && entries[i].efficiency_class < class;
        assert(all.contains(&entries[i]));
        let k = choose|k: int| 0 <= k < all.len() && all[k] == &entries[i];
        assert(all[k].efficiency_class < class);
    }
    if has_faster(all, class) {
        let k = choose|k: int| 0 <= k < all.len() && (#[trigger] all[k]).efficiency_class > class;
        assert(all.contains(all[k]));
        let i = choose|i: int|
            0 <= i < entries.len() && is_free(#[trigger] entries[i]) && entries[i] == *all[k];
        assert(entries[i].efficiency_class > class);
    }
    if has_faster_free(entries, class) {
        let i = choose|i: int|
            0 <= i < entries.len() && is_free(#[trigger] entries[i])
                && entries[i].efficiency_class > class;
        assert(all.contains(&entries[i]));
        let k = choose|k: int| 0 <= k < all.len() && all[k] == &entries[i];
        assert(all[k].efficiency_class > class);
    }
}

/// The term is meant for the entry at `i`, on a machine with several classes: a number for the
/// processor of that number, `P` for those without a faster one, `C` for the marked ones, `LPE` for
/// those without a slower one, and `E` for those between, or without a slower one where nothing is
/// between.
pub open spec fn is_meant_for(term: AffinityTerm, entries: Seq<CpuSetEntry>, i: int) -> bool {
    let entry = entries[i];
    match term {
        AffinityTerm::LogicalIndex(index) => entry.logical_index == index,
        AffinityTerm::Performance => !has_faster_free(entries, entry.efficiency_class),
        AffinityTerm::Cache => entry.cache,
        AffinityTerm::LowPowerEfficiency => !has_slower_free(entries, entry.efficiency_class),
        AffinityTerm::Efficiency => if has_three_free_classes(entries) {
            has_slower_free(entries, entry.efficiency_class) && has_faster_free(
                entries,
                entry.efficiency_class,
            )
        } else {
            !has_slower_free(entries, entry.efficiency_class)
        },
    }
}

proof fn lemma_term_meant(term: AffinityTerm, entries: Seq<CpuSetEntry>, index: usize)
    requires
        !are_alike(entries),
    ensures
        affinity::term_indexes(term, affinity::usable(entries)).contains(index) ==> exists|i: int|
            #[trigger] is_free_at(entries, i, index as int) && is_meant_for(term, entries, i),
        (has_three_free_classes(entries) || !(term is Efficiency)
            && !(term is LowPowerEfficiency)) && index < usize::BITS && (exists|i: int| #[trigger]
            is_free_at(entries, i, index as int) && is_meant_for(term, entries, i))
            ==> affinity::term_indexes(term, affinity::usable(entries)).contains(index),
{
    let all = affinity::usable(entries);
    let own = affinity::term_indexes(term, all);
    lemma_usable(entries);
    let (a, b) = choose|a: int, b: int|
        0 <= a < entries.len() && 0 <= b < entries.len() && is_free(#[trigger] entries[a])
            && is_free(#[trigger] entries[b]) && entries[a].efficiency_class
            != entries[b].efficiency_class;
    lemma_machine(entries, a);
    let low = affinity::lowest_class(all);
    let high = affinity::highest_class(all);
    affinity::lemma_picked(all, EntryFilter::Class(high));
    affinity::lemma_picked(all, EntryFilter::Class(low));
    affinity::lemma_picked(all, EntryFilter::BetweenClasses(low, high));
    affinity::lemma_picked(all, EntryFilter::PreferredCache);
    let island = affinity::low_power_island(all);
    affinity::lemma_picked(affinity::lowest_tier(all), EntryFilter::OnIsland(island));
    affinity::lemma_picked(affinity::lowest_tier(all), EntryFilter::OffIsland(island));
    let tier = match term {
        AffinityTerm::LogicalIndex(_) => Seq::empty(),
        AffinityTerm::Performance => affinity::performance_tier(all),
        AffinityTerm::Efficiency => affinity::efficiency_tier(all),
        AffinityTerm::LowPowerEfficiency => affinity::low_power_tier(all),
        AffinityTerm::Cache => affinity::cache_tier(all),
    };
    if own.contains(index) {
        let entry = match term {
            AffinityTerm::LogicalIndex(_) => {
                assert(own[0] == index);
                let k = choose|k: int|
                    0 <= k < all.len() && (#[trigger] all[k]).logical_index == index;
                all[k]
            },
            _ => {
                let k = choose|k: int| 0 <= k < own.len() && own[k] == index;
                tier[k]
            },
        };
        if !(term is LogicalIndex) {
            let k = choose|k: int| 0 <= k < own.len() && own[k] == index;
            assert(tier.contains(tier[k]));
        }
        assert(all.contains(entry));
        let i = choose|i: int|
            0 <= i < entries.len() && is_free(#[trigger] entries[i]) && entries[i] == *entry;
        lemma_machine(entries, i);
        lemma_extremes(all, entry);
        assert(is_free_at(entries, i, index as int));
        assert(is_meant_for(term, entries, i));
    }
    if (has_three_free_classes(entries) || !(term is Efficiency) && !(term is LowPowerEfficiency))
        && index < usize::BITS && (exists|i: int| #[trigger]
        is_free_at(entries, i, index as int) && is_meant_for(term, entries, i)) {
        let i = choose|i: int| #[trigger]
            is_free_at(entries, i, index as int) && is_meant_for(term, entries, i);
        lemma_machine(entries, i);
        let entry = &entries[i];
        lemma_extremes(all, entry);
        if term is LogicalIndex {
            let k = choose|k: int| 0 <= k < all.len() && all[k] == entry;
            assert(affinity::has_index(all, index));
            assert(own =~= seq![index]);
            assert(own[0] == index);
        } else {
            assert(tier.contains(entry));
            affinity::lemma_index_of_member(tier, entry);
        }
    }
}

/// On a machine with several classes an expression stands for free processors that one of its
/// terms is meant for: for no other, and for each of them where the terms part the machine by
/// class. `E` and `LPE` share the slowest processors out where there are two classes.
pub proof fn law_terms_stand_for_what_they_mean(
    expression: &AffinityExpression,
    entries: &[CpuSetEntry],
    found: Result<Option<usize>, String>,
    mask: usize,
    cpu: int,
)
    requires
        !are_alike(entries@),
        call_ensures(AffinityExpression::mask_from_entries, (expression, entries), found),
        found == Ok::<Option<usize>, String>(Some(mask)) || found == Ok::<Option<usize>, String>(
            None,
        ) && mask == 0,
        0 <= cpu < usize::BITS,
    ensures
        mask::has_cpu(mask, cpu) ==> exists|t: int, i: int|
            0 <= t < expression.terms@.len() && #[trigger] is_free_at(entries@, i, cpu)
                && is_meant_for(#[trigger] expression.terms@[t], entries@, i),
        forall|t: int, i: int|
            0 <= t < expression.terms@.len() && #[trigger] is_free_at(entries@, i, cpu)
                && is_meant_for(#[trigger] expression.terms@[t], entries@, i) && (
            has_three_free_classes(entries@) || !(expression.terms@[t] is Efficiency)
                && !(expression.terms@[t] is LowPowerEfficiency)) ==> mask::has_cpu(mask, cpu),
{
    let terms = expression.terms@;
    let all = affinity::usable(entries@);
    let index = cpu as usize;
    let wanted = affinity::requested_indexes(terms, all);
    let (a, b) = choose|a: int, b: int|
        0 <= a < entries@.len() && 0 <= b < entries@.len() && is_free(#[trigger] entries@[a])
            && is_free(#[trigger] entries@[b]) && entries@[a].efficiency_class
            != entries@[b].efficiency_class;
    lemma_machine(entries@, a);
    affinity::law_terms_add_up(terms, all, index);
    mask::lemma_empty_mask(cpu);
    assert(affinity::resolves_to(terms, entries@, found));
    assert(mask::has_cpu(mask, cpu) <==> wanted.contains(index)) by {
        match found {
            Ok(Some(held)) => {
                assert(held == mask);
                assert(mask::has_cpu(held, cpu) <==> wanted.contains(index));
            },
            _ => {},
        }
    }
    if wanted.contains(index) {
        let t = choose|t: int|
            0 <= t < terms.len() && affinity::term_indexes(#[trigger] terms[t], all).contains(
                index,
            );
        lemma_term_meant(terms[t], entries@, index);
        let i = choose|i: int| #[trigger]
            is_free_at(entries@, i, cpu) && is_meant_for(terms[t], entries@, i);
        assert(is_free_at(entries@, i, cpu) && is_meant_for(terms[t], entries@, i));
    }
    assert forall|t: int, i: int|
        0 <= t < terms.len() && #[trigger] is_free_at(entries@, i, cpu) && is_meant_for(
            #[trigger] terms[t],
            entries@,
            i,
        ) && (has_three_free_classes(entries@) || !(terms[t] is Efficiency)
            && !(terms[t] is LowPowerEfficiency)) implies mask::has_cpu(mask, cpu) by {
        lemma_term_meant(terms[t], entries@, index);
        assert(affinity::term_indexes(terms[t], all).contains(index));
    }
}

/// On a machine with several classes `E` and `LPE` together allow every free processor that has no
/// slower one, and `P`, `E` and `LPE` together allow every free processor.
pub proof fn law_tiers_together_allow_the_machine(
    expression: &AffinityExpression,
    entries: &[CpuSetEntry],
    found: Result<Option<usize>, String>,
    i: int,
)
    requires
        !are_alike(entries@),
        call_ensures(AffinityExpression::mask_from_entries, (expression, entries), found),
        0 <= i < entries@.len(),
        is_free(entries@[i]),
        entries@[i].logical_index < usize::BITS,
        found is Ok,
        expression.terms@.contains(AffinityTerm::Efficiency),
        expression.terms@.contains(AffinityTerm::LowPowerEfficiency),
        expression.terms@.contains(AffinityTerm::Performance) || !has_slower_free(
            entries@,
            entries@[i].efficiency_class,
        ),
    ensures
        found matches Ok(Some(mask)) && mask::has_cpu(mask, entries@[i].logical_index as int),
{
    let terms = expression.terms@;
    let all = affinity::usable(entries@);
    let entry = &entries@[i];
    let index = entry.logical_index;
    lemma_machine(entries@, i);
    lemma_extremes(all, entry);
    affinity::law_tiers_cover_the_machine(all, entry);
    affinity::law_terms_add_up(terms, all, index);
    let low = affinity::lowest_class(all);
    let high = affinity::highest_class(all);
    affinity::lemma_picked(all, EntryFilter::Class(high));
    let e = choose|e: int| 0 <= e < terms.len() && terms[e] == AffinityTerm::Efficiency;
    let l = choose|l: int| 0 <= l < terms.len() && terms[l] == AffinityTerm::LowPowerEfficiency;
    if affinity::performance_tier(all).contains(entry) {
        let p = choose|p: int| 0 <= p < terms.len() && terms[p] == AffinityTerm::Performance;
        affinity::lemma_index_of_member(affinity::performance_tier(all), entry);
        assert(affinity::term_indexes(terms[p], all).contains(index));
    } else if affinity::efficiency_tier(all).contains(entry) {
        affinity::lemma_index_of_member(affinity::efficiency_tier(all), entry);
        assert(affinity::term_indexes(terms[e], all).contains(index));
    } else {
        affinity::lemma_index_of_member(affinity::low_power_tier(all), entry);
        assert(affinity::term_indexes(terms[l], all).contains(index));
    }
    let wanted = affinity::requested_indexes(terms, all);
    assert(wanted.contains(index));
}

/// An expression stands for nothing on a machine without processors, or without free ones, and
/// that is told. It never stands for an empty set: where it stands for something, some processor
/// is in it, and each one is free.
pub proof fn law_masks_hold_free_processors(
    expression: &AffinityExpression,
    entries: &[CpuSetEntry],
    found: Result<Option<usize>, String>,
    cpu: int,
)
    requires
        call_ensures(AffinityExpression::mask_from_entries, (expression, entries), found),
    ensures
        (forall|i: int| 0 <= i < entries@.len() ==> !is_free(#[trigger] entries@[i]))
            ==> found is Err,
        found matches Ok(Some(mask)) ==> mask != 0,
        found matches Ok(Some(mask)) && mask::has_cpu(mask, cpu) ==> has_free(entries@, cpu),
        (exists|i: int| 0 <= i < entries@.len() && is_free(#[trigger] entries@[i])) && (forall|
            i: int,
        |
            0 <= i < entries@.len() && is_free(#[trigger] entries@[i])
                ==> entries@[i].logical_index < usize::BITS) ==> found is Ok,
{
    let terms = expression.terms@;
    let all = affinity::usable(entries@);
    let wanted = affinity::requested_indexes(terms, all);
    lemma_usable(entries@);
    if forall|i: int| 0 <= i < entries@.len() ==> !is_free(#[trigger] entries@[i]) {
        if all.len() > 0 {
            assert(all.contains(all[0]));
        }
    }
    assert forall|k: int| 0 <= k < wanted.len() implies has_free(
        entries@,
        #[trigger] wanted[k] as int,
    ) by {
        assert(wanted.contains(wanted[k]));
        affinity::law_only_usable_processors(terms, entries@, wanted[k]);
        let i = choose|i: int|
            0 <= i < entries@.len() && affinity::is_usable(#[trigger] entries@[i])
                && entries@[i].logical_index == wanted[k];
        assert(is_free_at(entries@, i, wanted[k] as int));
    }
    if let Ok(Some(mask)) = found {
        assert(mask::all_fit(wanted));
        assert(wanted[0] < usize::BITS);
        assert(wanted.contains(wanted[0]));
        assert(mask::has_cpu(mask, wanted[0] as int));
        mask::lemma_zero_iff_no_cpu(mask);
        if mask::has_cpu(mask, cpu) {
            let k = choose|k: int| 0 <= k < wanted.len() && wanted[k] == cpu as usize;
            assert(has_free(entries@, wanted[k] as int));
        }
    }
    if (exists|i: int| 0 <= i < entries@.len() && is_free(#[trigger] entries@[i])) && (forall|
        i: int,
    |
        0 <= i < entries@.len() && is_free(#[trigger] entries@[i]) ==> entries@[i].logical_index
            < usize::BITS) {
        let i = choose|i: int| 0 <= i < entries@.len() && is_free(#[trigger] entries@[i]);
        assert(all.contains(&entries@[i]));
        assert forall|k: int| 0 <= k < wanted.len() implies (#[trigger] wanted[k])
            < usize::BITS by {
            assert(has_free(entries@, wanted[k] as int));
            let j = choose|j: int| #[trigger] is_free_at(entries@, j, wanted[k] as int);
            assert(entries@[j].logical_index < usize::BITS);
        }
    }
}

} // verus!
