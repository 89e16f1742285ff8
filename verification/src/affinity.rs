//! Affinity expressions: sums of processor tiers and logical processor numbers.

use vstd::prelude::*;

use crate::mask;
use crate::service::ServiceError;
use crate::text;
use crate::topology;
use crate::topology::{
    choose_efficiency_island, cpu_island_key, efficiency_classes, CpuIslandKey, CpuSetEntry,
    CpuTopology,
};

verus! {

#[derive(Clone, Copy, Debug, Eq, PartialEq, Structural)]
pub enum AffinityTerm {
    LogicalIndex(usize),
    Performance,
    Efficiency,
    LowPowerEfficiency,
    Cache,
}

/// A property that singles out some of the processors.
#[derive(Clone, Copy, Debug, Eq, PartialEq, Structural)]
pub enum EntryFilter {
    Class(u8),
    BetweenClasses(u8, u8),
    AboveClass(u8),
    PreferredCache,
    OddIndex,
    OnIsland(CpuIslandKey),
    OffIsland(CpuIslandKey),
}

pub open spec fn selects(filter: EntryFilter, entry: &CpuSetEntry) -> bool {
    match filter {
        EntryFilter::Class(class) => entry.efficiency_class == class,
        EntryFilter::BetweenClasses(low, high) => entry.efficiency_class != low
            && entry.efficiency_class != high,
        EntryFilter::AboveClass(class) => entry.efficiency_class > class,
        EntryFilter::PreferredCache => entry.cache,
        EntryFilter::OddIndex => entry.logical_index % 2 == 1,
        EntryFilter::OnIsland(key) => topology::island_key(entry) == key,
        EntryFilter::OffIsland(key) => topology::island_key(entry) != key,
    }
}

/// The members of `candidates` with the property `filter`, in their order.
pub open spec fn picked(candidates: Seq<&CpuSetEntry>, filter: EntryFilter) -> Seq<&CpuSetEntry> {
    candidates.filter(|entry: &CpuSetEntry| selects(filter, entry))
}

fn is_selected(filter: &EntryFilter, entry: &CpuSetEntry) -> (selected: bool)
    ensures
        selected == selects(*filter, entry),
{
    match filter {
        EntryFilter::Class(class) => entry.efficiency_class == *class,
        EntryFilter::BetweenClasses(low, high) => entry.efficiency_class != *low
            && entry.efficiency_class != *high,
        EntryFilter::AboveClass(class) => entry.efficiency_class > *class,
        EntryFilter::PreferredCache => entry.cache,
        EntryFilter::OddIndex => entry.logical_index % 2 == 1,
        EntryFilter::OnIsland(key) => cpu_island_key(entry) == *key,
        EntryFilter::OffIsland(key) => cpu_island_key(entry) != *key,
    }
}

fn pick<'a>(candidates: &[&'a CpuSetEntry], filter: &EntryFilter) -> (chosen: Vec<&'a CpuSetEntry>)
    ensures
        chosen@ == picked(candidates@, *filter),
{
    let mut chosen: Vec<&'a CpuSetEntry> = Vec::new();
    let ghost wanted = |entry: &CpuSetEntry| selects(*filter, entry);
    let mut i: usize = 0;
    proof {
        reveal(Seq::filter);
        assert(candidates@.subrange(0, 0) =~= Seq::empty());
    }
    while i < candidates.len()
        invariant
            i <= candidates@.len(),
            wanted == (|entry: &CpuSetEntry| selects(*filter, entry)),
            chosen@ == candidates@.subrange(0, i as int).filter(wanted),
        decreases candidates@.len() - i,
    {
        let entry: &'a CpuSetEntry = candidates[i];
        proof {
            let before = candidates@.subrange(0, i as int);
            assert(candidates@.subrange(0, i + 1) =~= before.push(entry));
            before.lemma_filter_push(entry, wanted);
        }
        if is_selected(filter, entry) {
            chosen.push(entry);
        }
        i = i + 1;
    }
    assert(candidates@.subrange(0, candidates@.len() as int) =~= candidates@);
    chosen
}

/// All of `candidates` have one efficiency class.
pub open spec fn homogeneous(candidates: Seq<&CpuSetEntry>) -> bool {
    forall|i: int, j: int|
        0 <= i < candidates.len() && 0 <= j < candidates.len() ==> (
        #[trigger] candidates[i]).efficiency_class == (#[trigger] candidates[j]).efficiency_class
}

pub open spec fn lowest_class(candidates: Seq<&CpuSetEntry>) -> u8
    decreases candidates.len(),
{
    if candidates.len() <= 1 {
        candidates.last().efficiency_class
    } else {
        let before = lowest_class(candidates.drop_last());
        if candidates.last().efficiency_class < before {
            candidates.last().efficiency_class
        } else {
            before
        }
    }
}

pub open spec fn highest_class(candidates: Seq<&CpuSetEntry>) -> u8
    decreases candidates.len(),
{
    if candidates.len() <= 1 {
        candidates.last().efficiency_class
    } else {
        let before = highest_class(candidates.drop_last());
        if candidates.last().efficiency_class > before {
            candidates.last().efficiency_class
        } else {
            before
        }
    }
}

/// Every one of `candidates` has the lowest or the highest of their classes.
pub open spec fn at_most_two_classes(candidates: Seq<&CpuSetEntry>) -> bool {
    forall|i: int|
        0 <= i < candidates.len() ==> (#[trigger] candidates[i]).efficiency_class == lowest_class(
            candidates,
        ) || candidates[i].efficiency_class == highest_class(candidates)
}

pub proof fn lemma_extreme_classes(candidates: Seq<&CpuSetEntry>)
    requires
        candidates.len() > 0,
    ensures
        forall|i: int|
            0 <= i < candidates.len() ==> lowest_class(candidates) <= (
            #[trigger] candidates[i]).efficiency_class <= highest_class(candidates),
        exists|i: int|
            0 <= i < candidates.len() && (#[trigger] candidates[i]).efficiency_class
                == lowest_class(candidates),
        exists|i: int|
            0 <= i < candidates.len() && (#[trigger] candidates[i]).efficiency_class
                == highest_class(candidates),
    decreases candidates.len(),
{
    let last = candidates.len() - 1;
    if candidates.len() == 1 {
        assert(candidates[last].efficiency_class == lowest_class(candidates));
        assert(candidates[last].efficiency_class == highest_class(candidates));
    } else {
        let before = candidates.drop_last();
        lemma_extreme_classes(before);
        assert forall|i: int| 0 <= i < candidates.len() implies lowest_class(candidates) <= (
        #[trigger] candidates[i]).efficiency_class <= highest_class(candidates) by {
            if i < last {
                assert(candidates[i] == before[i]);
            }
        }
        let low = choose|i: int|
            0 <= i < before.len() && (#[trigger] before[i]).efficiency_class == lowest_class(
                before,
            );
        let high = choose|i: int|
            0 <= i < before.len() && (#[trigger] before[i]).efficiency_class == highest_class(
                before,
            );
        assert(candidates[low] == before[low]);
        assert(candidates[high] == before[high]);
        assert(candidates[last] == candidates.last());
    }
}

/// The processors of the highest class, where there is more than one class.
pub open spec fn performance_tier(candidates: Seq<&CpuSetEntry>) -> Seq<&CpuSetEntry> {
    if homogeneous(candidates) {
        Seq::empty()
    } else {
        picked(candidates, EntryFilter::Class(highest_class(candidates)))
    }
}

/// The processors of the lowest class.
pub open spec fn lowest_tier(candidates: Seq<&CpuSetEntry>) -> Seq<&CpuSetEntry> {
    picked(candidates, EntryFilter::Class(lowest_class(candidates)))
}

/// The island of the lowest class that stands apart as the low-power one.
pub open spec fn low_power_island(candidates: Seq<&CpuSetEntry>) -> CpuIslandKey {
    topology::best_island(
        lowest_tier(candidates),
        picked(candidates, EntryFilter::AboveClass(lowest_class(candidates))),
    ).key
}

/// The efficient processors: the classes between the lowest and the highest or, with two
/// classes, those of the lowest class off the low-power island.
pub open spec fn efficiency_tier(candidates: Seq<&CpuSetEntry>) -> Seq<&CpuSetEntry> {
    if homogeneous(candidates) {
        Seq::empty()
    } else if !at_most_two_classes(candidates) {
        picked(
            candidates,
            EntryFilter::BetweenClasses(lowest_class(candidates), highest_class(candidates)),
        )
    } else if topology::one_island(lowest_tier(candidates)) {
        lowest_tier(candidates)
    } else {
        picked(lowest_tier(candidates), EntryFilter::OffIsland(low_power_island(candidates)))
    }
}

/// The low-power processors: the lowest class or, with two classes on several islands, those of
/// the lowest class on the low-power island.
pub open spec fn low_power_tier(candidates: Seq<&CpuSetEntry>) -> Seq<&CpuSetEntry> {
    if homogeneous(candidates) {
        Seq::empty()
    } else if !at_most_two_classes(candidates) || topology::one_island(lowest_tier(candidates)) {
        lowest_tier(candidates)
    } else {
        picked(lowest_tier(candidates), EntryFilter::OnIsland(low_power_island(candidates)))
    }
}

/// The processors behind the preferred cache.
pub open spec fn cache_tier(candidates: Seq<&CpuSetEntry>) -> Seq<&CpuSetEntry> {
    picked(candidates, EntryFilter::PreferredCache)
}

pub struct AffinityTiers<'a> {
    pub performance: Vec<&'a CpuSetEntry>,
    pub efficiency: Vec<&'a CpuSetEntry>,
    pub low_power_efficiency: Vec<&'a CpuSetEntry>,
    pub cache: Vec<&'a CpuSetEntry>,
}

/// The class list of `candidates` tells how many classes there are and which are the extremes.
proof fn lemma_class_list(classes: Seq<u8>, candidates: Seq<&CpuSetEntry>)
    requires
        topology::is_class_list(classes, candidates),
        candidates.len() > 0,
    ensures
        classes.len() > 0,
        classes[0] == lowest_class(candidates),
        classes.last() == highest_class(candidates),
        classes.len() == 1 <==> homogeneous(candidates),
        classes.len() >= 3 <==> !at_most_two_classes(candidates),
{
    lemma_extreme_classes(candidates);
    let low = choose|i: int|
        0 <= i < candidates.len() && (#[trigger] candidates[i]).efficiency_class == lowest_class(
            candidates,
        );
    let high = choose|i: int|
        0 <= i < candidates.len() && (#[trigger] candidates[i]).efficiency_class == highest_class(
            candidates,
        );
    assert(classes.contains(candidates[low].efficiency_class));
    assert(classes.contains(candidates[high].efficiency_class));
    assert(classes.contains(classes[0]));
    assert(classes.contains(classes.last()));
    let first = choose|i: int|
        0 <= i < candidates.len() && (#[trigger] candidates[i]).efficiency_class == classes[0];
    let last = choose|i: int|
        0 <= i < candidates.len() && (#[trigger] candidates[i]).efficiency_class == classes.last();
    assert(classes[0] == lowest_class(candidates));
    assert(classes.last() == highest_class(candidates));
    assert forall|i: int| 0 <= i < candidates.len() implies classes.contains(
        (#[trigger] candidates[i]).efficiency_class,
    ) by {}
    if homogeneous(candidates) {
        assert(candidates[low].efficiency_class == candidates[high].efficiency_class);
        assert(classes[0] == classes[classes.len() - 1]);
        assert(classes.len() == 1);
    }
    if classes.len() >= 3 {
        assert(classes.contains(classes[1]));
        let middle = choose|i: int|
            0 <= i < candidates.len() && (#[trigger] candidates[i]).efficiency_class == classes[1];
        assert(candidates[middle].efficiency_class == classes[1]);
        assert(classes[0] < classes[1] && classes[1] < classes[classes.len() - 1]);
    }
}

impl<'a> AffinityTiers<'a> {
    /// Sorts the processors into tiers.
    pub fn classify(candidates: &[&'a CpuSetEntry]) -> (tiers: Result<Self, String>)
        ensures
            match tiers {
                Ok(tiers) => {
                    &&& candidates@.len() > 0
                    &&& tiers.performance@ == performance_tier(candidates@)
                    &&& tiers.efficiency@ == efficiency_tier(candidates@)
                    &&& tiers.low_power_efficiency@ == low_power_tier(candidates@)
                    &&& tiers.cache@ == cache_tier(candidates@)
                },
                Err(message) => candidates@.len() == 0 && message@
                    == "CPU topology has no efficiency classes"@,
            },
    {
        let cache = pick(candidates, &EntryFilter::PreferredCache);
        let classes = efficiency_classes(candidates);
        if candidates.len() == 0 {
            return Err("CPU topology has no efficiency classes".to_string());
        }
        proof {
            lemma_class_list(classes@, candidates@);
        }
        let min_class = classes[0];
        let max_class = classes[classes.len() - 1];
        if classes.len() == 1 {
            return Ok(
                AffinityTiers {
                    performance: Vec::new(),
                    efficiency: Vec::new(),
                    low_power_efficiency: Vec::new(),
                    cache,
                },
            );
        }
        let performance = pick(candidates, &EntryFilter::Class(max_class));
        let lowest = pick(candidates, &EntryFilter::Class(min_class));
        if classes.len() >= 3 {
            let efficiency = pick(candidates, &EntryFilter::BetweenClasses(min_class, max_class));
            return Ok(
                AffinityTiers { performance, efficiency, low_power_efficiency: lowest, cache },
            );
        }
        let higher = pick(candidates, &EntryFilter::AboveClass(min_class));
        match choose_efficiency_island(lowest.as_slice(), higher.as_slice()) {
            None => {
                let efficiency = pick(candidates, &EntryFilter::Class(min_class));
                Ok(AffinityTiers { performance, efficiency, low_power_efficiency: lowest, cache })
            },
            Some(island) => {
                proof {
                    topology::lemma_best_island(island, lowest@, higher@);
                }
                let low_power_efficiency = pick(
                    lowest.as_slice(),
                    &EntryFilter::OnIsland(island.key),
                );
                let efficiency = pick(lowest.as_slice(), &EntryFilter::OffIsland(island.key));
                Ok(AffinityTiers { performance, efficiency, low_power_efficiency, cache })
            },
        }
    }
}

/// The logical indexes of `entries`, in their order.
pub open spec fn indexes(entries: Seq<&CpuSetEntry>) -> Seq<usize> {
    entries.map_values(|entry: &CpuSetEntry| entry.logical_index)
}

/// The text of the refusal of a logical index that no mask can hold.
pub open spec fn unfit_message(index: usize) -> Seq<char> {
    "logical processor index "@ + text::decimal(index as nat)
        + " cannot fit in process affinity mask"@
}

/// `k` is the first position of `wanted` whose logical index no mask can hold.
pub open spec fn is_first_unfit(wanted: Seq<usize>, k: int) -> bool {
    &&& 0 <= k < wanted.len()
    &&& wanted[k] >= usize::BITS
    &&& forall|j: int| 0 <= j < k ==> (#[trigger] wanted[j]) < usize::BITS
}

/// `message` refuses the first logical index of `wanted` that no mask can hold.
pub open spec fn is_refusal(wanted: Seq<usize>, message: Seq<char>) -> bool {
    exists|k: int| #[trigger] is_first_unfit(wanted, k) && message == unfit_message(wanted[k])
}

/// Adds one logical processor to `mask`.
pub fn add_logical_index_to_mask(mask: &mut usize, index: usize) -> (added: Result<(), String>)
    ensures
        match added {
            Ok(_) => index < usize::BITS && mask::cpus(*final(mask)) == mask::cpus(
                *old(mask),
            ).insert(index as int) && forall|cpu: int| #[trigger]
                mask::has_cpu(*final(mask), cpu) <==> cpu == index || mask::has_cpu(
                    *old(mask),
                    cpu,
                ),
            Err(message) => {
                &&& index >= usize::BITS
                &&& *final(mask) == *old(mask)
                &&& message@ == unfit_message(index)
            },
        },
{
    if index >= usize::BITS as usize {
        let mut message = "logical processor index ".to_string();
        text::append(&mut message, text::decimal_text(index as u64).as_str());
        text::append(&mut message, " cannot fit in process affinity mask");
        return Err(message);
    }
    *mask = mask::with_cpu(*mask, index);
    Ok(())
}

/// Adds the logical processors of `entries` to `mask`, up to the first that cannot be added.
pub fn add_entries_to_mask(mask: &mut usize, entries: &[&CpuSetEntry]) -> (added: Result<
    (),
    String,
>)
    ensures
        match added {
            Ok(_) => mask::all_fit(indexes(entries@)) && mask::is_union(
                *final(mask),
                *old(mask),
                indexes(entries@),
            ),
            Err(message) => is_refusal(indexes(entries@), message@) && exists|k: int| #[trigger]
                is_first_unfit(indexes(entries@), k) && mask::is_union(
                    *final(mask),
                    *old(mask),
                    indexes(entries@).subrange(0, k),
                ),
        },
{
    let ghost start = *mask;
    let ghost wanted = indexes(entries@);
    let mut i: usize = 0;
    while i < entries.len()
        invariant
            i <= entries@.len(),
            wanted == indexes(entries@),
            start == *old(mask),
            mask::all_fit(wanted.subrange(0, i as int)),
            mask::is_union(*mask, start, wanted.subrange(0, i as int)),
        decreases entries@.len() - i,
    {
        let ghost before = *mask;
        let index = entries[i].logical_index;
        assert(wanted[i as int] == index);
        let ghost prefix = wanted.subrange(0, i as int);
        let ghost longer = wanted.subrange(0, i + 1);
        match add_logical_index_to_mask(mask, index) {
            Ok(_) => {},
            Err(message) => {
                proof {
                    assert forall|j: int| 0 <= j < i implies (#[trigger] wanted[j])
                        < usize::BITS by {
                        assert(prefix[j] == wanted[j]);
                    }
                    assert(is_first_unfit(wanted, i as int));
                }
                return Err(message);
            },
        }
        proof {
            lemma_one_more(*mask, before, start, prefix, index);
            assert(longer =~= prefix.push(index));
        }
        i = i + 1;
    }
    assert(wanted.subrange(0, wanted.len() as int) =~= wanted);
    Ok(())
}

/// Adding one processor to a union extends the union by that processor.
proof fn lemma_one_more(after: usize, before: usize, start: usize, added: Seq<usize>, index: usize)
    requires
        index < usize::BITS,
        mask::is_union(before, start, added),
        forall|cpu: int| #[trigger]
            mask::has_cpu(after, cpu) <==> cpu == index || mask::has_cpu(before, cpu),
    ensures
        mask::is_union(after, start, added.push(index)),
{
    assert forall|cpu: int| 0 <= cpu < usize::BITS implies (#[trigger] mask::has_cpu(after, cpu)
        <==> mask::has_cpu(start, cpu) || added.push(index).contains(cpu as usize)) by {
        let all = added.push(index);
        if added.contains(cpu as usize) {
            let j = choose|j: int| 0 <= j < added.len() && added[j] == cpu as usize;
            assert(all[j] == cpu as usize);
        }
        if cpu == index {
            assert(all[added.len() as int] == cpu as usize);
        }
        if all.contains(cpu as usize) {
            let j = choose|j: int| 0 <= j < all.len() && all[j] == cpu as usize;
            if j < added.len() {
                assert(added[j] == cpu as usize);
            }
        }
        assert(mask::has_cpu(before, cpu) <==> mask::has_cpu(start, cpu) || added.contains(
            cpu as usize,
        ));
    }
}

/// A union of a union is the union of both.
proof fn lemma_union_chain(after: usize, before: usize, start: usize, a: Seq<usize>, b: Seq<usize>)
    requires
        mask::is_union(before, start, a),
        mask::is_union(after, before, b),
    ensures
        mask::is_union(after, start, a + b),
{
    assert forall|cpu: int| 0 <= cpu < usize::BITS implies (#[trigger] mask::has_cpu(after, cpu)
        <==> mask::has_cpu(start, cpu) || (a + b).contains(cpu as usize)) by {
        let all = a + b;
        if a.contains(cpu as usize) {
            let j = choose|j: int| 0 <= j < a.len() && a[j] == cpu as usize;
            assert(all[j] == cpu as usize);
        }
        if b.contains(cpu as usize) {
            let j = choose|j: int| 0 <= j < b.len() && b[j] == cpu as usize;
            assert(all[a.len() + j] == cpu as usize);
        }
        if all.contains(cpu as usize) {
            let j = choose|j: int| 0 <= j < all.len() && all[j] == cpu as usize;
            if j < a.len() {
                assert(a[j] == cpu as usize);
            } else {
                assert(b[j - a.len()] == cpu as usize);
            }
        }
        assert(mask::has_cpu(before, cpu) <==> mask::has_cpu(start, cpu) || a.contains(
            cpu as usize,
        ));
    }
}

/// One of `candidates` has the logical index `index`.
pub open spec fn has_index(candidates: Seq<&CpuSetEntry>, index: usize) -> bool {
    exists|i: int| 0 <= i < candidates.len() && (#[trigger] candidates[i]).logical_index == index
}

fn find_index<'a>(candidates: &[&'a CpuSetEntry], index: usize) -> (found: Option<&'a CpuSetEntry>)
    ensures
        match found {
            Some(entry) => entry.logical_index == index && has_index(candidates@, index) && exists|
                i: int,
            |
                {
                    &&& 0 <= i < candidates@.len()
                    &&& #[trigger] candidates@[i] == entry
                    &&& forall|j: int|
                        0 <= j < i ==> (#[trigger] candidates@[j]).logical_index != index
                },
            None => !has_index(candidates@, index),
        },
{
    let mut i: usize = 0;
    while i < candidates.len()
        invariant
            i <= candidates@.len(),
            forall|j: int| 0 <= j < i ==> (#[trigger] candidates@[j]).logical_index != index,
        decreases candidates@.len() - i,
    {
        let entry: &'a CpuSetEntry = candidates[i];
        if entry.logical_index == index {
            assert(candidates@[i as int] == entry);
            return Some(entry);
        }
        i = i + 1;
    }
    None
}

/// The logical processors that one number stands for: itself, where one of `candidates` has it
/// and a mask can hold it.
pub open spec fn numbered_index(candidates: Seq<&CpuSetEntry>, index: usize) -> Seq<usize> {
    if has_index(candidates, index) && index < usize::BITS {
        seq![index]
    } else {
        Seq::empty()
    }
}

/// Adds the logical processor `index` to `mask` where one of `candidates` has it.
pub fn add_filtered_logical_index_to_mask(
    mask: &mut usize,
    candidates: &[&CpuSetEntry],
    index: usize,
)
    ensures
        mask::is_union(*final(mask), *old(mask), numbered_index(candidates@, index)),
{
    let ghost start = *mask;
    match find_index(candidates, index) {
        None => {},
        Some(entry) => {
            match add_logical_index_to_mask(mask, entry.logical_index) {
                Ok(_) => {
                    assert(mask::is_union(start, start, Seq::empty()));
                    proof {
                        lemma_one_more(*mask, start, start, Seq::empty(), index);
                    }
                    assert(numbered_index(candidates@, index) =~= Seq::<usize>::empty().push(
                        index,
                    ));
                },
                Err(_) => {},
            }
        },
    }
}

/// `terms` asks for the efficient and the low-power processors, and for nothing else.
pub open spec fn is_efficiency_plus_low_power(terms: Seq<AffinityTerm>) -> bool {
    &&& terms.len() == 2
    &&& terms.contains(AffinityTerm::Efficiency)
    &&& terms.contains(AffinityTerm::LowPowerEfficiency)
}

pub fn is_homogeneous_efficiency_plus_lpe(terms: &[AffinityTerm]) -> (both: bool)
    ensures
        both == is_efficiency_plus_low_power(terms@),
{
    if terms.len() != 2 {
        return false;
    }
    let both = (terms[0] == AffinityTerm::Efficiency && terms[1]
        == AffinityTerm::LowPowerEfficiency) || (terms[0] == AffinityTerm::LowPowerEfficiency
        && terms[1] == AffinityTerm::Efficiency);
    proof {
        if both {
            assert(terms@[0] == AffinityTerm::Efficiency || terms@[1] == AffinityTerm::Efficiency);
        }
    }
    both
}

/// The processors with an odd logical index: every second one.
pub fn homogeneous_efficiency_entries<'a>(candidates: &[&'a CpuSetEntry]) -> (chosen: Vec<
    &'a CpuSetEntry,
>)
    ensures
        chosen@ == picked(candidates@, EntryFilter::OddIndex),
{
    pick(candidates, &EntryFilter::OddIndex)
}

/// `sorted` with `entry` put behind every entry whose logical index is not larger.
pub open spec fn put_in_order<'a>(sorted: Seq<&'a CpuSetEntry>, entry: &'a CpuSetEntry) -> Seq<
    &'a CpuSetEntry,
>
    decreases sorted.len(),
{
    if sorted.len() == 0 || sorted.last().logical_index <= entry.logical_index {
        sorted.push(entry)
    } else {
        put_in_order(sorted.drop_last(), entry).push(sorted.last())
    }
}

/// `entries` in the order of their logical indexes, equal ones in their former order.
pub open spec fn by_index(entries: Seq<&CpuSetEntry>) -> Seq<&CpuSetEntry>
    decreases entries.len(),
{
    if entries.len() == 0 {
        Seq::empty()
    } else {
        put_in_order(by_index(entries.drop_last()), entries.last())
    }
}

pub open spec fn in_index_order(entries: Seq<&CpuSetEntry>) -> bool {
    forall|i: int, j: int|
        0 <= i <= j < entries.len() ==> (#[trigger] entries[i]).logical_index <= (
        #[trigger] entries[j]).logical_index
}

proof fn lemma_put_in_order(sorted: Seq<&CpuSetEntry>, entry: &CpuSetEntry)
    requires
        in_index_order(sorted),
    ensures
        in_index_order(put_in_order(sorted, entry)),
        put_in_order(sorted, entry).to_multiset() == sorted.to_multiset().insert(entry),
        put_in_order(sorted, entry).len() == sorted.len() + 1,
        sorted.len() > 0 && sorted.last().logical_index > entry.logical_index ==> put_in_order(
            sorted,
            entry,
        ).last() == sorted.last(),
    decreases sorted.len(),
{
    broadcast use vstd::seq_lib::group_to_multiset_ensures;

    if sorted.len() == 0 || sorted.last().logical_index <= entry.logical_index {
        let after = sorted.push(entry);
        assert(put_in_order(sorted, entry) == after);
        assert forall|i: int, j: int| 0 <= i <= j < after.len() implies (
        #[trigger] after[i]).logical_index <= (#[trigger] after[j]).logical_index by {
            if i < sorted.len() {
                assert(sorted[i].logical_index <= sorted[sorted.len() - 1].logical_index);
            }
        }
    } else {
        let rest = sorted.drop_last();
        lemma_put_in_order(rest, entry);
        let shorter = put_in_order(rest, entry);
        let after = shorter.push(sorted.last());
        assert(rest.push(sorted.last()) =~= sorted);
        assert(shorter.to_multiset() == rest.to_multiset().insert(entry));
        assert(after.to_multiset() =~= sorted.to_multiset().insert(entry));
        assert(shorter.last().logical_index <= sorted.last().logical_index) by {
            if rest.len() > 0 && rest.last().logical_index > entry.logical_index {
                assert(shorter.last() == rest.last());
                assert(sorted[sorted.len() - 2].logical_index <= sorted[sorted.len()
                    - 1].logical_index);
            } else {
                assert(shorter.last() == entry);
            }
        }
        assert forall|i: int, j: int| 0 <= i <= j < after.len() implies (
        #[trigger] after[i]).logical_index <= (#[trigger] after[j]).logical_index by {
            if j == shorter.len() && i < j {
                assert(shorter[i].logical_index <= shorter[shorter.len() - 1].logical_index);
            }
        }
    }
}

/// Ordering by logical index keeps every entry and puts them in order.
pub proof fn lemma_by_index(entries: Seq<&CpuSetEntry>)
    ensures
        in_index_order(by_index(entries)),
        by_index(entries).to_multiset() == entries.to_multiset(),
        by_index(entries).len() == entries.len(),
    decreases entries.len(),
{
    broadcast use vstd::seq_lib::group_to_multiset_ensures;

    if entries.len() > 0 {
        lemma_by_index(entries.drop_last());
        lemma_put_in_order(by_index(entries.drop_last()), entries.last());
        assert(entries.drop_last().push(entries.last()) =~= entries);
    } else {
        assert(entries =~= Seq::empty());
    }
}

fn insert_in_order<'a>(sorted: &mut Vec<&'a CpuSetEntry>, entry: &'a CpuSetEntry)
    ensures
        final(sorted)@ == put_in_order(old(sorted)@, entry),
{
    let ghost before = sorted@;
    let mut at: usize = sorted.len();
    assert(before.subrange(0, before.len() as int) =~= before);
    assert(before.subrange(before.len() as int, before.len() as int) =~= Seq::empty());
    assert(put_in_order(before, entry) =~= put_in_order(before, entry) + before.subrange(
        before.len() as int,
        before.len() as int,
    ));
    while at > 0 && sorted[at - 1].logical_index > entry.logical_index
        invariant
            at <= before.len(),
            sorted@ == before,
            put_in_order(before, entry) == put_in_order(before.subrange(0, at as int), entry)
                + before.subrange(at as int, before.len() as int),
        decreases at,
    {
        let ghost here = before.subrange(0, at as int);
        assert(here.drop_last() =~= before.subrange(0, at - 1));
        assert(here.last() == before[at - 1]);
        assert(put_in_order(before, entry) =~= put_in_order(before.subrange(0, at - 1), entry)
            + before.subrange(at - 1, before.len() as int));
        at = at - 1;
    }
    sorted.insert(at, entry);
    let ghost here = before.subrange(0, at as int);
    assert(here.len() > 0 ==> here.last() == before[at - 1]);
    assert(put_in_order(here, entry) == here.push(entry));
    assert(sorted@ =~= put_in_order(before, entry));
}

fn ordered_by_index<'a>(entries: &[&'a CpuSetEntry]) -> (sorted: Vec<&'a CpuSetEntry>)
    ensures
        sorted@ == by_index(entries@),
{
    let mut sorted: Vec<&'a CpuSetEntry> = Vec::new();
    let mut i: usize = 0;
    assert(entries@.subrange(0, 0) =~= Seq::empty());
    while i < entries.len()
        invariant
            i <= entries@.len(),
            sorted@ == by_index(entries@.subrange(0, i as int)),
        decreases entries@.len() - i,
    {
        let entry: &'a CpuSetEntry = entries[i];
        assert(entries@.subrange(0, i + 1).drop_last() =~= entries@.subrange(0, i as int));
        insert_in_order(&mut sorted, entry);
        i = i + 1;
    }
    assert(entries@.subrange(0, entries@.len() as int) =~= entries@);
    sorted
}

/// The first of `entries` with the logical index `index`, if there is one.
pub open spec fn first_with_index(entries: Seq<&CpuSetEntry>, index: usize) -> Seq<&CpuSetEntry>
    decreases entries.len(),
{
    if entries.len() == 0 {
        Seq::empty()
    } else if entries[0].logical_index == index {
        seq![entries[0]]
    } else {
        first_with_index(entries.subrange(1, entries.len() as int), index)
    }
}

/// At most `steps` of `entries`: those with the logical indexes `from`, `from - 2`, and so on.
pub open spec fn every_second_down(
    entries: Seq<&CpuSetEntry>,
    from: usize,
    steps: nat,
) -> Seq<&CpuSetEntry>
    decreases steps,
{
    if steps == 0 {
        Seq::empty()
    } else if from < 2 {
        first_with_index(entries, from)
    } else {
        first_with_index(entries, from) + every_second_down(
            entries,
            (from - 2) as usize,
            (steps - 1) as nat,
        )
    }
}

/// The processors that stand in for a low-power tier where all processors are alike: the last
/// two of up to seven, the last four of eight, and of more every second one down from the last,
/// four in all.
pub open spec fn uniform_low_power(candidates: Seq<&CpuSetEntry>) -> Seq<&CpuSetEntry> {
    let sorted = by_index(candidates);
    let count = sorted.len() as int;
    if count <= 2 {
        sorted
    } else if count <= 7 {
        sorted.subrange(count - 2, count)
    } else if count == 8 {
        sorted.subrange(count - 4, count)
    } else {
        every_second_down(sorted, sorted.last().logical_index, 4)
    }
}

pub proof fn lemma_first_with_index(entries: Seq<&CpuSetEntry>, index: usize, at: int)
    requires
        0 <= at <= entries.len(),
        forall|j: int| 0 <= j < at ==> (#[trigger] entries[j]).logical_index != index,
        at < entries.len() ==> entries[at].logical_index == index,
    ensures
        first_with_index(entries, index) == if at < entries.len() {
            seq![entries[at]]
        } else {
            Seq::empty()
        },
    decreases entries.len(),
{
    if at > 0 {
        let rest = entries.subrange(1, entries.len() as int);
        assert(entries[0].logical_index != index);
        assert forall|j: int| 0 <= j < at - 1 implies (#[trigger] rest[j]).logical_index
            != index by {
            assert(rest[j] == entries[j + 1]);
        }
        lemma_first_with_index(rest, index, at - 1);
    }
}

fn tail<'a>(entries: &Vec<&'a CpuSetEntry>, from: usize) -> (rest: Vec<&'a CpuSetEntry>)
    requires
        from <= entries@.len(),
    ensures
        rest@ == entries@.subrange(from as int, entries@.len() as int),
{
    let mut rest: Vec<&'a CpuSetEntry> = Vec::new();
    let mut i: usize = from;
    while i < entries.len()
        invariant
            from <= i <= entries@.len(),
            rest@ == entries@.subrange(from as int, i as int),
        decreases entries@.len() - i,
    {
        rest.push(entries[i]);
        i = i + 1;
        assert(rest@ =~= entries@.subrange(from as int, i as int));
    }
    rest
}

pub fn homogeneous_low_power_efficiency_entries<'a>(candidates: &[&'a CpuSetEntry]) -> (chosen: Vec<
    &'a CpuSetEntry,
>)
    ensures
        chosen@ == uniform_low_power(candidates@),
{
    let sorted = ordered_by_index(candidates);
    proof {
        lemma_by_index(candidates@);
    }
    let count = sorted.len();
    if count <= 2 {
        return sorted;
    }
    if count <= 7 {
        return tail(&sorted, count - 2);
    }
    if count == 8 {
        return tail(&sorted, count - 4);
    }
    let mut chosen: Vec<&'a CpuSetEntry> = Vec::new();
    let mut index: usize = sorted[count - 1].logical_index;
    let mut steps: u8 = 4;
    let ghost whole = every_second_down(sorted@, index, 4);
    while steps > 0
        invariant_except_break
            steps <= 4,
            whole == chosen@ + every_second_down(sorted@, index, steps as nat),
        ensures
            whole == chosen@,
        decreases steps,
    {
        let ghost before = chosen@;
        match find_index(sorted.as_slice(), index) {
            Some(entry) => {
                proof {
                    let at = choose|i: int|
                        {
                            &&& 0 <= i < sorted@.len()
                            &&& #[trigger] sorted@[i] == entry
                            &&& forall|j: int|
                                0 <= j < i ==> (#[trigger] sorted@[j]).logical_index != index
                        };
                    lemma_first_with_index(sorted@, index, at);
                }
                chosen.push(entry);
            },
            None => {
                proof {
                    lemma_first_with_index(sorted@, index, sorted@.len() as int);
                }
            },
        }
        assert(chosen@ =~= before + first_with_index(sorted@, index));
        if index < 2 {
            assert(whole =~= chosen@);
            break;
        }
        index = index - 2;
        steps = steps - 1;
        assert(whole =~= chosen@ + every_second_down(sorted@, index, steps as nat));
        assert(steps == 0 ==> whole =~= chosen@);
    }
    chosen
}

/// A processor that may be handed to a process: in the first group, and neither reserved for
/// another process nor for real-time work.
pub open spec fn is_usable(entry: CpuSetEntry) -> bool {
    entry.group == 0 && !entry.allocated_to_other && !entry.realtime
}

/// The processors that may be handed to a process, in their order.
pub open spec fn usable<'a>(entries: Seq<CpuSetEntry>) -> Seq<&'a CpuSetEntry> {
    entries.filter(|entry: CpuSetEntry| is_usable(entry)).map_values(|entry: CpuSetEntry| &entry)
}

fn usable_entries(entries: &[CpuSetEntry]) -> (candidates: Vec<&CpuSetEntry>)
    ensures
        candidates@ == usable(entries@),
{
    let mut candidates: Vec<&CpuSetEntry> = Vec::new();
    let ghost wanted = |entry: CpuSetEntry| is_usable(entry);
    let mut i: usize = 0;
    proof {
        reveal(Seq::filter);
        assert(entries@.subrange(0, 0) =~= Seq::empty());
        assert(candidates@ =~= usable(entries@.subrange(0, 0)));
    }
    while i < entries.len()
        invariant
            i <= entries@.len(),
            wanted == (|entry: CpuSetEntry| is_usable(entry)),
            candidates@ == usable(entries@.subrange(0, i as int)),
        decreases entries@.len() - i,
    {
        let entry = &entries[i];
        proof {
            let before = entries@.subrange(0, i as int);
            assert(entries@.subrange(0, i + 1) =~= before.push(*entry));
            before.lemma_filter_push(*entry, wanted);
        }
        if entry.group == 0 && !entry.allocated_to_other && !entry.realtime {
            candidates.push(entry);
        }
        assert(candidates@ =~= usable(entries@.subrange(0, i + 1)));
        i = i + 1;
    }
    assert(entries@.subrange(0, entries@.len() as int) =~= entries@);
    candidates
}

/// The logical processors that an expression stands for as a whole, where all processors are
/// alike and it asks for nothing but efficient and low-power ones.
pub open spec fn whole_indexes(
    terms: Seq<AffinityTerm>,
    candidates: Seq<&CpuSetEntry>,
) -> Seq<usize> {
    if !homogeneous(candidates) {
        Seq::empty()
    } else if terms == seq![AffinityTerm::Efficiency] || is_efficiency_plus_low_power(terms) {
        indexes(picked(candidates, EntryFilter::OddIndex))
    } else if terms == seq![AffinityTerm::LowPowerEfficiency] {
        indexes(uniform_low_power(candidates))
    } else {
        Seq::empty()
    }
}

/// The logical processors that one term stands for.
pub open spec fn term_indexes(term: AffinityTerm, candidates: Seq<&CpuSetEntry>) -> Seq<usize> {
    match term {
        AffinityTerm::LogicalIndex(index) => numbered_index(candidates, index),
        AffinityTerm::Performance => indexes(performance_tier(candidates)),
        AffinityTerm::Efficiency => indexes(efficiency_tier(candidates)),
        AffinityTerm::LowPowerEfficiency => indexes(low_power_tier(candidates)),
        AffinityTerm::Cache => indexes(cache_tier(candidates)),
    }
}

/// The logical processors that the terms stand for one by one.
pub open spec fn summed_indexes(
    terms: Seq<AffinityTerm>,
    candidates: Seq<&CpuSetEntry>,
) -> Seq<usize>
    decreases terms.len(),
{
    if terms.len() == 0 {
        Seq::empty()
    } else {
        summed_indexes(terms.drop_last(), candidates) + term_indexes(terms.last(), candidates)
    }
}

/// The logical processors that an expression stands for.
pub open spec fn requested_indexes(
    terms: Seq<AffinityTerm>,
    candidates: Seq<&CpuSetEntry>,
) -> Seq<usize> {
    whole_indexes(terms, candidates) + summed_indexes(terms, candidates)
}

/// What an expression resolves to on the processors `entries`.
pub open spec fn resolves_to(
    terms: Seq<AffinityTerm>,
    entries: Seq<CpuSetEntry>,
    found: Result<Option<usize>, String>,
) -> bool {
    let wanted = requested_indexes(terms, usable(entries));
    if entries.len() == 0 {
        found matches Err(message) && message@ == "CPU topology is empty"@
    } else if usable(entries).len() == 0 {
        found matches Err(message) && message@
            == "no usable group-0 CPU-set entries are available"@
    } else if mask::all_fit(wanted) {
        match found {
            Ok(Some(mask)) => wanted.len() > 0 && forall|cpu: int|
                0 <= cpu < usize::BITS ==> (#[trigger] mask::has_cpu(mask, cpu)
                    <==> wanted.contains(cpu as usize)),
            Ok(None) => wanted.len() == 0,
            Err(_) => false,
        }
    } else {
        found matches Err(message) && is_refusal(wanted, message@)
    }
}

/// The first refused index of a part is the first refused index of the whole.
proof fn lemma_first_unfit_of_sum(before: Seq<usize>, part: Seq<usize>, after: Seq<usize>, k: int)
    requires
        mask::all_fit(before),
        is_first_unfit(part, k),
    ensures
        is_first_unfit(before + part + after, before.len() + k),
        (before + part + after)[before.len() + k] == part[k],
        !mask::all_fit(before + part + after),
{
    let all = before + part + after;
    let at = before.len() + k;
    assert(all[at] == part[k]);
    assert forall|j: int| 0 <= j < at implies (#[trigger] all[j]) < usize::BITS by {
        if j < before.len() {
            assert(all[j] == before[j]);
        } else {
            assert(all[j] == part[j - before.len()]);
        }
    }
}

/// The summed indexes of a prefix of the terms begin those of all of them.
proof fn lemma_summed_prefix(terms: Seq<AffinityTerm>, n: int, candidates: Seq<&CpuSetEntry>)
    requires
        0 <= n <= terms.len(),
    ensures
        exists|rest: Seq<usize>|
            summed_indexes(terms, candidates) == #[trigger] (summed_indexes(
                terms.subrange(0, n),
                candidates,
            ) + rest),
    decreases terms.len() - n,
{
    let here = summed_indexes(terms.subrange(0, n), candidates);
    if n == terms.len() {
        assert(terms.subrange(0, n) =~= terms);
        assert(here =~= here + Seq::<usize>::empty());
    } else {
        lemma_summed_prefix(terms, n + 1, candidates);
        let next = terms.subrange(0, n + 1);
        assert(next.drop_last() =~= terms.subrange(0, n));
        let rest = choose|rest: Seq<usize>|
            summed_indexes(terms, candidates) == #[trigger] (summed_indexes(next, candidates)
                + rest);
        assert(summed_indexes(terms, candidates) =~= here + (term_indexes(terms[n], candidates)
            + rest));
    }
}

impl<'a> AffinityTiers<'a> {
    fn add_term_to_mask(
        &self,
        mask: &mut usize,
        candidates: &[&CpuSetEntry],
        term: &AffinityTerm,
    ) -> (added: Result<(), String>)
        requires
            self.performance@ == performance_tier(candidates@),
            self.efficiency@ == efficiency_tier(candidates@),
            self.low_power_efficiency@ == low_power_tier(candidates@),
            self.cache@ == cache_tier(candidates@),
        ensures
            match added {
                Ok(_) => mask::all_fit(term_indexes(*term, candidates@)) && mask::is_union(
                    *final(mask),
                    *old(mask),
                    term_indexes(*term, candidates@),
                ),
                Err(message) => is_refusal(term_indexes(*term, candidates@), message@),
            },
    {
        match term {
            AffinityTerm::LogicalIndex(index) => {
                add_filtered_logical_index_to_mask(mask, candidates, *index);
                Ok(())
            },
            AffinityTerm::Performance => add_entries_to_mask(mask, self.performance.as_slice()),
            AffinityTerm::Efficiency => add_entries_to_mask(mask, self.efficiency.as_slice()),
            AffinityTerm::LowPowerEfficiency => add_entries_to_mask(
                mask,
                self.low_power_efficiency.as_slice(),
            ),
            AffinityTerm::Cache => add_entries_to_mask(mask, self.cache.as_slice()),
        }
    }
}

fn is_single(terms: &[AffinityTerm], term: AffinityTerm) -> (single: bool)
    ensures
        single == (terms@ == seq![term]),
{
    let single = terms.len() == 1 && terms[0] == term;
    proof {
        if single {
            assert(terms@ =~= seq![term]);
        }
    }
    single
}

/// Adds the logical processors that the expression stands for as a whole.
fn add_whole_to_mask(
    mask: &mut usize,
    terms: &[AffinityTerm],
    candidates: &[&CpuSetEntry],
    uniform: bool,
) -> (added: Result<(), String>)
    requires
        uniform == homogeneous(candidates@),
    ensures
        match added {
            Ok(_) => mask::all_fit(whole_indexes(terms@, candidates@)) && mask::is_union(
                *final(mask),
                *old(mask),
                whole_indexes(terms@, candidates@),
            ),
            Err(message) => is_refusal(whole_indexes(terms@, candidates@), message@),
        },
{
    if uniform {
        if is_single(terms, AffinityTerm::Efficiency) || is_homogeneous_efficiency_plus_lpe(
            terms,
        ) {
            let entries = homogeneous_efficiency_entries(candidates);
            return add_entries_to_mask(mask, entries.as_slice());
        }
        if is_single(terms, AffinityTerm::LowPowerEfficiency) {
            let entries = homogeneous_low_power_efficiency_entries(candidates);
            return add_entries_to_mask(mask, entries.as_slice());
        }
    }
    Ok(())
}

/// A sum of tiers and logical processor numbers, with the text it was read from.
#[derive(Debug, Eq, PartialEq)]
pub struct AffinityExpression {
    pub source: String,
    pub terms: Vec<AffinityTerm>,
}

impl Clone for AffinityExpression {
    fn clone(&self) -> (copy: Self)
        ensures
            copy.source@ == self.source@,
            copy.terms@ == self.terms@,
    {
        AffinityExpression { source: self.source.clone(), terms: self.terms.clone() }
    }
}

impl AffinityExpression {
    /// The processors that the expression stands for on the processors `entries`.
    pub fn mask_from_entries(&self, entries: &[CpuSetEntry]) -> (found: Result<
        Option<usize>,
        String,
    >)
        ensures
            resolves_to(self.terms@, entries@, found),
    {
        if entries.len() == 0 {
            return Err("CPU topology is empty".to_string());
        }
        let candidates = usable_entries(entries);
        if candidates.len() == 0 {
            return Err("no usable group-0 CPU-set entries are available".to_string());
        }
        let classes = efficiency_classes(candidates.as_slice());
        proof {
            lemma_class_list(classes@, candidates@);
        }
        let uniform = classes.len() == 1;
        let tiers = match AffinityTiers::classify(candidates.as_slice()) {
            Ok(tiers) => tiers,
            Err(message) => {
                return Err(message);
            },
        };
        let ghost whole = whole_indexes(self.terms@, candidates@);
        let ghost wanted = requested_indexes(self.terms@, candidates@);
        let mut mask: usize = 0;
        match add_whole_to_mask(&mut mask, self.terms.as_slice(), candidates.as_slice(), uniform) {
            Ok(_) => {},
            Err(message) => {
                proof {
                    let k = choose|k: int| #[trigger]
                        is_first_unfit(whole, k) && message@ == unfit_message(whole[k]);
                    let after = summed_indexes(self.terms@, candidates@);
                    lemma_first_unfit_of_sum(Seq::empty(), whole, after, k);
                    assert(Seq::<usize>::empty() + whole + after =~= wanted);
                }
                return Err(message);
            },
        }
        let mut i: usize = 0;
        proof {
            assert(self.terms@.subrange(0, 0) =~= Seq::empty());
            assert(whole + summed_indexes(self.terms@.subrange(0, 0), candidates@) =~= whole);
        }
        while i < self.terms.len()
            invariant
                i <= self.terms@.len(),
                entries@.len() > 0,
                candidates@ == usable(entries@),
                candidates@.len() > 0,
                whole == whole_indexes(self.terms@, candidates@),
                wanted == requested_indexes(self.terms@, candidates@),
                tiers.performance@ == performance_tier(candidates@),
                tiers.efficiency@ == efficiency_tier(candidates@),
                tiers.low_power_efficiency@ == low_power_tier(candidates@),
                tiers.cache@ == cache_tier(candidates@),
                mask::all_fit(
                    whole + summed_indexes(self.terms@.subrange(0, i as int), candidates@),
                ),
                mask::is_union(
                    mask,
                    0,
                    whole + summed_indexes(self.terms@.subrange(0, i as int), candidates@),
                ),
            decreases self.terms@.len() - i,
        {
            let ghost before = mask;
            let ghost prefix = summed_indexes(self.terms@.subrange(0, i as int), candidates@);
            let ghost next = self.terms@.subrange(0, i + 1);
            let ghost part = term_indexes(self.terms@[i as int], candidates@);
            assert(next.drop_last() =~= self.terms@.subrange(0, i as int));
            assert(summed_indexes(next, candidates@) == prefix + part);
            match tiers.add_term_to_mask(&mut mask, candidates.as_slice(), &self.terms[i]) {
                Ok(_) => {
                    proof {
                        lemma_union_chain(mask, before, 0, whole + prefix, part);
                        assert(whole + prefix + part =~= whole + summed_indexes(next, candidates@));
                        assert forall|k: int|
                            0 <= k < (whole + summed_indexes(next, candidates@)).len() implies (
                        #[trigger] (whole + summed_indexes(next, candidates@))[k])
                            < usize::BITS by {
                            if k < (whole + prefix).len() {
                                assert((whole + summed_indexes(next, candidates@))[k] == (whole
                                    + prefix)[k]);
                            } else {
                                assert((whole + summed_indexes(next, candidates@))[k] == part[k - (
                                whole + prefix).len()]);
                            }
                        }
                    }
                },
                Err(message) => {
                    proof {
                        let k = choose|k: int| #[trigger]
                            is_first_unfit(part, k) && message@ == unfit_message(part[k]);
                        lemma_summed_prefix(self.terms@, i + 1, candidates@);
                        let rest = choose|rest: Seq<usize>|
                            summed_indexes(self.terms@, candidates@) == #[trigger] (
                            summed_indexes(next, candidates@) + rest);
                        lemma_first_unfit_of_sum(whole + prefix, part, rest, k);
                        assert(whole + prefix + part + rest =~= wanted);
                    }
                    return Err(message);
                },
            }
            i = i + 1;
        }
        proof {
            assert(self.terms@.subrange(0, self.terms@.len() as int) =~= self.terms@);
            mask::lemma_zero_iff_no_cpu(mask);
            assert forall|cpu: int| 0 <= cpu < usize::BITS implies (#[trigger] mask::has_cpu(
                mask,
                cpu,
            ) <==> wanted.contains(cpu as usize)) by {
                mask::lemma_empty_mask(cpu);
            }
            if wanted.len() > 0 {
                assert(wanted.contains(wanted[0]));
                assert(mask::has_cpu(mask, wanted[0] as int));
            }
        }
        if mask == 0 {
            Ok(None)
        } else {
            Ok(Some(mask))
        }
    }

    /// The processors that the expression stands for on the machine `topology`.
    pub fn mask(&self, topology: &CpuTopology) -> (found: Result<Option<usize>, ServiceError>)
        ensures
            match found {
                Ok(mask) => resolves_to(self.terms@, topology.entries@, Ok(mask)),
                Err(error) => error matches ServiceError::Affinity { expression, message }
                    && expression@ == self.source@ && resolves_to(
                    self.terms@,
                    topology.entries@,
                    Err(message),
                ),
            },
    {
        match self.mask_from_entries(topology.entries.as_slice()) {
            Ok(mask) => Ok(mask),
            Err(message) => Err(
                ServiceError::Affinity { expression: self.source.clone(), message },
            ),
        }
    }
}

/// Where a process may run: on a fixed mask, or on what an expression stands for.
#[derive(Debug, Eq, PartialEq)]
pub enum AffinityPolicy {
    Mask(usize),
    Expression(AffinityExpression),
}

/// Two policies that say the same.
pub open spec fn same_policy(a: AffinityPolicy, b: AffinityPolicy) -> bool {
    match (a, b) {
        (AffinityPolicy::Mask(x), AffinityPolicy::Mask(y)) => x == y,
        (AffinityPolicy::Expression(x), AffinityPolicy::Expression(y)) => x.source@ == y.source@
            && x.terms@ == y.terms@,
        _ => false,
    }
}

impl Clone for AffinityPolicy {
    fn clone(&self) -> (copy: Self)
        ensures
            same_policy(copy, *self),
    {
        match self {
            AffinityPolicy::Mask(mask) => AffinityPolicy::Mask(*mask),
            AffinityPolicy::Expression(expression) => AffinityPolicy::Expression(
                expression.clone(),
            ),
        }
    }
}

impl AffinityPolicy {
    pub fn mask(&self, topology: &CpuTopology) -> (found: Result<Option<usize>, ServiceError>)
        ensures
            match self {
                AffinityPolicy::Mask(mask) => found == Ok::<Option<usize>, ServiceError>(
                    Some(*mask),
                ),
                AffinityPolicy::Expression(expression) => match found {
                    Ok(mask) => resolves_to(expression.terms@, topology.entries@, Ok(mask)),
                    Err(error) => error matches ServiceError::Affinity {
                        expression: source,
                        message,
                    } && source@ == expression.source@ && resolves_to(
                        expression.terms@,
                        topology.entries@,
                        Err(message),
                    ),
                },
            },
    {
        match self {
            AffinityPolicy::Mask(mask) => Ok(Some(*mask)),
            AffinityPolicy::Expression(expression) => expression.mask(topology),
        }
    }

    /// The text by which the policy is known in messages.
    pub open spec fn log_text(&self) -> Seq<char> {
        match self {
            AffinityPolicy::Mask(mask) => "0x"@ + text::hexadecimal(*mask as nat),
            AffinityPolicy::Expression(expression) => expression.source@,
        }
    }

    pub fn log_value(&self) -> (value: String)
        ensures
            value@ == self.log_text(),
    {
        match self {
            AffinityPolicy::Mask(mask) => {
                let mut value = "0x".to_string();
                let digits = text::text_of(&text::hexadecimal_characters(*mask as u64));
                text::append(&mut value, digits.as_str());
                value
            },
            AffinityPolicy::Expression(expression) => expression.source.clone(),
        }
    }
}

/// The term that a trimmed piece of an expression writes.
pub open spec fn term_of(word: Seq<char>) -> Option<AffinityTerm> {
    let upper = text::uppered(word);
    if upper == "P"@ {
        Some(AffinityTerm::Performance)
    } else if upper == "E"@ {
        Some(AffinityTerm::Efficiency)
    } else if upper == "LPE"@ || upper == "LP-E"@ {
        Some(AffinityTerm::LowPowerEfficiency)
    } else if upper == "C"@ || upper == "X3D"@ {
        Some(AffinityTerm::Cache)
    } else {
        match text::unsigned(word) {
            Some(value) => if value <= usize::MAX {
                Some(AffinityTerm::LogicalIndex(value as usize))
            } else {
                None
            },
            None => None,
        }
    }
}

/// The pieces of an expression, each trimmed.
pub open spec fn words(source: Seq<char>) -> Seq<Seq<char>> {
    text::split(text::trim(source), '+').map_values(|piece: Seq<char>| text::trim(piece))
}

/// Every piece of the expression writes a term.
pub open spec fn is_expression(source: Seq<char>) -> bool {
    &&& text::trim(source).len() > 0
    &&& forall|i: int| 0 <= i < words(source).len() ==> term_of(#[trigger] words(source)[i]) is Some
}

/// The terms that the expression writes.
pub open spec fn terms_of(source: Seq<char>) -> Seq<AffinityTerm> {
    words(source).map_values(|word: Seq<char>| term_of(word)->0)
}

/// The text of the refusal of a piece that writes no term.
pub open spec fn refused_word(source: Seq<char>, word: Seq<char>) -> Seq<char> {
    if word.len() == 0 {
        "empty affinity term in "@ + text::debug_quoted(text::trim(source))
    } else {
        "unsupported affinity term "@ + text::debug_quoted(word)
            + "; expected P, E, LPE, C, or a 0-based logical processor index: "@
            + text::parse_usize_error(word)
    }
}

/// `k` is the first piece of the expression that writes no term.
pub open spec fn is_first_refused(source: Seq<char>, k: int) -> bool {
    &&& 0 <= k < words(source).len()
    &&& term_of(words(source)[k]) is None
    &&& forall|j: int| 0 <= j < k ==> term_of(#[trigger] words(source)[j]) is Some
}

/// `message` refuses the expression: it is empty, or one of its pieces writes no term.
pub open spec fn is_refused_source(source: Seq<char>, message: Seq<char>) -> bool {
    if text::trim(source).len() == 0 {
        message == "affinity expression must not be empty"@
    } else {
        exists|k: int| #[trigger]
            is_first_refused(source, k) && message == refused_word(source, words(source)[k])
    }
}

proof fn lemma_empty_word()
    ensures
        term_of(Seq::empty()) is None,
{
    reveal_strlit("P");
    reveal_strlit("E");
    reveal_strlit("LPE");
    reveal_strlit("LP-E");
    reveal_strlit("C");
    reveal_strlit("X3D");
    assert(text::uppered(Seq::empty()).len() == 0);
    assert("P"@.len() == 1 && "E"@.len() == 1 && "LPE"@.len() == 3 && "LP-E"@.len() == 4 && "C"@.len()
        == 1 && "X3D"@.len() == 3);
}

/// The term that the piece `word` writes, or why it writes none.
fn parse_word(word: &str) -> (parsed: Result<AffinityTerm, String>)
    ensures
        match parsed {
            Ok(term) => term_of(word@) == Some(term),
            Err(reason) => term_of(word@) is None && reason@ == text::parse_usize_error(word@),
        },
{
    let upper = text::uppered_text(word);
    if text::same_text(upper.as_str(), "P") {
        Ok(AffinityTerm::Performance)
    } else if text::same_text(upper.as_str(), "E") {
        Ok(AffinityTerm::Efficiency)
    } else if text::same_text(upper.as_str(), "LPE") || text::same_text(upper.as_str(), "LP-E") {
        Ok(AffinityTerm::LowPowerEfficiency)
    } else if text::same_text(upper.as_str(), "C") || text::same_text(upper.as_str(), "X3D") {
        Ok(AffinityTerm::Cache)
    } else {
        match text::parse_usize(word) {
            Ok(index) => Ok(AffinityTerm::LogicalIndex(index)),
            Err(reason) => Err(reason),
        }
    }
}

impl AffinityExpression {
    /// Reads an expression: tiers and logical processor numbers, joined by `+`.
    pub fn parse(source: String) -> (parsed: Result<Self, String>)
        ensures
            match parsed {
                Ok(expression) => {
                    &&& is_expression(source@)
                    &&& expression.source@ == text::trim(source@)
                    &&& expression.terms@ == terms_of(source@)
                },
                Err(message) => is_refused_source(source@, message@),
            },
    {
        let trimmed = text::trimmed(source.as_str());
        if trimmed.as_str().is_empty() {
            return Err("affinity expression must not be empty".to_string());
        }
        let pieces = text::pieces(trimmed.as_str(), '+');
        let mut terms: Vec<AffinityTerm> = Vec::new();
        let mut i: usize = 0;
        while i < pieces.len()
            invariant
                i <= pieces@.len(),
                trimmed@ == text::trim(source@),
                trimmed@.len() > 0,
                text::views(pieces@) == text::split(trimmed@, '+'),
                terms@.len() == i,
                forall|j: int|
                    0 <= j < i ==> term_of(#[trigger] words(source@)[j]) == Some(terms@[j]),
            decreases pieces@.len() - i,
        {
            assert(text::views(pieces@)[i as int] == pieces@[i as int]@);
            let word = text::trimmed(pieces[i].as_str());
            assert(words(source@)[i as int] == word@);
            if word.as_str().is_empty() {
                let mut message = "empty affinity term in ".to_string();
                text::append(&mut message, text::quoted(trimmed.as_str()).as_str());
                proof {
                    lemma_empty_word();
                    assert(word@ =~= Seq::empty());
                    assert(is_first_refused(source@, i as int));
                }
                return Err(message);
            }
            match parse_word(word.as_str()) {
                Ok(term) => {
                    terms.push(term);
                },
                Err(reason) => {
                    let mut message = "unsupported affinity term ".to_string();
                    text::append(&mut message, text::quoted(word.as_str()).as_str());
                    text::append(
                        &mut message,
                        "; expected P, E, LPE, C, or a 0-based logical processor index: ",
                    );
                    text::append(&mut message, reason.as_str());
                    assert(is_first_refused(source@, i as int));
                    return Err(message);
                },
            }
            i = i + 1;
        }
        assert(terms@ =~= terms_of(source@));
        Ok(AffinityExpression { source: trimmed, terms })
    }
}

/// What is refused is no expression.
pub proof fn lemma_refused_is_no_expression(source: Seq<char>, message: Seq<char>)
    requires
        is_refused_source(source, message),
    ensures
        !is_expression(source),
{
    if text::trim(source).len() > 0 {
        let k = choose|k: int| is_first_refused(source, k);
        assert(is_first_refused(source, k));
        assert(term_of(words(source)[k]) is None);
    }
}

/// The name of a tier in an expression.
pub open spec fn term_name(term: AffinityTerm) -> Seq<char> {
    match term {
        AffinityTerm::Performance => "P"@,
        AffinityTerm::Efficiency => "E"@,
        AffinityTerm::LowPowerEfficiency => "LPE"@,
        AffinityTerm::Cache => "C"@,
        AffinityTerm::LogicalIndex(index) => text::decimal(index as nat),
    }
}

/// The expression that writes `terms`.
pub open spec fn source_of(terms: Seq<AffinityTerm>) -> Seq<char> {
    text::joined(terms.map_values(|term: AffinityTerm| term_name(term)), '+')
}

proof fn lemma_term_name(term: AffinityTerm)
    ensures
        term_of(term_name(term)) == Some(term),
        term_name(term).len() > 0,
        forall|i: int|
            0 <= i < term_name(term).len() ==> (#[trigger] term_name(term)[i]) != '+'
                && !text::is_space(term_name(term)[i]),
{
    reveal_strlit("P");
    reveal_strlit("E");
    reveal_strlit("LPE");
    reveal_strlit("LP-E");
    reveal_strlit("C");
    reveal_strlit("X3D");
    let name = term_name(term);
    let upper = text::uppered(name);
    match term {
        AffinityTerm::Performance => {
            assert(upper =~= "P"@);
        },
        AffinityTerm::Efficiency => {
            assert("P"@[0] == 'P' && "E"@[0] == 'E');
            assert(upper =~= "E"@);
        },
        AffinityTerm::LowPowerEfficiency => {
            assert(upper =~= "LPE"@);
            assert(upper.len() == 3);
        },
        AffinityTerm::Cache => {
            assert("P"@[0] == 'P' && "E"@[0] == 'E' && "C"@[0] == 'C');
            assert(upper =~= "C"@);
            assert(upper[0] == 'C');
        },
        AffinityTerm::LogicalIndex(index) => {
            text::lemma_decimal_round_trip(index as nat);
            assert(text::is_digit(name[0]));
            assert(upper[0] == name[0]);
            assert("P"@[0] == 'P' && "E"@[0] == 'E' && "LPE"@[0] == 'L' && "LP-E"@[0] == 'L'
                && "C"@[0] == 'C' && "X3D"@[0] == 'X');
        },
    }
}

/// Reading the expression that writes some terms gives back those terms.
pub proof fn law_written_terms_read_back(terms: Seq<AffinityTerm>)
    requires
        terms.len() > 0,
    ensures
        is_expression(source_of(terms)),
        terms_of(source_of(terms)) == terms,
        text::trim(source_of(terms)) == source_of(terms),
{
    let names = terms.map_values(|term: AffinityTerm| term_name(term));
    let source = source_of(terms);
    assert forall|i: int| 0 <= i < names.len() implies !(#[trigger] names[i]).contains('+')
        && names[i].len() > 0 && !text::is_space(names[i][0]) && !text::is_space(
        names[i].last(),
    ) by {
        lemma_term_name(terms[i]);
    }
    text::lemma_split_joined(names, '+');
    text::lemma_joined_ends(names, '+');
    text::lemma_trim_fixed(source);
    assert forall|i: int| 0 <= i < names.len() implies text::trim(#[trigger] names[i])
        == names[i] by {
        text::lemma_trim_fixed(names[i]);
    }
    assert(words(source) =~= names);
    assert forall|i: int| 0 <= i < words(source).len() implies term_of(#[trigger] words(source)[i])
        == Some(terms[i]) by {
        lemma_term_name(terms[i]);
    }
    assert(terms_of(source) =~= terms);
}

/// White space around an expression means nothing.
pub proof fn law_outer_space_means_nothing(source: Seq<char>)
    ensures
        is_expression(text::trim(source)) == is_expression(source),
        terms_of(text::trim(source)) == terms_of(source),
{
    text::lemma_trim_trims(source);
    text::lemma_trim_fixed(text::trim(source));
}

/// The case of a tier's name means nothing.
pub proof fn law_case_of_terms_means_nothing(a: Seq<char>, b: Seq<char>)
    requires
        text::same_ignoring_case(a, b),
    ensures
        term_of(a) == term_of(b),
{
    assert(text::lowered(a) == text::lowered(b));
    assert(a.len() == b.len()) by {
        assert(text::lowered(a).len() == a.len());
        assert(text::lowered(b).len() == b.len());
    }
    assert forall|i: int| 0 <= i < a.len() implies text::ascii_lower(#[trigger] a[i])
        == text::ascii_lower(b[i]) by {
        assert(text::lowered(a)[i] == text::ascii_lower(a[i]));
        assert(text::lowered(b)[i] == text::ascii_lower(b[i]));
    }
    assert(text::uppered(a) =~= text::uppered(b));
    assert(text::unsigned(a) is Some ==> a =~= b) by {
        if text::unsigned(a) is Some {
            lemma_number_has_no_case(a, b);
        }
    }
    assert(text::unsigned(b) is Some ==> a =~= b) by {
        if text::unsigned(b) is Some {
            lemma_number_has_no_case(b, a);
        }
    }
}

proof fn lemma_number_has_no_case(a: Seq<char>, b: Seq<char>)
    requires
        a.len() == b.len(),
        forall|i: int| 0 <= i < a.len() ==> text::ascii_lower(#[trigger] a[i]) == text::ascii_lower(b[i]),
        text::unsigned(a) is Some,
    ensures
        a == b,
{
    let body = if a.len() > 0 && a[0] == '+' {
        a.subrange(1, a.len() as int)
    } else {
        a
    };
    assert forall|i: int| 0 <= i < a.len() implies a[i] == b[i] by {
        assert(a[i] == '+' || text::is_digit(a[i])) by {
            if a[0] == '+' {
                if i > 0 {
                    assert(body[i - 1] == a[i]);
                }
            } else {
                assert(body[i] == a[i]);
            }
        }
        assert(text::ascii_lower(a[i]) == text::ascii_lower(b[i]));
    }
    assert(a =~= b);
}

/// Every member of `part` is one of `whole`.
pub open spec fn within(part: Seq<&CpuSetEntry>, whole: Seq<&CpuSetEntry>) -> bool {
    forall|entry: &CpuSetEntry| #[trigger] part.contains(entry) ==> whole.contains(entry)
}

pub proof fn lemma_picked(candidates: Seq<&CpuSetEntry>, filter: EntryFilter)
    ensures
        forall|entry: &CpuSetEntry| #[trigger]
            picked(candidates, filter).contains(entry) <==> candidates.contains(entry) && selects(
                filter,
                entry,
            ),
        within(picked(candidates, filter), candidates),
    decreases candidates.len(),
{
    reveal(Seq::filter);
    if candidates.len() > 0 {
        let before = candidates.drop_last();
        let last = candidates.last();
        lemma_picked(before, filter);
        let chosen = picked(before, filter);
        let all = picked(candidates, filter);
        assert(all == if selects(filter, last) {
            chosen.push(last)
        } else {
            chosen
        });
        assert forall|entry: &CpuSetEntry| #[trigger]
            all.contains(entry) <==> candidates.contains(entry) && selects(filter, entry) by {
            assert(chosen.contains(entry) <==> before.contains(entry) && selects(filter, entry));
            if candidates.contains(entry) {
                let i = choose|i: int| 0 <= i < candidates.len() && candidates[i] == entry;
                if i < before.len() {
                    assert(before[i] == entry);
                } else {
                    assert(entry == last);
                }
            }
            if before.contains(entry) {
                let i = choose|i: int| 0 <= i < before.len() && before[i] == entry;
                assert(candidates[i] == entry);
            }
            assert(candidates[candidates.len() - 1] == last);
            if selects(filter, last) {
                assert(all[all.len() - 1] == last);
                if chosen.contains(entry) {
                    let i = choose|i: int| 0 <= i < chosen.len() && chosen[i] == entry;
                    assert(all[i] == entry);
                }
                if all.contains(entry) {
                    let i = choose|i: int| 0 <= i < all.len() && all[i] == entry;
                    if i < chosen.len() {
                        assert(chosen[i] == entry);
                    }
                }
            }
        }
    }
}

pub proof fn lemma_indexes_within(part: Seq<&CpuSetEntry>, whole: Seq<&CpuSetEntry>)
    requires
        within(part, whole),
    ensures
        forall|index: usize| #[trigger]
            indexes(part).contains(index) ==> has_index(whole, index),
{
    assert forall|index: usize| #[trigger] indexes(part).contains(index) implies has_index(
        whole,
        index,
    ) by {
        let i = choose|i: int| 0 <= i < indexes(part).len() && indexes(part)[i] == index;
        assert(part.contains(part[i]));
        let j = choose|j: int| 0 <= j < whole.len() && whole[j] == part[i];
        assert(whole[j].logical_index == index);
    }
}

proof fn lemma_first_with_index_within(entries: Seq<&CpuSetEntry>, index: usize)
    ensures
        within(first_with_index(entries, index), entries),
    decreases entries.len(),
{
    if entries.len() > 0 {
        let rest = entries.subrange(1, entries.len() as int);
        let found = first_with_index(entries, index);
        lemma_first_with_index_within(rest, index);
        assert forall|entry: &CpuSetEntry| #[trigger]
            found.contains(entry) implies entries.contains(entry) by {
            if entries[0].logical_index == index {
                assert(found[0] == entries[0]);
            } else {
                assert(rest.contains(entry));
                let i = choose|i: int| 0 <= i < rest.len() && rest[i] == entry;
                assert(entries[i + 1] == entry);
            }
        }
    }
}

proof fn lemma_every_second_within(entries: Seq<&CpuSetEntry>, from: usize, steps: nat)
    ensures
        within(every_second_down(entries, from, steps), entries),
    decreases steps,
{
    if steps > 0 {
        lemma_first_with_index_within(entries, from);
        if from >= 2 {
            let first = first_with_index(entries, from);
            let rest = every_second_down(entries, (from - 2) as usize, (steps - 1) as nat);
            lemma_every_second_within(entries, (from - 2) as usize, (steps - 1) as nat);
            assert forall|entry: &CpuSetEntry| #[trigger]
                every_second_down(entries, from, steps).contains(
                    entry,
                ) implies entries.contains(entry) by {
                let all = first + rest;
                let i = choose|i: int| 0 <= i < all.len() && all[i] == entry;
                if i < first.len() {
                    assert(first[i] == entry);
                    assert(first.contains(entry));
                } else {
                    assert(rest[i - first.len()] == entry);
                    assert(rest.contains(entry));
                }
            }
        }
    }
}

proof fn lemma_uniform_within(candidates: Seq<&CpuSetEntry>)
    ensures
        within(uniform_low_power(candidates), candidates),
{
    broadcast use vstd::seq_lib::group_to_multiset_ensures;

    let sorted = by_index(candidates);
    let count = sorted.len() as int;
    let chosen = uniform_low_power(candidates);
    lemma_by_index(candidates);
    if count > 0 {
        lemma_every_second_within(sorted, sorted.last().logical_index, 4);
    }
    assert forall|entry: &CpuSetEntry| #[trigger] chosen.contains(entry) implies candidates.contains(
        entry,
    ) by {
        let i = choose|i: int| 0 <= i < chosen.len() && chosen[i] == entry;
        if count <= 2 {
            assert(sorted[i] == entry);
        } else if count <= 7 {
            assert(sorted[i + count - 2] == entry);
        } else if count == 8 {
            assert(sorted[i + count - 4] == entry);
        }
        assert(sorted.contains(entry));
        assert(sorted.to_multiset().count(entry) > 0);
        assert(candidates.to_multiset().count(entry) > 0);
    }
}

proof fn lemma_tiers_within(candidates: Seq<&CpuSetEntry>)
    ensures
        within(performance_tier(candidates), candidates),
        within(efficiency_tier(candidates), candidates),
        within(low_power_tier(candidates), candidates),
        within(cache_tier(candidates), candidates),
{
    let low = lowest_class(candidates);
    let high = highest_class(candidates);
    lemma_picked(candidates, EntryFilter::Class(high));
    lemma_picked(candidates, EntryFilter::Class(low));
    lemma_picked(candidates, EntryFilter::BetweenClasses(low, high));
    lemma_picked(candidates, EntryFilter::PreferredCache);
    let island = low_power_island(candidates);
    lemma_picked(lowest_tier(candidates), EntryFilter::OnIsland(island));
    lemma_picked(lowest_tier(candidates), EntryFilter::OffIsland(island));
}

/// A term stands for processors of the machine only.
proof fn lemma_term_within(term: AffinityTerm, candidates: Seq<&CpuSetEntry>)
    ensures
        forall|index: usize| #[trigger]
            term_indexes(term, candidates).contains(index) ==> has_index(candidates, index),
{
    lemma_tiers_within(candidates);
    lemma_indexes_within(performance_tier(candidates), candidates);
    lemma_indexes_within(efficiency_tier(candidates), candidates);
    lemma_indexes_within(low_power_tier(candidates), candidates);
    lemma_indexes_within(cache_tier(candidates), candidates);
}

proof fn lemma_summed_within(terms: Seq<AffinityTerm>, candidates: Seq<&CpuSetEntry>)
    ensures
        forall|index: usize| #[trigger]
            summed_indexes(terms, candidates).contains(index) ==> has_index(candidates, index),
    decreases terms.len(),
{
    if terms.len() > 0 {
        let before = summed_indexes(terms.drop_last(), candidates);
        let own = term_indexes(terms.last(), candidates);
        lemma_summed_within(terms.drop_last(), candidates);
        lemma_term_within(terms.last(), candidates);
        assert forall|index: usize| #[trigger]
            summed_indexes(terms, candidates).contains(index) implies has_index(
            candidates,
            index,
        ) by {
            let i = choose|i: int| 0 <= i < (before + own).len() && (before + own)[i] == index;
            if i < before.len() {
                assert(before[i] == index);
                assert(before.contains(index));
            } else {
                assert(own[i - before.len()] == index);
                assert(own.contains(index));
            }
        }
    }
}

/// Whatever an expression says, it stands for processors that may be handed to a process: of the
/// first group, and reserved neither for another process nor for real-time work.
pub proof fn law_only_usable_processors(
    terms: Seq<AffinityTerm>,
    entries: Seq<CpuSetEntry>,
    index: usize,
)
    requires
        requested_indexes(terms, usable(entries)).contains(index),
    ensures
        exists|i: int|
            0 <= i < entries.len() && is_usable(#[trigger] entries[i]) && entries[i].logical_index
                == index,
{
    let candidates = usable(entries);
    let whole = whole_indexes(terms, candidates);
    let summed = summed_indexes(terms, candidates);
    lemma_summed_within(terms, candidates);
    lemma_picked(candidates, EntryFilter::OddIndex);
    lemma_indexes_within(picked(candidates, EntryFilter::OddIndex), candidates);
    lemma_uniform_within(candidates);
    lemma_indexes_within(uniform_low_power(candidates), candidates);
    let all = whole + summed;
    let k = choose|k: int| 0 <= k < all.len() && all[k] == index;
    if k < whole.len() {
        assert(whole[k] == index);
        assert(whole.contains(index));
    } else {
        assert(summed[k - whole.len()] == index);
        assert(summed.contains(index));
    }
    assert(has_index(candidates, index));
    lemma_usable_members(entries);
    let j = choose|j: int|
        0 <= j < candidates.len() && (#[trigger] candidates[j]).logical_index == index;
    assert(is_usable_member(entries, *candidates[j]));
    let i = choose|i: int|
        0 <= i < entries.len() && #[trigger] entries[i] == *candidates[j] && is_usable(
            *candidates[j],
        );
    assert(entries[i].logical_index == index);
}

/// One of `entries` is `entry`, and may be handed to a process.
pub open spec fn is_usable_member(entries: Seq<CpuSetEntry>, entry: CpuSetEntry) -> bool {
    exists|i: int| 0 <= i < entries.len() && #[trigger] entries[i] == entry && is_usable(entry)
}

pub proof fn lemma_usable_members(entries: Seq<CpuSetEntry>)
    ensures
        forall|j: int|
            0 <= j < usable(entries).len() ==> is_usable_member(
                entries,
                *(#[trigger] usable(entries)[j]),
            ),
    decreases entries.len(),
{
    reveal(Seq::filter);
    if entries.len() > 0 {
        let before = entries.drop_last();
        lemma_usable_members(before);
        assert forall|j: int| 0 <= j < usable(entries).len() implies is_usable_member(
            entries,
            *(#[trigger] usable(entries)[j]),
        ) by {
            if j < usable(before).len() {
                let entry = *usable(before)[j];
                assert(usable(entries)[j] == usable(before)[j]);
                assert(is_usable_member(before, entry));
                let i = choose|i: int|
                    0 <= i < before.len() && #[trigger] before[i] == entry && is_usable(entry);
                assert(entries[i] == before[i]);
            } else {
                assert(entries[entries.len() - 1] == *usable(entries)[j]);
            }
        }
    }
}

/// On a machine with several classes of processors, an expression stands for what its terms stand
/// for, one by one: neither their order nor a term that comes twice matters.
pub proof fn law_terms_add_up(
    terms: Seq<AffinityTerm>,
    candidates: Seq<&CpuSetEntry>,
    index: usize,
)
    requires
        !homogeneous(candidates),
    ensures
        requested_indexes(terms, candidates).contains(index) <==> exists|i: int|
            0 <= i < terms.len() && term_indexes(#[trigger] terms[i], candidates).contains(index),
{
    lemma_sum_members(terms, candidates, index);
    assert(requested_indexes(terms, candidates) =~= summed_indexes(terms, candidates));
}

pub proof fn lemma_sum_members(terms: Seq<AffinityTerm>, candidates: Seq<&CpuSetEntry>, index: usize)
    ensures
        summed_indexes(terms, candidates).contains(index) <==> exists|i: int|
            0 <= i < terms.len() && term_indexes(#[trigger] terms[i], candidates).contains(index),
    decreases terms.len(),
{
    if terms.len() > 0 {
        let shorter = terms.drop_last();
        let before = summed_indexes(shorter, candidates);
        let own = term_indexes(terms.last(), candidates);
        let all = summed_indexes(terms, candidates);
        lemma_sum_members(shorter, candidates, index);
        if all.contains(index) {
            let k = choose|k: int| 0 <= k < all.len() && all[k] == index;
            if k < before.len() {
                assert(before[k] == index);
                assert(before.contains(index));
                let i = choose|i: int|
                    0 <= i < shorter.len() && term_indexes(
                        #[trigger] shorter[i],
                        candidates,
                    ).contains(index);
                assert(terms[i] == shorter[i]);
            } else {
                assert(own[k - before.len()] == index);
                assert(terms[terms.len() - 1] == terms.last());
            }
        }
        if exists|i: int|
            0 <= i < terms.len() && term_indexes(#[trigger] terms[i], candidates).contains(index) {
            let i = choose|i: int|
                0 <= i < terms.len() && term_indexes(#[trigger] terms[i], candidates).contains(
                    index,
                );
            if i < shorter.len() {
                assert(shorter[i] == terms[i]);
                let k = choose|k: int| 0 <= k < before.len() && before[k] == index;
                assert(all[k] == index);
            } else {
                let k = choose|k: int| 0 <= k < own.len() && own[k] == index;
                assert(all[before.len() + k] == index);
            }
        }
    }
}

/// On a machine with several classes of processors the three tiers are all of the machine, and no
/// performance processor is an efficient or a low-power one: `P+E+LPE` allows every processor.
pub proof fn law_tiers_cover_the_machine(candidates: Seq<&CpuSetEntry>, entry: &CpuSetEntry)
    requires
        !homogeneous(candidates),
        candidates.contains(entry),
    ensures
        performance_tier(candidates).contains(entry) || efficiency_tier(candidates).contains(entry)
            || low_power_tier(candidates).contains(entry),
        performance_tier(candidates).contains(entry) ==> !efficiency_tier(candidates).contains(
            entry,
        ) && !low_power_tier(candidates).contains(entry),
        requested_indexes(
            seq![
                AffinityTerm::Performance,
                AffinityTerm::Efficiency,
                AffinityTerm::LowPowerEfficiency,
            ],
            candidates,
        ).contains(entry.logical_index),
{
    let low = lowest_class(candidates);
    let high = highest_class(candidates);
    let at = choose|i: int| 0 <= i < candidates.len() && candidates[i] == entry;
    lemma_extreme_classes(candidates);
    assert(low < high) by {
        if low == high {
            assert forall|i: int, j: int|
                0 <= i < candidates.len() && 0 <= j < candidates.len() implies (
            #[trigger] candidates[i]).efficiency_class == (
            #[trigger] candidates[j]).efficiency_class by {
                assert(low <= candidates[i].efficiency_class <= high);
                assert(low <= candidates[j].efficiency_class <= high);
            }
        }
    }
    lemma_picked(candidates, EntryFilter::Class(high));
    lemma_picked(candidates, EntryFilter::Class(low));
    lemma_picked(candidates, EntryFilter::BetweenClasses(low, high));
    let island = low_power_island(candidates);
    lemma_picked(lowest_tier(candidates), EntryFilter::OnIsland(island));
    lemma_picked(lowest_tier(candidates), EntryFilter::OffIsland(island));
    assert(at_most_two_classes(candidates) ==> entry.efficiency_class == low
        || entry.efficiency_class == high) by {
        assert(candidates[at].efficiency_class == entry.efficiency_class);
    }
    let terms = seq![
        AffinityTerm::Performance,
        AffinityTerm::Efficiency,
        AffinityTerm::LowPowerEfficiency,
    ];
    law_terms_add_up(terms, candidates, entry.logical_index);
    if performance_tier(candidates).contains(entry) {
        lemma_index_of_member(performance_tier(candidates), entry);
        assert(term_indexes(terms[0], candidates).contains(entry.logical_index));
    } else if efficiency_tier(candidates).contains(entry) {
        lemma_index_of_member(efficiency_tier(candidates), entry);
        assert(term_indexes(terms[1], candidates).contains(entry.logical_index));
    } else {
        lemma_index_of_member(low_power_tier(candidates), entry);
        assert(term_indexes(terms[2], candidates).contains(entry.logical_index));
    }
}

pub proof fn lemma_index_of_member(entries: Seq<&CpuSetEntry>, entry: &CpuSetEntry)
    requires
        entries.contains(entry),
    ensures
        indexes(entries).contains(entry.logical_index),
{
    let i = choose|i: int| 0 <= i < entries.len() && entries[i] == entry;
    assert(indexes(entries)[i] == entry.logical_index);
}

} // verus!
