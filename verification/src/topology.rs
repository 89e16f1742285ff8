//! The processors of the machine: their efficiency classes, cache islands and preferred caches.

use vstd::prelude::*;

use crate::mask;
use crate::ordered;
use crate::text;

verus! {

/// One logical processor.
#[derive(Clone, Copy, Debug, Eq, PartialEq, Structural)]
pub struct CpuSetEntry {
    pub id: u32,
    pub group: u16,
    pub logical_index: usize,
    pub core_index: usize,
    pub last_level_cache_index: usize,
    pub numa_node: usize,
    pub efficiency_class: u8,
    pub cache: bool,
    pub parked: bool,
    pub allocated_to_other: bool,
    pub realtime: bool,
}

pub struct CpuTopology {
    pub entries: Vec<CpuSetEntry>,
}

/// `classes` lists the efficiency classes of `entries`, each once, in increasing order.
pub open spec fn is_class_list(classes: Seq<u8>, entries: Seq<&CpuSetEntry>) -> bool {
    &&& forall|i: int, j: int|
        0 <= i < j < classes.len() ==> #[trigger] classes[i] < #[trigger] classes[j]
    &&& forall|class: u8| #[trigger]
        classes.contains(class) <==> exists|i: int|
            0 <= i < entries.len() && (#[trigger] entries[i]).efficiency_class == class
}

/// The efficiency classes of `entries`, each once, in increasing order.
pub fn efficiency_classes(entries: &[&CpuSetEntry]) -> (classes: Vec<u8>)
    ensures
        is_class_list(classes@, entries@),
{
    let mut wide: Vec<u64> = Vec::new();
    let mut i: usize = 0;
    while i < entries.len()
        invariant
            i <= entries@.len(),
            ordered::strictly_increasing(wide@),
            forall|value: u64| #[trigger]
                wide@.contains(value) <==> exists|k: int|
                    0 <= k < i && (#[trigger] entries@[k]).efficiency_class as u64 == value,
        decreases entries@.len() - i,
    {
        let ghost before = wide@;
        ordered::insert(&mut wide, entries[i].efficiency_class as u64);
        assert forall|value: u64| #[trigger]
            wide@.contains(value) <==> exists|k: int|
                0 <= k < i + 1 && (#[trigger] entries@[k]).efficiency_class as u64 == value by {
            if before.contains(value) {
                let k = choose|k: int|
                    0 <= k < i && (#[trigger] entries@[k]).efficiency_class as u64 == value;
                assert(entries@[k].efficiency_class as u64 == value);
            }
            assert(entries@[i as int].efficiency_class as u64 == value ==> wide@.contains(value));
        }
        i = i + 1;
    }
    assert forall|k: int| 0 <= k < wide@.len() implies #[trigger] wide@[k] <= u8::MAX by {
        assert(wide@.contains(wide@[k]));
    }
    let mut classes: Vec<u8> = Vec::new();
    let mut j: usize = 0;
    while j < wide.len()
        invariant
            j <= wide@.len(),
            classes@.len() == j,
            ordered::strictly_increasing(wide@),
            forall|k: int| 0 <= k < wide@.len() ==> #[trigger] wide@[k] <= u8::MAX,
            forall|k: int| 0 <= k < j ==> #[trigger] classes@[k] as u64 == wide@[k],
        decreases wide@.len() - j,
    {
        classes.push(wide[j] as u8);
        j = j + 1;
    }
    proof {
        assert forall|class: u8| #[trigger]
            classes@.contains(class) <==> exists|k: int|
                0 <= k < entries@.len() && (#[trigger] entries@[k]).efficiency_class == class by {
            assert(classes@.contains(class) <==> wide@.contains(class as u64)) by {
                if classes@.contains(class) {
                    let k = choose|k: int| 0 <= k < classes@.len() && classes@[k] == class;
                    assert(wide@[k] == class as u64);
                }
                if wide@.contains(class as u64) {
                    let k = choose|k: int| 0 <= k < wide@.len() && wide@[k] == class as u64;
                    assert(classes@[k] == class);
                }
            }
        }
    }
    classes
}

/// What processors share when they sit on one island: group, memory node and last-level cache.
#[derive(Clone, Copy, Debug, Eq, Hash, PartialEq, Structural)]
pub struct CpuIslandKey {
    pub group: u16,
    pub numa_node: usize,
    pub last_level_cache_index: usize,
}

#[derive(Clone, Copy, Debug, Eq, PartialEq, Structural)]
pub struct CpuIslandCandidate {
    pub key: CpuIslandKey,
    pub count: usize,
    pub max_logical_index: usize,
    pub shares_with_higher_efficiency: bool,
}

pub open spec fn island_key(entry: &CpuSetEntry) -> CpuIslandKey {
    CpuIslandKey {
        group: entry.group,
        numa_node: entry.numa_node,
        last_level_cache_index: entry.last_level_cache_index,
    }
}

pub fn cpu_island_key(entry: &CpuSetEntry) -> (key: CpuIslandKey)
    ensures
        key == island_key(entry),
{
    CpuIslandKey {
        group: entry.group,
        numa_node: entry.numa_node,
        last_level_cache_index: entry.last_level_cache_index,
    }
}

/// The members of `entries` that sit on the island `key`.
pub open spec fn on_island(entries: Seq<&CpuSetEntry>, key: CpuIslandKey) -> Seq<&CpuSetEntry> {
    entries.filter(|entry: &CpuSetEntry| island_key(entry) == key)
}

/// The largest logical index in `entries`, and zero when there is none.
pub open spec fn highest_index(entries: Seq<&CpuSetEntry>) -> usize
    decreases entries.len(),
{
    if entries.len() == 0 {
        0
    } else {
        let before = highest_index(entries.drop_last());
        if before < entries.last().logical_index {
            entries.last().logical_index
        } else {
            before
        }
    }
}

/// What the processors of `entries` say of the island `key`.
pub open spec fn describes_island(
    island: CpuIslandCandidate,
    entries: Seq<&CpuSetEntry>,
    pool: Seq<&CpuSetEntry>,
) -> bool {
    &&& island.count == on_island(entries, island.key).len()
    &&& island.count > 0
    &&& island.max_logical_index == highest_index(on_island(entries, island.key))
    &&& island.shares_with_higher_efficiency == exists|i: int|
        0 <= i < pool.len() && island_key(#[trigger] pool[i]) == island.key
}

/// Island keys in the order of their fields.
pub open spec fn key_before(a: CpuIslandKey, b: CpuIslandKey) -> bool {
    ||| a.group < b.group
    ||| a.group == b.group && a.numa_node < b.numa_node
    ||| a.group == b.group && a.numa_node == b.numa_node && a.last_level_cache_index
        < b.last_level_cache_index
}

/// `a` is preferred to `b` as the low-power island: first one that no faster processor shares,
/// then the one with the higher logical index, then the larger one, then the one with the
/// smaller key.
pub open spec fn preferred_island(a: CpuIslandCandidate, b: CpuIslandCandidate) -> bool {
    if a.shares_with_higher_efficiency != b.shares_with_higher_efficiency {
        b.shares_with_higher_efficiency
    } else if a.max_logical_index != b.max_logical_index {
        a.max_logical_index > b.max_logical_index
    } else if a.count != b.count {
        a.count > b.count
    } else {
        key_before(a.key, b.key)
    }
}

/// `island` is an island of `entries` that is preferred to every other one.
pub open spec fn is_best_island(
    island: CpuIslandCandidate,
    entries: Seq<&CpuSetEntry>,
    pool: Seq<&CpuSetEntry>,
) -> bool {
    &&& describes_island(island, entries, pool)
    &&& forall|other: CpuIslandCandidate| #[trigger]
        describes_island(other, entries, pool) && other.key != island.key ==> preferred_island(
            island,
            other,
        )
}

/// The island of `entries` that is preferred to every other one.
pub open spec fn best_island(
    entries: Seq<&CpuSetEntry>,
    pool: Seq<&CpuSetEntry>,
) -> CpuIslandCandidate {
    choose|island: CpuIslandCandidate| is_best_island(island, entries, pool)
}

/// The preferred island is unique.
pub proof fn lemma_best_island(
    island: CpuIslandCandidate,
    entries: Seq<&CpuSetEntry>,
    pool: Seq<&CpuSetEntry>,
)
    requires
        is_best_island(island, entries, pool),
    ensures
        best_island(entries, pool) == island,
{
    let other = best_island(entries, pool);
    assert(is_best_island(other, entries, pool));
    if other.key != island.key {
        assert(preferred_island(other, island));
        assert(preferred_island(island, other));
    }
}

/// All of `entries` sit on one island.
pub open spec fn one_island(entries: Seq<&CpuSetEntry>) -> bool {
    forall|i: int, j: int|
        0 <= i < entries.len() && 0 <= j < entries.len() ==> island_key(#[trigger] entries[i])
            == island_key(#[trigger] entries[j])
}

fn key_is_before(a: &CpuIslandKey, b: &CpuIslandKey) -> (before: bool)
    ensures
        before == key_before(*a, *b),
{
    if a.group != b.group {
        a.group < b.group
    } else if a.numa_node != b.numa_node {
        a.numa_node < b.numa_node
    } else {
        a.last_level_cache_index < b.last_level_cache_index
    }
}

fn is_preferred_island(a: &CpuIslandCandidate, b: &CpuIslandCandidate) -> (preferred: bool)
    ensures
        preferred == preferred_island(*a, *b),
{
    if a.shares_with_higher_efficiency != b.shares_with_higher_efficiency {
        b.shares_with_higher_efficiency
    } else if a.max_logical_index != b.max_logical_index {
        a.max_logical_index > b.max_logical_index
    } else if a.count != b.count {
        a.count > b.count
    } else {
        key_is_before(&a.key, &b.key)
    }
}

/// The island list `islands` groups the first `n` of `entries`.
spec fn groups_prefix(
    islands: Seq<CpuIslandCandidate>,
    entries: Seq<&CpuSetEntry>,
    n: int,
) -> bool {
    &&& forall|a: int, b: int|
        0 <= a < b < islands.len() ==> (#[trigger] islands[a]).key != (#[trigger] islands[b]).key
    &&& forall|a: int|
        0 <= a < islands.len() ==> describes_island(
            #[trigger] islands[a],
            entries.subrange(0, n),
            Seq::empty(),
        )
    &&& forall|i: int|
        0 <= i < n ==> exists|a: int|
            0 <= a < islands.len() && (#[trigger] islands[a]).key == island_key(
                #[trigger] entries[i],
            )
}

fn find_island(islands: &Vec<CpuIslandCandidate>, key: &CpuIslandKey) -> (found: Option<usize>)
    ensures
        match found {
            Some(at) => at < islands@.len() && islands@[at as int].key == *key,
            None => forall|a: int| 0 <= a < islands@.len() ==> (#[trigger] islands@[a]).key != *key,
        },
{
    let mut at: usize = 0;
    while at < islands.len()
        invariant
            at <= islands@.len(),
            forall|a: int| 0 <= a < at ==> (#[trigger] islands@[a]).key != *key,
        decreases islands@.len() - at,
    {
        if islands[at].key == *key {
            return Some(at);
        }
        at = at + 1;
    }
    None
}

/// One more entry extends its own island and leaves the others as they are.
proof fn lemma_island_grows(entries: Seq<&CpuSetEntry>, n: int, key: CpuIslandKey)
    requires
        0 <= n < entries.len(),
    ensures
        on_island(entries.subrange(0, n + 1), key) == if island_key(entries[n]) == key {
            on_island(entries.subrange(0, n), key).push(entries[n])
        } else {
            on_island(entries.subrange(0, n), key)
        },
        on_island(entries.subrange(0, n), key).len() <= n,
{
    let before = entries.subrange(0, n);
    let after = entries.subrange(0, n + 1);
    assert(after.drop_last() =~= before);
    assert(after.last() == entries[n]);
    let wanted = |entry: &CpuSetEntry| island_key(entry) == key;
    assert(after =~= before.push(entries[n]));
    before.lemma_filter_push(entries[n], wanted);
    before.lemma_filter_len(wanted);
}

proof fn lemma_no_member(entries: Seq<&CpuSetEntry>, key: CpuIslandKey)
    requires
        forall|i: int| 0 <= i < entries.len() ==> island_key(#[trigger] entries[i]) != key,
    ensures
        on_island(entries, key).len() == 0,
    decreases entries.len(),
{
    reveal(Seq::filter);
    if entries.len() > 0 {
        lemma_no_member(entries.drop_last(), key);
    }
}

fn group_islands(entries: &[&CpuSetEntry]) -> (islands: Vec<CpuIslandCandidate>)
    ensures
        groups_prefix(islands@, entries@, entries@.len() as int),
{
    let mut islands: Vec<CpuIslandCandidate> = Vec::new();
    let mut i: usize = 0;
    while i < entries.len()
        invariant
            i <= entries.len(),
            groups_prefix(islands@, entries@, i as int),
        decreases entries@.len() - i,
    {
        let key = cpu_island_key(entries[i]);
        let index = entries[i].logical_index;
        let ghost before = islands@;
        let ghost prefix = entries@.subrange(0, i as int);
        let ghost longer = entries@.subrange(0, i + 1);
        assert forall|a: int| 0 <= a < before.len() && before[a].key != key implies describes_island(
            #[trigger] before[a],
            longer,
            Seq::empty(),
        ) by {
            lemma_island_grows(entries@, i as int, before[a].key);
        }
        proof {
            lemma_island_grows(entries@, i as int, key);
        }
        let ghost grown = on_island(longer, key);
        assert(grown.drop_last() =~= on_island(prefix, key));
        match find_island(&islands, &key) {
            Some(at) => {
                let mut island = islands[at];
                assert(describes_island(before[at as int], prefix, Seq::empty()));
                island.count = island.count + 1;
                if island.max_logical_index < index {
                    island.max_logical_index = index;
                }
                islands.set(at, island);
                assert(islands@[at as int].key == key);
                assert forall|k: int| 0 <= k < i + 1 implies exists|a: int|
                    0 <= a < islands@.len() && (#[trigger] islands@[a]).key == island_key(
                        #[trigger] entries@[k],
                    ) by {
                    if k < i {
                        let a = choose|a: int|
                            0 <= a < before.len() && (#[trigger] before[a]).key == island_key(
                                entries@[k],
                            );
                        assert(islands@[a].key == before[a].key);
                    } else {
                        assert(islands@[at as int].key == island_key(entries@[k]));
                    }
                }
            },
            None => {
                assert forall|k: int| 0 <= k < prefix.len() implies island_key(#[trigger] prefix[k])
                    != key by {
                    assert(prefix[k] == entries@[k]);
                    let a = choose|a: int|
                        0 <= a < before.len() && (#[trigger] before[a]).key == island_key(
                            entries@[k],
                        );
                    assert(before[a].key != key);
                }
                proof {
                    lemma_no_member(prefix, key);
                }
                assert(grown.drop_last() =~= Seq::empty());
                islands.push(
                    CpuIslandCandidate {
                        key,
                        count: 1,
                        max_logical_index: index,
                        shares_with_higher_efficiency: false,
                    },
                );
                assert(highest_index(grown.drop_last()) == 0);
                assert(describes_island(islands@.last(), longer, Seq::empty()));
                assert forall|k: int| 0 <= k < i + 1 implies exists|a: int|
                    0 <= a < islands@.len() && (#[trigger] islands@[a]).key == island_key(
                        #[trigger] entries@[k],
                    ) by {
                    if k < i {
                        let a = choose|a: int|
                            0 <= a < before.len() && (#[trigger] before[a]).key == island_key(
                                entries@[k],
                            );
                        assert(islands@[a].key == before[a].key);
                    } else {
                        assert(islands@[before.len() as int].key == island_key(entries@[k]));
                    }
                }
            },
        }
        i = i + 1;
    }
    islands
}

/// The island of `efficient_candidates` that is taken for the low-power one, where they sit on
/// more than one island.
pub fn choose_efficiency_island(
    efficient_candidates: &[&CpuSetEntry],
    higher_efficiency_pool: &[&CpuSetEntry],
) -> (chosen: Option<CpuIslandCandidate>)
    ensures
        chosen is None <==> one_island(efficient_candidates@),
        chosen matches Some(island) ==> is_best_island(
            island,
            efficient_candidates@,
            higher_efficiency_pool@,
        ),
{
    let ghost entries = efficient_candidates@;
    let ghost pool = higher_efficiency_pool@;
    let mut islands = group_islands(efficient_candidates);
    let ghost grouped = islands@;
    assert(entries.subrange(0, entries.len() as int) =~= entries);
    let mut a: usize = 0;
    while a < islands.len()
        invariant
            a <= islands@.len(),
            islands@.len() == grouped.len(),
            pool == higher_efficiency_pool@,
            entries.subrange(0, entries.len() as int) == entries,
            groups_prefix(grouped, entries, entries.len() as int),
            forall|k: int| 0 <= k < islands@.len() ==> (#[trigger] islands@[k]).key == grouped[k].key,
            forall|k: int| a <= k < islands@.len() ==> #[trigger] islands@[k] == grouped[k],
            forall|k: int|
                0 <= k < a ==> describes_island(#[trigger] islands@[k], entries, pool),
        decreases islands@.len() - a,
    {
        let mut island = islands[a];
        let mut shared: bool = false;
        let mut i: usize = 0;
        while i < higher_efficiency_pool.len()
            invariant
                i <= pool.len(),
                pool == higher_efficiency_pool@,
                shared == exists|k: int|
                    0 <= k < i && island_key(#[trigger] pool[k]) == island.key,
            decreases pool.len() - i,
        {
            if cpu_island_key(higher_efficiency_pool[i]) == island.key {
                assert(island_key(pool[i as int]) == island.key);
                shared = true;
            }
            i = i + 1;
        }
        assert(describes_island(grouped[a as int], entries, Seq::empty()));
        island.shares_with_higher_efficiency = shared;
        islands.set(a, island);
        a = a + 1;
    }
    if islands.len() <= 1 {
        proof {
            assert forall|i: int, j: int|
                0 <= i < entries.len() && 0 <= j < entries.len() implies island_key(
                #[trigger] entries[i],
            ) == island_key(#[trigger] entries[j]) by {
                let x = choose|x: int|
                    0 <= x < grouped.len() && (#[trigger] grouped[x]).key == island_key(entries[i]);
                let y = choose|y: int|
                    0 <= y < grouped.len() && (#[trigger] grouped[y]).key == island_key(entries[j]);
                assert(grouped[x].key == grouped[y].key);
            }
        }
        return None;
    }
    let mut best: usize = 0;
    let mut b: usize = 1;
    while b < islands.len()
        invariant
            1 <= b <= islands@.len(),
            best < b,
            forall|x: int, y: int|
                0 <= x < y < islands@.len() ==> (#[trigger] islands@[x]).key != (
                #[trigger] islands@[y]).key,
            forall|k: int|
                0 <= k < b && k != best ==> preferred_island(
                    islands@[best as int],
                    #[trigger] islands@[k],
                ),
        decreases islands@.len() - b,
    {
        let ghost old_best = best as int;
        assert(islands@[old_best].key != islands@[b as int].key);
        if is_preferred_island(&islands[b], &islands[best]) {
            best = b;
        }
        b = b + 1;
    }
    let island = islands[best];
    proof {
        assert forall|other: CpuIslandCandidate|
            describes_island(other, entries, pool) && other.key
                != island.key implies preferred_island(island, other) by {
            if forall|i: int| 0 <= i < entries.len() ==> island_key(#[trigger] entries[i])
                != other.key {
                lemma_no_member(entries, other.key);
            }
            let i = choose|i: int|
                0 <= i < entries.len() && island_key(#[trigger] entries[i]) == other.key;
            let k = choose|k: int|
                0 <= k < grouped.len() && (#[trigger] grouped[k]).key == island_key(entries[i]);
            assert(islands@[k].key == other.key);
            assert(describes_island(islands@[k], entries, pool));
            assert(islands@[k] == other);
        }
        if one_island(entries) {
            let first = islands@[0];
            let second = islands@[1];
            assert(describes_island(first, entries, pool));
            assert(describes_island(second, entries, pool));
            lemma_has_member(entries, first.key);
            lemma_has_member(entries, second.key);
            assert(false);
        }
    }
    Some(island)
}

proof fn lemma_has_member(entries: Seq<&CpuSetEntry>, key: CpuIslandKey)
    requires
        on_island(entries, key).len() > 0,
    ensures
        exists|i: int| 0 <= i < entries.len() && island_key(#[trigger] entries[i]) == key,
{
    if forall|i: int| 0 <= i < entries.len() ==> island_key(#[trigger] entries[i]) != key {
        lemma_no_member(entries, key);
    }
}

/// `a` comes before `b` in the order of logical indexes, and of identifiers where those agree.
pub open spec fn id_before(a: CpuSetEntry, b: CpuSetEntry) -> bool {
    a.logical_index < b.logical_index || (a.logical_index == b.logical_index && a.id < b.id)
}

/// `sorted` with `entry` put behind every entry that it does not come before.
pub open spec fn put_by_id(sorted: Seq<CpuSetEntry>, entry: CpuSetEntry) -> Seq<CpuSetEntry>
    decreases sorted.len(),
{
    if sorted.len() == 0 || !id_before(entry, sorted.last()) {
        sorted.push(entry)
    } else {
        put_by_id(sorted.drop_last(), entry).push(sorted.last())
    }
}

/// `entries` in the order of their logical indexes and identifiers, equal ones in their former
/// order.
pub open spec fn by_id(entries: Seq<CpuSetEntry>) -> Seq<CpuSetEntry>
    decreases entries.len(),
{
    if entries.len() == 0 {
        Seq::empty()
    } else {
        put_by_id(by_id(entries.drop_last()), entries.last())
    }
}

pub open spec fn in_id_order(entries: Seq<CpuSetEntry>) -> bool {
    forall|i: int, j: int|
        0 <= i < j < entries.len() ==> !id_before(#[trigger] entries[j], #[trigger] entries[i])
}

proof fn lemma_put_by_id(sorted: Seq<CpuSetEntry>, entry: CpuSetEntry)
    requires
        in_id_order(sorted),
    ensures
        in_id_order(put_by_id(sorted, entry)),
        put_by_id(sorted, entry).to_multiset() == sorted.to_multiset().insert(entry),
        put_by_id(sorted, entry).len() == sorted.len() + 1,
        put_by_id(sorted, entry).last() == entry || (sorted.len() > 0 && put_by_id(
            sorted,
            entry,
        ).last() == sorted.last()),
    decreases sorted.len(),
{
    broadcast use vstd::seq_lib::group_to_multiset_ensures;

    if sorted.len() == 0 || !id_before(entry, sorted.last()) {
        let after = sorted.push(entry);
        assert(put_by_id(sorted, entry) == after);
        assert forall|i: int, j: int| 0 <= i < j < after.len() implies !id_before(
            #[trigger] after[j],
            #[trigger] after[i],
        ) by {
            if i < sorted.len() - 1 {
                assert(!id_before(sorted[sorted.len() - 1], sorted[i]));
            }
        }
    } else {
        let rest = sorted.drop_last();
        lemma_put_by_id(rest, entry);
        let shorter = put_by_id(rest, entry);
        let after = shorter.push(sorted.last());
        assert(rest.push(sorted.last()) =~= sorted);
        assert(after.to_multiset() =~= sorted.to_multiset().insert(entry));
        assert forall|i: int, j: int| 0 <= i < j < after.len() implies !id_before(
            #[trigger] after[j],
            #[trigger] after[i],
        ) by {
            if j == shorter.len() {
                assert(!id_before(sorted.last(), shorter.last())) by {
                    if shorter.last() != entry {
                        assert(shorter.last() == sorted[sorted.len() - 2]);
                    }
                }
                if i < shorter.len() - 1 {
                    assert(!id_before(shorter[shorter.len() - 1], shorter[i]));
                }
            }
        }
    }
}

/// Ordering keeps every entry and puts them in order.
pub proof fn lemma_by_id(entries: Seq<CpuSetEntry>)
    ensures
        in_id_order(by_id(entries)),
        by_id(entries).to_multiset() == entries.to_multiset(),
        by_id(entries).len() == entries.len(),
    decreases entries.len(),
{
    broadcast use vstd::seq_lib::group_to_multiset_ensures;

    if entries.len() > 0 {
        lemma_by_id(entries.drop_last());
        lemma_put_by_id(by_id(entries.drop_last()), entries.last());
        assert(entries.drop_last().push(entries.last()) =~= entries);
    } else {
        assert(entries =~= Seq::empty());
    }
}

fn insert_by_id(sorted: &mut Vec<CpuSetEntry>, entry: CpuSetEntry)
    ensures
        final(sorted)@ == put_by_id(old(sorted)@, entry),
{
    let ghost before = sorted@;
    let mut at: usize = sorted.len();
    assert(before.subrange(0, before.len() as int) =~= before);
    assert(put_by_id(before, entry) =~= put_by_id(before, entry) + before.subrange(
        before.len() as int,
        before.len() as int,
    ));
    while at > 0 && (entry.logical_index < sorted[at - 1].logical_index || (entry.logical_index
        == sorted[at - 1].logical_index && entry.id < sorted[at - 1].id))
        invariant
            at <= before.len(),
            sorted@ == before,
            put_by_id(before, entry) == put_by_id(before.subrange(0, at as int), entry)
                + before.subrange(at as int, before.len() as int),
        decreases at,
    {
        let ghost here = before.subrange(0, at as int);
        assert(here.drop_last() =~= before.subrange(0, at - 1));
        assert(here.last() == before[at - 1]);
        assert(put_by_id(before, entry) =~= put_by_id(before.subrange(0, at - 1), entry)
            + before.subrange(at - 1, before.len() as int));
        at = at - 1;
    }
    sorted.insert(at, entry);
    let ghost here = before.subrange(0, at as int);
    assert(here.len() > 0 ==> here.last() == before[at - 1]);
    assert(put_by_id(here, entry) == here.push(entry));
    assert(sorted@ =~= put_by_id(before, entry));
}

/// `entries` in the order of their logical indexes and identifiers.
pub fn sort_by_id(entries: &Vec<CpuSetEntry>) -> (sorted: Vec<CpuSetEntry>)
    ensures
        sorted@ == by_id(entries@),
{
    let mut sorted: Vec<CpuSetEntry> = Vec::new();
    let mut i: usize = 0;
    assert(entries@.subrange(0, 0) =~= Seq::empty());
    while i < entries.len()
        invariant
            i <= entries@.len(),
            sorted@ == by_id(entries@.subrange(0, i as int)),
        decreases entries@.len() - i,
    {
        assert(entries@.subrange(0, i + 1).drop_last() =~= entries@.subrange(0, i as int));
        insert_by_id(&mut sorted, entries[i]);
        i = i + 1;
    }
    assert(entries@.subrange(0, entries@.len() as int) =~= entries@);
    sorted
}

/// A processor of a machine of which nothing but the number of processors is known.
pub open spec fn fallback_entry(index: usize) -> CpuSetEntry {
    CpuSetEntry {
        id: index as u32,
        group: 0,
        logical_index: index,
        core_index: index,
        last_level_cache_index: 0,
        numa_node: 0,
        efficiency_class: 0,
        cache: false,
        parked: false,
        allocated_to_other: false,
        realtime: false,
    }
}

/// The processors of a machine of which nothing but the number of processors is known.
pub fn fallback_logical_entries(count: usize) -> (entries: Vec<CpuSetEntry>)
    ensures
        entries@ == Seq::new(count as nat, |i: int| fallback_entry(i as usize)),
{
    let mut entries: Vec<CpuSetEntry> = Vec::new();
    let mut index: usize = 0;
    while index < count
        invariant
            index <= count,
            entries@ == Seq::new(index as nat, |i: int| fallback_entry(i as usize)),
        decreases count - index,
    {
        entries.push(
            CpuSetEntry {
                id: index as u32,
                group: 0,
                logical_index: index,
                core_index: index,
                last_level_cache_index: 0,
                numa_node: 0,
                efficiency_class: 0,
                cache: false,
                parked: false,
                allocated_to_other: false,
                realtime: false,
            },
        );
        index = index + 1;
        assert(entries@ =~= Seq::new(index as nat, |i: int| fallback_entry(i as usize)));
    }
    entries
}

impl CpuTopology {
    /// The processors that were read, or those that are known to be there where none were.
    pub fn read_or_fallback(read: Result<Vec<CpuSetEntry>, String>, count: usize) -> (topology:
        Result<Self, String>)
        ensures
            topology matches Ok(topology) && topology.entries@ == match read {
                Ok(entries) => if entries@.len() > 0 {
                    entries@
                } else {
                    Seq::new(count as nat, |i: int| fallback_entry(i as usize))
                },
                Err(_) => Seq::new(count as nat, |i: int| fallback_entry(i as usize)),
            },
    {
        match read {
            Ok(entries) => {
                if entries.len() > 0 {
                    Ok(CpuTopology { entries })
                } else {
                    Ok(CpuTopology { entries: fallback_logical_entries(count) })
                }
            },
            Err(_) => Ok(CpuTopology { entries: fallback_logical_entries(count) }),
        }
    }
}

} // verus!
