//! What holds of the machine as it is read: its classes, islands, caches and processor names.

use vstd::prelude::*;

use crate::affinity_laws;
use crate::affinity_order;
use crate::bytes;
use crate::bytes::ByteOrder;
use crate::cgroup_laws;
use crate::mask;
use crate::processor;
use crate::processor::{CpuidRegisters, L3CacheAffinity, ProcessorIdentity};
use crate::sysfs;
use crate::sysfs::{CacheDescription, EfficiencyClassMap, IslandIndexMap, SharedCache};
use crate::text;
use crate::topology;
use crate::topology::{CpuIslandCandidate, CpuSetEntry};
use crate::topology_laws;
use crate::windows_topology;

verus! {

/// The classes of the processors are listed from the lowest to the highest, each of them once.
pub proof fn law_classes_are_listed_in_order(
    entries: &[&CpuSetEntry],
    classes: Vec<u8>,
    i: int,
    k: int,
)
    requires
        call_ensures(topology::efficiency_classes, (entries,), classes),
    ensures
        0 <= i < entries@.len() ==> classes@.contains(entries@[i].efficiency_class),
        0 <= k < classes@.len() ==> exists|j: int|
            0 <= j < entries@.len() && (#[trigger] entries@[j]).efficiency_class == classes@[k],
        0 <= k < classes@.len() - 1 ==> classes@[k] < classes@[k + 1],
{
    assert(topology::is_class_list(classes@, entries@));
    if 0 <= k < classes@.len() {
        assert(classes@.contains(classes@[k]));
    }
    if 0 <= i < entries@.len() {
        assert(classes@.contains(entries@[i].efficiency_class));
    }
}

/// An island is chosen where the processors sit on more than one. It is one of theirs, is described
/// by its processors, and is shared with a faster processor only where every island is. Of those
/// that are shared alike it has the processor with the highest number.
pub proof fn law_chosen_island_is_apart_and_last(
    candidates: &[&CpuSetEntry],
    pool: &[&CpuSetEntry],
    chosen: Option<CpuIslandCandidate>,
    i: int,
)
    requires
        call_ensures(topology::choose_efficiency_island, (candidates, pool), chosen),
        0 <= i < candidates@.len(),
    ensures
        chosen is None <==> forall|a: int, b: int|
            0 <= a < candidates@.len() && 0 <= b < candidates@.len()
                ==> affinity_laws::share_island(#[trigger] candidates@[a], #[trigger] candidates@[b]),
        chosen matches Some(island) ==> {
            let own = candidates@[i];
            let is_on = own.group == island.key.group && own.numa_node == island.key.numa_node
                && own.last_level_cache_index == island.key.last_level_cache_index;
            let is_shared = exists|p: int|
                0 <= p < pool@.len() && affinity_laws::share_island(#[trigger] pool@[p], own);
            &&& is_on ==> own.logical_index <= island.max_logical_index
            &&& is_on ==> (island.shares_with_higher_efficiency <==> is_shared)
            &&& !is_on && !is_shared ==> !island.shares_with_higher_efficiency
            &&& !is_on && is_shared == island.shares_with_higher_efficiency ==> own.logical_index
                <= island.max_logical_index
            &&& exists|k: int|
                0 <= k < candidates@.len() && topology::island_key(#[trigger] candidates@[k])
                    == island.key && candidates@[k].logical_index == island.max_logical_index
        },
{
    assert forall|a: &CpuSetEntry, b: &CpuSetEntry| #[trigger]
        affinity_laws::share_island(a, b) <==> topology::island_key(a) == topology::island_key(b) by {}
    if topology::one_island(candidates@) {
        assert forall|a: int, b: int| 0 <= a < candidates@.len() && 0 <= b < candidates@.len() implies
        affinity_laws::share_island(#[trigger] candidates@[a], #[trigger] candidates@[b]) by {
            assert(topology::island_key(candidates@[a]) == topology::island_key(candidates@[b]));
        }
    }
    if forall|a: int, b: int|
        0 <= a < candidates@.len() && 0 <= b < candidates@.len() ==> affinity_laws::share_island(
            #[trigger] candidates@[a],
            #[trigger] candidates@[b],
        ) {
        assert forall|a: int, b: int| 0 <= a < candidates@.len() && 0 <= b < candidates@.len() implies
        topology::island_key(#[trigger] candidates@[a]) == topology::island_key(
            #[trigger] candidates@[b],
        ) by {
            assert(affinity_laws::share_island(candidates@[a], candidates@[b]));
        }
        assert(topology::one_island(candidates@));
    }
    if let Some(island) = chosen {
        let own = candidates@[i];
        let key = topology::island_key(own);
        let here = affinity_order::described(key, candidates@, pool@);
        assert(candidates@.len() == candidates.len());
        affinity_order::lemma_described(candidates@, pool@, i);
        affinity_order::lemma_highest_index(topology::on_island(candidates@, key));
        affinity_order::lemma_highest_index(topology::on_island(candidates@, island.key));
        lemma_on_island(candidates@, key, i);
        let mine = topology::on_island(candidates@, key);
        let at = choose|at: int| 0 <= at < mine.len() && mine[at] == own;
        assert(mine[at].logical_index <= topology::highest_index(mine));
        let theirs = topology::on_island(candidates@, island.key);
        let best = choose|b: int|
            0 <= b < theirs.len() && (#[trigger] theirs[b]).logical_index
                == topology::highest_index(theirs);
        lemma_from_island(candidates@, island.key, best);
        if here.key != island.key {
            assert(topology::describes_island(here, candidates@, pool@));
            assert(topology::preferred_island(island, here));
        }
        if exists|p: int| 0 <= p < pool@.len() && affinity_laws::share_island(#[trigger] pool@[p], own) {
            let p = choose|p: int|
                0 <= p < pool@.len() && affinity_laws::share_island(#[trigger] pool@[p], own);
            assert(topology::island_key(pool@[p]) == key);
        }
        if exists|p: int| 0 <= p < pool@.len() && topology::island_key(#[trigger] pool@[p]) == key {
            let p = choose|p: int|
                0 <= p < pool@.len() && topology::island_key(#[trigger] pool@[p]) == key;
            assert(affinity_laws::share_island(pool@[p], own));
        }
    }
}

proof fn lemma_on_island(entries: Seq<&CpuSetEntry>, key: topology::CpuIslandKey, i: int)
    requires
        0 <= i < entries.len(),
        topology::island_key(entries[i]) == key,
    ensures
        topology::on_island(entries, key).contains(entries[i]),
{
    entries.lemma_filter_contains(|entry: &CpuSetEntry| topology::island_key(entry) == key, i);
}

proof fn lemma_from_island(entries: Seq<&CpuSetEntry>, key: topology::CpuIslandKey, at: int)
    requires
        0 <= at < topology::on_island(entries, key).len(),
    ensures
        exists|k: int|
            0 <= k < entries.len() && topology::island_key(#[trigger] entries[k]) == key
                && entries[k] == topology::on_island(entries, key)[at],
{
    let kept = |entry: &CpuSetEntry| topology::island_key(entry) == key;
    let all = topology::on_island(entries, key);
    entries.lemma_filter_pred(kept, at);
    assert(all.contains(all[at]));
    entries.lemma_filter_contains_rev(kept, all[at]);
    let k = choose|k: int| 0 <= k < entries.len() && entries[k] == all[at];
    assert(topology::island_key(entries[k]) == key);
}

/// Processors are put in the order of their numbers, and of their identifiers where those agree.
/// None is lost and none comes in.
pub proof fn law_processors_are_put_in_order(
    entries: &Vec<CpuSetEntry>,
    sorted: Vec<CpuSetEntry>,
    i: int,
    j: int,
)
    requires
        call_ensures(topology::sort_by_id, (entries,), sorted),
    ensures
        sorted@.to_multiset() == entries@.to_multiset(),
        0 <= i < j < sorted@.len() ==> sorted@[i].logical_index < sorted@[j].logical_index || (
        sorted@[i].logical_index == sorted@[j].logical_index && sorted@[i].id <= sorted@[j].id),
{
    topology::lemma_by_id(entries@);
    if 0 <= i < j < sorted@.len() {
        assert(!topology::id_before(sorted@[j], sorted@[i]));
    }
}

/// The lowest processor of a cache is in its mask, and none below it is.
pub proof fn law_lowest_processor_is_first(cache: &L3CacheAffinity, lowest: u32, cpu: int)
    requires
        call_ensures(L3CacheAffinity::lowest_logical_index, (cache,), lowest),
    ensures
        cache.mask != 0 ==> mask::has_cpu(cache.mask, lowest as int),
        0 <= cpu < lowest ==> !mask::has_cpu(cache.mask, cpu),
        cache.mask == 0 ==> lowest == usize::BITS,
{
    mask::lemma_zero_iff_no_cpu(cache.mask);
    assert(processor::is_lowest_cpu(cache.mask, lowest as int));
    if cache.mask != 0 && lowest == usize::BITS {
        let other = choose|other: int| 0 <= other < usize::BITS && mask::has_cpu(cache.mask, other);
        assert(!mask::has_cpu(cache.mask, other));
    }
    if cache.mask == 0 && lowest < usize::BITS {
        assert(mask::has_cpu(cache.mask, lowest as int));
    }
}

/// A cache is worth preferring on a processor that is known for it, and otherwise exactly where two
/// caches with a size and a processor differ in size.
pub proof fn law_unequal_caches_are_worth_preferring(
    caches: &[L3CacheAffinity],
    known: bool,
    candidate: bool,
    i: int,
    j: int,
)
    requires
        call_ensures(processor::is_c_cache_candidate, (caches, known), candidate),
    ensures
        known ==> candidate,
        0 <= i < caches@.len() && 0 <= j < caches@.len() && caches@[i].mask != 0 && caches@[j].mask
            != 0 && caches@[j].cache_size != 0 && caches@[i].cache_size > caches@[j].cache_size
            ==> candidate,
        !known && (forall|a: int, b: int|
            0 <= a < caches@.len() && 0 <= b < caches@.len() && (#[trigger] caches@[a]).mask != 0
                && caches@[a].cache_size != 0 && (#[trigger] caches@[b]).mask != 0
                && caches@[b].cache_size != 0 ==> caches@[a].cache_size == caches@[b].cache_size)
            ==> !candidate,
{
    if 0 <= i < caches@.len() && 0 <= j < caches@.len() && caches@[i].mask != 0 && caches@[j].mask
        != 0 && caches@[j].cache_size != 0 && caches@[i].cache_size > caches@[j].cache_size {
        assert(processor::is_real_cache(caches@[i]) && processor::is_real_cache(caches@[j]));
        assert(processor::unequal_caches(caches@));
    }
    if !known && candidate {
        assert(processor::unequal_caches(caches@));
        let (a, b) = choose|a: int, b: int|
            {
                &&& 0 <= a < caches@.len()
                &&& 0 <= b < caches@.len()
                &&& processor::is_real_cache(#[trigger] caches@[a])
                &&& processor::is_real_cache(#[trigger] caches@[b])
                &&& caches@[a].cache_size > caches@[b].cache_size
            };
        assert(caches@[a].cache_size != caches@[b].cache_size);
    }
}

/// The family of a processor is told by four bits of its signature and, where all four are set, by
/// eight further ones that are added.
pub proof fn law_family_is_told_by_the_signature(eax: u32, family: u32)
    requires
        call_ensures(processor::display_family_from_cpuid_eax, (eax,), family),
    ensures
        (eax / 0x100) % 16 < 15 ==> family == (eax / 0x100) % 16,
        (eax / 0x100) % 16 == 15 ==> family == 15 + (eax / 0x10_0000) % 256,
{
}

proof fn lemma_word(value: u32)
    ensures
        bytes::u32_bytes(value, ByteOrder::Little).len() == 4,
        cgroup_laws::word_value(bytes::u32_bytes(value, ByteOrder::Little), 0, ByteOrder::Little)
            == value,
{
}

proof fn lemma_brand_part(registers: CpuidRegisters)
    ensures
        processor::brand_part(registers).len() == 16,
        cgroup_laws::word_value(processor::brand_part(registers), 0, ByteOrder::Little)
            == registers.eax,
        cgroup_laws::word_value(processor::brand_part(registers), 4, ByteOrder::Little)
            == registers.ebx,
        cgroup_laws::word_value(processor::brand_part(registers), 8, ByteOrder::Little)
            == registers.ecx,
        cgroup_laws::word_value(processor::brand_part(registers), 12, ByteOrder::Little)
            == registers.edx,
{
    let a = bytes::u32_bytes(registers.eax, ByteOrder::Little);
    let b = bytes::u32_bytes(registers.ebx, ByteOrder::Little);
    let c = bytes::u32_bytes(registers.ecx, ByteOrder::Little);
    let d = bytes::u32_bytes(registers.edx, ByteOrder::Little);
    lemma_word(registers.eax);
    lemma_word(registers.ebx);
    lemma_word(registers.ecx);
    lemma_word(registers.edx);
    let all = processor::brand_part(registers);
    assert(all == a + b + c + d);
    lemma_moved(a, all, 0);
    lemma_moved(b, all, 4);
    lemma_moved(c, all, 8);
    lemma_moved(d, all, 12);
}

proof fn lemma_moved(word: Seq<u8>, all: Seq<u8>, at: int)
    requires
        word.len() == 4,
        0 <= at,
        at + 4 <= all.len(),
        all[at] == word[0],
        all[at + 1] == word[1],
        all[at + 2] == word[2],
        all[at + 3] == word[3],
    ensures
        cgroup_laws::word_value(all, at, ByteOrder::Little) == cgroup_laws::word_value(
            word,
            0,
            ByteOrder::Little,
        ),
{
}

proof fn lemma_moved_part(part: Seq<u8>, all: Seq<u8>, at: int)
    requires
        part.len() == 16,
        0 <= at,
        at + 16 <= all.len(),
        all.subrange(at, at + 16) == part,
    ensures
        cgroup_laws::word_value(all, at, ByteOrder::Little) == cgroup_laws::word_value(
            part,
            0,
            ByteOrder::Little,
        ),
        cgroup_laws::word_value(all, at + 4, ByteOrder::Little) == cgroup_laws::word_value(
            part,
            4,
            ByteOrder::Little,
        ),
        cgroup_laws::word_value(all, at + 8, ByteOrder::Little) == cgroup_laws::word_value(
            part,
            8,
            ByteOrder::Little,
        ),
        cgroup_laws::word_value(all, at + 12, ByteOrder::Little) == cgroup_laws::word_value(
            part,
            12,
            ByteOrder::Little,
        ),
{
    assert forall|i: int| 0 <= i < 16 implies all[at + i] == #[trigger] part[i] by {
        assert(all.subrange(at, at + 16)[i] == all[at + i]);
    }
}

/// The brand is the twelve registers of the three queries, in their order, and there is one where
/// the processor answers them.
pub proof fn law_brand_is_read_register_by_register(
    leaf: u32,
    first: &CpuidRegisters,
    second: &CpuidRegisters,
    third: &CpuidRegisters,
    brand: Option<Vec<u8>>,
)
    requires
        call_ensures(processor::read_x86_processor_brand, (leaf, first, second, third), brand),
    ensures
        brand is Some <==> leaf >= 0x8000_0004,
        brand matches Some(text) ==> text@.len() == 48 && cgroup_laws::word_value(
            text@,
            0,
            ByteOrder::Little,
        ) == first.eax && cgroup_laws::word_value(text@, 4, ByteOrder::Little) == first.ebx
            && cgroup_laws::word_value(text@, 8, ByteOrder::Little) == first.ecx
            && cgroup_laws::word_value(text@, 12, ByteOrder::Little) == first.edx
            && cgroup_laws::word_value(text@, 16, ByteOrder::Little) == second.eax
            && cgroup_laws::word_value(text@, 20, ByteOrder::Little) == second.ebx
            && cgroup_laws::word_value(text@, 24, ByteOrder::Little) == second.ecx
            && cgroup_laws::word_value(text@, 28, ByteOrder::Little) == second.edx
            && cgroup_laws::word_value(text@, 32, ByteOrder::Little) == third.eax
            && cgroup_laws::word_value(text@, 36, ByteOrder::Little) == third.ebx
            && cgroup_laws::word_value(text@, 40, ByteOrder::Little) == third.ecx
            && cgroup_laws::word_value(text@, 44, ByteOrder::Little) == third.edx,
{
    if let Some(text) = brand {
        let a = processor::brand_part(*first);
        let b = processor::brand_part(*second);
        let c = processor::brand_part(*third);
        lemma_brand_part(*first);
        lemma_brand_part(*second);
        lemma_brand_part(*third);
        assert(text@ == a + b + c);
        assert(text@.subrange(0, 16) =~= a);
        assert(text@.subrange(16, 32) =~= b);
        assert(text@.subrange(32, 48) =~= c);
        lemma_moved_part(a, text@, 0);
        lemma_moved_part(b, text@, 16);
        lemma_moved_part(c, text@, 32);
    }
}

/// The identity of a processor is its vendor, of the second, fourth and third register of the first
/// query, its family, of the first register of the second, and its brand.
pub proof fn law_identity_is_read_of_the_queries(
    leaf0: &CpuidRegisters,
    leaf1: &CpuidRegisters,
    brand: Option<Vec<u8>>,
    identity: Option<ProcessorIdentity>,
    family: u32,
)
    requires
        call_ensures(processor::x86_processor_identity, (leaf0, leaf1, brand), identity),
        call_ensures(processor::display_family_from_cpuid_eax, (leaf1.eax,), family),
    ensures
        identity is Some <==> leaf0.eax >= 1 && brand is Some,
        identity matches Some(known) ==> known.display_family == family && known.brand@ == brand->0@
            && known.vendor@.len() == 12 && cgroup_laws::word_value(
            known.vendor@,
            0,
            ByteOrder::Little,
        ) == leaf0.ebx && cgroup_laws::word_value(known.vendor@, 4, ByteOrder::Little) == leaf0.edx
            && cgroup_laws::word_value(known.vendor@, 8, ByteOrder::Little) == leaf0.ecx,
{
    if let Some(known) = identity {
        lemma_word(leaf0.ebx);
        lemma_word(leaf0.edx);
        lemma_word(leaf0.ecx);
        let a = bytes::u32_bytes(leaf0.ebx, ByteOrder::Little);
        let b = bytes::u32_bytes(leaf0.edx, ByteOrder::Little);
        let c = bytes::u32_bytes(leaf0.ecx, ByteOrder::Little);
        assert(known.vendor@ == a + b + c);
        lemma_moved(a, known.vendor@, 0);
        lemma_moved(b, known.vendor@, 4);
        lemma_moved(c, known.vendor@, 8);
    }
}

proof fn lemma_shared_alike(cache: CacheDescription, a: SharedCache, b: SharedCache)
    requires
        sysfs::is_shared_cache(cache, a),
        sysfs::is_shared_cache(cache, b),
    ensures
        a.level == b.level,
        a.count == b.count,
        a.signature@ == b.signature@,
{
    let x = choose|x: Seq<usize>| #[trigger] sysfs::describes_shared(cache, a, x);
    let y = choose|y: Seq<usize>| #[trigger] sysfs::describes_shared(cache, b, y);
    topology_laws::lemma_same_list(x, y);
}

proof fn lemma_shared_or_not(cache: CacheDescription, shared: SharedCache)
    requires
        sysfs::is_shared_cache(cache, shared),
    ensures
        !sysfs::is_not_shared(cache),
{
    let own = choose|own: Seq<usize>| #[trigger] sysfs::describes_shared(cache, shared, own);
    if sysfs::unreadable_share(cache) {
        let value = text::trim(cache.shared_cpu_list->0@);
        let k = choose|k: int| #[trigger] sysfs::is_first_refused(value, k);
        assert(sysfs::is_accepted(text::split(value, ',')[k]));
    }
    if exists|cpus: Seq<usize>| #[trigger] sysfs::shared_by(cache, cpus) && cpus.len() <= 1 {
        let cpus = choose|cpus: Seq<usize>| #[trigger]
            sysfs::shared_by(cache, cpus) && cpus.len() <= 1;
        topology_laws::lemma_same_list(own, cpus);
    }
}

/// The cache at `k` is shared, is known by `signature`, and is on the highest level and, among those
/// on its level, with the most processors.
pub open spec fn is_island_cache(
    caches: Seq<CacheDescription>,
    k: int,
    best: SharedCache,
    signature: Seq<char>,
) -> bool {
    0 <= k < caches.len() && sysfs::is_shared_cache(caches[k], best) && best.signature@ == signature
}

/// The island of a processor is that of the highest cache that it shares and, of equally high ones,
/// of the one with the most processors. A processor that shares none has no island.
pub proof fn law_island_is_the_highest_shared_cache(
    caches: &Vec<CacheDescription>,
    signature: Option<String>,
    i: int,
    cache: &CacheDescription,
    shared: Option<SharedCache>,
)
    requires
        call_ensures(sysfs::read_linux_cpu_island_signature, (caches,), signature),
        0 <= i < caches@.len(),
        *cache == caches@[i],
        call_ensures(sysfs::shared_cache, (cache,), shared),
    ensures
        signature is None ==> shared is None,
        shared is Some ==> signature is Some,
        signature matches Some(signature) ==> exists|k: int, best: SharedCache| #[trigger]
            is_island_cache(caches@, k, best, signature@) && (shared matches Some(shared)
                ==> shared.level < best.level || (shared.level == best.level && (shared.count
                < best.count || shared.count == best.count && k <= i))),
{
    let found = choose|found: Seq<Option<SharedCache>>|
        {
            &&& #[trigger] sysfs::describes_each(caches@, found)
            &&& match signature {
                Some(signature) => exists|best: SharedCache, k: int| #[trigger]
                    sysfs::is_best_shared(found, best, k) && best.signature@ == signature@,
                None => forall|i: int| 0 <= i < found.len() ==> (#[trigger] found[i]) is None,
            }
        };
    if let Some(own) = shared {
        lemma_shared_or_not(*cache, own);
        assert(found[i] is Some);
        lemma_shared_alike(*cache, own, found[i]->0);
    }
    if let Some(text) = signature {
        let (best, k) = choose|best: SharedCache, k: int| #[trigger]
            sysfs::is_best_shared(found, best, k) && best.signature@ == text@;
        assert(found[k] == Some(best));
        assert(is_island_cache(caches@, k, best, text@));
        if shared is Some {
            if i < k {
                assert(sysfs::replaces(best, found[i]->0));
            } else if i > k {
                assert(!sysfs::replaces(found[i]->0, best));
            }
        }
    }
}

/// Islands are told apart by their names: each that was seen has an index, and two have the same one
/// exactly where their names agree.
pub proof fn law_islands_are_numbered_by_name(
    islands: &Vec<String>,
    map: IslandIndexMap,
    a: int,
    b: int,
    name_a: &str,
    name_b: &str,
    index_a: Option<usize>,
    index_b: Option<usize>,
)
    requires
        call_ensures(sysfs::linux_island_index_map, (islands,), map),
        0 <= a < islands@.len(),
        0 <= b < islands@.len(),
        name_a@ == islands@[a]@,
        name_b@ == islands@[b]@,
        call_ensures(IslandIndexMap::index_of, (&map, name_a), index_a),
        call_ensures(IslandIndexMap::index_of, (&map, name_b), index_b),
    ensures
        index_a is Some,
        index_b is Some,
        index_a == index_b <==> name_a@ == name_b@,
        a == 0 ==> index_a == Some(0usize),
{
    let seen = text::views(islands@);
    let names = text::views(map.names@);
    sysfs::lemma_first_occurrences(seen);
    assert(seen[a] == name_a@ && seen[b] == name_b@);
    assert(seen.contains(name_a@) && seen.contains(name_b@));
    lemma_seen(seen, a);
    lemma_seen(seen, b);
    lemma_first_comes_first(seen);
    assert(names.contains(name_a@) && names.contains(name_b@));
    if name_a@ == name_b@ {
        assert(index_a->0 == index_b->0) by {
            assert(names[index_a->0 as int] == names[index_b->0 as int]);
        }
    }
    if a == 0 && index_a->0 != 0 {
        assert(names[0] == names[index_a->0 as int]);
    }
}

proof fn lemma_seen(seen: Seq<Seq<char>>, i: int)
    requires
        0 <= i < seen.len(),
    ensures
        sysfs::first_occurrences(seen).contains(seen[i]),
    decreases seen.len(),
{
    let before = sysfs::first_occurrences(seen.drop_last());
    let all = sysfs::first_occurrences(seen);
    if i < seen.len() - 1 {
        lemma_seen(seen.drop_last(), i);
        assert(seen.drop_last()[i] == seen[i]);
        let k = choose|k: int| 0 <= k < before.len() && before[k] == seen[i];
        assert(all[k] == seen[i]);
    } else if !before.contains(seen.last()) {
        assert(all[before.len() as int] == seen.last());
    }
}

proof fn lemma_first_comes_first(seen: Seq<Seq<char>>)
    requires
        seen.len() > 0,
    ensures
        sysfs::first_occurrences(seen).len() > 0,
        sysfs::first_occurrences(seen)[0] == seen[0],
    decreases seen.len(),
{
    let shorter = seen.drop_last();
    if shorter.len() > 0 {
        lemma_first_comes_first(shorter);
        assert(shorter[0] == seen[0]);
    } else {
        assert(sysfs::first_occurrences(shorter) =~= Seq::empty());
        assert(!Seq::<Seq<char>>::empty().contains(seen.last()));
    }
}

/// Every score that was read has a class. The lowest has the lowest class, and a higher score never
/// has a lower class, nor the same one below the highest.
pub proof fn law_classes_rank_the_scores(
    scores: &Vec<u32>,
    map: EfficiencyClassMap,
    a: int,
    b: int,
    class_a: Option<u8>,
    class_b: Option<u8>,
)
    requires
        call_ensures(sysfs::efficiency_class_map, (scores,), map),
        0 <= a < scores@.len(),
        0 <= b < scores@.len(),
        call_ensures(EfficiencyClassMap::class_of, (&map, scores@[a]), class_a),
        call_ensures(EfficiencyClassMap::class_of, (&map, scores@[b]), class_b),
    ensures
        class_a is Some,
        class_b is Some,
        scores@[a] == scores@[b] ==> class_a == class_b,
        scores@[a] < scores@[b] ==> class_a->0 < class_b->0 || class_a->0 == 255 == class_b->0,
        (forall|i: int| 0 <= i < scores@.len() ==> scores@[a] <= #[trigger] scores@[i])
            ==> class_a == Some(0u8),
{
    assert(sysfs::was_read(scores@, scores@[a] as u64));
    assert(sysfs::was_read(scores@, scores@[b] as u64));
    assert(map.scores@.contains(scores@[a] as u64));
    assert(map.scores@.contains(scores@[b] as u64));
    let p = choose|p: int|
        0 <= p < map.scores@.len() && #[trigger] map.scores@[p] == scores@[a] as u64 && class_a->0
            == sysfs::class_at(p);
    let q = choose|q: int|
        0 <= q < map.scores@.len() && #[trigger] map.scores@[q] == scores@[b] as u64 && class_b->0
            == sysfs::class_at(q);
    if scores@[a] == scores@[b] {
        assert(p == q) by {
            if p < q {
                assert(map.scores@[p] < map.scores@[q]);
            }
            if q < p {
                assert(map.scores@[q] < map.scores@[p]);
            }
        }
    }
    if scores@[a] < scores@[b] {
        assert(p < q) by {
            if q < p {
                assert(map.scores@[q] < map.scores@[p]);
            }
        }
    }
    if forall|i: int| 0 <= i < scores@.len() ==> scores@[a] <= #[trigger] scores@[i] {
        if p > 0 {
            assert(map.scores@[0] < map.scores@[p]);
            assert(map.scores@.contains(map.scores@[0]));
            assert(sysfs::was_read(scores@, map.scores@[0]));
            let i = choose|i: int|
                0 <= i < scores@.len() && #[trigger] scores@[i] as u64 == map.scores@[0];
            assert(scores@[a] <= scores@[i]);
        }
    }
}

/// The memory node of a processor is the number of the first entry `node<number>`.
pub proof fn law_first_node_is_taken(names: &Vec<String>, node: Option<usize>, k: int, number: usize)
    requires
        call_ensures(sysfs::read_numa_node, (names,), node),
        0 <= k < names@.len(),
        names@[k]@ == "node"@ + text::decimal(number as nat),
        forall|j: int| 0 <= j < k ==> !text::begins_with((#[trigger] names@[j])@, "node"@),
    ensures
        node == Some(number),
{
    reveal_strlit("node");
    let digits = text::decimal(number as nat);
    text::lemma_decimal_round_trip(number as nat);
    let own = names@[k]@;
    assert("node"@.len() == 4);
    assert(own.subrange(0, 4) =~= "node"@);
    assert(own.subrange(4, own.len() as int) =~= digits);
    lemma_plain_number(digits, number);
    assert(sysfs::node_number(own) == Some(number as nat));
    if let Some(found) = node {
        let at = choose|at: int|
            {
                &&& 0 <= at < names@.len()
                &&& sysfs::node_number((#[trigger] names@[at])@) == Some(found as nat)
                &&& forall|j: int| 0 <= j < at ==> sysfs::node_number((#[trigger] names@[j])@) is None
            };
        if at < k {
            assert(!text::begins_with(names@[at]@, "node"@));
        }
        if k < at {
            assert(sysfs::node_number(names@[k]@) is None);
        }
    }
}

proof fn lemma_plain_number(digits: Seq<char>, number: usize)
    requires
        digits == text::decimal(number as nat),
    ensures
        sysfs::cpu_number(digits) == Some(number as nat),
{
    text::lemma_decimal_round_trip(number as nat);
    assert(text::is_digit(digits[0]) && text::is_digit(digits.last()));
    text::lemma_trim_fixed(digits);
}

/// A file that holds a number is read as that number, whatever white space stands around it.
pub proof fn law_files_hold_numbers(content: &Option<String>, value: Option<usize>, number: usize)
    requires
        call_ensures(sysfs::read_usize, (content,), value),
        *content is Some,
        text::trim(content->0@) == text::decimal(number as nat),
    ensures
        value == Some(number),
{
    text::lemma_decimal_round_trip(number as nat);
}

/// A record of a unified cache of the third level with one group gives that group, its mask and the
/// size of the cache, unless its mask is empty; any other kind of record gives nothing by itself.
pub proof fn law_cache_record_gives_its_group(
    buffer: &Vec<u8>,
    order: ByteOrder,
    read: Result<Vec<L3CacheAffinity>, String>,
)
    requires
        call_ensures(windows_topology::read_l3_cache_affinities, (buffer, order), read),
        buffer@.len() == 72 + usize::BITS / 8,
        cgroup_laws::word_value(buffer@, 4, order) == buffer@.len(),
    ensures
        ({
            let is_l3 = cgroup_laws::word_value(buffer@, 0, order) == 2 && buffer@[8] == 3
                && cgroup_laws::word_value(buffer@, 16, order) == 0;
            let groups = match order {
                ByteOrder::Little => buffer@[38] + 256 * buffer@[39],
                ByteOrder::Big => buffer@[39] + 256 * buffer@[38],
            };
            &&& !is_l3 ==> read is Ok && read->Ok_0@.len() == 0
            &&& is_l3 && groups != 1 ==> read is Err
            &&& is_l3 && groups == 1 ==> read is Ok && read->Ok_0@.len() <= 1
            &&& is_l3 && groups == 1 && read->Ok_0@.len() == 1 ==> read->Ok_0@[0].cache_size
                == cgroup_laws::word_value(buffer@, 12, order) && read->Ok_0@[0].mask != 0
            &&& is_l3 && groups == 1 && usize::BITS == 32 ==> (read->Ok_0@.len() == 1
                <==> cgroup_laws::word_value(buffer@, 40, order) != 0) && (read->Ok_0@.len() == 1
                ==> read->Ok_0@[0].mask == cgroup_laws::word_value(buffer@, 40, order))
            &&& is_l3 && groups == 1 && usize::BITS == 64 ==> (read->Ok_0@.len() == 1 <==> (
            cgroup_laws::word_value(buffer@, 40, order) != 0 || cgroup_laws::word_value(
                buffer@,
                44,
                order,
            ) != 0)) && (read->Ok_0@.len() == 1 && order == ByteOrder::Little
                ==> read->Ok_0@[0].mask == cgroup_laws::word_value(buffer@, 40, order)
                + 0x1_0000_0000 * cgroup_laws::word_value(buffer@, 44, order) && (
            read->Ok_0@[0].group == buffer@[48] + 256 * buffer@[49]))
        }),
{
    assert(usize::BITS == 32 || usize::BITS == 64);
    assert(bytes::WORD_SIZE == usize::BITS / 8);
    let size = buffer@.len() as int;
    let all = windows_topology::l3_caches_from(buffer@, 0, order);
    assert(bytes::u32_at(buffer@, 4, order) == size);
    assert(windows_topology::l3_caches_from(buffer@, size, order) == Ok::<
        Seq<L3CacheAffinity>,
        Seq<char>,
    >(Seq::empty()));
    let cache_size = bytes::u32_at(buffer@, 12, order);
    let one = windows_topology::group_masks(buffer@, 40, 1, cache_size, order);
    reveal_with_fuel(windows_topology::group_masks, 2);
    let groups = bytes::u16_at(buffer@, 38, order);
    let width = windows_topology::GROUP_AFFINITY_SIZE;
    assert(width == bytes::WORD_SIZE + 8);
    assert(groups >= 2 ==> (groups - 1) * width >= width) by (nonlinear_arith)
        requires
            width > 0,
    ;
    assert(groups == 1 ==> (groups - 1) * width == 0) by (nonlinear_arith);
    assert(windows_topology::has_groups(size as u32, groups) <==> groups == 1);
    assert(one + Seq::<L3CacheAffinity>::empty() =~= one);
}

/// A buffer that ends within a record is refused.
pub proof fn law_truncated_cache_records_are_refused(
    buffer: &Vec<u8>,
    order: ByteOrder,
    read: Result<Vec<L3CacheAffinity>, String>,
)
    requires
        call_ensures(windows_topology::read_l3_cache_affinities, (buffer, order), read),
        0 < buffer@.len() < 72 + usize::BITS / 8,
    ensures
        read is Err,
{
    assert(usize::BITS == 32 || usize::BITS == 64);
}

} // verus!
