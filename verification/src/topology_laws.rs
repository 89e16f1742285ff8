//! What holds of every reading of the machine, on either operating system.

use vstd::prelude::*;

use crate::bytes;
use crate::bytes::ByteOrder;
use crate::cpuset;
use crate::mask;
use crate::processor;
use crate::processor::{CpuidRegisters, L3CacheAffinity, ProcessorIdentity};
use crate::service::ServiceError;
use crate::sysfs;
use crate::sysfs::{CacheDescription, LinuxCpuReading, SharedCache};
use crate::text;
use crate::topology;
use crate::topology::{CpuSetEntry, CpuTopology};
use crate::windows_topology;

verus! {

/// Ordering by logical index keeps the entries and adds none.
proof fn lemma_sorted_members(entries: Seq<CpuSetEntry>)
    ensures
        forall|entry: CpuSetEntry| #[trigger]
            topology::by_id(entries).contains(entry) <==> entries.contains(entry),
        topology::by_id(entries).len() == entries.len(),
        topology::in_id_order(topology::by_id(entries)),
{
    broadcast use vstd::seq_lib::group_to_multiset_ensures;

    topology::lemma_by_id(entries);
    let sorted = topology::by_id(entries);
    assert forall|entry: CpuSetEntry| #[trigger] sorted.contains(entry) <==> entries.contains(
        entry,
    ) by {
        assert(sorted.contains(entry) <==> sorted.to_multiset().count(entry) > 0);
        assert(entries.contains(entry) <==> entries.to_multiset().count(entry) > 0);
    }
}

/// Each processor was read once.
pub open spec fn are_distinct(readings: Seq<LinuxCpuReading>) -> bool {
    forall|i: int, j: int|
        0 <= i < j < readings.len() ==> (#[trigger] readings[i]).cpu != (
        #[trigger] readings[j]).cpu
}

/// The entry at `x` is of the processor that was read at `i`.
pub open spec fn is_entry_of(
    entries: Seq<CpuSetEntry>,
    x: int,
    readings: Seq<LinuxCpuReading>,
    i: int,
) -> bool {
    &&& 0 <= x < entries.len()
    &&& 0 <= i < readings.len()
    &&& entries[x].logical_index == readings[i].cpu
}

/// Some entry is of the processor that was read at `i`.
pub open spec fn is_listed(
    entries: Seq<CpuSetEntry>,
    readings: Seq<LinuxCpuReading>,
    i: int,
) -> bool {
    exists|x: int| #[trigger] is_entry_of(entries, x, readings, i)
}

/// The list of scores that the classes of the entries go by.
proof fn lemma_linux_entries(
    readings: &Vec<LinuxCpuReading>,
    entries: Vec<CpuSetEntry>,
) -> (scores: Seq<u64>)
    requires
        are_distinct(readings@),
        call_ensures(sysfs::read_cpu_sets, (readings,), Ok::<Vec<CpuSetEntry>, String>(entries)),
    ensures
        sysfs::is_score_list(scores, readings@),
        entries@.len() == readings@.len(),
        forall|x: int, i: int| #[trigger]
            is_entry_of(entries@, x, readings@, i) ==> entries@[x] == sysfs::entry_of(
                readings@[i],
                scores,
                sysfs::first_occurrences(sysfs::island_names(readings@)),
            ),
        forall|i: int| 0 <= i < readings@.len() ==> #[trigger] is_listed(entries@, readings@, i),
        topology::in_id_order(entries@),
{
    let scores = choose|scores: Seq<u64>| #[trigger]
        sysfs::is_score_list(scores, readings@) && entries@ == topology::by_id(
            sysfs::entries_of(readings@, scores),
        );
    let all = sysfs::entries_of(readings@, scores);
    let islands = sysfs::first_occurrences(sysfs::island_names(readings@));
    lemma_sorted_members(all);
    assert forall|x: int, i: int| #[trigger]
        is_entry_of(entries@, x, readings@, i) implies entries@[x] == sysfs::entry_of(
        readings@[i],
        scores,
        islands,
    ) by {
        assert(entries@.contains(entries@[x]));
        let k = choose|k: int| 0 <= k < all.len() && all[k] == entries@[x];
        if k < i {
            assert(readings@[k].cpu != readings@[i].cpu);
        }
        if i < k {
            assert(readings@[i].cpu != readings@[k].cpu);
        }
    }
    assert forall|i: int| 0 <= i < readings@.len() implies #[trigger] is_listed(
        entries@,
        readings@,
        i,
    ) by {
        assert(all.contains(all[i]));
        assert(entries@.contains(all[i]));
        let x = choose|x: int| 0 <= x < entries@.len() && entries@[x] == all[i];
        assert(is_entry_of(entries@, x, readings@, i));
    }
    scores
}

proof fn lemma_place(scores: Seq<u64>, score: u64) -> (place: int)
    requires
        scores.contains(score),
    ensures
        place == scores.index_of(score),
        0 <= place < scores.len(),
        scores[place] == score,
{
    scores.index_of(score)
}

/// The faster of two processors has the higher class: a lower score never has a higher class, and
/// has a lower one until the classes are used up. Equal scores have one class.
pub proof fn law_faster_processors_have_higher_classes(
    readings: &Vec<LinuxCpuReading>,
    entries: Vec<CpuSetEntry>,
    slow: int,
    fast: int,
    x: int,
    y: int,
)
    requires
        are_distinct(readings@),
        call_ensures(sysfs::read_cpu_sets, (readings,), Ok::<Vec<CpuSetEntry>, String>(entries)),
        is_entry_of(entries@, x, readings@, slow),
        is_entry_of(entries@, y, readings@, fast),
        readings@[slow].score is Some,
        readings@[fast].score is Some,
    ensures
        readings@[slow].score->0 < readings@[fast].score->0 ==> entries@[x].efficiency_class
            < entries@[y].efficiency_class || entries@[x].efficiency_class == 255
            && entries@[y].efficiency_class == 255,
        readings@[slow].score->0 == readings@[fast].score->0 ==> entries@[x].efficiency_class
            == entries@[y].efficiency_class,
{
    let scores = lemma_linux_entries(readings, entries);
    let low = readings@[slow].score->0 as u64;
    let high = readings@[fast].score->0 as u64;
    assert(sysfs::has_score(readings@[slow], low));
    assert(sysfs::has_score(readings@[fast], high));
    let p = lemma_place(scores, low);
    let q = lemma_place(scores, high);
    if low < high {
        if q < p {
            assert(scores[q] < scores[p]);
        }
    }
}

/// The slowest processors have the class zero, as has one of unknown speed. Above that the classes
/// have no gaps: below each class is the next lower one, on a slower processor.
pub proof fn law_classes_have_no_gaps(
    readings: &Vec<LinuxCpuReading>,
    entries: Vec<CpuSetEntry>,
    i: int,
    x: int,
)
    requires
        are_distinct(readings@),
        call_ensures(sysfs::read_cpu_sets, (readings,), Ok::<Vec<CpuSetEntry>, String>(entries)),
        is_entry_of(entries@, x, readings@, i),
    ensures
        readings@[i].score is None ==> entries@[x].efficiency_class == 0,
        readings@[i].score is Some && (forall|j: int|
            0 <= j < readings@.len() && (#[trigger] readings@[j]).score is Some
                ==> readings@[i].score->0 <= readings@[j].score->0) ==> entries@[x].efficiency_class
            == 0,
        entries@[x].efficiency_class > 0 ==> readings@[i].score is Some && exists|j: int, y: int|
            #[trigger] is_entry_of(entries@, y, readings@, j) && readings@[j].score is Some
                && readings@[j].score->0 < readings@[i].score->0 && entries@[y].efficiency_class
                == entries@[x].efficiency_class - 1,
{
    let scores = lemma_linux_entries(readings, entries);
    if let Some(score) = readings@[i].score {
        assert(sysfs::has_score(readings@[i], score as u64));
        let place = lemma_place(scores, score as u64);
        if place > 0 {
            let before = if place <= 255 {
                place - 1
            } else {
                254
            };
            assert(scores[before] < scores[place]);
            assert(scores.contains(scores[before]));
            let j = choose|j: int|
                0 <= j < readings@.len() && sysfs::has_score(
                    #[trigger] readings@[j],
                    scores[before],
                );
            assert(readings@[j].score->0 < score);
            assert(is_listed(entries@, readings@, j));
            let y = choose|y: int| #[trigger] is_entry_of(entries@, y, readings@, j);
            let q = lemma_place(scores, readings@[j].score->0 as u64);
            if q < before {
                assert(scores[q] < scores[before]);
            }
            if before < q {
                assert(scores[before] < scores[q]);
            }
            assert(entries@[y].efficiency_class == entries@[x].efficiency_class - 1);
        }
    }
}

/// Processors are on one island exactly where they were read with one signature, and an unread
/// island is the first.
pub proof fn law_islands_follow_signatures(
    readings: &Vec<LinuxCpuReading>,
    entries: Vec<CpuSetEntry>,
    i: int,
    j: int,
    x: int,
    y: int,
)
    requires
        are_distinct(readings@),
        call_ensures(sysfs::read_cpu_sets, (readings,), Ok::<Vec<CpuSetEntry>, String>(entries)),
        is_entry_of(entries@, x, readings@, i),
        is_entry_of(entries@, y, readings@, j),
    ensures
        readings@[i].island is None ==> entries@[x].last_level_cache_index == 0,
        readings@[i].island is Some && readings@[j].island is Some ==> (
        entries@[x].last_level_cache_index == entries@[y].last_level_cache_index
            <==> readings@[i].island->0@ == readings@[j].island->0@),
        readings@[i].island is Some && (forall|k: int|
            0 <= k < i ==> (#[trigger] readings@[k]).island is None)
            ==> entries@[x].last_level_cache_index == 0,
        entries@[x].last_level_cache_index < readings@.len(),
{
    let scores = lemma_linux_entries(readings, entries);
    let seen = sysfs::island_names(readings@);
    let islands = sysfs::first_occurrences(seen);
    sysfs::lemma_first_occurrences(seen);
    lemma_names_fit(readings@);
    assert(readings@.len() == readings.len());
    if readings@[i].island is Some {
        sysfs::lemma_island_is_named(readings@, i);
        assert(islands.contains(readings@[i].island->0@));
        let p = islands.index_of(readings@[i].island->0@);
        assert(0 <= p < islands.len() && islands[p] == readings@[i].island->0@);
        assert(entries@[x].last_level_cache_index == p);
    }
    if readings@[j].island is Some {
        sysfs::lemma_island_is_named(readings@, j);
        assert(islands.contains(readings@[j].island->0@));
        let q = islands.index_of(readings@[j].island->0@);
        assert(0 <= q < islands.len() && islands[q] == readings@[j].island->0@);
        assert(entries@[y].last_level_cache_index == q);
    }
    if readings@[i].island is Some && (forall|k: int|
        0 <= k < i ==> (#[trigger] readings@[k]).island is None) {
        lemma_first_name(readings@, i);
        let name = readings@[i].island->0@;
        lemma_first_is_first(seen);
        let at = islands.index_of(name);
        if at > 0 {
            assert(islands[0] != islands[at]);
        }
    }
}

proof fn lemma_names_fit(readings: Seq<LinuxCpuReading>)
    ensures
        sysfs::island_names(readings).len() <= readings.len(),
    decreases readings.len(),
{
    if readings.len() > 0 {
        lemma_names_fit(readings.drop_last());
    }
}

proof fn lemma_first_name(readings: Seq<LinuxCpuReading>, i: int)
    requires
        0 <= i < readings.len(),
        readings[i].island is Some,
        forall|k: int| 0 <= k < i ==> (#[trigger] readings[k]).island is None,
    ensures
        sysfs::island_names(readings).len() > 0,
        sysfs::island_names(readings)[0] == readings[i].island->0@,
    decreases readings.len(),
{
    let shorter = readings.drop_last();
    if i == readings.len() - 1 {
        lemma_no_names(shorter);
    } else {
        assert(shorter[i] == readings[i]);
        assert forall|k: int| 0 <= k < i implies (#[trigger] shorter[k]).island is None by {
            assert(shorter[k] == readings[k]);
        }
        lemma_first_name(shorter, i);
    }
}

proof fn lemma_no_names(readings: Seq<LinuxCpuReading>)
    requires
        forall|k: int| 0 <= k < readings.len() ==> (#[trigger] readings[k]).island is None,
    ensures
        sysfs::island_names(readings).len() == 0,
    decreases readings.len(),
{
    if readings.len() > 0 {
        let shorter = readings.drop_last();
        assert forall|k: int| 0 <= k < shorter.len() implies (
        #[trigger] shorter[k]).island is None by {
            assert(shorter[k] == readings[k]);
        }
        lemma_no_names(shorter);
        assert(readings[readings.len() - 1].island is None);
    }
}

proof fn lemma_first_is_first(seen: Seq<Seq<char>>)
    requires
        seen.len() > 0,
    ensures
        sysfs::first_occurrences(seen).len() > 0,
        sysfs::first_occurrences(seen)[0] == seen[0],
    decreases seen.len(),
{
    if seen.len() > 1 {
        lemma_first_is_first(seen.drop_last());
    } else {
        assert(sysfs::first_occurrences(seen.drop_last()) =~= Seq::empty());
    }
}

/// Every processor that was read is listed once, in the order of its number, and free to use: in
/// the first group, neither parked nor reserved. What was read of its core and node stands, and
/// what was not read is filled in with its number and the first node. Only nothing is refused.
pub proof fn law_every_processor_is_listed(
    readings: &Vec<LinuxCpuReading>,
    read: Result<Vec<CpuSetEntry>, String>,
    x: int,
    i: int,
)
    requires
        are_distinct(readings@),
        call_ensures(sysfs::read_cpu_sets, (readings,), read),
    ensures
        read is Err <==> readings@.len() == 0,
        read matches Ok(entries) ==> {
            &&& entries@.len() == readings@.len()
            &&& forall|k: int|
                0 <= k < readings@.len() ==> #[trigger] is_listed(entries@, readings@, k)
            &&& forall|a: int, b: int|
                0 <= a < b < entries@.len() ==> (#[trigger] entries@[a]).logical_index <= (
                #[trigger] entries@[b]).logical_index
            &&& is_entry_of(entries@, x, readings@, i) ==> {
                &&& entries@[x].group == 0
                &&& !entries@[x].parked && !entries@[x].allocated_to_other && !entries@[x].realtime
                &&& !entries@[x].cache
                &&& entries@[x].core_index == match readings@[i].core_id {
                    Some(core) => core,
                    None => readings@[i].cpu,
                }
                &&& entries@[x].numa_node == match readings@[i].numa_node {
                    Some(node) => node,
                    None => 0,
                }
                &&& readings@[i].cpu <= u32::MAX ==> entries@[x].id == readings@[i].cpu
            }
        },
{
    if let Ok(entries) = read {
        let scores = lemma_linux_entries(readings, entries);
    }
}

/// The score of a core is what the first source that answers says: the kind of core, then what the
/// processor says of itself, then its capacity, then its highest performance.
pub proof fn law_first_answer_is_the_score(
    core_type: Option<u32>,
    cpuid: Option<u32>,
    capacity: Option<u32>,
    perf: Option<u32>,
    score: Option<u32>,
)
    requires
        call_ensures(sysfs::read_cpu_score, (core_type, cpuid, capacity, perf), score),
    ensures
        core_type is Some ==> score == core_type,
        core_type is None && cpuid is Some ==> score == cpuid,
        core_type is None && cpuid is None && capacity is Some ==> score == capacity,
        core_type is None && cpuid is None && capacity is None ==> score == perf,
{
}

proof fn lemma_plain_number(value: nat)
    ensures
        !text::decimal(value).contains('-'),
        !text::decimal(value).contains(','),
        text::decimal(value).len() > 0,
        text::unsigned(text::decimal(value)) == Some(value),
        text::trim(text::decimal(value)) == text::decimal(value),
{
    text::lemma_decimal_round_trip(value);
    let digits = text::decimal(value);
    assert forall|i: int| 0 <= i < digits.len() implies digits[i] != '-' && digits[i] != ',' by {
        assert(text::is_digit(digits[i]));
    }
    text::lemma_trim_fixed(digits);
}

/// A range of a processor list names its first and its last processor and those between, and a
/// range that runs backwards is refused. A number names itself.
pub proof fn law_ranges_name_both_ends(
    value: &str,
    first: nat,
    last: nat,
    parsed: Result<Vec<usize>, String>,
)
    requires
        first <= usize::MAX,
        last <= usize::MAX,
        value@ == text::decimal(first) + seq!['-'] + text::decimal(last) || first == last && value@
            == text::decimal(first),
        call_ensures(sysfs::parse_cpu_list, (value,), parsed),
    ensures
        parsed is Ok <==> first <= last,
        parsed matches Ok(cpus) ==> forall|cpu: usize| #[trigger]
            cpus@.contains(cpu) <==> first <= cpu <= last,
        parsed matches Err(message) ==> message@ == "invalid descending CPU range "@
            + text::debug_quoted(value@),
{
    lemma_plain_number(first);
    lemma_plain_number(last);
    let start = text::decimal(first);
    let end = text::decimal(last);
    let part = value@;
    if part == start + seq!['-'] + end {
        let at = start.len() as int;
        assert(part[at] == '-');
        assert forall|j: int| 0 <= j < at implies part[j] != '-' by {
            assert(part[j] == start[j]);
        }
        assert(sysfs::is_first_at(part, '-', at));
        let other = choose|other: int| sysfs::is_first_at(part, '-', other);
        assert(sysfs::is_first_at(part, '-', other));
        if other < at {
            assert(part[other] != '-');
        }
        if at < other {
            assert(part[at] != '-');
        }
        assert(part.subrange(0, at) =~= start);
        assert(part.subrange(at + 1, part.len() as int) =~= end);
        assert(part.contains('-'));
        assert forall|i: int| 0 <= i < part.len() implies part[i] != ',' by {
            if i < at {
                assert(part[i] == start[i]);
            } else if i > at {
                assert(part[i] == end[i - at - 1]);
            }
        }
    }
    text::lemma_split_whole(part, ',');
    let parts = text::split(part, ',');
    assert(parts[0] == part);
    if first <= last {
        assert(sysfs::is_accepted(part));
        if let Ok(cpus) = parsed {
            assert forall|cpu: usize| #[trigger] cpus@.contains(cpu) <==> first <= cpu <= last by {
                if first <= cpu <= last {
                    assert(sysfs::part_lists_cpu(part, 0, cpu as nat));
                }
            }
        }
    } else {
        assert(!sysfs::is_accepted(parts[0]));
        if let Err(message) = parsed {
            let k = choose|k: int| #[trigger]
                sysfs::is_first_refused(part, k) && sysfs::list_part(parts[k])
                    == sysfs::ListPart::Refused(message@);
            assert(k == 0);
        }
    }
}

/// Parts of a processor list add up: a list and one more part name what either names, and are
/// refused where either is.
pub proof fn law_list_parts_add_up(
    value: &str,
    left: &str,
    right: &str,
    whole: Result<Vec<usize>, String>,
    of_left: Result<Vec<usize>, String>,
    of_right: Result<Vec<usize>, String>,
)
    requires
        !right@.contains(','),
        value@ == left@ + seq![','] + right@,
        call_ensures(sysfs::parse_cpu_list, (value,), whole),
        call_ensures(sysfs::parse_cpu_list, (left,), of_left),
        call_ensures(sysfs::parse_cpu_list, (right,), of_right),
    ensures
        whole is Ok <==> of_left is Ok && of_right is Ok,
        whole is Ok ==> forall|cpu: usize| #[trigger]
            whole->Ok_0@.contains(cpu) <==> of_left->Ok_0@.contains(cpu)
                || of_right->Ok_0@.contains(cpu),
        whole matches Ok(cpus) ==> forall|i: int, j: int|
            0 <= i < j < cpus@.len() ==> #[trigger] cpus@[i] < #[trigger] cpus@[j],
{
    text::lemma_split_append(left@, ',', right@);
    text::lemma_split_whole(right@, ',');
    let all = text::split(value@, ',');
    let before = text::split(left@, ',');
    let own = text::split(right@, ',');
    assert(own[0] == right@);
    assert(all[before.len() as int] == right@);
    if whole is Err {
        let k = choose|k: int| #[trigger] sysfs::is_first_refused(value@, k);
        assert(!sysfs::is_accepted(all[k]));
        if k < before.len() {
            assert(all[k] == before[k]);
            assert(!sysfs::is_accepted(before[k]));
        } else {
            assert(!sysfs::is_accepted(own[0]));
        }
    }
    if of_left is Err {
        let k = choose|k: int| #[trigger] sysfs::is_first_refused(left@, k);
        assert(all[k] == before[k]);
        assert(!sysfs::is_accepted(all[k]));
    }
    if of_right is Err {
        let k = choose|k: int| #[trigger] sysfs::is_first_refused(right@, k);
        assert(!sysfs::is_accepted(all[before.len() as int]));
    }
    if whole is Ok {
        assert(of_left is Ok && of_right is Ok);
        assert forall|cpu: usize| #[trigger]
            whole->Ok_0@.contains(cpu) <==> of_left->Ok_0@.contains(cpu)
                || of_right->Ok_0@.contains(cpu) by {
            if sysfs::lists_cpu(value@, cpu as nat) {
                let i = choose|i: int| #[trigger] sysfs::part_lists_cpu(value@, i, cpu as nat);
                if i < before.len() {
                    assert(all[i] == before[i]);
                    assert(sysfs::part_lists_cpu(left@, i, cpu as nat));
                } else {
                    assert(sysfs::part_lists_cpu(right@, 0, cpu as nat));
                }
            }
            if sysfs::lists_cpu(left@, cpu as nat) {
                let i = choose|i: int| #[trigger] sysfs::part_lists_cpu(left@, i, cpu as nat);
                assert(all[i] == before[i]);
                assert(sysfs::part_lists_cpu(value@, i, cpu as nat));
            }
            if sysfs::lists_cpu(right@, cpu as nat) {
                let i = choose|i: int| #[trigger] sysfs::part_lists_cpu(right@, i, cpu as nat);
                assert(sysfs::part_lists_cpu(value@, before.len() as int, cpu as nat));
            }
        }
    }
}

/// A range of a processor set names its first and its last processor and those between, and one
/// that runs backwards or beyond the width of a mask is refused.
pub proof fn law_cpuset_ranges_name_both_ends(
    value: &str,
    first: nat,
    last: nat,
    parsed: Result<usize, ServiceError>,
)
    requires
        first <= usize::MAX,
        last <= usize::MAX,
        value@ == text::decimal(first) + seq!['-'] + text::decimal(last) || first == last && value@
            == text::decimal(first),
        call_ensures(cpuset::parse_cpuset_mask, (value,), parsed),
    ensures
        parsed is Ok <==> first <= last < usize::BITS,
        parsed matches Ok(mask) ==> forall|cpu: int| #[trigger]
            mask::has_cpu(mask, cpu) <==> first <= cpu <= last,
        parsed matches Err(error) ==> (error matches ServiceError::Affinity { expression, message }
            && expression@ == value@ && message@ == if first > last {
            "cpuset range "@ + text::debug_quoted(value@) + " has descending bounds"@
        } else {
            "logical processor index "@ + text::decimal(
                if first >= usize::BITS {
                    first
                } else {
                    usize::BITS as nat
                },
            ) + " cannot fit in affinity mask"@
        }),
{
    lemma_plain_number(first);
    lemma_plain_number(last);
    let start = text::decimal(first);
    let end = text::decimal(last);
    let term = value@;
    text::lemma_decimal_round_trip(first);
    text::lemma_decimal_round_trip(last);
    if term == start + seq!['-'] + end {
        let at = start.len() as int;
        assert(term[at] == '-');
        assert forall|j: int| 0 <= j < at implies term[j] != '-' by {
            assert(term[j] == start[j]);
        }
        assert(cpuset::is_dash(term, at));
        let other = choose|other: int| cpuset::is_dash(term, other);
        assert(cpuset::is_dash(term, other));
        if other < at {
            assert(term[other] != '-');
        }
        if at < other {
            assert(term[at] != '-');
        }
        assert(term.subrange(0, at) =~= start);
        assert(term.subrange(at + 1, term.len() as int) =~= end);
        assert(term.contains('-'));
        assert forall|i: int| 0 <= i < term.len() implies term[i] != ',' by {
            if i < at {
                assert(term[i] == start[i]);
            } else if i > at {
                assert(term[i] == end[i - at - 1]);
            }
        }
        assert(term[0] == start[0]);
        assert(term.last() == end.last());
        text::lemma_trim_fixed(term);
    }
    text::lemma_split_whole(term, ',');
    assert(cpuset::terms(term) =~= seq![term]);
    assert(cpuset::terms(term)[0] == term);
    if first <= last < usize::BITS {
        assert(cpuset::meaning(term) == cpuset::Term::Range(first, last));
        assert forall|cpu: int| #[trigger] cpuset::names_cpu(term, cpu) <==> first <= cpu <= last by {
            if first <= cpu <= last {
                assert(cpuset::term_names(cpuset::terms(term)[0], cpu));
            }
        }
        assert(cpuset::is_cpuset(term));
        if parsed is Err {
            assert(cpuset::names_cpu(term, first as int));
        }
    } else {
        assert(cpuset::meaning(term) is Refused);
        assert(cpuset::meaning(cpuset::terms(term)[0]) is Refused);
        if let Err(ServiceError::Affinity { expression, message }) = parsed {
            let k = choose|k: int| #[trigger]
                cpuset::is_first_refused(term, k) && cpuset::meaning(cpuset::terms(term)[k])
                    == cpuset::Term::Refused(message@);
            assert(k == 0);
        }
    }
}

/// A cache counts as shared where it is unified and two or more processors are listed for it, and
/// it is known by its level and those processors.
pub proof fn law_shared_caches_have_company(
    cache: &CacheDescription,
    list: &str,
    parsed: Result<Vec<usize>, String>,
    level: Option<u32>,
    shared: Option<SharedCache>,
)
    requires
        cache.shared_cpu_list is Some,
        list@ == text::trim(cache.shared_cpu_list->0@),
        call_ensures(sysfs::parse_cpu_list, (list,), parsed),
        parsed is Ok,
        call_ensures(sysfs::read_u32, (&cache.level,), level),
        call_ensures(sysfs::shared_cache, (cache,), shared),
    ensures
        shared is Some <==> level is Some && parsed->Ok_0@.len() > 1 && cache.cache_type is Some
            && text::trim(cache.cache_type->0@) == "Unified"@,
        shared matches Some(shared) ==> shared.level == level->0 && shared.count == parsed->Ok_0@.len(),
{
    let value = text::trim(cache.shared_cpu_list->0@);
    assert(forall|i: int|
        0 <= i < text::split(value, ',').len() ==> sysfs::is_accepted(
            #[trigger] text::split(value, ',')[i],
        ));
    assert forall|cpu: usize| #[trigger] parsed->Ok_0@.contains(cpu) <==> sysfs::lists_cpu(
        value,
        cpu as nat,
    ) by {
        assert(parsed->Ok_0@.contains(cpu) <==> sysfs::lists_cpu(list@, cpu as nat));
        assert(list@ == value);
    }
    assert(sysfs::shared_by(*cache, parsed->Ok_0@));
    assert forall|other: Seq<usize>| #[trigger] sysfs::shared_by(*cache, other) implies other
        == parsed->Ok_0@ by {
        lemma_same_list(other, parsed->Ok_0@);
    }
    if shared is None && sysfs::is_unified(*cache) && sysfs::unreadable_share(*cache) {
        let k = choose|k: int| #[trigger] sysfs::is_first_refused(list@, k);
        assert(sysfs::is_accepted(text::split(list@, ',')[k]));
    }
    if let Some(shared) = shared {
        let own = choose|own: Seq<usize>| #[trigger] sysfs::describes_shared(*cache, shared, own);
        assert(sysfs::shared_by(*cache, own));
    }
}

pub proof fn lemma_same_list(a: Seq<usize>, b: Seq<usize>)
    requires
        forall|i: int, j: int| 0 <= i < j < a.len() ==> #[trigger] a[i] < #[trigger] a[j],
        forall|i: int, j: int| 0 <= i < j < b.len() ==> #[trigger] b[i] < #[trigger] b[j],
        forall|cpu: usize| #[trigger] a.contains(cpu) <==> b.contains(cpu),
    ensures
        a == b,
    decreases a.len() + b.len(),
{
    if a.len() == 0 {
        if b.len() > 0 {
            assert(b.contains(b[0]));
            assert(a.contains(b[0]));
        }
        assert(a =~= b);
    } else if b.len() == 0 {
        assert(a.contains(a[0]));
        assert(b.contains(a[0]));
    } else {
        let x = a.last();
        let y = b.last();
        assert(a.contains(x) && b.contains(y));
        assert(b.contains(x) && a.contains(y));
        let i = choose|i: int| 0 <= i < b.len() && b[i] == x;
        let j = choose|j: int| 0 <= j < a.len() && a[j] == y;
        if i < b.len() - 1 {
            assert(b[i] < b[b.len() - 1]);
        }
        if j < a.len() - 1 {
            assert(a[j] < a[a.len() - 1]);
        }
        assert(x == y);
        let p = a.drop_last();
        let q = b.drop_last();
        assert forall|cpu: usize| #[trigger] p.contains(cpu) <==> q.contains(cpu) by {
            assert(a.contains(cpu) <==> b.contains(cpu));
            if p.contains(cpu) {
                let k = choose|k: int| 0 <= k < p.len() && p[k] == cpu;
                assert(a[k] == cpu && a[k] < a[a.len() - 1]);
                assert(a.contains(cpu));
                let m = choose|m: int| 0 <= m < b.len() && b[m] == cpu;
                assert(q[m] == cpu);
            }
            if q.contains(cpu) {
                let k = choose|k: int| 0 <= k < q.len() && q[k] == cpu;
                assert(b[k] == cpu && b[k] < b[b.len() - 1]);
                assert(b.contains(cpu));
                let m = choose|m: int| 0 <= m < a.len() && a[m] == cpu;
                assert(p[m] == cpu);
            }
        }
        lemma_same_list(p, q);
        assert(a =~= p.push(x));
        assert(b =~= q.push(y));
    }
}

/// What is not known of a machine is made up evenly: as many processors as it runs on, numbered
/// from zero, all alike and free to use. What was read is taken as it is.
pub proof fn law_unread_machine_is_even(
    read: Result<Vec<CpuSetEntry>, String>,
    count: usize,
    topology: Result<CpuTopology, String>,
)
    requires
        call_ensures(CpuTopology::read_or_fallback, (read, count), topology),
    ensures
        topology is Ok,
        read is Ok && read->Ok_0@.len() > 0 ==> topology->Ok_0.entries@ == read->Ok_0@,
        read is Err || read->Ok_0@.len() == 0 ==> {
            &&& topology->Ok_0.entries@.len() == count
            &&& forall|i: int|
                0 <= i < count ==> {
                    let entry = #[trigger] topology->Ok_0.entries@[i];
                    &&& entry.logical_index == i
                    &&& entry.core_index == i
                    &&& entry.group == 0 && entry.efficiency_class == 0 && entry.numa_node == 0
                    &&& entry.last_level_cache_index == 0
                    &&& !entry.cache && !entry.parked
                    &&& !entry.allocated_to_other && !entry.realtime
                }
        },
{
}

/// The preferred cache is a real one, no real one is larger, and none of the same size has more
/// processors. There is one exactly where one of the caches is real.
pub proof fn law_largest_cache_is_preferred(
    caches: &[L3CacheAffinity],
    selected: Vec<L3CacheAffinity>,
    other: &L3CacheAffinity,
    chosen: &L3CacheAffinity,
    own: u32,
    others: u32,
    first: u32,
    others_first: u32,
)
    requires
        call_ensures(processor::select_c_l3_cache_affinities, (caches,), selected),
        caches@.contains(*other),
        other.cache_size != 0,
        other.mask != 0,
        selected@.len() > 0 ==> *chosen == selected@[0],
        call_ensures(L3CacheAffinity::processor_count, (chosen,), own),
        call_ensures(L3CacheAffinity::processor_count, (other,), others),
        call_ensures(L3CacheAffinity::lowest_logical_index, (chosen,), first),
        call_ensures(L3CacheAffinity::lowest_logical_index, (other,), others_first),
    ensures
        selected@.len() == 1,
        caches@.contains(*chosen),
        chosen.cache_size != 0,
        chosen.mask != 0,
        chosen.cache_size >= other.cache_size,
        chosen.cache_size == other.cache_size ==> own >= others,
        chosen.cache_size == other.cache_size && own == others ==> chosen.group <= other.group,
        chosen.cache_size == other.cache_size && own == others && chosen.group == other.group
            ==> first <= others_first,
        chosen.cache_size == other.cache_size && own == others && chosen.group == other.group
            && first == others_first ==> forall|j: int|
            0 <= j < caches@.len() && #[trigger] caches@[j] == *other ==> exists|k: int|
                j <= k < caches@.len() && #[trigger] caches@[k] == *chosen,
{
    let j = choose|j: int| 0 <= j < caches@.len() && caches@[j] == *other;
    assert(processor::is_real_cache(caches@[j]));
    let k = choose|k: int| #[trigger]
        processor::is_selected_cache(caches@, k) && selected@ == seq![caches@[k]];
    assert(caches@[k] == *chosen);
    if chosen.cache_size == other.cache_size && own == others && chosen.group == other.group
        && first == others_first {
        assert forall|j: int| 0 <= j < caches@.len() && #[trigger] caches@[j]
            == *other implies exists|k: int|
            j <= k < caches@.len() && #[trigger] caches@[k] == *chosen by {
            assert(processor::is_real_cache(caches@[j]));
            assert(j <= k);
        }
    }
}

/// A cache is worth preferring on a processor that is known for it, or where two real caches
/// differ in size; otherwise none is.
pub proof fn law_only_unequal_caches_are_preferred(
    caches: Vec<L3CacheAffinity>,
    known: bool,
    detected: Result<Vec<L3CacheAffinity>, String>,
)
    requires
        call_ensures(
            processor::detect_c_cache_affinities,
            (Ok::<Vec<L3CacheAffinity>, String>(caches), known),
            detected,
        ),
    ensures
        detected is Ok,
        !known && (forall|i: int, j: int|
            0 <= i < caches@.len() && 0 <= j < caches@.len() && (#[trigger] caches@[i]).cache_size
                != 0 && caches@[i].mask != 0 && (#[trigger] caches@[j]).cache_size != 0
                && caches@[j].mask != 0 ==> caches@[i].cache_size == caches@[j].cache_size)
            ==> detected->Ok_0@.len() == 0,
        (forall|i: int|
            0 <= i < caches@.len() ==> (#[trigger] caches@[i]).cache_size == 0 || caches@[i].mask
                == 0) ==> detected->Ok_0@.len() == 0,
        forall|i: int, j: int|
            0 <= i < caches@.len() && 0 <= j < caches@.len() && (#[trigger] caches@[i]).cache_size
                != 0 && caches@[i].mask != 0 && (#[trigger] caches@[j]).cache_size != 0
                && caches@[j].mask != 0 && caches@[i].cache_size != caches@[j].cache_size
                ==> detected->Ok_0@.len() == 1,
        known ==> forall|i: int|
            0 <= i < caches@.len() && (#[trigger] caches@[i]).cache_size != 0 && caches@[i].mask
                != 0 ==> detected->Ok_0@.len() == 1,
{
    assert forall|i: int, j: int|
        0 <= i < caches@.len() && 0 <= j < caches@.len() && (#[trigger] caches@[i]).cache_size != 0
            && caches@[i].mask != 0 && (#[trigger] caches@[j]).cache_size != 0 && caches@[j].mask
            != 0 && caches@[i].cache_size != caches@[j].cache_size implies detected->Ok_0@.len()
        == 1 by {
        assert(processor::is_real_cache(caches@[i]));
        assert(processor::is_real_cache(caches@[j]));
    }
    if known {
        assert forall|i: int|
            0 <= i < caches@.len() && (#[trigger] caches@[i]).cache_size != 0 && caches@[i].mask
                != 0 implies detected->Ok_0@.len() == 1 by {
            assert(processor::is_real_cache(caches@[i]));
        }
    }
}

/// A processor lies behind a cache where it is in its group and its mask.
pub proof fn law_cache_holds_its_processors(
    cache: &L3CacheAffinity,
    group: u16,
    index: usize,
    inside: bool,
)
    requires
        call_ensures(L3CacheAffinity::contains, (cache, group, index), inside),
    ensures
        inside <==> group == cache.group && index < usize::BITS && (cache.mask >> index) & 1 == 1,
{
}

/// Only processors of two families of one vendor that are called so have the large cache stacked.
pub proof fn law_stacked_caches_are_known_by_name(
    identity: &Option<ProcessorIdentity>,
    found: bool,
    named: bool,
    brand: &[u8],
)
    requires
        identity matches Some(known) ==> brand@ == known.brand@,
        call_ensures(processor::processor_brand_contains_x3d, (brand,), named),
        call_ensures(processor::is_amd_x3d_cache_candidate_processor, (identity,), found),
    ensures
        found <==> identity is Some && identity->0.vendor@ == seq![
            65u8,
            117,
            116,
            104,
            101,
            110,
            116,
            105,
            99,
            65,
            77,
            68,
        ] && (identity->0.display_family == 25 || identity->0.display_family == 26) && named,
        named <==> exists|i: int|
            0 <= i < brand@.len() - 2 && (#[trigger] brand@[i] == 88 || brand@[i] == 120)
                && brand@[i + 1] == 51 && (brand@[i + 2] == 68 || brand@[i + 2] == 100),
{
    if exists|i: int|
        0 <= i < brand@.len() - 2 && (#[trigger] brand@[i] == 88 || brand@[i] == 120) && brand@[i
            + 1] == 51 && (brand@[i + 2] == 68 || brand@[i + 2] == 100) {
        let i = choose|i: int|
            0 <= i < brand@.len() - 2 && (#[trigger] brand@[i] == 88 || brand@[i] == 120)
                && brand@[i + 1] == 51 && (brand@[i + 2] == 68 || brand@[i + 2] == 100);
        assert(processor::x3d_at(brand@, i));
    }
    if processor::names_x3d(brand@) {
        let i = choose|i: int| #[trigger] processor::x3d_at(brand@, i);
        assert(brand@[i] == 88 || brand@[i] == 120);
    }
}

/// A hybrid processor tells the kind of the asking core in the highest byte of its answer.
pub proof fn law_core_kind_is_the_highest_byte(
    vendor: &CpuidRegisters,
    leaf: &CpuidRegisters,
    intel: bool,
    kind: Option<u32>,
)
    requires
        call_ensures(
            processor::cpuid_vendor_is_intel,
            (vendor.ebx, vendor.edx, vendor.ecx),
            intel,
        ),
        call_ensures(processor::hybrid_core_type, (vendor, leaf), kind),
    ensures
        kind is Some <==> intel && vendor.eax >= 26 && leaf.eax >= 16777216,
        kind matches Some(kind) ==> kind * 16777216 <= leaf.eax < (kind + 1) * 16777216,
{
}

proof fn lemma_shifted_records(buffer: Seq<u8>, skipped: int, at: int, order: ByteOrder)
    requires
        0 <= skipped <= buffer.len(),
        0 <= at,
    ensures
        windows_topology::cpu_sets_from(buffer, skipped + at, order)
            == windows_topology::cpu_sets_from(buffer.skip(skipped), at, order),
    decreases buffer.len() + 1 - at,
{
    let rest = buffer.skip(skipped);
    if at + 32 <= rest.len() {
        let size = bytes::u32_at(rest, at, order);
        assert(bytes::u32_at(buffer, skipped + at, order) == size);
        assert(bytes::u32_at(buffer, skipped + at + 4, order) == bytes::u32_at(
            rest,
            at + 4,
            order,
        ));
        assert(windows_topology::cpu_set_at(buffer, skipped + at, order)
            == windows_topology::cpu_set_at(rest, at, order));
        if size > 0 && at + size <= rest.len() {
            lemma_shifted_records(buffer, skipped, at + size, order);
        } else if size > 0 {
            assert(windows_topology::cpu_sets_from(buffer, skipped + at + size, order)
                == windows_topology::cpu_sets_from(rest, at + size, order));
        }
    }
}

/// The first record of a buffer gives the first processor, from the places where its number, its
/// group, its core, its cache, its node, its class and its flags stand, and the rest of the buffer
/// gives the rest. A record of another kind gives none, and one without a size is refused.
pub proof fn law_records_give_processors_one_by_one(
    buffer: &Vec<u8>,
    order: ByteOrder,
    rest: &Vec<u8>,
    decoded: Result<Vec<CpuSetEntry>, String>,
    more: Result<Vec<CpuSetEntry>, String>,
)
    requires
        buffer@.len() >= 32,
        ({
            let size = bytes::u32_at(buffer@, 0, order);
            size <= buffer@.len() && rest@ == buffer@.skip(size as int)
        }),
        call_ensures(windows_topology::decode_cpu_sets, (buffer, order), decoded),
        call_ensures(windows_topology::decode_cpu_sets, (rest, order), more),
    ensures
        bytes::u32_at(buffer@, 0, order) == 0 ==> decoded is Err,
        bytes::u32_at(buffer@, 0, order) != 0 && bytes::u32_at(buffer@, 4, order) != 0 ==> (
        decoded is Ok <==> more is Ok) && (decoded is Ok ==> decoded->Ok_0@ == more->Ok_0@),
        bytes::u32_at(buffer@, 0, order) != 0 && bytes::u32_at(buffer@, 4, order) == 0 ==> {
            let group = bytes::u16_at(buffer@, 12, order);
            &&& group == 0 && buffer@[14] >= usize::BITS ==> decoded is Err
            &&& !(group == 0 && buffer@[14] >= usize::BITS) ==> (decoded is Ok <==> more is Ok)
            &&& decoded is Ok ==> {
                let entry = decoded->Ok_0@[0];
                &&& decoded->Ok_0@ == seq![entry] + more->Ok_0@
                &&& entry.id == bytes::u32_at(buffer@, 8, order)
                &&& entry.group == group
                &&& entry.logical_index == buffer@[14]
                &&& entry.core_index == buffer@[15]
                &&& entry.last_level_cache_index == buffer@[16]
                &&& entry.numa_node == buffer@[17]
                &&& entry.efficiency_class == buffer@[18]
                &&& !entry.cache
                &&& entry.parked <==> buffer@[19] % 2 == 1
                &&& entry.allocated_to_other <==> buffer@[19] / 2 % 2 == 1 && buffer@[19] / 4 % 2
                    == 0
                &&& entry.realtime <==> buffer@[19] / 8 % 2 == 1
            }
        },
{
    let size = bytes::u32_at(buffer@, 0, order);
    lemma_shifted_records(buffer@, size as int, 0, order);
}

/// What is left of a buffer when no whole record fits gives no processor.
pub proof fn law_broken_record_gives_nothing(
    buffer: &Vec<u8>,
    order: ByteOrder,
    decoded: Result<Vec<CpuSetEntry>, String>,
)
    requires
        buffer@.len() < 32,
        call_ensures(windows_topology::decode_cpu_sets, (buffer, order), decoded),
    ensures
        decoded is Ok,
        decoded->Ok_0@.len() == 0,
{
}

/// The processors of Windows are those of the records, in the order of their numbers. A processor
/// has the preferred cache exactly where one of the caches names its group and its number, and
/// caches that could not be read name none.
pub proof fn law_preferred_cache_is_marked(
    buffer: &Vec<u8>,
    order: ByteOrder,
    caches: Result<Vec<L3CacheAffinity>, String>,
    decoded: Result<Vec<CpuSetEntry>, String>,
    read: Result<Vec<CpuSetEntry>, String>,
    x: int,
)
    requires
        call_ensures(windows_topology::decode_cpu_sets, (buffer, order), decoded),
        call_ensures(windows_topology::read_cpu_sets, (buffer, order, caches), read),
    ensures
        read is Ok <==> decoded is Ok,
        read matches Ok(entries) ==> {
            &&& entries@.len() == decoded->Ok_0@.len()
            &&& forall|a: int, b: int|
                0 <= a < b < entries@.len() ==> (#[trigger] entries@[a]).logical_index <= (
                #[trigger] entries@[b]).logical_index
            &&& 0 <= x < entries@.len() ==> {
                &&& exists|k: int|
                    0 <= k < decoded->Ok_0@.len() && entries@[x] == (CpuSetEntry {
                        cache: entries@[x].cache,
                        ..#[trigger] decoded->Ok_0@[k]
                    })
                &&& entries@[x].cache <==> caches is Ok && exists|i: int|
                    0 <= i < caches->Ok_0@.len() && (#[trigger] caches->Ok_0@[i]).group
                        == entries@[x].group && mask::has_cpu(
                        caches->Ok_0@[i].mask,
                        entries@[x].logical_index as int,
                    )
            }
        },
{
    if let (Ok(entries), Ok(found)) = (read, decoded) {
        let known = match caches {
            Ok(caches) => caches@,
            Err(_) => Seq::empty(),
        };
        let marked = windows_topology::with_caches(found@, known);
        lemma_sorted_members(marked);
        if 0 <= x < entries@.len() {
            assert(entries@.contains(entries@[x]));
            let k = choose|k: int| 0 <= k < marked.len() && marked[k] == entries@[x];
            assert(entries@[x] == (CpuSetEntry { cache: entries@[x].cache, ..found@[k] }));
        }
    }
}

/// A buffer is asked for as large as the system says, and only where it says so by refusing.
pub proof fn law_buffer_length_comes_from_a_refusal(
    call: &str,
    succeeded: bool,
    length: u32,
    required: Result<u32, String>,
)
    requires
        call_ensures(windows_topology::required_length, (call, succeeded, length), required),
    ensures
        required is Ok <==> !succeeded && length > 0,
        required matches Ok(required) ==> required == length,
{
}

} // verus!
