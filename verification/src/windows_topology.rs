//! The processors and caches of the machine, of the records that Windows reports.

use vstd::prelude::*;

use crate::bytes;
use crate::bytes::ByteOrder;
use crate::mask;
use crate::processor::L3CacheAffinity;
use crate::text;
use crate::topology;
use crate::topology::CpuSetEntry;

verus! {

/// The size of a record of a processor.
pub const CPU_SET_SIZE: usize = 32;

pub const CPU_SET_INFORMATION: u32 = 0;

/// The size of a record of a cache with one group. A record of any kind has room for the longest
/// kind, which ends in a mask.
pub const CACHE_RECORD_SIZE: usize = 72 + bytes::WORD_SIZE;

/// The size of a mask and the number of its group, with the bytes that are left free behind it.
pub const GROUP_AFFINITY_SIZE: usize = bytes::WORD_SIZE + 8;

pub const RELATION_CACHE: u32 = 2;

pub const CACHE_UNIFIED: u32 = 0;

pub const CPU_SET_CALL: &'static str = "GetSystemCpuSetInformation";

pub const CACHE_CALL: &'static str = "GetLogicalProcessorInformationEx(RelationCache)";

/// How large a buffer has to be, of a first call that is meant to fail.
pub fn required_length(call: &str, succeeded: bool, length: u32) -> (required: Result<u32, String>)
    ensures
        match required {
            Ok(required) => !succeeded && length != 0 && required == length,
            Err(message) => (succeeded || length == 0) && message@ == call@
                + " did not report a required buffer length"@,
        },
{
    if succeeded || length == 0 {
        let mut message = call.to_owned();
        text::append(&mut message, " did not report a required buffer length");
        return Err(message);
    }
    Ok(length)
}

/// Why the second call failed.
pub fn failed_call(call: &str, code: u32) -> (message: String)
    ensures
        message@ == call@ + " failed with Windows error "@ + text::decimal(code as nat),
{
    let mut message = call.to_owned();
    text::append(&mut message, " failed with Windows error ");
    let number = text::decimal_text(code as u64);
    text::append(&mut message, number.as_str());
    message
}

pub open spec fn has_flag(flags: u8, bit: u8) -> bool {
    flags / bit % 2 == 1
}

/// The processor of the record at `at`.
pub open spec fn cpu_set_at(buffer: Seq<u8>, at: int, order: ByteOrder) -> CpuSetEntry {
    let flags = buffer[at + 19];
    CpuSetEntry {
        id: bytes::u32_at(buffer, at + 8, order),
        group: bytes::u16_at(buffer, at + 12, order),
        logical_index: buffer[at + 14] as usize,
        core_index: buffer[at + 15] as usize,
        last_level_cache_index: buffer[at + 16] as usize,
        numa_node: buffer[at + 17] as usize,
        efficiency_class: buffer[at + 18],
        cache: false,
        parked: has_flag(flags, 1),
        allocated_to_other: has_flag(flags, 2) && !has_flag(flags, 4),
        realtime: has_flag(flags, 8),
    }
}

pub open spec fn too_large(index: usize) -> Seq<char> {
    "logical processor index "@ + text::decimal(index as nat)
        + " cannot fit in process affinity mask"@
}

/// The processors of the records from `at` on, or the reason why they cannot be read.
pub open spec fn cpu_sets_from(buffer: Seq<u8>, at: int, order: ByteOrder) -> Result<
    Seq<CpuSetEntry>,
    Seq<char>,
>
    decreases
        if at < buffer.len() {
            buffer.len() - at
        } else {
            0
        },
{
    let size = bytes::u32_at(buffer, at, order);
    if at < 0 || at + CPU_SET_SIZE > buffer.len() {
        Ok(Seq::empty())
    } else if size == 0 {
        Err("GetSystemCpuSetInformation returned a zero-sized entry"@)
    } else {
        let entry = cpu_set_at(buffer, at, order);
        let rest = cpu_sets_from(buffer, at + size, order);
        if bytes::u32_at(buffer, at + 4, order) != CPU_SET_INFORMATION {
            rest
        } else if entry.group == 0 && entry.logical_index >= usize::BITS {
            Err(too_large(entry.logical_index))
        } else {
            match rest {
                Ok(rest) => Ok(seq![entry] + rest),
                Err(message) => Err(message),
            }
        }
    }
}

pub open spec fn after_cpu_sets(
    first: Seq<CpuSetEntry>,
    rest: Result<Seq<CpuSetEntry>, Seq<char>>,
) -> Result<Seq<CpuSetEntry>, Seq<char>> {
    match rest {
        Ok(rest) => Ok(first + rest),
        Err(message) => Err(message),
    }
}

fn flagged(flags: u8, bit: u8) -> (set: bool)
    requires
        bit != 0,
    ensures
        set == has_flag(flags, bit),
{
    flags / bit % 2 == 1
}

fn read_cpu_set(buffer: &Vec<u8>, at: usize, order: ByteOrder) -> (entry: CpuSetEntry)
    requires
        at + CPU_SET_SIZE <= buffer@.len(),
    ensures
        entry == cpu_set_at(buffer@, at as int, order),
{
    let length: usize = buffer.len();
    assert(at + CPU_SET_SIZE <= length);
    let flags: u8 = buffer[at + 19];
    CpuSetEntry {
        id: bytes::read_u32_at(buffer.as_slice(), at + 8, order),
        group: bytes::read_u16(buffer.as_slice(), at + 12, order),
        logical_index: buffer[at + 14] as usize,
        core_index: buffer[at + 15] as usize,
        last_level_cache_index: buffer[at + 16] as usize,
        numa_node: buffer[at + 17] as usize,
        efficiency_class: buffer[at + 18],
        cache: false,
        parked: flagged(flags, 1),
        allocated_to_other: flagged(flags, 2) && !flagged(flags, 4),
        realtime: flagged(flags, 8),
    }
}

fn index_message(index: usize) -> (message: String)
    ensures
        message@ == too_large(index),
{
    let mut message = "logical processor index ".to_owned();
    let number = text::decimal_text(index as u64);
    text::append(&mut message, number.as_str());
    text::append(&mut message, " cannot fit in process affinity mask");
    message
}

/// The processors of the records in `buffer`.
pub fn decode_cpu_sets(buffer: &Vec<u8>, order: ByteOrder) -> (decoded: Result<
    Vec<CpuSetEntry>,
    String,
>)
    ensures
        match decoded {
            Ok(entries) => cpu_sets_from(buffer@, 0, order) == Ok::<Seq<CpuSetEntry>, Seq<char>>(
                entries@,
            ),
            Err(message) => cpu_sets_from(buffer@, 0, order) == Err::<Seq<CpuSetEntry>, Seq<char>>(
                message@,
            ),
        },
{
    let mut entries: Vec<CpuSetEntry> = Vec::new();
    let mut at: usize = 0;
    let length: usize = buffer.len();
    assert(after_cpu_sets(entries@, cpu_sets_from(buffer@, 0, order)) =~= cpu_sets_from(
        buffer@,
        0,
        order,
    )) by {
        match cpu_sets_from(buffer@, 0, order) {
            Ok(rest) => {
                assert(entries@ + rest =~= rest);
            },
            Err(_) => {},
        }
    }
    while at <= length && length - at >= CPU_SET_SIZE
        invariant
            length == buffer@.len(),
            cpu_sets_from(buffer@, 0, order) == after_cpu_sets(
                entries@,
                cpu_sets_from(buffer@, at as int, order),
            ),
        decreases buffer@.len() + u32::MAX - at,
    {
        let size: u32 = bytes::read_u32_at(buffer.as_slice(), at, order);
        if size == 0 {
            return Err("GetSystemCpuSetInformation returned a zero-sized entry".to_owned());
        }
        let ghost before = entries@;
        let ghost rest = cpu_sets_from(buffer@, at + size, order);
        if bytes::read_u32_at(buffer.as_slice(), at + 4, order) == CPU_SET_INFORMATION {
            let entry = read_cpu_set(buffer, at, order);
            if entry.group == 0 && entry.logical_index >= usize::BITS as usize {
                return Err(index_message(entry.logical_index));
            }
            entries.push(entry);
            proof {
                match rest {
                    Ok(rest) => {
                        assert(before + (seq![entry] + rest) =~= entries@ + rest);
                    },
                    Err(_) => {},
                }
            }
        }
        if size as usize > length - at {
            proof {
                match rest {
                    Ok(rest) => {
                        assert(entries@ + rest =~= entries@);
                    },
                    Err(_) => {},
                }
            }
            return Ok(entries);
        }
        at = at + size as usize;
    }
    assert(entries@ + Seq::<CpuSetEntry>::empty() =~= entries@);
    Ok(entries)
}

/// Whether one of the caches lies behind the processor.
pub open spec fn is_cached(caches: Seq<L3CacheAffinity>, entry: CpuSetEntry) -> bool {
    exists|i: int|
        0 <= i < caches.len() && (#[trigger] caches[i]).group == entry.group && mask::has_cpu(
            caches[i].mask,
            entry.logical_index as int,
        )
}

pub open spec fn with_caches(entries: Seq<CpuSetEntry>, caches: Seq<L3CacheAffinity>) -> Seq<
    CpuSetEntry,
> {
    entries.map_values(
        |entry: CpuSetEntry| CpuSetEntry { cache: is_cached(caches, entry), ..entry },
    )
}

fn lies_behind(caches: &Vec<L3CacheAffinity>, entry: &CpuSetEntry) -> (found: bool)
    ensures
        found == is_cached(caches@, *entry),
{
    let mut i: usize = 0;
    while i < caches.len()
        invariant
            i <= caches@.len(),
            forall|j: int|
                0 <= j < i ==> !((#[trigger] caches@[j]).group == entry.group && mask::has_cpu(
                    caches@[j].mask,
                    entry.logical_index as int,
                )),
        decreases caches@.len() - i,
    {
        if caches[i].contains(entry.group, entry.logical_index) {
            return true;
        }
        i = i + 1;
    }
    false
}

/// The processors of the machine in the order of their logical indexes and identifiers. Caches
/// that could not be read are none.
pub fn read_cpu_sets(
    buffer: &Vec<u8>,
    order: ByteOrder,
    caches: Result<Vec<L3CacheAffinity>, String>,
) -> (read: Result<Vec<CpuSetEntry>, String>)
    ensures
        match (read, cpu_sets_from(buffer@, 0, order)) {
            (Ok(entries), Ok(decoded)) => entries@ == topology::by_id(
                with_caches(
                    decoded,
                    match caches {
                        Ok(caches) => caches@,
                        Err(_) => Seq::empty(),
                    },
                ),
            ),
            (Err(message), Err(reason)) => message@ == reason,
            _ => false,
        },
{
    let decoded = match decode_cpu_sets(buffer, order) {
        Ok(decoded) => decoded,
        Err(message) => {
            return Err(message);
        },
    };
    let caches = match caches {
        Ok(caches) => caches,
        Err(_) => Vec::new(),
    };
    let mut entries: Vec<CpuSetEntry> = Vec::new();
    let mut i: usize = 0;
    while i < decoded.len()
        invariant
            i <= decoded@.len(),
            entries@ == with_caches(decoded@.take(i as int), caches@),
        decreases decoded@.len() - i,
    {
        let mut entry: CpuSetEntry = decoded[i];
        entry.cache = lies_behind(&caches, &decoded[i]);
        entries.push(entry);
        i = i + 1;
        assert(entries@ =~= with_caches(decoded@.take(i as int), caches@));
    }
    assert(decoded@.take(i as int) =~= decoded@);
    Ok(topology::sort_by_id(&entries))
}

/// The masks of the groups of a cache that stand from `at` on. A group without processors is none.
pub open spec fn group_masks(
    buffer: Seq<u8>,
    at: int,
    count: int,
    cache_size: u32,
    order: ByteOrder,
) -> Seq<L3CacheAffinity>
    decreases count,
{
    if count <= 0 {
        Seq::empty()
    } else {
        let before = group_masks(buffer, at, count - 1, cache_size, order);
        let start = at + (count - 1) * GROUP_AFFINITY_SIZE;
        let mask = bytes::word_at(buffer, start, order);
        if mask == 0 {
            before
        } else {
            before.push(
                L3CacheAffinity {
                    group: bytes::u16_at(buffer, start + bytes::WORD_SIZE, order),
                    mask,
                    cache_size,
                },
            )
        }
    }
}

/// Whether the record at `at` is one of a unified cache of the third level.
pub open spec fn is_l3_record(buffer: Seq<u8>, at: int, order: ByteOrder) -> bool {
    &&& bytes::u32_at(buffer, at, order) == RELATION_CACHE
    &&& buffer[at + 8] == 3
    &&& bytes::u32_at(buffer, at + 16, order) == CACHE_UNIFIED
}

/// Whether the record has room for its groups, of which it has at least one.
pub open spec fn has_groups(size: u32, groups: u16) -> bool {
    groups != 0 && size >= CACHE_RECORD_SIZE + (groups - 1) * GROUP_AFFINITY_SIZE
}

/// The caches of the records from `at` on, or the reason why they cannot be read.
pub open spec fn l3_caches_from(buffer: Seq<u8>, at: int, order: ByteOrder) -> Result<
    Seq<L3CacheAffinity>,
    Seq<char>,
>
    decreases buffer.len() - at,
{
    let size = bytes::u32_at(buffer, at + 4, order);
    let groups = bytes::u16_at(buffer, at + 38, order);
    if at < 0 || at >= buffer.len() {
        Ok(Seq::empty())
    } else if at + CACHE_RECORD_SIZE > buffer.len() {
        Err("GetLogicalProcessorInformationEx(RelationCache) returned a truncated entry"@)
    } else if size == 0 {
        Err("GetLogicalProcessorInformationEx(RelationCache) returned a zero-sized entry"@)
    } else if at + size > buffer.len() {
        Err("GetLogicalProcessorInformationEx(RelationCache) entry exceeds returned buffer"@)
    } else {
        let rest = l3_caches_from(buffer, at + size, order);
        if !is_l3_record(buffer, at, order) {
            rest
        } else if !has_groups(size, groups) {
            Err(
                "GetLogicalProcessorInformationEx(RelationCache) returned an invalid cache group count"@,
            )
        } else {
            match rest {
                Ok(rest) => Ok(
                    group_masks(
                        buffer,
                        at + 40,
                        groups as int,
                        bytes::u32_at(buffer, at + 12, order),
                        order,
                    ) + rest,
                ),
                Err(message) => Err(message),
            }
        }
    }
}

pub open spec fn after_caches(
    first: Seq<L3CacheAffinity>,
    rest: Result<Seq<L3CacheAffinity>, Seq<char>>,
) -> Result<Seq<L3CacheAffinity>, Seq<char>> {
    match rest {
        Ok(rest) => Ok(first + rest),
        Err(message) => Err(message),
    }
}

fn push_group_masks(
    caches: &mut Vec<L3CacheAffinity>,
    buffer: &Vec<u8>,
    at: usize,
    count: u16,
    cache_size: u32,
    order: ByteOrder,
)
    requires
        at + count * GROUP_AFFINITY_SIZE <= buffer@.len(),
    ensures
        final(caches)@ == old(caches)@ + group_masks(
            buffer@,
            at as int,
            count as int,
            cache_size,
            order,
        ),
{
    let ghost before = caches@;
    let length: usize = buffer.len();
    let mut i: u16 = 0;
    assert(before + group_masks(buffer@, at as int, 0, cache_size, order) =~= before);
    while i < count
        invariant
            i <= count,
            length == buffer@.len(),
            at + count * GROUP_AFFINITY_SIZE <= length,
            caches@ == before + group_masks(buffer@, at as int, i as int, cache_size, order),
        decreases count - i,
    {
        assert(i * GROUP_AFFINITY_SIZE + GROUP_AFFINITY_SIZE <= count * GROUP_AFFINITY_SIZE)
            by (nonlinear_arith)
            requires
                i < count,
        ;
        let start: usize = at + i as usize * GROUP_AFFINITY_SIZE;
        let mask: usize = bytes::read_word_at(buffer.as_slice(), start, order);
        let ghost earlier = caches@;
        if mask != 0 {
            caches.push(
                L3CacheAffinity {
                    group: bytes::read_u16(buffer.as_slice(), start + bytes::WORD_SIZE, order),
                    mask,
                    cache_size,
                },
            );
        }
        i = i + 1;
        assert(caches@ =~= before + group_masks(buffer@, at as int, i as int, cache_size, order));
    }
}

/// The caches of the third level, of the records in `buffer`.
pub fn read_l3_cache_affinities(buffer: &Vec<u8>, order: ByteOrder) -> (read: Result<
    Vec<L3CacheAffinity>,
    String,
>)
    ensures
        match read {
            Ok(caches) => l3_caches_from(buffer@, 0, order) == Ok::<
                Seq<L3CacheAffinity>,
                Seq<char>,
            >(caches@),
            Err(message) => l3_caches_from(buffer@, 0, order) == Err::<
                Seq<L3CacheAffinity>,
                Seq<char>,
            >(message@),
        },
{
    let mut caches: Vec<L3CacheAffinity> = Vec::new();
    let mut at: usize = 0;
    let length: usize = buffer.len();
    assert(after_caches(caches@, l3_caches_from(buffer@, 0, order)) =~= l3_caches_from(
        buffer@,
        0,
        order,
    )) by {
        match l3_caches_from(buffer@, 0, order) {
            Ok(rest) => {
                assert(caches@ + rest =~= rest);
            },
            Err(_) => {},
        }
    }
    while at < length
        invariant
            at <= length,
            length == buffer@.len(),
            l3_caches_from(buffer@, 0, order) == after_caches(
                caches@,
                l3_caches_from(buffer@, at as int, order),
            ),
        decreases length - at,
    {
        if length - at < CACHE_RECORD_SIZE {
            return Err(
                "GetLogicalProcessorInformationEx(RelationCache) returned a truncated entry".to_owned(),
            );
        }
        let size: u32 = bytes::read_u32_at(buffer.as_slice(), at + 4, order);
        if size == 0 {
            return Err(
                "GetLogicalProcessorInformationEx(RelationCache) returned a zero-sized entry".to_owned(),
            );
        }
        if size as usize > length - at {
            return Err(
                "GetLogicalProcessorInformationEx(RelationCache) entry exceeds returned buffer".to_owned(),
            );
        }
        let ghost before = caches@;
        let ghost rest = l3_caches_from(buffer@, at + size, order);
        if bytes::read_u32_at(buffer.as_slice(), at, order) == RELATION_CACHE && buffer[at + 8] == 3
            && bytes::read_u32_at(buffer.as_slice(), at + 16, order) == CACHE_UNIFIED {
            let groups: u16 = bytes::read_u16(buffer.as_slice(), at + 38, order);
            if groups == 0 || (size as usize) < CACHE_RECORD_SIZE + (groups as usize - 1)
                * GROUP_AFFINITY_SIZE {
                return Err(
                    "GetLogicalProcessorInformationEx(RelationCache) returned an invalid cache group count".to_owned(),
                );
            }
            let cache_size: u32 = bytes::read_u32_at(buffer.as_slice(), at + 12, order);
            push_group_masks(&mut caches, buffer, at + 40, groups, cache_size, order);
            proof {
                let own = group_masks(buffer@, at + 40, groups as int, cache_size, order);
                match rest {
                    Ok(rest) => {
                        assert(before + (own + rest) =~= caches@ + rest);
                    },
                    Err(_) => {},
                }
            }
        }
        at = at + size as usize;
    }
    assert(caches@ + Seq::<L3CacheAffinity>::empty() =~= caches@);
    Ok(caches)
}

} // verus!
