//! The processors as the Linux kernel describes them: lists of processor numbers, cache
//! descriptions and core scores.

use vstd::prelude::*;

use crate::ordered;
use crate::text;
use crate::topology;
use crate::topology::CpuSetEntry;

verus! {

/// What one part of a processor list writes.
pub enum ListPart {
    One(nat),
    Range(nat, nat),
    Refused(Seq<char>),
}

/// The number that `digits` writes, where it is a processor number.
pub open spec fn cpu_number(digits: Seq<char>) -> Option<nat> {
    match text::unsigned(digits) {
        Some(value) => if value <= usize::MAX {
            Some(value)
        } else {
            None
        },
        None => None,
    }
}

/// `at` is the first position of `c` in `part`.
pub open spec fn is_first_at(part: Seq<char>, c: char, at: int) -> bool {
    0 <= at < part.len() && part[at] == c && forall|j: int| 0 <= j < at ==> part[j] != c
}

/// The text before and after the first `-` of `part`.
pub open spec fn range_ends(part: Seq<char>) -> (Seq<char>, Seq<char>) {
    let at = choose|at: int| is_first_at(part, '-', at);
    (part.subrange(0, at), part.subrange(at + 1, part.len() as int))
}

/// The meaning of one part of a processor list.
pub open spec fn list_part(part: Seq<char>) -> ListPart {
    if part.contains('-') {
        let (start, end) = range_ends(part);
        match (cpu_number(start), cpu_number(end)) {
            (None, _) => ListPart::Refused(
                "invalid CPU list start "@ + text::debug_quoted(start) + ": "@
                    + text::parse_usize_error(start),
            ),
            (_, None) => ListPart::Refused(
                "invalid CPU list end "@ + text::debug_quoted(end) + ": "@
                    + text::parse_usize_error(end),
            ),
            (Some(first), Some(last)) => if first > last {
                ListPart::Refused("invalid descending CPU range "@ + text::debug_quoted(part))
            } else {
                ListPart::Range(first, last)
            },
        }
    } else {
        match cpu_number(part) {
            Some(cpu) => ListPart::One(cpu),
            None => ListPart::Refused(
                "invalid CPU id "@ + text::debug_quoted(part) + ": "@ + text::parse_usize_error(
                    part,
                ),
            ),
        }
    }
}

/// `cpu` is one of the processors that the part names.
pub open spec fn names_cpu(part: Seq<char>, cpu: nat) -> bool {
    match list_part(part) {
        ListPart::One(only) => cpu == only,
        ListPart::Range(first, last) => first <= cpu <= last,
        ListPart::Refused(_) => false,
    }
}

/// The part is empty, or names processors.
pub open spec fn is_accepted(part: Seq<char>) -> bool {
    part.len() == 0 || !(list_part(part) is Refused)
}

/// `cpu` is one of the processors that the list names.
pub open spec fn lists_cpu(value: Seq<char>, cpu: nat) -> bool {
    exists|i: int| #[trigger] part_lists_cpu(value, i, cpu)
}

pub open spec fn part_lists_cpu(value: Seq<char>, i: int, cpu: nat) -> bool {
    let parts = text::split(value, ',');
    0 <= i < parts.len() && parts[i].len() > 0 && names_cpu(parts[i], cpu)
}

/// `k` is the first part of the list that is refused.
pub open spec fn is_first_refused(value: Seq<char>, k: int) -> bool {
    let parts = text::split(value, ',');
    &&& 0 <= k < parts.len()
    &&& !is_accepted(parts[k])
    &&& forall|j: int| 0 <= j < k ==> is_accepted(#[trigger] parts[j])
}

fn find_char(chars: &Vec<char>, c: char) -> (found: Option<usize>)
    ensures
        match found {
            Some(at) => is_first_at(chars@, c, at as int),
            None => !chars@.contains(c),
        },
{
    let mut i: usize = 0;
    while i < chars.len()
        invariant
            i <= chars@.len(),
            forall|j: int| 0 <= j < i ==> chars@[j] != c,
        decreases chars@.len() - i,
    {
        if chars[i] == c {
            return Some(i);
        }
        i = i + 1;
    }
    None
}

fn refusal(what: &str, quoted: &str, reason: &str) -> (message: String)
    ensures
        message@ == what@ + text::debug_quoted(quoted@) + ": "@ + text::parse_usize_error(quoted@)
            <== reason@ == text::parse_usize_error(quoted@),
{
    let mut message = what.to_owned();
    text::append(&mut message, text::quoted(quoted).as_str());
    text::append(&mut message, ": ");
    text::append(&mut message, reason);
    message
}

/// The first and last processor of one part of a list.
fn parse_part(part: &str) -> (parsed: Result<(usize, usize), String>)
    ensures
        match parsed {
            Ok((first, last)) => {
                &&& first <= last
                &&& !(list_part(part@) is Refused)
                &&& forall|cpu: nat| #[trigger] names_cpu(part@, cpu) <==> first <= cpu <= last
            },
            Err(message) => list_part(part@) == ListPart::Refused(message@),
        },
{
    let chars = text::characters(part);
    match find_char(&chars, '-') {
        None => {
            match text::parse_usize(part) {
                Ok(cpu) => Ok((cpu, cpu)),
                Err(reason) => Err(refusal("invalid CPU id ", part, reason.as_str())),
            }
        },
        Some(at) => {
            let start = text::text_between(&chars, 0, at);
            let end = text::text_between(&chars, at + 1, chars.len());
            proof {
                assert(part@.contains('-'));
                let chosen = choose|other: int| is_first_at(part@, '-', other);
                assert(is_first_at(part@, '-', chosen));
                assert(chosen == at) by {
                    if chosen < at {
                        assert(chars@[chosen] != '-');
                    }
                    if at < chosen {
                        assert(part@[at as int] != '-');
                    }
                }
                assert(range_ends(part@) == (start@, end@));
            }
            let first = match text::parse_usize(start.as_str()) {
                Ok(first) => first,
                Err(reason) => {
                    return Err(refusal("invalid CPU list start ", start.as_str(), reason.as_str()));
                },
            };
            let last = match text::parse_usize(end.as_str()) {
                Ok(last) => last,
                Err(reason) => {
                    return Err(refusal("invalid CPU list end ", end.as_str(), reason.as_str()));
                },
            };
            if first > last {
                let mut message = "invalid descending CPU range ".to_string();
                text::append(&mut message, text::quoted(part).as_str());
                return Err(message);
            }
            Ok((first, last))
        },
    }
}

fn insert_range(cpus: &mut Vec<u64>, first: usize, last: usize)
    requires
        ordered::strictly_increasing(old(cpus)@),
        first <= last,
    ensures
        ordered::strictly_increasing(final(cpus)@),
        forall|cpu: u64| #[trigger]
            final(cpus)@.contains(cpu) <==> old(cpus)@.contains(cpu) || first <= cpu <= last,
{
    let mut next: usize = first;
    loop
        invariant_except_break
            first <= next <= last,
            ordered::strictly_increasing(cpus@),
            forall|cpu: u64| #[trigger]
                cpus@.contains(cpu) <==> old(cpus)@.contains(cpu) || first <= cpu < next,
        ensures
            ordered::strictly_increasing(cpus@),
            forall|cpu: u64| #[trigger]
                cpus@.contains(cpu) <==> old(cpus)@.contains(cpu) || first <= cpu <= last,
        decreases last - next,
    {
        let ghost before = cpus@;
        ordered::insert(cpus, next as u64);
        assert forall|cpu: u64| #[trigger]
            cpus@.contains(cpu) <==> old(cpus)@.contains(cpu) || first <= cpu <= next by {
            assert(before.contains(cpu) <==> old(cpus)@.contains(cpu) || first <= cpu < next);
        }
        if next == last {
            break;
        }
        next = next + 1;
    }
}

/// The processors that a list such as `0-3,8` names, each once, in increasing order.
pub fn parse_cpu_list(value: &str) -> (parsed: Result<Vec<usize>, String>)
    ensures
        match parsed {
            Ok(cpus) => {
                &&& forall|i: int|
                    0 <= i < text::split(value@, ',').len() ==> is_accepted(
                        #[trigger] text::split(value@, ',')[i],
                    )
                &&& forall|i: int, j: int|
                    0 <= i < j < cpus@.len() ==> #[trigger] cpus@[i] < #[trigger] cpus@[j]
                &&& forall|cpu: usize| #[trigger]
                    cpus@.contains(cpu) <==> lists_cpu(value@, cpu as nat)
            },
            Err(message) => exists|k: int| #[trigger]
                is_first_refused(value@, k) && list_part(text::split(value@, ',')[k])
                    == ListPart::Refused(message@),
        },
{
    let ghost parts = text::split(value@, ',');
    let pieces = text::pieces(value, ',');
    let mut found: Vec<u64> = Vec::new();
    let mut i: usize = 0;
    while i < pieces.len()
        invariant
            i <= pieces@.len(),
            parts == text::split(value@, ','),
            text::views(pieces@) == parts,
            ordered::strictly_increasing(found@),
            forall|j: int| 0 <= j < i ==> is_accepted(#[trigger] parts[j]),
            forall|k: int| 0 <= k < found@.len() ==> #[trigger] found@[k] <= usize::MAX,
            forall|cpu: u64| #[trigger]
                found@.contains(cpu) <==> exists|j: int|
                    j < i && #[trigger] part_lists_cpu(value@, j, cpu as nat),
        decreases pieces@.len() - i,
    {
        let ghost before = found@;
        assert(text::views(pieces@)[i as int] == pieces@[i as int]@);
        assert(parts[i as int] == pieces@[i as int]@);
        if !pieces[i].as_str().is_empty() {
            match parse_part(pieces[i].as_str()) {
                Ok((first, last)) => {
                    insert_range(&mut found, first, last);
                    assert forall|cpu: u64| #[trigger]
                        found@.contains(cpu) <==> exists|j: int|
                            j < i + 1 && #[trigger] part_lists_cpu(value@, j, cpu as nat) by {
                        assert(part_lists_cpu(value@, i as int, cpu as nat) <==> first <= cpu
                            <= last) by {
                            assert(names_cpu(parts[i as int], cpu as nat) <==> first <= cpu
                                <= last);
                        }
                        if before.contains(cpu) {
                            let j = choose|j: int|
                                j < i && #[trigger] part_lists_cpu(value@, j, cpu as nat);
                            assert(part_lists_cpu(value@, j, cpu as nat));
                        }
                    }
                    assert forall|k: int| 0 <= k < found@.len() implies #[trigger] found@[k]
                        <= usize::MAX by {
                        assert(found@.contains(found@[k]));
                        if before.contains(found@[k]) {
                            let j = choose|j: int| 0 <= j < before.len() && before[j] == found@[k];
                            assert(before[j] <= usize::MAX);
                        }
                    }
                },
                Err(message) => {
                    assert(is_first_refused(value@, i as int));
                    return Err(message);
                },
            }
        } else {
            assert forall|cpu: u64| #[trigger]
                found@.contains(cpu) <==> exists|j: int|
                    j < i + 1 && #[trigger] part_lists_cpu(value@, j, cpu as nat) by {
                assert(!part_lists_cpu(value@, i as int, cpu as nat));
                if found@.contains(cpu) {
                    let j = choose|j: int|
                        j < i && #[trigger] part_lists_cpu(value@, j, cpu as nat);
                    assert(part_lists_cpu(value@, j, cpu as nat));
                }
            }
        }
        i = i + 1;
    }
    let mut cpus: Vec<usize> = Vec::new();
    let mut k: usize = 0;
    while k < found.len()
        invariant
            k <= found@.len(),
            cpus@.len() == k,
            ordered::strictly_increasing(found@),
            forall|j: int| 0 <= j < found@.len() ==> #[trigger] found@[j] <= usize::MAX,
            forall|j: int| 0 <= j < k ==> #[trigger] cpus@[j] as u64 == found@[j],
        decreases found@.len() - k,
    {
        cpus.push(found[k] as usize);
        k = k + 1;
    }
    proof {
        assert forall|cpu: usize| #[trigger]
            cpus@.contains(cpu) <==> lists_cpu(value@, cpu as nat) by {
            assert(cpus@.contains(cpu) <==> found@.contains(cpu as u64)) by {
                if cpus@.contains(cpu) {
                    let j = choose|j: int| 0 <= j < cpus@.len() && cpus@[j] == cpu;
                    assert(found@[j] == cpu as u64);
                }
                if found@.contains(cpu as u64) {
                    let j = choose|j: int| 0 <= j < found@.len() && found@[j] == cpu as u64;
                    assert(cpus@[j] == cpu);
                }
            }
            if lists_cpu(value@, cpu as nat) {
                let j = choose|j: int| #[trigger] part_lists_cpu(value@, j, cpu as nat);
                assert(part_lists_cpu(value@, j, (cpu as u64) as nat));
                assert(j < pieces@.len());
            }
            if found@.contains(cpu as u64) {
                let j = choose|j: int|
                    j < pieces@.len() && #[trigger] part_lists_cpu(
                        value@,
                        j,
                        (cpu as u64) as nat,
                    );
                assert(part_lists_cpu(value@, j, cpu as nat));
            }
        }
        assert forall|a: int, b: int| 0 <= a < b < cpus@.len() implies #[trigger] cpus@[a]
            < #[trigger] cpus@[b] by {
            assert(found@[a] < found@[b]);
        }
    }
    Ok(cpus)
}

/// The numbers, joined by commas.
pub open spec fn joined(cpus: Seq<usize>) -> Seq<char>
    decreases cpus.len(),
{
    if cpus.len() == 0 {
        Seq::empty()
    } else if cpus.len() == 1 {
        text::decimal(cpus[0] as nat)
    } else {
        joined(cpus.drop_last()).push(',') + text::decimal(cpus.last() as nat)
    }
}

pub fn cpu_list_signature(cpus: &[usize]) -> (signature: String)
    ensures
        signature@ == joined(cpus@),
{
    let mut signature = String::new();
    let mut i: usize = 0;
    while i < cpus.len()
        invariant
            i <= cpus@.len(),
            signature@ == joined(cpus@.subrange(0, i as int)),
        decreases cpus@.len() - i,
    {
        assert(cpus@.subrange(0, i + 1).drop_last() =~= cpus@.subrange(0, i as int));
        if i > 0 {
            signature.push(',');
        }
        text::append(&mut signature, text::decimal_text(cpus[i] as u64).as_str());
        assert(signature@ =~= joined(cpus@.subrange(0, i + 1)));
        i = i + 1;
    }
    assert(cpus@.subrange(0, cpus@.len() as int) =~= cpus@);
    signature
}

/// The number in the text of a one-number file.
pub open spec fn file_number(content: Seq<char>, limit: nat) -> Option<nat> {
    match text::unsigned(text::trim(content)) {
        Some(value) => if value <= limit {
            Some(value)
        } else {
            None
        },
        None => None,
    }
}

/// The number in the text of a file that holds one, where there is such a file.
pub fn read_usize(content: &Option<String>) -> (value: Option<usize>)
    ensures
        match value {
            Some(value) => content matches Some(content) && file_number(
                content@,
                usize::MAX as nat,
            ) == Some(value as nat),
            None => content matches Some(content) ==> file_number(content@, usize::MAX as nat)
                is None,
        },
{
    match content {
        None => None,
        Some(content) => match text::parse_usize(text::trimmed(content.as_str()).as_str()) {
            Ok(value) => Some(value),
            Err(_) => None,
        },
    }
}

/// The number in the text of a file that holds one, where there is such a file and the number
/// fits.
pub fn read_u32(content: &Option<String>) -> (value: Option<u32>)
    ensures
        match value {
            Some(value) => content matches Some(content) && file_number(content@, u32::MAX as nat)
                == Some(value as nat),
            None => content matches Some(content) ==> file_number(content@, u32::MAX as nat)
                is None,
        },
{
    match read_usize(content) {
        Some(value) => if value <= u32::MAX as usize {
            Some(value as u32)
        } else {
            None
        },
        None => None,
    }
}

/// The texts of the files that describe one cache, where they can be read.
pub struct CacheDescription {
    pub level: Option<String>,
    pub cache_type: Option<String>,
    pub shared_cpu_list: Option<String>,
}

/// What a description says of a cache that several processors share.
pub struct SharedCache {
    pub level: u32,
    pub count: usize,
    pub signature: String,
}

/// The description is of a unified cache at a known level.
pub open spec fn is_unified(cache: CacheDescription) -> bool {
    &&& cache.level matches Some(level) && file_number(level@, u32::MAX as nat) is Some
    &&& cache.cache_type matches Some(kind) && text::trim(kind@) == "Unified"@
}

pub open spec fn level_of(cache: CacheDescription) -> nat {
    file_number(cache.level->0@, u32::MAX as nat)->0
}

/// `cpus` lists the processors that share the cache.
pub open spec fn shared_by(cache: CacheDescription, cpus: Seq<usize>) -> bool {
    &&& cache.shared_cpu_list is Some
    &&& {
        let value = text::trim(cache.shared_cpu_list->0@);
        &&& forall|i: int|
            0 <= i < text::split(value, ',').len() ==> is_accepted(
                #[trigger] text::split(value, ',')[i],
            )
        &&& forall|i: int, j: int|
            0 <= i < j < cpus.len() ==> #[trigger] cpus[i] < #[trigger] cpus[j]
        &&& forall|cpu: usize| #[trigger]
            cpus.contains(cpu) <==> lists_cpu(value, cpu as nat)
    }
}

/// The list of sharing processors cannot be read.
pub open spec fn unreadable_share(cache: CacheDescription) -> bool {
    cache.shared_cpu_list matches Some(value) ==> exists|k: int| #[trigger]
        is_first_refused(text::trim(value@), k)
}

pub open spec fn shared_signature(level: nat, cpus: Seq<usize>) -> Seq<char> {
    "cache:"@ + text::decimal(level) + ":"@ + joined(cpus)
}

/// `cache` is shared by the processors `cpus`, two or more, at the level and with the signature
/// that `shared` says.
pub open spec fn describes_shared(
    cache: CacheDescription,
    shared: SharedCache,
    cpus: Seq<usize>,
) -> bool {
    &&& is_unified(cache)
    &&& shared_by(cache, cpus)
    &&& cpus.len() > 1
    &&& shared.level == level_of(cache)
    &&& shared.count == cpus.len()
    &&& shared.signature@ == shared_signature(level_of(cache), cpus)
}

/// `shared` says what the description of a shared cache says.
pub open spec fn is_shared_cache(cache: CacheDescription, shared: SharedCache) -> bool {
    exists|cpus: Seq<usize>| #[trigger] describes_shared(cache, shared, cpus)
}

/// No readable list of two or more processors shares `cache`.
pub open spec fn is_not_shared(cache: CacheDescription) -> bool {
    ||| !is_unified(cache)
    ||| unreadable_share(cache)
    ||| exists|cpus: Seq<usize>| #[trigger] shared_by(cache, cpus) && cpus.len() <= 1
}

/// What a description says of a cache that several processors share.
pub fn shared_cache(cache: &CacheDescription) -> (shared: Option<SharedCache>)
    ensures
        match shared {
            Some(shared) => is_shared_cache(*cache, shared),
            None => is_not_shared(*cache),
        },
{
    let level = match read_u32(&cache.level) {
        Some(level) => level,
        None => {
            return None;
        },
    };
    let kind = match &cache.cache_type {
        Some(kind) => kind,
        None => {
            return None;
        },
    };
    if !text::same_text(text::trimmed(kind.as_str()).as_str(), "Unified") {
        return None;
    }
    let list = match &cache.shared_cpu_list {
        Some(list) => list,
        None => {
            return None;
        },
    };
    let cpus = match parse_cpu_list(text::trimmed(list.as_str()).as_str()) {
        Ok(cpus) => cpus,
        Err(_) => {
            return None;
        },
    };
    assert(shared_by(*cache, cpus@));
    if cpus.len() <= 1 {
        return None;
    }
    let mut signature = "cache:".to_string();
    text::append(&mut signature, text::decimal_text(level as u64).as_str());
    text::append(&mut signature, ":");
    text::append(&mut signature, cpu_list_signature(cpus.as_slice()).as_str());
    let shared = SharedCache { level, count: cpus.len(), signature };
    assert(describes_shared(*cache, shared, cpus@));
    Some(shared)
}

/// `a` takes the place of `b`: a higher level, or as high with more processors.
pub open spec fn replaces(a: SharedCache, b: SharedCache) -> bool {
    a.level > b.level || (a.level == b.level && a.count > b.count)
}

/// Of what the descriptions say, `best` (at `k`) is what remains when each takes the place of a
/// lesser one before it.
pub open spec fn is_best_shared(
    found: Seq<Option<SharedCache>>,
    best: SharedCache,
    k: int,
) -> bool {
    &&& 0 <= k < found.len()
    &&& found[k] == Some(best)
    &&& forall|j: int|
        0 <= j < k && (#[trigger] found[j]) is Some ==> replaces(best, found[j]->0)
    &&& forall|j: int|
        k < j < found.len() && (#[trigger] found[j]) is Some ==> !replaces(found[j]->0, best)
}

/// What the descriptions say of shared caches, one by one.
pub open spec fn describes_each(
    caches: Seq<CacheDescription>,
    found: Seq<Option<SharedCache>>,
) -> bool {
    &&& found.len() == caches.len()
    &&& forall|i: int|
        0 <= i < caches.len() ==> match #[trigger] found[i] {
            Some(shared) => is_shared_cache(caches[i], shared),
            None => is_not_shared(caches[i]),
        }
}

/// The signature of the island on which a processor sits: that of the highest cache it shares,
/// and of equally high ones that of the cache with the most processors.
pub fn read_linux_cpu_island_signature(caches: &Vec<CacheDescription>) -> (signature: Option<
    String,
>)
    ensures
        exists|found: Seq<Option<SharedCache>>|
            {
                &&& #[trigger] describes_each(caches@, found)
                &&& match signature {
                    Some(signature) => exists|best: SharedCache, k: int| #[trigger]
                        is_best_shared(found, best, k) && best.signature@ == signature@,
                    None => forall|i: int|
                        0 <= i < found.len() ==> (#[trigger] found[i]) is None,
                }
            },
{
    let ghost mut found: Seq<Option<SharedCache>> = Seq::empty();
    let ghost mut at: int = 0;
    let mut best: Option<SharedCache> = None;
    let mut i: usize = 0;
    while i < caches.len()
        invariant
            i <= caches@.len(),
            found.len() == i,
            describes_each(caches@.subrange(0, i as int), found),
            match best {
                Some(best) => is_best_shared(found, best, at),
                None => forall|j: int| 0 <= j < found.len() ==> (#[trigger] found[j]) is None,
            },
        decreases caches@.len() - i,
    {
        let shared = shared_cache(&caches[i]);
        let ghost before = found;
        proof {
            found = found.push(shared);
            let longer = caches@.subrange(0, i + 1);
            assert forall|j: int| 0 <= j < longer.len() implies match #[trigger] found[j] {
                Some(shared) => is_shared_cache(longer[j], shared),
                None => is_not_shared(longer[j]),
            } by {
                if j < i {
                    assert(found[j] == before[j]);
                    assert(caches@.subrange(0, i as int)[j] == longer[j]);
                } else {
                    assert(found[j] == shared);
                    assert(longer[j] == caches@[i as int]);
                }
            }
        }
        match shared {
            None => {
                assert(match best {
                    Some(best) => is_best_shared(found, best, at),
                    None => forall|j: int| 0 <= j < found.len() ==> (#[trigger] found[j]) is None,
                });
            },
            Some(shared) => {
                let should_replace = match &best {
                    Some(kept) => shared.level > kept.level || (shared.level == kept.level
                        && shared.count > kept.count),
                    None => true,
                };
                if should_replace {
                    proof {
                        if best is Some {
                            let kept = best->0;
                            assert forall|j: int|
                                0 <= j < i && (#[trigger] found[j]) is Some implies replaces(
                                shared,
                                found[j]->0,
                            ) by {
                                assert(found[j] == before[j]);
                            }
                        }
                        at = i as int;
                    }
                    best = Some(shared);
                }
            },
        }
        i = i + 1;
    }
    assert(caches@.subrange(0, caches@.len() as int) =~= caches@);
    match best {
        Some(best) => {
            assert(is_best_shared(found, best, at));
            Some(best.signature)
        },
        None => None,
    }
}

/// Islands in the order in which they were first seen; the place of an island is its index.
pub struct IslandIndexMap {
    pub names: Vec<String>,
}

/// Each of `names` occurs once.
pub open spec fn all_distinct(names: Seq<Seq<char>>) -> bool {
    forall|i: int, j: int| 0 <= i < j < names.len() ==> #[trigger] names[i] != #[trigger] names[j]
}

/// The names in `seen`, each once, in the order of their first occurrence.
pub open spec fn first_occurrences(seen: Seq<Seq<char>>) -> Seq<Seq<char>>
    decreases seen.len(),
{
    if seen.len() == 0 {
        Seq::empty()
    } else {
        let before = first_occurrences(seen.drop_last());
        if before.contains(seen.last()) {
            before
        } else {
            before.push(seen.last())
        }
    }
}

impl IslandIndexMap {
    pub open spec fn wf(&self) -> bool {
        all_distinct(text::views(self.names@))
    }

    /// The index of the island `name`.
    pub fn index_of(&self, name: &str) -> (found: Option<usize>)
        requires
            self.wf(),
        ensures
            match found {
                Some(at) => at < self.names@.len() && text::views(self.names@)[at as int] == name@,
                None => !text::views(self.names@).contains(name@),
            },
    {
        let mut i: usize = 0;
        while i < self.names.len()
            invariant
                i <= self.names@.len(),
                forall|j: int| 0 <= j < i ==> text::views(self.names@)[j] != name@,
            decreases self.names@.len() - i,
        {
            assert(text::views(self.names@)[i as int] == self.names@[i as int]@);
            if text::same_text(self.names[i].as_str(), name) {
                return Some(i);
            }
            i = i + 1;
        }
        None
    }
}

/// Numbers the islands in the order in which they are first seen.
pub fn linux_island_index_map(islands: &Vec<String>) -> (map: IslandIndexMap)
    ensures
        map.wf(),
        text::views(map.names@) == first_occurrences(text::views(islands@)),
{
    let mut map = IslandIndexMap { names: Vec::new() };
    let mut i: usize = 0;
    let ghost seen = text::views(islands@);
    assert(seen.subrange(0, 0) =~= Seq::empty());
    assert(text::views(map.names@) =~= Seq::empty());
    while i < islands.len()
        invariant
            i <= islands@.len(),
            seen == text::views(islands@),
            map.wf(),
            text::views(map.names@) == first_occurrences(seen.subrange(0, i as int)),
        decreases islands@.len() - i,
    {
        assert(seen.subrange(0, i + 1).drop_last() =~= seen.subrange(0, i as int));
        assert(seen[i as int] == islands@[i as int]@);
        let ghost before = text::views(map.names@);
        match map.index_of(islands[i].as_str()) {
            Some(at) => {
                assert(before.contains(seen[i as int])) by {
                    assert(before[at as int] == seen[i as int]);
                }
            },
            None => {
                map.names.push(islands[i].clone());
                assert(text::views(map.names@) =~= before.push(seen[i as int]));
                assert forall|a: int, b: int|
                    0 <= a < b < text::views(map.names@).len() implies #[trigger] text::views(
                    map.names@,
                )[a] != #[trigger] text::views(map.names@)[b] by {
                    if b == before.len() {
                        assert(before[a] == text::views(map.names@)[a]);
                        assert(before.contains(before[a]));
                    }
                }
            },
        }
        i = i + 1;
    }
    assert(seen.subrange(0, seen.len() as int) =~= seen);
    map
}

/// The score by which a core is told apart from faster ones: the first of the sources that
/// answers.
pub fn read_cpu_score(
    core_type: Option<u32>,
    cpuid_core_type: Option<u32>,
    capacity: Option<u32>,
    highest_perf: Option<u32>,
) -> (score: Option<u32>)
    ensures
        score == if core_type is Some {
            core_type
        } else if cpuid_core_type is Some {
            cpuid_core_type
        } else if capacity is Some {
            capacity
        } else {
            highest_perf
        },
{
    if core_type.is_some() {
        core_type
    } else if cpuid_core_type.is_some() {
        cpuid_core_type
    } else if capacity.is_some() {
        capacity
    } else {
        highest_perf
    }
}

/// The distinct scores in increasing order; the class of a score is its place, at most 255.
pub struct EfficiencyClassMap {
    pub scores: Vec<u64>,
}

pub open spec fn class_at(place: int) -> u8 {
    if place < 255 {
        place as u8
    } else {
        255
    }
}

impl EfficiencyClassMap {
    pub open spec fn wf(&self) -> bool {
        ordered::strictly_increasing(self.scores@)
    }

    /// The efficiency class of `score`.
    pub fn class_of(&self, score: u32) -> (class: Option<u8>)
        requires
            self.wf(),
        ensures
            match class {
                Some(class) => exists|place: int|
                    0 <= place < self.scores@.len() && #[trigger] self.scores@[place] == score as u64
                        && class == class_at(place),
                None => !self.scores@.contains(score as u64),
            },
    {
        let mut i: usize = 0;
        while i < self.scores.len()
            invariant
                i <= self.scores@.len(),
                forall|j: int| 0 <= j < i ==> self.scores@[j] != score as u64,
            decreases self.scores@.len() - i,
        {
            if self.scores[i] == score as u64 {
                assert(self.scores@[i as int] == score as u64);
                return if i < 255 {
                    Some(i as u8)
                } else {
                    Some(255)
                };
            }
            i = i + 1;
        }
        None
    }
}

/// One of the scores is `score`.
pub open spec fn was_read(scores: Seq<u32>, score: u64) -> bool {
    exists|i: int| 0 <= i < scores.len() && #[trigger] scores[i] as u64 == score
}

/// Ranks the scores.
pub fn efficiency_class_map(scores: &Vec<u32>) -> (map: EfficiencyClassMap)
    ensures
        map.wf(),
        forall|score: u64| #[trigger]
            map.scores@.contains(score) <==> exists|i: int|
                0 <= i < scores@.len() && #[trigger] scores@[i] as u64 == score,
        forall|score: u64| #[trigger] map.scores@.contains(score) <==> was_read(scores@, score),
{
    let mut map = EfficiencyClassMap { scores: Vec::new() };
    let mut i: usize = 0;
    while i < scores.len()
        invariant
            i <= scores@.len(),
            map.wf(),
            forall|score: u64| #[trigger]
                map.scores@.contains(score) <==> exists|j: int|
                    0 <= j < i && #[trigger] scores@[j] as u64 == score,
        decreases scores@.len() - i,
    {
        let ghost before = map.scores@;
        ordered::insert(&mut map.scores, scores[i] as u64);
        assert forall|score: u64| #[trigger]
            map.scores@.contains(score) <==> exists|j: int|
                0 <= j < i + 1 && #[trigger] scores@[j] as u64 == score by {
            if before.contains(score) {
                let j = choose|j: int| 0 <= j < i && #[trigger] scores@[j] as u64 == score;
                assert(scores@[j] as u64 == score);
            }
            assert(scores@[i as int] as u64 == score ==> map.scores@.contains(score));
        }
        i = i + 1;
    }
    map
}

/// A better score never has a lower class.
pub proof fn law_classes_follow_scores(map: EfficiencyClassMap, low: int, high: int)
    requires
        map.wf(),
        0 <= low < map.scores@.len(),
        0 <= high < map.scores@.len(),
        map.scores@[low] <= map.scores@[high],
    ensures
        class_at(low) <= class_at(high),
{
    if high < low {
        assert(map.scores@[high] < map.scores@[low]);
    }
}

/// The memory node that one directory entry names.
pub open spec fn node_number(name: Seq<char>) -> Option<nat> {
    if text::begins_with(name, "node"@) {
        cpu_number(name.subrange(4, name.len() as int))
    } else {
        None
    }
}

/// The memory node that the first entry that names one names.
pub fn read_numa_node(names: &Vec<String>) -> (node: Option<usize>)
    ensures
        match node {
            Some(node) => exists|k: int|
                {
                    &&& 0 <= k < names@.len()
                    &&& node_number((#[trigger] names@[k])@) == Some(node as nat)
                    &&& forall|j: int| 0 <= j < k ==> node_number((#[trigger] names@[j])@) is None
                },
            None => forall|j: int|
                0 <= j < names@.len() ==> node_number((#[trigger] names@[j])@) is None,
        },
{
    proof {
        reveal_strlit("node");
    }
    let mut i: usize = 0;
    while i < names.len()
        invariant
            i <= names@.len(),
            "node"@.len() == 4,
            forall|j: int| 0 <= j < i ==> node_number((#[trigger] names@[j])@) is None,
        decreases names@.len() - i,
    {
        if text::has_prefix(names[i].as_str(), "node") {
            let chars = text::characters(names[i].as_str());
            let digits = text::text_between(&chars, 4, chars.len());
            match text::parse_usize(digits.as_str()) {
                Ok(node) => {
                    assert(node_number(names@[i as int]@) == Some(node as nat));
                    return Some(node);
                },
                Err(_) => {},
            }
        }
        i = i + 1;
    }
    None
}

/// What was read of one processor.
pub struct LinuxCpuReading {
    pub cpu: usize,
    pub score: Option<u32>,
    pub island: Option<String>,
    pub core_id: Option<usize>,
    pub numa_node: Option<usize>,
}

/// The score `score` was read of the processor.
pub open spec fn has_score(reading: LinuxCpuReading, score: u64) -> bool {
    match reading.score {
        Some(own) => own as u64 == score,
        None => false,
    }
}

/// The scores that were read, each once, in increasing order.
pub open spec fn is_score_list(scores: Seq<u64>, readings: Seq<LinuxCpuReading>) -> bool {
    &&& ordered::strictly_increasing(scores)
    &&& forall|score: u64| #[trigger]
        scores.contains(score) <==> exists|i: int|
            0 <= i < readings.len() && has_score(#[trigger] readings[i], score)
}

/// The islands that were read, in the order of the processors.
pub open spec fn island_names(readings: Seq<LinuxCpuReading>) -> Seq<Seq<char>>
    decreases readings.len(),
{
    if readings.len() == 0 {
        Seq::empty()
    } else {
        let before = island_names(readings.drop_last());
        match readings.last().island {
            Some(name) => before.push(name@),
            None => before,
        }
    }
}

/// The processor that a reading describes, with the class of its score among `scores` and the
/// index of its island among `islands`.
pub open spec fn entry_of(
    reading: LinuxCpuReading,
    scores: Seq<u64>,
    islands: Seq<Seq<char>>,
) -> CpuSetEntry {
    CpuSetEntry {
        id: reading.cpu as u32,
        group: 0,
        logical_index: reading.cpu,
        core_index: match reading.core_id {
            Some(core) => core,
            None => reading.cpu,
        },
        last_level_cache_index: match reading.island {
            Some(name) => islands.index_of(name@) as usize,
            None => 0,
        },
        numa_node: match reading.numa_node {
            Some(node) => node,
            None => 0,
        },
        efficiency_class: match reading.score {
            Some(score) => class_at(scores.index_of(score as u64)),
            None => 0,
        },
        cache: false,
        parked: false,
        allocated_to_other: false,
        realtime: false,
    }
}

/// The processors that the readings describe, in the order of the readings.
pub open spec fn entries_of(readings: Seq<LinuxCpuReading>, scores: Seq<u64>) -> Seq<CpuSetEntry> {
    let islands = first_occurrences(island_names(readings));
    Seq::new(readings.len(), |i: int| entry_of(readings[i], scores, islands))
}

fn collect_islands(readings: &Vec<LinuxCpuReading>) -> (names: Vec<String>)
    ensures
        text::views(names@) == island_names(readings@),
{
    let mut names: Vec<String> = Vec::new();
    let mut i: usize = 0;
    assert(readings@.subrange(0, 0) =~= Seq::empty());
    assert(text::views(names@) =~= Seq::empty());
    while i < readings.len()
        invariant
            i <= readings@.len(),
            text::views(names@) == island_names(readings@.subrange(0, i as int)),
        decreases readings@.len() - i,
    {
        assert(readings@.subrange(0, i + 1).drop_last() =~= readings@.subrange(0, i as int));
        let ghost before = text::views(names@);
        match &readings[i].island {
            Some(name) => {
                names.push(name.clone());
                assert(text::views(names@) =~= before.push(name@));
            },
            None => {},
        }
        i = i + 1;
    }
    assert(readings@.subrange(0, readings@.len() as int) =~= readings@);
    names
}

fn collect_scores(readings: &Vec<LinuxCpuReading>) -> (scores: Vec<u32>)
    ensures
        forall|score: u64|
            (exists|k: int| 0 <= k < scores@.len() && #[trigger] scores@[k] as u64 == score)
                <==> #[trigger] is_read_score(readings@, score),
{
    let mut scores: Vec<u32> = Vec::new();
    let mut i: usize = 0;
    while i < readings.len()
        invariant
            i <= readings@.len(),
            forall|score: u64|
                (exists|k: int| 0 <= k < scores@.len() && #[trigger] scores@[k] as u64 == score)
                    <==> #[trigger] is_read_score(readings@.subrange(0, i as int), score),
        decreases readings@.len() - i,
    {
        let ghost before = scores@;
        let ghost seen = readings@.subrange(0, i as int);
        let ghost longer = readings@.subrange(0, i + 1);
        match readings[i].score {
            Some(score) => {
                scores.push(score);
            },
            None => {},
        }
        assert forall|score: u64|
            (exists|k: int| 0 <= k < scores@.len() && #[trigger] scores@[k] as u64 == score)
                <==> #[trigger] is_read_score(longer, score) by {
            if is_read_score(seen, score) {
                let k = choose|k: int| 0 <= k < before.len() && #[trigger] before[k] as u64 == score;
                assert(scores@[k] as u64 == score);
                let j = choose|j: int|
                    0 <= j < seen.len() && has_score(#[trigger] seen[j], score);
                assert(longer[j] == seen[j]);
            }
            if has_score(readings@[i as int], score) {
                assert(has_score(longer[i as int], score));
                assert(scores@[before.len() as int] as u64 == score);
            }
            if is_read_score(longer, score) {
                let j = choose|j: int|
                    0 <= j < longer.len() && has_score(#[trigger] longer[j], score);
                if j < i {
                    assert(seen[j] == longer[j]);
                    assert(is_read_score(seen, score));
                }
            }
            if exists|k: int| 0 <= k < scores@.len() && #[trigger] scores@[k] as u64 == score {
                let k = choose|k: int|
                    0 <= k < scores@.len() && #[trigger] scores@[k] as u64 == score;
                if k < before.len() {
                    assert(before[k] as u64 == score);
                    assert(is_read_score(seen, score));
                }
            }
        }
        i = i + 1;
    }
    assert(readings@.subrange(0, readings@.len() as int) =~= readings@);
    scores
}

/// `score` was read of one of the processors.
pub open spec fn is_read_score(readings: Seq<LinuxCpuReading>, score: u64) -> bool {
    exists|i: int|
        0 <= i < readings.len() && has_score(#[trigger] readings[i], score)
}

pub proof fn lemma_first_occurrences(seen: Seq<Seq<char>>)
    ensures
        all_distinct(first_occurrences(seen)),
        first_occurrences(seen).len() <= seen.len(),
        forall|name: Seq<char>| #[trigger]
            first_occurrences(seen).contains(name) <==> seen.contains(name),
    decreases seen.len(),
{
    if seen.len() > 0 {
        let shorter = seen.drop_last();
        lemma_first_occurrences(shorter);
        let before = first_occurrences(shorter);
        let after = first_occurrences(seen);
        assert forall|name: Seq<char>| #[trigger] after.contains(name) <==> seen.contains(
            name,
        ) by {
            if shorter.contains(name) {
                let k = choose|k: int| 0 <= k < shorter.len() && shorter[k] == name;
                assert(seen[k] == name);
                assert(before.contains(name));
                let m = choose|m: int| 0 <= m < before.len() && before[m] == name;
                assert(after[m] == name);
            }
            if name == seen.last() {
                assert(seen[seen.len() - 1] == name);
                if !before.contains(name) {
                    assert(after[before.len() as int] == name);
                }
            }
            if seen.contains(name) {
                let k = choose|k: int| 0 <= k < seen.len() && seen[k] == name;
                if k < shorter.len() {
                    assert(shorter[k] == name);
                }
            }
            if after.contains(name) {
                let m = choose|m: int| 0 <= m < after.len() && after[m] == name;
                if m < before.len() {
                    assert(before[m] == name);
                    assert(before.contains(name));
                    assert(shorter.contains(name));
                }
            }
        }
        assert forall|i: int, j: int| 0 <= i < j < after.len() implies #[trigger] after[i]
            != #[trigger] after[j] by {
            if j == before.len() {
                assert(before.contains(before[i]));
            }
        }
    }
}

pub proof fn lemma_island_is_named(readings: Seq<LinuxCpuReading>, i: int)
    requires
        0 <= i < readings.len(),
        readings[i].island is Some,
    ensures
        island_names(readings).contains(readings[i].island->0@),
    decreases readings.len(),
{
    let before = island_names(readings.drop_last());
    let name = readings[i].island->0@;
    if i == readings.len() - 1 {
        assert(island_names(readings)[before.len() as int] == name);
    } else {
        assert(readings.drop_last()[i] == readings[i]);
        lemma_island_is_named(readings.drop_last(), i);
        let k = choose|k: int| 0 <= k < before.len() && before[k] == name;
        assert(island_names(readings)[k] == name);
    }
}

proof fn lemma_index_of_name(names: Seq<Seq<char>>, name: Seq<char>, at: int)
    requires
        all_distinct(names),
        0 <= at < names.len(),
        names[at] == name,
    ensures
        names.index_of(name) == at,
{
    let other = names.index_of(name);
    assert(names.contains(name));
    assert(0 <= other < names.len() && names[other] == name);
    if other < at {
        assert(names[other] != names[at]);
    }
    if at < other {
        assert(names[at] != names[other]);
    }
}

/// The processors of the machine, of what was read of each.
pub fn read_cpu_sets(readings: &Vec<LinuxCpuReading>) -> (read: Result<Vec<CpuSetEntry>, String>)
    ensures
        match read {
            Ok(entries) => readings@.len() > 0 && exists|scores: Seq<u64>| #[trigger]
                is_score_list(scores, readings@) && entries@ == topology::by_id(
                    entries_of(readings@, scores),
                ),
            Err(message) => readings@.len() == 0 && message@ == "Linux online CPU list is empty"@,
        },
{
    if readings.len() == 0 {
        return Err("Linux online CPU list is empty".to_string());
    }
    let names = collect_islands(readings);
    let islands = linux_island_index_map(&names);
    let classes = efficiency_class_map(&collect_scores(readings));
    let ghost scores = classes.scores@;
    let ghost all = text::views(islands.names@);
    assert(is_score_list(scores, readings@)) by {
        assert forall|score: u64| #[trigger] scores.contains(score) implies is_read_score(
            readings@,
            score,
        ) by {}
        assert forall|score: u64| is_read_score(readings@, score) implies #[trigger] scores.contains(
            score,
        ) by {}
    }
    proof {
        lemma_first_occurrences(island_names(readings@));
    }
    let mut entries: Vec<CpuSetEntry> = Vec::new();
    let mut i: usize = 0;
    while i < readings.len()
        invariant
            i <= readings@.len(),
            islands.wf(),
            classes.wf(),
            scores == classes.scores@,
            all == text::views(islands.names@),
            all == first_occurrences(island_names(readings@)),
            forall|name: Seq<char>| #[trigger]
                all.contains(name) <==> island_names(readings@).contains(name),
            is_score_list(scores, readings@),
            entries@.len() == i,
            forall|k: int|
                0 <= k < i ==> #[trigger] entries@[k] == entry_of(readings@[k], scores, all),
        decreases readings@.len() - i,
    {
        let reading = &readings[i];
        let efficiency_class: u8 = match reading.score {
            Some(score) => {
                assert(scores.contains(score as u64)) by {
                    assert(has_score(readings@[i as int], score as u64));
                }
                match classes.class_of(score) {
                    Some(class) => {
                        proof {
                            let place = choose|place: int|
                                0 <= place < scores.len() && #[trigger] scores[place]
                                    == score as u64 && class == class_at(place);
                            let other = scores.index_of(score as u64);
                            assert(0 <= other < scores.len() && scores[other] == score as u64);
                            if other < place {
                                assert(scores[other] < scores[place]);
                            }
                            if place < other {
                                assert(scores[place] < scores[other]);
                            }
                        }
                        class
                    },
                    None => 0,
                }
            },
            None => 0,
        };
        let last_level_cache_index: usize = match &reading.island {
            Some(name) => {
                proof {
                    lemma_island_is_named(readings@, i as int);
                    assert(all.contains(name@));
                }
                match islands.index_of(name.as_str()) {
                    Some(at) => {
                        proof {
                            lemma_index_of_name(all, name@, at as int);
                        }
                        at
                    },
                    None => 0,
                }
            },
            None => 0,
        };
        entries.push(
            CpuSetEntry {
                id: reading.cpu as u32,
                group: 0,
                logical_index: reading.cpu,
                core_index: match reading.core_id {
                    Some(core) => core,
                    None => reading.cpu,
                },
                last_level_cache_index,
                numa_node: match reading.numa_node {
                    Some(node) => node,
                    None => 0,
                },
                efficiency_class,
                cache: false,
                parked: false,
                allocated_to_other: false,
                realtime: false,
            },
        );
        i = i + 1;
    }
    assert(entries@ =~= entries_of(readings@, scores));
    Ok(topology::sort_by_id(&entries))
}

} // verus!
