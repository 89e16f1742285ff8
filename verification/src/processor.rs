//! What the processor says of itself: its vendor, family and brand, and its last-level caches.

use vstd::prelude::*;

use crate::bytes;
use crate::bytes::ByteOrder;
use crate::mask;

verus! {

/// The processors of one group behind one last-level cache.
#[derive(Clone, Copy, Debug, Eq, PartialEq, Structural)]
pub struct L3CacheAffinity {
    pub group: u16,
    pub mask: usize,
    pub cache_size: u32,
}

/// How many of the first `n` logical processors are members of `mask`.
pub open spec fn count_below(mask: usize, n: nat) -> nat
    decreases n,
{
    if n == 0 {
        0
    } else {
        count_below(mask, (n - 1) as nat) + if mask::has_cpu(mask, n - 1) {
            1nat
        } else {
            0nat
        }
    }
}

/// How many logical processors are members of `mask`.
pub open spec fn cpu_count(mask: usize) -> nat {
    count_below(mask, usize::BITS as nat)
}

/// `cpu` is the lowest member of `mask`, or the width of a mask that has none.
pub open spec fn is_lowest_cpu(mask: usize, cpu: int) -> bool {
    &&& 0 <= cpu <= usize::BITS
    &&& cpu < usize::BITS ==> mask::has_cpu(mask, cpu)
    &&& forall|other: int| 0 <= other < cpu ==> !#[trigger] mask::has_cpu(mask, other)
}

/// The lowest member of `mask`, or the width of a mask that has none.
pub open spec fn lowest_cpu(mask: usize) -> int {
    choose|cpu: int| is_lowest_cpu(mask, cpu)
}

impl L3CacheAffinity {
    pub fn contains(&self, group: u16, logical_index: usize) -> (inside: bool)
        ensures
            inside == (group == self.group && mask::has_cpu(self.mask, logical_index as int)),
    {
        group == self.group && mask::contains_cpu(self.mask, logical_index)
    }

    pub fn processor_count(&self) -> (count: u32)
        ensures
            count == cpu_count(self.mask),
    {
        let mut count: u32 = 0;
        let mut cpu: usize = 0;
        while cpu < usize::BITS as usize
            invariant
                cpu <= usize::BITS,
                count <= cpu,
                count == count_below(self.mask, cpu as nat),
            decreases usize::BITS - cpu,
        {
            if mask::contains_cpu(self.mask, cpu) {
                count = count + 1;
            }
            cpu = cpu + 1;
        }
        count
    }

    pub fn lowest_logical_index(&self) -> (lowest: u32)
        ensures
            is_lowest_cpu(self.mask, lowest as int),
            lowest == lowest_cpu(self.mask),
    {
        let mut cpu: u32 = 0;
        while cpu < usize::BITS && !mask::contains_cpu(self.mask, cpu as usize)
            invariant
                cpu <= usize::BITS,
                forall|other: int| 0 <= other < cpu ==> !#[trigger] mask::has_cpu(self.mask, other),
            decreases usize::BITS - cpu,
        {
            cpu = cpu + 1;
        }
        proof {
            assert(is_lowest_cpu(self.mask, cpu as int));
            let other = lowest_cpu(self.mask);
            assert(is_lowest_cpu(self.mask, other));
            if other < cpu {
                assert(mask::has_cpu(self.mask, other));
            }
            if cpu < other {
                assert(mask::has_cpu(self.mask, cpu as int));
            }
        }
        cpu
    }
}

/// The cache has a size and a processor.
pub open spec fn is_real_cache(cache: L3CacheAffinity) -> bool {
    cache.cache_size != 0 && cache.mask != 0
}

/// `a` is preferred to `b`: first the larger cache, then the one with more processors, then the
/// one of the lower group, then the one that begins at the lower processor.
pub open spec fn preferred_cache(a: L3CacheAffinity, b: L3CacheAffinity) -> bool {
    if a.cache_size != b.cache_size {
        a.cache_size > b.cache_size
    } else if cpu_count(a.mask) != cpu_count(b.mask) {
        cpu_count(a.mask) > cpu_count(b.mask)
    } else if a.group != b.group {
        a.group < b.group
    } else {
        lowest_cpu(a.mask) < lowest_cpu(b.mask)
    }
}

/// The cache at `k` is preferred to the others; of equally preferred ones it is the last.
pub open spec fn is_selected_cache(caches: Seq<L3CacheAffinity>, k: int) -> bool {
    &&& 0 <= k < caches.len()
    &&& is_real_cache(caches[k])
    &&& forall|j: int|
        0 <= j < k && is_real_cache(#[trigger] caches[j]) ==> !preferred_cache(
            caches[j],
            caches[k],
        )
    &&& forall|j: int|
        k < j < caches.len() && is_real_cache(#[trigger] caches[j]) ==> preferred_cache(
            caches[k],
            caches[j],
        )
}

pub open spec fn has_real_cache(caches: Seq<L3CacheAffinity>) -> bool {
    exists|j: int| 0 <= j < caches.len() && is_real_cache(#[trigger] caches[j])
}

fn is_preferred_cache(a: &L3CacheAffinity, b: &L3CacheAffinity) -> (preferred: bool)
    ensures
        preferred == preferred_cache(*a, *b),
{
    if a.cache_size != b.cache_size {
        return a.cache_size > b.cache_size;
    }
    let a_count = a.processor_count();
    let b_count = b.processor_count();
    if a_count != b_count {
        return a_count > b_count;
    }
    if a.group != b.group {
        return a.group < b.group;
    }
    a.lowest_logical_index() < b.lowest_logical_index()
}

/// The one cache that is taken for the large one, if any cache is real.
pub fn select_c_l3_cache_affinities(caches: &[L3CacheAffinity]) -> (selected: Vec<L3CacheAffinity>)
    ensures
        if has_real_cache(caches@) {
            exists|k: int| #[trigger]
                is_selected_cache(caches@, k) && selected@ == seq![caches@[k]]
        } else {
            selected@ == Seq::<L3CacheAffinity>::empty()
        },
{
    let mut best: Option<usize> = None;
    let mut i: usize = 0;
    while i < caches.len()
        invariant
            i <= caches@.len(),
            match best {
                Some(k) => {
                    &&& k < i
                    &&& is_real_cache(caches@[k as int])
                    &&& forall|j: int|
                        0 <= j < k && is_real_cache(#[trigger] caches@[j]) ==> !preferred_cache(
                            caches@[j],
                            caches@[k as int],
                        )
                    &&& forall|j: int|
                        k < j < i && is_real_cache(#[trigger] caches@[j]) ==> preferred_cache(
                            caches@[k as int],
                            caches@[j],
                        )
                },
                None => forall|j: int| 0 <= j < i ==> !is_real_cache(#[trigger] caches@[j]),
            },
        decreases caches@.len() - i,
    {
        let cache = caches[i];
        if cache.cache_size != 0 && cache.mask != 0 {
            match best {
                None => {
                    best = Some(i);
                },
                Some(k) => {
                    if !is_preferred_cache(&caches[k], &cache) {
                        best = Some(i);
                    }
                },
            }
        }
        i = i + 1;
    }
    let mut selected: Vec<L3CacheAffinity> = Vec::new();
    match best {
        Some(k) => {
            selected.push(caches[k]);
            proof {
                assert(is_selected_cache(caches@, k as int));
                assert(selected@ =~= seq![caches@[k as int]]);
            }
        },
        None => {},
    }
    selected
}

/// Two real caches differ in size.
pub open spec fn unequal_caches(caches: Seq<L3CacheAffinity>) -> bool {
    exists|i: int, j: int|
        {
            &&& 0 <= i < caches.len()
            &&& 0 <= j < caches.len()
            &&& is_real_cache(#[trigger] caches[i])
            &&& is_real_cache(#[trigger] caches[j])
            &&& caches[i].cache_size > caches[j].cache_size
        }
}

/// Tells whether one of the caches is worth preferring: on a processor that is known for it, or
/// where the caches differ in size.
pub fn is_c_cache_candidate(caches: &[L3CacheAffinity], amd_x3d: bool) -> (candidate: bool)
    ensures
        candidate == (amd_x3d || unequal_caches(caches@)),
{
    if amd_x3d {
        return true;
    }
    let mut first: Option<usize> = None;
    let mut i: usize = 0;
    while i < caches.len()
        invariant
            i <= caches@.len(),
            match first {
                Some(k) => {
                    &&& k < i
                    &&& is_real_cache(caches@[k as int])
                    &&& forall|j: int|
                        0 <= j < i && is_real_cache(#[trigger] caches@[j]) ==> caches@[j].cache_size
                            == caches@[k as int].cache_size
                },
                None => forall|j: int| 0 <= j < i ==> !is_real_cache(#[trigger] caches@[j]),
            },
        decreases caches@.len() - i,
    {
        let cache = caches[i];
        if cache.cache_size > 0 && cache.mask != 0 {
            match first {
                None => {
                    first = Some(i);
                },
                Some(k) => {
                    if caches[k].cache_size != cache.cache_size {
                        proof {
                            assert(is_real_cache(caches@[k as int]));
                            assert(is_real_cache(caches@[i as int]));
                        }
                        return true;
                    }
                },
            }
        }
        i = i + 1;
    }
    false
}

/// The caches that are worth preferring, of those that the machine reports.
pub fn detect_c_cache_affinities(
    caches: Result<Vec<L3CacheAffinity>, String>,
    amd_x3d: bool,
) -> (detected: Result<Vec<L3CacheAffinity>, String>)
    ensures
        match caches {
            Err(message) => detected matches Err(same) && same@ == message@,
            Ok(caches) => detected matches Ok(selected) && if (amd_x3d || unequal_caches(caches@))
                && has_real_cache(caches@) {
                exists|k: int| #[trigger]
                    is_selected_cache(caches@, k) && selected@ == seq![caches@[k]]
            } else {
                selected@ == Seq::<L3CacheAffinity>::empty()
            },
        },
{
    match caches {
        Err(message) => Err(message),
        Ok(caches) => {
            if !is_c_cache_candidate(caches.as_slice(), amd_x3d) {
                return Ok(Vec::new());
            }
            Ok(select_c_l3_cache_affinities(caches.as_slice()))
        },
    }
}

/// The four registers that one identification query fills.
#[derive(Clone, Copy, Debug, Eq, PartialEq, Structural)]
pub struct CpuidRegisters {
    pub eax: u32,
    pub ebx: u32,
    pub ecx: u32,
    pub edx: u32,
}

/// Who made the processor, which family it is of, and what it is called.
#[derive(Debug, Eq, PartialEq)]
pub struct ProcessorIdentity {
    pub vendor: Vec<u8>,
    pub display_family: u32,
    pub brand: Vec<u8>,
}

/// The vendor text: the second, fourth and third register of the first query.
pub open spec fn vendor_bytes(ebx: u32, edx: u32, ecx: u32) -> Seq<u8> {
    bytes::u32_bytes(ebx, ByteOrder::Little) + bytes::u32_bytes(edx, ByteOrder::Little)
        + bytes::u32_bytes(ecx, ByteOrder::Little)
}

/// The sixteen brand bytes of one brand query.
pub open spec fn brand_part(registers: CpuidRegisters) -> Seq<u8> {
    bytes::u32_bytes(registers.eax, ByteOrder::Little) + bytes::u32_bytes(
        registers.ebx,
        ByteOrder::Little,
    ) + bytes::u32_bytes(registers.ecx, ByteOrder::Little) + bytes::u32_bytes(
        registers.edx,
        ByteOrder::Little,
    )
}

/// "AuthenticAMD".
pub open spec fn amd_vendor() -> Seq<u8> {
    seq![65u8, 117, 116, 104, 101, 110, 116, 105, 99, 65, 77, 68]
}

/// "GenuineIntel".
pub open spec fn intel_vendor() -> Seq<u8> {
    seq![71u8, 101, 110, 117, 105, 110, 101, 73, 110, 116, 101, 108]
}

/// The family that the second query encodes: the base family, and from the last base family on
/// the extended one added to it.
pub open spec fn display_family(eax: u32) -> int {
    let base = eax as int / 256 % 16;
    if base == 15 {
        base + eax as int / 1048576 % 256
    } else {
        base
    }
}

pub fn display_family_from_cpuid_eax(eax: u32) -> (family: u32)
    ensures
        family == display_family(eax),
{
    let base_family: u32 = (eax >> 8) & 0x0f;
    let extended_family: u32 = (eax >> 20) & 0xff;
    assert((eax >> 8) & 0x0f == eax / 256 % 16 && (eax >> 20) & 0xff == eax / 1048576 % 256)
        by (bit_vector);
    if base_family == 0x0f {
        base_family + extended_family
    } else {
        base_family
    }
}

/// The brand text, where the processor answers all three brand queries.
pub fn read_x86_processor_brand(
    max_extended_leaf: u32,
    first: &CpuidRegisters,
    second: &CpuidRegisters,
    third: &CpuidRegisters,
) -> (brand: Option<Vec<u8>>)
    ensures
        brand is Some <==> max_extended_leaf >= 0x8000_0004,
        brand matches Some(text) ==> text@ == brand_part(*first) + brand_part(*second) + brand_part(
            *third,
        ),
{
    if max_extended_leaf < 0x8000_0004 {
        return None;
    }
    let mut brand: Vec<u8> = Vec::new();
    push_registers(&mut brand, first);
    push_registers(&mut brand, second);
    push_registers(&mut brand, third);
    assert(brand@ =~= brand_part(*first) + brand_part(*second) + brand_part(*third));
    Some(brand)
}

fn push_registers(brand: &mut Vec<u8>, registers: &CpuidRegisters)
    ensures
        final(brand)@ == old(brand)@ + brand_part(*registers),
{
    let ghost before = brand@;
    bytes::push_u32(brand, registers.eax, ByteOrder::Little);
    bytes::push_u32(brand, registers.ebx, ByteOrder::Little);
    bytes::push_u32(brand, registers.ecx, ByteOrder::Little);
    bytes::push_u32(brand, registers.edx, ByteOrder::Little);
    assert(brand@ =~= before + brand_part(*registers));
}

fn vendor_text(ebx: u32, edx: u32, ecx: u32) -> (vendor: Vec<u8>)
    ensures
        vendor@ == vendor_bytes(ebx, edx, ecx),
{
    let mut vendor: Vec<u8> = Vec::new();
    bytes::push_u32(&mut vendor, ebx, ByteOrder::Little);
    bytes::push_u32(&mut vendor, edx, ByteOrder::Little);
    bytes::push_u32(&mut vendor, ecx, ByteOrder::Little);
    assert(vendor@ =~= vendor_bytes(ebx, edx, ecx));
    vendor
}

/// The identity of the processor, where it answers the second query and has a brand.
pub fn x86_processor_identity(
    leaf0: &CpuidRegisters,
    leaf1: &CpuidRegisters,
    brand: Option<Vec<u8>>,
) -> (identity: Option<ProcessorIdentity>)
    ensures
        identity is Some <==> leaf0.eax >= 1 && brand is Some,
        identity matches Some(known) ==> {
            &&& known.vendor@ == vendor_bytes(leaf0.ebx, leaf0.edx, leaf0.ecx)
            &&& known.display_family == display_family(leaf1.eax)
            &&& known.brand@ == brand->0@
        },
{
    if leaf0.eax < 1 {
        return None;
    }
    match brand {
        None => None,
        Some(brand) => Some(
            ProcessorIdentity {
                vendor: vendor_text(leaf0.ebx, leaf0.edx, leaf0.ecx),
                display_family: display_family_from_cpuid_eax(leaf1.eax),
                brand,
            },
        ),
    }
}

pub open spec fn is_letter_byte(byte: u8, upper: u8) -> bool {
    byte == upper || byte == upper + 32
}

/// The letters `X3D` stand in the bytes, in either case.
pub open spec fn names_x3d(brand: Seq<u8>) -> bool {
    exists|i: int| #[trigger] x3d_at(brand, i)
}

pub open spec fn x3d_at(brand: Seq<u8>, i: int) -> bool {
    &&& 0 <= i
    &&& i + 2 < brand.len()
    &&& is_letter_byte(brand[i], 88)
    &&& brand[i + 1] == 51
    &&& is_letter_byte(brand[i + 2], 68)
}

pub fn processor_brand_contains_x3d(brand: &[u8]) -> (found: bool)
    ensures
        found == names_x3d(brand@),
{
    if brand.len() < 3 {
        return false;
    }
    let mut i: usize = 0;
    while i < brand.len() - 2
        invariant
            3 <= brand@.len(),
            i <= brand.len() - 2,
            forall|j: int| 0 <= j < i ==> !#[trigger] x3d_at(brand@, j),
        decreases brand@.len() - i,
    {
        if (brand[i] == 88 || brand[i] == 120) && brand[i + 1] == 51 && (brand[i + 2] == 68
            || brand[i + 2] == 100) {
            assert(x3d_at(brand@, i as int));
            return true;
        }
        assert(!x3d_at(brand@, i as int));
        i = i + 1;
    }
    false
}

fn same_bytes(a: &Vec<u8>, b: &Vec<u8>) -> (same: bool)
    ensures
        same == (a@ == b@),
{
    if a.len() != b.len() {
        return false;
    }
    let mut i: usize = 0;
    while i < a.len()
        invariant
            i <= a@.len(),
            a@.len() == b@.len(),
            forall|k: int| 0 <= k < i ==> a@[k] == b@[k],
        decreases a@.len() - i,
    {
        if a[i] != b[i] {
            return false;
        }
        i = i + 1;
    }
    assert(a@ =~= b@);
    true
}

/// Tells whether the processor is of a family whose members with `X3D` in their name stack a
/// large cache on some of their cores.
pub fn is_amd_x3d_cache_candidate_processor(identity: &Option<ProcessorIdentity>) -> (found: bool)
    ensures
        found == (identity matches Some(known) && known.vendor@ == amd_vendor() && (
        known.display_family == 0x19 || known.display_family == 0x1a) && names_x3d(known.brand@)),
{
    match identity {
        None => false,
        Some(known) => {
            let amd: Vec<u8> = vec![65, 117, 116, 104, 101, 110, 116, 105, 99, 65, 77, 68];
            assert(amd@ =~= amd_vendor());
            same_bytes(&known.vendor, &amd) && (known.display_family == 0x19
                || known.display_family == 0x1a) && processor_brand_contains_x3d(
                known.brand.as_slice(),
            )
        },
    }
}

pub fn cpuid_vendor_is_intel(ebx: u32, edx: u32, ecx: u32) -> (intel: bool)
    ensures
        intel == (vendor_bytes(ebx, edx, ecx) == intel_vendor()),
{
    let wanted: Vec<u8> = vec![71, 101, 110, 117, 105, 110, 101, 73, 110, 116, 101, 108];
    assert(wanted@ =~= intel_vendor());
    same_bytes(&vendor_text(ebx, edx, ecx), &wanted)
}

/// The kind of core that a hybrid processor says the asking core is, where it answers.
pub fn hybrid_core_type(vendor: &CpuidRegisters, leaf: &CpuidRegisters) -> (core_type: Option<u32>)
    ensures
        core_type == if vendor.eax >= 0x1a && vendor_bytes(vendor.ebx, vendor.edx, vendor.ecx)
            == intel_vendor() && leaf.eax / 16777216 != 0 {
            Some((leaf.eax / 16777216) as u32)
        } else {
            None
        },
{
    if vendor.eax < 0x1a || !cpuid_vendor_is_intel(vendor.ebx, vendor.edx, vendor.ecx) {
        return None;
    }
    let eax: u32 = leaf.eax;
    let core_type: u32 = (eax >> 24) & 0xff;
    assert((eax >> 24) & 0xff == eax / 16777216) by (bit_vector);
    if core_type != 0 {
        Some(core_type)
    } else {
        None
    }
}

} // verus!
