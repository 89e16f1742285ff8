//! What the machine reports of its processors and caches.

use affix::bytes::ByteOrder;
use affix::processor::{
    L3CacheAffinity, cpuid_vendor_is_intel, display_family_from_cpuid_eax,
    processor_brand_contains_x3d, select_c_l3_cache_affinities,
};
use affix::sysfs::{CacheDescription, read_linux_cpu_island_signature};
use affix::windows_topology::{
    CACHE_RECORD_SIZE, GROUP_AFFINITY_SIZE, read_cpu_sets, read_l3_cache_affinities,
    required_length,
};

#[test]
fn c_cache_selection_uses_one_preferred_windows_l3_cache_relationship() {
    let caches = vec![
        L3CacheAffinity {
            group: 0,
            mask: 0x000f,
            cache_size: 32 * 1024 * 1024,
        },
        L3CacheAffinity {
            group: 0,
            mask: 0x00f0,
            cache_size: 96 * 1024 * 1024,
        },
        L3CacheAffinity {
            group: 0,
            mask: 0x0f00,
            cache_size: 128 * 1024 * 1024,
        },
        L3CacheAffinity {
            group: 0,
            mask: 0xf000,
            cache_size: 128 * 1024 * 1024,
        },
    ];

    assert_eq!(
        select_c_l3_cache_affinities(&caches),
        vec![L3CacheAffinity {
            group: 0,
            mask: 0x0f00,
            cache_size: 128 * 1024 * 1024,
        }]
    );
}

#[test]
fn c_cache_selection_collapses_homogeneous_l3_topology_to_one_ccd() {
    let caches = vec![
        L3CacheAffinity {
            group: 0,
            mask: 0x00ff,
            cache_size: 128 * 1024 * 1024,
        },
        L3CacheAffinity {
            group: 0,
            mask: 0xff00,
            cache_size: 128 * 1024 * 1024,
        },
    ];

    assert_eq!(
        select_c_l3_cache_affinities(&caches),
        vec![L3CacheAffinity {
            group: 0,
            mask: 0x00ff,
            cache_size: 128 * 1024 * 1024,
        }]
    );
}

#[test]
fn l3_cache_affinity_contains_only_processors_in_its_group_mask() {
    let cache = L3CacheAffinity {
        group: 1,
        mask: 0b1010,
        cache_size: 96 * 1024 * 1024,
    };

    assert!(!cache.contains(0, 1));
    assert!(cache.contains(1, 1));
    assert!(!cache.contains(1, 2));
    assert!(cache.contains(1, 3));
    assert!(!cache.contains(1, usize::BITS as usize));
}

fn cache_index(level: &str, cache_type: Option<&str>, shared: &str) -> CacheDescription {
    CacheDescription {
        level: Some(level.to_string()),
        cache_type: cache_type.map(str::to_string),
        shared_cpu_list: Some(shared.to_string()),
    }
}

#[test]
fn linux_cache_island_signature_uses_highest_shared_unified_cache() {
    let caches = vec![
        cache_index("1", Some("Data"), "0"),
        cache_index("2", Some("Unified"), "0-3"),
        cache_index("3", Some("Unified"), "0-11"),
    ];

    assert_eq!(
        read_linux_cpu_island_signature(&caches),
        Some("cache:3:0,1,2,3,4,5,6,7,8,9,10,11".to_string())
    );
}

#[test]
fn linux_cache_island_signature_skips_malformed_cache_entries() {
    let caches = vec![
        cache_index("broken", Some("Unified"), "12-15"),
        cache_index("2", None, "12-15"),
        cache_index("2", Some("Unified"), "12-15"),
    ];

    assert_eq!(
        read_linux_cpu_island_signature(&caches),
        Some("cache:2:12,13,14,15".to_string())
    );
}

#[test]
fn cpuid_vendor_gate_accepts_only_intel_vendor_string() {
    assert!(cpuid_vendor_is_intel(
        u32::from_le_bytes(*b"Genu"),
        u32::from_le_bytes(*b"ineI"),
        u32::from_le_bytes(*b"ntel")
    ));
    assert!(!cpuid_vendor_is_intel(
        u32::from_le_bytes(*b"Auth"),
        u32::from_le_bytes(*b"enti"),
        u32::from_le_bytes(*b"cAMD")
    ));
}

#[test]
fn x3d_processor_brand_gate_matches_9955hx3d_suffix() {
    assert!(processor_brand_contains_x3d(
        b"AMD Ryzen 9 9955HX3D 16-Core Processor"
    ));
    assert!(processor_brand_contains_x3d(
        b"AMD Ryzen 9 7950X3D 16-Core Processor"
    ));
    assert!(!processor_brand_contains_x3d(
        b"AMD Ryzen 9 9955HX 16-Core Processor"
    ));
}

#[test]
fn cpuid_display_family_decodes_extended_amd_family() {
    let eax = (0x0f << 8) | (0x0a << 20);

    assert_eq!(display_family_from_cpuid_eax(eax), 0x19);
}

fn cpu_set_record(id: u32, group: u16, logical: u8, class: u8, flags: u8) -> Vec<u8> {
    let mut record = Vec::new();
    record.extend(32u32.to_le_bytes());
    record.extend(0u32.to_le_bytes());
    record.extend(id.to_le_bytes());
    record.extend(group.to_le_bytes());
    record.extend([logical, logical, 3, 1, class, flags]);
    record.extend([0u8; 12]);
    record
}

#[test]
fn processor_records_are_read_in_the_order_of_their_indexes() {
    let mut buffer = cpu_set_record(300, 0, 1, 0, 0b0010);
    buffer.extend(cpu_set_record(256, 0, 0, 1, 0b1111));
    let caches = vec![L3CacheAffinity { group: 0, mask: 0b10, cache_size: 1 }];
    let entries = read_cpu_sets(&buffer, ByteOrder::Little, Ok(caches)).unwrap();

    assert_eq!(entries.len(), 2);
    assert_eq!(entries[0].id, 256);
    assert_eq!(entries[0].logical_index, 0);
    assert_eq!(entries[0].efficiency_class, 1);
    assert!(entries[0].parked && entries[0].realtime && !entries[0].allocated_to_other);
    assert!(!entries[0].cache);
    assert_eq!(entries[1].id, 300);
    assert!(!entries[1].parked && entries[1].allocated_to_other && entries[1].cache);
    assert_eq!(entries[1].last_level_cache_index, 3);
    assert_eq!(entries[1].numa_node, 1);
}

#[test]
fn processor_records_without_a_size_or_beyond_the_mask_are_refused() {
    let mut broken = cpu_set_record(1, 0, 0, 0, 0);
    broken[0] = 0;
    assert_eq!(
        read_cpu_sets(&broken, ByteOrder::Little, Ok(vec![])),
        Err("GetSystemCpuSetInformation returned a zero-sized entry".to_string())
    );
    let beyond = cpu_set_record(1, 0, 200, 0, 0);
    assert_eq!(
        read_cpu_sets(&beyond, ByteOrder::Little, Err("none".to_string())),
        Err("logical processor index 200 cannot fit in process affinity mask".to_string())
    );
    let other_group = cpu_set_record(1, 1, 200, 0, 0);
    assert_eq!(
        read_cpu_sets(&other_group, ByteOrder::Little, Ok(vec![]))
            .unwrap()
            .len(),
        1
    );
}

fn cache_record(level: u8, kind: u32, size: u32, groups: &[(usize, u16)]) -> Vec<u8> {
    let mut record = Vec::new();
    let length = CACHE_RECORD_SIZE + GROUP_AFFINITY_SIZE * (groups.len().max(1) - 1);
    record.extend(2u32.to_le_bytes());
    record.extend((length as u32).to_le_bytes());
    record.extend([level, 0, 0, 0]);
    record.extend(size.to_le_bytes());
    record.extend(kind.to_le_bytes());
    record.extend([0u8; 18]);
    record.extend((groups.len() as u16).to_le_bytes());
    for (mask, group) in groups {
        record.extend(mask.to_le_bytes());
        record.extend(group.to_le_bytes());
        record.extend([0u8; 6]);
    }
    record.resize(length, 0);
    record
}

#[test]
fn cache_records_give_the_masks_of_unified_third_level_caches() {
    let mut buffer = cache_record(2, 0, 7, &[(0b1, 0)]);
    buffer.extend(cache_record(3, 0, 96, &[(0b1111, 0), (0, 1), (0b11, 2)]));
    buffer.extend(cache_record(3, 1, 5, &[(0b1, 0)]));
    assert_eq!(
        read_l3_cache_affinities(&buffer, ByteOrder::Little),
        Ok(vec![
            L3CacheAffinity { group: 0, mask: 0b1111, cache_size: 96 },
            L3CacheAffinity { group: 2, mask: 0b11, cache_size: 96 },
        ])
    );
}

#[test]
fn cache_records_are_as_long_as_pointers_are_wide() {
    let word = std::mem::size_of::<usize>();
    assert_eq!(GROUP_AFFINITY_SIZE, word + 8);
    assert_eq!(CACHE_RECORD_SIZE, if word == 8 { 80 } else { 76 });
    let whole = usize::MAX;
    assert_eq!(
        read_l3_cache_affinities(&cache_record(3, 0, 96, &[(whole, 5)]), ByteOrder::Little),
        Ok(vec![L3CacheAffinity { group: 5, mask: whole, cache_size: 96 }])
    );
}

#[test]
fn cache_records_that_do_not_fit_are_refused() {
    let call = "GetLogicalProcessorInformationEx(RelationCache)";
    let whole = cache_record(3, 0, 96, &[(1, 0)]);
    assert_eq!(
        read_l3_cache_affinities(&whole[..whole.len() - 1].to_vec(), ByteOrder::Little),
        Err(format!("{call} returned a truncated entry"))
    );
    let mut zero = whole.clone();
    zero[4] = 0;
    assert_eq!(
        read_l3_cache_affinities(&zero, ByteOrder::Little),
        Err(format!("{call} returned a zero-sized entry"))
    );
    let mut long = whole.clone();
    long[4] += 1;
    assert_eq!(
        read_l3_cache_affinities(&long, ByteOrder::Little),
        Err(format!("{call} entry exceeds returned buffer"))
    );
    let mut crowded = whole.clone();
    crowded[38] = 2;
    assert_eq!(
        read_l3_cache_affinities(&crowded, ByteOrder::Little),
        Err(format!("{call} returned an invalid cache group count"))
    );
    assert_eq!(
        required_length(call, true, 80),
        Err(format!("{call} did not report a required buffer length"))
    );
    assert_eq!(required_length(call, false, 80), Ok(80));
}
