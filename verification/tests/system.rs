//! What the operating systems report, and what is asked of them.

use affix::affinity::AffinityPolicy;
use affix::defaults::ObservedProcess;
use affix::linux_daemon::subtree_target;
use affix::linux_process::LinuxProcess;
use affix::placement::ProcessTarget;
use affix::power::PowerProfile;
use affix::process::{
    ConfiguredProcessRule, IDLE_PRIORITY_CLASS, NORMAL_PRIORITY_CLASS, PolicyStep,
    apply_process_defaulting, apply_self_efficiency_policy, resolve_image_name,
};
use affix::processor::{
    CpuidRegisters, L3CacheAffinity, ProcessorIdentity, detect_c_cache_affinities,
    hybrid_core_type, is_amd_x3d_cache_candidate_processor, read_x86_processor_brand,
    x86_processor_identity,
};
use affix::service::ServiceError;
use affix::storage::{ApplicationIdentity, ProcessObservation, StorageError};
use affix::sysfs::{read_cpu_score, read_numa_node};
use affix::topology::{CpuSetEntry, CpuTopology};
use affix::wide::{
    encode, name_from_wide, os_string_from_wide_z, quoted_wide_path, wide_null,
    wide_string_from_pdh,
};
use affix::windows_topology::{CACHE_CALL, CPU_SET_CALL, failed_call, required_length};

fn entry(index: usize, efficiency_class: u8) -> CpuSetEntry {
    CpuSetEntry {
        id: index as u32,
        group: 0,
        logical_index: index,
        core_index: index,
        last_level_cache_index: 0,
        numa_node: 0,
        efficiency_class,
        cache: false,
        parked: false,
        allocated_to_other: false,
        realtime: false,
    }
}

fn register(letters: &[u8; 4]) -> u32 {
    u32::from_le_bytes(*letters)
}

fn registers(eax: u32, ebx: u32, ecx: u32, edx: u32) -> CpuidRegisters {
    CpuidRegisters { eax, ebx, ecx, edx }
}

#[test]
fn wide_names_are_read_and_written() {
    assert_eq!(name_from_wide(&[0x41, 0x1f600u32 as u16, 0]), "A\u{f600}");
    assert_eq!(name_from_wide(&[0x41, 0xd83d, 0xde00]), "A\u{1f600}");
    assert_eq!(name_from_wide(&[0x41, 0xd83d]), "A\u{fffd}");
    assert_eq!(
        name_from_wide(&[0xd83d, 0xd83d, 0xde00, 0xde00, 0x41]),
        "\u{fffd}\u{1f600}\u{fffd}A"
    );
    assert_eq!(name_from_wide(&[0xd83d, 0x41, 0xdfff]), "\u{fffd}A\u{fffd}");
    assert_eq!(encode("A\u{1f600}"), vec![0x41, 0xd83d, 0xde00]);
    assert_eq!(wide_null("ab"), vec![0x61, 0x62, 0]);
    assert_eq!(os_string_from_wide_z(&[0x61, 0, 0x62]), vec![0x61]);
    assert_eq!(os_string_from_wide_z(&[0x61, 0x62]), vec![0x61, 0x62]);
    assert_eq!(quoted_wide_path(&[0x61]), vec![0x22, 0x61, 0x22, 0]);
    assert_eq!(wide_string_from_pdh(&None), None);
    assert_eq!(
        wide_string_from_pdh(&Some(vec![0x70, 0x69, 0x64])),
        Some("pid".to_string())
    );
    assert_eq!(wide_string_from_pdh(&Some(vec![0x61; 8192])), None);
}

#[test]
fn windows_calls_report_how_much_they_need() {
    assert_eq!(required_length(CPU_SET_CALL, false, 64), Ok(64));
    assert_eq!(
        required_length(CPU_SET_CALL, true, 64),
        Err("GetSystemCpuSetInformation did not report a required buffer length".to_string())
    );
    assert!(required_length(CACHE_CALL, false, 0).is_err());
    assert_eq!(
        failed_call(CACHE_CALL, 5),
        "GetLogicalProcessorInformationEx(RelationCache) failed with Windows error 5"
    );
}

#[test]
fn processors_are_known_by_their_registers() {
    let vendor = registers(0x20, register(b"Genu"), register(b"ntel"), register(b"ineI"));
    assert_eq!(
        hybrid_core_type(&vendor, &registers(0x4000_0001, 0, 0, 0)),
        Some(0x40)
    );
    assert_eq!(hybrid_core_type(&vendor, &registers(1, 0, 0, 0)), None);
    let older = registers(0x19, vendor.ebx, vendor.ecx, vendor.edx);
    assert_eq!(
        hybrid_core_type(&older, &registers(0x4000_0001, 0, 0, 0)),
        None
    );
    let first = registers(
        register(b"AMD "),
        register(b"Ryze"),
        register(b"n 9 "),
        register(b"9955"),
    );
    let second = registers(register(b"HX3D"), 0, 0, 0);
    let empty = registers(0, 0, 0, 0);
    let brand = read_x86_processor_brand(0x8000_0004, &first, &second, &empty).unwrap();
    assert!(brand.starts_with(b"AMD Ryzen 9 9955HX3D"));
    assert_eq!(brand.len(), 48);
    assert_eq!(
        read_x86_processor_brand(0x8000_0003, &first, &second, &empty),
        None
    );
    let amd = registers(1, register(b"Auth"), register(b"cAMD"), register(b"enti"));
    let identity = x86_processor_identity(&amd, &registers(0x00b4_0f40, 0, 0, 0), Some(brand));
    let known: &ProcessorIdentity = identity.as_ref().unwrap();
    assert_eq!(known.display_family, 0x1a);
    assert!(is_amd_x3d_cache_candidate_processor(&identity));
    assert!(!is_amd_x3d_cache_candidate_processor(&None));
    assert!(x86_processor_identity(&amd, &empty, None).is_none());
}

#[test]
fn a_cache_is_preferred_only_where_caches_differ() {
    let cache = |mask: usize, cache_size: u32| L3CacheAffinity { group: 0, mask, cache_size };
    let unequal = vec![cache(0xff, 32), cache(0xff00, 96)];
    assert_eq!(
        detect_c_cache_affinities(Ok(unequal), false),
        Ok(vec![cache(0xff00, 96)])
    );
    let equal = vec![cache(0xff, 32), cache(0xff00, 32)];
    assert_eq!(detect_c_cache_affinities(Ok(equal), false), Ok(vec![]));
    assert_eq!(
        detect_c_cache_affinities(Err("no caches".to_string()), true),
        Err("no caches".to_string())
    );
}

#[test]
fn scores_and_nodes_come_from_the_first_source_that_has_one() {
    assert_eq!(read_cpu_score(Some(1), Some(2), Some(3), Some(4)), Some(1));
    assert_eq!(read_cpu_score(None, Some(2), Some(3), Some(4)), Some(2));
    assert_eq!(read_cpu_score(None, None, Some(3), Some(4)), Some(3));
    assert_eq!(read_cpu_score(None, None, None, Some(4)), Some(4));
    assert_eq!(read_cpu_score(None, None, None, None), None);
    let names: Vec<String> = ["cache", "node", "nodes1", "node3", "node1"]
        .iter()
        .map(|name| name.to_string())
        .collect();
    assert_eq!(read_numa_node(&names), Some(3));
    assert_eq!(read_numa_node(&vec!["cache".to_string()]), None);
}

#[test]
fn a_machine_that_cannot_be_read_has_plain_processors() {
    for read in [Ok(Vec::new()), Err("unreadable".to_string())] {
        let topology = CpuTopology::read_or_fallback(read, 3).unwrap();
        assert_eq!(topology.entries.len(), 3);
        assert_eq!(topology.entries[2].logical_index, 2);
        assert_eq!(topology.entries[2].efficiency_class, 0);
    }
    let topology = CpuTopology::read_or_fallback(Ok(vec![entry(7, 1)]), 3).unwrap();
    assert_eq!(topology.entries.len(), 1);
    assert_eq!(topology.entries[0].logical_index, 7);
}

#[test]
fn processes_are_reset_to_what_the_system_gives() {
    assert_eq!(
        apply_process_defaulting(0xff).unwrap(),
        vec![
            PolicyStep::SetAffinity(0xff),
            PolicyStep::DisableEcoQos,
            PolicyStep::SetPriority(NORMAL_PRIORITY_CLASS),
        ]
    );
    assert_eq!(
        apply_process_defaulting(0).unwrap_err().message(),
        "affinity expression \"system affinity mask\" failed: system affinity mask was empty"
    );
    let topology = CpuTopology { entries: vec![entry(0, 2), entry(1, 1), entry(2, 0)] };
    assert_eq!(
        apply_self_efficiency_policy(&topology).unwrap(),
        vec![
            PolicyStep::EnableEcoQos,
            PolicyStep::SetPriority(IDLE_PRIORITY_CLASS),
            PolicyStep::SetAffinity(0b100),
        ]
    );
}

#[test]
fn processes_are_named_by_their_file_or_by_a_hint() {
    assert_eq!(
        resolve_image_name(4, Some("a.exe".to_string()), Some("b.exe".to_string())),
        Ok("a.exe".to_string())
    );
    assert_eq!(
        resolve_image_name(4, None, Some("b.exe".to_string())),
        Ok("b.exe".to_string())
    );
    assert_eq!(
        resolve_image_name(4, None, None),
        Err(ServiceError::InvalidProcessPath { process_id: 4 })
    );
}

#[test]
fn a_rule_for_a_process_starts_its_subtree() {
    let topology = CpuTopology { entries: vec![entry(0, 0), entry(1, 0)] };
    let process = |comm: &str| LinuxProcess {
        pid: 10,
        ppid: 1,
        comm: comm.to_string(),
        exe: None,
        cgroup: None,
    };
    let rules = vec![ConfiguredProcessRule {
        image_name: "game".to_string(),
        affinity: Some(AffinityPolicy::Mask(2)),
        mode: None,
        power_profile: Some(PowerProfile::Performance),
    }];
    assert_eq!(
        subtree_target(&rules, &process("game"), PowerProfile::Performance, &topology),
        Ok(Some(ProcessTarget::Cpuset("1".to_string())))
    );
    assert_eq!(
        subtree_target(&rules, &process("game"), PowerProfile::Balanced, &topology),
        Ok(Some(ProcessTarget::Unconstrained))
    );
    assert_eq!(
        subtree_target(&rules, &process("shell"), PowerProfile::Performance, &topology),
        Ok(None)
    );
}

#[test]
fn observations_keep_what_was_seen() {
    assert_eq!(
        ObservedProcess::try_new(1, 2, &"a".repeat(300), "", 3).unwrap_err(),
        StorageError::ImageNameTooLong
    );
    let observed = ObservedProcess::try_new(1, 2, "\u{c4}pp.EXE", r"C:\app.exe", 3).unwrap();
    assert_eq!(observed.image_name.as_string(), "\u{e4}pp.exe");
    let identity = ApplicationIdentity::from_process("App.exe", r"C:\app.exe").unwrap();
    let observation = ProcessObservation::from_identity(identity, 9);
    assert_eq!(observation.observed_unix_seconds, 9);
    assert!(observation.identity.image.eq_ignore_ascii_case_str("app.exe"));
}
