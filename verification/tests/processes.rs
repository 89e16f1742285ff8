//! Image names, classification of processes, and rules.

use affix::affinity::{AffinityExpression, AffinityPolicy};
use affix::classification::{
    ProcessClassification, ProcessClassificationEvidence, WindowOwner, classify_from_evidence,
    classify_process_ad_hoc, has_visible_window,
};
use affix::engine::ResolvedProcessPolicy;
use affix::identity::{ImageName, ImageNameError, MAX_IMAGE_NAME_CHARS};
use affix::power::{
    PowerProfile, load_active_profile, map_mode_to_profile, map_service_profile,
    store_active_profile,
};
use affix::policy::{
    PolicyReadings, apply_steps, component_of, drift_of, inspect, repair_steps, resolve_policy,
};
use affix::process::{
    ConfiguredProcessRule, PROCESS_MONITOR_ACCESS, PolicyStep, PowerThrottlingState, ProcessMode,
    ProcessRule, eco_qos_process_power_throttling_state,
    filetime_to_u64, priority_job_limit_flags, self_efficiency_affinity_expression,
    self_efficiency_policy,
};
use affix::registry::PolicyRule;
use affix::service::ServiceError;
use affix::topology::{CpuSetEntry, CpuTopology};

#[test]
fn critical_evidence_classifies_as_windows_process() {
    let evidence = ProcessClassificationEvidence {
        is_critical: true,
        has_visible_window: false,
    };
    assert_eq!(
        classify_from_evidence(evidence),
        ProcessClassification::WindowsProcess
    );
}

#[test]
fn critical_process_takes_precedence_over_visible_window() {
    let evidence = ProcessClassificationEvidence {
        is_critical: true,
        has_visible_window: true,
    };
    assert_eq!(
        classify_from_evidence(evidence),
        ProcessClassification::WindowsProcess
    );
}

#[test]
fn visible_window_without_critical_evidence_classifies_as_app() {
    let evidence = ProcessClassificationEvidence {
        is_critical: false,
        has_visible_window: true,
    };
    assert_eq!(classify_from_evidence(evidence), ProcessClassification::App);
}

#[test]
fn no_evidence_classifies_as_background_process() {
    let evidence = ProcessClassificationEvidence {
        is_critical: false,
        has_visible_window: false,
    };
    assert_eq!(
        classify_from_evidence(evidence),
        ProcessClassification::BackgroundProcess
    );
}

#[test]
fn visible_window_is_not_reclassified_as_windows_process_without_critical_evidence() {
    let visible_window = ProcessClassificationEvidence {
        is_critical: false,
        has_visible_window: true,
    };
    assert_eq!(
        classify_from_evidence(visible_window),
        ProcessClassification::App
    );
}

#[test]
fn only_visible_windows_of_the_process_count() {
    let windows = vec![
        WindowOwner { visible: false, process_id: 7 },
        WindowOwner { visible: true, process_id: 8 },
    ];
    assert!(!has_visible_window(&windows, 7));
    assert!(has_visible_window(&windows, 8));
    assert_eq!(
        classify_process_ad_hoc(false, true).classification,
        ProcessClassification::App
    );
}

#[test]
fn image_names_normalize_case() {
    let image = ImageName::parse("Example.EXE").unwrap();
    assert_eq!(image.as_string(), "example.exe");
    assert!(image.eq_ignore_ascii_case_str("EXAMPLE.exe"));
}

#[test]
fn image_names_reject_empty_and_oversized_values() {
    assert_eq!(ImageName::parse(""), Err(ImageNameError::Empty));
    assert_eq!(
        ImageName::parse(&"x".repeat(MAX_IMAGE_NAME_CHARS + 1)),
        Err(ImageNameError::TooLong)
    );
}

#[test]
fn image_names_beyond_ascii_are_lowered_too() {
    let image = ImageName::parse("\u{c4}pp.EXE").unwrap();
    assert_eq!(image.as_string(), "\u{e4}pp.exe");
    assert_eq!(
        ImageNameError::TooLong.message(),
        "image name exceeds 260 characters"
    );
    assert_eq!(
        ImageNameError::Empty.message(),
        "image name must not be empty"
    );
}

#[test]
fn image_matching_is_case_insensitive() {
    let rule = ProcessRule {
        image_name: "steam.exe".to_string(),
        affinity: None,
        mode: ProcessMode::Normal,
    };
    assert!(rule.matches("steam.exe"));
    assert!(rule.matches("STEAM.EXE"));
    assert!(!rule.matches("steamwebhelper.exe"));
}

#[test]
fn eco_qos_uses_process_power_throttling_execution_speed() {
    let state = eco_qos_process_power_throttling_state();

    assert_eq!(state.version, 1);
    assert_eq!(state.control_mask, 1);
    assert_eq!(state.state_mask, 1);
}

#[test]
fn self_efficiency_affinity_targets_lpe_expression() {
    let expression = self_efficiency_affinity_expression().unwrap();
    let entries = vec![
        CpuSetEntry {
            id: 0,
            group: 0,
            logical_index: 0,
            core_index: 0,
            last_level_cache_index: 0,
            numa_node: 0,
            efficiency_class: 1,
            cache: false,
            parked: false,
            allocated_to_other: false,
            realtime: false,
        },
        CpuSetEntry {
            id: 1,
            group: 0,
            logical_index: 1,
            core_index: 1,
            last_level_cache_index: 0,
            numa_node: 0,
            efficiency_class: 0,
            cache: false,
            parked: false,
            allocated_to_other: false,
            realtime: false,
        },
    ];

    assert_eq!(
        expression.mask_from_entries(&entries).unwrap(),
        Some(1usize << 1)
    );
}

#[test]
fn self_efficiency_policy_is_full_efficiency_posture() {
    let policy = self_efficiency_policy().unwrap();

    assert_eq!(policy.priority_class, 0x40);
    assert_eq!(
        policy.affinity,
        AffinityExpression::parse("LPE".to_string()).unwrap()
    );
}

#[test]
fn performance_mode_uses_above_normal_priority_class() {
    assert_eq!(ProcessMode::Performance.priority_class(), Some(0x8000));
}

#[test]
fn priority_job_allows_silent_child_breakaway() {
    let flags = priority_job_limit_flags();

    assert_eq!(flags & 0x20, 0x20);
    assert_eq!(flags & 0x1000, 0x1000);
}

#[test]
fn file_times_are_put_together() {
    assert_eq!(filetime_to_u64(1, 2), 0x1_0000_0002);
    assert_eq!(filetime_to_u64(0, u32::MAX), 0xffff_ffff);
}

fn rule(
    affinity: Option<&str>,
    mode: Option<ProcessMode>,
    power_profile: Option<PowerProfile>,
) -> ConfiguredProcessRule {
    ConfiguredProcessRule {
        image_name: "game.exe".to_string(),
        affinity: affinity.map(|source| {
            AffinityPolicy::Expression(AffinityExpression::parse(source.to_string()).unwrap())
        }),
        mode,
        power_profile,
    }
}

#[test]
fn overlays_supply_what_they_define_and_the_rest_falls_back() {
    let default = rule(None, Some(ProcessMode::Realtime), None);
    let overlay = rule(Some("P+E"), None, Some(PowerProfile::Performance));
    assert!(default.is_default_profile());
    assert!(!overlay.is_default_profile());

    let merged = ConfiguredProcessRule::materialize(Some(&default), Some(&overlay)).unwrap();
    assert_eq!(merged.mode, ProcessMode::Realtime);
    assert_eq!(merged.affinity_log_value(), "P+E");

    let plain = ConfiguredProcessRule::materialize(Some(&default), None).unwrap();
    assert_eq!(plain.affinity_log_value(), "P+C");

    let efficient = rule(None, Some(ProcessMode::Efficiency), None);
    let plain = ConfiguredProcessRule::materialize(Some(&efficient), None).unwrap();
    assert_eq!(plain.affinity_log_value(), "E+LPE");

    let fast = rule(None, Some(ProcessMode::Performance), None);
    let plain = ConfiguredProcessRule::materialize(Some(&fast), None).unwrap();
    assert_eq!(plain.affinity_log_value(), "P+E+C");

    assert!(ConfiguredProcessRule::materialize(None, None).is_none());
}

#[test]
fn power_modes_map_to_profiles() {
    assert_eq!(map_mode_to_profile(0), Some(PowerProfile::Efficiency));
    assert_eq!(map_mode_to_profile(1), Some(PowerProfile::Efficiency));
    assert_eq!(map_mode_to_profile(2), Some(PowerProfile::Balanced));
    for mode in 3..7 {
        assert_eq!(map_mode_to_profile(mode), Some(PowerProfile::Performance));
    }
    assert_eq!(map_mode_to_profile(7), None);
    assert_eq!(
        map_service_profile("power-saver"),
        Some(PowerProfile::Efficiency)
    );
    assert_eq!(map_service_profile("balanced"), Some(PowerProfile::Balanced));
    assert_eq!(
        map_service_profile("performance"),
        Some(PowerProfile::Performance)
    );
    assert_eq!(map_service_profile("turbo"), None);
}

#[test]
fn only_a_change_of_the_profile_is_reported() {
    let mut active = PowerProfile::Balanced;
    assert!(!store_active_profile(&mut active, PowerProfile::Balanced));
    assert!(store_active_profile(&mut active, PowerProfile::Efficiency));
    assert_eq!(load_active_profile(&active), PowerProfile::Efficiency);
}

#[test]
fn modes_are_named_by_their_words() {
    assert_eq!(ProcessMode::from_word("normal"), Some(ProcessMode::Normal));
    assert_eq!(ProcessMode::from_word("none"), Some(ProcessMode::Normal));
    assert_eq!(
        ProcessMode::from_word("efficiency"),
        Some(ProcessMode::Efficiency)
    );
    assert_eq!(
        ProcessMode::from_word("performance"),
        Some(ProcessMode::Performance)
    );
    assert_eq!(
        ProcessMode::from_word("realtime"),
        Some(ProcessMode::Realtime)
    );
    assert_eq!(ProcessMode::from_word("Normal"), None);
    assert_eq!(ProcessMode::from_word(""), None);
}

#[test]
fn process_access_mask_is_minimal_requested_mask() {
    const PROCESS_SET_INFORMATION: u32 = 0x0200;
    const PROCESS_QUERY_LIMITED_INFORMATION: u32 = 0x1000;
    const PROCESS_SYNCHRONIZE: u32 = 0x10_0000;
    assert_eq!(
        PROCESS_MONITOR_ACCESS,
        PROCESS_SET_INFORMATION | PROCESS_QUERY_LIMITED_INFORMATION | PROCESS_SYNCHRONIZE
    );
}

fn policy_rule(affinity: Option<AffinityPolicy>, mode: Option<ProcessMode>) -> PolicyRule {
    PolicyRule {
        image_name: "app.exe".to_string(),
        affinity,
        mode,
    }
}

fn refused() -> ServiceError {
    ServiceError::Poisoned("machine".to_string())
}

#[test]
fn rules_are_resolved_to_settings() {
    let masked = policy_rule(Some(AffinityPolicy::Mask(6)), Some(ProcessMode::Efficiency));
    let machine = CpuTopology {
        entries: Vec::new(),
    };
    let (policy, failures) = resolve_policy(&masked, Ok(machine));
    assert!(failures.is_empty());
    assert_eq!(policy.affinity, Some(6));
    assert!(policy.eco_qos);
    assert_eq!(policy.priority_class, Some(0x40));
    assert_eq!(
        apply_steps(&policy),
        vec![
            PolicyStep::SetAffinity(6),
            PolicyStep::EnableEcoQos,
            PolicyStep::SetPriority(0x40),
            PolicyStep::AttachPriorityJob(0x40),
        ]
    );
    let (policy, failures) = resolve_policy(&masked, Err(refused()));
    assert_eq!(policy.affinity, None);
    assert!(policy.eco_qos);
    assert_eq!(failures.len(), 1);
    assert_eq!(failures[0].component, "affinity");
    let (policy, failures) = resolve_policy(&policy_rule(None, None), Err(refused()));
    assert_eq!(policy, ResolvedProcessPolicy::default());
    assert!(failures.is_empty());
    let words: Vec<&str> = [
        PolicyStep::SetAffinity(1),
        PolicyStep::EnableEcoQos,
        PolicyStep::DisableEcoQos,
        PolicyStep::SetPriority(1),
        PolicyStep::AttachPriorityJob(1),
    ]
    .into_iter()
    .map(component_of)
    .collect();
    assert_eq!(
        words,
        ["affinity", "eco-qos", "eco-qos", "priority-class", "priority-job"]
    );
}

#[test]
fn settings_that_were_changed_are_set_again() {
    let policy = ResolvedProcessPolicy {
        affinity: Some(6),
        eco_qos: true,
        priority_class: Some(0x40),
    };
    let throttled = |state_mask: u32| PowerThrottlingState {
        version: 1,
        control_mask: 1,
        state_mask,
    };
    let kept = PolicyReadings {
        affinity: Some(Ok(6)),
        throttling: Some(Ok(throttled(1))),
        priority_class: Some(Ok(0x40)),
    };
    assert!(!drift_of(&policy, &kept).any());
    assert!(repair_steps(&policy, drift_of(&policy, &kept)).is_empty());
    let changed = PolicyReadings {
        affinity: Some(Ok(7)),
        throttling: Some(Ok(throttled(0))),
        priority_class: Some(Ok(0x20)),
    };
    let inspection = inspect(&policy, changed);
    assert_eq!(inspection.drift.components(), 3);
    assert!(inspection.failures.is_empty());
    let unread = PolicyReadings {
        affinity: Some(Err(refused())),
        throttling: Some(Ok(throttled(0))),
        priority_class: Some(Err(refused())),
    };
    let inspection = inspect(&policy, unread);
    assert_eq!(
        repair_steps(&policy, inspection.drift),
        vec![PolicyStep::EnableEcoQos]
    );
    let components: Vec<&str> = inspection
        .failures
        .iter()
        .map(|failure| failure.component)
        .collect();
    assert_eq!(components, ["affinity", "priority-class"]);
}

#[test]
fn names_of_any_letter_match_their_own_text() {
    for c in (1..0x2_0000u32).filter_map(char::from_u32) {
        let image = ImageName::parse(&c.to_string()).unwrap();
        assert!(image.eq_ignore_ascii_case_str(&image.as_string()), "{c:?}");
    }
}

#[test]
fn names_match_what_is_read_as_the_same_name() {
    for text in ["Example.EXE", "a", "\u{c4}pp.EXE"] {
        let image = ImageName::parse(text).unwrap();
        assert!(image.eq_ignore_ascii_case_str(text));
        assert!(image.eq_ignore_ascii_case_str(&image.as_string()));
        assert!(!image.eq_ignore_ascii_case_str("other.exe"));
        assert!(image.same_name(&ImageName::parse(&text.to_lowercase()).unwrap()));
    }
}
