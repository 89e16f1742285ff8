//! Stored decisions and their cache.

use affix::affinity::AffinityExpression;
use affix::confidence::Confidence;
use affix::decision_cache::{
    CachedImage, DecisionCache, DecisionCacheContinuation, DecisionCacheSlot, DecisionRow,
    continue_decision_cache_scan, decision_cache_timestamp, decision_from_cache, decision_from_row,
    scan_decision_cache,
};
use affix::process::ProcessMode;
use affix::storage::{
    ApplicationDecisionStore, ApplicationIdentity, DECISION_CACHE_CAPACITY, ImageName,
    MAX_IMAGE_NAME_CHARS, NoopApplicationDecisionStore, ProcessObservation, ProcessPolicyEncoding,
    SCHEMA_VERSION, StorageError, StoredProcessDecision, check_database_path, is_outdated_schema,
    record_observation, unix_seconds,
};

fn confidence(value: f64) -> Confidence {
    Confidence { bits: value.to_bits() }
}

fn test_image(value: &str) -> ImageName {
    ImageName::from_db(value).unwrap()
}

fn empty_entries() -> Vec<CachedImage> {
    (0..DECISION_CACHE_CAPACITY)
        .map(|_| CachedImage { image: ImageName::empty(), timestamp: 0 })
        .collect()
}

#[test]
fn cache_scan_stops_at_first_empty_prefix_slot() {
    let target = test_image("target.exe");
    let mut entries = empty_entries();
    entries[0] = CachedImage { image: test_image("earlier.exe"), timestamp: 10 };
    entries[2] = CachedImage { image: test_image("target.exe"), timestamp: 30 };

    assert!(matches!(
        scan_decision_cache(&entries, &target),
        DecisionCacheSlot::Replacement(1)
    ));
}

#[test]
fn cache_stale_candidate_continues_forward_before_full_rescan() {
    let target = test_image("target.exe");
    let mut entries = empty_entries();
    entries[0] = CachedImage { image: test_image("stale.exe"), timestamp: 10 };
    entries[1] = CachedImage { image: test_image("target.exe"), timestamp: 20 };

    assert!(matches!(
        continue_decision_cache_scan(&entries, &target, 1),
        DecisionCacheContinuation::Existing(1)
    ));

    entries[1] = CachedImage { image: ImageName::empty(), timestamp: 0 };
    entries[2] = CachedImage { image: test_image("target.exe"), timestamp: 30 };
    assert!(matches!(
        continue_decision_cache_scan(&entries, &target, 1),
        DecisionCacheContinuation::Empty(1)
    ));
}

#[test]
fn cache_hit_requires_occupied_primary_slot() {
    let mut cache = DecisionCache::new();
    cache.values[0].decision = ProcessPolicyEncoding::EFFICIENCY;
    cache.values[0].confidence = confidence(1.0);

    let identity =
        ApplicationIdentity::from_process("empty-primary.exe", r"C:\apps\empty-primary.exe")
            .unwrap();
    let lookup = cache.read_decision_cache(&identity.image, 5);

    assert!(!lookup.hit);
    assert_eq!(lookup.replacement_index, 0);
}

#[test]
fn cache_accepts_zero_value_when_primary_slot_is_occupied() {
    let mut cache = DecisionCache::new();
    let identity = || {
        ApplicationIdentity::from_process("normal-zero.exe", r"C:\apps\normal-zero.exe").unwrap()
    };
    let decision =
        StoredProcessDecision::new(identity(), ProcessMode::Normal, None, confidence(0.0)).unwrap();

    cache.write_decision_cache(&decision, 3);
    let lookup = cache.read_decision_cache(&identity().image, 4);

    assert!(lookup.hit);
    assert!(lookup.image.same_name(&identity().image));
    assert_eq!(lookup.decision, ProcessPolicyEncoding(0));
    assert_eq!(f64::from_bits(lookup.confidence.bits), 0.0);
}

#[test]
fn image_name_rejects_more_than_260_characters() {
    let valid = "a".repeat(MAX_IMAGE_NAME_CHARS);
    assert!(ImageName::from_db(&valid).is_ok());

    let invalid = "a".repeat(MAX_IMAGE_NAME_CHARS + 1);
    assert!(matches!(
        ImageName::from_db(&invalid),
        Err(StorageError::ImageNameTooLong)
    ));
}

#[test]
fn process_policy_encoding_round_trips_correctly() {
    let enc = ProcessPolicyEncoding::new(ProcessMode::Normal, None).unwrap();
    assert_eq!(enc.0, 0);
    assert_eq!(enc.mode().unwrap(), ProcessMode::Normal);
    assert!(!enc.has_p());
    assert!(!enc.has_e());
    assert!(!enc.has_lpe());
    assert!(!enc.has_c());

    let expr = AffinityExpression::parse("P+E+C".to_string()).unwrap();
    let enc = ProcessPolicyEncoding::new(ProcessMode::Efficiency, Some(&expr)).unwrap();
    assert_eq!(
        enc.0,
        ProcessPolicyEncoding::EFFICIENCY
            | ProcessPolicyEncoding::AFFINITY_P
            | ProcessPolicyEncoding::AFFINITY_E
            | ProcessPolicyEncoding::AFFINITY_C
    );
    assert_eq!(enc.mode().unwrap(), ProcessMode::Efficiency);
    assert!(enc.has_p());
    assert!(enc.has_e());
    assert!(!enc.has_lpe());
    assert!(enc.has_c());

    let expr = AffinityExpression::parse("LPE".to_string()).unwrap();
    let enc = ProcessPolicyEncoding::new(ProcessMode::Realtime, Some(&expr)).unwrap();
    assert_eq!(
        enc.0,
        ProcessPolicyEncoding::REALTIME | ProcessPolicyEncoding::AFFINITY_LPE
    );
    assert_eq!(enc.mode().unwrap(), ProcessMode::Realtime);
    assert!(!enc.has_p());
    assert!(!enc.has_e());
    assert!(enc.has_lpe());
    assert!(!enc.has_c());

    let expr = AffinityExpression::parse("P+E".to_string()).unwrap();
    let enc = ProcessPolicyEncoding::new(ProcessMode::Performance, Some(&expr)).unwrap();
    assert_eq!(
        enc.0,
        ProcessPolicyEncoding::PERFORMANCE
            | ProcessPolicyEncoding::AFFINITY_P
            | ProcessPolicyEncoding::AFFINITY_E
    );
    assert_eq!(enc.mode().unwrap(), ProcessMode::Performance);
    assert!(enc.has_p());
    assert!(enc.has_e());
    assert!(!enc.has_lpe());
    assert!(!enc.has_c());

    let invalid = ProcessPolicyEncoding(
        ProcessPolicyEncoding::EFFICIENCY | ProcessPolicyEncoding::REALTIME,
    );
    assert!(invalid.mode().is_err());
}

#[test]
fn observations_are_recorded_without_a_row() {
    let identity =
        ApplicationIdentity::from_process("ObservedApp.EXE", r"C:\apps\ObservedApp.EXE").unwrap();
    let record = record_observation(ProcessObservation { identity, observed_unix_seconds: 125 });

    assert!(
        record
            .identity
            .image
            .eq_ignore_ascii_case_str("observedapp.exe")
    );
    assert_eq!(record.first_seen_unix_seconds, 125);
    assert_eq!(record.last_seen_unix_seconds, 125);
    assert_eq!(record.observation_count, 0);
}

#[test]
fn decisions_are_read_back_from_rows() {
    let row = DecisionRow {
        image: "App.exe".to_string(),
        decision: i64::from(ProcessPolicyEncoding::EFFICIENCY | ProcessPolicyEncoding::AFFINITY_E),
        confidence: confidence(0.75),
    };
    let decision = decision_from_row(row, &Some(r"C:\app.exe".to_string())).unwrap();
    assert!(decision.identity.image.eq_ignore_ascii_case_str("APP.EXE"));
    assert!(decision.is_conclusive(confidence(0.7)));
    assert!(decision.is_conclusive(confidence(0.75)));
    assert!(!decision.is_conclusive(confidence(0.8)));
    let rule = decision.to_process_rule().unwrap();
    assert_eq!(rule.mode, ProcessMode::Efficiency);
    assert_eq!(rule.affinity_log_value(), "E");

    let row = DecisionRow {
        image: "app.exe".to_string(),
        decision: 256,
        confidence: confidence(1.0),
    };
    assert!(matches!(
        decision_from_row(row, &None),
        Err(StorageError::InvalidStoredValue(_))
    ));
    let row = DecisionRow {
        image: "app.exe".to_string(),
        decision: 3,
        confidence: confidence(1.0),
    };
    assert!(decision_from_row(row, &None).is_err());
}

#[test]
fn numbers_are_not_stored_and_confidences_have_to_be_finite() {
    let identity = || ApplicationIdentity::from_process("a.exe", "").unwrap();
    let numeric = AffinityExpression::parse("1+2".to_string()).unwrap();
    let stored = StoredProcessDecision::new(
        identity(),
        ProcessMode::Efficiency,
        Some(numeric),
        confidence(1.0),
    )
    .unwrap();
    assert_eq!(stored.decision.0, ProcessPolicyEncoding::EFFICIENCY);
    assert!(
        StoredProcessDecision::new(identity(), ProcessMode::Normal, None, confidence(f64::NAN))
            .is_err()
    );
    assert!(
        StoredProcessDecision::new(
            identity(),
            ProcessMode::Normal,
            None,
            confidence(f64::INFINITY)
        )
        .is_err()
    );
}

#[test]
fn the_oldest_slot_gives_way_when_the_cache_is_full() {
    let mut cache = DecisionCache::new();
    let decision = |name: &str| {
        StoredProcessDecision::new(
            ApplicationIdentity::from_process(name, "").unwrap(),
            ProcessMode::Efficiency,
            None,
            confidence(1.0),
        )
        .unwrap()
    };
    for index in 0..DECISION_CACHE_CAPACITY {
        cache.write_decision_cache(&decision(&format!("app{index}.exe")), 100 + index as u64);
    }
    assert!(cache.read_decision_cache(&test_image("app0.exe"), 5000).hit);
    cache.write_decision_cache(&decision("new.exe"), 6000);
    assert!(cache.read_decision_cache(&test_image("new.exe"), 6001).hit);
    assert!(cache.read_decision_cache(&test_image("app0.exe"), 6002).hit);
    assert!(!cache.read_decision_cache(&test_image("app1.exe"), 6003).hit);
}

#[test]
fn cached_decisions_are_handed_out_with_the_path_that_was_asked_for() {
    let mut cache = DecisionCache::new();
    let identity = ApplicationIdentity::from_process("a.exe", r"C:\a.exe").unwrap();
    let decision =
        StoredProcessDecision::new(identity, ProcessMode::Realtime, None, confidence(0.5)).unwrap();
    cache.write_decision_cache(&decision, 1);
    let lookup = cache.read_decision_cache(&test_image("A.EXE"), 2);
    let found = decision_from_cache(lookup, &Some(r"D:\a.exe".to_string())).unwrap();
    assert_eq!(found.identity.image_path, Some(r"D:\a.exe".to_string()));
    assert_eq!(found.decision.mode().unwrap(), ProcessMode::Realtime);
}

#[test]
fn confidences_compare_as_numbers() {
    assert!(confidence(0.5).at_least(confidence(0.5)));
    assert!(confidence(0.5).at_least(confidence(-1.0)));
    assert!(!confidence(-0.5).at_least(confidence(0.0)));
    assert!(confidence(-0.0).at_least(confidence(0.0)));
    assert!(!confidence(f64::NAN).at_least(confidence(0.0)));
    assert!(!confidence(1.0).at_least(confidence(f64::NAN)));
    assert!(confidence(1.0).is_finite());
    assert!(!confidence(f64::INFINITY).is_finite());
}

#[test]
fn schemas_and_paths_are_checked() {
    assert!(is_outdated_schema(0));
    assert!(is_outdated_schema(1));
    assert!(!is_outdated_schema(SCHEMA_VERSION));
    assert!(matches!(
        check_database_path(""),
        Err(StorageError::InvalidPath(_))
    ));
    assert!(check_database_path("/var/lib/affix/applications.sqlite").is_ok());
    assert_eq!(unix_seconds(Some(7)), 7);
    assert_eq!(unix_seconds(None), 0);
    assert_eq!(decision_cache_timestamp(None), 1);
    assert_eq!(decision_cache_timestamp(Some(0)), 1);
    assert_eq!(decision_cache_timestamp(Some(9)), 9);
    assert_eq!(
        StorageError::PoisonedMutex("cache".to_string()).message(),
        "poisoned mutex: cache"
    );
}

#[test]
fn the_store_that_stores_nothing_knows_nothing() {
    let store = NoopApplicationDecisionStore;
    let identity = ApplicationIdentity::from_process("a.exe", "").unwrap();
    assert!(store.initialize().is_ok());
    assert!(
        store
            .get_active_decision(&identity, confidence(0.5))
            .unwrap()
            .is_none()
    );
}
