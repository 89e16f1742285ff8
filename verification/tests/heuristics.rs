//! Classification of programs.

use std::cell::RefCell;

use affix::affinity::AffinityExpression;
use affix::confidence::Confidence;
use affix::defaults::{ObservedProcess, static_policy};
use affix::exclusion::ExclusionList;
use affix::heuristics::{
    CategoricalProcessMetrics, ClassificationDecisionState, ClassificationSnapshot,
    ClassifierSubmission, GoneInstance, HeuristicClassifier, HeuristicDecisionOutcome,
    ProcessInstanceMetrics, WorkerStep, has_common_game_path_pattern, is_common_game_module_name,
    process_id_from_gpu_engine_instance, process_instance_key, record_observations,
    total_time_delta,
};
use affix::process::ProcessMode;
use affix::storage::{
    ApplicationDecisionStore, ApplicationIdentity, ApplicationRecord, ImageName,
    NoopApplicationDecisionStore, ProcessObservation, ProcessPolicyEncoding, StorageError,
    StoredProcessDecision,
};

const CONFIDENCE_THRESHOLD: f64 = 0.9;

fn confidence(value: f64) -> Confidence {
    Confidence { bits: value.to_bits() }
}

fn classifier() -> HeuristicClassifier {
    HeuristicClassifier::new(confidence(CONFIDENCE_THRESHOLD))
}

fn image(name: &str) -> ImageName {
    ImageName::from_os_str(name).unwrap()
}

fn observed(
    image_name: &str,
    image_path: &str,
    process_id: u32,
    creation_time: u64,
) -> ObservedProcess {
    ObservedProcess::new(process_id, creation_time, image_name, image_path, 1000)
}

fn submit(
    classifier: &mut HeuristicClassifier,
    image_name: &str,
    image_path: &str,
    process_id: u32,
    creation_time: u64,
) -> ClassifierSubmission {
    classifier.classify(
        &NoopApplicationDecisionStore,
        observed(image_name, image_path, process_id, creation_time),
        false,
    )
}

fn metrics(
    observed: &ObservedProcess,
    kernel_time: u64,
    user_time: u64,
    categorical_metrics: CategoricalProcessMetrics,
) -> ProcessInstanceMetrics {
    ProcessInstanceMetrics {
        observed: observed.clone(),
        kernel_time,
        user_time,
        categorical_metrics,
    }
}

fn test_process_metrics(observed: &ObservedProcess) -> ProcessInstanceMetrics {
    metrics(
        observed,
        observed.process_id as u64,
        observed.creation_time,
        CategoricalProcessMetrics::default(),
    )
}

/// One cycle of the worker.
fn cycle<S: ApplicationDecisionStore>(
    classifier: &mut HeuristicClassifier,
    store: &S,
    is_live: impl Fn(&ObservedProcess) -> bool,
    provider: impl Fn(&ObservedProcess) -> Option<ProcessInstanceMetrics>,
    evaluate: impl Fn(&ClassificationSnapshot) -> Option<HeuristicDecisionOutcome>,
    apply: impl Fn(&str, &str) -> Result<(), String>,
) -> Vec<ClassificationSnapshot> {
    let queued = classifier.queued_candidates();
    let mut gone = Vec::new();
    for candidate in &queued {
        for instance in &candidate.instances {
            if !is_live(instance) {
                gone.push(GoneInstance {
                    image: candidate.normalized_image_name.clone(),
                    process_id: instance.process_id,
                    creation_time: instance.creation_time,
                });
            }
        }
    }
    let batch = classifier.take_live_batch(&queued, gone);
    let mut snapshots = Vec::new();
    for candidate in batch {
        let instances = candidate.instances.iter().filter_map(&provider).collect();
        snapshots.push(classifier.collect_metrics(store, candidate, instances));
    }
    let _ = record_observations(store, &snapshots);
    for snapshot in &snapshots {
        let Some(outcome) = evaluate(snapshot) else {
            continue;
        };
        if let Some(rule) = classifier.persist_heuristic_outcomes(store, snapshot, &outcome) {
            let _ = apply(
                &snapshot.candidate.normalized_image_name.as_string(),
                &rule.affinity_log_value(),
            );
        }
    }
    classifier.remove_conclusive_candidates(&snapshots);
    snapshots
}

fn plain_cycle<S: ApplicationDecisionStore>(
    classifier: &mut HeuristicClassifier,
    store: &S,
) -> Vec<ClassificationSnapshot> {
    cycle(
        classifier,
        store,
        |_| true,
        |observed| Some(test_process_metrics(observed)),
        |_| None,
        |_, _| Ok(()),
    )
}

fn outcome(affinity: &str, value: f64) -> HeuristicDecisionOutcome {
    HeuristicDecisionOutcome {
        mode: ProcessMode::Efficiency,
        affinity: Some(affinity.to_string()),
        reason: None,
        confidence: confidence(value),
        heuristic_name: "test-heuristic".to_string(),
        heuristic_version: "1".to_string(),
    }
}

fn stored_decision(image_name: &str, image_path: &str, value: Option<f64>) -> StoredProcessDecision {
    StoredProcessDecision::new(
        ApplicationIdentity::from_process(image_name, image_path).unwrap(),
        ProcessMode::Efficiency,
        Some(AffinityExpression::parse("E+LPE".to_string()).unwrap()),
        confidence(value.unwrap_or(CONFIDENCE_THRESHOLD - 0.1)),
    )
    .unwrap()
}

fn record(observation: ProcessObservation) -> ApplicationRecord {
    ApplicationRecord {
        first_seen_unix_seconds: observation.observed_unix_seconds,
        last_seen_unix_seconds: observation.observed_unix_seconds,
        observation_count: 1,
        identity: observation.identity,
    }
}

#[derive(Default)]
struct RecordingStore {
    decisions: RefCell<Vec<StoredProcessDecision>>,
    observations: RefCell<Vec<(ImageName, Option<String>)>>,
}

impl ApplicationDecisionStore for RecordingStore {
    fn initialize(&self) -> Result<(), StorageError> {
        Ok(())
    }

    fn get_active_decision(
        &self,
        _identity: &ApplicationIdentity,
        _confidence_threshold: Confidence,
    ) -> Result<Option<StoredProcessDecision>, StorageError> {
        Ok(None)
    }

    fn record_observation(
        &self,
        observation: ProcessObservation,
    ) -> Result<ApplicationRecord, StorageError> {
        self.observations.borrow_mut().push((
            observation.identity.image.clone(),
            observation.identity.image_path.clone(),
        ));
        Ok(record(observation))
    }

    fn upsert_decision(&self, decision: StoredProcessDecision) -> Result<(), StorageError> {
        self.decisions.borrow_mut().push(decision);
        Ok(())
    }
}

struct FailingUpsertStore;

impl ApplicationDecisionStore for FailingUpsertStore {
    fn initialize(&self) -> Result<(), StorageError> {
        Ok(())
    }

    fn get_active_decision(
        &self,
        _identity: &ApplicationIdentity,
        _confidence_threshold: Confidence,
    ) -> Result<Option<StoredProcessDecision>, StorageError> {
        Ok(None)
    }

    fn record_observation(
        &self,
        observation: ProcessObservation,
    ) -> Result<ApplicationRecord, StorageError> {
        Ok(record(observation))
    }

    fn upsert_decision(&self, _decision: StoredProcessDecision) -> Result<(), StorageError> {
        Err(StorageError::InvalidStoredValue(
            "forced failure".to_string(),
        ))
    }
}

struct FailingObservationStore;

impl ApplicationDecisionStore for FailingObservationStore {
    fn initialize(&self) -> Result<(), StorageError> {
        Ok(())
    }

    fn get_active_decision(
        &self,
        _identity: &ApplicationIdentity,
        _confidence_threshold: Confidence,
    ) -> Result<Option<StoredProcessDecision>, StorageError> {
        Ok(None)
    }

    fn record_observation(
        &self,
        _observation: ProcessObservation,
    ) -> Result<ApplicationRecord, StorageError> {
        Err(StorageError::InvalidStoredValue(
            "forced observation failure".to_string(),
        ))
    }

    fn upsert_decision(&self, _decision: StoredProcessDecision) -> Result<(), StorageError> {
        Ok(())
    }
}

struct DecisionLookupStore {
    confidence: Option<f64>,
    encoding: Option<u8>,
    fail: bool,
}

impl ApplicationDecisionStore for DecisionLookupStore {
    fn initialize(&self) -> Result<(), StorageError> {
        Ok(())
    }

    fn get_active_decision(
        &self,
        _identity: &ApplicationIdentity,
        _confidence_threshold: Confidence,
    ) -> Result<Option<StoredProcessDecision>, StorageError> {
        if self.fail {
            return Err(StorageError::InvalidStoredValue(
                "forced decision lookup failure".to_string(),
            ));
        }
        let mut decision = stored_decision("app.exe", r"C:\app.exe", self.confidence);
        if let Some(encoding) = self.encoding {
            decision.decision = ProcessPolicyEncoding(encoding);
        }
        Ok(Some(decision))
    }

    fn record_observation(
        &self,
        observation: ProcessObservation,
    ) -> Result<ApplicationRecord, StorageError> {
        Ok(record(observation))
    }

    fn upsert_decision(&self, _decision: StoredProcessDecision) -> Result<(), StorageError> {
        Ok(())
    }
}

#[test]
fn classify_aggregates_by_normalized_image_name() {
    let mut classifier = classifier();
    submit(&mut classifier, "App.EXE", r"C:\A\app.exe", 1, 10);
    submit(&mut classifier, "app.exe", r"C:\B\app.exe", 2, 20);

    let candidate = classifier.queued_candidate(&image("APP.exe")).unwrap();
    assert!(
        candidate
            .normalized_image_name
            .eq_ignore_ascii_case_str("app.exe")
    );
    assert_eq!(candidate.observation_count, 2);
    assert_eq!(candidate.instances.len(), 2);
}

#[test]
fn same_pid_creation_updates_instance_without_duplication() {
    let mut classifier = classifier();
    submit(&mut classifier, "app.exe", r"C:\A\app.exe", 1, 10);
    submit(&mut classifier, "app.exe", r"C:\B\app.exe", 1, 10);

    let candidate = classifier.queued_candidate(&image("app.exe")).unwrap();
    assert_eq!(candidate.observation_count, 2);
    assert_eq!(candidate.instances.len(), 1);
    assert_eq!(candidate.image_path, r"C:\B\app.exe");
}

#[test]
fn remove_process_with_creation_time_removes_only_matching_instance() {
    let mut classifier = classifier();
    submit(&mut classifier, "app.exe", r"C:\app.exe", 1, 10);
    submit(&mut classifier, "app.exe", r"C:\app.exe", 1, 11);

    classifier.remove_process(1, Some(10));

    let candidate = classifier.queued_candidate(&image("app.exe")).unwrap();
    assert_eq!(candidate.instances.len(), 1);
    assert_eq!(candidate.instances[0].creation_time, 11);
}

#[test]
fn remove_process_without_creation_time_removes_all_matching_pid_instances() {
    let mut classifier = classifier();
    submit(&mut classifier, "app.exe", r"C:\app.exe", 1, 10);
    submit(&mut classifier, "app.exe", r"C:\app.exe", 1, 11);
    submit(&mut classifier, "app.exe", r"C:\app.exe", 2, 12);

    classifier.remove_process(1, None);

    let candidate = classifier.queued_candidate(&image("app.exe")).unwrap();
    assert_eq!(candidate.instances.len(), 1);
    assert_eq!(candidate.instances[0].process_id, 2);
}

#[test]
fn worker_waits_for_interval_before_processing() {
    let mut classifier = classifier();
    submit(&mut classifier, "app.exe", r"C:\app.exe", 1, 10);
    assert!(classifier.claim_worker());
    assert!(!classifier.claim_worker());
    assert_eq!(classifier.wait_for_cycle_or_exit(false), WorkerStep::Wait);
    assert_eq!(classifier.wait_for_cycle_or_exit(true), WorkerStep::Run);
    assert!(classifier.running);
    classifier.remove_process(1, Some(10));
    assert_eq!(classifier.wait_for_cycle_or_exit(false), WorkerStep::Exit);
    assert!(!classifier.running);
}

#[test]
fn stale_pid_pruning_removes_gone_instances_before_processing() {
    let mut classifier = classifier();
    submit(&mut classifier, "app.exe", r"C:\app.exe", 1, 10);
    submit(&mut classifier, "app.exe", r"C:\app.exe", 2, 20);

    let batch = cycle(
        &mut classifier,
        &NoopApplicationDecisionStore,
        |observed| observed.process_id == 2,
        |observed| Some(test_process_metrics(observed)),
        |_| None,
        |_, _| Ok(()),
    );
    assert_eq!(batch.len(), 1);
    assert_eq!(batch[0].candidate.instances.len(), 1);
    assert_eq!(batch[0].candidate.instances[0].process_id, 2);
    let queued = classifier.queued_candidate(&image("app.exe")).unwrap();
    assert_eq!(queued.instances.len(), 1);
    assert_eq!(queued.instances[0].process_id, 2);
    assert_eq!(classifier.history.len(), 1);
    classifier.remove_process(2, Some(20));
    assert_eq!(classifier.history.len(), 0);
}

#[test]
fn worker_aggregates_metrics_by_image_candidate() {
    let mut classifier = classifier();
    submit(&mut classifier, "App.EXE", r"C:\A\app.exe", 1, 10);
    submit(&mut classifier, "app.exe", r"C:\B\app.exe", 2, 20);

    let snapshots = cycle(
        &mut classifier,
        &NoopApplicationDecisionStore,
        |_| true,
        |observed| {
            Some(metrics(
                observed,
                observed.process_id as u64 * 10,
                observed.creation_time,
                CategoricalProcessMetrics {
                    has_visible_window: observed.process_id == 1,
                    likely_game: observed.process_id == 2,
                },
            ))
        },
        |_| None,
        |_, _| Ok(()),
    );
    assert_eq!(snapshots.len(), 1);
    assert!(
        snapshots[0]
            .candidate
            .normalized_image_name
            .eq_ignore_ascii_case_str("app.exe")
    );
    assert_eq!(snapshots[0].instances.len(), 2);
    assert_eq!(snapshots[0].instances[0].kernel_time, 10);
    assert_eq!(snapshots[0].instances[1].kernel_time, 20);
    assert_eq!(
        snapshots[0].categorical_metrics,
        CategoricalProcessMetrics {
            has_visible_window: true,
            likely_game: true,
        }
    );
}

#[test]
fn first_metrics_sample_has_no_previous_delta() {
    let mut classifier = classifier();
    submit(&mut classifier, "app.exe", r"C:\app.exe", 1, 10);

    let snapshots = plain_cycle(&mut classifier, &NoopApplicationDecisionStore);

    assert_eq!(snapshots.len(), 1);
    assert_eq!(snapshots[0].instance_deltas.len(), 1);
    assert!(snapshots[0].instance_deltas[0].previous.is_none());
    assert_eq!(snapshots[0].instance_deltas[0].kernel_time_delta, None);
    assert_eq!(snapshots[0].instance_deltas[0].user_time_delta, None);
    assert_eq!(classifier.history.len(), 1);
}

#[test]
fn repeated_metrics_samples_produce_per_instance_deltas() {
    let mut classifier = classifier();
    submit(&mut classifier, "app.exe", r"C:\app.exe", 1, 10);
    let mut snapshots = Vec::new();
    for sample in 0..2u64 {
        snapshots = cycle(
            &mut classifier,
            &NoopApplicationDecisionStore,
            |_| true,
            |observed| {
                Some(metrics(
                    observed,
                    100 + sample * 10,
                    200 + sample * 20,
                    CategoricalProcessMetrics::default(),
                ))
            },
            |_| None,
            |_, _| Ok(()),
        );
    }
    assert_eq!(snapshots.len(), 1);
    assert_eq!(snapshots[0].instance_deltas.len(), 1);
    assert!(snapshots[0].instance_deltas[0].previous.is_some());
    let delta = &snapshots[0].instance_deltas[0];
    let previous = delta.previous.as_ref().unwrap();
    assert_eq!(delta.observed, previous.observed);
    assert_eq!(delta.current, snapshots[0].instances[0]);
    assert_eq!((previous.kernel_time, previous.user_time), (100, 200));
    assert_eq!((delta.current.kernel_time, delta.current.user_time), (110, 220));
    assert_eq!(snapshots[0].instance_deltas[0].kernel_time_delta, Some(10));
    assert_eq!(snapshots[0].instance_deltas[0].user_time_delta, Some(20));
    assert_eq!(classifier.history.len(), 1);
    classifier.remove_process(1, None);
    assert_eq!(classifier.history.len(), 0);
}

#[test]
fn earlier_measurements_are_kept_whole() {
    let mut classifier = classifier();
    submit(&mut classifier, "app.exe", r"C:\app.exe", 1, 10);
    let mut snapshots = Vec::new();
    for seen in [true, false] {
        snapshots = cycle(
            &mut classifier,
            &NoopApplicationDecisionStore,
            |_| true,
            |observed| {
                Some(metrics(
                    observed,
                    5,
                    6,
                    CategoricalProcessMetrics {
                        has_visible_window: seen,
                        likely_game: !seen,
                    },
                ))
            },
            |_| None,
            |_, _| Ok(()),
        );
    }
    let delta = &snapshots[0].instance_deltas[0];
    let previous = delta.previous.as_ref().unwrap();
    assert!(previous.categorical_metrics.has_visible_window);
    assert!(!previous.categorical_metrics.likely_game);
    assert!(!delta.current.categorical_metrics.has_visible_window);
    assert_eq!(previous.observed.process_id, 1);
    assert_eq!(previous.observed.creation_time, 10);
    assert_eq!(classifier.history, vec![delta.current.clone()]);
}

#[test]
fn metric_history_is_keyed_by_pid_and_creation_time() {
    let mut classifier = classifier();
    submit(&mut classifier, "app.exe", r"C:\app.exe", 1, 10);
    submit(&mut classifier, "app.exe", r"C:\app.exe", 1, 20);
    let mut snapshots = Vec::new();
    for current in 0..2u64 {
        snapshots = cycle(
            &mut classifier,
            &NoopApplicationDecisionStore,
            |_| true,
            |observed| {
                Some(metrics(
                    observed,
                    observed.creation_time + current * 10,
                    observed.creation_time + current * 20,
                    CategoricalProcessMetrics::default(),
                ))
            },
            |_| None,
            |_, _| Ok(()),
        );
    }
    assert_eq!(snapshots.len(), 1);
    assert_eq!(snapshots[0].instance_deltas.len(), 2);
    assert!(
        snapshots[0]
            .instance_deltas
            .iter()
            .all(|delta| delta.kernel_time_delta == Some(10) && delta.user_time_delta == Some(20))
    );
    assert_eq!(classifier.history.len(), 2);
    classifier.remove_process(1, Some(10));
    assert_eq!(classifier.history.len(), 1);
    classifier.remove_process(1, Some(20));
    assert_eq!(classifier.history.len(), 0);
    assert_eq!(
        process_instance_key(&observed("a.exe", "", 3, 4)),
        (3, 4)
    );
}

#[test]
fn metric_collection_failure_does_not_remove_live_instance_from_queue() {
    let mut classifier = classifier();
    submit(&mut classifier, "app.exe", r"C:\A\app.exe", 1, 10);
    submit(&mut classifier, "app.exe", r"C:\B\app.exe", 2, 20);

    let snapshots = cycle(
        &mut classifier,
        &NoopApplicationDecisionStore,
        |_| true,
        |observed| {
            if observed.process_id == 2 {
                Some(metrics(observed, 2, 20, CategoricalProcessMetrics::default()))
            } else {
                None
            }
        },
        |_| None,
        |_, _| Ok(()),
    );
    assert_eq!(snapshots.len(), 1);
    assert_eq!(snapshots[0].instances.len(), 1);
    assert_eq!(snapshots[0].instances[0].observed.process_id, 2);
    let queued = classifier.queued_candidate(&image("app.exe")).unwrap();
    assert_eq!(queued.instances.len(), 2);
}

#[test]
fn metric_collection_failure_still_reports_candidate_snapshot() {
    let mut classifier = classifier();
    submit(&mut classifier, "app.exe", r"C:\app.exe", 1, 10);

    let snapshots = cycle(
        &mut classifier,
        &NoopApplicationDecisionStore,
        |_| true,
        |_| None,
        |_| None,
        |_, _| Ok(()),
    );
    assert_eq!(snapshots.len(), 1);
    assert!(
        snapshots[0]
            .candidate
            .normalized_image_name
            .eq_ignore_ascii_case_str("app.exe")
    );
    assert!(snapshots[0].instances.is_empty());
    assert_eq!(classifier.queue.len(), 1);
}

#[test]
fn reconciliation_marks_missing_decision_for_future_classification() {
    let mut classifier = classifier();
    submit(&mut classifier, "app.exe", r"C:\app.exe", 1, 10);

    let snapshots = plain_cycle(&mut classifier, &NoopApplicationDecisionStore);

    assert_eq!(snapshots.len(), 1);
    assert!(matches!(
        snapshots[0].decision_state,
        ClassificationDecisionState::Missing
    ));
    assert_eq!(classifier.queue.len(), 1);
}

#[test]
fn reconciliation_keeps_low_and_missing_confidence_decisions_classifiable() {
    for value in [Some(CONFIDENCE_THRESHOLD - 0.1), None] {
        let store = DecisionLookupStore { confidence: value, encoding: None, fail: false };
        let mut classifier = classifier();
        submit(&mut classifier, "app.exe", r"C:\app.exe", 1, 10);

        let snapshots = plain_cycle(&mut classifier, &store);

        assert_eq!(snapshots.len(), 1);
        assert!(matches!(
            snapshots[0].decision_state,
            ClassificationDecisionState::NeedsClassification(_)
        ));
        assert_eq!(classifier.queue.len(), 1);
    }
}

#[test]
fn reconciliation_drops_candidate_when_database_decision_is_conclusive() {
    let store = DecisionLookupStore {
        confidence: Some(CONFIDENCE_THRESHOLD),
        encoding: None,
        fail: false,
    };
    let mut classifier = classifier();
    submit(&mut classifier, "app.exe", r"C:\app.exe", 1, 10);

    let snapshots = plain_cycle(&mut classifier, &store);

    assert_eq!(snapshots.len(), 1);
    assert!(matches!(
        snapshots[0].decision_state,
        ClassificationDecisionState::Conclusive(_)
    ));
    assert!(!snapshots[0].decision_state.is_classifiable());
    assert_eq!(classifier.queue.len(), 0);
}

#[test]
fn worker_exits_when_conclusive_database_decision_empties_queue() {
    let store = DecisionLookupStore {
        confidence: Some(CONFIDENCE_THRESHOLD),
        encoding: None,
        fail: false,
    };
    let mut classifier = classifier();
    submit(&mut classifier, "app.exe", r"C:\app.exe", 1, 10);
    assert!(classifier.claim_worker());
    assert_eq!(classifier.wait_for_cycle_or_exit(true), WorkerStep::Run);

    let snapshots = plain_cycle(&mut classifier, &store);
    assert_eq!(snapshots.len(), 1);
    assert!(matches!(
        snapshots[0].decision_state,
        ClassificationDecisionState::Conclusive(_)
    ));
    assert_eq!(classifier.queue.len(), 0);
    assert_eq!(classifier.wait_for_cycle_or_exit(false), WorkerStep::Exit);
    assert!(!classifier.running);
    assert_eq!(classifier.history.len(), 0);
}

#[test]
fn worker_keeps_low_confidence_database_decision_queued_across_cycles() {
    let store = DecisionLookupStore {
        confidence: Some(CONFIDENCE_THRESHOLD - 0.1),
        encoding: None,
        fail: false,
    };
    let mut classifier = classifier();
    submit(&mut classifier, "app.exe", r"C:\app.exe", 1, 10);
    assert!(classifier.claim_worker());

    for _ in 0..2 {
        assert_eq!(classifier.wait_for_cycle_or_exit(true), WorkerStep::Run);
        let snapshots = plain_cycle(&mut classifier, &store);
        assert_eq!(snapshots.len(), 1);
        assert!(matches!(
            snapshots[0].decision_state,
            ClassificationDecisionState::NeedsClassification(_)
        ));
    }
    assert_eq!(classifier.queue.len(), 1);
    assert!(classifier.running);
}

#[test]
fn heuristic_outcome_persists_decision_and_removes_conclusive_candidate() {
    let store = RecordingStore::default();
    let applied = RefCell::new(Vec::<(String, String)>::new());
    let mut classifier = classifier();
    submit(&mut classifier, "app.exe", r"C:\app.exe", 1, 10);

    cycle(
        &mut classifier,
        &store,
        |_| true,
        |observed| Some(test_process_metrics(observed)),
        |_| Some(outcome("E+LPE", CONFIDENCE_THRESHOLD)),
        |name, rule| {
            applied
                .borrow_mut()
                .push((name.to_string(), rule.to_string()));
            Ok(())
        },
    );

    assert_eq!(classifier.queue.len(), 0);
    let decisions = store.decisions.borrow();
    assert_eq!(decisions.len(), 1);
    let decision = &decisions[0];
    assert!(decision.identity.image.eq_ignore_ascii_case_str("app.exe"));
    assert_eq!(decision.decision.mode().unwrap(), ProcessMode::Efficiency);
    assert_eq!(
        decision.decision.0,
        ProcessPolicyEncoding::EFFICIENCY
            | ProcessPolicyEncoding::AFFINITY_E
            | ProcessPolicyEncoding::AFFINITY_LPE
    );
    assert_eq!(decision.confidence, confidence(CONFIDENCE_THRESHOLD));
    assert_eq!(
        applied.borrow().as_slice(),
        &[("app.exe".to_string(), "E+LPE".to_string())]
    );
}

#[test]
fn heuristic_outcome_below_threshold_persists_but_remains_queued() {
    let store = RecordingStore::default();
    let mut classifier = classifier();
    submit(&mut classifier, "app.exe", r"C:\app.exe", 1, 10);

    cycle(
        &mut classifier,
        &store,
        |_| true,
        |observed| Some(test_process_metrics(observed)),
        |_| Some(outcome("E+LPE", CONFIDENCE_THRESHOLD - 0.25)),
        |_, _| Ok(()),
    );

    assert_eq!(classifier.queue.len(), 1);
    let decisions = store.decisions.borrow();
    assert_eq!(decisions.len(), 1);
    assert_eq!(
        decisions[0].confidence,
        confidence(CONFIDENCE_THRESHOLD - 0.25)
    );
}

#[test]
fn policy_applier_failure_does_not_prevent_persisted_conclusive_cleanup() {
    let store = RecordingStore::default();
    let mut classifier = classifier();
    submit(&mut classifier, "app.exe", r"C:\app.exe", 1, 10);

    cycle(
        &mut classifier,
        &store,
        |_| true,
        |observed| Some(test_process_metrics(observed)),
        |_| Some(outcome("E+LPE", CONFIDENCE_THRESHOLD)),
        |_, _| Err("forced apply failure".to_string()),
    );

    assert_eq!(store.decisions.borrow().len(), 1);
    assert_eq!(classifier.queue.len(), 0);
}

#[test]
fn invalid_heuristic_outcome_or_upsert_failure_keeps_candidate_queued() {
    {
        let store = RecordingStore::default();
        let mut classifier = classifier();
        submit(&mut classifier, "app.exe", r"C:\app.exe", 1, 10);
        cycle(
            &mut classifier,
            &store,
            |_| true,
            |observed| Some(test_process_metrics(observed)),
            |_| Some(outcome("invalid_expression_term", CONFIDENCE_THRESHOLD)),
            |_, _| Ok(()),
        );

        assert_eq!(classifier.queue.len(), 1);
        assert!(store.decisions.borrow().is_empty());
    }

    {
        let mut classifier = classifier();
        submit(&mut classifier, "app.exe", r"C:\app.exe", 1, 10);
        cycle(
            &mut classifier,
            &FailingUpsertStore,
            |_| true,
            |observed| Some(test_process_metrics(observed)),
            |_| Some(outcome("E+LPE", CONFIDENCE_THRESHOLD)),
            |_, _| Ok(()),
        );

        assert_eq!(classifier.queue.len(), 1);
    }
}

#[test]
fn reconciliation_keeps_invalid_or_unreadable_database_decision_classifiable() {
    for (store, expected_invalid) in [
        (
            DecisionLookupStore {
                confidence: Some(CONFIDENCE_THRESHOLD),
                encoding: Some(ProcessPolicyEncoding::EFFICIENCY | 0x80),
                fail: false,
            },
            true,
        ),
        (
            DecisionLookupStore { confidence: None, encoding: None, fail: true },
            false,
        ),
    ] {
        let mut classifier = classifier();
        submit(&mut classifier, "app.exe", r"C:\app.exe", 1, 10);

        let snapshots = plain_cycle(&mut classifier, &store);

        assert_eq!(snapshots.len(), 1);
        if expected_invalid {
            assert!(matches!(
                snapshots[0].decision_state,
                ClassificationDecisionState::Invalid { .. }
            ));
        } else {
            assert!(matches!(
                snapshots[0].decision_state,
                ClassificationDecisionState::StoreError { .. }
            ));
        }
        assert_eq!(classifier.queue.len(), 1);
    }
}

#[test]
fn reconciliation_records_one_observation_per_live_candidate() {
    let store = RecordingStore::default();
    let mut classifier = classifier();
    submit(&mut classifier, "App.EXE", r"C:\A\app.exe", 1, 10);
    submit(&mut classifier, "app.exe", r"C:\B\app.exe", 2, 20);

    plain_cycle(&mut classifier, &store);

    let observations = store.observations.borrow();
    assert_eq!(observations.len(), 1);
    assert!(observations[0].0.eq_ignore_ascii_case_str("app.exe"));
    assert_eq!(observations[0].1.as_deref(), Some(r"C:\B\app.exe"));
}

#[test]
fn observation_persistence_failure_does_not_stop_reconciliation() {
    let mut classifier = classifier();
    submit(&mut classifier, "app.exe", r"C:\app.exe", 1, 10);

    let snapshots = plain_cycle(&mut classifier, &FailingObservationStore);
    assert_eq!(snapshots.len(), 1);
    assert_eq!(classifier.queue.len(), 1);
    let failures = record_observations(&FailingObservationStore, &snapshots);
    assert_eq!(failures.len(), 1);
    assert_eq!(failures[0].0, 0);
    assert_eq!(
        failures[0].1.message(),
        "invalid stored value: forced observation failure"
    );
}

#[test]
fn worker_exits_immediately_when_removal_empties_queue() {
    let mut classifier = classifier();
    submit(&mut classifier, "app.exe", r"C:\app.exe", 1, 10);
    assert!(classifier.claim_worker());
    assert!(classifier.running);

    classifier.remove_process(1, Some(10));

    assert_eq!(classifier.wait_for_cycle_or_exit(false), WorkerStep::Exit);
    assert_eq!(classifier.queue.len(), 0);
}

#[test]
fn worker_exits_when_pid_wide_removal_empties_queue() {
    let mut classifier = classifier();
    submit(&mut classifier, "app.exe", r"C:\app.exe", 1, 10);
    submit(&mut classifier, "app.exe", r"C:\app.exe", 1, 11);
    assert!(classifier.claim_worker());
    assert!(classifier.running);

    classifier.remove_process(1, None);

    assert_eq!(classifier.wait_for_cycle_or_exit(false), WorkerStep::Exit);
    assert_eq!(classifier.queue.len(), 0);
}

#[test]
fn worker_reconciles_periodically_until_queue_is_drained() {
    let mut classifier = classifier();
    submit(&mut classifier, "app.exe", r"C:\app.exe", 1, 10);
    assert!(classifier.claim_worker());
    for _ in 0..2 {
        assert_eq!(classifier.wait_for_cycle_or_exit(true), WorkerStep::Run);
        plain_cycle(&mut classifier, &NoopApplicationDecisionStore);
    }
    assert!(classifier.running);
    assert_eq!(classifier.queue.len(), 1);

    classifier.remove_process(1, Some(10));

    assert_eq!(classifier.wait_for_cycle_or_exit(true), WorkerStep::Exit);
    assert_eq!(classifier.queue.len(), 0);

    submit(&mut classifier, "app.exe", r"C:\app.exe", 2, 20);
    assert!(classifier.claim_worker());
    assert_eq!(classifier.wait_for_cycle_or_exit(true), WorkerStep::Run);
}

#[test]
fn critical_process_is_disqualified_before_enqueue() {
    let mut classifier = classifier();

    let result = classifier.classify(
        &NoopApplicationDecisionStore,
        observed("app.exe", r"C:\app.exe", 1, 10),
        true,
    );

    assert_eq!(result, ClassifierSubmission::Disqualified);
    assert_eq!(classifier.queue.len(), 0);
}

#[test]
fn critical_process_is_disqualified_before_static_policy() {
    let store = RecordingStore::default();
    let mut classifier = classifier();

    let result = classifier.classify(
        &store,
        observed(
            "WMIRegistrationHost.exe",
            r"C:\Windows\System32\WMIRegistrationHost.exe",
            1,
            10,
        ),
        true,
    );

    assert_eq!(result, ClassifierSubmission::Disqualified);
    assert_eq!(classifier.queue.len(), 0);
    assert!(store.decisions.borrow().is_empty());
}

#[test]
fn aho_exclusion_is_case_insensitive_prefix_only() {
    let exclusions = ExclusionList::new();
    for name in [
        "Explorer.exe",
        "vmmemWSL-helper.exe",
        "dllhost.exe",
        "TiWorker.exe",
        "WUDFCompanionHost.exe",
        "WorkloadsSessionManager.exe",
        "backgroundTaskHost.exe",
    ] {
        assert!(exclusions.is_excluded_image_name(&image(name)), "{name}");
    }
    assert!(!exclusions.is_excluded_image_name(&image("my-explorer.exe")));
}

#[test]
fn game_path_pattern_match_is_case_insensitive() {
    assert!(has_common_game_path_pattern(
        r"C:\Program Files (x86)\Steam\steamapps\common\App\app.exe"
    ));
    assert!(has_common_game_path_pattern(r"D:\Installed Games\App\app.exe"));
    assert!(has_common_game_path_pattern(r"D:\GAMECACHE\App\app.exe"));
    assert!(!has_common_game_path_pattern(r"C:\Tools\App\app.exe"));
}

#[test]
fn common_game_module_match_is_case_insensitive() {
    assert!(is_common_game_module_name("dxgi.dll"));
    assert!(is_common_game_module_name("D3D12.DLL"));
    assert!(is_common_game_module_name("xinput1_4.dll"));
    assert!(is_common_game_module_name("xaudio2_9.dll"));
    assert!(is_common_game_module_name("bink2w64.dll"));
    assert!(is_common_game_module_name("EOSSDK-Win64-Shipping.dll"));
    assert!(is_common_game_module_name("UnityPlayer.dll"));
    assert!(is_common_game_module_name("UnrealEditor-Core.dll"));
    assert!(!is_common_game_module_name("kernel32.dll"));
    assert!(!is_common_game_module_name("xinput.txt"));
}

#[test]
fn excluded_image_wins_over_static_policy() {
    let store = RecordingStore::default();
    let mut classifier = classifier();

    let result = classifier.classify(
        &store,
        observed("ssh-agent.exe", r"C:\ssh-agent.exe", 1, 10),
        false,
    );

    assert_eq!(result, ClassifierSubmission::Disqualified);
    assert_eq!(classifier.queue.len(), 0);
    assert!(store.decisions.borrow().is_empty());
}

#[test]
fn static_lpe_policy_seeds_database_and_returns_rule() {
    let store = RecordingStore::default();
    let mut classifier = classifier();

    let result = classifier.classify(
        &store,
        observed("tposd.exe", r"C:\tposd.exe", 1, 10),
        false,
    );

    let ClassifierSubmission::StaticPolicy(rule) = result else {
        panic!("expected static policy");
    };
    assert_eq!(rule.mode, ProcessMode::Efficiency);
    assert_eq!(rule.affinity_log_value(), "LPE");
    let decisions = store.decisions.borrow();
    assert_eq!(decisions.len(), 1);
    let decision = &decisions[0];
    assert!(
        decision
            .identity
            .image
            .eq_ignore_ascii_case_str("tposd.exe")
    );
    assert_eq!(
        decision.identity.image_path.as_deref(),
        Some(r"C:\tposd.exe")
    );
    assert_eq!(
        decision.decision.0,
        ProcessPolicyEncoding::EFFICIENCY | ProcessPolicyEncoding::AFFINITY_LPE
    );
    assert_eq!(decision.confidence, confidence(CONFIDENCE_THRESHOLD));
}

#[test]
fn explicit_lpe_static_policy_images_use_efficiency_and_lpe() {
    for name in [
        "WmiPrvSE.exe",
        "wlanext.exe",
        "CrossDeviceResume.exe",
        "PowerMgr.exe",
        "WidgetBoard.exe",
        "WidgetService.exe",
        "MicrosoftStartFeedProvider.exe",
        "MicrosoftEdgeUpdate.exe",
        "shtctky.exe",
        "tposd.exe",
    ] {
        let Some(policy) = static_policy(&image(name)) else {
            panic!("{name} must have a built-in static policy");
        };
        assert_eq!(policy.mode, ProcessMode::Efficiency, "{name}");
        assert_eq!(policy.affinity, "LPE", "{name}");
    }
}

#[test]
fn static_efficiency_default_policy_uses_e_plus_lpe() {
    let mut classifier = classifier();

    let result = submit(&mut classifier, "DAX3API.exe", r"C:\DAX3API.exe", 1, 10);

    let ClassifierSubmission::StaticPolicy(rule) = result else {
        panic!("expected static policy");
    };
    assert_eq!(rule.mode, ProcessMode::Efficiency);
    assert_eq!(rule.affinity_log_value(), "E+LPE");
}

#[test]
fn static_spotify_policy_is_normal_with_e_affinity() {
    let mut classifier = classifier();

    let result = submit(&mut classifier, "Spotify.exe", r"C:\Spotify.exe", 1, 10);

    let ClassifierSubmission::StaticPolicy(rule) = result else {
        panic!("expected static policy");
    };
    assert_eq!(rule.mode, ProcessMode::Normal);
    assert_eq!(rule.affinity_log_value(), "E");
}

#[test]
fn static_policy_applies_even_if_database_write_fails() {
    let mut classifier = classifier();

    let result = classifier.classify(
        &FailingUpsertStore,
        observed("tposd.exe", r"C:\tposd.exe", 1, 10),
        false,
    );

    assert!(matches!(result, ClassifierSubmission::StaticPolicy(_)));
    assert_eq!(classifier.queue.len(), 0);
}

#[test]
fn static_policy_defaults_cover_the_known_images() {
    for name in [
        "shtctky.exe",
        "LITSSvc.exe",
        "backgroundTaskHost.exe",
        "crashpad_handler.exe",
        "PhoneExperienceHost.exe",
        "TabTip.exe",
        "SpotifyWidgetProvider.exe",
        "ElafibsSSPSystemDaemon.exe",
        "SmartSense.exe",
        "LenovoVantage-(ThinkSpectrumAddin).exe",
        "UserSSCtrl.exe",
        "WMIRegistrationHost.exe",
        "MicrosoftEdgeUpdate.exe",
        "IntelProviderDataHelperService.exe",
        "WidgetBoard.exe",
        "IntelAnalyticsService.exe",
        "TapToXService.exe",
        "ElabsTapPlatformService.exe",
        "PresentMonService.exe",
        "LenovoVantage-(GenericMessagingAddin).exe",
        "LenovoVantageService.exe",
        "intel_cst_service_standalone.exe",
        "DAX3API.exe",
        "ElevocControlService.exe",
        "IntelAudioService.exe",
        "git.exe",
        "ClickToDo.exe",
        "msedge.exe",
        "Discord.exe",
        "Spotify.exe",
        "ssh-agent.exe",
        "SearchHost.exe",
        "SearchIndexer.exe",
        "localsend_app.exe",
        "SpotifyLauncher.exe",
        "IntelGraphicsSoftware.Service.exe",
        "tposd.exe",
    ] {
        assert!(
            static_policy(&image(name)).is_some(),
            "{name} must have a built-in static policy"
        );
    }
    assert!(static_policy(&image("unknown.exe")).is_none());
}

#[test]
fn shutdown_is_idempotent() {
    let mut classifier = classifier();
    submit(&mut classifier, "app.exe", r"C:\app.exe", 1, 10);
    assert!(classifier.claim_worker());
    classifier.shutdown();
    classifier.shutdown();
    assert!(!classifier.running);
    assert_eq!(classifier.wait_for_cycle_or_exit(true), WorkerStep::Exit);
}

#[test]
fn classify_after_shutdown_does_not_enqueue_restart_or_write_static_policy() {
    let store = RecordingStore::default();
    let mut classifier = classifier();
    classifier.shutdown();

    let queued = classifier.classify(&store, observed("app.exe", r"C:\app.exe", 1, 10), false);
    let static_policy = classifier.classify(
        &store,
        observed("tposd.exe", r"C:\tposd.exe", 2, 20),
        false,
    );

    assert!(matches!(queued, ClassifierSubmission::Disqualified));
    assert!(matches!(static_policy, ClassifierSubmission::Disqualified));
    assert_eq!(classifier.queue.len(), 0);
    assert!(!classifier.claim_worker());
    assert!(!classifier.running);
    assert!(store.decisions.borrow().is_empty());
}

#[test]
fn times_add_up_only_where_both_are_known() {
    assert_eq!(total_time_delta(Some(10), Some(20)), Some(30));
    assert_eq!(total_time_delta(None, Some(20)), None);
    assert_eq!(total_time_delta(Some(u64::MAX), Some(1)), Some(u64::MAX));
}

#[test]
fn counters_of_the_graphics_processor_name_their_process() {
    assert_eq!(
        process_id_from_gpu_engine_instance("pid_1234_luid_0x0_phys_0_eng_0_engtype_3D"),
        Some(1234)
    );
    assert_eq!(process_id_from_gpu_engine_instance("PID_77"), Some(77));
    assert_eq!(process_id_from_gpu_engine_instance("pid_x_1"), None);
    assert_eq!(process_id_from_gpu_engine_instance("luid_0x0"), None);
}
