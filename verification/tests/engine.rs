//! The rule engine.

use std::cell::Cell;
use std::collections::HashMap;

use affix::affinity::AffinityPolicy;
use affix::diagnostics::DiagnosticPublisher;
use affix::engine::{
    ApplicationIntent, AppliedProcess, AppliedProcessSignature, InspectionStep,
    MAX_RECONCILIATION_CHECKS, PidStep, PolicyApplication, PolicyFailure, PolicyInspection,
    ProcessKey, ProcessPolicyDrift, ProfileSnapshot, ReconcilerPhase, ResolvedProcess,
    ResolvedProcessPolicy, RuleEngine, RuleStep, WatcherWait, WorkerStep,
    advance_reconciliation_check, application_failures, identify, pack_profile_state,
    remove_unobserved, run_bounded_reconciliation_batch, unpack_profile_state, watcher_loop,
    watcher_wait,
};
use affix::identity::ImageName;
use affix::power::PowerProfile;
use affix::process::ProcessMode;
use affix::registry::{PolicyRule, PolicyStore, RegistryError};
use affix::service::ServiceError;

const WAIT_TIMEOUT: u32 = 258;

fn key(process_id: u32, creation_time: u64) -> ProcessKey {
    ProcessKey { process_id, creation_time }
}

fn test_engine() -> RuleEngine {
    let mut engine = RuleEngine::new(DiagnosticPublisher::new(1, (0, 2, 0), 0));
    engine.finish(true, 1);
    engine
}

fn insert_test_process(engine: &mut RuleEngine, key: ProcessKey, checks: u8) {
    engine.applied.insert(
        key.pair(),
        AppliedProcess {
            image_name: "test.exe".to_string(),
            normalized_image_name: ImageName::parse("test.exe").unwrap(),
            image_path: r"C:\test.exe".to_string(),
            signature: AppliedProcessSignature {
                rule_image_name: "test.exe".to_string(),
                active_profile: PowerProfile::Balanced,
                profile_generation: 0,
                affinity: "unchanged".to_string(),
                mode: None,
            },
            enforcing: true,
            policy: ResolvedProcessPolicy::default(),
            process_handle: 7,
            reconciliation_checks: checks,
            priority_job: None,
            policy_failures: Vec::new(),
        },
    );
}

fn resolved(key: ProcessKey, image_name: &str) -> ResolvedProcess {
    ResolvedProcess {
        key,
        image_name: image_name.to_string(),
        image_path: format!(r"C:\{image_name}"),
        handle: 8,
    }
}

fn application() -> PolicyApplication {
    PolicyApplication { priority_job: None, failures: Vec::new() }
}

fn failure(component: &'static str) -> PolicyFailure {
    PolicyFailure { component, error: ServiceError::Poisoned(component.to_string()) }
}

fn rule(mode: Option<ProcessMode>) -> PolicyRule {
    PolicyRule { image_name: "test.exe".to_string(), affinity: None, mode }
}

#[test]
fn watcher_does_not_mutate_after_shutdown_wins_signal_race() {
    let mutations = Cell::new(0);
    let result = watcher_loop(
        || WatcherWait::Shutdown,
        || mutations.set(mutations.get() + 1),
    );
    assert_eq!(result, None);
    assert_eq!(mutations.get(), 0);
}

#[test]
fn watcher_reports_what_it_waited_for() {
    let mutations = Cell::new(0);
    assert_eq!(
        watcher_loop(|| watcher_wait(1), || mutations.set(mutations.get() + 1)),
        None
    );
    assert_eq!(mutations.get(), 1);
    assert_eq!(
        watcher_loop(
            || watcher_wait(WAIT_TIMEOUT),
            || mutations.set(mutations.get() + 1)
        ),
        Some(WAIT_TIMEOUT)
    );
    assert_eq!(mutations.get(), 1);
    assert_eq!(watcher_wait(0), WatcherWait::Shutdown);
}

#[test]
fn reconciliation_counter_stops_after_three_outcome_independent_checks() {
    for _outcome in ["clean", "drift", "query-failure"] {
        let mut counter = 0;
        assert_eq!(advance_reconciliation_check(&mut counter), Some(1));
        assert_eq!(advance_reconciliation_check(&mut counter), Some(2));
        assert_eq!(advance_reconciliation_check(&mut counter), Some(3));
        assert_eq!(advance_reconciliation_check(&mut counter), None);
        assert_eq!(counter, MAX_RECONCILIATION_CHECKS);
    }
}

#[test]
fn multiple_identity_drifts_coalesce_into_one_global_reconciliation() {
    let keys = (1..=3)
        .map(|process_id| key(process_id, u64::from(process_id)))
        .collect();
    let candidates = Cell::new(0);
    let globals = Cell::new(0);

    run_bounded_reconciliation_batch(
        keys,
        || false,
        |_| {
            candidates.set(candidates.get() + 1);
            Ok(true)
        },
        || {
            globals.set(globals.get() + 1);
            Ok(())
        },
    )
    .unwrap();

    assert_eq!(candidates.get(), 3);
    assert_eq!(globals.get(), 1);
}

#[test]
fn a_batch_ends_with_the_engine_and_tells_its_failures() {
    let candidates = Cell::new(0);
    let globals = Cell::new(0);
    let count = |_: ProcessKey| {
        candidates.set(candidates.get() + 1);
        Ok(false)
    };
    run_bounded_reconciliation_batch(
        vec![key(1, 1), key(2, 2)],
        || candidates.get() == 1,
        count,
        || {
            globals.set(globals.get() + 1);
            Ok(())
        },
    )
    .unwrap();
    assert_eq!(candidates.get(), 1);
    assert_eq!(globals.get(), 0);
    let failed = run_bounded_reconciliation_batch(
        vec![key(1, 1)],
        || false,
        |_| Err(ServiceError::Poisoned("applied".to_string())),
        || Ok(()),
    );
    assert_eq!(failed, Err(ServiceError::Poisoned("applied".to_string())));
}

#[test]
fn reused_pid_new_creation_time_has_fresh_counter() {
    let old = key(77, 100);
    let reused = key(77, 200);
    let mut checks = HashMap::from([(old, MAX_RECONCILIATION_CHECKS), (reused, 0)]);

    assert_eq!(
        advance_reconciliation_check(checks.get_mut(&old).unwrap()),
        None
    );
    assert_eq!(
        advance_reconciliation_check(checks.get_mut(&reused).unwrap()),
        Some(1)
    );
}

#[test]
fn scheduler_starts_parked_and_insertion_arms_without_resetting_active_batch() {
    let mut engine = test_engine();
    let first = key(81, 1);
    let second = key(82, 2);
    assert_eq!(engine.reconciler, Some(ReconcilerPhase::Parked));

    insert_test_process(&mut engine, first, 0);
    assert!(engine.notify_reconciler_of_insertion(first));
    engine.reconciler_woken(true, 2);
    assert_eq!(engine.reconciler, Some(ReconcilerPhase::WakePending));
    assert_eq!(engine.arm_reconciler_if_pending(3), WorkerStep::ArmTimer);
    assert!(engine.timer_armed(true, 3));
    assert_eq!(engine.reconciler, Some(ReconcilerPhase::TimerArmed));

    insert_test_process(&mut engine, second, 0);
    assert!(!engine.notify_reconciler_of_insertion(second));
    assert_eq!(engine.reconciler, Some(ReconcilerPhase::TimerArmed));
    assert_eq!(engine.diagnostics.insertions, 2);
    assert_eq!(engine.diagnostics.pending_instances, 2);
}

#[test]
fn profile_replacement_retains_counter_without_waking_parked_worker() {
    let mut engine = test_engine();
    let key = key(89, 9);
    insert_test_process(&mut engine, key, 2);
    let signature = AppliedProcessSignature::desired(
        &rule(None),
        ProfileSnapshot { profile: PowerProfile::Performance, generation: 1 },
    );
    assert_eq!(
        engine.begin_rule(key, &signature, ApplicationIntent::Observe),
        RuleStep::Resolve { priority_job: None }
    );
    assert!(!engine.apply_or_update_rule(
        resolved(key, "test.exe"),
        ImageName::parse("test.exe").unwrap(),
        signature,
        ResolvedProcessPolicy::default(),
        application(),
    ));
    assert_eq!(engine.applied[&key.pair()].reconciliation_checks, 2);
    assert_eq!(engine.reconciler, Some(ReconcilerPhase::Parked));
}

#[test]
fn removal_never_signals_and_last_pending_removal_cancels_timer() {
    let mut engine = test_engine();
    let key = key(83, 3);
    insert_test_process(&mut engine, key, 0);
    assert_eq!(engine.arm_reconciler_if_pending(2), WorkerStep::ArmTimer);
    assert!(engine.timer_armed(true, 2));

    let signals = engine.diagnostics.wake_signals;
    let removal = engine.remove_key(key, 3);
    assert!(removal.removed.is_some());
    assert!(removal.cancel_timer);
    assert_eq!(engine.diagnostics.wake_signals, signals);
    assert_eq!(engine.reconciler, Some(ReconcilerPhase::Parked));
}

#[test]
fn retained_priority_job_without_active_rule_is_not_reconciled() {
    let mut engine = test_engine();
    let key = key(84, 4);
    insert_test_process(&mut engine, key, 1);
    engine.applied.get_mut(&key.pair()).unwrap().priority_job = Some(21);
    assert_eq!(engine.retained_job(key), Some(21));

    engine.untrack_if_no_active_rule(key, None, 2);

    let retained = &engine.applied[&key.pair()];
    assert!(!retained.enforcing);
    assert_eq!(retained.reconciliation_checks, 1);
    assert_eq!(retained.policy, ResolvedProcessPolicy::default());
    assert_eq!(retained.priority_job, Some(21));
    assert!(engine.bounded_reconciliation_keys().is_empty());
    assert_eq!(engine.reconciler, Some(ReconcilerPhase::Parked));
}

#[test]
fn a_process_without_a_job_is_dropped_with_its_rule() {
    let mut engine = test_engine();
    let key = key(84, 4);
    insert_test_process(&mut engine, key, 1);
    engine.untrack_if_no_active_rule(key, None, 2);
    assert!(engine.applied.is_empty());
}

#[test]
fn identity_checks_distinguish_transient_failure_exit_and_pid_drift() {
    let mut engine = test_engine();
    let transient = key(85, 5);
    insert_test_process(&mut engine, transient, 0);
    let check = engine.reconcile_tracked_process(transient).unwrap();
    assert_eq!(check.original_handle, 7);
    assert_eq!(check.check, 1);
    assert!(!engine.reconcile_unresolved(WAIT_TIMEOUT));
    assert_eq!(engine.applied[&transient.pair()].reconciliation_checks, 1);

    let exited = key(86, 6);
    insert_test_process(&mut engine, exited, 0);
    assert!(engine.reconcile_tracked_process(exited).is_some());
    assert!(engine.reconcile_unresolved(0));

    let creation_mismatch = key(87, 7);
    insert_test_process(&mut engine, creation_mismatch, 0);
    let check = engine.reconcile_tracked_process(creation_mismatch).unwrap();
    assert!(engine.reconcile_identity(
        creation_mismatch,
        &check,
        &resolved(key(87, 8), "test.exe"),
    ));

    let basename_mismatch = key(88, 8);
    insert_test_process(&mut engine, basename_mismatch, 0);
    let check = engine.reconcile_tracked_process(basename_mismatch).unwrap();
    assert!(engine.reconcile_identity(
        basename_mismatch,
        &check,
        &resolved(basename_mismatch, "other.exe"),
    ));
    assert!(!engine.reconcile_identity(
        basename_mismatch,
        &check,
        &resolved(basename_mismatch, "TEST.exe"),
    ));
    assert_eq!(engine.diagnostics.identity_drifts, 3);
    assert_eq!(engine.diagnostics.candidates_checked, 4);
}

#[test]
fn a_drifted_policy_is_set_again() {
    let mut engine = test_engine();
    let key = key(90, 1);
    insert_test_process(&mut engine, key, 0);
    engine.applied.get_mut(&key.pair()).unwrap().priority_job = Some(30);
    assert!(engine.reconcile_tracked_process(key).is_some());
    let clean = PolicyInspection {
        drift: ProcessPolicyDrift::default(),
        failures: vec![failure("affinity")],
    };
    assert_eq!(engine.reconcile_inspected(key, clean), InspectionStep::Done);
    assert_eq!(engine.applied[&key.pair()].policy_failures.len(), 1);
    let drift = ProcessPolicyDrift { affinity: true, eco_qos: false, priority_class: true };
    let step = engine.reconcile_inspected(
        key,
        PolicyInspection { drift, failures: vec![failure("eco_qos")] },
    );
    let InspectionStep::Repair { priority_job, failures } = step else {
        panic!("expected a repair");
    };
    assert_eq!(priority_job, Some(30));
    engine.reconcile_repaired(
        key,
        drift,
        failures,
        PolicyApplication { priority_job: Some(31), failures: vec![failure("priority_class")] },
    );
    let process = &engine.applied[&key.pair()];
    assert_eq!(process.priority_job, Some(31));
    assert_eq!(
        process
            .policy_failures
            .iter()
            .map(|failure| failure.component)
            .collect::<Vec<_>>(),
        vec!["eco_qos", "priority_class"]
    );
    assert_eq!(process.reconciliation_checks, 1);
    assert_eq!(engine.diagnostics.drifted_components, 2);
    assert_eq!(engine.diagnostics.repair_candidates, 1);
}

#[test]
fn checks_end_and_the_worker_rests() {
    let mut engine = test_engine();
    let key = key(91, 1);
    insert_test_process(&mut engine, key, 0);
    assert!(engine.notify_reconciler_of_insertion(key));
    engine.reconciler_woken(true, 2);
    let mut step = engine.reconciliation_worker_loop(1, 3);
    for _ in 0..3 {
        assert_eq!(step, WorkerStep::ArmTimer);
        assert!(engine.timer_armed(true, 4));
        assert_eq!(
            engine.reconciliation_worker_loop(2, 5),
            WorkerStep::Reconcile
        );
        assert_eq!(engine.bounded_reconciliation_keys(), vec![key]);
        assert!(engine.reconcile_tracked_process(key).is_some());
        step = engine.pass_ended(true, 6);
    }
    assert_eq!(step, WorkerStep::Wait { cancel_timer: false });
    assert!(engine.reconcile_tracked_process(key).is_none());
    assert_eq!(engine.reconciler, Some(ReconcilerPhase::Parked));
    assert_eq!(engine.diagnostics.passes_completed, 3);
    assert_eq!(
        engine.reconciliation_worker_loop(0, 7),
        WorkerStep::Stop { cancel_timer: false }
    );
    assert_eq!(
        engine.reconciliation_worker_loop(WAIT_TIMEOUT, 8),
        WorkerStep::Stop { cancel_timer: true }
    );
    assert_eq!(engine.reconciler, Some(ReconcilerPhase::Disabled));
}

#[test]
fn worker_stops_where_the_state_was_left_behind() {
    let mut engine = test_engine();
    assert_eq!(
        engine.state_poisoned(9),
        WorkerStep::Stop { cancel_timer: true }
    );
    assert_eq!(engine.reconciler, Some(ReconcilerPhase::Disabled));
    assert_eq!(engine.diagnostics.worker_failures, 1);
    assert_eq!(
        engine.reconciliation_worker_loop(1, 10),
        WorkerStep::Stop { cancel_timer: false }
    );
}

/// A store with the same answer for every image.
struct OneAnswer(Result<bool, &'static str>);

impl PolicyStore for OneAnswer {
    fn get_policy(&self, _image: &ImageName) -> Result<Option<PolicyRule>, RegistryError> {
        match self.0 {
            Ok(true) => Ok(Some(rule(None))),
            Ok(false) => Ok(None),
            Err(message) => Err(RegistryError::InvalidValue(message.to_string())),
        }
    }
}

#[test]
fn an_enforced_rule_is_left_alone_until_it_is_forced() {
    let mut engine = test_engine();
    let key = key(92, 1);
    let found = resolved(key, "test.exe");
    let store = OneAnswer(Ok(true));
    let step = engine.apply_to_pid_inner(&store, &found, None, ApplicationIntent::Observe);
    let Some((image, PidStep::Rule { rule: selected, signature, step })) = step else {
        panic!("expected a rule");
    };
    assert_eq!(selected, rule(None));
    assert_eq!(step, RuleStep::Resolve { priority_job: None });
    assert!(engine.apply_or_update_rule(
        resolved(key, "test.exe"),
        image,
        signature,
        ResolvedProcessPolicy::default(),
        application(),
    ));
    let watch = engine.watch_process(key, true, 2);
    assert!(watch.watched && watch.wake && !watch.cancel_timer);
    let mut next = |engine: &mut RuleEngine, store: OneAnswer, intent: ApplicationIntent| {
        engine
            .apply_to_pid_inner(&store, &found, Some(key), intent)
            .unwrap()
            .1
    };
    let again = next(&mut engine, OneAnswer(Ok(true)), ApplicationIntent::Observe);
    assert!(matches!(again, PidStep::Rule { step: RuleStep::Unchanged, .. }));
    let forced = next(&mut engine, OneAnswer(Ok(true)), ApplicationIntent::Force);
    assert!(matches!(forced, PidStep::Rule { step: RuleStep::Reapply { .. }, .. }));
    assert!(engine.set_power_profile(PowerProfile::Performance));
    let changed = next(&mut engine, OneAnswer(Ok(true)), ApplicationIntent::Observe);
    assert!(matches!(changed, PidStep::Rule { step: RuleStep::Resolve { .. }, .. }));
    for store in [OneAnswer(Ok(false)), OneAnswer(Err("unknown mode"))] {
        let gone = next(&mut engine, store, ApplicationIntent::Observe);
        assert_eq!(gone, PidStep::Untrack { priority_job: None });
    }
    let reused = resolved(ProcessKey { process_id: 92, creation_time: 2 }, "test.exe");
    assert!(
        engine
            .apply_to_pid_inner(&OneAnswer(Ok(true)), &reused, Some(key), ApplicationIntent::Observe)
            .is_none()
    );
}

#[test]
fn only_a_resolved_process_is_identified() {
    let found = resolved(key(93, 2), "Test.EXE");
    assert!(identify(&found, None).unwrap().eq_ignore_ascii_case_str("test.exe"));
    assert!(identify(&found, Some(key(93, 2))).is_some());
    assert!(identify(&found, Some(key(93, 3))).is_none());
    assert!(identify(&resolved(key(93, 2), ""), None).is_none());
    let mut engine = test_engine();
    assert!(engine.apply_to_pid(93, 1));
    assert!(!engine.apply_to_pid(0, 1));
    assert!(!engine.apply_to_pid(1, 1));
    engine.shutdown(2);
    assert!(!engine.apply_to_pid(93, 1));
    assert!(!engine.reconcile_processes());
}

#[test]
fn an_ended_engine_keeps_its_processes() {
    let mut engine = test_engine();
    insert_test_process(&mut engine, key(94, 1), 0);
    let step = engine.shutdown(2);
    assert!(step.signal && step.cancel_timer);
    assert!(!engine.shutdown(3).signal);
    assert!(engine.remove_process_key(key(94, 1), 4).is_none());
    assert_eq!(engine.applied.len(), 1);
    assert_eq!(engine.diagnostics.worker_enabled, 0);
}

#[test]
fn a_watch_that_cannot_start_drops_the_process() {
    let mut engine = test_engine();
    insert_test_process(&mut engine, key(95, 1), 0);
    engine.arm_reconciler_if_pending(2);
    engine.timer_armed(true, 2);
    let watch = engine.watch_process(key(95, 1), false, 3);
    assert!(!watch.watched && watch.cancel_timer && !watch.wake);
    assert!(engine.applied.is_empty());
}

#[test]
fn profile_snapshot_is_fresh() {
    let mut engine = test_engine();
    assert!(engine.set_power_profile(PowerProfile::Performance));
    assert_eq!(
        engine.profile_snapshot(),
        ProfileSnapshot { profile: PowerProfile::Performance, generation: 1 }
    );
    assert!(!engine.set_power_profile(PowerProfile::Performance));
    assert!(engine.set_power_profile(PowerProfile::Balanced));
    assert_eq!(
        engine.profile_snapshot(),
        ProfileSnapshot { profile: PowerProfile::Balanced, generation: 2 }
    );
    assert_eq!(
        unpack_profile_state(pack_profile_state(PowerProfile::Efficiency, 5)),
        ProfileSnapshot { profile: PowerProfile::Efficiency, generation: 5 }
    );
    assert_eq!(pack_profile_state(PowerProfile::Performance, 1), 0x102);
}

#[test]
fn keys_fall_into_different_stripes() {
    assert_eq!(
        RuleEngine::mutation_stripe(key(51, 500)),
        RuleEngine::mutation_stripe(key(51, 500))
    );
    let first = RuleEngine::mutation_stripe(key(61, 600));
    assert_eq!(first, (61 ^ 600) % 64);
    assert!(
        (62..200)
            .any(|id| RuleEngine::mutation_stripe(key(id, u64::from(id) * 10)) != first)
    );
    assert_eq!(RuleEngine::mutation_stripe(key(0, 5 << 32)), 5);
}

#[test]
fn processes_that_were_not_seen_are_removed() {
    assert_eq!(
        remove_unobserved(
            &vec![key(1, 1), key(2, 2), key(3, 3)],
            &vec![key(2, 2), key(4, 4)],
        ),
        vec![key(1, 1), key(3, 3)]
    );
    let mut engine = test_engine();
    insert_test_process(&mut engine, key(3, 3), 3);
    insert_test_process(&mut engine, key(1, 1), 0);
    assert_eq!(
        engine.reconciliation_candidates(),
        vec![key(1, 1), key(3, 3)]
    );
    assert_eq!(engine.bounded_reconciliation_keys(), vec![key(1, 1)]);
}

#[test]
fn failures_are_told_in_their_order() {
    let failures = application_failures(
        Some(ServiceError::Poisoned("job".to_string())),
        vec![failure("affinity")],
        vec![failure("eco_qos")],
    );
    assert_eq!(failures.len(), 3);
    assert_eq!(failures[0].error, ServiceError::Poisoned("job".to_string()));
    assert_eq!(failures[1].component, "affinity");
    assert_eq!(failures[2].component, "eco_qos");
}

#[test]
fn the_signature_tells_rules_apart() {
    let profile = ProfileSnapshot { profile: PowerProfile::Balanced, generation: 0 };
    let plain = AppliedProcessSignature::desired(&rule(None), profile);
    let efficient = AppliedProcessSignature::desired(&rule(Some(ProcessMode::Efficiency)), profile);
    let masked = AppliedProcessSignature::desired(
        &PolicyRule {
            affinity: Some(AffinityPolicy::Mask(3)),
            ..rule(None)
        },
        profile,
    );
    assert!(plain.same(&AppliedProcessSignature::desired(&rule(None), profile)));
    assert!(!plain.same(&efficient));
    assert!(!plain.same(&masked));
    assert_eq!(plain.affinity, "unchanged");
    assert_eq!(masked.affinity, "0x3");
}
