//! Diagnostics of the running service.

use affix::bytes::ByteOrder;
use affix::diagnostics::{
    DIAGNOSTICS_MAGIC, DIAGNOSTICS_MAPPING_NAME, DiagnosticError, DiagnosticFailure,
    DiagnosticPhase, DiagnosticPublisher, DiagnosticSnapshot, claim_mapping, package_version,
    read_named_snapshot, read_snapshot, saturating_u32, unix_time_ms,
};

fn mapped(publisher: &DiagnosticPublisher, order: ByteOrder) -> [u8; 256] {
    let memory = publisher.memory(DIAGNOSTICS_MAGIC, order);
    let mut mapping = [0u8; 256];
    mapping.copy_from_slice(&memory);
    mapping
}

#[test]
fn publisher_and_reader_share_atomic_memory_snapshot() {
    for order in [ByteOrder::Little, ByteOrder::Big] {
        let mut publisher = DiagnosticPublisher::new(10, package_version("0.2.0"), 5);
        publisher.set_worker_enabled(true);
        publisher.set_phase(DiagnosticPhase::TimerArmed, 6);
        publisher.update_inventory(9, 8, 7);
        publisher.record_insertion();
        publisher.record_wake_signal();
        publisher.record_timer_arm();
        publisher.record_pass_started();
        publisher.record_pass_completed();
        publisher.record_candidate();
        publisher.record_clean_candidate();
        publisher.record_identity_drift();
        publisher.record_resolution_failure();
        publisher.record_policy_query_failures(2);
        publisher.record_repair(3, 1);
        publisher.record_global_reconciliation();

        let snapshot =
            read_named_snapshot(&mapped(&publisher, order), order, "test-mapping").unwrap();
        assert_eq!(snapshot.mapping, "test-mapping");
        assert_eq!(snapshot.service_pid, 10);
        assert_eq!(snapshot.package_version, package_version("0.2.0"));
        assert_eq!(snapshot.phase, "timer-armed");
        assert!(snapshot.worker_enabled);
        assert_eq!(snapshot.last_failure, "none");
        assert_eq!(snapshot.tracked_instances, 9);
        assert_eq!(snapshot.enforcing_instances, 8);
        assert_eq!(snapshot.pending_instances, 7);
        assert_eq!(snapshot.started_unix_ms, 5);
        assert_eq!(snapshot.last_transition_unix_ms, 6);
        assert_eq!(snapshot.insertions, 1);
        assert_eq!(snapshot.wake_signals, 1);
        assert_eq!(snapshot.timer_arms, 1);
        assert_eq!(snapshot.passes_started, 1);
        assert_eq!(snapshot.passes_completed, 1);
        assert_eq!(snapshot.candidates_checked, 1);
        assert_eq!(snapshot.clean_candidates, 1);
        assert_eq!(snapshot.identity_drifts, 1);
        assert_eq!(snapshot.resolution_failures, 1);
        assert_eq!(snapshot.policy_query_failures, 2);
        assert_eq!(snapshot.repair_candidates, 1);
        assert_eq!(snapshot.drifted_components, 3);
        assert_eq!(snapshot.setter_failures, 1);
        assert_eq!(snapshot.global_reconciliations, 1);
    }
}

#[test]
fn snapshot_text_is_machine_readable_without_disk_output() {
    let snapshot = DiagnosticSnapshot {
        mapping: "test",
        abi_version: 1,
        service_pid: 10,
        package_version: (0, 2, 0),
        phase: "parked",
        worker_enabled: true,
        last_failure: "none",
        tracked_instances: 1,
        enforcing_instances: 1,
        pending_instances: 0,
        started_unix_ms: 1,
        last_transition_unix_ms: 2,
        insertions: 1,
        wake_signals: 1,
        timer_arms: 3,
        timer_cancellations: 0,
        passes_started: 3,
        passes_completed: 3,
        candidates_checked: 3,
        clean_candidates: 3,
        identity_drifts: 0,
        resolution_failures: 0,
        policy_query_failures: 0,
        repair_candidates: 0,
        drifted_components: 0,
        setter_failures: 0,
        global_reconciliations: 0,
        worker_failures: 0,
    };
    let text = snapshot.to_text();
    assert!(text.contains("package_version=0.2.0"));
    assert!(text.contains("phase=parked"));
    assert!(text.contains("passes_completed=3"));
    assert!(!text.contains('\0'));
    assert!(text.starts_with("mapping=test\nabi_version=1\nservice_pid=10\n"));
    assert!(text.ends_with("\nworker_failures=0"));
}

#[test]
fn foreign_memory_is_refused() {
    let order = ByteOrder::Little;
    let publisher = DiagnosticPublisher::new(10, (0, 2, 0), 5);
    let reason = |memory: &[u8; 256]| match read_named_snapshot(memory, order, "test") {
        Err(DiagnosticError::InvalidMapping(reason)) => reason,
        _ => panic!("expected an invalid mapping"),
    };
    assert_eq!(reason(&[0u8; 256]), "magic mismatch");
    let mut memory = mapped(&publisher, order);
    memory[8] = 2;
    assert_eq!(reason(&memory), "unsupported diagnostics ABI version");
    let mut memory = mapped(&publisher, order);
    memory[12] = 1;
    assert_eq!(reason(&memory), "diagnostics structure size mismatch");
    let retired = publisher.memory(0, order);
    assert_eq!(&retired[0..8], &[0u8; 8]);
    assert_eq!(
        DiagnosticError::InvalidMapping("magic mismatch").message(),
        "invalid diagnostics mapping: magic mismatch"
    );
}

#[test]
fn the_service_snapshot_names_its_mapping() {
    let order = ByteOrder::Little;
    let mut publisher = DiagnosticPublisher::new(10, (0, 2, 0), 5);
    publisher.record_worker_failure(DiagnosticFailure::TimerArm);
    publisher.retire(9);
    let snapshot = read_snapshot(Ok(mapped(&publisher, order)), order).unwrap();
    assert_eq!(snapshot.mapping, DIAGNOSTICS_MAPPING_NAME);
    assert_eq!(snapshot.worker_failures, 1);
    assert_eq!(snapshot.last_failure, DiagnosticFailure::TimerArm.as_str());
    assert_eq!(snapshot.last_transition_unix_ms, 9);
    let missing = read_snapshot(
        Err(DiagnosticError::Windows {
            operation: "OpenFileMappingW",
            source: "not found".to_string(),
        }),
        order,
    );
    match missing {
        Err(error) => assert_eq!(error.message(), "OpenFileMappingW: not found"),
        Ok(_) => panic!("expected the failure"),
    }
}

#[test]
fn a_mapping_in_use_is_not_taken() {
    assert!(claim_mapping("name", false, DIAGNOSTICS_MAGIC).is_ok());
    assert!(claim_mapping("name", true, 0).is_ok());
    match claim_mapping("name", true, DIAGNOSTICS_MAGIC) {
        Err(error) => assert_eq!(error.message(), "mapping already exists: name"),
        Ok(()) => panic!("expected a refusal"),
    }
}

#[test]
fn numbers_of_the_diagnostics_are_bounded() {
    assert_eq!(package_version("1.2.3-rc.4"), (1, 2, 3));
    assert_eq!(package_version("1.x"), (1, 0, 0));
    assert_eq!(unix_time_ms(None), 0);
    assert_eq!(unix_time_ms(Some(17)), 17);
    assert_eq!(unix_time_ms(Some(u128::MAX)), u64::MAX);
    assert_eq!(saturating_u32(7), 7);
    assert_eq!(saturating_u32(usize::MAX), u32::MAX);
}

#[test]
fn phases_and_failures_survive_their_codes() {
    for phase in [
        DiagnosticPhase::Parked,
        DiagnosticPhase::WakePending,
        DiagnosticPhase::TimerArmed,
        DiagnosticPhase::Running,
        DiagnosticPhase::Disabled,
    ] {
        assert_eq!(DiagnosticPhase::from_u32(phase.to_u32()), phase);
    }
    assert_eq!(DiagnosticFailure::from_u32(0), DiagnosticFailure::Nothing);
    assert_eq!(DiagnosticFailure::Nothing.as_str(), "none");
}
