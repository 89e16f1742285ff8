//! What holds of the diagnostics: what is counted, published, read and printed.

use vstd::prelude::*;

use crate::bytes::ByteOrder;
use crate::diagnostics;
use crate::diagnostics::{
    DiagnosticError, DiagnosticFailure, DiagnosticPhase, DiagnosticPublisher, DiagnosticSnapshot,
};
use crate::text;

verus! {

/// One more, up to what can be counted.
pub open spec fn one_more(count: u64) -> int {
    if count < u64::MAX {
        count + 1
    } else {
        count as int
    }
}

/// The sum, up to what can be counted.
pub open spec fn added(count: u64, more: int) -> int {
    if count + more <= u64::MAX {
        count + more
    } else {
        u64::MAX as int
    }
}

/// The diagnostics differ at most in the counters.
pub open spec fn same_but_counters(a: DiagnosticPublisher, b: DiagnosticPublisher) -> bool {
    &&& a.service_pid == b.service_pid
    &&& a.package_version_major == b.package_version_major
    &&& a.package_version_minor == b.package_version_minor
    &&& a.package_version_patch == b.package_version_patch
    &&& a.phase == b.phase
    &&& a.worker_enabled == b.worker_enabled
    &&& a.last_failure == b.last_failure
    &&& a.tracked_instances == b.tracked_instances
    &&& a.enforcing_instances == b.enforcing_instances
    &&& a.pending_instances == b.pending_instances
    &&& a.started_unix_ms == b.started_unix_ms
    &&& a.last_transition_unix_ms == b.last_transition_unix_ms
}

/// What `record_insertion` counts is one of `insertions`, and nothing else changes.
pub proof fn law_insertion_is_counted(diagnostics: &mut DiagnosticPublisher)
    requires
        call_ensures(DiagnosticPublisher::record_insertion, (diagnostics,), ()),
    ensures
        final(diagnostics).insertions == one_more(old(diagnostics).insertions),
        same_but_counters(*final(diagnostics), *old(diagnostics)),
        final(diagnostics).wake_signals == old(diagnostics).wake_signals,
        final(diagnostics).timer_arms == old(diagnostics).timer_arms,
        final(diagnostics).timer_cancellations == old(diagnostics).timer_cancellations,
        final(diagnostics).passes_started == old(diagnostics).passes_started,
        final(diagnostics).passes_completed == old(diagnostics).passes_completed,
        final(diagnostics).candidates_checked == old(diagnostics).candidates_checked,
        final(diagnostics).clean_candidates == old(diagnostics).clean_candidates,
        final(diagnostics).identity_drifts == old(diagnostics).identity_drifts,
        final(diagnostics).resolution_failures == old(diagnostics).resolution_failures,
        final(diagnostics).policy_query_failures == old(diagnostics).policy_query_failures,
        final(diagnostics).repair_candidates == old(diagnostics).repair_candidates,
        final(diagnostics).drifted_components == old(diagnostics).drifted_components,
        final(diagnostics).setter_failures == old(diagnostics).setter_failures,
        final(diagnostics).global_reconciliations == old(diagnostics).global_reconciliations,
        final(diagnostics).worker_failures == old(diagnostics).worker_failures,
{
}

/// What `record_wake_signal` counts is one of `wake_signals`, and nothing else changes.
pub proof fn law_wake_signal_is_counted(diagnostics: &mut DiagnosticPublisher)
    requires
        call_ensures(DiagnosticPublisher::record_wake_signal, (diagnostics,), ()),
    ensures
        final(diagnostics).wake_signals == one_more(old(diagnostics).wake_signals),
        same_but_counters(*final(diagnostics), *old(diagnostics)),
        final(diagnostics).insertions == old(diagnostics).insertions,
        final(diagnostics).timer_arms == old(diagnostics).timer_arms,
        final(diagnostics).timer_cancellations == old(diagnostics).timer_cancellations,
        final(diagnostics).passes_started == old(diagnostics).passes_started,
        final(diagnostics).passes_completed == old(diagnostics).passes_completed,
        final(diagnostics).candidates_checked == old(diagnostics).candidates_checked,
        final(diagnostics).clean_candidates == old(diagnostics).clean_candidates,
        final(diagnostics).identity_drifts == old(diagnostics).identity_drifts,
        final(diagnostics).resolution_failures == old(diagnostics).resolution_failures,
        final(diagnostics).policy_query_failures == old(diagnostics).policy_query_failures,
        final(diagnostics).repair_candidates == old(diagnostics).repair_candidates,
        final(diagnostics).drifted_components == old(diagnostics).drifted_components,
        final(diagnostics).setter_failures == old(diagnostics).setter_failures,
        final(diagnostics).global_reconciliations == old(diagnostics).global_reconciliations,
        final(diagnostics).worker_failures == old(diagnostics).worker_failures,
{
}

/// What `record_timer_arm` counts is one of `timer_arms`, and nothing else changes.
pub proof fn law_timer_arm_is_counted(diagnostics: &mut DiagnosticPublisher)
    requires
        call_ensures(DiagnosticPublisher::record_timer_arm, (diagnostics,), ()),
    ensures
        final(diagnostics).timer_arms == one_more(old(diagnostics).timer_arms),
        same_but_counters(*final(diagnostics), *old(diagnostics)),
        final(diagnostics).insertions == old(diagnostics).insertions,
        final(diagnostics).wake_signals == old(diagnostics).wake_signals,
        final(diagnostics).timer_cancellations == old(diagnostics).timer_cancellations,
        final(diagnostics).passes_started == old(diagnostics).passes_started,
        final(diagnostics).passes_completed == old(diagnostics).passes_completed,
        final(diagnostics).candidates_checked == old(diagnostics).candidates_checked,
        final(diagnostics).clean_candidates == old(diagnostics).clean_candidates,
        final(diagnostics).identity_drifts == old(diagnostics).identity_drifts,
        final(diagnostics).resolution_failures == old(diagnostics).resolution_failures,
        final(diagnostics).policy_query_failures == old(diagnostics).policy_query_failures,
        final(diagnostics).repair_candidates == old(diagnostics).repair_candidates,
        final(diagnostics).drifted_components == old(diagnostics).drifted_components,
        final(diagnostics).setter_failures == old(diagnostics).setter_failures,
        final(diagnostics).global_reconciliations == old(diagnostics).global_reconciliations,
        final(diagnostics).worker_failures == old(diagnostics).worker_failures,
{
}

/// What `record_timer_cancellation` counts is one of `timer_cancellations`, and nothing else changes.
pub proof fn law_timer_cancellation_is_counted(diagnostics: &mut DiagnosticPublisher)
    requires
        call_ensures(DiagnosticPublisher::record_timer_cancellation, (diagnostics,), ()),
    ensures
        final(diagnostics).timer_cancellations == one_more(old(diagnostics).timer_cancellations),
        same_but_counters(*final(diagnostics), *old(diagnostics)),
        final(diagnostics).insertions == old(diagnostics).insertions,
        final(diagnostics).wake_signals == old(diagnostics).wake_signals,
        final(diagnostics).timer_arms == old(diagnostics).timer_arms,
        final(diagnostics).passes_started == old(diagnostics).passes_started,
        final(diagnostics).passes_completed == old(diagnostics).passes_completed,
        final(diagnostics).candidates_checked == old(diagnostics).candidates_checked,
        final(diagnostics).clean_candidates == old(diagnostics).clean_candidates,
        final(diagnostics).identity_drifts == old(diagnostics).identity_drifts,
        final(diagnostics).resolution_failures == old(diagnostics).resolution_failures,
        final(diagnostics).policy_query_failures == old(diagnostics).policy_query_failures,
        final(diagnostics).repair_candidates == old(diagnostics).repair_candidates,
        final(diagnostics).drifted_components == old(diagnostics).drifted_components,
        final(diagnostics).setter_failures == old(diagnostics).setter_failures,
        final(diagnostics).global_reconciliations == old(diagnostics).global_reconciliations,
        final(diagnostics).worker_failures == old(diagnostics).worker_failures,
{
}

/// What `record_pass_started` counts is one of `passes_started`, and nothing else changes.
pub proof fn law_pass_started_is_counted(diagnostics: &mut DiagnosticPublisher)
    requires
        call_ensures(DiagnosticPublisher::record_pass_started, (diagnostics,), ()),
    ensures
        final(diagnostics).passes_started == one_more(old(diagnostics).passes_started),
        same_but_counters(*final(diagnostics), *old(diagnostics)),
        final(diagnostics).insertions == old(diagnostics).insertions,
        final(diagnostics).wake_signals == old(diagnostics).wake_signals,
        final(diagnostics).timer_arms == old(diagnostics).timer_arms,
        final(diagnostics).timer_cancellations == old(diagnostics).timer_cancellations,
        final(diagnostics).passes_completed == old(diagnostics).passes_completed,
        final(diagnostics).candidates_checked == old(diagnostics).candidates_checked,
        final(diagnostics).clean_candidates == old(diagnostics).clean_candidates,
        final(diagnostics).identity_drifts == old(diagnostics).identity_drifts,
        final(diagnostics).resolution_failures == old(diagnostics).resolution_failures,
        final(diagnostics).policy_query_failures == old(diagnostics).policy_query_failures,
        final(diagnostics).repair_candidates == old(diagnostics).repair_candidates,
        final(diagnostics).drifted_components == old(diagnostics).drifted_components,
        final(diagnostics).setter_failures == old(diagnostics).setter_failures,
        final(diagnostics).global_reconciliations == old(diagnostics).global_reconciliations,
        final(diagnostics).worker_failures == old(diagnostics).worker_failures,
{
}

/// What `record_pass_completed` counts is one of `passes_completed`, and nothing else changes.
pub proof fn law_pass_completed_is_counted(diagnostics: &mut DiagnosticPublisher)
    requires
        call_ensures(DiagnosticPublisher::record_pass_completed, (diagnostics,), ()),
    ensures
        final(diagnostics).passes_completed == one_more(old(diagnostics).passes_completed),
        same_but_counters(*final(diagnostics), *old(diagnostics)),
        final(diagnostics).insertions == old(diagnostics).insertions,
        final(diagnostics).wake_signals == old(diagnostics).wake_signals,
        final(diagnostics).timer_arms == old(diagnostics).timer_arms,
        final(diagnostics).timer_cancellations == old(diagnostics).timer_cancellations,
        final(diagnostics).passes_started == old(diagnostics).passes_started,
        final(diagnostics).candidates_checked == old(diagnostics).candidates_checked,
        final(diagnostics).clean_candidates == old(diagnostics).clean_candidates,
        final(diagnostics).identity_drifts == old(diagnostics).identity_drifts,
        final(diagnostics).resolution_failures == old(diagnostics).resolution_failures,
        final(diagnostics).policy_query_failures == old(diagnostics).policy_query_failures,
        final(diagnostics).repair_candidates == old(diagnostics).repair_candidates,
        final(diagnostics).drifted_components == old(diagnostics).drifted_components,
        final(diagnostics).setter_failures == old(diagnostics).setter_failures,
        final(diagnostics).global_reconciliations == old(diagnostics).global_reconciliations,
        final(diagnostics).worker_failures == old(diagnostics).worker_failures,
{
}

/// What `record_candidate` counts is one of `candidates_checked`, and nothing else changes.
pub proof fn law_candidate_is_counted(diagnostics: &mut DiagnosticPublisher)
    requires
        call_ensures(DiagnosticPublisher::record_candidate, (diagnostics,), ()),
    ensures
        final(diagnostics).candidates_checked == one_more(old(diagnostics).candidates_checked),
        same_but_counters(*final(diagnostics), *old(diagnostics)),
        final(diagnostics).insertions == old(diagnostics).insertions,
        final(diagnostics).wake_signals == old(diagnostics).wake_signals,
        final(diagnostics).timer_arms == old(diagnostics).timer_arms,
        final(diagnostics).timer_cancellations == old(diagnostics).timer_cancellations,
        final(diagnostics).passes_started == old(diagnostics).passes_started,
        final(diagnostics).passes_completed == old(diagnostics).passes_completed,
        final(diagnostics).clean_candidates == old(diagnostics).clean_candidates,
        final(diagnostics).identity_drifts == old(diagnostics).identity_drifts,
        final(diagnostics).resolution_failures == old(diagnostics).resolution_failures,
        final(diagnostics).policy_query_failures == old(diagnostics).policy_query_failures,
        final(diagnostics).repair_candidates == old(diagnostics).repair_candidates,
        final(diagnostics).drifted_components == old(diagnostics).drifted_components,
        final(diagnostics).setter_failures == old(diagnostics).setter_failures,
        final(diagnostics).global_reconciliations == old(diagnostics).global_reconciliations,
        final(diagnostics).worker_failures == old(diagnostics).worker_failures,
{
}

/// What `record_clean_candidate` counts is one of `clean_candidates`, and nothing else changes.
pub proof fn law_clean_candidate_is_counted(diagnostics: &mut DiagnosticPublisher)
    requires
        call_ensures(DiagnosticPublisher::record_clean_candidate, (diagnostics,), ()),
    ensures
        final(diagnostics).clean_candidates == one_more(old(diagnostics).clean_candidates),
        same_but_counters(*final(diagnostics), *old(diagnostics)),
        final(diagnostics).insertions == old(diagnostics).insertions,
        final(diagnostics).wake_signals == old(diagnostics).wake_signals,
        final(diagnostics).timer_arms == old(diagnostics).timer_arms,
        final(diagnostics).timer_cancellations == old(diagnostics).timer_cancellations,
        final(diagnostics).passes_started == old(diagnostics).passes_started,
        final(diagnostics).passes_completed == old(diagnostics).passes_completed,
        final(diagnostics).candidates_checked == old(diagnostics).candidates_checked,
        final(diagnostics).identity_drifts == old(diagnostics).identity_drifts,
        final(diagnostics).resolution_failures == old(diagnostics).resolution_failures,
        final(diagnostics).policy_query_failures == old(diagnostics).policy_query_failures,
        final(diagnostics).repair_candidates == old(diagnostics).repair_candidates,
        final(diagnostics).drifted_components == old(diagnostics).drifted_components,
        final(diagnostics).setter_failures == old(diagnostics).setter_failures,
        final(diagnostics).global_reconciliations == old(diagnostics).global_reconciliations,
        final(diagnostics).worker_failures == old(diagnostics).worker_failures,
{
}

/// What `record_identity_drift` counts is one of `identity_drifts`, and nothing else changes.
pub proof fn law_identity_drift_is_counted(diagnostics: &mut DiagnosticPublisher)
    requires
        call_ensures(DiagnosticPublisher::record_identity_drift, (diagnostics,), ()),
    ensures
        final(diagnostics).identity_drifts == one_more(old(diagnostics).identity_drifts),
        same_but_counters(*final(diagnostics), *old(diagnostics)),
        final(diagnostics).insertions == old(diagnostics).insertions,
        final(diagnostics).wake_signals == old(diagnostics).wake_signals,
        final(diagnostics).timer_arms == old(diagnostics).timer_arms,
        final(diagnostics).timer_cancellations == old(diagnostics).timer_cancellations,
        final(diagnostics).passes_started == old(diagnostics).passes_started,
        final(diagnostics).passes_completed == old(diagnostics).passes_completed,
        final(diagnostics).candidates_checked == old(diagnostics).candidates_checked,
        final(diagnostics).clean_candidates == old(diagnostics).clean_candidates,
        final(diagnostics).resolution_failures == old(diagnostics).resolution_failures,
        final(diagnostics).policy_query_failures == old(diagnostics).policy_query_failures,
        final(diagnostics).repair_candidates == old(diagnostics).repair_candidates,
        final(diagnostics).drifted_components == old(diagnostics).drifted_components,
        final(diagnostics).setter_failures == old(diagnostics).setter_failures,
        final(diagnostics).global_reconciliations == old(diagnostics).global_reconciliations,
        final(diagnostics).worker_failures == old(diagnostics).worker_failures,
{
}

/// What `record_resolution_failure` counts is one of `resolution_failures`, and nothing else changes.
pub proof fn law_resolution_failure_is_counted(diagnostics: &mut DiagnosticPublisher)
    requires
        call_ensures(DiagnosticPublisher::record_resolution_failure, (diagnostics,), ()),
    ensures
        final(diagnostics).resolution_failures == one_more(old(diagnostics).resolution_failures),
        same_but_counters(*final(diagnostics), *old(diagnostics)),
        final(diagnostics).insertions == old(diagnostics).insertions,
        final(diagnostics).wake_signals == old(diagnostics).wake_signals,
        final(diagnostics).timer_arms == old(diagnostics).timer_arms,
        final(diagnostics).timer_cancellations == old(diagnostics).timer_cancellations,
        final(diagnostics).passes_started == old(diagnostics).passes_started,
        final(diagnostics).passes_completed == old(diagnostics).passes_completed,
        final(diagnostics).candidates_checked == old(diagnostics).candidates_checked,
        final(diagnostics).clean_candidates == old(diagnostics).clean_candidates,
        final(diagnostics).identity_drifts == old(diagnostics).identity_drifts,
        final(diagnostics).policy_query_failures == old(diagnostics).policy_query_failures,
        final(diagnostics).repair_candidates == old(diagnostics).repair_candidates,
        final(diagnostics).drifted_components == old(diagnostics).drifted_components,
        final(diagnostics).setter_failures == old(diagnostics).setter_failures,
        final(diagnostics).global_reconciliations == old(diagnostics).global_reconciliations,
        final(diagnostics).worker_failures == old(diagnostics).worker_failures,
{
}

/// What `record_global_reconciliation` counts is one of `global_reconciliations`, and nothing else changes.
pub proof fn law_global_reconciliation_is_counted(diagnostics: &mut DiagnosticPublisher)
    requires
        call_ensures(DiagnosticPublisher::record_global_reconciliation, (diagnostics,), ()),
    ensures
        final(diagnostics).global_reconciliations == one_more(old(diagnostics).global_reconciliations),
        same_but_counters(*final(diagnostics), *old(diagnostics)),
        final(diagnostics).insertions == old(diagnostics).insertions,
        final(diagnostics).wake_signals == old(diagnostics).wake_signals,
        final(diagnostics).timer_arms == old(diagnostics).timer_arms,
        final(diagnostics).timer_cancellations == old(diagnostics).timer_cancellations,
        final(diagnostics).passes_started == old(diagnostics).passes_started,
        final(diagnostics).passes_completed == old(diagnostics).passes_completed,
        final(diagnostics).candidates_checked == old(diagnostics).candidates_checked,
        final(diagnostics).clean_candidates == old(diagnostics).clean_candidates,
        final(diagnostics).identity_drifts == old(diagnostics).identity_drifts,
        final(diagnostics).resolution_failures == old(diagnostics).resolution_failures,
        final(diagnostics).policy_query_failures == old(diagnostics).policy_query_failures,
        final(diagnostics).repair_candidates == old(diagnostics).repair_candidates,
        final(diagnostics).drifted_components == old(diagnostics).drifted_components,
        final(diagnostics).setter_failures == old(diagnostics).setter_failures,
        final(diagnostics).worker_failures == old(diagnostics).worker_failures,
{
}

/// A repair counts once, with each part that was lost and each setting that failed.
pub proof fn law_repair_is_counted(diagnostics: &mut DiagnosticPublisher, lost: u64, failed: usize)
    requires
        call_ensures(DiagnosticPublisher::record_repair, (diagnostics, lost, failed), ()),
    ensures
        final(diagnostics).repair_candidates == one_more(old(diagnostics).repair_candidates),
        final(diagnostics).drifted_components == added(
            old(diagnostics).drifted_components,
            lost as int,
        ),
        final(diagnostics).setter_failures == added(
            old(diagnostics).setter_failures,
            failed as int,
        ),
        final(diagnostics).service_pid == old(diagnostics).service_pid,
        final(diagnostics).package_version_major == old(diagnostics).package_version_major,
        final(diagnostics).package_version_minor == old(diagnostics).package_version_minor,
        final(diagnostics).package_version_patch == old(diagnostics).package_version_patch,
        final(diagnostics).phase == old(diagnostics).phase,
        final(diagnostics).worker_enabled == old(diagnostics).worker_enabled,
        final(diagnostics).last_failure == old(diagnostics).last_failure,
        final(diagnostics).tracked_instances == old(diagnostics).tracked_instances,
        final(diagnostics).enforcing_instances == old(diagnostics).enforcing_instances,
        final(diagnostics).pending_instances == old(diagnostics).pending_instances,
        final(diagnostics).started_unix_ms == old(diagnostics).started_unix_ms,
        final(diagnostics).last_transition_unix_ms == old(diagnostics).last_transition_unix_ms,
        final(diagnostics).insertions == old(diagnostics).insertions,
        final(diagnostics).wake_signals == old(diagnostics).wake_signals,
        final(diagnostics).timer_arms == old(diagnostics).timer_arms,
        final(diagnostics).timer_cancellations == old(diagnostics).timer_cancellations,
        final(diagnostics).passes_started == old(diagnostics).passes_started,
        final(diagnostics).passes_completed == old(diagnostics).passes_completed,
        final(diagnostics).candidates_checked == old(diagnostics).candidates_checked,
        final(diagnostics).clean_candidates == old(diagnostics).clean_candidates,
        final(diagnostics).identity_drifts == old(diagnostics).identity_drifts,
        final(diagnostics).resolution_failures == old(diagnostics).resolution_failures,
        final(diagnostics).policy_query_failures == old(diagnostics).policy_query_failures,
        final(diagnostics).global_reconciliations == old(diagnostics).global_reconciliations,
        final(diagnostics).worker_failures == old(diagnostics).worker_failures,
{
}

/// Failed queries are counted one by one.
pub proof fn law_failed_queries_are_counted(diagnostics: &mut DiagnosticPublisher, failed: usize)
    requires
        call_ensures(
            DiagnosticPublisher::record_policy_query_failures,
            (diagnostics, failed),
            (),
        ),
    ensures
        final(diagnostics).policy_query_failures == added(
            old(diagnostics).policy_query_failures,
            failed as int,
        ),
        final(diagnostics).service_pid == old(diagnostics).service_pid,
        final(diagnostics).package_version_major == old(diagnostics).package_version_major,
        final(diagnostics).package_version_minor == old(diagnostics).package_version_minor,
        final(diagnostics).package_version_patch == old(diagnostics).package_version_patch,
        final(diagnostics).phase == old(diagnostics).phase,
        final(diagnostics).worker_enabled == old(diagnostics).worker_enabled,
        final(diagnostics).last_failure == old(diagnostics).last_failure,
        final(diagnostics).tracked_instances == old(diagnostics).tracked_instances,
        final(diagnostics).enforcing_instances == old(diagnostics).enforcing_instances,
        final(diagnostics).pending_instances == old(diagnostics).pending_instances,
        final(diagnostics).started_unix_ms == old(diagnostics).started_unix_ms,
        final(diagnostics).last_transition_unix_ms == old(diagnostics).last_transition_unix_ms,
        final(diagnostics).insertions == old(diagnostics).insertions,
        final(diagnostics).wake_signals == old(diagnostics).wake_signals,
        final(diagnostics).timer_arms == old(diagnostics).timer_arms,
        final(diagnostics).timer_cancellations == old(diagnostics).timer_cancellations,
        final(diagnostics).passes_started == old(diagnostics).passes_started,
        final(diagnostics).passes_completed == old(diagnostics).passes_completed,
        final(diagnostics).candidates_checked == old(diagnostics).candidates_checked,
        final(diagnostics).clean_candidates == old(diagnostics).clean_candidates,
        final(diagnostics).identity_drifts == old(diagnostics).identity_drifts,
        final(diagnostics).resolution_failures == old(diagnostics).resolution_failures,
        final(diagnostics).repair_candidates == old(diagnostics).repair_candidates,
        final(diagnostics).drifted_components == old(diagnostics).drifted_components,
        final(diagnostics).setter_failures == old(diagnostics).setter_failures,
        final(diagnostics).global_reconciliations == old(diagnostics).global_reconciliations,
        final(diagnostics).worker_failures == old(diagnostics).worker_failures,
{
}

/// A failure of the worker is counted, and the last one is told by its number.
pub proof fn law_worker_failure_is_counted(
    diagnostics: &mut DiagnosticPublisher,
    failure: DiagnosticFailure,
    number: u32,
)
    requires
        call_ensures(DiagnosticPublisher::record_worker_failure, (diagnostics, failure), ()),
        call_ensures(DiagnosticFailure::to_u32, (failure,), number),
    ensures
        final(diagnostics).worker_failures == one_more(old(diagnostics).worker_failures),
        final(diagnostics).last_failure == number,
        final(diagnostics).service_pid == old(diagnostics).service_pid,
        final(diagnostics).package_version_major == old(diagnostics).package_version_major,
        final(diagnostics).package_version_minor == old(diagnostics).package_version_minor,
        final(diagnostics).package_version_patch == old(diagnostics).package_version_patch,
        final(diagnostics).phase == old(diagnostics).phase,
        final(diagnostics).worker_enabled == old(diagnostics).worker_enabled,
        final(diagnostics).tracked_instances == old(diagnostics).tracked_instances,
        final(diagnostics).enforcing_instances == old(diagnostics).enforcing_instances,
        final(diagnostics).pending_instances == old(diagnostics).pending_instances,
        final(diagnostics).started_unix_ms == old(diagnostics).started_unix_ms,
        final(diagnostics).last_transition_unix_ms == old(diagnostics).last_transition_unix_ms,
        final(diagnostics).insertions == old(diagnostics).insertions,
        final(diagnostics).wake_signals == old(diagnostics).wake_signals,
        final(diagnostics).timer_arms == old(diagnostics).timer_arms,
        final(diagnostics).timer_cancellations == old(diagnostics).timer_cancellations,
        final(diagnostics).passes_started == old(diagnostics).passes_started,
        final(diagnostics).passes_completed == old(diagnostics).passes_completed,
        final(diagnostics).candidates_checked == old(diagnostics).candidates_checked,
        final(diagnostics).clean_candidates == old(diagnostics).clean_candidates,
        final(diagnostics).identity_drifts == old(diagnostics).identity_drifts,
        final(diagnostics).resolution_failures == old(diagnostics).resolution_failures,
        final(diagnostics).policy_query_failures == old(diagnostics).policy_query_failures,
        final(diagnostics).repair_candidates == old(diagnostics).repair_candidates,
        final(diagnostics).drifted_components == old(diagnostics).drifted_components,
        final(diagnostics).setter_failures == old(diagnostics).setter_failures,
        final(diagnostics).global_reconciliations == old(diagnostics).global_reconciliations,
{
}

/// A phase is told by its number, with the time at which it began.
pub proof fn law_phase_is_told(
    diagnostics: &mut DiagnosticPublisher,
    phase: DiagnosticPhase,
    now: u64,
    number: u32,
)
    requires
        call_ensures(DiagnosticPublisher::set_phase, (diagnostics, phase, now), ()),
        call_ensures(DiagnosticPhase::to_u32, (phase,), number),
    ensures
        final(diagnostics).phase == number,
        final(diagnostics).last_transition_unix_ms == now,
        final(diagnostics).service_pid == old(diagnostics).service_pid,
        final(diagnostics).package_version_major == old(diagnostics).package_version_major,
        final(diagnostics).package_version_minor == old(diagnostics).package_version_minor,
        final(diagnostics).package_version_patch == old(diagnostics).package_version_patch,
        final(diagnostics).worker_enabled == old(diagnostics).worker_enabled,
        final(diagnostics).last_failure == old(diagnostics).last_failure,
        final(diagnostics).tracked_instances == old(diagnostics).tracked_instances,
        final(diagnostics).enforcing_instances == old(diagnostics).enforcing_instances,
        final(diagnostics).pending_instances == old(diagnostics).pending_instances,
        final(diagnostics).started_unix_ms == old(diagnostics).started_unix_ms,
        final(diagnostics).insertions == old(diagnostics).insertions,
        final(diagnostics).wake_signals == old(diagnostics).wake_signals,
        final(diagnostics).timer_arms == old(diagnostics).timer_arms,
        final(diagnostics).timer_cancellations == old(diagnostics).timer_cancellations,
        final(diagnostics).passes_started == old(diagnostics).passes_started,
        final(diagnostics).passes_completed == old(diagnostics).passes_completed,
        final(diagnostics).candidates_checked == old(diagnostics).candidates_checked,
        final(diagnostics).clean_candidates == old(diagnostics).clean_candidates,
        final(diagnostics).identity_drifts == old(diagnostics).identity_drifts,
        final(diagnostics).resolution_failures == old(diagnostics).resolution_failures,
        final(diagnostics).policy_query_failures == old(diagnostics).policy_query_failures,
        final(diagnostics).repair_candidates == old(diagnostics).repair_candidates,
        final(diagnostics).drifted_components == old(diagnostics).drifted_components,
        final(diagnostics).setter_failures == old(diagnostics).setter_failures,
        final(diagnostics).global_reconciliations == old(diagnostics).global_reconciliations,
        final(diagnostics).worker_failures == old(diagnostics).worker_failures,
{
}

/// The numbers of the processes are told as far as they fit.
pub proof fn law_inventory_is_told(
    diagnostics: &mut DiagnosticPublisher,
    instances: usize,
    enforcing: usize,
    pending: usize,
)
    requires
        call_ensures(
            DiagnosticPublisher::update_inventory,
            (diagnostics, instances, enforcing, pending),
            (),
        ),
    ensures
        instances <= u32::MAX ==> final(diagnostics).tracked_instances == instances,
        instances > u32::MAX ==> final(diagnostics).tracked_instances == u32::MAX,
        enforcing <= u32::MAX ==> final(diagnostics).enforcing_instances == enforcing,
        enforcing > u32::MAX ==> final(diagnostics).enforcing_instances == u32::MAX,
        pending <= u32::MAX ==> final(diagnostics).pending_instances == pending,
        pending > u32::MAX ==> final(diagnostics).pending_instances == u32::MAX,
        final(diagnostics).service_pid == old(diagnostics).service_pid,
        final(diagnostics).package_version_major == old(diagnostics).package_version_major,
        final(diagnostics).package_version_minor == old(diagnostics).package_version_minor,
        final(diagnostics).package_version_patch == old(diagnostics).package_version_patch,
        final(diagnostics).phase == old(diagnostics).phase,
        final(diagnostics).worker_enabled == old(diagnostics).worker_enabled,
        final(diagnostics).last_failure == old(diagnostics).last_failure,
        final(diagnostics).started_unix_ms == old(diagnostics).started_unix_ms,
        final(diagnostics).last_transition_unix_ms == old(diagnostics).last_transition_unix_ms,
        final(diagnostics).insertions == old(diagnostics).insertions,
        final(diagnostics).wake_signals == old(diagnostics).wake_signals,
        final(diagnostics).timer_arms == old(diagnostics).timer_arms,
        final(diagnostics).timer_cancellations == old(diagnostics).timer_cancellations,
        final(diagnostics).passes_started == old(diagnostics).passes_started,
        final(diagnostics).passes_completed == old(diagnostics).passes_completed,
        final(diagnostics).candidates_checked == old(diagnostics).candidates_checked,
        final(diagnostics).clean_candidates == old(diagnostics).clean_candidates,
        final(diagnostics).identity_drifts == old(diagnostics).identity_drifts,
        final(diagnostics).resolution_failures == old(diagnostics).resolution_failures,
        final(diagnostics).policy_query_failures == old(diagnostics).policy_query_failures,
        final(diagnostics).repair_candidates == old(diagnostics).repair_candidates,
        final(diagnostics).drifted_components == old(diagnostics).drifted_components,
        final(diagnostics).setter_failures == old(diagnostics).setter_failures,
        final(diagnostics).global_reconciliations == old(diagnostics).global_reconciliations,
        final(diagnostics).worker_failures == old(diagnostics).worker_failures,
{
}

/// A service that stops publishing has shut down, and its worker is off.
pub proof fn law_retired_service_is_shut_down(
    diagnostics: &mut DiagnosticPublisher,
    now: u64,
    shut: u32,
)
    requires
        call_ensures(DiagnosticPublisher::retire, (diagnostics, now), ()),
        call_ensures(DiagnosticPhase::to_u32, (DiagnosticPhase::Shutdown,), shut),
    ensures
        final(diagnostics).phase == shut,
        final(diagnostics).worker_enabled == 0,
        final(diagnostics).last_transition_unix_ms == now,
        final(diagnostics).service_pid == old(diagnostics).service_pid,
        final(diagnostics).package_version_major == old(diagnostics).package_version_major,
        final(diagnostics).package_version_minor == old(diagnostics).package_version_minor,
        final(diagnostics).package_version_patch == old(diagnostics).package_version_patch,
        final(diagnostics).last_failure == old(diagnostics).last_failure,
        final(diagnostics).tracked_instances == old(diagnostics).tracked_instances,
        final(diagnostics).enforcing_instances == old(diagnostics).enforcing_instances,
        final(diagnostics).pending_instances == old(diagnostics).pending_instances,
        final(diagnostics).started_unix_ms == old(diagnostics).started_unix_ms,
        final(diagnostics).insertions == old(diagnostics).insertions,
        final(diagnostics).wake_signals == old(diagnostics).wake_signals,
        final(diagnostics).timer_arms == old(diagnostics).timer_arms,
        final(diagnostics).timer_cancellations == old(diagnostics).timer_cancellations,
        final(diagnostics).passes_started == old(diagnostics).passes_started,
        final(diagnostics).passes_completed == old(diagnostics).passes_completed,
        final(diagnostics).candidates_checked == old(diagnostics).candidates_checked,
        final(diagnostics).clean_candidates == old(diagnostics).clean_candidates,
        final(diagnostics).identity_drifts == old(diagnostics).identity_drifts,
        final(diagnostics).resolution_failures == old(diagnostics).resolution_failures,
        final(diagnostics).policy_query_failures == old(diagnostics).policy_query_failures,
        final(diagnostics).repair_candidates == old(diagnostics).repair_candidates,
        final(diagnostics).drifted_components == old(diagnostics).drifted_components,
        final(diagnostics).setter_failures == old(diagnostics).setter_failures,
        final(diagnostics).global_reconciliations == old(diagnostics).global_reconciliations,
        final(diagnostics).worker_failures == old(diagnostics).worker_failures,
{
}

/// Phases and failures are read back from their numbers.
pub proof fn law_numbers_are_read_back(
    phase: DiagnosticPhase,
    failure: DiagnosticFailure,
    phase_number: u32,
    failure_number: u32,
    read_phase: DiagnosticPhase,
    read_failure: DiagnosticFailure,
)
    requires
        call_ensures(DiagnosticPhase::to_u32, (phase,), phase_number),
        call_ensures(DiagnosticPhase::from_u32, (phase_number,), read_phase),
        call_ensures(DiagnosticFailure::to_u32, (failure,), failure_number),
        call_ensures(DiagnosticFailure::from_u32, (failure_number,), read_failure),
    ensures
        read_phase == phase,
        read_failure == failure,
        phase_number <= 6,
        failure_number <= 5,
        phase_number == 0 <==> phase == DiagnosticPhase::Starting,
        failure_number == 0 <==> failure == DiagnosticFailure::Nothing,
{
}

/// What the service publishes is what a reader sees, as long as the magic number stands before it;
/// without the magic number nothing is read.
pub proof fn law_published_values_are_read(
    diagnostics: &DiagnosticPublisher,
    magic: u64,
    order: ByteOrder,
    written: Vec<u8>,
    memory: &[u8; 256],
    name: &'static str,
    snapshot: Result<DiagnosticSnapshot, DiagnosticError>,
)
    requires
        call_ensures(DiagnosticPublisher::memory, (diagnostics, magic, order), written),
        memory@ == written@,
        call_ensures(diagnostics::read_named_snapshot, (memory, order, name), snapshot),
    ensures
        written@.len() == 256,
        snapshot is Ok <==> magic == 0x3147_4149_4446_4641,
        snapshot matches Ok(read) ==> {
            &&& read.mapping@ == name@
            &&& read.abi_version == 1
            &&& read.service_pid == diagnostics.service_pid
            &&& read.package_version == (
                diagnostics.package_version_major,
                diagnostics.package_version_minor,
                diagnostics.package_version_patch,
            )
            &&& read.worker_enabled == (diagnostics.worker_enabled != 0)
            &&& read.tracked_instances == diagnostics.tracked_instances
            &&& read.enforcing_instances == diagnostics.enforcing_instances
            &&& read.pending_instances == diagnostics.pending_instances
            &&& read.started_unix_ms == diagnostics.started_unix_ms
            &&& read.last_transition_unix_ms == diagnostics.last_transition_unix_ms
            &&& read.insertions == diagnostics.insertions
            &&& read.wake_signals == diagnostics.wake_signals
            &&& read.timer_arms == diagnostics.timer_arms
            &&& read.timer_cancellations == diagnostics.timer_cancellations
            &&& read.passes_started == diagnostics.passes_started
            &&& read.passes_completed == diagnostics.passes_completed
            &&& read.candidates_checked == diagnostics.candidates_checked
            &&& read.clean_candidates == diagnostics.clean_candidates
            &&& read.identity_drifts == diagnostics.identity_drifts
            &&& read.resolution_failures == diagnostics.resolution_failures
            &&& read.policy_query_failures == diagnostics.policy_query_failures
            &&& read.repair_candidates == diagnostics.repair_candidates
            &&& read.drifted_components == diagnostics.drifted_components
            &&& read.setter_failures == diagnostics.setter_failures
            &&& read.global_reconciliations == diagnostics.global_reconciliations
            &&& read.worker_failures == diagnostics.worker_failures
        },
{
    diagnostics::law_published_diagnostics_are_read(*diagnostics, magic, order);
    if let Ok(read) = snapshot {
        assert(read@ == diagnostics.reported(name@));
        reveal(DiagnosticPublisher::large_values);
        let counts = diagnostics.large_values();
        assert(read@.counts == counts);
        assert(read@.counts[0] == counts[0]);
        assert(read@.counts[1] == counts[1]);
        assert(read@.counts[2] == counts[2]);
        assert(read@.counts[3] == counts[3]);
        assert(read@.counts[4] == counts[4]);
        assert(read@.counts[5] == counts[5]);
        assert(read@.counts[6] == counts[6]);
        assert(read@.counts[7] == counts[7]);
        assert(read@.counts[8] == counts[8]);
        assert(read@.counts[9] == counts[9]);
        assert(read@.counts[10] == counts[10]);
        assert(read@.counts[11] == counts[11]);
        assert(read@.counts[12] == counts[12]);
        assert(read@.counts[13] == counts[13]);
        assert(read@.counts[14] == counts[14]);
        assert(read@.counts[15] == counts[15]);
        assert(read@.counts[16] == counts[16]);
        assert(read@.counts[17] == counts[17]);
    }
}

/// The name of the phase and of the last failure that a reader sees are those of their numbers.
pub proof fn law_read_names_tell_the_numbers(
    diagnostics: &DiagnosticPublisher,
    order: ByteOrder,
    written: Vec<u8>,
    memory: &[u8; 256],
    name: &'static str,
    snapshot: Result<DiagnosticSnapshot, DiagnosticError>,
    phase: DiagnosticPhase,
    failure: DiagnosticFailure,
    phase_name: &'static str,
    failure_name: &'static str,
)
    requires
        call_ensures(
            DiagnosticPublisher::memory,
            (diagnostics, 0x3147_4149_4446_4641u64, order),
            written,
        ),
        memory@ == written@,
        call_ensures(diagnostics::read_named_snapshot, (memory, order, name), snapshot),
        call_ensures(DiagnosticPhase::from_u32, (diagnostics.phase,), phase),
        call_ensures(DiagnosticFailure::from_u32, (diagnostics.last_failure,), failure),
        call_ensures(DiagnosticPhase::as_str, (phase,), phase_name),
        call_ensures(DiagnosticFailure::as_str, (failure,), failure_name),
    ensures
        snapshot matches Ok(read) && read.phase@ == phase_name@ && read.last_failure@
            == failure_name@,
{
    diagnostics::law_published_diagnostics_are_read(
        *diagnostics,
        0x3147_4149_4446_4641u64,
        order,
    );
    let read = snapshot->Ok_0;
    assert(read@ == diagnostics.reported(name@));
}

/// The key, an equals sign and the value.
pub open spec fn setting(key: Seq<char>, value: Seq<char>) -> Seq<char> {
    key + "="@ + value
}

/// A snapshot is printed as one line for each value, under its name.
pub proof fn law_snapshot_is_printed_line_by_line(snapshot: &DiagnosticSnapshot, printed: String)
    requires
        call_ensures(DiagnosticSnapshot::to_text, (snapshot,), printed),
    ensures
        printed@ == text::joined(
            seq![
                setting("mapping"@, snapshot.mapping@),
                setting("abi_version"@, text::decimal(snapshot.abi_version as nat)),
                setting("service_pid"@, text::decimal(snapshot.service_pid as nat)),
                setting(
                    "package_version"@,
                    text::decimal(snapshot.package_version.0 as nat) + "."@ + text::decimal(
                        snapshot.package_version.1 as nat,
                    ) + "."@ + text::decimal(snapshot.package_version.2 as nat),
                ),
                setting("phase"@, snapshot.phase@),
                setting(
                    "worker_enabled"@,
                    if snapshot.worker_enabled {
                        "true"@
                    } else {
                        "false"@
                    },
                ),
                setting("last_failure"@, snapshot.last_failure@),
                setting("tracked_instances"@, text::decimal(snapshot.tracked_instances as nat)),
                setting("enforcing_instances"@, text::decimal(snapshot.enforcing_instances as nat)),
                setting("pending_instances"@, text::decimal(snapshot.pending_instances as nat)),
                setting("started_unix_ms"@, text::decimal(snapshot.started_unix_ms as nat)),
                setting("last_transition_unix_ms"@, text::decimal(snapshot.last_transition_unix_ms as nat)),
                setting("insertions"@, text::decimal(snapshot.insertions as nat)),
                setting("wake_signals"@, text::decimal(snapshot.wake_signals as nat)),
                setting("timer_arms"@, text::decimal(snapshot.timer_arms as nat)),
                setting("timer_cancellations"@, text::decimal(snapshot.timer_cancellations as nat)),
                setting("passes_started"@, text::decimal(snapshot.passes_started as nat)),
                setting("passes_completed"@, text::decimal(snapshot.passes_completed as nat)),
                setting("candidates_checked"@, text::decimal(snapshot.candidates_checked as nat)),
                setting("clean_candidates"@, text::decimal(snapshot.clean_candidates as nat)),
                setting("identity_drifts"@, text::decimal(snapshot.identity_drifts as nat)),
                setting("resolution_failures"@, text::decimal(snapshot.resolution_failures as nat)),
                setting("policy_query_failures"@, text::decimal(snapshot.policy_query_failures as nat)),
                setting("repair_candidates"@, text::decimal(snapshot.repair_candidates as nat)),
                setting("drifted_components"@, text::decimal(snapshot.drifted_components as nat)),
                setting("setter_failures"@, text::decimal(snapshot.setter_failures as nat)),
                setting("global_reconciliations"@, text::decimal(snapshot.global_reconciliations as nat)),
                setting("worker_failures"@, text::decimal(snapshot.worker_failures as nat)),
            ],
            '\n',
        ),
{
}

/// A mapping is taken unless somebody publishes in it.
pub proof fn law_published_mapping_is_not_taken(
    name: &str,
    existed: bool,
    magic: u64,
    claimed: Result<(), DiagnosticError>,
)
    requires
        call_ensures(diagnostics::claim_mapping, (name, existed, magic), claimed),
    ensures
        claimed is Err <==> existed && magic != 0,
{
}

/// A version is read number by number, and what follows a dash does not count.
pub proof fn law_version_is_read_by_numbers(
    version: &str,
    numbers: (u32, u32, u32),
    major: u32,
    minor: u32,
    patch: u32,
    suffix: Seq<char>,
)
    requires
        call_ensures(diagnostics::package_version, (version,), numbers),
        !suffix.contains('.'),
        suffix.len() > 0 ==> suffix[0] == '-',
        version@ == text::decimal(major as nat) + seq!['.'] + text::decimal(minor as nat) + seq![
            '.',
        ] + (text::decimal(patch as nat) + suffix),
    ensures
        numbers == (major, minor, patch),
{
    text::lemma_decimal_round_trip(major as nat);
    text::lemma_decimal_round_trip(minor as nat);
    text::lemma_decimal_round_trip(patch as nat);
    let a = text::decimal(major as nat);
    let b = text::decimal(minor as nat);
    let c = text::decimal(patch as nat);
    lemma_no_separator(a);
    lemma_no_separator(b);
    lemma_no_separator(c);
    assert(!(c + suffix).contains('.')) by {
        if (c + suffix).contains('.') {
            let i = choose|i: int| 0 <= i < (c + suffix).len() && (c + suffix)[i] == '.';
            if i < c.len() {
                assert(c[i] == '.');
                assert(c.contains('.'));
            } else {
                assert(suffix[i - c.len()] == '.');
                assert(suffix.contains('.'));
            }
        }
    }
    text::lemma_split_whole(a, '.');
    text::lemma_split_append(a, '.', b);
    text::lemma_split_append(a + seq!['.'] + b, '.', c + suffix);
    let parts = text::split(version@, '.');
    assert(parts =~= seq![a, b, c + suffix]);
    assert(parts[0] == a && parts[1] == b && parts[2] == c + suffix);
    lemma_first_piece(c, suffix);
}

proof fn lemma_no_separator(digits: Seq<char>)
    requires
        text::all_digits(digits),
    ensures
        !digits.contains('.'),
        !digits.contains('-'),
{
    if digits.contains('.') {
        let i = choose|i: int| 0 <= i < digits.len() && digits[i] == '.';
        assert(text::is_digit(digits[i]));
    }
    if digits.contains('-') {
        let i = choose|i: int| 0 <= i < digits.len() && digits[i] == '-';
        assert(text::is_digit(digits[i]));
    }
}

proof fn lemma_first_piece(digits: Seq<char>, suffix: Seq<char>)
    requires
        !digits.contains('-'),
        suffix.len() > 0 ==> suffix[0] == '-',
    ensures
        text::split(digits + suffix, '-').len() > 0,
        text::split(digits + suffix, '-')[0] == digits,
        suffix.len() > 0 ==> text::split(digits + suffix, '-').len() > 1,
    decreases suffix.len(),
{
    let all = digits + suffix;
    if suffix.len() == 0 {
        assert(all =~= digits);
        text::lemma_split_whole(digits, '-');
    } else {
        let shorter = suffix.drop_last();
        lemma_first_piece(digits, shorter);
        assert(all.drop_last() =~= digits + shorter);
        assert(all.last() == suffix.last());
        if shorter.len() == 0 {
            assert(suffix.last() == suffix[0]);
        }
    }
}

} // verus!
