//! What holds of the rule engine, whatever happens to the processes that it looks after.

use vstd::prelude::*;

use crate::diagnostics::{DiagnosticPhase, DiagnosticPublisher};
use crate::diagnostics_laws::{added, one_more};
use crate::engine;
use crate::engine::{
    AppliedProcess, AppliedProcessSignature, ApplicationIntent, InspectionStep, PidStep,
    PolicyApplication, PolicyFailure, PolicyInspection, ProcessKey, ProcessPolicyDrift,
    ProfileSnapshot, ReconcilerPhase, ReconciliationCheck, Removal, ResolvedProcess,
    ResolvedProcessPolicy, RuleEngine, RuleStep, ShutdownStep, WatchStep, WatcherWait, WorkerStep,
};
use crate::identity;
use crate::identity::ImageName;
use crate::power::PowerProfile;
use crate::registry;
use crate::registry::{PolicyRule, PolicyStore, RegistryError};
use crate::service::ServiceError;

verus! {

broadcast use vstd::laws_cmp::group_laws_cmp;

/// The engine looks after the process.
pub open spec fn knows(engine: RuleEngine, key: ProcessKey) -> bool {
    engine.applied@.contains_key((key.process_id, key.creation_time))
}

/// What the engine knows of the process.
pub open spec fn known(engine: RuleEngine, key: ProcessKey) -> AppliedProcess {
    engine.applied@[(key.process_id, key.creation_time)]
}

/// A rule is enforced on the process, and it was checked less than three times.
pub open spec fn is_owed_a_check(process: AppliedProcess) -> bool {
    process.enforcing && process.reconciliation_checks < 3
}

/// A check is owed to one of the processes.
pub open spec fn owes_a_check(engine: RuleEngine) -> bool {
    exists|key: ProcessKey| #[trigger] knows(engine, key) && is_owed_a_check(known(engine, key))
}

/// What is known of every process but `key` has not changed.
pub open spec fn keeps_others(before: RuleEngine, after: RuleEngine, key: ProcessKey) -> bool {
    forall|other: ProcessKey|
        #![trigger knows(after, other)]
        #![trigger knows(before, other)]
        other != key ==> knows(after, other) == knows(before, other) && (knows(before, other)
            ==> known(after, other) == known(before, other))
}

/// What is known of every process has not changed.
pub open spec fn keeps_all(before: RuleEngine, after: RuleEngine) -> bool {
    after.applied@ == before.applied@
}

proof fn lemma_owes(engine: RuleEngine)
    ensures
        owes_a_check(engine) <==> !engine::pending(engine@.applied).is_empty(),
{
    let waiting = engine::pending(engine@.applied);
    if owes_a_check(engine) {
        let key = choose|key: ProcessKey| #[trigger]
            knows(engine, key) && is_owed_a_check(known(engine, key));
        assert(waiting.contains(key.pair()));
    }
    if !waiting.is_empty() {
        assert(exists|pair: (u32, u64)| waiting.contains(pair)) by {
            if forall|pair: (u32, u64)| !waiting.contains(pair) {
                assert(waiting =~= Set::empty());
            }
        }
        let pair = choose|pair: (u32, u64)| waiting.contains(pair);
        let key = ProcessKey { process_id: pair.0, creation_time: pair.1 };
        assert(knows(engine, key));
        assert(is_owed_a_check(known(engine, key)));
    }
}

proof fn lemma_others(before: RuleEngine, after: RuleEngine, key: ProcessKey, process: AppliedProcess)
    requires
        after@.applied == before@.applied.insert(key.pair(), process),
    ensures
        keeps_others(before, after, key),
        knows(after, key),
        known(after, key) == process,
{
    assert forall|other: ProcessKey|
        #![trigger knows(after, other)]
        #![trigger knows(before, other)]
        other != key implies knows(after, other) == knows(before, other) && (knows(before, other)
        ==> known(after, other) == known(before, other)) by {
        assert(other.pair() != key.pair());
    }
}

proof fn lemma_others_removed(before: RuleEngine, after: RuleEngine, key: ProcessKey)
    requires
        after@.applied == before@.applied.remove(key.pair()),
    ensures
        keeps_others(before, after, key),
        !knows(after, key),
{
    assert forall|other: ProcessKey|
        #![trigger knows(after, other)]
        #![trigger knows(before, other)]
        other != key implies knows(after, other) == knows(before, other) && (knows(before, other)
        ==> known(after, other) == known(before, other)) by {
        assert(other.pair() != key.pair());
    }
}

/// A check is begun exactly where one is owed, is counted at once, and is told with what was set on
/// the process and what it was called. A process is checked three times at most.
pub proof fn law_process_is_checked_three_times(
    engine: &mut RuleEngine,
    key: ProcessKey,
    check: Option<ReconciliationCheck>,
)
    requires
        call_ensures(RuleEngine::reconcile_tracked_process, (engine, key), check),
    ensures
        check is Some <==> knows(*old(engine), key) && is_owed_a_check(known(*old(engine), key)),
        check is None ==> keeps_all(*old(engine), *final(engine)),
        keeps_others(*old(engine), *final(engine), key),
        check matches Some(check) ==> {
            let before = known(*old(engine), key);
            let after = known(*final(engine), key);
            &&& knows(*final(engine), key)
            &&& after.reconciliation_checks == before.reconciliation_checks + 1
            &&& 1 <= check.check <= 3
            &&& check.check == after.reconciliation_checks
            &&& check.policy == before.policy
            &&& check.original_handle == before.process_handle
            &&& check.expected_image@ == before.normalized_image_name@
            &&& after.enforcing == before.enforcing
            &&& after.policy == before.policy
            &&& after.priority_job == before.priority_job
        },
        final(engine).reconciler == old(engine).reconciler,
{
    if check is Some {
        let before = known(*old(engine), key);
        let counted = AppliedProcess {
            reconciliation_checks: (before.reconciliation_checks + 1) as u8,
            ..before
        };
        assert(final(engine)@ == old(engine)@.checking(key));
        lemma_others(*old(engine), *final(engine), key, counted);
    } else {
        assert(final(engine)@ == old(engine)@);
    }
}

/// Counting a check counts one more, up to three, and tells which one it is.
pub proof fn law_checks_are_counted_to_three(counter: &mut u8, check: Option<u8>)
    requires
        call_ensures(engine::advance_reconciliation_check, (counter,), check),
    ensures
        *old(counter) < 3 ==> check == Some((*old(counter) + 1) as u8) && *final(counter) == *old(counter) + 1,
        *old(counter) >= 3 ==> check is None && *final(counter) == *old(counter),
{
}

/// What a process has lost is repaired, with its job; where it has lost nothing, nothing is done.
/// Neither the checks nor the rule of the process change.
pub proof fn law_whatever_was_lost_is_repaired(
    engine: &mut RuleEngine,
    key: ProcessKey,
    inspection: PolicyInspection,
    step: InspectionStep,
)
    requires
        call_ensures(RuleEngine::reconcile_inspected, (engine, key, inspection), step),
    ensures
        step is Repair <==> inspection.drift.affinity || inspection.drift.eco_qos
            || inspection.drift.priority_class,
        step matches InspectionStep::Repair { priority_job, failures } ==> failures
            == inspection.failures && (priority_job matches Some(job) <==> knows(
            *old(engine),
            key,
        ) && known(*old(engine), key).priority_job is Some) && (priority_job matches Some(job)
            ==> known(*old(engine), key).priority_job == Some(job)),
        keeps_others(*old(engine), *final(engine), key),
        knows(*final(engine), key) == knows(*old(engine), key),
        knows(*old(engine), key) ==> {
            let before = known(*old(engine), key);
            let after = known(*final(engine), key);
            &&& after.reconciliation_checks == before.reconciliation_checks
            &&& after.enforcing == before.enforcing
            &&& after.policy == before.policy
            &&& after.signature == before.signature
        },
        final(engine).reconciler == old(engine).reconciler,
{
    assert(final(engine)@ == old(engine)@.inspected(key, inspection));
    if knows(*old(engine), key) {
        if final(engine)@.applied != old(engine)@.applied {
            let after = final(engine)@.applied[key.pair()];
            assert(final(engine)@.applied =~= old(engine)@.applied.insert(key.pair(), after));
            lemma_others(*old(engine), *final(engine), key, after);
        }
    }
}

/// A repaired process has the job of the repair, and is known by all that failed, while it was read
/// and while it was repaired. Neither its checks nor its rule change.
pub proof fn law_repaired_process_keeps_its_rule(
    engine: &mut RuleEngine,
    key: ProcessKey,
    drift: ProcessPolicyDrift,
    inspected: Vec<PolicyFailure>,
    application: PolicyApplication,
)
    requires
        call_ensures(
            RuleEngine::reconcile_repaired,
            (engine, key, drift, inspected, application),
            (),
        ),
    ensures
        keeps_others(*old(engine), *final(engine), key),
        knows(*final(engine), key) == knows(*old(engine), key),
        knows(*old(engine), key) ==> {
            let before = known(*old(engine), key);
            let after = known(*final(engine), key);
            &&& after.reconciliation_checks == before.reconciliation_checks
            &&& after.enforcing == before.enforcing
            &&& after.policy == before.policy
            &&& after.signature == before.signature
            &&& after.priority_job == application.priority_job
            &&& after.policy_failures@ == inspected@ + application.failures@
        },
        final(engine).reconciler == old(engine).reconciler,
{
    let failures = choose|failures: Vec<PolicyFailure>|
        {
            &&& failures@ == inspected@ + application.failures@
            &&& final(engine)@ == #[trigger] old(engine)@.repaired(
                key,
                drift,
                application,
                failures,
            )
        };
    if knows(*old(engine), key) {
        let after = AppliedProcess {
            priority_job: application.priority_job,
            policy_failures: failures,
            ..known(*old(engine), key)
        };
        assert(final(engine)@.applied == old(engine)@.applied.insert(key.pair(), after));
        lemma_others(*old(engine), *final(engine), key, after);
    }
}

/// A process is the one that was looked after where it has the number, the time of creation and the
/// name of that one.
pub proof fn law_another_process_is_noticed(
    engine: &mut RuleEngine,
    key: ProcessKey,
    check: &ReconciliationCheck,
    resolved: &ResolvedProcess,
    drifted: bool,
)
    requires
        call_ensures(RuleEngine::reconcile_identity, (engine, key, check, resolved), drifted),
    ensures
        resolved.key.process_id != key.process_id || resolved.key.creation_time
            != key.creation_time ==> drifted,
        identity::lowercase_name(resolved.image_name@) != check.expected_image@ ==> drifted,
        resolved.key == key && identity::lowercase_name(resolved.image_name@)
            == check.expected_image@ && 0 < check.expected_image@.len() <= 260 ==> !drifted,
        keeps_all(*old(engine), *final(engine)),
{
}

/// A process that cannot be resolved is another one where its handle is signaled.
pub proof fn law_ended_process_is_noticed(engine: &mut RuleEngine, wait: u32, drifted: bool)
    requires
        call_ensures(RuleEngine::reconcile_unresolved, (engine, wait), drifted),
    ensures
        drifted <==> wait == 0,
        keeps_all(*old(engine), *final(engine)),
        final(engine).reconciler == old(engine).reconciler,
{
    assert(final(engine)@.applied == old(engine)@.applied);
}

/// A rule is resolved and set unless the same rule, under the same profile and the same change of
/// it, is enforced. Such a rule is left alone where the process is only observed, and what it asked
/// for is set again otherwise. The job of the process is handed out except where it is left alone.
pub proof fn law_enforced_rule_is_not_resolved_again(
    engine: &mut RuleEngine,
    key: ProcessKey,
    signature: &AppliedProcessSignature,
    intent: ApplicationIntent,
    step: RuleStep,
)
    requires
        call_ensures(RuleEngine::begin_rule, (engine, key, signature, intent), step),
    ensures
        ({
            let before = known(*old(engine), key);
            let same = knows(*old(engine), key) && before.enforcing
                && before.signature.rule_image_name@ == signature.rule_image_name@
                && before.signature.active_profile == signature.active_profile
                && before.signature.profile_generation == signature.profile_generation
                && before.signature.affinity@ == signature.affinity@ && before.signature.mode
                == signature.mode;
            let job = if knows(*old(engine), key) {
                before.priority_job
            } else {
                None
            };
            &&& !same ==> step == RuleStep::Resolve { priority_job: job }
            &&& same && intent == ApplicationIntent::Observe ==> step == RuleStep::Unchanged
            &&& same && intent == ApplicationIntent::Force ==> step == RuleStep::Reapply {
                policy: before.policy,
                priority_job: job,
            }
            &&& step == RuleStep::Unchanged ==> keeps_all(*old(engine), *final(engine))
            &&& step != RuleStep::Unchanged && knows(*old(engine), key) ==> knows(
                *final(engine),
                key,
            ) && known(*final(engine), key) == (AppliedProcess { priority_job: None, ..before })
        }),
        keeps_others(*old(engine), *final(engine), key),
        knows(*final(engine), key) == knows(*old(engine), key),
{
    let before = known(*old(engine), key);
    if before.signature.rule_image_name@ == signature.rule_image_name@
        && before.signature.active_profile == signature.active_profile
        && before.signature.profile_generation == signature.profile_generation
        && before.signature.affinity@ == signature.affinity@ && before.signature.mode
        == signature.mode {
        assert(before.signature@ == signature@);
    }
    if step != RuleStep::Unchanged && knows(*old(engine), key) {
        lemma_others(
            *old(engine),
            *final(engine),
            key,
            AppliedProcess { priority_job: None, ..before },
        );
    }
}

/// Without a rule the process is looked after no longer, and its job is told; with one, the rule is
/// applied under the active profile.
pub proof fn law_selected_rule_is_applied(
    engine: &mut RuleEngine,
    snapshot: ProfileSnapshot,
    key: ProcessKey,
    selected: Option<PolicyRule>,
    intent: ApplicationIntent,
    step: PidStep,
)
    requires
        call_ensures(RuleEngine::profile_snapshot, (&*old(engine),), snapshot),
        call_ensures(RuleEngine::apply_selected, (engine, key, selected, intent), step),
    ensures
        step is Untrack <==> selected is None,
        step matches PidStep::Untrack { priority_job } ==> keeps_all(
            *old(engine),
            *final(engine),
        ) && priority_job == if knows(*old(engine), key) {
            known(*old(engine), key).priority_job
        } else {
            None
        },
        step matches PidStep::Rule { rule, signature, .. } ==> selected == Some(rule)
            && signature.rule_image_name@ == rule.image_name@ && signature.active_profile
            == snapshot.profile && signature.profile_generation == snapshot.generation
            && signature.mode == rule.mode,
        step matches PidStep::Rule { signature, step, .. } ==> (step == RuleStep::Unchanged <==> {
            let before = known(*old(engine), key);
            &&& intent == ApplicationIntent::Observe
            &&& knows(*old(engine), key) && before.enforcing
            &&& before.signature@ == signature@
        }),
{
}

/// A process that a rule was applied to is enforced, with what was set and what failed. A new one
/// starts without checks and is to be watched; a known one keeps its checks, its handle and its
/// name. Nothing else changes.
pub proof fn law_applied_rule_is_enforced(
    engine: &mut RuleEngine,
    process: ResolvedProcess,
    image: ImageName,
    signature: AppliedProcessSignature,
    policy: ResolvedProcessPolicy,
    application: PolicyApplication,
    inserted: bool,
)
    requires
        call_ensures(
            RuleEngine::apply_or_update_rule,
            (engine, process, image, signature, policy, application),
            inserted,
        ),
    ensures
        inserted <==> !knows(*old(engine), process.key),
        keeps_others(*old(engine), *final(engine), process.key),
        knows(*final(engine), process.key),
        ({
            let after = known(*final(engine), process.key);
            let before = known(*old(engine), process.key);
            &&& after.enforcing
            &&& after.signature == signature
            &&& after.policy == policy
            &&& after.priority_job == application.priority_job
            &&& after.policy_failures == application.failures
            &&& inserted ==> after.reconciliation_checks == 0 && after.process_handle
                == process.handle && after.image_name == process.image_name
                && after.normalized_image_name == image && after.image_path == process.image_path
            &&& !inserted ==> after.reconciliation_checks == before.reconciliation_checks
                && after.process_handle == before.process_handle && after.image_name
                == before.image_name && after.normalized_image_name == before.normalized_image_name
        }),
        final(engine).reconciler == old(engine).reconciler,
{
    let key = process.key;
    let after = final(engine)@.applied[key.pair()];
    assert(final(engine)@.applied =~= old(engine)@.applied.insert(key.pair(), after));
    lemma_others(*old(engine), *final(engine), key, after);
}

/// A rule that was applied is left alone when the process is observed again, and set again when all
/// processes are gone through.
pub proof fn law_applied_rule_is_left_alone(
    first: &mut RuleEngine,
    second: &mut RuleEngine,
    process: ResolvedProcess,
    image: ImageName,
    signature: AppliedProcessSignature,
    same: &AppliedProcessSignature,
    policy: ResolvedProcessPolicy,
    application: PolicyApplication,
    inserted: bool,
    intent: ApplicationIntent,
    step: RuleStep,
)
    requires
        call_ensures(
            RuleEngine::apply_or_update_rule,
            (first, process, image, signature, policy, application),
            inserted,
        ),
        *old(second) == *final(first),
        same@ == signature@,
        call_ensures(RuleEngine::begin_rule, (second, process.key, same, intent), step),
    ensures
        intent == ApplicationIntent::Observe ==> step == RuleStep::Unchanged && keeps_all(
            *old(second),
            *final(second),
        ),
        intent == ApplicationIntent::Force ==> step == (RuleStep::Reapply {
            policy,
            priority_job: application.priority_job,
        }),
{
}

/// A process without a job that no rule applies to is forgotten; one with a job stays known with
/// its job and its checks, but no rule is enforced on it, so none of its checks is owed. What
/// failed when its job was lifted is told of it.
pub proof fn law_untracked_process_is_not_checked(
    engine: &mut RuleEngine,
    key: ProcessKey,
    cleared: Option<ServiceError>,
    now: u64,
    cancel: bool,
)
    requires
        call_ensures(RuleEngine::untrack_if_no_active_rule, (engine, key, cleared, now), cancel),
    ensures
        keeps_others(*old(engine), *final(engine), key),
        !(knows(*old(engine), key) && known(*old(engine), key).priority_job is Some) ==> !knows(
            *final(engine),
            key,
        ),
        knows(*old(engine), key) && known(*old(engine), key).priority_job is Some ==> {
            let before = known(*old(engine), key);
            let after = known(*final(engine), key);
            &&& knows(*final(engine), key)
            &&& !after.enforcing
            &&& !is_owed_a_check(after)
            &&& after.priority_job == before.priority_job
            &&& after.reconciliation_checks == before.reconciliation_checks
            &&& after.policy.affinity is None && !after.policy.eco_qos
                && after.policy.priority_class is None
            &&& cleared is None ==> after.policy_failures@.len() == 0
            &&& cleared matches Some(error) ==> after.policy_failures@.len() == 1
                && after.policy_failures@[0].error == error
        },
        cancel <==> old(engine).reconciler == Some(ReconcilerPhase::TimerArmed) && !owes_a_check(
            *final(engine),
        ),
        cancel ==> final(engine).reconciler == Some(ReconcilerPhase::Parked),
{
    lemma_owes(*final(engine));
    if old(engine)@.job(key) is None {
        assert(final(engine)@ == old(engine)@.without(key, now));
        assert(final(engine)@.applied == old(engine)@.applied.remove(key.pair()));
        lemma_others_removed(*old(engine), *final(engine), key);
    } else {
        let failures = choose|failures: Vec<PolicyFailure>|
            {
                &&& failures@ == engine::clearing_failures(cleared)
                &&& final(engine)@ == #[trigger] old(engine)@.retaining(key, failures).parked(now)
                &&& cancel == old(engine)@.retaining(key, failures).is_idly_armed()
            };
        let after = AppliedProcess {
            policy_failures: failures,
            enforcing: false,
            policy: engine::no_policy(),
            ..known(*old(engine), key)
        };
        assert(final(engine)@.applied == old(engine)@.applied.insert(key.pair(), after));
        lemma_others(*old(engine), *final(engine), key, after);
    }
}

/// A profile becomes the active one. Where another one was, the profile has changed once more, up
/// to the number of changes that are told apart; where it was active before, nothing changes.
pub proof fn law_profile_becomes_active(
    engine: &mut RuleEngine,
    profile: PowerProfile,
    before: ProfileSnapshot,
    changed: bool,
    after: ProfileSnapshot,
)
    requires
        call_ensures(RuleEngine::profile_snapshot, (&*old(engine),), before),
        call_ensures(RuleEngine::set_power_profile, (engine, profile), changed),
        call_ensures(RuleEngine::profile_snapshot, (&*final(engine),), after),
    ensures
        after.profile == profile,
        changed <==> before.profile != profile,
        changed ==> after.generation == (before.generation + 1) % 0x100_0000_0000_0000,
        !changed ==> after.generation == before.generation,
        keeps_all(*old(engine), *final(engine)),
        final(engine).reconciler == old(engine).reconciler,
        final(engine).shutting_down == old(engine).shutting_down,
{
    if changed {
        let state = final(engine).profile_state;
        let generation = (before.generation + 1) as u64;
        assert(state == engine::packed(profile, generation) as u64);
        let rest = generation % engine::PROFILE_GENERATIONS;
        assert(rest * 256 + profile.code() <= u64::MAX);
        assert(state == rest * 256 + profile.code());
        assert(state / 256 == rest && state % 256 == profile.code());
    }
}

/// A profile and its change are read back from the word that holds them.
pub proof fn law_packed_profile_is_unpacked(
    profile: PowerProfile,
    generation: u64,
    state: u64,
    snapshot: ProfileSnapshot,
)
    requires
        generation < 0x100_0000_0000_0000,
        call_ensures(engine::pack_profile_state, (profile, generation), state),
        call_ensures(engine::unpack_profile_state, (state,), snapshot),
    ensures
        snapshot.profile == profile,
        snapshot.generation == generation,
{
    engine::law_profile_state_reads_back(profile, generation);
}

/// A process that is looked after no longer is forgotten, and is told as it was known. A timer that
/// nothing needs any more is cancelled, and its worker parks.
pub proof fn law_removed_process_is_forgotten(
    engine: &mut RuleEngine,
    key: ProcessKey,
    now: u64,
    removal: Removal,
)
    requires
        call_ensures(RuleEngine::remove_key, (engine, key, now), removal),
    ensures
        !knows(*final(engine), key),
        keeps_others(*old(engine), *final(engine), key),
        removal.removed is Some <==> knows(*old(engine), key),
        removal.removed matches Some(process) ==> process == known(*old(engine), key),
        removal.cancel_timer <==> old(engine).reconciler == Some(ReconcilerPhase::TimerArmed)
            && !owes_a_check(*final(engine)),
        final(engine).reconciler == if !owes_a_check(*final(engine)) && (old(engine).reconciler
            == Some(ReconcilerPhase::TimerArmed) || old(engine).reconciler == Some(
            ReconcilerPhase::WakePending,
        )) {
            Some(ReconcilerPhase::Parked)
        } else {
            old(engine).reconciler
        },
{
    assert(final(engine)@.applied == old(engine)@.applied.remove(key.pair()));
    lemma_others_removed(*old(engine), *final(engine), key);
    lemma_owes(*final(engine));
}

/// While the engine ends, no process is removed.
pub proof fn law_ending_engine_removes_nothing(
    engine: &mut RuleEngine,
    key: ProcessKey,
    now: u64,
    removal: Option<Removal>,
)
    requires
        call_ensures(RuleEngine::remove_process_key, (engine, key, now), removal),
    ensures
        removal is None <==> old(engine).shutting_down,
        old(engine).shutting_down ==> keeps_all(*old(engine), *final(engine)),
        !old(engine).shutting_down ==> !knows(*final(engine), key),
        keeps_others(*old(engine), *final(engine), key),
{
    if !old(engine).shutting_down {
        assert(final(engine)@.applied == old(engine)@.applied.remove(key.pair()));
        lemma_others_removed(*old(engine), *final(engine), key);
    }
}

/// A new process is announced where it is watched, and forgotten where it cannot be. A worker is
/// woken only where it is parked and a check of the process is owed.
pub proof fn law_unwatched_process_is_forgotten(
    engine: &mut RuleEngine,
    key: ProcessKey,
    watched: bool,
    now: u64,
    step: WatchStep,
)
    requires
        call_ensures(RuleEngine::watch_process, (engine, key, watched, now), step),
    ensures
        step.watched == watched,
        watched ==> keeps_all(*old(engine), *final(engine)) && !step.cancel_timer,
        !watched ==> !knows(*final(engine), key) && !step.wake,
        keeps_others(*old(engine), *final(engine), key),
        step.wake <==> watched && knows(*old(engine), key) && is_owed_a_check(
            known(*old(engine), key),
        ) && old(engine).reconciler == Some(ReconcilerPhase::Parked),
        step.cancel_timer <==> !watched && old(engine).reconciler == Some(
            ReconcilerPhase::TimerArmed,
        ) && !owes_a_check(*final(engine)),
{
    if !watched {
        assert(final(engine)@.applied == old(engine)@.applied.remove(key.pair()));
        lemma_others_removed(*old(engine), *final(engine), key);
        lemma_owes(*final(engine));
    } else {
        assert(final(engine)@.applied == old(engine)@.applied);
    }
}

/// The worker goes on after an event: it stops where it is switched off, needs the timer as long as
/// a check is owed, and rests otherwise.
pub proof fn law_worker_needs_the_timer_for_owed_checks(
    engine: &mut RuleEngine,
    now: u64,
    step: WorkerStep,
)
    requires
        call_ensures(RuleEngine::arm_reconciler_if_pending, (engine, now), step),
    ensures
        keeps_all(*old(engine), *final(engine)),
        old(engine).reconciler is None || old(engine).reconciler == Some(
            ReconcilerPhase::Disabled,
        ) ==> step == (WorkerStep::Stop { cancel_timer: false }),
        old(engine).reconciler matches Some(phase) ==> {
            &&& phase != ReconcilerPhase::Disabled && !owes_a_check(*old(engine)) ==> final(
                engine).reconciler == Some(ReconcilerPhase::Parked) && step == (WorkerStep::Wait {
                cancel_timer: phase == ReconcilerPhase::TimerArmed,
            })
            &&& owes_a_check(*old(engine)) && phase == ReconcilerPhase::TimerArmed ==> step == (
            WorkerStep::Wait { cancel_timer: false }) && final(engine).reconciler == Some(phase)
            &&& owes_a_check(*old(engine)) && phase != ReconcilerPhase::TimerArmed && phase
                != ReconcilerPhase::Disabled ==> step
                == WorkerStep::ArmTimer && final(engine).reconciler == Some(phase)
        },
{
    lemma_owes(*old(engine));
    assert(final(engine)@.applied == old(engine)@.applied);
}

/// The worker stops when the engine ends and when its wait fails, looks for owed checks after an
/// insertion, and checks the processes when the timer that it armed runs out.
pub proof fn law_worker_checks_when_its_timer_runs_out(
    engine: &mut RuleEngine,
    wait: u32,
    now: u64,
    step: WorkerStep,
)
    requires
        call_ensures(RuleEngine::reconciliation_worker_loop, (engine, wait, now), step),
    ensures
        keeps_all(*old(engine), *final(engine)),
        wait == 0 ==> step == (WorkerStep::Stop { cancel_timer: false }) && final(engine).reconciler
            == old(engine).reconciler,
        step == WorkerStep::Reconcile <==> wait == 2 && old(engine).reconciler == Some(
            ReconcilerPhase::TimerArmed,
        ) && !old(engine).shutting_down,
        step == WorkerStep::Reconcile ==> final(engine).reconciler == Some(
            ReconcilerPhase::Running,
        ),
        wait == 2 && old(engine).reconciler != Some(ReconcilerPhase::TimerArmed) ==> step == (
        WorkerStep::Wait { cancel_timer: false }) && final(engine).reconciler == old(engine).reconciler,
        wait == 1 && step == WorkerStep::ArmTimer ==> owes_a_check(*old(engine)),
        wait == 1 && owes_a_check(*old(engine)) && (old(engine).reconciler == Some(
            ReconcilerPhase::Parked,
        ) || old(engine).reconciler == Some(ReconcilerPhase::WakePending)) ==> step
            == WorkerStep::ArmTimer,
        wait > 2 ==> step is Stop && final(engine).reconciler != Some(ReconcilerPhase::Parked)
            && final(engine).reconciler != Some(ReconcilerPhase::TimerArmed),
{
    lemma_owes(*old(engine));
    assert(final(engine)@.applied == old(engine)@.applied);
}

/// A pass that came to its end is followed by the timer as long as a check is owed, and by rest
/// otherwise; after one that did not, and after a thread that did not finish its change, the worker
/// stops and is switched off.
pub proof fn law_worker_rests_after_its_pass(
    engine: &mut RuleEngine,
    done: bool,
    now: u64,
    step: WorkerStep,
)
    requires
        call_ensures(RuleEngine::pass_ended, (engine, done, now), step),
        old(engine).reconciler == Some(ReconcilerPhase::Running),
    ensures
        keeps_all(*old(engine), *final(engine)),
        done && owes_a_check(*old(engine)) ==> step == WorkerStep::ArmTimer,
        done && !owes_a_check(*old(engine)) ==> step == (WorkerStep::Wait { cancel_timer: false })
            && final(engine).reconciler == Some(ReconcilerPhase::Parked),
        !done ==> step == (WorkerStep::Stop { cancel_timer: true }) && final(engine).reconciler
            == Some(ReconcilerPhase::Disabled),
{
    lemma_owes(*old(engine));
    assert(final(engine)@.applied == old(engine)@.applied);
}

/// An armed timer is waited for; a timer that cannot be armed switches the worker off. A worker that
/// was woken is waited for; one that cannot be is switched off.
pub proof fn law_broken_worker_is_switched_off(
    armed: &mut RuleEngine,
    woken: &mut RuleEngine,
    set: bool,
    signaled: bool,
    now: u64,
    keep_running: bool,
)
    requires
        call_ensures(RuleEngine::timer_armed, (armed, set, now), keep_running),
        call_ensures(RuleEngine::reconciler_woken, (woken, signaled, now), ()),
    ensures
        keep_running == set,
        final(armed).reconciler == Some(
            if set {
                ReconcilerPhase::TimerArmed
            } else {
                ReconcilerPhase::Disabled
            },
        ),
        final(woken).reconciler == Some(
            if signaled {
                ReconcilerPhase::WakePending
            } else {
                ReconcilerPhase::Disabled
            },
        ),
        keeps_all(*old(armed), *final(armed)),
        keeps_all(*old(woken), *final(woken)),
{
    assert(final(armed)@.applied == old(armed)@.applied);
    assert(final(woken)@.applied == old(woken)@.applied);
}

/// An engine that ends is told to its worker once, takes no process any more, and switches its
/// worker off, which cancels the timer.
pub proof fn law_engine_ends_once(
    engine: &mut RuleEngine,
    again: &mut RuleEngine,
    now: u64,
    later: u64,
    step: ShutdownStep,
    second: ShutdownStep,
    open: bool,
    process_id: u32,
    own: u32,
    resolve: bool,
)
    requires
        call_ensures(RuleEngine::shutdown, (engine, now), step),
        *old(again) == *final(engine),
        call_ensures(RuleEngine::shutdown, (again, later), second),
        call_ensures(RuleEngine::reconcile_processes, (&*final(engine),), open),
        call_ensures(RuleEngine::apply_to_pid, (&*final(engine), process_id, own), resolve),
    ensures
        final(engine).shutting_down,
        step.signal <==> !old(engine).shutting_down,
        !second.signal,
        step.cancel_timer <==> old(engine).reconciler is Some,
        final(engine).reconciler is Some ==> final(engine).reconciler == Some(
            ReconcilerPhase::Disabled,
        ),
        keeps_all(*old(engine), *final(engine)),
        !open,
        !resolve,
{
}

/// A process is resolved unless it is the idle process or the engine's own.
pub proof fn law_own_process_is_left_alone(
    engine: &RuleEngine,
    process_id: u32,
    own: u32,
    resolve: bool,
)
    requires
        call_ensures(RuleEngine::apply_to_pid, (engine, process_id, own), resolve),
        !engine.shutting_down,
    ensures
        resolve <==> process_id != 0 && process_id != own,
{
}

/// The processes to be checked are those that a check is owed to, each of them once.
pub proof fn law_owed_processes_are_checked(
    engine: &mut RuleEngine,
    keys: Vec<ProcessKey>,
    key: ProcessKey,
)
    requires
        call_ensures(RuleEngine::bounded_reconciliation_keys, (engine,), keys),
    ensures
        keys@.contains(key) <==> knows(*old(engine), key) && is_owed_a_check(
            known(*old(engine), key),
        ),
        forall|i: int, j: int|
            0 <= i < j < keys@.len() ==> #[trigger] keys@[i] != #[trigger] keys@[j],
        keeps_all(*old(engine), *final(engine)),
{
    assert(keys@.contains(key) <==> engine::pending(old(engine)@.applied).contains(key.pair()));
    assert(final(engine)@.applied == old(engine)@.applied);
}

/// The processes that are looked after are those that are told, each of them once.
pub proof fn law_known_processes_are_candidates(
    engine: &RuleEngine,
    keys: Vec<ProcessKey>,
    key: ProcessKey,
)
    requires
        call_ensures(RuleEngine::reconciliation_candidates, (engine,), keys),
    ensures
        keys@.contains(key) <==> knows(*engine, key),
        forall|i: int, j: int|
            0 <= i < j < keys@.len() ==> #[trigger] keys@[i] != #[trigger] keys@[j],
{
    assert(keys@.contains(key) <==> engine@.is_applied(key));
}

/// The processes that were not met are those that were known before and not observed since.
pub proof fn law_unobserved_processes_are_removed(
    removable: &Vec<ProcessKey>,
    observed: &Vec<ProcessKey>,
    keys: Vec<ProcessKey>,
    key: ProcessKey,
)
    requires
        call_ensures(engine::remove_unobserved, (removable, observed), keys),
    ensures
        keys@.contains(key) <==> removable@.contains(key) && !observed@.contains(key),
{
    let kept = |key: ProcessKey| !observed@.contains(key);
    if keys@.contains(key) {
        let k = choose|k: int| 0 <= k < keys@.len() && keys@[k] == key;
        removable@.lemma_filter_pred(kept, k);
        removable@.lemma_filter_contains_rev(kept, key);
    }
    if removable@.contains(key) && !observed@.contains(key) {
        let i = choose|i: int| 0 <= i < removable@.len() && removable@[i] == key;
        removable@.lemma_filter_contains(kept, i);
    }
}

/// What a wait on the end of the engine and on a process means, in this order.
pub proof fn law_first_signal_is_the_end(wait: u32, meaning: WatcherWait)
    requires
        call_ensures(engine::watcher_wait, (wait,), meaning),
    ensures
        meaning == WatcherWait::Shutdown <==> wait == 0,
        meaning == WatcherWait::ProcessSignaled <==> wait == 1,
        wait > 1 ==> meaning == WatcherWait::Unexpected(wait),
{
}

/// The parts that a process has lost are counted one by one.
pub proof fn law_lost_parts_are_counted(drift: ProcessPolicyDrift, count: u64, any: bool)
    requires
        call_ensures(ProcessPolicyDrift::components, (drift,), count),
        call_ensures(ProcessPolicyDrift::any, (drift,), any),
    ensures
        any <==> count > 0,
        drift.affinity && drift.eco_qos && drift.priority_class <==> count == 3,
        count == 1 <==> any && !(drift.affinity && drift.eco_qos) && !(drift.affinity
            && drift.priority_class) && !(drift.eco_qos && drift.priority_class),
        count <= 3,
{
}

/// What failed is told in the order in which it was tried.
pub proof fn law_failures_are_told_in_order(
    cleared: Option<ServiceError>,
    resolution: Vec<PolicyFailure>,
    application: Vec<PolicyFailure>,
    failures: Vec<PolicyFailure>,
)
    requires
        call_ensures(engine::application_failures, (cleared, resolution, application), failures),
    ensures
        cleared is None ==> failures@ == resolution@ + application@,
        cleared matches Some(error) ==> failures@.len() == 1 + resolution@.len()
            + application@.len() && failures@[0].error == error && failures@.subrange(
            1,
            failures@.len() as int,
        ) == resolution@ + application@,
{
    if cleared is Some {
        assert(failures@.subrange(1, failures@.len() as int) =~= resolution@ + application@);
    } else {
        assert(Seq::<PolicyFailure>::empty() + resolution@ =~= resolution@);
    }
}

/// What a rule asks of a process is told apart by its name, the profile and its change, and its
/// mode.
pub proof fn law_signatures_tell_rules_apart(
    rule: &PolicyRule,
    snapshot: ProfileSnapshot,
    signature: AppliedProcessSignature,
    other: AppliedProcessSignature,
    same: bool,
)
    requires
        call_ensures(AppliedProcessSignature::desired, (rule, snapshot), signature),
        call_ensures(AppliedProcessSignature::same, (&signature, &other), same),
    ensures
        signature.rule_image_name@ == rule.image_name@,
        signature.active_profile == snapshot.profile,
        signature.profile_generation == snapshot.generation,
        signature.mode == rule.mode,
        same <==> signature.rule_image_name@ == other.rule_image_name@ && signature.active_profile
            == other.active_profile && signature.profile_generation == other.profile_generation
            && signature.affinity@ == other.affinity@ && signature.mode == other.mode,
{
}

/// After a change of the power profile no rule counts as enforced: what every rule asks for has to
/// be resolved anew.
pub proof fn law_changed_profile_asks_for_every_rule(
    changed: &mut RuleEngine,
    applied: &mut RuleEngine,
    profile: PowerProfile,
    was_changed: bool,
    before: ProfileSnapshot,
    key: ProcessKey,
    rule: PolicyRule,
    intent: ApplicationIntent,
    step: PidStep,
)
    requires
        call_ensures(RuleEngine::profile_snapshot, (&*old(changed),), before),
        before.profile != profile,
        call_ensures(RuleEngine::set_power_profile, (changed, profile), was_changed),
        knows(*old(changed), key),
        known(*old(changed), key).signature.active_profile == before.profile,
        *old(applied) == *final(changed),
        call_ensures(RuleEngine::apply_selected, (applied, key, Some(rule), intent), step),
    ensures
        step matches PidStep::Rule { rule: told, step: RuleStep::Resolve { .. }, .. } && told
            == rule,
{
    let state = final(changed).profile_state;
    let generation = (before.generation + 1) as u64;
    let rest = generation % engine::PROFILE_GENERATIONS;
    assert(state == rest * 256 + profile.code());
    assert(state % 256 == profile.code());
    assert(engine::unpacked(state).profile == profile);
}

/// An insertion wakes a parked worker where a check of the process is owed, and changes nothing that
/// is known of any process. A worker that waits although no check is owed parks.
pub proof fn law_worker_is_woken_for_owed_checks(
    notified: &mut RuleEngine,
    parked: &mut RuleEngine,
    key: ProcessKey,
    wake: bool,
    now: u64,
    cancel: bool,
)
    requires
        call_ensures(RuleEngine::notify_reconciler_of_insertion, (notified, key), wake),
        call_ensures(RuleEngine::park_reconciler_if_no_pending, (parked, now), cancel),
    ensures
        wake <==> knows(*old(notified), key) && is_owed_a_check(known(*old(notified), key)) && old(
            notified).reconciler == Some(ReconcilerPhase::Parked),
        keeps_all(*old(notified), *final(notified)),
        final(notified).reconciler == old(notified).reconciler,
        cancel <==> !owes_a_check(*old(parked)) && old(parked).reconciler == Some(
            ReconcilerPhase::TimerArmed,
        ),
        keeps_all(*old(parked), *final(parked)),
        owes_a_check(*old(parked)) ==> final(parked).reconciler == old(parked).reconciler,
        !owes_a_check(*old(parked)) && (old(parked).reconciler == Some(ReconcilerPhase::TimerArmed)
            || old(parked).reconciler == Some(ReconcilerPhase::WakePending)) ==> final(
            parked).reconciler == Some(ReconcilerPhase::Parked),
{
    lemma_owes(*old(parked));
    assert(final(notified)@.applied == old(notified)@.applied);
    assert(final(parked)@.applied == old(parked)@.applied);
}

/// A pass begins exactly where the timer was armed for one; a worker that is switched off stays off,
/// and one that was there leaves a timer to be cancelled.
pub proof fn law_pass_begins_with_the_timer(
    beginning: &mut RuleEngine,
    ending: &mut RuleEngine,
    poisoned: &mut RuleEngine,
    now: u64,
    begun: bool,
    cancel: bool,
    step: WorkerStep,
)
    requires
        call_ensures(RuleEngine::begin_reconciliation_pass, (beginning, now), begun),
        call_ensures(RuleEngine::disable_reconciler, (ending, now), cancel),
        call_ensures(RuleEngine::state_poisoned, (poisoned, now), step),
    ensures
        begun <==> old(beginning).reconciler == Some(ReconcilerPhase::TimerArmed),
        begun ==> final(beginning).reconciler == Some(ReconcilerPhase::Running),
        !begun ==> final(beginning).reconciler == old(beginning).reconciler,
        keeps_all(*old(beginning), *final(beginning)),
        cancel <==> old(ending).reconciler is Some,
        cancel ==> final(ending).reconciler == Some(ReconcilerPhase::Disabled),
        keeps_all(*old(ending), *final(ending)),
        step == (WorkerStep::Stop { cancel_timer: old(poisoned).reconciler is Some }),
        old(poisoned).reconciler is Some ==> final(poisoned).reconciler == Some(
            ReconcilerPhase::Disabled,
        ),
{
    assert(final(beginning)@.applied == old(beginning)@.applied);
    assert(final(ending)@.applied == old(ending)@.applied);
}

/// The diagnostics count the processes that are known, those that a rule is enforced on, and those
/// that a check is owed to.
pub proof fn law_inventory_counts_the_processes(engine: &mut RuleEngine, owed: bool)
    requires
        call_ensures(RuleEngine::publish_diagnostic_inventory, (engine,), owed),
        old(engine).applied@.dom().finite(),
        old(engine).applied@.dom().len() <= u32::MAX,
    ensures
        owed <==> owes_a_check(*old(engine)),
        keeps_all(*old(engine), *final(engine)),
        final(engine).diagnostics.tracked_instances == old(engine).applied@.dom().len(),
        final(engine).diagnostics.enforcing_instances == old(engine).applied@.dom().filter(
            |pair: (u32, u64)| old(engine).applied@[pair].enforcing,
        ).len(),
        final(engine).diagnostics.pending_instances == old(engine).applied@.dom().filter(
            |pair: (u32, u64)| is_owed_a_check(old(engine).applied@[pair]),
        ).len(),
{
    lemma_owes(*old(engine));
    assert(final(engine)@ == old(engine)@.counted());
    let all = old(engine).applied@.dom();
    let enforced = engine::enforced(old(engine).applied@);
    let pending = engine::pending(old(engine).applied@);
    assert(enforced =~= all.filter(|pair: (u32, u64)| old(engine).applied@[pair].enforcing));
    assert(pending =~= all.filter(
        |pair: (u32, u64)| is_owed_a_check(old(engine).applied@[pair]),
    ));
    vstd::set_lib::lemma_len_subset(enforced, all);
    vstd::set_lib::lemma_len_subset(pending, all);
}

/// An event names a process where it has the number and the time of creation that the event told, if
/// it told them, and its image has a name of at most 260 characters, which is taken in lower case.
pub proof fn law_events_name_the_instance(
    resolved: &ResolvedProcess,
    expected: Option<ProcessKey>,
    image: Option<ImageName>,
)
    requires
        call_ensures(engine::identify, (resolved, expected), image),
    ensures
        expected matches Some(key) ==> (resolved.key.process_id != key.process_id
            || resolved.key.creation_time != key.creation_time ==> image is None),
        image matches Some(image) ==> image@ == identity::lowercase_name(resolved.image_name@)
            && 0 < image@.len() <= 260,
        (expected matches Some(key) ==> resolved.key == key) && 0 < identity::lowercase_name(
            resolved.image_name@,
        ).len() <= 260 ==> image is Some,
{
}

/// The rule of an image is the one that the registry answers; an answer that fails is none.
pub proof fn law_failed_answer_is_no_rule<P: PolicyStore>(
    store: &P,
    image: &ImageName,
    rule: Option<PolicyRule>,
)
    requires
        call_ensures(engine::select_rule_for_image::<P>, (store, image), rule),
    ensures
        exists|answer: Result<Option<PolicyRule>, RegistryError>|
            #![trigger call_ensures(P::get_policy, (store, image), answer)]
            call_ensures(P::get_policy, (store, image), answer) && (answer is Err ==> rule is None)
                && (answer matches Ok(answered) ==> rule == answered),
{
    let answer = choose|answer: Result<Option<PolicyRule>, RegistryError>| #[trigger]
        registry::was_answered(store, *image, answer) && rule == engine::answered_rule(answer);
    assert(registry::was_answered(store, *image, answer));
    assert(call_ensures(P::get_policy, (store, image), answer));
}

/// The job of a process is the one that is known of it.
pub proof fn law_known_job_is_retained(engine: &RuleEngine, key: ProcessKey, job: Option<u64>)
    requires
        call_ensures(RuleEngine::retained_job, (engine, key), job),
    ensures
        !knows(*engine, key) ==> job is None,
        knows(*engine, key) ==> job == known(*engine, key).priority_job,
{
}

/// A batch that ends well has asked about every process, or the engine ends. Where one of the
/// processes had become another and the engine does not end, all processes were gone through.
pub proof fn law_batch_goes_through_the_processes<
    D: Fn() -> bool,
    F: Fn(ProcessKey) -> Result<bool, ServiceError>,
    G: FnOnce() -> Result<(), ServiceError>,
>(keys: Vec<ProcessKey>, ends: D, reconcile: F, go_through: G, done: Result<(), ServiceError>)
    requires
        call_ensures(
            engine::run_bounded_reconciliation_batch::<D, F, G>,
            (keys, ends, reconcile, go_through),
            done,
        ),
        !call_ensures(ends, (), true),
    ensures
        (forall|i: int, answer: Result<bool, ServiceError>|
            0 <= i < keys@.len() && #[trigger] call_ensures(reconcile, (keys@[i],), answer)
                ==> answer == Ok::<bool, ServiceError>(false)) ==> done is Ok,
        keys@.len() > 0 && (forall|i: int, answer: Result<bool, ServiceError>|
            0 <= i < keys@.len() && #[trigger] call_ensures(reconcile, (keys@[i],), answer)
                ==> answer is Err) ==> done is Err,
        keys@.len() > 0 && (forall|i: int, answer: Result<bool, ServiceError>|
            0 <= i < keys@.len() && #[trigger] call_ensures(reconcile, (keys@[i],), answer)
                ==> answer == Ok::<bool, ServiceError>(true)) ==> call_ensures(
            go_through,
            (),
            done,
        ),
{
    let answers = choose|answers: Seq<bool>| #[trigger]
        engine::were_checked(reconcile, keys@, answers) && engine::batch_comes_to(
            keys@,
            answers,
            ends,
            reconcile,
            go_through,
            done,
        );
    assert(engine::were_checked(reconcile, keys@, answers));
    if answers.len() > 0 {
        assert(call_ensures(reconcile, (keys@[0],), Ok::<bool, ServiceError>(answers[0])));
    }
    if answers.contains(true) {
        let i = choose|i: int| 0 <= i < answers.len() && answers[i] == true;
        assert(call_ensures(reconcile, (keys@[i],), Ok::<bool, ServiceError>(answers[i])));
    }
    if answers.len() < keys@.len() {
        if let Err(error) = done {
            let k = answers.len() as int;
            if call_ensures(reconcile, (keys@[k],), Err::<bool, ServiceError>(error)) {
                assert(call_ensures(reconcile, (keys@[k],), Err::<bool, ServiceError>(error)));
            }
        }
    }
    if answers.len() > 0 && answers[0] == true {
        assert(answers.contains(true));
    }
}

/// Looking at a process is counted: each check that is begun, each part that could not be read, each
/// process that had lost nothing and was read in full. Nothing else of the diagnostics changes.
pub proof fn law_checks_and_readings_are_counted(
    checking: &mut RuleEngine,
    inspecting: &mut RuleEngine,
    key: ProcessKey,
    check: Option<ReconciliationCheck>,
    inspection: PolicyInspection,
    step: InspectionStep,
)
    requires
        call_ensures(RuleEngine::reconcile_tracked_process, (checking, key), check),
        call_ensures(RuleEngine::reconcile_inspected, (inspecting, key, inspection), step),
    ensures
        check is None ==> final(checking).diagnostics == old(checking).diagnostics,
        check is Some ==> final(checking).diagnostics == (DiagnosticPublisher {
            candidates_checked: one_more(old(checking).diagnostics.candidates_checked) as u64,
            ..old(checking).diagnostics
        }),
        final(inspecting).diagnostics == (DiagnosticPublisher {
            policy_query_failures: added(
                old(inspecting).diagnostics.policy_query_failures,
                inspection.failures@.len() as int,
            ) as u64,
            clean_candidates: if step is Repair || inspection.failures@.len() > 0 {
                old(inspecting).diagnostics.clean_candidates
            } else {
                one_more(old(inspecting).diagnostics.clean_candidates) as u64
            },
            ..old(inspecting).diagnostics
        }),
{
    assert(final(checking)@.diagnostics == final(checking).diagnostics);
    assert(final(inspecting)@ == old(inspecting)@.inspected(key, inspection));
}

/// What could not be read of a process that had lost nothing is told of it; the job of a process that
/// had lost something is handed out for the repair.
pub proof fn law_readings_are_kept_with_the_process(
    engine: &mut RuleEngine,
    key: ProcessKey,
    inspection: PolicyInspection,
    step: InspectionStep,
)
    requires
        call_ensures(RuleEngine::reconcile_inspected, (engine, key, inspection), step),
        knows(*old(engine), key),
    ensures
        step is Repair ==> known(*final(engine), key) == (AppliedProcess {
            priority_job: None,
            ..known(*old(engine), key)
        }),
        !(step is Repair) && inspection.failures@.len() == 0 ==> known(*final(engine), key)
            == known(*old(engine), key),
        !(step is Repair) && inspection.failures@.len() > 0 ==> known(*final(engine), key) == (
        AppliedProcess { policy_failures: inspection.failures, ..known(*old(engine), key) }),
{
    assert(final(engine)@ == old(engine)@.inspected(key, inspection));
    assert(final(engine)@.applied[key.pair()] == known(*final(engine), key));
}

/// A repair is counted once, with the parts that were lost and those that could not be set again.
pub proof fn law_repairs_are_counted(
    engine: &mut RuleEngine,
    key: ProcessKey,
    drift: ProcessPolicyDrift,
    inspected: Vec<PolicyFailure>,
    application: PolicyApplication,
)
    requires
        call_ensures(
            RuleEngine::reconcile_repaired,
            (engine, key, drift, inspected, application),
            (),
        ),
    ensures
        final(engine).diagnostics == (DiagnosticPublisher {
            repair_candidates: one_more(old(engine).diagnostics.repair_candidates) as u64,
            drifted_components: added(
                old(engine).diagnostics.drifted_components,
                (if drift.affinity {
                    1int
                } else {
                    0
                }) + (if drift.eco_qos {
                    1int
                } else {
                    0
                }) + (if drift.priority_class {
                    1int
                } else {
                    0
                }),
            ) as u64,
            setter_failures: added(
                old(engine).diagnostics.setter_failures,
                application.failures@.len() as int,
            ) as u64,
            ..old(engine).diagnostics
        }),
{
    let failures = choose|failures: Vec<PolicyFailure>|
        {
            &&& failures@ == inspected@ + application.failures@
            &&& final(engine)@ == #[trigger] old(engine)@.repaired(
                key,
                drift,
                application,
                failures,
            )
        };
    assert(final(engine)@.diagnostics == final(engine).diagnostics);
}

/// A process that has become another one is counted, and so is one that cannot be resolved.
pub proof fn law_lost_processes_are_counted(
    identifying: &mut RuleEngine,
    unresolving: &mut RuleEngine,
    key: ProcessKey,
    check: &ReconciliationCheck,
    resolved: &ResolvedProcess,
    drifted: bool,
    wait: u32,
    gone: bool,
)
    requires
        call_ensures(RuleEngine::reconcile_identity, (identifying, key, check, resolved), drifted),
        call_ensures(RuleEngine::reconcile_unresolved, (unresolving, wait), gone),
    ensures
        !drifted ==> final(identifying).diagnostics == old(identifying).diagnostics,
        drifted ==> final(identifying).diagnostics == (DiagnosticPublisher {
            identity_drifts: one_more(old(identifying).diagnostics.identity_drifts) as u64,
            ..old(identifying).diagnostics
        }),
        final(unresolving).diagnostics == (DiagnosticPublisher {
            resolution_failures: one_more(
                old(unresolving).diagnostics.resolution_failures,
            ) as u64,
            identity_drifts: if gone {
                one_more(old(unresolving).diagnostics.identity_drifts) as u64
            } else {
                old(unresolving).diagnostics.identity_drifts
            },
            ..old(unresolving).diagnostics
        }),
{
    assert(final(identifying)@.diagnostics == final(identifying).diagnostics);
    assert(final(unresolving)@.diagnostics == final(unresolving).diagnostics);
}

/// What the worker does is counted and its phase is told, with the time: a timer that is armed, a
/// signal that wakes it, a pass that begins. What fails switches it off and is told as the last
/// failure.
pub proof fn law_steps_of_the_worker_are_counted(
    arming: &mut RuleEngine,
    waking: &mut RuleEngine,
    beginning: &mut RuleEngine,
    set: bool,
    signaled: bool,
    now: u64,
    keep_running: bool,
    begun: bool,
)
    requires
        call_ensures(RuleEngine::timer_armed, (arming, set, now), keep_running),
        call_ensures(RuleEngine::reconciler_woken, (waking, signaled, now), ()),
        call_ensures(RuleEngine::begin_reconciliation_pass, (beginning, now), begun),
    ensures
        set ==> final(arming).diagnostics.timer_arms == one_more(old(arming).diagnostics.timer_arms)
            && final(arming).diagnostics.worker_failures == old(arming).diagnostics.worker_failures
            && final(arming).diagnostics.last_failure == old(arming).diagnostics.last_failure
            && final(arming).diagnostics.worker_enabled == old(arming).diagnostics.worker_enabled,
        !set ==> final(arming).diagnostics.timer_arms == old(arming).diagnostics.timer_arms
            && final(arming).diagnostics.worker_failures == one_more(
            old(arming).diagnostics.worker_failures,
        ) && final(arming).diagnostics.worker_enabled == 0,
        signaled ==> final(waking).diagnostics.wake_signals == one_more(
            old(waking).diagnostics.wake_signals,
        ) && final(waking).diagnostics.worker_failures == old(waking).diagnostics.worker_failures,
        !signaled ==> final(waking).diagnostics.wake_signals == old(waking).diagnostics.wake_signals
            && final(waking).diagnostics.worker_failures == one_more(
            old(waking).diagnostics.worker_failures,
        ) && final(waking).diagnostics.worker_enabled == 0,
        !set && !signaled ==> final(arming).diagnostics.last_failure
            != final(waking).diagnostics.last_failure && final(arming).diagnostics.last_failure != 0
            && final(waking).diagnostics.last_failure != 0,
        begun ==> final(beginning).diagnostics.passes_started == one_more(
            old(beginning).diagnostics.passes_started,
        ) && final(beginning).diagnostics.last_transition_unix_ms == now,
        !begun ==> final(beginning).diagnostics == old(beginning).diagnostics,
        final(arming).diagnostics.last_transition_unix_ms == now,
        final(waking).diagnostics.last_transition_unix_ms == now,
{
    assert(final(arming)@.diagnostics == final(arming).diagnostics);
    assert(final(waking)@.diagnostics == final(waking).diagnostics);
    assert(final(beginning)@.diagnostics == final(beginning).diagnostics);
}

/// The diagnostics tell the phase that the worker is in, and no other one by the same number.
pub proof fn law_phase_of_the_worker_is_told(
    arming: &mut RuleEngine,
    waking: &mut RuleEngine,
    beginning: &mut RuleEngine,
    parking: &mut RuleEngine,
    ending: &mut RuleEngine,
    now: u64,
    keep_running: bool,
    begun: bool,
    step: WorkerStep,
    end: ShutdownStep,
    numbers: (u32, u32, u32, u32, u32),
)
    requires
        call_ensures(RuleEngine::timer_armed, (arming, true, now), keep_running),
        call_ensures(RuleEngine::reconciler_woken, (waking, true, now), ()),
        call_ensures(RuleEngine::begin_reconciliation_pass, (beginning, now), begun),
        call_ensures(RuleEngine::arm_reconciler_if_pending, (parking, now), step),
        call_ensures(RuleEngine::shutdown, (ending, now), end),
        call_ensures(DiagnosticPhase::to_u32, (DiagnosticPhase::TimerArmed,), numbers.0),
        call_ensures(DiagnosticPhase::to_u32, (DiagnosticPhase::WakePending,), numbers.1),
        call_ensures(DiagnosticPhase::to_u32, (DiagnosticPhase::Running,), numbers.2),
        call_ensures(DiagnosticPhase::to_u32, (DiagnosticPhase::Parked,), numbers.3),
        call_ensures(DiagnosticPhase::to_u32, (DiagnosticPhase::Shutdown,), numbers.4),
    ensures
        final(arming).diagnostics.phase == numbers.0,
        final(waking).diagnostics.phase == numbers.1,
        begun ==> final(beginning).diagnostics.phase == numbers.2,
        (old(parking).reconciler matches Some(phase) && phase != ReconcilerPhase::Disabled)
            && !owes_a_check(*old(parking)) ==> final(parking).diagnostics.phase == numbers.3
            && final(parking).diagnostics.last_transition_unix_ms == now && (
        final(parking).diagnostics.timer_cancellations == if old(parking).reconciler == Some(
            ReconcilerPhase::TimerArmed,
        ) {
            one_more(old(parking).diagnostics.timer_cancellations)
        } else {
            old(parking).diagnostics.timer_cancellations as int
        }),
        final(ending).diagnostics.phase == numbers.4,
        final(ending).diagnostics.worker_enabled == 0,
        final(ending).diagnostics.last_transition_unix_ms == now,
{
    lemma_owes(*old(parking));
    assert(final(arming)@.diagnostics == final(arming).diagnostics);
    assert(final(waking)@.diagnostics == final(waking).diagnostics);
    assert(final(beginning)@.diagnostics == final(beginning).diagnostics);
    assert(final(parking)@.diagnostics == final(parking).diagnostics);
    assert(final(ending)@.diagnostics == final(ending).diagnostics);
}

/// A pass is counted as completed where it was; where it was not, a failure is counted and the worker
/// is shown as switched off. A wait that fails is told as such.
pub proof fn law_ends_of_passes_are_counted(
    passing: &mut RuleEngine,
    waiting: &mut RuleEngine,
    done: bool,
    wait: u32,
    now: u64,
    step: WorkerStep,
    next: WorkerStep,
)
    requires
        call_ensures(RuleEngine::pass_ended, (passing, done, now), step),
        call_ensures(RuleEngine::reconciliation_worker_loop, (waiting, wait, now), next),
    ensures
        done ==> final(passing).diagnostics.passes_completed == one_more(
            old(passing).diagnostics.passes_completed,
        ) && final(passing).diagnostics.worker_failures
            == old(passing).diagnostics.worker_failures,
        !done ==> final(passing).diagnostics.passes_completed
            == old(passing).diagnostics.passes_completed
            && final(passing).diagnostics.worker_failures == one_more(
            old(passing).diagnostics.worker_failures,
        ) && final(passing).diagnostics.worker_enabled == 0,
        wait > 2 ==> final(waiting).diagnostics.worker_failures == one_more(
            old(waiting).diagnostics.worker_failures,
        ) && final(waiting).diagnostics.worker_enabled == 0 && next == (WorkerStep::Stop {
            cancel_timer: old(waiting).reconciler is Some,
        }),
        wait > 2 && !done ==> final(waiting).diagnostics.last_failure
            != final(passing).diagnostics.last_failure,
        wait == 2 && old(waiting).reconciler == Some(ReconcilerPhase::TimerArmed) ==> final(
            waiting).diagnostics.passes_started == one_more(
            old(waiting).diagnostics.passes_started,
        ),
        wait == 2 && old(waiting).reconciler == Some(ReconcilerPhase::TimerArmed) && old(
            waiting).shutting_down ==> final(waiting).diagnostics.passes_completed == one_more(
            old(waiting).diagnostics.passes_completed,
        ) && (next == WorkerStep::ArmTimer <==> owes_a_check(*old(waiting))),
        wait <= 2 ==> final(waiting).diagnostics.worker_failures
            == old(waiting).diagnostics.worker_failures,
        wait == 0 ==> final(waiting).diagnostics == old(waiting).diagnostics,
{
    lemma_owes(*old(waiting));
    assert(final(passing)@.diagnostics == final(passing).diagnostics);
    assert(final(waiting)@.diagnostics == final(waiting).diagnostics);
}

/// The signature of a rule tells its affinity as the rule shows it.
pub proof fn law_signature_tells_the_affinity(
    engine: &mut RuleEngine,
    key: ProcessKey,
    rule: PolicyRule,
    intent: ApplicationIntent,
    step: PidStep,
    shown: String,
)
    requires
        call_ensures(RuleEngine::apply_selected, (engine, key, Some(rule), intent), step),
        call_ensures(PolicyRule::affinity_log_value, (&rule,), shown),
    ensures
        step matches PidStep::Rule { signature, .. } && signature.affinity@ == shown@,
{
}

/// A known process that a rule is applied to keeps its path, and one that no rule applies to any more
/// keeps its names, its path, its handle and its rule's signature.
pub proof fn law_known_process_keeps_its_names(
    applying: &mut RuleEngine,
    untracking: &mut RuleEngine,
    process: ResolvedProcess,
    image: ImageName,
    signature: AppliedProcessSignature,
    policy: ResolvedProcessPolicy,
    application: PolicyApplication,
    inserted: bool,
    key: ProcessKey,
    cleared: Option<ServiceError>,
    now: u64,
    cancel: bool,
)
    requires
        call_ensures(
            RuleEngine::apply_or_update_rule,
            (applying, process, image, signature, policy, application),
            inserted,
        ),
        call_ensures(
            RuleEngine::untrack_if_no_active_rule,
            (untracking, key, cleared, now),
            cancel,
        ),
    ensures
        !inserted ==> known(*final(applying), process.key).image_path == known(
            *old(applying),
            process.key,
        ).image_path,
        final(applying).diagnostics == old(applying).diagnostics,
        knows(*old(untracking), key) && known(*old(untracking), key).priority_job is Some ==> {
            let before = known(*old(untracking), key);
            let after = known(*final(untracking), key);
            &&& after.image_name == before.image_name
            &&& after.normalized_image_name == before.normalized_image_name
            &&& after.image_path == before.image_path
            &&& after.process_handle == before.process_handle
            &&& after.signature == before.signature
        },
{
    assert(final(applying)@.diagnostics == final(applying).diagnostics);
    if knows(*old(untracking), key) && known(*old(untracking), key).priority_job is Some {
        let failures = choose|failures: Vec<PolicyFailure>|
            {
                &&& failures@ == engine::clearing_failures(cleared)
                &&& final(untracking)@ == #[trigger] old(untracking)@.retaining(
                    key,
                    failures,
                ).parked(now)
                &&& cancel == old(untracking)@.retaining(key, failures).is_idly_armed()
            };
        assert(final(untracking)@.applied[key.pair()] == known(*final(untracking), key));
    }
}

} // verus!
