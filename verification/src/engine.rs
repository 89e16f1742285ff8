//! The rule engine: which processes a policy is enforced on, and how each of them is checked again
//! a bounded number of times.

use vstd::prelude::*;

use std::collections::BTreeMap;

use crate::diagnostics;
use crate::diagnostics::{DiagnosticFailure, DiagnosticPhase, DiagnosticPublisher};
use crate::identity::ImageName;
use crate::power::PowerProfile;
use crate::process::ProcessMode;
use crate::registry;
use crate::registry::{PolicyRule, PolicyStore, RegistryError};
use crate::service::ServiceError;
use crate::text;

verus! {

broadcast use vstd::laws_cmp::group_laws_cmp;

pub const MUTATION_STRIPE_COUNT: usize = 64;

/// How often an instance of a process is checked again.
pub const MAX_RECONCILIATION_CHECKS: u8 = 3;

/// When a check is due, in units of 100 ns; negative, that is from now.
pub const RECONCILIATION_DUE_100NS: i64 = -600_000_000;

pub const RECONCILIATION_TOLERABLE_DELAY_MILLISECONDS: u32 = 30_000;

/// The wait on a handle that is signaled.
pub const WAIT_OBJECT_0: u32 = 0;

/// An instance of a process: a number may be used again, a number with a time of creation is not.
#[derive(Clone, Copy, Debug, Eq, Hash, PartialEq, Structural)]
pub struct ProcessKey {
    pub process_id: u32,
    pub creation_time: u64,
}

impl ProcessKey {
    pub open spec fn spec_pair(self) -> (u32, u64) {
        (self.process_id, self.creation_time)
    }

    #[verifier::when_used_as_spec(spec_pair)]
    pub fn pair(self) -> (pair: (u32, u64))
        ensures
            pair == self.pair(),
    {
        (self.process_id, self.creation_time)
    }
}

/// A power profile, and how often the profile had changed when it became active.
#[derive(Clone, Copy, Debug, Eq, PartialEq, Structural)]
pub struct ProfileSnapshot {
    pub profile: PowerProfile,
    pub generation: u64,
}

/// As many generations as are told apart.
pub const PROFILE_GENERATIONS: u64 = 0x100_0000_0000_0000;

pub open spec fn packed(profile: PowerProfile, generation: u64) -> int {
    (generation % PROFILE_GENERATIONS) * 256 + profile.code()
}

pub open spec fn unpacked(state: u64) -> ProfileSnapshot {
    ProfileSnapshot {
        profile: if state % 256 == 0 {
            PowerProfile::Efficiency
        } else if state % 256 == 2 {
            PowerProfile::Performance
        } else {
            PowerProfile::Balanced
        },
        generation: state / 256,
    }
}

/// A profile and its generation in one word.
pub fn pack_profile_state(profile: PowerProfile, generation: u64) -> (state: u64)
    ensures
        state == packed(profile, generation),
{
    let code: u64 = profile.to_u8() as u64;
    assert(((generation << 8) | code) == (generation % 0x100_0000_0000_0000) * 256 + code)
        by (bit_vector)
        requires
            code < 256,
    ;
    (generation << 8) | code
}

pub fn unpack_profile_state(state: u64) -> (snapshot: ProfileSnapshot)
    ensures
        snapshot == unpacked(state),
{
    let code: u8 = (state % 256) as u8;
    let profile = match PowerProfile::from_u8(code) {
        Some(profile) => profile,
        None => PowerProfile::Balanced,
    };
    ProfileSnapshot { profile, generation: state / 256 }
}

/// A profile and its generation are read back from the word that holds them.
pub proof fn law_profile_state_reads_back(profile: PowerProfile, generation: u64)
    requires
        generation < PROFILE_GENERATIONS,
    ensures
        packed(profile, generation) <= u64::MAX,
        unpacked(packed(profile, generation) as u64) == (ProfileSnapshot { profile, generation }),
{
}

/// What a rule asked of a process when it was applied.
#[derive(Debug, Eq, PartialEq)]
pub struct AppliedProcessSignature {
    pub rule_image_name: String,
    pub active_profile: PowerProfile,
    pub profile_generation: u64,
    pub affinity: String,
    pub mode: Option<ProcessMode>,
}

pub struct SignatureView {
    pub rule_image_name: Seq<char>,
    pub active_profile: PowerProfile,
    pub profile_generation: u64,
    pub affinity: Seq<char>,
    pub mode: Option<ProcessMode>,
}

impl View for AppliedProcessSignature {
    type V = SignatureView;

    open spec fn view(&self) -> SignatureView {
        SignatureView {
            rule_image_name: self.rule_image_name@,
            active_profile: self.active_profile,
            profile_generation: self.profile_generation,
            affinity: self.affinity@,
            mode: self.mode,
        }
    }
}

/// What `rule` asks of a process under `profile`.
pub open spec fn desired_signature(rule: PolicyRule, profile: ProfileSnapshot) -> SignatureView {
    SignatureView {
        rule_image_name: rule.image_name@,
        active_profile: profile.profile,
        profile_generation: profile.generation,
        affinity: rule.affinity_text(),
        mode: rule.mode,
    }
}

impl AppliedProcessSignature {
    /// What `rule` asks of a process under `profile`.
    pub fn desired(rule: &PolicyRule, profile: ProfileSnapshot) -> (signature: Self)
        ensures
            signature@ == desired_signature(*rule, profile),
    {
        AppliedProcessSignature {
            rule_image_name: rule.image_name.as_str().to_owned(),
            active_profile: profile.profile,
            profile_generation: profile.generation,
            affinity: rule.affinity_log_value(),
            mode: rule.mode,
        }
    }

    pub fn same(&self, other: &Self) -> (same: bool)
        ensures
            same == (self@ == other@),
    {
        text::same_text(self.rule_image_name.as_str(), other.rule_image_name.as_str())
            && self.active_profile == other.active_profile && self.profile_generation
            == other.profile_generation && text::same_text(
            self.affinity.as_str(),
            other.affinity.as_str(),
        ) && self.mode == other.mode
    }
}

/// What is set on a process, in the terms of the operating system.
#[derive(Clone, Copy, Debug, Eq, PartialEq, Structural)]
pub struct ResolvedProcessPolicy {
    pub affinity: Option<usize>,
    pub eco_qos: bool,
    pub priority_class: Option<u32>,
}

pub open spec fn no_policy() -> ResolvedProcessPolicy {
    ResolvedProcessPolicy { affinity: None, eco_qos: false, priority_class: None }
}

impl Default for ResolvedProcessPolicy {
    fn default() -> (policy: Self)
        ensures
            policy == no_policy(),
    {
        ResolvedProcessPolicy { affinity: None, eco_qos: false, priority_class: None }
    }
}

/// Which parts of a policy a process has lost.
#[derive(Clone, Copy, Debug, Default, Eq, PartialEq, Structural)]
pub struct ProcessPolicyDrift {
    pub affinity: bool,
    pub eco_qos: bool,
    pub priority_class: bool,
}

pub open spec fn one_if(lost: bool) -> int {
    if lost {
        1
    } else {
        0
    }
}

impl ProcessPolicyDrift {
    pub open spec fn spec_any(self) -> bool {
        self.affinity || self.eco_qos || self.priority_class
    }

    #[verifier::when_used_as_spec(spec_any)]
    pub fn any(self) -> (drifted: bool)
        ensures
            drifted == self.any(),
    {
        self.affinity || self.eco_qos || self.priority_class
    }

    pub open spec fn size(self) -> int {
        one_if(self.affinity) + one_if(self.eco_qos) + one_if(self.priority_class)
    }

    pub fn components(self) -> (count: u64)
        ensures
            count == self.size(),
    {
        let affinity: u64 = if self.affinity {
            1
        } else {
            0
        };
        let eco_qos: u64 = if self.eco_qos {
            1
        } else {
            0
        };
        let priority_class: u64 = if self.priority_class {
            1
        } else {
            0
        };
        affinity + eco_qos + priority_class
    }
}

/// A part of a policy that could not be set or read.
#[derive(Debug, Eq, PartialEq)]
pub struct PolicyFailure {
    pub component: &'static str,
    pub error: ServiceError,
}

/// What came of setting a policy.
#[derive(Debug, Eq, PartialEq)]
pub struct PolicyApplication {
    pub priority_job: Option<u64>,
    pub failures: Vec<PolicyFailure>,
}

/// What came of reading a policy back.
#[derive(Debug, Eq, PartialEq)]
pub struct PolicyInspection {
    pub drift: ProcessPolicyDrift,
    pub failures: Vec<PolicyFailure>,
}

/// A process that was found by its number.
#[derive(Debug, Eq, PartialEq)]
pub struct ResolvedProcess {
    pub key: ProcessKey,
    pub image_name: String,
    pub image_path: String,
    pub handle: u64,
}

/// A process that the engine looks after.
#[derive(Debug, Eq, PartialEq)]
pub struct AppliedProcess {
    pub image_name: String,
    pub normalized_image_name: ImageName,
    pub image_path: String,
    pub signature: AppliedProcessSignature,
    pub enforcing: bool,
    pub policy: ResolvedProcessPolicy,
    pub process_handle: u64,
    pub reconciliation_checks: u8,
    pub priority_job: Option<u64>,
    pub policy_failures: Vec<PolicyFailure>,
}

impl AppliedProcess {
    /// Whether another check of this process is owed.
    pub open spec fn spec_is_pending(&self) -> bool {
        self.enforcing && self.reconciliation_checks < MAX_RECONCILIATION_CHECKS
    }

    #[verifier::when_used_as_spec(spec_is_pending)]
    pub fn is_pending(&self) -> (pending: bool)
        ensures
            pending == self.is_pending(),
    {
        self.enforcing && self.reconciliation_checks < MAX_RECONCILIATION_CHECKS
    }
}

/// Why a rule is applied: an event named the process, or all processes are gone through.
#[derive(Clone, Copy, Debug, Eq, PartialEq, Structural)]
pub enum ApplicationIntent {
    Observe,
    Force,
}

/// What the worker that checks processes again is doing.
#[derive(Clone, Copy, Debug, Eq, PartialEq, Structural)]
pub enum ReconcilerPhase {
    Parked,
    WakePending,
    TimerArmed,
    Running,
    Disabled,
}

impl ReconcilerPhase {
    pub open spec fn spec_shown(self) -> DiagnosticPhase {
        match self {
            ReconcilerPhase::Parked => DiagnosticPhase::Parked,
            ReconcilerPhase::WakePending => DiagnosticPhase::WakePending,
            ReconcilerPhase::TimerArmed => DiagnosticPhase::TimerArmed,
            ReconcilerPhase::Running => DiagnosticPhase::Running,
            ReconcilerPhase::Disabled => DiagnosticPhase::Disabled,
        }
    }

    /// How the phase is shown in the diagnostics.
    #[verifier::when_used_as_spec(spec_shown)]
    pub fn shown(self) -> (phase: DiagnosticPhase)
        ensures
            phase == self.shown(),
    {
        match self {
            ReconcilerPhase::Parked => DiagnosticPhase::Parked,
            ReconcilerPhase::WakePending => DiagnosticPhase::WakePending,
            ReconcilerPhase::TimerArmed => DiagnosticPhase::TimerArmed,
            ReconcilerPhase::Running => DiagnosticPhase::Running,
            ReconcilerPhase::Disabled => DiagnosticPhase::Disabled,
        }
    }
}

/// Counts a check, as long as one is owed, and says the how manieth it is.
pub fn advance_reconciliation_check(counter: &mut u8) -> (check: Option<u8>)
    ensures
        *old(counter) >= MAX_RECONCILIATION_CHECKS ==> check is None && *final(counter)
            == *old(counter),
        *old(counter) < MAX_RECONCILIATION_CHECKS ==> *final(counter) == *old(counter) + 1
            && check == Some(*final(counter)),
{
    if *counter >= MAX_RECONCILIATION_CHECKS {
        return None;
    }
    *counter = *counter + 1;
    Some(*counter)
}

/// The processes that a rule is enforced on.
pub open spec fn enforced(applied: Map<(u32, u64), AppliedProcess>) -> Set<(u32, u64)> {
    applied.dom().filter(|pair: (u32, u64)| applied[pair].enforcing)
}

/// The processes that another check is owed to.
pub open spec fn pending(applied: Map<(u32, u64), AppliedProcess>) -> Set<(u32, u64)> {
    applied.dom().filter(|pair: (u32, u64)| applied[pair].is_pending())
}

/// What the engine knows.
#[verifier::ext_equal]
pub struct EngineView {
    pub profile_state: u64,
    pub applied: Map<(u32, u64), AppliedProcess>,
    pub shutting_down: bool,
    pub reconciler: Option<ReconcilerPhase>,
    pub diagnostics: DiagnosticPublisher,
}

impl EngineView {
    /// The diagnostics count the processes anew.
    pub open spec fn counted(self) -> EngineView {
        EngineView {
            diagnostics: DiagnosticPublisher {
                tracked_instances: diagnostics::capped(self.applied.dom().len()),
                enforcing_instances: diagnostics::capped(enforced(self.applied).len()),
                pending_instances: diagnostics::capped(pending(self.applied).len()),
                ..self.diagnostics
            },
            ..self
        }
    }

    /// The worker enters a phase.
    pub open spec fn in_phase(self, phase: ReconcilerPhase, now: u64) -> EngineView {
        EngineView {
            reconciler: Some(phase),
            diagnostics: DiagnosticPublisher {
                phase: phase.shown().code(),
                last_transition_unix_ms: now,
                ..self.diagnostics
            },
            ..self
        }
    }

    pub open spec fn with_cancellation(self) -> EngineView {
        EngineView {
            diagnostics: DiagnosticPublisher {
                timer_cancellations: diagnostics::counted(self.diagnostics.timer_cancellations, 1),
                ..self.diagnostics
            },
            ..self
        }
    }

    pub open spec fn with_failure(self, failure: DiagnosticFailure) -> EngineView {
        EngineView {
            diagnostics: DiagnosticPublisher {
                last_failure: failure.code(),
                worker_failures: diagnostics::counted(self.diagnostics.worker_failures, 1),
                ..self.diagnostics
            },
            ..self
        }
    }

    pub open spec fn with_worker(self, enabled: bool) -> EngineView {
        EngineView {
            diagnostics: DiagnosticPublisher {
                worker_enabled: if enabled {
                    1
                } else {
                    0
                },
                ..self.diagnostics
            },
            ..self
        }
    }

    /// The worker gives up.
    pub open spec fn broken(self, failure: DiagnosticFailure, now: u64) -> EngineView {
        self.with_worker(false).in_phase(ReconcilerPhase::Disabled, now).with_failure(failure)
    }

    /// Whether a timer runs that no process needs any more.
    pub open spec fn is_idly_armed(self) -> bool {
        pending(self.applied).is_empty() && self.reconciler == Some(ReconcilerPhase::TimerArmed)
    }

    /// Where no check is owed any more, a worker that waits for one parks.
    pub open spec fn parked(self, now: u64) -> EngineView {
        let counted = self.counted();
        if !pending(self.applied).is_empty() {
            counted
        } else if self.reconciler == Some(ReconcilerPhase::TimerArmed) {
            counted.with_cancellation().in_phase(ReconcilerPhase::Parked, now)
        } else if self.reconciler == Some(ReconcilerPhase::WakePending) {
            counted.in_phase(ReconcilerPhase::Parked, now)
        } else {
            counted
        }
    }

    /// A process is no longer looked after.
    pub open spec fn without(self, key: ProcessKey, now: u64) -> EngineView {
        (EngineView { applied: self.applied.remove(key.pair()), ..self }).parked(now)
    }

    /// A process is looked after in another way.
    pub open spec fn with(self, key: ProcessKey, process: AppliedProcess) -> EngineView {
        EngineView { applied: self.applied.insert(key.pair(), process), ..self }
    }

    pub open spec fn is_applied(self, key: ProcessKey) -> bool {
        self.applied.contains_key(key.pair())
    }

    pub open spec fn process(self, key: ProcessKey) -> AppliedProcess {
        self.applied[key.pair()]
    }
}

/// The rule engine.
pub struct RuleEngine {
    pub profile_state: u64,
    pub applied: BTreeMap<(u32, u64), AppliedProcess>,
    pub shutting_down: bool,
    pub reconciler: Option<ReconcilerPhase>,
    pub diagnostics: DiagnosticPublisher,
}

impl View for RuleEngine {
    type V = EngineView;

    open spec fn view(&self) -> EngineView {
        EngineView {
            profile_state: self.profile_state,
            applied: self.applied@,
            shutting_down: self.shutting_down,
            reconciler: self.reconciler,
            diagnostics: self.diagnostics,
        }
    }
}

/// How many of the processes a rule is enforced on, and to how many a check is owed.
fn inventory(applied: &BTreeMap<(u32, u64), AppliedProcess>) -> (counts: (usize, usize))
    ensures
        counts.0 == enforced(applied@).len(),
        counts.1 == pending(applied@).len(),
        counts.1 == 0 <==> pending(applied@).is_empty(),
{
    broadcast use vstd::std_specs::btree::group_btree_axioms;
    let total: usize = applied.len();
    let mut enforcing: usize = 0;
    let mut waiting: usize = 0;
    let keys = applied.keys();
    let ghost all = vstd::std_specs::iter::IteratorSpec::remaining(&keys).unref();
    let ghost mut seen = Set::<(u32, u64)>::empty();
    assert(seen.filter(|pair: (u32, u64)| applied@[pair].enforcing) =~= Set::empty());
    assert(seen.filter(|pair: (u32, u64)| applied@[pair].is_pending()) =~= Set::empty());
    for pair in it: keys
        invariant
            it.seq().len() == all.len(),
            all.len() == total,
            enforcing <= it.index(),
            waiting <= it.index(),
            all.no_duplicates(),
            all.to_set() == applied@.dom(),
            forall|i: int| 0 <= i < all.len() ==> *(#[trigger] it.seq()[i]) == all[i],
            seen.finite(),
            seen == all.take(it.index() as int).to_set(),
            enforcing == seen.filter(|pair: (u32, u64)| applied@[pair].enforcing).len(),
            waiting == seen.filter(|pair: (u32, u64)| applied@[pair].is_pending()).len(),
    {
        let ghost i = it.index() as int;
        let ghost before = seen;
        let ghost is_enforced = |pair: (u32, u64)| applied@[pair].enforcing;
        let ghost is_waiting = |pair: (u32, u64)| applied@[pair].is_pending();
        proof {
            assert(all[i] == *pair);
            assert(all.to_set().contains(all[i]));
            assert(!before.contains(*pair));
            seen = before.insert(*pair);
            assert(all.take(i + 1) =~= all.take(i).push(*pair));
            all.take(i).lemma_push_to_set_commute(*pair);
            assert(seen.filter(is_enforced) =~= if applied@[*pair].enforcing {
                before.filter(is_enforced).insert(*pair)
            } else {
                before.filter(is_enforced)
            });
            assert(seen.filter(is_waiting) =~= if applied@[*pair].is_pending() {
                before.filter(is_waiting).insert(*pair)
            } else {
                before.filter(is_waiting)
            });
        }
        match applied.get(pair) {
            Some(process) => {
                if process.enforcing {
                    enforcing = enforcing + 1;
                }
                if process.is_pending() {
                    waiting = waiting + 1;
                }
            },
            None => {
                assert(false);
            },
        }
    }
    assert(all.take(all.len() as int) =~= all);
    (enforcing, waiting)
}

/// What the worker does next.
#[derive(Clone, Copy, Debug, Eq, PartialEq, Structural)]
pub enum WorkerStep {
    /// The worker ends.
    Stop { cancel_timer: bool },
    /// The worker waits for the next event.
    Wait { cancel_timer: bool },
    /// The timer has to be armed.
    ArmTimer,
    /// The processes to which a check is owed are checked.
    Reconcile,
}

/// What ends with the engine.
#[derive(Clone, Copy, Debug, Eq, PartialEq, Structural)]
pub struct ShutdownStep {
    pub signal: bool,
    pub cancel_timer: bool,
}

/// What comes of removing a process.
#[derive(Debug, Eq, PartialEq)]
pub struct Removal {
    pub removed: Option<AppliedProcess>,
    pub cancel_timer: bool,
}

impl EngineView {
    /// After an insertion, a worker that is parked has to be woken.
    pub open spec fn needs_wake(self, key: ProcessKey) -> bool {
        self.is_applied(key) && self.process(key).is_pending() && self.reconciler == Some(
            ReconcilerPhase::Parked,
        )
    }

    pub open spec fn announced(self, key: ProcessKey) -> EngineView {
        let counted = self.counted();
        if self.is_applied(key) && self.process(key).is_pending() {
            EngineView {
                diagnostics: DiagnosticPublisher {
                    insertions: diagnostics::counted(counted.diagnostics.insertions, 1),
                    ..counted.diagnostics
                },
                ..counted
            }
        } else {
            counted
        }
    }

    pub open spec fn woken(self, signaled: bool, now: u64) -> EngineView {
        if signaled {
            (EngineView {
                diagnostics: DiagnosticPublisher {
                    wake_signals: diagnostics::counted(self.diagnostics.wake_signals, 1),
                    ..self.diagnostics
                },
                ..self
            }).in_phase(ReconcilerPhase::WakePending, now)
        } else {
            self.broken(DiagnosticFailure::Wake, now)
        }
    }

    /// How the worker goes on after an event: it needs the timer as long as a check is owed.
    pub open spec fn arming(self, now: u64) -> (EngineView, WorkerStep) {
        let counted = self.counted();
        match self.reconciler {
            None | Some(ReconcilerPhase::Disabled) => (
                counted,
                WorkerStep::Stop { cancel_timer: false },
            ),
            Some(phase) => if pending(self.applied).is_empty() {
                if phase == ReconcilerPhase::TimerArmed {
                    (
                        counted.with_cancellation().in_phase(ReconcilerPhase::Parked, now),
                        WorkerStep::Wait { cancel_timer: true },
                    )
                } else {
                    (
                        counted.in_phase(ReconcilerPhase::Parked, now),
                        WorkerStep::Wait { cancel_timer: false },
                    )
                }
            } else if phase == ReconcilerPhase::TimerArmed {
                (counted, WorkerStep::Wait { cancel_timer: false })
            } else {
                (counted, WorkerStep::ArmTimer)
            },
        }
    }

    pub open spec fn armed(self, set: bool, now: u64) -> EngineView {
        if set {
            (EngineView {
                diagnostics: DiagnosticPublisher {
                    timer_arms: diagnostics::counted(self.diagnostics.timer_arms, 1),
                    ..self.diagnostics
                },
                ..self
            }).in_phase(ReconcilerPhase::TimerArmed, now)
        } else {
            self.broken(DiagnosticFailure::TimerArm, now)
        }
    }

    /// A pass begins.
    pub open spec fn passing(self, now: u64) -> EngineView {
        let running = self.in_phase(ReconcilerPhase::Running, now);
        EngineView {
            diagnostics: DiagnosticPublisher {
                passes_started: diagnostics::counted(running.diagnostics.passes_started, 1),
                ..running.diagnostics
            },
            ..running
        }
    }

    /// The worker is switched off, where there is one.
    pub open spec fn disabled(self, now: u64) -> EngineView {
        EngineView {
            reconciler: if self.reconciler is Some {
                Some(ReconcilerPhase::Disabled)
            } else {
                None
            },
            ..self.with_worker(false).in_phase(ReconcilerPhase::Disabled, now)
        }
    }

    pub open spec fn failed(self, failure: DiagnosticFailure, now: u64) -> (
        EngineView,
        WorkerStep,
    ) {
        (
            self.with_failure(failure).disabled(now),
            WorkerStep::Stop { cancel_timer: self.reconciler is Some },
        )
    }

    /// How the worker goes on after a pass.
    pub open spec fn after_pass(self, done: bool, now: u64) -> (EngineView, WorkerStep) {
        if done {
            (EngineView {
                diagnostics: DiagnosticPublisher {
                    passes_completed: diagnostics::counted(self.diagnostics.passes_completed, 1),
                    ..self.diagnostics
                },
                ..self
            }).arming(now)
        } else {
            self.failed(DiagnosticFailure::Bookkeeping, now)
        }
    }

    /// How the worker goes on after a wait on the end of the engine, on insertions and on the
    /// timer, in this order.
    pub open spec fn after_wait(self, wait: u32, now: u64) -> (EngineView, WorkerStep) {
        if wait == WAIT_OBJECT_0 {
            (self, WorkerStep::Stop { cancel_timer: false })
        } else if wait == WAIT_OBJECT_0 + 1 {
            self.arming(now)
        } else if wait == WAIT_OBJECT_0 + 2 {
            if self.reconciler != Some(ReconcilerPhase::TimerArmed) {
                (self, WorkerStep::Wait { cancel_timer: false })
            } else if self.shutting_down {
                self.passing(now).after_pass(true, now)
            } else {
                (self.passing(now), WorkerStep::Reconcile)
            }
        } else {
            self.failed(DiagnosticFailure::Wait, now)
        }
    }

    /// What comes of removing a process.
    pub open spec fn removal(self, key: ProcessKey) -> Removal {
        Removal {
            removed: if self.is_applied(key) {
                Some(self.process(key))
            } else {
                None
            },
            cancel_timer: (EngineView {
                applied: self.applied.remove(key.pair()),
                ..self
            }).is_idly_armed(),
        }
    }

    /// The engine ends.
    pub open spec fn ended(self, now: u64) -> EngineView {
        EngineView {
            shutting_down: true,
            reconciler: if self.reconciler is Some {
                Some(ReconcilerPhase::Disabled)
            } else {
                None
            },
            diagnostics: DiagnosticPublisher {
                worker_enabled: 0,
                phase: DiagnosticPhase::Shutdown.code(),
                last_transition_unix_ms: now,
                ..self.diagnostics
            },
            ..self
        }
    }
}

impl RuleEngine {
    /// An engine that looks after no process yet.
    pub fn new(diagnostics: DiagnosticPublisher) -> (engine: Self)
        ensures
            engine@ == (EngineView {
                profile_state: packed(PowerProfile::Balanced, 0) as u64,
                applied: Map::empty(),
                shutting_down: false,
                reconciler: None,
                diagnostics,
            }),
    {
        RuleEngine {
            profile_state: pack_profile_state(PowerProfile::Balanced, 0),
            applied: BTreeMap::new(),
            shutting_down: false,
            reconciler: None,
            diagnostics,
        }
    }

    /// The worker has started, or could not be started.
    pub fn finish(&mut self, started: bool, now: u64)
        ensures
            started ==> final(self)@ == old(self)@.with_worker(true).in_phase(
                ReconcilerPhase::Parked,
                now,
            ),
            !started ==> final(self)@ == (EngineView {
                reconciler: old(self)@.reconciler,
                ..old(self)@.in_phase(ReconcilerPhase::Disabled, now).with_failure(
                    DiagnosticFailure::StatePoisoned,
                )
            }),
    {
        if started {
            self.diagnostics.set_worker_enabled(true);
            self.enter(ReconcilerPhase::Parked, now);
        } else {
            self.diagnostics.set_phase(DiagnosticPhase::Disabled, now);
            self.diagnostics.record_worker_failure(DiagnosticFailure::StatePoisoned);
        }
    }

    fn enter(&mut self, phase: ReconcilerPhase, now: u64)
        ensures
            final(self)@ == old(self)@.in_phase(phase, now),
    {
        self.reconciler = Some(phase);
        self.diagnostics.set_phase(phase.shown(), now);
    }

    /// Makes `profile` the active one, and says whether another one was.
    pub fn set_power_profile(&mut self, profile: PowerProfile) -> (changed: bool)
        ensures
            changed == (unpacked(old(self).profile_state).profile != profile),
            !changed ==> final(self)@ == old(self)@,
            changed ==> final(self)@ == (EngineView {
                profile_state: packed(
                    profile,
                    (unpacked(old(self).profile_state).generation + 1) as u64,
                ) as u64,
                ..old(self)@
            }),
    {
        let snapshot = unpack_profile_state(self.profile_state);
        if snapshot.profile == profile {
            return false;
        }
        self.profile_state = pack_profile_state(profile, snapshot.generation + 1);
        true
    }

    pub fn profile_snapshot(&self) -> (snapshot: ProfileSnapshot)
        ensures
            snapshot == unpacked(self.profile_state),
    {
        unpack_profile_state(self.profile_state)
    }

    /// Whether all processes may be gone through.
    pub fn reconcile_processes(&self) -> (open: bool)
        ensures
            open == !self.shutting_down,
    {
        !self.shutting_down
    }

    /// Whether the process is to be resolved: not the idle process, and not this one.
    pub fn apply_to_pid(&self, process_id: u32, own: u32) -> (resolve: bool)
        ensures
            resolve == (!self.shutting_down && process_id != 0 && process_id != own),
    {
        !self.shutting_down && process_id != 0 && process_id != own
    }

    /// Counts the processes for the diagnostics.
    pub fn publish_diagnostic_inventory(&mut self) -> (waiting: bool)
        ensures
            final(self)@ == old(self)@.counted(),
            waiting == !pending(old(self)@.applied).is_empty(),
    {
        let (enforcing, waiting) = inventory(&self.applied);
        let total: usize = self.applied.len();
        self.diagnostics.update_inventory(total, enforcing, waiting);
        waiting > 0
    }

    /// Parks the worker if no check is owed, and says whether the timer has to be cancelled.
    pub fn park_reconciler_if_no_pending(&mut self, now: u64) -> (cancel_timer: bool)
        ensures
            final(self)@ == old(self)@.parked(now),
            cancel_timer == old(self)@.is_idly_armed(),
    {
        if self.publish_diagnostic_inventory() {
            return false;
        }
        match self.reconciler {
            Some(ReconcilerPhase::TimerArmed) => {
                self.diagnostics.record_timer_cancellation();
                self.enter(ReconcilerPhase::Parked, now);
                true
            },
            Some(ReconcilerPhase::WakePending) => {
                self.enter(ReconcilerPhase::Parked, now);
                false
            },
            _ => false,
        }
    }

    /// Says whether the worker has to be woken after `key` was inserted.
    pub fn notify_reconciler_of_insertion(&mut self, key: ProcessKey) -> (wake: bool)
        ensures
            final(self)@ == old(self)@.announced(key),
            wake == old(self)@.needs_wake(key),
    {
        let _ = self.publish_diagnostic_inventory();
        match self.applied.get(&key.pair()) {
            Some(process) => {
                if !process.is_pending() {
                    return false;
                }
            },
            None => {
                return false;
            },
        }
        self.diagnostics.record_insertion();
        match self.reconciler {
            Some(ReconcilerPhase::Parked) => true,
            _ => false,
        }
    }

    /// The worker was woken, or could not be.
    pub fn reconciler_woken(&mut self, signaled: bool, now: u64)
        ensures
            final(self)@ == old(self)@.woken(signaled, now),
    {
        if signaled {
            self.diagnostics.record_wake_signal();
            self.enter(ReconcilerPhase::WakePending, now);
        } else {
            self.break_worker(DiagnosticFailure::Wake, now);
        }
    }

    fn break_worker(&mut self, failure: DiagnosticFailure, now: u64)
        ensures
            final(self)@ == old(self)@.broken(failure, now),
    {
        self.diagnostics.set_worker_enabled(false);
        self.enter(ReconcilerPhase::Disabled, now);
        self.diagnostics.record_worker_failure(failure);
    }

    /// How the worker goes on: it needs the timer as long as a check is owed.
    pub fn arm_reconciler_if_pending(&mut self, now: u64) -> (step: WorkerStep)
        ensures
            (final(self)@, step) == old(self)@.arming(now),
    {
        let waiting = self.publish_diagnostic_inventory();
        let phase = match self.reconciler {
            Some(phase) => phase,
            None => {
                return WorkerStep::Stop { cancel_timer: false };
            },
        };
        if phase == ReconcilerPhase::Disabled {
            return WorkerStep::Stop { cancel_timer: false };
        }
        if !waiting {
            let cancel_timer = phase == ReconcilerPhase::TimerArmed;
            if cancel_timer {
                self.diagnostics.record_timer_cancellation();
            }
            self.enter(ReconcilerPhase::Parked, now);
            return WorkerStep::Wait { cancel_timer };
        }
        if phase == ReconcilerPhase::TimerArmed {
            return WorkerStep::Wait { cancel_timer: false };
        }
        WorkerStep::ArmTimer
    }

    /// The timer was armed, or could not be. Says whether the worker goes on.
    pub fn timer_armed(&mut self, set: bool, now: u64) -> (keep_running: bool)
        ensures
            final(self)@ == old(self)@.armed(set, now),
            keep_running == set,
    {
        if set {
            self.diagnostics.record_timer_arm();
            self.enter(ReconcilerPhase::TimerArmed, now);
        } else {
            self.break_worker(DiagnosticFailure::TimerArm, now);
        }
        set
    }

    /// Begins a pass, if the timer was armed for one.
    pub fn begin_reconciliation_pass(&mut self, now: u64) -> (begun: bool)
        ensures
            begun == (old(self)@.reconciler == Some(ReconcilerPhase::TimerArmed)),
            begun ==> final(self)@ == old(self)@.passing(now),
            !begun ==> final(self)@ == old(self)@,
    {
        match self.reconciler {
            Some(ReconcilerPhase::TimerArmed) => {
                self.enter(ReconcilerPhase::Running, now);
                self.diagnostics.record_pass_started();
                true
            },
            _ => false,
        }
    }

    /// Switches the worker off, and says whether there is a timer to be cancelled.
    pub fn disable_reconciler(&mut self, now: u64) -> (cancel_timer: bool)
        ensures
            final(self)@ == old(self)@.disabled(now),
            cancel_timer == old(self)@.reconciler is Some,
    {
        let present = self.reconciler.is_some();
        if present {
            self.reconciler = Some(ReconcilerPhase::Disabled);
        }
        self.diagnostics.set_worker_enabled(false);
        self.diagnostics.set_phase(DiagnosticPhase::Disabled, now);
        present
    }

    fn worker_failed(&mut self, failure: DiagnosticFailure, now: u64) -> (step: WorkerStep)
        ensures
            (final(self)@, step) == old(self)@.failed(failure, now),
    {
        self.diagnostics.record_worker_failure(failure);
        let cancel_timer = self.disable_reconciler(now);
        WorkerStep::Stop { cancel_timer }
    }

    /// How the worker goes on where a thread that changed the engine did not come to the end of it:
    /// it stops.
    pub fn state_poisoned(&mut self, now: u64) -> (step: WorkerStep)
        ensures
            (final(self)@, step) == old(self)@.failed(DiagnosticFailure::StatePoisoned, now),
    {
        self.worker_failed(DiagnosticFailure::StatePoisoned, now)
    }

    /// How the worker goes on after a pass that came to its end, or did not.
    pub fn pass_ended(&mut self, done: bool, now: u64) -> (step: WorkerStep)
        ensures
            (final(self)@, step) == old(self)@.after_pass(done, now),
    {
        if done {
            self.diagnostics.record_pass_completed();
            self.arm_reconciler_if_pending(now)
        } else {
            self.worker_failed(DiagnosticFailure::Bookkeeping, now)
        }
    }

    /// How the worker goes on after a wait on the end of the engine, on insertions and on the
    /// timer, in this order.
    pub fn reconciliation_worker_loop(&mut self, wait: u32, now: u64) -> (step: WorkerStep)
        ensures
            (final(self)@, step) == old(self)@.after_wait(wait, now),
    {
        if wait == WAIT_OBJECT_0 {
            return WorkerStep::Stop { cancel_timer: false };
        }
        if wait == WAIT_OBJECT_0 + 1 {
            return self.arm_reconciler_if_pending(now);
        }
        if wait == WAIT_OBJECT_0 + 2 {
            if !self.begin_reconciliation_pass(now) {
                return WorkerStep::Wait { cancel_timer: false };
            }
            if self.shutting_down {
                return self.pass_ended(true, now);
            }
            return WorkerStep::Reconcile;
        }
        self.worker_failed(DiagnosticFailure::Wait, now)
    }

    /// Ends the engine.
    pub fn shutdown(&mut self, now: u64) -> (step: ShutdownStep)
        ensures
            final(self)@ == old(self)@.ended(now),
            step.signal == !old(self)@.shutting_down,
            step.cancel_timer == old(self)@.reconciler is Some,
    {
        let signal = !self.shutting_down;
        self.shutting_down = true;
        self.diagnostics.set_worker_enabled(false);
        self.diagnostics.set_phase(DiagnosticPhase::Shutdown, now);
        let cancel_timer = self.reconciler.is_some();
        if cancel_timer {
            self.reconciler = Some(ReconcilerPhase::Disabled);
        }
        ShutdownStep { signal, cancel_timer }
    }

    /// Looks after a process no longer.
    pub fn remove_key(&mut self, key: ProcessKey, now: u64) -> (removal: Removal)
        ensures
            final(self)@ == old(self)@.without(key, now),
            removal == old(self)@.removal(key),
    {
        let removed = self.applied.remove(&key.pair());
        assert(old(self)@.applied.remove(key.pair()) =~= self.applied@);
        let cancel_timer = self.park_reconciler_if_no_pending(now);
        Removal { removed, cancel_timer }
    }

    /// Looks after a process that has ended no longer, unless the engine ends itself.
    pub fn remove_process_key(&mut self, key: ProcessKey, now: u64) -> (removal: Option<Removal>)
        ensures
            old(self)@.shutting_down ==> removal is None && final(self)@ == old(self)@,
            !old(self)@.shutting_down ==> {
                &&& final(self)@ == old(self)@.without(key, now)
                &&& removal == Some(old(self)@.removal(key))
            },
    {
        if self.shutting_down {
            return None;
        }
        Some(self.remove_key(key, now))
    }

    /// The place among the locks on which changes of a process wait for one another.
    pub fn mutation_stripe(key: ProcessKey) -> (stripe: usize)
        ensures
            stripe == ((key.process_id as u64) ^ key.creation_time ^ (key.creation_time >> 32u64))
                % 64,
            stripe < MUTATION_STRIPE_COUNT,
    {
        let mixed: u64 = (key.process_id as u64) ^ key.creation_time ^ (key.creation_time >> 32u64);
        (mixed % 64) as usize
    }
}

/// What applying a rule asks for.
#[derive(Clone, Copy, Debug, Eq, PartialEq, Structural)]
pub enum RuleStep {
    /// The rule is enforced already.
    Unchanged,
    /// The policy that was resolved before is set again.
    Reapply { policy: ResolvedProcessPolicy, priority_job: Option<u64> },
    /// What the job of an earlier rule limits is lifted, and the policy is resolved and set.
    Resolve { priority_job: Option<u64> },
}

/// What is to be done about a process.
#[derive(Debug, Eq, PartialEq)]
pub enum PidStep {
    /// No rule applies. The limits of its job, if it is in one, are lifted.
    Untrack { priority_job: Option<u64> },
    Rule { rule: PolicyRule, signature: AppliedProcessSignature, step: RuleStep },
}

/// A check of a process.
#[derive(Debug, Eq, PartialEq)]
pub struct ReconciliationCheck {
    pub expected_image: ImageName,
    pub policy: ResolvedProcessPolicy,
    pub original_handle: u64,
    pub check: u8,
}

/// What reading a policy back asks for.
#[derive(Debug, Eq, PartialEq)]
pub enum InspectionStep {
    Done,
    Repair { priority_job: Option<u64>, failures: Vec<PolicyFailure> },
}

/// How the watch on a process goes on.
#[derive(Clone, Copy, Debug, Eq, PartialEq, Structural)]
pub struct WatchStep {
    pub watched: bool,
    pub cancel_timer: bool,
    pub wake: bool,
}

impl EngineView {
    /// `step` is what follows from the rule that was selected for a process, and `after` is the
    /// engine then.
    pub open spec fn applies(
        self,
        after: EngineView,
        key: ProcessKey,
        selected: Option<PolicyRule>,
        intent: ApplicationIntent,
        step: PidStep,
    ) -> bool {
        match step {
            PidStep::Untrack { priority_job } => {
                &&& selected is None
                &&& priority_job == self.job(key)
                &&& after == self
            },
            PidStep::Rule { rule, signature, step } => {
                &&& selected == Some(rule)
                &&& signature@ == desired_signature(rule, unpacked(self.profile_state))
                &&& step == self.rule_step(key, signature@, intent)
                &&& after == if step == RuleStep::Unchanged {
                    self
                } else {
                    self.without_job(key)
                }
            },
        }
    }
}

/// The image name of a process that was resolved, where it is the expected instance.
pub open spec fn is_identified(resolved: ResolvedProcess, expected: Option<ProcessKey>) -> bool {
    &&& expected is Some ==> resolved.key == expected->0
    &&& is_image_name(resolved.image_name@)
}

pub open spec fn is_image_name(name: Seq<char>) -> bool {
    0 < crate::identity::lowercase_name(name).len() <= crate::identity::MAX_IMAGE_NAME_CHARS
}

/// The image name of a process that an event named. An event about an instance whose number has
/// been used again since names no process, and neither does one whose image has no valid name.
pub fn identify(resolved: &ResolvedProcess, expected: Option<ProcessKey>) -> (image: Option<
    ImageName,
>)
    ensures
        image is Some <==> is_identified(*resolved, expected),
        image matches Some(image) ==> image@ == crate::identity::lowercase_name(
            resolved.image_name@,
        ),
{
    match expected {
        Some(expected) => {
            if resolved.key != expected {
                return None;
            }
        },
        None => {},
    }
    match ImageName::parse(resolved.image_name.as_str()) {
        Ok(image) => Some(image),
        Err(_) => None,
    }
}

/// The rule that an answer of the registry gives. An invalid or inaccessible policy is none.
pub open spec fn answered_rule(answer: Result<Option<PolicyRule>, RegistryError>) -> Option<
    PolicyRule,
> {
    match answer {
        Ok(rule) => rule,
        Err(_) => None,
    }
}

/// The rule that the registry holds for an image. An invalid or inaccessible policy is none.
pub fn select_rule_for_image<P: PolicyStore>(policy_store: &P, image: &ImageName) -> (rule: Option<
    PolicyRule,
>)
    ensures
        exists|answer: Result<Option<PolicyRule>, RegistryError>| #[trigger]
            registry::was_answered(policy_store, *image, answer) && rule == answered_rule(answer),
{
    let answer = policy_store.get_policy(image);
    assert(registry::was_answered(policy_store, *image, answer));
    match answer {
        Ok(rule) => rule,
        Err(_) => None,
    }
}

/// The failure to lift the limits of a job.
pub open spec fn clearing_failures(cleared: Option<ServiceError>) -> Seq<PolicyFailure> {
    match cleared {
        Some(error) => seq![PolicyFailure { component: "clear-priority-job", error }],
        None => Seq::empty(),
    }
}

/// All that failed while a rule was applied: lifting what was there, resolving the policy, and
/// setting it, in this order.
pub fn application_failures(
    cleared: Option<ServiceError>,
    resolution: Vec<PolicyFailure>,
    application: Vec<PolicyFailure>,
) -> (failures: Vec<PolicyFailure>)
    ensures
        failures@ == clearing_failures(cleared) + resolution@ + application@,
{
    let mut resolution = resolution;
    let mut application = application;
    let mut failures: Vec<PolicyFailure> = Vec::new();
    match cleared {
        Some(error) => {
            failures.push(PolicyFailure { component: "clear-priority-job", error });
        },
        None => {},
    }
    assert(failures@ =~= clearing_failures(cleared));
    failures.append(&mut resolution);
    failures.append(&mut application);
    failures
}

impl EngineView {
    /// Whether the rule of this signature is enforced on the process.
    pub open spec fn is_enforced(self, key: ProcessKey, signature: SignatureView) -> bool {
        self.is_applied(key) && self.process(key).enforcing && self.process(key).signature@
            == signature
    }

    pub open spec fn job(self, key: ProcessKey) -> Option<u64> {
        if self.is_applied(key) {
            self.process(key).priority_job
        } else {
            None
        }
    }

    pub open spec fn rule_step(
        self,
        key: ProcessKey,
        signature: SignatureView,
        intent: ApplicationIntent,
    ) -> RuleStep {
        if !self.is_enforced(key, signature) {
            RuleStep::Resolve { priority_job: self.job(key) }
        } else if intent == ApplicationIntent::Observe {
            RuleStep::Unchanged
        } else {
            RuleStep::Reapply { policy: self.process(key).policy, priority_job: self.job(key) }
        }
    }

    /// The job of the process is taken out.
    pub open spec fn without_job(self, key: ProcessKey) -> EngineView {
        if self.is_applied(key) {
            self.with(key, AppliedProcess { priority_job: None, ..self.process(key) })
        } else {
            self
        }
    }

    /// A rule is enforced on a process. The checks that were made of it stay counted.
    pub open spec fn enforcing(
        self,
        process: ResolvedProcess,
        normalized_image_name: ImageName,
        signature: AppliedProcessSignature,
        policy: ResolvedProcessPolicy,
        application: PolicyApplication,
    ) -> EngineView {
        let key = process.key;
        if self.is_applied(key) {
            self.with(
                key,
                AppliedProcess {
                    signature,
                    enforcing: true,
                    policy,
                    priority_job: application.priority_job,
                    policy_failures: application.failures,
                    ..self.process(key)
                },
            )
        } else {
            self.with(
                key,
                AppliedProcess {
                    image_name: process.image_name,
                    normalized_image_name,
                    image_path: process.image_path,
                    signature,
                    enforcing: true,
                    policy,
                    process_handle: process.handle,
                    reconciliation_checks: 0,
                    priority_job: application.priority_job,
                    policy_failures: application.failures,
                },
            )
        }
    }

    /// A check is counted.
    pub open spec fn checking(self, key: ProcessKey) -> EngineView {
        let process = self.process(key);
        let counted = self.with(
            key,
            AppliedProcess {
                reconciliation_checks: (process.reconciliation_checks + 1) as u8,
                ..process
            },
        );
        EngineView {
            diagnostics: DiagnosticPublisher {
                candidates_checked: diagnostics::counted(self.diagnostics.candidates_checked, 1),
                ..self.diagnostics
            },
            ..counted
        }
    }

    pub open spec fn with_identity_drift(self) -> EngineView {
        EngineView {
            diagnostics: DiagnosticPublisher {
                identity_drifts: diagnostics::counted(self.diagnostics.identity_drifts, 1),
                ..self.diagnostics
            },
            ..self
        }
    }

    /// The process could not be resolved. That it has ended counts as a drift.
    pub open spec fn unresolved(self, wait: u32) -> EngineView {
        let failed = EngineView {
            diagnostics: DiagnosticPublisher {
                resolution_failures: diagnostics::counted(self.diagnostics.resolution_failures, 1),
                ..self.diagnostics
            },
            ..self
        };
        if wait == WAIT_OBJECT_0 {
            failed.with_identity_drift()
        } else {
            failed
        }
    }
}

impl RuleEngine {
    /// What applying a rule asks for. The job of the process is handed out with the answer, except
    /// where nothing is to be done.
    pub fn begin_rule(
        &mut self,
        key: ProcessKey,
        signature: &AppliedProcessSignature,
        intent: ApplicationIntent,
    ) -> (step: RuleStep)
        ensures
            step == old(self)@.rule_step(key, signature@, intent),
            final(self)@ == if step == RuleStep::Unchanged {
                old(self)@
            } else {
                old(self)@.without_job(key)
            },
    {
        let same = match self.applied.get(&key.pair()) {
            Some(existing) => existing.enforcing && existing.signature.same(signature),
            None => {
                return RuleStep::Resolve { priority_job: None };
            },
        };
        if same && intent == ApplicationIntent::Observe {
            return RuleStep::Unchanged;
        }
        let priority_job = self.take_job(key);
        if same {
            match self.applied.get(&key.pair()) {
                Some(existing) => RuleStep::Reapply { policy: existing.policy, priority_job },
                None => {
                    assert(false);
                    RuleStep::Unchanged
                },
            }
        } else {
            RuleStep::Resolve { priority_job }
        }
    }

    /// What is to be done about a process for whose image `selected` is the rule: it is applied
    /// under the active profile. Without a rule the process is looked after no longer.
    pub fn apply_selected(
        &mut self,
        key: ProcessKey,
        selected: Option<PolicyRule>,
        intent: ApplicationIntent,
    ) -> (step: PidStep)
        ensures
            old(self)@.applies(final(self)@, key, selected, intent, step),
    {
        match selected {
            None => PidStep::Untrack { priority_job: self.retained_job(key) },
            Some(rule) => {
                let profile = self.profile_snapshot();
                let signature = AppliedProcessSignature::desired(&rule, profile);
                let step = self.begin_rule(key, &signature, intent);
                PidStep::Rule { rule, signature, step }
            },
        }
    }

    /// What is to be done about a process that was resolved, under the name of its image: the rule
    /// that the registry holds for the image is applied. A process that is not the expected
    /// instance, or whose image has no valid name, is left alone.
    pub fn apply_to_pid_inner<P: PolicyStore>(
        &mut self,
        policy_store: &P,
        resolved: &ResolvedProcess,
        expected: Option<ProcessKey>,
        intent: ApplicationIntent,
    ) -> (step: Option<(ImageName, PidStep)>)
        ensures
            match step {
                None => !is_identified(*resolved, expected) && final(self)@ == old(self)@,
                Some((image, step)) => {
                    &&& is_identified(*resolved, expected)
                    &&& image@ == crate::identity::lowercase_name(resolved.image_name@)
                    &&& exists|answer: Result<Option<PolicyRule>, RegistryError>| #[trigger]
                        registry::was_answered(policy_store, image, answer) && old(self)@.applies(
                            final(self)@,
                            resolved.key,
                            answered_rule(answer),
                            intent,
                            step,
                        )
                },
            },
    {
        let image = match identify(resolved, expected) {
            Some(image) => image,
            None => {
                return None;
            },
        };
        let selected = select_rule_for_image(policy_store, &image);
        let step = self.apply_selected(resolved.key, selected, intent);
        Some((image, step))
    }

    fn take_job(&mut self, key: ProcessKey) -> (priority_job: Option<u64>)
        ensures
            final(self)@ == old(self)@.without_job(key),
            priority_job == old(self)@.job(key),
    {
        match self.applied.remove(&key.pair()) {
            Some(existing) => {
                let mut existing = existing;
                let priority_job = existing.priority_job;
                existing.priority_job = None;
                self.applied.insert(key.pair(), existing);
                assert(self.applied@ =~= old(self)@.without_job(key).applied);
                priority_job
            },
            None => {
                assert(self.applied@ =~= old(self)@.applied);
                None
            },
        }
    }

    /// A rule was applied to a process. Says whether the process is a new one, which has to be
    /// watched.
    pub fn apply_or_update_rule(
        &mut self,
        process: ResolvedProcess,
        normalized_image_name: ImageName,
        signature: AppliedProcessSignature,
        policy: ResolvedProcessPolicy,
        application: PolicyApplication,
    ) -> (inserted: bool)
        ensures
            inserted == !old(self)@.is_applied(process.key),
            final(self)@ == old(self)@.enforcing(
                process,
                normalized_image_name,
                signature,
                policy,
                application,
            ),
    {
        let key = process.key;
        match self.applied.remove(&key.pair()) {
            Some(existing) => {
                let mut existing = existing;
                existing.signature = signature;
                existing.enforcing = true;
                existing.policy = policy;
                existing.priority_job = application.priority_job;
                existing.policy_failures = application.failures;
                self.applied.insert(key.pair(), existing);
                assert(self.applied@ =~= old(self)@.applied.insert(key.pair(), existing));
                false
            },
            None => {
                let inserted = AppliedProcess {
                    image_name: process.image_name,
                    normalized_image_name,
                    image_path: process.image_path,
                    signature,
                    enforcing: true,
                    policy,
                    process_handle: process.handle,
                    reconciliation_checks: 0,
                    priority_job: application.priority_job,
                    policy_failures: application.failures,
                };
                self.applied.insert(key.pair(), inserted);
                assert(self.applied@ =~= old(self)@.applied.insert(key.pair(), inserted));
                true
            },
        }
    }

    /// A new process is watched, or could not be, and is then looked after no longer.
    pub fn watch_process(&mut self, key: ProcessKey, watched: bool, now: u64) -> (step: WatchStep)
        ensures
            step.watched == watched,
            watched ==> {
                &&& final(self)@ == old(self)@.announced(key)
                &&& step.wake == old(self)@.needs_wake(key)
                &&& !step.cancel_timer
            },
            !watched ==> {
                &&& final(self)@ == old(self)@.without(key, now)
                &&& step.cancel_timer == old(self)@.removal(key).cancel_timer
                &&& !step.wake
            },
    {
        if watched {
            let wake = self.notify_reconciler_of_insertion(key);
            WatchStep { watched, cancel_timer: false, wake }
        } else {
            let removal = self.remove_key(key, now);
            WatchStep { watched, cancel_timer: removal.cancel_timer, wake: false }
        }
    }

    /// The job whose limits have to be lifted when no rule applies to the process any more.
    pub fn retained_job(&self, key: ProcessKey) -> (priority_job: Option<u64>)
        ensures
            priority_job == self@.job(key),
    {
        match self.applied.get(&key.pair()) {
            Some(existing) => existing.priority_job,
            None => None,
        }
    }

    /// No rule applies to the process any more. A process in a job stays known with its job, since
    /// it cannot leave it; `cleared` is the failure to lift what the job limits.
    pub fn untrack_if_no_active_rule(
        &mut self,
        key: ProcessKey,
        cleared: Option<ServiceError>,
        now: u64,
    ) -> (cancel_timer: bool)
        ensures
            old(self)@.job(key) is None ==> {
                &&& final(self)@ == old(self)@.without(key, now)
                &&& cancel_timer == old(self)@.removal(key).cancel_timer
            },
            old(self)@.job(key) is Some ==> exists|failures: Vec<PolicyFailure>|
                {
                    &&& failures@ == clearing_failures(cleared)
                    &&& final(self)@ == #[trigger] old(self)@.retaining(key, failures).parked(now)
                    &&& cancel_timer == old(self)@.retaining(key, failures).is_idly_armed()
                },
    {
        if self.retained_job(key).is_none() {
            return self.remove_key(key, now).cancel_timer;
        }
        let failures = application_failures(cleared, Vec::new(), Vec::new());
        assert(failures@ =~= clearing_failures(cleared));
        match self.applied.remove(&key.pair()) {
            Some(existing) => {
                let mut existing = existing;
                existing.policy_failures = failures;
                existing.enforcing = false;
                existing.policy = ResolvedProcessPolicy::default();
                self.applied.insert(key.pair(), existing);
            },
            None => {
                assert(false);
            },
        }
        assert(self@ =~= old(self)@.retaining(key, failures));
        self.park_reconciler_if_no_pending(now)
    }

    /// Begins a check of a process, if one is owed.
    pub fn reconcile_tracked_process(&mut self, key: ProcessKey) -> (check: Option<
        ReconciliationCheck,
    >)
        ensures
            check is Some <==> old(self)@.is_applied(key) && old(self)@.process(key).is_pending(),
            check is None ==> final(self)@ == old(self)@,
            check matches Some(check) ==> {
                let process = old(self)@.process(key);
                &&& final(self)@ == old(self)@.checking(key)
                &&& check.expected_image@ == process.normalized_image_name@
                &&& check.policy == process.policy
                &&& check.original_handle == process.process_handle
                &&& check.check == process.reconciliation_checks + 1
            },
    {
        let checks: u8 = match self.applied.get(&key.pair()) {
            Some(process) => {
                if !process.enforcing {
                    return None;
                }
                process.reconciliation_checks
            },
            None => {
                return None;
            },
        };
        let mut checks: u8 = checks;
        let check: u8 = match advance_reconciliation_check(&mut checks) {
            Some(check) => check,
            None => {
                return None;
            },
        };
        match self.applied.remove(&key.pair()) {
            Some(process) => {
                let mut process = process;
                process.reconciliation_checks = checks;
                let begun = ReconciliationCheck {
                    expected_image: process.normalized_image_name.clone(),
                    policy: process.policy,
                    original_handle: process.process_handle,
                    check,
                };
                self.applied.insert(key.pair(), process);
                self.diagnostics.record_candidate();
                assert(self@ =~= old(self)@.checking(key));
                Some(begun)
            },
            None => {
                assert(false);
                None
            },
        }
    }

    /// The process could not be resolved. Says whether it has ended, as `wait` on its handle tells.
    pub fn reconcile_unresolved(&mut self, wait: u32) -> (identity_drift: bool)
        ensures
            identity_drift == (wait == WAIT_OBJECT_0),
            final(self)@ == old(self)@.unresolved(wait),
    {
        self.diagnostics.record_resolution_failure();
        if wait == WAIT_OBJECT_0 {
            self.diagnostics.record_identity_drift();
            return true;
        }
        false
    }

    /// The process was resolved. Says whether it is another one than the one that was looked after.
    pub fn reconcile_identity(
        &mut self,
        key: ProcessKey,
        check: &ReconciliationCheck,
        resolved: &ResolvedProcess,
    ) -> (identity_drift: bool)
        ensures
            identity_drift == !(resolved.key == key && is_image_name(resolved.image_name@)
                && crate::identity::lowercase_name(resolved.image_name@)
                == check.expected_image@),
            final(self)@ == if identity_drift {
                old(self)@.with_identity_drift()
            } else {
                old(self)@
            },
    {
        let same_image = match ImageName::parse(resolved.image_name.as_str()) {
            Ok(actual) => actual.same_name(&check.expected_image),
            Err(_) => false,
        };
        if resolved.key != key || !same_image {
            self.diagnostics.record_identity_drift();
            return true;
        }
        false
    }

    /// The policy of the process was read back. Where parts of it are lost, they have to be
    /// repaired, for which the job of the process is handed out.
    pub fn reconcile_inspected(&mut self, key: ProcessKey, inspection: PolicyInspection) -> (step:
        InspectionStep)
        ensures
            final(self)@ == old(self)@.inspected(key, inspection),
            step == if inspection.drift.any() {
                InspectionStep::Repair {
                    priority_job: old(self)@.job(key),
                    failures: inspection.failures,
                }
            } else {
                InspectionStep::Done
            },
    {
        let count: usize = inspection.failures.len();
        self.diagnostics.record_policy_query_failures(count);
        if inspection.drift.any() {
            let priority_job = self.take_job(key);
            return InspectionStep::Repair { priority_job, failures: inspection.failures };
        }
        if count == 0 {
            self.diagnostics.record_clean_candidate();
        } else {
            match self.applied.remove(&key.pair()) {
                Some(process) => {
                    let mut process = process;
                    process.policy_failures = inspection.failures;
                    self.applied.insert(key.pair(), process);
                },
                None => {},
            }
        }
        assert(self.applied@ =~= old(self)@.inspected(key, inspection).applied);
        InspectionStep::Done
    }

    /// What was lost was repaired, as far as it could be.
    pub fn reconcile_repaired(
        &mut self,
        key: ProcessKey,
        drift: ProcessPolicyDrift,
        inspected: Vec<PolicyFailure>,
        application: PolicyApplication,
    )
        ensures
            exists|failures: Vec<PolicyFailure>|
                {
                    &&& failures@ == inspected@ + application.failures@
                    &&& final(self)@ == #[trigger] old(self)@.repaired(
                        key,
                        drift,
                        application,
                        failures,
                    )
                },
    {
        self.diagnostics.record_repair(drift.components(), application.failures.len());
        let priority_job = application.priority_job;
        let failures = application_failures(None, inspected, application.failures);
        assert(failures@ =~= inspected@ + application.failures@);
        match self.applied.remove(&key.pair()) {
            Some(process) => {
                let mut process = process;
                process.priority_job = priority_job;
                process.policy_failures = failures;
                self.applied.insert(key.pair(), process);
            },
            None => {},
        }
        assert(self@ =~= old(self)@.repaired(key, drift, application, failures));
    }

    /// All processes that are looked after.
    pub fn reconciliation_candidates(&self) -> (keys: Vec<ProcessKey>)
        ensures
            keys@.no_duplicates(),
            forall|key: ProcessKey| #[trigger] keys@.contains(key) <==> self@.is_applied(key),
    {
        keys_of(&self.applied, false)
    }

    /// The processes to which a check is owed.
    pub fn bounded_reconciliation_keys(&mut self) -> (keys: Vec<ProcessKey>)
        ensures
            final(self)@ == old(self)@.counted(),
            keys@.no_duplicates(),
            forall|key: ProcessKey| #[trigger]
                keys@.contains(key) <==> pending(old(self)@.applied).contains(key.pair()),
    {
        let _ = self.publish_diagnostic_inventory();
        keys_of(&self.applied, true)
    }
}

impl EngineView {
    /// A process in a job stays known, with no rule.
    pub open spec fn retaining(self, key: ProcessKey, failures: Vec<PolicyFailure>) -> EngineView {
        self.with(
            key,
            AppliedProcess {
                policy_failures: failures,
                enforcing: false,
                policy: no_policy(),
                ..self.process(key)
            },
        )
    }

    pub open spec fn inspected(self, key: ProcessKey, inspection: PolicyInspection) -> EngineView {
        let read = EngineView {
            diagnostics: DiagnosticPublisher {
                policy_query_failures: diagnostics::counted(
                    self.diagnostics.policy_query_failures,
                    inspection.failures@.len() as int,
                ),
                ..self.diagnostics
            },
            ..self
        };
        if inspection.drift.any() {
            read.without_job(key)
        } else if inspection.failures@.len() == 0 {
            EngineView {
                diagnostics: DiagnosticPublisher {
                    clean_candidates: diagnostics::counted(read.diagnostics.clean_candidates, 1),
                    ..read.diagnostics
                },
                ..read
            }
        } else if self.is_applied(key) {
            read.with(
                key,
                AppliedProcess { policy_failures: inspection.failures, ..self.process(key) },
            )
        } else {
            read
        }
    }

    pub open spec fn repaired(
        self,
        key: ProcessKey,
        drift: ProcessPolicyDrift,
        application: PolicyApplication,
        failures: Vec<PolicyFailure>,
    ) -> EngineView {
        let recorded = EngineView {
            diagnostics: DiagnosticPublisher {
                repair_candidates: diagnostics::counted(self.diagnostics.repair_candidates, 1),
                drifted_components: diagnostics::counted(
                    self.diagnostics.drifted_components,
                    drift.size(),
                ),
                setter_failures: diagnostics::counted(
                    self.diagnostics.setter_failures,
                    application.failures@.len() as int,
                ),
                ..self.diagnostics
            },
            ..self
        };
        if self.is_applied(key) {
            recorded.with(
                key,
                AppliedProcess {
                    priority_job: application.priority_job,
                    policy_failures: failures,
                    ..self.process(key)
                },
            )
        } else {
            recorded
        }
    }
}

/// The keys of a table, or those of its entries to which a check is owed.
fn keys_of(applied: &BTreeMap<(u32, u64), AppliedProcess>, waiting: bool) -> (keys: Vec<ProcessKey>)
    ensures
        keys@.no_duplicates(),
        forall|key: ProcessKey| #[trigger]
            keys@.contains(key) <==> applied@.contains_key(key.pair()) && (waiting
                ==> applied@[key.pair()].is_pending()),
{
    broadcast use vstd::std_specs::btree::group_btree_axioms;
    let mut keys: Vec<ProcessKey> = Vec::new();
    let pairs = applied.keys();
    let ghost all = vstd::std_specs::iter::IteratorSpec::remaining(&pairs).unref();
    for pair in it: pairs
        invariant
            it.seq().len() == all.len(),
            all.no_duplicates(),
            all.to_set() == applied@.dom(),
            forall|i: int| 0 <= i < all.len() ==> *(#[trigger] it.seq()[i]) == all[i],
            keys@.no_duplicates(),
            forall|key: ProcessKey| #[trigger]
                keys@.contains(key) <==> all.take(it.index() as int).contains(key.pair()) && (
                waiting ==> applied@[key.pair()].is_pending()),
    {
        let ghost i = it.index() as int;
        let ghost before = keys@;
        let key = ProcessKey { process_id: pair.0, creation_time: pair.1 };
        assert(all[i] == *pair);
        assert(all.to_set().contains(all[i]));
        assert(all.take(i + 1) =~= all.take(i).push(*pair));
        assert(!all.take(i).contains(*pair));
        assert(!before.contains(key));
        let kept = match applied.get(pair) {
            Some(process) => !waiting || process.is_pending(),
            None => {
                assert(false);
                false
            },
        };
        if kept {
            keys.push(key);
        }
        assert forall|other: ProcessKey| #[trigger]
            keys@.contains(other) <==> all.take(i + 1).contains(other.pair()) && (waiting
                ==> applied@[other.pair()].is_pending()) by {
            assert(before.contains(other) <==> all.take(i).contains(other.pair()) && (waiting
                ==> applied@[other.pair()].is_pending()));
            if kept {
                assert(keys@[keys@.len() - 1] == key);
                if before.contains(other) {
                    let j = choose|j: int| 0 <= j < before.len() && before[j] == other;
                    assert(keys@[j] == other);
                }
            }
            if all.take(i).contains(other.pair()) {
                let j = choose|j: int| 0 <= j < i && all.take(i)[j] == other.pair();
                assert(all.take(i + 1)[j] == other.pair());
            }
            if other.pair() == *pair {
                assert(other == key);
                assert(all.take(i + 1)[i] == other.pair());
            }
        }
    }
    assert(all.take(all.len() as int) =~= all);
    assert forall|key: ProcessKey| #[trigger]
        keys@.contains(key) <==> applied@.contains_key(key.pair()) && (waiting
            ==> applied@[key.pair()].is_pending()) by {
        assert(all.to_set().contains(key.pair()) <==> all.contains(key.pair()));
    }
    keys
}

/// The processes that were looked after before all processes were gone through, and that were not
/// met on the way.
pub fn remove_unobserved(removable: &Vec<ProcessKey>, observed: &Vec<ProcessKey>) -> (keys: Vec<
    ProcessKey,
>)
    ensures
        keys@ == removable@.filter(|key: ProcessKey| !observed@.contains(key)),
{
    let ghost absent = |key: ProcessKey| !observed@.contains(key);
    let mut keys: Vec<ProcessKey> = Vec::new();
    let mut i: usize = 0;
    assert(removable@.take(0).filter(absent) =~= Seq::empty()) by {
        reveal(Seq::filter);
    }
    while i < removable.len()
        invariant
            i <= removable@.len(),
            absent == (|key: ProcessKey| !observed@.contains(key)),
            keys@ == removable@.take(i as int).filter(absent),
        decreases removable@.len() - i,
    {
        let key = removable[i];
        if !meets(observed, key) {
            keys.push(key);
        }
        i = i + 1;
        proof {
            reveal(Seq::filter);
            assert(removable@.take(i as int).drop_last() =~= removable@.take(i - 1));
        }
    }
    assert(removable@.take(i as int) =~= removable@);
    keys
}

fn meets(observed: &Vec<ProcessKey>, key: ProcessKey) -> (found: bool)
    ensures
        found == observed@.contains(key),
{
    let mut i: usize = 0;
    while i < observed.len()
        invariant
            i <= observed@.len(),
            forall|j: int| 0 <= j < i ==> observed@[j] != key,
        decreases observed@.len() - i,
    {
        if observed[i] == key {
            return true;
        }
        i = i + 1;
    }
    false
}

/// What a wait on the end of the engine and on a process came to.
#[derive(Clone, Copy, Debug, Eq, PartialEq, Structural)]
pub enum WatcherWait {
    Shutdown,
    ProcessSignaled,
    Unexpected(u32),
}

/// What the wait on the end of the engine and on a process means.
pub fn watcher_wait(wait: u32) -> (meaning: WatcherWait)
    ensures
        meaning == if wait == WAIT_OBJECT_0 {
            WatcherWait::Shutdown
        } else if wait == WAIT_OBJECT_0 + 1 {
            WatcherWait::ProcessSignaled
        } else {
            WatcherWait::Unexpected(wait)
        },
{
    if wait == WAIT_OBJECT_0 {
        WatcherWait::Shutdown
    } else if wait == WAIT_OBJECT_0 + 1 {
        WatcherWait::ProcessSignaled
    } else {
        WatcherWait::Unexpected(wait)
    }
}

/// Waits once, and acts on the signal of the process only. A wait that means nothing is returned.
pub fn watcher_loop(
    wait_once: impl FnOnce() -> WatcherWait,
    on_signal: impl FnOnce(),
) -> (unexpected: Option<u32>)
    requires
        call_requires(wait_once, ()),
        call_ensures(wait_once, (), WatcherWait::ProcessSignaled) ==> call_requires(on_signal, ()),
    ensures
        match unexpected {
            Some(wait) => call_ensures(wait_once, (), WatcherWait::Unexpected(wait)),
            None => call_ensures(wait_once, (), WatcherWait::Shutdown) || (call_ensures(
                wait_once,
                (),
                WatcherWait::ProcessSignaled,
            ) && call_ensures(on_signal, (), ())),
        },
{
    match wait_once() {
        WatcherWait::Shutdown => None,
        WatcherWait::ProcessSignaled => {
            on_signal();
            None
        },
        WatcherWait::Unexpected(wait) => Some(wait),
    }
}

/// The first processes were checked, one after the other, and each check gave its answer: whether
/// the process had become another one.
pub open spec fn were_checked<F: Fn(ProcessKey) -> Result<bool, ServiceError>>(
    reconcile: F,
    keys: Seq<ProcessKey>,
    answers: Seq<bool>,
) -> bool {
    &&& answers.len() <= keys.len()
    &&& forall|i: int|
        #![trigger answers[i]]
        0 <= i < answers.len() ==> call_ensures(reconcile, (keys[i],), Ok(answers[i]))
}

/// What a batch comes to after the checks that gave `answers`: the next check failed, or all
/// processes were gone through because one had become another, or nothing was left to do.
pub open spec fn batch_comes_to<
    D: Fn() -> bool,
    F: Fn(ProcessKey) -> Result<bool, ServiceError>,
    G: FnOnce() -> Result<(), ServiceError>,
>(
    keys: Seq<ProcessKey>,
    answers: Seq<bool>,
    is_shutting_down: D,
    reconcile: F,
    global_reconcile: G,
    done: Result<(), ServiceError>,
) -> bool {
    let complete = answers.len() == keys.len() || call_ensures(is_shutting_down, (), true);
    let changed = answers.contains(true);
    ||| {
        &&& answers.len() < keys.len()
        &&& call_ensures(is_shutting_down, (), false)
        &&& done matches Err(error) && call_ensures(
            reconcile,
            (keys[answers.len() as int],),
            Err(error),
        )
    }
    ||| {
        &&& complete && changed
        &&& call_ensures(is_shutting_down, (), false)
        &&& call_ensures(global_reconcile, (), done)
    }
    ||| {
        &&& complete && done is Ok
        &&& !changed || call_ensures(is_shutting_down, (), true)
    }
}

/// Checks the processes one after the other until the engine ends, and goes through all processes
/// once if any of them had become another one. The first failure ends it. Nothing is done without
/// asking first whether the engine ends, and without a change nothing is gone through.
pub fn run_bounded_reconciliation_batch<
    D: Fn() -> bool,
    F: Fn(ProcessKey) -> Result<bool, ServiceError>,
    G: FnOnce() -> Result<(), ServiceError>,
>(keys: Vec<ProcessKey>, is_shutting_down: D, reconcile: F, global_reconcile: G) -> (done: Result<
    (),
    ServiceError,
>)
    requires
        call_requires(is_shutting_down, ()),
        call_ensures(is_shutting_down, (), false) ==> forall|i: int|
            0 <= i < keys@.len() ==> call_requires(reconcile, (#[trigger] keys@[i],)),
        forall|answers: Seq<bool>|
            call_ensures(is_shutting_down, (), false) && #[trigger] were_checked(
                reconcile,
                keys@,
                answers,
            ) && answers.contains(true) && (answers.len() == keys@.len() || call_ensures(
                is_shutting_down,
                (),
                true,
            )) ==> call_requires(global_reconcile, ()),
    ensures
        exists|answers: Seq<bool>| #[trigger]
            were_checked(reconcile, keys@, answers) && batch_comes_to(
                keys@,
                answers,
                is_shutting_down,
                reconcile,
                global_reconcile,
                done,
            ),
{
    let mut identity_drift = false;
    let mut i: usize = 0;
    let mut stopped = false;
    let ghost mut answers: Seq<bool> = Seq::empty();
    while i < keys.len() && !stopped
        invariant
            i <= keys@.len(),
            answers.len() == i,
            call_requires(is_shutting_down, ()),
            call_ensures(is_shutting_down, (), false) ==> forall|i: int|
                0 <= i < keys@.len() ==> call_requires(reconcile, (#[trigger] keys@[i],)),
            stopped ==> call_ensures(is_shutting_down, (), true),
            identity_drift == answers.contains(true),
            were_checked(reconcile, keys@, answers),
        decreases
            keys@.len() - i + if stopped {
                0int
            } else {
                1
            },
    {
        if is_shutting_down() {
            stopped = true;
        } else {
            match reconcile(keys[i]) {
                Ok(drift) => {
                    let ghost before = answers;
                    proof {
                        answers = answers.push(drift);
                        assert(answers[i as int] == drift);
                        if before.contains(true) {
                            let k = choose|k: int| 0 <= k < before.len() && before[k];
                            assert(answers[k]);
                        }
                    }
                    if drift {
                        identity_drift = true;
                    }
                },
                Err(error) => {
                    assert(were_checked(reconcile, keys@, answers));
                    return Err(error);
                },
            }
            i = i + 1;
        }
    }
    if identity_drift {
        if !is_shutting_down() {
            return global_reconcile();
        }
    }
    Ok(())
}

impl EngineView {
    /// No process was checked more often than is owed to one.
    pub open spec fn is_sound(self) -> bool {
        forall|pair: (u32, u64)| #[trigger]
            self.applied.contains_key(pair) ==> self.applied[pair].reconciliation_checks
                <= MAX_RECONCILIATION_CHECKS
    }

    pub open spec fn waits_for_a_check(self) -> bool {
        self.reconciler == Some(ReconcilerPhase::TimerArmed) || self.reconciler == Some(
            ReconcilerPhase::WakePending,
        )
    }
}

/// Whatever comes of it, a check is counted, and none is made beyond the bound: after as many
/// checks as are owed, none is pending.
pub proof fn law_checks_are_bounded(engine: EngineView, key: ProcessKey)
    requires
        engine.is_sound(),
        engine.is_applied(key),
        engine.process(key).is_pending(),
    ensures
        engine.checking(key).is_sound(),
        engine.checking(key).process(key).reconciliation_checks == engine.process(
            key,
        ).reconciliation_checks + 1,
        engine.checking(key).process(key).is_pending() <==> engine.process(
            key,
        ).reconciliation_checks + 1 < MAX_RECONCILIATION_CHECKS,
{
    let checked = engine.checking(key);
    assert forall|pair: (u32, u64)| #[trigger]
        checked.applied.contains_key(pair) implies checked.applied[pair].reconciliation_checks
        <= MAX_RECONCILIATION_CHECKS by {
        assert(engine.applied.contains_key(pair));
    }
}

/// Inspecting and repairing a process changes neither how often it was checked nor whether a rule
/// is enforced on it.
pub proof fn law_repair_keeps_the_count(
    engine: EngineView,
    key: ProcessKey,
    inspection: PolicyInspection,
    application: PolicyApplication,
    failures: Vec<PolicyFailure>,
)
    requires
        engine.is_applied(key),
    ensures
        ({
            let inspected = engine.inspected(key, inspection);
            let repaired = inspected.repaired(key, inspection.drift, application, failures);
            &&& repaired.is_applied(key)
            &&& repaired.process(key).reconciliation_checks == engine.process(
                key,
            ).reconciliation_checks
            &&& repaired.process(key).enforcing == engine.process(key).enforcing
            &&& repaired.process(key).policy == engine.process(key).policy
            &&& repaired.reconciler == engine.reconciler
        }),
{
}

/// A new instance starts with no checks, and a rule that replaces another leaves the checks of an
/// instance counted. Neither touches another instance, even one with the same number, and neither
/// wakes the worker by itself.
pub proof fn law_counters_belong_to_instances(
    engine: EngineView,
    process: ResolvedProcess,
    image: ImageName,
    signature: AppliedProcessSignature,
    policy: ResolvedProcessPolicy,
    application: PolicyApplication,
    other: ProcessKey,
)
    ensures
        ({
            let after = engine.enforcing(process, image, signature, policy, application);
            &&& after.is_applied(process.key)
            &&& after.process(process.key).reconciliation_checks == if engine.is_applied(
                process.key,
            ) {
                engine.process(process.key).reconciliation_checks
            } else {
                0
            }
            &&& after.reconciler == engine.reconciler
            &&& other != process.key ==> (after.is_applied(other) <==> engine.is_applied(other))
            &&& other != process.key && engine.is_applied(other) ==> after.process(other)
                == engine.process(other)
        }),
{
    if other != process.key {
        assert(other.pair() != process.key.pair());
    }
}

/// A rule that was applied is left alone when the process is observed again.
pub proof fn law_enforced_rule_is_left_alone(
    engine: EngineView,
    process: ResolvedProcess,
    image: ImageName,
    signature: AppliedProcessSignature,
    policy: ResolvedProcessPolicy,
    application: PolicyApplication,
)
    ensures
        ({
            let after = engine.enforcing(process, image, signature, policy, application);
            &&& after.rule_step(process.key, signature@, ApplicationIntent::Observe)
                == RuleStep::Unchanged
            &&& after.rule_step(process.key, signature@, ApplicationIntent::Force)
                == (RuleStep::Reapply { policy, priority_job: application.priority_job })
        }),
{
}

/// After a change of the power profile no rule counts as enforced under the profile that is active
/// now, so every rule is applied anew.
pub proof fn law_profile_change_asks_for_every_rule(
    engine: EngineView,
    key: ProcessKey,
    old_profile: ProfileSnapshot,
    profile: PowerProfile,
    signature: SignatureView,
    intent: ApplicationIntent,
)
    requires
        old_profile.generation + 1 < PROFILE_GENERATIONS,
        engine.is_applied(key),
        engine.process(key).signature@.profile_generation <= old_profile.generation,
        signature.profile_generation == unpacked(
            packed(profile, (old_profile.generation + 1) as u64) as u64,
        ).generation,
    ensures
        engine.rule_step(key, signature, intent) == (RuleStep::Resolve {
            priority_job: engine.job(key),
        }),
{
    law_profile_state_reads_back(profile, (old_profile.generation + 1) as u64);
}

/// A process in a job that no rule applies to any more is not checked again.
pub proof fn law_retained_process_is_not_checked(
    engine: EngineView,
    key: ProcessKey,
    failures: Vec<PolicyFailure>,
)
    requires
        engine.is_applied(key),
    ensures
        !pending(engine.retaining(key, failures).applied).contains(key.pair()),
        engine.retaining(key, failures).process(key).reconciliation_checks == engine.process(
            key,
        ).reconciliation_checks,
        engine.retaining(key, failures).job(key) == engine.job(key),
{
}

/// A removal never wakes the worker, and once it is done a worker waits for a check only where one
/// is owed.
pub proof fn law_removal_parks_an_idle_worker(engine: EngineView, key: ProcessKey, now: u64)
    ensures
        engine.without(key, now).waits_for_a_check() ==> engine.waits_for_a_check() && !pending(
            engine.without(key, now).applied,
        ).is_empty(),
        !engine.without(key, now).is_applied(key),
        engine.removal(key).cancel_timer ==> engine.without(key, now).reconciler == Some(
            ReconcilerPhase::Parked,
        ),
{
}

/// An insertion wakes a worker only where it is parked: a batch that is under way is not begun
/// anew.
pub proof fn law_insertion_leaves_an_active_batch_alone(engine: EngineView, key: ProcessKey)
    ensures
        engine.announced(key).reconciler == engine.reconciler,
        engine.needs_wake(key) ==> engine.reconciler == Some(ReconcilerPhase::Parked),
        engine.reconciler != Some(ReconcilerPhase::Parked) ==> !engine.needs_wake(key),
{
}

/// A worker that ended its pass waits for the timer as long as a check is owed, and parks
/// otherwise.
pub proof fn law_worker_rests_when_nothing_is_owed(engine: EngineView, now: u64)
    requires
        engine.reconciler is Some,
        engine.reconciler != Some(ReconcilerPhase::Disabled),
    ensures
        pending(engine.applied).is_empty() ==> engine.after_pass(true, now).0.reconciler == Some(
            ReconcilerPhase::Parked,
        ),
        !pending(engine.applied).is_empty() && engine.reconciler != Some(
            ReconcilerPhase::TimerArmed,
        ) ==> engine.after_pass(true, now).1 == WorkerStep::ArmTimer,
{
}

/// An engine that has ended does not look after a process again: events are ignored, and the
/// worker stops at its next step.
pub proof fn law_ended_engine_rests(engine: EngineView, key: ProcessKey, wait: u32, now: u64)
    ensures
        engine.ended(now).shutting_down,
        !engine.ended(now).needs_wake(key),
        engine.ended(now).ended(now) == engine.ended(now),
        engine.ended(now).applied == engine.applied,
        wait != WAIT_OBJECT_0 + 2 ==> engine.ended(now).after_wait(wait, now).1 is Stop,
        engine.ended(now).after_wait(wait, now).1 !is Reconcile,
{
}

} // verus!
