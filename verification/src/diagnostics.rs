//! Diagnostics of the service: what it counts, how that stands in shared memory, and how it is
//! printed.

use vstd::prelude::*;

use crate::bytes;
use crate::bytes::ByteOrder;
use crate::text;

verus! {

pub const DIAGNOSTICS_MAPPING_NAME: &'static str = "Global\\0x484558.Affix.Diagnostics.v1";

pub const DIAGNOSTICS_MAGIC: u64 = 0x3147_4149_4446_4641;

pub const DIAGNOSTICS_ABI_VERSION: u32 = 1;

/// The size of the diagnostics in shared memory.
pub const DIAGNOSTICS_SIZE: u32 = 256;

/// What the reconciliation worker is doing.
#[derive(Clone, Copy, Debug, Eq, PartialEq, Structural)]
pub enum DiagnosticPhase {
    Starting,
    Parked,
    WakePending,
    TimerArmed,
    Running,
    Disabled,
    Shutdown,
}

impl DiagnosticPhase {
    pub open spec fn code(self) -> u32 {
        match self {
            DiagnosticPhase::Starting => 0,
            DiagnosticPhase::Parked => 1,
            DiagnosticPhase::WakePending => 2,
            DiagnosticPhase::TimerArmed => 3,
            DiagnosticPhase::Running => 4,
            DiagnosticPhase::Disabled => 5,
            DiagnosticPhase::Shutdown => 6,
        }
    }

    pub open spec fn of_code(value: u32) -> DiagnosticPhase {
        if value == 1 {
            DiagnosticPhase::Parked
        } else if value == 2 {
            DiagnosticPhase::WakePending
        } else if value == 3 {
            DiagnosticPhase::TimerArmed
        } else if value == 4 {
            DiagnosticPhase::Running
        } else if value == 5 {
            DiagnosticPhase::Disabled
        } else if value == 6 {
            DiagnosticPhase::Shutdown
        } else {
            DiagnosticPhase::Starting
        }
    }

    pub open spec fn name(self) -> Seq<char> {
        match self {
            DiagnosticPhase::Starting => "starting"@,
            DiagnosticPhase::Parked => "parked"@,
            DiagnosticPhase::WakePending => "wake-pending"@,
            DiagnosticPhase::TimerArmed => "timer-armed"@,
            DiagnosticPhase::Running => "running"@,
            DiagnosticPhase::Disabled => "disabled"@,
            DiagnosticPhase::Shutdown => "shutdown"@,
        }
    }

    pub fn to_u32(self) -> (value: u32)
        ensures
            value == self.code(),
    {
        match self {
            DiagnosticPhase::Starting => 0,
            DiagnosticPhase::Parked => 1,
            DiagnosticPhase::WakePending => 2,
            DiagnosticPhase::TimerArmed => 3,
            DiagnosticPhase::Running => 4,
            DiagnosticPhase::Disabled => 5,
            DiagnosticPhase::Shutdown => 6,
        }
    }

    /// The phase with the given number. An unknown number means that nothing is known yet.
    pub fn from_u32(value: u32) -> (phase: Self)
        ensures
            phase == DiagnosticPhase::of_code(value),
    {
        match value {
            1 => DiagnosticPhase::Parked,
            2 => DiagnosticPhase::WakePending,
            3 => DiagnosticPhase::TimerArmed,
            4 => DiagnosticPhase::Running,
            5 => DiagnosticPhase::Disabled,
            6 => DiagnosticPhase::Shutdown,
            _ => DiagnosticPhase::Starting,
        }
    }

    pub fn as_str(self) -> (name: &'static str)
        ensures
            name@ == self.name(),
    {
        match self {
            DiagnosticPhase::Starting => "starting",
            DiagnosticPhase::Parked => "parked",
            DiagnosticPhase::WakePending => "wake-pending",
            DiagnosticPhase::TimerArmed => "timer-armed",
            DiagnosticPhase::Running => "running",
            DiagnosticPhase::Disabled => "disabled",
            DiagnosticPhase::Shutdown => "shutdown",
        }
    }
}

/// Why the reconciliation worker failed last.
#[derive(Clone, Copy, Debug, Eq, PartialEq, Structural)]
pub enum DiagnosticFailure {
    Nothing,
    Wake,
    TimerArm,
    Wait,
    Bookkeeping,
    StatePoisoned,
}

impl DiagnosticFailure {
    pub open spec fn code(self) -> u32 {
        match self {
            DiagnosticFailure::Nothing => 0,
            DiagnosticFailure::Wake => 1,
            DiagnosticFailure::TimerArm => 2,
            DiagnosticFailure::Wait => 3,
            DiagnosticFailure::Bookkeeping => 4,
            DiagnosticFailure::StatePoisoned => 5,
        }
    }

    pub open spec fn of_code(value: u32) -> DiagnosticFailure {
        if value == 1 {
            DiagnosticFailure::Wake
        } else if value == 2 {
            DiagnosticFailure::TimerArm
        } else if value == 3 {
            DiagnosticFailure::Wait
        } else if value == 4 {
            DiagnosticFailure::Bookkeeping
        } else if value == 5 {
            DiagnosticFailure::StatePoisoned
        } else {
            DiagnosticFailure::Nothing
        }
    }

    pub open spec fn name(self) -> Seq<char> {
        match self {
            DiagnosticFailure::Nothing => "none"@,
            DiagnosticFailure::Wake => "wake"@,
            DiagnosticFailure::TimerArm => "timer-arm"@,
            DiagnosticFailure::Wait => "wait"@,
            DiagnosticFailure::Bookkeeping => "bookkeeping"@,
            DiagnosticFailure::StatePoisoned => "state-poisoned"@,
        }
    }

    pub fn to_u32(self) -> (value: u32)
        ensures
            value == self.code(),
    {
        match self {
            DiagnosticFailure::Nothing => 0,
            DiagnosticFailure::Wake => 1,
            DiagnosticFailure::TimerArm => 2,
            DiagnosticFailure::Wait => 3,
            DiagnosticFailure::Bookkeeping => 4,
            DiagnosticFailure::StatePoisoned => 5,
        }
    }

    pub fn from_u32(value: u32) -> (failure: Self)
        ensures
            failure == DiagnosticFailure::of_code(value),
    {
        match value {
            1 => DiagnosticFailure::Wake,
            2 => DiagnosticFailure::TimerArm,
            3 => DiagnosticFailure::Wait,
            4 => DiagnosticFailure::Bookkeeping,
            5 => DiagnosticFailure::StatePoisoned,
            _ => DiagnosticFailure::Nothing,
        }
    }

    pub fn as_str(self) -> (name: &'static str)
        ensures
            name@ == self.name(),
    {
        match self {
            DiagnosticFailure::Nothing => "none",
            DiagnosticFailure::Wake => "wake",
            DiagnosticFailure::TimerArm => "timer-arm",
            DiagnosticFailure::Wait => "wait",
            DiagnosticFailure::Bookkeeping => "bookkeeping",
            DiagnosticFailure::StatePoisoned => "state-poisoned",
        }
    }
}

/// Phases and failures are known again by their numbers.
pub proof fn law_codes_read_back(phase: DiagnosticPhase, failure: DiagnosticFailure)
    ensures
        DiagnosticPhase::of_code(phase.code()) == phase,
        DiagnosticFailure::of_code(failure.code()) == failure,
{
}

/// What the service counts.
#[derive(Clone, Copy, Debug, Eq, PartialEq, Structural)]
pub struct DiagnosticPublisher {
    pub service_pid: u32,
    pub package_version_major: u32,
    pub package_version_minor: u32,
    pub package_version_patch: u32,
    pub phase: u32,
    pub worker_enabled: u32,
    pub last_failure: u32,
    pub tracked_instances: u32,
    pub enforcing_instances: u32,
    pub pending_instances: u32,
    pub started_unix_ms: u64,
    pub last_transition_unix_ms: u64,
    pub insertions: u64,
    pub wake_signals: u64,
    pub timer_arms: u64,
    pub timer_cancellations: u64,
    pub passes_started: u64,
    pub passes_completed: u64,
    pub candidates_checked: u64,
    pub clean_candidates: u64,
    pub identity_drifts: u64,
    pub resolution_failures: u64,
    pub policy_query_failures: u64,
    pub repair_candidates: u64,
    pub drifted_components: u64,
    pub setter_failures: u64,
    pub global_reconciliations: u64,
    pub worker_failures: u64,
}

/// `count` and `more`, but no more than can be counted.
pub open spec fn counted(count: u64, more: int) -> u64 {
    if count + more > u64::MAX {
        u64::MAX
    } else {
        (count + more) as u64
    }
}

pub open spec fn capped(value: nat) -> u32 {
    if value > u32::MAX {
        u32::MAX
    } else {
        value as u32
    }
}

pub fn saturating_u32(value: usize) -> (capped_value: u32)
    ensures
        capped_value == capped(value as nat),
{
    if value > u32::MAX as usize {
        u32::MAX
    } else {
        value as u32
    }
}

/// The version numbers in a text such as `1.2.3-rc`. What is no number counts as zero.
pub open spec fn version_of(version: Seq<char>) -> (u32, u32, u32) {
    let parts = text::split(version, '.');
    (
        number_or_zero(parts, 0),
        number_or_zero(parts, 1),
        if parts.len() > 2 {
            number_or_zero(text::split(parts[2], '-'), 0)
        } else {
            0
        },
    )
}

pub open spec fn number_or_zero(parts: Seq<Seq<char>>, i: int) -> u32 {
    if i < parts.len() {
        match text::unsigned_32(parts[i]) {
            Some(number) => number,
            None => 0,
        }
    } else {
        0
    }
}

fn number_at(parts: &Vec<String>, i: usize) -> (number: u32)
    ensures
        number == number_or_zero(text::views(parts@), i as int),
{
    if i < parts.len() {
        assert(text::views(parts@)[i as int] == parts@[i as int]@);
        match text::number_32(parts[i].as_str()) {
            Some(number) => number,
            None => 0,
        }
    } else {
        0
    }
}

pub fn package_version(version: &str) -> (numbers: (u32, u32, u32))
    ensures
        numbers == version_of(version@),
{
    let parts = text::pieces(version, '.');
    assert(text::views(parts@).len() == parts@.len());
    let patch: u32 = if parts.len() > 2 {
        assert(text::views(parts@)[2] == parts@[2]@);
        number_at(&text::pieces(parts[2].as_str(), '-'), 0)
    } else {
        0
    };
    (number_at(&parts, 0), number_at(&parts, 1), patch)
}

/// The milliseconds since the epoch that a clock shows. A clock before the epoch shows none.
pub fn unix_time_ms(millis: Option<u128>) -> (time: u64)
    ensures
        time == match millis {
            Some(millis) => if millis > u64::MAX {
                u64::MAX as int
            } else {
                millis as int
            },
            None => 0,
        },
{
    match millis {
        Some(millis) => if millis > u64::MAX as u128 {
            u64::MAX
        } else {
            millis as u64
        },
        None => 0,
    }
}

impl DiagnosticPublisher {
    /// The diagnostics of a service that has just started.
    pub fn new(service_pid: u32, version: (u32, u32, u32), now: u64) -> (diagnostics: Self)
        ensures
            diagnostics == (DiagnosticPublisher {
                service_pid,
                package_version_major: version.0,
                package_version_minor: version.1,
                package_version_patch: version.2,
                phase: 0,
                worker_enabled: 0,
                last_failure: 0,
                tracked_instances: 0,
                enforcing_instances: 0,
                pending_instances: 0,
                started_unix_ms: now,
                last_transition_unix_ms: now,
                insertions: 0,
                wake_signals: 0,
                timer_arms: 0,
                timer_cancellations: 0,
                passes_started: 0,
                passes_completed: 0,
                candidates_checked: 0,
                clean_candidates: 0,
                identity_drifts: 0,
                resolution_failures: 0,
                policy_query_failures: 0,
                repair_candidates: 0,
                drifted_components: 0,
                setter_failures: 0,
                global_reconciliations: 0,
                worker_failures: 0,
            }),
    {
        DiagnosticPublisher {
            service_pid,
            package_version_major: version.0,
            package_version_minor: version.1,
            package_version_patch: version.2,
            phase: 0,
            worker_enabled: 0,
            last_failure: 0,
            tracked_instances: 0,
            enforcing_instances: 0,
            pending_instances: 0,
            started_unix_ms: now,
            last_transition_unix_ms: now,
            insertions: 0,
            wake_signals: 0,
            timer_arms: 0,
            timer_cancellations: 0,
            passes_started: 0,
            passes_completed: 0,
            candidates_checked: 0,
            clean_candidates: 0,
            identity_drifts: 0,
            resolution_failures: 0,
            policy_query_failures: 0,
            repair_candidates: 0,
            drifted_components: 0,
            setter_failures: 0,
            global_reconciliations: 0,
            worker_failures: 0,
        }
    }

    pub fn set_worker_enabled(&mut self, enabled: bool)
        ensures
            *final(self) == (DiagnosticPublisher {
                worker_enabled: if enabled {
                    1
                } else {
                    0
                },
                ..*old(self)
            }),
    {
        self.worker_enabled = if enabled {
            1
        } else {
            0
        };
    }

    pub fn set_phase(&mut self, phase: DiagnosticPhase, now: u64)
        ensures
            *final(self) == (DiagnosticPublisher {
                phase: phase.code(),
                last_transition_unix_ms: now,
                ..*old(self)
            }),
    {
        self.phase = phase.to_u32();
        self.last_transition_unix_ms = now;
    }

    pub fn update_inventory(&mut self, instances: usize, enforcing: usize, pending: usize)
        ensures
            *final(self) == (DiagnosticPublisher {
                tracked_instances: capped(instances as nat),
                enforcing_instances: capped(enforcing as nat),
                pending_instances: capped(pending as nat),
                ..*old(self)
            }),
    {
        self.tracked_instances = saturating_u32(instances);
        self.enforcing_instances = saturating_u32(enforcing);
        self.pending_instances = saturating_u32(pending);
    }

    pub fn record_insertion(&mut self)
        ensures
            *final(self) == (DiagnosticPublisher {
                insertions: counted(old(self).insertions, 1),
                ..*old(self)
            }),
    {
        self.insertions = self.insertions.saturating_add(1);
    }

    pub fn record_wake_signal(&mut self)
        ensures
            *final(self) == (DiagnosticPublisher {
                wake_signals: counted(old(self).wake_signals, 1),
                ..*old(self)
            }),
    {
        self.wake_signals = self.wake_signals.saturating_add(1);
    }

    pub fn record_timer_arm(&mut self)
        ensures
            *final(self) == (DiagnosticPublisher {
                timer_arms: counted(old(self).timer_arms, 1),
                ..*old(self)
            }),
    {
        self.timer_arms = self.timer_arms.saturating_add(1);
    }

    pub fn record_timer_cancellation(&mut self)
        ensures
            *final(self) == (DiagnosticPublisher {
                timer_cancellations: counted(old(self).timer_cancellations, 1),
                ..*old(self)
            }),
    {
        self.timer_cancellations = self.timer_cancellations.saturating_add(1);
    }

    pub fn record_pass_started(&mut self)
        ensures
            *final(self) == (DiagnosticPublisher {
                passes_started: counted(old(self).passes_started, 1),
                ..*old(self)
            }),
    {
        self.passes_started = self.passes_started.saturating_add(1);
    }

    pub fn record_pass_completed(&mut self)
        ensures
            *final(self) == (DiagnosticPublisher {
                passes_completed: counted(old(self).passes_completed, 1),
                ..*old(self)
            }),
    {
        self.passes_completed = self.passes_completed.saturating_add(1);
    }

    pub fn record_candidate(&mut self)
        ensures
            *final(self) == (DiagnosticPublisher {
                candidates_checked: counted(old(self).candidates_checked, 1),
                ..*old(self)
            }),
    {
        self.candidates_checked = self.candidates_checked.saturating_add(1);
    }

    pub fn record_clean_candidate(&mut self)
        ensures
            *final(self) == (DiagnosticPublisher {
                clean_candidates: counted(old(self).clean_candidates, 1),
                ..*old(self)
            }),
    {
        self.clean_candidates = self.clean_candidates.saturating_add(1);
    }

    pub fn record_identity_drift(&mut self)
        ensures
            *final(self) == (DiagnosticPublisher {
                identity_drifts: counted(old(self).identity_drifts, 1),
                ..*old(self)
            }),
    {
        self.identity_drifts = self.identity_drifts.saturating_add(1);
    }

    pub fn record_resolution_failure(&mut self)
        ensures
            *final(self) == (DiagnosticPublisher {
                resolution_failures: counted(old(self).resolution_failures, 1),
                ..*old(self)
            }),
    {
        self.resolution_failures = self.resolution_failures.saturating_add(1);
    }

    pub fn record_global_reconciliation(&mut self)
        ensures
            *final(self) == (DiagnosticPublisher {
                global_reconciliations: counted(old(self).global_reconciliations, 1),
                ..*old(self)
            }),
    {
        self.global_reconciliations = self.global_reconciliations.saturating_add(1);
    }

    pub fn record_policy_query_failures(&mut self, count: usize)
        ensures
            *final(self) == (DiagnosticPublisher {
                policy_query_failures: counted(old(self).policy_query_failures, count as int),
                ..*old(self)
            }),
    {
        self.policy_query_failures = self.policy_query_failures.saturating_add(count as u64);
    }

    pub fn record_repair(&mut self, drifted_components: u64, setter_failures: usize)
        ensures
            *final(self) == (DiagnosticPublisher {
                repair_candidates: counted(old(self).repair_candidates, 1),
                drifted_components: counted(
                    old(self).drifted_components,
                    drifted_components as int,
                ),
                setter_failures: counted(old(self).setter_failures, setter_failures as int),
                ..*old(self)
            }),
    {
        self.repair_candidates = self.repair_candidates.saturating_add(1);
        self.drifted_components = self.drifted_components.saturating_add(drifted_components);
        self.setter_failures = self.setter_failures.saturating_add(setter_failures as u64);
    }

    pub fn record_worker_failure(&mut self, failure: DiagnosticFailure)
        ensures
            *final(self) == (DiagnosticPublisher {
                last_failure: failure.code(),
                worker_failures: counted(old(self).worker_failures, 1),
                ..*old(self)
            }),
    {
        self.last_failure = failure.to_u32();
        self.worker_failures = self.worker_failures.saturating_add(1);
    }

    /// What is left when the service stops publishing.
    pub fn retire(&mut self, now: u64)
        ensures
            *final(self) == (DiagnosticPublisher {
                phase: DiagnosticPhase::Shutdown.code(),
                last_transition_unix_ms: now,
                worker_enabled: 0,
                ..*old(self)
            }),
    {
        self.set_phase(DiagnosticPhase::Shutdown, now);
        self.set_worker_enabled(false);
    }

    #[verifier::opaque]
    pub open spec fn small_values(self) -> Seq<u32> {
        seq![
            DIAGNOSTICS_ABI_VERSION,
            DIAGNOSTICS_SIZE,
            self.service_pid,
            self.package_version_major,
            self.package_version_minor,
            self.package_version_patch,
            self.phase,
            self.worker_enabled,
            self.last_failure,
            self.tracked_instances,
            self.enforcing_instances,
            self.pending_instances,
        ]
    }

    #[verifier::opaque]
    pub open spec fn large_values(self) -> Seq<u64> {
        seq![
            self.started_unix_ms,
            self.last_transition_unix_ms,
            self.insertions,
            self.wake_signals,
            self.timer_arms,
            self.timer_cancellations,
            self.passes_started,
            self.passes_completed,
            self.candidates_checked,
            self.clean_candidates,
            self.identity_drifts,
            self.resolution_failures,
            self.policy_query_failures,
            self.repair_candidates,
            self.drifted_components,
            self.setter_failures,
            self.global_reconciliations,
            self.worker_failures,
        ]
    }

    /// The diagnostics as they stand in shared memory: the magic number, the version of the
    /// layout, its size, and then the fields in their order.
    pub open spec fn layout(self, magic: u64, order: ByteOrder) -> Seq<u8> {
        bytes::u64_bytes(magic, order) + bytes::words_32(self.small_values(), order)
            + bytes::words_64(self.large_values(), order) + Seq::new(56, |i: int| 0u8)
    }

    /// What stands in shared memory. The magic number says whether it may be read: it is
    /// `DIAGNOSTICS_MAGIC` while the service publishes, and zero before and after.
    pub fn memory(&self, magic: u64, order: ByteOrder) -> (memory: Vec<u8>)
        ensures
            memory@ == self.layout(magic, order),
    {
        let mut memory: Vec<u8> = Vec::new();
        bytes::push_u64(&mut memory, magic, order);
        let small: Vec<u32> = vec![
            DIAGNOSTICS_ABI_VERSION,
            DIAGNOSTICS_SIZE,
            self.service_pid,
            self.package_version_major,
            self.package_version_minor,
            self.package_version_patch,
            self.phase,
            self.worker_enabled,
            self.last_failure,
            self.tracked_instances,
            self.enforcing_instances,
            self.pending_instances,
        ];
        assert(small@ =~= self.small_values()) by {
            reveal(DiagnosticPublisher::small_values);
        }
        bytes::push_words_32(&mut memory, &small, order);
        let large: Vec<u64> = vec![
            self.started_unix_ms,
            self.last_transition_unix_ms,
            self.insertions,
            self.wake_signals,
            self.timer_arms,
            self.timer_cancellations,
            self.passes_started,
            self.passes_completed,
            self.candidates_checked,
            self.clean_candidates,
            self.identity_drifts,
            self.resolution_failures,
            self.policy_query_failures,
            self.repair_candidates,
            self.drifted_components,
            self.setter_failures,
            self.global_reconciliations,
            self.worker_failures,
        ];
        assert(large@ =~= self.large_values()) by {
            reveal(DiagnosticPublisher::large_values);
        }
        bytes::push_words_64(&mut memory, &large, order);
        let ghost written = memory@;
        let mut i: usize = 0;
        while i < 56
            invariant
                i <= 56,
                memory@ == written + Seq::new(i as nat, |i: int| 0u8),
            decreases 56 - i,
        {
            memory.push(0);
            i = i + 1;
            assert(memory@ =~= written + Seq::new(i as nat, |i: int| 0u8));
        }
        assert(memory@ =~= self.layout(magic, order));
        memory
    }

    /// What a reader reports of these diagnostics.
    pub open spec fn reported(self, mapping: Seq<char>) -> SnapshotView {
        SnapshotView {
            mapping,
            abi_version: DIAGNOSTICS_ABI_VERSION,
            service_pid: self.service_pid,
            package_version: (
                self.package_version_major,
                self.package_version_minor,
                self.package_version_patch,
            ),
            phase: DiagnosticPhase::of_code(self.phase).name(),
            worker_enabled: self.worker_enabled != 0,
            last_failure: DiagnosticFailure::of_code(self.last_failure).name(),
            tracked_instances: self.tracked_instances,
            enforcing_instances: self.enforcing_instances,
            pending_instances: self.pending_instances,
            counts: self.large_values(),
        }
    }
}

/// What a snapshot shows. The counts stand in the order of the memory layout.
#[verifier::ext_equal]
pub struct SnapshotView {
    pub mapping: Seq<char>,
    pub abi_version: u32,
    pub service_pid: u32,
    pub package_version: (u32, u32, u32),
    pub phase: Seq<char>,
    pub worker_enabled: bool,
    pub last_failure: Seq<char>,
    pub tracked_instances: u32,
    pub enforcing_instances: u32,
    pub pending_instances: u32,
    pub counts: Seq<u64>,
}

/// What the diagnostics said at one moment.
#[derive(Clone, Copy, Debug, Eq, PartialEq)]
pub struct DiagnosticSnapshot {
    pub mapping: &'static str,
    pub abi_version: u32,
    pub service_pid: u32,
    pub package_version: (u32, u32, u32),
    pub phase: &'static str,
    pub worker_enabled: bool,
    pub last_failure: &'static str,
    pub tracked_instances: u32,
    pub enforcing_instances: u32,
    pub pending_instances: u32,
    pub started_unix_ms: u64,
    pub last_transition_unix_ms: u64,
    pub insertions: u64,
    pub wake_signals: u64,
    pub timer_arms: u64,
    pub timer_cancellations: u64,
    pub passes_started: u64,
    pub passes_completed: u64,
    pub candidates_checked: u64,
    pub clean_candidates: u64,
    pub identity_drifts: u64,
    pub resolution_failures: u64,
    pub policy_query_failures: u64,
    pub repair_candidates: u64,
    pub drifted_components: u64,
    pub setter_failures: u64,
    pub global_reconciliations: u64,
    pub worker_failures: u64,
}

impl View for DiagnosticSnapshot {
    type V = SnapshotView;

    open spec fn view(&self) -> SnapshotView {
        SnapshotView {
            mapping: self.mapping@,
            abi_version: self.abi_version,
            service_pid: self.service_pid,
            package_version: self.package_version,
            phase: self.phase@,
            worker_enabled: self.worker_enabled,
            last_failure: self.last_failure@,
            tracked_instances: self.tracked_instances,
            enforcing_instances: self.enforcing_instances,
            pending_instances: self.pending_instances,
            counts: seq![
                self.started_unix_ms,
                self.last_transition_unix_ms,
                self.insertions,
                self.wake_signals,
                self.timer_arms,
                self.timer_cancellations,
                self.passes_started,
                self.passes_completed,
                self.candidates_checked,
                self.clean_candidates,
                self.identity_drifts,
                self.resolution_failures,
                self.policy_query_failures,
                self.repair_candidates,
                self.drifted_components,
                self.setter_failures,
                self.global_reconciliations,
                self.worker_failures,
            ],
        }
    }
}

/// One line of the printed form.
pub open spec fn entry(key: Seq<char>, value: Seq<char>) -> Seq<char> {
    key + "="@ + value
}

pub open spec fn truth(value: bool) -> Seq<char> {
    if value {
        "true"@
    } else {
        "false"@
    }
}

pub open spec fn version_text(version: (u32, u32, u32)) -> Seq<char> {
    text::decimal(version.0 as nat) + "."@ + text::decimal(version.1 as nat) + "."@ + text::decimal(
        version.2 as nat,
    )
}

fn text_entry(key: &str, value: &str) -> (line: String)
    ensures
        line@ == entry(key@, value@),
{
    let mut line = key.to_owned();
    text::append(&mut line, "=");
    text::append(&mut line, value);
    line
}

fn number_entry(key: &str, value: u64) -> (line: String)
    ensures
        line@ == entry(key@, text::decimal(value as nat)),
{
    let number = text::decimal_text(value);
    text_entry(key, number.as_str())
}

fn version_entry(key: &str, version: (u32, u32, u32)) -> (line: String)
    ensures
        line@ == entry(key@, version_text(version)),
{
    let mut numbers = text::decimal_text(version.0 as u64);
    text::append(&mut numbers, ".");
    let minor = text::decimal_text(version.1 as u64);
    text::append(&mut numbers, minor.as_str());
    text::append(&mut numbers, ".");
    let patch = text::decimal_text(version.2 as u64);
    text::append(&mut numbers, patch.as_str());
    text_entry(key, numbers.as_str())
}

impl DiagnosticSnapshot {
    pub open spec fn lines(&self) -> Seq<Seq<char>> {
        seq![
            entry("mapping"@, self.mapping@),
            entry("abi_version"@, text::decimal(self.abi_version as nat)),
            entry("service_pid"@, text::decimal(self.service_pid as nat)),
            entry("package_version"@, version_text(self.package_version)),
            entry("phase"@, self.phase@),
            entry("worker_enabled"@, truth(self.worker_enabled)),
            entry("last_failure"@, self.last_failure@),
            entry("tracked_instances"@, text::decimal(self.tracked_instances as nat)),
            entry("enforcing_instances"@, text::decimal(self.enforcing_instances as nat)),
            entry("pending_instances"@, text::decimal(self.pending_instances as nat)),
            entry("started_unix_ms"@, text::decimal(self.started_unix_ms as nat)),
            entry("last_transition_unix_ms"@, text::decimal(self.last_transition_unix_ms as nat)),
            entry("insertions"@, text::decimal(self.insertions as nat)),
            entry("wake_signals"@, text::decimal(self.wake_signals as nat)),
            entry("timer_arms"@, text::decimal(self.timer_arms as nat)),
            entry("timer_cancellations"@, text::decimal(self.timer_cancellations as nat)),
            entry("passes_started"@, text::decimal(self.passes_started as nat)),
            entry("passes_completed"@, text::decimal(self.passes_completed as nat)),
            entry("candidates_checked"@, text::decimal(self.candidates_checked as nat)),
            entry("clean_candidates"@, text::decimal(self.clean_candidates as nat)),
            entry("identity_drifts"@, text::decimal(self.identity_drifts as nat)),
            entry("resolution_failures"@, text::decimal(self.resolution_failures as nat)),
            entry("policy_query_failures"@, text::decimal(self.policy_query_failures as nat)),
            entry("repair_candidates"@, text::decimal(self.repair_candidates as nat)),
            entry("drifted_components"@, text::decimal(self.drifted_components as nat)),
            entry("setter_failures"@, text::decimal(self.setter_failures as nat)),
            entry("global_reconciliations"@, text::decimal(self.global_reconciliations as nat)),
            entry("worker_failures"@, text::decimal(self.worker_failures as nat)),
        ]
    }

    /// The printed form: a line `key=value` for each field, in the order of the fields, with no
    /// line break at the end.
    pub fn to_text(&self) -> (text: String)
        ensures
            text@ == text::joined(self.lines(), '\n'),
    {
        let mut lines: Vec<String> = Vec::new();
        lines.push(text_entry("mapping", self.mapping));
        lines.push(number_entry("abi_version", self.abi_version as u64));
        lines.push(number_entry("service_pid", self.service_pid as u64));
        lines.push(version_entry("package_version", self.package_version));
        lines.push(text_entry("phase", self.phase));
        lines.push(
            if self.worker_enabled {
                text_entry("worker_enabled", "true")
            } else {
                text_entry("worker_enabled", "false")
            },
        );
        lines.push(text_entry("last_failure", self.last_failure));
        lines.push(number_entry("tracked_instances", self.tracked_instances as u64));
        lines.push(number_entry("enforcing_instances", self.enforcing_instances as u64));
        lines.push(number_entry("pending_instances", self.pending_instances as u64));
        lines.push(number_entry("started_unix_ms", self.started_unix_ms));
        lines.push(number_entry("last_transition_unix_ms", self.last_transition_unix_ms));
        lines.push(number_entry("insertions", self.insertions));
        lines.push(number_entry("wake_signals", self.wake_signals));
        lines.push(number_entry("timer_arms", self.timer_arms));
        lines.push(number_entry("timer_cancellations", self.timer_cancellations));
        lines.push(number_entry("passes_started", self.passes_started));
        lines.push(number_entry("passes_completed", self.passes_completed));
        lines.push(number_entry("candidates_checked", self.candidates_checked));
        lines.push(number_entry("clean_candidates", self.clean_candidates));
        lines.push(number_entry("identity_drifts", self.identity_drifts));
        lines.push(number_entry("resolution_failures", self.resolution_failures));
        lines.push(number_entry("policy_query_failures", self.policy_query_failures));
        lines.push(number_entry("repair_candidates", self.repair_candidates));
        lines.push(number_entry("drifted_components", self.drifted_components));
        lines.push(number_entry("setter_failures", self.setter_failures));
        lines.push(number_entry("global_reconciliations", self.global_reconciliations));
        lines.push(number_entry("worker_failures", self.worker_failures));
        assert(text::views(lines@) =~= self.lines());
        text::join(&lines, '\n')
    }
}

/// Why diagnostics cannot be published or read.
#[derive(Debug)]
pub enum DiagnosticError {
    AlreadyExists(String),
    Argument(String),
    InvalidMapping(&'static str),
    Windows { operation: &'static str, source: String },
}

impl DiagnosticError {
    pub open spec fn text(self) -> Seq<char> {
        match self {
            DiagnosticError::AlreadyExists(name) => "mapping already exists: "@ + name@,
            DiagnosticError::Argument(message) => message@,
            DiagnosticError::InvalidMapping(message) => "invalid diagnostics mapping: "@
                + message@,
            DiagnosticError::Windows { operation, source } => operation@ + ": "@ + source@,
        }
    }

    pub fn message(&self) -> (message: String)
        ensures
            message@ == self.text(),
    {
        match self {
            DiagnosticError::AlreadyExists(name) => {
                let mut message = "mapping already exists: ".to_owned();
                text::append(&mut message, name.as_str());
                message
            },
            DiagnosticError::Argument(message) => message.as_str().to_owned(),
            DiagnosticError::InvalidMapping(reason) => {
                let mut message = "invalid diagnostics mapping: ".to_owned();
                text::append(&mut message, reason);
                message
            },
            DiagnosticError::Windows { operation, source } => {
                let mut message = (*operation).to_owned();
                text::append(&mut message, ": ");
                text::append(&mut message, source.as_str());
                message
            },
        }
    }
}

/// Whether a new publisher may take a mapping: one that existed before is free only when nobody
/// publishes in it.
pub fn claim_mapping(name: &str, existed: bool, magic: u64) -> (claimed: Result<
    (),
    DiagnosticError,
>)
    ensures
        match claimed {
            Ok(_) => !existed || magic == 0,
            Err(DiagnosticError::AlreadyExists(taken)) => existed && magic != 0 && taken@ == name@,
            Err(_) => false,
        },
{
    if existed && magic != 0 {
        Err(DiagnosticError::AlreadyExists(name.to_owned()))
    } else {
        Ok(())
    }
}

/// Why the memory holds no diagnostics, if it holds none.
pub open spec fn refusal(memory: Seq<u8>, order: ByteOrder) -> Option<Seq<char>> {
    if bytes::u64_at(memory, 0, order) != DIAGNOSTICS_MAGIC {
        Some("magic mismatch"@)
    } else if bytes::u32_at(memory, 8, order) != DIAGNOSTICS_ABI_VERSION {
        Some("unsupported diagnostics ABI version"@)
    } else if bytes::u32_at(memory, 12, order) != DIAGNOSTICS_SIZE {
        Some("diagnostics structure size mismatch"@)
    } else {
        None
    }
}

/// The diagnostics that stand in memory.
pub open spec fn published(memory: Seq<u8>, order: ByteOrder) -> DiagnosticPublisher {
    DiagnosticPublisher {
        service_pid: bytes::u32_at(memory, 16, order),
        package_version_major: bytes::u32_at(memory, 20, order),
        package_version_minor: bytes::u32_at(memory, 24, order),
        package_version_patch: bytes::u32_at(memory, 28, order),
        phase: bytes::u32_at(memory, 32, order),
        worker_enabled: bytes::u32_at(memory, 36, order),
        last_failure: bytes::u32_at(memory, 40, order),
        tracked_instances: bytes::u32_at(memory, 44, order),
        enforcing_instances: bytes::u32_at(memory, 48, order),
        pending_instances: bytes::u32_at(memory, 52, order),
        started_unix_ms: bytes::u64_at(memory, 56, order),
        last_transition_unix_ms: bytes::u64_at(memory, 64, order),
        insertions: bytes::u64_at(memory, 72, order),
        wake_signals: bytes::u64_at(memory, 80, order),
        timer_arms: bytes::u64_at(memory, 88, order),
        timer_cancellations: bytes::u64_at(memory, 96, order),
        passes_started: bytes::u64_at(memory, 104, order),
        passes_completed: bytes::u64_at(memory, 112, order),
        candidates_checked: bytes::u64_at(memory, 120, order),
        clean_candidates: bytes::u64_at(memory, 128, order),
        identity_drifts: bytes::u64_at(memory, 136, order),
        resolution_failures: bytes::u64_at(memory, 144, order),
        policy_query_failures: bytes::u64_at(memory, 152, order),
        repair_candidates: bytes::u64_at(memory, 160, order),
        drifted_components: bytes::u64_at(memory, 168, order),
        setter_failures: bytes::u64_at(memory, 176, order),
        global_reconciliations: bytes::u64_at(memory, 184, order),
        worker_failures: bytes::u64_at(memory, 192, order),
    }
}

/// Reads the diagnostics that stand in shared memory.
pub fn read_named_snapshot(
    memory: &[u8; 256],
    order: ByteOrder,
    reported_name: &'static str,
) -> (snapshot: Result<DiagnosticSnapshot, DiagnosticError>)
    ensures
        match snapshot {
            Ok(snapshot) => refusal(memory@, order) is None && snapshot@ == published(
                memory@,
                order,
            ).reported(reported_name@),
            Err(DiagnosticError::InvalidMapping(message)) => refusal(memory@, order) == Some(
                message@,
            ),
            Err(_) => false,
        },
{
    let memory = memory.as_slice();
    if bytes::read_u64_at(memory, 0, order) != DIAGNOSTICS_MAGIC {
        return Err(DiagnosticError::InvalidMapping("magic mismatch"));
    }
    let abi_version: u32 = bytes::read_u32_at(memory, 8, order);
    if abi_version != DIAGNOSTICS_ABI_VERSION {
        return Err(DiagnosticError::InvalidMapping("unsupported diagnostics ABI version"));
    }
    if bytes::read_u32_at(memory, 12, order) != DIAGNOSTICS_SIZE {
        return Err(DiagnosticError::InvalidMapping("diagnostics structure size mismatch"));
    }
    let snapshot = DiagnosticSnapshot {
        mapping: reported_name,
        abi_version,
        service_pid: bytes::read_u32_at(memory, 16, order),
        package_version: (
            bytes::read_u32_at(memory, 20, order),
            bytes::read_u32_at(memory, 24, order),
            bytes::read_u32_at(memory, 28, order),
        ),
        phase: DiagnosticPhase::from_u32(bytes::read_u32_at(memory, 32, order)).as_str(),
        worker_enabled: bytes::read_u32_at(memory, 36, order) != 0,
        last_failure: DiagnosticFailure::from_u32(bytes::read_u32_at(memory, 40, order)).as_str(),
        tracked_instances: bytes::read_u32_at(memory, 44, order),
        enforcing_instances: bytes::read_u32_at(memory, 48, order),
        pending_instances: bytes::read_u32_at(memory, 52, order),
        started_unix_ms: bytes::read_u64_at(memory, 56, order),
        last_transition_unix_ms: bytes::read_u64_at(memory, 64, order),
        insertions: bytes::read_u64_at(memory, 72, order),
        wake_signals: bytes::read_u64_at(memory, 80, order),
        timer_arms: bytes::read_u64_at(memory, 88, order),
        timer_cancellations: bytes::read_u64_at(memory, 96, order),
        passes_started: bytes::read_u64_at(memory, 104, order),
        passes_completed: bytes::read_u64_at(memory, 112, order),
        candidates_checked: bytes::read_u64_at(memory, 120, order),
        clean_candidates: bytes::read_u64_at(memory, 128, order),
        identity_drifts: bytes::read_u64_at(memory, 136, order),
        resolution_failures: bytes::read_u64_at(memory, 144, order),
        policy_query_failures: bytes::read_u64_at(memory, 152, order),
        repair_candidates: bytes::read_u64_at(memory, 160, order),
        drifted_components: bytes::read_u64_at(memory, 168, order),
        setter_failures: bytes::read_u64_at(memory, 176, order),
        global_reconciliations: bytes::read_u64_at(memory, 184, order),
        worker_failures: bytes::read_u64_at(memory, 192, order),
    };
    assert(snapshot@ =~= published(memory@, order).reported(reported_name@)) by {
        reveal(DiagnosticPublisher::large_values);
    }
    Ok(snapshot)
}

/// Reads the diagnostics of the running service from what was found under
/// `DIAGNOSTICS_MAPPING_NAME`.
pub fn read_snapshot(opened: Result<[u8; 256], DiagnosticError>, order: ByteOrder) -> (snapshot:
    Result<DiagnosticSnapshot, DiagnosticError>)
    ensures
        match opened {
            Ok(memory) => match snapshot {
                Ok(snapshot) => refusal(memory@, order) is None && snapshot@ == published(
                    memory@,
                    order,
                ).reported(DIAGNOSTICS_MAPPING_NAME@),
                Err(DiagnosticError::InvalidMapping(message)) => refusal(memory@, order) == Some(
                    message@,
                ),
                Err(_) => false,
            },
            Err(error) => snapshot == Err::<DiagnosticSnapshot, DiagnosticError>(error),
        },
{
    match opened {
        Ok(memory) => read_named_snapshot(&memory, order, DIAGNOSTICS_MAPPING_NAME),
        Err(error) => Err(error),
    }
}

spec fn stacked(a: Seq<u8>, b: Seq<u8>, c: Seq<u8>, d: Seq<u8>) -> Seq<u8> {
    a + b + c + d
}

proof fn lemma_stacked(a: Seq<u8>, b: Seq<u8>, c: Seq<u8>, d: Seq<u8>)
    ensures
        Seq::<u8>::empty() + a + (b + c + d) == stacked(a, b, c, d),
        a + b + (c + d) == stacked(a, b, c, d),
        (a + b) + c + d == stacked(a, b, c, d),
{
    assert(Seq::<u8>::empty() + a + (b + c + d) =~= a + b + c + d);
    assert(a + b + (c + d) =~= a + b + c + d);
}

/// What was written at a place in the layout is read there.
#[verifier::spinoff_prover]
proof fn lemma_layout(diagnostics: DiagnosticPublisher, magic: u64, order: ByteOrder)
    ensures
        diagnostics.layout(magic, order).len() == DIAGNOSTICS_SIZE,
        bytes::u64_at(diagnostics.layout(magic, order), 0, order) == magic,
        forall|k: int|
            0 <= k < 12 ==> #[trigger] diagnostics.small_values()[k] == bytes::u32_at(
                diagnostics.layout(magic, order),
                8 + 4 * k,
                order,
            ),
        forall|k: int|
            0 <= k < 18 ==> #[trigger] diagnostics.large_values()[k] == bytes::u64_at(
                diagnostics.layout(magic, order),
                56 + 8 * k,
                order,
            ),
{
    let first = bytes::u64_bytes(magic, order);
    let small = diagnostics.small_values();
    let large = diagnostics.large_values();
    let middle = bytes::words_32(small, order);
    let end = bytes::words_64(large, order);
    let rest = Seq::new(56, |i: int| 0u8);
    assert(small.len() == 12 && large.len() == 18) by {
        reveal(DiagnosticPublisher::small_values);
        reveal(DiagnosticPublisher::large_values);
    }
    let all = diagnostics.layout(magic, order);
    assert(all == stacked(first, middle, end, rest));
    assert(first.len() == 8);
    assert(middle.len() == 48) by {
        bytes::lemma_words_32(first, small, end + rest, order);
    }
    assert(end.len() == 144) by {
        bytes::lemma_words_64(first + middle, large, rest, order);
    }
    assert(bytes::u64_at(all, 0, order) == magic) by {
        lemma_stacked(first, middle, end, rest);
        bytes::lemma_u64_round_trip(Seq::empty(), magic, middle + end + rest, order);
    }
    assert forall|k: int| 0 <= k < 12 implies #[trigger] small[k] == bytes::u32_at(
        all,
        8 + 4 * k,
        order,
    ) by {
        lemma_stacked(first, middle, end, rest);
        bytes::lemma_words_32(first, small, end + rest, order);
    }
    assert forall|k: int| 0 <= k < 18 implies #[trigger] large[k] == bytes::u64_at(
        all,
        56 + 8 * k,
        order,
    ) by {
        lemma_stacked(first, middle, end, rest);
        bytes::lemma_words_64(first + middle, large, rest, order);
    }
}

/// A reader finds exactly what the service published, and nothing once the service has withdrawn
/// its magic number.
pub proof fn law_published_diagnostics_are_read(
    diagnostics: DiagnosticPublisher,
    magic: u64,
    order: ByteOrder,
)
    ensures
        diagnostics.layout(magic, order).len() == DIAGNOSTICS_SIZE,
        published(diagnostics.layout(magic, order), order) == diagnostics,
        refusal(diagnostics.layout(magic, order), order) is None <==> magic == DIAGNOSTICS_MAGIC,
{
    lemma_layout(diagnostics, magic, order);
    reveal(DiagnosticPublisher::small_values);
    reveal(DiagnosticPublisher::large_values);
    let small = diagnostics.small_values();
    let large = diagnostics.large_values();
    let layout = diagnostics.layout(magic, order);
    assert(small =~= Seq::new(12, |k: int| bytes::u32_at(layout, 8 + 4 * k, order)));
    assert(large =~= Seq::new(18, |k: int| bytes::u64_at(layout, 56 + 8 * k, order)));
}

} // verus!
