//! The Linux daemon: what it does when it starts, when the power profile changes, and when a
//! process starts or ends.

use vstd::prelude::*;

use crate::linux_process::LinuxProcess;
use crate::migration;
use crate::migration::ProcessPlacementTracker;
use crate::placement;
use crate::placement::{ProcessTarget, ProcessTargetSelection};
use crate::power;
use crate::power::PowerProfile;
use crate::proc_event::ProcEvent;
use crate::process::ConfiguredProcessRule;
use crate::service::ServiceError;
use crate::text;
use crate::topology::CpuTopology;

verus! {

pub const CGROUP_ROOT: &'static str = "/sys/fs/cgroup";

/// What the daemon knows.
pub struct DaemonState {
    pub active_profile: PowerProfile,
    pub placements: ProcessPlacementTracker,
}

impl Default for DaemonState {
    fn default() -> (state: Self)
        ensures
            state.active_profile == PowerProfile::Balanced,
            state.placements@ == Map::<u32, (Seq<char>, Seq<char>, usize)>::empty(),
    {
        DaemonState {
            active_profile: PowerProfile::Balanced,
            placements: ProcessPlacementTracker::default(),
        }
    }
}

/// What the daemon is told.
#[derive(Clone, Copy, Debug, Eq, PartialEq, Structural)]
pub enum DaemonEvent {
    Started,
    ProfileChanged(PowerProfile),
    Process(Option<ProcEvent>),
}

/// What the daemon does about it.
#[derive(Clone, Copy, Debug, Eq, PartialEq, Structural)]
pub enum DaemonAction {
    /// Apply the rules to every process.
    ScanAll(PowerProfile),
    /// Apply the rules to one process and its descendants.
    Apply(u32, PowerProfile),
    /// Nothing.
    Wait,
}

/// Lets the daemon react to one event.
pub fn run_daemon(state: &mut DaemonState, event: DaemonEvent) -> (action: DaemonAction)
    ensures
        match event {
            DaemonEvent::Started => {
                &&& action == DaemonAction::ScanAll(old(state).active_profile)
                &&& final(state).active_profile == old(state).active_profile
                &&& final(state).placements@ == old(state).placements@
            },
            DaemonEvent::ProfileChanged(profile) => {
                &&& action == if old(state).active_profile == profile {
                    DaemonAction::Wait
                } else {
                    DaemonAction::ScanAll(profile)
                }
                &&& final(state).active_profile == profile
                &&& final(state).placements@ == old(state).placements@
            },
            DaemonEvent::Process(event) => {
                &&& final(state).active_profile == old(state).active_profile
                &&& match event {
                    Some(ProcEvent::Fork { parent_pid, child_pid }) => {
                        &&& action == DaemonAction::Apply(child_pid, old(state).active_profile)
                        &&& final(state).placements@ == if old(state).placements@.contains_key(
                            parent_pid,
                        ) {
                            migration::keeps_first(
                                old(state).placements@,
                                child_pid,
                                old(state).placements@[parent_pid],
                            )
                        } else {
                            old(state).placements@
                        }
                    },
                    Some(ProcEvent::Exec { process_pid }) => {
                        &&& action == DaemonAction::Apply(process_pid, old(state).active_profile)
                        &&& final(state).placements@ == old(state).placements@
                    },
                    Some(ProcEvent::Exit { process_pid }) => {
                        &&& action == DaemonAction::Wait
                        &&& final(state).placements@ == old(state).placements@.remove(process_pid)
                    },
                    None => {
                        &&& action == DaemonAction::Wait
                        &&& final(state).placements@ == old(state).placements@
                    },
                }
            },
        },
{
    match event {
        DaemonEvent::Started => DaemonAction::ScanAll(
            power::load_active_profile(&state.active_profile),
        ),
        DaemonEvent::ProfileChanged(profile) => {
            if power::store_active_profile(&mut state.active_profile, profile) {
                DaemonAction::ScanAll(profile)
            } else {
                DaemonAction::Wait
            }
        },
        DaemonEvent::Process(event) => {
            let active = power::load_active_profile(&state.active_profile);
            match migration::observe_event(&mut state.placements, event) {
                Some(pid) => DaemonAction::Apply(pid, active),
                None => DaemonAction::Wait,
            }
        },
    }
}

/// The target that a process hands down to its descendants. A process for which there is no rule
/// is ignored.
pub fn subtree_target(
    rules: &Vec<ConfiguredProcessRule>,
    process: &LinuxProcess,
    active_profile: PowerProfile,
    topology: &CpuTopology,
) -> (target: Result<Option<ProcessTarget>, ServiceError>)
    ensures
        match target {
            Ok(Some(target)) => placement::resolves(
                rules@,
                *process,
                active_profile,
                *topology,
                Ok(ProcessTargetSelection::Target(target)),
            ),
            Ok(None) => !placement::has_family(rules@, *process),
            Err(error) => placement::resolves(
                rules@,
                *process,
                active_profile,
                *topology,
                Err(error),
            ),
        },
{
    match placement::resolve_process_target(rules, process, active_profile, topology) {
        Ok(ProcessTargetSelection::Target(target)) => Ok(Some(target)),
        Ok(ProcessTargetSelection::Inherit) => Ok(None),
        Err(error) => Err(error),
    }
}

/// The process that an entry of `/proc` stands for.
pub fn scanned_pid(entry: &str) -> (pid: Option<u32>)
    ensures
        pid == text::unsigned_32(entry@),
{
    text::number_32(entry)
}

} // verus!
