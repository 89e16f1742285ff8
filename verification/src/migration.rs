//! Moving a process to its target: what to ask of the system, and what to do with the answers.

use std::collections::HashMap;

use vstd::prelude::*;

use crate::cgroup;
use crate::cgroup::CgroupCpusetManager;
use crate::cpuset;
use crate::linux_process::IoFailure;
use crate::mask;
use crate::placement::{ProcessMigrationPlan, ProcessTarget};
use crate::proc_event::ProcEvent;
use crate::service::ServiceError;
use crate::systemd;
use crate::systemd::{SystemdManagerBus, SystemdUnitTarget, UnitMatchMode};
use crate::text;

verus! {

broadcast use vstd::std_specs::hash::group_hash_axioms;

/// A control group: its path and its name relative to the root.
#[derive(Debug, Eq, PartialEq)]
pub struct CgroupTarget {
    pub path: String,
    pub relative: String,
}

impl View for CgroupTarget {
    type V = (Seq<char>, Seq<char>);

    open spec fn view(&self) -> (Seq<char>, Seq<char>) {
        (self.path@, self.relative@)
    }
}

impl Clone for CgroupTarget {
    fn clone(&self) -> (copied: Self)
        ensures
            copied@ == self@,
    {
        CgroupTarget { path: self.path.clone(), relative: self.relative.clone() }
    }
}

/// Where a process is to be moved, and whether that takes it back to where it was.
#[derive(Debug, Eq, PartialEq)]
pub struct ProcessMigrationTarget {
    pub target: CgroupTarget,
    pub restores_origin: bool,
}

/// Where a process was before it was first moved, and the processors it had there.
#[derive(Debug, Eq, PartialEq)]
pub struct ProcessOrigin {
    pub cgroup_path: String,
    pub relative_cgroup: String,
    pub effective_cpuset_mask: usize,
}

impl View for ProcessOrigin {
    type V = (Seq<char>, Seq<char>, usize);

    open spec fn view(&self) -> (Seq<char>, Seq<char>, usize) {
        (self.cgroup_path@, self.relative_cgroup@, self.effective_cpuset_mask)
    }
}

impl Clone for ProcessOrigin {
    fn clone(&self) -> (copied: Self)
        ensures
            copied@ == self@,
    {
        ProcessOrigin {
            cgroup_path: self.cgroup_path.clone(),
            relative_cgroup: self.relative_cgroup.clone(),
            effective_cpuset_mask: self.effective_cpuset_mask,
        }
    }
}

/// Where the moved processes were before.
pub struct ProcessPlacementTracker {
    pub origins: HashMap<u32, ProcessOrigin>,
}

impl View for ProcessPlacementTracker {
    type V = Map<u32, (Seq<char>, Seq<char>, usize)>;

    open spec fn view(&self) -> Map<u32, (Seq<char>, Seq<char>, usize)> {
        self.origins@.map_values(|origin: ProcessOrigin| origin@)
    }
}

impl Default for ProcessPlacementTracker {
    fn default() -> (tracker: Self)
        ensures
            tracker@ == Map::<u32, (Seq<char>, Seq<char>, usize)>::empty(),
    {
        let tracker = ProcessPlacementTracker { origins: HashMap::new() };
        assert(tracker@ =~= Map::empty());
        tracker
    }
}

/// `before` with `origin` for the process `pid`, unless it has one.
pub open spec fn keeps_first(
    before: Map<u32, (Seq<char>, Seq<char>, usize)>,
    pid: u32,
    origin: (Seq<char>, Seq<char>, usize),
) -> Map<u32, (Seq<char>, Seq<char>, usize)> {
    if before.contains_key(pid) {
        before
    } else {
        before.insert(pid, origin)
    }
}

impl ProcessPlacementTracker {
    pub fn origin(&self, pid: u32) -> (origin: Option<&ProcessOrigin>)
        ensures
            match origin {
                Some(origin) => self@.contains_key(pid) && self@[pid] == origin@,
                None => !self@.contains_key(pid),
            },
    {
        self.origins.get(&pid)
    }

    /// Notes where a process was, unless that is known from an earlier move.
    pub fn record(&mut self, pid: u32, origin: ProcessOrigin)
        ensures
            final(self)@ == keeps_first(old(self)@, pid, origin@),
    {
        let ghost before = self@;
        if !self.origins.contains_key(&pid) {
            self.origins.insert(pid, origin);
            assert(self@ =~= before.insert(pid, origin@));
        }
    }

    /// Lets a new process share what is known of its parent.
    pub fn inherit(&mut self, parent_pid: u32, child_pid: u32)
        ensures
            final(self)@ == if old(self)@.contains_key(parent_pid) {
                keeps_first(old(self)@, child_pid, old(self)@[parent_pid])
            } else {
                old(self)@
            },
    {
        let origin = match self.origins.get(&parent_pid) {
            Some(origin) => origin.clone(),
            None => {
                return ;
            },
        };
        self.record(child_pid, origin);
    }

    pub fn remove(&mut self, pid: u32)
        ensures
            final(self)@ == old(self)@.remove(pid),
    {
        let ghost before = self@;
        self.origins.remove(&pid);
        assert(self@ =~= before.remove(pid));
    }
}

/// However often a process is recorded, its first origin is the one that is kept.
pub proof fn law_first_origin_is_kept(
    before: Map<u32, (Seq<char>, Seq<char>, usize)>,
    pid: u32,
    first: (Seq<char>, Seq<char>, usize),
    second: (Seq<char>, Seq<char>, usize),
)
    ensures
        keeps_first(keeps_first(before, pid, first), pid, second) == keeps_first(
            before,
            pid,
            first,
        ),
{
}

/// What one pass over the processes has done so far: the directories it has made, and the units
/// it has settled.
pub struct EnforcementContext {
    pub leaves: Vec<(String, CgroupTarget)>,
    pub systemd_units: Vec<SystemdUnitTarget>,
}

/// The directory that was made for a processor set.
pub open spec fn made_leaf(leaves: Seq<(String, CgroupTarget)>, cpuset: Seq<char>) -> Option<
    (Seq<char>, Seq<char>),
>
    decreases leaves.len(),
{
    if leaves.len() == 0 {
        None
    } else if leaves.last().0@ == cpuset {
        Some(leaves.last().1@)
    } else {
        made_leaf(leaves.drop_last(), cpuset)
    }
}

/// The unit is among the settled ones.
pub open spec fn is_settled(
    units: Seq<SystemdUnitTarget>,
    key: (SystemdManagerBus, Seq<char>),
) -> bool {
    exists|i: int| 0 <= i < units.len() && (#[trigger] units[i]).key() == key
}

impl Default for EnforcementContext {
    fn default() -> (context: Self)
        ensures
            context.leaves@.len() == 0,
            context.systemd_units@.len() == 0,
    {
        EnforcementContext { leaves: Vec::new(), systemd_units: Vec::new() }
    }
}

impl EnforcementContext {
    pub fn has_unit(&self, unit: &SystemdUnitTarget) -> (found: bool)
        ensures
            found == is_settled(self.systemd_units@, unit.key()),
    {
        let mut i: usize = 0;
        while i < self.systemd_units.len()
            invariant
                i <= self.systemd_units@.len(),
                forall|j: int|
                    0 <= j < i ==> (#[trigger] self.systemd_units@[j]).key() != unit.key(),
            decreases self.systemd_units@.len() - i,
        {
            if self.systemd_units[i].same_unit(unit) {
                return true;
            }
            i = i + 1;
        }
        false
    }

    /// Notes that a unit is settled.
    pub fn settle_unit(&mut self, unit: SystemdUnitTarget)
        ensures
            final(self).leaves == old(self).leaves,
            forall|key: (SystemdManagerBus, Seq<char>)| #[trigger]
                is_settled(final(self).systemd_units@, key) <==> is_settled(
                    old(self).systemd_units@,
                    key,
                ) || key == unit.key(),
    {
        let ghost before = self.systemd_units@;
        self.systemd_units.push(unit);
        let ghost after = self.systemd_units@;
        assert forall|key: (SystemdManagerBus, Seq<char>)| #[trigger]
            is_settled(after, key) <==> is_settled(before, key) || key == unit.key() by {
            if is_settled(before, key) {
                let i = choose|i: int| 0 <= i < before.len() && (#[trigger] before[i]).key() == key;
                assert(after[i] == before[i]);
            }
            if key == unit.key() {
                assert(after[before.len() as int].key() == key);
            }
            if is_settled(after, key) && key != unit.key() {
                let i = choose|i: int| 0 <= i < after.len() && (#[trigger] after[i]).key() == key;
                assert(before[i] == after[i]);
            }
        }
    }

    pub fn leaf(&self, cpuset: &str) -> (target: Option<CgroupTarget>)
        ensures
            match target {
                Some(target) => made_leaf(self.leaves@, cpuset@) == Some(target@),
                None => made_leaf(self.leaves@, cpuset@) is None,
            },
    {
        let ghost all = self.leaves@;
        let mut end: usize = self.leaves.len();
        assert(all.subrange(0, all.len() as int) =~= all);
        while end > 0
            invariant
                end <= self.leaves@.len(),
                all == self.leaves@,
                made_leaf(all, cpuset@) == made_leaf(all.subrange(0, end as int), cpuset@),
            decreases end,
        {
            assert(all.subrange(0, end as int).drop_last() =~= all.subrange(0, end - 1));
            assert(all.subrange(0, end as int).last() == all[end - 1]);
            if text::same_text(self.leaves[end - 1].0.as_str(), cpuset) {
                return Some(self.leaves[end - 1].1.clone());
            }
            end = end - 1;
        }
        None
    }

    /// Notes the directory that was made for a processor set.
    pub fn add_leaf(&mut self, cpuset: String, target: CgroupTarget)
        ensures
            final(self).systemd_units == old(self).systemd_units,
            forall|other: Seq<char>| #[trigger]
                made_leaf(final(self).leaves@, other) == if other == cpuset@ {
                    Some(target@)
                } else {
                    made_leaf(old(self).leaves@, other)
                },
    {
        let ghost before = self.leaves@;
        self.leaves.push((cpuset, target));
        assert(self.leaves@.drop_last() =~= before);
    }
}

/// What is to be done next for a process.
pub enum MigrationStep {
    /// Move it, if there is a target, and be done.
    Done(Option<ProcessMigrationTarget>),
    /// Give the unit back its processors, then go on with [`unit_restored`].
    RestoreUnit(SystemdUnitTarget),
    /// Read the control group of the process, then go on with [`cgroup_read`].
    ReadCgroup,
    /// Read the effective processors of the control group at `path`, then go on with
    /// [`effective_cpus_read`].
    ReadEffectiveCpus { relative: String, path: String },
    /// Read the scheduler's mask of the process, then go on with [`scheduler_read`].
    ReadScheduler { origin: ProcessOrigin, requested: usize },
    /// Constrain the unit to the mask, then go on with [`unit_constrained`].
    ConstrainUnit { unit: SystemdUnitTarget, mask: usize, origin: ProcessOrigin },
    /// Make the directory for the processor set, then go on with [`leaf_made`].
    MakeLeaf { cpuset: String, origin: ProcessOrigin },
}

/// The unit of a planned process.
pub open spec fn plan_unit(plan: ProcessMigrationPlan, mode: UnitMatchMode) -> Option<
    (SystemdManagerBus, Seq<char>),
> {
    match plan.current_cgroup {
        Some(cgroup) => systemd::unit_of(cgroup@, plan.process, mode),
        None => None,
    }
}

/// The control group of a planned process.
pub open spec fn plan_cgroup(plan: ProcessMigrationPlan) -> Option<Seq<char>> {
    match plan.current_cgroup {
        Some(cgroup) => Some(cgroup@),
        None => None,
    }
}

fn unit_for_plan(plan: &ProcessMigrationPlan, mode: UnitMatchMode) -> (unit: Option<
    SystemdUnitTarget,
>)
    ensures
        match unit {
            Some(unit) => plan_unit(*plan, mode) == Some(unit.key()),
            None => plan_unit(*plan, mode) is None,
        },
{
    match &plan.current_cgroup {
        Some(cgroup) => systemd::systemd_unit_from_cgroup(cgroup.as_str(), &plan.process, mode),
        None => None,
    }
}

/// The unit that a policy for the process may change.
pub fn systemd_policy_target_for_plan(plan: &ProcessMigrationPlan) -> (unit: Option<
    SystemdUnitTarget,
>)
    ensures
        match unit {
            Some(unit) => plan_unit(*plan, UnitMatchMode::RequireProcessMatch) == Some(unit.key()),
            None => plan_unit(*plan, UnitMatchMode::RequireProcessMatch) is None,
        },
{
    unit_for_plan(plan, UnitMatchMode::RequireProcessMatch)
}

/// The unit that the process runs in.
pub fn containing_systemd_unit_for_plan(plan: &ProcessMigrationPlan) -> (unit: Option<
    SystemdUnitTarget,
>)
    ensures
        match unit {
            Some(unit) => plan_unit(*plan, UnitMatchMode::AnySpecificUnit) == Some(unit.key()),
            None => plan_unit(*plan, UnitMatchMode::AnySpecificUnit) is None,
        },
{
    unit_for_plan(plan, UnitMatchMode::AnySpecificUnit)
}

/// The step moves the process to the control group `target`.
pub open spec fn moves_to(
    step: MigrationStep,
    target: (Seq<char>, Seq<char>),
    restores: bool,
) -> bool {
    step matches MigrationStep::Done(Some(found)) && found.target@ == target
        && found.restores_origin == restores
}

pub open spec fn leaves_alone(step: MigrationStep) -> bool {
    step matches MigrationStep::Done(None)
}

/// The step for a process that is not to be constrained: its unit gets back its processors, once
/// in a pass, or else the process goes back to where it was, if it was ever moved and is still
/// in a control group of the daemon.
pub open spec fn is_release(
    step: MigrationStep,
    plan: ProcessMigrationPlan,
    placements: Map<u32, (Seq<char>, Seq<char>, usize)>,
    units: Seq<SystemdUnitTarget>,
) -> bool {
    match plan_unit(plan, UnitMatchMode::RequireProcessMatch) {
        Some(key) => if is_settled(units, key) {
            leaves_alone(step)
        } else {
            step matches MigrationStep::RestoreUnit(unit) && unit.key() == key
        },
        None => if placements.contains_key(plan.pid) && cgroup::is_affix_managed(
            plan_cgroup(plan),
        ) {
            moves_to(step, (placements[plan.pid].0, placements[plan.pid].1), true)
        } else {
            leaves_alone(step)
        },
    }
}

/// The step for a process whose control group is `relative`: one of the daemon's tells nothing of
/// where the process was.
pub open spec fn is_lookup(
    step: MigrationStep,
    relative: Option<Seq<char>>,
    cgroups: CgroupCpusetManager,
) -> bool {
    match relative {
        Some(relative) => if cgroup::is_affix_managed(Some(relative)) {
            leaves_alone(step)
        } else {
            step matches MigrationStep::ReadEffectiveCpus { relative: found, path } && found@
                == relative && path@ == cgroup::below(
                cgroups.root@,
                cgroup::skip_slashes(relative),
            )
        },
        None => leaves_alone(step),
    }
}

/// `requested` holds the processors of the wanted set, which can be read.
pub open spec fn is_request(cpuset: Seq<char>, requested: usize) -> bool {
    &&& cpuset::is_cpuset(cpuset)
    &&& requested != 0
    &&& forall|cpu: int| #[trigger]
        mask::has_cpu(requested, cpu) <==> cpuset::names_cpu(cpuset, cpu)
}

/// The failure that refuses the processor set.
pub open spec fn refuses(error: ServiceError, cpuset: Seq<char>) -> bool {
    error matches ServiceError::Affinity { expression, message } && expression@ == cpuset
        && cpuset::is_refusal(cpuset, message@)
}

/// The step once it is known where a process was.
pub open spec fn is_request_step(
    step: Result<MigrationStep, ServiceError>,
    cpuset: Seq<char>,
    origin: (Seq<char>, Seq<char>, usize),
) -> bool {
    match step {
        Ok(step) => step matches MigrationStep::ReadScheduler { origin: kept, requested } && kept@
            == origin && is_request(cpuset, requested),
        Err(error) => refuses(error, cpuset),
    }
}

fn request_step(cpuset: &str, origin: ProcessOrigin) -> (step: Result<MigrationStep, ServiceError>)
    ensures
        is_request_step(step, cpuset@, origin@),
{
    match cpuset::parse_cpuset_mask(cpuset) {
        Ok(requested) => Ok(MigrationStep::ReadScheduler { origin, requested }),
        Err(error) => Err(error),
    }
}

/// The first step for a process that is to run on `cpuset`.
pub open spec fn is_first_constraint(
    step: Result<MigrationStep, ServiceError>,
    cpuset: Seq<char>,
    plan: ProcessMigrationPlan,
    cgroups: CgroupCpusetManager,
    placements: Map<u32, (Seq<char>, Seq<char>, usize)>,
) -> bool {
    if placements.contains_key(plan.pid) {
        is_request_step(step, cpuset, placements[plan.pid])
    } else if plan.current_cgroup is None {
        step matches Ok(MigrationStep::ReadCgroup)
    } else {
        step matches Ok(step) && is_lookup(step, plan_cgroup(plan), cgroups)
    }
}

/// The first step for a planned process.
pub fn begin_migration(
    plan: &ProcessMigrationPlan,
    cgroups: &CgroupCpusetManager,
    placements: &ProcessPlacementTracker,
    context: &EnforcementContext,
) -> (step: Result<MigrationStep, ServiceError>)
    ensures
        match plan.target {
            ProcessTarget::Unconstrained => step matches Ok(step) && is_release(
                step,
                *plan,
                placements@,
                context.systemd_units@,
            ),
            ProcessTarget::Cpuset(cpuset) => is_first_constraint(
                step,
                cpuset@,
                *plan,
                *cgroups,
                placements@,
            ),
        },
{
    match &plan.target {
        ProcessTarget::Unconstrained => {
            if let Some(unit) = systemd_policy_target_for_plan(plan) {
                if context.has_unit(&unit) {
                    return Ok(MigrationStep::Done(None));
                }
                return Ok(MigrationStep::RestoreUnit(unit));
            }
            let origin = match placements.origin(plan.pid) {
                Some(origin) => origin,
                None => {
                    return Ok(MigrationStep::Done(None));
                },
            };
            let managed = match &plan.current_cgroup {
                Some(cgroup) => cgroups.relative_is_affix_managed(Some(cgroup.as_str())),
                None => false,
            };
            if !managed {
                return Ok(MigrationStep::Done(None));
            }
            let target = CgroupTarget {
                path: origin.cgroup_path.clone(),
                relative: origin.relative_cgroup.clone(),
            };
            Ok(
                MigrationStep::Done(
                    Some(ProcessMigrationTarget { target, restores_origin: true }),
                ),
            )
        },
        ProcessTarget::Cpuset(cpuset) => {
            if let Some(origin) = placements.origin(plan.pid) {
                return request_step(cpuset.as_str(), origin.clone());
            }
            match &plan.current_cgroup {
                Some(cgroup) => Ok(cgroup_read(cgroups, Some(cgroup.clone()))),
                None => Ok(MigrationStep::ReadCgroup),
            }
        },
    }
}

/// Goes on after [`MigrationStep::RestoreUnit`]: a unit that got back its processors is settled.
pub fn unit_restored(context: &mut EnforcementContext, unit: SystemdUnitTarget, restored: bool)
    ensures
        final(context).leaves == old(context).leaves,
        forall|key: (SystemdManagerBus, Seq<char>)| #[trigger]
            is_settled(final(context).systemd_units@, key) <==> is_settled(
                old(context).systemd_units@,
                key,
            ) || (restored && key == unit.key()),
{
    if restored {
        context.settle_unit(unit);
    }
}

/// Goes on after [`MigrationStep::ReadCgroup`].
pub fn cgroup_read(cgroups: &CgroupCpusetManager, relative: Option<String>) -> (step: MigrationStep)
    ensures
        is_lookup(
            step,
            match relative {
                Some(relative) => Some(relative@),
                None => None,
            },
            *cgroups,
        ),
{
    match relative {
        Some(relative) => {
            if cgroups.relative_is_affix_managed(Some(relative.as_str())) {
                return MigrationStep::Done(None);
            }
            let path = cgroups.cgroup_path(relative.as_str());
            MigrationStep::ReadEffectiveCpus { relative, path }
        },
        None => MigrationStep::Done(None),
    }
}

/// The step once the effective processors of the control group of a process were read.
pub open spec fn is_origin_step(
    step: Result<MigrationStep, ServiceError>,
    cpuset: Seq<char>,
    relative: Seq<char>,
    path: Seq<char>,
    content: Result<String, IoFailure>,
) -> bool {
    match content {
        Ok(content) => if cpuset::is_cpuset(text::trim(content@)) && exists|cpu: int|
            cpuset::names_cpu(text::trim(content@), cpu) {
            exists|effective: usize| #[trigger]
                is_request(text::trim(content@), effective) && is_request_step(
                    step,
                    cpuset,
                    (path, relative, effective),
                )
        } else {
            step matches Err(error) && refuses(error, text::trim(content@))
        },
        Err(failure) => step matches Err(ServiceError::Io { operation, path: Some(file), source })
            && operation@ == "read effective cpuset"@ && file@ == cgroup::below(
            path,
            "cpuset.cpus.effective"@,
        ) && source@ == failure.source@,
    }
}

/// Goes on after [`MigrationStep::ReadEffectiveCpus`].
pub fn effective_cpus_read(
    cpuset: &str,
    relative: String,
    path: String,
    content: Result<String, IoFailure>,
) -> (step: Result<MigrationStep, ServiceError>)
    ensures
        is_origin_step(step, cpuset@, relative@, path@, content),
{
    let content = match content {
        Ok(content) => content,
        Err(failure) => {
            return Err(
                ServiceError::Io {
                    operation: "read effective cpuset".to_string(),
                    path: Some(cgroup::join_path(path.as_str(), "cpuset.cpus.effective")),
                    source: failure.source,
                },
            );
        },
    };
    let trimmed = text::trimmed(content.as_str());
    match cpuset::parse_cpuset_mask(trimmed.as_str()) {
        Ok(effective) => {
            proof {
                mask::lemma_zero_iff_no_cpu(effective);
                let cpu = choose|cpu: int| mask::has_cpu(effective, cpu);
                assert(mask::has_cpu(effective, cpu));
                assert(cpuset::names_cpu(trimmed@, cpu));
                assert(is_request(trimmed@, effective));
            }
            request_step(
                cpuset,
                ProcessOrigin {
                    cgroup_path: path,
                    relative_cgroup: relative,
                    effective_cpuset_mask: effective,
                },
            )
        },
        Err(error) => Err(error),
    }
}

/// `effective` holds the processors that the wanted set, the origin and the scheduler share.
pub open spec fn is_envelope(
    effective: usize,
    requested: usize,
    origin: usize,
    scheduler: usize,
) -> bool {
    forall|cpu: int| #[trigger]
        mask::has_cpu(effective, cpu) <==> mask::has_cpu(requested, cpu) && mask::has_cpu(
            origin,
            cpu,
        ) && mask::has_cpu(scheduler, cpu)
}

/// The step that puts a process into the directory for `cpuset`, which may have to be made.
pub open spec fn is_leaf_step(
    step: MigrationStep,
    cpuset: Seq<char>,
    origin: (Seq<char>, Seq<char>, usize),
    leaves: Seq<(String, CgroupTarget)>,
) -> bool {
    match made_leaf(leaves, cpuset) {
        Some(target) => moves_to(step, target, false),
        None => step matches MigrationStep::MakeLeaf { cpuset: wanted, origin: kept } && wanted@
            == cpuset && kept@ == origin,
    }
}

/// What is known of the processes after a step: one that is moved to a directory of the daemon is
/// recorded with where it was.
pub open spec fn recorded(
    before: Map<u32, (Seq<char>, Seq<char>, usize)>,
    step: MigrationStep,
    pid: u32,
    origin: (Seq<char>, Seq<char>, usize),
) -> Map<u32, (Seq<char>, Seq<char>, usize)> {
    if step matches MigrationStep::Done(Some(_)) {
        keeps_first(before, pid, origin)
    } else {
        before
    }
}

/// The step for a process that may run on `effective`.
pub open spec fn is_placement(
    step: MigrationStep,
    effective: usize,
    plan: ProcessMigrationPlan,
    origin: (Seq<char>, Seq<char>, usize),
    context: EnforcementContext,
) -> bool {
    if effective == 0 {
        leaves_alone(step)
    } else {
        match plan_unit(plan, UnitMatchMode::RequireProcessMatch) {
            Some(key) => if is_settled(context.systemd_units@, key) {
                leaves_alone(step)
            } else {
                step matches MigrationStep::ConstrainUnit { unit, mask, origin: kept } && unit.key()
                    == key && mask == effective && kept@ == origin
            },
            None => if plan_unit(plan, UnitMatchMode::AnySpecificUnit) is Some && is_settled(
                context.systemd_units@,
                plan_unit(plan, UnitMatchMode::AnySpecificUnit)->0,
            ) || !systemd::is_fallback_candidate(plan_cgroup(plan)) {
                leaves_alone(step)
            } else {
                is_leaf_step(
                    step,
                    cpuset::cpuset_text(effective),
                    origin,
                    context.leaves@,
                )
            },
        }
    }
}

fn leaf_step(
    pid: u32,
    effective: usize,
    origin: ProcessOrigin,
    placements: &mut ProcessPlacementTracker,
    context: &EnforcementContext,
) -> (step: MigrationStep)
    ensures
        is_leaf_step(step, cpuset::cpuset_text(effective), origin@, context.leaves@),
        final(placements)@ == recorded(old(placements)@, step, pid, origin@),
{
    let cpuset = cpuset::cpuset_string(effective);
    match context.leaf(cpuset.as_str()) {
        Some(target) => {
            placements.record(pid, origin);
            MigrationStep::Done(Some(ProcessMigrationTarget { target, restores_origin: false }))
        },
        None => MigrationStep::MakeLeaf { cpuset, origin },
    }
}

fn is_candidate(plan: &ProcessMigrationPlan) -> (candidate: bool)
    ensures
        candidate == systemd::is_fallback_candidate(plan_cgroup(*plan)),
{
    match &plan.current_cgroup {
        Some(cgroup) => systemd::cgroup_is_affix_fallback_candidate(Some(cgroup.as_str())),
        None => false,
    }
}

/// Goes on after [`MigrationStep::ReadScheduler`].
pub fn scheduler_read(
    plan: &ProcessMigrationPlan,
    origin: ProcessOrigin,
    requested: usize,
    reading: Result<Option<usize>, ServiceError>,
    placements: &mut ProcessPlacementTracker,
    context: &EnforcementContext,
) -> (step: Result<MigrationStep, ServiceError>)
    ensures
        match reading {
            Ok(Some(scheduler)) => step matches Ok(step) && final(placements)@ == recorded(
                old(placements)@,
                step,
                plan.pid,
                origin@,
            ) && exists|effective: usize| #[trigger]
                is_envelope(effective, requested, origin.effective_cpuset_mask, scheduler)
                    && is_placement(step, effective, *plan, origin@, *context),
            Ok(None) => step matches Ok(step) && leaves_alone(step) && final(placements)@ == old(placements)@,
            Err(failed) => step matches Err(error) && error == failed && final(placements)@ == old(placements)@,
        },
{
    let scheduler = match reading {
        Ok(Some(scheduler)) => scheduler,
        Ok(None) => {
            return Ok(MigrationStep::Done(None));
        },
        Err(error) => {
            return Err(error);
        },
    };
    let effective: usize = mask::common_cpus(
        mask::common_cpus(requested, origin.effective_cpuset_mask),
        scheduler,
    );
    assert(is_envelope(effective, requested, origin.effective_cpuset_mask, scheduler));
    if effective == 0 {
        return Ok(MigrationStep::Done(None));
    }
    if let Some(unit) = systemd_policy_target_for_plan(plan) {
        if context.has_unit(&unit) {
            return Ok(MigrationStep::Done(None));
        }
        return Ok(MigrationStep::ConstrainUnit { unit, mask: effective, origin });
    }
    if let Some(unit) = containing_systemd_unit_for_plan(plan) {
        if context.has_unit(&unit) {
            return Ok(MigrationStep::Done(None));
        }
    }
    if !is_candidate(plan) {
        return Ok(MigrationStep::Done(None));
    }
    Ok(leaf_step(plan.pid, effective, origin, placements, context))
}

/// Goes on after [`MigrationStep::ConstrainUnit`]. Where the unit could not be constrained, the
/// process is put into a directory of the daemon if it belongs to a user's desktop, and is left
/// alone otherwise.
pub fn unit_constrained(
    plan: &ProcessMigrationPlan,
    unit: SystemdUnitTarget,
    mask: usize,
    origin: ProcessOrigin,
    applied: bool,
    placements: &mut ProcessPlacementTracker,
    context: &mut EnforcementContext,
) -> (step: MigrationStep)
    ensures
        final(context).leaves == old(context).leaves,
        forall|key: (SystemdManagerBus, Seq<char>)| #[trigger]
            is_settled(final(context).systemd_units@, key) <==> is_settled(
                old(context).systemd_units@,
                key,
            ) || (applied && key == unit.key()),
        if applied || !systemd::is_fallback_candidate(plan_cgroup(*plan)) {
            leaves_alone(step)
        } else {
            is_leaf_step(step, cpuset::cpuset_text(mask), origin@, old(context).leaves@)
        },
        final(placements)@ == recorded(old(placements)@, step, plan.pid, origin@),
{
    if applied {
        context.settle_unit(unit);
        return MigrationStep::Done(None);
    }
    if !is_candidate(plan) {
        return MigrationStep::Done(None);
    }
    leaf_step(plan.pid, mask, origin, placements, context)
}

/// Goes on after [`MigrationStep::MakeLeaf`]: `made` is the path of the directory.
pub fn leaf_made(
    pid: u32,
    cpuset: String,
    origin: ProcessOrigin,
    made: Result<String, ServiceError>,
    cgroups: &CgroupCpusetManager,
    placements: &mut ProcessPlacementTracker,
    context: &mut EnforcementContext,
) -> (target: Result<ProcessMigrationTarget, ServiceError>)
    ensures
        final(context).systemd_units == old(context).systemd_units,
        match target {
            Ok(target) => {
                &&& made matches Ok(path) && cgroups.relative_of(path@) == Some(
                    target.target.relative@,
                ) && target.target.path@ == path@
                &&& !target.restores_origin
                &&& final(placements)@ == keeps_first(old(placements)@, pid, origin@)
                &&& forall|other: Seq<char>| #[trigger]
                    made_leaf(final(context).leaves@, other) == if other == cpuset@ {
                        Some(target.target@)
                    } else {
                        made_leaf(old(context).leaves@, other)
                    }
            },
            Err(error) => {
                &&& match made {
                    Ok(path) => cgroups.relative_of(path@) is None && (error matches ServiceError::Config {
                        path: refused,
                        message,
                    } && refused@ == path@ && message@ == "cgroup leaf is not under cgroup root "@
                        + cgroups.root@),
                    Err(failed) => error == failed,
                }
                &&& final(placements)@ == old(placements)@
                &&& final(context).leaves == old(context).leaves
            },
        },
{
    let path = match made {
        Ok(path) => path,
        Err(error) => {
            return Err(error);
        },
    };
    let relative = match cgroups.relative_cgroup_path(path.as_str()) {
        Ok(relative) => relative,
        Err(error) => {
            return Err(error);
        },
    };
    let target = CgroupTarget { path, relative };
    context.add_leaf(cpuset, target.clone());
    placements.record(pid, origin);
    Ok(ProcessMigrationTarget { target, restores_origin: false })
}

/// How often the descendants of a process are looked at anew while they keep changing.
pub const RETRAVERSALS: u32 = 4;

/// What follows a pass over the descendants of a process.
#[derive(Clone, Copy, Debug, Eq, PartialEq, Structural)]
pub enum Traversal {
    /// Nothing was moved: all of them are where they belong.
    Settled,
    /// Something was moved, and may have started something meanwhile: look again.
    Again,
    /// They keep changing.
    GiveUp,
}

/// What follows the pass with the number `traversal`, which moved `migrated` processes.
pub fn after_traversal(traversal: u32, migrated: usize) -> (next: Traversal)
    ensures
        next == if migrated == 0 {
            Traversal::Settled
        } else if traversal >= RETRAVERSALS {
            Traversal::GiveUp
        } else {
            Traversal::Again
        },
{
    if migrated == 0 {
        Traversal::Settled
    } else if traversal >= RETRAVERSALS {
        Traversal::GiveUp
    } else {
        Traversal::Again
    }
}

/// Forgets a process that is back where it was.
pub fn after_restoration(placements: &mut ProcessPlacementTracker, pid: u32, restored: bool)
    ensures
        final(placements)@ == if restored {
            old(placements)@.remove(pid)
        } else {
            old(placements)@
        },
{
    if restored {
        placements.remove(pid);
    }
}

/// Takes note of an event and tells which process the rules are to be applied to.
pub fn observe_event(placements: &mut ProcessPlacementTracker, event: Option<ProcEvent>) -> (apply:
    Option<u32>)
    ensures
        match event {
            Some(ProcEvent::Fork { parent_pid, child_pid }) => apply == Some(child_pid) && final(placements)@ == if old(placements)@.contains_key(parent_pid) {
                keeps_first(old(placements)@, child_pid, old(placements)@[parent_pid])
            } else {
                old(placements)@
            },
            Some(ProcEvent::Exec { process_pid }) => apply == Some(process_pid) && final(placements)@ == old(placements)@,
            Some(ProcEvent::Exit { process_pid }) => apply is None && final(placements)@ == old(placements)@.remove(process_pid),
            None => apply is None && final(placements)@ == old(placements)@,
        },
{
    match event {
        Some(ProcEvent::Fork { parent_pid, child_pid }) => {
            placements.inherit(parent_pid, child_pid);
            Some(child_pid)
        },
        Some(ProcEvent::Exec { process_pid }) => Some(process_pid),
        Some(ProcEvent::Exit { process_pid }) => {
            placements.remove(process_pid);
            None
        },
        None => None,
    }
}

/// A process is never given a processor that it did not ask for, that its origin lacks, or that
/// its scheduler mask excludes.
pub proof fn law_placement_stays_in_the_envelope(
    effective: usize,
    requested: usize,
    origin: usize,
    scheduler: usize,
    cpu: int,
)
    requires
        is_envelope(effective, requested, origin, scheduler),
        mask::has_cpu(effective, cpu),
    ensures
        mask::has_cpu(requested, cpu),
        mask::has_cpu(origin, cpu),
        mask::has_cpu(scheduler, cpu),
{
}

/// A process that was never moved is left where it is when nothing constrains it.
pub proof fn law_untouched_process_is_left_alone(
    step: MigrationStep,
    plan: ProcessMigrationPlan,
    placements: Map<u32, (Seq<char>, Seq<char>, usize)>,
    units: Seq<SystemdUnitTarget>,
)
    requires
        is_release(step, plan, placements, units),
        plan_unit(plan, UnitMatchMode::RequireProcessMatch) is None,
        !placements.contains_key(plan.pid),
    ensures
        leaves_alone(step),
{
}

/// A process that was moved goes back to where it was before the first move as soon as nothing
/// constrains it, however often it was moved since.
pub proof fn law_moved_process_goes_back(
    before: Map<u32, (Seq<char>, Seq<char>, usize)>,
    first: (Seq<char>, Seq<char>, usize),
    later: (Seq<char>, Seq<char>, usize),
    step: MigrationStep,
    plan: ProcessMigrationPlan,
    units: Seq<SystemdUnitTarget>,
)
    requires
        !before.contains_key(plan.pid),
        is_release(
            step,
            plan,
            keeps_first(keeps_first(before, plan.pid, first), plan.pid, later),
            units,
        ),
        plan_unit(plan, UnitMatchMode::RequireProcessMatch) is None,
        cgroup::is_affix_managed(plan_cgroup(plan)),
    ensures
        moves_to(step, (first.0, first.1), true),
{
}

/// A process that is not placed by a unit of its own is only ever moved if it belongs to a user's
/// desktop.
pub proof fn law_only_desktop_processes_are_moved(
    step: MigrationStep,
    effective: usize,
    plan: ProcessMigrationPlan,
    origin: (Seq<char>, Seq<char>, usize),
    context: EnforcementContext,
)
    requires
        is_placement(step, effective, plan, origin, context),
        step is MakeLeaf || !leaves_alone(step) && step is Done,
    ensures
        systemd::is_fallback_candidate(plan_cgroup(plan)),
        effective != 0,
{
}

} // verus!
