//! What holds of every enforcement of a processor set, whatever it is done with.

use vstd::prelude::*;

use crate::cgroup::CgroupCpusetManager;
use crate::cpuset;
use crate::linux_process::IoFailure;
use crate::mask;
use crate::migration;
use crate::migration::{
    CgroupTarget, EnforcementContext, MigrationStep, ProcessMigrationTarget, ProcessOrigin,
    ProcessPlacementTracker, Traversal,
};
use crate::placement::{ProcessMigrationPlan, ProcessTarget};
use crate::proc_event::ProcEvent;
use crate::service::ServiceError;
use crate::systemd::SystemdUnitTarget;

verus! {

/// A unit is constrained to the processors that the wanted set, the origin of the process and its
/// scheduler mask have in common: to each of them and to no other, and never to none at all.
pub proof fn law_unit_gets_the_common_processors(
    plan: &ProcessMigrationPlan,
    origin: ProcessOrigin,
    requested: usize,
    scheduler: usize,
    placements: &mut ProcessPlacementTracker,
    context: &EnforcementContext,
    unit: SystemdUnitTarget,
    mask: usize,
    kept: ProcessOrigin,
)
    requires
        call_ensures(
            migration::scheduler_read,
            (plan, origin, requested, Ok(Some(scheduler)), placements, context),
            Ok(MigrationStep::ConstrainUnit { unit, mask, origin: kept }),
        ),
    ensures
        forall|cpu: int| #[trigger]
            mask::has_cpu(mask, cpu) <==> mask::has_cpu(requested, cpu) && mask::has_cpu(
                origin.effective_cpuset_mask,
                cpu,
            ) && mask::has_cpu(scheduler, cpu),
        mask == requested & origin.effective_cpuset_mask & scheduler,
        mask != 0,
        kept@ == origin@,
{
    mask::lemma_intersect(requested, origin.effective_cpuset_mask);
    mask::lemma_intersect(requested & origin.effective_cpuset_mask, scheduler);
    let common = requested & origin.effective_cpuset_mask & scheduler;
    assert forall|cpu: int| 0 <= cpu < usize::BITS implies #[trigger] mask::has_cpu(mask, cpu)
        == mask::has_cpu(common, cpu) by {}
    mask::lemma_extensional(mask, common);
}

/// A directory is made for the processors that the wanted set, the origin of the process and its
/// scheduler mask have in common: its name reads back as each of them and no other.
pub proof fn law_directory_gets_the_common_processors(
    plan: &ProcessMigrationPlan,
    origin: ProcessOrigin,
    requested: usize,
    scheduler: usize,
    placements: &mut ProcessPlacementTracker,
    context: &EnforcementContext,
    cpuset: String,
    kept: ProcessOrigin,
    written: &str,
    read: usize,
)
    requires
        call_ensures(
            migration::scheduler_read,
            (plan, origin, requested, Ok(Some(scheduler)), placements, context),
            Ok(MigrationStep::MakeLeaf { cpuset, origin: kept }),
        ),
        written@ == cpuset@,
        call_ensures(cpuset::parse_cpuset_mask, (written,), Ok(read)),
    ensures
        read == requested & origin.effective_cpuset_mask & scheduler,
        forall|cpu: int| #[trigger]
            cpuset::names_cpu(cpuset@, cpu) <==> mask::has_cpu(requested, cpu) && mask::has_cpu(
                origin.effective_cpuset_mask,
                cpu,
            ) && mask::has_cpu(scheduler, cpu),
        kept@ == origin@,
        final(placements)@ == old(placements)@,
{
    let effective = choose|effective: usize| #[trigger]
        migration::is_envelope(effective, requested, origin.effective_cpuset_mask, scheduler)
            && migration::is_placement(
            MigrationStep::MakeLeaf { cpuset, origin: kept },
            effective,
            *plan,
            origin@,
            *context,
        );
    cpuset::law_cpuset_text_reads_back(effective);
    mask::lemma_intersect(requested, origin.effective_cpuset_mask);
    mask::lemma_intersect(requested & origin.effective_cpuset_mask, scheduler);
    let common = requested & origin.effective_cpuset_mask & scheduler;
    assert forall|cpu: int| 0 <= cpu < usize::BITS implies #[trigger] mask::has_cpu(read, cpu)
        == mask::has_cpu(common, cpu) by {
        assert(cpuset::names_cpu(cpuset@, cpu) <==> mask::has_cpu(effective, cpu));
    }
    mask::lemma_extensional(read, common);
}

/// Nothing is done to a process that is left no processor, or whose scheduler mask is gone with
/// it, and an unreadable mask is told.
pub proof fn law_nothing_in_common_changes_nothing(
    plan: &ProcessMigrationPlan,
    origin: ProcessOrigin,
    requested: usize,
    reading: Result<Option<usize>, ServiceError>,
    placements: &mut ProcessPlacementTracker,
    context: &EnforcementContext,
    step: Result<MigrationStep, ServiceError>,
)
    requires
        call_ensures(
            migration::scheduler_read,
            (plan, origin, requested, reading, placements, context),
            step,
        ),
    ensures
        reading matches Ok(Some(scheduler)) && requested & origin.effective_cpuset_mask & scheduler
            == 0 ==> step == Ok::<MigrationStep, ServiceError>(MigrationStep::Done(None)),
        reading matches Ok(None) ==> step == Ok::<MigrationStep, ServiceError>(
            MigrationStep::Done(None),
        ),
        reading matches Err(error) ==> step == Err::<MigrationStep, ServiceError>(error),
        step is Err ==> reading is Err,
        step == Ok::<MigrationStep, ServiceError>(MigrationStep::Done(None)) ==> final(placements)@ == old(placements)@,
{
    if let Ok(Some(scheduler)) = reading {
        mask::lemma_intersect(requested, origin.effective_cpuset_mask);
        mask::lemma_intersect(requested & origin.effective_cpuset_mask, scheduler);
        let common = requested & origin.effective_cpuset_mask & scheduler;
        let effective = choose|effective: usize| #[trigger]
            migration::is_envelope(effective, requested, origin.effective_cpuset_mask, scheduler)
                && migration::is_placement(step->Ok_0, effective, *plan, origin@, *context);
        assert forall|cpu: int| 0 <= cpu < usize::BITS implies #[trigger] mask::has_cpu(
            effective,
            cpu,
        ) == mask::has_cpu(common, cpu) by {}
        mask::lemma_extensional(effective, common);
    }
}

/// A process with processors in common with what is wanted is placed by the unit that is named for
/// it, once in a pass: the unit is constrained unless one of the same manager and name is settled.
pub proof fn law_named_unit_is_constrained_once(
    plan: &ProcessMigrationPlan,
    unit: SystemdUnitTarget,
    origin: ProcessOrigin,
    requested: usize,
    scheduler: usize,
    placements: &mut ProcessPlacementTracker,
    context: &EnforcementContext,
    step: Result<MigrationStep, ServiceError>,
)
    requires
        call_ensures(migration::systemd_policy_target_for_plan, (plan,), Some(unit)),
        call_ensures(
            migration::scheduler_read,
            (plan, origin, requested, Ok(Some(scheduler)), placements, context),
            step,
        ),
        requested & origin.effective_cpuset_mask & scheduler != 0,
    ensures
        (exists|i: int|
            0 <= i < context.systemd_units@.len() && (#[trigger] context.systemd_units@[i]).manager
                == unit.manager && context.systemd_units@[i].unit_name@ == unit.unit_name@)
            ==> step == Ok::<MigrationStep, ServiceError>(MigrationStep::Done(None)),
        (forall|i: int|
            0 <= i < context.systemd_units@.len() ==> (#[trigger] context.systemd_units@[i]).manager
                != unit.manager || context.systemd_units@[i].unit_name@ != unit.unit_name@) ==> (
        step matches Ok(MigrationStep::ConstrainUnit { unit: chosen, mask, origin: kept })
            && chosen.manager == unit.manager && chosen.unit_name@ == unit.unit_name@),
{
    mask::lemma_intersect(requested, origin.effective_cpuset_mask);
    mask::lemma_intersect(requested & origin.effective_cpuset_mask, scheduler);
    let common = requested & origin.effective_cpuset_mask & scheduler;
    let effective = choose|effective: usize| #[trigger]
        migration::is_envelope(effective, requested, origin.effective_cpuset_mask, scheduler)
            && migration::is_placement(step->Ok_0, effective, *plan, origin@, *context);
    assert forall|cpu: int| 0 <= cpu < usize::BITS implies #[trigger] mask::has_cpu(effective, cpu)
        == mask::has_cpu(common, cpu) by {}
    mask::lemma_extensional(effective, common);
    if exists|i: int|
        0 <= i < context.systemd_units@.len() && (#[trigger] context.systemd_units@[i]).manager
            == unit.manager && context.systemd_units@[i].unit_name@ == unit.unit_name@ {
        let i = choose|i: int|
            0 <= i < context.systemd_units@.len() && (#[trigger] context.systemd_units@[i]).manager
                == unit.manager && context.systemd_units@[i].unit_name@ == unit.unit_name@;
        assert(context.systemd_units@[i].key() == unit.key());
        assert(migration::is_settled(context.systemd_units@, unit.key()));
    }
}

/// A process for which no unit is named goes to a directory of the daemon only from a user's
/// desktop, and not while the unit it runs in is settled. Wherever it goes, it is on record with
/// where it was, and an earlier record stands.
pub proof fn law_process_without_unit_goes_to_a_directory(
    plan: &ProcessMigrationPlan,
    cgroup: Option<&str>,
    candidate: bool,
    containing: Option<SystemdUnitTarget>,
    origin: ProcessOrigin,
    requested: usize,
    scheduler: usize,
    placements: &mut ProcessPlacementTracker,
    context: &EnforcementContext,
    step: Result<MigrationStep, ServiceError>,
)
    requires
        call_ensures(
            migration::systemd_policy_target_for_plan,
            (plan,),
            None::<SystemdUnitTarget>,
        ),
        call_ensures(migration::containing_systemd_unit_for_plan, (plan,), containing),
        match (plan.current_cgroup, cgroup) {
            (Some(own), Some(told)) => own@ == told@,
            (None, None) => true,
            _ => false,
        },
        call_ensures(crate::systemd::cgroup_is_affix_fallback_candidate, (cgroup,), candidate),
        call_ensures(
            migration::scheduler_read,
            (plan, origin, requested, Ok(Some(scheduler)), placements, context),
            step,
        ),
        requested & origin.effective_cpuset_mask & scheduler != 0,
    ensures
        step is Ok,
        !(step->Ok_0 is ConstrainUnit),
        !candidate ==> step == Ok::<MigrationStep, ServiceError>(MigrationStep::Done(None)),
        containing matches Some(unit) && (exists|i: int|
            0 <= i < context.systemd_units@.len() && (#[trigger] context.systemd_units@[i]).manager
                == unit.manager && context.systemd_units@[i].unit_name@ == unit.unit_name@)
            ==> step == Ok::<MigrationStep, ServiceError>(MigrationStep::Done(None)),
        candidate && (containing matches Some(unit) ==> forall|i: int|
            0 <= i < context.systemd_units@.len() ==> (#[trigger] context.systemd_units@[i]).manager
                != unit.manager || context.systemd_units@[i].unit_name@ != unit.unit_name@) ==> (
        step matches Ok(MigrationStep::MakeLeaf { .. }) || (step matches Ok(
            MigrationStep::Done(Some(target)),
        ) && !target.restores_origin)),
        step matches Ok(MigrationStep::Done(Some(_))) ==> final(placements)@.contains_key(plan.pid)
            && final(placements)@[plan.pid] == (if old(placements)@.contains_key(plan.pid) {
            old(placements)@[plan.pid]
        } else {
            (origin.cgroup_path@, origin.relative_cgroup@, origin.effective_cpuset_mask)
        }),
        forall|other: u32|
            other != plan.pid ==> (#[trigger] final(placements)@.contains_key(other) <==> old(placements)@.contains_key(other)) && (old(placements)@.contains_key(other) ==> final(placements)@[other] == old(placements)@[other]),
{
    mask::lemma_intersect(requested, origin.effective_cpuset_mask);
    mask::lemma_intersect(requested & origin.effective_cpuset_mask, scheduler);
    let common = requested & origin.effective_cpuset_mask & scheduler;
    let effective = choose|effective: usize| #[trigger]
        migration::is_envelope(effective, requested, origin.effective_cpuset_mask, scheduler)
            && migration::is_placement(step->Ok_0, effective, *plan, origin@, *context);
    assert forall|cpu: int| 0 <= cpu < usize::BITS implies #[trigger] mask::has_cpu(effective, cpu)
        == mask::has_cpu(common, cpu) by {}
    mask::lemma_extensional(effective, common);
    if let Some(unit) = containing {
        if exists|i: int|
            0 <= i < context.systemd_units@.len() && (#[trigger] context.systemd_units@[i]).manager
                == unit.manager && context.systemd_units@[i].unit_name@ == unit.unit_name@ {
            let i = choose|i: int|
                0 <= i < context.systemd_units@.len() && (
                #[trigger] context.systemd_units@[i]).manager == unit.manager
                    && context.systemd_units@[i].unit_name@ == unit.unit_name@;
            assert(context.systemd_units@[i].key() == unit.key());
            assert(migration::is_settled(context.systemd_units@, unit.key()));
        }
    }
}

/// A unit that could not be constrained leaves its process to a directory for the same processors
/// where the process belongs to a user's desktop, and to itself otherwise. A unit that was
/// constrained is settled, and the process is left alone.
pub proof fn law_failed_unit_falls_back(
    plan: &ProcessMigrationPlan,
    cgroup: Option<&str>,
    candidate: bool,
    unit: SystemdUnitTarget,
    mask: usize,
    origin: ProcessOrigin,
    applied: bool,
    placements: &mut ProcessPlacementTracker,
    context: &mut EnforcementContext,
    step: MigrationStep,
)
    requires
        match (plan.current_cgroup, cgroup) {
            (Some(own), Some(told)) => own@ == told@,
            (None, None) => true,
            _ => false,
        },
        call_ensures(crate::systemd::cgroup_is_affix_fallback_candidate, (cgroup,), candidate),
        call_ensures(
            migration::unit_constrained,
            (plan, unit, mask, origin, applied, placements, context),
            step,
        ),
    ensures
        applied || !candidate ==> step == MigrationStep::Done(None),
        !applied && candidate ==> match step {
            MigrationStep::MakeLeaf { cpuset, origin: kept } => kept@ == origin@ && forall|cpu: int|
                #[trigger]
                cpuset::names_cpu(cpuset@, cpu) <==> mask::has_cpu(mask, cpu),
            MigrationStep::Done(Some(target)) => !target.restores_origin,
            _ => false,
        },
        applied ==> exists|i: int|
            0 <= i < final(context).systemd_units@.len() && (#[trigger] final(context).systemd_units@[i]).manager == unit.manager && final(context).systemd_units@[i].unit_name@ == unit.unit_name@,
{
    cpuset::law_cpuset_text_reads_back(mask);
    if applied {
        assert(migration::is_settled(final(context).systemd_units@, unit.key()));
        let i = choose|i: int|
            0 <= i < final(context).systemd_units@.len() && (#[trigger] final(context).systemd_units@[i]).key() == unit.key();
        assert(final(context).systemd_units@[i].manager == unit.manager);
    }
}

/// A process that nothing constrains any more goes back to where it was before the first move,
/// where no unit is named for it and it still is in a control group of the daemon. It is left
/// alone where it was never moved, or has left.
pub proof fn law_unconstrained_process_goes_back(
    plan: &ProcessMigrationPlan,
    cgroups: &CgroupCpusetManager,
    cgroup: Option<&str>,
    managed: bool,
    placements: &ProcessPlacementTracker,
    context: &EnforcementContext,
    step: Result<MigrationStep, ServiceError>,
)
    requires
        plan.target is Unconstrained,
        call_ensures(
            migration::systemd_policy_target_for_plan,
            (plan,),
            None::<SystemdUnitTarget>,
        ),
        match (plan.current_cgroup, cgroup) {
            (Some(own), Some(told)) => own@ == told@,
            (None, None) => true,
            _ => false,
        },
        call_ensures(CgroupCpusetManager::relative_is_affix_managed, (cgroups, cgroup), managed),
        call_ensures(migration::begin_migration, (plan, cgroups, placements, context), step),
    ensures
        managed && placements@.contains_key(plan.pid) ==> (step matches Ok(
            MigrationStep::Done(Some(back)),
        ) && back.restores_origin && back.target.path@ == placements@[plan.pid].0
            && back.target.relative@ == placements@[plan.pid].1),
        !managed || !placements@.contains_key(plan.pid) ==> step == Ok::<
            MigrationStep,
            ServiceError,
        >(MigrationStep::Done(None)),
{
}

/// A unit that nothing constrains any more is given back its processors, once in a pass.
pub proof fn law_unconstrained_unit_is_restored_once(
    plan: &ProcessMigrationPlan,
    unit: SystemdUnitTarget,
    cgroups: &CgroupCpusetManager,
    placements: &ProcessPlacementTracker,
    context: &EnforcementContext,
    step: Result<MigrationStep, ServiceError>,
)
    requires
        plan.target is Unconstrained,
        call_ensures(migration::systemd_policy_target_for_plan, (plan,), Some(unit)),
        call_ensures(migration::begin_migration, (plan, cgroups, placements, context), step),
    ensures
        (exists|i: int|
            0 <= i < context.systemd_units@.len() && (#[trigger] context.systemd_units@[i]).manager
                == unit.manager && context.systemd_units@[i].unit_name@ == unit.unit_name@)
            ==> step == Ok::<MigrationStep, ServiceError>(MigrationStep::Done(None)),
        (forall|i: int|
            0 <= i < context.systemd_units@.len() ==> (#[trigger] context.systemd_units@[i]).manager
                != unit.manager || context.systemd_units@[i].unit_name@ != unit.unit_name@) ==> (
        step matches Ok(MigrationStep::RestoreUnit(chosen)) && chosen.manager == unit.manager
            && chosen.unit_name@ == unit.unit_name@),
{
    if exists|i: int|
        0 <= i < context.systemd_units@.len() && (#[trigger] context.systemd_units@[i]).manager
            == unit.manager && context.systemd_units@[i].unit_name@ == unit.unit_name@ {
        let i = choose|i: int|
            0 <= i < context.systemd_units@.len() && (#[trigger] context.systemd_units@[i]).manager
                == unit.manager && context.systemd_units@[i].unit_name@ == unit.unit_name@;
        assert(context.systemd_units@[i].key() == unit.key());
        assert(migration::is_settled(context.systemd_units@, unit.key()));
    }
}

/// What is asked of the scheduler for a process on record is for the processors of its target,
/// inside the origin that is on record.
pub proof fn law_recorded_process_keeps_its_origin(
    plan: &ProcessMigrationPlan,
    wanted: String,
    cgroups: &CgroupCpusetManager,
    placements: &ProcessPlacementTracker,
    context: &EnforcementContext,
    step: Result<MigrationStep, ServiceError>,
)
    requires
        plan.target == ProcessTarget::Cpuset(wanted),
        placements@.contains_key(plan.pid),
        call_ensures(migration::begin_migration, (plan, cgroups, placements, context), step),
    ensures
        match step {
            Ok(MigrationStep::ReadScheduler { origin, requested }) => {
                &&& origin@ == placements@[plan.pid]
                &&& requested != 0
                &&& forall|cpu: int| #[trigger]
                    mask::has_cpu(requested, cpu) <==> cpuset::names_cpu(wanted@, cpu)
            },
            Ok(_) => false,
            Err(error) => error is Affinity,
        },
{
}

/// A process that is not on record is looked up first: in its control group where that is known
/// and not one of the daemon's, and nowhere where it is the daemon's.
pub proof fn law_unrecorded_process_is_looked_up(
    plan: &ProcessMigrationPlan,
    cgroups: &CgroupCpusetManager,
    cgroup: Option<&str>,
    managed: bool,
    placements: &ProcessPlacementTracker,
    context: &EnforcementContext,
    step: Result<MigrationStep, ServiceError>,
)
    requires
        plan.target is Cpuset,
        !placements@.contains_key(plan.pid),
        match (plan.current_cgroup, cgroup) {
            (Some(own), Some(told)) => own@ == told@,
            (None, None) => true,
            _ => false,
        },
        call_ensures(CgroupCpusetManager::relative_is_affix_managed, (cgroups, cgroup), managed),
        call_ensures(migration::begin_migration, (plan, cgroups, placements, context), step),
    ensures
        match plan.current_cgroup {
            None => step == Ok::<MigrationStep, ServiceError>(MigrationStep::ReadCgroup),
            Some(own) => if managed {
                step == Ok::<MigrationStep, ServiceError>(MigrationStep::Done(None))
            } else {
                step matches Ok(MigrationStep::ReadEffectiveCpus { relative, path }) && relative@
                    == own@
            },
        },
{
}

/// The processors that a process had where it was are those that its control group says it has.
pub proof fn law_origin_has_the_effective_processors(
    wanted: &str,
    relative: String,
    path: String,
    content: String,
    origin: ProcessOrigin,
    requested: usize,
)
    requires
        call_ensures(
            migration::effective_cpus_read,
            (wanted, relative, path, Ok::<String, IoFailure>(content)),
            Ok(MigrationStep::ReadScheduler { origin, requested }),
        ),
    ensures
        forall|cpu: int| #[trigger]
            mask::has_cpu(origin.effective_cpuset_mask, cpu) <==> cpuset::names_cpu(
                crate::text::trim(content@),
                cpu,
            ),
        forall|cpu: int| #[trigger]
            mask::has_cpu(requested, cpu) <==> cpuset::names_cpu(wanted@, cpu),
        origin.cgroup_path@ == path@,
        origin.relative_cgroup@ == relative@,
{
}

/// A process that was put into a directory is on record with where it was, an earlier record
/// stands, and the directory serves the next process with the same set.
pub proof fn law_made_directory_is_kept(
    pid: u32,
    cpuset: String,
    origin: ProcessOrigin,
    path: String,
    cgroups: &CgroupCpusetManager,
    placements: &mut ProcessPlacementTracker,
    context: &mut EnforcementContext,
    target: ProcessMigrationTarget,
    written: &str,
    found: Option<CgroupTarget>,
)
    requires
        call_ensures(
            migration::leaf_made,
            (
                pid,
                cpuset,
                origin,
                Ok::<String, ServiceError>(path),
                cgroups,
                placements,
                context,
            ),
            Ok::<ProcessMigrationTarget, ServiceError>(target),
        ),
        written@ == cpuset@,
        call_ensures(EnforcementContext::leaf, (&*final(context), written), found),
    ensures
        target.target.path@ == path@,
        !target.restores_origin,
        found matches Some(again) && again.path@ == target.target.path@ && again.relative@
            == target.target.relative@,
        final(placements)@.contains_key(pid),
        final(placements)@[pid] == if old(placements)@.contains_key(pid) {
            old(placements)@[pid]
        } else {
            (origin.cgroup_path@, origin.relative_cgroup@, origin.effective_cpuset_mask)
        },
        forall|other: u32|
            other != pid ==> (#[trigger] final(placements)@.contains_key(other) <==> old(placements)@.contains_key(other)),
{
    assert(target.target@ == (target.target.path@, target.target.relative@));
}

/// A new process shares the record of its parent and is looked at, a new program is looked at, and
/// an ended process is forgotten.
pub proof fn law_events_keep_the_records(
    placements: &mut ProcessPlacementTracker,
    event: ProcEvent,
    apply: Option<u32>,
    other: u32,
)
    requires
        call_ensures(migration::observe_event, (placements, Some(event)), apply),
    ensures
        match event {
            ProcEvent::Fork { parent_pid, child_pid } => {
                &&& apply == Some(child_pid)
                &&& old(placements)@.contains_key(parent_pid) ==> final(placements)@.contains_key(
                    child_pid,
                )
                &&& old(placements)@.contains_key(parent_pid) && !old(placements)@.contains_key(
                    child_pid,
                ) ==> final(placements)@[child_pid] == old(placements)@[parent_pid]
                &&& old(placements)@.contains_key(child_pid) ==> final(placements)@[child_pid]
                    == old(placements)@[child_pid]
                &&& !old(placements)@.contains_key(parent_pid) ==> final(placements)@ == old(placements)@
                &&& other != child_pid ==> final(placements)@.contains_key(other) == old(placements)@.contains_key(other)
                &&& other != child_pid && old(placements)@.contains_key(other) ==> final(placements)@[other] == old(placements)@[other]
            },
            ProcEvent::Exec { process_pid } => apply == Some(process_pid) && final(placements)@
                == old(placements)@,
            ProcEvent::Exit { process_pid } => {
                &&& apply is None
                &&& !final(placements)@.contains_key(process_pid)
                &&& other != process_pid ==> final(placements)@.contains_key(other) == old(placements)@.contains_key(other)
                &&& other != process_pid && old(placements)@.contains_key(other) ==> final(placements)@[other] == old(placements)@[other]
            },
        },
{
}

/// A process that is back where it was is forgotten, and only then.
pub proof fn law_only_restored_processes_are_forgotten(
    placements: &mut ProcessPlacementTracker,
    pid: u32,
    restored: bool,
    other: u32,
)
    requires
        call_ensures(migration::after_restoration, (placements, pid, restored), ()),
    ensures
        restored ==> !final(placements)@.contains_key(pid),
        !restored || other != pid ==> final(placements)@.contains_key(other) == old(placements)@.contains_key(other) && (old(placements)@.contains_key(other) ==> final(placements)@[other] == old(placements)@[other]),
{
}

/// The descendants of a process are looked at until nothing was moved, and at most four times
/// anew.
pub proof fn law_passes_end(traversal: u32, migrated: usize, next: Traversal)
    requires
        call_ensures(migration::after_traversal, (traversal, migrated), next),
    ensures
        next == Traversal::Settled <==> migrated == 0,
        next == Traversal::Again <==> migrated > 0 && traversal < 4,
        next == Traversal::GiveUp <==> migrated > 0 && traversal >= 4,
{
}

/// A unit is settled once it was given back its processors, and not by a failure.
pub proof fn law_only_restored_units_are_settled(
    context: &mut EnforcementContext,
    unit: SystemdUnitTarget,
    restored: bool,
    other: &SystemdUnitTarget,
    found: bool,
    before: bool,
)
    requires
        call_ensures(migration::unit_restored, (context, unit, restored), ()),
        call_ensures(EnforcementContext::has_unit, (&*final(context), other), found),
        call_ensures(EnforcementContext::has_unit, (&*old(context), other), before),
    ensures
        found <==> before || restored && other.manager == unit.manager && other.unit_name@
            == unit.unit_name@,
{
}

/// A child goes by the origin of its parent, unless one is known of it already, and no other process
/// gains or loses one.
pub proof fn law_child_goes_by_the_origin_of_its_parent(
    placements: &mut ProcessPlacementTracker,
    parent: u32,
    child: u32,
    other: u32,
    of_parent: Option<&ProcessOrigin>,
    of_child: Option<&ProcessOrigin>,
    later: Option<&ProcessOrigin>,
    before: Option<&ProcessOrigin>,
    after: Option<&ProcessOrigin>,
)
    requires
        call_ensures(ProcessPlacementTracker::origin, (&*old(placements), parent), of_parent),
        call_ensures(ProcessPlacementTracker::origin, (&*old(placements), child), of_child),
        call_ensures(ProcessPlacementTracker::origin, (&*old(placements), other), before),
        call_ensures(ProcessPlacementTracker::inherit, (placements, parent, child), ()),
        call_ensures(ProcessPlacementTracker::origin, (&*final(placements), child), later),
        call_ensures(ProcessPlacementTracker::origin, (&*final(placements), other), after),
    ensures
        of_child is None ==> (later is Some <==> of_parent is Some),
        of_child is None && of_parent is Some ==> is_same_origin(*later->0, *of_parent->0),
        of_child is Some ==> later is Some && is_same_origin(*later->0, *of_child->0),
        other != child ==> (after is Some <==> before is Some) && (before is Some
            ==> is_same_origin(*after->0, *before->0)),
{
}

/// The first origin that is recorded of a process stays, until the process is removed.
pub proof fn law_first_recorded_origin_stays(
    recording: &mut ProcessPlacementTracker,
    removing: &mut ProcessPlacementTracker,
    pid: u32,
    origin: ProcessOrigin,
    before: Option<&ProcessOrigin>,
    recorded: Option<&ProcessOrigin>,
    removed: Option<&ProcessOrigin>,
)
    requires
        call_ensures(ProcessPlacementTracker::origin, (&*old(recording), pid), before),
        call_ensures(ProcessPlacementTracker::record, (recording, pid, origin), ()),
        call_ensures(ProcessPlacementTracker::origin, (&*final(recording), pid), recorded),
        call_ensures(ProcessPlacementTracker::remove, (removing, pid), ()),
        call_ensures(ProcessPlacementTracker::origin, (&*final(removing), pid), removed),
    ensures
        recorded is Some,
        before is None ==> is_same_origin(*recorded->0, origin),
        before is Some ==> is_same_origin(*recorded->0, *before->0),
        removed is None,
{
}

/// A unit that was settled is found again, and no other unit is settled by it.
pub proof fn law_settled_unit_is_found(
    context: &mut EnforcementContext,
    unit: SystemdUnitTarget,
    asked: &SystemdUnitTarget,
    before: bool,
    after: bool,
)
    requires
        call_ensures(EnforcementContext::has_unit, (&*old(context), asked), before),
        call_ensures(EnforcementContext::settle_unit, (context, unit), ()),
        call_ensures(EnforcementContext::has_unit, (&*final(context), asked), after),
    ensures
        asked.manager == unit.manager && asked.unit_name@ == unit.unit_name@ ==> after,
        !(asked.manager == unit.manager && asked.unit_name@ == unit.unit_name@) ==> after == before,
{
    let key = asked.key();
    assert(migration::is_settled(final(context).systemd_units@, key) <==> migration::is_settled(
        old(context).systemd_units@,
        key,
    ) || key == unit.key());
}

/// A directory that was added is found again under its processor set, and the directories of other
/// sets stay.
pub proof fn law_added_directory_is_found(
    context: &mut EnforcementContext,
    cpuset: String,
    target: CgroupTarget,
    asked: &str,
    before: Option<CgroupTarget>,
    after: Option<CgroupTarget>,
)
    requires
        call_ensures(EnforcementContext::leaf, (&*old(context), asked), before),
        call_ensures(EnforcementContext::add_leaf, (context, cpuset, target), ()),
        call_ensures(EnforcementContext::leaf, (&*final(context), asked), after),
    ensures
        asked@ == cpuset@ ==> after is Some && after->0.path@ == target.path@ && after->0.relative@
            == target.relative@,
        asked@ != cpuset@ ==> (after is Some <==> before is Some),
        asked@ != cpuset@ && before is Some ==> after->0.path@ == before->0.path@
            && after->0.relative@ == before->0.relative@,
{
    let all = migration::made_leaf(final(context).leaves@, asked@);
    if let Some(found) = after {
        assert(found@ == (found.path@, found.relative@));
    }
    assert(target@ == (target.path@, target.relative@));
}

/// The origins tell the same place and the same processors.
pub open spec fn is_same_origin(a: ProcessOrigin, b: ProcessOrigin) -> bool {
    a.cgroup_path@ == b.cgroup_path@ && a.relative_cgroup@ == b.relative_cgroup@
        && a.effective_cpuset_mask == b.effective_cpuset_mask
}

/// A process outside of every control group, or in one below `/affix`, is left alone. Of any other the
/// effective processors are read in the directory that its group has below the root.
pub proof fn law_group_of_the_process_is_read(
    cgroups: &CgroupCpusetManager,
    relative: String,
    none: MigrationStep,
    step: MigrationStep,
)
    requires
        call_ensures(migration::cgroup_read, (cgroups, None::<String>), none),
        call_ensures(migration::cgroup_read, (cgroups, Some(relative)), step),
    ensures
        none == MigrationStep::Done(None),
        ({
            let managed = relative@ == "/affix"@ || relative@.len() >= 7 && relative@.subrange(0, 7)
                == "/affix/"@;
            &&& managed ==> step == MigrationStep::Done(None)
            &&& !managed ==> step is ReadEffectiveCpus
        }),
        step matches MigrationStep::ReadEffectiveCpus { relative: found, path } ==> found@
            == relative@ && (is_plain_root(cgroups.root@) && is_plain_group(relative@) ==> path@
            == cgroups.root@ + relative@),
{
    reveal_strlit("/affix/");
    assert("/affix/"@.len() == 7);
    if is_plain_root(cgroups.root@) && is_plain_group(relative@) {
        lemma_plain_group(cgroups.root@, relative@);
    }
}

/// A root that does not end in a slash.
pub open spec fn is_plain_root(root: Seq<char>) -> bool {
    root.len() > 0 && root.last() != '/'
}

/// A group that begins with one slash.
pub open spec fn is_plain_group(relative: Seq<char>) -> bool {
    relative.len() > 1 && relative[0] == '/' && relative[1] != '/'
}

proof fn lemma_plain_group(root: Seq<char>, relative: Seq<char>)
    requires
        is_plain_root(root),
        is_plain_group(relative),
    ensures
        crate::cgroup::below(root, crate::cgroup::skip_slashes(relative)) == root + relative,
{
    reveal_strlit("/");
    let name = relative.subrange(1, relative.len() as int);
    assert(name[0] == relative[1]);
    reveal_with_fuel(crate::cgroup::skip_slashes, 2);
    assert(crate::cgroup::skip_slashes(relative) == name);
    assert(root + "/"@ + name =~= root + relative);
}

/// A directory that was made for the processors in common is used again, and one is made only where
/// there is none yet.
pub proof fn law_made_directory_is_used_again(
    plan: &ProcessMigrationPlan,
    origin: ProcessOrigin,
    requested: usize,
    scheduler: usize,
    placements: &mut ProcessPlacementTracker,
    context: &EnforcementContext,
    step: Result<MigrationStep, ServiceError>,
    written: String,
    line: &str,
    made: Option<CgroupTarget>,
)
    requires
        call_ensures(
            migration::scheduler_read,
            (plan, origin, requested, Ok(Some(scheduler)), placements, context),
            step,
        ),
        call_ensures(
            cpuset::cpuset_string,
            (requested & origin.effective_cpuset_mask & scheduler,),
            written,
        ),
        line@ == written@,
        call_ensures(EnforcementContext::leaf, (context, line), made),
    ensures
        step matches Ok(MigrationStep::Done(Some(target))) ==> made is Some && target.target.path@
            == made->0.path@ && target.target.relative@ == made->0.relative@
            && !target.restores_origin,
        step matches Ok(MigrationStep::MakeLeaf { cpuset, origin: kept }) ==> made is None && cpuset@
            == written@,
{
    mask::lemma_intersect(requested, origin.effective_cpuset_mask);
    mask::lemma_intersect(requested & origin.effective_cpuset_mask, scheduler);
    let common = requested & origin.effective_cpuset_mask & scheduler;
    let effective = choose|effective: usize| #[trigger]
        migration::is_envelope(effective, requested, origin.effective_cpuset_mask, scheduler)
            && migration::is_placement(step->Ok_0, effective, *plan, origin@, *context);
    assert forall|cpu: int| 0 <= cpu < usize::BITS implies #[trigger] mask::has_cpu(effective, cpu)
        == mask::has_cpu(common, cpu) by {}
    mask::lemma_extensional(effective, common);
    if let Ok(MigrationStep::Done(Some(target))) = step {
        assert(target.target@ == (target.target.path@, target.target.relative@));
        assert(made->0@ == (made->0.path@, made->0.relative@));
    }
}

/// A unit is settled where it was constrained, and no other one; a process that is moved for want of
/// it goes to the directory of the same processors and is on record from then on.
pub proof fn law_only_constrained_units_are_settled(
    plan: &ProcessMigrationPlan,
    unit: SystemdUnitTarget,
    mask: usize,
    origin: ProcessOrigin,
    applied: bool,
    placements: &mut ProcessPlacementTracker,
    context: &mut EnforcementContext,
    step: MigrationStep,
    asked: &SystemdUnitTarget,
    before: bool,
    after: bool,
    written: String,
    line: &str,
    made: Option<CgroupTarget>,
)
    requires
        call_ensures(
            migration::unit_constrained,
            (plan, unit, mask, origin, applied, placements, context),
            step,
        ),
        call_ensures(EnforcementContext::has_unit, (&*old(context), asked), before),
        call_ensures(EnforcementContext::has_unit, (&*final(context), asked), after),
        call_ensures(cpuset::cpuset_string, (mask,), written),
        line@ == written@,
        call_ensures(EnforcementContext::leaf, (&*old(context), line), made),
    ensures
        after <==> before || applied && asked.manager == unit.manager && asked.unit_name@
            == unit.unit_name@,
        step matches MigrationStep::Done(Some(target)) ==> made is Some && target.target.path@
            == made->0.path@ && target.target.relative@ == made->0.relative@ && final(placements)@
            == (if old(placements)@.contains_key(plan.pid) {
            old(placements)@
        } else {
            old(placements)@.insert(
                plan.pid,
                (origin.cgroup_path@, origin.relative_cgroup@, origin.effective_cpuset_mask),
            )
        }),
        step is MakeLeaf ==> made is None,
        !(step matches MigrationStep::Done(Some(_))) ==> final(placements)@ == old(placements)@,
        final(context).leaves == old(context).leaves,
{
    let key = asked.key();
    assert(migration::is_settled(final(context).systemd_units@, key) <==> migration::is_settled(
        old(context).systemd_units@,
        key,
    ) || (applied && key == unit.key()));
    if let MigrationStep::Done(Some(target)) = step {
        assert(target.target@ == (target.target.path@, target.target.relative@));
        assert(made->0@ == (made->0.path@, made->0.relative@));
    }
}

proof fn lemma_read_is_not_refused(cpuset: Seq<char>, read: usize, words: Seq<char>)
    requires
        migration::is_request(cpuset, read),
    ensures
        !cpuset::is_refusal(cpuset, words),
        exists|cpu: int| cpuset::names_cpu(cpuset, cpu),
{
    if forall|cpu: int| !#[trigger] cpuset::names_cpu(cpuset, cpu) {
        assert forall|cpu: int| 0 <= cpu < usize::BITS implies #[trigger] mask::has_cpu(read, cpu)
            == mask::has_cpu(0, cpu) by {
            mask::lemma_empty_mask(cpu);
            assert(!cpuset::names_cpu(cpuset, cpu));
        }
        mask::lemma_extensional(read, 0);
    }
}

/// A process is asked about where both its target and what its group may use can be read; where one of
/// them cannot, the error tells which.
pub proof fn law_readable_sets_are_asked_about(
    plan: &ProcessMigrationPlan,
    cgroups: &CgroupCpusetManager,
    placements: &ProcessPlacementTracker,
    context: &EnforcementContext,
    begun: Result<MigrationStep, ServiceError>,
    wanted: &str,
    target: Result<usize, ServiceError>,
    relative: String,
    path: String,
    content: String,
    read: &str,
    inner: String,
    line: &str,
    own: Result<usize, ServiceError>,
    step: Result<MigrationStep, ServiceError>,
)
    requires
        plan.target matches ProcessTarget::Cpuset(cpuset) && cpuset@ == wanted@,
        placements@.contains_key(plan.pid),
        call_ensures(migration::begin_migration, (plan, cgroups, placements, context), begun),
        call_ensures(cpuset::parse_cpuset_mask, (wanted,), target),
        read@ == content@,
        call_ensures(crate::text::trimmed, (read,), inner),
        line@ == inner@,
        call_ensures(cpuset::parse_cpuset_mask, (line,), own),
        call_ensures(
            migration::effective_cpus_read,
            (wanted, relative, path, Ok::<String, IoFailure>(content)),
            step,
        ),
    ensures
        begun is Ok <==> target is Ok,
        step is Ok <==> target is Ok && own is Ok,
        step matches Err(ServiceError::Affinity { expression, message }) ==> (own is Err
            ==> expression@ == inner@) && (own is Ok ==> expression@ == wanted@),
{
    if let Err(error) = begun {
        if let Ok(read) = target {
            if let ServiceError::Affinity { expression, message } = error {
                lemma_read_is_not_refused(wanted@, read, message@);
            }
        }
    }
    if let Ok(MigrationStep::ReadScheduler { origin, requested }) = begun {
        if let Err(ServiceError::Affinity { expression, message }) = target {
            lemma_read_is_not_refused(wanted@, requested, message@);
        }
    }
    if let Ok(read) = own {
        lemma_read_is_not_refused(line@, read, Seq::empty());
        if let Err(ServiceError::Affinity { expression, message }) = step {
            if let Ok(wanted_mask) = target {
                lemma_read_is_not_refused(wanted@, wanted_mask, message@);
            }
        }
    }
    if let Ok(MigrationStep::ReadScheduler { origin, requested }) = step {
        if let Err(ServiceError::Affinity { expression, message }) = target {
            lemma_read_is_not_refused(wanted@, requested, message@);
        }
        if let Err(ServiceError::Affinity { expression, message }) = own {
            let effective = choose|effective: usize| #[trigger]
                migration::is_request(crate::text::trim(content@), effective);
            lemma_read_is_not_refused(line@, effective, message@);
        }
    }
}

/// A group whose processors cannot be read is told by its file.
pub proof fn law_unreadable_group_is_told_by_its_file(
    wanted: &str,
    relative: String,
    path: String,
    failure: IoFailure,
    step: Result<MigrationStep, ServiceError>,
)
    requires
        is_plain_root(path@),
        call_ensures(
            migration::effective_cpus_read,
            (wanted, relative, path, Err::<String, IoFailure>(failure)),
            step,
        ),
    ensures
        step matches Err(ServiceError::Io { operation, path: Some(file), source }) && operation@
            == "read effective cpuset"@ && file@ == path@ + "/cpuset.cpus.effective"@ && source@
            == failure.source@,
{
    reveal_strlit("/");
    reveal_strlit("cpuset.cpus.effective");
    reveal_strlit("/cpuset.cpus.effective");
    assert("/cpuset.cpus.effective"@ =~= "/"@ + "cpuset.cpus.effective"@);
    assert(path@ + "/"@ + "cpuset.cpus.effective"@ =~= path@ + "/cpuset.cpus.effective"@);
}

/// A directory that could not be made, or that stands outside of the root, changes nothing and is
/// told; one that was made is known by the group that it has below the root.
pub proof fn law_only_made_directories_count(
    pid: u32,
    cpuset: String,
    origin: ProcessOrigin,
    made: Result<String, ServiceError>,
    leaf: &str,
    group: Result<String, ServiceError>,
    cgroups: &CgroupCpusetManager,
    placements: &mut ProcessPlacementTracker,
    context: &mut EnforcementContext,
    target: Result<ProcessMigrationTarget, ServiceError>,
)
    requires
        call_ensures(
            migration::leaf_made,
            (pid, cpuset, origin, made, cgroups, placements, context),
            target,
        ),
        made is Ok ==> leaf@ == made->Ok_0@,
        call_ensures(CgroupCpusetManager::relative_cgroup_path, (cgroups, leaf), group),
    ensures
        made is Err ==> target is Err && target->Err_0 == made->Err_0,
        made is Ok ==> (target is Ok <==> group is Ok),
        made is Ok && target is Ok ==> target->Ok_0.target.relative@ == group->Ok_0@,
        target is Err ==> final(placements)@ == old(placements)@ && final(context).leaves
            == old(context).leaves,
        final(context).systemd_units == old(context).systemd_units,
{
}

} // verus!
