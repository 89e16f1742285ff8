//! The settings that a rule asks for: how they are resolved, set and read back.

use vstd::prelude::*;

use crate::engine::{PolicyFailure, PolicyInspection, ProcessPolicyDrift, ResolvedProcessPolicy};
use crate::process;
use crate::process::{PolicyStep, PowerThrottlingState, ProcessMode};
use crate::registry::PolicyRule;
use crate::service::ServiceError;
use crate::topology::CpuTopology;

verus! {

/// The mask that a rule asks for on a machine that could be read, or could not.
pub open spec fn rule_mask(
    rule: PolicyRule,
    machine: Result<CpuTopology, ServiceError>,
    found: Result<Option<usize>, ServiceError>,
) -> bool {
    match machine {
        Ok(topology) => process::policy_mask(rule.affinity, topology, found),
        Err(error) => found == if rule.affinity is None {
            Ok::<Option<usize>, ServiceError>(None)
        } else {
            Err(error)
        },
    }
}

/// The settings that a rule asks for, with the mask that was found or could not be.
pub open spec fn settings_of(
    rule: PolicyRule,
    found: Result<Option<usize>, ServiceError>,
) -> ResolvedProcessPolicy {
    ResolvedProcessPolicy {
        affinity: match found {
            Ok(mask) => mask,
            Err(_) => None,
        },
        eco_qos: rule.mode == Some(ProcessMode::Efficiency),
        priority_class: match rule.mode {
            Some(mode) => mode.priority(),
            None => None,
        },
    }
}

/// The failures to tell of a mask that was found or could not be.
pub open spec fn mask_failures(found: Result<Option<usize>, ServiceError>) -> Seq<PolicyFailure> {
    match found {
        Ok(_) => Seq::empty(),
        Err(error) => seq![PolicyFailure { component: "affinity", error }],
    }
}

/// The settings that a rule asks for on a machine. An affinity that cannot be resolved is left
/// out and told as a failure.
pub fn resolve_policy(rule: &PolicyRule, machine: Result<CpuTopology, ServiceError>) -> (resolved: (
    ResolvedProcessPolicy,
    Vec<PolicyFailure>,
))
    ensures
        exists|found: Result<Option<usize>, ServiceError>| #[trigger]
            rule_mask(*rule, machine, found) && resolved.0 == settings_of(*rule, found)
                && resolved.1@ == mask_failures(found),
{
    let found = match machine {
        Ok(topology) => match &rule.affinity {
            Some(affinity) => affinity.mask(&topology),
            None => Ok(None),
        },
        Err(error) => if rule.affinity.is_none() {
            Ok(None)
        } else {
            Err(error)
        },
    };
    assert(rule_mask(*rule, machine, found));
    let mut failures: Vec<PolicyFailure> = Vec::new();
    let ghost mask = found;
    let affinity = match found {
        Ok(mask) => mask,
        Err(error) => {
            failures.push(PolicyFailure { component: "affinity", error });
            None
        },
    };
    assert(failures@ =~= mask_failures(mask));
    let policy = ResolvedProcessPolicy {
        affinity,
        eco_qos: match rule.mode {
            Some(mode) => mode == ProcessMode::Efficiency,
            None => false,
        },
        priority_class: match rule.mode {
            Some(mode) => mode.priority_class(),
            None => None,
        },
    };
    (policy, failures)
}

/// The adjustments that set the parts of `policy` that have drifted, in their order.
pub open spec fn repairs_of(
    policy: ResolvedProcessPolicy,
    drift: ProcessPolicyDrift,
) -> Seq<PolicyStep> {
    let placed = match policy.affinity {
        Some(mask) if drift.affinity => seq![PolicyStep::SetAffinity(mask)],
        _ => Seq::empty(),
    };
    let throttled = if policy.eco_qos && drift.eco_qos {
        seq![PolicyStep::EnableEcoQos]
    } else {
        Seq::empty()
    };
    let prioritised = match policy.priority_class {
        Some(class) if drift.priority_class => seq![
            PolicyStep::SetPriority(class),
            PolicyStep::AttachPriorityJob(class),
        ],
        _ => Seq::empty(),
    };
    placed + throttled + prioritised
}

/// The adjustments that set the parts of `policy` that have drifted, in their order.
pub fn repair_steps(policy: &ResolvedProcessPolicy, drift: ProcessPolicyDrift) -> (steps: Vec<
    PolicyStep,
>)
    ensures
        steps@ == repairs_of(*policy, drift),
{
    let mut steps: Vec<PolicyStep> = Vec::new();
    if let Some(mask) = policy.affinity {
        if drift.affinity {
            steps.push(PolicyStep::SetAffinity(mask));
        }
    }
    if policy.eco_qos && drift.eco_qos {
        steps.push(PolicyStep::EnableEcoQos);
    }
    if let Some(class) = policy.priority_class {
        if drift.priority_class {
            steps.push(PolicyStep::SetPriority(class));
            steps.push(PolicyStep::AttachPriorityJob(class));
        }
    }
    assert(steps@ =~= repairs_of(*policy, drift));
    steps
}

/// The adjustments that set every part of `policy`, in their order.
pub fn apply_steps(policy: &ResolvedProcessPolicy) -> (steps: Vec<PolicyStep>)
    ensures
        steps@ == repairs_of(
            *policy,
            (ProcessPolicyDrift { affinity: true, eco_qos: true, priority_class: true }),
        ),
{
    repair_steps(
        policy,
        ProcessPolicyDrift { affinity: true, eco_qos: true, priority_class: true },
    )
}

/// The settings that are applied from a rule are the adjustments that the rule asks for.
pub proof fn law_settings_make_the_same_adjustments(
    rule: PolicyRule,
    mode: ProcessMode,
    mask: Option<usize>,
)
    requires
        rule.mode == Some(mode),
    ensures
        repairs_of(
            settings_of(rule, Ok(mask)),
            (ProcessPolicyDrift { affinity: true, eco_qos: true, priority_class: true }),
        ) == process::steps_of(mask, mode),
{
}

/// The part of a policy that an adjustment belongs to.
pub fn component_of(step: PolicyStep) -> (component: &'static str)
    ensures
        component@ == match step {
            PolicyStep::SetAffinity(_) => "affinity"@,
            PolicyStep::EnableEcoQos => "eco-qos"@,
            PolicyStep::DisableEcoQos => "eco-qos"@,
            PolicyStep::SetPriority(_) => "priority-class"@,
            PolicyStep::AttachPriorityJob(_) => "priority-job"@,
        },
{
    match step {
        PolicyStep::SetAffinity(_) => "affinity",
        PolicyStep::EnableEcoQos => "eco-qos",
        PolicyStep::DisableEcoQos => "eco-qos",
        PolicyStep::SetPriority(_) => "priority-class",
        PolicyStep::AttachPriorityJob(_) => "priority-job",
    }
}

/// What was read of the settings of a process: nothing of a part that was not looked at.
#[derive(Debug, Eq, PartialEq)]
pub struct PolicyReadings {
    pub affinity: Option<Result<usize, ServiceError>>,
    pub throttling: Option<Result<PowerThrottlingState, ServiceError>>,
    pub priority_class: Option<Result<u32, ServiceError>>,
}

/// The process is throttled in its execution speed.
pub open spec fn is_throttled(state: PowerThrottlingState) -> bool {
    state.control_mask & 1 == 1 && state.state_mask & 1 == 1
}

/// Which of the settings that `policy` asks for were read and found otherwise.
pub open spec fn drifted(
    policy: ResolvedProcessPolicy,
    readings: PolicyReadings,
) -> ProcessPolicyDrift {
    ProcessPolicyDrift {
        affinity: match (policy.affinity, readings.affinity) {
            (Some(mask), Some(Ok(actual))) => actual != mask,
            _ => false,
        },
        eco_qos: policy.eco_qos && match readings.throttling {
            Some(Ok(state)) => !is_throttled(state),
            _ => false,
        },
        priority_class: match (policy.priority_class, readings.priority_class) {
            (Some(class), Some(Ok(actual))) => actual != class,
            _ => false,
        },
    }
}

/// The failure to tell of a part of a policy that could not be read.
pub open spec fn reading_failure<T>(
    component: &'static str,
    reading: Option<Result<T, ServiceError>>,
) -> Seq<PolicyFailure> {
    match reading {
        Some(Err(error)) => seq![PolicyFailure { component, error }],
        _ => Seq::empty(),
    }
}

/// Which of the settings that `policy` asks for were read and found otherwise.
pub fn drift_of(policy: &ResolvedProcessPolicy, readings: &PolicyReadings) -> (drift:
    ProcessPolicyDrift)
    ensures
        drift == drifted(*policy, *readings),
{
    let affinity = match (policy.affinity, &readings.affinity) {
        (Some(mask), Some(Ok(actual))) => *actual != mask,
        _ => false,
    };
    let eco_qos = match &readings.throttling {
        Some(Ok(state)) => policy.eco_qos && !(state.control_mask & 1 == 1 && state.state_mask & 1
            == 1),
        _ => false,
    };
    let priority_class = match (policy.priority_class, &readings.priority_class) {
        (Some(class), Some(Ok(actual))) => *actual != class,
        _ => false,
    };
    ProcessPolicyDrift { affinity, eco_qos, priority_class }
}

/// Compares what was read of a process with what `policy` asks for.
pub fn inspect(policy: &ResolvedProcessPolicy, readings: PolicyReadings) -> (inspection:
    PolicyInspection)
    ensures
        inspection.drift == drifted(*policy, readings),
        inspection.failures@ == reading_failure("affinity", readings.affinity) + reading_failure(
            "eco-qos",
            readings.throttling,
        ) + reading_failure("priority-class", readings.priority_class),
{
    let ghost read = readings;
    let drift = drift_of(policy, &readings);
    let mut failures: Vec<PolicyFailure> = Vec::new();
    if let Some(Err(error)) = readings.affinity {
        failures.push(PolicyFailure { component: "affinity", error });
    }
    if let Some(Err(error)) = readings.throttling {
        failures.push(PolicyFailure { component: "eco-qos", error });
    }
    if let Some(Err(error)) = readings.priority_class {
        failures.push(PolicyFailure { component: "priority-class", error });
    }
    assert(failures@ =~= reading_failure("affinity", read.affinity) + reading_failure(
        "eco-qos",
        read.throttling,
    ) + reading_failure("priority-class", read.priority_class));
    PolicyInspection { drift, failures }
}

/// A process whose settings are as `policy` asks for them has not drifted: what was set is found
/// again.
pub proof fn law_set_policy_has_not_drifted(
    policy: ResolvedProcessPolicy,
    readings: PolicyReadings,
)
    requires
        policy.affinity matches Some(mask) ==> readings.affinity == Some(
            Ok::<usize, ServiceError>(mask),
        ),
        policy.eco_qos ==> (readings.throttling matches Some(Ok(state)) && is_throttled(state)),
        policy.priority_class matches Some(class) ==> readings.priority_class == Some(
            Ok::<u32, ServiceError>(class),
        ),
    ensures
        !drifted(policy, readings).any(),
        repairs_of(policy, drifted(policy, readings)).len() == 0,
{
}

} // verus!
