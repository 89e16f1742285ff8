//! What holds of every policy: how it is read, resolved, set, checked and repaired.

use vstd::prelude::*;

use crate::affinity::{AffinityExpression, AffinityPolicy, AffinityTerm};
use crate::classification;
use crate::classification::{
    ProcessClassification, ProcessClassificationEvidence, ProcessClassificationResult,
};
use crate::engine::{PolicyFailure, PolicyInspection, ProcessPolicyDrift, ResolvedProcessPolicy};
use crate::identity::ImageName;
use crate::placement_laws::mode_terms;
use crate::policy;
use crate::policy::PolicyReadings;
use crate::power;
use crate::power::PowerProfile;
use crate::process;
use crate::process::{
    ConfiguredProcessRule, PolicyStep, PowerThrottlingState, ProcessMode, ProcessRule,
};
use crate::registry;
use crate::registry::{PolicyRule, PolicyValues, RegistryError};
use crate::service::ServiceError;
use crate::topology::CpuTopology;

verus! {

proof fn lemma_odd(value: u32)
    ensures
        value & 1 == value % 2,
{
    assert(value & 1 == value % 2) by (bit_vector);
}

/// A part has drifted exactly where the policy asks for it and it was read as something else:
/// another mask, however it compares with the wanted one, another priority class, or throttling
/// that is not both controlled and on.
pub proof fn law_whatever_differs_has_drifted(
    policy: &ResolvedProcessPolicy,
    readings: &PolicyReadings,
    drift: ProcessPolicyDrift,
)
    requires
        call_ensures(policy::drift_of, (policy, readings), drift),
    ensures
        policy.affinity matches Some(mask) ==> (readings.affinity matches Some(Ok(actual)) ==> (
        drift.affinity <==> actual != mask)),
        policy.priority_class matches Some(class) ==> (readings.priority_class matches Some(
            Ok(actual),
        ) ==> (drift.priority_class <==> actual != class)),
        readings.throttling matches Some(Ok(state)) ==> (drift.eco_qos <==> policy.eco_qos && !(
        state.control_mask % 2 == 1 && state.state_mask % 2 == 1)),
        drift.affinity ==> policy.affinity is Some && (readings.affinity matches Some(Ok(_))),
        drift.priority_class ==> policy.priority_class is Some && (
        readings.priority_class matches Some(Ok(_))),
        drift.eco_qos ==> policy.eco_qos && (readings.throttling matches Some(Ok(_))),
{
    if let Some(Ok(state)) = readings.throttling {
        lemma_odd(state.control_mask);
        lemma_odd(state.state_mask);
    }
}

/// Every part that was read as something else than the policy asks for is set again, and no other
/// part is touched: the mask to the wanted one, the priority class and its job to the wanted class,
/// the throttling to on.
pub proof fn law_whatever_differs_is_repaired(
    policy: &ResolvedProcessPolicy,
    readings: &PolicyReadings,
    drift: ProcessPolicyDrift,
    steps: Vec<PolicyStep>,
)
    requires
        call_ensures(policy::drift_of, (policy, readings), drift),
        call_ensures(policy::repair_steps, (policy, drift), steps),
    ensures
        forall|mask: usize|
            #![trigger steps@.contains(PolicyStep::SetAffinity(mask))]
            steps@.contains(PolicyStep::SetAffinity(mask)) <==> policy.affinity == Some(mask) && (
            readings.affinity matches Some(Ok(actual)) && actual != mask),
        forall|class: u32|
            #![trigger steps@.contains(PolicyStep::SetPriority(class))]
            steps@.contains(PolicyStep::SetPriority(class)) <==> policy.priority_class == Some(
                class,
            ) && (readings.priority_class matches Some(Ok(actual)) && actual != class),
        forall|class: u32|
            #![trigger steps@.contains(PolicyStep::AttachPriorityJob(class))]
            steps@.contains(PolicyStep::AttachPriorityJob(class)) <==> steps@.contains(
                PolicyStep::SetPriority(class),
            ),
        steps@.contains(PolicyStep::EnableEcoQos) <==> policy.eco_qos && (
        readings.throttling matches Some(Ok(state)) && !(state.control_mask % 2 == 1
            && state.state_mask % 2 == 1)),
        !steps@.contains(PolicyStep::DisableEcoQos),
{
    law_whatever_differs_has_drifted(policy, readings, drift);
    lemma_repairs(*policy, drift);
}

/// The adjustments among those that set the drifted parts of a policy.
proof fn lemma_repairs(policy: ResolvedProcessPolicy, drift: ProcessPolicyDrift)
    ensures
        forall|step: PolicyStep| #[trigger]
            policy::repairs_of(policy, drift).contains(step) <==> match step {
                PolicyStep::SetAffinity(mask) => policy.affinity == Some(mask) && drift.affinity,
                PolicyStep::EnableEcoQos => policy.eco_qos && drift.eco_qos,
                PolicyStep::DisableEcoQos => false,
                PolicyStep::SetPriority(class) => policy.priority_class == Some(class)
                    && drift.priority_class,
                PolicyStep::AttachPriorityJob(class) => policy.priority_class == Some(class)
                    && drift.priority_class,
            },
{
    let all = policy::repairs_of(policy, drift);
    let placed = match policy.affinity {
        Some(mask) if drift.affinity => seq![PolicyStep::SetAffinity(mask)],
        _ => Seq::empty(),
    };
    let throttled = if policy.eco_qos && drift.eco_qos {
        seq![PolicyStep::EnableEcoQos]
    } else {
        Seq::empty()
    };
    let a = placed.len() as int;
    let b = throttled.len() as int;
    if policy.affinity is Some && drift.affinity {
        assert(all[0] == PolicyStep::SetAffinity(policy.affinity->0));
    }
    if policy.eco_qos && drift.eco_qos {
        assert(all[a] == PolicyStep::EnableEcoQos);
    }
    if policy.priority_class is Some && drift.priority_class {
        assert(all[a + b] == PolicyStep::SetPriority(policy.priority_class->0));
        assert(all[a + b + 1] == PolicyStep::AttachPriorityJob(policy.priority_class->0));
    }
}

/// Setting a policy sets each part that it asks for, and nothing else: the mask first, then the
/// throttling, then the priority class and its job.
pub proof fn law_every_part_is_set_in_order(
    policy: &ResolvedProcessPolicy,
    steps: Vec<PolicyStep>,
)
    requires
        call_ensures(policy::apply_steps, (policy,), steps),
    ensures
        forall|mask: usize|
            #![trigger steps@.contains(PolicyStep::SetAffinity(mask))]
            steps@.contains(PolicyStep::SetAffinity(mask)) <==> policy.affinity == Some(mask),
        steps@.contains(PolicyStep::EnableEcoQos) <==> policy.eco_qos,
        forall|class: u32|
            #![trigger steps@.contains(PolicyStep::SetPriority(class))]
            steps@.contains(PolicyStep::SetPriority(class)) <==> policy.priority_class == Some(
                class,
            ),
        forall|class: u32|
            #![trigger steps@.contains(PolicyStep::AttachPriorityJob(class))]
            steps@.contains(PolicyStep::AttachPriorityJob(class)) <==> policy.priority_class
                == Some(class),
        !steps@.contains(PolicyStep::DisableEcoQos),
        forall|i: int, j: int|
            0 <= i < j < steps@.len() ==> rank(#[trigger] steps@[i]) < rank(#[trigger] steps@[j]),
{
    let drift = ProcessPolicyDrift { affinity: true, eco_qos: true, priority_class: true };
    lemma_repairs(*policy, drift);
}

/// The place of an adjustment among those of one process.
pub open spec fn rank(step: PolicyStep) -> int {
    match step {
        PolicyStep::SetAffinity(_) => 0,
        PolicyStep::EnableEcoQos => 1,
        PolicyStep::DisableEcoQos => 1,
        PolicyStep::SetPriority(_) => 2,
        PolicyStep::AttachPriorityJob(_) => 3,
    }
}

/// An inspection tells of each part that could not be read, by its name, and of no other.
pub proof fn law_unreadable_parts_are_told(
    policy: &ResolvedProcessPolicy,
    readings: PolicyReadings,
    inspection: PolicyInspection,
    drift: ProcessPolicyDrift,
)
    requires
        call_ensures(policy::inspect, (policy, readings), inspection),
        call_ensures(policy::drift_of, (policy, &readings), drift),
    ensures
        inspection.drift == drift,
        forall|failure: PolicyFailure| #[trigger]
            inspection.failures@.contains(failure) <==> {
                ||| failure.component == "affinity" && readings.affinity == Some(
                    Err::<usize, ServiceError>(failure.error),
                )
                ||| failure.component == "eco-qos" && readings.throttling == Some(
                    Err::<PowerThrottlingState, ServiceError>(failure.error),
                )
                ||| failure.component == "priority-class" && readings.priority_class == Some(
                    Err::<u32, ServiceError>(failure.error),
                )
            },
{
    let a = policy::reading_failure("affinity", readings.affinity);
    let b = policy::reading_failure("eco-qos", readings.throttling);
    let c = policy::reading_failure("priority-class", readings.priority_class);
    let all = inspection.failures@;
    assert(all == a + b + c);
    if a.len() > 0 {
        assert(all[0] == a[0]);
    }
    if b.len() > 0 {
        assert(all[a.len() as int] == b[0]);
    }
    if c.len() > 0 {
        assert(all[(a.len() + b.len()) as int] == c[0]);
    }
}

/// What the modes ask for: nothing for normal processes, the idle class and throttling for
/// efficient ones, the class above normal and the realtime class for the others.
pub proof fn law_modes_ask_for_their_settings(
    rule: &PolicyRule,
    machine: Result<CpuTopology, ServiceError>,
    resolved: (ResolvedProcessPolicy, Vec<PolicyFailure>),
)
    requires
        call_ensures(policy::resolve_policy, (rule, machine), resolved),
    ensures
        resolved.0.eco_qos <==> rule.mode == Some(ProcessMode::Efficiency),
        resolved.0.priority_class == match rule.mode {
            Some(ProcessMode::Efficiency) => Some(0x40u32),
            Some(ProcessMode::Performance) => Some(0x8000u32),
            Some(ProcessMode::Realtime) => Some(0x100u32),
            _ => None,
        },
{
}

/// The mask of a rule is the one that its affinity stands for. Where that cannot be told, the rule
/// goes without a mask, and that is told as the only failure.
pub proof fn law_resolved_mask_is_the_rules_mask(
    rule: &PolicyRule,
    topology: CpuTopology,
    policy: &AffinityPolicy,
    found: Result<Option<usize>, ServiceError>,
    resolved: (ResolvedProcessPolicy, Vec<PolicyFailure>),
)
    requires
        rule.affinity == Some(*policy),
        call_ensures(AffinityPolicy::mask, (policy, &topology), found),
        call_ensures(
            policy::resolve_policy,
            (rule, Ok::<CpuTopology, ServiceError>(topology)),
            resolved,
        ),
    ensures
        policy matches AffinityPolicy::Mask(mask) ==> resolved.0.affinity == Some(*mask)
            && resolved.1@.len() == 0,
        found matches Ok(mask) ==> resolved.0.affinity == mask && resolved.1@.len() == 0,
        found is Err ==> resolved.0.affinity is None && resolved.1@.len() == 1
            && resolved.1@[0].component == "affinity",
{
    let other = choose|other: Result<Option<usize>, ServiceError>| #[trigger]
        policy::rule_mask(*rule, Ok(topology), other) && resolved.0 == policy::settings_of(
            *rule,
            other,
        ) && resolved.1@ == policy::mask_failures(other);
    if found is Ok && other is Ok {
        crate::placement::lemma_policies_resolve_alike(
            rule.affinity,
            rule.affinity,
            topology,
            found->Ok_0,
            other->Ok_0,
        );
    }
}

/// A rule without an affinity needs no machine, and a rule with one cannot do without: the reason
/// why the machine could not be read is told.
pub proof fn law_unread_machine_leaves_the_mask_out(
    rule: &PolicyRule,
    error: ServiceError,
    resolved: (ResolvedProcessPolicy, Vec<PolicyFailure>),
)
    requires
        call_ensures(
            policy::resolve_policy,
            (rule, Err::<CpuTopology, ServiceError>(error)),
            resolved,
        ),
    ensures
        resolved.0.affinity is None,
        rule.affinity is None ==> resolved.1@.len() == 0,
        rule.affinity is Some ==> resolved.1@.len() == 1 && resolved.1@[0].component == "affinity"
            && resolved.1@[0].error == error,
{
}

/// A rule for every profile and one for the active profile make one rule: what the latter names
/// stands, what it leaves open comes from the former, and what both leave open is normal mode and
/// the affinity of the mode.
pub proof fn law_overlay_is_laid_over_the_base(
    base: Option<&ConfiguredProcessRule>,
    overlay: Option<&ConfiguredProcessRule>,
    rule: Option<ProcessRule>,
)
    requires
        call_ensures(ConfiguredProcessRule::materialize, (base, overlay), rule),
    ensures
        rule is None <==> base is None && overlay is None,
        rule matches Some(rule) ==> {
            &&& overlay is Some && overlay->0.mode is Some ==> rule.mode == overlay->0.mode->0
            &&& !(overlay is Some && overlay->0.mode is Some) && base is Some
                && base->0.mode is Some ==> rule.mode == base->0.mode->0
            &&& !(overlay is Some && overlay->0.mode is Some) && !(base is Some
                && base->0.mode is Some) ==> rule.mode == ProcessMode::Normal
            &&& overlay is Some && overlay->0.affinity is Some ==> rule.affinity is Some
                && is_same_affinity(rule.affinity->0, overlay->0.affinity->0)
            &&& !(overlay is Some && overlay->0.affinity is Some) && base is Some
                && base->0.affinity is Some ==> rule.affinity is Some && is_same_affinity(
                rule.affinity->0,
                base->0.affinity->0,
            )
            &&& !(overlay is Some && overlay->0.affinity is Some) && !(base is Some
                && base->0.affinity is Some) ==> is_affinity_of_mode(rule.affinity, rule.mode)
            &&& overlay is Some ==> rule.image_name@ == overlay->0.image_name@
            &&& overlay is None ==> rule.image_name@ == base->0.image_name@
        },
{
    if let Some(rule) = rule {
        assert(rule.mode.default_terms() =~= mode_terms(rule.mode));
    }
}

/// Two affinities say the same: the same mask, or the same terms in the same words.
pub open spec fn is_same_affinity(a: AffinityPolicy, b: AffinityPolicy) -> bool {
    match (a, b) {
        (AffinityPolicy::Mask(x), AffinityPolicy::Mask(y)) => x == y,
        (AffinityPolicy::Expression(x), AffinityPolicy::Expression(y)) => x.source@ == y.source@
            && x.terms@ == y.terms@,
        _ => false,
    }
}

/// The affinity that a mode brings along: none for normal processes, the terms of the mode
/// otherwise.
pub open spec fn is_affinity_of_mode(policy: Option<AffinityPolicy>, mode: ProcessMode) -> bool {
    match policy {
        None => mode == ProcessMode::Normal,
        Some(AffinityPolicy::Expression(expression)) => mode != ProcessMode::Normal
            && expression.terms@ == mode_terms(mode),
        Some(AffinityPolicy::Mask(_)) => false,
    }
}

/// A rule adjusts a process to its mask, its throttling and its priority class, in this order, and
/// to nothing else.
pub proof fn law_rule_makes_its_adjustments(
    rule: &ProcessRule,
    topology: &CpuTopology,
    mask: Option<usize>,
    steps: Vec<PolicyStep>,
)
    requires
        call_ensures(
            ProcessRule::affinity_mask,
            (rule, topology),
            Ok::<Option<usize>, ServiceError>(mask),
        ),
        call_ensures(
            ProcessRule::apply,
            (rule, topology),
            Ok::<Vec<PolicyStep>, ServiceError>(steps),
        ),
    ensures
        rule.affinity is None ==> mask is None,
        forall|wanted: usize|
            #![trigger steps@.contains(PolicyStep::SetAffinity(wanted))]
            steps@.contains(PolicyStep::SetAffinity(wanted)) <==> mask == Some(wanted),
        steps@.contains(PolicyStep::EnableEcoQos) <==> rule.mode == ProcessMode::Efficiency,
        !steps@.contains(PolicyStep::DisableEcoQos),
        forall|class: u32|
            #![trigger steps@.contains(PolicyStep::SetPriority(class))]
            steps@.contains(PolicyStep::SetPriority(class)) <==> match rule.mode {
                ProcessMode::Normal => false,
                ProcessMode::Efficiency => class == 0x40,
                ProcessMode::Performance => class == 0x8000,
                ProcessMode::Realtime => class == 0x100,
            },
        forall|class: u32|
            #![trigger steps@.contains(PolicyStep::AttachPriorityJob(class))]
            steps@.contains(PolicyStep::AttachPriorityJob(class)) <==> steps@.contains(
                PolicyStep::SetPriority(class),
            ),
        forall|i: int, j: int|
            0 <= i < j < steps@.len() ==> rank(#[trigger] steps@[i]) < rank(#[trigger] steps@[j]),
{
    let other = choose|other: Option<usize>| #[trigger]
        process::policy_mask(rule.affinity, *topology, Ok(other)) && steps@ == process::steps_of(
            other,
            rule.mode,
        );
    crate::placement::lemma_policies_resolve_alike(
        rule.affinity,
        rule.affinity,
        *topology,
        mask,
        other,
    );
    let settings = ResolvedProcessPolicy {
        affinity: mask,
        eco_qos: rule.mode == ProcessMode::Efficiency,
        priority_class: rule.mode.priority(),
    };
    let drift = ProcessPolicyDrift { affinity: true, eco_qos: true, priority_class: true };
    lemma_repairs(settings, drift);
    assert(steps@ == policy::repairs_of(settings, drift));
}

/// A process that is given back is allowed every processor of the machine, unthrottled and of
/// normal priority, and a machine without processors is refused.
pub proof fn law_defaults_lift_every_limit(
    system_mask: usize,
    steps: Result<Vec<PolicyStep>, ServiceError>,
)
    requires
        call_ensures(process::apply_process_defaulting, (system_mask,), steps),
    ensures
        steps is Err <==> system_mask == 0,
        steps matches Ok(steps) ==> steps@.len() == 3 && steps@[0] == PolicyStep::SetAffinity(
            system_mask,
        ) && steps@[1] == PolicyStep::DisableEcoQos && steps@[2] == PolicyStep::SetPriority(0x20),
{
}

/// The service itself runs idle and throttled, on the processors that the low-power tier stands
/// for.
pub proof fn law_service_runs_on_low_power(
    topology: &CpuTopology,
    expression: &AffinityExpression,
    found: Result<Option<usize>, ServiceError>,
    steps: Result<Vec<PolicyStep>, ServiceError>,
)
    requires
        expression.terms@ == seq![AffinityTerm::LowPowerEfficiency],
        call_ensures(AffinityExpression::mask, (expression, topology), found),
        call_ensures(process::apply_self_efficiency_policy, (topology,), steps),
    ensures
        found is Err <==> steps is Err,
        steps matches Ok(steps) ==> {
            &&& steps@[0] == PolicyStep::EnableEcoQos
            &&& steps@[1] == PolicyStep::SetPriority(0x40)
            &&& found->Ok_0 matches Some(mask) ==> steps@.len() == 3 && steps@[2]
                == PolicyStep::SetAffinity(mask)
            &&& found->Ok_0 is None ==> steps@.len() == 2
        },
{
    if let (Ok(mask), Ok(steps)) = (found, steps) {
        let other = choose|other: Option<usize>| #[trigger]
            crate::affinity::resolves_to(
                seq![AffinityTerm::LowPowerEfficiency],
                topology.entries@,
                Ok(other),
            ) && steps@ == seq![
                PolicyStep::EnableEcoQos,
                PolicyStep::SetPriority(process::IDLE_PRIORITY_CLASS),
            ] + match other {
                Some(mask) => seq![PolicyStep::SetAffinity(mask)],
                None => Seq::empty(),
            };
        let policy = Some(AffinityPolicy::Expression(*expression));
        crate::placement::lemma_policies_resolve_alike(policy, policy, *topology, mask, other);
    }
}

/// A rule of the registry has the mode that its word names, and its affinity is the one that it
/// names or else the one of its mode. An unknown word makes no rule.
pub proof fn law_registry_words_make_the_rule(
    image: &ImageName,
    mode: Option<&str>,
    affinity: Option<&str>,
    rule: Result<PolicyRule, RegistryError>,
)
    requires
        call_ensures(registry::make_rule, (image, mode, affinity), rule),
    ensures
        rule matches Ok(rule) ==> {
            &&& rule.image_name@ == image@
            &&& mode is None <==> rule.mode is None
            &&& mode matches Some(word) ==> {
                &&& rule.mode == Some(ProcessMode::Normal) <==> word@ == "normal"@
                &&& rule.mode == Some(ProcessMode::Efficiency) <==> word@ == "efficiency"@
                &&& rule.mode == Some(ProcessMode::Performance) <==> word@ == "performance"@
                &&& rule.mode == Some(ProcessMode::Realtime) <==> word@ == "realtime"@
            }
            &&& affinity is None && rule.mode is None ==> rule.affinity is None
            &&& affinity is None && rule.mode is Some ==> is_affinity_of_mode(
                rule.affinity,
                rule.mode->0,
            )
            &&& affinity is Some ==> rule.affinity matches Some(AffinityPolicy::Expression(_))
        },
        affinity is None ==> (rule is Ok <==> (mode matches Some(word) ==> word@ == "normal"@
            || word@ == "efficiency"@ || word@ == "performance"@ || word@ == "realtime"@)),
{
    reveal_strlit("normal");
    reveal_strlit("none");
    reveal_strlit("efficiency");
    reveal_strlit("performance");
    reveal_strlit("realtime");
    assert("none"@.len() == 4 && "normal"@.len() == 6 && "efficiency"@.len() == 10
        && "performance"@.len() == 11 && "realtime"@.len() == 8);
    if let Ok(rule) = rule {
        if let Some(mode) = rule.mode {
            assert(mode.default_terms() =~= mode_terms(mode));
        }
    }
}

/// A named affinity is what the text reads as: a rule is made from a known mode and a text that
/// reads, with the terms that it reads as.
pub proof fn law_registry_affinity_is_what_it_reads_as(
    image: &ImageName,
    affinity: &str,
    source: String,
    read: Result<AffinityExpression, String>,
    rule: Result<PolicyRule, RegistryError>,
)
    requires
        source@ == affinity@,
        call_ensures(AffinityExpression::parse, (source,), read),
        call_ensures(registry::make_rule, (image, None::<&str>, Some(affinity)), rule),
    ensures
        read is Ok <==> rule is Ok,
        rule matches Ok(rule) ==> (rule.affinity matches Some(
            AffinityPolicy::Expression(expression),
        ) && expression.terms@ == read->Ok_0.terms@ && expression.source@
            == read->Ok_0.source@),
        rule matches Err(error) ==> error is InvalidValue,
{
    if let Err(message) = read {
        crate::affinity::lemma_refused_is_no_expression(affinity@, message@);
    }
    if let (Ok(_), Err(error)) = (read, rule) {
        let words = error->InvalidValue_0@;
        assert(crate::affinity::is_refused_source(affinity@, words));
        crate::affinity::lemma_refused_is_no_expression(affinity@, words);
    }
}

/// The words of a configuration name their modes, and `none` is another word for `normal`.
pub proof fn law_words_name_modes(word: &str, mode: Option<ProcessMode>)
    requires
        call_ensures(ProcessMode::from_word, (word,), mode),
    ensures
        mode == Some(ProcessMode::Normal) <==> word@ == "normal"@ || word@ == "none"@,
        mode == Some(ProcessMode::Efficiency) <==> word@ == "efficiency"@,
        mode == Some(ProcessMode::Performance) <==> word@ == "performance"@,
        mode == Some(ProcessMode::Realtime) <==> word@ == "realtime"@,
{
    reveal_strlit("normal");
    reveal_strlit("none");
    reveal_strlit("efficiency");
    reveal_strlit("performance");
    reveal_strlit("realtime");
    assert("none"@.len() == 4 && "normal"@.len() == 6 && "efficiency"@.len() == 10
        && "performance"@.len() == 11 && "realtime"@.len() == 8);
}

/// The power modes of Windows and the profiles of the Linux service come to the three profiles:
/// the saving ones to efficiency, the balanced ones to balanced, and the fast ones to performance.
/// Others come to none.
pub proof fn law_power_modes_come_to_profiles(
    mode: i32,
    name: &str,
    of_mode: Option<PowerProfile>,
    of_name: Option<PowerProfile>,
)
    requires
        call_ensures(power::map_mode_to_profile, (mode,), of_mode),
        call_ensures(power::map_service_profile, (name,), of_name),
    ensures
        of_mode == Some(PowerProfile::Efficiency) <==> 0 <= mode <= 1,
        of_mode == Some(PowerProfile::Balanced) <==> mode == 2,
        of_mode == Some(PowerProfile::Performance) <==> 3 <= mode <= 6,
        of_name == Some(PowerProfile::Efficiency) <==> name@ == "power-saver"@,
        of_name == Some(PowerProfile::Balanced) <==> name@ == "balanced"@,
        of_name == Some(PowerProfile::Performance) <==> name@ == "performance"@,
{
    reveal_strlit("power-saver");
    reveal_strlit("balanced");
    reveal_strlit("performance");
    assert("balanced"@.len() == 8 && "performance"@.len() == 11);
    assert("power-saver"@[1] == 'o' && "performance"@[1] == 'e');
}

/// A profile is read back from its number, and has a name of its own.
pub proof fn law_profile_numbers_read_back(
    profile: PowerProfile,
    number: u8,
    back: Option<PowerProfile>,
)
    requires
        call_ensures(PowerProfile::to_u8, (profile,), number),
        call_ensures(PowerProfile::from_u8, (number,), back),
    ensures
        back == Some(profile),
{
}

/// Storing a profile makes it the active one, and tells of a change exactly where it was another.
pub proof fn law_stored_profile_is_loaded(
    active: &mut PowerProfile,
    profile: PowerProfile,
    changed: bool,
    loaded: PowerProfile,
)
    requires
        call_ensures(power::store_active_profile, (active, profile), changed),
        call_ensures(power::load_active_profile, (&*final(active),), loaded),
    ensures
        loaded == profile,
        changed <==> *old(active) != profile,
{
}

/// Critical processes belong to the system whatever they show; of the others those with a window
/// are applications and the rest stay in the background.
pub proof fn law_evidence_tells_the_kind(
    critical: bool,
    visible: bool,
    result: ProcessClassificationResult,
    evidence: ProcessClassificationEvidence,
    kind: ProcessClassification,
)
    requires
        call_ensures(classification::classify_process_ad_hoc, (critical, visible), result),
        call_ensures(classification::classify_from_evidence, (evidence,), kind),
    ensures
        result.classification == ProcessClassification::WindowsProcess <==> critical,
        result.classification == ProcessClassification::App <==> !critical && visible,
        result.classification == ProcessClassification::BackgroundProcess <==> !critical
            && !visible,
        result.evidence.is_critical == critical,
        result.evidence.has_visible_window == visible,
        kind == ProcessClassification::WindowsProcess <==> evidence.is_critical,
        kind == ProcessClassification::App <==> !evidence.is_critical
            && evidence.has_visible_window,
{
}

/// A mode alone asks for its own tiers; an affinity that is named comes before them, and without
/// either there is none.
pub proof fn law_named_affinity_comes_before_the_mode(
    mode: ProcessMode,
    own: Option<AffinityPolicy>,
    named: AffinityPolicy,
    both: Option<AffinityPolicy>,
    open: Option<AffinityPolicy>,
    neither: Option<AffinityPolicy>,
)
    requires
        call_ensures(process::mode_default_affinity, (mode,), own),
        call_ensures(registry::affinity_with_mode_default, (Some(mode), Some(named)), both),
        call_ensures(
            registry::affinity_with_mode_default,
            (Some(mode), None::<AffinityPolicy>),
            open,
        ),
        call_ensures(
            registry::affinity_with_mode_default,
            (None::<ProcessMode>, None::<AffinityPolicy>),
            neither,
        ),
    ensures
        is_affinity_of_mode(own, mode),
        both == Some(named),
        is_affinity_of_mode(open, mode),
        neither is None,
{
}

/// The log shows an affinity as its policy shows it, and says where there is none.
pub proof fn law_affinity_is_logged_as_its_policy(
    rule: &ProcessRule,
    entry: &PolicyRule,
    policy: &AffinityPolicy,
    of_policy: String,
    of_rule: String,
    of_entry: String,
)
    requires
        call_ensures(AffinityPolicy::log_value, (policy,), of_policy),
        call_ensures(ProcessRule::affinity_log_value, (rule,), of_rule),
        call_ensures(PolicyRule::affinity_log_value, (entry,), of_entry),
    ensures
        rule.affinity == Some(*policy) ==> of_rule@ == of_policy@,
        entry.affinity == Some(*policy) ==> of_entry@ == of_policy@,
        rule.affinity is None ==> of_rule@ == "unchanged"@,
        entry.affinity is None ==> of_entry@ == "unchanged"@,
        policy matches AffinityPolicy::Expression(expression) ==> of_policy@ == expression.source@,
{
}

/// The two values of a key make the policy as they make a rule: there is one exactly where the texts
/// make one, with the same mode and the same terms, and what is wrong is told in the same words.
pub proof fn law_values_of_a_key_make_its_policy(
    image: &ImageName,
    values: PolicyValues,
    mode: Option<String>,
    source: Option<String>,
    mode_text: Option<&str>,
    source_text: Option<&str>,
    made: Result<PolicyRule, RegistryError>,
    name: String,
    policy: Result<Option<PolicyRule>, RegistryError>,
)
    requires
        call_ensures(registry::image_subkey, (image,), Ok::<String, RegistryError>(name)),
        call_ensures(
            registry::optional_string,
            (&values.mode, "Mode"),
            Ok::<Option<String>, RegistryError>(mode),
        ),
        call_ensures(
            registry::optional_string,
            (&values.affinity, "Affinity"),
            Ok::<Option<String>, RegistryError>(source),
        ),
        mode is Some <==> mode_text is Some,
        mode is Some ==> mode->0@ == mode_text->0@,
        source is Some <==> source_text is Some,
        source is Some ==> source->0@ == source_text->0@,
        call_ensures(registry::make_rule, (image, mode_text, source_text), made),
        call_ensures(
            registry::get_policy,
            (image, &Ok::<Option<PolicyValues>, String>(Some(values))),
            policy,
        ),
    ensures
        policy is Ok <==> made is Ok,
        made matches Ok(rule) ==> (policy matches Ok(Some(found)) && found.image_name@
            == rule.image_name@ && found.mode == rule.mode && (found.affinity is Some
            <==> rule.affinity is Some) && (rule.affinity is Some ==> is_same_affinity(
            found.affinity->0,
            rule.affinity->0,
        ))),
        policy matches Err(error) ==> error is InvalidValue,
{
    if let Some(source) = source {
        if let Err(RegistryError::InvalidValue(words)) = made {
            lemma_refusal_makes_no_rule(mode_text, source@, words@);
        }
        if let Err(RegistryError::InvalidValue(words)) = policy {
            lemma_refusal_makes_no_rule(mode_text, source@, words@);
        }
    }
}

proof fn lemma_refusal_makes_no_rule(mode: Option<&str>, source: Seq<char>, words: Seq<char>)
    ensures
        registry::is_rule_refusal(registry::text_view(mode), Some(source), words) && !(mode is Some
            && registry::registry_mode(mode->0@) is None) ==> !crate::affinity::is_expression(source),
{
    if registry::is_rule_refusal(registry::text_view(mode), Some(source), words) && !(mode is Some
        && registry::registry_mode(mode->0@) is None) {
        crate::affinity::lemma_refused_is_no_expression(source, words);
    }
}

} // verus!
