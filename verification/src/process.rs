//! Process rules: where a program may run and how it is prioritised.

use vstd::prelude::*;

use crate::affinity;
use crate::affinity::{AffinityExpression, AffinityPolicy, AffinityTerm};
use crate::power::PowerProfile;
use crate::service::ServiceError;
use crate::text;
use crate::topology::CpuTopology;

verus! {

pub const IDLE_PRIORITY_CLASS: u32 = 0x40;

pub const NORMAL_PRIORITY_CLASS: u32 = 0x20;

pub const ABOVE_NORMAL_PRIORITY_CLASS: u32 = 0x8000;

pub const REALTIME_PRIORITY_CLASS: u32 = 0x100;

/// The rights that watching and adjusting a process takes: setting its information, querying
/// its limited information, and waiting for it.
pub const PROCESS_MONITOR_ACCESS: u32 = 0x10_1200;

#[derive(Clone, Copy, Debug, Eq, PartialEq, Structural)]
pub enum ProcessMode {
    Normal,
    Efficiency,
    Performance,
    Realtime,
}

impl Default for ProcessMode {
    fn default() -> (mode: Self)
        ensures
            mode == ProcessMode::Normal,
    {
        ProcessMode::Normal
    }
}

impl ProcessMode {
    pub open spec fn priority(self) -> Option<u32> {
        match self {
            ProcessMode::Normal => None,
            ProcessMode::Efficiency => Some(IDLE_PRIORITY_CLASS),
            ProcessMode::Performance => Some(ABOVE_NORMAL_PRIORITY_CLASS),
            ProcessMode::Realtime => Some(REALTIME_PRIORITY_CLASS),
        }
    }

    /// The priority class that the mode asks for.
    pub fn priority_class(self) -> (class: Option<u32>)
        ensures
            class == self.priority(),
    {
        match self {
            ProcessMode::Normal => None,
            ProcessMode::Efficiency => Some(IDLE_PRIORITY_CLASS),
            ProcessMode::Performance => Some(ABOVE_NORMAL_PRIORITY_CLASS),
            ProcessMode::Realtime => Some(REALTIME_PRIORITY_CLASS),
        }
    }

    /// The mode that a word in a configuration stands for.
    pub open spec fn of_word(word: Seq<char>) -> Option<ProcessMode> {
        if word == "normal"@ || word == "none"@ {
            Some(ProcessMode::Normal)
        } else if word == "efficiency"@ {
            Some(ProcessMode::Efficiency)
        } else if word == "performance"@ {
            Some(ProcessMode::Performance)
        } else if word == "realtime"@ {
            Some(ProcessMode::Realtime)
        } else {
            None
        }
    }

    pub fn from_word(word: &str) -> (mode: Option<Self>)
        ensures
            mode == ProcessMode::of_word(word@),
    {
        if text::same_text(word, "normal") || text::same_text(word, "none") {
            Some(ProcessMode::Normal)
        } else if text::same_text(word, "efficiency") {
            Some(ProcessMode::Efficiency)
        } else if text::same_text(word, "performance") {
            Some(ProcessMode::Performance)
        } else if text::same_text(word, "realtime") {
            Some(ProcessMode::Realtime)
        } else {
            None
        }
    }

    /// The expression that a mode stands for where a rule names no affinity.
    pub open spec fn default_source(self) -> Option<Seq<char>> {
        match self {
            ProcessMode::Normal => None,
            ProcessMode::Efficiency => Some("E+LPE"@),
            ProcessMode::Performance => Some("P+E+C"@),
            ProcessMode::Realtime => Some("P+C"@),
        }
    }

    /// The terms of [`ProcessMode::default_source`].
    pub open spec fn default_terms(self) -> Seq<AffinityTerm> {
        match self {
            ProcessMode::Normal => Seq::empty(),
            ProcessMode::Efficiency => seq![
                AffinityTerm::Efficiency,
                AffinityTerm::LowPowerEfficiency,
            ],
            ProcessMode::Performance => seq![
                AffinityTerm::Performance,
                AffinityTerm::Efficiency,
                AffinityTerm::Cache,
            ],
            ProcessMode::Realtime => seq![AffinityTerm::Performance, AffinityTerm::Cache],
        }
    }
}

/// `policy` is what the mode stands for where a rule names no affinity.
pub open spec fn is_mode_default(policy: Option<AffinityPolicy>, mode: ProcessMode) -> bool {
    match (policy, mode.default_source()) {
        (None, None) => true,
        (Some(AffinityPolicy::Expression(expression)), Some(source)) => expression.source@ == source
            && expression.terms@ == mode.default_terms(),
        _ => false,
    }
}

/// What the mode stands for where a rule names no affinity.
pub fn mode_default_affinity(mode: ProcessMode) -> (policy: Option<AffinityPolicy>)
    ensures
        is_mode_default(policy, mode),
{
    let (source, terms) = match mode {
        ProcessMode::Normal => {
            return None;
        },
        ProcessMode::Efficiency => (
            "E+LPE".to_string(),
            vec![AffinityTerm::Efficiency, AffinityTerm::LowPowerEfficiency],
        ),
        ProcessMode::Performance => (
            "P+E+C".to_string(),
            vec![AffinityTerm::Performance, AffinityTerm::Efficiency, AffinityTerm::Cache],
        ),
        ProcessMode::Realtime => (
            "P+C".to_string(),
            vec![AffinityTerm::Performance, AffinityTerm::Cache],
        ),
    };
    assert(terms@ =~= mode.default_terms());
    Some(AffinityPolicy::Expression(AffinityExpression { source, terms }))
}

/// The rule that applies to a program.
#[derive(Debug, Eq, PartialEq)]
pub struct ProcessRule {
    pub image_name: String,
    pub affinity: Option<AffinityPolicy>,
    pub mode: ProcessMode,
}

/// A rule as it is configured: for every power profile or for one of them, and with fields left
/// open.
#[derive(Debug, Eq, PartialEq)]
pub struct ConfiguredProcessRule {
    pub image_name: String,
    pub affinity: Option<AffinityPolicy>,
    pub mode: Option<ProcessMode>,
    pub power_profile: Option<PowerProfile>,
}

/// The rule that is referred to.
pub open spec fn rule_value(rule: Option<&ConfiguredProcessRule>) -> Option<ConfiguredProcessRule> {
    match rule {
        Some(rule) => Some(*rule),
        None => None,
    }
}

/// What `overlay` and, where that leaves it open, `base` say of the mode.
pub open spec fn merged_mode(
    base: Option<ConfiguredProcessRule>,
    overlay: Option<ConfiguredProcessRule>,
) -> ProcessMode {
    if overlay is Some && overlay->0.mode is Some {
        overlay->0.mode->0
    } else if base is Some && base->0.mode is Some {
        base->0.mode->0
    } else {
        ProcessMode::Normal
    }
}

/// `policy` is what `overlay`, then `base`, then the mode say of the affinity.
pub open spec fn is_merged_affinity(
    policy: Option<AffinityPolicy>,
    base: Option<ConfiguredProcessRule>,
    overlay: Option<ConfiguredProcessRule>,
) -> bool {
    if overlay is Some && overlay->0.affinity is Some {
        policy is Some && affinity::same_policy(policy->0, overlay->0.affinity->0)
    } else if base is Some && base->0.affinity is Some {
        policy is Some && affinity::same_policy(policy->0, base->0.affinity->0)
    } else {
        is_mode_default(policy, merged_mode(base, overlay))
    }
}

/// `rule` is `base` with `overlay` laid over it, field by field.
pub open spec fn is_overlay(
    rule: ProcessRule,
    base: Option<ConfiguredProcessRule>,
    overlay: Option<ConfiguredProcessRule>,
) -> bool {
    &&& rule.image_name@ == if overlay is Some {
        overlay->0.image_name@
    } else {
        base->0.image_name@
    }
    &&& rule.mode == merged_mode(base, overlay)
    &&& is_merged_affinity(rule.affinity, base, overlay)
}

impl ConfiguredProcessRule {
    pub fn is_default_profile(&self) -> (default: bool)
        ensures
            default == self.power_profile is None,
    {
        self.power_profile.is_none()
    }

    /// The rule that results from a rule for every profile and one for the active profile.
    pub fn materialize(
        default_rule: Option<&ConfiguredProcessRule>,
        active_profile_rule: Option<&ConfiguredProcessRule>,
    ) -> (rule: Option<ProcessRule>)
        ensures
            rule is None <==> default_rule is None && active_profile_rule is None,
            rule matches Some(rule) ==> is_overlay(
                rule,
                rule_value(default_rule),
                rule_value(active_profile_rule),
            ),
    {
        let image_name = match active_profile_rule {
            Some(rule) => rule.image_name.clone(),
            None => match default_rule {
                Some(rule) => rule.image_name.clone(),
                None => {
                    return None;
                },
            },
        };
        let mut mode: ProcessMode = ProcessMode::Normal;
        let mut affinity: Option<AffinityPolicy> = None;
        if let Some(rule) = default_rule {
            if let Some(own) = rule.mode {
                mode = own;
            }
            if let Some(own) = &rule.affinity {
                affinity = Some(own.clone());
            }
        }
        if let Some(rule) = active_profile_rule {
            if let Some(own) = rule.mode {
                mode = own;
            }
            if let Some(own) = &rule.affinity {
                affinity = Some(own.clone());
            }
        }
        if affinity.is_none() {
            affinity = mode_default_affinity(mode);
        }
        Some(ProcessRule { image_name, affinity, mode })
    }

    pub fn matches(&self, image_name: &str) -> (matched: bool)
        ensures
            matched == text::same_ignoring_case(self.image_name@, image_name@),
    {
        text::equal_ignoring_case(self.image_name.as_str(), image_name)
    }

    pub fn matches_str(&self, image_name: &str) -> (matched: bool)
        ensures
            matched == text::same_ignoring_case(self.image_name@, image_name@),
    {
        text::equal_ignoring_case(self.image_name.as_str(), image_name)
    }
}

/// A rule for the active profile supplies every field that it defines.
pub proof fn law_overlay_supplies_what_it_defines(
    rule: ProcessRule,
    base: Option<ConfiguredProcessRule>,
    overlay: ConfiguredProcessRule,
)
    requires
        is_overlay(rule, base, Some(overlay)),
    ensures
        overlay.mode matches Some(mode) ==> rule.mode == mode,
        overlay.affinity matches Some(policy) ==> rule.affinity is Some && affinity::same_policy(
            rule.affinity->0,
            policy,
        ),
{
}

/// A field that the rule for the active profile leaves open comes from the rule for every
/// profile.
pub proof fn law_open_fields_fall_back(
    rule: ProcessRule,
    base: ConfiguredProcessRule,
    overlay: ConfiguredProcessRule,
)
    requires
        is_overlay(rule, Some(base), Some(overlay)),
    ensures
        overlay.mode is None && base.mode is Some ==> rule.mode == base.mode->0,
        overlay.affinity is None && base.affinity is Some ==> rule.affinity is Some
            && affinity::same_policy(rule.affinity->0, base.affinity->0),
{
}

/// Where no rule says anything of the affinity, the mode decides: none for a normal process,
/// `E+LPE`, `P+E+C` and `P+C` for the others.
pub proof fn law_mode_supplies_the_affinity(
    rule: ProcessRule,
    base: Option<ConfiguredProcessRule>,
    overlay: Option<ConfiguredProcessRule>,
)
    requires
        is_overlay(rule, base, overlay),
        base matches Some(base) ==> base.affinity is None,
        overlay matches Some(overlay) ==> overlay.affinity is None,
    ensures
        is_mode_default(rule.affinity, rule.mode),
        rule.mode == ProcessMode::Normal <==> rule.affinity is None,
{
}

/// One adjustment of a process.
#[derive(Clone, Copy, Debug, Eq, PartialEq, Structural)]
pub enum PolicyStep {
    SetAffinity(usize),
    EnableEcoQos,
    DisableEcoQos,
    SetPriority(u32),
    AttachPriorityJob(u32),
}

/// The adjustments that a mask and a mode ask for, in their order.
pub open spec fn steps_of(mask: Option<usize>, mode: ProcessMode) -> Seq<PolicyStep> {
    let placed = match mask {
        Some(mask) => seq![PolicyStep::SetAffinity(mask)],
        None => Seq::empty(),
    };
    let throttled = if mode == ProcessMode::Efficiency {
        seq![PolicyStep::EnableEcoQos]
    } else {
        Seq::empty()
    };
    let prioritised = match mode.priority() {
        Some(class) => seq![PolicyStep::SetPriority(class), PolicyStep::AttachPriorityJob(class)],
        None => Seq::empty(),
    };
    placed + throttled + prioritised
}

/// What `policy` says of the mask on the machine `topology`.
pub open spec fn policy_mask(
    policy: Option<AffinityPolicy>,
    topology: CpuTopology,
    found: Result<Option<usize>, ServiceError>,
) -> bool {
    match policy {
        None => found == Ok::<Option<usize>, ServiceError>(None),
        Some(AffinityPolicy::Mask(mask)) => found == Ok::<Option<usize>, ServiceError>(Some(mask)),
        Some(AffinityPolicy::Expression(expression)) => match found {
            Ok(mask) => affinity::resolves_to(expression.terms@, topology.entries@, Ok(mask)),
            Err(error) => error matches ServiceError::Affinity { expression: source, message }
                && source@ == expression.source@ && affinity::resolves_to(
                expression.terms@,
                topology.entries@,
                Err(message),
            ),
        },
    }
}

fn resolve_mask(policy: &Option<AffinityPolicy>, topology: &CpuTopology) -> (found: Result<
    Option<usize>,
    ServiceError,
>)
    ensures
        policy_mask(*policy, *topology, found),
{
    match policy {
        None => Ok(None),
        Some(policy) => policy.mask(topology),
    }
}

impl ProcessRule {
    pub fn matches(&self, image_name: &str) -> (matched: bool)
        ensures
            matched == text::same_ignoring_case(image_name@, self.image_name@),
    {
        text::equal_ignoring_case(image_name, self.image_name.as_str())
    }

    pub fn matches_str(&self, image_name: &str) -> (matched: bool)
        ensures
            matched == text::same_ignoring_case(image_name@, self.image_name@),
    {
        text::equal_ignoring_case(image_name, self.image_name.as_str())
    }

    /// The mask that the rule asks for on the machine `topology`.
    pub fn affinity_mask(&self, topology: &CpuTopology) -> (found: Result<
        Option<usize>,
        ServiceError,
    >)
        ensures
            policy_mask(self.affinity, *topology, found),
    {
        resolve_mask(&self.affinity, topology)
    }

    /// The adjustments that the rule asks for, in their order.
    pub fn apply(&self, topology: &CpuTopology) -> (steps: Result<Vec<PolicyStep>, ServiceError>)
        ensures
            match steps {
                Ok(steps) => exists|mask: Option<usize>| #[trigger]
                    policy_mask(self.affinity, *topology, Ok(mask)) && steps@ == steps_of(
                        mask,
                        self.mode,
                    ),
                Err(error) => policy_mask(self.affinity, *topology, Err(error)),
            },
    {
        let mask = match self.affinity_mask(topology) {
            Ok(mask) => mask,
            Err(error) => {
                return Err(error);
            },
        };
        let mut steps: Vec<PolicyStep> = Vec::new();
        if let Some(mask) = mask {
            steps.push(PolicyStep::SetAffinity(mask));
        }
        if self.mode == ProcessMode::Efficiency {
            steps.push(PolicyStep::EnableEcoQos);
        }
        if let Some(class) = self.mode.priority_class() {
            steps.push(PolicyStep::SetPriority(class));
            steps.push(PolicyStep::AttachPriorityJob(class));
        }
        assert(steps@ =~= steps_of(mask, self.mode));
        assert(policy_mask(self.affinity, *topology, Ok(mask)));
        Ok(steps)
    }

    pub open spec fn affinity_text(&self) -> Seq<char> {
        match self.affinity {
            Some(policy) => policy.log_text(),
            None => "unchanged"@,
        }
    }

    pub fn affinity_log_value(&self) -> (value: String)
        ensures
            value@ == self.affinity_text(),
    {
        match &self.affinity {
            Some(policy) => policy.log_value(),
            None => "unchanged".to_string(),
        }
    }
}

/// The adjustments that take a process back to what the operating system does by itself.
pub fn apply_process_defaulting(system_mask: usize) -> (steps: Result<
    Vec<PolicyStep>,
    ServiceError,
>)
    ensures
        match steps {
            Ok(steps) => system_mask != 0 && steps@ == seq![
                PolicyStep::SetAffinity(system_mask),
                PolicyStep::DisableEcoQos,
                PolicyStep::SetPriority(NORMAL_PRIORITY_CLASS),
            ],
            Err(error) => system_mask == 0 && (error matches ServiceError::Affinity {
                expression,
                message,
            } && expression@ == "system affinity mask"@ && message@
                == "system affinity mask was empty"@),
        },
{
    if system_mask == 0 {
        return Err(
            ServiceError::Affinity {
                expression: "system affinity mask".to_string(),
                message: "system affinity mask was empty".to_string(),
            },
        );
    }
    let steps = vec![
        PolicyStep::SetAffinity(system_mask),
        PolicyStep::DisableEcoQos,
        PolicyStep::SetPriority(NORMAL_PRIORITY_CLASS),
    ];
    assert(steps@ =~= seq![
        PolicyStep::SetAffinity(system_mask),
        PolicyStep::DisableEcoQos,
        PolicyStep::SetPriority(NORMAL_PRIORITY_CLASS),
    ]);
    Ok(steps)
}

/// How the service itself is to run.
#[derive(Debug, Eq, PartialEq)]
pub struct SelfEfficiencyPolicy {
    pub priority_class: u32,
    pub affinity: AffinityExpression,
}

/// The source of one low-power term writes that term.
proof fn lemma_lpe_source()
    ensures
        affinity::is_expression("LPE"@),
        affinity::terms_of("LPE"@) == seq![AffinityTerm::LowPowerEfficiency],
        text::trim("LPE"@) == "LPE"@,
{
    reveal_strlit("LPE");
    reveal_strlit("P");
    reveal_strlit("E");
    let source = "LPE"@;
    assert(source =~= seq!['L', 'P', 'E']);
    assert(text::trim(source) == source);
    assert(text::split(source, '+') =~= seq![source]) by {
        reveal_with_fuel(text::split, 4);
        assert(source.drop_last() =~= seq!['L', 'P']);
        assert(source.drop_last().drop_last() =~= seq!['L']);
        assert(source.drop_last().drop_last().drop_last() =~= Seq::empty());
        assert(Seq::<char>::empty().push('L') =~= seq!['L']);
        assert(seq!['L'].push('P') =~= seq!['L', 'P']);
        assert(seq!['L', 'P'].push('E') =~= source);
        let empty: Seq<Seq<char>> = seq![Seq::empty()];
        assert(empty.update(0, seq!['L']) =~= seq![seq!['L']]);
    }
    assert(text::uppered(source) =~= source);
    assert("P"@.len() == 1 && "E"@.len() == 1);
    assert(affinity::words(source) =~= seq![source]);
    assert(affinity::term_of(source) == Some(AffinityTerm::LowPowerEfficiency));
    assert(affinity::terms_of(source) =~= seq![AffinityTerm::LowPowerEfficiency]);
}

/// How the service itself is to run: idle, on the low-power processors.
pub fn self_efficiency_policy() -> (policy: Result<SelfEfficiencyPolicy, String>)
    ensures
        policy matches Ok(policy) && policy.priority_class == IDLE_PRIORITY_CLASS
            && policy.affinity.source@ == "LPE"@ && policy.affinity.terms@ == seq![
            AffinityTerm::LowPowerEfficiency,
        ],
{
    proof {
        lemma_lpe_source();
        reveal_strlit("LPE");
    }
    match AffinityExpression::parse("LPE".to_string()) {
        Ok(affinity) => Ok(SelfEfficiencyPolicy { priority_class: IDLE_PRIORITY_CLASS, affinity }),
        Err(message) => Err(message),
    }
}

pub fn self_efficiency_affinity_expression() -> (expression: Result<AffinityExpression, String>)
    ensures
        expression matches Ok(expression) && expression.source@ == "LPE"@ && expression.terms@
            == seq![AffinityTerm::LowPowerEfficiency],
{
    match self_efficiency_policy() {
        Ok(policy) => Ok(policy.affinity),
        Err(message) => Err(message),
    }
}

/// The adjustments of the service itself on the machine `topology`, in their order.
pub fn apply_self_efficiency_policy(topology: &CpuTopology) -> (steps: Result<
    Vec<PolicyStep>,
    ServiceError,
>)
    ensures
        match steps {
            Ok(steps) => exists|mask: Option<usize>| #[trigger]
                affinity::resolves_to(
                    seq![AffinityTerm::LowPowerEfficiency],
                    topology.entries@,
                    Ok(mask),
                ) && steps@ == seq![
                    PolicyStep::EnableEcoQos,
                    PolicyStep::SetPriority(IDLE_PRIORITY_CLASS),
                ] + match mask {
                    Some(mask) => seq![PolicyStep::SetAffinity(mask)],
                    None => Seq::empty(),
                },
            Err(error) => error matches ServiceError::Affinity { expression, message }
                && expression@ == "LPE"@ && affinity::resolves_to(
                seq![AffinityTerm::LowPowerEfficiency],
                topology.entries@,
                Err(message),
            ),
        },
{
    let policy = match self_efficiency_policy() {
        Ok(policy) => policy,
        Err(message) => {
            return Err(ServiceError::Affinity { expression: "LPE".to_string(), message });
        },
    };
    let mask = match policy.affinity.mask(topology) {
        Ok(mask) => mask,
        Err(error) => {
            return Err(error);
        },
    };
    let mut steps: Vec<PolicyStep> = Vec::new();
    steps.push(PolicyStep::EnableEcoQos);
    steps.push(PolicyStep::SetPriority(policy.priority_class));
    if let Some(mask) = mask {
        steps.push(PolicyStep::SetAffinity(mask));
    }
    assert(steps@ =~= seq![
        PolicyStep::EnableEcoQos,
        PolicyStep::SetPriority(IDLE_PRIORITY_CLASS),
    ] + match mask {
        Some(mask) => seq![PolicyStep::SetAffinity(mask)],
        None => Seq::empty(),
    });
    assert(affinity::resolves_to(
        seq![AffinityTerm::LowPowerEfficiency],
        topology.entries@,
        Ok(mask),
    ));
    Ok(steps)
}

/// The throttling state that a process is put into: its version, what is controlled, and what
/// is switched on.
#[derive(Clone, Copy, Debug, Eq, PartialEq, Structural)]
pub struct PowerThrottlingState {
    pub version: u32,
    pub control_mask: u32,
    pub state_mask: u32,
}

/// Throttled execution speed.
pub fn eco_qos_process_power_throttling_state() -> (state: PowerThrottlingState)
    ensures
        state.version == 1,
        state.control_mask == 1,
        state.state_mask == 1,
{
    PowerThrottlingState { version: 1, control_mask: 1, state_mask: 1 }
}

/// The limits of a priority job: the priority class, with children free to break away.
pub fn priority_job_limit_flags() -> (flags: u32)
    ensures
        flags == 0x20 + 0x1000,
{
    0x20 + 0x1000
}

/// The name of the image of a process: that of its path, else the hint.
pub fn resolve_image_name(
    process_id: u32,
    file_name: Option<String>,
    image_name_hint: Option<String>,
) -> (name: Result<String, ServiceError>)
    ensures
        match name {
            Ok(name) => if file_name is Some {
                name@ == file_name->0@
            } else {
                image_name_hint is Some && name@ == image_name_hint->0@
            },
            Err(error) => file_name is None && image_name_hint is None && error
                == (ServiceError::InvalidProcessPath { process_id }),
        },
{
    match file_name {
        Some(name) => Ok(name),
        None => match image_name_hint {
            Some(name) => Ok(name),
            None => Err(ServiceError::InvalidProcessPath { process_id }),
        },
    }
}

/// A time of two halves as one number.
pub fn filetime_to_u64(high: u32, low: u32) -> (time: u64)
    ensures
        time == high * 4294967296 + low,
{
    high as u64 * 4294967296 + low as u64
}

} // verus!
