//! What holds of every decision on where processes run, whatever the rules are.

use std::collections::{BTreeMap, HashMap};

use vstd::prelude::*;

use crate::affinity;
use crate::affinity::{AffinityExpression, AffinityPolicy, AffinityTerm};
use crate::cpuset;
use crate::linux_process;
use crate::linux_process::LinuxProcess;
use crate::mask;
use crate::placement;
use crate::placement::{ProcessMigrationPlan, ProcessTarget, ProcessTargetSelection};
use crate::power::PowerProfile;
use crate::process;
use crate::process::{ConfiguredProcessRule, ProcessMode, ProcessRule};
use crate::service::ServiceError;
use crate::text;
use crate::topology::CpuTopology;

verus! {

broadcast use {vstd::laws_cmp::group_laws_cmp, vstd::std_specs::hash::group_hash_axioms};

/// The rule is meant for the process while the profile is on, and for no other profile.
pub open spec fn is_overlay_for(
    rule: ConfiguredProcessRule,
    process: LinuxProcess,
    profile: PowerProfile,
) -> bool {
    linux_process::rule_matches(rule.image_name@, process) && rule.power_profile == Some(profile)
}

/// The rule is meant for the process whatever profile is on.
pub open spec fn is_general_for(rule: ConfiguredProcessRule, process: LinuxProcess) -> bool {
    linux_process::rule_matches(rule.image_name@, process) && rule.power_profile is None
}

/// The rule at `k` is the last one for the process and the profile.
pub open spec fn is_last_overlay(
    rules: Seq<ConfiguredProcessRule>,
    process: LinuxProcess,
    profile: PowerProfile,
    k: int,
) -> bool {
    &&& 0 <= k < rules.len()
    &&& is_overlay_for(rules[k], process, profile)
    &&& forall|j: int|
        k < j < rules.len() ==> !is_overlay_for(#[trigger] rules[j], process, profile)
}

/// The rule at `k` is the first one for the process and every profile.
pub open spec fn is_first_general(
    rules: Seq<ConfiguredProcessRule>,
    process: LinuxProcess,
    k: int,
) -> bool {
    &&& 0 <= k < rules.len()
    &&& is_general_for(rules[k], process)
    &&& forall|j: int| 0 <= j < k ==> !is_general_for(#[trigger] rules[j], process)
}

/// No rule is meant for the process and the profile alone.
pub open spec fn has_no_overlay(
    rules: Seq<ConfiguredProcessRule>,
    process: LinuxProcess,
    profile: PowerProfile,
) -> bool {
    forall|j: int| 0 <= j < rules.len() ==> !is_overlay_for(#[trigger] rules[j], process, profile)
}

/// No rule is meant for the process and every profile.
pub open spec fn has_no_general(rules: Seq<ConfiguredProcessRule>, process: LinuxProcess) -> bool {
    forall|j: int| 0 <= j < rules.len() ==> !is_general_for(#[trigger] rules[j], process)
}

/// The last rule for the active profile is the overlay, and there is none only where no rule is
/// meant for the process and that profile.
pub proof fn law_last_rule_for_the_profile_is_the_overlay(
    rules: Seq<ConfiguredProcessRule>,
    process: LinuxProcess,
    profile: PowerProfile,
)
    ensures
        forall|k: int| #[trigger]
            is_last_overlay(rules, process, profile, k) ==> placement::profile_rule(
                rules,
                process,
                profile,
            ) == Some(rules[k]),
        placement::profile_rule(rules, process, profile) is Some ==> exists|k: int| #[trigger]
            is_last_overlay(rules, process, profile, k),
        placement::profile_rule(rules, process, profile) is None <==> has_no_overlay(
            rules,
            process,
            profile,
        ),
    decreases rules.len(),
{
    if rules.len() > 0 {
        let shorter = rules.drop_last();
        let last = rules.len() - 1;
        law_last_rule_for_the_profile_is_the_overlay(shorter, process, profile);
        if is_overlay_for(rules[last], process, profile) {
            assert(is_last_overlay(rules, process, profile, last));
        } else {
            assert forall|k: int| #[trigger] is_last_overlay(rules, process, profile, k) implies {
                &&& k < last
                &&& is_last_overlay(shorter, process, profile, k)
            } by {
                assert(shorter[k] == rules[k]);
                assert forall|j: int| k < j < shorter.len() implies !is_overlay_for(
                    #[trigger] shorter[j],
                    process,
                    profile,
                ) by {
                    assert(shorter[j] == rules[j]);
                }
            }
            if placement::profile_rule(shorter, process, profile) is Some {
                let k = choose|k: int| #[trigger] is_last_overlay(shorter, process, profile, k);
                assert(shorter[k] == rules[k]);
                assert forall|j: int| k < j < rules.len() implies !is_overlay_for(
                    #[trigger] rules[j],
                    process,
                    profile,
                ) by {
                    if j < last {
                        assert(shorter[j] == rules[j]);
                    }
                }
                assert(is_last_overlay(rules, process, profile, k));
                assert(is_overlay_for(rules[k], process, profile));
            } else {
                assert forall|j: int| 0 <= j < rules.len() implies !is_overlay_for(
                    #[trigger] rules[j],
                    process,
                    profile,
                ) by {
                    if j < last {
                        assert(shorter[j] == rules[j]);
                    }
                }
            }
        }
    }
}

/// The first rule for every profile is the one that is overlaid, and there is none only where no
/// such rule is meant for the process.
pub proof fn law_first_general_rule_is_the_base(
    rules: Seq<ConfiguredProcessRule>,
    process: LinuxProcess,
)
    ensures
        forall|k: int| #[trigger]
            is_first_general(rules, process, k) ==> placement::default_rule(rules, process)
                == Some(rules[k]),
        placement::default_rule(rules, process) is Some ==> exists|k: int| #[trigger]
            is_first_general(rules, process, k),
        placement::default_rule(rules, process) is None <==> has_no_general(rules, process),
    decreases rules.len(),
{
    if rules.len() > 0 {
        let shorter = rules.drop_last();
        let last = rules.len() - 1;
        law_first_general_rule_is_the_base(shorter, process);
        if placement::default_rule(shorter, process) is Some {
            let k = choose|k: int| #[trigger] is_first_general(shorter, process, k);
            assert(shorter[k] == rules[k]);
            assert forall|j: int| 0 <= j < k implies !is_general_for(
                #[trigger] rules[j],
                process,
            ) by {
                assert(shorter[j] == rules[j]);
            }
            assert(is_first_general(rules, process, k));
            assert(is_general_for(rules[k], process));
            assert forall|other: int| #[trigger]
                is_first_general(rules, process, other) implies other == k by {
                if other < k {
                    assert(!is_general_for(rules[other], process));
                }
                if k < other {
                    assert(!is_general_for(rules[k], process));
                }
            }
        } else {
            assert forall|j: int| 0 <= j < last implies !is_general_for(
                #[trigger] rules[j],
                process,
            ) by {
                assert(shorter[j] == rules[j]);
            }
            if is_general_for(rules[last], process) {
                assert(is_first_general(rules, process, last));
            }
        }
    }
}

/// `selection` places the process where `found` says.
pub open spec fn is_placed_on(
    found: Result<Option<usize>, ServiceError>,
    selection: Result<ProcessTargetSelection, ServiceError>,
) -> bool {
    match found {
        Ok(Some(mask)) => selection matches Ok(
            ProcessTargetSelection::Target(ProcessTarget::Cpuset(cpuset)),
        ) && forall|cpu: int| #[trigger]
            cpuset::names_cpu(cpuset@, cpu) <==> mask::has_cpu(mask, cpu),
        Ok(None) => selection == Ok::<ProcessTargetSelection, ServiceError>(
            ProcessTargetSelection::Target(ProcessTarget::Unconstrained),
        ),
        Err(_) => selection is Err,
    }
}

proof fn lemma_placed_as_told(
    policy: AffinityPolicy,
    topology: CpuTopology,
    found: Result<Option<usize>, ServiceError>,
    rule: ProcessRule,
    rules: Seq<ConfiguredProcessRule>,
    process: LinuxProcess,
    active: PowerProfile,
    target: Result<ProcessTarget, ServiceError>,
)
    requires
        process::policy_mask(Some(policy), topology, found),
        rule.affinity is Some,
        affinity::same_policy(rule.affinity->0, policy),
        placement::rule_resolves(rule, topology, target),
    ensures
        match found {
            Ok(Some(mask)) => target matches Ok(ProcessTarget::Cpuset(cpuset)) && forall|cpu: int|
                #[trigger]
                cpuset::names_cpu(cpuset@, cpu) <==> mask::has_cpu(mask, cpu),
            Ok(None) => target == Ok::<ProcessTarget, ServiceError>(ProcessTarget::Unconstrained),
            Err(_) => target is Err,
        },
{
    match target {
        Ok(ProcessTarget::Cpuset(cpuset)) => {
            let mask = choose|mask: usize| #[trigger]
                placement::places_on(rule, topology, mask, cpuset@);
            assert(placement::places_on(rule, topology, mask, cpuset@));
            cpuset::law_cpuset_text_reads_back(mask);
            assert(process::policy_mask(rule.affinity, topology, Ok(Some(mask))));
            if let Ok(other) = found {
                placement::lemma_policies_resolve_alike(
                    rule.affinity,
                    Some(policy),
                    topology,
                    Some(mask),
                    other,
                );
            }
        },
        _ => {},
    }
}

/// While a profile is on, the last rule that is meant for the process and that profile supplies
/// the affinity, if it names one: a fixed mask as it is, an expression as it resolves.
pub proof fn law_overlay_of_the_active_profile_places_the_process(
    rules: &Vec<ConfiguredProcessRule>,
    process: &LinuxProcess,
    active: PowerProfile,
    topology: &CpuTopology,
    k: int,
    policy: &AffinityPolicy,
    found: Result<Option<usize>, ServiceError>,
    selection: Result<ProcessTargetSelection, ServiceError>,
)
    requires
        is_last_overlay(rules@, *process, active, k),
        rules@[k].affinity == Some(*policy),
        call_ensures(AffinityPolicy::mask, (policy, topology), found),
        call_ensures(
            placement::resolve_process_target,
            (rules, process, active, topology),
            selection,
        ),
    ensures
        is_placed_on(found, selection),
        policy matches AffinityPolicy::Mask(mask) ==> is_placed_on(Ok(Some(*mask)), selection),
{
    law_last_rule_for_the_profile_is_the_overlay(rules@, *process, active);
    lemma_selected(rules@, *process, active, *topology, *policy, found, selection);
}

proof fn lemma_selected(
    rules: Seq<ConfiguredProcessRule>,
    process: LinuxProcess,
    active: PowerProfile,
    topology: CpuTopology,
    policy: AffinityPolicy,
    found: Result<Option<usize>, ServiceError>,
    selection: Result<ProcessTargetSelection, ServiceError>,
)
    requires
        placement::resolves(rules, process, active, topology, selection),
        process::policy_mask(Some(policy), topology, found),
        match placement::profile_rule(rules, process, active) {
            Some(overlay) => overlay.affinity == Some(policy) || overlay.affinity is None && (
            placement::default_rule(rules, process) matches Some(base) && base.affinity == Some(
                policy,
            )),
            None => placement::default_rule(rules, process) matches Some(base) && base.affinity
                == Some(policy),
        },
    ensures
        is_placed_on(found, selection),
        policy matches AffinityPolicy::Mask(mask) ==> found == Ok::<Option<usize>, ServiceError>(
            Some(mask),
        ),
{
    match selection {
        Ok(ProcessTargetSelection::Target(target)) => {
            let rule = choose|rule: ProcessRule| #[trigger]
                placement::family_resolves(rule, rules, process, active, topology, Ok(target));
            lemma_placed_as_told(
                policy,
                topology,
                found,
                rule,
                rules,
                process,
                active,
                Ok(target),
            );
        },
        Ok(ProcessTargetSelection::Inherit) => {},
        Err(error) => {
            let rule = choose|rule: ProcessRule| #[trigger]
                placement::family_resolves(
                    rule,
                    rules,
                    process,
                    active,
                    topology,
                    Err::<ProcessTarget, ServiceError>(error),
                );
            lemma_placed_as_told(
                policy,
                topology,
                found,
                rule,
                rules,
                process,
                active,
                Err(error),
            );
        },
    }
}

/// Where the rule for the active profile names no affinity, or there is none, the first rule for
/// every profile supplies it, if it names one.
pub proof fn law_general_rule_fills_in_the_affinity(
    rules: &Vec<ConfiguredProcessRule>,
    process: &LinuxProcess,
    active: PowerProfile,
    topology: &CpuTopology,
    k: int,
    policy: &AffinityPolicy,
    found: Result<Option<usize>, ServiceError>,
    selection: Result<ProcessTargetSelection, ServiceError>,
)
    requires
        has_no_overlay(rules@, *process, active) || exists|j: int| #[trigger]
            is_last_overlay(rules@, *process, active, j) && rules@[j].affinity is None,
        is_first_general(rules@, *process, k),
        rules@[k].affinity == Some(*policy),
        call_ensures(AffinityPolicy::mask, (policy, topology), found),
        call_ensures(
            placement::resolve_process_target,
            (rules, process, active, topology),
            selection,
        ),
    ensures
        is_placed_on(found, selection),
        policy matches AffinityPolicy::Mask(mask) ==> is_placed_on(Ok(Some(*mask)), selection),
{
    law_last_rule_for_the_profile_is_the_overlay(rules@, *process, active);
    law_first_general_rule_is_the_base(rules@, *process);
    lemma_selected(rules@, *process, active, *topology, *policy, found, selection);
}

/// The terms that a mode stands for: none, `E+LPE`, `P+E+C` and `P+C`.
pub open spec fn mode_terms(mode: ProcessMode) -> Seq<AffinityTerm> {
    match mode {
        ProcessMode::Normal => Seq::empty(),
        ProcessMode::Efficiency => seq![AffinityTerm::Efficiency, AffinityTerm::LowPowerEfficiency],
        ProcessMode::Performance => seq![
            AffinityTerm::Performance,
            AffinityTerm::Efficiency,
            AffinityTerm::Cache,
        ],
        ProcessMode::Realtime => seq![AffinityTerm::Performance, AffinityTerm::Cache],
    }
}

/// Where no rule that applies names an affinity, the mode does: of the rule for the active profile
/// if it names one, of the rule for every profile otherwise. A process of normal mode, and one
/// without a mode, is not constrained.
pub proof fn law_mode_places_the_process(
    rules: &Vec<ConfiguredProcessRule>,
    process: &LinuxProcess,
    active: PowerProfile,
    topology: &CpuTopology,
    overlay: Option<int>,
    base: Option<int>,
    mode: ProcessMode,
    expression: &AffinityExpression,
    found: Result<Option<usize>, ServiceError>,
    selection: Result<ProcessTargetSelection, ServiceError>,
)
    requires
        match overlay {
            Some(k) => is_last_overlay(rules@, *process, active, k) && rules@[k].affinity is None,
            None => has_no_overlay(rules@, *process, active),
        },
        match base {
            Some(k) => is_first_general(rules@, *process, k) && rules@[k].affinity is None,
            None => has_no_general(rules@, *process),
        },
        overlay is Some || base is Some,
        mode == if overlay is Some && rules@[overlay->0].mode is Some {
            rules@[overlay->0].mode->0
        } else if base is Some && rules@[base->0].mode is Some {
            rules@[base->0].mode->0
        } else {
            ProcessMode::Normal
        },
        expression.terms@ == mode_terms(mode),
        call_ensures(AffinityExpression::mask, (expression, topology), found),
        call_ensures(
            placement::resolve_process_target,
            (rules, process, active, topology),
            selection,
        ),
    ensures
        mode == ProcessMode::Normal ==> selection == Ok::<ProcessTargetSelection, ServiceError>(
            ProcessTargetSelection::Target(ProcessTarget::Unconstrained),
        ),
        mode != ProcessMode::Normal ==> is_placed_on(found, selection),
{
    law_last_rule_for_the_profile_is_the_overlay(rules@, *process, active);
    law_first_general_rule_is_the_base(rules@, *process);
    match selection {
        Ok(ProcessTargetSelection::Target(target)) => {
            let rule = choose|rule: ProcessRule| #[trigger]
                placement::family_resolves(rule, rules@, *process, active, *topology, Ok(target));
            if mode != ProcessMode::Normal {
                lemma_default_places(mode, *expression, *topology, found, rule, Ok(target));
            }
        },
        Ok(ProcessTargetSelection::Inherit) => {},
        Err(error) => {
            let rule = choose|rule: ProcessRule| #[trigger]
                placement::family_resolves(
                    rule,
                    rules@,
                    *process,
                    active,
                    *topology,
                    Err::<ProcessTarget, ServiceError>(error),
                );
            if mode != ProcessMode::Normal {
                lemma_default_places(mode, *expression, *topology, found, rule, Err(error));
            }
        },
    }
}

proof fn lemma_default_places(
    mode: ProcessMode,
    expression: AffinityExpression,
    topology: CpuTopology,
    found: Result<Option<usize>, ServiceError>,
    rule: ProcessRule,
    target: Result<ProcessTarget, ServiceError>,
)
    requires
        mode != ProcessMode::Normal,
        expression.terms@ == mode_terms(mode),
        call_ensures(AffinityExpression::mask, (&expression, &topology), found),
        process::is_mode_default(rule.affinity, mode),
        placement::rule_resolves(rule, topology, target),
    ensures
        match found {
            Ok(Some(mask)) => target matches Ok(ProcessTarget::Cpuset(cpuset)) && forall|cpu: int|
                #[trigger]
                cpuset::names_cpu(cpuset@, cpu) <==> mask::has_cpu(mask, cpu),
            Ok(None) => target == Ok::<ProcessTarget, ServiceError>(ProcessTarget::Unconstrained),
            Err(_) => target is Err,
        },
{
    assert(mode.default_terms() =~= mode_terms(mode));
    let wanted = AffinityExpression {
        source: rule.affinity->0->Expression_0.source,
        terms: expression.terms,
    };
    match target {
        Ok(ProcessTarget::Cpuset(cpuset)) => {
            let mask = choose|mask: usize| #[trigger]
                placement::places_on(rule, topology, mask, cpuset@);
            assert(placement::places_on(rule, topology, mask, cpuset@));
            cpuset::law_cpuset_text_reads_back(mask);
            assert(process::policy_mask(rule.affinity, topology, Ok(Some(mask))));
            if let Ok(other) = found {
                placement::lemma_policies_resolve_alike(
                    rule.affinity,
                    Some(AffinityPolicy::Expression(wanted)),
                    topology,
                    Some(mask),
                    other,
                );
            }
        },
        _ => {},
    }
}

/// A process that some rule is meant for, but none now, is left to the operating system. One that
/// no rule is meant for goes with its parent, and no other does.
pub proof fn law_only_unnamed_processes_go_with_their_parent(
    rules: &Vec<ConfiguredProcessRule>,
    process: &LinuxProcess,
    active: PowerProfile,
    topology: &CpuTopology,
    selection: Result<ProcessTargetSelection, ServiceError>,
)
    requires
        call_ensures(
            placement::resolve_process_target,
            (rules, process, active, topology),
            selection,
        ),
    ensures
        selection == Ok::<ProcessTargetSelection, ServiceError>(ProcessTargetSelection::Inherit)
            <==> forall|j: int|
            0 <= j < rules@.len() ==> !linux_process::rule_matches(
                (#[trigger] rules@[j]).image_name@,
                *process,
            ),
        has_no_overlay(rules@, *process, active) && has_no_general(rules@, *process) && (exists|
            j: int,
        |
            0 <= j < rules@.len() && linux_process::rule_matches(
                (#[trigger] rules@[j]).image_name@,
                *process,
            )) ==> selection == Ok::<ProcessTargetSelection, ServiceError>(
            ProcessTargetSelection::Target(ProcessTarget::Unconstrained),
        ),
{
    law_last_rule_for_the_profile_is_the_overlay(rules@, *process, active);
    law_first_general_rule_is_the_base(rules@, *process);
    if placement::profile_rule(rules@, *process, active) is Some {
        let k = choose|k: int| #[trigger] is_last_overlay(rules@, *process, active, k);
        assert(linux_process::rule_matches(rules@[k].image_name@, *process));
    }
    if placement::default_rule(rules@, *process) is Some {
        let k = choose|k: int| #[trigger] is_first_general(rules@, *process, k);
        assert(linux_process::rule_matches(rules@[k].image_name@, *process));
    }
}

/// Rules for other profiles than the active one decide nothing: neither where one of them is
/// added nor where it is taken away.
pub proof fn law_other_profiles_decide_nothing(
    rules: &Vec<ConfiguredProcessRule>,
    fewer: &Vec<ConfiguredProcessRule>,
    process: &LinuxProcess,
    active: PowerProfile,
    topology: &CpuTopology,
    at: int,
    selection: ProcessTargetSelection,
    other: ProcessTargetSelection,
)
    requires
        0 <= at < rules@.len(),
        rules@[at].power_profile matches Some(profile) && profile != active,
        fewer@ == rules@.remove(at),
        exists|j: int|
            0 <= j < fewer@.len() && linux_process::rule_matches(
                (#[trigger] fewer@[j]).image_name@,
                *process,
            ),
        call_ensures(
            placement::resolve_process_target,
            (rules, process, active, topology),
            Ok::<ProcessTargetSelection, ServiceError>(selection),
        ),
        call_ensures(
            placement::resolve_process_target,
            (fewer, process, active, topology),
            Ok::<ProcessTargetSelection, ServiceError>(other),
        ),
    ensures
        selection@ == other@,
{
    lemma_without(rules@, *process, active, at);
    let j = choose|j: int|
        0 <= j < fewer@.len() && linux_process::rule_matches(
            (#[trigger] fewer@[j]).image_name@,
            *process,
        );
    let i = if j < at {
        j
    } else {
        j + 1
    };
    assert(rules@[i] == fewer@[j]);
    assert(placement::has_family(rules@, *process));
    assert(placement::has_family(fewer@, *process));
    if other is Target && !(placement::default_rule(rules@, *process) is None
        && placement::profile_rule(rules@, *process, active) is None) {
        let target = other->Target_0;
        let rule = choose|rule: ProcessRule| #[trigger]
            placement::family_resolves(rule, fewer@, *process, active, *topology, Ok(target));
        assert(placement::family_resolves(rule, rules@, *process, active, *topology, Ok(target)));
    }
    placement::law_resolution_is_unique(rules@, *process, active, *topology, selection, other);
}

proof fn lemma_without(
    rules: Seq<ConfiguredProcessRule>,
    process: LinuxProcess,
    active: PowerProfile,
    at: int,
)
    requires
        0 <= at < rules.len(),
        rules[at].power_profile matches Some(profile) && profile != active,
    ensures
        placement::profile_rule(rules.remove(at), process, active) == placement::profile_rule(
            rules,
            process,
            active,
        ),
        placement::default_rule(rules.remove(at), process) == placement::default_rule(
            rules,
            process,
        ),
    decreases rules.len(),
{
    let fewer = rules.remove(at);
    if at == rules.len() - 1 {
        assert(fewer =~= rules.drop_last());
    } else {
        lemma_without(rules.drop_last(), process, active, at);
        assert(fewer.drop_last() =~= rules.drop_last().remove(at));
        assert(fewer.last() == rules.last());
    }
}

/// A rule with a slash is meant for the processes with exactly that executable.
pub proof fn law_path_names_one_executable(
    rule: &ConfiguredProcessRule,
    process: &LinuxProcess,
    matched: bool,
)
    requires
        rule.image_name@.contains('/'),
        call_ensures(linux_process::linux_rule_matches, (rule, process), matched),
    ensures
        matched <==> process.exe is Some && process.exe->0@ == rule.image_name@,
{
}

/// A rule without a slash is meant for the processes of that name, and for those whose executable
/// has that name in whatever directory. It is meant for no process whose name is another and whose
/// executable has no part of that name.
pub proof fn law_name_matches_in_any_directory(
    rule: &ConfiguredProcessRule,
    process: &LinuxProcess,
    directory: Seq<char>,
    matched: bool,
)
    requires
        !rule.image_name@.contains('/'),
        call_ensures(linux_process::linux_rule_matches, (rule, process), matched),
    ensures
        process.comm@ == rule.image_name@ ==> matched,
        process.exe is Some && process.exe->0@ == directory + seq!['/'] + rule.image_name@
            && rule.image_name@.len() > 0 && rule.image_name@ != "."@ && rule.image_name@ != ".."@
            ==> matched,
        matched && process.comm@ != rule.image_name@ ==> process.exe is Some && text::split(
            process.exe->0@,
            '/',
        ).contains(rule.image_name@),
        process.exe is None && process.comm@ != rule.image_name@ ==> !matched,
{
    let name = rule.image_name@;
    let keep = |piece: Seq<char>| linux_process::is_component(piece);
    if let Some(path) = process.exe {
        let pieces = text::split(path@, '/');
        if path@ == directory + seq!['/'] + name && name.len() > 0 && name != "."@ && name != ".."@ {
            text::lemma_split_append(directory, '/', name);
            let earlier = text::split(directory, '/');
            assert(pieces =~= earlier.push(name));
            reveal(Seq::filter);
            assert(earlier.push(name).drop_last() =~= earlier);
            assert(pieces.filter(keep) =~= earlier.filter(keep).push(name));
            assert(linux_process::file_name(path@) == Some(name));
        }
        if matched && process.comm@ != name {
            broadcast use vstd::seq_lib::group_filter_ensures;

            let found = pieces.filter(keep);
            assert(found.contains(found.last()));
            pieces.lemma_filter_contains_rev(keep, name);
        }
    }
}

/// A process that the rules have a target for is planned with it, whatever its parent is planned
/// with. Any other is planned with the target of the planned process whose child it is, or with
/// the target that was handed in where it is the first.
pub proof fn law_plan_follows_the_rules_and_the_parents(
    root_pid: u32,
    processes: &BTreeMap<u32, LinuxProcess>,
    children: &HashMap<u32, Vec<u32>>,
    rules: &Vec<ConfiguredProcessRule>,
    active: PowerProfile,
    topology: &CpuTopology,
    inherited: ProcessTarget,
    plan: Vec<ProcessMigrationPlan>,
    i: int,
    process: &LinuxProcess,
    selection: ProcessTargetSelection,
)
    requires
        call_ensures(
            placement::plan_process_subtree_targets,
            (root_pid, processes, children, rules, active, topology, inherited),
            Ok::<Vec<ProcessMigrationPlan>, ServiceError>(plan),
        ),
        0 <= i < plan@.len(),
        processes@.contains_key(plan@[i].pid),
        *process == processes@[plan@[i].pid],
        call_ensures(
            placement::resolve_process_target,
            (rules, process, active, topology),
            Ok::<ProcessTargetSelection, ServiceError>(selection),
        ),
    ensures
        selection matches ProcessTargetSelection::Target(target) ==> plan@[i].target@ == target@,
        selection is Inherit ==> (plan@[i].pid == root_pid && plan@[i].target@ == inherited@) || (
        exists|j: int|
            0 <= j < i && (#[trigger] plan@[j]).target@ == plan@[i].target@
                && children@.contains_key(plan@[j].pid) && children@[plan@[j].pid]@.contains(
                plan@[i].pid,
            )),
        plan@[i].process.pid == process.pid,
        plan@[i].process.comm@ == process.comm@,
        linux_process::same_option(plan@[i].process.exe, process.exe),
        linux_process::same_option(plan@[i].current_cgroup, process.cgroup),
{
    let own = placement::own_targets(rules@, processes@, active, *topology);
    let stack = seq![(root_pid, inherited@)];
    let all = placement::walk(stack, Set::empty(), children@, own);
    assert(own.dom() =~= processes@.dom());
    assert(placement::placed(plan@)[i] == (plan@[i].pid, plan@[i].target@));
    placement::law_own_target_wins(stack, Set::empty(), children@, own, i);
    let chosen = choose|selection: ProcessTargetSelection| #[trigger]
        placement::resolves(rules@, *process, active, *topology, Ok(selection));
    placement::law_resolution_is_unique(
        rules@,
        *process,
        active,
        *topology,
        selection,
        chosen,
    );
    assert(own[plan@[i].pid] == selection@);
    if selection is Inherit {
        placement::law_others_inherit(stack, Set::empty(), children@, own, i);
        let earlier = all.subrange(0, i);
        if stack.contains(all[i]) {
            assert(all[i] == stack[0]);
        } else {
            let j = choose|j: int|
                0 <= j < earlier.len() && (#[trigger] earlier[j]).1 == all[i].1
                    && placement::child_list(children@, earlier[j].0).contains(all[i].0);
            assert(earlier[j] == placement::placed(plan@)[j]);
            assert(plan@[j].target@ == plan@[i].target@);
        }
    }
}

/// Every process below the first one is planned, once and no more: the first one if it is known,
/// and each known child of a planned process.
pub proof fn law_plan_covers_the_subtree(
    root_pid: u32,
    processes: &BTreeMap<u32, LinuxProcess>,
    children: &HashMap<u32, Vec<u32>>,
    rules: &Vec<ConfiguredProcessRule>,
    active: PowerProfile,
    topology: &CpuTopology,
    inherited: ProcessTarget,
    plan: Vec<ProcessMigrationPlan>,
)
    requires
        call_ensures(
            placement::plan_process_subtree_targets,
            (root_pid, processes, children, rules, active, topology, inherited),
            Ok::<Vec<ProcessMigrationPlan>, ServiceError>(plan),
        ),
    ensures
        processes@.contains_key(root_pid) ==> plan@.len() > 0 && plan@[0].pid == root_pid,
        !processes@.contains_key(root_pid) ==> plan@.len() == 0,
        forall|i: int, j: int|
            0 <= i < j < plan@.len() ==> (#[trigger] plan@[i]).pid != (#[trigger] plan@[j]).pid,
        forall|i: int, child: u32|
            0 <= i < plan@.len() && children@.contains_key(plan@[i].pid) && (
            #[trigger] children@[plan@[i].pid]@.contains(child)) && processes@.contains_key(child)
                ==> exists|j: int| 0 <= j < plan@.len() && (#[trigger] plan@[j]).pid == child,
{
    let own = placement::own_targets(rules@, processes@, active, *topology);
    let stack = seq![(root_pid, inherited@)];
    let all = placement::walk(stack, Set::empty(), children@, own);
    assert(own.dom() =~= processes@.dom());
    assert(placement::placed(plan@) == all);
    placement::law_planned_once(stack, Set::empty(), children@, own);
    placement::law_descendants_are_planned(stack, Set::empty(), children@, own);
    assert(stack.drop_last() =~= Seq::empty());
    if processes@.contains_key(root_pid) {
        assert(all[0].0 == root_pid);
        assert(placement::placed(plan@)[0].0 == plan@[0].pid);
    } else {
        assert(placement::walk(Seq::empty(), Set::empty(), children@, own) =~= Seq::empty());
    }
    assert forall|i: int, j: int| 0 <= i < j < plan@.len() implies (#[trigger] plan@[i]).pid != (
    #[trigger] plan@[j]).pid by {
        assert(all[i].0 == plan@[i].pid && all[j].0 == plan@[j].pid);
    }
    assert forall|i: int, child: u32|
        0 <= i < plan@.len() && children@.contains_key(plan@[i].pid) && (
        #[trigger] children@[plan@[i].pid]@.contains(child)) && processes@.contains_key(
            child,
        ) implies exists|j: int| 0 <= j < plan@.len() && (#[trigger] plan@[j]).pid == child by {
        assert(all[i].0 == plan@[i].pid);
        assert(placement::is_planned(all, plan@[i].pid));
        assert(placement::is_planned(all, child));
        let j = choose|j: int| 0 <= j < all.len() && (#[trigger] all[j]).0 == child;
        assert(plan@[j].pid == child);
    }
}

/// A process is listed as a child exactly where a known process names its parent.
pub proof fn law_children_are_those_that_name_the_parent(
    processes: &BTreeMap<u32, LinuxProcess>,
    children: HashMap<u32, Vec<u32>>,
    parent: u32,
    child: u32,
)
    requires
        call_ensures(placement::build_children_map, (processes,), children),
    ensures
        children@.contains_key(parent) && children@[parent]@.contains(child) <==> exists|key: u32|
            #[trigger] processes@.contains_key(key) && processes@[key].ppid == parent
                && processes@[key].pid == child,
{
    let keys = choose|keys: Seq<u32>| #[trigger]
        placement::are_keys(keys, processes@) && placement::lists_children(
            children@,
            placement::table(keys, processes@),
        );
    let found = placement::table(keys, processes@);
    let keep = |process: LinuxProcess| process.ppid == parent;
    let kept = found.filter(keep);
    let list = placement::child_list(children@, parent);
    assert(list == placement::children_in(found, parent));
    broadcast use vstd::seq_lib::group_filter_ensures;

    if children@.contains_key(parent) && children@[parent]@.contains(child) {
        let i = choose|i: int| 0 <= i < list.len() && list[i] == child;
        assert(kept.contains(kept[i]));
        found.lemma_filter_contains_rev(keep, kept[i]);
        let j = choose|j: int| 0 <= j < found.len() && found[j] == kept[i];
        assert(keys.to_set().contains(keys[j]));
        assert(processes@.contains_key(keys[j]));
    }
    if exists|key: u32| #[trigger]
        processes@.contains_key(key) && processes@[key].ppid == parent && processes@[key].pid
            == child {
        let key = choose|key: u32| #[trigger]
            processes@.contains_key(key) && processes@[key].ppid == parent && processes@[key].pid
                == child;
        assert(keys.to_set().contains(key));
        let j = choose|j: int| 0 <= j < keys.len() && keys[j] == key;
        assert(found[j] == processes@[key]);
        assert(found.contains(processes@[key]));
        assert(kept.contains(processes@[key]));
        let i = choose|i: int| 0 <= i < kept.len() && kept[i] == processes@[key];
        assert(list[i] == child);
    }
}

/// One rule places a process where its own affinity comes to: on the processors of the mask, nowhere
/// in particular without one, and nowhere at all where the affinity cannot be resolved.
pub proof fn law_rule_places_on_its_own_mask(
    rule: &ProcessRule,
    topology: &CpuTopology,
    policy: &AffinityPolicy,
    found: Result<Option<usize>, ServiceError>,
    target: Result<ProcessTarget, ServiceError>,
)
    requires
        call_ensures(placement::resolve_process_rule_target, (rule, topology), target),
        call_ensures(AffinityPolicy::mask, (policy, topology), found),
    ensures
        rule.affinity is None ==> target == Ok::<ProcessTarget, ServiceError>(
            ProcessTarget::Unconstrained,
        ),
        rule.affinity == Some(*policy) ==> match found {
            Ok(Some(mask)) => target matches Ok(ProcessTarget::Cpuset(cpuset)) && forall|cpu: int|
                #[trigger]
                cpuset::names_cpu(cpuset@, cpu) <==> mask::has_cpu(mask, cpu),
            Ok(None) => target == Ok::<ProcessTarget, ServiceError>(ProcessTarget::Unconstrained),
            Err(_) => target is Err,
        },
{
    if rule.affinity is None {
        if let Ok(ProcessTarget::Cpuset(cpuset)) = target {
            let mask = choose|mask: usize| #[trigger]
                placement::places_on(*rule, *topology, mask, cpuset@);
            assert(placement::places_on(*rule, *topology, mask, cpuset@));
        }
    } else if rule.affinity == Some(*policy) {
        match target {
            Ok(ProcessTarget::Cpuset(cpuset)) => {
                let mask = choose|mask: usize| #[trigger]
                    placement::places_on(*rule, *topology, mask, cpuset@);
                assert(placement::places_on(*rule, *topology, mask, cpuset@));
                cpuset::law_cpuset_text_reads_back(mask);
                if let Ok(other) = found {
                    placement::lemma_policies_resolve_alike(
                        rule.affinity,
                        Some(*policy),
                        *topology,
                        Some(mask),
                        other,
                    );
                }
            },
            _ => {},
        }
    }
}

proof fn lemma_resolved_is_not_refused(
    rules: Seq<ConfiguredProcessRule>,
    process: LinuxProcess,
    active: PowerProfile,
    topology: CpuTopology,
    selection: ProcessTargetSelection,
    error: ServiceError,
)
    requires
        placement::resolves(rules, process, active, topology, Ok(selection)),
    ensures
        !placement::resolves(rules, process, active, topology, Err(error)),
{
    if placement::resolves(rules, process, active, topology, Err(error)) {
        let target = selection->Target_0;
        let good = choose|rule: ProcessRule| #[trigger]
            placement::family_resolves(rule, rules, process, active, topology, Ok(target));
        let bad = choose|rule: ProcessRule| #[trigger]
            placement::family_resolves(rule, rules, process, active, topology, Err(error));
        if let ProcessTarget::Cpuset(cpuset) = target {
            let mask = choose|mask: usize| #[trigger]
                placement::places_on(good, topology, mask, cpuset@);
            assert(placement::places_on(good, topology, mask, cpuset@));
            assert(process::policy_mask(good.affinity, topology, Ok(Some(mask))));
        }
        assert(process::policy_mask(bad.affinity, topology, Err(error)));
    }
}

/// There is a plan exactly where the rules can be resolved for every process that it would hold: it
/// holds none for which they cannot, and where they can for all processes there is one.
pub proof fn law_plan_needs_resolvable_rules(
    root_pid: u32,
    processes: &BTreeMap<u32, LinuxProcess>,
    children: &HashMap<u32, Vec<u32>>,
    rules: &Vec<ConfiguredProcessRule>,
    active: PowerProfile,
    topology: &CpuTopology,
    inherited: ProcessTarget,
    plan: Result<Vec<ProcessMigrationPlan>, ServiceError>,
    i: int,
    selection: Result<ProcessTargetSelection, ServiceError>,
)
    requires
        call_ensures(
            placement::plan_process_subtree_targets,
            (root_pid, processes, children, rules, active, topology, inherited),
            plan,
        ),
        plan is Ok ==> 0 <= i < plan->Ok_0@.len() && processes@.contains_key(plan->Ok_0@[i].pid)
            && call_ensures(
            placement::resolve_process_target,
            (rules, &processes@[plan->Ok_0@[i].pid], active, topology),
            selection,
        ),
    ensures
        plan is Ok ==> selection is Ok,
        (forall|pid: u32| #[trigger]
            processes@.contains_key(pid) ==> exists|found: ProcessTargetSelection|
                #![trigger placement::resolves(rules@, processes@[pid], active, *topology, Ok(found))]
                call_ensures(
                    placement::resolve_process_target,
                    (rules, &processes@[pid], active, topology),
                    Ok::<ProcessTargetSelection, ServiceError>(found),
                )) ==> plan is Ok,
{
    let own = placement::own_targets(rules@, processes@, active, *topology);
    let stack = seq![(root_pid, inherited@)];
    let all = placement::walk(stack, Set::empty(), children@, own);
    assert(own.dom() =~= processes@.dom());
    match plan {
        Ok(plan) => {
            let process = processes@[plan@[i].pid];
            assert(all[i].0 == plan@[i].pid) by {
                assert(placement::placed(plan@)[i] == (plan@[i].pid, plan@[i].target@));
            }
            assert(placement::is_resolvable(rules@, process, active, *topology));
            if let Err(error) = selection {
                let found = choose|found: ProcessTargetSelection| #[trigger]
                    placement::resolves(rules@, process, active, *topology, Ok(found));
                lemma_resolved_is_not_refused(rules@, process, active, *topology, found, error);
            }
        },
        Err(error) => {
            let k = choose|k: int| #[trigger]
                placement::is_first_failure(
                    all,
                    k,
                    rules@,
                    processes@,
                    active,
                    *topology,
                    error,
                );
            placement::law_own_target_wins(stack, Set::empty(), children@, own, k);
            let pid = all[k].0;
            assert(processes@.contains_key(pid));
            if forall|pid: u32| #[trigger]
                processes@.contains_key(pid) ==> exists|found: ProcessTargetSelection|
                    #![trigger placement::resolves(rules@, processes@[pid], active, *topology, Ok(found))]
                    call_ensures(
                        placement::resolve_process_target,
                        (rules, &processes@[pid], active, topology),
                        Ok::<ProcessTargetSelection, ServiceError>(found),
                    ) {
                let found = choose|found: ProcessTargetSelection|
                    #![trigger placement::resolves(rules@, processes@[pid], active, *topology, Ok(found))]
                    call_ensures(
                        placement::resolve_process_target,
                        (rules, &processes@[pid], active, topology),
                        Ok::<ProcessTargetSelection, ServiceError>(found),
                    );
                lemma_resolved_is_not_refused(
                    rules@,
                    processes@[pid],
                    active,
                    *topology,
                    found,
                    error,
                );
            }
        },
    }
}

/// A process with its subtree starts from its own target: from none where no rule names it, and
/// where a rule does, from what the rules say.
pub proof fn law_subtree_starts_from_its_own_target(
    rules: &Vec<ConfiguredProcessRule>,
    process: &LinuxProcess,
    active: PowerProfile,
    topology: &CpuTopology,
    selection: ProcessTargetSelection,
    target: Result<Option<ProcessTarget>, ServiceError>,
)
    requires
        call_ensures(
            placement::resolve_process_target,
            (rules, process, active, topology),
            Ok::<ProcessTargetSelection, ServiceError>(selection),
        ),
        call_ensures(
            crate::linux_daemon::subtree_target,
            (rules, process, active, topology),
            target,
        ),
    ensures
        target is Ok,
        selection is Inherit <==> target->Ok_0 is None,
        selection matches ProcessTargetSelection::Target(own) ==> target->Ok_0->0@ == own@,
{
    match target {
        Ok(Some(own)) => {
            placement::law_resolution_is_unique(
                rules@,
                *process,
                active,
                *topology,
                selection,
                ProcessTargetSelection::Target(own),
            );
        },
        Ok(None) => {
            placement::law_unnamed_process_is_ignored(
                rules@,
                *process,
                active,
                *topology,
                Ok(selection),
            );
        },
        Err(error) => {
            lemma_resolved_is_not_refused(rules@, *process, active, *topology, selection, error);
        },
    }
}

} // verus!
