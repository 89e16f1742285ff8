//! Where processes are to run: the target of each process, and the plan for a process and its
//! descendants.

use std::collections::{BTreeMap, BTreeSet, HashMap};

use vstd::prelude::*;

use crate::affinity;
use crate::affinity::AffinityPolicy;
use crate::cpuset;
use crate::linux_process;
use crate::linux_process::LinuxProcess;
use crate::mask;
use crate::power::PowerProfile;
use crate::process;
use crate::process::{ConfiguredProcessRule, ProcessRule};
use crate::service::ServiceError;
use crate::topology::CpuTopology;

verus! {

broadcast use {vstd::laws_cmp::group_laws_cmp, vstd::std_specs::hash::group_hash_axioms};

/// Where a process is to run: on a processor set, or wherever the operating system puts it.
#[derive(Debug, Eq, PartialEq)]
pub enum ProcessTarget {
    Cpuset(String),
    Unconstrained,
}

impl View for ProcessTarget {
    type V = Option<Seq<char>>;

    open spec fn view(&self) -> Option<Seq<char>> {
        match self {
            ProcessTarget::Cpuset(cpuset) => Some(cpuset@),
            ProcessTarget::Unconstrained => None,
        }
    }
}

impl Clone for ProcessTarget {
    fn clone(&self) -> (copied: Self)
        ensures
            copied@ == self@,
    {
        match self {
            ProcessTarget::Cpuset(cpuset) => ProcessTarget::Cpuset(cpuset.clone()),
            ProcessTarget::Unconstrained => ProcessTarget::Unconstrained,
        }
    }
}

/// What the rules say of a process: a target, or nothing, so that it goes with its parent.
#[derive(Debug, Eq, PartialEq)]
pub enum ProcessTargetSelection {
    Target(ProcessTarget),
    Inherit,
}

impl View for ProcessTargetSelection {
    type V = Option<Option<Seq<char>>>;

    open spec fn view(&self) -> Option<Option<Seq<char>>> {
        match self {
            ProcessTargetSelection::Target(target) => Some(target@),
            ProcessTargetSelection::Inherit => None,
        }
    }
}

/// The first rule for every profile that is meant for the process.
pub open spec fn default_rule(
    rules: Seq<ConfiguredProcessRule>,
    process: LinuxProcess,
) -> Option<ConfiguredProcessRule>
    decreases rules.len(),
{
    if rules.len() == 0 {
        None
    } else {
        match default_rule(rules.drop_last(), process) {
            Some(earlier) => Some(earlier),
            None => if linux_process::rule_matches(rules.last().image_name@, process)
                && rules.last().power_profile is None {
                Some(rules.last())
            } else {
                None
            },
        }
    }
}

/// The last rule for the profile `active` that is meant for the process.
pub open spec fn profile_rule(
    rules: Seq<ConfiguredProcessRule>,
    process: LinuxProcess,
    active: PowerProfile,
) -> Option<ConfiguredProcessRule>
    decreases rules.len(),
{
    if rules.len() == 0 {
        None
    } else if linux_process::rule_matches(rules.last().image_name@, process)
        && rules.last().power_profile == Some(active) {
        Some(rules.last())
    } else {
        profile_rule(rules.drop_last(), process, active)
    }
}

/// Some rule, for whatever profile, is meant for the process.
pub open spec fn has_family(rules: Seq<ConfiguredProcessRule>, process: LinuxProcess) -> bool {
    exists|i: int|
        0 <= i < rules.len() && linux_process::rule_matches(
            (#[trigger] rules[i]).image_name@,
            process,
        )
}

/// `mask` is what the affinity of the rule resolves to, and `cpuset` writes it.
pub open spec fn places_on(
    rule: ProcessRule,
    topology: CpuTopology,
    mask: usize,
    cpuset: Seq<char>,
) -> bool {
    process::policy_mask(rule.affinity, topology, Ok(Some(mask))) && cpuset == cpuset::cpuset_text(
        mask,
    )
}

/// The affinity of the rule resolves to the mask that `cpuset` writes.
pub open spec fn places_on_some(
    rule: ProcessRule,
    topology: CpuTopology,
    cpuset: Seq<char>,
) -> bool {
    exists|mask: usize| #[trigger] places_on(rule, topology, mask, cpuset)
}

/// What a rule says of the place of a process on the machine `topology`.
pub open spec fn rule_resolves(
    rule: ProcessRule,
    topology: CpuTopology,
    target: Result<ProcessTarget, ServiceError>,
) -> bool {
    match target {
        Ok(ProcessTarget::Unconstrained) => process::policy_mask(
            rule.affinity,
            topology,
            Ok(None),
        ),
        Ok(ProcessTarget::Cpuset(cpuset)) => places_on_some(rule, topology, cpuset@),
        Err(error) => process::policy_mask(rule.affinity, topology, Err(error)),
    }
}

pub fn resolve_process_rule_target(rule: &ProcessRule, topology: &CpuTopology) -> (target: Result<
    ProcessTarget,
    ServiceError,
>)
    ensures
        rule_resolves(*rule, *topology, target),
{
    match rule.affinity_mask(topology) {
        Ok(Some(mask)) => {
            let cpuset = cpuset::cpuset_string(mask);
            assert(places_on(*rule, *topology, mask, cpuset@));
            Ok(ProcessTarget::Cpuset(cpuset))
        },
        Ok(None) => Ok(ProcessTarget::Unconstrained),
        Err(error) => Err(error),
    }
}

/// `rule` is what the rules come to for the process, and `target` is what it says.
pub open spec fn family_resolves(
    rule: ProcessRule,
    rules: Seq<ConfiguredProcessRule>,
    process: LinuxProcess,
    active: PowerProfile,
    topology: CpuTopology,
    target: Result<ProcessTarget, ServiceError>,
) -> bool {
    &&& process::is_overlay(
        rule,
        default_rule(rules, process),
        profile_rule(rules, process, active),
    )
    &&& rule_resolves(rule, topology, target)
}

/// What the rules say of a process while the profile `active` is on. Without any rule for the
/// process it goes with its parent; with rules of which none applies now it is not constrained.
pub open spec fn resolves(
    rules: Seq<ConfiguredProcessRule>,
    process: LinuxProcess,
    active: PowerProfile,
    topology: CpuTopology,
    selection: Result<ProcessTargetSelection, ServiceError>,
) -> bool {
    if default_rule(rules, process) is None && profile_rule(rules, process, active) is None {
        selection matches Ok(selection) && selection@ == if has_family(rules, process) {
            Some(None::<Seq<char>>)
        } else {
            None
        }
    } else {
        match selection {
            Ok(ProcessTargetSelection::Target(target)) => exists|rule: ProcessRule| #[trigger]
                family_resolves(rule, rules, process, active, topology, Ok(target)),
            Ok(ProcessTargetSelection::Inherit) => false,
            Err(error) => exists|rule: ProcessRule| #[trigger]
                family_resolves(rule, rules, process, active, topology, Err(error)),
        }
    }
}

pub fn resolve_process_target(
    rules: &Vec<ConfiguredProcessRule>,
    process: &LinuxProcess,
    active_profile: PowerProfile,
    topology: &CpuTopology,
) -> (selection: Result<ProcessTargetSelection, ServiceError>)
    ensures
        resolves(rules@, *process, active_profile, *topology, selection),
{
    let mut base: Option<&ConfiguredProcessRule> = None;
    let mut overlay: Option<&ConfiguredProcessRule> = None;
    let mut family: bool = false;
    let mut i: usize = 0;
    while i < rules.len()
        invariant
            i <= rules@.len(),
            process::rule_value(base) == default_rule(rules@.subrange(0, i as int), *process),
            process::rule_value(overlay) == profile_rule(
                rules@.subrange(0, i as int),
                *process,
                active_profile,
            ),
            family == has_family(rules@.subrange(0, i as int), *process),
        decreases rules@.len() - i,
    {
        let ghost before = rules@.subrange(0, i as int);
        let ghost longer = rules@.subrange(0, i + 1);
        assert(longer.drop_last() =~= before);
        assert(longer.last() == rules@[i as int]);
        let rule = &rules[i];
        proof {
            if has_family(before, *process) {
                let k = choose|k: int|
                    0 <= k < before.len() && linux_process::rule_matches(
                        (#[trigger] before[k]).image_name@,
                        *process,
                    );
                assert(longer[k] == before[k]);
            }
            assert(has_family(longer, *process) ==> has_family(before, *process)
                || linux_process::rule_matches(rule.image_name@, *process)) by {
                if has_family(longer, *process) {
                    let k = choose|k: int|
                        0 <= k < longer.len() && linux_process::rule_matches(
                            (#[trigger] longer[k]).image_name@,
                            *process,
                        );
                    if k < before.len() {
                        assert(before[k] == longer[k]);
                    }
                }
            }
        }
        if linux_process::linux_rule_matches(rule, process) {
            assert(linux_process::rule_matches(longer[i as int].image_name@, *process));
            family = true;
            if rule.power_profile == Some(active_profile) {
                overlay = Some(rule);
            } else if rule.power_profile.is_none() && base.is_none() {
                base = Some(rule);
            }
        }
        i = i + 1;
    }
    assert(rules@.subrange(0, rules@.len() as int) =~= rules@);
    match ConfiguredProcessRule::materialize(base, overlay) {
        Some(rule) => match resolve_process_rule_target(&rule, topology) {
            Ok(target) => {
                assert(family_resolves(
                    rule,
                    rules@,
                    *process,
                    active_profile,
                    *topology,
                    Ok(target),
                ));
                Ok(ProcessTargetSelection::Target(target))
            },
            Err(error) => {
                assert(family_resolves(
                    rule,
                    rules@,
                    *process,
                    active_profile,
                    *topology,
                    Err(error),
                ));
                Err(error)
            },
        },
        None => if family {
            Ok(ProcessTargetSelection::Target(ProcessTarget::Unconstrained))
        } else {
            Ok(ProcessTargetSelection::Inherit)
        },
    }
}

pub proof fn lemma_policies_resolve_alike(
    a: Option<AffinityPolicy>,
    b: Option<AffinityPolicy>,
    topology: CpuTopology,
    left: Option<usize>,
    right: Option<usize>,
)
    requires
        a is Some <==> b is Some,
        a is Some ==> affinity::same_policy(a->0, b->0),
        process::policy_mask(a, topology, Ok(left)),
        process::policy_mask(b, topology, Ok(right)),
    ensures
        left == right,
{
    if a is Some && a->0 is Expression && left is Some && right is Some {
        let found = left->0;
        let other = right->0;
        assert forall|cpu: int| 0 <= cpu < usize::BITS implies mask::has_cpu(found, cpu)
            == mask::has_cpu(other, cpu) by {}
        mask::lemma_extensional(found, other);
    }
}

/// What the rules say of a process is settled: two resolutions agree.
pub proof fn law_resolution_is_unique(
    rules: Seq<ConfiguredProcessRule>,
    process: LinuxProcess,
    active: PowerProfile,
    topology: CpuTopology,
    a: ProcessTargetSelection,
    b: ProcessTargetSelection,
)
    requires
        resolves(rules, process, active, topology, Ok(a)),
        resolves(rules, process, active, topology, Ok(b)),
    ensures
        a@ == b@,
{
    if default_rule(rules, process) is None && profile_rule(rules, process, active) is None {
    } else {
        let left = a->Target_0;
        let right = b->Target_0;
        let first = choose|rule: ProcessRule| #[trigger]
            family_resolves(rule, rules, process, active, topology, Ok(left));
        let second = choose|rule: ProcessRule| #[trigger]
            family_resolves(rule, rules, process, active, topology, Ok(right));
        let left_mask = match left {
            ProcessTarget::Unconstrained => None,
            ProcessTarget::Cpuset(cpuset) => Some(
                choose|mask: usize| #[trigger] places_on(first, topology, mask, cpuset@),
            ),
        };
        let right_mask = match right {
            ProcessTarget::Unconstrained => None,
            ProcessTarget::Cpuset(cpuset) => Some(
                choose|mask: usize| #[trigger] places_on(second, topology, mask, cpuset@),
            ),
        };
        lemma_policies_resolve_alike(
            first.affinity,
            second.affinity,
            topology,
            left_mask,
            right_mask,
        );
    }
}

proof fn lemma_rules_make_a_family(
    rules: Seq<ConfiguredProcessRule>,
    process: LinuxProcess,
    active: PowerProfile,
)
    ensures
        default_rule(rules, process) is Some ==> has_family(rules, process),
        profile_rule(rules, process, active) is Some ==> has_family(rules, process),
    decreases rules.len(),
{
    if rules.len() > 0 {
        let earlier = rules.drop_last();
        lemma_rules_make_a_family(earlier, process, active);
        if has_family(earlier, process) {
            let i = choose|i: int|
                0 <= i < earlier.len() && linux_process::rule_matches(
                    (#[trigger] earlier[i]).image_name@,
                    process,
                );
            assert(rules[i] == earlier[i]);
        }
        assert(rules[rules.len() - 1] == rules.last());
    }
}

/// A process that no rule names, for whatever profile, is none of the rules' business: it is not
/// even left to the operating system, but goes with its parent.
pub proof fn law_unnamed_process_is_ignored(
    rules: Seq<ConfiguredProcessRule>,
    process: LinuxProcess,
    active: PowerProfile,
    topology: CpuTopology,
    selection: Result<ProcessTargetSelection, ServiceError>,
)
    requires
        !has_family(rules, process),
        resolves(rules, process, active, topology, selection),
    ensures
        selection == Ok::<ProcessTargetSelection, ServiceError>(ProcessTargetSelection::Inherit),
{
    lemma_rules_make_a_family(rules, process, active);
}

/// A process that some rule names, but for which no rule asks for an affinity now, by itself or by
/// its mode, is left to the operating system.
pub proof fn law_named_process_without_affinity_is_unconstrained(
    rules: Seq<ConfiguredProcessRule>,
    process: LinuxProcess,
    active: PowerProfile,
    topology: CpuTopology,
    selection: Result<ProcessTargetSelection, ServiceError>,
)
    requires
        has_family(rules, process),
        default_rule(rules, process) matches Some(base) ==> base.affinity is None,
        profile_rule(rules, process, active) matches Some(overlay) ==> overlay.affinity is None,
        process::merged_mode(default_rule(rules, process), profile_rule(rules, process, active))
            == process::ProcessMode::Normal,
        resolves(rules, process, active, topology, selection),
    ensures
        selection == Ok::<ProcessTargetSelection, ServiceError>(
            ProcessTargetSelection::Target(ProcessTarget::Unconstrained),
        ),
{
}

/// The rules can be resolved for the process.
pub open spec fn is_resolvable(
    rules: Seq<ConfiguredProcessRule>,
    process: LinuxProcess,
    active: PowerProfile,
    topology: CpuTopology,
) -> bool {
    exists|selection: ProcessTargetSelection| #[trigger]
        resolves(rules, process, active, topology, Ok(selection))
}

/// What the rules say of the process, where they can be resolved for it.
pub open spec fn own_target(
    rules: Seq<ConfiguredProcessRule>,
    process: LinuxProcess,
    active: PowerProfile,
    topology: CpuTopology,
) -> Option<Option<Seq<char>>> {
    let selection = choose|selection: ProcessTargetSelection| #[trigger]
        resolves(rules, process, active, topology, Ok(selection));
    selection@
}

/// The children of `parent` among the processes `found`, by their numbers and in that order.
pub open spec fn children_in(found: Seq<LinuxProcess>, parent: u32) -> Seq<u32> {
    found.filter(|process: LinuxProcess| process.ppid == parent).map_values(
        |process: LinuxProcess| process.pid,
    )
}

/// `keys` are the keys of the table in increasing order.
pub open spec fn are_keys(keys: Seq<u32>, processes: Map<u32, LinuxProcess>) -> bool {
    &&& keys.to_set() == processes.dom()
    &&& forall|i: int, j: int| 0 <= i < j < keys.len() ==> keys[i] < keys[j]
}

/// The processes with the given keys, in their order.
pub open spec fn table(keys: Seq<u32>, processes: Map<u32, LinuxProcess>) -> Seq<LinuxProcess> {
    keys.map_values(|key: u32| processes[key])
}

/// The children of a process.
pub open spec fn child_list(children: Map<u32, Vec<u32>>, pid: u32) -> Seq<u32> {
    if children.contains_key(pid) {
        children[pid]@
    } else {
        Seq::empty()
    }
}

/// `children` lists, for each process, its children in the order of the table.
pub open spec fn lists_children(children: Map<u32, Vec<u32>>, found: Seq<LinuxProcess>) -> bool {
    forall|parent: u32| #[trigger] child_list(children, parent) == children_in(found, parent)
}

proof fn lemma_increasing(keys: Seq<u32>)
    requires
        vstd::std_specs::btree::increasing_seq(keys),
    ensures
        forall|i: int, j: int| 0 <= i < j < keys.len() ==> keys[i] < keys[j],
{
    broadcast use vstd::std_specs::btree::group_btree_axioms;
    assert forall|i: int, j: int| 0 <= i < j < keys.len() implies keys[i] < keys[j] by {
        assert(vstd::std_specs::cmp::OrdSpec::cmp_spec(&keys[i], &keys[j]) is Less);
    }
}

pub fn build_children_map(processes: &BTreeMap<u32, LinuxProcess>) -> (children: HashMap<
    u32,
    Vec<u32>,
>)
    ensures
        exists|keys: Seq<u32>| #[trigger]
            are_keys(keys, processes@) && lists_children(children@, table(keys, processes@)),
{
    let mut children: HashMap<u32, Vec<u32>> = HashMap::new();
    let values = processes.values();
    let ghost keys = choose|keys: Seq<u32>|
        {
            &&& #[trigger] vstd::std_specs::btree::increasing_seq(keys)
            &&& keys.to_set() == processes@.dom()
            &&& keys.no_duplicates()
            &&& vstd::std_specs::iter::IteratorSpec::remaining(&values) == keys.map(|i: int, k| &processes@[k])
        };
    let ghost all = table(keys, processes@);
    proof {
        lemma_increasing(keys);
        assert forall|parent: u32| #[trigger]
            child_list(children@, parent) == children_in(all.subrange(0, 0), parent) by {
            reveal(Seq::filter);
            assert(children_in(all.subrange(0, 0), parent) =~= Seq::empty());
        }
    }
    assert(are_keys(keys, processes@));
    for process in it: values
        invariant
            it.seq().len() == all.len(),
            forall|i: int| 0 <= i < all.len() ==> *(#[trigger] it.seq()[i]) == all[i],
            lists_children(children@, all.subrange(0, it.index() as int)),
    {
        let ghost before = all.subrange(0, it.index() as int);
        let ghost longer = all.subrange(0, it.index() as int + 1);
        let ghost earlier = children@;
        assert(longer =~= before.push(*process));
        let mut list = match children.remove(&process.ppid) {
            Some(list) => list,
            None => Vec::new(),
        };
        assert(list@ == child_list(earlier, process.ppid));
        list.push(process.pid);
        children.insert(process.ppid, list);
        assert forall|parent: u32| #[trigger]
            child_list(children@, parent) == children_in(longer, parent) by {
            assert(child_list(earlier, parent) == children_in(before, parent));
            reveal(Seq::filter);
            assert(before.push(*process).drop_last() =~= before);
            assert(children_in(longer, parent) =~= if process.ppid == parent {
                children_in(before, parent).push(process.pid)
            } else {
                children_in(before, parent)
            });
        }
    }
    assert(all.subrange(0, all.len() as int) =~= all);
    children
}

/// What the rules say of each process of the table.
pub open spec fn own_targets(
    rules: Seq<ConfiguredProcessRule>,
    processes: Map<u32, LinuxProcess>,
    active: PowerProfile,
    topology: CpuTopology,
) -> Map<u32, Option<Option<Seq<char>>>> {
    Map::new(
        |pid: u32| processes.contains_key(pid),
        |pid: u32| own_target(rules, processes[pid], active, topology),
    )
}

/// The processes that are reached from those on the stack, each with its target: its own, or the
/// one it inherits from the process that led to it. The last on the stack comes first, then its
/// children, the last one first. No process comes twice, and `visited` ones do not come at all.
pub open spec fn walk(
    stack: Seq<(u32, Option<Seq<char>>)>,
    visited: Set<u32>,
    children: Map<u32, Vec<u32>>,
    own: Map<u32, Option<Option<Seq<char>>>>,
) -> Seq<(u32, Option<Seq<char>>)>
    decreases own.dom().difference(visited).len(), stack.len(),
    when own.dom().finite()
{
    if stack.len() == 0 {
        Seq::empty()
    } else {
        let (pid, inherited) = stack.last();
        let rest = stack.drop_last();
        if visited.contains(pid) || !own.contains_key(pid) {
            walk(rest, visited, children, own)
        } else {
            let target = match own[pid] {
                Some(target) => target,
                None => inherited,
            };
            proof {
                lemma_visit(own.dom(), visited, pid);
            }
            seq![(pid, target)] + walk(
                rest + child_list(children, pid).map_values(|child: u32| (child, target)),
                visited.insert(pid),
                children,
                own,
            )
        }
    }
}

/// One more visit leaves fewer to visit.
pub proof fn lemma_visit(known: Set<u32>, visited: Set<u32>, pid: u32)
    requires
        known.finite(),
        known.contains(pid),
        !visited.contains(pid),
    ensures
        known.difference(visited.insert(pid)).len() < known.difference(visited).len(),
{
    let left = known.difference(visited);
    assert(known.difference(visited.insert(pid)) =~= left.remove(pid));
    vstd::set_lib::lemma_len_subset(left, known);
    assert(left.finite());
}

/// One process of a plan.
#[derive(Debug, Eq, PartialEq)]
pub struct ProcessMigrationPlan {
    pub pid: u32,
    pub current_cgroup: Option<String>,
    pub process: LinuxProcess,
    pub target: ProcessTarget,
}

/// The numbers and targets of a plan.
pub open spec fn placed(plan: Seq<ProcessMigrationPlan>) -> Seq<(u32, Option<Seq<char>>)> {
    plan.map_values(|planned: ProcessMigrationPlan| (planned.pid, planned.target@))
}

pub open spec fn pending(stack: Seq<(u32, ProcessTarget)>) -> Seq<(u32, Option<Seq<char>>)> {
    stack.map_values(|entry: (u32, ProcessTarget)| (entry.0, entry.1@))
}

/// The plan describes each process as the table does.
pub open spec fn describes(
    plan: Seq<ProcessMigrationPlan>,
    processes: Map<u32, LinuxProcess>,
) -> bool {
    forall|i: int|
        0 <= i < plan.len() ==> {
            &&& processes.contains_key((#[trigger] plan[i]).pid)
            &&& linux_process::same_process(plan[i].process, processes[plan[i].pid])
            &&& linux_process::same_option(
                plan[i].current_cgroup,
                processes[plan[i].pid].cgroup,
            )
        }
}

/// The first process of the walk for which the rules cannot be resolved is the one at `k`, and
/// they fail for it with `error`.
pub open spec fn is_first_failure(
    all: Seq<(u32, Option<Seq<char>>)>,
    k: int,
    rules: Seq<ConfiguredProcessRule>,
    processes: Map<u32, LinuxProcess>,
    active: PowerProfile,
    topology: CpuTopology,
    error: ServiceError,
) -> bool {
    &&& 0 <= k < all.len()
    &&& resolves(rules, processes[all[k].0], active, topology, Err(error))
    &&& forall|j: int|
        0 <= j < k ==> is_resolvable(rules, processes[(#[trigger] all[j]).0], active, topology)
}

/// Pushes the children of a process, each to inherit `target`.
fn push_children(stack: &mut Vec<(u32, ProcessTarget)>, list: &Vec<u32>, target: &ProcessTarget)
    ensures
        pending(final(stack)@) == pending(old(stack)@) + list@.map_values(
            |child: u32| (child, target@),
        ),
{
    let ghost start = pending(stack@);
    let mut i: usize = 0;
    assert(pending(stack@) =~= start + list@.subrange(0, 0).map_values(
        |child: u32| (child, target@),
    ));
    while i < list.len()
        invariant
            i <= list@.len(),
            pending(stack@) == start + list@.subrange(0, i as int).map_values(
                |child: u32| (child, target@),
            ),
        decreases list@.len() - i,
    {
        let ghost before = pending(stack@);
        stack.push((list[i], target.clone()));
        assert(pending(stack@) =~= before.push((list@[i as int], target@)));
        assert(list@.subrange(0, i + 1).map_values(|child: u32| (child, target@)) =~= list@.subrange(
            0,
            i as int,
        ).map_values(|child: u32| (child, target@)).push((list@[i as int], target@)));
        i = i + 1;
        assert(pending(stack@) =~= start + list@.subrange(0, i as int).map_values(
            |child: u32| (child, target@),
        ));
    }
    assert(list@.subrange(0, list@.len() as int) =~= list@);
}

/// Plans the targets of a process and its descendants: each has its own target, or else inherits
/// that of the process above it.
pub fn plan_process_subtree_targets(
    root_pid: u32,
    processes: &BTreeMap<u32, LinuxProcess>,
    children: &HashMap<u32, Vec<u32>>,
    rules: &Vec<ConfiguredProcessRule>,
    active_profile: PowerProfile,
    topology: &CpuTopology,
    inherited_target: ProcessTarget,
) -> (plan: Result<Vec<ProcessMigrationPlan>, ServiceError>)
    ensures
        ({
            let all = walk(
                seq![(root_pid, inherited_target@)],
                Set::empty(),
                children@,
                own_targets(rules@, processes@, active_profile, *topology),
            );
            match plan {
                Ok(plan) => {
                    &&& placed(plan@) == all
                    &&& describes(plan@, processes@)
                    &&& forall|j: int|
                        0 <= j < all.len() ==> is_resolvable(
                            rules@,
                            processes@[(#[trigger] all[j]).0],
                            active_profile,
                            *topology,
                        )
                },
                Err(error) => exists|k: int| #[trigger]
                    is_first_failure(
                        all,
                        k,
                        rules@,
                        processes@,
                        active_profile,
                        *topology,
                        error,
                    ),
            }
        }),
{
    let ghost own = own_targets(rules@, processes@, active_profile, *topology);
    let ghost first = seq![(root_pid, inherited_target@)];
    let ghost all = walk(first, Set::empty(), children@, own);
    let mut plan: Vec<ProcessMigrationPlan> = Vec::new();
    let mut stack: Vec<(u32, ProcessTarget)> = Vec::new();
    stack.push((root_pid, inherited_target));
    let mut visited: BTreeSet<u32> = BTreeSet::new();
    proof {
        assert(own.dom() =~= processes@.dom());
        assert(pending(stack@) =~= first);
        assert(placed(plan@) + all =~= all);
    }
    while stack.len() > 0
        invariant
            own == own_targets(rules@, processes@, active_profile, *topology),
            own.dom() == processes@.dom(),
            own.dom().finite(),
            all == placed(plan@) + walk(pending(stack@), visited@, children@, own),
            describes(plan@, processes@),
            forall|j: int|
                0 <= j < plan@.len() ==> is_resolvable(
                    rules@,
                    processes@[(#[trigger] plan@[j]).pid],
                    active_profile,
                    *topology,
                ),
            all == walk(
                seq![(root_pid, inherited_target@)],
                Set::empty(),
                children@,
                own_targets(rules@, processes@, active_profile, *topology),
            ),
        decreases own.dom().difference(visited@).len(), stack@.len(),
    {
        let ghost waiting = pending(stack@);
        let ghost seen = visited@;
        let (pid, inherited) = match stack.pop() {
            Some(entry) => entry,
            None => {
                return Ok(plan);
            },
        };
        assert(pending(stack@) =~= waiting.drop_last());
        assert(waiting.last() == (pid, inherited@));
        if visited.contains(&pid) {
            continue ;
        }
        let process = match processes.get(&pid) {
            Some(process) => process,
            None => {
                continue ;
            },
        };
        visited.insert(pid);
        proof {
            lemma_visit(own.dom(), seen, pid);
        }
        let ghost rest = walk(waiting, seen, children@, own);
        assert(rest.len() > 0 && rest[0].0 == pid);
        let target = match resolve_process_target(rules, process, active_profile, topology) {
            Ok(selection) => {
                proof {
                    assert(is_resolvable(rules@, *process, active_profile, *topology));
                    let chosen = choose|selection: ProcessTargetSelection| #[trigger]
                        resolves(rules@, *process, active_profile, *topology, Ok(selection));
                    law_resolution_is_unique(
                        rules@,
                        *process,
                        active_profile,
                        *topology,
                        selection,
                        chosen,
                    );
                    assert(own[pid] == selection@);
                }
                match selection {
                    ProcessTargetSelection::Target(target) => target,
                    ProcessTargetSelection::Inherit => inherited,
                }
            },
            Err(error) => {
                proof {
                    let k = plan@.len() as int;
                    assert(all[k] == rest[0]);
                    assert forall|j: int| 0 <= j < k implies is_resolvable(
                        rules@,
                        processes@[(#[trigger] all[j]).0],
                        active_profile,
                        *topology,
                    ) by {
                        assert(all[j] == placed(plan@)[j]);
                        assert(plan@[j].pid == all[j].0);
                    }
                    assert(is_first_failure(
                        all,
                        k,
                        rules@,
                        processes@,
                        active_profile,
                        *topology,
                        error,
                    ));
                }
                return Err(error);
            },
        };
        if let Some(list) = children.get(&pid) {
            push_children(&mut stack, list, &target);
        } else {
            assert(pending(stack@) =~= waiting.drop_last() + child_list(children@, pid).map_values(
                |child: u32| (child, target@),
            ));
        }
        let ghost done = placed(plan@);
        let ghost below = walk(pending(stack@), visited@, children@, own);
        assert(rest == seq![(pid, target@)] + below);
        let planned = ProcessMigrationPlan {
            pid,
            current_cgroup: linux_process::copy_option(&process.cgroup),
            process: process.clone(),
            target,
        };
        plan.push(planned);
        assert(placed(plan@) =~= done.push((pid, planned.target@)));
        assert(done + (seq![(pid, planned.target@)] + below) =~= placed(plan@) + below);
    }
    assert(pending(stack@) =~= Seq::empty());
    assert(all =~= placed(plan@));
    assert forall|j: int| 0 <= j < all.len() implies is_resolvable(
        rules@,
        processes@[(#[trigger] all[j]).0],
        active_profile,
        *topology,
    ) by {
        assert(plan@[j].pid == all[j].0);
    }
    Ok(plan)
}

/// The entry of a walk that `entry` inherits from: a waiting one that is the same, or an earlier
/// one whose child it is.
pub open spec fn comes_from(
    entry: (u32, Option<Seq<char>>),
    stack: Seq<(u32, Option<Seq<char>>)>,
    earlier: Seq<(u32, Option<Seq<char>>)>,
    children: Map<u32, Vec<u32>>,
) -> bool {
    ||| stack.contains(entry)
    ||| exists|j: int|
        0 <= j < earlier.len() && (#[trigger] earlier[j]).1 == entry.1 && child_list(
            children,
            earlier[j].0,
        ).contains(entry.0)
}

/// A process with a target of its own is planned with that target, whatever the processes above
/// it are planned with.
pub proof fn law_own_target_wins(
    stack: Seq<(u32, Option<Seq<char>>)>,
    visited: Set<u32>,
    children: Map<u32, Vec<u32>>,
    own: Map<u32, Option<Option<Seq<char>>>>,
    i: int,
)
    requires
        own.dom().finite(),
        0 <= i < walk(stack, visited, children, own).len(),
    ensures
        ({
            let (pid, target) = walk(stack, visited, children, own)[i];
            own.contains_key(pid) && (own[pid] matches Some(wanted) ==> target == wanted)
        }),
    decreases own.dom().difference(visited).len(), stack.len(),
{
    let (pid, inherited) = stack.last();
    let rest = stack.drop_last();
    if visited.contains(pid) || !own.contains_key(pid) {
        law_own_target_wins(rest, visited, children, own, i);
    } else if i > 0 {
        let target = match own[pid] {
            Some(target) => target,
            None => inherited,
        };
        lemma_visit(own.dom(), visited, pid);
        law_own_target_wins(
            rest + child_list(children, pid).map_values(|child: u32| (child, target)),
            visited.insert(pid),
            children,
            own,
            i - 1,
        );
    }
}

/// A process without a target of its own is planned with the target of a process above it, or
/// with the one it was to inherit from the start.
pub proof fn law_others_inherit(
    stack: Seq<(u32, Option<Seq<char>>)>,
    visited: Set<u32>,
    children: Map<u32, Vec<u32>>,
    own: Map<u32, Option<Option<Seq<char>>>>,
    i: int,
)
    requires
        own.dom().finite(),
        0 <= i < walk(stack, visited, children, own).len(),
        own[walk(stack, visited, children, own)[i].0] is None,
    ensures
        comes_from(
            walk(stack, visited, children, own)[i],
            stack,
            walk(stack, visited, children, own).subrange(0, i),
            children,
        ),
    decreases own.dom().difference(visited).len(), stack.len(),
{
    let all = walk(stack, visited, children, own);
    let (pid, inherited) = stack.last();
    let rest = stack.drop_last();
    if visited.contains(pid) || !own.contains_key(pid) {
        law_others_inherit(rest, visited, children, own, i);
        if rest.contains(all[i]) {
            let k = choose|k: int| 0 <= k < rest.len() && rest[k] == all[i];
            assert(stack[k] == all[i]);
        }
    } else {
        let target = match own[pid] {
            Some(target) => target,
            None => inherited,
        };
        let list = child_list(children, pid);
        let added = list.map_values(|child: u32| (child, target));
        let below = walk(rest + added, visited.insert(pid), children, own);
        lemma_visit(own.dom(), visited, pid);
        assert(all == seq![(pid, target)] + below);
        if i == 0 {
            assert(stack[stack.len() - 1] == all[0]);
        } else {
            law_others_inherit(rest + added, visited.insert(pid), children, own, i - 1);
            let entry = all[i];
            assert(entry == below[i - 1]);
            if (rest + added).contains(entry) {
                let k = choose|k: int| 0 <= k < (rest + added).len() && (rest + added)[k] == entry;
                if k < rest.len() {
                    assert(stack[k] == entry);
                } else {
                    assert(added[k - rest.len()] == entry);
                    assert(list[k - rest.len()] == entry.0);
                    assert(all.subrange(0, i)[0] == (pid, target));
                }
            } else {
                let earlier = below.subrange(0, i - 1);
                let j = choose|j: int|
                    0 <= j < earlier.len() && (#[trigger] earlier[j]).1 == entry.1 && child_list(
                        children,
                        earlier[j].0,
                    ).contains(entry.0);
                assert(all.subrange(0, i)[j + 1] == earlier[j]);
            }
        }
    }
}

/// No process is planned twice, and none that was visited before.
pub proof fn law_planned_once(
    stack: Seq<(u32, Option<Seq<char>>)>,
    visited: Set<u32>,
    children: Map<u32, Vec<u32>>,
    own: Map<u32, Option<Option<Seq<char>>>>,
)
    requires
        own.dom().finite(),
    ensures
        forall|i: int|
            0 <= i < walk(stack, visited, children, own).len() ==> !visited.contains(
                (#[trigger] walk(stack, visited, children, own)[i]).0,
            ),
        forall|i: int, j: int|
            0 <= i < j < walk(stack, visited, children, own).len() ==> (#[trigger] walk(
                stack,
                visited,
                children,
                own,
            )[i]).0 != (#[trigger] walk(stack, visited, children, own)[j]).0,
    decreases own.dom().difference(visited).len(), stack.len(),
{
    let all = walk(stack, visited, children, own);
    if stack.len() == 0 {
        assert(all =~= Seq::empty());
    } else {
        let (pid, inherited) = stack.last();
        let rest = stack.drop_last();
        if visited.contains(pid) || !own.contains_key(pid) {
            law_planned_once(rest, visited, children, own);
            assert(all == walk(rest, visited, children, own));
        } else {
            let target = match own[pid] {
                Some(target) => target,
                None => inherited,
            };
            let added = child_list(children, pid).map_values(|child: u32| (child, target));
            let below = walk(rest + added, visited.insert(pid), children, own);
            lemma_visit(own.dom(), visited, pid);
            law_planned_once(rest + added, visited.insert(pid), children, own);
            assert(all == seq![(pid, target)] + below);
            assert forall|i: int| 0 <= i < all.len() implies !visited.contains(
                (#[trigger] all[i]).0,
            ) by {
                if i > 0 {
                    assert(all[i] == below[i - 1]);
                }
            }
            assert forall|i: int, j: int| 0 <= i < j < all.len() implies (#[trigger] all[i]).0 != (
            #[trigger] all[j]).0 by {
                assert(all[j] == below[j - 1]);
                if i > 0 {
                    assert(all[i] == below[i - 1]);
                }
            }
        }
    }
}

/// The process is planned.
pub open spec fn is_planned(all: Seq<(u32, Option<Seq<char>>)>, pid: u32) -> bool {
    exists|i: int| 0 <= i < all.len() && (#[trigger] all[i]).0 == pid
}

/// Everything that waits, and every child of a planned process, is planned, if it is known and
/// was not visited before.
pub proof fn law_descendants_are_planned(
    stack: Seq<(u32, Option<Seq<char>>)>,
    visited: Set<u32>,
    children: Map<u32, Vec<u32>>,
    own: Map<u32, Option<Option<Seq<char>>>>,
)
    requires
        own.dom().finite(),
    ensures
        forall|k: int|
            0 <= k < stack.len() && own.contains_key((#[trigger] stack[k]).0) && !visited.contains(
                stack[k].0,
            ) ==> is_planned(walk(stack, visited, children, own), stack[k].0),
        forall|pid: u32, child: u32|
            #![trigger is_planned(walk(stack, visited, children, own), pid), is_planned(walk(stack, visited, children, own), child)]
            is_planned(walk(stack, visited, children, own), pid) && child_list(
                children,
                pid,
            ).contains(child) && own.contains_key(child) && !visited.contains(child) ==> is_planned(
                walk(stack, visited, children, own),
                child,
            ),
    decreases own.dom().difference(visited).len(), stack.len(),
{
    let all = walk(stack, visited, children, own);
    if stack.len() == 0 {
        assert(all =~= Seq::empty());
    } else {
        let (pid, inherited) = stack.last();
        let rest = stack.drop_last();
        if visited.contains(pid) || !own.contains_key(pid) {
            law_descendants_are_planned(rest, visited, children, own);
            assert(all == walk(rest, visited, children, own));
            assert forall|k: int|
                0 <= k < stack.len() && own.contains_key((#[trigger] stack[k]).0)
                    && !visited.contains(stack[k].0) implies is_planned(all, stack[k].0) by {
                assert(rest[k] == stack[k]);
            }
        } else {
            let target = match own[pid] {
                Some(target) => target,
                None => inherited,
            };
            let list = child_list(children, pid);
            let added = list.map_values(|child: u32| (child, target));
            let next = rest + added;
            let below = walk(next, visited.insert(pid), children, own);
            lemma_visit(own.dom(), visited, pid);
            law_descendants_are_planned(next, visited.insert(pid), children, own);
            assert(all == seq![(pid, target)] + below);
            assert(all[0].0 == pid);
            assert(is_planned(all, pid));
            assert forall|other: u32| is_planned(below, other) implies is_planned(all, other) by {
                let i = choose|i: int| 0 <= i < below.len() && (#[trigger] below[i]).0 == other;
                assert(all[i + 1] == below[i]);
            }
            assert forall|k: int|
                0 <= k < stack.len() && own.contains_key((#[trigger] stack[k]).0)
                    && !visited.contains(stack[k].0) implies is_planned(all, stack[k].0) by {
                if stack[k].0 != pid {
                    assert(next[k] == stack[k]);
                    assert(is_planned(below, next[k].0));
                }
            }
            assert forall|parent: u32, child: u32|
                #![trigger is_planned(all, parent), is_planned(all, child)]
                is_planned(all, parent) && child_list(children, parent).contains(child)
                    && own.contains_key(child) && !visited.contains(child) implies is_planned(
                all,
                child,
            ) by {
                if child != pid {
                    if parent == pid {
                        let k = choose|k: int| 0 <= k < list.len() && list[k] == child;
                        assert(next[rest.len() + k] == (child, target));
                        assert(is_planned(below, child));
                    } else {
                        let i = choose|i: int| 0 <= i < all.len() && (#[trigger] all[i]).0 == parent;
                        assert(below[i - 1] == all[i]);
                        assert(is_planned(below, parent));
                        assert(is_planned(below, child));
                    }
                }
            }
        }
    }
}

} // verus!
