//! What holds of the programs that wait to be classified, and of what is measured of them.

use vstd::prelude::*;

use crate::affinity;
use crate::affinity::AffinityExpression;
use crate::confidence::Confidence;
use crate::defaults;
use crate::defaults::{ObservedProcess, StaticPolicy};
use crate::exclusion::ExclusionList;
use crate::heuristics;
use crate::heuristics::{
    CategoricalProcessMetrics, ClassificationDecisionState, ClassificationSnapshot,
    ClassifierCandidate, ClassifierSubmission, Departure, GoneInstance, HeuristicClassifier,
    HeuristicDecisionOutcome, PreparedOutcome, ProcessInstanceMetricDelta, ProcessInstanceMetrics,
    Sighting, Waiting, WorkerStep,
};
use crate::process::{ProcessMode, ProcessRule};
use crate::storage;
use crate::storage::{
    ApplicationDecisionStore, ApplicationRecord, ImageName, ProcessObservation,
    ProcessPolicyEncoding, StorageError,
    StoredProcessDecision,
};
use crate::text;

verus! {

/// One of the waiting programs has the name.
pub open spec fn waits_under(classifier: HeuristicClassifier, name: Seq<char>) -> bool {
    exists|i: int| 0 <= i < classifier.queue@.len() && (#[trigger] classifier.queue@[i])@.name == name
}

/// A program that is seen is taken in unless the classification has ended, the system depends on
/// the process, its name is excluded, or its policy is known beforehand. A known policy is applied;
/// what is not taken in does not change what waits.
pub proof fn law_unknown_programs_wait<S: ApplicationDecisionStore>(
    classifier: &mut HeuristicClassifier,
    store: &S,
    observed: ObservedProcess,
    critical: bool,
    submission: ClassifierSubmission,
    excluded: bool,
    policy: Option<StaticPolicy>,
)
    requires
        old(classifier).wf(),
        call_ensures(
            HeuristicClassifier::classify::<S>,
            (classifier, store, observed, critical),
            submission,
        ),
        call_ensures(
            ExclusionList::is_excluded_image_name,
            (&old(classifier).exclusions, &observed.image_name),
            excluded,
        ),
        call_ensures(defaults::static_policy, (&observed.image_name,), policy),
    ensures
        submission is Queued <==> !old(classifier).stopped && !critical && !excluded
            && policy is None,
        old(classifier).stopped || critical || excluded ==> submission is Disqualified,
        submission matches ClassifierSubmission::StaticPolicy(rule) ==> policy is Some && rule.mode
            == policy->0.mode && rule.image_name@ == observed.image_name@,
        submission is Queued ==> waits_under(*final(classifier), observed.image_name@),
        !(submission is Queued) ==> final(classifier).queue == old(classifier).queue,
        final(classifier).history == old(classifier).history,
{
    if submission is Queued {
        let before = heuristics::waiting(old(classifier).queue@);
        let after = heuristics::waiting(final(classifier).queue@);
        heuristics::law_sighting_keeps_the_queue(before, observed@);
        heuristics::lemma_position(before, observed@.2);
        let at = heuristics::position(before, observed@.2);
        assert(after[at].name == observed.image_name@);
        assert(after[at] == final(classifier).queue@[at]@);
    }
}

/// A program that is seen waits once, under its name, with the process that was seen. One that
/// waited already keeps its place, when it was first seen and its other processes, and was seen
/// once more; a new one comes last. Every other program waits as before.
pub proof fn law_seen_program_waits_once<S: ApplicationDecisionStore>(
    classifier: &mut HeuristicClassifier,
    store: &S,
    observed: ObservedProcess,
    critical: bool,
    submission: ClassifierSubmission,
    i: int,
    other: Sighting,
)
    requires
        old(classifier).wf(),
        call_ensures(
            HeuristicClassifier::classify::<S>,
            (classifier, store, observed, critical),
            submission,
        ),
        submission is Queued,
        0 <= i < final(classifier).queue@.len(),
    ensures
        ({
            let after = final(classifier).queue@[i]@;
            let known = waits_under(*old(classifier), observed.image_name@);
            &&& final(classifier).queue@.len() == old(classifier).queue@.len() + if known {
                0int
            } else {
                1int
            }
            &&& after.name != observed.image_name@ ==> i < old(classifier).queue@.len() && after
                == old(classifier).queue@[i]@
            &&& after.name == observed.image_name@ ==> {
                &&& after.instances.contains(observed@)
                &&& after.last_seen == observed.observed_unix_seconds
                &&& after.image_path == observed.image_path@
                &&& known ==> i < old(classifier).queue@.len() && old(classifier).queue@[i]@.name == after.name && after.first_seen == old(classifier).queue@[i]@.first_seen && (after.count == old(classifier).queue@[i]@.count + 1
                    || after.count == u64::MAX == old(classifier).queue@[i]@.count)
                &&& known && (other.0 != observed.process_id || other.1
                    != observed.creation_time) ==> (after.instances.contains(other) <==> old(classifier).queue@[i]@.instances.contains(other))
                &&& !known ==> i == old(classifier).queue@.len() && after.first_seen
                    == observed.observed_unix_seconds && after.count == 1 && after.instances
                    == seq![observed@]
            }
            &&& forall|j: int|
                0 <= j < final(classifier).queue@.len() && j != i ==> (#[trigger] final(classifier).queue@[j])@.name != after.name
        }),
{
    let before = heuristics::waiting(old(classifier).queue@);
    let after = heuristics::waiting(final(classifier).queue@);
    let seen = observed@;
    heuristics::law_sighting_keeps_the_queue(before, seen);
    heuristics::lemma_position(before, seen.2);
    let at = heuristics::position(before, seen.2);
    assert forall|j: int| 0 <= j < old(classifier).queue@.len() implies #[trigger] before[j] == old(classifier).queue@[j]@ by {}
    assert forall|j: int| 0 <= j < final(classifier).queue@.len() implies #[trigger] after[j]
        == final(classifier).queue@[j]@ by {}
    assert(waits_under(*old(classifier), seen.2) <==> at < before.len()) by {
        if waits_under(*old(classifier), seen.2) {
            let k = choose|k: int|
                0 <= k < old(classifier).queue@.len() && (#[trigger] old(classifier).queue@[k])@.name == seen.2;
            assert(before[k].name == seen.2);
        }
        if at < before.len() {
            assert(old(classifier).queue@[at]@.name == seen.2);
        }
    }
    assert(heuristics::is_queue(after));
    assert forall|j: int| 0 <= j < final(classifier).queue@.len() && j != i implies (
    #[trigger] final(classifier).queue@[j])@.name != final(classifier).queue@[i]@.name by {
        assert(after[j].name != after[i].name);
    }
    assert(after[at].name == seen.2);
    if after[i].name == seen.2 {
        assert(i == at);
        if at < before.len() {
            assert(heuristics::in_order(before[at].instances));
            heuristics::law_instance_is_kept_once(before[at].instances, seen);
            assert(after[at].instances == heuristics::with_instance(before[at].instances, seen));
            if other.0 != observed.process_id || other.1 != observed.creation_time {
                assert(heuristics::instance_key(other) != heuristics::instance_key(seen));
            }
        }
    } else {
        assert(i != at);
    }
}

/// The process with this number and time of creation leaves: by its number, and by its time where
/// one is given.
pub open spec fn leaves(pid: u32, created: Option<u64>, key: (u32, u64)) -> bool {
    key.0 == pid && (created matches Some(time) ==> key.1 == time)
}

proof fn lemma_departed(queue: Seq<Waiting>, departure: Departure)
    ensures
        forall|left: Waiting| #[trigger]
            heuristics::departed(queue, departure).contains(left) <==> exists|j: int|
                0 <= j < queue.len() && left == heuristics::without_departed(
                    #[trigger] queue[j],
                    departure,
                ) && left.instances.len() > 0,
{
    let mapped = queue.map_values(
        |candidate: Waiting| heuristics::without_departed(candidate, departure),
    );
    let kept = |candidate: Waiting| candidate.instances.len() > 0;
    let all = heuristics::departed(queue, departure);
    assert forall|left: Waiting| #[trigger] all.contains(left) <==> exists|j: int|
        0 <= j < queue.len() && left == heuristics::without_departed(#[trigger] queue[j], departure)
            && left.instances.len() > 0 by {
        if all.contains(left) {
            let k = choose|k: int| 0 <= k < all.len() && all[k] == left;
            mapped.lemma_filter_pred(kept, k);
            mapped.lemma_filter_contains_rev(kept, left);
            let j = choose|j: int| 0 <= j < mapped.len() && mapped[j] == left;
            assert(left == heuristics::without_departed(queue[j], departure));
        }
        if exists|j: int|
            0 <= j < queue.len() && left == heuristics::without_departed(
                #[trigger] queue[j],
                departure,
            ) && left.instances.len() > 0 {
            let j = choose|j: int|
                0 <= j < queue.len() && left == heuristics::without_departed(
                    #[trigger] queue[j],
                    departure,
                ) && left.instances.len() > 0;
            assert(mapped[j] == left);
            mapped.lemma_filter_contains(kept, j);
        }
    }
}

proof fn lemma_left_instances(candidate: Waiting, departure: Departure, seen: Sighting)
    ensures
        heuristics::without_departed(candidate, departure).instances.contains(seen)
            <==> candidate.instances.contains(seen) && !departure.takes(
            candidate.name,
            heuristics::instance_key(seen),
        ),
{
    let kept = |seen: Sighting| !departure.takes(candidate.name, heuristics::instance_key(seen));
    let left = candidate.instances.filter(kept);
    if left.contains(seen) {
        let k = choose|k: int| 0 <= k < left.len() && left[k] == seen;
        candidate.instances.lemma_filter_pred(kept, k);
        candidate.instances.lemma_filter_contains_rev(kept, seen);
    }
    if candidate.instances.contains(seen) && kept(seen) {
        let i = choose|i: int| 0 <= i < candidate.instances.len() && candidate.instances[i] == seen;
        candidate.instances.lemma_filter_contains(kept, i);
    }
}

/// A process that has ended waits no longer, and a program that has no process left neither. Every
/// other process of a waiting program still waits, and no process comes to the queue.
pub proof fn law_ended_process_waits_no_longer(
    classifier: &mut HeuristicClassifier,
    pid: u32,
    created: Option<u64>,
    i: int,
    seen: Sighting,
)
    requires
        old(classifier).wf(),
        call_ensures(HeuristicClassifier::remove_process, (classifier, pid, created), ()),
    ensures
        0 <= i < final(classifier).queue@.len() ==> {
            let after = final(classifier).queue@[i]@;
            &&& after.instances.len() > 0
            &&& after.instances.contains(seen) ==> !leaves(pid, created, (seen.0, seen.1))
            &&& exists|j: int|
                0 <= j < old(classifier).queue@.len() && (#[trigger] old(classifier).queue@[j])@.name == after.name && old(classifier).queue@[j]@.count == after.count
                    && old(classifier).queue@[j]@.first_seen == after.first_seen && (
                after.instances.contains(seen) ==> old(classifier).queue@[j]@.instances.contains(
                    seen,
                ))
        },
        0 <= i < old(classifier).queue@.len() && old(classifier).queue@[i]@.instances.contains(seen)
            && !leaves(pid, created, (seen.0, seen.1)) ==> exists|j: int|
            0 <= j < final(classifier).queue@.len() && (#[trigger] final(classifier).queue@[j])@.name == old(classifier).queue@[i]@.name && final(classifier).queue@[j]@.instances.contains(seen),
{
    let before = heuristics::waiting(old(classifier).queue@);
    let after = heuristics::waiting(final(classifier).queue@);
    let departure = Departure::Process { process_id: pid, creation_time: created };
    lemma_departed(before, departure);
    assert(after == heuristics::departed(before, departure));
    if 0 <= i < final(classifier).queue@.len() {
        assert(after[i] == final(classifier).queue@[i]@);
        assert(after.contains(after[i]));
        let j = choose|j: int|
            0 <= j < before.len() && after[i] == heuristics::without_departed(
                #[trigger] before[j],
                departure,
            ) && after[i].instances.len() > 0;
        assert(before[j] == old(classifier).queue@[j]@);
        lemma_left_instances(before[j], departure, seen);
    }
    if 0 <= i < old(classifier).queue@.len() && old(classifier).queue@[i]@.instances.contains(seen)
        && !leaves(pid, created, (seen.0, seen.1)) {
        assert(before[i] == old(classifier).queue@[i]@);
        lemma_left_instances(before[i], departure, seen);
        let left = heuristics::without_departed(before[i], departure);
        assert(left.instances.contains(seen));
        assert(left.instances.len() > 0);
        assert(after.contains(left));
        let j = choose|j: int| 0 <= j < after.len() && after[j] == left;
        assert(final(classifier).queue@[j]@ == left);
    }
}

/// What was last measured of the process.
pub open spec fn is_measured(
    history: Seq<ProcessInstanceMetrics>,
    pid: u32,
    created: u64,
    kernel_time: u64,
    user_time: u64,
) -> bool {
    exists|i: int|
        0 <= i < history.len() && (#[trigger] history[i]).observed.process_id == pid
            && history[i].observed.creation_time == created && history[i].kernel_time == kernel_time
            && history[i].user_time == user_time
}

/// Something was measured of the process.
pub open spec fn has_measurement(
    history: Seq<ProcessInstanceMetrics>,
    pid: u32,
    created: u64,
) -> bool {
    exists|i: int|
        0 <= i < history.len() && (#[trigger] history[i]).observed.process_id == pid
            && history[i].observed.creation_time == created
}

proof fn lemma_measured(history: Seq<ProcessInstanceMetrics>, pid: u32, created: u64)
    requires
        heuristics::is_history(history),
    ensures
        has_measurement(history, pid, created) <==> heuristics::sample_of(
            history,
            (pid, created),
        ) is Some,
        forall|kernel_time: u64, user_time: u64| #[trigger]
            is_measured(history, pid, created, kernel_time, user_time) <==> (heuristics::sample_of(
                history,
                (pid, created),
            ) matches Some(sample) && sample.kernel_time == kernel_time && sample.user_time
                == user_time),
{
    let key = (pid, created);
    heuristics::lemma_sample(history, key);
    if heuristics::sample_of(history, key) is Some {
        let at = choose|i: int| 0 <= i < history.len() && (#[trigger] history[i]).key() == key;
        heuristics::lemma_sample_at(history, at);
        assert(history[at].observed.process_id == pid);
        assert forall|kernel_time: u64, user_time: u64| #[trigger]
            is_measured(history, pid, created, kernel_time, user_time) <==> (heuristics::sample_of(
                history,
                key,
            ) matches Some(sample) && sample.kernel_time == kernel_time && sample.user_time
                == user_time) by {
            if is_measured(history, pid, created, kernel_time, user_time) {
                let k = choose|i: int|
                    0 <= i < history.len() && (#[trigger] history[i]).observed.process_id == pid
                        && history[i].observed.creation_time == created && history[i].kernel_time
                        == kernel_time && history[i].user_time == user_time;
                assert(history[k].key() == key);
                assert(k == at);
            }
        }
    }
    if has_measurement(history, pid, created) {
        let k = choose|i: int|
            0 <= i < history.len() && (#[trigger] history[i]).observed.process_id == pid
                && history[i].observed.creation_time == created;
        assert(history[k].key() == key);
    }
}

/// What is known of a process that has ended is forgotten, and of no other process.
pub proof fn law_ended_process_is_not_remembered(
    classifier: &mut HeuristicClassifier,
    pid: u32,
    created: Option<u64>,
    key: (u32, u64),
    kernel_time: u64,
    user_time: u64,
)
    requires
        old(classifier).wf(),
        call_ensures(HeuristicClassifier::remove_process, (classifier, pid, created), ()),
    ensures
        leaves(pid, created, key) ==> !has_measurement(final(classifier).history@, key.0, key.1),
        !leaves(pid, created, key) ==> (is_measured(
            final(classifier).history@,
            key.0,
            key.1,
            kernel_time,
            user_time,
        ) <==> is_measured(old(classifier).history@, key.0, key.1, kernel_time, user_time)),
{
    lemma_measured(old(classifier).history@, key.0, key.1);
    lemma_measured(final(classifier).history@, key.0, key.1);
    assert(heuristics::sample_of(final(classifier).history@, key) == if key.0 == pid && (
    created is None || created == Some(key.1)) {
        None
    } else {
        heuristics::sample_of(old(classifier).history@, key)
    });
}

/// The measurements are of different processes.
pub open spec fn are_of_different_processes(instances: Seq<ProcessInstanceMetrics>) -> bool {
    forall|i: int, j: int|
        0 <= i < j < instances.len() ==> (#[trigger] instances[i]).observed.process_id != (
        #[trigger] instances[j]).observed.process_id || instances[i].observed.creation_time
            != instances[j].observed.creation_time
}

proof fn lemma_sample_after(
    history: Seq<ProcessInstanceMetrics>,
    instances: Seq<ProcessInstanceMetrics>,
    count: int,
    key: (u32, u64),
)
    requires
        0 <= count <= instances.len(),
        are_of_different_processes(instances),
    ensures
        (forall|i: int| 0 <= i < count ==> (#[trigger] instances[i]).key() != key)
            ==> heuristics::sample_after(history, instances, count, key) == heuristics::sample_of(
            history,
            key,
        ),
        forall|i: int|
            0 <= i < count && (#[trigger] instances[i]).key() == key ==> heuristics::sample_after(
                history,
                instances,
                count,
                key,
            ) == Some(instances[i]@),
    decreases count,
{
    if count > 0 {
        lemma_sample_after(history, instances, count - 1, key);
        assert forall|i: int| 0 <= i < count && (#[trigger] instances[i]).key() == key implies
        heuristics::sample_after(history, instances, count, key) == Some(instances[i]@) by {
            if i < count - 1 && instances[count - 1].key() == key {
                assert(instances[i].observed.process_id != instances[count
                    - 1].observed.process_id || instances[i].observed.creation_time
                    != instances[count - 1].observed.creation_time);
            }
        }
    }
}

/// A measurement is compared with the one before of the same process, where there was one: the
/// times are the differences, and none where a time went back. It is remembered from then on, and
/// what is known of other processes stays.
pub proof fn law_measurements_are_compared_with_the_last(
    classifier: &mut HeuristicClassifier,
    instances: &Vec<ProcessInstanceMetrics>,
    deltas: Vec<ProcessInstanceMetricDelta>,
    i: int,
    kernel_time: u64,
    user_time: u64,
)
    requires
        old(classifier).wf(),
        call_ensures(
            HeuristicClassifier::update_metrics_history,
            (classifier, instances),
            deltas,
        ),
        are_of_different_processes(instances@),
        0 <= i < instances@.len(),
    ensures
        deltas@.len() == instances@.len(),
        ({
            let now = instances@[i];
            let pid = now.observed.process_id;
            let created = now.observed.creation_time;
            &&& deltas@[i].observed@ == now.observed@
            &&& !has_measurement(old(classifier).history@, pid, created)
                ==> deltas@[i].kernel_time_delta is None && deltas@[i].user_time_delta is None
                && deltas@[i].previous is None
            &&& is_measured(old(classifier).history@, pid, created, kernel_time, user_time)
                ==> deltas@[i].kernel_time_delta == Some(
                if now.kernel_time >= kernel_time {
                    (now.kernel_time - kernel_time) as u64
                } else {
                    0
                },
            ) && deltas@[i].user_time_delta == Some(
                if now.user_time >= user_time {
                    (now.user_time - user_time) as u64
                } else {
                    0
                },
            )
            &&& is_measured(
                final(classifier).history@,
                pid,
                created,
                now.kernel_time,
                now.user_time,
            )
        }),
{
    let now = instances@[i];
    let key = now.key();
    lemma_measured(old(classifier).history@, key.0, key.1);
    lemma_measured(final(classifier).history@, key.0, key.1);
    lemma_sample_after(old(classifier).history@, instances@, i, key);
    lemma_sample_after(old(classifier).history@, instances@, instances@.len() as int, key);
    assert forall|j: int| 0 <= j < i implies (#[trigger] instances@[j]).key() != key by {
        assert(instances@[j].observed.process_id != instances@[i].observed.process_id
            || instances@[j].observed.creation_time != instances@[i].observed.creation_time);
    }
    assert(heuristics::is_delta(
        deltas@[i],
        instances@[i],
        heuristics::sample_after(old(classifier).history@, instances@, i, key),
    ));
    assert(heuristics::sample_of(final(classifier).history@, key) == Some(now@));
}

/// What is known of a process that was not measured stays as it was.
pub proof fn law_unmeasured_processes_are_kept(
    classifier: &mut HeuristicClassifier,
    instances: &Vec<ProcessInstanceMetrics>,
    deltas: Vec<ProcessInstanceMetricDelta>,
    key: (u32, u64),
    kernel_time: u64,
    user_time: u64,
)
    requires
        old(classifier).wf(),
        call_ensures(
            HeuristicClassifier::update_metrics_history,
            (classifier, instances),
            deltas,
        ),
        are_of_different_processes(instances@),
        !has_measurement(instances@, key.0, key.1),
    ensures
        is_measured(final(classifier).history@, key.0, key.1, kernel_time, user_time)
            <==> is_measured(old(classifier).history@, key.0, key.1, kernel_time, user_time),
        final(classifier).queue == old(classifier).queue,
{
    lemma_measured(old(classifier).history@, key.0, key.1);
    lemma_measured(final(classifier).history@, key.0, key.1);
    lemma_sample_after(old(classifier).history@, instances@, instances@.len() as int, key);
    assert forall|j: int| 0 <= j < instances@.len() implies (#[trigger] instances@[j]).key()
        != key by {
        if instances@[j].key() == key {
            assert(instances@[j].observed.process_id == key.0);
        }
    }
    assert(heuristics::sample_of(final(classifier).history@, key) == heuristics::sample_after(
        old(classifier).history@,
        instances@,
        instances@.len() as int,
        key,
    ));
}

/// The programs that are taken out wait no longer, and all others wait as before.
pub proof fn law_named_programs_are_taken_out(
    classifier: &mut HeuristicClassifier,
    names: &Vec<ImageName>,
    program: Waiting,
)
    requires
        old(classifier).wf(),
        call_ensures(HeuristicClassifier::remove_candidates_by_name, (classifier, names), ()),
    ensures
        (exists|i: int|
            0 <= i < final(classifier).queue@.len() && (#[trigger] final(classifier).queue@[i])@
                == program) <==> (exists|i: int|
            0 <= i < old(classifier).queue@.len() && (#[trigger] old(classifier).queue@[i])@
                == program) && forall|k: int|
            0 <= k < names@.len() ==> (#[trigger] names@[k])@ != program.name,
{
    lemma_without_named(*old(classifier), *final(classifier), heuristics::names_of(names@), program);
    let listed = heuristics::names_of(names@);
    if listed.contains(program.name) {
        let k = choose|k: int| 0 <= k < listed.len() && listed[k] == program.name;
        assert(names@[k]@ == program.name);
    }
    if exists|k: int| 0 <= k < names@.len() && (#[trigger] names@[k])@ == program.name {
        let k = choose|k: int| 0 <= k < names@.len() && (#[trigger] names@[k])@ == program.name;
        assert(listed[k] == program.name);
    }
}

proof fn lemma_without_named(
    before: HeuristicClassifier,
    after: HeuristicClassifier,
    names: Seq<Seq<char>>,
    program: Waiting,
)
    requires
        heuristics::waiting(after.queue@) == heuristics::without_named(
            heuristics::waiting(before.queue@),
            names,
        ),
    ensures
        (exists|i: int| 0 <= i < after.queue@.len() && (#[trigger] after.queue@[i])@ == program)
            <==> (exists|i: int|
            0 <= i < before.queue@.len() && (#[trigger] before.queue@[i])@ == program)
            && !names.contains(program.name),
{
    let queue = heuristics::waiting(before.queue@);
    let left = heuristics::waiting(after.queue@);
    let kept = |candidate: Waiting| !names.contains(candidate.name);
    assert(left == queue.filter(kept));
    if exists|i: int| 0 <= i < after.queue@.len() && (#[trigger] after.queue@[i])@ == program {
        let i = choose|i: int|
            0 <= i < after.queue@.len() && (#[trigger] after.queue@[i])@ == program;
        assert(left[i] == program);
        queue.lemma_filter_pred(kept, i);
        assert(left.contains(program));
        queue.lemma_filter_contains_rev(kept, program);
        let j = choose|j: int| 0 <= j < queue.len() && queue[j] == program;
        assert(before.queue@[j]@ == program);
    }
    if (exists|i: int| 0 <= i < before.queue@.len() && (#[trigger] before.queue@[i])@ == program)
        && !names.contains(program.name) {
        let i = choose|i: int|
            0 <= i < before.queue@.len() && (#[trigger] before.queue@[i])@ == program;
        assert(queue[i] == program);
        queue.lemma_filter_contains(kept, i);
        let j = choose|j: int| 0 <= j < left.len() && left[j] == program;
        assert(after.queue@[j]@ == program);
    }
}

/// The programs about which the store is sure wait no longer, and all others wait as before.
pub proof fn law_settled_programs_are_taken_out(
    classifier: &mut HeuristicClassifier,
    snapshots: &Vec<ClassificationSnapshot>,
    program: Waiting,
)
    requires
        old(classifier).wf(),
        call_ensures(
            HeuristicClassifier::remove_conclusive_candidates,
            (classifier, snapshots),
            (),
        ),
    ensures
        (exists|i: int|
            0 <= i < final(classifier).queue@.len() && (#[trigger] final(classifier).queue@[i])@
                == program) <==> (exists|i: int|
            0 <= i < old(classifier).queue@.len() && (#[trigger] old(classifier).queue@[i])@
                == program) && forall|k: int|
            0 <= k < snapshots@.len() && (#[trigger] snapshots@[k]).decision_state is Conclusive
                ==> snapshots@[k].candidate@.name != program.name,
{
    let names = heuristics::conclusive_names(snapshots@);
    lemma_without_named(*old(classifier), *final(classifier), names, program);
    let sure = |snapshot: ClassificationSnapshot| snapshot.decision_state is Conclusive;
    let kept = snapshots@.filter(sure);
    if names.contains(program.name) {
        let k = choose|k: int| 0 <= k < names.len() && names[k] == program.name;
        snapshots@.lemma_filter_pred(sure, k);
        assert(kept.contains(kept[k]));
        snapshots@.lemma_filter_contains_rev(sure, kept[k]);
        let j = choose|j: int| 0 <= j < snapshots@.len() && snapshots@[j] == kept[k];
        assert(snapshots@[j].decision_state is Conclusive);
        assert(snapshots@[j].candidate@.name == program.name);
    }
    if exists|k: int|
        0 <= k < snapshots@.len() && (#[trigger] snapshots@[k]).decision_state is Conclusive
            && snapshots@[k].candidate@.name == program.name {
        let k = choose|k: int|
            0 <= k < snapshots@.len() && (#[trigger] snapshots@[k]).decision_state is Conclusive
                && snapshots@[k].candidate@.name == program.name;
        snapshots@.lemma_filter_contains(sure, k);
        let j = choose|j: int| 0 <= j < kept.len() && kept[j] == snapshots@[k];
        assert(names[j] == program.name);
    }
}

/// A program is settled where the store holds a decision about it that is sure enough and can be
/// used. A decision that is not sure enough, or cannot be used, leaves it to be classified, and so
/// does a store that knows nothing or fails.
pub proof fn law_only_sure_decisions_settle(
    answer: Result<Option<StoredProcessDecision>, StorageError>,
    threshold: Confidence,
    state: ClassificationDecisionState,
    enough: bool,
    valid: Result<(), StorageError>,
    classifiable: bool,
)
    requires
        call_ensures(heuristics::decision_state, (answer, threshold), state),
        call_ensures(ClassificationDecisionState::is_classifiable, (&state,), classifiable),
        answer matches Ok(Some(decision)) ==> call_ensures(
            StoredProcessDecision::is_conclusive,
            (&decision, threshold),
            enough,
        ) && call_ensures(StoredProcessDecision::validate, (&decision,), valid),
    ensures
        classifiable <==> !(state is Conclusive),
        answer matches Ok(None) ==> state is Missing,
        answer is Err ==> state is StoreError,
        answer matches Ok(Some(decision)) ==> {
            &&& enough && valid is Ok ==> state == ClassificationDecisionState::Conclusive(decision)
            &&& !enough ==> state == ClassificationDecisionState::NeedsClassification(decision)
            &&& enough && valid is Err ==> state is Invalid
        },
{
}

/// What is stored of an outcome is its mode, for the program and its path, as surely as it was
/// concluded; an outcome whose affinity cannot be read, or whose confidence is not finite, is not
/// stored. It settles the program where it is sure enough.
pub proof fn law_outcome_is_stored_as_concluded(
    snapshot: &ClassificationSnapshot,
    outcome: &HeuristicDecisionOutcome,
    threshold: Confidence,
    prepared: Option<PreparedOutcome>,
    finite: bool,
    enough: bool,
)
    requires
        call_ensures(heuristics::prepare_outcome, (snapshot, outcome, threshold), prepared),
        call_ensures(Confidence::is_finite, (outcome.confidence,), finite),
        call_ensures(Confidence::at_least, (outcome.confidence, threshold), enough),
    ensures
        snapshot.decision_state is Conclusive || !finite ==> prepared is None,
        !(snapshot.decision_state is Conclusive) && finite && outcome.affinity is None
            ==> prepared is Some,
        forall|source: String, parsed: Result<AffinityExpression, String>|
            #![trigger call_ensures(AffinityExpression::parse, (source,), parsed)]
            outcome.affinity == Some(source) && call_ensures(
                AffinityExpression::parse,
                (source,),
                parsed,
            ) && !(snapshot.decision_state is Conclusive) && finite ==> (prepared is Some
                <==> parsed is Ok),
        prepared matches Some(prepared) ==> prepared.conclusive == enough && prepared.rule.mode
            == outcome.mode && prepared.decision.confidence == outcome.confidence
            && prepared.decision.identity.image@ == snapshot.candidate@.image_name
            && prepared.rule.image_name@ == snapshot.candidate@.image_name,
{
    if let Some(ready) = prepared {
        storage::law_encoding_reads_back(outcome.mode, heuristics::outcome_terms(*outcome));
    }
    assert forall|source: String, parsed: Result<AffinityExpression, String>|
        #![trigger call_ensures(AffinityExpression::parse, (source,), parsed)]
        outcome.affinity == Some(source) && call_ensures(
            AffinityExpression::parse,
            (source,),
            parsed,
        ) && !(snapshot.decision_state is Conclusive) && finite implies (prepared is Some
        <==> parsed is Ok) by {
        if let Err(message) = parsed {
            affinity::lemma_refused_is_no_expression(source@, message@);
        }
    }
}

/// A program for which a sure outcome was stored waits no longer; where the store refused it, or
/// the outcome was not sure enough, everything waits as before.
pub proof fn law_stored_outcome_settles_the_program<S: ApplicationDecisionStore>(
    classifier: &mut HeuristicClassifier,
    store: &S,
    snapshot: &ClassificationSnapshot,
    outcome: &HeuristicDecisionOutcome,
    rule: Option<ProcessRule>,
    enough: bool,
)
    requires
        old(classifier).wf(),
        call_ensures(
            HeuristicClassifier::persist_heuristic_outcomes::<S>,
            (classifier, store, snapshot, outcome),
            rule,
        ),
        call_ensures(
            Confidence::at_least,
            (outcome.confidence, old(classifier).confidence_threshold),
            enough,
        ),
    ensures
        rule is Some && enough ==> !waits_under(
            *final(classifier),
            snapshot.candidate.normalized_image_name@,
        ),
        rule is None || !enough ==> final(classifier).queue == old(classifier).queue && final(classifier).history == old(classifier).history,
        rule matches Some(rule) ==> rule.mode == outcome.mode && rule.image_name@
            == snapshot.candidate@.image_name && !(snapshot.decision_state is Conclusive),
{
    if let Some(stored) = rule {
        storage::law_encoding_reads_back(outcome.mode, heuristics::outcome_terms(*outcome));
        let name = snapshot.candidate.normalized_image_name@;
        if enough {
            let names = seq![name];
            let queue = heuristics::waiting(old(classifier).queue@);
            let left = heuristics::waiting(final(classifier).queue@);
            let kept = |candidate: Waiting| !names.contains(candidate.name);
            assert(left == queue.filter(kept));
            if waits_under(*final(classifier), name) {
                let i = choose|i: int|
                    0 <= i < final(classifier).queue@.len() && (#[trigger] final(classifier).queue@[i])@.name == name;
                queue.lemma_filter_pred(kept, i);
                assert(left[i].name == name);
                assert(names[0] == name);
            }
        }
    }
}

/// There is one worker at most, none after the end, and none while nothing waits.
pub proof fn law_one_worker_runs(
    claiming: &mut HeuristicClassifier,
    waiting: &mut HeuristicClassifier,
    ending: &mut HeuristicClassifier,
    start: bool,
    interval_over: bool,
    step: WorkerStep,
)
    requires
        call_ensures(HeuristicClassifier::claim_worker, (claiming,), start),
        call_ensures(
            HeuristicClassifier::wait_for_cycle_or_exit,
            (waiting, interval_over),
            step,
        ),
        call_ensures(HeuristicClassifier::shutdown, (ending,), ()),
    ensures
        start <==> !old(claiming).running && !old(claiming).stopped,
        start ==> final(claiming).running,
        final(claiming).queue == old(claiming).queue,
        step == WorkerStep::Exit <==> old(waiting).stopped || old(waiting).queue@.len() == 0,
        step == WorkerStep::Run <==> !old(waiting).stopped && old(waiting).queue@.len() > 0
            && interval_over,
        step == WorkerStep::Exit ==> !final(waiting).running,
        step != WorkerStep::Exit ==> final(waiting).running == old(waiting).running,
        final(ending).stopped && !final(ending).running,
        final(ending).queue == old(ending).queue,
{
}

/// What the programs of a batch keep are the processes that still run; a program without one is
/// not handed out.
pub proof fn law_live_batch_runs(
    classifier: &mut HeuristicClassifier,
    batch: &Vec<ClassifierCandidate>,
    gone: Vec<GoneInstance>,
    live: Vec<ClassifierCandidate>,
    i: int,
    seen: Sighting,
    k: int,
)
    requires
        old(classifier).wf(),
        call_ensures(HeuristicClassifier::take_live_batch, (classifier, batch, gone), live),
        0 <= i < live@.len(),
        live@[i]@.instances.contains(seen),
        0 <= k < gone@.len(),
    ensures
        live@[i]@.instances.len() > 0,
        !(gone@[k].image@ == live@[i]@.name && gone@[k].process_id == seen.0
            && gone@[k].creation_time == seen.1),
        exists|j: int|
            0 <= j < batch@.len() && (#[trigger] batch@[j])@.name == live@[i]@.name
                && batch@[j]@.instances.contains(seen),
{
    let before = heuristics::waiting(batch@);
    let after = heuristics::waiting(live@);
    let departure = Departure::Instances(gone);
    lemma_departed(before, departure);
    assert(after[i] == live@[i]@);
    assert(after.contains(after[i]));
    let j = choose|j: int|
        0 <= j < before.len() && after[i] == heuristics::without_departed(
            #[trigger] before[j],
            departure,
        ) && after[i].instances.len() > 0;
    assert(before[j] == batch@[j]@);
    lemma_left_instances(before[j], departure, seen);
    assert(!heuristics::is_gone(gone@, before[j].name, (seen.0, seen.1)));
}

/// The times of a process add up, up to what fits; without one of them there is no sum.
pub proof fn law_times_add_up(kernel: Option<u64>, user: Option<u64>, total: Option<u64>)
    requires
        call_ensures(heuristics::total_time_delta, (kernel, user), total),
    ensures
        kernel is None || user is None ==> total is None,
        kernel is Some && user is Some ==> total is Some && (kernel->0 + user->0 <= u64::MAX
            ==> total->0 == kernel->0 + user->0) && (kernel->0 + user->0 > u64::MAX ==> total->0
            == u64::MAX),
{
}

/// Something holds of a program where it holds of one of its processes.
pub proof fn law_one_process_speaks_for_the_program(
    instances: &Vec<ProcessInstanceMetrics>,
    aggregate: CategoricalProcessMetrics,
    i: int,
)
    requires
        call_ensures(heuristics::aggregate_categorical_metrics, (instances,), aggregate),
    ensures
        0 <= i < instances@.len() && instances@[i].categorical_metrics.has_visible_window
            ==> aggregate.has_visible_window,
        0 <= i < instances@.len() && instances@[i].categorical_metrics.likely_game
            ==> aggregate.likely_game,
        (forall|k: int|
            0 <= k < instances@.len() ==> !(
            #[trigger] instances@[k]).categorical_metrics.has_visible_window)
            ==> !aggregate.has_visible_window,
        (forall|k: int|
            0 <= k < instances@.len() ==> !(#[trigger] instances@[k]).categorical_metrics.likely_game)
            ==> !aggregate.likely_game,
{
    assert(aggregate.has_visible_window == heuristics::any_window(instances@));
    assert(aggregate.likely_game == heuristics::any_game(instances@));
}

/// A path looks like that of a game where it holds `steamapps` or `game`, whatever the case.
pub proof fn law_games_are_known_by_their_path(path: &str, game: bool)
    requires
        call_ensures(heuristics::has_common_game_path_pattern, (path,), game),
    ensures
        game <==> text::contains_part(text::lowered(path@), "steamapps"@) || text::contains_part(
            text::lowered(path@),
            "game"@,
        ),
{
}

/// A module is one that games load where its name, whatever the case, is that of a graphics or
/// game library, or begins like one of a family of such libraries and ends with `.dll`.
pub proof fn law_games_are_known_by_their_modules(name: &str, game: bool)
    requires
        call_ensures(heuristics::is_common_game_module_name, (name,), game),
    ensures
        ({
            let lower = text::lowered(name@);
            game <==> lower == "dxgi.dll"@ || lower == "d3d11.dll"@ || lower == "d3d12.dll"@
                || lower == "vulkan-1.dll"@ || lower == "opengl32.dll"@ || lower
                == "steam_api64.dll"@ || lower == "unityplayer.dll"@ || (text::finishes_with(
                lower,
                ".dll"@,
            ) && (text::begins_with(lower, "xinput"@) || text::begins_with(lower, "xaudio2"@)
                || text::begins_with(lower, "bink"@) || text::begins_with(lower, "eossdk"@)
                || text::begins_with(lower, "unreal"@) || text::begins_with(lower, "ue4"@)
                || text::begins_with(lower, "ue5"@)))
        }),
{
}

/// The process of an engine counter is the number behind the first `pid_`, up to the next
/// underscore.
pub proof fn law_engine_counters_name_processes(
    name: &str,
    process_id: Option<u32>,
    before: Seq<char>,
    digits: Seq<char>,
    rest: Seq<char>,
)
    requires
        call_ensures(heuristics::process_id_from_gpu_engine_instance, (name,), process_id),
        text::lowered(name@) == before + "pid_"@ + digits + rest,
        !digits.contains('_'),
        rest.len() > 0 ==> rest[0] == '_',
        forall|k: int|
            0 <= k < before.len() ==> !#[trigger] text::occurs_at(
                text::lowered(name@),
                "pid_"@,
                k,
            ),
    ensures
        process_id matches Some(pid) ==> text::unsigned(digits) == Some(pid as nat),
        text::unsigned(digits) matches Some(number) ==> (number <= u32::MAX ==> process_id == Some(
            number as u32,
        )),
{
    reveal_strlit("pid_");
    let lower = text::lowered(name@);
    let at = before.len() as int;
    assert(lower.subrange(at, at + 4) =~= "pid_"@);
    assert(heuristics::is_first_part(lower, "pid_"@, at));
    assert(text::occurs_at(lower, "pid_"@, at));
    assert(text::contains_part(lower, "pid_"@));
    let found = choose|found: int| heuristics::is_first_part(lower, "pid_"@, found);
    assert(heuristics::is_first_part(lower, "pid_"@, found));
    assert(found == at) by {
        if found < at {
            assert(text::occurs_at(lower, "pid_"@, found));
        }
    }
    let tail = lower.subrange(at + 4, lower.len() as int);
    assert(tail =~= digits + rest);
    lemma_first_piece(digits, rest);
}

proof fn lemma_first_piece(digits: Seq<char>, rest: Seq<char>)
    requires
        !digits.contains('_'),
        rest.len() > 0 ==> rest[0] == '_',
    ensures
        text::split(digits + rest, '_').len() > 0,
        text::split(digits + rest, '_')[0] == digits,
        rest.len() > 0 ==> text::split(digits + rest, '_').len() > 1,
    decreases rest.len(),
{
    let all = digits + rest;
    if rest.len() == 0 {
        assert(all =~= digits);
        text::lemma_split_whole(digits, '_');
    } else {
        let shorter = rest.drop_last();
        lemma_first_piece(digits, shorter);
        assert(all.drop_last() =~= digits + shorter);
        assert(all.last() == rest.last());
        if shorter.len() == 0 {
            assert(rest.last() == rest[0]);
        }
    }
}

proof fn lemma_failures(answers: Seq<Result<ApplicationRecord, StorageError>>)
    requires
        answers.len() <= usize::MAX,
    ensures
        ({
            let failures = heuristics::failures_of(answers);
            &&& forall|k: int|
                0 <= k < failures.len() ==> (#[trigger] failures[k]).0 < answers.len()
                    && answers[failures[k].0 as int] == Err::<ApplicationRecord, StorageError>(
                    failures[k].1,
                )
            &&& forall|k: int, l: int|
                0 <= k < l < failures.len() ==> (#[trigger] failures[k]).0 < (
                #[trigger] failures[l]).0
            &&& (forall|i: int| 0 <= i < answers.len() ==> (#[trigger] answers[i]) is Ok)
                ==> failures.len() == 0
            &&& (forall|i: int| 0 <= i < answers.len() ==> (#[trigger] answers[i]) is Err)
                ==> failures.len() == answers.len()
        }),
    decreases answers.len(),
{
    if answers.len() > 0 {
        let shorter = answers.drop_last();
        lemma_failures(shorter);
        let failures = heuristics::failures_of(answers);
        let earlier = heuristics::failures_of(shorter);
        assert(answers.last() == answers[answers.len() - 1]);
        assert forall|k: int| 0 <= k < failures.len() implies (#[trigger] failures[k]).0
            < answers.len() && answers[failures[k].0 as int] == Err::<
            ApplicationRecord,
            StorageError,
        >(failures[k].1) by {
            if k < earlier.len() {
                assert(failures[k] == earlier[k]);
                assert(shorter[earlier[k].0 as int] == answers[earlier[k].0 as int]);
            }
        }
        assert forall|k: int, l: int| 0 <= k < l < failures.len() implies (#[trigger] failures[k]).0
            < (#[trigger] failures[l]).0 by {
            assert(failures[k] == earlier[k]);
            if l < earlier.len() {
                assert(failures[l] == earlier[l]);
            }
        }
        if forall|i: int| 0 <= i < answers.len() ==> (#[trigger] answers[i]) is Ok {
            assert forall|i: int| 0 <= i < shorter.len() implies (#[trigger] shorter[i]) is Ok by {
                assert(shorter[i] == answers[i]);
            }
        }
        if forall|i: int| 0 <= i < answers.len() ==> (#[trigger] answers[i]) is Err {
            assert forall|i: int| 0 <= i < shorter.len() implies (#[trigger] shorter[i]) is Err by {
                assert(shorter[i] == answers[i]);
            }
        }
    }
}

/// Every program of a batch is told to the store once, and the failures are told in the order of the
/// batch: a store that takes everything leaves none, and one that takes nothing leaves one for each.
pub proof fn law_failed_observations_are_told<S: ApplicationDecisionStore>(
    store: &S,
    snapshots: &Vec<ClassificationSnapshot>,
    failures: Vec<(usize, StorageError)>,
    k: int,
    l: int,
)
    requires
        call_ensures(heuristics::record_observations::<S>, (store, snapshots), failures),
    ensures
        failures@.len() <= snapshots@.len(),
        (forall|observation: ProcessObservation, answer: Result<ApplicationRecord, StorageError>|
            #[trigger] call_ensures(S::record_observation, (store, observation), answer)
                ==> answer is Ok) ==> failures@.len() == 0,
        (forall|observation: ProcessObservation, answer: Result<ApplicationRecord, StorageError>|
            #[trigger] call_ensures(S::record_observation, (store, observation), answer)
                ==> answer is Err) ==> failures@.len() == snapshots@.len(),
        0 <= k < l < failures@.len() ==> failures@[k].0 < failures@[l].0,
        0 <= k < failures@.len() ==> failures@[k].0 < snapshots@.len()
            && exists|observation: ProcessObservation|
            #![trigger call_ensures(
                S::record_observation,
                (store, observation),
                Err::<ApplicationRecord, StorageError>(failures@[k].1),
            )]
            call_ensures(
                S::record_observation,
                (store, observation),
                Err::<ApplicationRecord, StorageError>(failures@[k].1),
            ) && observation.identity.image@ == snapshots@[failures@[k].0 as int].candidate.image_name@
                && observation.observed_unix_seconds == snapshots@[failures@[k].0 as int].candidate.last_seen_unix_seconds,
{
    let answers = choose|answers: Seq<Result<ApplicationRecord, StorageError>>| #[trigger]
        heuristics::are_answers(store, snapshots@, answers) && failures@
            == heuristics::failures_of(answers);
    assert(snapshots@.len() == snapshots.len());
    lemma_failures(answers);
    lemma_failure_count(answers);
    if forall|observation: ProcessObservation, answer: Result<ApplicationRecord, StorageError>|
        #[trigger] call_ensures(S::record_observation, (store, observation), answer)
            ==> answer is Ok {
        assert forall|i: int| 0 <= i < answers.len() implies (#[trigger] answers[i]) is Ok by {
            assert(heuristics::is_recorded(store, snapshots@[i].candidate@, answers[i]));
            let observation = choose|observation: ProcessObservation| #[trigger]
                storage::was_told(store, observation, answers[i]);
            assert(call_ensures(S::record_observation, (store, observation), answers[i]));
        }
    }
    if forall|observation: ProcessObservation, answer: Result<ApplicationRecord, StorageError>|
        #[trigger] call_ensures(S::record_observation, (store, observation), answer)
            ==> answer is Err {
        assert forall|i: int| 0 <= i < answers.len() implies (#[trigger] answers[i]) is Err by {
            assert(heuristics::is_recorded(store, snapshots@[i].candidate@, answers[i]));
            let observation = choose|observation: ProcessObservation| #[trigger]
                storage::was_told(store, observation, answers[i]);
            assert(call_ensures(S::record_observation, (store, observation), answers[i]));
        }
    }
    if 0 <= k < failures@.len() {
        let i = failures@[k].0 as int;
        let answer = answers[i];
        assert(heuristics::is_recorded(store, snapshots@[i].candidate@, answer));
        let observation = choose|observation: ProcessObservation| #[trigger]
            storage::was_told(store, observation, answer) && heuristics::is_observation_of(
                observation,
                snapshots@[i].candidate@,
            );
        assert(call_ensures(S::record_observation, (store, observation), answer));
    }
}

proof fn lemma_failure_count(answers: Seq<Result<ApplicationRecord, StorageError>>)
    ensures
        heuristics::failures_of(answers).len() <= answers.len(),
    decreases answers.len(),
{
    if answers.len() > 0 {
        lemma_failure_count(answers.drop_last());
    }
}

/// What is measured of a program is compared with the last measurement of the same process, and one
/// window, or one game, speaks for all of its processes.
pub proof fn law_measured_program_is_described<S: ApplicationDecisionStore>(
    classifier: &mut HeuristicClassifier,
    store: &S,
    candidate: ClassifierCandidate,
    instances: Vec<ProcessInstanceMetrics>,
    snapshot: ClassificationSnapshot,
    i: int,
    kernel_time: u64,
    user_time: u64,
)
    requires
        old(classifier).wf(),
        call_ensures(
            HeuristicClassifier::collect_metrics::<S>,
            (classifier, store, candidate, instances),
            snapshot,
        ),
        are_of_different_processes(instances@),
        0 <= i < instances@.len(),
    ensures
        snapshot.candidate == candidate,
        snapshot.instances == instances,
        instances@[i].categorical_metrics.has_visible_window
            ==> snapshot.categorical_metrics.has_visible_window,
        instances@[i].categorical_metrics.likely_game ==> snapshot.categorical_metrics.likely_game,
        (forall|j: int|
            0 <= j < instances@.len() ==> !(
            #[trigger] instances@[j]).categorical_metrics.has_visible_window)
            ==> !snapshot.categorical_metrics.has_visible_window,
        (forall|j: int|
            0 <= j < instances@.len() ==> !(
            #[trigger] instances@[j]).categorical_metrics.likely_game)
            ==> !snapshot.categorical_metrics.likely_game,
        snapshot.instance_deltas@.len() == instances@.len(),
        ({
            let now = instances@[i];
            let delta = snapshot.instance_deltas@[i];
            let pid = now.observed.process_id;
            let created = now.observed.creation_time;
            &&& delta.observed@ == now.observed@
            &&& !has_measurement(old(classifier).history@, pid, created)
                ==> delta.kernel_time_delta is None && delta.user_time_delta is None
            &&& is_measured(old(classifier).history@, pid, created, kernel_time, user_time)
                && now.kernel_time >= kernel_time && now.user_time >= user_time
                ==> delta.kernel_time_delta == Some((now.kernel_time - kernel_time) as u64)
                && delta.user_time_delta == Some((now.user_time - user_time) as u64)
            &&& is_measured(
                final(classifier).history@,
                pid,
                created,
                now.kernel_time,
                now.user_time,
            )
        }),
{
    let now = instances@[i];
    let key = now.key();
    lemma_measured(old(classifier).history@, key.0, key.1);
    lemma_measured(final(classifier).history@, key.0, key.1);
    lemma_sample_after(old(classifier).history@, instances@, i, key);
    lemma_sample_after(old(classifier).history@, instances@, instances@.len() as int, key);
    assert forall|j: int| 0 <= j < i implies (#[trigger] instances@[j]).key() != key by {
        assert(instances@[j].observed.process_id != instances@[i].observed.process_id
            || instances@[j].observed.creation_time != instances@[i].observed.creation_time);
    }
    assert(heuristics::is_delta(
        snapshot.instance_deltas@[i],
        instances@[i],
        heuristics::sample_after(old(classifier).history@, instances@, i, key),
    ));
    assert(heuristics::sample_of(final(classifier).history@, key) == Some(now@));
    assert(instances@[i].categorical_metrics.has_visible_window ==> heuristics::any_window(
        instances@,
    ));
    assert(instances@[i].categorical_metrics.likely_game ==> heuristics::any_game(instances@));
}

/// A program is found in the queue exactly where it waits there under its name.
pub proof fn law_waiting_program_is_found(
    classifier: &HeuristicClassifier,
    name: &ImageName,
    found: Option<ClassifierCandidate>,
    i: int,
)
    requires
        call_ensures(HeuristicClassifier::queued_candidate, (classifier, name), found),
    ensures
        found is Some ==> found->0.normalized_image_name@ == name@,
        0 <= i < classifier.queue@.len() && classifier.queue@[i].normalized_image_name@ == name@
            ==> found is Some,
{
    let queue = heuristics::waiting(classifier.queue@);
    heuristics::lemma_position(queue, name@);
    if let Some(candidate) = found {
        assert(candidate@.name == name@);
    }
    if 0 <= i < classifier.queue@.len() {
        assert(queue[i].name == classifier.queue@[i].normalized_image_name@);
    }
}

/// A batch holds every program that waits, in the order of the queue.
pub proof fn law_batch_holds_the_queue(
    classifier: &HeuristicClassifier,
    batch: Vec<ClassifierCandidate>,
    i: int,
)
    requires
        call_ensures(HeuristicClassifier::queued_candidates, (classifier,), batch),
        0 <= i < classifier.queue@.len(),
    ensures
        batch@.len() == classifier.queue@.len(),
        batch@[i].normalized_image_name@ == classifier.queue@[i].normalized_image_name@,
        batch@[i].image_name@ == classifier.queue@[i].image_name@,
        batch@[i].image_path@ == classifier.queue@[i].image_path@,
        batch@[i].observation_count == classifier.queue@[i].observation_count,
        batch@[i].first_seen_unix_seconds == classifier.queue@[i].first_seen_unix_seconds,
        batch@[i].last_seen_unix_seconds == classifier.queue@[i].last_seen_unix_seconds,
{
    let all = heuristics::waiting(classifier.queue@);
    assert(heuristics::waiting(batch@).len() == batch@.len());
    assert(all[i] == classifier.queue@[i]@);
    assert(heuristics::waiting(batch@)[i] == batch@[i]@);
}

/// What is told to the store of a waiting program is its name, its path and when it was last seen.
pub proof fn law_last_sighting_is_observed(
    candidate: &ClassifierCandidate,
    observation: ProcessObservation,
)
    requires
        call_ensures(heuristics::candidate_observation, (candidate,), observation),
    ensures
        observation.identity.image@ == candidate.image_name@,
        observation.identity.image_path is Some,
        observation.identity.image_path->0@ == candidate.image_path@,
        observation.observed_unix_seconds == candidate.last_seen_unix_seconds,
{
}

/// An outcome makes a decision where its confidence is a number and its affinity can be read; the
/// decision keeps the program, the confidence and the mode.
pub proof fn law_outcome_makes_its_decision(
    outcome: &HeuristicDecisionOutcome,
    candidate: &ClassifierCandidate,
    decision: Result<StoredProcessDecision, String>,
    finite: bool,
    source: String,
    parsed: Result<AffinityExpression, String>,
    encoding: ProcessPolicyEncoding,
    mode: Result<ProcessMode, String>,
)
    requires
        call_ensures(HeuristicDecisionOutcome::to_stored_decision, (outcome, candidate), decision),
        call_ensures(Confidence::is_finite, (outcome.confidence,), finite),
        outcome.affinity is Some ==> source@ == outcome.affinity->0@,
        call_ensures(AffinityExpression::parse, (source,), parsed),
        call_ensures(ProcessPolicyEncoding::mode, (&encoding,), mode),
    ensures
        !finite ==> decision is Err,
        finite && outcome.affinity is None ==> decision is Ok,
        finite && outcome.affinity is Some ==> (decision is Ok <==> parsed is Ok),
        decision is Ok ==> {
            &&& decision->Ok_0.confidence == outcome.confidence
            &&& decision->Ok_0.identity.image@ == candidate.image_name@
            &&& decision->Ok_0.identity.image_path is Some
            &&& decision->Ok_0.identity.image_path->0@ == candidate.image_path@
            &&& encoding == decision->Ok_0.decision ==> mode == Ok::<ProcessMode, String>(
                outcome.mode,
            )
        },
{
    storage::law_encoding_reads_back(outcome.mode, heuristics::outcome_terms(*outcome));
    if outcome.affinity is Some {
        if let Err(message) = parsed {
            affinity::lemma_refused_is_no_expression(source@, message@);
        }
    }
}

/// The processes of a program wait in the order of their numbers, and of their times of creation
/// where the numbers are the same; none waits twice.
pub proof fn law_processes_wait_in_order<S: ApplicationDecisionStore>(
    classifier: &mut HeuristicClassifier,
    store: &S,
    observed: ObservedProcess,
    critical: bool,
    submission: ClassifierSubmission,
    i: int,
    j: int,
    k: int,
)
    requires
        old(classifier).wf(),
        call_ensures(
            HeuristicClassifier::classify::<S>,
            (classifier, store, observed, critical),
            submission,
        ),
        0 <= i < final(classifier).queue@.len(),
        0 <= j < k < final(classifier).queue@[i]@.instances.len(),
    ensures
        ({
            let a = final(classifier).queue@[i]@.instances[j];
            let b = final(classifier).queue@[i]@.instances[k];
            a.0 < b.0 || a.0 == b.0 && a.1 < b.1
        }),
{
    let queue = heuristics::waiting(final(classifier).queue@);
    assert(queue[i] == final(classifier).queue@[i]@);
    assert(heuristics::in_order(queue[i].instances));
}

/// What has not ended stays in the batch and in the queue, and what has ended is in neither and is not
/// remembered; what is remembered of other processes stays.
pub proof fn law_only_ended_processes_leave_the_batch(
    classifier: &mut HeuristicClassifier,
    batch: &Vec<ClassifierCandidate>,
    gone: Vec<GoneInstance>,
    live: Vec<ClassifierCandidate>,
    i: int,
    seen: Sighting,
    pid: u32,
    created: u64,
)
    requires
        old(classifier).wf(),
        call_ensures(HeuristicClassifier::take_live_batch, (classifier, batch, gone), live),
    ensures
        0 <= i < batch@.len() && batch@[i]@.instances.contains(seen) && has_not_ended(
            gone@,
            batch@[i]@.name,
            seen,
        ) ==> exists|j: int|
            0 <= j < live@.len() && (#[trigger] live@[j])@.name == batch@[i]@.name
                && live@[j]@.instances.contains(seen),
        0 <= i < old(classifier).queue@.len() && old(classifier).queue@[i]@.instances.contains(seen)
            && has_not_ended(gone@, old(classifier).queue@[i]@.name, seen) ==> exists|j: int|
            0 <= j < final(classifier).queue@.len() && (#[trigger] final(
                classifier).queue@[j])@.name == old(classifier).queue@[i]@.name
                && final(classifier).queue@[j]@.instances.contains(seen),
        0 <= i < final(classifier).queue@.len() && final(
            classifier).queue@[i]@.instances.contains(seen) ==> has_not_ended(
            gone@,
            final(classifier).queue@[i]@.name,
            seen,
        ),
        (exists|k: int|
            0 <= k < gone@.len() && (#[trigger] gone@[k]).process_id == pid && gone@[k].creation_time
                == created) ==> !has_measurement(final(classifier).history@, pid, created),
        (forall|k: int|
            0 <= k < gone@.len() ==> (#[trigger] gone@[k]).process_id != pid
                || gone@[k].creation_time != created) ==> has_measurement(
            final(classifier).history@,
            pid,
            created,
        ) == has_measurement(old(classifier).history@, pid, created),
{
    let departure = Departure::Instances(gone);
    let told = heuristics::waiting(batch@);
    let left = heuristics::waiting(live@);
    let before = heuristics::waiting(old(classifier).queue@);
    let after = heuristics::waiting(final(classifier).queue@);
    lemma_departed(told, departure);
    lemma_departed(before, departure);
    lemma_measured(old(classifier).history@, pid, created);
    lemma_measured(final(classifier).history@, pid, created);
    if 0 <= i < batch@.len() && batch@[i]@.instances.contains(seen) && has_not_ended(
        gone@,
        batch@[i]@.name,
        seen,
    ) {
        assert(told[i] == batch@[i]@);
        lemma_left_instances(told[i], departure, seen);
        let kept = heuristics::without_departed(told[i], departure);
        assert(kept.instances.contains(seen));
        assert(kept.instances.len() > 0);
        assert(left.contains(kept));
        let j = choose|j: int| 0 <= j < left.len() && left[j] == kept;
        assert(live@[j]@ == kept);
    }
    if 0 <= i < old(classifier).queue@.len() && old(classifier).queue@[i]@.instances.contains(seen)
        && has_not_ended(gone@, old(classifier).queue@[i]@.name, seen) {
        assert(before[i] == old(classifier).queue@[i]@);
        lemma_left_instances(before[i], departure, seen);
        let kept = heuristics::without_departed(before[i], departure);
        assert(kept.instances.contains(seen));
        assert(kept.instances.len() > 0);
        assert(after.contains(kept));
        let j = choose|j: int| 0 <= j < after.len() && after[j] == kept;
        assert(final(classifier).queue@[j]@ == kept);
    }
    if 0 <= i < final(classifier).queue@.len() && final(
        classifier).queue@[i]@.instances.contains(seen) {
        assert(after[i] == final(classifier).queue@[i]@);
        assert(after.contains(after[i]));
        let j = choose|j: int|
            0 <= j < before.len() && after[i] == heuristics::without_departed(
                #[trigger] before[j],
                departure,
            ) && after[i].instances.len() > 0;
        lemma_left_instances(before[j], departure, seen);
        assert(!heuristics::is_gone(gone@, before[j].name, (seen.0, seen.1)));
    }
    if exists|k: int|
        0 <= k < gone@.len() && (#[trigger] gone@[k]).process_id == pid && gone@[k].creation_time
            == created {
        let k = choose|k: int|
            0 <= k < gone@.len() && (#[trigger] gone@[k]).process_id == pid
                && gone@[k].creation_time == created;
        assert((gone@[k].process_id, gone@[k].creation_time) == (pid, created));
        assert(heuristics::is_gone_key(gone@, (pid, created)));
    }
}

/// None of those that have ended is the process `seen` of the program.
pub open spec fn has_not_ended(gone: Seq<GoneInstance>, name: Seq<char>, seen: Sighting) -> bool {
    forall|k: int|
        0 <= k < gone.len() ==> (#[trigger] gone[k]).image@ != name || gone[k].process_id != seen.0
            || gone[k].creation_time != seen.1
}

} // verus!
