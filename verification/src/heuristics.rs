//! Programs about which nothing is decided yet: they wait in a queue until a heuristic or a
//! stored decision settles them.

use vstd::prelude::*;

use crate::affinity::AffinityExpression;
use crate::confidence::Confidence;
use crate::defaults;
use crate::defaults::ObservedProcess;
use crate::exclusion;
use crate::exclusion::ExclusionList;
use crate::process::{ProcessMode, ProcessRule};
use crate::storage;
use crate::storage::{
    ApplicationDecisionStore, ApplicationIdentity, ApplicationRecord, ImageName, ProcessObservation,
    StorageError, StoredProcessDecision,
};
use crate::text;

verus! {

/// What is seen of a process: its number, when it was created, its image name and path, and when
/// it was seen.
pub type Sighting = (u32, u64, Seq<char>, Seq<char>, i64);

/// What tells one process from another, even one that has the same number later.
pub open spec fn instance_key(seen: Sighting) -> (u32, u64) {
    (seen.0, seen.1)
}

pub open spec fn lies_before(a: (u32, u64), b: (u32, u64)) -> bool {
    a.0 < b.0 || (a.0 == b.0 && a.1 < b.1)
}

pub fn process_instance_key(observed: &ObservedProcess) -> (key: (u32, u64))
    ensures
        key == instance_key(observed@),
{
    (observed.process_id, observed.creation_time)
}

/// A program that waits, with the processes that run it.
#[derive(Debug, Eq, PartialEq)]
pub struct ClassifierCandidate {
    pub normalized_image_name: ImageName,
    pub image_name: ImageName,
    pub image_path: String,
    pub first_seen_unix_seconds: i64,
    pub last_seen_unix_seconds: i64,
    pub observation_count: u64,
    pub instances: Vec<ObservedProcess>,
}

/// A waiting program in mathematical terms.
pub struct Waiting {
    pub name: Seq<char>,
    pub image_name: Seq<char>,
    pub image_path: Seq<char>,
    pub first_seen: i64,
    pub last_seen: i64,
    pub count: u64,
    pub instances: Seq<Sighting>,
}

pub open spec fn sightings(instances: Seq<ObservedProcess>) -> Seq<Sighting> {
    instances.map_values(|observed: ObservedProcess| observed@)
}

impl View for ClassifierCandidate {
    type V = Waiting;

    open spec fn view(&self) -> Waiting {
        Waiting {
            name: self.normalized_image_name@,
            image_name: self.image_name@,
            image_path: self.image_path@,
            first_seen: self.first_seen_unix_seconds,
            last_seen: self.last_seen_unix_seconds,
            count: self.observation_count,
            instances: sightings(self.instances@),
        }
    }
}

fn copy_instances(instances: &Vec<ObservedProcess>) -> (copied: Vec<ObservedProcess>)
    ensures
        sightings(copied@) == sightings(instances@),
{
    let mut copied: Vec<ObservedProcess> = Vec::new();
    let mut i: usize = 0;
    while i < instances.len()
        invariant
            i <= instances@.len(),
            copied@.len() == i,
            forall|j: int| 0 <= j < i ==> (#[trigger] copied@[j])@ == instances@[j]@,
        decreases instances@.len() - i,
    {
        copied.push(instances[i].clone());
        i = i + 1;
    }
    assert(sightings(copied@) =~= sightings(instances@));
    copied
}

impl Clone for ClassifierCandidate {
    fn clone(&self) -> (copied: Self)
        ensures
            copied@ == self@,
    {
        ClassifierCandidate {
            normalized_image_name: self.normalized_image_name.clone(),
            image_name: self.image_name.clone(),
            image_path: self.image_path.clone(),
            first_seen_unix_seconds: self.first_seen_unix_seconds,
            last_seen_unix_seconds: self.last_seen_unix_seconds,
            observation_count: self.observation_count,
            instances: copy_instances(&self.instances),
        }
    }
}

/// The processes are in the order of their keys, and none comes twice.
pub open spec fn in_order(instances: Seq<Sighting>) -> bool {
    forall|i: int, j: int|
        0 <= i < j < instances.len() ==> lies_before(
            instance_key(#[trigger] instances[i]),
            instance_key(#[trigger] instances[j]),
        )
}

/// The position behind the last process whose key lies before `key`.
pub open spec fn place_of(instances: Seq<Sighting>, key: (u32, u64)) -> int
    decreases instances.len(),
{
    if instances.len() == 0 {
        0
    } else if lies_before(instance_key(instances.last()), key) {
        instances.len() as int
    } else {
        place_of(instances.drop_last(), key)
    }
}

/// The processes with `seen` among them, in the place of an earlier sighting of the same process
/// if there is one.
pub open spec fn with_instance(instances: Seq<Sighting>, seen: Sighting) -> Seq<Sighting> {
    let at = place_of(instances, instance_key(seen));
    if at < instances.len() && instance_key(instances[at]) == instance_key(seen) {
        instances.update(at, seen)
    } else {
        instances.insert(at, seen)
    }
}

proof fn lemma_place(instances: Seq<Sighting>, key: (u32, u64))
    ensures
        0 <= place_of(instances, key) <= instances.len(),
        place_of(instances, key) > 0 ==> lies_before(
            instance_key(instances[place_of(instances, key) - 1]),
            key,
        ),
        forall|i: int|
            place_of(instances, key) <= i < instances.len() ==> !lies_before(
                instance_key(#[trigger] instances[i]),
                key,
            ),
    decreases instances.len(),
{
    if instances.len() > 0 && !lies_before(instance_key(instances.last()), key) {
        let shorter = instances.drop_last();
        lemma_place(shorter, key);
        assert forall|i: int| place_of(instances, key) <= i < instances.len() implies !lies_before(
            instance_key(#[trigger] instances[i]),
            key,
        ) by {
            if i < shorter.len() {
                assert(shorter[i] == instances[i]);
            }
        }
    }
}

/// Adding a process keeps the order and the processes that were there, and leaves exactly one
/// sighting of the added one.
pub proof fn law_instance_is_kept_once(instances: Seq<Sighting>, seen: Sighting)
    requires
        in_order(instances),
    ensures
        in_order(with_instance(instances, seen)),
        with_instance(instances, seen).contains(seen),
        forall|other: Sighting|
            instance_key(other) != instance_key(seen) ==> (#[trigger] with_instance(
                instances,
                seen,
            ).contains(other) <==> instances.contains(other)),
{
    let key = instance_key(seen);
    let at = place_of(instances, key);
    let after = with_instance(instances, seen);
    lemma_place(instances, key);
    assert(after[at] == seen);
    let replaced = at < instances.len() && instance_key(instances[at]) == key;
    assert forall|i: int| 0 <= i < at implies lies_before(
        instance_key(#[trigger] instances[i]),
        key,
    ) by {
        if i < at - 1 {
            assert(lies_before(instance_key(instances[i]), instance_key(instances[at - 1])));
        }
    }
    assert forall|i: int| at <= i < instances.len() && !(replaced && i == at) implies lies_before(
        key,
        instance_key(#[trigger] instances[i]),
    ) by {
        if replaced {
            assert(lies_before(instance_key(instances[at]), instance_key(instances[i])));
        } else {
            if i > at {
                assert(lies_before(instance_key(instances[at]), instance_key(instances[i])));
            }
            assert(!lies_before(instance_key(instances[i]), key));
            if instance_key(instances[i]) == key {
                assert(!lies_before(instance_key(instances[at]), key));
            }
        }
    }
    assert forall|i: int, j: int| 0 <= i < j < after.len() implies lies_before(
        instance_key(#[trigger] after[i]),
        instance_key(#[trigger] after[j]),
    ) by {
        if replaced {
            if i != at && j != at {
                assert(after[i] == instances[i] && after[j] == instances[j]);
            }
        } else {
            let left = if i < at { i } else { i - 1 };
            let right = if j < at { j } else { j - 1 };
            if i != at {
                assert(after[i] == instances[left]);
            }
            if j != at {
                assert(after[j] == instances[right]);
            }
        }
    }
    assert forall|other: Sighting| instance_key(other) != key implies (#[trigger] after.contains(
        other,
    ) <==> instances.contains(other)) by {
        if instances.contains(other) {
            let i = choose|i: int| 0 <= i < instances.len() && instances[i] == other;
            if replaced || i < at {
                assert(after[i] == other);
            } else {
                assert(after[i + 1] == other);
            }
        }
        if after.contains(other) {
            let i = choose|i: int| 0 <= i < after.len() && after[i] == other;
            if replaced || i < at {
                assert(instances[i] == other);
            } else {
                assert(instances[i - 1] == other);
            }
        }
    }
}

fn insert_instance(instances: &mut Vec<ObservedProcess>, observed: ObservedProcess)
    ensures
        sightings(final(instances)@) == with_instance(sightings(old(instances)@), observed@),
{
    let ghost all = sightings(instances@);
    let (pid, created) = process_instance_key(&observed);
    let mut at: usize = instances.len();
    assert(all.subrange(0, all.len() as int) =~= all);
    while at > 0 && !(instances[at - 1].process_id < pid || (instances[at - 1].process_id == pid
        && instances[at - 1].creation_time < created))
        invariant
            at <= instances@.len(),
            all == sightings(instances@),
            place_of(all, (pid, created)) == place_of(all.subrange(0, at as int), (pid, created)),
        decreases at,
    {
        assert(all.subrange(0, at as int).drop_last() =~= all.subrange(0, at - 1));
        assert(all.subrange(0, at as int).last() == instances@[at - 1]@);
        at = at - 1;
    }
    proof {
        if at > 0 {
            assert(all.subrange(0, at as int).last() == instances@[at - 1]@);
        }
    }
    assert(place_of(all, (pid, created)) == at);
    if at < instances.len() && instances[at].process_id == pid && instances[at].creation_time
        == created {
        assert(instance_key(all[at as int]) == (pid, created));
        instances.set(at, observed);
        assert(sightings(instances@) =~= all.update(at as int, observed@));
    } else {
        proof {
            if at < all.len() {
                assert(all[at as int] == instances@[at as int]@);
            }
        }
        instances.insert(at, observed);
        assert(sightings(instances@) =~= all.insert(at as int, observed@));
    }
}

pub open spec fn waiting(queue: Seq<ClassifierCandidate>) -> Seq<Waiting> {
    queue.map_values(|candidate: ClassifierCandidate| candidate@)
}

/// The position of the program `name` in the queue, or the length of the queue if it does not
/// wait.
pub open spec fn position(queue: Seq<Waiting>, name: Seq<char>) -> int
    decreases queue.len(),
{
    if queue.len() == 0 {
        0
    } else {
        let before = position(queue.drop_last(), name);
        if before < queue.len() - 1 {
            before
        } else if queue.last().name == name {
            queue.len() - 1
        } else {
            queue.len() as int
        }
    }
}

pub open spec fn one_more(count: u64) -> u64 {
    if count == u64::MAX {
        u64::MAX
    } else {
        (count + 1) as u64
    }
}

/// A waiting program after one more sighting.
pub open spec fn seen_again(candidate: Waiting, seen: Sighting) -> Waiting {
    Waiting {
        name: candidate.name,
        image_name: seen.2,
        image_path: seen.3,
        first_seen: candidate.first_seen,
        last_seen: seen.4,
        count: one_more(candidate.count),
        instances: with_instance(candidate.instances, seen),
    }
}

/// A program at its first sighting.
pub open spec fn first_seen(seen: Sighting) -> Waiting {
    Waiting {
        name: seen.2,
        image_name: seen.2,
        image_path: seen.3,
        first_seen: seen.4,
        last_seen: seen.4,
        count: 1,
        instances: seq![seen],
    }
}

/// The queue after a sighting: one entry for each program, however often it is seen.
pub open spec fn enqueued(queue: Seq<Waiting>, seen: Sighting) -> Seq<Waiting> {
    let at = position(queue, seen.2);
    if at < queue.len() {
        queue.update(at, seen_again(queue[at], seen))
    } else {
        queue.push(first_seen(seen))
    }
}

/// No program waits twice, and each has at least one process, none of which comes twice.
pub open spec fn is_queue(queue: Seq<Waiting>) -> bool {
    &&& forall|i: int, j: int|
        0 <= i < j < queue.len() ==> (#[trigger] queue[i]).name != (#[trigger] queue[j]).name
    &&& forall|i: int|
        0 <= i < queue.len() ==> (#[trigger] queue[i]).instances.len() > 0 && in_order(
            queue[i].instances,
        )
}

pub proof fn lemma_position(queue: Seq<Waiting>, name: Seq<char>)
    ensures
        0 <= position(queue, name) <= queue.len(),
        position(queue, name) < queue.len() ==> queue[position(queue, name)].name == name,
        forall|i: int| 0 <= i < position(queue, name) ==> (#[trigger] queue[i]).name != name,
    decreases queue.len(),
{
    if queue.len() > 0 {
        let shorter = queue.drop_last();
        lemma_position(shorter, name);
        assert forall|i: int| 0 <= i < position(queue, name) implies (#[trigger] queue[i]).name
            != name by {
            if i < shorter.len() {
                assert(shorter[i] == queue[i]);
            }
        }
    }
}

/// A sighting keeps the queue in shape: afterwards the program waits exactly once, with the
/// process that was seen, and every other program waits as before.
pub proof fn law_sighting_keeps_the_queue(queue: Seq<Waiting>, seen: Sighting)
    requires
        is_queue(queue),
    ensures
        is_queue(enqueued(queue, seen)),
        position(queue, seen.2) < enqueued(queue, seen).len(),
        enqueued(queue, seen)[position(queue, seen.2)].name == seen.2,
        enqueued(queue, seen)[position(queue, seen.2)].instances.contains(seen),
        forall|i: int|
            0 <= i < queue.len() && i != position(queue, seen.2) ==> (#[trigger] enqueued(
                queue,
                seen,
            )[i]) == queue[i],
{
    let at = position(queue, seen.2);
    let after = enqueued(queue, seen);
    lemma_position(queue, seen.2);
    if at < queue.len() {
        law_instance_is_kept_once(queue[at].instances, seen);
        lemma_place(queue[at].instances, instance_key(seen));
        assert(after[at] == seen_again(queue[at], seen));
        assert forall|i: int| 0 <= i < after.len() implies (#[trigger] after[i]).name
            == queue[i].name by {}
    } else {
        assert(after[at] == first_seen(seen));
        assert(first_seen(seen).instances[0] == seen);
        assert forall|i: int, j: int| 0 <= i < j < after.len() implies (#[trigger] after[i]).name != (
        #[trigger] after[j]).name by {
            if j < queue.len() {
                assert(after[i] == queue[i] && after[j] == queue[j]);
            } else {
                assert(after[i] == queue[i]);
            }
        }
        assert forall|i: int| 0 <= i < after.len() implies (#[trigger] after[i]).instances.len() > 0
            && in_order(after[i].instances) by {
            if i < queue.len() {
                assert(after[i] == queue[i]);
            }
        }
    }
}

fn find_candidate(queue: &Vec<ClassifierCandidate>, name: &ImageName) -> (at: usize)
    ensures
        at == position(waiting(queue@), name@),
        at <= queue@.len(),
{
    let ghost all = waiting(queue@);
    let mut at: usize = 0;
    while at < queue.len()
        invariant
            at <= queue@.len(),
            all == waiting(queue@),
            forall|i: int| 0 <= i < at ==> (#[trigger] all[i]).name != name@,
        decreases queue@.len() - at,
    {
        assert(all[at as int] == queue@[at as int]@);
        if queue[at].normalized_image_name.same_name(name) {
            proof {
                lemma_position(all, name@);
                let found = position(all, name@);
                if found > at {
                    assert(all[at as int].name != name@);
                }
            }
            return at;
        }
        at = at + 1;
    }
    proof {
        lemma_position(all, name@);
    }
    at
}

fn enqueue(queue: &mut Vec<ClassifierCandidate>, observed: ObservedProcess)
    ensures
        waiting(final(queue)@) == enqueued(waiting(old(queue)@), observed@),
{
    let ghost all = waiting(queue@);
    let at = find_candidate(queue, &observed.image_name);
    if at < queue.len() {
        let mut candidate = queue[at].clone();
        assert(candidate@ == all[at as int]);
        candidate.image_name = observed.image_name.clone();
        candidate.image_path = observed.image_path.clone();
        candidate.last_seen_unix_seconds = observed.observed_unix_seconds;
        candidate.observation_count = candidate.observation_count.saturating_add(1);
        let ghost seen = observed@;
        insert_instance(&mut candidate.instances, observed);
        assert(candidate@ == seen_again(all[at as int], seen));
        queue.set(at, candidate);
        assert(waiting(queue@) =~= all.update(at as int, seen_again(all[at as int], seen)));
    } else {
        let ghost seen = observed@;
        let candidate = ClassifierCandidate {
            normalized_image_name: observed.normalized_image_name(),
            image_name: observed.image_name.clone(),
            image_path: observed.image_path.clone(),
            first_seen_unix_seconds: observed.observed_unix_seconds,
            last_seen_unix_seconds: observed.observed_unix_seconds,
            observation_count: 1,
            instances: vec![observed],
        };
        assert(sightings(candidate.instances@) =~= seq![seen]);
        queue.push(candidate);
        assert(waiting(queue@) =~= all.push(first_seen(seen)));
    }
}

/// A process of a program that has ended.
#[derive(Debug, Eq, PartialEq)]
pub struct GoneInstance {
    pub image: ImageName,
    pub process_id: u32,
    pub creation_time: u64,
}

/// Processes that leave.
#[derive(Debug, Eq, PartialEq)]
pub enum Departure {
    /// The process with the number, or only the one that was created at the given time.
    Process { process_id: u32, creation_time: Option<u64> },
    /// The listed processes of the listed programs.
    Instances(Vec<GoneInstance>),
}

pub open spec fn is_gone(gone: Seq<GoneInstance>, name: Seq<char>, key: (u32, u64)) -> bool {
    exists|i: int|
        0 <= i < gone.len() && (#[trigger] gone[i]).image@ == name && (
        gone[i].process_id,
        gone[i].creation_time,
    ) == key
}

pub open spec fn is_gone_key(gone: Seq<GoneInstance>, key: (u32, u64)) -> bool {
    exists|i: int|
        0 <= i < gone.len() && ((#[trigger] gone[i]).process_id, gone[i].creation_time) == key
}

fn lists_instance(gone: &Vec<GoneInstance>, name: &ImageName, pid: u32, created: u64) -> (listed:
    bool)
    ensures
        listed == is_gone(gone@, name@, (pid, created)),
{
    let mut i: usize = 0;
    while i < gone.len()
        invariant
            i <= gone@.len(),
            forall|j: int|
                0 <= j < i ==> !((#[trigger] gone@[j]).image@ == name@ && (
                gone@[j].process_id,
                gone@[j].creation_time,
            ) == (pid, created)),
        decreases gone@.len() - i,
    {
        if gone[i].process_id == pid && gone[i].creation_time == created
            && gone[i].image.same_name(name) {
            return true;
        }
        i = i + 1;
    }
    false
}

fn lists_key(gone: &Vec<GoneInstance>, pid: u32, created: u64) -> (listed: bool)
    ensures
        listed == is_gone_key(gone@, (pid, created)),
{
    let mut i: usize = 0;
    while i < gone.len()
        invariant
            i <= gone@.len(),
            forall|j: int|
                0 <= j < i ==> ((#[trigger] gone@[j]).process_id, gone@[j].creation_time) != (
                    pid,
                    created,
                ),
        decreases gone@.len() - i,
    {
        if gone[i].process_id == pid && gone[i].creation_time == created {
            return true;
        }
        i = i + 1;
    }
    false
}

impl Departure {
    /// The process `key` of the program `name` leaves.
    pub open spec fn takes(self, name: Seq<char>, key: (u32, u64)) -> bool {
        match self {
            Departure::Process { process_id, creation_time } => key.0 == process_id && (
            creation_time is None || creation_time == Some(key.1)),
            Departure::Instances(gone) => is_gone(gone@, name, key),
        }
    }

    /// What is known of the process `key` is forgotten.
    pub open spec fn forgets(self, key: (u32, u64)) -> bool {
        match self {
            Departure::Process { process_id, creation_time } => key.0 == process_id && (
            creation_time is None || creation_time == Some(key.1)),
            Departure::Instances(gone) => is_gone_key(gone@, key),
        }
    }

    fn takes_instance(&self, name: &ImageName, pid: u32, created: u64) -> (leaves: bool)
        ensures
            leaves == self.takes(name@, (pid, created)),
    {
        match self {
            Departure::Process { process_id, creation_time } => pid == *process_id
                && match creation_time {
                Some(expected) => *expected == created,
                None => true,
            },
            Departure::Instances(gone) => lists_instance(gone, name, pid, created),
        }
    }

    fn forgets_instance(&self, pid: u32, created: u64) -> (forgotten: bool)
        ensures
            forgotten == self.forgets((pid, created)),
    {
        match self {
            Departure::Process { process_id, creation_time } => pid == *process_id
                && match creation_time {
                Some(expected) => *expected == created,
                None => true,
            },
            Departure::Instances(gone) => lists_key(gone, pid, created),
        }
    }
}

/// A waiting program without the processes that leave.
pub open spec fn without_departed(candidate: Waiting, departure: Departure) -> Waiting {
    Waiting {
        instances: candidate.instances.filter(
            |seen: Sighting| !departure.takes(candidate.name, instance_key(seen)),
        ),
        ..candidate
    }
}

/// The queue without the processes that leave and the programs that have none left.
pub open spec fn departed(queue: Seq<Waiting>, departure: Departure) -> Seq<Waiting> {
    queue.map_values(|candidate: Waiting| without_departed(candidate, departure)).filter(
        |candidate: Waiting| candidate.instances.len() > 0,
    )
}

fn remaining_instances(candidate: &ClassifierCandidate, departure: &Departure) -> (left: Vec<
    ObservedProcess,
>)
    ensures
        sightings(left@) == without_departed(candidate@, *departure).instances,
{
    let keep: Ghost<spec_fn(Sighting) -> bool> = Ghost(
        |seen: Sighting| !departure.takes(candidate@.name, instance_key(seen)),
    );
    let ghost all = sightings(candidate.instances@);
    let mut left: Vec<ObservedProcess> = Vec::new();
    let mut i: usize = 0;
    assert(sightings(left@) =~= all.subrange(0, 0).filter(keep@)) by {
        reveal(Seq::filter);
    }
    while i < candidate.instances.len()
        invariant
            i <= candidate.instances@.len(),
            all == sightings(candidate.instances@),
            keep@ == (|seen: Sighting| !departure.takes(candidate@.name, instance_key(seen))),
            sightings(left@) == all.subrange(0, i as int).filter(keep@),
        decreases candidate.instances@.len() - i,
    {
        let ghost before = all.subrange(0, i as int);
        let observed = &candidate.instances[i];
        assert(all[i as int] == observed@);
        assert(all.subrange(0, i + 1) =~= before.push(observed@));
        proof {
            reveal(Seq::filter);
            assert(before.push(observed@).drop_last() =~= before);
        }
        if !departure.takes_instance(
            &candidate.normalized_image_name,
            observed.process_id,
            observed.creation_time,
        ) {
            let ghost longer = sightings(left@).push(observed@);
            left.push(observed.clone());
            assert(sightings(left@) =~= longer);
        }
        i = i + 1;
    }
    assert(all.subrange(0, all.len() as int) =~= all);
    left
}

/// The queue without the processes that leave and the programs that have none left.
pub fn remaining_candidates(queue: &Vec<ClassifierCandidate>, departure: &Departure) -> (left: Vec<
    ClassifierCandidate,
>)
    ensures
        waiting(left@) == departed(waiting(queue@), *departure),
{
    let keep: Ghost<spec_fn(Waiting) -> bool> = Ghost(
        |candidate: Waiting| candidate.instances.len() > 0,
    );
    let ghost all = waiting(queue@).map_values(
        |candidate: Waiting| without_departed(candidate, *departure),
    );
    let mut left: Vec<ClassifierCandidate> = Vec::new();
    let mut i: usize = 0;
    assert(waiting(left@) =~= all.subrange(0, 0).filter(keep@)) by {
        reveal(Seq::filter);
    }
    while i < queue.len()
        invariant
            i <= queue@.len(),
            all == waiting(queue@).map_values(
                |candidate: Waiting| without_departed(candidate, *departure),
            ),
            keep@ == (|candidate: Waiting| candidate.instances.len() > 0),
            waiting(left@) == all.subrange(0, i as int).filter(keep@),
        decreases queue@.len() - i,
    {
        let ghost before = all.subrange(0, i as int);
        let candidate = &queue[i];
        assert(all[i as int] == without_departed(candidate@, *departure));
        assert(all.subrange(0, i + 1) =~= before.push(all[i as int]));
        proof {
            reveal(Seq::filter);
            assert(before.push(all[i as int]).drop_last() =~= before);
        }
        let instances = remaining_instances(candidate, departure);
        assert(sightings(instances@).len() == instances@.len());
        if instances.len() > 0 {
            let ghost longer = waiting(left@).push(all[i as int]);
            let kept = ClassifierCandidate {
                normalized_image_name: candidate.normalized_image_name.clone(),
                image_name: candidate.image_name.clone(),
                image_path: candidate.image_path.clone(),
                first_seen_unix_seconds: candidate.first_seen_unix_seconds,
                last_seen_unix_seconds: candidate.last_seen_unix_seconds,
                observation_count: candidate.observation_count,
                instances,
            };
            assert(kept@ == all[i as int]);
            left.push(kept);
            assert(waiting(left@) =~= longer);
        }
        i = i + 1;
    }
    assert(all.subrange(0, all.len() as int) =~= all);
    left
}

/// What is seen of a process at once.
#[derive(Clone, Copy, Debug, Eq, PartialEq, Structural)]
pub struct CategoricalProcessMetrics {
    pub has_visible_window: bool,
    pub likely_game: bool,
}

impl Default for CategoricalProcessMetrics {
    fn default() -> (metrics: Self)
        ensures
            !metrics.has_visible_window,
            !metrics.likely_game,
    {
        CategoricalProcessMetrics { has_visible_window: false, likely_game: false }
    }
}

/// A measurement of a process.
#[derive(Debug, Eq, PartialEq)]
pub struct ProcessInstanceMetrics {
    pub observed: ObservedProcess,
    pub kernel_time: u64,
    pub user_time: u64,
    pub categorical_metrics: CategoricalProcessMetrics,
}

/// What a measurement says of a process.
pub struct Measurement {
    pub seen: Sighting,
    pub kernel_time: u64,
    pub user_time: u64,
    pub categorical_metrics: CategoricalProcessMetrics,
}

impl View for ProcessInstanceMetrics {
    type V = Measurement;

    open spec fn view(&self) -> Measurement {
        Measurement {
            seen: self.observed@,
            kernel_time: self.kernel_time,
            user_time: self.user_time,
            categorical_metrics: self.categorical_metrics,
        }
    }
}

impl ProcessInstanceMetrics {
    pub open spec fn key(self) -> (u32, u64) {
        instance_key(self.observed@)
    }
}

impl Clone for ProcessInstanceMetrics {
    fn clone(&self) -> (copied: Self)
        ensures
            copied@ == self@,
    {
        ProcessInstanceMetrics {
            observed: self.observed.clone(),
            kernel_time: self.kernel_time,
            user_time: self.user_time,
            categorical_metrics: self.categorical_metrics,
        }
    }
}

/// The last measurement of the process `key`.
pub open spec fn sample_of(history: Seq<ProcessInstanceMetrics>, key: (u32, u64)) -> Option<
    Measurement,
>
    decreases history.len(),
{
    if history.len() == 0 {
        None
    } else if history.last().key() == key {
        Some(history.last()@)
    } else {
        sample_of(history.drop_last(), key)
    }
}

/// No process is in the history twice.
pub open spec fn is_history(history: Seq<ProcessInstanceMetrics>) -> bool {
    forall|i: int, j: int|
        0 <= i < j < history.len() ==> (#[trigger] history[i]).key() != (#[trigger] history[j]).key()
}

pub proof fn lemma_sample(history: Seq<ProcessInstanceMetrics>, key: (u32, u64))
    ensures
        sample_of(history, key) is None <==> forall|i: int|
            0 <= i < history.len() ==> (#[trigger] history[i]).key() != key,
    decreases history.len(),
{
    if history.len() > 0 {
        let shorter = history.drop_last();
        lemma_sample(shorter, key);
        assert(history[history.len() - 1] == history.last());
        if history.last().key() != key {
            if sample_of(shorter, key) is None {
                assert forall|i: int| 0 <= i < history.len() implies (#[trigger] history[i]).key()
                    != key by {
                    if i < shorter.len() {
                        assert(shorter[i] == history[i]);
                    }
                }
            } else {
                let i = choose|i: int| 0 <= i < shorter.len() && (#[trigger] shorter[i]).key() == key;
                assert(history[i] == shorter[i]);
            }
        }
    }
}

pub proof fn lemma_sample_at(history: Seq<ProcessInstanceMetrics>, at: int)
    requires
        is_history(history),
        0 <= at < history.len(),
    ensures
        sample_of(history, history[at].key()) == Some(history[at]@),
    decreases history.len(),
{
    if at < history.len() - 1 {
        let shorter = history.drop_last();
        assert(history[at].key() != history[history.len() - 1].key());
        assert forall|i: int, j: int| 0 <= i < j < shorter.len() implies (
        #[trigger] shorter[i]).key() != (#[trigger] shorter[j]).key() by {
            assert(shorter[i] == history[i] && shorter[j] == history[j]);
        }
        lemma_sample_at(shorter, at);
        assert(shorter[at] == history[at]);
    }
}

fn find_sample(history: &Vec<ProcessInstanceMetrics>, pid: u32, created: u64) -> (at: usize)
    requires
        is_history(history@),
    ensures
        at <= history@.len(),
        at < history@.len() ==> history@[at as int].key() == (pid, created) && sample_of(
            history@,
            (pid, created),
        ) == Some(history@[at as int]@),
        at == history@.len() ==> sample_of(history@, (pid, created)) is None,
{
    let mut at: usize = 0;
    while at < history.len()
        invariant
            at <= history@.len(),
            is_history(history@),
            forall|i: int| 0 <= i < at ==> (#[trigger] history@[i]).key() != (pid, created),
        decreases history@.len() - at,
    {
        let (process_id, creation_time) = process_instance_key(&history[at].observed);
        if process_id == pid && creation_time == created {
            proof {
                lemma_sample_at(history@, at as int);
            }
            return at;
        }
        at = at + 1;
    }
    proof {
        lemma_sample(history@, (pid, created));
    }
    at
}

/// Notes a measurement, in place of an earlier one of the same process.
fn put_sample(history: &mut Vec<ProcessInstanceMetrics>, sample: ProcessInstanceMetrics) -> (previous: Option<
    ProcessInstanceMetrics,
>)
    requires
        is_history(old(history)@),
    ensures
        is_history(final(history)@),
        forall|key: (u32, u64)| #[trigger]
            sample_of(final(history)@, key) == if key == sample.key() {
                Some(sample@)
            } else {
                sample_of(old(history)@, key)
            },
        match previous {
            Some(previous) => previous.key() == sample.key() && sample_of(
                old(history)@,
                sample.key(),
            ) == Some(previous@),
            None => sample_of(old(history)@, sample.key()) is None,
        },
{
    let ghost before = history@;
    let (process_id, creation_time) = process_instance_key(&sample.observed);
    let at = find_sample(history, process_id, creation_time);
    if at < history.len() {
        let previous = history[at].clone();
        history.set(at, sample);
        let ghost after = history@;
        assert forall|i: int, j: int| 0 <= i < j < after.len() implies (#[trigger] after[i]).key() != (
        #[trigger] after[j]).key() by {
            assert(before[i].key() == after[i].key() && before[j].key() == after[j].key());
        }
        assert forall|key: (u32, u64)| #[trigger]
            sample_of(after, key) == if key == sample.key() {
                Some(sample@)
            } else {
                sample_of(before, key)
            } by {
            if key == sample.key() {
                lemma_sample_at(after, at as int);
            } else {
                lemma_other_sample(before, at as int, sample, key);
            }
        }
        Some(previous)
    } else {
        history.push(sample);
        assert(history@.drop_last() =~= before);
        proof {
            lemma_sample(before, sample.key());
        }
        assert forall|i: int, j: int| 0 <= i < j < history@.len() implies (
        #[trigger] history@[i]).key() != (#[trigger] history@[j]).key() by {
            assert(history@[i] == before[i]);
            if j < before.len() {
                assert(history@[j] == before[j]);
            }
        }
        None
    }
}

proof fn lemma_other_sample(
    history: Seq<ProcessInstanceMetrics>,
    at: int,
    sample: ProcessInstanceMetrics,
    key: (u32, u64),
)
    requires
        0 <= at < history.len(),
        history[at].key() == sample.key(),
        key != sample.key(),
    ensures
        sample_of(history.update(at, sample), key) == sample_of(history, key),
    decreases history.len(),
{
    let after = history.update(at, sample);
    if at == history.len() - 1 {
        assert(after.drop_last() =~= history.drop_last());
    } else {
        assert(after.drop_last() =~= history.drop_last().update(at, sample));
        lemma_other_sample(history.drop_last(), at, sample, key);
    }
}

/// Forgets the measurements of the processes that leave.
fn forget_samples(history: &mut Vec<ProcessInstanceMetrics>, departure: &Departure)
    requires
        is_history(old(history)@),
    ensures
        is_history(final(history)@),
        forall|key: (u32, u64)| #[trigger]
            sample_of(final(history)@, key) == if departure.forgets(key) {
                None
            } else {
                sample_of(old(history)@, key)
            },
{
    let ghost all = history@;
    let mut kept: Vec<ProcessInstanceMetrics> = Vec::new();
    let mut i: usize = 0;
    while i < history.len()
        invariant
            i <= history@.len(),
            history@ == all,
            is_history(all),
            is_history(kept@),
            forall|key: (u32, u64)| #[trigger]
                sample_of(kept@, key) == if departure.forgets(key) {
                    None
                } else {
                    sample_of(all.subrange(0, i as int), key)
                },
        decreases history@.len() - i,
    {
        let ghost before = kept@;
        let ghost shorter = all.subrange(0, i as int);
        let sample = history[i].clone();
        assert(all.subrange(0, i + 1).drop_last() =~= shorter);
        assert(all.subrange(0, i + 1).last()@ == sample@);
        proof {
            lemma_sample(shorter, sample.key());
            assert(sample_of(shorter, sample.key()) is None) by {
                assert forall|j: int| 0 <= j < shorter.len() implies (#[trigger] shorter[j]).key()
                    != sample.key() by {
                    assert(shorter[j] == all[j] && all[i as int].key() == sample.key());
                }
            }
            lemma_sample(before, sample.key());
        }
        let (process_id, creation_time) = process_instance_key(&sample.observed);
        if !departure.forgets_instance(process_id, creation_time) {
            kept.push(sample);
            assert(kept@.drop_last() =~= before);
            assert forall|a: int, b: int| 0 <= a < b < kept@.len() implies (
            #[trigger] kept@[a]).key() != (#[trigger] kept@[b]).key() by {
                assert(kept@[a] == before[a]);
                if b < before.len() {
                    assert(kept@[b] == before[b]);
                } else {
                    assert(sample_of(before, sample.key()) is None);
                }
            }
        }
        assert forall|key: (u32, u64)| #[trigger]
            sample_of(kept@, key) == if departure.forgets(key) {
                None
            } else {
                sample_of(all.subrange(0, i + 1), key)
            } by {
            assert(sample_of(before, key) == if departure.forgets(key) {
                None
            } else {
                sample_of(shorter, key)
            });
        }
        i = i + 1;
    }
    assert(all.subrange(0, all.len() as int) =~= all);
    *history = kept;
}

/// What has changed since the measurement before.
#[derive(Debug, Eq, PartialEq)]
pub struct ProcessInstanceMetricDelta {
    pub observed: ObservedProcess,
    pub current: ProcessInstanceMetrics,
    pub previous: Option<ProcessInstanceMetrics>,
    pub kernel_time_delta: Option<u64>,
    pub user_time_delta: Option<u64>,
}

pub open spec fn difference(current: u64, previous: u64) -> u64 {
    if current >= previous {
        (current - previous) as u64
    } else {
        0
    }
}

/// `delta` is the change from `previous` to `current`, which are of one process.
pub open spec fn is_delta(
    delta: ProcessInstanceMetricDelta,
    current: ProcessInstanceMetrics,
    previous: Option<Measurement>,
) -> bool {
    &&& delta.observed@ == current.observed@
    &&& delta.current@ == current@
    &&& match previous {
        Some(earlier) => {
            &&& delta.previous matches Some(sample) && sample@ == earlier && sample.key()
                == instance_key(current.observed@)
            &&& delta.kernel_time_delta == Some(
                difference(current.kernel_time, earlier.kernel_time),
            )
            &&& delta.user_time_delta == Some(difference(current.user_time, earlier.user_time))
        },
        None => delta.previous is None && delta.kernel_time_delta is None
            && delta.user_time_delta is None,
    }
}

/// The last measurement of the process `key` after the first `count` of `instances` were added.
pub open spec fn sample_after(
    history: Seq<ProcessInstanceMetrics>,
    instances: Seq<ProcessInstanceMetrics>,
    count: int,
    key: (u32, u64),
) -> Option<Measurement>
    decreases count,
{
    if count <= 0 {
        sample_of(history, key)
    } else if instance_key(instances[count - 1].observed@) == key {
        Some(instances[count - 1]@)
    } else {
        sample_after(history, instances, count - 1, key)
    }
}

/// Adds the changes of kernel time and user time.
pub fn total_time_delta(kernel_time_delta: Option<u64>, user_time_delta: Option<u64>) -> (total:
    Option<u64>)
    ensures
        total == match (kernel_time_delta, user_time_delta) {
            (Some(kernel), Some(user)) => Some(
                if kernel + user > u64::MAX {
                    u64::MAX
                } else {
                    (kernel + user) as u64
                },
            ),
            _ => None,
        },
{
    match (kernel_time_delta, user_time_delta) {
        (Some(kernel), Some(user)) => Some(kernel.saturating_add(user)),
        _ => None,
    }
}

/// One of the processes has a visible window.
pub open spec fn any_window(instances: Seq<ProcessInstanceMetrics>) -> bool {
    exists|i: int|
        0 <= i < instances.len() && (#[trigger] instances[i]).categorical_metrics.has_visible_window
}

/// One of the processes is likely a game.
pub open spec fn any_game(instances: Seq<ProcessInstanceMetrics>) -> bool {
    exists|i: int|
        0 <= i < instances.len() && (#[trigger] instances[i]).categorical_metrics.likely_game
}

/// Something holds of the program if it holds of one of its processes.
pub fn aggregate_categorical_metrics(instances: &Vec<ProcessInstanceMetrics>) -> (aggregate:
    CategoricalProcessMetrics)
    ensures
        aggregate.has_visible_window <==> exists|i: int|
            0 <= i < instances@.len() && (
            #[trigger] instances@[i]).categorical_metrics.has_visible_window,
        aggregate.likely_game <==> exists|i: int|
            0 <= i < instances@.len() && (#[trigger] instances@[i]).categorical_metrics.likely_game,
        aggregate.has_visible_window == any_window(instances@),
        aggregate.likely_game == any_game(instances@),
{
    let mut aggregate = CategoricalProcessMetrics::default();
    let mut i: usize = 0;
    while i < instances.len()
        invariant
            i <= instances@.len(),
            aggregate.has_visible_window <==> exists|j: int|
                0 <= j < i && (#[trigger] instances@[j]).categorical_metrics.has_visible_window,
            aggregate.likely_game <==> exists|j: int|
                0 <= j < i && (#[trigger] instances@[j]).categorical_metrics.likely_game,
        decreases instances@.len() - i,
    {
        let own = instances[i].categorical_metrics;
        aggregate.has_visible_window = aggregate.has_visible_window || own.has_visible_window;
        aggregate.likely_game = aggregate.likely_game || own.likely_game;
        i = i + 1;
    }
    aggregate
}

/// What is decided about a waiting program.
#[derive(Debug, Eq, PartialEq)]
pub enum ClassificationDecisionState {
    Missing,
    Conclusive(StoredProcessDecision),
    NeedsClassification(StoredProcessDecision),
    Invalid { decision: StoredProcessDecision, error: String },
    StoreError { error: String },
}

impl ClassificationDecisionState {
    pub fn is_classifiable(&self) -> (classifiable: bool)
        ensures
            classifiable == !(self is Conclusive),
    {
        match self {
            ClassificationDecisionState::Conclusive(_) => false,
            _ => true,
        }
    }
}

/// What the answer of the store means: a decision is conclusive if it is sure enough and can be
/// used.
pub open spec fn is_decision_state(
    state: ClassificationDecisionState,
    answer: Result<Option<StoredProcessDecision>, StorageError>,
    threshold: Confidence,
) -> bool {
    match answer {
        Ok(None) => state is Missing,
        Ok(Some(decision)) => if !decision.confidence.reaches(threshold) {
            state == ClassificationDecisionState::NeedsClassification(decision)
        } else if storage::is_valid(decision.decision, decision.confidence) {
            state == ClassificationDecisionState::Conclusive(decision)
        } else {
            state matches ClassificationDecisionState::Invalid { decision: kept, error } && kept
                == decision && exists|refusal: StorageError| #[trigger]
                storage::refuses(refusal, decision.decision, decision.confidence) && error@
                    == refusal.words()
        },
        Err(failure) => state matches ClassificationDecisionState::StoreError { error } && error@
            == failure.words(),
    }
}

pub fn decision_state(
    answer: Result<Option<StoredProcessDecision>, StorageError>,
    threshold: Confidence,
) -> (state: ClassificationDecisionState)
    ensures
        is_decision_state(state, answer, threshold),
{
    match answer {
        Ok(None) => ClassificationDecisionState::Missing,
        Ok(Some(decision)) => {
            if !decision.is_conclusive(threshold) {
                return ClassificationDecisionState::NeedsClassification(decision);
            }
            match decision.to_process_rule() {
                Ok(_) => ClassificationDecisionState::Conclusive(decision),
                Err(error) => {
                    let words = error.message();
                    assert(storage::refuses(error, decision.decision, decision.confidence));
                    ClassificationDecisionState::Invalid { decision, error: words }
                },
            }
        },
        Err(failure) => ClassificationDecisionState::StoreError { error: failure.message() },
    }
}

/// What a heuristic concludes about a program.
#[derive(Debug, Eq, PartialEq)]
pub struct HeuristicDecisionOutcome {
    pub mode: ProcessMode,
    pub affinity: Option<String>,
    pub reason: Option<String>,
    pub confidence: Confidence,
    pub heuristic_name: String,
    pub heuristic_version: String,
}

/// The terms of the outcome's affinity.
pub open spec fn outcome_terms(outcome: HeuristicDecisionOutcome) -> Seq<
    crate::affinity::AffinityTerm,
> {
    match outcome.affinity {
        Some(source) => crate::affinity::terms_of(source@),
        None => Seq::empty(),
    }
}

/// The outcome can be stored: its affinity is an expression and its confidence is finite.
pub open spec fn is_storable(outcome: HeuristicDecisionOutcome) -> bool {
    (outcome.affinity matches Some(source) ==> crate::affinity::is_expression(source@))
        && outcome.confidence.finite()
}

/// `decision` is what the outcome decides for the program `candidate`.
pub open spec fn is_outcome_decision(
    decision: StoredProcessDecision,
    outcome: HeuristicDecisionOutcome,
    candidate: Waiting,
) -> bool {
    &&& decision.identity.image@ == candidate.image_name
    &&& decision.identity.image_path matches Some(path) && path@ == candidate.image_path
    &&& decision.decision.0 == storage::encoded(outcome.mode, outcome_terms(outcome))
    &&& decision.confidence == outcome.confidence
}

impl HeuristicDecisionOutcome {
    pub fn to_stored_decision(&self, candidate: &ClassifierCandidate) -> (decision: Result<
        StoredProcessDecision,
        String,
    >)
        ensures
            match decision {
                Ok(decision) => is_storable(*self) && is_outcome_decision(
                    decision,
                    *self,
                    candidate@,
                ),
                Err(message) => !is_storable(*self) && match self.affinity {
                    Some(source) => if crate::affinity::is_expression(source@) {
                        message@ == "invalid stored value: "@ + "confidence must be finite"@
                    } else {
                        crate::affinity::is_refused_source(source@, message@)
                    },
                    None => message@ == "invalid stored value: "@ + "confidence must be finite"@,
                },
            },
    {
        let affinity = match &self.affinity {
            Some(source) => match AffinityExpression::parse(source.clone()) {
                Ok(expression) => Some(expression),
                Err(message) => {
                    proof {
                        crate::affinity::lemma_refused_is_no_expression(source@, message@);
                    }
                    return Err(message);
                },
            },
            None => None,
        };
        assert(storage::expression_terms(affinity) == outcome_terms(*self));
        match StoredProcessDecision::new(
            ApplicationIdentity::from_image_name(
                candidate.image_name.clone(),
                candidate.image_path.as_str(),
            ),
            self.mode,
            affinity,
            self.confidence,
        ) {
            Ok(decision) => Ok(decision),
            Err(error) => Err(error.message()),
        }
    }
}

/// A waiting program together with what was measured and decided.
#[derive(Debug, Eq, PartialEq)]
pub struct ClassificationSnapshot {
    pub candidate: ClassifierCandidate,
    pub instances: Vec<ProcessInstanceMetrics>,
    pub instance_deltas: Vec<ProcessInstanceMetricDelta>,
    pub categorical_metrics: CategoricalProcessMetrics,
    pub decision_state: ClassificationDecisionState,
}

/// What a valid outcome leads to: a decision to store and a rule to apply.
#[derive(Debug, Eq, PartialEq)]
pub struct PreparedOutcome {
    pub decision: StoredProcessDecision,
    pub rule: ProcessRule,
    pub conclusive: bool,
}

/// What is to be done about the outcome for a program: nothing if the program is settled or the
/// outcome is not valid.
pub fn prepare_outcome(
    snapshot: &ClassificationSnapshot,
    outcome: &HeuristicDecisionOutcome,
    threshold: Confidence,
) -> (prepared: Option<PreparedOutcome>)
    ensures
        match prepared {
            Some(prepared) => {
                &&& !(snapshot.decision_state is Conclusive)
                &&& is_storable(*outcome)
                &&& is_outcome_decision(prepared.decision, *outcome, snapshot.candidate@)
                &&& storage::is_decided_rule(prepared.rule, prepared.decision)
                &&& prepared.conclusive == outcome.confidence.reaches(threshold)
            },
            None => snapshot.decision_state is Conclusive || !is_storable(*outcome),
        },
{
    if !snapshot.decision_state.is_classifiable() {
        return None;
    }
    let decision = match outcome.to_stored_decision(&snapshot.candidate) {
        Ok(decision) => decision,
        Err(_) => {
            return None;
        },
    };
    proof {
        storage::law_encoding_reads_back(outcome.mode, outcome_terms(*outcome));
    }
    let conclusive = outcome.confidence.at_least(threshold);
    match decision.to_process_rule() {
        Ok(rule) => Some(PreparedOutcome { decision, rule, conclusive }),
        Err(_) => None,
    }
}

/// The observation of a waiting program.
pub fn candidate_observation(candidate: &ClassifierCandidate) -> (observation: ProcessObservation)
    ensures
        is_observation_of(observation, candidate@),
{
    ProcessObservation {
        identity: ApplicationIdentity::from_image_name(
            candidate.image_name.clone(),
            candidate.image_path.as_str(),
        ),
        observed_unix_seconds: candidate.last_seen_unix_seconds,
    }
}

/// `observation` is that of a waiting program.
pub open spec fn is_observation_of(observation: ProcessObservation, candidate: Waiting) -> bool {
    &&& observation.identity.image@ == candidate.image_name
    &&& observation.identity.image_path matches Some(path) && path@ == candidate.image_path
    &&& observation.observed_unix_seconds == candidate.last_seen
}

/// The store was told of the program, and answered.
pub open spec fn is_recorded<S: ApplicationDecisionStore>(
    decision_store: &S,
    candidate: Waiting,
    answer: Result<ApplicationRecord, StorageError>,
) -> bool {
    exists|observation: ProcessObservation| #[trigger]
        storage::was_told(decision_store, observation, answer) && is_observation_of(
            observation,
            candidate,
        )
}

/// The failures among the answers, each with the place of its answer.
pub open spec fn failures_of(answers: Seq<Result<ApplicationRecord, StorageError>>) -> Seq<
    (usize, StorageError),
>
    decreases answers.len(),
{
    if answers.len() == 0 {
        Seq::empty()
    } else {
        let earlier = failures_of(answers.drop_last());
        match answers.last() {
            Ok(_) => earlier,
            Err(error) => earlier.push(((answers.len() - 1) as usize, error)),
        }
    }
}

/// The answers of a store that was told of every program, in their order.
pub open spec fn are_answers<S: ApplicationDecisionStore>(
    decision_store: &S,
    snapshots: Seq<ClassificationSnapshot>,
    answers: Seq<Result<ApplicationRecord, StorageError>>,
) -> bool {
    &&& answers.len() == snapshots.len()
    &&& forall|i: int|
        0 <= i < answers.len() ==> is_recorded(
            decision_store,
            snapshots[i].candidate@,
            #[trigger] answers[i],
        )
}

/// Tells the store of every program that was looked at, and gives the failures, each with the
/// place of the program. A failure keeps no other program from being recorded.
pub fn record_observations<S: ApplicationDecisionStore>(
    decision_store: &S,
    snapshots: &Vec<ClassificationSnapshot>,
) -> (failures: Vec<(usize, StorageError)>)
    ensures
        exists|answers: Seq<Result<ApplicationRecord, StorageError>>| #[trigger]
            are_answers(decision_store, snapshots@, answers) && failures@ == failures_of(answers),
{
    let mut failures: Vec<(usize, StorageError)> = Vec::new();
    let ghost mut answers: Seq<Result<ApplicationRecord, StorageError>> = Seq::empty();
    let mut i: usize = 0;
    while i < snapshots.len()
        invariant
            i <= snapshots@.len(),
            answers.len() == i,
            forall|k: int|
                0 <= k < i ==> is_recorded(
                    decision_store,
                    snapshots@[k].candidate@,
                    #[trigger] answers[k],
                ),
            failures@ == failures_of(answers),
        decreases snapshots@.len() - i,
    {
        let observation = candidate_observation(&snapshots[i].candidate);
        let ghost told = observation;
        let answer = decision_store.record_observation(observation);
        proof {
            let before = answers;
            assert(storage::was_told(decision_store, told, answer));
            assert(is_recorded(decision_store, snapshots@[i as int].candidate@, answer));
            answers = answers.push(answer);
            assert(answers.drop_last() =~= before);
        }
        if let Err(error) = answer {
            failures.push((i, error));
        }
        i = i + 1;
    }
    assert(are_answers(decision_store, snapshots@, answers));
    failures
}

/// What becomes of a process that is handed in.
#[derive(Debug, Eq, PartialEq)]
pub enum ClassifierSubmission {
    Queued,
    Disqualified,
    StaticPolicy(ProcessRule),
}

/// What the worker does next.
#[derive(Clone, Copy, Debug, Eq, PartialEq, Structural)]
pub enum WorkerStep {
    Exit,
    Run,
    Wait,
}

/// The names of several programs.
pub open spec fn names_of(names: Seq<ImageName>) -> Seq<Seq<char>> {
    names.map_values(|name: ImageName| name@)
}

/// The queue without the programs `names`.
pub open spec fn without_named(queue: Seq<Waiting>, names: Seq<Seq<char>>) -> Seq<Waiting> {
    queue.filter(|candidate: Waiting| !names.contains(candidate.name))
}

/// The process `key` runs one of the programs `names` of the queue.
pub open spec fn runs_named(queue: Seq<Waiting>, names: Seq<Seq<char>>, key: (u32, u64)) -> bool {
    exists|i: int, j: int|
        0 <= i < queue.len() && 0 <= j < queue[i].instances.len() && names.contains(queue[i].name)
            && instance_key(#[trigger] queue[i].instances[j]) == key
}

/// The programs that wait, what was measured of their processes, and whether a worker looks after
/// them.
pub struct HeuristicClassifier {
    pub queue: Vec<ClassifierCandidate>,
    pub history: Vec<ProcessInstanceMetrics>,
    pub running: bool,
    pub stopped: bool,
    pub confidence_threshold: Confidence,
    pub exclusions: ExclusionList,
}

impl HeuristicClassifier {
    pub open spec fn wf(self) -> bool {
        is_queue(waiting(self.queue@)) && is_history(self.history@) && self.exclusions.is_ready()
    }

    /// Everything but the queue and the history is the same.
    pub open spec fn same_settings(self, other: Self) -> bool {
        &&& self.running == other.running
        &&& self.stopped == other.stopped
        &&& self.confidence_threshold == other.confidence_threshold
        &&& self.exclusions == other.exclusions
    }

    pub fn new(confidence_threshold: Confidence) -> (classifier: Self)
        ensures
            classifier.wf(),
            classifier.queue@.len() == 0,
            classifier.history@.len() == 0,
            !classifier.running,
            !classifier.stopped,
            classifier.confidence_threshold == confidence_threshold,
    {
        HeuristicClassifier {
            queue: Vec::new(),
            history: Vec::new(),
            running: false,
            stopped: false,
            confidence_threshold,
            exclusions: ExclusionList::new(),
        }
    }

    /// The program is not to be classified at all.
    pub open spec fn disqualifies(self, observed: ObservedProcess, critical: bool) -> bool {
        self.stopped || critical || exclusion::is_excluded(observed.image_name@)
    }

    /// Takes in a process. `critical` tells whether the system depends on it. A decision that is
    /// known beforehand goes to the store, whether or not the store takes it.
    pub fn classify<S: ApplicationDecisionStore>(
        &mut self,
        decision_store: &S,
        observed: ObservedProcess,
        critical: bool,
    ) -> (submission: ClassifierSubmission)
        requires
            old(self).wf(),
        ensures
            final(self).wf(),
            final(self).same_settings(*old(self)),
            final(self).history == old(self).history,
            if old(self).disqualifies(observed, critical) {
                submission is Disqualified && final(self).queue == old(self).queue
            } else if defaults::known_policy(observed.image_name@) is Some {
                final(self).queue == old(self).queue && match submission {
                    ClassifierSubmission::StaticPolicy(rule) => old(self).confidence_threshold.finite() && exists|builtin: defaults::BuiltinDecision|
                        builtin.rule == rule && #[trigger] defaults::is_known(
                            builtin,
                            observed,
                            old(self).confidence_threshold,
                        ) && storage::was_handed(decision_store, builtin.decision),
                    ClassifierSubmission::Disqualified => !old(self).confidence_threshold.finite(),
                    ClassifierSubmission::Queued => false,
                }
            } else {
                submission is Queued && waiting(final(self).queue@) == enqueued(
                    waiting(old(self).queue@),
                    observed@,
                )
            },
    {
        if self.stopped {
            return ClassifierSubmission::Disqualified;
        }
        if critical {
            return ClassifierSubmission::Disqualified;
        }
        if self.exclusions.is_excluded_image_name(&observed.image_name) {
            return ClassifierSubmission::Disqualified;
        }
        if defaults::static_policy(&observed.image_name).is_some() {
            return match defaults::apply_builtin_static_policy(
                decision_store,
                &observed,
                self.confidence_threshold,
            ) {
                Some(rule) => ClassifierSubmission::StaticPolicy(rule),
                None => ClassifierSubmission::Disqualified,
            };
        }
        proof {
            law_sighting_keeps_the_queue(waiting(self.queue@), observed@);
        }
        enqueue(&mut self.queue, observed);
        ClassifierSubmission::Queued
    }

    /// Takes out a process that has ended. Without a creation time every process with the number
    /// is taken out.
    pub fn remove_process(&mut self, process_id: u32, creation_time: Option<u64>)
        requires
            old(self).wf(),
        ensures
            final(self).wf(),
            final(self).same_settings(*old(self)),
            waiting(final(self).queue@) == departed(
                waiting(old(self).queue@),
                (Departure::Process { process_id, creation_time }),
            ),
            forall|key: (u32, u64)| #[trigger]
                sample_of(final(self).history@, key) == if key.0 == process_id && (
                creation_time is None || creation_time == Some(key.1)) {
                    None
                } else {
                    sample_of(old(self).history@, key)
                },
    {
        self.depart(&Departure::Process { process_id, creation_time });
    }

    /// Takes out the processes that leave.
    pub fn depart(&mut self, departure: &Departure)
        requires
            old(self).wf(),
        ensures
            final(self).wf(),
            final(self).same_settings(*old(self)),
            waiting(final(self).queue@) == departed(waiting(old(self).queue@), *departure),
            forall|key: (u32, u64)| #[trigger]
                sample_of(final(self).history@, key) == if departure.forgets(key) {
                    None
                } else {
                    sample_of(old(self).history@, key)
                },
    {
        proof {
            law_departure_keeps_the_queue(waiting(self.queue@), *departure);
        }
        self.queue = remaining_candidates(&self.queue, departure);
        forget_samples(&mut self.history, departure);
    }

    /// The programs that wait, as they are now.
    pub fn queued_candidates(&self) -> (batch: Vec<ClassifierCandidate>)
        ensures
            waiting(batch@) == waiting(self.queue@),
    {
        let mut batch: Vec<ClassifierCandidate> = Vec::new();
        let mut i: usize = 0;
        while i < self.queue.len()
            invariant
                i <= self.queue@.len(),
                batch@.len() == i,
                forall|j: int| 0 <= j < i ==> (#[trigger] batch@[j])@ == self.queue@[j]@,
            decreases self.queue@.len() - i,
        {
            batch.push(self.queue[i].clone());
            i = i + 1;
        }
        assert(waiting(batch@) =~= waiting(self.queue@));
        batch
    }

    /// The waiting program `name`.
    pub fn queued_candidate(&self, name: &ImageName) -> (candidate: Option<ClassifierCandidate>)
        ensures
            match candidate {
                Some(candidate) => position(waiting(self.queue@), name@) < self.queue@.len()
                    && candidate@ == waiting(self.queue@)[position(waiting(self.queue@), name@)],
                None => position(waiting(self.queue@), name@) == self.queue@.len(),
            },
    {
        let at = find_candidate(&self.queue, name);
        if at < self.queue.len() {
            Some(self.queue[at].clone())
        } else {
            None
        }
    }

    /// Takes out the processes of `batch` that have ended, `gone`, and hands out the programs of
    /// the batch that still have one.
    pub fn take_live_batch(&mut self, batch: &Vec<ClassifierCandidate>, gone: Vec<GoneInstance>) -> (
    live: Vec<ClassifierCandidate>)
        requires
            old(self).wf(),
        ensures
            final(self).wf(),
            final(self).same_settings(*old(self)),
            waiting(live@) == departed(waiting(batch@), Departure::Instances(gone)),
            waiting(final(self).queue@) == departed(
                waiting(old(self).queue@),
                Departure::Instances(gone),
            ),
            forall|key: (u32, u64)| #[trigger]
                sample_of(final(self).history@, key) == if is_gone_key(gone@, key) {
                    None
                } else {
                    sample_of(old(self).history@, key)
                },
    {
        let departure = Departure::Instances(gone);
        let live = remaining_candidates(batch, &departure);
        self.depart(&departure);
        live
    }

    /// Compares measurements with those before, and notes them.
    pub fn update_metrics_history(&mut self, instances: &Vec<ProcessInstanceMetrics>) -> (deltas:
        Vec<ProcessInstanceMetricDelta>)
        requires
            old(self).wf(),
        ensures
            final(self).wf(),
            final(self).same_settings(*old(self)),
            final(self).queue == old(self).queue,
            deltas@.len() == instances@.len(),
            forall|i: int|
                0 <= i < deltas@.len() ==> is_delta(
                    #[trigger] deltas@[i],
                    instances@[i],
                    sample_after(
                        old(self).history@,
                        instances@,
                        i,
                        instance_key(instances@[i].observed@),
                    ),
                ),
            forall|key: (u32, u64)| #[trigger]
                sample_of(final(self).history@, key) == sample_after(
                    old(self).history@,
                    instances@,
                    instances@.len() as int,
                    key,
                ),
    {
        let ghost start = self.history@;
        let ghost before = *self;
        let mut deltas: Vec<ProcessInstanceMetricDelta> = Vec::new();
        let mut i: usize = 0;
        while i < instances.len()
            invariant
                i <= instances@.len(),
                start == before.history@,
                before == *old(self),
                self.same_settings(before),
                self.queue == before.queue,
                is_history(self.history@),
                deltas@.len() == i,
                forall|j: int|
                    0 <= j < i ==> is_delta(
                        #[trigger] deltas@[j],
                        instances@[j],
                        sample_after(start, instances@, j, instance_key(instances@[j].observed@)),
                    ),
                forall|key: (u32, u64)| #[trigger]
                    sample_of(self.history@, key) == sample_after(
                        start,
                        instances@,
                        i as int,
                        key,
                    ),
            decreases instances@.len() - i,
        {
            let current = &instances[i];
            let ghost earlier = self.history@;
            let previous = put_sample(&mut self.history, current.clone());
            let (kernel_time_delta, user_time_delta) = match &previous {
                Some(sample) => (
                    Some(current.kernel_time.saturating_sub(sample.kernel_time)),
                    Some(current.user_time.saturating_sub(sample.user_time)),
                ),
                None => (None, None),
            };
            let delta = ProcessInstanceMetricDelta {
                observed: current.observed.clone(),
                current: current.clone(),
                previous,
                kernel_time_delta,
                user_time_delta,
            };
            assert(is_delta(
                delta,
                *current,
                sample_after(start, instances@, i as int, instance_key(current.observed@)),
            )) by {
                assert(sample_of(earlier, current.key()) == sample_after(
                    start,
                    instances@,
                    i as int,
                    current.key(),
                ));
            }
            deltas.push(delta);
            assert forall|key: (u32, u64)| #[trigger]
                sample_of(self.history@, key) == sample_after(start, instances@, i + 1, key) by {
                assert(sample_of(earlier, key) == sample_after(
                    start,
                    instances@,
                    i as int,
                    key,
                ));
            }
            i = i + 1;
        }
        deltas
    }

    /// Takes out the programs `names` and what was measured of their processes.
    pub fn remove_candidates_by_name(&mut self, names: &Vec<ImageName>)
        requires
            old(self).wf(),
        ensures
            final(self).wf(),
            final(self).same_settings(*old(self)),
            waiting(final(self).queue@) == without_named(
                waiting(old(self).queue@),
                names_of(names@),
            ),
            forall|key: (u32, u64)| #[trigger]
                sample_of(final(self).history@, key) == if runs_named(
                    waiting(old(self).queue@),
                    names_of(names@),
                    key,
                ) {
                    None
                } else {
                    sample_of(old(self).history@, key)
                },
    {
        let ghost all = waiting(self.queue@);
        let gone = named_instances(&self.queue, names);
        let left = unnamed_candidates(&self.queue, names);
        proof {
            law_removal_keeps_the_queue(all, names_of(names@));
        }
        self.queue = left;
        forget_samples(&mut self.history, &Departure::Instances(gone));
    }

    /// Takes out the programs about which the store has a conclusive decision.
    pub fn remove_conclusive_candidates(&mut self, snapshots: &Vec<ClassificationSnapshot>)
        requires
            old(self).wf(),
        ensures
            final(self).wf(),
            final(self).same_settings(*old(self)),
            waiting(final(self).queue@) == without_named(
                waiting(old(self).queue@),
                conclusive_names(snapshots@),
            ),
            forall|key: (u32, u64)| #[trigger]
                sample_of(final(self).history@, key) == if runs_named(
                    waiting(old(self).queue@),
                    conclusive_names(snapshots@),
                    key,
                ) {
                    None
                } else {
                    sample_of(old(self).history@, key)
                },
    {
        let names = settled_names(snapshots);
        self.remove_candidates_by_name(&names);
    }

    /// `state` is what an answer of the store about the candidate means.
    pub open spec fn is_answered_state<S: ApplicationDecisionStore>(
        self,
        decision_store: &S,
        candidate: Waiting,
        state: ClassificationDecisionState,
    ) -> bool {
        exists|
            identity: ApplicationIdentity,
            answer: Result<Option<StoredProcessDecision>, StorageError>,
        | #[trigger]
            storage::was_answered(decision_store, identity, self.confidence_threshold, answer)
                && identity.image@ == candidate.image_name && (identity.image_path matches Some(path)
                && path@ == candidate.image_path) && is_decision_state(
                state,
                answer,
                self.confidence_threshold,
            )
    }

    /// What the store holds about a candidate.
    pub fn read_decision_state<S: ApplicationDecisionStore>(
        &self,
        decision_store: &S,
        candidate: &ClassifierCandidate,
    ) -> (state: ClassificationDecisionState)
        ensures
            self.is_answered_state(decision_store, candidate@, state),
    {
        let identity = ApplicationIdentity::from_image_name(
            candidate.image_name.clone(),
            candidate.image_path.as_str(),
        );
        let answer = decision_store.get_active_decision(&identity, self.confidence_threshold);
        assert(storage::was_answered(
            decision_store,
            identity,
            self.confidence_threshold,
            answer,
        ));
        decision_state(answer, self.confidence_threshold)
    }

    /// What is known of a candidate: what was measured of its processes, and what the store
    /// answers about it.
    pub fn collect_metrics<S: ApplicationDecisionStore>(
        &mut self,
        decision_store: &S,
        candidate: ClassifierCandidate,
        instances: Vec<ProcessInstanceMetrics>,
    ) -> (snapshot: ClassificationSnapshot)
        requires
            old(self).wf(),
        ensures
            final(self).wf(),
            final(self).same_settings(*old(self)),
            final(self).queue == old(self).queue,
            snapshot.candidate == candidate,
            snapshot.instances == instances,
            old(self).is_answered_state(decision_store, candidate@, snapshot.decision_state),
            snapshot.categorical_metrics.has_visible_window <==> exists|i: int|
                0 <= i < instances@.len() && (
                #[trigger] instances@[i]).categorical_metrics.has_visible_window,
            snapshot.categorical_metrics.likely_game <==> exists|i: int|
                0 <= i < instances@.len() && (
                #[trigger] instances@[i]).categorical_metrics.likely_game,
            snapshot.categorical_metrics.has_visible_window == any_window(instances@),
            snapshot.categorical_metrics.likely_game == any_game(instances@),
            snapshot.instance_deltas@.len() == instances@.len(),
            forall|i: int|
                0 <= i < instances@.len() ==> is_delta(
                    #[trigger] snapshot.instance_deltas@[i],
                    instances@[i],
                    sample_after(
                        old(self).history@,
                        instances@,
                        i,
                        instance_key(instances@[i].observed@),
                    ),
                ),
            forall|key: (u32, u64)| #[trigger]
                sample_of(final(self).history@, key) == sample_after(
                    old(self).history@,
                    instances@,
                    instances@.len() as int,
                    key,
                ),
    {
        let instance_deltas = self.update_metrics_history(&instances);
        let categorical_metrics = aggregate_categorical_metrics(&instances);
        let decision_state = self.read_decision_state(decision_store, &candidate);
        ClassificationSnapshot {
            candidate,
            instances,
            instance_deltas,
            categorical_metrics,
            decision_state,
        }
    }

    /// What the queue and the history are without the programs `names`.
    pub open spec fn lacks(self, before: Self, names: Seq<Seq<char>>) -> bool {
        &&& waiting(self.queue@) == without_named(waiting(before.queue@), names)
        &&& forall|key: (u32, u64)| #[trigger]
            sample_of(self.history@, key) == if runs_named(waiting(before.queue@), names, key) {
                None
            } else {
                sample_of(before.history@, key)
            }
    }

    /// Stores the outcome for a program, and gives the rule to apply where the store took it. A
    /// program about which a conclusive outcome is stored waits no longer. Nothing is stored for a
    /// program that is settled, or where the outcome is not valid.
    pub fn persist_heuristic_outcomes<S: ApplicationDecisionStore>(
        &mut self,
        decision_store: &S,
        snapshot: &ClassificationSnapshot,
        outcome: &HeuristicDecisionOutcome,
    ) -> (rule: Option<ProcessRule>)
        requires
            old(self).wf(),
        ensures
            final(self).wf(),
            final(self).same_settings(*old(self)),
            match rule {
                Some(rule) => {
                    &&& !(snapshot.decision_state is Conclusive)
                    &&& is_storable(*outcome)
                    &&& exists|decision: StoredProcessDecision| #[trigger]
                        is_outcome_decision(decision, *outcome, snapshot.candidate@)
                            && storage::is_decided_rule(rule, decision) && storage::was_taken(
                            decision_store,
                            decision,
                        )
                },
                None => {
                    ||| snapshot.decision_state is Conclusive
                    ||| !is_storable(*outcome)
                    ||| exists|decision: StoredProcessDecision| #[trigger]
                        is_outcome_decision(decision, *outcome, snapshot.candidate@)
                            && storage::was_refused(decision_store, decision)
                },
            },
            if rule is Some && outcome.confidence.reaches(old(self).confidence_threshold) {
                final(self).lacks(*old(self), seq![snapshot.candidate.normalized_image_name@])
            } else {
                final(self).queue == old(self).queue && final(self).history == old(self).history
            },
    {
        let prepared = match prepare_outcome(snapshot, outcome, self.confidence_threshold) {
            Some(prepared) => prepared,
            None => {
                return None;
            },
        };
        let ghost decision = prepared.decision;
        let conclusive = prepared.conclusive;
        let rule = prepared.rule;
        let stored = decision_store.upsert_decision(prepared.decision);
        assert(call_ensures(S::upsert_decision, (decision_store, decision), stored));
        assert(is_outcome_decision(decision, *outcome, snapshot.candidate@));
        if stored.is_err() {
            return None;
        }
        if conclusive {
            let names: Vec<ImageName> = vec![snapshot.candidate.normalized_image_name.clone()];
            assert(names_of(names@) =~= seq![snapshot.candidate.normalized_image_name@]);
            self.remove_candidates_by_name(&names);
        }
        Some(rule)
    }

    /// Ends the classification for good.
    pub fn shutdown(&mut self)
        ensures
            final(self).stopped,
            !final(self).running,
            final(self).queue == old(self).queue,
            final(self).history == old(self).history,
            final(self).confidence_threshold == old(self).confidence_threshold,
            final(self).exclusions == old(self).exclusions,
    {
        self.stopped = true;
        self.running = false;
    }

    /// Notes that the worker has ended.
    pub fn worker_ended(&mut self)
        ensures
            !final(self).running,
            final(self).stopped == old(self).stopped,
            final(self).queue == old(self).queue,
            final(self).history == old(self).history,
            final(self).confidence_threshold == old(self).confidence_threshold,
            final(self).exclusions == old(self).exclusions,
    {
        self.running = false;
    }

    /// Tells whether a worker is to be started, and counts it as running if so. There is at most
    /// one, and none after the end.
    pub fn claim_worker(&mut self) -> (start: bool)
        ensures
            start == (!old(self).running && !old(self).stopped),
            final(self).running == (old(self).running || start),
            final(self).stopped == old(self).stopped,
            final(self).queue == old(self).queue,
            final(self).history == old(self).history,
            final(self).confidence_threshold == old(self).confidence_threshold,
            final(self).exclusions == old(self).exclusions,
    {
        if self.running || self.stopped {
            return false;
        }
        self.running = true;
        true
    }

    /// What the worker does next: it ends when there is nothing left to wait for, and runs a
    /// cycle when the interval is over.
    pub fn wait_for_cycle_or_exit(&mut self, interval_over: bool) -> (step: WorkerStep)
        ensures
            step == if old(self).stopped || old(self).queue@.len() == 0 {
                WorkerStep::Exit
            } else if interval_over {
                WorkerStep::Run
            } else {
                WorkerStep::Wait
            },
            final(self).running == (old(self).running && step != WorkerStep::Exit),
            final(self).stopped == old(self).stopped,
            final(self).queue == old(self).queue,
            final(self).history == old(self).history,
            final(self).confidence_threshold == old(self).confidence_threshold,
            final(self).exclusions == old(self).exclusions,
    {
        if self.stopped || self.queue.len() == 0 {
            self.running = false;
            return WorkerStep::Exit;
        }
        if interval_over {
            WorkerStep::Run
        } else {
            WorkerStep::Wait
        }
    }
}

/// The names of the programs about which the store has a conclusive decision.
pub open spec fn conclusive_names(snapshots: Seq<ClassificationSnapshot>) -> Seq<Seq<char>> {
    snapshots.filter(
        |snapshot: ClassificationSnapshot| snapshot.decision_state is Conclusive,
    ).map_values(|snapshot: ClassificationSnapshot| snapshot.candidate@.name)
}

proof fn lemma_filtered_instances(instances: Seq<Sighting>, keep: spec_fn(Sighting) -> bool)
    requires
        in_order(instances),
    ensures
        in_order(instances.filter(keep)),
        forall|i: int|
            0 <= i < instances.filter(keep).len() ==> instances.contains(
                #[trigger] instances.filter(keep)[i],
            ),
    decreases instances.len(),
{
    reveal(Seq::filter);
    if instances.len() > 0 {
        let shorter = instances.drop_last();
        let last = instances.last();
        let left = shorter.filter(keep);
        let all = instances.filter(keep);
        assert forall|i: int, j: int| 0 <= i < j < shorter.len() implies lies_before(
            instance_key(#[trigger] shorter[i]),
            instance_key(#[trigger] shorter[j]),
        ) by {
            assert(shorter[i] == instances[i] && shorter[j] == instances[j]);
        }
        lemma_filtered_instances(shorter, keep);
        assert forall|i: int| 0 <= i < left.len() implies instances.contains(#[trigger] left[i])
            && lies_before(instance_key(left[i]), instance_key(last)) by {
            let k = choose|k: int| 0 <= k < shorter.len() && shorter[k] == left[i];
            assert(instances[k] == left[i]);
            assert(lies_before(
                instance_key(instances[k]),
                instance_key(instances[instances.len() - 1]),
            ));
        }
        assert(instances[instances.len() - 1] == last);
        if keep(last) {
            assert(all =~= left.push(last));
            assert forall|i: int| 0 <= i < all.len() implies instances.contains(
                #[trigger] all[i],
            ) by {
                if i < left.len() {
                    assert(all[i] == left[i]);
                }
            }
            assert forall|i: int, j: int| 0 <= i < j < all.len() implies lies_before(
                instance_key(#[trigger] all[i]),
                instance_key(#[trigger] all[j]),
            ) by {
                assert(all[i] == left[i]);
                if j < left.len() {
                    assert(all[j] == left[j]);
                }
            }
        } else {
            assert(all =~= left);
        }
    }
}

/// One of the programs of the queue has the name.
pub open spec fn waits(queue: Seq<Waiting>, name: Seq<char>) -> bool {
    exists|i: int| 0 <= i < queue.len() && (#[trigger] queue[i]).name == name
}

proof fn lemma_queue_grows(queue: Seq<Waiting>, candidate: Waiting)
    requires
        is_queue(queue),
        !waits(queue, candidate.name),
        candidate.instances.len() > 0,
        in_order(candidate.instances),
    ensures
        is_queue(queue.push(candidate)),
        forall|name: Seq<char>| #[trigger]
            waits(queue.push(candidate), name) <==> waits(queue, name) || name == candidate.name,
{
    let after = queue.push(candidate);
    assert forall|i: int, j: int| 0 <= i < j < after.len() implies (#[trigger] after[i]).name != (
    #[trigger] after[j]).name by {
        assert(after[i] == queue[i]);
        if j < queue.len() {
            assert(after[j] == queue[j]);
        }
    }
    assert forall|i: int| 0 <= i < after.len() implies (#[trigger] after[i]).instances.len() > 0
        && in_order(after[i].instances) by {
        if i < queue.len() {
            assert(after[i] == queue[i]);
        }
    }
    assert forall|name: Seq<char>| #[trigger]
        waits(after, name) <==> waits(queue, name) || name == candidate.name by {
        if waits(queue, name) {
            let i = choose|i: int| 0 <= i < queue.len() && (#[trigger] queue[i]).name == name;
            assert(after[i] == queue[i]);
        }
        if name == candidate.name {
            assert(after[queue.len() as int] == candidate);
        }
        if waits(after, name) && name != candidate.name {
            let i = choose|i: int| 0 <= i < after.len() && (#[trigger] after[i]).name == name;
            assert(queue[i] == after[i]);
        }
    }
}

proof fn lemma_queue_shrinks(queue: Seq<Waiting>)
    requires
        is_queue(queue),
        queue.len() > 0,
    ensures
        is_queue(queue.drop_last()),
        !waits(queue.drop_last(), queue.last().name),
        forall|name: Seq<char>| #[trigger]
            waits(queue.drop_last(), name) ==> waits(queue, name),
{
    let shorter = queue.drop_last();
    assert forall|i: int, j: int| 0 <= i < j < shorter.len() implies (#[trigger] shorter[i]).name
        != (#[trigger] shorter[j]).name by {
        assert(shorter[i] == queue[i] && shorter[j] == queue[j]);
    }
    assert forall|i: int| 0 <= i < shorter.len() implies (#[trigger] shorter[i]).instances.len() > 0
        && in_order(shorter[i].instances) by {
        assert(shorter[i] == queue[i]);
    }
    if waits(shorter, queue.last().name) {
        let i = choose|i: int|
            0 <= i < shorter.len() && (#[trigger] shorter[i]).name == queue.last().name;
        assert(queue[i] == shorter[i]);
        assert(queue[i].name != queue[queue.len() - 1].name);
    }
    assert forall|name: Seq<char>| #[trigger] waits(shorter, name) implies waits(queue, name) by {
        let i = choose|i: int| 0 <= i < shorter.len() && (#[trigger] shorter[i]).name == name;
        assert(queue[i] == shorter[i]);
    }
}

/// When processes leave, the queue stays in shape, and no program comes to it.
pub proof fn law_departure_keeps_the_queue(queue: Seq<Waiting>, departure: Departure)
    requires
        is_queue(queue),
    ensures
        is_queue(departed(queue, departure)),
        forall|name: Seq<char>| #[trigger]
            waits(departed(queue, departure), name) ==> waits(queue, name),
    decreases queue.len(),
{
    reveal(Seq::filter);
    let prune = |candidate: Waiting| without_departed(candidate, departure);
    let keep = |candidate: Waiting| candidate.instances.len() > 0;
    let all = queue.map_values(prune);
    if queue.len() == 0 {
        assert(all =~= Seq::empty());
        assert(departed(queue, departure) =~= Seq::empty());
    } else {
        let shorter = queue.drop_last();
        let last = queue.last();
        lemma_queue_shrinks(queue);
        law_departure_keeps_the_queue(shorter, departure);
        assert(all.drop_last() =~= shorter.map_values(prune));
        assert(all.last() == without_departed(last, departure));
        let left = departed(shorter, departure);
        assert(waits(queue, last.name)) by {
            assert(queue[queue.len() - 1].name == last.name);
        }
        if without_departed(last, departure).instances.len() > 0 {
            assert(departed(queue, departure) =~= left.push(without_departed(last, departure)));
            assert(in_order(last.instances)) by {
                assert(queue[queue.len() - 1] == last);
            }
            lemma_filtered_instances(
                last.instances,
                |seen: Sighting| !departure.takes(last.name, instance_key(seen)),
            );
            lemma_queue_grows(left, without_departed(last, departure));
        } else {
            assert(departed(queue, departure) =~= left);
        }
    }
}

/// When programs are taken out, the queue stays in shape: it holds the programs that it held but
/// for these.
pub proof fn law_removal_keeps_the_queue(queue: Seq<Waiting>, names: Seq<Seq<char>>)
    requires
        is_queue(queue),
    ensures
        is_queue(without_named(queue, names)),
        forall|name: Seq<char>| #[trigger]
            waits(without_named(queue, names), name) <==> waits(queue, name) && !names.contains(
                name,
            ),
    decreases queue.len(),
{
    reveal(Seq::filter);
    if queue.len() == 0 {
        assert(without_named(queue, names) =~= Seq::empty());
    } else {
        let shorter = queue.drop_last();
        let last = queue.last();
        let after = without_named(queue, names);
        let left = without_named(shorter, names);
        lemma_queue_shrinks(queue);
        law_removal_keeps_the_queue(shorter, names);
        assert(queue[queue.len() - 1] == last);
        assert(shorter.push(last) =~= queue);
        lemma_queue_grows(shorter, last);
        if names.contains(last.name) {
            assert(after =~= left);
        } else {
            assert(after =~= left.push(last));
            lemma_queue_grows(left, last);
        }
    }
}

fn lists_name(names: &Vec<ImageName>, name: &ImageName) -> (listed: bool)
    ensures
        listed == names_of(names@).contains(name@),
{
    let ghost all = names_of(names@);
    let mut i: usize = 0;
    while i < names.len()
        invariant
            i <= names@.len(),
            all == names_of(names@),
            forall|j: int| 0 <= j < i ==> all[j] != name@,
        decreases names@.len() - i,
    {
        assert(all[i as int] == names@[i as int]@);
        if names[i].same_name(name) {
            return true;
        }
        i = i + 1;
    }
    false
}

fn unnamed_candidates(queue: &Vec<ClassifierCandidate>, names: &Vec<ImageName>) -> (left: Vec<
    ClassifierCandidate,
>)
    ensures
        waiting(left@) == without_named(waiting(queue@), names_of(names@)),
{
    let keep: Ghost<spec_fn(Waiting) -> bool> = Ghost(
        |candidate: Waiting| !names_of(names@).contains(candidate.name),
    );
    let ghost all = waiting(queue@);
    let mut left: Vec<ClassifierCandidate> = Vec::new();
    let mut i: usize = 0;
    assert(waiting(left@) =~= all.subrange(0, 0).filter(keep@)) by {
        reveal(Seq::filter);
    }
    while i < queue.len()
        invariant
            i <= queue@.len(),
            all == waiting(queue@),
            keep@ == (|candidate: Waiting| !names_of(names@).contains(candidate.name)),
            waiting(left@) == all.subrange(0, i as int).filter(keep@),
        decreases queue@.len() - i,
    {
        let ghost before = all.subrange(0, i as int);
        assert(all[i as int] == queue@[i as int]@);
        assert(all.subrange(0, i + 1) =~= before.push(all[i as int]));
        proof {
            reveal(Seq::filter);
            assert(before.push(all[i as int]).drop_last() =~= before);
        }
        if !lists_name(names, &queue[i].normalized_image_name) {
            let ghost longer = waiting(left@).push(all[i as int]);
            left.push(queue[i].clone());
            assert(waiting(left@) =~= longer);
        }
        i = i + 1;
    }
    assert(all.subrange(0, all.len() as int) =~= all);
    left
}

/// The first `count` processes of the programs before the one at `index`, and that one's, include
/// `key`.
spec fn runs_up_to(
    queue: Seq<Waiting>,
    names: Seq<Seq<char>>,
    index: int,
    count: int,
    key: (u32, u64),
) -> bool {
    exists|i: int, j: int|
        0 <= i < queue.len() && 0 <= j < queue[i].instances.len() && (i < index || (i == index && j
            < count)) && names.contains(queue[i].name) && instance_key(
            #[trigger] queue[i].instances[j],
        ) == key
}

/// The processes of the programs `names`.
fn named_instances(queue: &Vec<ClassifierCandidate>, names: &Vec<ImageName>) -> (gone: Vec<
    GoneInstance,
>)
    ensures
        forall|key: (u32, u64)| #[trigger]
            is_gone_key(gone@, key) <==> runs_named(waiting(queue@), names_of(names@), key),
{
    let ghost all = waiting(queue@);
    let ghost listed = names_of(names@);
    let mut gone: Vec<GoneInstance> = Vec::new();
    let mut i: usize = 0;
    while i < queue.len()
        invariant
            i <= queue@.len(),
            all == waiting(queue@),
            listed == names_of(names@),
            forall|key: (u32, u64)| #[trigger]
                is_gone_key(gone@, key) <==> runs_up_to(all, listed, i as int, 0, key),
        decreases queue@.len() - i,
    {
        let candidate = &queue[i];
        assert(all[i as int] == candidate@);
        let mut j: usize = 0;
        let named = lists_name(names, &candidate.normalized_image_name);
        if named {
            while j < candidate.instances.len()
                invariant
                    i < queue@.len(),
                    *candidate == queue@[i as int],
                    all == waiting(queue@),
                    all[i as int] == candidate@,
                    listed == names_of(names@),
                    listed.contains(candidate@.name),
                    j <= candidate.instances@.len(),
                    forall|key: (u32, u64)| #[trigger]
                        is_gone_key(gone@, key) <==> runs_up_to(
                            all,
                            listed,
                            i as int,
                            j as int,
                            key,
                        ),
                decreases candidate.instances@.len() - j,
            {
                let ghost before = gone@;
                let (process_id, creation_time) = process_instance_key(&candidate.instances[j]);
                gone.push(
                    GoneInstance {
                        image: candidate.normalized_image_name.clone(),
                        process_id,
                        creation_time,
                    },
                );
                assert(all[i as int].instances[j as int] == candidate.instances@[j as int]@);
                assert forall|key: (u32, u64)| #[trigger]
                    is_gone_key(gone@, key) <==> runs_up_to(all, listed, i as int, j + 1, key) by {
                    assert(is_gone_key(before, key) <==> runs_up_to(
                        all,
                        listed,
                        i as int,
                        j as int,
                        key,
                    ));
                    if is_gone_key(before, key) {
                        let k = choose|k: int|
                            0 <= k < before.len() && (
                            (#[trigger] before[k]).process_id,
                            before[k].creation_time,
                        ) == key;
                        assert(gone@[k] == before[k]);
                    }
                    if is_gone_key(gone@, key) {
                        let k = choose|k: int|
                            0 <= k < gone@.len() && (
                            (#[trigger] gone@[k]).process_id,
                            gone@[k].creation_time,
                        ) == key;
                        if k < before.len() {
                            assert(before[k] == gone@[k]);
                        } else {
                            assert(instance_key(all[i as int].instances[j as int]) == key);
                        }
                    }
                    if runs_up_to(all, listed, i as int, j + 1, key) && !runs_up_to(
                        all,
                        listed,
                        i as int,
                        j as int,
                        key,
                    ) {
                        assert(gone@[before.len() as int].process_id == process_id);
                    }
                }
                j = j + 1;
            }
        }
        assert forall|key: (u32, u64)| #[trigger]
            is_gone_key(gone@, key) <==> runs_up_to(all, listed, i + 1, 0, key) by {
            if named {
                assert(runs_up_to(all, listed, i as int, j as int, key) <==> runs_up_to(
                    all,
                    listed,
                    i + 1,
                    0,
                    key,
                ));
            } else {
                assert(runs_up_to(all, listed, i as int, 0, key) <==> runs_up_to(
                    all,
                    listed,
                    i + 1,
                    0,
                    key,
                ));
            }
        }
        i = i + 1;
    }
    assert forall|key: (u32, u64)| #[trigger]
        is_gone_key(gone@, key) <==> runs_named(all, listed, key) by {
        assert(runs_up_to(all, listed, all.len() as int, 0, key) <==> runs_named(
            all,
            listed,
            key,
        ));
    }
    gone
}

fn settled_names(snapshots: &Vec<ClassificationSnapshot>) -> (names: Vec<ImageName>)
    ensures
        names_of(names@) == conclusive_names(snapshots@),
{
    let keep: Ghost<spec_fn(ClassificationSnapshot) -> bool> = Ghost(
        |snapshot: ClassificationSnapshot| snapshot.decision_state is Conclusive,
    );
    let name: Ghost<spec_fn(ClassificationSnapshot) -> Seq<char>> = Ghost(
        |snapshot: ClassificationSnapshot| snapshot.candidate@.name,
    );
    let ghost all = snapshots@;
    let mut names: Vec<ImageName> = Vec::new();
    let mut i: usize = 0;
    assert(names_of(names@) =~= all.subrange(0, 0).filter(keep@).map_values(name@)) by {
        reveal(Seq::filter);
    }
    while i < snapshots.len()
        invariant
            i <= snapshots@.len(),
            all == snapshots@,
            keep@ == (|snapshot: ClassificationSnapshot| snapshot.decision_state is Conclusive),
            name@ == (|snapshot: ClassificationSnapshot| snapshot.candidate@.name),
            names_of(names@) == all.subrange(0, i as int).filter(keep@).map_values(name@),
        decreases snapshots@.len() - i,
    {
        let ghost before = all.subrange(0, i as int);
        assert(all.subrange(0, i + 1) =~= before.push(all[i as int]));
        proof {
            reveal(Seq::filter);
            assert(before.push(all[i as int]).drop_last() =~= before);
        }
        if !snapshots[i].decision_state.is_classifiable() {
            let ghost longer = names_of(names@).push(snapshots@[i as int].candidate@.name);
            names.push(snapshots[i].candidate.normalized_image_name.clone());
            assert(names_of(names@) =~= longer);
            assert(all.subrange(0, i + 1).filter(keep@).map_values(name@) =~= longer);
        }
        i = i + 1;
    }
    assert(all.subrange(0, all.len() as int) =~= all);
    names
}

/// The path looks like that of a game.
pub open spec fn is_game_path(path: Seq<char>) -> bool {
    text::contains_part(text::lowered(path), "steamapps"@) || text::contains_part(
        text::lowered(path),
        "game"@,
    )
}

pub fn has_common_game_path_pattern(path: &str) -> (game: bool)
    ensures
        game == is_game_path(path@),
{
    let lower = text::lowered_characters(path);
    text::has_part(&lower, &text::characters("steamapps")) || text::has_part(
        &lower,
        &text::characters("game"),
    )
}

/// The module name, in lower case, begins with `prefix` and is that of a library.
pub open spec fn is_prefixed_module(name: Seq<char>, prefix: Seq<char>) -> bool {
    text::begins_with(name, prefix) && text::finishes_with(name, ".dll"@)
}

pub fn is_prefixed_game_module_name(module_name: &str, prefix: &str) -> (prefixed: bool)
    ensures
        prefixed == is_prefixed_module(module_name@, prefix@),
{
    text::has_prefix(module_name, prefix) && text::has_suffix(module_name, ".dll")
}

/// The module is one that games commonly load.
pub open spec fn is_game_module(name: Seq<char>) -> bool {
    let lower = text::lowered(name);
    ||| lower == "dxgi.dll"@
    ||| lower == "d3d11.dll"@
    ||| lower == "d3d12.dll"@
    ||| lower == "vulkan-1.dll"@
    ||| lower == "opengl32.dll"@
    ||| lower == "steam_api64.dll"@
    ||| lower == "unityplayer.dll"@
    ||| is_prefixed_module(lower, "xinput"@)
    ||| is_prefixed_module(lower, "xaudio2"@)
    ||| is_prefixed_module(lower, "bink"@)
    ||| is_prefixed_module(lower, "eossdk"@)
    ||| is_prefixed_module(lower, "unreal"@)
    ||| is_prefixed_module(lower, "ue4"@)
    ||| is_prefixed_module(lower, "ue5"@)
}

pub fn is_common_game_module_name(module_name: &str) -> (game: bool)
    ensures
        game == is_game_module(module_name@),
{
    let lower = text::text_of(&text::lowered_characters(module_name));
    let name = lower.as_str();
    text::same_text(name, "dxgi.dll") || text::same_text(name, "d3d11.dll") || text::same_text(
        name,
        "d3d12.dll",
    ) || text::same_text(name, "vulkan-1.dll") || text::same_text(name, "opengl32.dll")
        || text::same_text(name, "steam_api64.dll") || text::same_text(name, "unityplayer.dll")
        || is_prefixed_game_module_name(name, "xinput") || is_prefixed_game_module_name(
        name,
        "xaudio2",
    ) || is_prefixed_game_module_name(name, "bink") || is_prefixed_game_module_name(name, "eossdk")
        || is_prefixed_game_module_name(name, "unreal") || is_prefixed_game_module_name(name, "ue4")
        || is_prefixed_game_module_name(name, "ue5")
}

/// `at` is the first position of `part` in `whole`.
pub open spec fn is_first_part(whole: Seq<char>, part: Seq<char>, at: int) -> bool {
    text::occurs_at(whole, part, at) && forall|k: int| 0 <= k < at ==> !text::occurs_at(whole, part, k)
}

/// The number after the first `pid_`, up to the next underscore or the end.
pub open spec fn engine_pid(instance: Seq<char>) -> Option<u32> {
    let lower = text::lowered(instance);
    if text::contains_part(lower, "pid_"@) {
        let at = choose|at: int| is_first_part(lower, "pid_"@, at);
        let rest = lower.subrange(at + "pid_"@.len(), lower.len() as int);
        text::unsigned_32(text::split(rest, '_')[0])
    } else {
        None
    }
}

/// The process that an instance of a graphics engine counter belongs to.
pub fn process_id_from_gpu_engine_instance(instance_name: &str) -> (process_id: Option<u32>)
    ensures
        process_id == engine_pid(instance_name@),
{
    let lower = text::lowered_characters(instance_name);
    let part = text::characters("pid_");
    match text::find_part(&lower, &part) {
        Some(at) => {
            proof {
                assert(is_first_part(lower@, "pid_"@, at as int));
                let found = choose|found: int| is_first_part(lower@, "pid_"@, found);
                assert(is_first_part(lower@, "pid_"@, found));
                assert(found == at);
            }
            assert(at + part.len() <= lower.len());
            let rest = text::text_between(&lower, at + part.len(), lower.len());
            let pieces = text::pieces(rest.as_str(), '_');
            proof {
                text::lemma_split_pieces(rest@, '_');
                assert(text::views(pieces@).len() == pieces@.len());
                assert(text::views(pieces@)[0] == pieces@[0]@);
            }
            text::number_32(pieces[0].as_str())
        },
        None => None,
    }
}

} // verus!
