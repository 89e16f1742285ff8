//! Which systemd unit a process belongs to, and what the units were allowed before.

use vstd::prelude::*;

use crate::cpuset;
use crate::linux_process;
use crate::linux_process::LinuxProcess;
use crate::mask;
use crate::service::ServiceError;
use crate::text;

verus! {

/// The service manager that a unit belongs to.
#[derive(Clone, Copy, Debug, Eq, PartialEq, Structural)]
pub enum SystemdManagerBus {
    System,
    User { uid: u32 },
}

#[derive(Debug, Eq, PartialEq)]
pub struct SystemdUnitTarget {
    pub manager: SystemdManagerBus,
    pub unit_name: String,
}

impl SystemdUnitTarget {
    /// What tells one unit from another.
    pub open spec fn key(self) -> (SystemdManagerBus, Seq<char>) {
        (self.manager, self.unit_name@)
    }

    pub fn same_unit(&self, other: &Self) -> (same: bool)
        ensures
            same == (self.key() == other.key()),
    {
        self.manager == other.manager && text::same_text(
            self.unit_name.as_str(),
            other.unit_name.as_str(),
        )
    }
}

impl Clone for SystemdUnitTarget {
    fn clone(&self) -> (copied: Self)
        ensures
            copied.key() == self.key(),
    {
        SystemdUnitTarget { manager: self.manager, unit_name: self.unit_name.clone() }
    }
}

/// The pieces of a control group path that are not empty.
pub open spec fn segments(cgroup: Seq<char>) -> Seq<Seq<char>> {
    text::split(cgroup, '/').filter(|piece: Seq<char>| piece.len() > 0)
}

pub fn cgroup_segments(cgroup: &str) -> (found: Vec<String>)
    ensures
        text::views(found@) == segments(cgroup@),
{
    let keep: Ghost<spec_fn(Seq<char>) -> bool> = Ghost(|piece: Seq<char>| piece.len() > 0);
    let pieces = text::pieces(cgroup, '/');
    let ghost all = text::split(cgroup@, '/');
    let mut found: Vec<String> = Vec::new();
    let mut i: usize = 0;
    assert(text::views(found@) =~= all.subrange(0, 0).filter(keep@)) by {
        reveal(Seq::filter);
    }
    while i < pieces.len()
        invariant
            i <= pieces@.len(),
            text::views(pieces@) == all,
            keep@ == (|piece: Seq<char>| piece.len() > 0),
            text::views(found@) == all.subrange(0, i as int).filter(keep@),
        decreases pieces@.len() - i,
    {
        let ghost before = all.subrange(0, i as int);
        assert(all[i as int] == pieces@[i as int]@);
        assert(all.subrange(0, i + 1) =~= before.push(all[i as int]));
        proof {
            reveal(Seq::filter);
            assert(before.push(all[i as int]).drop_last() =~= before);
        }
        if !pieces[i].as_str().is_empty() {
            let ghost longer = text::views(found@).push(all[i as int]);
            found.push(pieces[i].clone());
            assert(text::views(found@) =~= longer);
        }
        i = i + 1;
    }
    assert(all.subrange(0, all.len() as int) =~= all);
    found
}

/// The segment names one of the units that many unrelated processes share.
pub open spec fn is_broad(segment: Seq<char>) -> bool {
    ||| segment == "-.slice"@
    ||| segment == "system.slice"@
    ||| segment == "machine.slice"@
    ||| segment == "user.slice"@
    ||| segment == "app.slice"@
    ||| segment == "background.slice"@
    ||| segment == "session.slice"@
    ||| text::begins_with(segment, "user@"@) && text::finishes_with(segment, ".service"@)
    ||| text::begins_with(segment, "user-"@) && text::finishes_with(segment, ".slice"@)
    ||| text::begins_with(segment, "session-"@) && text::finishes_with(segment, ".scope"@)
}

pub fn is_broad_systemd_unit(segment: &str) -> (broad: bool)
    ensures
        broad == is_broad(segment@),
{
    text::same_text(segment, "-.slice") || text::same_text(segment, "system.slice")
        || text::same_text(segment, "machine.slice") || text::same_text(segment, "user.slice")
        || text::same_text(segment, "app.slice") || text::same_text(segment, "background.slice")
        || text::same_text(segment, "session.slice") || (text::has_prefix(segment, "user@")
        && text::has_suffix(segment, ".service")) || (text::has_prefix(segment, "user-")
        && text::has_suffix(segment, ".slice")) || (text::has_prefix(segment, "session-")
        && text::has_suffix(segment, ".scope"))
}

/// The segment names a unit that stands for one program.
pub open spec fn is_specific(segment: Seq<char>) -> bool {
    !is_broad(segment) && (text::finishes_with(segment, ".service"@) || text::finishes_with(
        segment,
        ".scope"@,
    ) || (text::finishes_with(segment, ".slice"@) && text::begins_with(segment, "app-"@)))
}

pub fn is_specific_systemd_unit(segment: &str) -> (specific: bool)
    ensures
        specific == is_specific(segment@),
{
    if is_broad_systemd_unit(segment) {
        return false;
    }
    text::has_suffix(segment, ".service") || text::has_suffix(segment, ".scope") || (
    text::has_suffix(segment, ".slice") && text::has_prefix(segment, "app-"))
}

/// A unit that is no service may hold other programs than the one it is named after.
pub fn unit_requires_process_name_match(segment: &str) -> (required: bool)
    ensures
        required == !text::finishes_with(segment@, ".service"@),
{
    !text::has_suffix(segment, ".service")
}

/// The number between `prefix` and `suffix`.
pub open spec fn uid_between(segment: Seq<char>, prefix: Seq<char>, suffix: Seq<char>) -> Option<
    u32,
> {
    match text::after_prefix(segment, prefix) {
        Some(rest) => match text::before_suffix(rest, suffix) {
            Some(number) => text::unsigned_32(number),
            None => None,
        },
        None => None,
    }
}

fn number_between(segment: &str, prefix: &str, suffix: &str) -> (uid: Option<u32>)
    ensures
        uid == uid_between(segment@, prefix@, suffix@),
{
    match text::strip_start(segment, prefix) {
        Some(rest) => match text::strip_end(rest.as_str(), suffix) {
            Some(number) => text::number_32(number.as_str()),
            None => None,
        },
        None => None,
    }
}

/// The first segment that has a number between `prefix` and `suffix`.
pub open spec fn first_uid(
    found: Seq<Seq<char>>,
    prefix: Seq<char>,
    suffix: Seq<char>,
) -> Option<(u32, int)>
    decreases found.len(),
{
    if found.len() == 0 {
        None
    } else {
        match first_uid(found.drop_last(), prefix, suffix) {
            Some(earlier) => Some(earlier),
            None => match uid_between(found.last(), prefix, suffix) {
                Some(uid) => Some((uid, found.len() - 1)),
                None => None,
            },
        }
    }
}

/// The user whose service manager owns the control group, and where in the path it stands.
pub open spec fn user_manager(cgroup: Seq<char>) -> Option<(u32, int)> {
    match first_uid(segments(cgroup), "user@"@, ".service"@) {
        Some(position) => Some(position),
        None => first_uid(segments(cgroup), "user-"@, ".slice"@),
    }
}

proof fn lemma_first_uid(found: Seq<Seq<char>>, prefix: Seq<char>, suffix: Seq<char>, length: int)
    requires
        0 <= length <= found.len(),
    ensures
        first_uid(found.subrange(0, length), prefix, suffix) is Some ==> first_uid(
            found,
            prefix,
            suffix,
        ) == first_uid(found.subrange(0, length), prefix, suffix),
    decreases found.len() - length,
{
    if length < found.len() {
        lemma_first_uid(found, prefix, suffix, length + 1);
        assert(found.subrange(0, length + 1).drop_last() =~= found.subrange(0, length));
    } else {
        assert(found.subrange(0, length) =~= found);
    }
}

fn find_uid(found: &Vec<String>, prefix: &str, suffix: &str) -> (position: Option<(u32, usize)>)
    ensures
        match position {
            Some((uid, index)) => index < found@.len() && first_uid(
                text::views(found@),
                prefix@,
                suffix@,
            ) == Some((uid, index as int)),
            None => first_uid(text::views(found@), prefix@, suffix@) is None,
        },
{
    let ghost all = text::views(found@);
    let mut i: usize = 0;
    while i < found.len()
        invariant
            i <= found@.len(),
            all == text::views(found@),
            first_uid(all.subrange(0, i as int), prefix@, suffix@) is None,
        decreases found@.len() - i,
    {
        assert(all.subrange(0, i + 1).drop_last() =~= all.subrange(0, i as int));
        assert(all.subrange(0, i + 1).last() == found@[i as int]@);
        if let Some(uid) = number_between(found[i].as_str(), prefix, suffix) {
            proof {
                lemma_first_uid(all, prefix@, suffix@, i + 1);
            }
            return Some((uid, i));
        }
        i = i + 1;
    }
    assert(all.subrange(0, all.len() as int) =~= all);
    None
}

pub fn user_manager_position(cgroup: &str) -> (position: Option<(u32, usize)>)
    ensures
        match position {
            Some((uid, index)) => index < segments(cgroup@).len() && user_manager(cgroup@) == Some(
                (uid, index as int),
            ),
            None => user_manager(cgroup@) is None,
        },
{
    let found = cgroup_segments(cgroup);
    assert(text::views(found@).len() == found@.len());
    match find_uid(&found, "user@", ".service") {
        Some(position) => Some(position),
        None => find_uid(&found, "user-", ".slice"),
    }
}

/// The segments in which the unit of a process is looked for: those below the service manager of
/// the user, or all of them.
pub open spec fn unit_segments(cgroup: Seq<char>) -> Seq<Seq<char>> {
    match user_manager(cgroup) {
        Some((_, index)) => segments(cgroup).subrange(index + 1, segments(cgroup).len() as int),
        None => segments(cgroup),
    }
}

pub open spec fn unit_manager(cgroup: Seq<char>) -> SystemdManagerBus {
    match user_manager(cgroup) {
        Some((uid, _)) => SystemdManagerBus::User { uid },
        None => SystemdManagerBus::System,
    }
}

/// The first specific unit.
pub open spec fn first_specific(found: Seq<Seq<char>>) -> Option<Seq<char>>
    decreases found.len(),
{
    if found.len() == 0 {
        None
    } else {
        match first_specific(found.drop_last()) {
            Some(earlier) => Some(earlier),
            None => if is_specific(found.last()) {
                Some(found.last())
            } else {
                None
            },
        }
    }
}

/// The letters and digits of `value`, in lower case.
pub open spec fn normalized(value: Seq<char>) -> Seq<char> {
    value.filter(|c: char| text::is_letter(c) || text::is_digit(c)).map_values(
        |c: char| text::ascii_lower(c),
    )
}

pub fn normalized_identifier(value: &str) -> (identifier: Vec<char>)
    ensures
        identifier@ == normalized(value@),
{
    let keep: Ghost<spec_fn(char) -> bool> = Ghost(
        |c: char| text::is_letter(c) || text::is_digit(c),
    );
    let chars = text::characters(value);
    let mut identifier: Vec<char> = Vec::new();
    let mut i: usize = 0;
    assert(identifier@ =~= chars@.subrange(0, 0).filter(keep@).map_values(
        |c: char| text::ascii_lower(c),
    )) by {
        reveal(Seq::filter);
    }
    while i < chars.len()
        invariant
            i <= chars@.len(),
            keep@ == (|c: char| text::is_letter(c) || text::is_digit(c)),
            identifier@ == chars@.subrange(0, i as int).filter(keep@).map_values(
                |c: char| text::ascii_lower(c),
            ),
        decreases chars@.len() - i,
    {
        let ghost before = chars@.subrange(0, i as int);
        let c = chars[i];
        assert(chars@.subrange(0, i + 1) =~= before.push(c));
        proof {
            reveal(Seq::filter);
            assert(before.push(c).drop_last() =~= before);
        }
        if ('a' <= c && c <= 'z') || ('A' <= c && c <= 'Z') || ('0' <= c && c <= '9') {
            identifier.push(text::to_ascii_lower(c));
            assert(identifier@ =~= before.push(c).filter(keep@).map_values(
                |c: char| text::ascii_lower(c),
            ));
        }
        i = i + 1;
    }
    assert(chars@.subrange(0, chars@.len() as int) =~= chars@);
    identifier
}

/// Two names, reduced to letters and digits, of which one stands in the other.
pub open spec fn names_agree(unit: Seq<char>, candidate: Seq<char>) -> bool {
    &&& normalized(candidate).len() > 0
    &&& text::contains_part(normalized(unit), normalized(candidate)) || text::contains_part(
        normalized(candidate),
        normalized(unit),
    )
}

/// One of the names of the process agrees with the name of the unit.
pub open spec fn unit_matches(unit: Seq<char>, process: LinuxProcess) -> bool {
    &&& normalized(unit).len() > 0
    &&& exists|i: int|
        0 <= i < linux_process::candidates(process).len() && names_agree(
            unit,
            #[trigger] linux_process::candidates(process)[i],
        )
}

pub fn unit_name_matches_process(unit_name: &str, process: &LinuxProcess) -> (matched: bool)
    ensures
        matched == unit_matches(unit_name@, *process),
{
    let unit = normalized_identifier(unit_name);
    if unit.len() == 0 {
        return false;
    }
    let ghost all = linux_process::candidates(*process);
    let names = linux_process::process_identifier_candidates(process);
    let mut i: usize = 0;
    while i < names.len()
        invariant
            i <= names@.len(),
            text::views(names@) == all,
            all == linux_process::candidates(*process),
            unit@ == normalized(unit_name@),
            unit@.len() > 0,
            forall|j: int| 0 <= j < i ==> !names_agree(unit_name@, #[trigger] all[j]),
        decreases names@.len() - i,
    {
        assert(all[i as int] == names@[i as int]@);
        let candidate = normalized_identifier(names[i].as_str());
        if candidate.len() > 0 && (text::has_part(&unit, &candidate) || text::has_part(
            &candidate,
            &unit,
        )) {
            assert(names_agree(unit_name@, all[i as int]));
            return true;
        }
        i = i + 1;
    }
    false
}

/// Whether the unit must be named after the process.
#[derive(Clone, Copy, Debug, Eq, PartialEq, Structural)]
pub enum UnitMatchMode {
    RequireProcessMatch,
    AnySpecificUnit,
}

/// The unit that stands for a process in a control group.
pub open spec fn unit_of(
    cgroup: Seq<char>,
    process: LinuxProcess,
    mode: UnitMatchMode,
) -> Option<(SystemdManagerBus, Seq<char>)> {
    match first_specific(unit_segments(cgroup)) {
        Some(unit) => if mode == UnitMatchMode::RequireProcessMatch && !text::finishes_with(
            unit,
            ".service"@,
        ) && !unit_matches(unit, process) {
            None
        } else {
            Some((unit_manager(cgroup), unit))
        },
        None => None,
    }
}

proof fn lemma_first_specific(found: Seq<Seq<char>>, length: int)
    requires
        0 <= length <= found.len(),
    ensures
        first_specific(found.subrange(0, length)) is Some ==> first_specific(found)
            == first_specific(found.subrange(0, length)),
    decreases found.len() - length,
{
    if length < found.len() {
        lemma_first_specific(found, length + 1);
        assert(found.subrange(0, length + 1).drop_last() =~= found.subrange(0, length));
    } else {
        assert(found.subrange(0, length) =~= found);
    }
}

/// The first specific unit from `from` on.
fn find_specific(found: &Vec<String>, from: usize) -> (unit: Option<usize>)
    requires
        from <= found@.len(),
    ensures
        match unit {
            Some(index) => from <= index < found@.len() && first_specific(
                text::views(found@).subrange(from as int, found@.len() as int),
            ) == Some(found@[index as int]@),
            None => first_specific(
                text::views(found@).subrange(from as int, found@.len() as int),
            ) is None,
        },
{
    let ghost all = text::views(found@).subrange(from as int, found@.len() as int);
    let mut i: usize = from;
    while i < found.len()
        invariant
            from <= i <= found@.len(),
            all == text::views(found@).subrange(from as int, found@.len() as int),
            first_specific(all.subrange(0, i - from)) is None,
        decreases found@.len() - i,
    {
        let ghost step = all.subrange(0, i - from + 1);
        assert(step.drop_last() =~= all.subrange(0, i - from));
        assert(step.last() == found@[i as int]@);
        if is_specific_systemd_unit(found[i].as_str()) {
            proof {
                lemma_first_specific(all, i - from + 1);
            }
            return Some(i);
        }
        i = i + 1;
    }
    assert(all.subrange(0, all.len() as int) =~= all);
    None
}

pub fn systemd_unit_from_cgroup(cgroup: &str, process: &LinuxProcess, mode: UnitMatchMode) -> (unit:
    Option<SystemdUnitTarget>)
    ensures
        match unit {
            Some(unit) => unit_of(cgroup@, *process, mode) == Some(unit.key()),
            None => unit_of(cgroup@, *process, mode) is None,
        },
{
    let found = cgroup_segments(cgroup);
    assert(text::views(found@).len() == found@.len());
    let (manager, from) = match user_manager_position(cgroup) {
        Some((uid, index)) => {
            assert(index < found.len());
            (SystemdManagerBus::User { uid }, index + 1)
        },
        None => (SystemdManagerBus::System, 0),
    };
    assert(text::views(found@).subrange(from as int, found@.len() as int) =~= unit_segments(
        cgroup@,
    ));
    match find_specific(&found, from) {
        Some(index) => {
            let segment = found[index].as_str();
            if mode == UnitMatchMode::RequireProcessMatch && unit_requires_process_name_match(
                segment,
            ) && !unit_name_matches_process(segment, process) {
                return None;
            }
            Some(SystemdUnitTarget { manager, unit_name: found[index].clone() })
        },
        None => None,
    }
}

/// The control group belongs to a program of a user's desktop.
pub open spec fn is_fallback_candidate(cgroup: Option<Seq<char>>) -> bool {
    match cgroup {
        Some(cgroup) => {
            &&& user_manager(cgroup) is Some
            &&& unit_segments(cgroup).contains("app.slice"@) || unit_segments(cgroup).contains(
                "background.slice"@,
            )
            &&& first_specific(unit_segments(cgroup)) is Some
        },
        None => false,
    }
}

/// Tells whether one of the texts from `from` on is `wanted`.
fn names_segment(found: &Vec<String>, from: usize, wanted: &str) -> (named: bool)
    requires
        from <= found@.len(),
    ensures
        named == text::views(found@).subrange(from as int, found@.len() as int).contains(wanted@),
{
    let ghost all = text::views(found@).subrange(from as int, found@.len() as int);
    let mut i: usize = from;
    while i < found.len()
        invariant
            from <= i <= found@.len(),
            all == text::views(found@).subrange(from as int, found@.len() as int),
            forall|j: int| 0 <= j < i - from ==> all[j] != wanted@,
        decreases found@.len() - i,
    {
        assert(all[i - from] == found@[i as int]@);
        if text::same_text(found[i].as_str(), wanted) {
            return true;
        }
        i = i + 1;
    }
    false
}

pub fn cgroup_is_affix_fallback_candidate(cgroup: Option<&str>) -> (candidate: bool)
    ensures
        candidate == is_fallback_candidate(
            match cgroup {
                Some(cgroup) => Some(cgroup@),
                None => None,
            },
        ),
{
    let cgroup = match cgroup {
        Some(cgroup) => cgroup,
        None => {
            return false;
        },
    };
    let index: usize = match user_manager_position(cgroup) {
        Some((_, index)) => index,
        None => {
            return false;
        },
    };
    let found = cgroup_segments(cgroup);
    assert(text::views(found@).len() == found@.len());
    assert(index < found.len());
    let from: usize = index + 1;
    assert(text::views(found@).subrange(from as int, found@.len() as int) == unit_segments(cgroup@));
    (names_segment(&found, from, "app.slice") || names_segment(&found, from, "background.slice"))
        && find_specific(&found, from).is_some()
}

/// The interface under which a unit has its properties.
pub open spec fn unit_interface(unit_name: Seq<char>) -> Seq<char> {
    if text::finishes_with(unit_name, ".service"@) {
        "org.freedesktop.systemd1.Service"@
    } else if text::finishes_with(unit_name, ".scope"@) {
        "org.freedesktop.systemd1.Scope"@
    } else {
        "org.freedesktop.systemd1.Slice"@
    }
}

pub fn systemd_unit_interface(unit_name: &str) -> (interface: &'static str)
    ensures
        interface@ == unit_interface(unit_name@),
{
    if text::has_suffix(unit_name, ".service") {
        "org.freedesktop.systemd1.Service"
    } else if text::has_suffix(unit_name, ".scope") {
        "org.freedesktop.systemd1.Scope"
    } else {
        "org.freedesktop.systemd1.Slice"
    }
}

/// The address of the message bus of a user.
pub fn user_bus_address(uid: u32) -> (address: String)
    ensures
        address@ == "unix:path=/run/user/"@ + text::decimal(uid as nat) + "/bus"@,
{
    let mut address = "unix:path=/run/user/".to_string();
    text::append(&mut address, text::decimal_text(uid as u64).as_str());
    text::append(&mut address, "/bus");
    address
}

/// What a unit was allowed before it was first constrained.
#[derive(Debug)]
pub struct UnitOrigin {
    pub unit: SystemdUnitTarget,
    pub allowed_cpus: Vec<u8>,
}

/// The processors that the units were allowed before they were first constrained.
#[derive(Debug)]
pub struct SystemdController {
    pub unit_origins: Vec<UnitOrigin>,
}

/// What is remembered of the unit `key`.
pub open spec fn remembered(
    origins: Seq<UnitOrigin>,
    key: (SystemdManagerBus, Seq<char>),
) -> Option<Seq<u8>>
    decreases origins.len(),
{
    if origins.len() == 0 {
        None
    } else if origins.last().unit.key() == key {
        Some(origins.last().allowed_cpus@)
    } else {
        remembered(origins.drop_last(), key)
    }
}

/// `after` remembers `current` for the unit `key` unless `before` already remembered something
/// for it, and is `before` otherwise.
pub open spec fn remembers_first(
    before: SystemdController,
    after: SystemdController,
    key: (SystemdManagerBus, Seq<char>),
    current: Seq<u8>,
) -> bool {
    forall|other: (SystemdManagerBus, Seq<char>)| #[trigger]
        after.origin(other) == if other == key && before.origin(other) is None {
            Some(current)
        } else {
            before.origin(other)
        }
}

/// `after` is `before` without what was remembered for the unit `key`.
pub open spec fn forgets(
    before: SystemdController,
    after: SystemdController,
    key: (SystemdManagerBus, Seq<char>),
) -> bool {
    forall|other: (SystemdManagerBus, Seq<char>)| #[trigger]
        after.origin(other) == if other == key {
            None
        } else {
            before.origin(other)
        }
}

/// However often a unit is constrained, what it gets back is what it was allowed at first.
pub proof fn law_first_allowed_cpus_are_restored(
    before: SystemdController,
    once: SystemdController,
    twice: SystemdController,
    key: (SystemdManagerBus, Seq<char>),
    first: Seq<u8>,
    second: Seq<u8>,
)
    requires
        before.origin(key) is None,
        remembers_first(before, once, key, first),
        remembers_first(once, twice, key, second),
    ensures
        once.origin(key) == Some(first),
        twice.origin(key) == Some(first),
{
}

/// A unit that was given back its processors starts over, and no other unit is concerned.
pub proof fn law_restored_unit_starts_over(
    before: SystemdController,
    after: SystemdController,
    key: (SystemdManagerBus, Seq<char>),
    other: (SystemdManagerBus, Seq<char>),
)
    requires
        forgets(before, after, key),
        other != key,
    ensures
        after.origin(key) is None,
        after.origin(other) == before.origin(other),
{
}

fn copy_bytes(bytes: &Vec<u8>) -> (copied: Vec<u8>)
    ensures
        copied@ == bytes@,
{
    let mut copied: Vec<u8> = Vec::new();
    let mut i: usize = 0;
    while i < bytes.len()
        invariant
            i <= bytes@.len(),
            copied@ == bytes@.subrange(0, i as int),
        decreases bytes@.len() - i,
    {
        copied.push(bytes[i]);
        i = i + 1;
        assert(bytes@.subrange(0, i as int) =~= bytes@.subrange(0, i - 1).push(bytes@[i - 1]));
    }
    assert(bytes@.subrange(0, bytes@.len() as int) =~= bytes@);
    copied
}

impl SystemdController {
    pub open spec fn origin(self, key: (SystemdManagerBus, Seq<char>)) -> Option<Seq<u8>> {
        remembered(self.unit_origins@, key)
    }

    pub fn new() -> (controller: Self)
        ensures
            forall|key: (SystemdManagerBus, Seq<char>)| controller.origin(key) is None,
    {
        SystemdController { unit_origins: Vec::new() }
    }

    /// What is remembered of `unit`.
    pub fn find(&self, unit: &SystemdUnitTarget) -> (allowed: Option<Vec<u8>>)
        ensures
            match allowed {
                Some(allowed) => self.origin(unit.key()) == Some(allowed@),
                None => self.origin(unit.key()) is None,
            },
    {
        let ghost all = self.unit_origins@;
        let mut end: usize = self.unit_origins.len();
        assert(all.subrange(0, all.len() as int) =~= all);
        while end > 0
            invariant
                end <= self.unit_origins@.len(),
                all == self.unit_origins@,
                self.origin(unit.key()) == remembered(all.subrange(0, end as int), unit.key()),
            decreases end,
        {
            assert(all.subrange(0, end as int).drop_last() =~= all.subrange(0, end - 1));
            assert(all.subrange(0, end as int).last() == all[end - 1]);
            if self.unit_origins[end - 1].unit.same_unit(unit) {
                return Some(copy_bytes(&self.unit_origins[end - 1].allowed_cpus));
            }
            end = end - 1;
        }
        None
    }

    /// Prepares that `unit` is constrained to `mask`: remembers what it is allowed now, unless
    /// that is known from before, and returns the bitmap to set. A unit that cannot be read is
    /// left alone.
    pub fn apply_allowed_cpus(
        &mut self,
        unit: &SystemdUnitTarget,
        mask: usize,
        current: Result<Vec<u8>, ServiceError>,
    ) -> (wanted: Result<Vec<u8>, ServiceError>)
        ensures
            match (current, wanted) {
                (Ok(current), Ok(wanted)) => {
                    &&& forall|cpu: int| #[trigger]
                        cpuset::bitmap_has(wanted@, cpu) <==> mask::has_cpu(mask, cpu)
                    &&& cpuset::is_shortest(wanted@)
                    &&& remembers_first(*old(self), *final(self), unit.key(), current@)
                },
                (Err(failed), Err(error)) => error == failed && *final(self) == *old(self),
                _ => false,
            },
    {
        let current = match current {
            Ok(current) => current,
            Err(error) => {
                return Err(error);
            },
        };
        if self.find(unit).is_none() {
            let ghost before = self.unit_origins@;
            let entry = UnitOrigin { unit: unit.clone(), allowed_cpus: current };
            self.unit_origins.push(entry);
            assert(self.unit_origins@.drop_last() =~= before);
        }
        Ok(cpuset::systemd_allowed_cpus_bytes(mask))
    }

    /// Forgets `unit` and returns the bitmap it is to get back, if it was ever constrained.
    pub fn restore_allowed_cpus(&mut self, unit: &SystemdUnitTarget) -> (origin: Option<Vec<u8>>)
        ensures
            match origin {
                Some(origin) => old(self).origin(unit.key()) == Some(origin@),
                None => old(self).origin(unit.key()) is None,
            },
            forgets(*old(self), *final(self), unit.key()),
    {
        let origin = self.find(unit);
        let ghost all = self.unit_origins@;
        let mut kept: Vec<UnitOrigin> = Vec::new();
        let mut i: usize = 0;
        while i < self.unit_origins.len()
            invariant
                i <= self.unit_origins@.len(),
                self.unit_origins@ == all,
                forall|key: (SystemdManagerBus, Seq<char>)| #[trigger]
                    remembered(kept@, key) == if key == unit.key() {
                        None
                    } else {
                        remembered(all.subrange(0, i as int), key)
                    },
            decreases self.unit_origins@.len() - i,
        {
            let ghost before = kept@;
            assert(all.subrange(0, i + 1).drop_last() =~= all.subrange(0, i as int));
            assert(all.subrange(0, i + 1).last() == all[i as int]);
            if !self.unit_origins[i].unit.same_unit(unit) {
                let entry = UnitOrigin {
                    unit: self.unit_origins[i].unit.clone(),
                    allowed_cpus: copy_bytes(&self.unit_origins[i].allowed_cpus),
                };
                kept.push(entry);
                assert(kept@.drop_last() =~= before);
            }
            assert forall|key: (SystemdManagerBus, Seq<char>)| #[trigger]
                remembered(kept@, key) == if key == unit.key() {
                    None
                } else {
                    remembered(all.subrange(0, i + 1), key)
                } by {
                assert(remembered(before, key) == if key == unit.key() {
                    None
                } else {
                    remembered(all.subrange(0, i as int), key)
                });
            }
            i = i + 1;
        }
        assert(all.subrange(0, all.len() as int) =~= all);
        self.unit_origins = kept;
        origin
    }
}

impl Default for SystemdController {
    fn default() -> (controller: Self)
        ensures
            forall|key: (SystemdManagerBus, Seq<char>)| controller.origin(key) is None,
    {
        SystemdController::new()
    }
}

/// A unit that many unrelated processes share is never the target of a policy.
pub proof fn law_broad_units_are_never_targeted(
    cgroup: Seq<char>,
    process: LinuxProcess,
    mode: UnitMatchMode,
)
    ensures
        unit_of(cgroup, process, mode) matches Some((_, unit)) ==> !is_broad(unit),
{
    lemma_first_specific_is_specific(unit_segments(cgroup));
}

proof fn lemma_first_specific_is_specific(found: Seq<Seq<char>>)
    ensures
        first_specific(found) matches Some(unit) ==> is_specific(unit) && found.contains(unit),
    decreases found.len(),
{
    if found.len() > 0 {
        let shorter = found.drop_last();
        lemma_first_specific_is_specific(shorter);
        if let Some(unit) = first_specific(shorter) {
            let i = choose|i: int| 0 <= i < shorter.len() && shorter[i] == unit;
            assert(found[i] == unit);
        } else {
            assert(found[found.len() - 1] == found.last());
        }
    }
}

/// Demanding that the unit be named after the process only ever takes targets away.
pub proof fn law_matched_unit_is_the_containing_unit(cgroup: Seq<char>, process: LinuxProcess)
    ensures
        unit_of(cgroup, process, UnitMatchMode::RequireProcessMatch) matches Some(unit) ==> unit_of(
            cgroup,
            process,
            UnitMatchMode::AnySpecificUnit,
        ) == Some(unit),
{
}

/// A service is the target whatever the process is called.
pub proof fn law_services_need_no_match(cgroup: Seq<char>, process: LinuxProcess)
    requires
        first_specific(unit_segments(cgroup)) matches Some(unit) && text::finishes_with(
            unit,
            ".service"@,
        ),
    ensures
        unit_of(cgroup, process, UnitMatchMode::RequireProcessMatch) == Some(
            (unit_manager(cgroup), first_specific(unit_segments(cgroup))->0),
        ),
{
}

} // verus!
