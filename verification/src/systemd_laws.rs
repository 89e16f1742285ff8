//! What holds of the units that processes belong to, and of the processors that units and control
//! groups are allowed.

use vstd::arithmetic::power2::pow2;
use vstd::prelude::*;

use crate::cpuset;
use crate::linux_process;
use crate::linux_process::LinuxProcess;
use crate::mask;
use crate::service::ServiceError;
use crate::systemd;
use crate::systemd::{SystemdController, SystemdManagerBus, SystemdUnitTarget, UnitMatchMode};
use crate::text;

verus! {

/// `name` is `begin`, then anything, then `end`.
pub open spec fn is_framed(name: Seq<char>, begin: Seq<char>, end: Seq<char>) -> bool {
    text::begins_with(name, begin) && text::finishes_with(name, end)
}

/// Many unrelated processes share the unit: the slices of the system, of users and of sessions, the
/// service managers of users, and the scopes of login sessions.
pub open spec fn is_shared_unit(name: Seq<char>) -> bool {
    ||| name == "-.slice"@ || name == "system.slice"@ || name == "machine.slice"@
    ||| name == "user.slice"@ || name == "app.slice"@ || name == "background.slice"@
    ||| name == "session.slice"@
    ||| is_framed(name, "user@"@, ".service"@)
    ||| is_framed(name, "user-"@, ".slice"@)
    ||| is_framed(name, "session-"@, ".scope"@)
}

/// The unit stands for one program: a service, a scope or the slice of an application that is not
/// shared.
pub open spec fn is_program_unit(name: Seq<char>) -> bool {
    &&& !is_shared_unit(name)
    &&& text::finishes_with(name, ".service"@) || text::finishes_with(name, ".scope"@)
        || is_framed(name, "app-"@, ".slice"@)
}

/// Which units are shared, which stand for a program, and which need not be named after the
/// process in them: the services.
pub proof fn law_unit_names_tell_what_units_are(
    name: &str,
    broad: bool,
    specific: bool,
    needs_match: bool,
)
    requires
        call_ensures(systemd::is_broad_systemd_unit, (name,), broad),
        call_ensures(systemd::is_specific_systemd_unit, (name,), specific),
        call_ensures(systemd::unit_requires_process_name_match, (name,), needs_match),
    ensures
        broad <==> is_shared_unit(name@),
        specific <==> is_program_unit(name@),
        needs_match <==> !text::finishes_with(name@, ".service"@),
        !(broad && specific),
{
}

/// The segments of a control group path are the pieces between its slashes that are not empty.
pub proof fn law_segments_are_the_pieces_of_the_path(
    path: &str,
    found: Vec<String>,
    piece: Seq<char>,
)
    requires
        call_ensures(systemd::cgroup_segments, (path,), found),
    ensures
        text::views(found@).contains(piece) <==> piece.len() > 0 && text::split(
            path@,
            '/',
        ).contains(piece),
{
    let pieces = text::split(path@, '/');
    let kept = |piece: Seq<char>| piece.len() > 0;
    let views = text::views(found@);
    assert(views == pieces.filter(kept));
    if views.contains(piece) {
        let k = choose|k: int| 0 <= k < views.len() && views[k] == piece;
        pieces.lemma_filter_pred(kept, k);
        pieces.lemma_filter_contains_rev(kept, piece);
    }
    if piece.len() > 0 && pieces.contains(piece) {
        let i = choose|i: int| 0 <= i < pieces.len() && pieces[i] == piece;
        pieces.lemma_filter_contains(kept, i);
    }
}

/// A path that is written from segments is read as those segments, in their order.
pub proof fn law_written_segments_are_read(path: &str, found: Vec<String>, segments: Seq<Seq<char>>)
    requires
        call_ensures(systemd::cgroup_segments, (path,), found),
        segments.len() > 0,
        forall|i: int|
            0 <= i < segments.len() ==> (#[trigger] segments[i]).len() > 0
                && !segments[i].contains('/'),
        path@ == text::joined(segments, '/'),
    ensures
        text::views(found@) == segments,
{
    text::lemma_split_joined(segments, '/');
    let kept = |piece: Seq<char>| piece.len() > 0;
    lemma_all_kept(segments, kept);
}

proof fn lemma_all_kept(segments: Seq<Seq<char>>, kept: spec_fn(Seq<char>) -> bool)
    requires
        forall|i: int| 0 <= i < segments.len() ==> kept(#[trigger] segments[i]),
    ensures
        segments.filter(kept) == segments,
    decreases segments.len(),
{
    reveal(Seq::filter);
    if segments.len() > 0 {
        let before = segments.drop_last();
        assert forall|i: int| 0 <= i < before.len() implies kept(#[trigger] before[i]) by {
            assert(before[i] == segments[i]);
        }
        lemma_all_kept(before, kept);
        assert(segments.last() == segments[segments.len() - 1]);
        assert(before.push(segments.last()) =~= segments);
    }
}

/// The segment is `begin`, the number `uid`, and `end`.
pub open spec fn names_user(
    segment: Seq<char>,
    begin: Seq<char>,
    uid: u32,
    end: Seq<char>,
) -> bool {
    exists|digits: Seq<char>|
        #![trigger text::unsigned(digits)]
        segment == begin + digits + end && text::unsigned(digits) == Some(uid as nat)
}

/// The segment is `begin`, some number that fits, and `end`.
pub open spec fn names_some_user(segment: Seq<char>, begin: Seq<char>, end: Seq<char>) -> bool {
    exists|uid: u32| #[trigger] names_user(segment, begin, uid, end)
}

proof fn lemma_uid_between(segment: Seq<char>, begin: Seq<char>, end: Seq<char>)
    ensures
        forall|uid: u32|
            #![trigger names_user(segment, begin, uid, end)]
            systemd::uid_between(segment, begin, end) == Some(uid) <==> names_user(
                segment,
                begin,
                uid,
                end,
            ),
        systemd::uid_between(segment, begin, end) is Some <==> names_some_user(
            segment,
            begin,
            end,
        ),
{
    assert forall|uid: u32|
        #![trigger names_user(segment, begin, uid, end)]
        systemd::uid_between(segment, begin, end) == Some(uid) <==> names_user(
            segment,
            begin,
            uid,
            end,
        ) by {
        if systemd::uid_between(segment, begin, end) == Some(uid) {
            let rest = text::after_prefix(segment, begin)->0;
            let digits = text::before_suffix(rest, end)->0;
            assert(segment =~= begin + digits + end);
            assert(text::unsigned(digits) == Some(uid as nat));
        }
        if names_user(segment, begin, uid, end) {
            let digits = choose|digits: Seq<char>|
                #![trigger text::unsigned(digits)]
                segment == begin + digits + end && text::unsigned(digits) == Some(uid as nat);
            let rest = digits + end;
            assert(segment.subrange(0, begin.len() as int) =~= begin);
            assert(segment.subrange(begin.len() as int, segment.len() as int) =~= rest);
            assert(rest.subrange(rest.len() - end.len(), rest.len() as int) =~= end);
            assert(rest.subrange(0, rest.len() - end.len()) =~= digits);
        }
    }
    if systemd::uid_between(segment, begin, end) is Some {
        let uid = systemd::uid_between(segment, begin, end)->0;
        assert(names_user(segment, begin, uid, end));
    }
    if names_some_user(segment, begin, end) {
        let uid = choose|uid: u32| #[trigger] names_user(segment, begin, uid, end);
        assert(systemd::uid_between(segment, begin, end) == Some(uid));
    }
}

proof fn lemma_first_uid(found: Seq<Seq<char>>, begin: Seq<char>, end: Seq<char>)
    ensures
        match systemd::first_uid(found, begin, end) {
            Some((uid, index)) => {
                &&& 0 <= index < found.len()
                &&& names_user(found[index], begin, uid, end)
                &&& forall|i: int|
                    0 <= i < index ==> !names_some_user(#[trigger] found[i], begin, end)
            },
            None => forall|i: int|
                0 <= i < found.len() ==> !names_some_user(#[trigger] found[i], begin, end),
        },
    decreases found.len(),
{
    if found.len() > 0 {
        let before = found.drop_last();
        lemma_first_uid(before, begin, end);
        lemma_uid_between(found.last(), begin, end);
        let last = found.len() - 1;
        assert(found[last] == found.last());
        match systemd::first_uid(before, begin, end) {
            Some((uid, index)) => {
                assert(found[index] == before[index]);
                assert forall|i: int| 0 <= i < index implies !names_some_user(
                    #[trigger] found[i],
                    begin,
                    end,
                ) by {
                    assert(found[i] == before[i]);
                }
            },
            None => {
                assert forall|i: int| 0 <= i < last implies !names_some_user(
                    #[trigger] found[i],
                    begin,
                    end,
                ) by {
                    assert(found[i] == before[i]);
                }
                if let Some(uid) = systemd::uid_between(found.last(), begin, end) {
                    assert(names_user(found.last(), begin, uid, end));
                }
            },
        }
    }
}

/// The service manager of a user is known by the first segment `user@<uid>.service` or, where there
/// is none, by the first segment `user-<uid>.slice`.
pub proof fn law_user_manager_is_named_in_the_path(
    path: &str,
    found: Vec<String>,
    position: Option<(u32, usize)>,
)
    requires
        call_ensures(systemd::cgroup_segments, (path,), found),
        call_ensures(systemd::user_manager_position, (path,), position),
    ensures
        match position {
            Some((uid, index)) => {
                &&& index < found@.len()
                &&& names_user(found@[index as int]@, "user@"@, uid, ".service"@) || names_user(
                    found@[index as int]@,
                    "user-"@,
                    uid,
                    ".slice"@,
                ) && forall|i: int|
                    0 <= i < found@.len() ==> !names_some_user(
                        (#[trigger] found@[i])@,
                        "user@"@,
                        ".service"@,
                    )
                &&& names_user(found@[index as int]@, "user@"@, uid, ".service"@) ==> forall|i: int|
                    0 <= i < index ==> !names_some_user(
                        (#[trigger] found@[i])@,
                        "user@"@,
                        ".service"@,
                    )
            },
            None => forall|i: int|
                0 <= i < found@.len() ==> !names_some_user(
                    (#[trigger] found@[i])@,
                    "user@"@,
                    ".service"@,
                ) && !names_some_user(found@[i]@, "user-"@, ".slice"@),
        },
{
    let views = text::views(found@);
    assert(views == systemd::segments(path@));
    lemma_first_uid(views, "user@"@, ".service"@);
    lemma_first_uid(views, "user-"@, ".slice"@);
    assert forall|i: int| 0 <= i < found@.len() implies views[i] == (#[trigger] found@[i])@ by {}
    match position {
        Some((uid, index)) => {
            assert(views[index as int] == found@[index as int]@);
            if systemd::first_uid(views, "user@"@, ".service"@) is None {
                assert(!names_some_user(views[index as int], "user@"@, ".service"@));
                if names_user(found@[index as int]@, "user@"@, uid, ".service"@) {
                    assert(names_some_user(views[index as int], "user@"@, ".service"@));
                }
            }
        },
        None => {},
    }
}

proof fn lemma_first_specific(found: Seq<Seq<char>>)
    ensures
        match systemd::first_specific(found) {
            Some(unit) => exists|k: int|
                0 <= k < found.len() && #[trigger] found[k] == unit && is_program_unit(unit)
                    && forall|i: int| 0 <= i < k ==> !is_program_unit(#[trigger] found[i]),
            None => forall|i: int| 0 <= i < found.len() ==> !is_program_unit(#[trigger] found[i]),
        },
    decreases found.len(),
{
    if found.len() > 0 {
        let before = found.drop_last();
        let last = found.len() - 1;
        lemma_first_specific(before);
        assert(found[last] == found.last());
        match systemd::first_specific(before) {
            Some(unit) => {
                let k = choose|k: int|
                    0 <= k < before.len() && #[trigger] before[k] == unit && is_program_unit(unit)
                        && forall|i: int| 0 <= i < k ==> !is_program_unit(#[trigger] before[i]);
                assert(found[k] == unit);
                assert forall|i: int| 0 <= i < k implies !is_program_unit(#[trigger] found[i]) by {
                    assert(found[i] == before[i]);
                }
            },
            None => {
                assert forall|i: int| 0 <= i < last implies !is_program_unit(
                    #[trigger] found[i],
                ) by {
                    assert(found[i] == before[i]);
                }
            },
        }
    }
}

/// The segment at `k` is the first of those from `from` on that names the unit of a program.
pub open spec fn is_first_program(found: Seq<String>, from: int, k: int) -> bool {
    &&& from <= k < found.len()
    &&& is_program_unit(found[k]@)
    &&& forall|i: int| from <= i < k ==> !is_program_unit((#[trigger] found[i])@)
}

/// The unit of a process is the first one below the service manager of its user, or below the
/// root where no user's manager is in the path, that stands for a program. The manager is the
/// user's, or the system's. A unit that is no service must, where that is asked for, be named
/// after the process.
pub proof fn law_unit_is_the_first_of_a_program(
    path: &str,
    process: &LinuxProcess,
    mode: UnitMatchMode,
    found: Vec<String>,
    position: Option<(u32, usize)>,
    unit: Option<SystemdUnitTarget>,
    k: int,
)
    requires
        call_ensures(systemd::cgroup_segments, (path,), found),
        call_ensures(systemd::user_manager_position, (path,), position),
        call_ensures(systemd::systemd_unit_from_cgroup, (path, process, mode), unit),
        is_first_program(
            found@,
            match position {
                Some((_, index)) => index + 1,
                None => 0,
            },
            k,
        ),
    ensures
        unit matches Some(unit) ==> unit.unit_name@ == found@[k]@ && unit.manager == match position {
            Some((uid, _)) => SystemdManagerBus::User { uid },
            None => SystemdManagerBus::System,
        },
        mode == UnitMatchMode::AnySpecificUnit ==> unit is Some,
        text::finishes_with(found@[k]@, ".service"@) ==> unit is Some,
        forall|name: &str, matched: bool|
            #![trigger call_ensures(systemd::unit_name_matches_process, (name, process), matched)]
            name@ == found@[k]@ && mode == UnitMatchMode::RequireProcessMatch
                && !text::finishes_with(name@, ".service"@) && call_ensures(
                systemd::unit_name_matches_process,
                (name, process),
                matched,
            ) ==> (unit is Some <==> matched),
{
    let from = match position {
        Some((_, index)) => index + 1,
        None => 0,
    };
    let views = text::views(found@);
    assert(views == systemd::segments(path@));
    let below = views.subrange(from, views.len() as int);
    if from == 0 {
        assert(below =~= views);
    }
    assert(below == systemd::unit_segments(path@));
    lemma_first_specific(below);
    assert forall|i: int| 0 <= i < below.len() implies #[trigger] below[i] == found@[from + i]@ by {}
    assert(below[k - from] == found@[k]@);
    match systemd::first_specific(below) {
        Some(first) => {
            let at = choose|at: int|
                0 <= at < below.len() && #[trigger] below[at] == first && is_program_unit(first)
                    && forall|i: int| 0 <= i < at ==> !is_program_unit(#[trigger] below[i]);
            assert(below[at] == found@[from + at]@);
            if at < k - from {
                assert(!is_program_unit(found@[from + at]@));
            }
            assert(at == k - from);
        },
        None => {
            assert(!is_program_unit(below[k - from]));
        },
    }
}

/// A process whose path names no unit of a program, below the manager of its user, has no unit.
pub proof fn law_path_without_program_has_no_unit(
    path: &str,
    process: &LinuxProcess,
    mode: UnitMatchMode,
    found: Vec<String>,
    position: Option<(u32, usize)>,
    unit: Option<SystemdUnitTarget>,
)
    requires
        call_ensures(systemd::cgroup_segments, (path,), found),
        call_ensures(systemd::user_manager_position, (path,), position),
        call_ensures(systemd::systemd_unit_from_cgroup, (path, process, mode), unit),
        forall|i: int|
            (match position {
                Some((_, index)) => index + 1,
                None => 0,
            }) <= i < found@.len() ==> !is_program_unit((#[trigger] found@[i])@),
    ensures
        unit is None,
{
    let from = match position {
        Some((_, index)) => index + 1,
        None => 0,
    };
    let views = text::views(found@);
    let below = views.subrange(from, views.len() as int);
    if from == 0 {
        assert(below =~= views);
    }
    assert(below == systemd::unit_segments(path@));
    lemma_first_specific(below);
    if let Some(first) = systemd::first_specific(below) {
        let at = choose|at: int|
            0 <= at < below.len() && #[trigger] below[at] == first && is_program_unit(first)
                && forall|i: int| 0 <= i < at ==> !is_program_unit(#[trigger] below[i]);
        assert(found@[from + at]@ == below[at]);
    }
}

/// A process falls back to a directory of its own only in a desktop program: below the service
/// manager of a user, in the slice of the applications or of the background, and in a unit that
/// stands for a program.
pub proof fn law_only_desktop_programs_fall_back(
    path: &str,
    found: Vec<String>,
    position: Option<(u32, usize)>,
    candidate: bool,
)
    requires
        call_ensures(systemd::cgroup_segments, (path,), found),
        call_ensures(systemd::user_manager_position, (path,), position),
        call_ensures(systemd::cgroup_is_affix_fallback_candidate, (Some(path),), candidate),
    ensures
        candidate <==> (position matches Some((_, index)) && (exists|i: int|
            index < i < found@.len() && ((#[trigger] found@[i])@ == "app.slice"@ || found@[i]@
                == "background.slice"@)) && exists|i: int|
            index < i < found@.len() && is_program_unit((#[trigger] found@[i])@)),
{
    let views = text::views(found@);
    assert(views == systemd::segments(path@));
    if let Some((_, index)) = position {
        let from = index + 1;
        let below = views.subrange(from, views.len() as int);
        assert(below == systemd::unit_segments(path@));
        lemma_first_specific(below);
        assert forall|i: int| 0 <= i < below.len() implies #[trigger] below[i] == found@[from
            + i]@ by {}
        assert forall|i: int| index < i < found@.len() implies below[i - from] == (
        #[trigger] found@[i])@ by {}
        if below.contains("app.slice"@) {
            let i = choose|i: int| 0 <= i < below.len() && below[i] == "app.slice"@;
            assert(found@[from + i]@ == "app.slice"@);
        }
        if below.contains("background.slice"@) {
            let i = choose|i: int| 0 <= i < below.len() && below[i] == "background.slice"@;
            assert(found@[from + i]@ == "background.slice"@);
        }
        if let Some(first) = systemd::first_specific(below) {
            let at = choose|at: int|
                0 <= at < below.len() && #[trigger] below[at] == first && is_program_unit(first)
                    && forall|i: int| 0 <= i < at ==> !is_program_unit(#[trigger] below[i]);
            assert(found@[from + at]@ == below[at]);
        }
        if exists|i: int|
            index < i < found@.len() && is_program_unit((#[trigger] found@[i])@) {
            let i = choose|i: int|
                index < i < found@.len() && is_program_unit((#[trigger] found@[i])@);
            assert(is_program_unit(below[i - from]));
        }
        if exists|i: int|
            index < i < found@.len() && ((#[trigger] found@[i])@ == "app.slice"@ || found@[i]@
                == "background.slice"@) {
            let i = choose|i: int|
                index < i < found@.len() && ((#[trigger] found@[i])@ == "app.slice"@
                    || found@[i]@ == "background.slice"@);
            assert(below[i - from] == found@[i]@);
        }
    }
}

/// A process without a control group never falls back.
pub proof fn law_unknown_group_never_falls_back(candidate: bool)
    requires
        call_ensures(
            systemd::cgroup_is_affix_fallback_candidate,
            (None::<&str>,),
            candidate,
        ),
    ensures
        !candidate,
{
}

/// Reducing a name keeps its letters, in lower case, and its digits, and nothing else.
pub proof fn law_reduced_names_hold_letters_and_digits(
    name: &str,
    longer: &str,
    reduced: Vec<char>,
    reduced_longer: Vec<char>,
    c: char,
)
    requires
        call_ensures(systemd::normalized_identifier, (name,), reduced),
        call_ensures(systemd::normalized_identifier, (longer,), reduced_longer),
        longer@ == name@.push(c),
    ensures
        name@.len() == 0 ==> reduced@.len() == 0,
        'a' <= c <= 'z' || '0' <= c <= '9' ==> reduced_longer@ == reduced@.push(c),
        'A' <= c <= 'Z' ==> reduced_longer@ == reduced@.push((c as u32 + 32) as char),
        !('a' <= c <= 'z' || '0' <= c <= '9' || 'A' <= c <= 'Z') ==> reduced_longer@ == reduced@,
{
    reveal(Seq::filter);
    let kept = |c: char| text::is_letter(c) || text::is_digit(c);
    name@.lemma_filter_push(c, kept);
    if kept(c) {
        assert(systemd::normalized(longer@) =~= systemd::normalized(name@).push(
            text::ascii_lower(c),
        ));
    } else {
        assert(systemd::normalized(longer@) =~= systemd::normalized(name@));
    }
}

/// A unit is named after a process where one of the names of the process and the name of the unit,
/// both reduced and neither empty, stand one in the other.
pub proof fn law_units_are_named_after_processes(
    unit: &str,
    process: &LinuxProcess,
    names: Vec<String>,
    matched: bool,
    reduced_unit: Vec<char>,
    i: int,
    name: &str,
    reduced: Vec<char>,
)
    requires
        call_ensures(systemd::unit_name_matches_process, (unit, process), matched),
        call_ensures(linux_process::process_identifier_candidates, (process,), names),
        call_ensures(systemd::normalized_identifier, (unit,), reduced_unit),
        0 <= i < names@.len(),
        name@ == names@[i]@,
        call_ensures(systemd::normalized_identifier, (name,), reduced),
    ensures
        reduced_unit@.len() > 0 && reduced@.len() > 0 && (text::contains_part(
            reduced_unit@,
            reduced@,
        ) || text::contains_part(reduced@, reduced_unit@)) ==> matched,
        matched ==> reduced_unit@.len() > 0,
        matched && names@.len() == 1 ==> reduced@.len() > 0 && (text::contains_part(
            reduced_unit@,
            reduced@,
        ) || text::contains_part(reduced@, reduced_unit@)),
{
    let all = linux_process::candidates(*process);
    assert(all[i] == text::views(names@)[i]);
    if reduced_unit@.len() > 0 && reduced@.len() > 0 && (text::contains_part(
        reduced_unit@,
        reduced@,
    ) || text::contains_part(reduced@, reduced_unit@)) {
        assert(systemd::names_agree(unit@, all[i]));
    }
    if matched && names@.len() == 1 {
        let k = choose|k: int| 0 <= k < all.len() && systemd::names_agree(unit@, #[trigger] all[k]);
        assert(k == i);
    }
}

/// The names of a process are its own, the file name of its executable, and that without its
/// extension.
pub proof fn law_process_goes_by_its_names(
    process: &LinuxProcess,
    names: Vec<String>,
    path: &str,
    file: Option<String>,
)
    requires
        call_ensures(linux_process::process_identifier_candidates, (process,), names),
        process.exe matches Some(exe) ==> path@ == exe@ && call_ensures(
            linux_process::path_file_name,
            (path,),
            file,
        ),
    ensures
        names@.len() > 0 && names@[0]@ == process.comm@,
        process.exe is None || file is None ==> names@.len() == 1,
        process.exe is Some ==> (file matches Some(file) ==> names@.len() == 3 && names@[1]@ == file@
            && forall|stem: String, at: &str| #[trigger]
            call_ensures(linux_process::file_stem, (at,), stem) && at@ == file@ ==> names@[2]@
                == stem@),
{
    let all = linux_process::candidates(*process);
    let views = text::views(names@);
    assert(views == all);
    assert(views.len() == names@.len());
    assert(all[0] == process.comm@);
    assert(names@[0]@ == views[0]);
    if process.exe is Some && file is Some {
        assert(all.len() == 3);
        assert(names@[1]@ == views[1]);
        assert(names@[2]@ == views[2]);
    }
}

/// However often a unit is constrained, it gets back what it was allowed before the first time.
pub proof fn law_constrained_unit_gets_its_first_processors_back(
    first: &mut SystemdController,
    second: &mut SystemdController,
    last: &mut SystemdController,
    unit: &SystemdUnitTarget,
    known: Option<Vec<u8>>,
    before: Vec<u8>,
    between: Result<Vec<u8>, ServiceError>,
    mask: usize,
    other_mask: usize,
    wanted: Result<Vec<u8>, ServiceError>,
    other_wanted: Result<Vec<u8>, ServiceError>,
    origin: Option<Vec<u8>>,
)
    requires
        call_ensures(SystemdController::find, (&*old(first), unit), known),
        known is None,
        call_ensures(
            SystemdController::apply_allowed_cpus,
            (first, unit, mask, Ok::<Vec<u8>, ServiceError>(before)),
            wanted,
        ),
        *old(second) == *final(first),
        call_ensures(
            SystemdController::apply_allowed_cpus,
            (second, unit, other_mask, between),
            other_wanted,
        ),
        *old(last) == *final(second),
        call_ensures(SystemdController::restore_allowed_cpus, (last, unit), origin),
    ensures
        wanted is Ok,
        origin matches Some(origin) && origin@ == before@,
{
    assert(old(first).origin(unit.key()) is None);
    assert(final(first).origin(unit.key()) == Some(before@));
    assert(final(second).origin(unit.key()) == Some(before@));
}

/// A unit that was given back its processors, or was never constrained, gets nothing back.
pub proof fn law_unit_gets_its_processors_back_once(
    first: &mut SystemdController,
    second: &mut SystemdController,
    unit: &SystemdUnitTarget,
    origin: Option<Vec<u8>>,
    again: Option<Vec<u8>>,
)
    requires
        call_ensures(SystemdController::restore_allowed_cpus, (first, unit), origin),
        *old(second) == *final(first),
        call_ensures(SystemdController::restore_allowed_cpus, (second, unit), again),
    ensures
        again is None,
{
    assert(final(first).origin(unit.key()) is None);
}

/// What is done to one unit concerns no other: one of another name, or of another manager.
pub proof fn law_other_units_are_kept(
    constrained: &mut SystemdController,
    restored: &mut SystemdController,
    unit: &SystemdUnitTarget,
    other: &SystemdUnitTarget,
    mask: usize,
    current: Result<Vec<u8>, ServiceError>,
    wanted: Result<Vec<u8>, ServiceError>,
    origin: Option<Vec<u8>>,
    before: Option<Vec<u8>>,
    after: Option<Vec<u8>>,
    last: Option<Vec<u8>>,
)
    requires
        unit.manager != other.manager || unit.unit_name@ != other.unit_name@,
        call_ensures(SystemdController::find, (&*old(constrained), other), before),
        call_ensures(
            SystemdController::apply_allowed_cpus,
            (constrained, unit, mask, current),
            wanted,
        ),
        call_ensures(SystemdController::find, (&*final(constrained), other), after),
        *old(restored) == *final(constrained),
        call_ensures(SystemdController::restore_allowed_cpus, (restored, unit), origin),
        call_ensures(SystemdController::find, (&*final(restored), other), last),
    ensures
        before is Some <==> after is Some,
        before is Some <==> last is Some,
        before matches Some(before) ==> (after matches Some(after) && after@ == before@) && (
        last matches Some(last) && last@ == before@),
{
    assert(unit.key() != other.key());
    assert(final(constrained).origin(other.key()) == old(constrained).origin(other.key()));
    assert(final(restored).origin(other.key()) == old(restored).origin(other.key()));
}

/// A unit that cannot be read is left alone, and a failure to read is handed on.
pub proof fn law_unread_unit_is_left_alone(
    controller: &mut SystemdController,
    unit: &SystemdUnitTarget,
    mask: usize,
    error: ServiceError,
    wanted: Result<Vec<u8>, ServiceError>,
)
    requires
        call_ensures(
            SystemdController::apply_allowed_cpus,
            (controller, unit, mask, Err::<Vec<u8>, ServiceError>(error)),
            wanted,
        ),
    ensures
        *final(controller) == *old(controller),
        wanted == Err::<Vec<u8>, ServiceError>(error),
{
}

/// The place of `number`, written in binary, that is worth two to the power of `place` is a one.
pub open spec fn has_place(number: nat, place: nat) -> bool {
    (number / pow2(place)) % 2 == 1
}

proof fn lemma_place(mask: usize, cpu: usize)
    requires
        cpu < usize::BITS,
    ensures
        mask::has_cpu(mask, cpu as int) <==> has_place(mask as nat, cpu as nat),
{
    vstd::bits::lemma_usize_shr_is_div(mask, cpu);
    let shifted = mask >> cpu;
    assert(shifted & 1 == shifted % 2) by (bit_vector);
}

proof fn lemma_byte_place(bytes: Seq<u8>, cpu: int)
    requires
        0 <= cpu,
        cpu / 8 < bytes.len(),
    ensures
        cpuset::bitmap_has(bytes, cpu) <==> has_place(bytes[cpu / 8] as nat, (cpu % 8) as nat),
{
    let byte = bytes[cpu / 8];
    let place = (cpu % 8) as u8;
    vstd::bits::lemma_u8_shr_is_div(byte, place);
    let shifted = byte >> place;
    assert(shifted & 1 == shifted % 2) by (bit_vector);
}

/// A bitmap for a unit has the processor `cpu` at place `cpu % 8` of its byte `cpu / 8`, has bytes
/// for all processors of the mask, and does not end with an empty byte.
pub proof fn law_bitmap_holds_the_mask(mask: usize, bytes: Vec<u8>, cpu: usize)
    requires
        call_ensures(cpuset::systemd_allowed_cpus_bytes, (mask,), bytes),
        cpu < usize::BITS,
    ensures
        has_place(mask as nat, cpu as nat) <==> cpu / 8 < bytes@.len() && has_place(
            bytes@[cpu as int / 8] as nat,
            (cpu % 8) as nat,
        ),
        bytes@.len() > 0 ==> bytes@.last() != 0,
        bytes@.len() * 8 <= usize::BITS,
{
    lemma_place(mask, cpu);
    assert(cpuset::bitmap_has(bytes@, cpu as int) <==> mask::has_cpu(mask, cpu as int));
    if cpu as int / 8 < bytes@.len() {
        lemma_byte_place(bytes@, cpu as int);
    }
    if bytes@.len() > 0 {
        let last = bytes@.len() - 1;
        let byte = bytes@[last];
        assert(byte != 0);
        assert((byte >> 0u8) & 1 == 1 || (byte >> 1u8) & 1 == 1 || (byte >> 2u8) & 1 == 1 || (byte
            >> 3u8) & 1 == 1 || (byte >> 4u8) & 1 == 1 || (byte >> 5u8) & 1 == 1 || (byte >> 6u8)
            & 1 == 1 || (byte >> 7u8) & 1 == 1) by (bit_vector)
            requires
                byte != 0,
        ;
        let bit: int = if (byte >> 0u8) & 1 == 1 {
            0
        } else if (byte >> 1u8) & 1 == 1 {
            1
        } else if (byte >> 2u8) & 1 == 1 {
            2
        } else if (byte >> 3u8) & 1 == 1 {
            3
        } else if (byte >> 4u8) & 1 == 1 {
            4
        } else if (byte >> 5u8) & 1 == 1 {
            5
        } else if (byte >> 6u8) & 1 == 1 {
            6
        } else {
            7
        };
        let at = last * 8 + bit;
        assert(at / 8 == last && at % 8 == bit);
        assert(cpuset::bitmap_has(bytes@, at));
        assert(mask::has_cpu(mask, at));
        assert(usize::BITS == 32 || usize::BITS == 64);
    }
}

/// What a unit is constrained to is the bitmap of the mask.
pub proof fn law_unit_is_constrained_to_the_mask(
    controller: &mut SystemdController,
    unit: &SystemdUnitTarget,
    mask: usize,
    current: Vec<u8>,
    wanted: Result<Vec<u8>, ServiceError>,
    cpu: usize,
)
    requires
        call_ensures(
            SystemdController::apply_allowed_cpus,
            (controller, unit, mask, Ok::<Vec<u8>, ServiceError>(current)),
            wanted,
        ),
        cpu < usize::BITS,
    ensures
        wanted matches Ok(wanted) && (has_place(mask as nat, cpu as nat) <==> cpu / 8
            < wanted@.len() && has_place(wanted@[cpu as int / 8] as nat, (cpu % 8) as nat)) && (
        wanted@.len() > 0 ==> wanted@.last() != 0),
{
    lemma_place(mask, cpu);
    let bytes = wanted->Ok_0;
    assert(cpuset::bitmap_has(bytes@, cpu as int) <==> mask::has_cpu(mask, cpu as int));
    if cpu as int / 8 < bytes@.len() {
        lemma_byte_place(bytes@, cpu as int);
    }
}

} // verus!
