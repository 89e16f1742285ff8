//! What holds of processor sets as text, of control groups, and of what the daemon reads of
//! processes.

use vstd::prelude::*;

use crate::bytes;
use crate::bytes::ByteOrder;
use crate::cgroup;
use crate::cgroup::CgroupCpusetManager;
use crate::cpuset;
use crate::linux_daemon;
use crate::linux_daemon::{DaemonAction, DaemonEvent, DaemonState};
use crate::linux_process;
use crate::linux_process::IoFailure;
use crate::mask;
use crate::paths;
use crate::proc_event;
use crate::proc_event::ProcEvent;
use crate::service::ServiceError;
use crate::text;

verus! {

/// The two bounds of each range: ascending, and with a gap between one range and the next.
pub open spec fn are_ranges(ranges: Seq<(int, int)>) -> bool {
    &&& forall|i: int| 0 <= i < ranges.len() ==> (#[trigger] ranges[i]).0 <= ranges[i].1
    &&& forall|i: int, j: int|
        0 <= i < j < ranges.len() ==> (#[trigger] ranges[i]).1 + 1 < (#[trigger] ranges[j]).0
}

/// One of the ranges holds `cpu`.
pub open spec fn is_in_ranges(ranges: Seq<(int, int)>, cpu: int) -> bool {
    exists|i: int| 0 <= i < ranges.len() && (#[trigger] ranges[i]).0 <= cpu <= ranges[i].1
}

/// A range as text: its number, or its two bounds with a dash between them.
pub open spec fn range_text(range: (int, int)) -> Seq<char> {
    if range.0 == range.1 {
        text::decimal(range.0 as nat)
    } else {
        text::decimal(range.0 as nat) + "-"@ + text::decimal(range.1 as nat)
    }
}

proof fn lemma_run_end_bounds(mask: usize, from: int)
    requires
        0 <= from < usize::BITS,
    ensures
        from <= cpuset::run_end(mask, from) < usize::BITS,
        !mask::has_cpu(mask, cpuset::run_end(mask, from) + 1),
    decreases usize::BITS - from,
{
    if from + 1 < usize::BITS && mask::has_cpu(mask, from + 1) {
        lemma_run_end_bounds(mask, from + 1);
    }
}

proof fn lemma_runs_are_ranges(mask: usize, from: int)
    requires
        0 <= from <= usize::BITS,
    ensures
        are_ranges(cpuset::runs(mask, from)),
        forall|i: int|
            0 <= i < cpuset::runs(mask, from).len() ==> from <= (#[trigger] cpuset::runs(
                mask,
                from,
            )[i]).0,
    decreases usize::BITS - from,
{
    let all = cpuset::runs(mask, from);
    if from < usize::BITS {
        if !mask::has_cpu(mask, from) {
            lemma_runs_are_ranges(mask, from + 1);
        } else {
            let end = cpuset::run_end(mask, from);
            lemma_run_end_bounds(mask, from);
            let rest = cpuset::runs(mask, end + 1);
            lemma_runs_are_ranges(mask, end + 1);
            cpuset::lemma_runs(mask, end + 1);
            assert(all =~= seq![(from, end)] + rest);
            assert forall|i: int| 0 <= i < rest.len() implies (#[trigger] rest[i]).0 > end + 1 by {
                if rest[i].0 == end + 1 {
                    assert(cpuset::in_runs(rest, end + 1));
                    assert(mask::has_cpu(mask, end + 1));
                }
            }
            assert forall|i: int| 0 <= i < all.len() implies (#[trigger] all[i]).0 <= all[i].1
                && from <= all[i].0 by {
                if i > 0 {
                    assert(all[i] == rest[i - 1]);
                }
            }
            assert forall|i: int, j: int| 0 <= i < j < all.len() implies (#[trigger] all[i]).1 + 1
                < (#[trigger] all[j]).0 by {
                assert(all[j] == rest[j - 1]);
                if i > 0 {
                    assert(all[i] == rest[i - 1]);
                }
            }
        }
    }
}

/// A mask is written as the ascending ranges of its processors, as long as they can be, each as its
/// number or its two bounds, with commas between them.
pub proof fn law_masks_are_written_as_ranges(mask: usize, written: String)
    requires
        call_ensures(cpuset::cpuset_string, (mask,), written),
    ensures
        exists|ranges: Seq<(int, int)>|
            #![trigger are_ranges(ranges)]
            are_ranges(ranges) && (forall|cpu: int| #[trigger]
                mask::has_cpu(mask, cpu) <==> is_in_ranges(ranges, cpu)) && written@
                == text::joined(ranges.map_values(|range: (int, int)| range_text(range)), ','),
{
    reveal_strlit("-");
    let ranges = cpuset::runs(mask, 0);
    lemma_runs_are_ranges(mask, 0);
    cpuset::lemma_runs(mask, 0);
    assert forall|cpu: int| #[trigger]
        mask::has_cpu(mask, cpu) <==> is_in_ranges(ranges, cpu) by {
        assert(cpuset::in_runs(ranges, cpu) == is_in_ranges(ranges, cpu));
        if cpu < 0 {
            assert(!cpuset::in_runs(ranges, cpu));
        }
        if cpu >= usize::BITS && is_in_ranges(ranges, cpu) {
            let i = choose|i: int|
                0 <= i < ranges.len() && (#[trigger] ranges[i]).0 <= cpu <= ranges[i].1;
            assert(ranges[i].1 < usize::BITS);
        }
    }
    let texts = ranges.map_values(|range: (int, int)| range_text(range));
    assert("-"@ =~= seq!['-']);
    assert forall|i: int| 0 <= i < ranges.len() implies #[trigger] texts[i] == cpuset::run_text(
        ranges[i],
    ) by {}
    assert(texts =~= cpuset::run_texts(ranges));
    assert(are_ranges(ranges));
}

/// What is written for a mask with processors reads back as that mask.
pub proof fn law_written_mask_reads_back(
    mask: usize,
    written: String,
    line: &str,
    parsed: Result<usize, ServiceError>,
)
    requires
        mask != 0,
        call_ensures(cpuset::cpuset_string, (mask,), written),
        line@ == written@,
        call_ensures(cpuset::parse_cpuset_mask, (line,), parsed),
    ensures
        parsed == Ok::<usize, ServiceError>(mask),
{
    cpuset::law_cpuset_text_reads_back(mask);
    mask::lemma_zero_iff_no_cpu(mask);
    match parsed {
        Ok(read) => {
            assert forall|cpu: int| 0 <= cpu < usize::BITS implies mask::has_cpu(read, cpu)
                == mask::has_cpu(mask, cpu) by {
                assert(mask::has_cpu(read, cpu) <==> cpuset::names_cpu(line@, cpu));
                assert(cpuset::names_cpu(cpuset::cpuset_text(mask), cpu) <==> mask::has_cpu(
                    mask,
                    cpu,
                ));
            }
            mask::lemma_extensional(read, mask);
        },
        Err(_) => {
            let cpu = choose|cpu: int| 0 <= cpu < usize::BITS && mask::has_cpu(mask, cpu);
            assert(cpuset::names_cpu(cpuset::cpuset_text(mask), cpu));
        },
    }
}

/// The directory of a processor set is named `affix-` and the set, with `_` for its commas.
pub proof fn law_leaf_is_named_after_the_set(set: &str, name: String, i: int)
    requires
        call_ensures(cpuset::cgroup_leaf_name, (set,), name),
        0 <= i < set@.len(),
    ensures
        name@.len() == set@.len() + 6,
        name@.subrange(0, 6) == "affix-"@,
        '0' <= set@[i] <= '9' || set@[i] == '-' ==> name@[i + 6] == set@[i],
        set@[i] == ',' ==> name@[i + 6] == '_',
        !('0' <= set@[i] <= '9' || set@[i] == '-' || set@[i] == ',') ==> name@[i + 6] == '-',
{
    reveal_strlit("affix-");
    let set_name = cpuset::sanitized(set@);
    assert("affix-"@.len() == 6);
    assert(name@ == "affix-"@ + set_name);
    assert(name@.subrange(0, 6) =~= "affix-"@);
    assert(name@[i + 6] == set_name[i]);
}

/// The directories of different masks have different names.
pub proof fn law_masks_do_not_share_a_leaf(
    a: usize,
    b: usize,
    written_a: String,
    written_b: String,
    set_a: &str,
    set_b: &str,
    leaf_a: String,
    leaf_b: String,
)
    requires
        a != b,
        call_ensures(cpuset::cpuset_string, (a,), written_a),
        call_ensures(cpuset::cpuset_string, (b,), written_b),
        set_a@ == written_a@,
        set_b@ == written_b@,
        call_ensures(cpuset::cgroup_leaf_name, (set_a,), leaf_a),
        call_ensures(cpuset::cgroup_leaf_name, (set_b,), leaf_b),
    ensures
        leaf_a@ != leaf_b@,
{
    if leaf_a@ == leaf_b@ {
        cpuset::law_leaf_names_differ(a, b);
    }
}

/// A control group belongs to the daemon where its path is `/affix` or leads through it.
pub proof fn law_own_groups_are_below_affix(
    manager: &CgroupCpusetManager,
    path: Option<&str>,
    managed: bool,
)
    requires
        call_ensures(CgroupCpusetManager::relative_is_affix_managed, (manager, path), managed),
    ensures
        path is None ==> !managed,
        path matches Some(path) ==> (managed <==> path@ == "/affix"@ || path@.len() >= 7
            && path@.subrange(0, 7) == "/affix/"@),
{
    reveal_strlit("/affix/");
    assert("/affix/"@.len() == 7);
}

/// What is below a directory is its path, a slash, and the name. A name that begins at the root
/// stands for itself.
pub proof fn law_names_are_joined_with_one_slash(base: &str, name: &str, path: String)
    requires
        call_ensures(cgroup::join_path, (base, name), path),
    ensures
        name@.len() > 0 && name@[0] == '/' ==> path@ == name@,
        !(name@.len() > 0 && name@[0] == '/') && base@.len() > 0 && base@.last() != '/' ==> path@
            == base@.push('/') + name@,
        !(name@.len() > 0 && name@[0] == '/') && base@.len() > 0 && base@.last() == '/' ==> path@
            == base@ + name@,
{
    reveal_strlit("/");
    assert("/"@ =~= seq!['/']);
    assert(base@ + "/"@ =~= base@.push('/'));
}

/// The daemon needs the cpuset controller, and keeps its groups in `affix` below the root.
pub proof fn law_manager_needs_the_controller(
    root: &str,
    controllers: &str,
    manager: Result<CgroupCpusetManager, ServiceError>,
)
    requires
        call_ensures(CgroupCpusetManager::open, (root, controllers), manager),
        root@.len() > 0,
        root@.last() != '/',
    ensures
        manager is Ok <==> text::has_word(controllers@, "cpuset"@),
        manager matches Ok(manager) ==> manager.root@ == root@ && manager.affix_root@ == root@
            + "/affix"@,
{
    reveal_strlit("affix");
    reveal_strlit("/affix");
    reveal_strlit("/");
    assert("/"@ + "affix"@ =~= "/affix"@);
    assert(root@ + "/"@ + "affix"@ =~= root@ + "/affix"@);
}

/// A controller is switched on exactly where it is not on yet.
pub proof fn law_controller_is_switched_on_once(
    current: &str,
    controller: &str,
    written: Option<String>,
)
    requires
        call_ensures(cgroup::enable_controller, (current, controller), written),
    ensures
        written is None <==> text::has_word(current@, controller@),
        written matches Some(written) ==> written@.len() == controller@.len() + 1 && written@[0]
            == '+' && written@.subrange(1, written@.len() as int) == controller@,
{
    reveal_strlit("+");
    if let Some(written) = written {
        assert(written@.subrange(1, written@.len() as int) =~= controller@);
    }
}

/// A directory gets what is in effect above it, which must not be empty.
pub proof fn law_effective_set_is_handed_down(
    parent: &str,
    file_name: &str,
    content: &str,
    value: Result<String, ServiceError>,
)
    requires
        call_ensures(cgroup::copy_effective_cpuset, (parent, file_name, content), value),
    ensures
        value is Err <==> text::trim(content@).len() == 0,
        value matches Ok(value) ==> value@ == text::trim(content@),
{
}

/// A process that is in the group already is not moved; any other is moved where the writing
/// succeeds, counts as not moved where it has just ended, and any other failure is told.
pub proof fn law_process_is_moved_once<W: FnOnce(&str) -> Result<(), IoFailure>>(
    group: &str,
    target: &str,
    current: &Option<String>,
    write: W,
    moved: Result<bool, ServiceError>,
)
    requires
        call_ensures(cgroup::migrate_process::<W>, (group, target, current, write), moved),
        group@.len() > 0,
        group@.last() != '/',
    ensures
        *current matches Some(current) && current@ == target@ ==> moved == Ok::<
            bool,
            ServiceError,
        >(false),
        !(*current matches Some(current) && current@ == target@) ==> exists|
            path: &str,
            written: Result<(), IoFailure>,
        |
            #![trigger call_ensures(write, (path,), written)]
            path@ == group@ + "/cgroup.procs"@ && call_ensures(write, (path,), written) && (
            match written {
                Ok(_) => moved == Ok::<bool, ServiceError>(true),
                Err(failure) => if failure.not_found || failure.os_code == Some(3i32) {
                    moved == Ok::<bool, ServiceError>(false)
                } else {
                    moved matches Err(ServiceError::Io { operation, path: Some(file), source })
                        && operation@ == "write cgroup.procs"@ && file@ == path@ && source@
                        == failure.source@
                },
            }),
{
    reveal_strlit("cgroup.procs");
    reveal_strlit("/cgroup.procs");
    reveal_strlit("/");
    assert("/"@ + "cgroup.procs"@ =~= "/cgroup.procs"@);
    assert(group@ + "/"@ + "cgroup.procs"@ =~= group@ + "/cgroup.procs"@);
    if !linux_process::is_in_cgroup(*current, target@) {
        let (path, written) = choose|path: &str, written: Result<(), IoFailure>|
            path@ == cgroup::below(group@, "cgroup.procs"@) && #[trigger] call_ensures(
                write,
                (path,),
                written,
            ) && cgroup::move_comes_to(group@, written, moved);
        assert(call_ensures(write, (path,), written));
    }
}

/// The scheduler's mask of a process has the processors that are marked, as far as a mask holds
/// them. A process that has just ended has none.
pub proof fn law_marked_processors_are_the_mask(
    reading: Result<Vec<bool>, IoFailure>,
    found: Result<Option<usize>, ServiceError>,
    cpu: int,
)
    requires
        call_ensures(cgroup::process_sched_affinity_mask, (reading,), found),
        0 <= cpu < usize::BITS,
    ensures
        reading matches Ok(allowed) ==> found is Ok && ((found matches Ok(Some(mask))
            && mask::has_cpu(mask, cpu)) <==> cpu < allowed@.len() && allowed@[cpu]),
        reading matches Err(failure) ==> (found is Err <==> !failure.not_found && failure.os_code
            != Some(3i32)) && !(found matches Ok(Some(_))),
{
    if let Ok(allowed) = reading {
        match found {
            Ok(Some(mask)) => {
                assert(mask::has_cpu(mask, cpu) <==> cgroup::marks(allowed@, cpu));
            },
            Ok(None) => {
                assert(!cgroup::marks(allowed@, cpu));
            },
            Err(_) => {},
        }
    }
}

/// The control group of a process is what follows `0::` in the first line that begins so.
pub proof fn law_unified_line_names_the_group(content: &str, group: Option<String>)
    requires
        call_ensures(linux_process::process_cgroup, (content,), group),
    ensures
        match group {
            Some(group) => exists|k: int|
                0 <= k < text::lines(content@).len() && #[trigger] text::lines(content@)[k]
                    == "0::"@ + group@ && forall|i: int|
                    0 <= i < k ==> !text::begins_with(#[trigger] text::lines(content@)[i], "0::"@),
            None => forall|i: int|
                0 <= i < text::lines(content@).len() ==> !text::begins_with(
                    #[trigger] text::lines(content@)[i],
                    "0::"@,
                ),
        },
{
    lemma_unified(text::lines(content@));
}

proof fn lemma_unified(lines: Seq<Seq<char>>)
    ensures
        match linux_process::unified_cgroup(lines) {
            Some(group) => exists|k: int|
                0 <= k < lines.len() && #[trigger] lines[k] == "0::"@ + group && forall|i: int|
                    0 <= i < k ==> !text::begins_with(#[trigger] lines[i], "0::"@),
            None => forall|i: int|
                0 <= i < lines.len() ==> !text::begins_with(#[trigger] lines[i], "0::"@),
        },
    decreases lines.len(),
{
    if lines.len() > 0 {
        let rest = lines.subrange(1, lines.len() as int);
        if text::begins_with(lines[0], "0::"@) {
            let group = linux_process::unified_cgroup(lines)->0;
            assert(lines[0] =~= "0::"@ + group);
        } else {
            lemma_unified(rest);
            match linux_process::unified_cgroup(rest) {
                Some(group) => {
                    let k = choose|k: int|
                        0 <= k < rest.len() && #[trigger] rest[k] == "0::"@ + group && forall|
                            i: int,
                        |
                            0 <= i < k ==> !text::begins_with(#[trigger] rest[i], "0::"@);
                    assert(lines[k + 1] == rest[k]);
                    assert forall|i: int| 0 <= i < k + 1 implies !text::begins_with(
                        #[trigger] lines[i],
                        "0::"@,
                    ) by {
                        if i > 0 {
                            assert(lines[i] == rest[i - 1]);
                        }
                    }
                },
                None => {
                    assert forall|i: int| 0 <= i < lines.len() implies !text::begins_with(
                        #[trigger] lines[i],
                        "0::"@,
                    ) by {
                        if i > 0 {
                            assert(lines[i] == rest[i - 1]);
                        }
                    }
                },
            }
        }
    }
}

/// The line gives `value` after the label of the parent.
pub open spec fn labels_parent(line: Seq<char>, ppid: u32) -> bool {
    text::begins_with(line, "PPid:"@) && text::unsigned(text::trim(line.subrange(5, line.len() as int)))
        == Some(ppid as nat)
}

/// The line gives some parent.
pub open spec fn labels_some_parent(line: Seq<char>) -> bool {
    exists|ppid: u32| #[trigger] labels_parent(line, ppid)
}

proof fn lemma_line_ppid(line: Seq<char>)
    ensures
        match linux_process::line_ppid(line) {
            Some(ppid) => labels_parent(line, ppid),
            None => !labels_some_parent(line),
        },
{
    reveal_strlit("PPid:");
    assert("PPid:"@.len() == 5);
    if linux_process::line_ppid(line) is None && labels_some_parent(line) {
        let ppid = choose|ppid: u32| #[trigger] labels_parent(line, ppid);
        assert(text::after_prefix(line, "PPid:"@) == Some(line.subrange(5, line.len() as int)));
    }
}

proof fn lemma_status_ppid(lines: Seq<Seq<char>>)
    ensures
        match linux_process::status_ppid(lines) {
            Some(ppid) => exists|k: int|
                0 <= k < lines.len() && labels_parent(#[trigger] lines[k], ppid) && forall|i: int|
                    0 <= i < k ==> !labels_some_parent(#[trigger] lines[i]),
            None => forall|i: int| 0 <= i < lines.len() ==> !labels_some_parent(#[trigger] lines[i]),
        },
    decreases lines.len(),
{
    if lines.len() > 0 {
        let rest = lines.subrange(1, lines.len() as int);
        lemma_line_ppid(lines[0]);
        if linux_process::line_ppid(lines[0]) is None {
            lemma_status_ppid(rest);
            match linux_process::status_ppid(rest) {
                Some(ppid) => {
                    let k = choose|k: int|
                        0 <= k < rest.len() && labels_parent(#[trigger] rest[k], ppid) && forall|
                            i: int,
                        |
                            0 <= i < k ==> !labels_some_parent(#[trigger] rest[i]);
                    assert(lines[k + 1] == rest[k]);
                    assert forall|i: int| 0 <= i < k + 1 implies !labels_some_parent(
                        #[trigger] lines[i],
                    ) by {
                        if i > 0 {
                            assert(lines[i] == rest[i - 1]);
                        }
                    }
                },
                None => {
                    assert forall|i: int| 0 <= i < lines.len() implies !labels_some_parent(
                        #[trigger] lines[i],
                    ) by {
                        if i > 0 {
                            assert(lines[i] == rest[i - 1]);
                        }
                    }
                },
            }
        }
    }
}

/// The parent of a process is the number after `PPid:` in the first line that gives one.
pub proof fn law_status_line_names_the_parent(status: &str, ppid: Option<u32>)
    requires
        call_ensures(linux_process::read_ppid, (status,), ppid),
    ensures
        match ppid {
            Some(ppid) => exists|k: int|
                0 <= k < text::lines(status@).len() && labels_parent(
                    #[trigger] text::lines(status@)[k],
                    ppid,
                ) && forall|i: int|
                    0 <= i < k ==> !labels_some_parent(#[trigger] text::lines(status@)[i]),
            None => forall|i: int|
                0 <= i < text::lines(status@).len() ==> !labels_some_parent(
                    #[trigger] text::lines(status@)[i],
                ),
        },
{
    lemma_status_ppid(text::lines(status@));
}

/// A file name loses what follows its last dot, and the dot, unless that is where it begins.
pub proof fn law_stem_ends_before_the_last_dot(name: &str, stem: String, at: int)
    requires
        call_ensures(linux_process::file_stem, (name,), stem),
    ensures
        !name@.contains('.') ==> stem@ == name@,
        0 < at < name@.len() && name@[at] == '.' && (forall|j: int|
            at < j < name@.len() ==> name@[j] != '.') ==> stem@ == name@.subrange(0, at),
        name@.len() > 0 && name@[0] == '.' && (forall|j: int|
            0 < j < name@.len() ==> name@[j] != '.') ==> stem@ == name@,
{
    if 0 <= at < name@.len() && name@[at] == '.' && (forall|j: int|
        at < j < name@.len() ==> name@[j] != '.') {
        assert(linux_process::is_last_dot(name@, at));
        let other = choose|other: int| linux_process::is_last_dot(name@, other);
        assert(linux_process::is_last_dot(name@, other));
        assert(other == at);
    }
    if name@.len() > 0 && name@[0] == '.' && (forall|j: int|
        0 < j < name@.len() ==> name@[j] != '.') {
        assert(linux_process::is_last_dot(name@, 0));
        let other = choose|other: int| linux_process::is_last_dot(name@, other);
        assert(linux_process::is_last_dot(name@, other));
        assert(other == 0);
    }
}

/// The process of an entry is the number that the entry is; a name is no process.
pub proof fn law_only_numbers_are_processes(entry: &str, pid: Option<u32>)
    requires
        call_ensures(linux_daemon::scanned_pid, (entry,), pid),
    ensures
        pid matches Some(pid) ==> text::unsigned(entry@) == Some(pid as nat),
        pid is None ==> match text::unsigned(entry@) {
            Some(number) => number > u32::MAX,
            None => true,
        },
{
}

/// A failure counts as the end of the process where its file or the process is gone.
pub proof fn law_gone_processes_are_no_failures(
    not_found: bool,
    code: Option<i32>,
    race: bool,
    pid: u32,
    failure: IoFailure,
    group: Result<Option<String>, ServiceError>,
)
    requires
        call_ensures(linux_process::process_race, (not_found, code), race),
        call_ensures(
            linux_process::read_process_cgroup,
            (pid, Err::<String, IoFailure>(failure)),
            group,
        ),
    ensures
        race <==> not_found || code == Some(3i32),
        failure.not_found || failure.os_code == Some(3i32) ==> group matches Ok(None),
        !(failure.not_found || failure.os_code == Some(3i32)) ==> group is Err,
{
}

/// The four bytes from `at` on, read as a number, the lowest first or the highest first.
pub open spec fn word_value(buffer: Seq<u8>, at: int, order: ByteOrder) -> int {
    match order {
        ByteOrder::Little => buffer[at] + 0x100 * buffer[at + 1] + 0x1_0000 * buffer[at + 2]
            + 0x100_0000 * buffer[at + 3],
        ByteOrder::Big => buffer[at + 3] + 0x100 * buffer[at + 2] + 0x1_0000 * buffer[at + 1]
            + 0x100_0000 * buffer[at],
    }
}

/// What a message of the process connector reports: from the connector's own channel, the kind at
/// its place, the process behind it, and for a new process the child eight bytes further on.
pub proof fn law_messages_report_events(buffer: &[u8], order: ByteOrder, event: Option<ProcEvent>)
    requires
        call_ensures(proc_event::parse_proc_event, (buffer, order), event),
    ensures
        buffer@.len() < 56 ==> event is None,
        buffer@.len() >= 56 && (word_value(buffer@, 16, order) != 1 || word_value(
            buffer@,
            20,
            order,
        ) != 1) ==> event is None,
        buffer@.len() >= 56 && word_value(buffer@, 16, order) == 1 && word_value(
            buffer@,
            20,
            order,
        ) == 1 ==> {
            let kind = word_value(buffer@, 36, order);
            &&& kind == 1 && buffer@.len() >= 64 ==> (event matches Some(
                ProcEvent::Fork { parent_pid, child_pid },
            ) && parent_pid == word_value(buffer@, 52, order) && child_pid == word_value(
                buffer@,
                60,
                order,
            ))
            &&& kind == 1 && buffer@.len() < 64 ==> event is None
            &&& kind == 2 ==> (event matches Some(ProcEvent::Exec { process_pid }) && process_pid
                == word_value(buffer@, 52, order))
            &&& kind == 0x8000_0000 ==> (event matches Some(ProcEvent::Exit { process_pid })
                && process_pid == word_value(buffer@, 52, order))
            &&& kind != 1 && kind != 2 && kind != 0x8000_0000 ==> event is None
        },
{
}

/// A profile that was active before changes nothing; another one is active from now on, and every
/// process is looked at again.
pub proof fn law_daemon_follows_the_profile(
    state: &mut DaemonState,
    event: DaemonEvent,
    action: DaemonAction,
)
    requires
        call_ensures(linux_daemon::run_daemon, (state, event), action),
    ensures
        match event {
            DaemonEvent::Started => action == DaemonAction::ScanAll(old(state).active_profile)
                && final(state).active_profile == old(state).active_profile,
            DaemonEvent::ProfileChanged(profile) => final(state).active_profile == profile && (
            action == DaemonAction::Wait <==> profile == old(state).active_profile) && (action
                == DaemonAction::ScanAll(profile) <==> profile != old(state).active_profile),
            DaemonEvent::Process(event) => final(state).active_profile == old(state).active_profile && match event {
                Some(ProcEvent::Fork { child_pid, .. }) => action == DaemonAction::Apply(
                    child_pid,
                    old(state).active_profile,
                ),
                Some(ProcEvent::Exec { process_pid }) => action == DaemonAction::Apply(
                    process_pid,
                    old(state).active_profile,
                ),
                _ => action == DaemonAction::Wait,
            },
        },
{
}

/// A new process takes the origin of its parent, unless one is known of it, and a process that has
/// ended is forgotten. No other process is concerned.
pub proof fn law_daemon_keeps_the_origins(
    state: &mut DaemonState,
    event: ProcEvent,
    action: DaemonAction,
    pid: u32,
)
    requires
        call_ensures(
            linux_daemon::run_daemon,
            (state, DaemonEvent::Process(Some(event))),
            action,
        ),
    ensures
        match event {
            ProcEvent::Fork { parent_pid, child_pid } => {
                &&& pid != child_pid || old(state).placements@.contains_key(child_pid)
                    || !old(state).placements@.contains_key(parent_pid) ==> final(state).placements@.contains_key(pid) == old(state).placements@.contains_key(pid) && (
                old(state).placements@.contains_key(pid) ==> final(state).placements@[pid] == old(state).placements@[pid])
                &&& !old(state).placements@.contains_key(child_pid) && old(state).placements@.contains_key(parent_pid) ==> final(state).placements@.contains_key(
                    child_pid,
                ) && final(state).placements@[child_pid] == old(state).placements@[parent_pid]
            },
            ProcEvent::Exec { .. } => final(state).placements@ == old(state).placements@,
            ProcEvent::Exit { process_pid } => final(state).placements@.contains_key(pid) == (pid
                != process_pid && old(state).placements@.contains_key(pid)) && (pid != process_pid
                && old(state).placements@.contains_key(pid) ==> final(state).placements@[pid]
                == old(state).placements@[pid]),
        },
{
}

/// A name of a directory: not empty, not the dot, and without a slash.
pub open spec fn is_plain_name(name: Seq<char>) -> bool {
    name.len() > 0 && name != "."@ && !name.contains('/')
}

proof fn lemma_idle_prefix(front: Seq<Seq<char>>, tail: Seq<Seq<char>>)
    requires
        paths::named(front).len() == 0,
        tail.len() > 0,
        !paths::is_idle(tail[0]),
    ensures
        paths::skip_idle(front + tail) == tail,
    decreases front.len(),
{
    if front.len() == 0 {
        assert(front + tail =~= tail);
    } else {
        assert(paths::is_idle(front[0]));
        assert((front + tail)[0] == front[0]);
        assert((front + tail).skip(1) =~= front.skip(1) + tail);
        lemma_idle_prefix(front.skip(1), tail);
    }
}

proof fn lemma_rest_below(front: Seq<Seq<char>>, base: Seq<Seq<char>>, tail: Seq<Seq<char>>)
    requires
        paths::named(front) == paths::named(base),
        tail.len() > 0,
        !paths::is_idle(tail[0]),
        !paths::is_idle(tail.last()),
    ensures
        paths::parts_below(front + tail, base) == Some(tail),
    decreases front.len() + base.len(),
{
    let whole = front + tail;
    if base.len() == 0 {
        lemma_idle_prefix(front, tail);
    } else if paths::is_idle(base[0]) {
        lemma_rest_below(front, base.skip(1), tail);
    } else {
        assert(paths::named(base)[0] == base[0]);
        assert(front.len() > 0);
        assert(whole[0] == front[0]);
        assert(whole.skip(1) =~= front.skip(1) + tail);
        if paths::is_idle(front[0]) {
            lemma_rest_below(front.skip(1), base, tail);
        } else {
            assert(paths::named(front)[0] == front[0]);
            assert(paths::named(front).skip(1) =~= paths::named(front.skip(1)));
            assert(paths::named(base).skip(1) =~= paths::named(base.skip(1)));
            lemma_rest_below(front.skip(1), base.skip(1), tail);
        }
    }
}

proof fn lemma_named_push(front: Seq<Seq<char>>, name: Seq<char>)
    requires
        !paths::is_idle(name),
    ensures
        paths::named(front.push(name)) == paths::named(front).push(name),
    decreases front.len(),
{
    let whole = front.push(name);
    if front.len() == 0 {
        reveal_with_fuel(paths::named, 2);
        assert(whole.skip(1) =~= Seq::<Seq<char>>::empty());
        assert(paths::named(whole) =~= paths::named(front).push(name));
    } else {
        assert(whole[0] == front[0]);
        assert(whole.skip(1) =~= front.skip(1).push(name));
        lemma_named_push(front.skip(1), name);
        assert(paths::named(whole) =~= paths::named(front).push(name));
    }
}

/// Below an absolute directory stands what its path goes on with.
pub proof fn law_path_goes_on_below_its_directory(
    base: &str,
    first: Seq<char>,
    second: Seq<char>,
    child: &str,
    grandchild: &str,
    below: Option<String>,
    further_below: Option<String>,
)
    requires
        base@.len() > 0,
        base@[0] == '/',
        is_plain_name(first),
        is_plain_name(second),
        child@ == base@.push('/') + first,
        grandchild@ == child@.push('/') + second,
        call_ensures(paths::strip_base, (child, base), below),
        call_ensures(paths::strip_base, (grandchild, base), further_below),
    ensures
        below is Some && below->0@ == first,
        further_below is Some && further_below->0@ == first.push('/') + second,
{
    let parts = text::split(base@, '/');
    reveal_strlit("/");
    text::lemma_split_append(base@, '/', first);
    text::lemma_split_append(child@, '/', second);
    assert(child@ =~= base@ + seq!['/'] + first);
    assert(grandchild@ =~= child@ + seq!['/'] + second);
    assert(text::split(child@, '/') =~= parts + seq![first]);
    assert(text::split(grandchild@, '/') =~= parts + seq![first, second]);
    assert(child@[0] == base@[0]);
    assert(grandchild@[0] == child@[0]);
    lemma_rest_below(parts, parts, seq![first]);
    lemma_rest_below(parts, parts, seq![first, second]);
    assert(text::joined(seq![first], '/') == first);
    assert(seq![first, second].drop_last() =~= seq![first]);
    assert(text::joined(seq![first, second], '/') =~= first.push('/') + second);
}

/// Nothing stands below a directory whose path is not taken: neither a path beside it, nor one that
/// does not begin at the root.
pub proof fn law_path_beside_is_not_below(
    front: Seq<char>,
    own: Seq<char>,
    other: Seq<char>,
    base: &str,
    beside: &str,
    relative: &str,
    below: Option<String>,
    nowhere: Option<String>,
)
    requires
        front.len() > 0,
        front[0] == '/',
        is_plain_name(own),
        is_plain_name(other),
        own != other,
        base@ == front.push('/') + own,
        beside@ == front.push('/') + other,
        relative@.len() > 0,
        relative@[0] != '/',
        call_ensures(paths::strip_base, (beside, base), below),
        call_ensures(paths::strip_base, (relative, base), nowhere),
    ensures
        below is None,
        nowhere is None,
{
    let parts = text::split(front, '/');
    text::lemma_split_append(front, '/', own);
    text::lemma_split_append(front, '/', other);
    assert(base@ =~= front + seq!['/'] + own);
    assert(beside@ =~= front + seq!['/'] + other);
    assert(base@[0] == front[0]);
    assert(beside@[0] == front[0]);
    let a = text::split(base@, '/');
    let b = text::split(beside@, '/');
    assert(a =~= parts.push(own));
    assert(b =~= parts.push(other));
    lemma_named_push(parts, own);
    lemma_named_push(parts, other);
    paths::law_names_below_follow_the_base(b, a);
    let at = paths::named(parts).len() as int;
    assert(paths::named(a)[at] == own);
    assert(paths::named(b)[at] == other);
}

/// The group of a directory is what stands below the root, behind a slash; a directory elsewhere has
/// none.
pub proof fn law_group_is_what_stands_below_the_root(
    manager: &CgroupCpusetManager,
    name: Seq<char>,
    leaf: &str,
    outside: &str,
    relative: Result<String, ServiceError>,
    refused: Result<String, ServiceError>,
)
    requires
        manager.root@.len() > 0,
        manager.root@[0] == '/',
        is_plain_name(name),
        leaf@ == manager.root@.push('/') + name,
        outside@.len() > 0,
        outside@[0] != '/',
        call_ensures(CgroupCpusetManager::relative_cgroup_path, (manager, leaf), relative),
        call_ensures(CgroupCpusetManager::relative_cgroup_path, (manager, outside), refused),
    ensures
        relative is Ok && relative->Ok_0@ == seq!['/'] + name,
        refused is Err,
{
    let root = manager.root@;
    let parts = text::split(root, '/');
    reveal_strlit("/");
    text::lemma_split_append(root, '/', name);
    assert(leaf@ =~= root + seq!['/'] + name);
    assert(text::split(leaf@, '/') =~= parts + seq![name]);
    assert(leaf@[0] == root[0]);
    lemma_rest_below(parts, parts, seq![name]);
    assert(text::joined(seq![name], '/') == name);
    assert("/"@ + name =~= seq!['/'] + name);
}

/// The controller is there where the list of controllers names it, in whatever place.
pub proof fn law_listed_controller_is_available(
    root: &str,
    controllers: &str,
    front: Seq<char>,
    back: Seq<char>,
    named: bool,
    available: Result<(), ServiceError>,
)
    requires
        call_ensures(cgroup::ensure_cpuset_available, (root, controllers), available),
        call_ensures(text::names_word, (controllers, "cpuset"), named),
        front.len() == 0 || front.last() == ' ',
        back.len() == 0 || back[0] == ' ' || back[0] == '\n',
    ensures
        available is Ok <==> named,
        controllers@ == front + "cpuset"@ + back ==> available is Ok,
        available matches Err(ServiceError::Config { path, message }) ==> path@ == root@,
        available is Err ==> (available->Err_0 is Config),
{
    if controllers@ == front + "cpuset"@ + back {
        let at = front.len() as int;
        assert(controllers@.subrange(at, at + "cpuset"@.len()) =~= "cpuset"@);
        assert(text::has_word_at(controllers@, "cpuset"@, at));
    }
}

/// A directory for a processor set stands below the directory of the manager.
pub proof fn law_directory_stands_below_the_manager(
    manager: &CgroupCpusetManager,
    set: &str,
    path: String,
)
    requires
        call_ensures(CgroupCpusetManager::leaf_path, (manager, set), path),
        manager.affix_root@.len() > 0,
        manager.affix_root@.last() != '/',
    ensures
        path@.len() == manager.affix_root@.len() + 7 + set@.len(),
        path@.take(manager.affix_root@.len() as int + 7) == manager.affix_root@ + "/affix-"@,
        forall|i: int|
            0 <= i < set@.len() && (set@[i] == '-' || '0' <= set@[i] <= '9')
                ==> #[trigger] path@[manager.affix_root@.len() + 7 + i] == set@[i],
{
    reveal_strlit("affix-");
    reveal_strlit("/affix-");
    reveal_strlit("/");
    assert("affix-"@.len() == 6);
    assert("/affix-"@ =~= "/"@ + "affix-"@);
    let name = cpuset::leaf_name(set@);
    assert(name[0] == 'a');
    assert(path@ == manager.affix_root@ + "/"@ + name);
    assert(path@.take(manager.affix_root@.len() as int + 7) =~= manager.affix_root@ + "/affix-"@);
}

/// A number is read as it is written, whatever space stands around it; what is no number is refused.
pub proof fn law_written_index_is_read(
    value: usize,
    written: String,
    line: &str,
    expression: &str,
    trimmed: String,
    index: Result<usize, ServiceError>,
)
    requires
        call_ensures(text::decimal_text, (value as u64,), written),
        call_ensures(text::trimmed, (line,), trimmed),
        call_ensures(cpuset::parse_cpu_index, (line, expression), index),
    ensures
        trimmed@ == written@ ==> index == Ok::<usize, ServiceError>(value),
        trimmed@.len() == 0 ==> index is Err,
        (exists|i: int| 0 < i < trimmed@.len() && !('0' <= #[trigger] trimmed@[i] <= '9'))
            ==> index is Err,
        index matches Err(error) ==> (error matches ServiceError::Affinity {
            expression: kept,
            message,
        } && kept@ == expression@),
{
    text::lemma_decimal_round_trip(value as nat);
    if exists|i: int| 0 < i < trimmed@.len() && !('0' <= #[trigger] trimmed@[i] <= '9') {
        let i = choose|i: int| 0 < i < trimmed@.len() && !('0' <= #[trigger] trimmed@[i] <= '9');
        let body = trimmed@.subrange(1, trimmed@.len() as int);
        assert(body[i - 1] == trimmed@[i]);
        assert(!text::is_digit(trimmed@[i]));
        assert(text::unsigned(trimmed@) is None);
    }
}

proof fn lemma_word_of_bytes(message: Seq<u8>, at: int, value: u32, order: ByteOrder)
    requires
        0 <= at <= message.len() - 4,
        message.subrange(at, at + 4) == bytes::u32_bytes(value, order),
    ensures
        word_value(message, at, order) == value,
{
    let none = Seq::<u8>::empty();
    let word = message.subrange(at, at + 4);
    bytes::lemma_u32_round_trip(none, value, none, order);
    assert(none + word + none =~= word);
    assert(word[0] == message[at] && word[1] == message[at + 1] && word[2] == message[at + 2]
        && word[3] == message[at + 3]);
}

proof fn lemma_header(a: Seq<u8>, b: Seq<u8>, c: Seq<u8>, d: Seq<u8>, e: Seq<u8>, rest: Seq<u8>)
    requires
        a.len() == 4 && b.len() == 2 && c.len() == 2 && d.len() == 4 && e.len() == 4,
    ensures
        ({
            let whole = a + b + c + d + e + rest;
            &&& whole.subrange(0, 4) == a && whole.subrange(4, 6) == b && whole.subrange(6, 8) == c
            &&& whole.subrange(8, 12) == d && whole.subrange(12, 16) == e
            &&& whole.skip(16) == rest
        }),
{
    let whole = a + b + c + d + e + rest;
    assert(whole.subrange(0, 4) =~= a);
    assert(whole.subrange(4, 6) =~= b);
    assert(whole.subrange(6, 8) =~= c);
    assert(whole.subrange(8, 12) =~= d);
    assert(whole.subrange(12, 16) =~= e);
    assert(whole.skip(16) =~= rest);
}

proof fn lemma_body(
    f: Seq<u8>,
    g: Seq<u8>,
    h: Seq<u8>,
    i: Seq<u8>,
    j: Seq<u8>,
    k: Seq<u8>,
    l: Seq<u8>,
)
    requires
        f.len() == 4 && g.len() == 4 && h.len() == 4 && i.len() == 4 && l.len() == 4,
        j.len() == 2 && k.len() == 2,
    ensures
        ({
            let whole = f + g + h + i + j + k + l;
            &&& whole.len() == 24 && whole.subrange(0, 4) == f && whole.subrange(4, 8) == g
            &&& whole.subrange(8, 12) == h && whole.subrange(12, 16) == i
            &&& whole.subrange(16, 18) == j && whole.subrange(18, 20) == k
            &&& whole.subrange(20, 24) == l
        }),
{
    let whole = f + g + h + i + j + k + l;
    assert(whole.subrange(0, 4) =~= f);
    assert(whole.subrange(4, 8) =~= g);
    assert(whole.subrange(8, 12) =~= h);
    assert(whole.subrange(12, 16) =~= i);
    assert(whole.subrange(16, 18) =~= j);
    assert(whole.subrange(18, 20) =~= k);
    assert(whole.subrange(20, 24) =~= l);
}

/// A subscription is one message of forty bytes to the process connector: its length comes first, its
/// kind is the end of a message, it is sent to the connector's own channel, and what is asked for
/// comes last.
pub proof fn law_subscription_asks_the_connector(op: u32, order: ByteOrder, message: Vec<u8>)
    requires
        call_ensures(proc_event::subscription_message, (op, order), message),
    ensures
        message@.len() == 40,
        word_value(message@, 0, order) == 40,
        order is Little ==> message@[4] == 3 && message@[5] == 0 && message@[6] == 0 && message@[7]
            == 0 && message@[32] == 4 && message@[33] == 0 && message@[34] == 0 && message@[35] == 0,
        order is Big ==> message@[4] == 0 && message@[5] == 3 && message@[6] == 0 && message@[7] == 0
            && message@[32] == 0 && message@[33] == 4 && message@[34] == 0 && message@[35] == 0,
        word_value(message@, 12, order) == 0,
        word_value(message@, 16, order) == 1,
        word_value(message@, 20, order) == 1,
        word_value(message@, 24, order) == 0,
        word_value(message@, 28, order) == 0,
        word_value(message@, 36, order) == op,
{
    let (a, b) = (bytes::u32_bytes(40, order), bytes::u16_bytes(proc_event::NLMSG_DONE, order));
    let (c, d) = (bytes::u16_bytes(0, order), bytes::u32_bytes(1, order));
    let e = bytes::u32_bytes(0, order);
    let f = bytes::u32_bytes(proc_event::CN_IDX_PROC, order);
    let g = bytes::u32_bytes(proc_event::CN_VAL_PROC, order);
    let (j, l) = (bytes::u16_bytes(4, order), bytes::u32_bytes(op, order));
    let rest = f + g + e + e + j + c + l;
    let whole = message@;
    lemma_header(a, b, c, d, e, rest);
    lemma_body(f, g, e, e, j, c, l);
    assert(whole =~= a + b + c + d + e + rest);
    assert(whole.subrange(16, 20) =~= rest.subrange(0, 4));
    assert(whole.subrange(20, 24) =~= rest.subrange(4, 8));
    assert(whole.subrange(24, 28) =~= rest.subrange(8, 12));
    assert(whole.subrange(28, 32) =~= rest.subrange(12, 16));
    assert(whole.subrange(32, 34) =~= rest.subrange(16, 18));
    assert(whole.subrange(34, 36) =~= rest.subrange(18, 20));
    assert(whole.subrange(36, 40) =~= rest.subrange(20, 24));
    lemma_word_of_bytes(whole, 0, 40, order);
    lemma_word_of_bytes(whole, 12, 0, order);
    lemma_word_of_bytes(whole, 16, 1, order);
    lemma_word_of_bytes(whole, 20, 1, order);
    lemma_word_of_bytes(whole, 24, 0, order);
    lemma_word_of_bytes(whole, 28, 0, order);
    lemma_word_of_bytes(whole, 36, op, order);
    assert(b[0] == whole[4] && b[1] == whole[5]);
    assert(c[0] == whole[6] && c[1] == whole[7]);
    assert(j[0] == whole[32] && j[1] == whole[33]);
    assert(whole.subrange(34, 36)[0] == whole[34] && whole.subrange(34, 36)[1] == whole[35]);
}

} // verus!
