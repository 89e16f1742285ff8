//! Linux processes as `/proc` describes them.

use vstd::prelude::*;

use crate::process::ConfiguredProcessRule;
use crate::service::ServiceError;
use crate::text;

verus! {

/// A process: its name, the path of its executable and its control group where they are known.
#[derive(Debug, Eq, PartialEq)]
pub struct LinuxProcess {
    pub pid: u32,
    pub ppid: u32,
    pub comm: String,
    pub exe: Option<String>,
    pub cgroup: Option<String>,
}

/// An optional text is another one, character by character.
pub open spec fn same_option(a: Option<String>, b: Option<String>) -> bool {
    match (a, b) {
        (Some(a), Some(b)) => a@ == b@,
        (None, None) => true,
        _ => false,
    }
}

/// Two processes have the same fields.
pub open spec fn same_process(a: LinuxProcess, b: LinuxProcess) -> bool {
    &&& a.pid == b.pid
    &&& a.ppid == b.ppid
    &&& a.comm@ == b.comm@
    &&& same_option(a.exe, b.exe)
    &&& same_option(a.cgroup, b.cgroup)
}

pub(crate) fn copy_option(value: &Option<String>) -> (copied: Option<String>)
    ensures
        same_option(copied, *value),
{
    match value {
        Some(value) => Some(value.clone()),
        None => None,
    }
}

impl Clone for LinuxProcess {
    fn clone(&self) -> (copied: Self)
        ensures
            same_process(copied, *self),
    {
        LinuxProcess {
            pid: self.pid,
            ppid: self.ppid,
            comm: self.comm.clone(),
            exe: copy_option(&self.exe),
            cgroup: copy_option(&self.cgroup),
        }
    }
}

/// A piece of a path that names something: neither empty nor the directory itself.
pub open spec fn is_component(piece: Seq<char>) -> bool {
    piece.len() > 0 && piece != "."@
}

/// The last component of a path, where it is a name.
pub open spec fn file_name(path: Seq<char>) -> Option<Seq<char>> {
    let components = text::split(path, '/').filter(|piece: Seq<char>| is_component(piece));
    if components.len() > 0 && components.last() != ".."@ {
        Some(components.last())
    } else {
        None
    }
}

/// `at` is the last position of a dot in `name`.
pub open spec fn is_last_dot(name: Seq<char>, at: int) -> bool {
    0 <= at < name.len() && name[at] == '.' && forall|j: int| at < j < name.len() ==> name[j] != '.'
}

/// A file name without its extension.
pub open spec fn stem_of(name: Seq<char>) -> Seq<char> {
    if name.contains('.') {
        let at = choose|at: int| is_last_dot(name, at);
        if at == 0 {
            name
        } else {
            name.subrange(0, at)
        }
    } else {
        name
    }
}

/// The last component of a path, where it is a name.
pub fn path_file_name(path: &str) -> (name: Option<String>)
    ensures
        match name {
            Some(name) => file_name(path@) == Some(name@),
            None => file_name(path@) is None,
        },
{
    let keep: Ghost<spec_fn(Seq<char>) -> bool> = Ghost(|piece: Seq<char>| is_component(piece));
    let pieces = text::pieces(path, '/');
    let ghost all = text::split(path@, '/');
    let mut last: Option<String> = None;
    let mut i: usize = 0;
    assert(all.subrange(0, 0).filter(keep@).len() == 0) by {
        reveal(Seq::filter);
    }
    while i < pieces.len()
        invariant
            i <= pieces@.len(),
            text::views(pieces@) == all,
            keep@ == (|piece: Seq<char>| is_component(piece)),
            match last {
                Some(last) => all.subrange(0, i as int).filter(keep@).len() > 0
                    && all.subrange(0, i as int).filter(keep@).last() == last@,
                None => all.subrange(0, i as int).filter(keep@).len() == 0,
            },
        decreases pieces@.len() - i,
    {
        let ghost before = all.subrange(0, i as int);
        assert(all[i as int] == pieces@[i as int]@);
        assert(all.subrange(0, i + 1) =~= before.push(all[i as int]));
        proof {
            reveal(Seq::filter);
            assert(before.push(all[i as int]).drop_last() =~= before);
        }
        if !pieces[i].as_str().is_empty() && !text::same_text(pieces[i].as_str(), ".") {
            assert(is_component(all[i as int]));
            last = Some(pieces[i].clone());
        } else {
            assert(!is_component(all[i as int]));
        }
        i = i + 1;
    }
    assert(all.subrange(0, all.len() as int) =~= all);
    match last {
        Some(name) => if text::same_text(name.as_str(), "..") {
            None
        } else {
            Some(name)
        },
        None => None,
    }
}

proof fn lemma_last_dot(name: Seq<char>, at: int)
    requires
        is_last_dot(name, at),
    ensures
        name.contains('.'),
        (choose|other: int| is_last_dot(name, other)) == at,
{
    let other = choose|other: int| is_last_dot(name, other);
    assert(is_last_dot(name, other));
    if other < at {
        assert(name[at] != '.');
    }
    if at < other {
        assert(name[other] != '.');
    }
}

/// A file name without its extension.
pub fn file_stem(name: &str) -> (stem: String)
    ensures
        stem@ == stem_of(name@),
{
    let chars = text::characters(name);
    let mut end: usize = chars.len();
    while end > 0
        invariant
            end <= chars@.len(),
            chars@ == name@,
            forall|j: int| end <= j < name@.len() ==> name@[j] != '.',
        decreases end,
    {
        if chars[end - 1] == '.' {
            proof {
                lemma_last_dot(name@, end - 1);
            }
            if end == 1 {
                return name.to_owned();
            }
            return text::text_between(&chars, 0, end - 1);
        }
        end = end - 1;
    }
    name.to_owned()
}

/// The rule is meant for the process: a rule with a slash names the path of the executable, any
/// other the process or the file name of its executable.
pub open spec fn rule_matches(image_name: Seq<char>, process: LinuxProcess) -> bool {
    if image_name.contains('/') {
        process.exe matches Some(path) && path@ == image_name
    } else {
        process.comm@ == image_name || (process.exe matches Some(path) && file_name(path@) == Some(
            image_name,
        ))
    }
}

fn holds_slash(name: &str) -> (found: bool)
    ensures
        found == name@.contains('/'),
{
    let chars = text::characters(name);
    let mut i: usize = 0;
    while i < chars.len()
        invariant
            i <= chars@.len(),
            chars@ == name@,
            forall|j: int| 0 <= j < i ==> name@[j] != '/',
        decreases chars@.len() - i,
    {
        if chars[i] == '/' {
            assert(name@[i as int] == '/');
            return true;
        }
        i = i + 1;
    }
    false
}

pub fn linux_rule_matches(rule: &ConfiguredProcessRule, process: &LinuxProcess) -> (matched: bool)
    ensures
        matched == rule_matches(rule.image_name@, *process),
{
    let wanted = rule.image_name.as_str();
    if holds_slash(wanted) {
        return match &process.exe {
            Some(path) => text::same_text(path.as_str(), wanted),
            None => false,
        };
    }
    if text::same_text(process.comm.as_str(), wanted) {
        return true;
    }
    match &process.exe {
        Some(path) => match path_file_name(path.as_str()) {
            Some(name) => text::same_text(name.as_str(), wanted),
            None => false,
        },
        None => false,
    }
}

/// The names under which a process may be known: its own, the file name of its executable, and
/// that without its extension.
pub open spec fn candidates(process: LinuxProcess) -> Seq<Seq<char>> {
    match process.exe {
        Some(path) => match file_name(path@) {
            Some(name) => seq![process.comm@, name, stem_of(name)],
            None => seq![process.comm@],
        },
        None => seq![process.comm@],
    }
}

pub fn process_identifier_candidates(process: &LinuxProcess) -> (names: Vec<String>)
    ensures
        text::views(names@) == candidates(*process),
{
    let mut names: Vec<String> = Vec::new();
    names.push(process.comm.clone());
    if let Some(path) = &process.exe {
        if let Some(name) = path_file_name(path.as_str()) {
            let stem = file_stem(name.as_str());
            names.push(name);
            names.push(stem);
        }
    }
    assert(text::views(names@) =~= candidates(*process));
    names
}

/// The name of a process as the file `comm` gives it.
pub fn process_name(content: &str) -> (name: String)
    ensures
        name@ == text::skip_trailing_feeds(content@),
{
    text::without_feeds(content)
}

/// The parent that one line of a status file names.
pub open spec fn line_ppid(line: Seq<char>) -> Option<u32> {
    match text::after_prefix(line, "PPid:"@) {
        Some(value) => text::unsigned_32(text::trim(value)),
        None => None,
    }
}

/// The parent that the first line that names one names.
pub open spec fn status_ppid(lines: Seq<Seq<char>>) -> Option<u32>
    decreases lines.len(),
{
    if lines.len() == 0 {
        None
    } else if line_ppid(lines[0]) is Some {
        line_ppid(lines[0])
    } else {
        status_ppid(lines.subrange(1, lines.len() as int))
    }
}

/// The parent of a process, from its status file.
pub fn read_ppid(status: &str) -> (ppid: Option<u32>)
    ensures
        ppid == status_ppid(text::lines(status@)),
{
    let lines = text::lines_of(status);
    let ghost all = text::lines(status@);
    let mut i: usize = 0;
    assert(all.subrange(0, all.len() as int) =~= all);
    while i < lines.len()
        invariant
            i <= lines@.len(),
            text::views(lines@) == all,
            all == text::lines(status@),
            status_ppid(all) == status_ppid(all.subrange(i as int, all.len() as int)),
        decreases lines@.len() - i,
    {
        let ghost rest = all.subrange(i as int, all.len() as int);
        assert(rest[0] == all[i as int]);
        assert(all[i as int] == lines@[i as int]@);
        assert(rest.subrange(1, rest.len() as int) =~= all.subrange(i + 1, all.len() as int));
        if let Some(value) = text::strip_start(lines[i].as_str(), "PPid:") {
            let number = text::number_32(text::trimmed(value.as_str()).as_str());
            if number.is_some() {
                return number;
            }
        }
        i = i + 1;
    }
    None
}

/// The control group that the first line for the unified hierarchy names.
pub open spec fn unified_cgroup(lines: Seq<Seq<char>>) -> Option<Seq<char>>
    decreases lines.len(),
{
    if lines.len() == 0 {
        None
    } else if text::after_prefix(lines[0], "0::"@) is Some {
        text::after_prefix(lines[0], "0::"@)
    } else {
        unified_cgroup(lines.subrange(1, lines.len() as int))
    }
}

/// The control group of a process, from its cgroup file.
pub fn process_cgroup(content: &str) -> (cgroup: Option<String>)
    ensures
        match cgroup {
            Some(cgroup) => unified_cgroup(text::lines(content@)) == Some(cgroup@),
            None => unified_cgroup(text::lines(content@)) is None,
        },
{
    let lines = text::lines_of(content);
    let ghost all = text::lines(content@);
    let mut i: usize = 0;
    assert(all.subrange(0, all.len() as int) =~= all);
    while i < lines.len()
        invariant
            i <= lines@.len(),
            text::views(lines@) == all,
            all == text::lines(content@),
            unified_cgroup(all) == unified_cgroup(all.subrange(i as int, all.len() as int)),
        decreases lines@.len() - i,
    {
        let ghost rest = all.subrange(i as int, all.len() as int);
        assert(rest[0] == all[i as int]);
        assert(all[i as int] == lines@[i as int]@);
        assert(rest.subrange(1, rest.len() as int) =~= all.subrange(i + 1, all.len() as int));
        if let Some(cgroup) = text::strip_start(lines[i].as_str(), "0::") {
            return Some(cgroup);
        }
        i = i + 1;
    }
    None
}

/// The number under which the operating system reports that there is no such process.
pub const NO_SUCH_PROCESS: i32 = 3;

/// Tells whether a failure means that the process has just ended: a file that is gone, or a
/// process that is.
pub fn process_race(not_found: bool, os_code: Option<i32>) -> (race: bool)
    ensures
        race == (not_found || os_code == Some(NO_SUCH_PROCESS)),
{
    not_found || match os_code {
        Some(code) => code == NO_SUCH_PROCESS,
        None => false,
    }
}

/// A failed operation on a file or a process.
#[derive(Debug, Eq, PartialEq)]
pub struct IoFailure {
    pub not_found: bool,
    pub os_code: Option<i32>,
    pub source: String,
}

impl IoFailure {
    /// The failure means that the process has just ended.
    pub open spec fn means_gone(self) -> bool {
        self.not_found || self.os_code == Some(NO_SUCH_PROCESS)
    }

    pub fn is_race(&self) -> (race: bool)
        ensures
            race == self.means_gone(),
    {
        process_race(self.not_found, self.os_code)
    }
}

/// The path of a file that describes a process.
pub open spec fn proc_file(pid: u32, name: Seq<char>) -> Seq<char> {
    "/proc/"@ + text::decimal(pid as nat) + "/"@ + name
}

pub fn proc_file_path(pid: u32, name: &str) -> (path: String)
    ensures
        path@ == proc_file(pid, name@),
{
    let mut path = "/proc/".to_string();
    text::append(&mut path, text::decimal_text(pid as u64).as_str());
    text::append(&mut path, "/");
    text::append(&mut path, name);
    path
}

/// What a reading of the cgroup file of the process `pid` says of its control group.
pub open spec fn reads_cgroup(
    pid: u32,
    reading: Result<String, IoFailure>,
    cgroup: Result<Option<String>, ServiceError>,
) -> bool {
    match reading {
        Ok(content) => match cgroup {
            Ok(Some(cgroup)) => unified_cgroup(text::lines(content@)) == Some(cgroup@),
            Ok(None) => unified_cgroup(text::lines(content@)) is None,
            Err(_) => false,
        },
        Err(failure) => if failure.means_gone() {
            cgroup matches Ok(None)
        } else {
            cgroup matches Err(ServiceError::Io { operation, path: Some(path), source })
                && operation@ == "read process cgroup"@ && path@ == proc_file(pid, "cgroup"@)
                && source@ == failure.source@
        },
    }
}

/// The control group of the process `pid`. A process that has just ended has none.
pub fn read_process_cgroup(pid: u32, reading: Result<String, IoFailure>) -> (cgroup: Result<
    Option<String>,
    ServiceError,
>)
    ensures
        reads_cgroup(pid, reading, cgroup),
{
    match reading {
        Ok(content) => Ok(process_cgroup(content.as_str())),
        Err(failure) => if failure.is_race() {
            Ok(None)
        } else {
            Err(
                ServiceError::Io {
                    operation: "read process cgroup".to_string(),
                    path: Some(proc_file_path(pid, "cgroup")),
                    source: failure.source,
                },
            )
        },
    }
}

/// A process of the control group `cgroup` is in `target`.
pub open spec fn is_in_cgroup(cgroup: Option<String>, target: Seq<char>) -> bool {
    cgroup matches Some(cgroup) && cgroup@ == target
}

/// Tells whether a process is in the control group `target`.
pub fn process_in_cgroup(cgroup: &Option<String>, target: &str) -> (inside: bool)
    ensures
        inside == is_in_cgroup(*cgroup, target@),
{
    match cgroup {
        Some(cgroup) => text::same_text(cgroup.as_str(), target),
        None => false,
    }
}

} // verus!
