//! The control groups that the daemon owns.

use vstd::prelude::*;

use crate::cpuset;
use crate::linux_process;
use crate::linux_process::IoFailure;
use crate::mask;
use crate::paths;
use crate::service::ServiceError;
use crate::text;

verus! {

/// `name` below the directory `base`. A name that begins at the root stands for itself.
pub open spec fn below(base: Seq<char>, name: Seq<char>) -> Seq<char> {
    if name.len() > 0 && name[0] == '/' {
        name
    } else if base.len() == 0 || base.last() == '/' {
        base + name
    } else {
        base + "/"@ + name
    }
}

/// `name` below the directory `base`.
pub fn join_path(base: &str, name: &str) -> (path: String)
    ensures
        path@ == below(base@, name@),
{
    let name_chars = text::characters(name);
    if name_chars.len() > 0 && name_chars[0] == '/' {
        return name.to_owned();
    }
    let chars = text::characters(base);
    let mut path = base.to_owned();
    if chars.len() > 0 && chars[chars.len() - 1] != '/' {
        text::append(&mut path, "/");
    }
    text::append(&mut path, name);
    path
}

/// `path` without the slashes that it begins with.
pub open spec fn skip_slashes(path: Seq<char>) -> Seq<char>
    decreases path.len(),
{
    if path.len() > 0 && path[0] == '/' {
        skip_slashes(path.subrange(1, path.len() as int))
    } else {
        path
    }
}

fn without_slashes(path: &str) -> (rest: String)
    ensures
        rest@ == skip_slashes(path@),
{
    let chars = text::characters(path);
    let mut from: usize = 0;
    assert(path@.subrange(0, path@.len() as int) =~= path@);
    while from < chars.len() && chars[from] == '/'
        invariant
            from <= chars@.len(),
            chars@ == path@,
            skip_slashes(path@) == skip_slashes(path@.subrange(from as int, path@.len() as int)),
        decreases chars@.len() - from,
    {
        let ghost rest = path@.subrange(from as int, path@.len() as int);
        assert(rest.subrange(1, rest.len() as int) =~= path@.subrange(
            from + 1,
            path@.len() as int,
        ));
        from = from + 1;
    }
    text::text_between(&chars, from, chars.len())
}

/// The control group belongs to the daemon.
pub open spec fn is_affix_managed(relative: Option<Seq<char>>) -> bool {
    match relative {
        Some(relative) => relative == "/affix"@ || text::begins_with(relative, "/affix/"@),
        None => false,
    }
}

/// The root of the control group file system, and the directory of the daemon in it.
#[derive(Debug, Eq, PartialEq)]
pub struct CgroupCpusetManager {
    pub root: String,
    pub affix_root: String,
}

impl CgroupCpusetManager {
    /// The manager of the hierarchy at `root`, whose controllers are listed in `controllers`.
    pub fn open(root: &str, controllers: &str) -> (manager: Result<Self, ServiceError>)
        ensures
            match manager {
                Ok(manager) => text::has_word(controllers@, "cpuset"@) && manager.root@ == root@
                    && manager.affix_root@ == below(root@, "affix"@),
                Err(error) => !text::has_word(controllers@, "cpuset"@)
                    && is_unavailable(error, root@),
            },
    {
        match ensure_cpuset_available(root, controllers) {
            Ok(_) => Ok(
                CgroupCpusetManager { root: root.to_owned(), affix_root: join_path(root, "affix") },
            ),
            Err(error) => Err(error),
        }
    }

    /// The directory for the processes that share a processor set.
    pub fn leaf_path(&self, cpuset: &str) -> (path: String)
        ensures
            path@ == below(self.affix_root@, cpuset::leaf_name(cpuset@)),
    {
        join_path(self.affix_root.as_str(), cpuset::cgroup_leaf_name(cpuset).as_str())
    }

    /// The control group at the path `leaf`, relative to the root.
    pub open spec fn relative_of(&self, leaf: Seq<char>) -> Option<Seq<char>> {
        match paths::path_below(leaf, self.root@) {
            Some(rest) => Some("/"@ + rest),
            None => None,
        }
    }

    /// The control group at the path `leaf`, relative to the root.
    pub fn relative_cgroup_path(&self, leaf: &str) -> (relative: Result<String, ServiceError>)
        ensures
            match relative {
                Ok(relative) => self.relative_of(leaf@) == Some(relative@),
                Err(error) => self.relative_of(leaf@) is None && (error matches ServiceError::Config {
                    path,
                    message,
                } && path@ == leaf@ && message@ == "cgroup leaf is not under cgroup root "@
                    + self.root@),
            },
    {
        match paths::strip_base(leaf, self.root.as_str()) {
            Some(rest) => {
                let mut relative = "/".to_string();
                text::append(&mut relative, rest.as_str());
                Ok(relative)
            },
            None => {
                let mut message = "cgroup leaf is not under cgroup root ".to_string();
                text::append(&mut message, self.root.as_str());
                Err(ServiceError::Config { path: leaf.to_owned(), message })
            },
        }
    }

    /// The path of a control group.
    pub fn cgroup_path(&self, relative: &str) -> (path: String)
        ensures
            path@ == below(self.root@, skip_slashes(relative@)),
    {
        join_path(self.root.as_str(), without_slashes(relative).as_str())
    }

    pub fn relative_is_affix_managed(&self, relative: Option<&str>) -> (managed: bool)
        ensures
            managed == is_affix_managed(
                match relative {
                    Some(relative) => Some(relative@),
                    None => None,
                },
            ),
    {
        match relative {
            Some(relative) => text::same_text(relative, self.affix_relative()) || text::has_prefix(
                relative,
                "/affix/",
            ),
            None => false,
        }
    }

    pub fn affix_relative(&self) -> (relative: &'static str)
        ensures
            relative@ == "/affix"@,
    {
        "/affix"
    }
}

/// The failure that says that the hierarchy at `root` has no cpuset controller.
pub open spec fn is_unavailable(error: ServiceError, root: Seq<char>) -> bool {
    error matches ServiceError::Config { path, message } && path@ == root && message@
        == "cgroup v2 cpuset controller is unavailable"@
}

/// Demands that the cpuset controller be among the controllers of the hierarchy at `root`.
pub fn ensure_cpuset_available(root: &str, controllers: &str) -> (available: Result<
    (),
    ServiceError,
>)
    ensures
        match available {
            Ok(_) => text::has_word(controllers@, "cpuset"@),
            Err(error) => !text::has_word(controllers@, "cpuset"@) && is_unavailable(error, root@),
        },
{
    if text::names_word(controllers, "cpuset") {
        Ok(())
    } else {
        Err(
            ServiceError::Config {
                path: root.to_owned(),
                message: "cgroup v2 cpuset controller is unavailable".to_string(),
            },
        )
    }
}

/// What is to be written into `cgroup.subtree_control`, whose content is `current`, so that the
/// controller is on. Nothing if it is on already.
pub fn enable_controller(current: &str, controller: &str) -> (written: Option<String>)
    ensures
        match written {
            Some(written) => !text::has_word(current@, controller@) && written@ == "+"@
                + controller@,
            None => text::has_word(current@, controller@),
        },
{
    if text::names_word(current, controller) {
        return None;
    }
    let mut written = "+".to_string();
    text::append(&mut written, controller);
    Some(written)
}

/// The name of the file that holds what is in effect of `file_name`.
pub fn effective_name(file_name: &str) -> (name: String)
    ensures
        name@ == file_name@ + ".effective"@,
{
    let mut name = file_name.to_owned();
    text::append(&mut name, ".effective");
    name
}

/// What the child gets as its `file_name`, from the content of the effective file of `parent`.
pub fn copy_effective_cpuset(parent: &str, file_name: &str, content: &str) -> (value: Result<
    String,
    ServiceError,
>)
    ensures
        match value {
            Ok(value) => value@ == text::trim(content@) && value@.len() > 0,
            Err(error) => text::trim(content@).len() == 0 && (error matches ServiceError::Config {
                path,
                message,
            } && path@ == below(parent@, file_name@ + ".effective"@) && message@
                == "effective cpuset is empty"@),
        },
{
    let value = text::trimmed(content);
    if value.as_str().is_empty() {
        return Err(
            ServiceError::Config {
                path: join_path(parent, effective_name(file_name).as_str()),
                message: "effective cpuset is empty".to_string(),
            },
        );
    }
    Ok(value)
}

/// What came of writing a process to the `cgroup.procs` file of `cgroup`. One that has just ended
/// was not moved.
pub open spec fn move_comes_to(
    cgroup: Seq<char>,
    written: Result<(), IoFailure>,
    moved: Result<bool, ServiceError>,
) -> bool {
    match written {
        Ok(_) => moved == Ok::<bool, ServiceError>(true),
        Err(failure) => if failure.means_gone() {
            moved == Ok::<bool, ServiceError>(false)
        } else {
            moved matches Err(ServiceError::Io { operation, path: Some(path), source })
                && operation@ == "write cgroup.procs"@ && path@ == below(cgroup, "cgroup.procs"@)
                && source@ == failure.source@
        },
    }
}

/// Moves a process that is in the control group `current` to the control group `target` at the
/// path `cgroup`, and tells whether it was moved. `write` writes the process to the path that it
/// is given, and is not called where the process is in `target` already.
pub fn migrate_process<W: FnOnce(&str) -> Result<(), IoFailure>>(
    cgroup: &str,
    target: &str,
    current: &Option<String>,
    write: W,
) -> (moved: Result<bool, ServiceError>)
    requires
        !linux_process::is_in_cgroup(*current, target@) ==> forall|path: &str|
            path@ == below(cgroup@, "cgroup.procs"@) ==> #[trigger] call_requires(write, (path,)),
    ensures
        if linux_process::is_in_cgroup(*current, target@) {
            moved == Ok::<bool, ServiceError>(false)
        } else {
            exists|path: &str, written: Result<(), IoFailure>|
                path@ == below(cgroup@, "cgroup.procs"@) && #[trigger] call_ensures(
                    write,
                    (path,),
                    written,
                ) && move_comes_to(cgroup@, written, moved)
        },
{
    if linux_process::process_in_cgroup(current, target) {
        return Ok(false);
    }
    let path = join_path(cgroup, "cgroup.procs");
    let written = write(path.as_str());
    match written {
        Ok(_) => Ok(true),
        Err(failure) => if failure.is_race() {
            Ok(false)
        } else {
            Err(
                ServiceError::Io {
                    operation: "write cgroup.procs".to_string(),
                    path: Some(path),
                    source: failure.source,
                },
            )
        },
    }
}

/// The processors that `allowed` marks, as far as a mask can hold them.
pub open spec fn marks(allowed: Seq<bool>, cpu: int) -> bool {
    0 <= cpu < usize::BITS && cpu < allowed.len() && allowed[cpu]
}

/// The scheduler's mask of a process, from a mark for each processor. A process that has just
/// ended has none, nor has one without a processor that a mask can hold.
pub fn process_sched_affinity_mask(reading: Result<Vec<bool>, IoFailure>) -> (mask: Result<
    Option<usize>,
    ServiceError,
>)
    ensures
        match reading {
            Ok(allowed) => match mask {
                Ok(Some(mask)) => mask != 0 && forall|cpu: int| #[trigger]
                    mask::has_cpu(mask, cpu) <==> marks(allowed@, cpu),
                Ok(None) => forall|cpu: int| !#[trigger] marks(allowed@, cpu),
                Err(_) => false,
            },
            Err(failure) => if failure.means_gone() {
                mask == Ok::<Option<usize>, ServiceError>(None)
            } else {
                mask matches Err(ServiceError::Io { operation, path: None, source }) && operation@
                    == "sched_getaffinity"@ && source@ == failure.source@
            },
        },
{
    let allowed = match reading {
        Ok(allowed) => allowed,
        Err(failure) => {
            if failure.is_race() {
                return Ok(None);
            }
            return Err(
                ServiceError::Io {
                    operation: "sched_getaffinity".to_string(),
                    path: None,
                    source: failure.source,
                },
            );
        },
    };
    let mut mask: usize = 0;
    let mut cpu: usize = 0;
    assert forall|other: int| !#[trigger] mask::has_cpu(mask, other) by {
        mask::lemma_empty_mask(other);
    }
    while cpu < usize::BITS as usize && cpu < allowed.len()
        invariant
            cpu <= usize::BITS,
            cpu <= allowed@.len(),
            forall|other: int| #[trigger]
                mask::has_cpu(mask, other) <==> other < cpu && marks(allowed@, other),
        decreases usize::BITS - cpu,
    {
        let ghost before = mask;
        if allowed[cpu] {
            mask = mask::with_cpu(mask, cpu);
        }
        assert forall|other: int| #[trigger]
            mask::has_cpu(mask, other) <==> other < cpu + 1 && marks(allowed@, other) by {
            assert(mask::has_cpu(before, other) <==> other < cpu && marks(allowed@, other));
        }
        cpu = cpu + 1;
    }
    assert forall|other: int| #[trigger]
        mask::has_cpu(mask, other) <==> marks(allowed@, other) by {}
    if mask == 0 {
        proof {
            mask::lemma_zero_iff_no_cpu(mask);
            assert forall|other: int| !#[trigger] marks(allowed@, other) by {
                assert(!mask::has_cpu(mask, other));
            }
        }
        Ok(None)
    } else {
        Ok(Some(mask))
    }
}

} // verus!
