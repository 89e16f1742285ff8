# Affix

Affix places processes on processors by policy. A policy names a program and says on which
processors it runs and how it is scheduled; Affix finds the processes of that program as they
start, applies the policy, checks three times that it still holds, and lets go of a process when
it ends.

The rules of Affix are a library, written in Verus: what each function does is stated in its
contract and proved. The program around it reads the machine and changes it.

## Layout

- `src/` is the library.
  - Processors: `topology`, `windows_topology`, `sysfs` and `processor` say what a machine has;
    `affinity`, `affinity_order`, `mask` and `cpuset` say which processors an expression such as
    `P+E` stands for.
  - Policies: `process`, `policy`, `registry`, `defaults`, `power`, `identity`, `exclusion`.
  - The engine: `engine` keeps the processes that a policy is enforced on, `etw` reads the events
    of a trace session, `diagnostics` shows what the engine does, `service_control` and `install`
    are the life of the Windows service.
  - Classification: `classification`, `heuristics`, `confidence`, `decision_cache`, `storage`.
  - Linux: `linux_daemon`, `linux_process`, `proc_event`, `placement`, `migration`, `cgroup`,
    `systemd`.
  - Text and bytes: `text`, `paths`, `wide`, `bytes`, `ordered`, `command`, `packaging`, `service`.
- `app/` is the program: it makes the system calls, runs the threads, and does what the library
  decides.
- `tests/` runs the library.

What a library of another author or the standard library returns is believed, not proved; each
such function says so above its declaration.
