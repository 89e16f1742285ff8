//! Placement of processes on Linux.

use std::collections::{BTreeMap, HashMap};
use std::path::Path;

use affix::affinity::AffinityPolicy;
use affix::bytes::ByteOrder;
use affix::cgroup::{
    CgroupCpusetManager, copy_effective_cpuset, enable_controller, join_path, migrate_process,
    process_sched_affinity_mask,
};
use affix::cpuset::{
    cgroup_leaf_name, cpuset_string, parse_cpuset_mask, systemd_allowed_cpus_bytes,
};
use affix::linux_daemon::{DaemonAction, DaemonEvent, DaemonState, run_daemon, scanned_pid};
use affix::linux_process::{
    IoFailure, LinuxProcess, linux_rule_matches, process_cgroup, process_in_cgroup, process_name,
    read_ppid, read_process_cgroup,
};
use affix::migration::{
    CgroupTarget, EnforcementContext, MigrationStep, ProcessOrigin, ProcessPlacementTracker,
    RETRAVERSALS, Traversal, after_restoration, after_traversal, begin_migration, cgroup_read,
    effective_cpus_read, leaf_made, scheduler_read, unit_constrained, unit_restored,
};
use affix::paths::strip_base;
use affix::placement::{
    ProcessMigrationPlan, ProcessTarget, ProcessTargetSelection, build_children_map,
    plan_process_subtree_targets, resolve_process_target,
};
use affix::power::PowerProfile;
use affix::proc_event::{
    PROC_CN_MCAST_LISTEN, PROC_EVENT_EXEC, PROC_EVENT_EXIT, PROC_EVENT_FORK, ProcEvent,
    parse_proc_event, subscription_message,
};
use affix::process::{ConfiguredProcessRule, ProcessMode};
use affix::service::ServiceError;
use affix::systemd::{
    SystemdController, SystemdManagerBus, SystemdUnitTarget, UnitMatchMode,
    cgroup_is_affix_fallback_candidate, systemd_unit_from_cgroup, systemd_unit_interface,
    user_bus_address,
};
use affix::topology::CpuTopology;

fn no_topology() -> CpuTopology {
    CpuTopology { entries: vec![] }
}

fn planned_target(plan: &[ProcessMigrationPlan], pid: u32) -> Option<&ProcessTarget> {
    plan.iter()
        .find(|planned| planned.pid == pid)
        .map(|planned| &planned.target)
}

fn test_process(comm: &str, exe: Option<&str>, cgroup: Option<&str>) -> LinuxProcess {
    LinuxProcess {
        pid: 42,
        ppid: 1,
        comm: comm.to_string(),
        exe: exe.map(str::to_string),
        cgroup: cgroup.map(str::to_string),
    }
}

fn numbered_process(pid: u32, ppid: u32, comm: &str) -> LinuxProcess {
    LinuxProcess {
        pid,
        ppid,
        comm: comm.to_string(),
        exe: None,
        cgroup: None,
    }
}

fn manager() -> CgroupCpusetManager {
    CgroupCpusetManager {
        root: "/sys/fs/cgroup".to_string(),
        affix_root: "/sys/fs/cgroup/affix".to_string(),
    }
}

fn failure(not_found: bool, os_code: Option<i32>) -> IoFailure {
    IoFailure {
        not_found,
        os_code,
        source: "refused".to_string(),
    }
}

#[test]
fn cpuset_string_compacts_contiguous_ranges() {
    assert_eq!(cpuset_string(0b1111), "0-3");
    assert_eq!(cpuset_string(0b1011_0001), "0,4-5,7");
}

#[test]
fn cgroup_leaf_names_use_affix_prefix() {
    assert_eq!(cgroup_leaf_name("0-3,8"), "affix-0-3_8");
}

#[test]
fn active_profile_specific_rule_beats_default_rule() {
    let rules = vec![
        ConfiguredProcessRule {
            image_name: "App.exe".to_string(),
            affinity: Some(AffinityPolicy::Mask(4)),
            mode: Some(ProcessMode::Normal),
            power_profile: Some(PowerProfile::Balanced),
        },
        ConfiguredProcessRule {
            image_name: "App.exe".to_string(),
            affinity: Some(AffinityPolicy::Mask(1)),
            mode: Some(ProcessMode::Normal),
            power_profile: None,
        },
    ];
    let process = numbered_process(12, 4, "App.exe");

    let target =
        resolve_process_target(&rules, &process, PowerProfile::Balanced, &no_topology()).unwrap();
    assert_eq!(
        target,
        ProcessTargetSelection::Target(ProcessTarget::Cpuset(cpuset_string(4)))
    );
}

#[test]
fn explicit_family_without_effective_profile_targets_unconstrained_default() {
    let rules = vec![ConfiguredProcessRule {
        image_name: "App.exe".to_string(),
        affinity: Some(AffinityPolicy::Mask(4)),
        mode: Some(ProcessMode::Normal),
        power_profile: Some(PowerProfile::Performance),
    }];
    let process = numbered_process(12, 4, "App.exe");

    let target =
        resolve_process_target(&rules, &process, PowerProfile::Balanced, &no_topology()).unwrap();
    assert_eq!(
        target,
        ProcessTargetSelection::Target(ProcessTarget::Unconstrained)
    );
}

#[test]
fn active_profile_rule_inherits_default_affinity() {
    let rules = vec![
        ConfiguredProcessRule {
            image_name: "app.exe".to_string(),
            affinity: Some(AffinityPolicy::Mask(1)),
            mode: Some(ProcessMode::Realtime),
            power_profile: None,
        },
        ConfiguredProcessRule {
            image_name: "app.exe".to_string(),
            affinity: None,
            mode: Some(ProcessMode::Normal),
            power_profile: Some(PowerProfile::Performance),
        },
    ];
    let process = numbered_process(12, 4, "app.exe");

    let target =
        resolve_process_target(&rules, &process, PowerProfile::Performance, &no_topology())
            .unwrap();
    assert_eq!(
        target,
        ProcessTargetSelection::Target(ProcessTarget::Cpuset(cpuset_string(1)))
    );
}

#[test]
fn unrelated_processes_inherit() {
    let rules = vec![ConfiguredProcessRule {
        image_name: "app".to_string(),
        affinity: Some(AffinityPolicy::Mask(1)),
        mode: None,
        power_profile: None,
    }];
    let process = numbered_process(12, 4, "other");
    assert_eq!(
        resolve_process_target(&rules, &process, PowerProfile::Balanced, &no_topology()).unwrap(),
        ProcessTargetSelection::Inherit
    );
}

#[test]
fn subtree_planning_uses_child_specific_targets_over_parent() {
    let rules = vec![
        ConfiguredProcessRule {
            image_name: "steam".to_string(),
            affinity: Some(AffinityPolicy::Mask(1)),
            mode: Some(ProcessMode::Normal),
            power_profile: None,
        },
        ConfiguredProcessRule {
            image_name: "game".to_string(),
            affinity: Some(AffinityPolicy::Mask(2)),
            mode: Some(ProcessMode::Normal),
            power_profile: Some(PowerProfile::Performance),
        },
    ];

    let processes = BTreeMap::from([
        (10u32, numbered_process(10, 1, "steam")),
        (11u32, numbered_process(11, 10, "game")),
        (12u32, numbered_process(12, 11, "helper")),
        (13u32, numbered_process(13, 10, "other")),
    ]);
    let children = HashMap::from([(10u32, vec![11, 13]), (11, vec![12])]);
    let parent_plan = resolve_process_target(
        &rules,
        &processes[&10],
        PowerProfile::Performance,
        &no_topology(),
    )
    .unwrap();
    let inherited = match parent_plan {
        ProcessTargetSelection::Target(target) => target,
        _ => panic!("expected parent target"),
    };
    let plan = plan_process_subtree_targets(
        10,
        &processes,
        &children,
        &rules,
        PowerProfile::Performance,
        &no_topology(),
        inherited,
    )
    .unwrap();

    assert_eq!(
        planned_target(&plan, 10),
        Some(&ProcessTarget::Cpuset(cpuset_string(1)))
    );
    assert_eq!(
        planned_target(&plan, 11),
        Some(&ProcessTarget::Cpuset(cpuset_string(2)))
    );
    assert_eq!(
        planned_target(&plan, 12),
        Some(&ProcessTarget::Cpuset(cpuset_string(2)))
    );
    assert_eq!(
        planned_target(&plan, 13),
        Some(&ProcessTarget::Cpuset(cpuset_string(1)))
    );
    assert_eq!(plan.len(), 4);

    let built = build_children_map(&processes);
    assert_eq!(built[&10], vec![11, 13]);
    assert_eq!(built[&11], vec![12]);
}

#[test]
fn cpuset_mask_parser_accepts_ranges_and_lists() {
    assert_eq!(parse_cpuset_mask("0-3,8,10-11").unwrap(), 0b1101_0000_1111);
}

#[test]
fn cpuset_text_is_read_back() {
    for mask in [1usize, 0b1011_0001, 1usize << 63, usize::MAX, 0b10_0110] {
        assert_eq!(parse_cpuset_mask(&cpuset_string(mask)).unwrap(), mask);
    }
}

#[test]
fn cpuset_texts_that_say_nothing_are_refused() {
    for text in ["x", "1-", "5-2", "64", "1-x"] {
        match parse_cpuset_mask(text) {
            Err(ServiceError::Affinity { expression, .. }) => assert_eq!(expression, text),
            other => panic!("unexpected answer {other:?} for {text}"),
        }
    }
}

#[test]
fn leaf_names_of_different_sets_differ() {
    assert_ne!(cgroup_leaf_name("0-3"), cgroup_leaf_name("0,3"));
}

#[test]
fn unmanaged_unconstrained_target_has_no_migration_target() {
    let placements = ProcessPlacementTracker::default();
    let plan = ProcessMigrationPlan {
        pid: 42,
        current_cgroup: Some("/user.slice/user-1000.slice/session-2.scope".to_string()),
        process: test_process("app", None, None),
        target: ProcessTarget::Unconstrained,
    };
    let context = EnforcementContext::default();

    match begin_migration(&plan, &manager(), &placements, &context).unwrap() {
        MigrationStep::Done(target) => assert!(target.is_none()),
        _ => panic!("expected no target"),
    }
}

#[test]
fn affix_managed_unconstrained_target_restores_recorded_origin() {
    let origin = ProcessOrigin {
        cgroup_path: "/sys/fs/cgroup/user.slice/app.scope".to_string(),
        relative_cgroup: "/user.slice/app.scope".to_string(),
        effective_cpuset_mask: 0b1111,
    };
    let mut placements = ProcessPlacementTracker::default();
    placements.record(42, origin);
    let plan = ProcessMigrationPlan {
        pid: 42,
        current_cgroup: Some("/affix/affix-0-1".to_string()),
        process: test_process("app", None, None),
        target: ProcessTarget::Unconstrained,
    };
    let context = EnforcementContext::default();

    let target = match begin_migration(&plan, &manager(), &placements, &context).unwrap() {
        MigrationStep::Done(Some(target)) => target,
        _ => panic!("expected origin restoration target"),
    };

    assert!(target.restores_origin);
    assert_eq!(target.target.relative, "/user.slice/app.scope");

    after_restoration(&mut placements, 42, true);
    assert!(placements.origin(42).is_none());
}

#[test]
fn systemd_target_detects_matching_user_app_scope() {
    let process = test_process(
        "konsole",
        Some("/usr/bin/konsole"),
        Some(
            "/user.slice/user-1000.slice/user@1000.service/app.slice/app-org.kde.konsole-123.scope",
        ),
    );

    let unit = systemd_unit_from_cgroup(
        process.cgroup.as_deref().unwrap(),
        &process,
        UnitMatchMode::RequireProcessMatch,
    )
    .expect("expected matching KDE app scope");

    assert_eq!(unit.manager, SystemdManagerBus::User { uid: 1000 });
    assert_eq!(unit.unit_name, "app-org.kde.konsole-123.scope");
}

#[test]
fn systemd_target_rejects_launcher_scope_for_unrelated_child_but_allows_fallback() {
    let process = test_process(
        "game",
        Some("/home/user/bin/game"),
        Some(
            "/user.slice/user-1000.slice/user@1000.service/app.slice/app-org.kde.konsole-123.scope",
        ),
    );

    assert!(
        systemd_unit_from_cgroup(
            process.cgroup.as_deref().unwrap(),
            &process,
            UnitMatchMode::RequireProcessMatch,
        )
        .is_none()
    );
    assert!(cgroup_is_affix_fallback_candidate(
        process.cgroup.as_deref()
    ));
}

#[test]
fn broad_user_session_scope_is_not_affix_fallback_candidate() {
    let cgroup = "/user.slice/user-1000.slice/session-2.scope";
    let process = test_process("game", Some("/home/user/bin/game"), Some(cgroup));

    assert!(
        systemd_unit_from_cgroup(cgroup, &process, UnitMatchMode::RequireProcessMatch).is_none()
    );
    assert!(!cgroup_is_affix_fallback_candidate(Some(cgroup)));
}

#[test]
fn systemd_target_detects_matching_system_service() {
    let process = test_process(
        "systemd-journal",
        Some("/usr/lib/systemd/systemd-journald"),
        Some("/system.slice/systemd-journald.service"),
    );

    let unit = systemd_unit_from_cgroup(
        process.cgroup.as_deref().unwrap(),
        &process,
        UnitMatchMode::RequireProcessMatch,
    )
    .expect("expected matching system service");

    assert_eq!(unit.manager, SystemdManagerBus::System);
    assert_eq!(unit.unit_name, "systemd-journald.service");
}

#[test]
fn systemd_target_accepts_specific_service_without_binary_name_match() {
    let process = test_process(
        "systemd-journal",
        Some("/usr/lib/systemd/systemd-journald"),
        Some("/system.slice/systemd-journald-blahblah.service"),
    );

    let unit = systemd_unit_from_cgroup(
        process.cgroup.as_deref().unwrap(),
        &process,
        UnitMatchMode::RequireProcessMatch,
    )
    .expect("expected containing service unit");

    assert_eq!(unit.manager, SystemdManagerBus::System);
    assert_eq!(unit.unit_name, "systemd-journald-blahblah.service");
}

#[test]
fn systemd_allowed_cpus_bytes_are_little_endian_cpu_bitmap() {
    let mask = (1usize << 0) | (1usize << 7) | (1usize << 8) | (1usize << 17);
    assert_eq!(systemd_allowed_cpus_bytes(mask), vec![0x81, 0x01, 0x02]);
}

#[test]
fn the_first_allowed_cpus_of_a_unit_are_restored() {
    let unit = SystemdUnitTarget {
        manager: SystemdManagerBus::System,
        unit_name: "a.service".to_string(),
    };
    let mut controller = SystemdController::new();
    assert_eq!(
        controller.apply_allowed_cpus(&unit, 0b11, Ok(vec![0xff])).unwrap(),
        vec![0b11]
    );
    assert_eq!(
        controller.apply_allowed_cpus(&unit, 0b1, Ok(vec![0b11])).unwrap(),
        vec![0b1]
    );
    assert_eq!(controller.restore_allowed_cpus(&unit), Some(vec![0xff]));
    assert_eq!(controller.restore_allowed_cpus(&unit), None);
}

#[test]
fn units_are_reached_over_their_buses() {
    assert_eq!(
        systemd_unit_interface("a.service"),
        "org.freedesktop.systemd1.Service"
    );
    assert_eq!(
        systemd_unit_interface("a.scope"),
        "org.freedesktop.systemd1.Scope"
    );
    assert_eq!(user_bus_address(1000), "unix:path=/run/user/1000/bus");
}

#[test]
fn rules_with_a_slash_name_the_whole_path() {
    let rule = |name: &str| ConfiguredProcessRule {
        image_name: name.to_string(),
        affinity: None,
        mode: None,
        power_profile: None,
    };
    let process = test_process("systemd-journal", Some("/usr/lib/systemd/systemd-journald"), None);
    assert!(linux_rule_matches(
        &rule("/usr/lib/systemd/systemd-journald"),
        &process
    ));
    assert!(!linux_rule_matches(&rule("/usr/bin/systemd-journald"), &process));
    assert!(linux_rule_matches(&rule("systemd-journald"), &process));
    assert!(linux_rule_matches(&rule("systemd-journal"), &process));
    assert!(!linux_rule_matches(&rule("journald"), &process));
}

#[test]
fn process_files_are_read() {
    assert_eq!(process_name("bash\n"), "bash");
    assert_eq!(
        read_ppid("Name:\tbash\nPid:\t12\nPPid:\t7\nTracerPid:\t0\n"),
        Some(7)
    );
    assert_eq!(read_ppid("Name:\tbash\n"), None);
    assert_eq!(
        process_cgroup("0::/user.slice/a.scope\n"),
        Some("/user.slice/a.scope".to_string())
    );
    assert_eq!(process_cgroup("1:cpu:/a\n"), None);
    assert!(process_in_cgroup(
        &Some("/user.slice/a.scope".to_string()),
        "/user.slice/a.scope"
    ));
    assert_eq!(read_process_cgroup(7, Err(failure(true, None))).unwrap(), None);
    assert!(read_process_cgroup(7, Err(failure(false, Some(13)))).is_err());
    assert_eq!(scanned_pid("123"), Some(123));
    assert_eq!(scanned_pid("self"), None);
}

#[test]
fn control_groups_are_named_below_their_root() {
    let cgroups = CgroupCpusetManager::open("/sys/fs/cgroup", "cpuset cpu io").unwrap();
    assert_eq!(
        cgroups.leaf_path("0-3,8"),
        "/sys/fs/cgroup/affix/affix-0-3_8"
    );
    assert_eq!(
        cgroups
            .relative_cgroup_path("/sys/fs/cgroup/affix/affix-1")
            .unwrap(),
        "/affix/affix-1"
    );
    for (leaf, relative) in [
        ("/sys/fs/cgroup", "/"),
        ("/sys/fs/cgroup/", "/"),
        ("/sys/fs/cgroup//x", "/x"),
        ("/sys/./fs//cgroup/./x/", "/x"),
        ("/sys/fs/cgroup/x//y/.", "/x//y"),
        ("/sys/fs/cgroup/../x", "/../x"),
    ] {
        assert_eq!(cgroups.relative_cgroup_path(leaf).unwrap(), relative);
    }
    for leaf in ["/sys/fs/cgroups/x", "/sys/fs", "sys/fs/cgroup/x", "./sys/fs/cgroup/x", ""] {
        assert!(cgroups.relative_cgroup_path(leaf).is_err());
    }
    let slashed = CgroupCpusetManager::open("/sys/fs/cgroup/", "cpuset").unwrap();
    assert_eq!(slashed.relative_cgroup_path("/sys/fs/cgroup/x").unwrap(), "/x");
    assert_eq!(strip_base("./a/b", "."), Some("a/b".to_string()));
    assert_eq!(strip_base("a/b", "."), None);
    assert_eq!(strip_base("/a/./", ""), Some("/a".to_string()));
    assert_eq!(strip_base("./a/", ""), Some("./a".to_string()));
    assert_eq!(strip_base("a//b/", ""), Some("a//b".to_string()));
    assert_eq!(strip_base("//", ""), Some("/".to_string()));
    assert!(cgroups.relative_is_affix_managed(Some("/affix/affix-1")));
    assert!(!cgroups.relative_is_affix_managed(Some("/affixed")));
    assert!(!cgroups.relative_is_affix_managed(None));
    assert!(CgroupCpusetManager::open("/sys/fs/cgroup", "cpu io").is_err());
    assert_eq!(enable_controller("cpu io", "cpuset"), Some("+cpuset".to_string()));
    assert_eq!(enable_controller("cpuset io", "cpuset"), None);
    assert_eq!(join_path("/a", "b"), "/a/b");
    assert_eq!(join_path("/a/", "b"), "/a/b");
    assert_eq!(join_path("/a", "/b"), "/b");
    assert_eq!(join_path("", "b"), "b");
    assert_eq!(
        copy_effective_cpuset("/sys/fs/cgroup", "cpuset.cpus", "0-7\n").unwrap(),
        "0-7"
    );
    assert!(copy_effective_cpuset("/sys/fs/cgroup", "cpuset.cpus", "\n").is_err());
}

#[test]
fn paths_are_taken_apart_like_those_of_the_file_system() {
    let starts = ["", "/", "//", ".", "./", "a", "a/", "/a", "/./a", "./a", "../a", "/a/b/"];
    let ends = ["", "/", "/.", "//b", "/b", "/b/", "/./b/.", "/../b", "b"];
    for start in starts {
        for end in ends {
            let path = format!("{start}{end}");
            for base in starts {
                let expected = Path::new(&path)
                    .strip_prefix(base)
                    .ok()
                    .map(|rest| rest.to_str().unwrap().to_string());
                assert_eq!(strip_base(&path, base), expected, "{path:?} below {base:?}");
            }
            assert_eq!(
                Some(join_path(start, end).as_str()),
                Path::new(start).join(end).to_str(),
            );
        }
    }
}

#[test]
fn processes_that_are_gone_need_not_be_moved() {
    let elsewhere = Some("/b".to_string());
    let moved = migrate_process("/r/c", "/c", &elsewhere, |path: &str| {
        assert_eq!(path, "/r/c/cgroup.procs");
        Ok(())
    });
    assert!(moved.unwrap());
    let gone = migrate_process("/r/c", "/c", &elsewhere, |_: &str| Err(failure(true, None)));
    assert!(!gone.unwrap());
    let refused = migrate_process("/r/c", "/c", &None, |_: &str| Err(failure(false, Some(13))));
    assert!(refused.is_err());
    let there = migrate_process("/r/c", "/c", &Some("/c".to_string()), |_: &str| {
        panic!("a process that is there already is not moved")
    });
    assert!(!there.unwrap());
    assert_eq!(
        process_sched_affinity_mask(Ok(vec![true, false, true])).unwrap(),
        Some(0b101)
    );
}

#[test]
fn a_process_is_placed_inside_its_envelope() {
    let cgroup = "/user.slice/user-1000.slice/user@1000.service/app.slice/app-term-1.scope";
    let mut placements = ProcessPlacementTracker::default();
    let mut context = EnforcementContext::default();
    let plan = ProcessMigrationPlan {
        pid: 42,
        current_cgroup: Some(cgroup.to_string()),
        process: test_process("game", Some("/home/user/game"), Some(cgroup)),
        target: ProcessTarget::Cpuset("0-7".to_string()),
    };
    let (relative, path) = match begin_migration(&plan, &manager(), &placements, &context).unwrap()
    {
        MigrationStep::ReadEffectiveCpus { relative, path } => (relative, path),
        MigrationStep::ReadCgroup => match cgroup_read(&manager(), Some(cgroup.to_string())) {
            MigrationStep::ReadEffectiveCpus { relative, path } => (relative, path),
            _ => panic!("expected the effective processors to be read"),
        },
        _ => panic!("expected the origin to be read"),
    };
    let (origin, requested) =
        match effective_cpus_read("0-7", relative, path, Ok("0-3\n".to_string())).unwrap() {
            MigrationStep::ReadScheduler { origin, requested } => (origin, requested),
            _ => panic!("expected the scheduler to be asked"),
        };
    let (cpuset, origin) = match scheduler_read(
        &plan,
        origin,
        requested,
        Ok(Some(0b110)),
        &mut placements,
        &context,
    )
    .unwrap()
    {
        MigrationStep::MakeLeaf { cpuset, origin } => (cpuset, origin),
        _ => panic!("expected a leaf to be made"),
    };
    assert_eq!(cpuset, "1-2");
    let target = leaf_made(
        42,
        cpuset,
        origin,
        Ok("/sys/fs/cgroup/affix/affix-1-2".to_string()),
        &manager(),
        &mut placements,
        &mut context,
    )
    .unwrap();
    assert_eq!(
        target.target,
        CgroupTarget {
            path: "/sys/fs/cgroup/affix/affix-1-2".to_string(),
            relative: "/affix/affix-1-2".to_string(),
        }
    );
    assert!(!target.restores_origin);
    assert_eq!(placements.origin(42).unwrap().relative_cgroup, cgroup);
}

#[test]
fn a_unit_that_cannot_be_constrained_is_left_alone_unless_fallback_is_allowed() {
    let cgroup = "/system.slice/a.service";
    let unit = || SystemdUnitTarget {
        manager: SystemdManagerBus::System,
        unit_name: "a.service".to_string(),
    };
    let origin = || ProcessOrigin {
        cgroup_path: "/sys/fs/cgroup/system.slice/a.service".to_string(),
        relative_cgroup: cgroup.to_string(),
        effective_cpuset_mask: 0b1111,
    };
    let plan = ProcessMigrationPlan {
        pid: 42,
        current_cgroup: Some(cgroup.to_string()),
        process: test_process("a", Some("/usr/bin/a"), Some(cgroup)),
        target: ProcessTarget::Cpuset("0-1".to_string()),
    };
    let mut placements = ProcessPlacementTracker::default();
    let mut context = EnforcementContext::default();
    match unit_constrained(
        &plan,
        unit(),
        0b11,
        origin(),
        false,
        &mut placements,
        &mut context,
    ) {
        MigrationStep::Done(target) => assert!(target.is_none()),
        _ => panic!("expected the process to be skipped"),
    }
    assert!(!context.has_unit(&unit()));
    match unit_constrained(
        &plan,
        unit(),
        0b11,
        origin(),
        true,
        &mut placements,
        &mut context,
    ) {
        MigrationStep::Done(target) => assert!(target.is_none()),
        _ => panic!("expected the unit to be enough"),
    }
    assert!(context.has_unit(&unit()));
    unit_restored(&mut context, unit(), true);
}

#[test]
fn the_first_origin_of_a_process_is_kept_and_inherited() {
    let origin = |name: &str| ProcessOrigin {
        cgroup_path: format!("/sys/fs/cgroup{name}"),
        relative_cgroup: name.to_string(),
        effective_cpuset_mask: 1,
    };
    let mut placements = ProcessPlacementTracker::default();
    placements.record(1, origin("/first"));
    placements.record(1, origin("/second"));
    placements.inherit(1, 2);
    assert_eq!(placements.origin(1).unwrap().relative_cgroup, "/first");
    assert_eq!(placements.origin(2).unwrap().relative_cgroup, "/first");
    placements.remove(1);
    assert!(placements.origin(1).is_none());
    assert!(placements.origin(2).is_some());
}

#[test]
fn a_tree_that_keeps_changing_is_given_up() {
    assert_eq!(after_traversal(0, 0), Traversal::Settled);
    assert_eq!(after_traversal(0, 3), Traversal::Again);
    assert_eq!(after_traversal(RETRAVERSALS, 3), Traversal::GiveUp);
}

fn event_bytes(what: u32, data: &[u32]) -> Vec<u8> {
    let mut bytes = vec![0u8; 36];
    bytes[4] = 3;
    bytes[16] = 1;
    bytes[20] = 1;
    bytes.extend(what.to_le_bytes());
    bytes.extend([0u8; 12]);
    for word in data {
        bytes.extend(word.to_le_bytes());
    }
    bytes
}

#[test]
fn connector_events_are_read() {
    assert_eq!(
        parse_proc_event(&event_bytes(PROC_EVENT_EXEC, &[7, 7]), ByteOrder::Little),
        Some(ProcEvent::Exec { process_pid: 7 })
    );
    assert_eq!(
        parse_proc_event(
            &event_bytes(PROC_EVENT_FORK, &[1, 2, 3, 4]),
            ByteOrder::Little
        ),
        Some(ProcEvent::Fork { parent_pid: 1, child_pid: 3 })
    );
    assert_eq!(
        parse_proc_event(&event_bytes(PROC_EVENT_EXIT, &[9, 9]), ByteOrder::Little),
        Some(ProcEvent::Exit { process_pid: 9 })
    );
    assert_eq!(parse_proc_event(&[0u8; 8], ByteOrder::Little), None);
    let message = subscription_message(PROC_CN_MCAST_LISTEN, ByteOrder::Little);
    assert_eq!(message.len(), 40);
    assert_eq!(parse_proc_event(&message, ByteOrder::Little), None);
}

#[test]
fn the_daemon_scans_at_its_start_and_on_a_change_of_the_profile() {
    let mut state = DaemonState::default();
    let active = state.active_profile;
    assert_eq!(
        run_daemon(&mut state, DaemonEvent::Started),
        DaemonAction::ScanAll(active)
    );
    assert_eq!(
        run_daemon(&mut state, DaemonEvent::ProfileChanged(PowerProfile::Performance)),
        DaemonAction::ScanAll(PowerProfile::Performance)
    );
    assert_eq!(
        run_daemon(&mut state, DaemonEvent::ProfileChanged(PowerProfile::Performance)),
        DaemonAction::Wait
    );
    assert_eq!(
        run_daemon(
            &mut state,
            DaemonEvent::Process(Some(ProcEvent::Exec { process_pid: 5 }))
        ),
        DaemonAction::Apply(5, PowerProfile::Performance)
    );
    assert_eq!(
        run_daemon(&mut state, DaemonEvent::Process(None)),
        DaemonAction::Wait
    );
}
