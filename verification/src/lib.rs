//! Affix decides which processors a process may run on, how it is prioritised, and when
//! those decisions have to be taken again.

pub mod affinity;
pub mod affinity_laws;
pub mod affinity_order;
pub mod bytes;
pub mod cgroup;
pub mod cgroup_laws;
pub mod classification;
pub mod command;
pub mod confidence;
pub mod cpuset;
pub mod decision_cache;
pub mod defaults;
pub mod diagnostics;
pub mod diagnostics_laws;
pub mod engine;
pub mod engine_laws;
pub mod error_laws;
pub mod etw;
pub mod even_machine_laws;
pub mod exclusion;
pub mod heuristics;
pub mod heuristics_laws;
pub mod identity;
pub mod install;
pub mod linux_daemon;
pub mod linux_process;
pub mod machine_laws;
pub mod mask;
pub mod migration;
pub mod migration_laws;
pub mod ordered;
pub mod packaging;
pub mod paths;
pub mod placement;
pub mod placement_laws;
pub mod policy;
pub mod policy_laws;
pub mod power;
pub mod proc_event;
pub mod process;
pub mod processor;
pub mod registry;
pub mod service;
pub mod service_control;
pub mod storage;
pub mod storage_laws;
pub mod sysfs;
pub mod systemd;
pub mod systemd_laws;
pub mod text;
pub mod text_laws;
pub mod topology;
pub mod topology_laws;
pub mod wide;
pub mod windows_laws;
pub mod windows_topology;
