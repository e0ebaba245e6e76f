//! A process-control engine for a single Linux host.
//!
//! The library holds the logic of observing and controlling processes: the
//! CPU-utilization estimator, the assembly of a snapshot from per-process
//! kernel records, the parent/child graph of a snapshot, the graduated
//! single-process kill protocol, tree kill and cgroup kill. Reading the kernel's
//! records, sending signals and writing control files is left to the caller,
//! which hands the outcomes back as plain values.

pub mod types;
pub mod cpu;
pub mod stat;
pub mod snapshot;
pub mod graph;
pub mod kill;
pub mod tree;
pub mod cgroup;
pub mod table;

pub use types::{ProcError, ProcessInfo, RawProcess, SystemCpuTimes};
pub use cpu::{CpuHistory, CpuSample, SystemSample};
pub use snapshot::collect_snapshot;
pub use graph::descendants;
pub use kill::{KillAction, KillEvent, KillProtocol, KillStage, Signal, SignalOutcome};
pub use tree::{kill_tree, TreeKill};
pub use cgroup::{kill_cgroup, CgroupWrite, CGROUP_KILL_DIRECTIVE};
pub use stat::parse_system_cpu_times;
pub use table::{filter_processes, SortColumn, StatusBar};
