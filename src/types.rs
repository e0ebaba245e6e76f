use vstd::prelude::*;

verus! {

/// One process at one observation instant.
#[derive(Debug, Clone)]
pub struct ProcessInfo {
    pub pid: i32,
    pub name: String,
    /// CPU use in hundredths of a percent, within `0..=10000`.
    pub cpu_hundredths: u32,
    /// Resident set size.
    pub memory_bytes: u64,
    /// The kernel's one-letter scheduling state (`R`, `S`, `D`, `Z`, `T`, `I`, ...).
    pub state: char,
    /// Parent pid; `0` when the process has no parent.
    pub ppid: i32,
}

/// What the kernel reported for one process, before any estimation.
#[derive(Debug, Clone)]
pub struct RawProcess {
    pub pid: i32,
    pub name: String,
    pub state: char,
    pub ppid: i32,
    /// Cumulative user-mode CPU ticks.
    pub utime: u64,
    /// Cumulative kernel-mode CPU ticks.
    pub stime: u64,
    /// Resident pages, or `None` when that optional record could not be read.
    pub resident_pages: Option<u64>,
}

/// The system-wide cumulative CPU tick counters, summed over all cores.
#[derive(Debug, Clone, Copy, PartialEq, Eq)]
pub struct SystemCpuTimes {
    pub total: u64,
    pub idle: u64,
}

/// Errors of process observation and control.
#[derive(Debug)]
pub enum ProcError {
    PermissionDenied(i32),
    UnkillableState(i32),
    NotFound(i32),
    SignalError(i32, String),
    CgroupError(String),
    Other(String),
    ProcfsError(String),
    /// The members of a tree kill that failed, each with its own error.
    TreeKillFailed(Vec<(i32, ProcError)>),
}

} // verus!
