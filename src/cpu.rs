use std::collections::HashMap;
use vstd::prelude::*;
use vstd::std_specs::hash::group_hash_axioms;
use crate::types::SystemCpuTimes;

verus! {

broadcast use group_hash_axioms;

/// Scheduler ticks per second of cumulative CPU time.
pub const CLOCK_TICKS_PER_SECOND: u64 = 100;

/// The shortest interval, in milliseconds, over which a rate is reported.
pub const MIN_INTERVAL_MS: u64 = 1000;

/// The largest CPU use, in hundredths of a percent.
pub const FULL_HUNDREDTHS: u32 = 10000;

/// The last sample of one process: its cumulative ticks and when they were read.
#[derive(Debug, Clone, Copy, PartialEq, Eq)]
pub struct CpuSample {
    pub ticks: u64,
    pub at_ms: u64,
}

/// The last system-wide sample and when it was read.
#[derive(Debug, Clone, Copy, PartialEq, Eq)]
pub struct SystemSample {
    pub total: u64,
    pub idle: u64,
    pub at_ms: u64,
}

/// `b - a`, floored at zero.
pub open spec fn delta(a: u64, b: u64) -> int {
    if b >= a {
        b - a
    } else {
        0
    }
}

/// Both the process's and the system's last samples are at least the minimum
/// interval old at `now_ms`.
pub open spec fn ready(prev: CpuSample, sys: SystemSample, now_ms: u64) -> bool {
    delta(prev.at_ms, now_ms) >= MIN_INTERVAL_MS && delta(sys.at_ms, now_ms) >= MIN_INTERVAL_MS
}

/// CPU use in hundredths of a percent: the process's tick delta over the
/// system's, or, when the system counted no ticks, over the wall-clock interval;
/// capped at a full hundred percent.
pub open spec fn rate(process_delta: int, system_delta: int, elapsed_ms: int) -> int {
    let raw = if system_delta > 0 {
        10000 * process_delta / system_delta
    } else {
        10000 * 1000 * process_delta / (CLOCK_TICKS_PER_SECOND * elapsed_ms)
    };
    if raw > FULL_HUNDREDTHS {
        FULL_HUNDREDTHS as int
    } else {
        raw
    }
}

/// What one observation of `pid` reports against the history `samples` and the
/// system sample `sys`.
pub open spec fn usage(
    samples: Map<i32, CpuSample>,
    sys: SystemSample,
    pid: i32,
    ticks: u64,
    system_total: u64,
    now_ms: u64,
) -> int {
    if samples.contains_key(pid) && ready(samples[pid], sys, now_ms) {
        rate(
            delta(samples[pid].ticks, ticks),
            delta(sys.total, system_total),
            delta(samples[pid].at_ms, now_ms),
        )
    } else {
        0
    }
}

/// The sample of `pid` after one observation: a fresh one, unless a stored one
/// is kept because it is too recent.
pub open spec fn next_sample(
    samples: Map<i32, CpuSample>,
    sys: SystemSample,
    pid: i32,
    ticks: u64,
    now_ms: u64,
) -> CpuSample {
    if samples.contains_key(pid) && !ready(samples[pid], sys, now_ms) {
        samples[pid]
    } else {
        CpuSample { ticks, at_ms: now_ms }
    }
}

/// The system sample at the end of an enumeration at `now_ms`.
pub open spec fn next_system(sys: SystemSample, times: SystemCpuTimes, now_ms: u64) -> SystemSample {
    if delta(sys.at_ms, now_ms) >= MIN_INTERVAL_MS {
        SystemSample { total: times.total, idle: times.idle, at_ms: now_ms }
    } else {
        sys
    }
}

/// Per-process and system-wide CPU history, which turns cumulative tick
/// counters into rates.
pub struct CpuHistory {
    samples: HashMap<i32, CpuSample>,
    system: SystemSample,
}

fn saturating_delta(a: u64, b: u64) -> (r: u64)
    ensures
        r == delta(a, b),
{
    if b >= a {
        b - a
    } else {
        0
    }
}

/// Computes `rate` on machine integers.
fn compute_rate(process_delta: u64, system_delta: u64, elapsed_ms: u64) -> (r: u32)
    requires
        elapsed_ms >= MIN_INTERVAL_MS,
    ensures
        r == rate(process_delta as int, system_delta as int, elapsed_ms as int),
        r <= FULL_HUNDREDTHS,
{
    let p = process_delta as u128;
    let raw: u128 = if system_delta > 0 {
        assert(p * 10000 <= 0xffff_ffff_ffff_ffffu128 * 10000) by (nonlinear_arith)
            requires p <= 0xffff_ffff_ffff_ffffu128;
        assert(p * 10000 == 10000 * process_delta);
        p * 10000 / (system_delta as u128)
    } else {
        assert(p * 10000000 <= 0xffff_ffff_ffff_ffffu128 * 10000000) by (nonlinear_arith)
            requires p <= 0xffff_ffff_ffff_ffffu128;
        assert((elapsed_ms as u128) * 100 > 0);
        assert(p * 10000000 == 10000 * 1000 * process_delta) by (nonlinear_arith)
            requires p == process_delta;
        assert((elapsed_ms as u128) * (CLOCK_TICKS_PER_SECOND as u128) == CLOCK_TICKS_PER_SECOND
            * elapsed_ms);
        p * 10000000 / ((elapsed_ms as u128) * (CLOCK_TICKS_PER_SECOND as u128))
    };
    if raw > FULL_HUNDREDTHS as u128 {
        FULL_HUNDREDTHS
    } else {
        raw as u32
    }
}

impl CpuHistory {
    /// The stored per-process samples, by pid.
    pub closed spec fn samples(&self) -> Map<i32, CpuSample> {
        self.samples@
    }

    /// The stored system-wide sample.
    pub closed spec fn system(&self) -> SystemSample {
        self.system
    }

    /// A history with no process samples, whose system sample is `times` read at `now_ms`.
    pub fn new(times: SystemCpuTimes, now_ms: u64) -> (h: Self)
        ensures
            h.samples() == Map::<i32, CpuSample>::empty(),
            h.system() == (SystemSample { total: times.total, idle: times.idle, at_ms: now_ms }),
    {
        CpuHistory {
            samples: HashMap::new(),
            system: SystemSample { total: times.total, idle: times.idle, at_ms: now_ms },
        }
    }

    /// The stored sample of `pid`, if it is tracked.
    pub fn sample(&self, pid: i32) -> (r: Option<CpuSample>)
        ensures
            r == self.samples().get(pid),
    {
        match self.samples.get(&pid) {
            Some(s) => Some(*s),
            None => None,
        }
    }

    /// The number of tracked processes.
    pub fn tracked_count(&self) -> (r: usize)
        ensures
            r == self.samples().len(),
    {
        self.samples.len()
    }

    /// The stored system-wide sample.
    pub fn system_sample(&self) -> (r: SystemSample)
        ensures
            r == self.system(),
    {
        self.system
    }

    /// Observes `pid` with `ticks` cumulative CPU ticks while the system counter
    /// reads `system_total`, at `now_ms`, and reports its CPU use in hundredths of
    /// a percent. A first observation reports zero and starts tracking; so does
    /// one less than the minimum interval after the stored process or system
    /// sample, which is then kept as it is.
    pub fn observe(&mut self, pid: i32, ticks: u64, system_total: u64, now_ms: u64) -> (r: u32)
        ensures
            r == usage(old(self).samples(), old(self).system(), pid, ticks, system_total, now_ms),
            r <= FULL_HUNDREDTHS,
            !old(self).samples().contains_key(pid) ==> r == 0,
            old(self).samples().contains_key(pid) && delta(old(self).samples()[pid].at_ms, now_ms)
                < MIN_INTERVAL_MS ==> r == 0,
            final(self).samples() == old(self).samples().insert(
                pid,
                next_sample(old(self).samples(), old(self).system(), pid, ticks, now_ms),
            ),
            final(self).system() == old(self).system(),
    {
        let fresh = CpuSample { ticks, at_ms: now_ms };
        let prev = match self.samples.get(&pid) {
            Some(s) => *s,
            None => {
                self.samples.insert(pid, fresh);
                return 0;
            },
        };
        let elapsed = saturating_delta(prev.at_ms, now_ms);
        let system_elapsed = saturating_delta(self.system.at_ms, now_ms);
        if elapsed < MIN_INTERVAL_MS || system_elapsed < MIN_INTERVAL_MS {
            proof {
                assert(self.samples@.insert(pid, prev) =~= self.samples@);
            }
            return 0;
        }
        let r = compute_rate(
            saturating_delta(prev.ticks, ticks),
            saturating_delta(self.system.total, system_total),
            elapsed,
        );
        self.samples.insert(pid, fresh);
        r
    }

    /// Discards the sample of every pid absent from `live`.
    pub fn evict_absent(&mut self, live: &Vec<i32>)
        ensures
            final(self).samples() == old(self).samples().restrict(live@.to_set()),
            final(self).system() == old(self).system(),
    {
        let mut kept: HashMap<i32, CpuSample> = HashMap::new();
        let mut i: usize = 0;
        while i < live.len()
            invariant
                i <= live.len(),
                forall|p: i32| #[trigger]
                    kept@.contains_key(p) <==> (self.samples@.contains_key(p) && exists|j: int|
                        0 <= j < i && live@[j] == p),
                forall|p: i32| #[trigger] kept@.contains_key(p) ==> kept@[p] == self.samples@[p],
            decreases live.len() - i,
        {
            let pid = live[i];
            match self.samples.get(&pid) {
                Some(s) => {
                    kept.insert(pid, *s);
                },
                None => {},
            }
            proof {
                assert forall|p: i32| #[trigger]
                    kept@.contains_key(p) <==> (self.samples@.contains_key(p) && exists|j: int|
                        0 <= j < i + 1 && live@[j] == p) by {
                    if self.samples@.contains_key(p) && exists|j: int| 0 <= j < i + 1 && live@[j] == p {
                        let j = choose|j: int| 0 <= j < i + 1 && live@[j] == p;
                        if j < i {
                            assert(exists|j: int| 0 <= j < i && live@[j] == p);
                        }
                    }
                    if exists|j: int| 0 <= j < i && live@[j] == p {
                        let j = choose|j: int| 0 <= j < i && live@[j] == p;
                        assert(0 <= j < i + 1 && live@[j] == p);
                    }
                }
            }
            i = i + 1;
        }
        proof {
            assert forall|p: i32| #[trigger] live@.to_set().contains(p) <==> exists|j: int|
                0 <= j < live.len() && live@[j] == p by {
                if live@.to_set().contains(p) {
                    assert(live@.contains(p));
                }
            }
            assert(kept@ =~= self.samples@.restrict(live@.to_set()));
        }
        self.samples = kept;
    }

    /// Ends an enumeration at `now_ms` with the system counters `times`: the
    /// system sample is replaced when the stored one is at least the minimum
    /// interval old.
    pub fn advance_system(&mut self, times: SystemCpuTimes, now_ms: u64)
        ensures
            final(self).samples() == old(self).samples(),
            final(self).system() == next_system(old(self).system(), times, now_ms),
    {
        if saturating_delta(self.system.at_ms, now_ms) >= MIN_INTERVAL_MS {
            self.system = SystemSample { total: times.total, idle: times.idle, at_ms: now_ms };
        }
    }
}

/// A process whose sample was taken afresh in one enumeration reports zero
/// CPU use when it is observed again less than the minimum interval later,
/// whatever the counters then read.
pub proof fn lemma_quick_reobservation_reports_zero(
    samples: Map<i32, CpuSample>,
    sys: SystemSample,
    pid: i32,
    ticks: u64,
    now_ms: u64,
    later_sys: SystemSample,
    later_ticks: u64,
    later_system_total: u64,
    later_ms: u64,
)
    requires
        next_sample(samples, sys, pid, ticks, now_ms) == (CpuSample { ticks, at_ms: now_ms }),
        now_ms <= later_ms < now_ms + MIN_INTERVAL_MS,
    ensures
        usage(
            samples.insert(pid, next_sample(samples, sys, pid, ticks, now_ms)),
            later_sys,
            pid,
            later_ticks,
            later_system_total,
            later_ms,
        ) == 0,
{
}

} // verus!
