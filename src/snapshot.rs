use std::collections::HashSet;
use vstd::prelude::*;
use vstd::std_specs::hash::group_hash_axioms;
use crate::cpu::{CpuHistory, next_sample, next_system, usage};
use crate::types::{ProcessInfo, RawProcess, SystemCpuTimes};

verus! {

broadcast use group_hash_axioms;

/// Bytes in one resident page.
pub const PAGE_SIZE: u64 = 4096;

/// The readable records of an enumeration, each pid once, at its first reading.
pub open spec fn kept(records: Seq<Option<RawProcess>>) -> Seq<RawProcess>
    decreases records.len(),
{
    if records.len() == 0 {
        Seq::empty()
    } else {
        let prev = kept(records.drop_last());
        match records.last() {
            Some(r) => if pids(prev).contains(r.pid) {
                prev
            } else {
                prev.push(r)
            },
            None => prev,
        }
    }
}

/// The pids of `procs`, in order.
pub open spec fn pids(procs: Seq<RawProcess>) -> Seq<i32> {
    procs.map_values(|r: RawProcess| r.pid)
}

/// Cumulative CPU ticks of a record, saturated at the largest `u64`.
pub open spec fn total_ticks(r: RawProcess) -> u64 {
    if r.utime + r.stime > u64::MAX {
        u64::MAX
    } else {
        (r.utime + r.stime) as u64
    }
}

/// Resident memory in bytes, zero when it could not be read, saturated at the
/// largest `u64`.
pub open spec fn memory_of(resident_pages: Option<u64>) -> u64 {
    match resident_pages {
        Some(p) => if p * PAGE_SIZE > u64::MAX {
            u64::MAX
        } else {
            (p * PAGE_SIZE) as u64
        },
        None => 0,
    }
}

/// The entry of `out` describes `r`, with the CPU use `cpu`.
pub open spec fn describes(out: ProcessInfo, r: RawProcess, cpu: int) -> bool {
    &&& out.pid == r.pid
    &&& out.name@ == r.name@
    &&& out.state == r.state
    &&& out.ppid == r.ppid
    &&& out.memory_bytes == memory_of(r.resident_pages)
    &&& out.cpu_hundredths == cpu
}

fn memory_bytes(resident_pages: Option<u64>) -> (r: u64)
    ensures
        r == memory_of(resident_pages),
{
    match resident_pages {
        Some(p) => if p > u64::MAX / PAGE_SIZE {
            u64::MAX
        } else {
            p * PAGE_SIZE
        },
        None => 0,
    }
}

proof fn lemma_kept_step(records: Seq<Option<RawProcess>>, i: int)
    requires
        0 <= i < records.len(),
    ensures
        kept(records.subrange(0, i + 1)) == match records[i] {
            Some(r) => if pids(kept(records.subrange(0, i))).contains(r.pid) {
                kept(records.subrange(0, i))
            } else {
                kept(records.subrange(0, i)).push(r)
            },
            None => kept(records.subrange(0, i)),
        },
{
    assert(records.subrange(0, i + 1).drop_last() =~= records.subrange(0, i));
}

/// A record that could not be read leaves the enumeration's result as if the
/// process had not been listed at all: the other records are all kept, and no
/// failure arises.
pub proof fn lemma_unreadable_record_is_skipped(records: Seq<Option<RawProcess>>, i: int)
    requires
        0 <= i < records.len(),
        records[i] is None,
    ensures
        kept(records) == kept(records.remove(i)),
    decreases records.len(),
{
    if i == records.len() - 1 {
        assert(records.remove(i) =~= records.drop_last());
    } else {
        assert(records.remove(i).drop_last() =~= records.drop_last().remove(i));
        assert(records.remove(i).last() == records.last());
        lemma_unreadable_record_is_skipped(records.drop_last(), i);
    }
}

/// Assembles one enumeration. `records` holds, for each process the kernel
/// listed, its record, or `None` when the record could not be read (the process
/// likely exited): those are skipped, as are later readings of a pid already
/// taken. Each kept record is observed by `history` with `system`'s total at
/// `now_ms`; then the history forgets every pid this enumeration did not see and
/// advances its system sample.
pub fn collect_snapshot(
    history: &mut CpuHistory,
    records: Vec<Option<RawProcess>>,
    system: SystemCpuTimes,
    now_ms: u64,
) -> (r: Vec<ProcessInfo>)
    ensures
        r.len() == kept(records@).len(),
        forall|i: int|
            0 <= i < r.len() ==> #[trigger] describes(
                r[i],
                kept(records@)[i],
                usage(
                    old(history).samples(),
                    old(history).system(),
                    kept(records@)[i].pid,
                    total_ticks(kept(records@)[i]),
                    system.total,
                    now_ms,
                ),
            ),
        forall|i: int, j: int| 0 <= i < j < r.len() ==> r[i].pid != r[j].pid,
        forall|i: int| 0 <= i < r.len() ==> #[trigger] r[i].cpu_hundredths <= 10000,
        final(history).samples().dom() == pids(kept(records@)).to_set(),
        forall|i: int|
            0 <= i < r.len() ==> #[trigger] final(history).samples()[kept(records@)[i].pid]
                == next_sample(
                old(history).samples(),
                old(history).system(),
                kept(records@)[i].pid,
                total_ticks(kept(records@)[i]),
                now_ms,
            ),
        final(history).system() == next_system(old(history).system(), system, now_ms),
{
    let ghost old_samples = history.samples();
    let ghost sys = history.system();
    let ghost recs = records@;
    let mut out: Vec<ProcessInfo> = Vec::new();
    let mut live: Vec<i32> = Vec::new();
    let mut seen: HashSet<i32> = HashSet::new();
    let mut i: usize = 0;
    let n = records.len();
    while i < n
        invariant
            n == recs.len(),
            i <= n,
            records@ == recs,
            history.system() == sys,
            out.len() == kept(recs.subrange(0, i as int)).len(),
            live@ == pids(kept(recs.subrange(0, i as int))),
            seen@ == live@.to_set(),
            forall|a: int, b: int| 0 <= a < b < live.len() ==> live@[a] != live@[b],
            forall|k: int|
                0 <= k < out.len() ==> #[trigger] describes(
                    out[k],
                    kept(recs.subrange(0, i as int))[k],
                    usage(
                        old_samples,
                        sys,
                        kept(recs.subrange(0, i as int))[k].pid,
                        total_ticks(kept(recs.subrange(0, i as int))[k]),
                        system.total,
                        now_ms,
                    ),
                ),
            forall|k: int| 0 <= k < out.len() ==> #[trigger] out[k].cpu_hundredths <= 10000,
            forall|k: int|
                0 <= k < live.len() ==> #[trigger] history.samples()[live@[k]] == next_sample(
                    old_samples,
                    sys,
                    live@[k],
                    total_ticks(kept(recs.subrange(0, i as int))[k]),
                    now_ms,
                ),
            forall|p: i32|
                !live@.contains(p) ==> (#[trigger] history.samples().contains_key(p)
                    == old_samples.contains_key(p)),
            forall|p: i32|
                !live@.contains(p) && old_samples.contains_key(p) ==> #[trigger] history.samples()[p]
                    == old_samples[p],
            forall|p: i32| live@.contains(p) ==> #[trigger] history.samples().contains_key(p),
        decreases n - i,
    {
        proof {
            lemma_kept_step(recs, i as int);
        }
        let ghost prev_kept = kept(recs.subrange(0, i as int));
        match &records[i] {
            Some(raw) => {
                if !seen.contains(&raw.pid) {
                    let ticks = raw.utime.saturating_add(raw.stime);
                    let ghost h0 = history.samples();
                    let cpu = history.observe(raw.pid, ticks, system.total, now_ms);
                    proof {
                        assert(!live@.contains(raw.pid));
                        assert(h0.contains_key(raw.pid) == old_samples.contains_key(raw.pid));
                        if old_samples.contains_key(raw.pid) {
                            assert(h0[raw.pid] == old_samples[raw.pid]);
                        }
                        assert(next_sample(h0, sys, raw.pid, ticks, now_ms) == next_sample(
                            old_samples, sys, raw.pid, ticks, now_ms));
                        assert(usage(h0, sys, raw.pid, ticks, system.total, now_ms) == usage(
                            old_samples, sys, raw.pid, ticks, system.total, now_ms));
                    }
                    let ghost raw_spec = *raw;
                    let pid = raw.pid;
                    out.push(ProcessInfo {
                        pid: raw.pid,
                        name: raw.name.clone(),
                        cpu_hundredths: cpu,
                        memory_bytes: memory_bytes(raw.resident_pages),
                        state: raw.state,
                        ppid: raw.ppid,
                    });
                    live.push(pid);
                    seen.insert(pid);
                    proof {
                        let nk = kept(recs.subrange(0, i as int + 1));
                        assert(nk == prev_kept.push(raw_spec));
                        assert(pids(nk) =~= pids(prev_kept).push(pid));
                        assert(seen@ =~= live@.to_set()) by {
                            assert forall|p: i32| seen@.contains(p) <==> live@.to_set().contains(p) by {
                                if p != pid {
                                    assert(live@.contains(p) <==> live@.drop_last().contains(p)) by {
                                        if live@.contains(p) {
                                            let k = choose|k: int| 0 <= k < live@.len() && live@[k] == p;
                                            assert(live@.drop_last()[k] == p);
                                        }
                                        if live@.drop_last().contains(p) {
                                            let k = choose|k: int| 0 <= k < live@.drop_last().len() && live@.drop_last()[k] == p;
                                            assert(live@[k] == p);
                                        }
                                    }
                                    assert(live@.drop_last() == pids(prev_kept));
                                } else {
                                    assert(live@[live@.len() - 1] == p);
                                }
                            }
                        }
                        assert forall|k: int|
                            0 <= k < out.len() implies #[trigger] describes(
                                out[k],
                                nk[k],
                                usage(old_samples, sys, nk[k].pid, total_ticks(nk[k]), system.total, now_ms),
                            ) by {
                            if k < out.len() - 1 {
                                assert(nk[k] == prev_kept[k]);
                            }
                        }
                        assert forall|k: int| 0 <= k < live.len() implies #[trigger] history.samples()[live@[k]] == next_sample(
                                old_samples, sys, live@[k], total_ticks(nk[k]), now_ms) by {
                            if k < live.len() - 1 {
                                assert(nk[k] == prev_kept[k]);
                                assert(live@[k] != pid);
                            }
                        }
                        assert forall|p: i32| !live@.contains(p) implies (#[trigger] history.samples().contains_key(p)
                            == old_samples.contains_key(p) && (old_samples.contains_key(p)
                            ==> history.samples()[p] == old_samples[p])) by {
                            assert(live@[live@.len() - 1] == pid);
                            assert(p != pid);
                            if pids(prev_kept).contains(p) {
                                let k = choose|k: int| 0 <= k < pids(prev_kept).len() && pids(prev_kept)[k] == p;
                                assert(live@[k] == p);
                            }
                            assert(!pids(prev_kept).contains(p));
                            assert(h0.contains_key(p) == old_samples.contains_key(p));
                            if old_samples.contains_key(p) {
                                assert(h0[p] == old_samples[p]);
                            }
                            assert(history.samples().contains_key(p) == h0.contains_key(p));
                            if old_samples.contains_key(p) {
                                assert(history.samples()[p] == old_samples[p]);
                            }
                        }
                        assert forall|p: i32|
                            !live@.contains(p) && old_samples.contains_key(p) implies #[trigger] history.samples()[p]
                                == old_samples[p] by {
                            assert(history.samples().contains_key(p) == old_samples.contains_key(p));
                        }
                        assert forall|p: i32| live@.contains(p) implies #[trigger] history.samples().contains_key(p) by {
                            if p != pid {
                                let k = choose|k: int| 0 <= k < live@.len() && live@[k] == p;
                                assert(pids(prev_kept)[k] == p);
                            }
                        }
                        assert forall|a: int, b: int| 0 <= a < b < live.len() implies live@[a] != live@[b] by {
                            if b == live.len() - 1 {
                                assert(pids(prev_kept)[a] == live@[a]);
                                assert(pids(prev_kept).contains(live@[a]));
                            }
                        }
                    }
                } else {
                    proof {
                        assert(live@.to_set().contains(raw.pid));
                        assert(pids(prev_kept).contains(raw.pid));
                    }
                }
            },
            None => {},
        }
        i = i + 1;
    }
    proof {
        assert(recs.subrange(0, n as int) =~= recs);
    }
    let ghost mid = history.samples();
    history.evict_absent(&live);
    history.advance_system(system, now_ms);
    proof {
        let ks = kept(recs);
        assert forall|p: i32| history.samples().dom().contains(p) <==> pids(ks).to_set().contains(p) by {
            if pids(ks).to_set().contains(p) {
                assert(live@.contains(p));
            }
        }
        assert(history.samples().dom() =~= pids(ks).to_set());
        assert forall|k: int| 0 <= k < out.len() implies #[trigger] history.samples()[ks[k].pid]
            == next_sample(old_samples, sys, ks[k].pid, total_ticks(ks[k]), now_ms) by {
            assert(live@[k] == ks[k].pid);
            assert(live@.contains(ks[k].pid));
            assert(live@.to_set().contains(ks[k].pid));
        }
        assert forall|a: int, b: int| 0 <= a < b < out.len() implies out[a].pid != out[b].pid by {
            assert(describes(out[a], ks[a], usage(old_samples, sys, ks[a].pid, total_ticks(ks[a]), system.total, now_ms)));
            assert(describes(out[b], ks[b], usage(old_samples, sys, ks[b].pid, total_ticks(ks[b]), system.total, now_ms)));
            assert(live@[a] == ks[a].pid);
            assert(live@[b] == ks[b].pid);
        }
    }
    out
}

} // verus!
