use procctl::{collect_snapshot, parse_system_cpu_times, CpuHistory, RawProcess, SystemCpuTimes};

fn times(total: u64) -> SystemCpuTimes {
    SystemCpuTimes { total, idle: 0 }
}

fn raw(pid: i32, ticks: u64) -> RawProcess {
    RawProcess {
        pid,
        name: format!("p{}", pid),
        state: 'S',
        ppid: 1,
        utime: ticks,
        stime: 0,
        resident_pages: Some(1),
    }
}

#[test]
fn first_observation_reports_zero() {
    let mut h = CpuHistory::new(times(1000), 0);
    assert_eq!(h.observe(7, 500, 5000, 5000), 0);
    let s = h.sample(7).unwrap();
    assert_eq!(s.ticks, 500);
    assert_eq!(s.at_ms, 5000);
}

#[test]
fn rate_against_system_ticks() {
    let mut h = CpuHistory::new(times(1000), 0);
    assert_eq!(h.observe(1, 100, 1000, 0), 0);
    // 50 process ticks over 200 system ticks: 25%.
    assert_eq!(h.observe(1, 150, 1200, 2000), 2500);
    assert_eq!(h.sample(1).unwrap().at_ms, 2000);
}

#[test]
fn rate_falls_back_to_wall_clock() {
    let mut h = CpuHistory::new(times(1000), 0);
    h.observe(1, 100, 1000, 0);
    // No system ticks counted: 50 ticks = 0.5 s of CPU over 2 s: 25%.
    assert_eq!(h.observe(1, 150, 1000, 2000), 2500);
}

#[test]
fn rate_is_capped_at_one_hundred_percent() {
    let mut h = CpuHistory::new(times(1000), 0);
    h.observe(1, 0, 1000, 0);
    assert_eq!(h.observe(1, 500, 1200, 1500), 10000);
}

#[test]
fn counter_reset_reports_zero() {
    let mut h = CpuHistory::new(times(1000), 0);
    h.observe(1, 900, 1000, 0);
    assert_eq!(h.observe(1, 100, 2000, 1500), 0);
}

#[test]
fn quick_reobservation_reports_zero_and_keeps_sample() {
    let mut h = CpuHistory::new(times(0), 0);
    h.observe(3, 10, 0, 2000);
    assert_eq!(h.observe(3, 500, 100, 2500), 0);
    let s = h.sample(3).unwrap();
    assert_eq!(s.ticks, 10);
    assert_eq!(s.at_ms, 2000);
    // The retained sample accumulates: a second later it is measured.
    assert_eq!(h.observe(3, 60, 500, 3000), 1000);
}

#[test]
fn recent_system_sample_reports_zero() {
    let mut h = CpuHistory::new(times(0), 0);
    h.observe(3, 10, 0, 0);
    h.advance_system(times(100), 1500);
    assert_eq!(h.system_sample().at_ms, 1500);
    assert_eq!(h.observe(3, 100, 200, 2000), 0);
}

#[test]
fn system_sample_advances_only_after_an_interval() {
    let mut h = CpuHistory::new(times(10), 1000);
    h.advance_system(times(20), 1500);
    assert_eq!(h.system_sample().total, 10);
    h.advance_system(SystemCpuTimes { total: 30, idle: 5 }, 2000);
    let s = h.system_sample();
    assert_eq!((s.total, s.idle, s.at_ms), (30, 5, 2000));
}

#[test]
fn snapshot_rates_stay_within_bounds() {
    let mut h = CpuHistory::new(times(0), 0);
    collect_snapshot(&mut h, vec![Some(raw(1, 0)), Some(raw(2, 0))], times(0), 0);
    let out = collect_snapshot(
        &mut h,
        vec![Some(raw(1, 400)), Some(raw(2, 50))],
        times(200),
        1000,
    );
    assert_eq!(out.len(), 2);
    assert_eq!(out[0].cpu_hundredths, 10000);
    assert_eq!(out[1].cpu_hundredths, 2500);
    for p in &out {
        assert!(p.cpu_hundredths <= 10000);
    }
}

#[test]
fn snapshots_under_a_second_apart_report_zero() {
    let mut h = CpuHistory::new(times(0), 0);
    collect_snapshot(&mut h, vec![Some(raw(1, 0))], times(0), 5000);
    let out = collect_snapshot(&mut h, vec![Some(raw(1, 90))], times(100), 5900);
    assert_eq!(out[0].cpu_hundredths, 0);
}

#[test]
fn absent_pid_is_evicted() {
    let mut h = CpuHistory::new(times(0), 0);
    collect_snapshot(
        &mut h,
        vec![Some(raw(1, 0)), Some(raw(2, 0)), Some(raw(3, 0))],
        times(0),
        0,
    );
    assert_eq!(h.tracked_count(), 3);
    collect_snapshot(&mut h, vec![Some(raw(1, 0)), Some(raw(3, 0))], times(0), 100);
    assert!(h.sample(2).is_none());
    assert!(h.sample(1).is_some());
    assert!(h.sample(3).is_some());
    assert_eq!(h.tracked_count(), 2);
}

#[test]
fn unreadable_record_is_skipped() {
    let mut h = CpuHistory::new(times(0), 0);
    let out = collect_snapshot(&mut h, vec![Some(raw(1, 0)), None, Some(raw(3, 0))], times(0), 0);
    assert_eq!(out.len(), 2);
    assert_eq!(out[0].pid, 1);
    assert_eq!(out[1].pid, 3);
    assert_eq!(out[1].name, "p3");
}

#[test]
fn repeated_pid_is_taken_once() {
    let mut h = CpuHistory::new(times(0), 0);
    let out = collect_snapshot(&mut h, vec![Some(raw(4, 0)), Some(raw(4, 9))], times(0), 0);
    assert_eq!(out.len(), 1);
    assert_eq!(h.sample(4).unwrap().ticks, 0);
}

#[test]
fn memory_defaults_to_zero_when_unreadable() {
    let mut h = CpuHistory::new(times(0), 0);
    let mut a = raw(1, 0);
    a.resident_pages = Some(10);
    let mut b = raw(2, 0);
    b.resident_pages = None;
    let out = collect_snapshot(&mut h, vec![Some(a), Some(b)], times(0), 0);
    assert_eq!(out[0].memory_bytes, 40960);
    assert_eq!(out[1].memory_bytes, 0);
}

#[test]
fn snapshot_keeps_record_fields() {
    let mut h = CpuHistory::new(times(0), 0);
    let r = RawProcess {
        pid: 42,
        name: "bash".to_string(),
        state: 'R',
        ppid: 7,
        utime: 3,
        stime: 4,
        resident_pages: Some(2),
    };
    let out = collect_snapshot(&mut h, vec![Some(r)], times(0), 0);
    assert_eq!(out[0].pid, 42);
    assert_eq!(out[0].name, "bash");
    assert_eq!(out[0].state, 'R');
    assert_eq!(out[0].ppid, 7);
    assert_eq!(h.sample(42).unwrap().ticks, 7);
}

#[test]
fn parses_aggregate_cpu_line() {
    let text = "cpu  10 20 30 40 50 60 70 80 90 100\ncpu0 1 2 3 4\n";
    let t = parse_system_cpu_times(text.as_bytes());
    assert_eq!(t.total, 360);
    assert_eq!(t.idle, 40);
}

#[test]
fn parse_skips_fields_that_are_not_numbers() {
    let t = parse_system_cpu_times("cpu 1 x 2 3 4".as_bytes());
    assert_eq!(t.total, 10);
    assert_eq!(t.idle, 4);
}

#[test]
fn parse_with_few_counters_gives_zeros() {
    let t = parse_system_cpu_times("cpu 1 2 3\n".as_bytes());
    assert_eq!((t.total, t.idle), (0, 0));
}

#[test]
fn parse_without_cpu_line_gives_zeros() {
    let t = parse_system_cpu_times("intr 1 2 3 4 5\ncpu 1 2 3 4\n".as_bytes());
    assert_eq!((t.total, t.idle), (0, 0));
    let e = parse_system_cpu_times("".as_bytes());
    assert_eq!((e.total, e.idle), (0, 0));
}

#[test]
fn parse_total_saturates() {
    let text = "cpu 18446744073709551615 1 0 7";
    let t = parse_system_cpu_times(text.as_bytes());
    assert_eq!(t.total, u64::MAX);
    assert_eq!(t.idle, 7);
}
