use procctl::{filter_processes, ProcessInfo, SortColumn, StatusBar};
use std::cmp::Ordering;

fn proc(pid: i32, name: &str, cpu: u32, mem: u64, state: char) -> ProcessInfo {
    ProcessInfo {
        pid,
        name: name.to_string(),
        cpu_hundredths: cpu,
        memory_bytes: mem,
        state,
        ppid: 1,
    }
}

#[test]
fn sort_column_defaults_to_pid() {
    assert_eq!(SortColumn::default(), SortColumn::PID);
}

#[test]
fn compare_by_each_column() {
    let a = proc(5, "alpha", 300, 10, 'R');
    let b = proc(9, "beta", 100, 20, 'S');
    assert_eq!(SortColumn::PID.compare(&a, &b, false), Ordering::Less);
    assert_eq!(SortColumn::PID.compare(&a, &b, true), Ordering::Greater);
    assert_eq!(SortColumn::Name.compare(&a, &b, false), Ordering::Less);
    assert_eq!(SortColumn::CPU.compare(&a, &b, false), Ordering::Greater);
    assert_eq!(SortColumn::Memory.compare(&a, &b, false), Ordering::Less);
    assert_eq!(SortColumn::State.compare(&a, &b, false), Ordering::Less);
    assert_eq!(SortColumn::PPID.compare(&a, &b, false), Ordering::Equal);
}

#[test]
fn header_click_toggles_or_switches() {
    assert_eq!(SortColumn::CPU.clicked(SortColumn::CPU, false), (SortColumn::CPU, true));
    assert_eq!(SortColumn::Name.clicked(SortColumn::CPU, true), (SortColumn::Name, false));
}

#[test]
fn filter_matches_name_ignoring_case() {
    let ps = vec![proc(1, "Firefox", 0, 0, 'S'), proc(2, "bash", 0, 0, 'S')];
    let out = filter_processes(&ps, "FIRE");
    assert_eq!(out.len(), 1);
    assert_eq!(out[0].name, "Firefox");
}

#[test]
fn filter_matches_pid_digits() {
    let ps = vec![proc(1234, "a", 0, 0, 'S'), proc(99, "b", 0, 0, 'S')];
    let out = filter_processes(&ps, "23");
    assert_eq!(out.len(), 1);
    assert_eq!(out[0].pid, 1234);
}

#[test]
fn empty_search_keeps_everything() {
    let ps = vec![proc(1, "a", 0, 0, 'S'), proc(2, "b", 0, 0, 'S')];
    assert_eq!(filter_processes(&ps, "").len(), 2);
}

#[test]
fn status_totals() {
    let ps = vec![proc(1, "a", 0, 100, 'R'), proc(2, "b", 0, 50, 'S'), proc(3, "c", 0, 1, 'R')];
    assert_eq!(StatusBar::total_memory(&ps), 151);
    assert_eq!(StatusBar::running_count(&ps), 2);
    let big = vec![proc(1, "a", 0, u64::MAX, 'S'), proc(2, "b", 0, 1, 'S')];
    assert_eq!(StatusBar::total_memory(&big), u64::MAX);
}
