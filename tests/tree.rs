use procctl::{descendants, kill_tree, ProcError, ProcessInfo};

fn proc(pid: i32, ppid: i32) -> ProcessInfo {
    ProcessInfo {
        pid,
        name: format!("p{}", pid),
        cpu_hundredths: 0,
        memory_bytes: 0,
        state: 'S',
        ppid,
    }
}

fn sorted(mut v: Vec<i32>) -> Vec<i32> {
    v.sort();
    v
}

#[test]
fn descendants_are_transitive() {
    let snap = vec![proc(1, 0), proc(2, 1), proc(3, 2), proc(4, 1), proc(5, 0), proc(6, 5)];
    let ds = descendants(&snap, 1).unwrap();
    assert_eq!(sorted(ds), vec![2, 3, 4]);
    assert_eq!(descendants(&snap, 3).unwrap(), Vec::<i32>::new());
}

#[test]
fn descendants_of_absent_root_is_not_found() {
    let snap = vec![proc(1, 0)];
    assert!(matches!(descendants(&snap, 9), Err(ProcError::NotFound(9))));
}

#[test]
fn descendants_end_on_parent_cycle() {
    let snap = vec![proc(1, 3), proc(2, 1), proc(3, 2), proc(4, 4)];
    let ds = descendants(&snap, 1).unwrap();
    assert_eq!(sorted(ds), vec![2, 3]);
    let own = descendants(&snap, 4).unwrap();
    assert!(own.is_empty());
}

#[test]
fn tree_kill_members_are_root_and_descendants() {
    let snap = vec![proc(1, 0), proc(10, 1), proc(11, 10), proc(12, 1), proc(20, 0)];
    let t = kill_tree(10, &snap).unwrap();
    assert_eq!(t.next_target(), Some(11));
    let mut t = t;
    t.record(Ok(()));
    assert_eq!(t.next_target(), Some(10));
    t.record(Ok(()));
    assert_eq!(t.next_target(), None);
    assert!(t.finish().is_ok());
}

#[test]
fn tree_kill_children_come_before_parents() {
    let snap = vec![proc(1, 0), proc(2, 1), proc(3, 2)];
    let mut t = kill_tree(1, &snap).unwrap();
    let mut order = Vec::new();
    while let Some(p) = t.next_target() {
        order.push(p);
        t.record(Ok(()));
    }
    assert_eq!(order, vec![3, 2, 1]);
}

#[test]
fn tree_kill_reports_exactly_the_failed_member() {
    // Root 1 with descendants A = 2, B = 3, C = 4; B refuses.
    let snap = vec![proc(1, 0), proc(2, 1), proc(3, 1), proc(4, 1)];
    let mut t = kill_tree(1, &snap).unwrap();
    let mut attempted = Vec::new();
    while let Some(p) = t.next_target() {
        attempted.push(p);
        if p == 3 {
            t.record(Err(ProcError::PermissionDenied(3)));
        } else {
            t.record(Ok(()));
        }
    }
    assert_eq!(sorted(attempted), vec![1, 2, 3, 4]);
    match t.finish() {
        Err(ProcError::TreeKillFailed(fs)) => {
            assert_eq!(fs.len(), 1);
            assert_eq!(fs[0].0, 3);
            assert!(matches!(fs[0].1, ProcError::PermissionDenied(3)));
        }
        other => panic!("unexpected {:?}", other),
    }
}

#[test]
fn tree_kill_of_absent_root_is_not_found() {
    let snap = vec![proc(1, 0)];
    assert!(matches!(kill_tree(5, &snap), Err(ProcError::NotFound(5))));
}
