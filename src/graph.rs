use vstd::prelude::*;
use crate::types::{ProcError, ProcessInfo};

verus! {

/// Some entry of `snapshot` is process `child` with parent `parent`.
pub open spec fn parent_link(snapshot: Seq<ProcessInfo>, child: i32, parent: i32) -> bool {
    exists|i: int| 0 <= i < snapshot.len() && snapshot[i].pid == child && snapshot[i].ppid == parent
}

/// Each pid of `path` after the first is a child of the one before it.
pub open spec fn is_lineage(snapshot: Seq<ProcessInfo>, path: Seq<i32>) -> bool {
    forall|k: int| 0 <= k < path.len() - 1 ==> parent_link(snapshot, #[trigger] path[k + 1], path[k])
}

/// `d` is reached from `root` by one or more parent-to-child links of `snapshot`.
pub open spec fn descends_from(snapshot: Seq<ProcessInfo>, d: i32, root: i32) -> bool {
    exists|path: Seq<i32>|
        path.len() >= 2 && path[0] == root && path.last() == d && #[trigger] is_lineage(snapshot, path)
}

/// Some entry of `snapshot` has pid `pid`.
pub open spec fn listed(snapshot: Seq<ProcessInfo>, pid: i32) -> bool {
    exists|i: int| 0 <= i < snapshot.len() && snapshot[i].pid == pid
}

/// The number of entries of `marks` that are not set.
pub open spec fn unmarked(marks: Seq<bool>) -> nat
    decreases marks.len(),
{
    if marks.len() == 0 {
        0
    } else {
        unmarked(marks.drop_last()) + if marks.last() {
            0nat
        } else {
            1nat
        }
    }
}

proof fn lemma_mark_one(marks: Seq<bool>, j: int)
    requires
        0 <= j < marks.len(),
        !marks[j],
    ensures
        unmarked(marks.update(j, true)) + 1 == unmarked(marks),
    decreases marks.len(),
{
    let m2 = marks.update(j, true);
    if j == marks.len() - 1 {
        assert(m2.drop_last() =~= marks.drop_last());
    } else {
        assert(m2.drop_last() =~= marks.drop_last().update(j, true));
        lemma_mark_one(marks.drop_last(), j);
    }
}

fn contains_pid(v: &Vec<i32>, x: i32) -> (r: bool)
    ensures
        r == v@.contains(x),
{
    let mut i: usize = 0;
    while i < v.len()
        invariant
            i <= v.len(),
            forall|k: int| 0 <= k < i ==> v@[k] != x,
        decreases v.len() - i,
    {
        if v[i] == x {
            return true;
        }
        i = i + 1;
    }
    false
}

proof fn lemma_lineage_prefix(snapshot: Seq<ProcessInfo>, path: Seq<i32>, n: int)
    requires
        is_lineage(snapshot, path),
        1 <= n <= path.len(),
    ensures
        is_lineage(snapshot, path.subrange(0, n)),
{
    let p = path.subrange(0, n);
    assert forall|k: int| 0 <= k < p.len() - 1 implies parent_link(snapshot, #[trigger] p[k + 1], p[k]) by {
        assert(p[k + 1] == path[k + 1]);
    }
}

/// The pids that descend from `root` in `snapshot` (its children, their
/// children, and so on), each once, without `root` itself; `NotFound(root)` when
/// `root` is not in the snapshot. Each link is followed at most once, so a
/// parent cycle ends the walk.
pub fn descendants(snapshot: &Vec<ProcessInfo>, root: i32) -> (r: Result<Vec<i32>, ProcError>)
    ensures
        r is Err <==> !listed(snapshot@, root),
        r matches Err(e) ==> e == ProcError::NotFound(root),
        r matches Ok(ds) ==> {
            &&& forall|d: i32| ds@.contains(d) <==> (d != root && descends_from(snapshot@, d, root))
            &&& ds@.no_duplicates()
            &&& ds.len() <= snapshot.len()
        },
{
    let n = snapshot.len();
    let mut found = false;
    let mut i: usize = 0;
    while i < n
        invariant
            n == snapshot.len(),
            i <= n,
            !found ==> forall|k: int| 0 <= k < i ==> snapshot@[k].pid != root,
            found ==> listed(snapshot@, root),
        decreases n - i,
    {
        if snapshot[i].pid == root {
            found = true;
        }
        i = i + 1;
    }
    if !found {
        return Err(ProcError::NotFound(root));
    }
    let ghost snap = snapshot@;
    let mut marks: Vec<bool> = Vec::new();
    let mut i: usize = 0;
    while i < n
        invariant
            i <= n,
            marks.len() == i,
            forall|k: int| 0 <= k < i ==> !marks@[k],
        decreases n - i,
    {
        marks.push(false);
        i = i + 1;
    }
    // `queue[0]` is the root; every later entry is a descendant, taken once.
    let mut queue: Vec<i32> = Vec::new();
    queue.push(root);
    let mut h: usize = 0;
    while h < queue.len()
        invariant
            n == snapshot.len(),
            snap == snapshot@,
            marks.len() == n,
            1 <= queue.len(),
            h <= queue.len(),
            queue@[0] == root,
            queue@.no_duplicates(),
            forall|k: int| 1 <= k < queue.len() ==> descends_from(snap, #[trigger] queue@[k], root),
            forall|j: int| 0 <= j < n && #[trigger] marks@[j] ==> queue@.contains(snap[j].pid),
            forall|k: int, j: int|
                #![trigger queue@[k], marks@[j]]
                0 <= k < h && 0 <= j < n && snap[j].ppid == queue@[k] ==> marks@[j],
        decreases unmarked(marks@), queue.len() - h,
    {
        let parent = queue[h];
        let ghost marks0 = marks@;
        let ghost queue0 = queue@;
        let mut j: usize = 0;
        while j < n
            invariant
                n == snapshot.len(),
                snap == snapshot@,
                marks.len() == n,
                marks0.len() == n,
                1 <= queue.len(),
                h < queue.len(),
                parent == queue@[h as int],
                queue@[0] == root,
                queue@.no_duplicates(),
                queue0.len() <= queue.len(),
                forall|k: int| 0 <= k < queue0.len() ==> queue@[k] == queue0[k],
                forall|k: int| 1 <= k < queue.len() ==> descends_from(snap, #[trigger] queue@[k], root),
                forall|j2: int| 0 <= j2 < n && #[trigger] marks@[j2] ==> queue@.contains(snap[j2].pid),
                forall|k: int, j2: int|
                    #![trigger queue@[k], marks@[j2]]
                    0 <= k < h && 0 <= j2 < n && snap[j2].ppid == queue@[k] ==> marks@[j2],
                forall|j2: int| 0 <= j2 < j && snap[j2].ppid == parent ==> #[trigger] marks@[j2],
                forall|j2: int| 0 <= j2 < n && marks0[j2] ==> #[trigger] marks@[j2],
                unmarked(marks@) <= unmarked(marks0),
                unmarked(marks@) == unmarked(marks0) ==> queue@ == queue0,
                j <= n,
            decreases n - j,
        {
            if !marks[j] && snapshot[j].ppid == parent {
                let child = snapshot[j].pid;
                proof {
                    lemma_mark_one(marks@, j as int);
                }
                let ghost m_before = marks@;
                marks.set(j, true);
                if !contains_pid(&queue, child) {
                    let ghost q1 = queue@;
                    proof {
                        let hq = queue@[h as int];
                        if h == 0 {
                            let path = seq![root, child];
                            assert(parent_link(snap, path[1], path[0]));
                            assert(is_lineage(snap, path));
                            assert(path.last() == child);
                            assert(descends_from(snap, child, root));
                        } else {
                            let w = choose|path: Seq<i32>|
                                path.len() >= 2 && path[0] == root && path.last() == hq
                                    && #[trigger] is_lineage(snap, path);
                            let path = w.push(child);
                            assert(parent_link(snap, child, hq));
                            assert forall|k: int| 0 <= k < path.len() - 1 implies parent_link(
                                snap,
                                #[trigger] path[k + 1],
                                path[k],
                            ) by {
                                if k < w.len() - 1 {
                                    assert(path[k + 1] == w[k + 1]);
                                }
                            }
                            assert(path.last() == child);
                            assert(path[0] == root);
                            assert(is_lineage(snap, path));
                            assert(descends_from(snap, child, root));
                        }
                    }
                    queue.push(child);
                    proof {
                        assert forall|k: int| 1 <= k < queue.len() implies descends_from(
                            snap,
                            #[trigger] queue@[k],
                            root,
                        ) by {
                            if k < q1.len() {
                                assert(queue@[k] == q1[k]);
                            }
                        }
                        assert forall|j2: int| 0 <= j2 < n && #[trigger] marks@[j2] implies queue@.contains(
                            snap[j2].pid,
                        ) by {
                            if j2 != j {
                                assert(marks@[j2] == m_before[j2]);
                                let t = choose|t: int| 0 <= t < q1.len() && q1[t] == snap[j2].pid;
                                assert(queue@[t] == snap[j2].pid);
                            } else {
                                assert(queue@[queue.len() - 1] == child);
                            }
                        }
                    }
                } else {
                    proof {
                        assert forall|j2: int| 0 <= j2 < n && #[trigger] marks@[j2] implies queue@.contains(
                            snap[j2].pid,
                        ) by {
                            if j2 != j {
                                assert(marks@[j2] == m_before[j2]);
                            }
                        }
                    }
                }
            }
            j = j + 1;
        }
        h = h + 1;
    }
    proof {
        // Every descendant is in the queue: follow a lineage from the root.
        assert forall|d: i32| d != root && descends_from(snap, d, root) implies queue@.contains(d) by {
            let path = choose|path: Seq<i32>|
                path.len() >= 2 && path[0] == root && path.last() == d && #[trigger] is_lineage(snap, path);
            lemma_lineage_in_queue(snap, path, queue@, marks@);
        }
    }
    let mut out: Vec<i32> = Vec::new();
    let mut k: usize = 1;
    while k < queue.len()
        invariant
            1 <= k <= queue.len(),
            out@ == queue@.subrange(1, k as int),
        decreases queue.len() - k,
    {
        out.push(queue[k]);
        k = k + 1;
    }
    proof {
        assert(out@ =~= queue@.subrange(1, queue.len() as int));
        assert forall|d: i32| out@.contains(d) <==> (d != root && descends_from(snap, d, root)) by {
            if out@.contains(d) {
                let t = choose|t: int| 0 <= t < out.len() && out@[t] == d;
                assert(queue@[t + 1] == d);
                assert(queue@[0] == root);
            }
            if d != root && descends_from(snap, d, root) {
                let t = choose|t: int| 0 <= t < queue.len() && queue@[t] == d;
                assert(t != 0);
                assert(out@[t - 1] == d);
            }
        }
        assert forall|a: int, b: int| 0 <= a < b < out.len() implies out@[a] != out@[b] by {
            assert(out@[a] == queue@[a + 1]);
            assert(out@[b] == queue@[b + 1]);
        }
        let all = snap.map_values(|e: ProcessInfo| e.pid);
        assert forall|d: i32| out@.to_set().contains(d) implies all.to_set().contains(d) by {
            assert(out@.contains(d));
            let path = choose|path: Seq<i32>|
                path.len() >= 2 && path[0] == root && path.last() == d && #[trigger] is_lineage(snap, path);
            let last = path.len() - 2;
            assert(parent_link(snap, path[last + 1], path[last]));
            let i = choose|i: int| 0 <= i < snap.len() && snap[i].pid == path[last + 1] && snap[i].ppid == path[last];
            assert(all[i] == d);
        }
        out@.unique_seq_to_set();
        all.lemma_cardinality_of_set();
        vstd::set_lib::lemma_len_subset(out@.to_set(), all.to_set());
    }
    Ok(out)
}

/// Once the walk is done, each pid along a lineage from the root is in the queue.
proof fn lemma_lineage_in_queue(snap: Seq<ProcessInfo>, path: Seq<i32>, queue: Seq<i32>, marks: Seq<bool>)
    requires
        path.len() >= 1,
        path[0] == queue[0],
        is_lineage(snap, path),
        queue.len() >= 1,
        marks.len() == snap.len(),
        forall|j: int| 0 <= j < snap.len() && #[trigger] marks[j] ==> queue.contains(snap[j].pid),
        forall|k: int, j: int|
            #![trigger queue[k], marks[j]]
            0 <= k < queue.len() && 0 <= j < snap.len() && snap[j].ppid == queue[k] ==> marks[j],
    ensures
        queue.contains(path.last()),
    decreases path.len(),
{
    if path.len() == 1 {
        assert(queue[0] == path.last());
    } else {
        let prefix = path.subrange(0, path.len() - 1);
        lemma_lineage_prefix(snap, path, path.len() - 1);
        lemma_lineage_in_queue(snap, prefix, queue, marks);
        let p = prefix.last();
        let k = choose|k: int| 0 <= k < queue.len() && queue[k] == p;
        let last = path.len() - 2;
        assert(parent_link(snap, path[last + 1], path[last]));
        let j = choose|j: int|
            0 <= j < snap.len() && snap[j].pid == path[path.len() - 1] && snap[j].ppid == path[path.len() - 2];
        assert(marks[j]);
    }
}

} // verus!
