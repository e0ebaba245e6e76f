use vstd::prelude::*;
use crate::graph::{descendants, descends_from, listed};
use crate::types::{ProcError, ProcessInfo};

verus! {

/// The failures among `results`, each with the member it belongs to, in order.
pub open spec fn failed_members(members: Seq<i32>, results: Seq<Result<(), ProcError>>) -> Seq<
    (i32, ProcError),
>
    decreases results.len(),
{
    if results.len() == 0 {
        Seq::empty()
    } else {
        let prev = failed_members(members, results.drop_last());
        match results.last() {
            Ok(_) => prev,
            Err(e) => prev.push((members[results.len() - 1], e)),
        }
    }
}

/// A tree kill in progress: the members, in kill order, and what became of
/// each one attempted so far.
pub struct TreeKill {
    root: i32,
    members: Vec<i32>,
    next: usize,
    failures: Vec<(i32, ProcError)>,
    results: Ghost<Seq<Result<(), ProcError>>>,
}

impl TreeKill {
    /// The pid the tree kill started from.
    pub closed spec fn root(&self) -> i32 {
        self.root
    }

    /// All members in kill order: the descendants, then the root.
    pub closed spec fn members(&self) -> Seq<i32> {
        self.members@
    }

    /// The result of each member attempted so far, in kill order.
    pub closed spec fn results(&self) -> Seq<Result<(), ProcError>> {
        self.results@
    }

    /// Every member has been attempted.
    pub open spec fn done(&self) -> bool {
        self.results().len() == self.members().len()
    }

    pub closed spec fn wf(&self) -> bool {
        &&& self.next == self.results@.len()
        &&& self.next <= self.members@.len()
        &&& self.failures@ == failed_members(self.members@, self.results@)
    }

    /// The next member to kill, if any is left.
    pub fn next_target(&self) -> (r: Option<i32>)
        requires
            self.wf(),
        ensures
            self.done() <==> r is None,
            r matches Some(p) ==> p == self.members()[self.results().len() as int],
    {
        if self.next < self.members.len() {
            Some(self.members[self.next])
        } else {
            None
        }
    }

    /// Records the result of killing the next member, and moves on to the one
    /// after it whatever that result was.
    pub fn record(&mut self, result: Result<(), ProcError>)
        requires
            old(self).wf(),
            !old(self).done(),
        ensures
            final(self).wf(),
            final(self).root() == old(self).root(),
            final(self).members() == old(self).members(),
            final(self).results() == old(self).results().push(result),
    {
        let ghost r0 = self.results@;
        let ghost res = result;
        match result {
            Ok(()) => {},
            Err(e) => {
                let pid = self.members[self.next];
                self.failures.push((pid, e));
            },
        }
        assert(self.next < self.members.len());
        self.next = self.next + 1;
        self.results = Ghost(r0.push(res));
        proof {
            assert(self.results@.drop_last() =~= r0);
        }
    }

    /// Ends the tree kill: success when every member succeeded, else each
    /// member that failed with its error, in kill order.
    pub fn finish(self) -> (r: Result<(), ProcError>)
        requires
            self.wf(),
            self.done(),
        ensures
            r is Ok <==> failed_members(self.members(), self.results()).len() == 0,
            r matches Err(e) ==> e matches ProcError::TreeKillFailed(fs) && fs@ == failed_members(
                self.members(),
                self.results(),
            ),
    {
        if self.failures.len() == 0 {
            Ok(())
        } else {
            Err(ProcError::TreeKillFailed(self.failures))
        }
    }
}

/// Starts killing `root` and its descendants in `snapshot`. The members are
/// ordered children before parents as found by the walk, with the root last;
/// no pid outside the root and its descendants is a member. `NotFound(root)`
/// when the root is not in the snapshot. Drive the result with
/// `TreeKill::next_target` and `TreeKill::record`, then close it with
/// `TreeKill::finish`.
pub fn kill_tree(root: i32, snapshot: &Vec<ProcessInfo>) -> (r: Result<TreeKill, ProcError>)
    ensures
        r is Err <==> !listed(snapshot@, root),
        r matches Err(e) ==> e == ProcError::NotFound(root),
        r matches Ok(t) ==> {
            &&& t.wf()
            &&& t.root() == root
            &&& t.results().len() == 0
            &&& t.members().no_duplicates()
            &&& t.members().last() == root
            &&& forall|p: i32|
                t.members().contains(p) <==> (p == root || descends_from(snapshot@, p, root))
        },
{
    let ds = match descendants(snapshot, root) {
        Ok(ds) => ds,
        Err(e) => return Err(e),
    };
    let mut members: Vec<i32> = Vec::new();
    let mut k: usize = ds.len();
    while k > 0
        invariant
            k <= ds.len(),
            members.len() == ds.len() - k,
            forall|t: int| 0 <= t < members.len() ==> members@[t] == ds@[ds.len() - 1 - t],
        decreases k,
    {
        k = k - 1;
        members.push(ds[k]);
    }
    members.push(root);
    proof {
        let n = ds.len() as int;
        assert forall|p: i32| members@.contains(p) <==> (p == root || ds@.contains(p)) by {
            if members@.contains(p) && p != root {
                let t = choose|t: int| 0 <= t < members.len() && members@[t] == p;
                assert(t < n);
                assert(ds@[n - 1 - t] == p);
            }
            if ds@.contains(p) {
                let t = choose|t: int| 0 <= t < n && ds@[t] == p;
                assert(members@[n - 1 - t] == p);
            }
            if p == root {
                assert(members@[n] == root);
            }
        }
        assert forall|a: int, b: int| 0 <= a < b < members.len() implies members@[a] != members@[b] by {
            if b == n {
                assert(ds@.contains(members@[a]));
            } else {
                assert(members@[a] == ds@[n - 1 - a]);
                assert(members@[b] == ds@[n - 1 - b]);
            }
        }
        assert(failed_members(members@, Seq::<Result<(), ProcError>>::empty()) =~= Seq::empty());
    }
    Ok(TreeKill {
        root,
        members,
        next: 0,
        failures: Vec::new(),
        results: Ghost(Seq::empty()),
    })
}

/// The failures a tree kill reports are exactly its members that failed: a
/// member is reported with an error if and only if its attempt ended in that
/// error, and the report is empty if and only if every attempt succeeded.
pub proof fn lemma_failures_are_the_failed_members(
    members: Seq<i32>,
    results: Seq<Result<(), ProcError>>,
)
    requires
        results.len() <= members.len(),
    ensures
        forall|p: i32, e: ProcError|
            failed_members(members, results).contains((p, e)) <==> exists|i: int|
                0 <= i < results.len() && members[i] == p && results[i] == Err::<(), ProcError>(e),
        failed_members(members, results).len() == 0 <==> forall|i: int|
            0 <= i < results.len() ==> #[trigger] results[i] is Ok,
    decreases results.len(),
{
    if results.len() > 0 {
        let prev = results.drop_last();
        let last = results.len() - 1;
        lemma_failures_are_the_failed_members(members, prev);
        let f = failed_members(members, results);
        let fp = failed_members(members, prev);
        assert forall|p: i32, e: ProcError|
            f.contains((p, e)) <==> exists|i: int|
                0 <= i < results.len() && members[i] == p && results[i] == Err::<(), ProcError>(e) by {
            if f.contains((p, e)) {
                let t = choose|t: int| 0 <= t < f.len() && f[t] == (p, e);
                if t < fp.len() {
                    assert(fp.contains((p, e)));
                    let i = choose|i: int|
                        0 <= i < prev.len() && members[i] == p && prev[i] == Err::<(), ProcError>(e);
                    assert(results[i] == prev[i]);
                } else {
                    assert(members[last] == p && results[last] == Err::<(), ProcError>(e));
                }
            }
            if exists|i: int|
                0 <= i < results.len() && members[i] == p && results[i] == Err::<(), ProcError>(e) {
                let i = choose|i: int|
                    0 <= i < results.len() && members[i] == p && results[i] == Err::<(), ProcError>(e);
                if i < last {
                    assert(prev[i] == results[i]);
                    assert(fp.contains((p, e)));
                    let t = choose|t: int| 0 <= t < fp.len() && fp[t] == (p, e);
                    assert(f[t] == (p, e));
                } else {
                    assert(f[f.len() - 1] == (p, e));
                }
            }
        }
        if f.len() == 0 {
            assert forall|i: int| 0 <= i < results.len() implies #[trigger] results[i] is Ok by {
                if i < last {
                    assert(prev[i] == results[i]);
                }
            }
        }
        if forall|i: int| 0 <= i < results.len() ==> #[trigger] results[i] is Ok {
            assert forall|i: int| 0 <= i < prev.len() implies #[trigger] prev[i] is Ok by {
                assert(prev[i] == results[i]);
            }
        }
    }
}

} // verus!
