use std::cmp::Ordering;
use vstd::prelude::*;
use crate::types::ProcessInfo;

verus! {

/// The column a process table is sorted by.
#[derive(Debug, Clone, Copy, PartialEq, Eq, Structural)]
pub enum SortColumn {
    PID,
    Name,
    CPU,
    Memory,
    State,
    PPID,
}

impl Default for SortColumn {
    fn default() -> (r: SortColumn)
        ensures
            r == SortColumn::PID,
    {
        SortColumn::PID
    }
}

/// The order of two integers.
pub open spec fn order_of(a: int, b: int) -> Ordering {
    if a < b {
        Ordering::Less
    } else if a > b {
        Ordering::Greater
    } else {
        Ordering::Equal
    }
}

/// The lexicographic order of two strings, by code point.
pub open spec fn text_order(a: Seq<char>, b: Seq<char>) -> Ordering
    decreases a.len(),
{
    if a.len() == 0 {
        if b.len() == 0 {
            Ordering::Equal
        } else {
            Ordering::Less
        }
    } else if b.len() == 0 {
        Ordering::Greater
    } else if a[0] != b[0] {
        order_of(a[0] as int, b[0] as int)
    } else {
        text_order(a.drop_first(), b.drop_first())
    }
}

pub open spec fn reversed(o: Ordering) -> Ordering {
    match o {
        Ordering::Less => Ordering::Greater,
        Ordering::Greater => Ordering::Less,
        Ordering::Equal => Ordering::Equal,
    }
}

/// The order of `a` and `b` by `column`, ascending.
pub open spec fn column_order(a: ProcessInfo, b: ProcessInfo, column: SortColumn) -> Ordering {
    match column {
        SortColumn::PID => order_of(a.pid as int, b.pid as int),
        SortColumn::Name => text_order(a.name@, b.name@),
        SortColumn::CPU => order_of(a.cpu_hundredths as int, b.cpu_hundredths as int),
        SortColumn::Memory => order_of(a.memory_bytes as int, b.memory_bytes as int),
        SortColumn::State => order_of(a.state as int, b.state as int),
        SortColumn::PPID => order_of(a.ppid as int, b.ppid as int),
    }
}

/// Relies on `Ord for String`, which orders strings lexicographically by their
/// UTF-8 bytes, the same order as by code points.
#[verifier::external_body]
fn compare_text(a: &String, b: &String) -> (r: Ordering)
    ensures
        r == text_order(a@, b@),
{
    a.cmp(b)
}

fn compare_ints(a: i64, b: i64) -> (r: Ordering)
    ensures
        r == order_of(a as int, b as int),
{
    if a < b {
        Ordering::Less
    } else if a > b {
        Ordering::Greater
    } else {
        Ordering::Equal
    }
}

fn compare_u64(a: u64, b: u64) -> (r: Ordering)
    ensures
        r == order_of(a as int, b as int),
{
    if a < b {
        Ordering::Less
    } else if a > b {
        Ordering::Greater
    } else {
        Ordering::Equal
    }
}

impl SortColumn {
    /// The order of two processes by this column, reversed when `descending`.
    pub fn compare(self, a: &ProcessInfo, b: &ProcessInfo, descending: bool) -> (r: Ordering)
        ensures
            r == if descending {
                reversed(column_order(*a, *b, self))
            } else {
                column_order(*a, *b, self)
            },
    {
        let o = match self {
            SortColumn::PID => compare_ints(a.pid as i64, b.pid as i64),
            SortColumn::Name => compare_text(&a.name, &b.name),
            SortColumn::CPU => compare_ints(a.cpu_hundredths as i64, b.cpu_hundredths as i64),
            SortColumn::Memory => compare_u64(a.memory_bytes, b.memory_bytes),
            SortColumn::State => compare_ints(a.state as u32 as i64, b.state as u32 as i64),
            SortColumn::PPID => compare_ints(a.ppid as i64, b.ppid as i64),
        };
        if descending {
            match o {
                Ordering::Less => Ordering::Greater,
                Ordering::Greater => Ordering::Less,
                Ordering::Equal => Ordering::Equal,
            }
        } else {
            o
        }
    }

    /// The sort state after a click on this column's header: the same column
    /// flips its direction; another column becomes the sort column, ascending.
    pub fn clicked(self, current: SortColumn, descending: bool) -> (r: (SortColumn, bool))
        ensures
            r == if self == current {
                (current, !descending)
            } else {
                (self, false)
            },
    {
        if self == current {
            (current, !descending)
        } else {
            (self, false)
        }
    }
}

/// The characters of `s` with each letter in lower case.
pub uninterp spec fn lower_of(s: Seq<char>) -> Seq<char>;

/// Relies on `str::to_lowercase`: its result depends on the characters alone.
#[verifier::external_body]
fn lowercase(s: &str) -> (r: String)
    ensures
        r@ == lower_of(s@),
{
    s.to_lowercase()
}

/// `pat` occurs in `s` as a contiguous run.
pub open spec fn occurs_in(pat: Seq<char>, s: Seq<char>) -> bool {
    exists|i: int| 0 <= i <= s.len() - pat.len() && #[trigger] s.subrange(i, i + pat.len()) == pat
}

/// Relies on `str::contains` with a string pattern: whether `pat` occurs in `s`.
#[verifier::external_body]
fn contains_text(s: &str, pat: &str) -> (r: bool)
    ensures
        r == occurs_in(pat@, s@),
{
    s.contains(pat)
}

pub open spec fn digit_char(d: int) -> char {
    (d + 48) as char
}

/// The decimal digits of a natural number.
pub open spec fn digits_of(n: nat) -> Seq<char>
    decreases n,
{
    if n < 10 {
        seq![digit_char(n as int)]
    } else {
        digits_of(n / 10).push(digit_char((n % 10) as int))
    }
}

/// The decimal form of an integer, with a leading `-` when negative.
pub open spec fn decimal_of(n: int) -> Seq<char> {
    if n < 0 {
        seq!['-'] + digits_of((-n) as nat)
    } else {
        digits_of(n as nat)
    }
}

/// Relies on `Display for i32` through `to_string`: the decimal form.
#[verifier::external_body]
fn decimal(n: i32) -> (r: String)
    ensures
        r@ == decimal_of(n as int),
{
    n.to_string()
}

/// Whether a process matches a search, given the search and the process's
/// name already in lower case: the search occurs in the name or in the pid's
/// decimal form.
pub fn matches_folded(query_lower: &str, name_lower: &str, pid: i32) -> (r: bool)
    ensures
        r == (occurs_in(query_lower@, name_lower@) || occurs_in(query_lower@, decimal_of(pid as int))),
{
    if contains_text(name_lower, query_lower) {
        return true;
    }
    let digits = decimal(pid);
    contains_text(digits.as_str(), query_lower)
}

/// `a` holds the same values as `b`.
pub open spec fn mirrors(a: ProcessInfo, b: ProcessInfo) -> bool {
    &&& a.pid == b.pid
    &&& a.name@ == b.name@
    &&& a.cpu_hundredths == b.cpu_hundredths
    &&& a.memory_bytes == b.memory_bytes
    &&& a.state == b.state
    &&& a.ppid == b.ppid
}

/// `p` matches the search `query`.
pub open spec fn matches_search(query: Seq<char>, p: ProcessInfo) -> bool {
    query.len() == 0 || occurs_in(lower_of(query), lower_of(p.name@)) || occurs_in(
        lower_of(query),
        decimal_of(p.pid as int),
    )
}

/// A copy of `p`.
pub fn copy_process(p: &ProcessInfo) -> (r: ProcessInfo)
    ensures
        mirrors(r, *p),
{
    ProcessInfo {
        pid: p.pid,
        name: p.name.clone(),
        cpu_hundredths: p.cpu_hundredths,
        memory_bytes: p.memory_bytes,
        state: p.state,
        ppid: p.ppid,
    }
}

/// The processes that match `search_text`, in order: all of them when it is
/// empty, else those whose lower-case name or pid contains it in lower case.
pub fn filter_processes(processes: &Vec<ProcessInfo>, search_text: &str) -> (r: Vec<ProcessInfo>)
    ensures
        exists|idx: Seq<int>|
            {
                &&& idx.len() == r.len()
                &&& forall|a: int, b: int| 0 <= a < b < idx.len() ==> idx[a] < idx[b]
                &&& forall|k: int|
                    0 <= k < r.len() ==> 0 <= #[trigger] idx[k] < processes.len() && mirrors(
                        r[k],
                        processes[idx[k]],
                    )
                &&& forall|j: int|
                    0 <= j < processes.len() ==> (matches_search(search_text@, #[trigger] processes[j])
                        <==> idx.contains(j))
            },
{
    let mut out: Vec<ProcessInfo> = Vec::new();
    let empty = search_text.is_empty();
    let query = lowercase(search_text);
    let ghost mut idx: Seq<int> = Seq::empty();
    let mut i: usize = 0;
    while i < processes.len()
        invariant
            i <= processes.len(),
            query@ == lower_of(search_text@),
            empty == (search_text@.len() == 0),
            idx.len() == out.len(),
            forall|a: int, b: int| 0 <= a < b < idx.len() ==> idx[a] < idx[b],
            forall|k: int|
                0 <= k < out.len() ==> 0 <= #[trigger] idx[k] < i && mirrors(out[k], processes[idx[k]]),
            forall|j: int|
                0 <= j < i ==> (matches_search(search_text@, #[trigger] processes[j]) <==> idx.contains(j)),
        decreases processes.len() - i,
    {
        let hit = if empty {
            true
        } else {
            let name = lowercase(processes[i].name.as_str());
            matches_folded(query.as_str(), name.as_str(), processes[i].pid)
        };
        if hit {
            out.push(copy_process(&processes[i]));
            proof {
                let old_idx = idx;
                idx = idx.push(i as int);
                assert forall|j: int| 0 <= j < i + 1 implies (matches_search(search_text@, #[trigger] processes[j])
                    <==> idx.contains(j)) by {
                    if j < i {
                        if old_idx.contains(j) {
                            let t = choose|t: int| 0 <= t < old_idx.len() && old_idx[t] == j;
                            assert(idx[t] == j);
                        }
                        if idx.contains(j) {
                            let t = choose|t: int| 0 <= t < idx.len() && idx[t] == j;
                            assert(t < old_idx.len());
                            assert(old_idx[t] == j);
                        }
                    } else {
                        assert(idx[idx.len() - 1] == j);
                    }
                }
                assert forall|k: int| 0 <= k < out.len() implies 0 <= #[trigger] idx[k] < i + 1 && mirrors(
                    out[k],
                    processes[idx[k]],
                ) by {
                    if k < out.len() - 1 {
                        assert(idx[k] == old_idx[k]);
                    }
                }
            }
        } else {
            proof {
                assert(!idx.contains(i as int));
            }
        }
        i = i + 1;
    }
    out
}

/// Totals shown under a process table.
pub struct StatusBar;

impl StatusBar {
    /// The resident memory of all `processes`, saturated at the largest `u64`.
    pub fn total_memory(processes: &Vec<ProcessInfo>) -> (r: u64)
        ensures
            r == if memory_sum(processes@) > u64::MAX {
                u64::MAX as int
            } else {
                memory_sum(processes@)
            },
    {
        let mut total: u64 = 0;
        let mut i: usize = 0;
        while i < processes.len()
            invariant
                i <= processes.len(),
                total == if memory_sum(processes@.subrange(0, i as int)) > u64::MAX {
                    u64::MAX as int
                } else {
                    memory_sum(processes@.subrange(0, i as int))
                },
            decreases processes.len() - i,
        {
            proof {
                assert(processes@.subrange(0, i as int + 1).drop_last() =~= processes@.subrange(0, i as int));
                lemma_memory_sum_nonneg(processes@.subrange(0, i as int));
            }
            total = total.saturating_add(processes[i].memory_bytes);
            i = i + 1;
        }
        proof {
            assert(processes@.subrange(0, processes.len() as int) =~= processes@);
        }
        total
    }

    /// How many of `processes` are running (state `R`).
    pub fn running_count(processes: &Vec<ProcessInfo>) -> (r: usize)
        ensures
            r == running_in(processes@),
    {
        let mut count: usize = 0;
        let mut i: usize = 0;
        while i < processes.len()
            invariant
                i <= processes.len(),
                count == running_in(processes@.subrange(0, i as int)),
                count <= i,
            decreases processes.len() - i,
        {
            proof {
                assert(processes@.subrange(0, i as int + 1).drop_last() =~= processes@.subrange(0, i as int));
            }
            if processes[i].state == 'R' {
                count = count + 1;
            }
            i = i + 1;
        }
        proof {
            assert(processes@.subrange(0, processes.len() as int) =~= processes@);
        }
        count
    }
}

pub open spec fn memory_sum(ps: Seq<ProcessInfo>) -> int
    decreases ps.len(),
{
    if ps.len() == 0 {
        0
    } else {
        memory_sum(ps.drop_last()) + ps.last().memory_bytes
    }
}

pub open spec fn running_in(ps: Seq<ProcessInfo>) -> nat
    decreases ps.len(),
{
    if ps.len() == 0 {
        0
    } else {
        running_in(ps.drop_last()) + if ps.last().state == 'R' {
            1nat
        } else {
            0nat
        }
    }
}

proof fn lemma_memory_sum_nonneg(ps: Seq<ProcessInfo>)
    ensures
        memory_sum(ps) >= 0,
    decreases ps.len(),
{
    if ps.len() > 0 {
        lemma_memory_sum_nonneg(ps.drop_last());
    }
}

} // verus!
