use vstd::prelude::*;
use crate::types::SystemCpuTimes;

verus! {

/// The counters after `cpu` that are summed: user, nice, system, idle, iowait,
/// irq, softirq, steal.
pub const SUMMED_FIELDS: usize = 8;

/// ASCII whitespace, which separates fields.
pub open spec fn is_space(b: u8) -> bool {
    b == 32 || (9 <= b && b <= 13)
}

pub open spec fn is_digit(b: u8) -> bool {
    48 <= b && b <= 57
}

/// The first index at or after `i` that is not whitespace, or the end.
pub open spec fn skip_space(s: Seq<u8>, i: int) -> int
    decreases s.len() - i,
{
    if i >= s.len() || !is_space(s[i]) {
        i
    } else {
        skip_space(s, i + 1)
    }
}

/// The first index at or after `i` that is whitespace, or the end.
pub open spec fn field_end(s: Seq<u8>, i: int) -> int
    decreases s.len() - i,
{
    if i >= s.len() || is_space(s[i]) {
        i
    } else {
        field_end(s, i + 1)
    }
}

/// The whitespace-separated fields of `s` from index `i` on.
pub open spec fn fields_from(s: Seq<u8>, i: int) -> Seq<Seq<u8>>
    decreases s.len() - i,
{
    let j = skip_space(s, i);
    if i < 0 || j >= s.len() {
        Seq::empty()
    } else {
        let k = field_end(s, j);
        if k <= i || k > s.len() {
            Seq::empty()
        } else {
            seq![s.subrange(j, k)] + fields_from(s, k)
        }
    }
}

/// The value of a string of decimal digits.
pub open spec fn digits_value(d: Seq<u8>) -> int
    decreases d.len(),
{
    if d.len() == 0 {
        0
    } else {
        digits_value(d.drop_last()) * 10 + (d.last() - 48)
    }
}

/// A field read as a `u64` the way `str::parse` reads one: an optional `+`,
/// then one or more digits, within range.
pub open spec fn parse_u64(f: Seq<u8>) -> Option<u64> {
    parse_digits(strip_plus(f))
}

/// `f` without a leading `+`.
pub open spec fn strip_plus(f: Seq<u8>) -> Seq<u8> {
    if f.len() > 0 && f[0] == 43 {
        f.drop_first()
    } else {
        f
    }
}

/// One or more digits, read as a `u64` when within range.
pub open spec fn parse_digits(d: Seq<u8>) -> Option<u64> {
    if d.len() > 0 && (forall|i: int| 0 <= i < d.len() ==> is_digit(#[trigger] d[i])) && digits_value(d)
        <= u64::MAX {
        Some(digits_value(d) as u64)
    } else {
        None
    }
}

/// The fields that read as numbers, in order; the others are dropped.
pub open spec fn numbers(fs: Seq<Seq<u8>>) -> Seq<u64>
    decreases fs.len(),
{
    if fs.len() == 0 {
        Seq::empty()
    } else {
        let prev = numbers(fs.drop_last());
        match parse_u64(fs.last()) {
            Some(v) => prev.push(v),
            None => prev,
        }
    }
}

/// The bytes before the first newline.
pub open spec fn first_line(s: Seq<u8>) -> Seq<u8> {
    if exists|i: int| 0 <= i < s.len() && s[i] == 10 {
        let i = choose|i: int| 0 <= i < s.len() && s[i] == 10 && forall|k: int| 0 <= k < i ==> s[k] != 10;
        s.subrange(0, i)
    } else {
        s
    }
}

pub open spec fn sum(vs: Seq<u64>) -> int
    decreases vs.len(),
{
    if vs.len() == 0 {
        0
    } else {
        sum(vs.drop_last()) + vs.last()
    }
}

/// The fields after the first, at most eight of them.
pub open spec fn counter_fields(fs: Seq<Seq<u8>>) -> Seq<Seq<u8>> {
    if fs.len() <= 1 {
        Seq::empty()
    } else if fs.len() < 9 {
        fs.subrange(1, fs.len() as int)
    } else {
        fs.subrange(1, 9)
    }
}

/// The aggregate counters of a `/proc/stat` text: when its first line starts
/// with `cpu `, the numbers among the (at most eight) fields after `cpu`; when
/// at least four are numbers, the total is their sum and idle the fourth.
pub open spec fn counters(s: Seq<u8>) -> Option<Seq<u64>> {
    let line = first_line(s);
    let fs = fields_from(line, 0);
    if line.len() >= 4 && line[0] == 99 && line[1] == 112 && line[2] == 117 && line[3] == 32 {
        let vs = numbers(counter_fields(fs));
        if vs.len() >= 4 {
            Some(vs)
        } else {
            None
        }
    } else {
        None
    }
}

proof fn lemma_skip_space_range(s: Seq<u8>, i: int)
    requires
        0 <= i <= s.len(),
    ensures
        i <= skip_space(s, i) <= s.len(),
        skip_space(s, i) < s.len() ==> !is_space(s[skip_space(s, i)]),
    decreases s.len() - i,
{
    if i < s.len() && is_space(s[i]) {
        lemma_skip_space_range(s, i + 1);
    }
}

proof fn lemma_field_end_range(s: Seq<u8>, i: int)
    requires
        0 <= i <= s.len(),
    ensures
        i <= field_end(s, i) <= s.len(),
        i < s.len() && !is_space(s[i]) ==> i < field_end(s, i),
    decreases s.len() - i,
{
    if i < s.len() && !is_space(s[i]) {
        lemma_field_end_range(s, i + 1);
    }
}

proof fn lemma_digits_grow(d: Seq<u8>, n: int)
    requires
        0 <= n <= d.len(),
        forall|i: int| 0 <= i < d.len() ==> is_digit(#[trigger] d[i]),
    ensures
        digits_value(d.subrange(0, n)) <= digits_value(d),
        digits_value(d) >= 0,
    decreases d.len(),
{
    if d.len() > 0 {
        if n == d.len() {
            assert(d.subrange(0, n) =~= d);
            lemma_digits_grow(d.drop_last(), 0);
        } else {
            assert(d.drop_last().subrange(0, n) =~= d.subrange(0, n));
            lemma_digits_grow(d.drop_last(), n);
        }
    }
}

/// Reads `s[j..k]` as `parse_u64` does.
fn parse_field(s: &[u8], j: usize, k: usize) -> (r: Option<u64>)
    requires
        j <= k <= s@.len(),
    ensures
        r == parse_u64(s@.subrange(j as int, k as int)),
{
    let ghost f = s@.subrange(j as int, k as int);
    let mut start = j;
    if j < k && s[j] == 43 {
        start = j + 1;
    }
    let ghost d = s@.subrange(start as int, k as int);
    proof {
        if j < k && s[j as int] == 43 {
            assert(f.drop_first() =~= d);
        } else {
            assert(f =~= d);
        }
        assert(strip_plus(f) == d);
    }
    if start == k {
        return None;
    }
    let mut v: u64 = 0;
    let mut i = start;
    while i < k
        invariant
            start <= i <= k <= s@.len(),
            d == s@.subrange(start as int, k as int),
            f == s@.subrange(j as int, k as int),
            strip_plus(f) == d,
            d.len() > 0,
            forall|t: int| 0 <= t < i - start ==> is_digit(#[trigger] d[t]),
            v == digits_value(d.subrange(0, i - start)),
        decreases k - i,
    {
        let b = s[i];
        if b < 48 || b > 57 {
            proof {
                assert(!is_digit(d[i - start]));
            }
            return None;
        }
        let digit = (b - 48) as u64;
        proof {
            assert(d.subrange(0, i - start + 1).drop_last() =~= d.subrange(0, i - start));
        }
        if v > (u64::MAX - digit) / 10 {
            proof {
                assert(digits_value(d.subrange(0, i - start + 1)) == v * 10 + digit);
                assert(v * 10 + digit > u64::MAX) by (nonlinear_arith)
                    requires v > (u64::MAX - digit) / 10, digit <= 9;
                if forall|t: int| 0 <= t < d.len() ==> is_digit(#[trigger] d[t]) {
                    lemma_digits_grow(d, i - start + 1);
                }
            }
            return None;
        }
        v = v * 10 + digit;
        i = i + 1;
    }
    proof {
        assert(d.subrange(0, k - start) =~= d);
    }
    Some(v)
}

/// The total and idle counters of the system-wide `cpu` line of a `/proc/stat`
/// text, or zeros when that line is missing or has fewer than four counters.
/// The total saturates at the largest `u64`.
pub fn parse_system_cpu_times(stat: &[u8]) -> (r: SystemCpuTimes)
    ensures
        counters(stat@) matches Some(vs) ==> r.idle == vs[3] && r.total == if sum(vs) > u64::MAX {
            u64::MAX as int
        } else {
            sum(vs)
        },
        counters(stat@) is None ==> r == (SystemCpuTimes { total: 0, idle: 0 }),
{
    let ghost s = stat@;
    // the first line
    let mut end: usize = 0;
    while end < stat.len() && stat[end] != 10
        invariant
            s == stat@,
            end <= stat.len(),
            forall|k: int| 0 <= k < end ==> s[k] != 10,
        decreases stat.len() - end,
    {
        end = end + 1;
    }
    let ghost line = s.subrange(0, end as int);
    proof {
        if end < stat.len() {
            assert(s[end as int] == 10);
            let i = choose|i: int| 0 <= i < s.len() && s[i] == 10 && forall|k: int| 0 <= k < i ==> s[k] != 10;
            assert(i == end);
        } else {
            assert(s.subrange(0, end as int) =~= s);
        }
        assert(first_line(s) == line);
    }
    if end < 4 || stat[0] != 99 || stat[1] != 112 || stat[2] != 117 || stat[3] != 32 {
        return SystemCpuTimes { total: 0, idle: 0 };
    }
    let mut vals: Vec<u64> = Vec::new();
    let mut count: usize = 0;  // fields read so far
    let mut i: usize = 0;
    let ghost mut seen: Seq<Seq<u8>> = Seq::empty();
    let mut exhausted = false;
    while count < SUMMED_FIELDS + 1 && !exhausted
        invariant
            s == stat@,
            exhausted ==> fields_from(line, i as int) == Seq::<Seq<u8>>::empty(),
            first_line(s) == line,
            line.len() >= 4 && line[0] == 99 && line[1] == 112 && line[2] == 117 && line[3] == 32,
            end <= s.len(),
            line == s.subrange(0, end as int),
            i <= end,
            seen + fields_from(line, i as int) == fields_from(line, 0),
            seen.len() == count,
            count <= SUMMED_FIELDS + 1,
            vals@ == numbers(seen.subrange(if count == 0 { 0 } else { 1 }, count as int)),
            vals.len() <= count,
        decreases end - i, if exhausted { 0int } else { 1int },
    {
        // skip whitespace
        let mut j = i;
        while j < end && (stat[j] == 32 || (stat[j] >= 9 && stat[j] <= 13))
            invariant
                i <= j <= end,
                s == stat@,
                line == s.subrange(0, end as int),
                end <= s.len(),
                skip_space(line, i as int) == skip_space(line, j as int),
            decreases end - j,
        {
            j = j + 1;
        }
        proof {
            lemma_skip_space_range(line, i as int);
        }
        if j >= end {
            proof {
                assert(fields_from(line, i as int) =~= Seq::empty());
            }
            exhausted = true;
        } else {
        let mut k = j;
        while k < end && !(stat[k] == 32 || (stat[k] >= 9 && stat[k] <= 13))
            invariant
                j <= k <= end,
                s == stat@,
                line == s.subrange(0, end as int),
                end <= s.len(),
                field_end(line, j as int) == field_end(line, k as int),
            decreases end - k,
        {
            k = k + 1;
        }
        proof {
            lemma_field_end_range(line, j as int);
            let f = line.subrange(j as int, k as int);
            assert(fields_from(line, i as int) == seq![f] + fields_from(line, k as int));
            assert(seen.push(f) + fields_from(line, k as int) =~= seen + fields_from(line, i as int));
            assert(s.subrange(j as int, k as int) =~= f);
        }
        if count >= 1 {
            let parsed = parse_field(stat, j, k);
            proof {
                let f = line.subrange(j as int, k as int);
                let ns = seen.push(f);
                assert(ns.subrange(1, count + 1).drop_last() =~= seen.subrange(1, count as int));
            }
            match parsed {
                Some(v) => vals.push(v),
                None => {},
            }
        }
        proof {
            let f = line.subrange(j as int, k as int);
            if count == 0 {
                assert(seen.push(f).subrange(1, 1) =~= Seq::<Seq<u8>>::empty());
            }
            seen = seen.push(f);
        }
        count = count + 1;
        i = k;
        }
    }
    proof {
        let fs = fields_from(line, 0);
        if !exhausted {
            assert(fs.subrange(1, 9) =~= seen.subrange(1, 9));
            assert(counter_fields(fs) == seen.subrange(1, 9));
        } else {
            assert(fs =~= seen);
            if count <= 1 {
                assert(vals@ =~= Seq::<u64>::empty());
            } else {
                assert(counter_fields(fs) == seen.subrange(1, count as int));
            }
        }
    }
    if vals.len() < 4 {
        return SystemCpuTimes { total: 0, idle: 0 };
    }
    let mut total: u64 = 0;
    let mut t: usize = 0;
    while t < vals.len()
        invariant
            t <= vals.len(),
            total == if sum(vals@.subrange(0, t as int)) > u64::MAX {
                u64::MAX as int
            } else {
                sum(vals@.subrange(0, t as int))
            },
        decreases vals.len() - t,
    {
        proof {
            assert(vals@.subrange(0, t as int + 1).drop_last() =~= vals@.subrange(0, t as int));
            lemma_sum_nonneg(vals@.subrange(0, t as int));
        }
        total = total.saturating_add(vals[t]);
        t = t + 1;
    }
    proof {
        assert(vals@.subrange(0, vals.len() as int) =~= vals@);
    }
    SystemCpuTimes { total, idle: vals[3] }
}

proof fn lemma_sum_nonneg(vs: Seq<u64>)
    ensures
        sum(vs) >= 0,
    decreases vs.len(),
{
    if vs.len() > 0 {
        lemma_sum_nonneg(vs.drop_last());
    }
}

} // verus!
