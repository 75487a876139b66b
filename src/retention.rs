use vstd::prelude::*;

use crate::metadata::{key_le, key_lt, records, BackupFile, BackupRecord, FileNameMetadata};

verus! {

/// Whether the records are in ascending key order.
pub open spec fn sorted_by_key(s: Seq<BackupRecord>) -> bool {
    forall|i: int, j: int|
        0 <= i < j < s.len() ==> key_le(#[trigger] s[i].metadata, #[trigger] s[j].metadata)
}

/// Inserts `r` into `s` after every record whose key is not greater than its own.
pub open spec fn insert_sorted(s: Seq<BackupRecord>, r: BackupRecord) -> Seq<BackupRecord>
    decreases s.len(),
{
    if s.len() == 0 {
        seq![r]
    } else if key_le(s.last().metadata, r.metadata) {
        s.push(r)
    } else {
        insert_sorted(s.drop_last(), r).push(s.last())
    }
}

/// Stable sort by key: records with equal keys keep their relative order.
pub open spec fn sort_records(s: Seq<BackupRecord>) -> Seq<BackupRecord>
    decreases s.len(),
{
    if s.len() == 0 {
        Seq::empty()
    } else {
        insert_sorted(sort_records(s.drop_last()), s.last())
    }
}

proof fn lemma_insert_sorted_contents(s: Seq<BackupRecord>, r: BackupRecord)
    ensures
        insert_sorted(s, r).len() == s.len() + 1,
        forall|e: BackupRecord| #[trigger]
            insert_sorted(s, r).contains(e) <==> (s.contains(e) || e == r),
    decreases s.len(),
{
    if s.len() > 0 && !key_le(s.last().metadata, r.metadata) {
        let d = s.drop_last();
        let u = insert_sorted(d, r);
        let t = insert_sorted(s, r);
        lemma_insert_sorted_contents(d, r);
        assert(t == u.push(s.last()));
        assert(u.contains(r));
        let mr = choose|m: int| 0 <= m < u.len() && u[m] == r;
        assert(t[mr] == r);
        assert forall|e: BackupRecord| s.contains(e) implies #[trigger] t.contains(e) by {
            let k = choose|k: int| 0 <= k < s.len() && s[k] == e;
            if k < s.len() - 1 {
                assert(d[k] == e);
                assert(u.contains(e));
                let m = choose|m: int| 0 <= m < u.len() && u[m] == e;
                assert(t[m] == e);
            } else {
                assert(t[t.len() - 1] == e);
            }
        }
        assert forall|e: BackupRecord| #[trigger] t.contains(e) implies (s.contains(e) || e == r) by {
            let k = choose|k: int| 0 <= k < t.len() && t[k] == e;
            if k < t.len() - 1 {
                assert(u[k] == e);
                assert(u.contains(e));
                if e != r {
                    assert(d.contains(e));
                    let m = choose|m: int| 0 <= m < d.len() && d[m] == e;
                    assert(s[m] == e);
                }
            } else {
                assert(s[s.len() - 1] == e);
            }
        }
    } else if s.len() > 0 {
        assert forall|e: BackupRecord| s.contains(e) implies #[trigger] insert_sorted(s, r).contains(
            e,
        ) by {
            let k = choose|k: int| 0 <= k < s.len() && s[k] == e;
            assert(s.push(r)[k] == e);
        }
        assert(s.push(r)[s.len() as int] == r);
        assert forall|e: BackupRecord| #[trigger] insert_sorted(s, r).contains(e) implies (s.contains(
            e,
        ) || e == r) by {
            let k = choose|k: int| 0 <= k < s.len() + 1 && s.push(r)[k] == e;
            if k < s.len() {
                assert(s[k] == e);
            }
        }
    } else {
        assert(seq![r][0] == r);
        assert forall|e: BackupRecord| #[trigger] insert_sorted(s, r).contains(e) implies e == r by {
            let k = choose|k: int| 0 <= k < 1 && seq![r][k] == e;
        }
    }
}

proof fn lemma_insert_sorted_sorted(s: Seq<BackupRecord>, r: BackupRecord)
    requires
        sorted_by_key(s),
    ensures
        sorted_by_key(insert_sorted(s, r)),
    decreases s.len(),
{
    lemma_insert_sorted_contents(s, r);
    if s.len() > 0 && !key_le(s.last().metadata, r.metadata) {
        let d = s.drop_last();
        lemma_insert_sorted_sorted(d, r);
        lemma_insert_sorted_contents(d, r);
        let t = insert_sorted(d, r);
        assert forall|k: int| 0 <= k < t.len() implies key_le(
            #[trigger] t[k].metadata,
            s.last().metadata,
        ) by {
            assert(t.contains(t[k]));
            if t[k] != r {
                let m = choose|m: int| 0 <= m < d.len() && d[m] == t[k];
                assert(s[m] == t[k]);
            }
        }
    }
}

/// `sort_records` holds the same records and puts them in ascending order.
pub proof fn lemma_sort_records(s: Seq<BackupRecord>)
    ensures
        sorted_by_key(sort_records(s)),
        sort_records(s).len() == s.len(),
        forall|e: BackupRecord| #[trigger] sort_records(s).contains(e) <==> s.contains(e),
    decreases s.len(),
{
    if s.len() > 0 {
        let d = s.drop_last();
        lemma_sort_records(d);
        lemma_insert_sorted_sorted(sort_records(d), s.last());
        lemma_insert_sorted_contents(sort_records(d), s.last());
        assert forall|e: BackupRecord| #[trigger] sort_records(s).contains(e) <==> s.contains(e) by {
            if s.contains(e) && e != s.last() {
                let k = choose|k: int| 0 <= k < s.len() && s[k] == e;
                assert(d[k] == e);
            }
            if d.contains(e) {
                let k = choose|k: int| 0 <= k < d.len() && d[k] == e;
                assert(s[k] == e);
            }
            assert(s[s.len() - 1] == s.last());
        }
    }
}

/// Inserting at the position found by scanning back over greater keys is `insert_sorted`.
proof fn lemma_insert_at(s: Seq<BackupRecord>, r: BackupRecord, p: int)
    requires
        0 <= p <= s.len(),
        p == 0 || !key_lt(r.metadata, s[p - 1].metadata),
        forall|k: int| p <= k < s.len() ==> key_lt(r.metadata, #[trigger] s[k].metadata),
    ensures
        insert_sorted(s, r) == s.insert(p, r),
    decreases s.len(),
{
    if p == s.len() {
        if s.len() == 0 {
            assert(s.insert(p, r) =~= seq![r]);
        } else {
            assert(s.insert(p, r) =~= s.push(r));
        }
    } else {
        assert(key_lt(r.metadata, s.last().metadata));
        lemma_insert_at(s.drop_last(), r, p);
        assert(s.drop_last().insert(p, r).push(s.last()) =~= s.insert(p, r));
    }
}

/// The files in stable ascending key order.
fn sort_by_key(files: &Vec<BackupFile>) -> (r: Vec<BackupFile>)
    ensures
        records(r@) == sort_records(records(files@)),
{
    let mut sorted: Vec<BackupFile> = Vec::new();
    let mut i: usize = 0;
    while i < files.len()
        invariant
            i <= files.len(),
            records(sorted@) == sort_records(records(files@.subrange(0, i as int))),
        decreases files.len() - i,
    {
        let f = files[i].duplicate();
        let mut p: usize = sorted.len();
        while p > 0 && f.metadata.precedes(&sorted[p - 1].metadata)
            invariant
                p <= sorted.len(),
                forall|k: int|
                    p <= k < sorted.len() ==> key_lt(f.metadata, #[trigger] sorted@[k].metadata),
            decreases p,
        {
            p = p - 1;
        }
        proof {
            let rs = records(sorted@);
            assert forall|k: int| p <= k < rs.len() implies key_lt(
                f@.metadata,
                #[trigger] rs[k].metadata,
            ) by {
                assert(rs[k] == sorted@[k]@);
            }
            lemma_insert_at(rs, f@, p as int);
            assert(records(sorted@.insert(p as int, f)) =~= rs.insert(p as int, f@));
            let prefix = records(files@.subrange(0, i + 1));
            assert(prefix.drop_last() =~= records(files@.subrange(0, i as int)));
            assert(prefix.last() == f@);
        }
        sorted.insert(p, f);
        i = i + 1;
    }
    proof {
        assert(files@.subrange(0, files@.len() as int) =~= files@);
    }
    sorted
}

/// The calendar grouping of the daily, monthly and yearly rules.
#[derive(Clone, Copy, Debug, PartialEq, Eq, Structural)]
pub enum Period {
    Day,
    Month,
    Year,
}

/// The four retention counts; `None` switches a rule off.
#[derive(Clone, Copy, Debug, PartialEq, Eq, Structural)]
pub struct RetentionPolicy {
    pub keep_latest: Option<u32>,
    pub keep_daily: Option<u32>,
    pub keep_monthly: Option<u32>,
    pub keep_yearly: Option<u32>,
}

/// The key of `m` cut down to the period: the parts finer than it are zero.
pub open spec fn period_key(m: FileNameMetadata, p: Period) -> FileNameMetadata {
    match p {
        Period::Day => FileNameMetadata { year: m.year, month: m.month, day: m.day, counter: 0 },
        Period::Month => FileNameMetadata { year: m.year, month: m.month, day: 0, counter: 0 },
        Period::Year => FileNameMetadata { year: m.year, month: 0, day: 0, counter: 0 },
    }
}

/// Whether position `i` of `s` holds the earliest record of its period.
pub open spec fn first_of_period(s: Seq<BackupRecord>, i: int, p: Period) -> bool {
    i == 0 || period_key(s[i - 1].metadata, p) != period_key(s[i].metadata, p)
}

/// The periods of the records at positions `i` and later.
pub open spec fn periods_from(s: Seq<BackupRecord>, i: int, p: Period) -> Set<FileNameMetadata> {
    s.subrange(i, s.len() as int).map_values(|r: BackupRecord| period_key(r.metadata, p)).to_set()
}

/// Whether the rule for period `p` with count `n` keeps position `i` of the sorted `s`:
/// it holds the earliest record of one of the `n` most recent periods.
pub open spec fn kept_for_period(s: Seq<BackupRecord>, i: int, p: Period, n: Option<u32>) -> bool {
    match n {
        Some(n) => first_of_period(s, i, p) && periods_from(s, i, p).len() <= n,
        None => false,
    }
}

/// Whether the latest rule with count `n` keeps position `i` of the sorted `s`.
pub open spec fn kept_as_latest(s: Seq<BackupRecord>, i: int, n: Option<u32>) -> bool {
    match n {
        Some(n) => s.len() - i <= n,
        None => false,
    }
}

/// Whether some rule of the policy keeps position `i` of the sorted `s`.
pub open spec fn kept_at(s: Seq<BackupRecord>, i: int, policy: RetentionPolicy) -> bool {
    kept_as_latest(s, i, policy.keep_latest) || kept_for_period(s, i, Period::Day, policy.keep_daily)
        || kept_for_period(s, i, Period::Month, policy.keep_monthly) || kept_for_period(
        s,
        i,
        Period::Year,
        policy.keep_yearly,
    )
}

/// The records at the kept positions below `j`, in order.
pub open spec fn kept_prefix(s: Seq<BackupRecord>, policy: RetentionPolicy, j: int) -> Seq<
    BackupRecord,
>
    decreases j,
{
    if j <= 0 {
        Seq::empty()
    } else if kept_at(s, j - 1, policy) {
        kept_prefix(s, policy, j - 1).push(s[j - 1])
    } else {
        kept_prefix(s, policy, j - 1)
    }
}

/// The first occurrence of each record, in order.
pub open spec fn dedup(x: Seq<BackupRecord>) -> Seq<BackupRecord>
    decreases x.len(),
{
    if x.len() == 0 {
        Seq::empty()
    } else if dedup(x.drop_last()).contains(x.last()) {
        dedup(x.drop_last())
    } else {
        dedup(x.drop_last()).push(x.last())
    }
}

/// The records that `policy` retains out of `input`: those at kept positions of the
/// ascending order, each once, in that order.
pub open spec fn retained(input: Seq<BackupRecord>, policy: RetentionPolicy) -> Seq<BackupRecord> {
    let s = sort_records(input);
    dedup(kept_prefix(s, policy, s.len() as int))
}

/// Whether `a` and `b` fall in the same period.
pub fn same_period(a: &FileNameMetadata, b: &FileNameMetadata, p: Period) -> (r: bool)
    ensures
        r == (period_key(*a, p) == period_key(*b, p)),
{
    match p {
        Period::Day => a.year == b.year && a.month == b.month && a.day == b.day,
        Period::Month => a.year == b.year && a.month == b.month,
        Period::Year => a.year == b.year,
    }
}

pub proof fn lemma_period_key_monotone(a: FileNameMetadata, b: FileNameMetadata, p: Period)
    requires
        key_le(a, b),
    ensures
        key_le(period_key(a, p), period_key(b, p)),
{
}

/// Walking back from position `j + 1` to `j` adds one period exactly when `j` is the
/// last position of its period.
proof fn lemma_periods_step(s: Seq<BackupRecord>, j: int, p: Period)
    requires
        sorted_by_key(s),
        0 <= j < s.len(),
    ensures
        periods_from(s, j, p) == periods_from(s, j + 1, p).insert(period_key(s[j].metadata, p)),
        periods_from(s, j + 1, p).contains(period_key(s[j].metadata, p)) <==> (j + 1 < s.len()
            && period_key(s[j + 1].metadata, p) == period_key(s[j].metadata, p)),
        periods_from(s, j, p).finite(),
        periods_from(s, j, p).len() <= s.len() - j,
{
    let f = |r: BackupRecord| period_key(r.metadata, p);
    let a = s.subrange(j, s.len() as int).map_values(f);
    let b = s.subrange(j + 1, s.len() as int).map_values(f);
    assert(a =~= seq![f(s[j])] + b);
    assert(a.to_set() =~= b.to_set().insert(f(s[j]))) by {
        assert forall|q: FileNameMetadata| a.contains(q) implies b.contains(q) || q == f(s[j]) by {
            let k = choose|k: int| 0 <= k < a.len() && a[k] == q;
            if k > 0 {
                assert(b[k - 1] == q);
            }
        }
        assert forall|q: FileNameMetadata| b.contains(q) implies a.contains(q) by {
            let k = choose|k: int| 0 <= k < b.len() && b[k] == q;
            assert(a[k + 1] == q);
        }
        assert(a[0] == f(s[j]));
    }
    if b.contains(f(s[j])) {
        let k = choose|k: int| 0 <= k < b.len() && b[k] == f(s[j]);
        assert(s[j + 1 + k] == s.subrange(j + 1, s.len() as int)[k]);
        lemma_period_key_monotone(s[j].metadata, s[j + 1].metadata, p);
        if k > 0 {
            lemma_period_key_monotone(s[j + 1].metadata, s[j + 1 + k].metadata, p);
        }
    }
    if j + 1 < s.len() {
        assert(b[0] == f(s[j + 1]));
    }
    a.lemma_cardinality_of_set();
}

/// Sets `marks[i]` for every position `i` of `sorted` that the rule for `p` with count
/// `n` keeps, and leaves the other marks as they were.
fn mark_period(sorted: &Vec<BackupFile>, p: Period, n: u32, marks: &mut Vec<bool>)
    requires
        old(marks)@.len() == sorted@.len(),
        sorted_by_key(records(sorted@)),
    ensures
        final(marks)@.len() == sorted@.len(),
        forall|i: int|
            0 <= i < sorted@.len() ==> #[trigger] final(marks)@[i] == (old(marks)@[i]
                || kept_for_period(records(sorted@), i, p, Some(n))),
{
    let ghost s = records(sorted@);
    let len = sorted.len();
    let mut j: usize = len;
    let mut count: usize = 0;
    proof {
        assert(periods_from(s, len as int, p) =~= Set::empty());
    }
    while j > 0
        invariant
            j <= len == sorted@.len() == s.len() == marks@.len(),
            s == records(sorted@),
            sorted_by_key(s),
            count == periods_from(s, j as int, p).len(),
            forall|i: int| 0 <= i < j ==> #[trigger] marks@[i] == old(marks)@[i],
            forall|i: int|
                j <= i < len ==> #[trigger] marks@[i] == (old(marks)@[i] || kept_for_period(
                    s,
                    i,
                    p,
                    Some(n),
                )),
        decreases j,
    {
        let i = j - 1;
        proof {
            lemma_periods_step(s, i as int, p);
            assert(s[i as int] == sorted@[i as int]@);
            if i + 1 < len {
                assert(s[i + 1] == sorted@[i + 1]@);
                lemma_periods_step(s, i + 1, p);
            }
        }
        if i + 1 == len || !same_period(&sorted[i].metadata, &sorted[i + 1].metadata, p) {
            count = count + 1;
        }
        let first = i == 0 || !same_period(&sorted[i - 1].metadata, &sorted[i].metadata, p);
        proof {
            if i > 0 {
                assert(s[i - 1] == sorted@[i - 1]@);
            }
        }
        if first && (count as u64) <= (n as u64) {
            marks.set(i, true);
        }
        j = i;
    }
}

/// Whether `v` holds the record `f` stands for.
pub fn contains_record(v: &Vec<BackupFile>, f: &BackupFile) -> (r: bool)
    ensures
        r == records(v@).contains(f@),
{
    let mut k: usize = 0;
    while k < v.len()
        invariant
            k <= v@.len(),
            forall|m: int| 0 <= m < k ==> v@[m]@ != f@,
        decreases v.len() - k,
    {
        if v[k].same_record(f) {
            proof {
                assert(records(v@)[k as int] == f@);
            }
            return true;
        }
        k = k + 1;
    }
    proof {
        if records(v@).contains(f@) {
            let m = choose|m: int| 0 <= m < records(v@).len() && records(v@)[m] == f@;
            assert(v@[m]@ == f@);
        }
    }
    false
}

/// The backups to keep under the four retention counts (`None` switches a rule off).
///
/// In ascending order by date and counter, `keep_latest = n` keeps the last `n` records,
/// and each of `keep_daily`, `keep_monthly` and `keep_yearly = n` keeps the earliest
/// record of each of the `n` most recent days, months or years. The result holds each
/// kept record once, in ascending order.
pub fn identify_files_to_keep(
    file_list: &Vec<BackupFile>,
    keep_latest: Option<u32>,
    keep_daily: Option<u32>,
    keep_monthly: Option<u32>,
    keep_yearly: Option<u32>,
) -> (r: Vec<BackupFile>)
    ensures
        records(r@) == retained(
            records(file_list@),
            (RetentionPolicy { keep_latest, keep_daily, keep_monthly, keep_yearly }),
        ),
{
    let ghost policy = RetentionPolicy { keep_latest, keep_daily, keep_monthly, keep_yearly };
    let sorted = sort_by_key(file_list);
    let ghost s = records(sorted@);
    proof {
        lemma_sort_records(records(file_list@));
    }
    let len = sorted.len();
    let mut marks: Vec<bool> = Vec::new();
    let mut i: usize = 0;
    while i < len
        invariant
            i <= len == sorted@.len() == s.len(),
            s == records(sorted@),
            marks@.len() == i,
            forall|k: int| 0 <= k < i ==> #[trigger] marks@[k] == kept_as_latest(s, k, keep_latest),
        decreases len - i,
    {
        let latest = match keep_latest {
            Some(n) => ((len - i) as u64) <= (n as u64),
            None => false,
        };
        marks.push(latest);
        i = i + 1;
    }
    if let Some(n) = keep_daily {
        mark_period(&sorted, Period::Day, n, &mut marks);
    }
    if let Some(n) = keep_monthly {
        mark_period(&sorted, Period::Month, n, &mut marks);
    }
    if let Some(n) = keep_yearly {
        mark_period(&sorted, Period::Year, n, &mut marks);
    }
    assert forall|k: int| 0 <= k < len implies #[trigger] marks@[k] == kept_at(s, k, policy) by {}
    let mut kept: Vec<BackupFile> = Vec::new();
    let mut i: usize = 0;
    while i < len
        invariant
            i <= len == sorted@.len() == s.len() == marks@.len(),
            s == records(sorted@),
            forall|k: int| 0 <= k < len ==> #[trigger] marks@[k] == kept_at(s, k, policy),
            records(kept@) == dedup(kept_prefix(s, policy, i as int)),
        decreases len - i,
    {
        proof {
            assert(s[i as int] == sorted@[i as int]@);
        }
        if marks[i] && !contains_record(&kept, &sorted[i]) {
            let f = sorted[i].duplicate();
            let ghost before = kept@;
            kept.push(f);
            proof {
                assert(records(kept@) =~= records(before).push(f@));
            }
        }
        proof {
            let x = kept_prefix(s, policy, i + 1);
            if kept_at(s, i as int, policy) {
                assert(x.drop_last() == kept_prefix(s, policy, i as int));
                assert(x.last() == s[i as int]);
            }
        }
        i = i + 1;
    }
    kept
}

/// The records of `files` that `keep` does not hold, in their order.
pub open spec fn not_kept(files: Seq<BackupRecord>, keep: Seq<BackupRecord>) -> Seq<BackupRecord> {
    files.filter(|r: BackupRecord| !keep.contains(r))
}

/// The backups of `file_list` that are not in `files_to_keep`, in their order.
pub fn identify_files_to_delete(file_list: Vec<BackupFile>, files_to_keep: &Vec<BackupFile>) -> (r:
    Vec<BackupFile>)
    ensures
        records(r@) == not_kept(records(file_list@), records(files_to_keep@)),
{
    let ghost keep = records(files_to_keep@);
    let ghost pred = |r: BackupRecord| !keep.contains(r);
    let mut out: Vec<BackupFile> = Vec::new();
    let mut i: usize = 0;
    while i < file_list.len()
        invariant
            i <= file_list@.len(),
            keep == records(files_to_keep@),
            pred == (|r: BackupRecord| !keep.contains(r)),
            records(out@) == records(file_list@.subrange(0, i as int)).filter(pred),
        decreases file_list.len() - i,
    {
        let ghost prev = records(file_list@.subrange(0, i as int));
        let ghost next = records(file_list@.subrange(0, i + 1));
        proof {
            assert(next =~= prev.push(file_list@[i as int]@));
            prev.lemma_filter_push(file_list@[i as int]@, pred);
        }
        if !contains_record(files_to_keep, &file_list[i]) {
            let f = file_list[i].duplicate();
            let ghost before = out@;
            out.push(f);
            proof {
                assert(records(out@) =~= records(before).push(f@));
            }
        }
        i = i + 1;
    }
    proof {
        assert(file_list@.subrange(0, file_list@.len() as int) =~= file_list@);
    }
    out
}

} // verus!
