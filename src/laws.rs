//! What holds of the retention classifier for every input and policy.
use vstd::prelude::*;

use crate::metadata::{key_le, BackupRecord, FileNameMetadata};
use crate::retention::{
    dedup, first_of_period, kept_as_latest, kept_at, kept_for_period, kept_prefix,
    lemma_period_key_monotone, lemma_sort_records,
    not_kept, period_key, periods_from, retained, sort_records, sorted_by_key, Period,
    RetentionPolicy,
};

verus! {

/// `pos` places each record of `t` at a position of `s`, in increasing order.
pub open spec fn embeds(t: Seq<BackupRecord>, s: Seq<BackupRecord>, pos: Seq<int>) -> bool {
    &&& pos.len() == t.len()
    &&& forall|i: int| 0 <= i < t.len() ==> 0 <= #[trigger] pos[i] < s.len() && t[i] == s[pos[i]]
    &&& forall|i: int, j: int| 0 <= i < j < t.len() ==> #[trigger] pos[i] < #[trigger] pos[j]
}

proof fn lemma_dedup(x: Seq<BackupRecord>) -> (pos: Seq<int>)
    ensures
        forall|e: BackupRecord| #[trigger] dedup(x).contains(e) <==> x.contains(e),
        dedup(x).no_duplicates(),
        embeds(dedup(x), x, pos),
    decreases x.len(),
{
    if x.len() == 0 {
        Seq::empty()
    } else {
        let d = x.drop_last();
        let pd = lemma_dedup(d);
        assert forall|e: BackupRecord| #[trigger] dedup(x).contains(e) <==> x.contains(e) by {
            if d.contains(e) {
                let k = choose|k: int| 0 <= k < d.len() && d[k] == e;
                assert(x[k] == e);
            }
            if x.contains(e) {
                let k = choose|k: int| 0 <= k < x.len() && x[k] == e;
                if k < x.len() - 1 {
                    assert(d[k] == e);
                }
            }
            if dedup(x) == dedup(d).push(x.last()) {
                assert(dedup(x).last() == x.last());
                if dedup(x).contains(e) && e != x.last() {
                    let k = choose|k: int| 0 <= k < dedup(x).len() && dedup(x)[k] == e;
                    assert(dedup(d)[k] == e);
                }
                if dedup(d).contains(e) {
                    let k = choose|k: int| 0 <= k < dedup(d).len() && dedup(d)[k] == e;
                    assert(dedup(x)[k] == e);
                }
            }
        }
        if dedup(d).contains(x.last()) {
            assert forall|i: int| 0 <= i < pd.len() implies 0 <= #[trigger] pd[i] < x.len()
                && dedup(x)[i] == x[pd[i]] by {
                assert(d[pd[i]] == x[pd[i]]);
            }
            pd
        } else {
            let pos = pd.push(x.len() - 1);
            assert forall|i: int| 0 <= i < pos.len() implies 0 <= #[trigger] pos[i] < x.len()
                && dedup(x)[i] == x[pos[i]] by {
                if i < pd.len() {
                    assert(d[pd[i]] == x[pd[i]]);
                }
            }
            pos
        }
    }
}

proof fn lemma_kept_prefix(s: Seq<BackupRecord>, policy: RetentionPolicy, j: int) -> (pos: Seq<int>)
    requires
        0 <= j <= s.len(),
    ensures
        embeds(kept_prefix(s, policy, j), s, pos),
        forall|i: int| 0 <= i < pos.len() ==> #[trigger] pos[i] < j && kept_at(s, pos[i], policy),
        forall|k: int|
            0 <= k < j && kept_at(s, k, policy) ==> #[trigger] kept_prefix(s, policy, j).contains(
                s[k],
            ),
    decreases j,
{
    if j == 0 {
        Seq::empty()
    } else {
        let pp = lemma_kept_prefix(s, policy, j - 1);
        let x = kept_prefix(s, policy, j - 1);
        assert forall|k: int|
            0 <= k < j && kept_at(s, k, policy) implies #[trigger] kept_prefix(s, policy, j).contains(
            s[k],
        ) by {
            if k < j - 1 {
                assert(x.contains(s[k]));
                let m = choose|m: int| 0 <= m < x.len() && x[m] == s[k];
                assert(kept_prefix(s, policy, j)[m] == s[k]);
            } else {
                assert(kept_prefix(s, policy, j).last() == s[k]);
            }
        }
        if kept_at(s, j - 1, policy) {
            pp.push(j - 1)
        } else {
            pp
        }
    }
}

proof fn lemma_embeds_compose(
    t: Seq<BackupRecord>,
    u: Seq<BackupRecord>,
    s: Seq<BackupRecord>,
    pt: Seq<int>,
    pu: Seq<int>,
) -> (pos: Seq<int>)
    requires
        embeds(t, u, pt),
        embeds(u, s, pu),
    ensures
        embeds(t, s, pos),
        forall|i: int| 0 <= i < t.len() ==> #[trigger] pos[i] == pu[pt[i]],
{
    let pos = Seq::new(t.len(), |i: int| pu[pt[i]]);
    assert forall|i: int, j: int| 0 <= i < j < t.len() implies #[trigger] pos[i] < #[trigger] pos[j] by {
        assert(pt[i] < pt[j]);
    }
    pos
}

proof fn lemma_sorted_subsequence(t: Seq<BackupRecord>, s: Seq<BackupRecord>, pos: Seq<int>)
    requires
        embeds(t, s, pos),
        sorted_by_key(s),
    ensures
        sorted_by_key(t),
{
    assert forall|i: int, j: int| 0 <= i < j < t.len() implies key_le(
        #[trigger] t[i].metadata,
        #[trigger] t[j].metadata,
    ) by {
        assert(pos[i] < pos[j]);
        assert(s[pos[i]] == t[i] && s[pos[j]] == t[j]);
    }
}

/// The classifier keeps only records of its input, each once, in ascending key order.
pub proof fn lemma_retained_sorted_subset(input: Seq<BackupRecord>, policy: RetentionPolicy)
    ensures
        forall|x: BackupRecord| #[trigger] retained(input, policy).contains(x) ==> input.contains(x),
        retained(input, policy).no_duplicates(),
        sorted_by_key(retained(input, policy)),
{
    let s = sort_records(input);
    lemma_sort_records(input);
    let u = kept_prefix(s, policy, s.len() as int);
    let pu = lemma_kept_prefix(s, policy, s.len() as int);
    let pt = lemma_dedup(u);
    lemma_sorted_subsequence(u, s, pu);
    lemma_sorted_subsequence(dedup(u), u, pt);
    assert forall|x: BackupRecord| #[trigger] retained(input, policy).contains(x) implies input.contains(
        x,
    ) by {
        assert(u.contains(x));
        let k = choose|k: int| 0 <= k < u.len() && u[k] == x;
        assert(s[pu[k]] == x);
        assert(s.contains(x));
    }
}

/// The records to delete and the records to keep split the input: each record of the
/// input is in exactly one of them, and neither holds anything else.
pub proof fn lemma_partition(input: Seq<BackupRecord>, policy: RetentionPolicy)
    ensures
        forall|x: BackupRecord|
            input.contains(x) <==> (#[trigger] retained(input, policy).contains(x) || #[trigger]
                not_kept(input, retained(input, policy)).contains(x)),
        forall|x: BackupRecord|
            !(#[trigger] retained(input, policy).contains(x) && #[trigger] not_kept(
                input,
                retained(input, policy),
            ).contains(x)),
{
    lemma_retained_sorted_subset(input, policy);
    let keep = retained(input, policy);
    let pred = |r: BackupRecord| !keep.contains(r);
    assert forall|x: BackupRecord| #[trigger] not_kept(input, keep).contains(x) <==> (input.contains(x)
        && !keep.contains(x)) by {
        let f = input.filter(pred);
        if f.contains(x) {
            input.lemma_filter_contains_rev(pred, x);
            let k = choose|k: int| 0 <= k < f.len() && f[k] == x;
            input.lemma_filter_pred(pred, k);
        }
        if input.contains(x) && !keep.contains(x) {
            let k = choose|k: int| 0 <= k < input.len() && input[k] == x;
            input.lemma_filter_contains(pred, k);
        }
    }
}

proof fn lemma_all_kept_prefix(s: Seq<BackupRecord>, policy: RetentionPolicy, j: int)
    requires
        0 <= j <= s.len(),
        forall|k: int| 0 <= k < j ==> #[trigger] kept_at(s, k, policy),
    ensures
        kept_prefix(s, policy, j) == s.subrange(0, j),
    decreases j,
{
    if j > 0 {
        lemma_all_kept_prefix(s, policy, j - 1);
        assert(s.subrange(0, j - 1).push(s[j - 1]) =~= s.subrange(0, j));
    }
}

/// With `keep_latest` at least the number of records, every record of the input is kept.
pub proof fn lemma_keep_latest_covers_all(input: Seq<BackupRecord>, policy: RetentionPolicy)
    requires
        policy.keep_latest matches Some(n) && n >= input.len(),
    ensures
        forall|x: BackupRecord| #[trigger] retained(input, policy).contains(x) <==> input.contains(x),
{
    let s = sort_records(input);
    lemma_sort_records(input);
    assert forall|k: int| 0 <= k < s.len() implies #[trigger] kept_at(s, k, policy) by {
        assert(kept_as_latest(s, k, policy.keep_latest));
    }
    lemma_all_kept_prefix(s, policy, s.len() as int);
    assert(s.subrange(0, s.len() as int) =~= s);
    lemma_dedup(s);
}

proof fn lemma_kept_prefix_same(
    s: Seq<BackupRecord>,
    p1: RetentionPolicy,
    p2: RetentionPolicy,
    j: int,
)
    requires
        0 <= j <= s.len(),
        forall|k: int| 0 <= k < j ==> #[trigger] kept_at(s, k, p1) == kept_at(s, k, p2),
    ensures
        kept_prefix(s, p1, j) == kept_prefix(s, p2, j),
    decreases j,
{
    if j > 0 {
        lemma_kept_prefix_same(s, p1, p2, j - 1);
    }
}

/// `keep_latest = 0` keeps nothing of its own: the result is as if the rule were off.
pub proof fn lemma_keep_latest_zero(input: Seq<BackupRecord>, policy: RetentionPolicy)
    requires
        policy.keep_latest == Some(0u32),
    ensures
        retained(input, policy) == retained(input, (RetentionPolicy { keep_latest: None, ..policy })),
{
    let s = sort_records(input);
    let off = RetentionPolicy { keep_latest: None, ..policy };
    assert forall|k: int| 0 <= k < s.len() implies #[trigger] kept_at(s, k, policy) == kept_at(
        s,
        k,
        off,
    ) by {}
    lemma_kept_prefix_same(s, policy, off, s.len() as int);
}

proof fn lemma_sorted_sort_identity(x: Seq<BackupRecord>)
    requires
        sorted_by_key(x),
    ensures
        sort_records(x) == x,
    decreases x.len(),
{
    if x.len() > 0 {
        let d = x.drop_last();
        assert(sorted_by_key(d));
        lemma_sorted_sort_identity(d);
        if d.len() > 0 {
            assert(d.last() == x[x.len() - 2]);
        } else {
            assert(seq![x.last()] =~= x);
        }
        assert(d.push(x.last()) =~= x);
    }
}

proof fn lemma_dedup_identity(x: Seq<BackupRecord>)
    requires
        x.no_duplicates(),
    ensures
        dedup(x) == x,
    decreases x.len(),
{
    if x.len() > 0 {
        let d = x.drop_last();
        assert(d.no_duplicates());
        lemma_dedup_identity(d);
        assert(!d.contains(x.last()));
        assert(d.push(x.last()) =~= x);
    }
}

proof fn lemma_positions_spread(t: Seq<BackupRecord>, s: Seq<BackupRecord>, pos: Seq<int>, i: int, j: int)
    requires
        embeds(t, s, pos),
        0 <= i <= j < t.len(),
    ensures
        pos[j] >= pos[i] + (j - i),
    decreases j - i,
{
    if i < j {
        lemma_positions_spread(t, s, pos, i, j - 1);
        assert(pos[j - 1] < pos[j]);
    }
}

proof fn lemma_period_transfer(
    t: Seq<BackupRecord>,
    s: Seq<BackupRecord>,
    pos: Seq<int>,
    i: int,
    p: Period,
)
    requires
        embeds(t, s, pos),
        sorted_by_key(s),
        0 <= i < t.len(),
    ensures
        first_of_period(s, pos[i], p) ==> first_of_period(t, i, p),
        periods_from(t, i, p).len() <= periods_from(s, pos[i], p).len(),
{
    let f = |r: BackupRecord| period_key(r.metadata, p);
    if i > 0 && first_of_period(s, pos[i], p) {
        let a = pos[i - 1];
        let b = pos[i];
        assert(a < b);
        if a < b - 1 {
            lemma_period_key_monotone(s[a].metadata, s[b - 1].metadata, p);
        }
        lemma_period_key_monotone(s[b - 1].metadata, s[b].metadata, p);
    }
    let st = t.subrange(i, t.len() as int).map_values(f);
    let ss = s.subrange(pos[i], s.len() as int).map_values(f);
    assert forall|q: FileNameMetadata| st.to_set().contains(q) implies ss.to_set().contains(q) by {
        assert(st.contains(q));
        let k = choose|k: int| 0 <= k < st.len() && st[k] == q;
        assert(t[i + k] == t.subrange(i, t.len() as int)[k]);
        if k > 0 {
            lemma_positions_spread(t, s, pos, i, i + k);
        }
        let m = pos[i + k] - pos[i];
        assert(s.subrange(pos[i], s.len() as int)[m] == s[pos[i + k]]);
        assert(ss[m] == q);
    }
    vstd::set_lib::lemma_len_subset(st.to_set(), ss.to_set());
}

proof fn lemma_kept_transfers(
    t: Seq<BackupRecord>,
    s: Seq<BackupRecord>,
    pos: Seq<int>,
    i: int,
    policy: RetentionPolicy,
)
    requires
        embeds(t, s, pos),
        sorted_by_key(s),
        0 <= i < t.len(),
        kept_at(s, pos[i], policy),
    ensures
        kept_at(t, i, policy),
{
    lemma_positions_spread(t, s, pos, i, t.len() - 1);
    lemma_period_transfer(t, s, pos, i, Period::Day);
    lemma_period_transfer(t, s, pos, i, Period::Month);
    lemma_period_transfer(t, s, pos, i, Period::Year);
}

/// Classifying the kept records again, under the same policy, keeps all of them, in
/// the same order.
pub proof fn lemma_idempotent(input: Seq<BackupRecord>, policy: RetentionPolicy)
    ensures
        retained(retained(input, policy), policy) == retained(input, policy),
{
    let s = sort_records(input);
    lemma_sort_records(input);
    let u = kept_prefix(s, policy, s.len() as int);
    let pu = lemma_kept_prefix(s, policy, s.len() as int);
    let t = dedup(u);
    let pt = lemma_dedup(u);
    let pos = lemma_embeds_compose(t, u, s, pt, pu);
    lemma_retained_sorted_subset(input, policy);
    lemma_sorted_sort_identity(t);
    assert forall|i: int| 0 <= i < t.len() implies #[trigger] kept_at(t, i, policy) by {
        assert(pos[i] == pu[pt[i]]);
        assert(0 <= pt[i] < pu.len());
        lemma_kept_transfers(t, s, pos, i, policy);
    }
    lemma_all_kept_prefix(t, policy, t.len() as int);
    assert(t.subrange(0, t.len() as int) =~= t);
    lemma_dedup_identity(t);
}

} // verus!
