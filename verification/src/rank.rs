//! Competition ranking over a collection of scored identifiers.
//!
//! Given entries carrying an identifier and a non-negative metric, the ranking
//! orders them by metric descending with ties broken by identifier ascending,
//! takes the first `limit` entries, and then extends the result with every
//! further entry whose metric equals the metric at the cutoff position, so
//! that a tie at the boundary is never truncated arbitrarily.
//!
//! The ranked sequence is defined as a spec-level function of the input
//! ([`rank_spec`]), so the executable [`rank`] is pinned to exactly one
//! result; its laws (sortedness, length bounds, boundary-tie inclusion,
//! determinism) are proved below as public lemmas.

use vstd::prelude::*;

use crate::order::lemma_seq_lt_irrefl;
use crate::order::lemma_seq_lt_trans;
use crate::order::lemma_seq_lt_trichotomy;
use crate::order::seq_lt;
use crate::order::str_lt;

verus! {

/// One scored identifier at the specification level.
pub ghost struct Entry {
    pub id: Seq<char>,
    pub metric: u16,
}

/// The ranking order: higher metric first, ties by smaller identifier first.
pub open spec fn entry_lt(a: Entry, b: Entry) -> bool {
    a.metric > b.metric || (a.metric == b.metric && seq_lt(a.id, b.id))
}

/// Strictly sorted by the ranking order.
pub open spec fn sorted(s: Seq<Entry>) -> bool {
    forall|i: int, j: int| 0 <= i < j < s.len() ==> entry_lt(s[i], s[j])
}

/// No two entries share an identifier.
pub open spec fn distinct_ids(s: Seq<Entry>) -> bool {
    forall|i: int, j: int| 0 <= i < j < s.len() ==> s[i].id != s[j].id
}

/// Insert `e` in front of the first element it precedes.
pub open spec fn insert_sorted(s: Seq<Entry>, e: Entry) -> Seq<Entry>
    decreases s.len(),
{
    if s.len() == 0 {
        seq![e]
    } else if entry_lt(e, s[0]) {
        seq![e] + s
    } else {
        seq![s[0]] + insert_sorted(s.drop_first(), e)
    }
}

/// The input sorted by the ranking order, one insertion at a time.
pub open spec fn sort_entries(s: Seq<Entry>) -> Seq<Entry>
    decreases s.len(),
{
    if s.len() == 0 {
        Seq::empty()
    } else {
        insert_sorted(sort_entries(s.drop_last()), s.last())
    }
}

/// First position at or after `i` whose metric differs from `b`.
pub open spec fn tie_end(s: Seq<Entry>, b: u16, i: int) -> int
    decreases s.len() - i,
{
    if i >= s.len() {
        i
    } else if s[i].metric != b {
        i
    } else {
        tie_end(s, b, i + 1)
    }
}

/// How many entries of the sorted sequence `s` the ranking keeps: all of
/// them when there are at most `limit`, otherwise `limit` extended across
/// the tie with the metric at position `limit - 1`.
pub open spec fn cut_len(s: Seq<Entry>, limit: int) -> int {
    if s.len() <= limit {
        s.len() as int
    } else {
        tie_end(s, s[limit - 1].metric, limit)
    }
}

/// The ranked entries: the kept prefix of the sorted input.
pub open spec fn rank_entries(entries: Seq<Entry>, limit: int) -> Seq<Entry> {
    let s = sort_entries(entries);
    s.subrange(0, cut_len(s, limit))
}

/// The ranked identifiers, the specification of [`rank`].
pub open spec fn rank_spec(entries: Seq<Entry>, limit: int) -> Seq<Seq<char>> {
    rank_entries(entries, limit).map_values(|e: Entry| e.id)
}

/// The ranking order never relates an entry to itself.
pub proof fn lemma_entry_lt_irrefl(a: Entry)
    ensures
        !entry_lt(a, a),
{
    lemma_seq_lt_irrefl(a.id);
}

/// Entries with distinct identifiers are ordered one way, and only one way.
pub proof fn lemma_entry_lt_trichotomy(a: Entry, b: Entry)
    requires
        a.id != b.id,
    ensures
        entry_lt(a, b) || entry_lt(b, a),
        !(entry_lt(a, b) && entry_lt(b, a)),
{
    lemma_seq_lt_trichotomy(a.id, b.id);
}

/// The ranking order is transitive.
pub proof fn lemma_entry_lt_trans(a: Entry, b: Entry, c: Entry)
    requires
        entry_lt(a, b),
        entry_lt(b, c),
    ensures
        entry_lt(a, c),
{
    if a.metric == b.metric && b.metric == c.metric {
        lemma_seq_lt_trans(a.id, b.id, c.id);
    }
}

/// Inserting adds one element and keeps exactly the old ones beside it.
proof fn lemma_insert_sorted_membership(s: Seq<Entry>, e: Entry)
    ensures
        insert_sorted(s, e).len() == s.len() + 1,
        forall|x: Entry| #[trigger] insert_sorted(s, e).contains(x) <==> s.contains(x) || x == e,
    decreases s.len(),
{
    let r = insert_sorted(s, e);
    if s.len() == 0 {
        assert(r =~= seq![e]);
        assert forall|x: Entry| #[trigger] r.contains(x) implies s.contains(x) || x == e by {
            let k = choose|k: int| 0 <= k < r.len() && r[k] == x;
            assert(r[k] == e);
        }
        assert forall|x: Entry| s.contains(x) || x == e implies #[trigger] r.contains(x) by {
            assert(r[0] == e);
        }
    } else if entry_lt(e, s[0]) {
        assert(r =~= seq![e] + s);
        assert forall|x: Entry| #[trigger] r.contains(x) implies s.contains(x) || x == e by {
            let k = choose|k: int| 0 <= k < r.len() && r[k] == x;
            if k > 0 {
                assert(s[k - 1] == x);
            }
        }
        assert forall|x: Entry| s.contains(x) || x == e implies #[trigger] r.contains(x) by {
            if x == e {
                assert(r[0] == x);
            } else {
                let k = choose|k: int| 0 <= k < s.len() && s[k] == x;
                assert(r[k + 1] == x);
            }
        }
    } else {
        let t = s.drop_first();
        let u = insert_sorted(t, e);
        lemma_insert_sorted_membership(t, e);
        assert(r =~= seq![s[0]] + u);
        assert forall|x: Entry| #[trigger] r.contains(x) implies s.contains(x) || x == e by {
            let k = choose|k: int| 0 <= k < r.len() && r[k] == x;
            if k == 0 {
                assert(s[0] == x);
            } else {
                assert(u[k - 1] == x);
                assert(u.contains(x));
                if t.contains(x) {
                    let m = choose|m: int| 0 <= m < t.len() && t[m] == x;
                    assert(s[m + 1] == x);
                }
            }
        }
        assert forall|x: Entry| s.contains(x) || x == e implies #[trigger] r.contains(x) by {
            if x == e {
                assert(u.contains(x));
                let m = choose|m: int| 0 <= m < u.len() && u[m] == x;
                assert(r[m + 1] == x);
            } else {
                let k = choose|k: int| 0 <= k < s.len() && s[k] == x;
                if k == 0 {
                    assert(r[0] == x);
                } else {
                    assert(t[k - 1] == x);
                    assert(t.contains(x));
                    assert(u.contains(x));
                    let m = choose|m: int| 0 <= m < u.len() && u[m] == x;
                    assert(r[m + 1] == x);
                }
            }
        }
    }
}

/// Inserting an entry with a fresh identifier preserves strict sortedness.
proof fn lemma_insert_sorted_sorted(s: Seq<Entry>, e: Entry)
    requires
        sorted(s),
        forall|k: int| 0 <= k < s.len() ==> (#[trigger] s[k]).id != e.id,
    ensures
        sorted(insert_sorted(s, e)),
    decreases s.len(),
{
    lemma_insert_sorted_membership(s, e);
    if s.len() == 0 {
    } else if entry_lt(e, s[0]) {
        let r = seq![e] + s;
        assert forall|i: int, j: int| 0 <= i < j < r.len() implies entry_lt(r[i], r[j]) by {
            if i == 0 {
                if j > 1 {
                    lemma_entry_lt_trans(e, s[0], s[j - 1]);
                }
            }
        }
    } else {
        let t = s.drop_first();
        assert forall|k: int| 0 <= k < t.len() implies (#[trigger] t[k]).id != e.id by {
            assert(t[k] == s[k + 1]);
        }
        lemma_insert_sorted_sorted(t, e);
        lemma_insert_sorted_membership(t, e);
        lemma_entry_lt_trichotomy(s[0], e);
        let u = insert_sorted(t, e);
        let r = seq![s[0]] + u;
        assert forall|i: int, j: int| 0 <= i < j < r.len() implies entry_lt(r[i], r[j]) by {
            if i == 0 {
                assert(u.contains(u[j - 1]));
                if u[j - 1] == e {
                    assert(entry_lt(s[0], e));
                } else {
                    assert(t.contains(u[j - 1]));
                    let m = choose|m: int| 0 <= m < t.len() && t[m] == u[j - 1];
                    assert(s[m + 1] == u[j - 1]);
                    assert(entry_lt(s[0], s[m + 1]));
                }
            } else {
                assert(entry_lt(u[i - 1], u[j - 1]));
            }
        }
    }
}

/// Sorting keeps the length and exactly the members of the input, and its
/// result is strictly sorted when the identifiers are distinct.
pub proof fn lemma_sort_entries(s: Seq<Entry>)
    requires
        distinct_ids(s),
    ensures
        sort_entries(s).len() == s.len(),
        forall|x: Entry| #[trigger] sort_entries(s).contains(x) <==> s.contains(x),
        sorted(sort_entries(s)),
    decreases s.len(),
{
    if s.len() > 0 {
        let t = s.drop_last();
        let e = s.last();
        let st = sort_entries(t);
        assert(distinct_ids(t)) by {
            assert(forall|i: int, j: int|
                0 <= i < j < t.len() ==> t[i] == s[i] && t[j] == s[j]);
        }
        lemma_sort_entries(t);
        assert forall|k: int| 0 <= k < st.len() implies (#[trigger] st[k]).id != e.id by {
            assert(st.contains(st[k]));
            assert(t.contains(st[k]));
            let m = choose|m: int| 0 <= m < t.len() && t[m] == st[k];
            assert(s[m] == t[m]);
            assert(s[m].id != s[s.len() - 1].id);
        }
        lemma_insert_sorted_sorted(st, e);
        lemma_insert_sorted_membership(st, e);
        assert forall|x: Entry| #[trigger] sort_entries(s).contains(x) implies s.contains(x) by {
            assert(st.contains(x) || x == e);
            if st.contains(x) {
                assert(t.contains(x));
                let m = choose|m: int| 0 <= m < t.len() && t[m] == x;
                assert(s[m] == x);
                assert(s.contains(x));
            } else {
                assert(s[s.len() - 1] == x);
                assert(s.contains(x));
            }
        }
        assert forall|x: Entry| s.contains(x) implies #[trigger] sort_entries(s).contains(x) by {
            let k = choose|k: int| 0 <= k < s.len() && s[k] == x;
            if k < s.len() - 1 {
                assert(t[k] == x);
                assert(t.contains(x));
                assert(st.contains(x));
            } else {
                assert(e == x);
            }
        }
    }
}

/// Bounds of the tie scan: every skipped entry carries the boundary metric,
/// and the entry the scan stops at does not.
pub proof fn lemma_tie_end(s: Seq<Entry>, b: u16, i: int)
    requires
        0 <= i <= s.len(),
    ensures
        i <= tie_end(s, b, i) <= s.len(),
        forall|k: int| i <= k < tie_end(s, b, i) ==> (#[trigger] s[k]).metric == b,
        tie_end(s, b, i) < s.len() ==> s[tie_end(s, b, i)].metric != b,
    decreases s.len() - i,
{
    if i < s.len() && s[i].metric == b {
        lemma_tie_end(s, b, i + 1);
    }
}

/// A scan that stops at the first non-boundary metric computes `tie_end`.
proof fn lemma_tie_end_at(s: Seq<Entry>, b: u16, i: int, e: int)
    requires
        0 <= i <= e <= s.len(),
        forall|k: int| i <= k < e ==> (#[trigger] s[k]).metric == b,
        e < s.len() ==> s[e].metric != b,
    ensures
        tie_end(s, b, i) == e,
    decreases e - i,
{
    if i < e {
        lemma_tie_end_at(s, b, i + 1, e);
    }
}

/// Inserting in front of the first element that `e` precedes places it at
/// exactly that position.
proof fn lemma_insert_sorted_at(s: Seq<Entry>, e: Entry, j: int)
    requires
        0 <= j <= s.len(),
        forall|k: int| 0 <= k < j ==> !entry_lt(e, #[trigger] s[k]),
        j < s.len() ==> entry_lt(e, s[j]),
    ensures
        insert_sorted(s, e) == s.insert(j, e),
    decreases j,
{
    if s.len() == 0 {
        assert(insert_sorted(s, e) =~= s.insert(0, e));
    } else if j == 0 {
        assert(insert_sorted(s, e) =~= s.insert(0, e));
    } else {
        let t = s.drop_first();
        assert(forall|k: int| 0 <= k < j - 1 ==> !entry_lt(e, #[trigger] t[k]) && t[k] == s[k + 1]);
        lemma_insert_sorted_at(t, e, j - 1);
        assert(!entry_lt(e, s[0]));
        assert(insert_sorted(s, e) == seq![s[0]] + insert_sorted(t, e));
        assert(seq![s[0]] + t.insert(j - 1, e) =~= s.insert(j, e));
    }
}

/// The spec-level entries carried by a vector of identifier/metric pairs.
pub open spec fn pairs_view(s: Seq<(String, u16)>) -> Seq<Entry> {
    s.map_values(|p: (String, u16)| Entry { id: p.0@, metric: p.1 })
}

/// Executable test of the ranking order, proved equal to [`entry_lt`].
fn entry_before(ma: u16, ia: &str, mb: u16, ib: &str) -> (r: bool)
    ensures
        r == entry_lt(Entry { id: ia@, metric: ma }, Entry { id: ib@, metric: mb }),
{
    ma > mb || (ma == mb && str_lt(ia, ib))
}

/// Rank the given identifier/metric pairs: metric descending, ties by
/// identifier ascending, cut to `limit` entries but extended across a tie
/// with the metric at the cutoff position.
///
/// The result is exactly [`rank_spec`] of the input, so two calls on equal
/// inputs return equal sequences.
pub fn rank(items: &Vec<(String, u16)>, limit: usize) -> (r: Vec<String>)
    requires
        limit >= 1,
    ensures
        r.deep_view() == rank_spec(pairs_view(items@), limit as int),
{
    let ghost entries = pairs_view(items@);
    let mut sorted_v: Vec<(String, u16)> = Vec::new();
    let mut i: usize = 0;
    while i < items.len()
        invariant
            0 <= i <= items.len(),
            entries == pairs_view(items@),
            sorted_v.len() == i,
            pairs_view(sorted_v@) == sort_entries(entries.take(i as int)),
        decreases items.len() - i,
    {
        let ghost e = entries[i as int];
        let mut j: usize = 0;
        while j < sorted_v.len() && !entry_before(
            items[i].1,
            items[i].0.as_str(),
            sorted_v[j].1,
            sorted_v[j].0.as_str(),
        )
            invariant
                0 <= j <= sorted_v.len(),
                0 <= i < items.len(),
                e == pairs_view(items@)[i as int],
                forall|k: int| 0 <= k < j ==> !entry_lt(e, #[trigger] pairs_view(sorted_v@)[k]),
            decreases sorted_v.len() - j,
        {
            j = j + 1;
        }
        let ghost pre = pairs_view(sorted_v@);
        proof {
            lemma_insert_sorted_at(pre, e, j as int);
        }
        let pair = (items[i].0.clone(), items[i].1);
        sorted_v.insert(j, pair);
        proof {
            assert(pairs_view(sorted_v@) =~= pre.insert(j as int, e));
            assert(entries.take(i + 1) =~= entries.take(i as int).push(e));
            assert(entries.take(i + 1).drop_last() =~= entries.take(i as int));
            assert(sort_entries(entries.take(i + 1)) == insert_sorted(pre, e));
        }
        i = i + 1;
    }
    let n = sorted_v.len();
    proof {
        assert(entries.take(n as int) =~= entries);
    }
    let ghost sorted_spec = sort_entries(entries);
    let end: usize = if n <= limit {
        n
    } else {
        let boundary: u16 = sorted_v[limit - 1].1;
        let mut e2: usize = limit;
        while e2 < n && sorted_v[e2].1 == boundary
            invariant
                limit <= e2 <= n,
                n == sorted_v.len(),
                pairs_view(sorted_v@) == sorted_spec,
                boundary == sorted_spec[limit - 1].metric,
                forall|k: int| limit <= k < e2 ==> (#[trigger] sorted_spec[k]).metric == boundary,
            decreases n - e2,
        {
            e2 = e2 + 1;
        }
        proof {
            lemma_tie_end_at(sorted_spec, boundary, limit as int, e2 as int);
        }
        e2
    };
    proof {
        assert(end == cut_len(sorted_spec, limit as int));
    }
    let mut r: Vec<String> = Vec::new();
    let mut k: usize = 0;
    while k < end
        invariant
            0 <= k <= end,
            end <= n,
            n == sorted_v.len(),
            pairs_view(sorted_v@) == sorted_spec,
            end == cut_len(sorted_spec, limit as int),
            r.len() == k,
            forall|m: int| 0 <= m < k ==> r.deep_view()[m] == sorted_spec[m].id,
        decreases end - k,
    {
        let ghost pre_dv = r.deep_view();
        r.push(sorted_v[k].0.clone());
        proof {
            assert(r.deep_view() =~= pre_dv.push(sorted_v@[k as int].0@));
            assert(sorted_spec[k as int].id == sorted_v@[k as int].0@);
        }
        k = k + 1;
    }
    proof {
        assert(r.deep_view() =~= rank_spec(entries, limit as int));
    }
    r
}

/// Law: the ranked entries are strictly sorted — metric descending, and
/// among entries with equal metric, the lexicographically smaller
/// identifier comes first.
pub proof fn lemma_rank_sorted(entries: Seq<Entry>, limit: int)
    requires
        distinct_ids(entries),
        limit >= 1,
    ensures
        sorted(rank_entries(entries, limit)),
        forall|i: int, j: int|
            0 <= i < j < rank_entries(entries, limit).len() ==> (#[trigger] rank_entries(
                entries,
                limit,
            )[i]).metric >= (#[trigger] rank_entries(entries, limit)[j]).metric,
        forall|i: int, j: int|
            0 <= i < j < rank_entries(entries, limit).len() && (#[trigger] rank_entries(
                entries,
                limit,
            )[i]).metric == (#[trigger] rank_entries(entries, limit)[j]).metric ==> seq_lt(
                rank_entries(entries, limit)[i].id,
                rank_entries(entries, limit)[j].id,
            ),
{
    lemma_sort_entries(entries);
    lemma_cut_len_bounds(entries, limit);
    let s = sort_entries(entries);
    let r = rank_entries(entries, limit);
    assert(forall|i: int| 0 <= i < r.len() ==> r[i] == s[i]);
    assert forall|i: int, j: int| 0 <= i < j < r.len() implies (#[trigger] r[i]).metric
        >= (#[trigger] r[j]).metric by {
        assert(entry_lt(s[i], s[j]));
    }
    assert forall|i: int, j: int|
        0 <= i < j < r.len() && (#[trigger] r[i]).metric == (#[trigger] r[j]).metric implies seq_lt(
        r[i].id,
        r[j].id,
    ) by {
        assert(entry_lt(s[i], s[j]));
    }
}

/// The cutoff stays within the sorted sequence and keeps at least
/// `min(limit, |entries|)` entries.
proof fn lemma_cut_len_bounds(entries: Seq<Entry>, limit: int)
    requires
        distinct_ids(entries),
        limit >= 1,
    ensures
        sort_entries(entries).len() == entries.len(),
        entries.len() <= limit ==> cut_len(sort_entries(entries), limit) == entries.len(),
        entries.len() > limit ==> limit <= cut_len(sort_entries(entries), limit) <= entries.len(),
        rank_entries(entries, limit).len() == cut_len(sort_entries(entries), limit),
{
    lemma_sort_entries(entries);
    let s = sort_entries(entries);
    if s.len() > limit {
        lemma_tie_end(s, s[limit - 1].metric, limit);
    }
}

/// Law: every ranked identifier names a member of the input, and no
/// identifier appears twice.
pub proof fn lemma_rank_membership(entries: Seq<Entry>, limit: int)
    requires
        distinct_ids(entries),
        limit >= 1,
    ensures
        forall|m: int|
            0 <= m < rank_entries(entries, limit).len() ==> entries.contains(
                #[trigger] rank_entries(entries, limit)[m],
            ),
        distinct_ids(rank_entries(entries, limit)),
{
    lemma_sort_entries(entries);
    lemma_cut_len_bounds(entries, limit);
    let s = sort_entries(entries);
    let r = rank_entries(entries, limit);
    assert forall|m: int| 0 <= m < r.len() implies entries.contains(#[trigger] r[m]) by {
        assert(r[m] == s[m]);
        assert(s.contains(s[m]));
    }
    assert forall|i: int, j: int| 0 <= i < j < r.len() implies r[i].id != r[j].id by {
        assert(entry_lt(s[i], s[j]));
        lemma_entry_lt_irrefl(s[i]);
        lemma_seq_lt_trichotomy(s[i].id, s[j].id);
    }
}

/// Law: the ranking keeps at least `min(limit, |entries|)` entries; it
/// keeps exactly that many when no tie straddles the cutoff, keeps every
/// entry whose metric equals the metric at the cutoff position, and drops
/// only entries with a strictly smaller metric.
pub proof fn lemma_rank_len(entries: Seq<Entry>, limit: int)
    requires
        distinct_ids(entries),
        limit >= 1,
    ensures
        entries.len() <= limit ==> rank_entries(entries, limit).len() == entries.len(),
        entries.len() > limit ==> {
            let s = sort_entries(entries);
            let c = rank_entries(entries, limit).len();
            let boundary = s[limit - 1].metric;
            &&& limit <= c <= entries.len()
            &&& (forall|k: int| limit <= k < c ==> (#[trigger] s[k]).metric == boundary)
            &&& (forall|k: int| c <= k < s.len() ==> (#[trigger] s[k]).metric < boundary)
            &&& (c == limit <==> s[limit].metric != boundary)
        },
{
    lemma_sort_entries(entries);
    let s = sort_entries(entries);
    if entries.len() > limit {
        let boundary = s[limit - 1].metric;
        lemma_tie_end(s, boundary, limit);
        let c = tie_end(s, boundary, limit);
        assert(rank_entries(entries, limit).len() == c);
        assert forall|k: int| c <= k < s.len() implies (#[trigger] s[k]).metric < boundary by {
            assert(c < s.len());
            assert(s[c].metric != boundary);
            assert(entry_lt(s[limit - 1], s[c]));
            assert(s[c].metric <= boundary);
            if k > c {
                assert(entry_lt(s[c], s[k]));
            }
        }
        if c > limit {
            assert(s[limit].metric == boundary);
        }
    }
}

/// Law: ranking an empty collection yields an empty sequence.
pub proof fn lemma_rank_empty(limit: int)
    requires
        limit >= 1,
    ensures
        rank_spec(Seq::<Entry>::empty(), limit) == Seq::<Seq<char>>::empty(),
{
    assert(rank_spec(Seq::<Entry>::empty(), limit) =~= Seq::<Seq<char>>::empty());
}

/// Law: the ranking is a function of the entries and the limit alone, so
/// ranking an unmutated collection twice yields identical sequences.
pub proof fn lemma_rank_deterministic(
    entries: Seq<Entry>,
    limit: int,
    r1: Seq<Seq<char>>,
    r2: Seq<Seq<char>>,
)
    requires
        r1 == rank_spec(entries, limit),
        r2 == rank_spec(entries, limit),
    ensures
        r1 == r2,
{
}

} // verus!
