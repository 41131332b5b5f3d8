//! Newest-first ordering: the stable descending sort that every list of
//! projects and commits goes through, with its laws (ordered, a permutation,
//! equal keys keep their order).

use vstd::prelude::*;

use crate::protocol::{commits_view, projects_view, CommitSummary, CommitSummaryView, Project, ProjectView};

verus! {

/// Insert `x` after every element whose key is at least its key.
pub open spec fn insert_desc<A>(sorted: Seq<A>, x: A, key: spec_fn(A) -> int) -> Seq<A>
    decreases sorted.len(),
{
    if sorted.len() == 0 {
        seq![x]
    } else if key(sorted[0]) < key(x) {
        seq![x] + sorted
    } else {
        seq![sorted[0]] + insert_desc(sorted.drop_first(), x, key)
    }
}

/// Stable sort by descending key (`sort_by_key(|x| Reverse(key(x)))`).
pub open spec fn sort_desc<A>(s: Seq<A>, key: spec_fn(A) -> int) -> Seq<A>
    decreases s.len(),
{
    if s.len() == 0 {
        Seq::empty()
    } else {
        insert_desc(sort_desc(s.drop_last(), key), s.last(), key)
    }
}

/// Keys never increase along the sequence.
pub open spec fn is_desc<A>(s: Seq<A>, key: spec_fn(A) -> int) -> bool {
    forall|i: int, j: int| 0 <= i <= j < s.len() ==> key(s[j]) <= key(s[i])
}

pub open spec fn commit_time(c: CommitSummaryView) -> int {
    c.time_unix as int
}

pub open spec fn touched(p: ProjectView) -> int {
    p.last_touched_unix as int
}

/// Sort key of commits: their time.
pub open spec fn by_time() -> spec_fn(CommitSummaryView) -> int {
    |c: CommitSummaryView| commit_time(c)
}

/// Sort key of projects: when they were last touched.
pub open spec fn by_touched() -> spec_fn(ProjectView) -> int {
    |p: ProjectView| touched(p)
}

/// Inserting at the first position whose key is smaller is `insert_desc`.
pub proof fn lemma_insert_at<A>(sorted: Seq<A>, x: A, key: spec_fn(A) -> int, p: int)
    requires
        0 <= p <= sorted.len(),
        forall|k: int| 0 <= k < p ==> key(sorted[k]) >= key(x),
        p == sorted.len() || key(sorted[p]) < key(x),
    ensures
        insert_desc(sorted, x, key) == sorted.insert(p, x),
    decreases p,
{
    if sorted.len() == 0 {
        assert(sorted.insert(p, x) =~= seq![x]);
    } else if p == 0 {
        assert(sorted.insert(0, x) =~= seq![x] + sorted);
    } else {
        let d = sorted.drop_first();
        assert forall|k: int| 0 <= k < p - 1 implies key(d[k]) >= key(x) by {
            assert(d[k] == sorted[k + 1]);
        }
        if p - 1 < d.len() {
            assert(d[p - 1] == sorted[p]);
        }
        lemma_insert_at(d, x, key, p - 1);
        assert(seq![sorted[0]] + d.insert(p - 1, x) =~= sorted.insert(p, x));
    }
}

proof fn lemma_insert_desc_props<A>(sorted: Seq<A>, x: A, key: spec_fn(A) -> int)
    requires
        is_desc(sorted, key),
    ensures
        is_desc(insert_desc(sorted, x, key), key),
        insert_desc(sorted, x, key).to_multiset() == sorted.to_multiset().insert(x),
        insert_desc(sorted, x, key).len() == sorted.len() + 1,
    decreases sorted.len(),
{
    broadcast use vstd::seq_lib::group_to_multiset_ensures;

    if sorted.len() == 0 {
        assert(seq![x] =~= Seq::<A>::empty().push(x));
    } else if key(sorted[0]) < key(x) {
        let r = seq![x] + sorted;
        assert(r =~= sorted.insert(0, x));
        vstd::seq_lib::lemma_seq_union_to_multiset_commutative(seq![x], sorted);
        assert(seq![x] =~= Seq::<A>::empty().push(x));
        assert(sorted + seq![x] =~= sorted.push(x));
        vstd::seq_lib::lemma_multiset_commutative(seq![x], sorted);
        vstd::seq_lib::lemma_multiset_commutative(sorted, seq![x]);
    } else {
        let d = sorted.drop_first();
        assert(is_desc(d, key)) by {
            assert forall|i: int, j: int| 0 <= i <= j < d.len() implies key(d[j]) <= key(d[i]) by {
                assert(d[i] == sorted[i + 1]);
                assert(d[j] == sorted[j + 1]);
            }
        }
        lemma_insert_desc_props(d, x, key);
        let t = insert_desc(d, x, key);
        let r = seq![sorted[0]] + t;
        assert forall|i: int, j: int| 0 <= i <= j < r.len() implies key(r[j]) <= key(r[i]) by {
            if i == 0 && j > 0 {
                // every element of t is x or an element of d
                assert(r[j] == t[j - 1]);
                assert(t.to_multiset().count(t[j - 1]) > 0);
                assert(t.to_multiset() == d.to_multiset().insert(x));
                if t[j - 1] != x {
                    assert(d.to_multiset().count(t[j - 1]) > 0);
                    assert(d.contains(t[j - 1]));
                    let k = choose|k: int| 0 <= k < d.len() && d[k] == t[j - 1];
                    assert(d[k] == sorted[k + 1]);
                }
            } else if i > 0 {
                assert(r[i] == t[i - 1]);
                assert(r[j] == t[j - 1]);
            }
        }
        vstd::seq_lib::lemma_multiset_commutative(seq![sorted[0]], t);
        vstd::seq_lib::lemma_multiset_commutative(seq![sorted[0]], d);
        assert(seq![sorted[0]] + d =~= sorted);
    }
}

/// The sort is ordered and a permutation of its input.
pub proof fn lemma_sort_desc<A>(s: Seq<A>, key: spec_fn(A) -> int)
    ensures
        is_desc(sort_desc(s, key), key),
        sort_desc(s, key).to_multiset() == s.to_multiset(),
        sort_desc(s, key).len() == s.len(),
    decreases s.len(),
{
    broadcast use vstd::seq_lib::group_to_multiset_ensures;

    if s.len() > 0 {
        lemma_sort_desc(s.drop_last(), key);
        lemma_insert_desc_props(sort_desc(s.drop_last(), key), s.last(), key);
        assert(s.drop_last().push(s.last()) =~= s);
    }
}

/// Holds of the elements whose key is `k`.
pub open spec fn with_key<A>(key: spec_fn(A) -> int, k: int) -> spec_fn(A) -> bool {
    |x: A| key(x) == k
}

proof fn lemma_filter_none<A>(s: Seq<A>, pred: spec_fn(A) -> bool)
    requires
        forall|i: int| 0 <= i < s.len() ==> !pred(#[trigger] s[i]),
    ensures
        s.filter(pred) == Seq::<A>::empty(),
    decreases s.len(),
{
    reveal(Seq::filter);
    if s.len() > 0 {
        let d = s.drop_last();
        assert forall|i: int| 0 <= i < d.len() implies !pred(#[trigger] d[i]) by {
            assert(d[i] == s[i]);
        }
        lemma_filter_none(d, pred);
        assert(!pred(s[s.len() - 1]));
    } else {
        assert(s =~= Seq::<A>::empty());
    }
}

proof fn lemma_single_filter<A>(x: A, pred: spec_fn(A) -> bool)
    ensures
        seq![x].filter(pred) == if pred(x) {
            seq![x]
        } else {
            Seq::<A>::empty()
        },
{
    reveal(Seq::filter);
    assert(seq![x].drop_last() =~= Seq::<A>::empty());
    assert(Seq::<A>::empty().filter(pred) =~= Seq::<A>::empty());
    assert(Seq::<A>::empty().push(x) =~= seq![x]);
}

proof fn lemma_insert_desc_filter<A>(sorted: Seq<A>, x: A, key: spec_fn(A) -> int, k: int)
    requires
        is_desc(sorted, key),
    ensures
        insert_desc(sorted, x, key).filter(with_key(key, k)) == if key(x) == k {
            sorted.filter(with_key(key, k)).push(x)
        } else {
            sorted.filter(with_key(key, k))
        },
    decreases sorted.len(),
{
    let pred = with_key(key, k);
    lemma_single_filter(x, pred);
    if sorted.len() == 0 {
        reveal(Seq::filter);
        assert(sorted.filter(pred) =~= Seq::<A>::empty());
        assert(Seq::<A>::empty().push(x) =~= seq![x]);
    } else if key(sorted[0]) < key(x) {
        Seq::filter_distributes_over_add(seq![x], sorted, pred);
        if key(x) == k {
            assert forall|i: int| 0 <= i < sorted.len() implies !pred(#[trigger] sorted[i]) by {
                assert(key(sorted[i]) <= key(sorted[0]));
            }
            lemma_filter_none(sorted, pred);
            assert(seq![x] + Seq::<A>::empty() =~= Seq::<A>::empty().push(x));
        } else {
            assert(Seq::<A>::empty() + sorted.filter(pred) =~= sorted.filter(pred));
        }
    } else {
        let t = sorted.drop_first();
        assert(is_desc(t, key)) by {
            assert forall|i: int, j: int| 0 <= i <= j < t.len() implies key(t[j]) <= key(t[i]) by {
                assert(t[i] == sorted[i + 1] && t[j] == sorted[j + 1]);
            }
        }
        lemma_insert_desc_filter(t, x, key, k);
        lemma_single_filter(sorted[0], pred);
        Seq::filter_distributes_over_add(seq![sorted[0]], insert_desc(t, x, key), pred);
        Seq::filter_distributes_over_add(seq![sorted[0]], t, pred);
        assert(seq![sorted[0]] + t =~= sorted);
        let a = seq![sorted[0]].filter(pred);
        if key(x) == k {
            assert(a + t.filter(pred).push(x) =~= (a + t.filter(pred)).push(x));
        }
    }
}

/// The sort is stable: for every key value, the elements with that key
/// come out in the order they went in.
pub proof fn law_sort_is_stable<A>(s: Seq<A>, key: spec_fn(A) -> int, k: int)
    ensures
        sort_desc(s, key).filter(with_key(key, k)) == s.filter(with_key(key, k)),
    decreases s.len(),
{
    let pred = with_key(key, k);
    if s.len() == 0 {
        assert(sort_desc(s, key) =~= s);
    } else {
        let d = s.drop_last();
        let x = s.last();
        law_sort_is_stable(d, key, k);
        lemma_sort_desc(d, key);
        lemma_insert_desc_filter(sort_desc(d, key), x, key, k);
        reveal(Seq::filter);
        assert(s.filter(pred) == if pred(x) {
            d.filter(pred).push(x)
        } else {
            d.filter(pred)
        });
    }
}

/// Commits newest first (stable).
pub fn sort_commits_desc(v: Vec<CommitSummary>) -> (r: Vec<CommitSummary>)
    ensures
        commits_view(r@) == sort_desc(commits_view(v@), by_time()),
{
    let ghost input = commits_view(v@);
    let mut src = v;
    let mut out: Vec<CommitSummary> = Vec::new();
    let n = src.len();
    let mut k: usize = 0;
    while k < n
        invariant
            src@.len() == n - k,
            k <= n,
            input.len() == n,
            forall|q: int| 0 <= q < n - k ==> #[trigger] src@[q]@ == input[k + q],
            commits_view(out@) == sort_desc(input.subrange(0, k as int), by_time()),
        decreases n - k,
    {
        let x = src.remove(0);
        assert(x@ == input[k as int]);
        let t = x.time_unix;
        let mut p: usize = 0;
        while p < out.len() && out[p].time_unix >= t
            invariant
                p <= out@.len(),
                forall|q: int| 0 <= q < p ==> out@[q].time_unix >= t,
            decreases out.len() - p,
        {
            p += 1;
        }
        let ghost before = commits_view(out@);
        proof {
            assert forall|q: int| 0 <= q < p implies commit_time(before[q]) >= commit_time(x@) by {
                assert(before[q] == out@[q]@);
            }
            if p < before.len() {
                assert(before[p as int] == out@[p as int]@);
                assert(commit_time(before[p as int]) < commit_time(x@));
            }
            lemma_insert_at(before, x@, by_time(), p as int);
        }
        out.insert(p, x);
        proof {
            assert(commits_view(out@) =~= before.insert(p as int, x@));
            let pre = input.subrange(0, k as int);
            let nxt = input.subrange(0, k + 1);
            assert(nxt.drop_last() =~= pre);
            assert(nxt.last() == x@);
            assert forall|q: int| 0 <= q < n - (k + 1) implies #[trigger] src@[q]@ == input[(k + 1)
                + q] by {
                assert(src@[q]@ == input[k + (q + 1)]);
            }
        }
        k += 1;
    }
    assert(input.subrange(0, n as int) =~= input);
    out
}

/// Projects newest-touched first (stable).
pub fn sort_projects_desc(v: Vec<Project>) -> (r: Vec<Project>)
    ensures
        projects_view(r@) == sort_desc(projects_view(v@), by_touched()),
{
    let ghost input = projects_view(v@);
    let mut src = v;
    let mut out: Vec<Project> = Vec::new();
    let n = src.len();
    let mut k: usize = 0;
    while k < n
        invariant
            src@.len() == n - k,
            k <= n,
            input.len() == n,
            forall|q: int| 0 <= q < n - k ==> #[trigger] src@[q]@ == input[k + q],
            projects_view(out@) == sort_desc(input.subrange(0, k as int), by_touched()),
        decreases n - k,
    {
        let x = src.remove(0);
        assert(x@ == input[k as int]);
        let t = x.last_touched_unix;
        let mut p: usize = 0;
        while p < out.len() && out[p].last_touched_unix >= t
            invariant
                p <= out@.len(),
                forall|q: int| 0 <= q < p ==> out@[q].last_touched_unix >= t,
            decreases out.len() - p,
        {
            p += 1;
        }
        let ghost before = projects_view(out@);
        proof {
            assert forall|q: int| 0 <= q < p implies touched(before[q]) >= touched(x@) by {
                assert(before[q] == out@[q]@);
            }
            if p < before.len() {
                assert(before[p as int] == out@[p as int]@);
                assert(touched(before[p as int]) < touched(x@));
            }
            lemma_insert_at(before, x@, by_touched(), p as int);
        }
        out.insert(p, x);
        proof {
            assert(projects_view(out@) =~= before.insert(p as int, x@));
            let pre = input.subrange(0, k as int);
            let nxt = input.subrange(0, k + 1);
            assert(nxt.drop_last() =~= pre);
            assert(nxt.last() == x@);
            assert forall|q: int| 0 <= q < n - (k + 1) implies #[trigger] src@[q]@ == input[(k + 1)
                + q] by {
                assert(src@[q]@ == input[k + (q + 1)]);
            }
        }
        k += 1;
    }
    assert(input.subrange(0, n as int) =~= input);
    out
}

/// A timeline entry: the project's name and one of its commits.
pub open spec fn entries_view(v: Seq<(String, CommitSummary)>) -> Seq<(Seq<char>, CommitSummaryView)> {
    v.map_values(|e: (String, CommitSummary)| (e.0@, e.1@))
}

/// Sort key of timeline entries: the commit's time.
pub open spec fn by_entry_time() -> spec_fn((Seq<char>, CommitSummaryView)) -> int {
    |e: (Seq<char>, CommitSummaryView)| e.1.time_unix as int
}

/// Timeline entries newest first (stable).
pub fn sort_entries_desc(v: Vec<(String, CommitSummary)>) -> (r: Vec<(String, CommitSummary)>)
    ensures
        entries_view(r@) == sort_desc(entries_view(v@), by_entry_time()),
{
    let ghost input = entries_view(v@);
    let mut src = v;
    let mut out: Vec<(String, CommitSummary)> = Vec::new();
    let n = src.len();
    let mut k: usize = 0;
    while k < n
        invariant
            src@.len() == n - k,
            k <= n,
            input.len() == n,
            forall|q: int| 0 <= q < n - k ==> #[trigger] entries_view(src@)[q] == input[k + q],
            entries_view(out@) == sort_desc(input.subrange(0, k as int), by_entry_time()),
        decreases n - k,
    {
        let ghost s0 = entries_view(src@);
        assert(s0[0] == input[k as int]);
        let x = src.remove(0);
        let ghost xv = (x.0@, x.1@);
        assert(xv == input[k as int]);
        let t = x.1.time_unix;
        let mut p: usize = 0;
        while p < out.len() && out[p].1.time_unix >= t
            invariant
                p <= out@.len(),
                forall|q: int| 0 <= q < p ==> out@[q].1.time_unix >= t,
            decreases out.len() - p,
        {
            p += 1;
        }
        let ghost before = entries_view(out@);
        proof {
            assert forall|q: int| 0 <= q < p implies (by_entry_time())(before[q]) >= (by_entry_time())(xv) by {
                assert(before[q].1 == out@[q].1@);
            }
            if p < before.len() {
                assert(before[p as int].1 == out@[p as int].1@);
            }
            lemma_insert_at(before, xv, by_entry_time(), p as int);
        }
        out.insert(p, x);
        proof {
            assert(entries_view(out@) =~= before.insert(p as int, xv));
            let pre = input.subrange(0, k as int);
            let nxt = input.subrange(0, k + 1);
            assert(nxt.drop_last() =~= pre);
            assert(nxt.last() == xv);
            assert forall|q: int| 0 <= q < n - (k + 1) implies #[trigger] entries_view(src@)[q] == input[(k + 1) + q] by {
                assert(entries_view(src@)[q] == s0[q + 1]);
            }
        }
        k += 1;
    }
    assert(input.subrange(0, n as int) =~= input);
    out
}

} // verus!
