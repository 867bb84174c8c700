//! Fuzzy search scoring for launcher entries.
use vstd::prelude::*;
use crate::desktop::DesktopEntry;
use crate::strs::{
    chars_of, contains, contains_chars, lowercase, occurs_at, starts_with, starts_with_chars, to_lowercase,
};

verus! {

/// A scored search result.
pub struct SearchResult {
    pub index: usize,
    pub score: i32,
}

/// First position at or after `from` where `t` holds `c`.
pub open spec fn first_from(t: Seq<char>, c: char, from: int) -> Option<int>
    decreases t.len() - from,
{
    if from < 0 || from >= t.len() {
        None
    } else if t[from] == c {
        Some(from)
    } else {
        first_from(t, c, from + 1)
    }
}

/// Greedy in-order match of the characters of `q` in `t` from position `from`:
/// each character is matched at its first occurrence after the previous match.
/// A match right after the previous match scores 5, otherwise 2; a match in the
/// first five positions of `t` scores 3 more. `None` when some character is missing.
pub open spec fn fuzzy_spec(t: Seq<char>, q: Seq<char>, from: int, prev: bool) -> Option<int>
    decreases q.len(),
{
    if q.len() == 0 {
        Some(0)
    } else {
        match first_from(t, q[0], from) {
            None => None,
            Some(j) => match fuzzy_spec(t, q.drop_first(), j + 1, true) {
                None => None,
                Some(rest) => Some(
                    (if prev && j == from {
                        5int
                    } else {
                        2int
                    }) + (if j < 5 {
                        3int
                    } else {
                        0int
                    }) + rest,
                ),
            },
        }
    }
}

/// `q` is a subsequence of `t` from position `from`.
pub open spec fn is_subseq_from(t: Seq<char>, q: Seq<char>, from: int) -> bool
    decreases q.len(),
{
    if q.len() == 0 {
        true
    } else {
        match first_from(t, q[0], from) {
            None => false,
            Some(j) => is_subseq_from(t, q.drop_first(), j + 1),
        }
    }
}

/// Score of one entry against an already lower-cased query, from lower-cased fields.
pub open spec fn score_spec(name: Seq<char>, cmd: Seq<char>, comment: Seq<char>, q: Seq<char>) -> i32 {
    if name == q {
        1000
    } else {
        let base = (if starts_with(name, q) { 200int } else { 0int }) + (if contains(name, q) {
            100int
        } else {
            0int
        }) + (if starts_with(cmd, q) { 80int } else { 0int }) + (if contains(cmd, q) {
            40int
        } else {
            0int
        }) + (if contains(comment, q) { 20int } else { 0int });
        if base == 0 {
            match fuzzy_spec(name, q, 0, false) {
                Some(s) => s as i32,
                None => 0,
            }
        } else {
            base as i32
        }
    }
}

/// Score of entry `e` against the query `query` (compared in lower case).
pub open spec fn entry_score(e: DesktopEntry, query: Seq<char>) -> i32 {
    score_spec(lowercase(e.name@), lowercase(e.exec_line@), lowercase(e.comment@), lowercase(query))
}

/// Simple fuzzy matching: each query char must appear in order in the target.
/// Score based on consecutive matches and early matches (see `fuzzy_spec`;
/// the result is that score as an `i32`).
fn fuzzy_score(target: &[char], query: &[char]) -> (r: Option<i32>)
    ensures
        r is Some <==> fuzzy_spec(target@, query@, 0, false) is Some,
        r matches Some(s) ==> s == fuzzy_spec(target@, query@, 0, false)->0 as i32,
{
    let ghost t = target@;
    let ghost q = query@;
    let mut ti: usize = 0;
    let mut score: i128 = 0;
    let mut prev_match = false;
    let mut k: usize = 0;
    assert(q.skip(0) == q);
    while k < query.len()
        invariant
            0 <= k <= q.len(),
            0 <= ti <= t.len(),
            t == target@,
            q == query@,
            0 <= score <= 8 * k,
            fuzzy_spec(t, q, 0, false) == (match fuzzy_spec(t, q.skip(k as int), ti as int, prev_match) {
                Some(rest) => Some(score + rest),
                None => None::<int>,
            }),
        decreases q.len() - k,
    {
        let qc = query[k];
        let start_ti = ti;
        let ghost start = ti as int;
        assert(q.skip(k as int)[0] == qc);
        assert(q.skip(k as int).drop_first() == q.skip(k + 1));
        while ti < target.len() && target[ti] != qc
            invariant
                start <= ti <= t.len(),
                t == target@,
                first_from(t, qc, start) == first_from(t, qc, ti as int),
            decreases t.len() - ti,
        {
            ti = ti + 1;
        }
        if ti == target.len() {
            return None;
        }
        let near: i128 = if prev_match && ti == start_ti { 5 } else { 2 };
        let early: i128 = if ti < 5 { 3 } else { 0 };
        score = score + near + early;
        prev_match = true;
        ti = ti + 1;
        k = k + 1;
    }
    assert(q.skip(k as int).len() == 0);
    Some(score as i32)
}

/// Score of entry `entry` against the lower-cased query `query`.
fn score_entry(entry: &DesktopEntry, query: &[char]) -> (r: i32)
    ensures
        r == score_spec(
            lowercase(entry.name@),
            lowercase(entry.exec_line@),
            lowercase(entry.comment@),
            query@,
        ),
{
    let name_s = to_lowercase(entry.name.as_str());
    let exec_s = to_lowercase(entry.exec_line.as_str());
    let comment_s = to_lowercase(entry.comment.as_str());
    let name = chars_of(name_s.as_str());
    let exec_c = chars_of(exec_s.as_str());
    let comment = chars_of(comment_s.as_str());
    // exact name match — highest
    if crate::strs::eq_chars(name.as_slice(), query) {
        return 1000;
    }
    let mut score: i32 = 0;
    if starts_with_chars(name.as_slice(), query) {
        score = score + 200;
    }
    if contains_chars(name.as_slice(), query) {
        score = score + 100;
    }
    if starts_with_chars(exec_c.as_slice(), query) {
        score = score + 80;
    }
    if contains_chars(exec_c.as_slice(), query) {
        score = score + 40;
    }
    if contains_chars(comment.as_slice(), query) {
        score = score + 20;
    }
    // fuzzy char-by-char match on name
    if score == 0 {
        match fuzzy_score(name.as_slice(), query) {
            Some(s) => {
                score = s;
            },
            None => {},
        }
    }
    score
}

/// The results are strictly ordered: higher score first, equal scores by index.
pub open spec fn results_ordered(r: Seq<SearchResult>) -> bool {
    forall|a: int, b: int|
        0 <= a < b < r.len() ==> (#[trigger] r[a]).score > (#[trigger] r[b]).score || (
        r[a].score == r[b].score && r[a].index < r[b].index)
}

/// Every result names an entry below `n` whose score it carries, and that score is positive.
pub open spec fn results_sound(r: Seq<SearchResult>, entries: Seq<DesktopEntry>, query: Seq<char>, n: int) -> bool {
    forall|k: int|
        0 <= k < r.len() ==> 0 <= (#[trigger] r[k]).index < n && r[k].score == entry_score(
            entries[r[k].index as int],
            query,
        ) && r[k].score > 0
}

/// Every entry below `n` with a positive score appears among the results.
pub open spec fn results_complete(r: Seq<SearchResult>, entries: Seq<DesktopEntry>, query: Seq<char>, n: int) -> bool {
    forall|i: int|
        0 <= i < n && entry_score(#[trigger] entries[i], query) > 0 ==> exists|k: int|
            0 <= k < r.len() && r[k].index == i
}

/// Score all entries against `query`, return sorted by score (highest first).
/// Empty query returns all entries (in their order, score 0).
pub fn fuzzy_search(entries: &[DesktopEntry], query: &str) -> (r: Vec<SearchResult>)
    ensures
        query@.len() == 0 ==> r@.len() == entries@.len() && forall|k: int|
            0 <= k < r@.len() ==> (#[trigger] r@[k]).index == k && r@[k].score == 0,
        query@.len() > 0 ==> results_ordered(r@) && results_sound(
            r@,
            entries@,
            query@,
            entries@.len() as int,
        ) && results_complete(r@, entries@, query@, entries@.len() as int),
{
    if query.is_empty() {
        let mut r: Vec<SearchResult> = Vec::new();
        let mut i: usize = 0;
        while i < entries.len()
            invariant
                0 <= i <= entries@.len(),
                r@.len() == i,
                forall|k: int| 0 <= k < i ==> (#[trigger] r@[k]).index == k && r@[k].score == 0,
            decreases entries.len() - i,
        {
            r.push(SearchResult { index: i, score: 0 });
            i = i + 1;
        }
        return r;
    }
    let q_s = to_lowercase(query);
    let q = chars_of(q_s.as_str());
    let mut results: Vec<SearchResult> = Vec::new();
    let mut i: usize = 0;
    while i < entries.len()
        invariant
            0 <= i <= entries@.len(),
            q@ == lowercase(query@),
            results_ordered(results@),
            results_sound(results@, entries@, query@, i as int),
            results_complete(results@, entries@, query@, i as int),
        decreases entries.len() - i,
    {
        let s = score_entry(&entries[i], q.as_slice());
        if s > 0 {
            let mut pos: usize = 0;
            while pos < results.len() && results[pos].score >= s
                invariant
                    0 <= pos <= results@.len(),
                    forall|k: int| 0 <= k < pos ==> (#[trigger] results@[k]).score >= s,
                decreases results.len() - pos,
            {
                pos = pos + 1;
            }
            let ghost old_r = results@;
            results.insert(pos, SearchResult { index: i, score: s });
            proof {
                let nr = results@;
                assert(nr == old_r.insert(pos as int, SearchResult { index: i, score: s }));
                assert forall|a: int, b: int| 0 <= a < b < nr.len() implies (#[trigger] nr[a]).score
                    > (#[trigger] nr[b]).score || (nr[a].score == nr[b].score && nr[a].index
                    < nr[b].index) by {
                    if a < pos && b < pos {
                        assert(nr[a] == old_r[a] && nr[b] == old_r[b]);
                    } else if a < pos && b == pos {
                        assert(nr[a] == old_r[a]);
                        assert(old_r[a].score >= s);
                    } else if a < pos && b > pos {
                        assert(nr[a] == old_r[a] && nr[b] == old_r[b - 1]);
                    } else if a == pos {
                        assert(nr[b] == old_r[b - 1]);
                        assert(old_r[pos as int].score < s);
                        if b - 1 > pos {
                            assert(old_r[pos as int].score > old_r[b - 1].score || old_r[pos as int].score == old_r[b - 1].score);
                        }
                    } else {
                        assert(nr[a] == old_r[a - 1] && nr[b] == old_r[b - 1]);
                    }
                }
                assert forall|k: int| 0 <= k < nr.len() implies 0 <= (#[trigger] nr[k]).index < i
                    + 1 && nr[k].score == entry_score(entries@[nr[k].index as int], query@)
                    && nr[k].score > 0 by {
                    if k < pos {
                        assert(nr[k] == old_r[k]);
                    } else if k > pos {
                        assert(nr[k] == old_r[k - 1]);
                    }
                }
                assert forall|j: int|
                    0 <= j < i + 1 && entry_score(#[trigger] entries@[j], query@) > 0 implies exists|
                    k: int,
                | 0 <= k < nr.len() && nr[k].index == j by {
                    if j == i {
                        assert(nr[pos as int].index == j);
                    } else {
                        let k = choose|k: int| 0 <= k < old_r.len() && old_r[k].index == j;
                        if k < pos {
                            assert(nr[k].index == j);
                        } else {
                            assert(nr[k + 1].index == j);
                        }
                    }
                }
            }
        } else {
            proof {
                assert forall|j: int|
                    0 <= j < i + 1 && entry_score(#[trigger] entries@[j], query@) > 0 implies exists|
                    k: int,
                | 0 <= k < results@.len() && results@[k].index == j by {
                    if j < i {
                    }
                }
            }
        }
        i = i + 1;
    }
    results
}

/// `x` ranks before `y`: a higher score, or the same score and an earlier entry.
pub open spec fn ranks_before(x: SearchResult, y: SearchResult) -> bool {
    x.score > y.score || (x.score == y.score && x.index < y.index)
}

/// Two result lists ordered by rank that hold the same results are the same list.
proof fn lemma_ordered_same_members(a: Seq<SearchResult>, b: Seq<SearchResult>)
    requires
        results_ordered(a),
        results_ordered(b),
        forall|x: SearchResult| a.contains(x) <==> b.contains(x),
    ensures
        a == b,
    decreases a.len(),
{
    if a.len() == 0 {
        if b.len() > 0 {
            assert(b.contains(b[0]));
        }
        assert(a =~= b);
        return;
    }
    if b.len() == 0 {
        assert(a.contains(a[0]));
        return;
    }
    assert(a.contains(a[0]));
    assert(b.contains(b[0]));
    let j = choose|j: int| 0 <= j < b.len() && b[j] == a[0];
    let i = choose|i: int| 0 <= i < a.len() && a[i] == b[0];
    if a[0] != b[0] {
        assert(j > 0 && i > 0);
        assert(ranks_before(b[0], b[j]));
        assert(ranks_before(a[0], a[i]));
    }
    let (a1, b1) = (a.drop_first(), b.drop_first());
    assert forall|x: SearchResult| a1.contains(x) <==> b1.contains(x) by {
        if a1.contains(x) {
            let k = choose|k: int| 0 <= k < a1.len() && a1[k] == x;
            assert(a[k + 1] == x);
            assert(ranks_before(a[0], a[k + 1]));
            assert(b.contains(x));
            let m = choose|m: int| 0 <= m < b.len() && b[m] == x;
            assert(m != 0);
            assert(b1[m - 1] == x);
        }
        if b1.contains(x) {
            let k = choose|k: int| 0 <= k < b1.len() && b1[k] == x;
            assert(b[k + 1] == x);
            assert(ranks_before(b[0], b[k + 1]));
            assert(a.contains(x));
            let m = choose|m: int| 0 <= m < a.len() && a[m] == x;
            assert(m != 0);
            assert(a1[m - 1] == x);
        }
    }
    lemma_ordered_same_members(a1, b1);
    assert(a =~= b) by {
        assert forall|k: int| 0 <= k < a.len() implies a[k] == b[k] by {
            if k > 0 {
                assert(a[k] == a1[k - 1]);
                assert(b[k] == b1[k - 1]);
            }
        }
    }
}

/// The results of a non-empty query are determined by the entries and the query:
/// any two lists that are ordered, sound and complete for them are equal.
pub proof fn lemma_results_unique(r1: Seq<SearchResult>, r2: Seq<SearchResult>, entries: Seq<DesktopEntry>, q: Seq<char>)
    requires
        results_ordered(r1) && results_sound(r1, entries, q, entries.len() as int)
            && results_complete(r1, entries, q, entries.len() as int),
        results_ordered(r2) && results_sound(r2, entries, q, entries.len() as int)
            && results_complete(r2, entries, q, entries.len() as int),
    ensures
        r1 == r2,
{
    assert forall|x: SearchResult| r1.contains(x) implies r2.contains(x) by {
        let k = choose|k: int| 0 <= k < r1.len() && r1[k] == x;
        let i = x.index as int;
        assert(entry_score(entries[i], q) > 0);
        let m = choose|m: int| 0 <= m < r2.len() && r2[m].index == i;
        assert(r2[m] == x);
    }
    assert forall|x: SearchResult| r2.contains(x) implies r1.contains(x) by {
        let k = choose|k: int| 0 <= k < r2.len() && r2[k] == x;
        let i = x.index as int;
        assert(entry_score(entries[i], q) > 0);
        let m = choose|m: int| 0 <= m < r1.len() && r1[m].index == i;
        assert(r1[m] == x);
    }
    lemma_ordered_same_members(r1, r2);
}

/// The fuzzy matcher finds a score exactly when the query is a subsequence of the target.
pub proof fn lemma_fuzzy_iff_subsequence(t: Seq<char>, q: Seq<char>, from: int, prev: bool)
    ensures
        fuzzy_spec(t, q, from, prev) is Some <==> is_subseq_from(t, q, from),
    decreases q.len(),
{
    if q.len() > 0 {
        match first_from(t, q[0], from) {
            None => {},
            Some(j) => {
                lemma_fuzzy_iff_subsequence(t, q.drop_first(), j + 1, true);
            },
        }
    }
}

/// `p` stands in `t` at position `j`.
pub open spec fn stands_at(t: Seq<char>, p: Seq<char>, j: int) -> bool {
    0 <= j && j + p.len() <= t.len() && t.subrange(j, j + p.len()) == p
}

/// What an entry's text gives at least: the query (both in lower case) found anywhere
/// in the name scores at least 100, in the command line at least 40, in the comment
/// at least 20; an exact name scores 1000.
pub proof fn lemma_score_floors(e: DesktopEntry, query: Seq<char>)
    ensures
        lowercase(e.name@) == lowercase(query) ==> entry_score(e, query) == 1000,
        (exists|j: int| stands_at(lowercase(e.name@), lowercase(query), j)) ==> entry_score(e, query) >= 100,
        (exists|j: int| stands_at(lowercase(e.exec_line@), lowercase(query), j)) ==> entry_score(e, query) >= 40,
        (exists|j: int| stands_at(lowercase(e.comment@), lowercase(query), j)) ==> entry_score(e, query) >= 20,
{
    let q = lowercase(query);
    if exists|j: int| stands_at(lowercase(e.name@), q, j) {
        let j = choose|j: int| stands_at(lowercase(e.name@), q, j);
        assert(occurs_at(lowercase(e.name@), q, j));
    }
    if exists|j: int| stands_at(lowercase(e.exec_line@), q, j) {
        let j = choose|j: int| stands_at(lowercase(e.exec_line@), q, j);
        assert(occurs_at(lowercase(e.exec_line@), q, j));
    }
    if exists|j: int| stands_at(lowercase(e.comment@), q, j) {
        let j = choose|j: int| stands_at(lowercase(e.comment@), q, j);
        assert(occurs_at(lowercase(e.comment@), q, j));
    }
}

/// A search for a non-empty query lists every entry whose comment holds the query
/// (both in lower case) anywhere, at position `j`, with a score of at least 20.
pub proof fn lemma_comment_match_is_listed(r: Seq<SearchResult>, entries: Seq<DesktopEntry>, query: Seq<char>,
    i: int, j: int)
    requires
        query.len() > 0,
        results_sound(r, entries, query, entries.len() as int),
        results_complete(r, entries, query, entries.len() as int),
        0 <= i < entries.len(),
        stands_at(lowercase(entries[i].comment@), lowercase(query), j),
    ensures
        exists|k: int| 0 <= k < r.len() && r[k].index == i && r[k].score >= 20,
{
    lemma_score_floors(entries[i], query);
    assert(entry_score(entries[i], query) > 0);
    let k = choose|k: int| 0 <= k < r.len() && r[k].index == i;
    assert(r[k].score == entry_score(entries[i], query));
}

} // verus!
