//! Collecting the launcher's applications from the `.desktop` files of the XDG
//! application directories: earlier directories take precedence file by file (the
//! user's own directory comes first), and the list is sorted by name, ignoring case.
use vstd::prelude::*;
use crate::desktop::{DesktopEntry, cat_views, desktop_spec, parse_desktop_file};
use crate::strs::{chars_of, lowercase, str_eq, to_lowercase};
use crate::sway::is_perm;

verus! {

/// A `.desktop` file as read: its file name, its path, and its text.
pub struct DesktopFile {
    pub file_name: String,
    pub path: String,
    pub content: String,
}

/// `e` is what parsing file `f` gives.
pub open spec fn entry_of(e: DesktopEntry, f: DesktopFile) -> bool {
    desktop_spec(f.content@) matches Some(d) && {
        &&& e.name@ == d.0
        &&& e.exec_line@ == d.1
        &&& e.comment@ == d.2
        &&& e.icon@ == d.3
        &&& cat_views(e.categories@) == d.4
        &&& e.terminal == d.5
        &&& e.path@ == f.path@
    }
}

/// The first slot `k` of `m` whose file has name `name`.
pub open spec fn find_slot(files: Seq<DesktopFile>, m: Seq<int>, name: Seq<char>, k: int) -> Option<int>
    decreases m.len() - k,
{
    if k < 0 || k >= m.len() {
        None
    } else if files[m[k]].file_name@ == name {
        Some(k)
    } else {
        find_slot(files, m, name, k + 1)
    }
}

/// For the first `n` files: one slot per file name that parsed, in order of first
/// appearance, holding the index of the first file of that name that parsed.
pub open spec fn merge_idx(files: Seq<DesktopFile>, n: int) -> Seq<int>
    decreases n,
{
    if n <= 0 {
        Seq::empty()
    } else {
        let m = merge_idx(files, n - 1);
        let f = files[n - 1];
        if desktop_spec(f.content@) is None {
            m
        } else {
            match find_slot(files, m, f.file_name@, 0) {
                Some(_) => m,
                None => m.push(n - 1),
            }
        }
    }
}

/// `a` comes before `b` in code point order (the order of `String`'s `cmp`).
pub open spec fn lex_lt(a: Seq<char>, b: Seq<char>) -> bool
    decreases a.len(),
{
    if a.len() == 0 {
        b.len() > 0
    } else if b.len() == 0 {
        false
    } else if a[0] != b[0] {
        a[0] < b[0]
    } else {
        lex_lt(a.drop_first(), b.drop_first())
    }
}

proof fn lemma_lex_irrefl(a: Seq<char>)
    ensures
        !lex_lt(a, a),
    decreases a.len(),
{
    if a.len() > 0 {
        lemma_lex_irrefl(a.drop_first());
    }
}

proof fn lemma_lex_trans(a: Seq<char>, b: Seq<char>, c: Seq<char>)
    requires
        lex_lt(a, b),
        lex_lt(b, c),
    ensures
        lex_lt(a, c),
    decreases a.len(),
{
    if a.len() > 0 && b.len() > 0 && c.len() > 0 && a[0] == b[0] && b[0] == c[0] {
        lemma_lex_trans(a.drop_first(), b.drop_first(), c.drop_first());
    }
}

proof fn lemma_lex_total(a: Seq<char>, b: Seq<char>)
    ensures
        a == b || lex_lt(a, b) || lex_lt(b, a),
    decreases a.len(),
{
    if a.len() > 0 && b.len() > 0 && a[0] == b[0] {
        lemma_lex_total(a.drop_first(), b.drop_first());
        if a.drop_first() == b.drop_first() {
            assert(a =~= seq![a[0]] + a.drop_first());
            assert(b =~= seq![b[0]] + b.drop_first());
        }
    } else if a.len() == 0 && b.len() == 0 {
        assert(a =~= b);
    }
}

proof fn lemma_lex_asym(a: Seq<char>, b: Seq<char>)
    requires
        lex_lt(a, b),
    ensures
        !lex_lt(b, a),
{
    if lex_lt(b, a) {
        lemma_lex_trans(a, b, a);
        lemma_lex_irrefl(a);
    }
}

fn lex_less(a: &[char], b: &[char]) -> (r: bool)
    ensures
        r == lex_lt(a@, b@),
{
    let mut i: usize = 0;
    assert(a@.skip(0) == a@ && b@.skip(0) == b@);
    while i < a.len() && i < b.len() && a[i] == b[i]
        invariant
            i <= a@.len() && i <= b@.len(),
            a@.take(i as int) == b@.take(i as int),
            lex_lt(a@, b@) == lex_lt(a@.skip(i as int), b@.skip(i as int)),
        decreases a.len() - i,
    {
        assert(a@.skip(i as int).drop_first() == a@.skip(i + 1));
        assert(b@.skip(i as int).drop_first() == b@.skip(i + 1));
        assert(a@.take(i + 1) == a@.take(i as int).push(a@[i as int]));
        assert(b@.take(i + 1) == b@.take(i as int).push(b@[i as int]));
        i = i + 1;
    }
    if i == a.len() {
        i < b.len()
    } else if i == b.len() {
        false
    } else {
        a[i] < b[i]
    }
}

/// The sort key of an entry: its name in lower case.
pub open spec fn name_key(e: DesktopEntry) -> Seq<char> {
    lowercase(e.name@)
}

/// `r` holds the merged entries of `files`, sorted by name ignoring case, entries
/// with equal keys in merge order (`p` maps each position to its merge slot).
pub open spec fn collected(r: Seq<DesktopEntry>, files: Seq<DesktopFile>, p: Seq<int>) -> bool {
    let m = merge_idx(files, files.len() as int);
    &&& r.len() == m.len()
    &&& is_perm(p, m.len() as int)
    &&& forall|i: int| 0 <= i < r.len() ==> entry_of(#[trigger] r[i], files[m[p[i]]])
    &&& forall|i: int, j: int| 0 <= i < j < r.len() ==> !lex_lt(name_key(#[trigger] r[j]), name_key(#[trigger] r[i]))
    &&& forall|i: int, j: int| 0 <= i < j < r.len() && name_key(#[trigger] r[i]) == name_key(#[trigger] r[j])
        ==> p[i] < p[j]
}

fn find_name(names: &Vec<String>, name: &str) -> (r: Option<usize>)
    ensures
        match r {
            Some(k) => k < names@.len() && names@[k as int]@ == name@
                && forall|j: int| 0 <= j < k ==> (#[trigger] names@[j])@ != name@,
            None => forall|j: int| 0 <= j < names@.len() ==> (#[trigger] names@[j])@ != name@,
        },
{
    let mut k: usize = 0;
    while k < names.len()
        invariant
            k <= names@.len(),
            forall|j: int| 0 <= j < k ==> (#[trigger] names@[j])@ != name@,
        decreases names.len() - k,
    {
        if str_eq(names[k].as_str(), name) {
            return Some(k);
        }
        k = k + 1;
    }
    None
}

proof fn lemma_find_slot_some(files: Seq<DesktopFile>, m: Seq<int>, names: Seq<String>, name: Seq<char>,
    k: int, res: int)
    requires
        names.len() == m.len(),
        0 <= k <= res < m.len(),
        forall|j: int| 0 <= j < m.len() ==> (#[trigger] names[j])@ == files[m[j]].file_name@,
        forall|j: int| k <= j < res ==> (#[trigger] names[j])@ != name,
        names[res]@ == name,
    ensures
        find_slot(files, m, name, k) == Some(res),
    decreases res - k,
{
    assert(names[k]@ == files[m[k]].file_name@);
    if k < res {
        lemma_find_slot_some(files, m, names, name, k + 1, res);
    }
}

proof fn lemma_find_slot_none(files: Seq<DesktopFile>, m: Seq<int>, names: Seq<String>, name: Seq<char>, k: int)
    requires
        names.len() == m.len(),
        0 <= k <= m.len(),
        forall|j: int| 0 <= j < m.len() ==> (#[trigger] names[j])@ == files[m[j]].file_name@,
        forall|j: int| k <= j < m.len() ==> (#[trigger] names[j])@ != name,
    ensures
        find_slot(files, m, name, k) is None,
    decreases m.len() - k,
{
    if k < m.len() {
        assert(names[k]@ == files[m[k]].file_name@);
        lemma_find_slot_none(files, m, names, name, k + 1);
    }
}

/// The entries of `files` (given in directory order, user directory first): each
/// file name counts once, the first file of that name that parses wins, so an
/// earlier directory overrides a later one; the result is sorted by name ignoring
/// case, equal names in that order.
pub fn collect_entries(files: &[DesktopFile]) -> (r: Vec<DesktopEntry>)
    ensures
        exists|p: Seq<int>| collected(r@, files@, p),
{
    // merge by file name
    let mut entries: Vec<DesktopEntry> = Vec::new();
    let mut names: Vec<String> = Vec::new();
    let ghost mut m: Seq<int> = Seq::empty();
    let mut i: usize = 0;
    while i < files.len()
        invariant
            i <= files@.len(),
            m == merge_idx(files@, i as int),
            entries@.len() == names@.len() == m.len(),
            forall|k: int| 0 <= k < m.len() ==> 0 <= #[trigger] m[k] < i,
            forall|k: int| 0 <= k < m.len() ==> (#[trigger] names@[k])@ == files@[m[k]].file_name@,
            forall|k: int| 0 <= k < m.len() ==> entry_of(#[trigger] entries@[k], files@[m[k]]),
        decreases files.len() - i,
    {
        let f = &files[i];
        match parse_desktop_file(f.content.as_str(), f.path.as_str()) {
            Some(de) => {
                assert(entry_of(de, files@[i as int]));
                match find_name(&names, f.file_name.as_str()) {
                    Some(k) => {
                        proof {
                            lemma_find_slot_some(files@, m, names@, f.file_name@, 0, k as int);
                        }
                    },
                    None => {
                        proof {
                            lemma_find_slot_none(files@, m, names@, f.file_name@, 0);
                            m = m.push(i as int);
                        }
                        names.push(f.file_name.clone());
                        entries.push(de);
                    },
                }
            },
            None => {},
        }
        i = i + 1;
    }
    // sort keys: the lower-case names
    let n = entries.len();
    let mut keys: Vec<Vec<char>> = Vec::new();
    let mut k: usize = 0;
    while k < n
        invariant
            k <= n == entries@.len(),
            keys@.len() == k,
            forall|j: int| 0 <= j < k ==> (#[trigger] keys@[j])@ == name_key(entries@[j]),
        decreases n - k,
    {
        let low = to_lowercase(entries[k].name.as_str());
        keys.push(chars_of(low.as_str()));
        k = k + 1;
    }
    // stable insertion sort
    let ghost s = entries@;
    let mut v = entries;
    let ghost mut p: Seq<int> = Seq::new(n as nat, |j: int| j);
    let mut i: usize = 0;
    while i < n
        invariant
            i <= n == s.len() == v@.len() == keys@.len(),
            p.len() == n,
            forall|j: int| 0 <= j < n ==> #[trigger] v@[j] == s[p[j]],
            forall|j: int| 0 <= j < n ==> (#[trigger] keys@[j])@ == name_key(v@[j]),
            forall|j: int| 0 <= j < i ==> 0 <= #[trigger] p[j] < i,
            forall|j: int| i <= j < n ==> #[trigger] p[j] == j,
            forall|a: int, b: int| 0 <= a < b < i ==> #[trigger] p[a] != #[trigger] p[b],
            forall|a: int, b: int| 0 <= a < b < i ==> !lex_lt(name_key(#[trigger] v@[b]), name_key(#[trigger] v@[a])),
            forall|a: int, b: int| 0 <= a < b < i && name_key(#[trigger] v@[a]) == name_key(#[trigger] v@[b])
                ==> p[a] < p[b],
        decreases n - i,
    {
        let x = v.remove(i);
        let xk = keys.remove(i);
        let ghost p1 = p.remove(i as int);
        let mut j: usize = i;
        while j > 0 && lex_less(xk.as_slice(), keys[j - 1].as_slice())
            invariant
                j <= i < n,
                v@.len() == n - 1 && keys@.len() == n - 1,
                forall|t: int| j <= t < i ==> lex_lt(xk@, (#[trigger] keys@[t])@),
            decreases j,
        {
            j = j - 1;
        }
        let ghost v1 = v@;
        let ghost k1 = keys@;
        proof {
            assert(xk@ == name_key(x));
            assert forall|t: int| 0 <= t < n - 1 implies (#[trigger] k1[t])@ == name_key(v1[t]) by {
                if t < i {
                    assert(k1[t] == keys@[t]);
                }
            }
        }
        v.insert(j, x);
        keys.insert(j, xk);
        proof {
            p = p1.insert(j as int, i as int);
            assert forall|t: int| 0 <= t < n implies #[trigger] v@[t] == s[p[t]] by {
                if t < j {
                    assert(v@[t] == v1[t]);
                } else if t > j {
                    assert(v@[t] == v1[t - 1]);
                }
            }
            assert forall|t: int| 0 <= t < n implies (#[trigger] keys@[t])@ == name_key(v@[t]) by {
                if t < j {
                    assert(keys@[t] == k1[t] && v@[t] == v1[t]);
                } else if t > j {
                    assert(keys@[t] == k1[t - 1] && v@[t] == v1[t - 1]);
                }
            }
            assert forall|a: int, b: int| 0 <= a < b < i + 1 implies !lex_lt(name_key(#[trigger] v@[b]),
                name_key(#[trigger] v@[a])) by {
                let ka = name_key(v@[a]);
                let kb = name_key(v@[b]);
                if a == j as int {
                    // b is an element that was after the insertion point
                    assert(v@[b] == v1[b - 1]);
                    assert(lex_lt(xk@, k1[b - 1]@));
                    lemma_lex_asym(xk@, kb);
                } else if b == j as int {
                    assert(v@[a] == v1[a]);
                    if j > 0 {
                        assert(!lex_lt(xk@, k1[j - 1]@));
                        if a < j - 1 {
                            assert(v1[j - 1] == v@[j - 1]);
                            lemma_lex_total(ka, name_key(v1[j - 1]));
                            lemma_lex_total(name_key(v1[j - 1]), xk@);
                            if lex_lt(xk@, ka) {
                                if lex_lt(ka, name_key(v1[j - 1])) {
                                    lemma_lex_trans(xk@, ka, name_key(v1[j - 1]));
                                }
                            }
                        }
                    }
                } else {
                    let oa = if a < j { a } else { a - 1 };
                    let ob = if b < j { b } else { b - 1 };
                    assert(v@[a] == v1[oa] && v@[b] == v1[ob]);
                }
            }
            assert forall|a: int, b: int| 0 <= a < b < i + 1 && name_key(#[trigger] v@[a]) == name_key(#[trigger] v@[b])
                implies p[a] < p[b] by {
                if a == j as int {
                    assert(v@[b] == v1[b - 1]);
                    assert(lex_lt(xk@, k1[b - 1]@));
                    lemma_lex_irrefl(xk@);
                } else if b == j as int {
                    assert(p[a] == p1[a]);
                } else {
                    let oa = if a < j { a } else { a - 1 };
                    let ob = if b < j { b } else { b - 1 };
                    assert(v@[a] == v1[oa] && v@[b] == v1[ob]);
                    assert(p[a] == p1[oa] && p[b] == p1[ob]);
                }
            }
        }
        i = i + 1;
    }
    proof {
        assert(collected(v@, files@, p));
    }
    v
}

} // verus!
