//! The bar's application icon lookup: which icon name an app id maps to (through
//! the `.desktop` files), plugin overrides, the icon files tried for a name, and the
//! caches of decoded icons. Files are read by the caller, which hands the results in.
use vstd::prelude::*;
use crate::strs::{chars_of, ends_with, find_char, find_char_in, lemma_split_nonempty, lowercase,
    push_str, range_eq_str, split, split_once, split_ranges, starts_with, str_eq, string_of,
    to_lowercase, trim, trim_range, word_ranges, words};

verus! {

/// A decoded icon: width, height and RGBA bytes.
pub type IconData = (u32, u32, Vec<u8>);

/// Index of the first entry of `v` whose key is `k`.
pub open spec fn find_key<V>(v: Seq<(String, V)>, k: Seq<char>) -> Option<int>
    decreases v.len(),
{
    if v.len() == 0 {
        None
    } else {
        match find_key(v.drop_last(), k) {
            Some(i) => Some(i),
            None => if v.last().0@ == k {
                Some((v.len() - 1) as int)
            } else {
                None
            },
        }
    }
}

proof fn lemma_find_key_none<V>(v: Seq<(String, V)>, k: Seq<char>)
    requires
        forall|i: int| 0 <= i < v.len() ==> (#[trigger] v[i]).0@ != k,
    ensures
        find_key(v, k) is None,
    decreases v.len(),
{
    if v.len() > 0 {
        lemma_find_key_none(v.drop_last(), k);
    }
}

proof fn lemma_find_key_some<V>(v: Seq<(String, V)>, k: Seq<char>, j: int)
    requires
        0 <= j < v.len(),
        v[j].0@ == k,
        forall|i: int| 0 <= i < j ==> (#[trigger] v[i]).0@ != k,
    ensures
        find_key(v, k) == Some(j),
    decreases v.len(),
{
    if v.len() - 1 > j {
        lemma_find_key_some(v.drop_last(), k, j);
    } else {
        lemma_find_key_none(v.drop_last(), k);
    }
}

/// The value stored under `k`, if any.
pub open spec fn get_key<V>(v: Seq<(String, V)>, k: Seq<char>) -> Option<V> {
    match find_key(v, k) {
        Some(i) => Some(v[i].1),
        None => None,
    }
}

/// No key occurs twice.
pub open spec fn unique_keys<V>(v: Seq<(String, V)>) -> bool {
    forall|i: int, j: int| 0 <= i < j < v.len() ==> (#[trigger] v[i]).0@ != (#[trigger] v[j]).0@
}

/// With unique keys, the entry holding `k` is the one looked up.
proof fn lemma_get_unique<V>(v: Seq<(String, V)>, k: Seq<char>)
    requires
        unique_keys(v),
    ensures
        forall|j: int| 0 <= j < v.len() && (#[trigger] v[j]).0@ == k ==> get_key(v, k) == Some(v[j].1),
        (forall|j: int| 0 <= j < v.len() ==> (#[trigger] v[j]).0@ != k) ==> get_key(v, k) is None,
{
    assert forall|j: int| 0 <= j < v.len() && (#[trigger] v[j]).0@ == k implies get_key(v, k) == Some(v[j].1) by {
        assert forall|i: int| 0 <= i < j implies (#[trigger] v[i]).0@ != k by {
            assert(v[i].0@ != v[j].0@);
        }
        lemma_find_key_some(v, k, j);
    }
    if forall|j: int| 0 <= j < v.len() ==> (#[trigger] v[j]).0@ != k {
        lemma_find_key_none(v, k);
    }
}

pub(crate) fn find_key_exec<V>(v: &Vec<(String, V)>, k: &str) -> (r: Option<usize>)
    ensures
        match find_key(v@, k@) {
            Some(i) => r == Some(i as usize),
            None => r is None,
        },
        r matches Some(i) ==> i < v@.len() && v@[i as int].0@ == k@ && find_key(v@, k@) == Some(i as int),
        r is None ==> forall|j: int| 0 <= j < v@.len() ==> (#[trigger] v@[j]).0@ != k@,
{
    let mut i: usize = 0;
    while i < v.len()
        invariant
            i <= v@.len(),
            forall|j: int| 0 <= j < i ==> (#[trigger] v@[j]).0@ != k@,
        decreases v.len() - i,
    {
        if str_eq(v[i].0.as_str(), k) {
            proof {
                lemma_find_key_some(v@, k@, i as int);
            }
            return Some(i);
        }
        i = i + 1;
    }
    proof {
        lemma_find_key_none(v@, k@);
    }
    None
}

/// `d` is a square icon of `size` pixels a side, in RGBA.
pub open spec fn icon_fits(d: IconData, size: u32) -> bool {
    d.0 == size && d.1 == size && d.2@.len() == size * size * 4
}

/// Every icon held in `v` is square, `size` pixels a side.
pub open spec fn icons_fit(v: Seq<(String, Option<IconData>)>, size: u32) -> bool {
    forall|k: Seq<char>| #[trigger] get_key(v, k) matches Some(Some(d)) ==> icon_fits(d, size)
}

/// Entries kept from `c0` (and none added) keep `icons_fit`.
proof fn lemma_icons_fit_kept(c0: Seq<(String, Option<IconData>)>, c1: Seq<(String, Option<IconData>)>, size: u32)
    requires
        icons_fit(c0, size),
        forall|k: Seq<char>| get_key(c1, k) is Some ==> get_key(c1, k) == get_key(c0, k),
    ensures
        icons_fit(c1, size),
{
    assert forall|k: Seq<char>| #[trigger] get_key(c1, k) is Some && get_key(c1, k)->0 is Some
        implies icon_fits(get_key(c1, k)->0->0, size) by {
        assert(get_key(c1, k) == get_key(c0, k));
    }
}

/// Storing `data` under `key` keeps `icons_fit` when `data` fits.
proof fn lemma_icons_fit_put(c0: Seq<(String, Option<IconData>)>, c1: Seq<(String, Option<IconData>)>,
    key: Seq<char>, data: Option<IconData>, size: u32)
    requires
        icons_fit(c0, size),
        data matches Some(d) ==> icon_fits(d, size),
        get_key(c1, key) == Some(data),
        forall|k: Seq<char>| k != key ==> get_key(c1, k) == get_key(c0, k),
    ensures
        icons_fit(c1, size),
{
    assert forall|k: Seq<char>| #[trigger] get_key(c1, k) is Some && get_key(c1, k)->0 is Some
        implies icon_fits(get_key(c1, k)->0->0, size) by {
        if k != key {
            assert(get_key(c1, k) == get_key(c0, k));
        }
    }
}

/// A found position is a position of `v`.
proof fn lemma_find_key_in_range<V>(v: Seq<(String, V)>, k: Seq<char>)
    ensures
        find_key(v, k) matches Some(i) ==> 0 <= i < v.len() && v[i].0@ == k,
    decreases v.len(),
{
    if v.len() > 0 {
        lemma_find_key_in_range(v.drop_last(), k);
    }
}

/// `c1` is `c0` after `register_override(class, path)`: the lower-cased class maps
/// to `path`, its cached lookup is gone, and nothing else changed.
pub open spec fn overridden(c0: IconCache, c1: IconCache, class: Seq<char>, path: Seq<char>) -> bool {
    let key = lowercase(class);
    &&& get_key(c1.overrides@, key) matches Some(p) && p@ == path
    &&& forall|k: Seq<char>| k != key ==> get_key(c1.overrides@, k) == get_key(c0.overrides@, k)
    &&& get_key(c1.cache@, key) is None
    &&& forall|k: Seq<char>| k != key ==> get_key(c1.cache@, k) == get_key(c0.cache@, k)
    &&& c1.override_default == c0.override_default
    &&& c1.icon_size == c0.icon_size
    &&& c1.desktop_scanned == c0.desktop_scanned
    &&& c1.desktop_map == c0.desktop_map
}

/// `c1` is `c0` after `register_override_default(path)`: `path` is the fallback,
/// cached hits stay, cached misses are gone, and nothing else changed.
pub open spec fn default_registered(c0: IconCache, c1: IconCache, path: Seq<char>) -> bool {
    &&& c1.override_default matches Some(p) && p@ == path
    &&& forall|k: Seq<char>| get_key(c1.cache@, k) == match get_key(c0.cache@, k) {
        Some(Some(d)) => Some(Some(d)),
        _ => None,
    }
    &&& c1.overrides == c0.overrides
    &&& c1.icon_size == c0.icon_size
    &&& c1.desktop_scanned == c0.desktop_scanned
    &&& c1.desktop_map == c0.desktop_map
}

/// `c1` is `c0` after `store(key, data)`: `key` maps to `data` in the lookup cache,
/// and nothing else changed.
pub open spec fn stored(c0: IconCache, c1: IconCache, key: Seq<char>, data: Option<IconData>) -> bool {
    &&& get_key(c1.cache@, key) == Some(data)
    &&& forall|j: Seq<char>| j != key ==> get_key(c1.cache@, j) == get_key(c0.cache@, j)
    &&& c1.overrides == c0.overrides
    &&& c1.override_default == c0.override_default
    &&& c1.icon_size == c0.icon_size
    &&& c1.desktop_scanned == c0.desktop_scanned
    &&& c1.desktop_map == c0.desktop_map
}

/// The bar's icon cache.
pub struct IconCache {
    /// Lower-case app id → decoded icon (`None`: known to have none).
    pub cache: Vec<(String, Option<IconData>)>,
    /// Lower-case icon name → decoded icon.
    pub file_cache: Vec<(String, Option<IconData>)>,
    /// Names, window classes, executables and file names from the `.desktop` files →
    /// icon name.
    pub desktop_map: Vec<(String, String)>,
    pub desktop_scanned: bool,
    pub icon_size: u32,
    /// Plugin overrides: lower-case class → icon file path.
    pub overrides: Vec<(String, String)>,
    /// Icon file used when nothing else is found.
    pub override_default: Option<String>,
    /// Decoded override files, by path.
    pub override_cache: Vec<(String, Option<IconData>)>,
}

impl IconCache {
    /// Empty caches, no overrides, 48-pixel icons.
    pub fn new() -> (c: IconCache)
        ensures
            c.cache@.len() == 0 && c.file_cache@.len() == 0 && c.desktop_map@.len() == 0,
            !c.desktop_scanned && c.icon_size == 48,
            c.overrides@.len() == 0 && c.override_default is None && c.override_cache@.len() == 0,
            c.wf(),
    {
        IconCache {
            cache: Vec::new(),
            file_cache: Vec::new(),
            desktop_map: Vec::new(),
            desktop_scanned: false,
            icon_size: 48,
            overrides: Vec::new(),
            override_default: None,
            override_cache: Vec::new(),
        }
    }

    /// Every cache and map holds each key once, and every icon cached is square,
    /// `icon_size` pixels a side.
    pub open spec fn wf(&self) -> bool {
        &&& unique_keys(self.cache@)
        &&& unique_keys(self.overrides@)
        &&& unique_keys(self.file_cache@)
        &&& unique_keys(self.override_cache@)
        &&& unique_keys(self.desktop_map@)
        &&& icons_fit(self.cache@, self.icon_size)
        &&& icons_fit(self.file_cache@, self.icon_size)
        &&& icons_fit(self.override_cache@, self.icon_size)
    }

    /// Overrides the icon of `class` (matched ignoring case) with the file at `path`;
    /// a cached lookup of that class is forgotten.
    pub fn register_override(&mut self, class: String, path: String)
        requires
            old(self).wf(),
        ensures
            final(self).wf(),
            overridden(*old(self), *final(self), class@, path@),
    {
        let key = to_lowercase(class.as_str());
        let ghost key_v = key@;
        let ghost c0 = self.cache@;
        match find_key_exec(&self.cache, key.as_str()) {
            Some(i) => {
                self.cache.remove(i);
                proof {
                    let c1 = self.cache@;
                    assert forall|a: int, b: int| 0 <= a < b < c1.len() implies (#[trigger] c1[a]).0@
                        != (#[trigger] c1[b]).0@ by {
                        let oa = if a < i { a } else { a + 1 };
                        let ob = if b < i { b } else { b + 1 };
                        assert(c1[a] == c0[oa] && c1[b] == c0[ob]);
                    }
                    lemma_get_unique(c0, key@);
                    assert forall|k: Seq<char>| k != key@ implies get_key(c1, k) == get_key(c0, k) by {
                        lemma_get_unique(c0, k);
                        lemma_get_unique(c1, k);
                        if exists|j: int| 0 <= j < c0.len() && (#[trigger] c0[j]).0@ == k {
                            let j = choose|j: int| 0 <= j < c0.len() && (#[trigger] c0[j]).0@ == k;
                            assert(j != i);
                            let nj = if j < i { j } else { j - 1 };
                            assert(c1[nj] == c0[j]);
                        } else {
                            assert forall|j: int| 0 <= j < c1.len() implies (#[trigger] c1[j]).0@ != k by {
                                let oj = if j < i { j } else { j + 1 };
                                assert(c1[j] == c0[oj]);
                            }
                        }
                    }
                    assert forall|j: int| 0 <= j < c1.len() implies (#[trigger] c1[j]).0@ != key@ by {
                        let oj = if j < i { j } else { j + 1 };
                        assert(c1[j] == c0[oj]);
                        assert(c0[oj].0@ != c0[i as int].0@);
                    }
                    lemma_get_unique(c1, key@);
                }
            },
            None => {
                proof {
                    assert forall|j: int| 0 <= j < c0.len() implies (#[trigger] c0[j]).0@ != key@ by {
                        lemma_get_unique(c0, key@);
                    }
                }
            },
        }
        let ghost o0 = self.overrides@;
        match find_key_exec(&self.overrides, key.as_str()) {
            Some(i) => {
                let ghost kv = key@;
                let ghost pv = path@;
                self.overrides.set(i, (key, path));
                proof {
                    let o1 = self.overrides@;
                    assert(o1[i as int].0@ == kv && o1[i as int].1@ == pv);
                    assert forall|a: int, b: int| 0 <= a < b < o1.len() implies (#[trigger] o1[a]).0@
                        != (#[trigger] o1[b]).0@ by {
                        assert(o0[i as int].0@ == kv);
                        if a != i && b != i {
                            assert(o1[a] == o0[a] && o1[b] == o0[b]);
                        } else if a == i {
                            assert(o1[b] == o0[b]);
                        } else {
                            assert(o1[a] == o0[a]);
                        }
                    }
                    lemma_get_unique(o1, kv);
                    assert forall|k: Seq<char>| k != kv implies get_key(o1, k) == get_key(o0, k) by {
                        lemma_get_unique(o0, k);
                        lemma_get_unique(o1, k);
                        if exists|j: int| 0 <= j < o0.len() && (#[trigger] o0[j]).0@ == k {
                            let j = choose|j: int| 0 <= j < o0.len() && (#[trigger] o0[j]).0@ == k;
                            assert(o1[j] == o0[j]);
                        } else {
                            assert forall|j: int| 0 <= j < o1.len() implies (#[trigger] o1[j]).0@ != k by {
                                if j != i {
                                    assert(o1[j] == o0[j]);
                                }
                            }
                        }
                    }
                }
            },
            None => {
                let ghost kv = key@;
                let ghost pv = path@;
                self.overrides.push((key, path));
                proof {
                    let o1 = self.overrides@;
                    assert(o1[o0.len() as int].0@ == kv && o1[o0.len() as int].1@ == pv);
                    assert forall|j: int| 0 <= j < o0.len() implies (#[trigger] o0[j]).0@ != kv by {
                        lemma_get_unique(o0, kv);
                    }
                    assert forall|a: int, b: int| 0 <= a < b < o1.len() implies (#[trigger] o1[a]).0@
                        != (#[trigger] o1[b]).0@ by {
                        assert(o1[a] == o0[a]);
                        if b < o0.len() {
                            assert(o1[b] == o0[b]);
                        }
                    }
                    lemma_get_unique(o1, kv);
                    assert forall|k: Seq<char>| k != kv implies get_key(o1, k) == get_key(o0, k) by {
                        lemma_get_unique(o0, k);
                        lemma_get_unique(o1, k);
                        if exists|j: int| 0 <= j < o0.len() && (#[trigger] o0[j]).0@ == k {
                            let j = choose|j: int| 0 <= j < o0.len() && (#[trigger] o0[j]).0@ == k;
                            assert(o1[j] == o0[j]);
                        } else {
                            assert forall|j: int| 0 <= j < o1.len() implies (#[trigger] o1[j]).0@ != k by {
                                if j < o0.len() {
                                    assert(o1[j] == o0[j]);
                                }
                            }
                        }
                    }
                }
            },
        }
        proof {
            let c1 = self.cache@;
            assert forall|k: Seq<char>| get_key(c1, k) is Some implies get_key(c1, k) == get_key(c0, k) by {
                if k == key_v {
                    lemma_get_unique(c1, k);
                }
            }
            lemma_icons_fit_kept(c0, c1, self.icon_size);
        }
    }

    /// Sets the fallback icon file; cached misses are forgotten so they look again.
    pub fn register_override_default(&mut self, path: String)
        requires
            old(self).wf(),
        ensures
            final(self).wf(),
            default_registered(*old(self), *final(self), path@),
    {
        self.override_default = Some(path);
        let ghost c0 = self.cache@;
        let mut i: usize = 0;
        while i < self.cache.len()
            invariant
                i <= self.cache@.len(),
                unique_keys(c0),
                unique_keys(self.cache@),
                self.overrides == old(self).overrides,
                self.file_cache == old(self).file_cache,
                self.override_cache == old(self).override_cache,
                self.desktop_map == old(self).desktop_map,
                self.icon_size == old(self).icon_size,
                self.desktop_scanned == old(self).desktop_scanned,
                old(self).wf(),
                self.override_default == Some(path),
                forall|j: int| 0 <= j < i ==> (#[trigger] self.cache@[j]).1 is Some,
                forall|k: Seq<char>| (get_key(c0, k) matches Some(Some(_)))
                    ==> get_key(self.cache@, k) == get_key(c0, k),
                forall|k: Seq<char>| get_key(self.cache@, k) is Some ==> get_key(self.cache@, k) == get_key(c0, k),
            decreases self.cache.len() - i,
        {
            if self.cache[i].1.is_none() {
                let ghost c1 = self.cache@;
                self.cache.remove(i);
                proof {
                    let c2 = self.cache@;
                    assert forall|a: int, b: int| 0 <= a < b < c2.len() implies (#[trigger] c2[a]).0@
                        != (#[trigger] c2[b]).0@ by {
                        let oa = if a < i { a } else { a + 1 };
                        let ob = if b < i { b } else { b + 1 };
                        assert(c2[a] == c1[oa] && c2[b] == c1[ob]);
                    }
                    assert forall|k: Seq<char>| (get_key(c0, k) matches Some(Some(_)))
                        implies get_key(c2, k) == get_key(c0, k) by {
                        lemma_get_unique(c1, k);
                        lemma_get_unique(c2, k);
                        let j = choose|j: int| 0 <= j < c1.len() && (#[trigger] c1[j]).0@ == k;
                        if exists|j: int| 0 <= j < c1.len() && (#[trigger] c1[j]).0@ == k {
                            assert(j != i);
                            let nj = if j < i { j } else { j - 1 };
                            assert(c2[nj] == c1[j]);
                        } else {
                            lemma_get_unique(c1, k);
                        }
                    }
                    assert forall|k: Seq<char>| get_key(c2, k) is Some implies get_key(c2, k) == get_key(c0, k) by {
                        lemma_get_unique(c1, k);
                        lemma_get_unique(c2, k);
                        if exists|j: int| 0 <= j < c2.len() && (#[trigger] c2[j]).0@ == k {
                            let j = choose|j: int| 0 <= j < c2.len() && (#[trigger] c2[j]).0@ == k;
                            let oj = if j < i { j } else { j + 1 };
                            assert(c2[j] == c1[oj]);
                        } else {
                            lemma_get_unique(c2, k);
                        }
                    }
                }
            } else {
                i = i + 1;
            }
        }
        proof {
            let c = self.cache@;
            assert forall|k: Seq<char>| get_key(c, k) == match get_key(c0, k) {
                Some(Some(d)) => Some(Some(d)),
                _ => None,
            } by {
                lemma_get_unique(c, k);
                lemma_get_unique(c0, k);
                match get_key(c, k) {
                    Some(x) => {
                        let j = choose|j: int| 0 <= j < c.len() && (#[trigger] c[j]).0@ == k;
                        if exists|j: int| 0 <= j < c.len() && (#[trigger] c[j]).0@ == k {
                            assert(c[j].1 is Some);
                        } else {
                            lemma_get_unique(c, k);
                        }
                    },
                    None => {},
                }
            }
            lemma_icons_fit_kept(c0, c, self.icon_size);
        }
    }
}

/// `v` with `k` mapped to `val`: an entry for `k` is replaced in place, else appended.
pub(crate) fn put<V>(v: &mut Vec<(String, V)>, k: String, val: V)
    requires
        unique_keys(old(v)@),
    ensures
        unique_keys(final(v)@),
        final(v)@.len() >= old(v)@.len(),
        exists|i: int| 0 <= i < final(v)@.len() && final(v)@[i].0@ == k@ && final(v)@[i].1 == val,
        get_key(final(v)@, k@) == Some(val),
        forall|j: Seq<char>| j != k@ ==> get_key(final(v)@, j) == get_key(old(v)@, j),
{
    let ghost o0 = v@;
    let ghost kv = k@;
    match find_key_exec(v, k.as_str()) {
        Some(i) => {
            v.set(i, (k, val));
            proof {
                let o1 = v@;
                assert(o1[i as int].0@ == kv);
                assert forall|a: int, b: int| 0 <= a < b < o1.len() implies (#[trigger] o1[a]).0@
                    != (#[trigger] o1[b]).0@ by {
                    if a != i && b != i {
                        assert(o1[a] == o0[a] && o1[b] == o0[b]);
                    } else if a == i {
                        assert(o1[b] == o0[b]);
                    } else {
                        assert(o1[a] == o0[a]);
                    }
                }
                lemma_get_unique(o1, kv);
                assert forall|j: Seq<char>| j != kv implies get_key(o1, j) == get_key(o0, j) by {
                    lemma_get_unique(o0, j);
                    lemma_get_unique(o1, j);
                    if exists|t: int| 0 <= t < o0.len() && (#[trigger] o0[t]).0@ == j {
                        let t = choose|t: int| 0 <= t < o0.len() && (#[trigger] o0[t]).0@ == j;
                        assert(o1[t] == o0[t]);
                    } else {
                        assert forall|t: int| 0 <= t < o1.len() implies (#[trigger] o1[t]).0@ != j by {
                            if t != i {
                                assert(o1[t] == o0[t]);
                            }
                        }
                    }
                }
            }
        },
        None => {
            v.push((k, val));
            proof {
                let o1 = v@;
                assert(o1[o0.len() as int].0@ == kv);
                assert forall|a: int, b: int| 0 <= a < b < o1.len() implies (#[trigger] o1[a]).0@
                    != (#[trigger] o1[b]).0@ by {
                    assert(o1[a] == o0[a]);
                    if b < o0.len() {
                        assert(o1[b] == o0[b]);
                    }
                }
                lemma_get_unique(o1, kv);
                assert forall|j: Seq<char>| j != kv implies get_key(o1, j) == get_key(o0, j) by {
                    lemma_get_unique(o0, j);
                    lemma_get_unique(o1, j);
                    if exists|t: int| 0 <= t < o0.len() && (#[trigger] o0[t]).0@ == j {
                        let t = choose|t: int| 0 <= t < o0.len() && (#[trigger] o0[t]).0@ == j;
                        assert(o1[t] == o0[t]);
                    } else {
                        assert forall|t: int| 0 <= t < o1.len() implies (#[trigger] o1[t]).0@ != j by {
                            if t < o0.len() {
                                assert(o1[t] == o0[t]);
                            }
                        }
                    }
                }
            }
        },
    }
}

impl IconCache {
    /// Position in the app-id cache of `key` (a lower-case app id), if looked up before.
    pub fn cache_index(&self, key: &str) -> (r: Option<usize>)
        ensures
            match find_key(self.cache@, key@) {
                Some(i) => r == Some(i as usize),
                None => r is None,
            },
            r matches Some(i) ==> i < self.cache@.len() && find_key(self.cache@, key@) == Some(i as int),
    {
        find_key_exec(&self.cache, key)
    }

    /// Position in the icon-file cache of `key` (a lower-case icon name).
    pub fn file_index(&self, key: &str) -> (r: Option<usize>)
        ensures
            match find_key(self.file_cache@, key@) {
                Some(i) => r == Some(i as usize),
                None => r is None,
            },
            r matches Some(i) ==> i < self.file_cache@.len(),
    {
        find_key_exec(&self.file_cache, key)
    }

    /// Remembers the icon decoded (or not) for icon name `key`: one scaled to a
    /// square of `icon_size` pixels a side.
    pub fn store_file(&mut self, key: String, data: Option<IconData>)
        requires
            old(self).wf(),
            data matches Some(d) ==> icon_fits(d, old(self).icon_size),
        ensures
            final(self).wf(),
            final(self).icon_size == old(self).icon_size,
            get_key(final(self).file_cache@, key@) == Some(data),
            forall|j: Seq<char>| j != key@ ==> get_key(final(self).file_cache@, j) == get_key(old(self).file_cache@, j),
            final(self).cache == old(self).cache && final(self).overrides == old(self).overrides,
    {
        let ghost kv = key@;
        let ghost dv = data;
        let ghost c0 = self.file_cache@;
        put(&mut self.file_cache, key, data);
        proof {
            lemma_icons_fit_put(c0, self.file_cache@, kv, dv, self.icon_size);
        }
    }

    /// Position in the override-file cache of `path`.
    pub fn override_cache_index(&self, path: &str) -> (r: Option<usize>)
        ensures
            match find_key(self.override_cache@, path@) {
                Some(i) => r == Some(i as usize),
                None => r is None,
            },
            r matches Some(i) ==> i < self.override_cache@.len(),
    {
        find_key_exec(&self.override_cache, path)
    }

    /// Remembers the icon decoded (or not) from override file `path`: one scaled to
    /// a square of `icon_size` pixels a side.
    pub fn store_override(&mut self, path: String, data: Option<IconData>)
        requires
            old(self).wf(),
            data matches Some(d) ==> icon_fits(d, old(self).icon_size),
        ensures
            final(self).wf(),
            final(self).icon_size == old(self).icon_size,
            get_key(final(self).override_cache@, path@) == Some(data),
            forall|j: Seq<char>| j != path@ ==> get_key(final(self).override_cache@, j)
                == get_key(old(self).override_cache@, j),
            final(self).cache == old(self).cache && final(self).overrides == old(self).overrides,
    {
        let ghost kv = path@;
        let ghost dv = data;
        let ghost c0 = self.override_cache@;
        put(&mut self.override_cache, path, data);
        proof {
            lemma_icons_fit_put(c0, self.override_cache@, kv, dv, self.icon_size);
        }
    }

    /// Remembers the icon found (or not) for `key` (a lower-case app id): one
    /// scaled to a square of `icon_size` pixels a side.
    pub fn store(&mut self, key: String, data: Option<IconData>)
        requires
            old(self).wf(),
            data matches Some(d) ==> icon_fits(d, old(self).icon_size),
        ensures
            final(self).wf(),
            stored(*old(self), *final(self), key@, data),
    {
        let ghost kv = key@;
        let ghost dv = data;
        let ghost c0 = self.cache@;
        put(&mut self.cache, key, data);
        proof {
            lemma_icons_fit_put(c0, self.cache@, kv, dv, self.icon_size);
        }
    }

    /// The override file of `key` (a lower-case class), if one is registered.
    pub fn override_path(&self, key: &str) -> (r: Option<String>)
        ensures
            match get_key(self.overrides@, key@) {
                Some(p) => r matches Some(q) && q@ == p@,
                None => r is None,
            },
    {
        match find_key_exec(&self.overrides, key) {
            Some(i) => {
                let p = self.overrides[i].1.clone();
                assert(find_key(self.overrides@, key@) == Some(i as int));
                assert(get_key(self.overrides@, key@) == Some(self.overrides@[i as int].1));
                Some(p)
            },
            None => None,
        }
    }

    /// Adds the keys of one `.desktop` file: each non-empty key not mapped yet maps to
    /// `icon` (the first file to name a key wins).
    pub fn add_desktop_keys(&mut self, icon: &str, keys: &Vec<String>)
        requires
            unique_keys(old(self).desktop_map@),
        ensures
            unique_keys(final(self).desktop_map@),
            forall|k: Seq<char>| (#[trigger] get_key(old(self).desktop_map@, k)) is Some
                ==> get_key(final(self).desktop_map@, k) == get_key(old(self).desktop_map@, k),
            forall|k: Seq<char>| get_key(old(self).desktop_map@, k) is None ==> (
                if named_before(keys@, keys@.len() as int, k) {
                    get_key(final(self).desktop_map@, k) matches Some(n) && n@ == icon@
                } else {
                    get_key(final(self).desktop_map@, k) is None
                }),
            final(self).cache == old(self).cache && final(self).overrides == old(self).overrides,
            final(self).file_cache == old(self).file_cache,
            final(self).override_cache == old(self).override_cache,
            final(self).override_default == old(self).override_default,
            final(self).icon_size == old(self).icon_size,
            final(self).desktop_scanned == old(self).desktop_scanned,
    {
        let ghost m0 = self.desktop_map@;
        let mut i: usize = 0;
        while i < keys.len()
            invariant
                i <= keys@.len(),
                unique_keys(self.desktop_map@),
                self.cache == old(self).cache && self.overrides == old(self).overrides,
                self.file_cache == old(self).file_cache,
                self.override_cache == old(self).override_cache,
                self.override_default == old(self).override_default,
                self.icon_size == old(self).icon_size,
                self.desktop_scanned == old(self).desktop_scanned,
                m0 == old(self).desktop_map@,
                forall|k: Seq<char>| (#[trigger] get_key(m0, k)) is Some ==> get_key(self.desktop_map@, k) == get_key(m0, k),
                forall|k: Seq<char>| #[trigger] named_before(keys@, i as int, k) && get_key(m0, k) is None
                    ==> (get_key(self.desktop_map@, k) matches Some(n) && n@ == icon@),
                forall|k: Seq<char>| !#[trigger] named_before(keys@, i as int, k) && get_key(m0, k) is None
                    ==> get_key(self.desktop_map@, k) is None,
            decreases keys.len() - i,
        {
            let k = &keys[i];
            let ghost mb = self.desktop_map@;
            if !k.as_str().is_empty() {
                match find_key_exec(&self.desktop_map, k.as_str()) {
                    Some(_) => {
                        proof {
                            assert forall|kk: Seq<char>| #[trigger] named_before(keys@, i + 1, kk) && get_key(m0, kk) is None
                                implies (get_key(self.desktop_map@, kk) matches Some(n) && n@ == icon@) by {
                                if kk == k@ && !named_before(keys@, i as int, kk) {
                                    lemma_get_unique(mb, kk);
                                    assert(get_key(mb, kk) is Some);
                                } else {
                                    lemma_named_before_step(keys@, i as int, kk);
                                }
                            }
                            assert forall|kk: Seq<char>| !#[trigger] named_before(keys@, i + 1, kk) && get_key(m0, kk) is None
                                implies get_key(self.desktop_map@, kk) is None by {
                                lemma_named_before_step(keys@, i as int, kk);
                            }
                        }
                    },
                    None => {
                        let mut name = String::new();
                        push_str(&mut name, icon);
                        put(&mut self.desktop_map, k.clone(), name);
                        proof {
                            assert forall|kk: Seq<char>| #[trigger] named_before(keys@, i + 1, kk) && get_key(m0, kk) is None
                                implies (get_key(self.desktop_map@, kk) matches Some(n) && n@ == icon@) by {
                                lemma_named_before_step(keys@, i as int, kk);
                            }
                            assert forall|kk: Seq<char>| !#[trigger] named_before(keys@, i + 1, kk) && get_key(m0, kk) is None
                                implies get_key(self.desktop_map@, kk) is None by {
                                lemma_named_before_step(keys@, i as int, kk);
                            }
                            assert forall|kk: Seq<char>| (#[trigger] get_key(m0, kk)) is Some
                                implies get_key(self.desktop_map@, kk) == get_key(m0, kk) by {
                                if kk == k@ {
                                    lemma_get_unique(mb, kk);
                                }
                            }
                        }
                    },
                }
            } else {
                proof {
                    assert forall|kk: Seq<char>| #[trigger] named_before(keys@, i + 1, kk) && get_key(m0, kk) is None
                        implies (get_key(self.desktop_map@, kk) matches Some(n) && n@ == icon@) by {
                        lemma_named_before_step(keys@, i as int, kk);
                    }
                    assert forall|kk: Seq<char>| !#[trigger] named_before(keys@, i + 1, kk) && get_key(m0, kk) is None
                        implies get_key(self.desktop_map@, kk) is None by {
                        lemma_named_before_step(keys@, i as int, kk);
                    }
                }
            }
            i = i + 1;
        }
    }
}

/// `k` is non-empty and one of the first `i` keys.
pub open spec fn named_before(keys: Seq<String>, i: int, k: Seq<char>) -> bool {
    k.len() > 0 && exists|t: int| 0 <= t < i && (#[trigger] keys[t])@ == k
}

proof fn lemma_named_before_step(keys: Seq<String>, i: int, k: Seq<char>)
    requires
        0 <= i < keys.len(),
    ensures
        named_before(keys, i + 1, k) == (named_before(keys, i, k) || (k.len() > 0 && keys[i]@ == k)),
{
    if named_before(keys, i + 1, k) && !(k.len() > 0 && keys[i]@ == k) {
        let t = choose|t: int| 0 <= t < i + 1 && (#[trigger] keys[t])@ == k;
        assert(t < i);
    }
    if k.len() > 0 && keys[i]@ == k {
        assert(0 <= i < i + 1 && keys[i]@ == k);
    }
}

// ── icon names ───────────────────────────────────────────────────────────────

/// The icon name looked up for `app` in `m`, by view.
pub open spec fn lookup_name(m: Seq<(String, String)>, k: Seq<char>) -> Option<Seq<char>> {
    match get_key(m, k) {
        Some(n) => Some(n@),
        None => None,
    }
}

/// The icon name for app id `app`: its own entry; for a reverse-DNS id
/// (`org.gnome.Files`) the entry of its last part, lower-cased (`files`), then of its
/// last two parts joined by `-` (`gnome-files`); else the app id itself.
pub open spec fn resolve_spec(m: Seq<(String, String)>, app: Seq<char>) -> Seq<char> {
    match lookup_name(m, app) {
        Some(n) => n,
        None => if find_char(app, '.') is Some {
            let parts = split(app, '.');
            let n = parts.len();
            match lookup_name(m, lowercase(parts[n - 1])) {
                Some(x) => x,
                None => if n >= 2 {
                    match lookup_name(m, lowercase(parts[n - 2] + "-"@ + parts[n - 1])) {
                        Some(x) => x,
                        None => app,
                    }
                } else {
                    app
                },
            }
        } else {
            app
        },
    }
}

fn lookup_exec(m: &Vec<(String, String)>, k: &str) -> (r: Option<String>)
    ensures
        match lookup_name(m@, k@) {
            Some(n) => r matches Some(x) && x@ == n,
            None => r is None,
        },
{
    match find_key_exec(m, k) {
        Some(i) => {
            assert(get_key(m@, k@) == Some(m@[i as int].1));
            Some(m[i].1.clone())
        },
        None => None,
    }
}

impl IconCache {
    /// The icon name to look for for app id `app_id` (see `resolve_spec`).
    pub fn resolve_icon_name(&self, app_id: &str) -> (r: String)
        ensures
            r@ == resolve_spec(self.desktop_map@, app_id@),
    {
        match lookup_exec(&self.desktop_map, app_id) {
            Some(n) => {
                return n;
            },
            None => {},
        }
        let v = chars_of(app_id);
        assert(v@.subrange(0, v@.len() as int) == app_id@);
        let own = || -> (s: String)
            ensures
                s@ == app_id@,
        {
            let mut s = String::new();
            push_str(&mut s, app_id);
            s
        };
        if find_char_in(v.as_slice(), 0, v.len(), '.').is_none() {
            return own();
        }
        let parts = split_ranges(v.as_slice(), 0, v.len(), '.');
        proof {
            lemma_split_nonempty(app_id@, '.');
        }
        let n = parts.len();
        let (a, b) = parts[n - 1];
        let last = string_of(v.as_slice(), a, b);
        let low = to_lowercase(last.as_str());
        match lookup_exec(&self.desktop_map, low.as_str()) {
            Some(x) => {
                return x;
            },
            None => {},
        }
        if n >= 2 {
            let (c, d) = parts[n - 2];
            let mut joined = string_of(v.as_slice(), c, d);
            push_str(&mut joined, "-");
            push_str(&mut joined, last.as_str());
            let low2 = to_lowercase(joined.as_str());
            match lookup_exec(&self.desktop_map, low2.as_str()) {
                Some(x) => {
                    return x;
                },
                None => {},
            }
        }
        own()
    }
}

// ── lookup order ─────────────────────────────────────────────────────────────

/// The next step of finding the icon of an app. The order is: a cached result
/// (misses included), a plugin override for the app, the XDG icon named through the
/// `.desktop` files, and last the plugin's default override.
pub enum IconPlan {
    /// The lookup is cached: the entry's position in `cache`.
    Cached(usize),
    /// A plugin override names a file for the app: load it.
    Override(String),
    /// The `.desktop` files have not been scanned yet: scan them and plan again.
    Scan,
    /// Load the XDG icon `name`; when that finds nothing, load `fallback` if set.
    Xdg { name: String, fallback: Option<String> },
}

pub open spec fn opt_str_view(o: Option<String>) -> Option<Seq<char>> {
    match o {
        Some(s) => Some(s@),
        None => None,
    }
}

/// `p` is the next step of finding the icon of `app` in `c`: the cached lookup of
/// its lower-case id, else its override, else a scan of the `.desktop` files if
/// none was made, else the XDG icon its name resolves to with the default override
/// as fallback.
pub open spec fn planned(c: IconCache, app: Seq<char>, p: IconPlan) -> bool {
    let key = lowercase(app);
    match find_key(c.cache@, key) {
        Some(i) => p matches IconPlan::Cached(j) && j == i,
        None => match get_key(c.overrides@, key) {
            Some(o) => p matches IconPlan::Override(q) && q@ == o@,
            None => if !c.desktop_scanned {
                p is Scan
            } else {
                p matches IconPlan::Xdg { name, fallback } && name@ == resolve_spec(c.desktop_map@, key)
                    && opt_str_view(fallback) == opt_str_view(c.override_default)
            },
        },
    }
}

impl IconCache {
    /// The cached result of looking up `app_id` (matched ignoring case), if it was
    /// looked up before: `Some(None)` for a known miss. A cached result needs no file.
    pub fn cached(&self, app_id: &str) -> (r: Option<&Option<IconData>>)
        ensures
            match get_key(self.cache@, lowercase(app_id@)) {
                Some(d) => r matches Some(x) && *x == d,
                None => r is None,
            },
    {
        let key = to_lowercase(app_id);
        match find_key_exec(&self.cache, key.as_str()) {
            Some(i) => Some(&self.cache[i].1),
            None => None,
        }
    }

    /// The lower-case key of `app_id` and the next step of finding its icon.
    pub fn plan(&self, app_id: &str) -> (r: (String, IconPlan))
        ensures
            r.0@ == lowercase(app_id@),
            planned(*self, app_id@, r.1),
    {
        let key = to_lowercase(app_id);
        let step = match self.cache_index(key.as_str()) {
            Some(i) => IconPlan::Cached(i),
            None => match self.override_path(key.as_str()) {
                Some(p) => IconPlan::Override(p),
                None => if !self.desktop_scanned {
                    IconPlan::Scan
                } else {
                    let name = self.resolve_icon_name(key.as_str());
                    let fallback = match &self.override_default {
                        Some(d) => Some(d.clone()),
                        None => None,
                    };
                    IconPlan::Xdg { name, fallback }
                },
            },
        };
        (key, step)
    }
}

// ── laws across lookups ─────────────────────────────────────────────────────

/// Once the result of a lookup of `a` is stored, a lookup of any app id equal to
/// `a` ignoring case is served from that cache entry, reading no file: `cached`
/// gives exactly what was stored, and the plan is that entry.
pub proof fn lemma_lookup_hits_stored(c0: IconCache, c1: IconCache, a: Seq<char>, data: Option<IconData>,
    b: Seq<char>, p: IconPlan)
    requires
        stored(c0, c1, lowercase(a), data),
        lowercase(b) == lowercase(a),
        planned(c1, b, p),
    ensures
        get_key(c1.cache@, lowercase(b)) == Some(data),
        p matches IconPlan::Cached(j) && j < c1.cache@.len() && c1.cache@[j as int].1 == data,
{
    lemma_find_key_in_range(c1.cache@, lowercase(a));
}

/// After `register_override(class, path)`, a lookup of any app id equal to `class`
/// ignoring case loads `path`, whatever was cached for it before.
pub proof fn lemma_override_replaces_cached(c0: IconCache, c1: IconCache, class: Seq<char>, path: Seq<char>,
    x: Seq<char>, p: IconPlan)
    requires
        overridden(c0, c1, class, path),
        lowercase(x) == lowercase(class),
        planned(c1, x, p),
    ensures
        p matches IconPlan::Override(q) && q@ == path,
{
}

/// After `register_override(class, path)`, the cached lookups of all other app ids
/// are what they were.
pub proof fn lemma_override_keeps_other_lookups(c0: IconCache, c1: IconCache, class: Seq<char>,
    path: Seq<char>, y: Seq<char>)
    requires
        overridden(c0, c1, class, path),
        lowercase(y) != lowercase(class),
    ensures
        get_key(c1.cache@, lowercase(y)) == get_key(c0.cache@, lowercase(y)),
{
}

/// After `register_override_default(path)`, an app whose lookup was a cached miss
/// (and that has no override) is looked up again, with `path` as the fallback (after
/// the `.desktop` scan if none was made), while an app whose lookup was a cached hit
/// is still served that icon.
pub proof fn lemma_default_override_retries_misses(c0: IconCache, c1: IconCache, path: Seq<char>,
    a: Seq<char>, pa: IconPlan, b: Seq<char>, pb: IconPlan)
    requires
        default_registered(c0, c1, path),
        get_key(c0.cache@, lowercase(a)) == Some(Option::<IconData>::None),
        get_key(c0.overrides@, lowercase(a)) is None,
        get_key(c0.cache@, lowercase(b)) matches Some(Some(_)),
        planned(c1, a, pa),
        planned(c1, b, pb),
    ensures
        pa matches IconPlan::Xdg { name, fallback } && c1.desktop_scanned
            && name@ == resolve_spec(c1.desktop_map@, lowercase(a)) && opt_str_view(fallback) == Some(path)
            || pa is Scan && !c1.desktop_scanned,
        pb matches IconPlan::Cached(j) && j < c1.cache@.len()
            && c1.cache@[j as int].1 == get_key(c0.cache@, lowercase(b))->0,
{
    assert(get_key(c1.cache@, lowercase(a)) is None);
    assert(get_key(c1.cache@, lowercase(b)) == get_key(c0.cache@, lowercase(b)));
    lemma_find_key_in_range(c1.cache@, lowercase(b));
}

// ── keys of a .desktop file ──────────────────────────────────────────────────

/// `s` without its trailing `.sh` suffixes (`trim_end_matches(".sh")`).
pub open spec fn strip_sh(s: Seq<char>) -> Seq<char>
    decreases s.len(),
{
    if s.len() >= 3 && ends_with(s, ".sh"@) {
        strip_sh(s.take(s.len() - 3))
    } else {
        s
    }
}

/// The executable of an `Exec` value: its first word, without directories and `.sh`.
pub open spec fn exec_base(v: Seq<char>) -> Option<Seq<char>> {
    let ws = words(v);
    if ws.len() == 0 {
        None
    } else {
        let ps = split(ws[0], '/');
        Some(strip_sh(ps[ps.len() - 1]))
    }
}

/// One line's effect on the scan state (inside `[Desktop Entry]`, the icon, the keys).
pub open spec fn key_step(st: (bool, Option<Seq<char>>, Seq<Seq<char>>), line: Seq<char>)
    -> (bool, Option<Seq<char>>, Seq<Seq<char>>) {
    let l = trim(line);
    if l.len() > 0 && l[0] == '[' {
        (l == "[Desktop Entry]"@, st.1, st.2)
    } else if !st.0 {
        st
    } else {
        match split_once(l, '=') {
            None => st,
            Some(kv) => {
                let k = trim(kv.0);
                let v = trim(kv.1);
                if k == "Icon"@ {
                    (st.0, Some(v), st.2)
                } else if k == "Name"@ || k == "StartupWMClass"@ {
                    (st.0, st.1, st.2.push(lowercase(v)))
                } else if k == "Exec"@ {
                    match exec_base(v) {
                        Some(b) => (st.0, st.1, st.2.push(lowercase(b))),
                        None => st,
                    }
                } else {
                    st
                }
            },
        }
    }
}

pub open spec fn key_scan(ls: Seq<Seq<char>>) -> (bool, Option<Seq<char>>, Seq<Seq<char>>)
    decreases ls.len(),
{
    if ls.len() == 0 {
        (false, None, Seq::empty())
    } else {
        key_step(key_scan(ls.drop_last()), ls.last())
    }
}

/// The icon of a `.desktop` file and the keys it is found by: the lower-cased `Name`,
/// `StartupWMClass` and executable of its `[Desktop Entry]` sections, then its file
/// stem and, for a dotted stem, the stem's last part.
pub open spec fn desktop_keys_spec(stem: Seq<char>, content: Seq<char>) -> (Option<Seq<char>>, Seq<Seq<char>>) {
    let st = key_scan(split(content, '\n'));
    let ks = st.2.push(lowercase(stem));
    let ks2 = if find_char(stem, '.') is Some {
        let ps = split(stem, '.');
        ks.push(lowercase(ps[ps.len() - 1]))
    } else {
        ks
    };
    (st.1, ks2)
}

fn exec_base_exec(v: &[char], lo: usize, hi: usize) -> (r: Option<String>)
    requires
        lo <= hi <= v@.len(),
    ensures
        match exec_base(v@.subrange(lo as int, hi as int)) {
            Some(b) => r matches Some(x) && x@ == b,
            None => r is None,
        },
{
    let ws = word_ranges(v, lo, hi);
    if ws.len() == 0 {
        return None;
    }
    let (a, b) = ws[0];
    let ps = split_ranges(v, a, b, '/');
    proof {
        lemma_split_nonempty(v@.subrange(a as int, b as int), '/');
    }
    let (c, mut d) = ps[ps.len() - 1];
    let ghost piece = v@.subrange(c as int, d as int);
    while d - c >= 3 && v[d - 3] == '.' && v[d - 2] == 's' && v[d - 1] == 'h'
        invariant
            c <= d <= v@.len(),
            strip_sh(piece) == strip_sh(v@.subrange(c as int, d as int)),
        decreases d - c,
    {
        proof {
            reveal_strlit(".sh");
            let t = v@.subrange(c as int, d as int);
            assert(t.skip(t.len() - 3) =~= ".sh"@);
            assert(t.take(t.len() - 3) == v@.subrange(c as int, d - 3));
        }
        d = d - 3;
    }
    proof {
        reveal_strlit(".sh");
        let t = v@.subrange(c as int, d as int);
        if t.len() >= 3 && ends_with(t, ".sh"@) {
            assert(t.skip(t.len() - 3)[0] == v@[d - 3]);
            assert(t.skip(t.len() - 3)[1] == v@[d - 2]);
            assert(t.skip(t.len() - 3)[2] == v@[d - 1]);
        }
    }
    Some(string_of(v, c, d))
}

/// The icon and lookup keys of a `.desktop` file (see `desktop_keys_spec`).
pub fn desktop_file_keys(stem: &str, content: &str) -> (r: (Option<String>, Vec<String>))
    ensures
        ({
            let (icon, keys) = desktop_keys_spec(stem@, content@);
            &&& match icon {
                Some(i) => r.0 matches Some(x) && x@ == i,
                None => r.0 is None,
            }
            &&& r.1@.len() == keys.len()
            &&& forall|j: int| 0 <= j < keys.len() ==> (#[trigger] r.1@[j])@ == keys[j]
        }),
{
    let v = chars_of(content);
    let lines = split_ranges(v.as_slice(), 0, v.len(), '\n');
    assert(v@.subrange(0, v@.len() as int) == content@);
    let ghost ls = split(content@, '\n');
    let mut in_entry = false;
    let mut icon: Option<String> = None;
    let mut keys: Vec<String> = Vec::new();
    let mut i: usize = 0;
    while i < lines.len()
        invariant
            i <= lines@.len(),
            lines@.len() == ls.len(),
            v@ == content@,
            ls == split(content@, '\n'),
            forall|k: int| 0 <= k < lines@.len() ==> (#[trigger] lines@[k]).0 <= lines@[k].1 <= v@.len()
                && v@.subrange(lines@[k].0 as int, lines@[k].1 as int) == ls[k],
            ({
                let st = key_scan(ls.take(i as int));
                &&& st.0 == in_entry
                &&& match st.1 {
                    Some(x) => icon matches Some(y) && y@ == x,
                    None => icon is None,
                }
                &&& keys@.len() == st.2.len()
                &&& forall|j: int| 0 <= j < st.2.len() ==> (#[trigger] keys@[j])@ == st.2[j]
            }),
        decreases lines.len() - i,
    {
        let (a, b) = lines[i];
        let (lo, hi) = trim_range(v.as_slice(), a, b);
        assert(ls.take(i + 1).drop_last() == ls.take(i as int));
        assert(ls.take(i + 1).last() == ls[i as int]);
        let ghost l = v@.subrange(lo as int, hi as int);
        let ghost k0 = keys@;
        if lo < hi && v[lo] == '[' {
            let line = string_of(v.as_slice(), lo, hi);
            in_entry = str_eq(line.as_str(), "[Desktop Entry]");
        } else if in_entry {
            match find_char_in(v.as_slice(), lo, hi, '=') {
                None => {},
                Some(e) => {
                    let (klo, khi) = trim_range(v.as_slice(), lo, lo + e);
                    let (vlo, vhi) = trim_range(v.as_slice(), lo + e + 1, hi);
                    assert(v@.subrange(lo as int, lo + e) == l.take(e as int));
                    assert(v@.subrange(lo + e + 1, hi as int) == l.skip(e + 1));
                    let key = string_of(v.as_slice(), klo, khi);
                    if str_eq(key.as_str(), "Icon") {
                        icon = Some(string_of(v.as_slice(), vlo, vhi));
                    } else if str_eq(key.as_str(), "Name") || str_eq(key.as_str(), "StartupWMClass") {
                        let val = string_of(v.as_slice(), vlo, vhi);
                        keys.push(to_lowercase(val.as_str()));
                    } else if str_eq(key.as_str(), "Exec") {
                        match exec_base_exec(v.as_slice(), vlo, vhi) {
                            Some(base) => {
                                keys.push(to_lowercase(base.as_str()));
                            },
                            None => {},
                        }
                    }
                },
            }
        }
        proof {
            let st0 = key_scan(ls.take(i as int));
            let st1 = key_scan(ls.take(i + 1));
            assert forall|j: int| 0 <= j < st1.2.len() implies (#[trigger] keys@[j])@ == st1.2[j] by {
                if j < k0.len() {
                    assert(keys@[j] == k0[j]);
                }
            }
        }
        i = i + 1;
    }
    assert(ls.take(ls.len() as int) == ls);
    let sv = chars_of(stem);
    let stem_str = string_of(sv.as_slice(), 0, sv.len());
    assert(sv@.subrange(0, sv@.len() as int) == stem@);
    let ghost k1 = keys@;
    keys.push(to_lowercase(stem_str.as_str()));
    let ghost k2 = keys@;
    if find_char_in(sv.as_slice(), 0, sv.len(), '.').is_some() {
        let ps = split_ranges(sv.as_slice(), 0, sv.len(), '.');
        proof {
            lemma_split_nonempty(stem@, '.');
        }
        let (a, b) = ps[ps.len() - 1];
        let part = string_of(sv.as_slice(), a, b);
        keys.push(to_lowercase(part.as_str()));
    }
    proof {
        let (ic, ks) = desktop_keys_spec(stem@, content@);
        assert forall|j: int| 0 <= j < ks.len() implies (#[trigger] keys@[j])@ == ks[j] by {
            if j < k1.len() {
                assert(keys@[j] == k1[j]);
            } else if j < k2.len() {
                assert(keys@[j] == k2[j]);
            }
        }
    }
    (icon, keys)
}

// ── icon files ───────────────────────────────────────────────────────────────

/// `s` without leading double quotes.
pub open spec fn trim_quotes_start(s: Seq<char>) -> Seq<char>
    decreases s.len(),
{
    if s.len() > 0 && s[0] == '"' {
        trim_quotes_start(s.drop_first())
    } else {
        s
    }
}

/// `s` without trailing double quotes.
pub open spec fn trim_quotes_end(s: Seq<char>) -> Seq<char>
    decreases s.len(),
{
    if s.len() > 0 && s.last() == '"' {
        trim_quotes_end(s.drop_last())
    } else {
        s
    }
}

/// The icon theme a line of GTK's `settings.ini` names: the line starts with
/// `gtk-icon-theme-name`, and the text between its first and second `=` after
/// that, trimmed and stripped of double quotes, is not empty.
pub open spec fn settings_theme_of_line(line: Seq<char>) -> Option<Seq<char>> {
    let key = "gtk-icon-theme-name"@;
    if starts_with(line, key) {
        let parts = split(line.skip(key.len() as int), '=');
        if parts.len() >= 2 {
            let name = trim(trim_quotes_end(trim_quotes_start(trim(parts[1]))));
            if name.len() > 0 {
                Some(name)
            } else {
                None
            }
        } else {
            None
        }
    } else {
        None
    }
}

/// The theme named by the first line that names one.
pub open spec fn settings_theme_in(ls: Seq<Seq<char>>) -> Option<Seq<char>>
    decreases ls.len(),
{
    if ls.len() == 0 {
        None
    } else {
        match settings_theme_of_line(ls[0]) {
            Some(v) => Some(v),
            None => settings_theme_in(ls.drop_first()),
        }
    }
}

proof fn lemma_settings_skip(ls: Seq<Seq<char>>, i: int)
    requires
        0 <= i <= ls.len(),
        forall|k: int| 0 <= k < i ==> settings_theme_of_line(#[trigger] ls[k]) is None,
    ensures
        settings_theme_in(ls) == settings_theme_in(ls.skip(i)),
    decreases i,
{
    if i == 0 {
        assert(ls.skip(0) == ls);
    } else {
        assert(settings_theme_of_line(ls[0]) is None);
        let t = ls.drop_first();
        assert forall|k: int| 0 <= k < i - 1 implies settings_theme_of_line(#[trigger] t[k]) is None by {
            assert(t[k] == ls[k + 1]);
        }
        lemma_settings_skip(t, i - 1);
        assert(t.skip(i - 1) == ls.skip(i));
    }
}

/// The icon theme named in a GTK `settings.ini` text, by the first line that
/// names one.
pub fn settings_icon_theme(content: &str) -> (r: Option<String>)
    ensures
        match settings_theme_in(split(content@, '\n')) {
            Some(v) => r matches Some(s) && s@ == v,
            None => r is None,
        },
{
    let v = chars_of(content);
    let lines = split_ranges(v.as_slice(), 0, v.len(), '\n');
    assert(v@.subrange(0, v@.len() as int) == content@);
    let ghost ls = split(content@, '\n');
    let key = "gtk-icon-theme-name";
    proof {
        reveal_strlit("gtk-icon-theme-name");
    }
    let mut i: usize = 0;
    while i < lines.len()
        invariant
            i <= lines@.len() == ls.len(),
            v@ == content@,
            ls == split(content@, '\n'),
            key@ == "gtk-icon-theme-name"@,
            key@.len() == 19,
            forall|k: int| 0 <= k < lines@.len() ==> (#[trigger] lines@[k]).0 <= lines@[k].1 <= v@.len()
                && v@.subrange(lines@[k].0 as int, lines@[k].1 as int) == ls[k],
            forall|k: int| 0 <= k < i ==> settings_theme_of_line(#[trigger] ls[k]) is None,
        decreases lines.len() - i,
    {
        let (a, b) = lines[i];
        let ghost l = ls[i as int];
        if b - a >= 19 && range_eq_str(v.as_slice(), a, a + 19, key) {
            assert(l.take(19) == v@.subrange(a as int, a + 19));
            assert(l.skip(19) == v@.subrange(a + 19, b as int));
            let parts = split_ranges(v.as_slice(), a + 19, b, '=');
            if parts.len() >= 2 {
                let (c, d) = parts[1];
                let (mut lo, mut hi) = trim_range(v.as_slice(), c, d);
                let lo0 = lo;
                while lo < hi && v[lo] == '"'
                    invariant
                        lo0 <= lo <= hi <= v@.len(),
                        trim_quotes_start(v@.subrange(lo0 as int, hi as int)) == trim_quotes_start(
                            v@.subrange(lo as int, hi as int),
                        ),
                    decreases hi - lo,
                {
                    assert(v@.subrange(lo as int, hi as int).drop_first() == v@.subrange(lo + 1, hi as int));
                    lo = lo + 1;
                }
                assert(trim_quotes_start(v@.subrange(lo as int, hi as int)) == v@.subrange(lo as int, hi as int));
                let hi0 = hi;
                while hi > lo && v[hi - 1] == '"'
                    invariant
                        lo <= hi <= hi0 <= v@.len(),
                        trim_quotes_end(v@.subrange(lo as int, hi0 as int)) == trim_quotes_end(
                            v@.subrange(lo as int, hi as int),
                        ),
                    decreases hi - lo,
                {
                    assert(v@.subrange(lo as int, hi as int).drop_last() == v@.subrange(lo as int, hi - 1));
                    hi = hi - 1;
                }
                assert(trim_quotes_end(v@.subrange(lo as int, hi as int)) == v@.subrange(lo as int, hi as int));
                let (e, f) = trim_range(v.as_slice(), lo, hi);
                if e < f {
                    proof {
                        lemma_settings_skip(ls, i as int);
                        assert(ls.skip(i as int)[0] == ls[i as int]);
                    }
                    return Some(string_of(v.as_slice(), e, f));
                }
            }
        } else {
            if b - a >= 19 {
                assert(l.take(19) == v@.subrange(a as int, a + 19));
            }
        }
        i = i + 1;
    }
    proof {
        lemma_settings_skip(ls, ls.len() as int);
    }
    None
}

/// The size directories tried under a theme, in order of preference.
pub open spec fn icon_sizes() -> Seq<Seq<char>> {
    seq!["48x48"@, "32x32"@, "64x64"@, "128x128"@, "256x256"@, "22x22"@, "16x16"@]
}

/// `base/<size>/apps/<name>.png` for each size, in order.
pub open spec fn sized_pngs(base: Seq<char>, name: Seq<char>) -> Seq<(Seq<char>, bool)> {
    icon_sizes().map_values(|s: Seq<char>| (base + "/"@ + s + "/apps/"@ + name + ".png"@, false))
}

/// The files tried for an icon name, in order. Each is taken when it exists; one
/// marked `true` only when its extension is also `png`. The user's and the system's
/// hicolor theme come first, then the GTK theme if one is set, then the pixmaps
/// directory, with and without `.png`.
pub open spec fn icon_file_candidates_spec(home: Seq<char>, name: Seq<char>, theme: Option<Seq<char>>) -> Seq<(Seq<char>, bool)> {
    sized_pngs(home + "/.local/share/icons/hicolor"@, name) + sized_pngs("/usr/share/icons/hicolor"@, name)
        + match theme {
        Some(t) => sized_pngs("/usr/share/icons/"@ + t, name),
        None => Seq::empty(),
    } + seq![("/usr/share/pixmaps/"@ + name + ".png"@, false), ("/usr/share/pixmaps/"@ + name, true)]
}

pub open spec fn cands_view(v: Seq<(String, bool)>) -> Seq<(Seq<char>, bool)> {
    v.map_values(|c: (String, bool)| (c.0@, c.1))
}

fn push_sized(out: &mut Vec<(String, bool)>, base: &str, name: &str)
    ensures
        cands_view(final(out)@) == cands_view(old(out)@) + sized_pngs(base@, name@),
{
    let sizes: [&str; 7] = ["48x48", "32x32", "64x64", "128x128", "256x256", "22x22", "16x16"];
    let ghost o = cands_view(out@);
    let mut i: usize = 0;
    while i < 7
        invariant
            i <= 7,
            sizes@.len() == 7,
            forall|k: int| 0 <= k < 7 ==> (#[trigger] sizes@[k])@ == icon_sizes()[k],
            cands_view(out@) == o + sized_pngs(base@, name@).take(i as int),
        decreases 7 - i,
    {
        let mut p = String::new();
        push_str(&mut p, base);
        push_str(&mut p, "/");
        push_str(&mut p, sizes[i]);
        push_str(&mut p, "/apps/");
        push_str(&mut p, name);
        push_str(&mut p, ".png");
        let ghost before = out@;
        out.push((p, false));
        proof {
            let sp = sized_pngs(base@, name@);
            assert(sp.take(i + 1) == sp.take(i as int).push(sp[i as int]));
            assert(cands_view(out@) =~= cands_view(before).push((p@, false)));
        }
        i = i + 1;
    }
    assert(sized_pngs(base@, name@).take(7) == sized_pngs(base@, name@));
}

/// The files to try for icon `name` (already lower case), in order.
pub fn icon_file_candidates(home: &str, name: &str, theme: Option<&str>) -> (r: Vec<(String, bool)>)
    ensures
        cands_view(r@) == icon_file_candidates_spec(home@, name@, match theme {
            Some(t) => Some(t@),
            None => None,
        }),
{
    let mut out: Vec<(String, bool)> = Vec::new();
    let mut user = String::new();
    push_str(&mut user, home);
    push_str(&mut user, "/.local/share/icons/hicolor");
    push_sized(&mut out, user.as_str(), name);
    push_sized(&mut out, "/usr/share/icons/hicolor", name);
    match theme {
        Some(t) => {
            let mut tb = String::new();
            push_str(&mut tb, "/usr/share/icons/");
            push_str(&mut tb, t);
            push_sized(&mut out, tb.as_str(), name);
        },
        None => {},
    }
    let ghost mid2 = cands_view(out@);
    let mut p = String::new();
    push_str(&mut p, "/usr/share/pixmaps/");
    push_str(&mut p, name);
    let mut q = String::new();
    push_str(&mut q, p.as_str());
    push_str(&mut q, ".png");
    out.push((q, false));
    out.push((p, true));
    proof {
        assert(cands_view(out@) =~= mid2 + seq![
            ("/usr/share/pixmaps/"@ + name@ + ".png"@, false),
            ("/usr/share/pixmaps/"@ + name@, true),
        ]);
    }
    out
}

// ── decoding ─────────────────────────────────────────────────────────────────

/// What the png crate decodes from `bytes` (default limits, no transformations): the
/// first frame's width, height, colour type (0 grey, 2 RGB, 3 indexed, 4 grey and
/// alpha, 6 RGBA) and the frame buffer; `None` where it reports an error.
pub uninterp spec fn png_frame(bytes: Seq<u8>) -> Option<(u32, u32, u8, Seq<u8>)>;

/// `png::Decoder::new`, `read_info` and `next_frame` into a buffer of
/// `output_buffer_size` bytes. Its result is `png_frame` of the bytes; nothing more is
/// stated about what the decoder computes.
#[verifier::external_body]
fn decode_png(bytes: &[u8]) -> (r: Option<(u32, u32, u8, Vec<u8>)>)
    ensures
        match png_frame(bytes@) {
            Some(f) => r matches Some(x) && x.0 == f.0 && x.1 == f.1 && x.2 == f.2 && x.3@ == f.3,
            None => r is None,
        },
{
    let mut reader = match png::Decoder::new(bytes).read_info() {
        Ok(r) => r,
        Err(_) => return None,
    };
    let mut buf = vec![0u8; reader.output_buffer_size()];
    match reader.next_frame(&mut buf) {
        Ok(info) => Some((info.width, info.height, info.color_type as u8, buf)),
        Err(_) => None,
    }
}

/// Bytes per pixel of a decoded colour type that can be turned into RGBA.
pub open spec fn samples(color: u8) -> int {
    if color == 6 { 4 } else if color == 2 { 3 } else if color == 4 { 2 } else if color == 0 { 1 } else { 0 }
}

/// The RGBA bytes of `n` pixels stored in `buf` with colour type `color`: RGB gets an
/// opaque alpha, grey is copied to red, green and blue.
pub open spec fn rgba_of(color: u8, n: int, buf: Seq<u8>) -> Seq<u8> {
    Seq::new((n * 4) as nat, |i: int| {
        let p = i / 4;
        let c = i % 4;
        if color == 6 {
            buf[i]
        } else if color == 2 {
            if c == 3 { 255u8 } else { buf[p * 3 + c] }
        } else if color == 4 {
            if c == 3 { buf[p * 2 + 1] } else { buf[p * 2] }
        } else {
            if c == 3 { 255u8 } else { buf[p] }
        }
    })
}

proof fn lemma_pixel_index(p: int, c: int)
    requires
        0 <= p,
        0 <= c < 4,
    ensures
        (p * 4 + c) / 4 == p,
        (p * 4 + c) % 4 == c,
{
    assert((p * 4 + c) / 4 == p && (p * 4 + c) % 4 == c) by (nonlinear_arith)
        requires 0 <= p, 0 <= c < 4;
}

/// Turns a decoded frame of `w * h` pixels into RGBA bytes.
pub fn expand_rgba(w: u32, h: u32, color: u8, buf: &Vec<u8>) -> (r: Option<IconData>)
    requires
        w * h <= u32::MAX,
        buf@.len() >= w * h * samples(color),
        w * h * 4 <= usize::MAX,
    ensures
        samples(color) == 0 ==> r is None,
        samples(color) > 0 ==> (r matches Some(d) && d.0 == w && d.1 == h
            && d.2@ == rgba_of(color, w * h, buf@)),
{
    if !(color == 6 || color == 2 || color == 4 || color == 0) {
        return None;
    }
    let n: usize = (w * h) as usize;
    let mut out: Vec<u8> = Vec::new();
    let mut p: usize = 0;
    while p < n
        invariant
            p <= n == w * h,
            n * 4 <= usize::MAX,
            buf@.len() >= n * samples(color),
            samples(color) > 0,
            out@ == rgba_of(color, p as int, buf@),
        decreases n - p,
    {
        let ghost o0 = out@;
        proof {
            assert(p * samples(color) + samples(color) <= n * samples(color)) by (nonlinear_arith)
                requires p < n, samples(color) > 0;
        }
        if color == 6 {
            let b = 4 * p;
            out.push(buf[b]);
            out.push(buf[b + 1]);
            out.push(buf[b + 2]);
            out.push(buf[b + 3]);
        } else if color == 2 {
            let b = 3 * p;
            out.push(buf[b]);
            out.push(buf[b + 1]);
            out.push(buf[b + 2]);
            out.push(255);
        } else if color == 4 {
            let b = 2 * p;
            out.push(buf[b]);
            out.push(buf[b]);
            out.push(buf[b]);
            out.push(buf[b + 1]);
        } else {
            out.push(buf[p]);
            out.push(buf[p]);
            out.push(buf[p]);
            out.push(255);
        }
        proof {
            let want = rgba_of(color, p + 1, buf@);
            assert forall|i: int| 0 <= i < (p + 1) * 4 implies out@[i] == #[trigger] want[i] by {
                if i < p * 4 {
                    assert(out@[i] == o0[i]);
                    assert(o0[i] == rgba_of(color, p as int, buf@)[i]);
                } else {
                    let c = i - p * 4;
                    lemma_pixel_index(p as int, c);
                    assert(i == p * 4 + c);
                }
            }
            assert(out@ =~= want);
        }
        p = p + 1;
    }
    Some((w, h, out))
}

/// Decodes a PNG file's bytes into RGBA (grey, grey-and-alpha, RGB and RGBA images; an
/// indexed image gives `None`). A frame whose pixel count overflows or whose buffer is
/// shorter than its pixels need (bit depths below 8) also gives `None`.
pub fn load_png_rgba(bytes: &[u8]) -> (r: Option<IconData>)
    ensures
        match png_frame(bytes@) {
            None => r is None,
            Some(f) => if f.0 * f.1 <= u32::MAX && f.3.len() >= f.0 * f.1 * samples(f.2)
                && f.0 * f.1 * 4 <= usize::MAX {
                if samples(f.2) == 0 {
                    r is None
                } else {
                    r matches Some(d) && d.0 == f.0 && d.1 == f.1 && d.2@ == rgba_of(f.2, f.0 * f.1, f.3)
                }
            } else {
                r is None
            },
        },
{
    match decode_png(bytes) {
        None => None,
        Some((w, h, color, buf)) => {
            proof {
                assert((w as int) * (h as int) <= 0xffff_ffff_ffff_ffff) by (nonlinear_arith)
                    requires w <= 0xffff_ffffu32, h <= 0xffff_ffffu32;
            }
            let wh: u64 = w as u64 * h as u64;
            if wh > 0xffff_ffff {
                return None;
            }
            let k: u64 = if color == 6 { 4 } else if color == 2 { 3 } else if color == 4 { 2 } else if color == 0 { 1 } else { 0 };
            if (buf.len() as u64) < wh * k {
                return None;
            }
            if wh * 4 > usize::MAX as u64 {
                return None;
            }
            expand_rgba(w, h, color, &buf)
        },
    }
}

/// What `flate2`'s gzip reader yields for `data`, read to the end; `None` where it
/// reports an error.
pub uninterp spec fn gunzip(data: Seq<u8>) -> Option<Seq<u8>>;

/// `flate2::read::GzDecoder::new` and `read_to_end`. Its result is `gunzip` of the
/// data; nothing more is stated about decompression.
#[verifier::external_body]
fn decompress_gzip(data: &[u8]) -> (r: Option<Vec<u8>>)
    ensures
        match gunzip(data@) {
            Some(d) => r matches Some(x) && x@ == d,
            None => r is None,
        },
{
    let mut out = Vec::new();
    match std::io::Read::read_to_end(&mut flate2::read::GzDecoder::new(data), &mut out) {
        Ok(_) => Some(out),
        Err(_) => None,
    }
}

/// The SVG text of an icon file's bytes: an `.svgz` file is gunzipped first.
pub fn svg_source(is_svgz: bool, data: Vec<u8>) -> (r: Option<Vec<u8>>)
    ensures
        is_svgz ==> match gunzip(data@) {
            Some(d) => r matches Some(x) && x@ == d,
            None => r is None,
        },
        !is_svgz ==> (r matches Some(x) && x@ == data@),
{
    if is_svgz {
        decompress_gzip(data.as_slice())
    } else {
        Some(data)
    }
}

} // verus!
