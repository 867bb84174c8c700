//! The launcher's icon lookup: the icon theme that GTK's settings name, the theme
//! directories searched and the file names tried in them, in order, the kind of
//! image a file holds, and the cache of bitmaps loaded at the launcher's icon size.
//! Which files exist, and decoding them, is the caller's part.
use vstd::prelude::*;
use crate::images::{decode_fill, filled_rgba};
use crate::icons::{find_key, find_key_exec, get_key, put, unique_keys};
use crate::strs::{chars_of, is_whitespace, is_ws, lowercase, push_str, range_eq_str, split,
    split_ranges, starts_with, str_eq, string_of, to_lowercase, trim, trim_range};

verus! {

/// Edge length, in pixels, of the square bitmaps the launcher draws.
pub const ICON_SIZE: u32 = 28;

// ── icon theme from GTK settings ─────────────────────────────────────────────

/// `s` without its leading `=` signs and white space.
pub open spec fn trim_assign(s: Seq<char>) -> Seq<char>
    decreases s.len(),
{
    if s.len() > 0 && (s[0] == '=' || is_ws(s[0])) {
        trim_assign(s.drop_first())
    } else {
        s
    }
}

/// The theme that one line of a `settings.ini` names, if it sets
/// `gtk-icon-theme-name` to something.
pub open spec fn theme_of_line(line: Seq<char>) -> Option<Seq<char>> {
    let l = trim(line);
    let key = "gtk-icon-theme-name"@;
    if starts_with(l, key) {
        let v = trim(trim_assign(l.skip(key.len() as int)));
        if v.len() > 0 {
            Some(v)
        } else {
            None
        }
    } else {
        None
    }
}

/// The theme named by the first line that names one.
pub open spec fn theme_in_lines(ls: Seq<Seq<char>>) -> Option<Seq<char>>
    decreases ls.len(),
{
    if ls.len() == 0 {
        None
    } else {
        match theme_of_line(ls[0]) {
            Some(v) => Some(v),
            None => theme_in_lines(ls.drop_first()),
        }
    }
}

/// The icon theme a `settings.ini` text names.
pub open spec fn gtk_theme_spec(content: Seq<char>) -> Option<Seq<char>> {
    theme_in_lines(split(content, '\n'))
}

proof fn lemma_theme_skip(ls: Seq<Seq<char>>, i: int)
    requires
        0 <= i <= ls.len(),
        forall|k: int| 0 <= k < i ==> theme_of_line(#[trigger] ls[k]) is None,
    ensures
        theme_in_lines(ls) == theme_in_lines(ls.skip(i)),
    decreases i,
{
    if i == 0 {
        assert(ls.skip(0) == ls);
    } else {
        assert(theme_of_line(ls[0]) is None);
        let t = ls.drop_first();
        assert forall|k: int| 0 <= k < i - 1 implies theme_of_line(#[trigger] t[k]) is None by {
            assert(t[k] == ls[k + 1]);
        }
        lemma_theme_skip(t, i - 1);
        assert(t.skip(i - 1) == ls.skip(i));
    }
}

/// The value of `gtk-icon-theme-name` in a GTK `settings.ini` text: the first line
/// that sets it to something non-blank, trimmed.
pub fn gtk_icon_theme(content: &str) -> (r: Option<String>)
    ensures
        match gtk_theme_spec(content@) {
            Some(v) => r matches Some(s) && s@ == v,
            None => r is None,
        },
{
    let v = chars_of(content);
    let lines = split_ranges(v.as_slice(), 0, v.len(), '\n');
    assert(v@.subrange(0, v@.len() as int) == content@);
    let ghost ls = split(content@, '\n');
    let key = "gtk-icon-theme-name";
    let mut i: usize = 0;
    while i < lines.len()
        invariant
            i <= lines@.len() == ls.len(),
            v@ == content@,
            ls == split(content@, '\n'),
            key@ == "gtk-icon-theme-name"@,
            forall|k: int| 0 <= k < lines@.len() ==> (#[trigger] lines@[k]).0 <= lines@[k].1 <= v@.len()
                && v@.subrange(lines@[k].0 as int, lines@[k].1 as int) == ls[k],
            forall|k: int| 0 <= k < i ==> theme_of_line(#[trigger] ls[k]) is None,
        decreases lines.len() - i,
    {
        let (a, b) = lines[i];
        let (lo, hi) = trim_range(v.as_slice(), a, b);
        let ghost l = trim(ls[i as int]);
        assert(v@.subrange(lo as int, hi as int) == l);
        let klen: usize = 19;
        proof {
            reveal_strlit("gtk-icon-theme-name");
        }
        if hi - lo >= klen && range_eq_str(v.as_slice(), lo, lo + klen, key) {
            assert(l.take(19) == v@.subrange(lo as int, lo + 19));
            assert(l.skip(19) == v@.subrange(lo + 19, hi as int));
            let mut p = lo + klen;
            while p < hi && (v[p] == '=' || is_whitespace(v[p]))
                invariant
                    lo + 19 <= p <= hi <= v@.len(),
                    trim_assign(l.skip(19)) == trim_assign(v@.subrange(p as int, hi as int)),
                decreases hi - p,
            {
                assert(v@.subrange(p as int, hi as int).drop_first() == v@.subrange(p + 1, hi as int));
                p = p + 1;
            }
            assert(l.skip(19) == v@.subrange(lo + 19, hi as int));
            assert(trim_assign(v@.subrange(p as int, hi as int)) == v@.subrange(p as int, hi as int));
            let (c, d) = trim_range(v.as_slice(), p, hi);
            if c < d {
                proof {
                    lemma_theme_skip(ls, i as int);
                    assert(ls.skip(i as int)[0] == ls[i as int]);
                }
                return Some(string_of(v.as_slice(), c, d));
            }
        } else {
            if hi - lo >= klen {
                assert(l.take(19) == v@.subrange(lo as int, lo + 19));
            }
            assert(!starts_with(l, "gtk-icon-theme-name"@));
        }
        i = i + 1;
    }
    proof {
        lemma_theme_skip(ls, ls.len() as int);
    }
    None
}

// ── search directories ───────────────────────────────────────────────────────

/// The themes searched: the chosen one, then `hicolor` (once).
pub open spec fn themes_for(theme: Seq<char>) -> Seq<Seq<char>> {
    if theme == "hicolor"@ {
        seq!["hicolor"@]
    } else {
        seq![theme, "hicolor"@]
    }
}

/// The icon roots searched, user's first.
pub open spec fn icon_roots(home: Seq<char>) -> Seq<Seq<char>> {
    seq![home + "/.local/share/icons"@, "/usr/share/icons"@]
}

/// The theme directories `root/theme` for each theme, root by root.
pub open spec fn roots_themes(roots: Seq<Seq<char>>, ts: Seq<Seq<char>>) -> Seq<Seq<char>>
    decreases roots.len(),
{
    if roots.len() == 0 {
        Seq::empty()
    } else {
        roots_themes(roots.drop_last(), ts) + ts.map_values(|t: Seq<char>| roots.last() + "/"@ + t)
    }
}

/// The candidate theme directories, in search order; those that exist are searched.
pub open spec fn theme_bases_spec(home: Seq<char>, theme: Seq<char>) -> Seq<Seq<char>> {
    roots_themes(icon_roots(home), themes_for(theme))
}

/// The views of a list of strings.
pub open spec fn strs_view(v: Seq<String>) -> Seq<Seq<char>> {
    v.map_values(|s: String| s@)
}

proof fn lemma_strs_view_push(v: Seq<String>, s: String)
    ensures
        strs_view(v.push(s)) == strs_view(v).push(s@),
{
    assert(strs_view(v.push(s)) =~= strs_view(v).push(s@));
}

fn copy_str(a: &str) -> (r: String)
    ensures
        r@ == a@,
{
    let mut r = String::new();
    push_str(&mut r, a);
    r
}

fn concat2(a: &str, b: &str) -> (r: String)
    ensures
        r@ == a@ + b@,
{
    let mut r = String::new();
    push_str(&mut r, a);
    push_str(&mut r, b);
    r
}

fn concat3(a: &str, b: &str, c: &str) -> (r: String)
    ensures
        r@ == a@ + b@ + c@,
{
    let mut r = String::new();
    push_str(&mut r, a);
    push_str(&mut r, b);
    push_str(&mut r, c);
    assert(r@ == a@ + b@ + c@);
    r
}

/// The theme directories to look for under `home` for `theme`, in search order:
/// the user's icons then the system's, each with the theme then `hicolor`.
pub fn theme_bases(home: &str, theme: &str) -> (r: Vec<String>)
    ensures
        strs_view(r@) == theme_bases_spec(home@, theme@),
{
    let user = concat2(home, "/.local/share/icons");
    let roots: [&str; 2] = [user.as_str(), "/usr/share/icons"];
    let one = str_eq_lit_hicolor(theme);
    let mut r: Vec<String> = Vec::new();
    let ghost rs = icon_roots(home@);
    let ghost ts = themes_for(theme@);
    assert(user@ == home@ + "/.local/share/icons"@);
    let mut i: usize = 0;
    while i < 2
        invariant
            i <= 2,
            rs == icon_roots(home@),
            ts == themes_for(theme@),
            roots@.len() == 2,
            roots@[0]@ == rs[0],
            roots@[1]@ == rs[1],
            one == (theme@ == "hicolor"@),
            strs_view(r@) == roots_themes(rs.take(i as int), ts),
        decreases 2 - i,
    {
        let root = roots[i];
        let ghost before = r@;
        if !one {
            let a = concat3(root, "/", theme);
            proof {
                lemma_strs_view_push(r@, a);
            }
            r.push(a);
        }
        let h = concat3(root, "/", "hicolor");
        proof {
            lemma_strs_view_push(r@, h);
        }
        r.push(h);
        proof {
            assert(rs.take(i + 1).drop_last() == rs.take(i as int));
            assert(rs.take(i + 1).last() == rs[i as int]);
            let add = ts.map_values(|t: Seq<char>| rs[i as int] + "/"@ + t);
            if one {
                assert(add =~= seq![rs[i as int] + "/"@ + "hicolor"@]);
            } else {
                assert(add =~= seq![rs[i as int] + "/"@ + theme@, rs[i as int] + "/"@ + "hicolor"@]);
            }
            assert(strs_view(r@) =~= strs_view(before) + add);
        }
        i = i + 1;
    }
    assert(rs.take(2) == rs);
    r
}

fn str_eq_lit_hicolor(s: &str) -> (b: bool)
    ensures
        b == (s@ == "hicolor"@),
{
    crate::strs::str_eq(s, "hicolor")
}

/// The size directories looked in under a theme, in order of preference.
pub open spec fn theme_subdirs() -> Seq<Seq<char>> {
    seq![
        "48x48/apps"@, "64x64/apps"@, "32x32/apps"@, "128x128/apps"@, "scalable/apps"@,
        "48x48/categories"@, "32x32/categories"@, "scalable/categories"@, "48x48/mimetypes"@,
        "scalable/mimetypes"@,
    ]
}

/// The flat directory searched last.
pub open spec fn pixmaps_dir() -> Seq<char> {
    "/usr/share/pixmaps"@
}

/// A directory searched for icons, with the subdirectories tried in it; an empty
/// subdirectory stands for the directory itself.
pub struct IconSearchDir {
    pub base: String,
    pub subdirs: Vec<String>,
}

pub open spec fn dir_view(d: IconSearchDir) -> (Seq<char>, Seq<Seq<char>>) {
    (d.base@, strs_view(d.subdirs@))
}

pub open spec fn dirs_view(ds: Seq<IconSearchDir>) -> Seq<(Seq<char>, Seq<Seq<char>>)> {
    ds.map_values(|d: IconSearchDir| dir_view(d))
}

/// The search list built from the theme directories that exist: each with the size
/// directories, then the pixmaps directory.
pub open spec fn search_dirs_spec(bases: Seq<Seq<char>>) -> Seq<(Seq<char>, Seq<Seq<char>>)> {
    bases.map_values(|b: Seq<char>| (b, theme_subdirs())) + seq![(pixmaps_dir(), seq![Seq::<char>::empty()])]
}

fn subdir_list() -> (r: Vec<String>)
    ensures
        strs_view(r@) == theme_subdirs(),
{
    let names: [&str; 10] = [
        "48x48/apps", "64x64/apps", "32x32/apps", "128x128/apps", "scalable/apps",
        "48x48/categories", "32x32/categories", "scalable/categories", "48x48/mimetypes",
        "scalable/mimetypes",
    ];
    let mut r: Vec<String> = Vec::new();
    let mut i: usize = 0;
    while i < 10
        invariant
            i <= 10,
            names@.len() == 10,
            forall|k: int| 0 <= k < 10 ==> (#[trigger] names@[k])@ == theme_subdirs()[k],
            strs_view(r@) == theme_subdirs().take(i as int),
        decreases 10 - i,
    {
        let s = copy_str(names[i]);
        proof {
            lemma_strs_view_push(r@, s);
            assert(theme_subdirs().take(i + 1) == theme_subdirs().take(i as int).push(theme_subdirs()[i as int]));
        }
        r.push(s);
        i = i + 1;
    }
    assert(theme_subdirs().take(10) == theme_subdirs());
    r
}

// ── candidate files ──────────────────────────────────────────────────────────

/// A subdirectory of `base`, or `base` itself for an empty one.
pub open spec fn dir_path(base: Seq<char>, sub: Seq<char>) -> Seq<char> {
    if sub.len() == 0 {
        base
    } else {
        base + "/"@ + sub
    }
}

/// `name` holds a dot.
pub open spec fn has_dot(name: Seq<char>) -> bool {
    exists|i: int| 0 <= i < name.len() && name[i] == '.'
}

/// The files tried in one directory: the name as given when it has an extension,
/// then the name with each image extension.
pub open spec fn name_candidates(dir: Seq<char>, name: Seq<char>) -> Seq<Seq<char>> {
    let p = dir + "/"@ + name;
    (if has_dot(name) { seq![p] } else { Seq::empty() }) + seq![p + ".png"@, p + ".svg"@, p + ".svgz"@, p + ".xpm"@]
}

/// The files tried in the subdirectories `subs` of `base`, in order.
pub open spec fn subdir_candidates(base: Seq<char>, subs: Seq<Seq<char>>, name: Seq<char>) -> Seq<Seq<char>>
    decreases subs.len(),
{
    if subs.len() == 0 {
        Seq::empty()
    } else {
        subdir_candidates(base, subs.drop_last(), name) + name_candidates(dir_path(base, subs.last()), name)
    }
}

/// The files tried in the search directories `ds`, in order.
pub open spec fn dirs_candidates(ds: Seq<(Seq<char>, Seq<Seq<char>>)>, name: Seq<char>) -> Seq<Seq<char>>
    decreases ds.len(),
{
    if ds.len() == 0 {
        Seq::empty()
    } else {
        dirs_candidates(ds.drop_last(), name) + subdir_candidates(ds.last().0, ds.last().1, name)
    }
}

/// The files to try for an icon name, in order: an absolute path alone, else the
/// candidates of every search directory.
pub open spec fn candidates_spec(ds: Seq<(Seq<char>, Seq<Seq<char>>)>, name: Seq<char>) -> Seq<Seq<char>> {
    if name.len() > 0 && name[0] == '/' {
        seq![name]
    } else {
        dirs_candidates(ds, name)
    }
}

fn push_name_candidates(out: &mut Vec<String>, dir: &str, name: &str, dot: bool)
    requires
        dot == has_dot(name@),
    ensures
        strs_view(final(out)@) == strs_view(old(out)@) + name_candidates(dir@, name@),
{
    let p = concat3(dir, "/", name);
    let ghost o = strs_view(out@);
    if dot {
        let a = copy_str(p.as_str());
        proof {
            lemma_strs_view_push(out@, a);
        }
        out.push(a);
    }
    let ghost o1 = strs_view(out@);
    let exts: [&str; 4] = [".png", ".svg", ".svgz", ".xpm"];
    let mut i: usize = 0;
    while i < 4
        invariant
            i <= 4,
            exts@.len() == 4,
            exts@[0]@ == ".png"@,
            exts@[1]@ == ".svg"@,
            exts@[2]@ == ".svgz"@,
            exts@[3]@ == ".xpm"@,
            p@ == dir@ + "/"@ + name@,
            strs_view(out@) == o1 + seq![p@ + ".png"@, p@ + ".svg"@, p@ + ".svgz"@, p@ + ".xpm"@].take(i as int),
        decreases 4 - i,
    {
        let c = concat2(p.as_str(), exts[i]);
        proof {
            lemma_strs_view_push(out@, c);
            let all = seq![p@ + ".png"@, p@ + ".svg"@, p@ + ".svgz"@, p@ + ".xpm"@];
            assert(all.take(i + 1) == all.take(i as int).push(all[i as int]));
            assert(c@ == all[i as int]);
        }
        out.push(c);
        i = i + 1;
    }
    proof {
        let all = seq![p@ + ".png"@, p@ + ".svg"@, p@ + ".svgz"@, p@ + ".xpm"@];
        assert(all.take(4) == all);
        if dot {
            assert(o1 == o + seq![p@]);
        } else {
            assert(o1 == o);
        }
        assert(strs_view(out@) =~= o + name_candidates(dir@, name@));
    }
}

fn has_dot_exec(name: &str) -> (b: bool)
    ensures
        b == has_dot(name@),
{
    let v = chars_of(name);
    let mut i: usize = 0;
    while i < v.len()
        invariant
            i <= v@.len(),
            v@ == name@,
            forall|k: int| 0 <= k < i ==> v@[k] != '.',
        decreases v.len() - i,
    {
        if v[i] == '.' {
            return true;
        }
        i = i + 1;
    }
    false
}

// ── image kind ───────────────────────────────────────────────────────────────

/// How an icon file is loaded.
#[derive(Clone, Copy, Debug, PartialEq, Eq, Structural)]
pub enum IconKind {
    /// Decoded as a raster image and scaled to fill the icon square.
    Raster,
    /// Rendered as SVG (gzip-compressed for `.svgz`), centred in the square.
    Svg,
    /// Not loaded (XPM).
    Skip,
}

/// The kind of a file by its extension, compared in lower case; unknown
/// extensions are tried as raster images.
pub open spec fn kind_of_ext(lower: Seq<char>) -> IconKind {
    if lower == "svg"@ || lower == "svgz"@ {
        IconKind::Svg
    } else if lower == "xpm"@ {
        IconKind::Skip
    } else {
        IconKind::Raster
    }
}

/// The bitmap of a raster icon file with extension `ext` and contents `bytes`: the
/// image scaled to fill `ICON_SIZE` x `ICON_SIZE` and cropped (the image crate's
/// work, named `filled_rgba`), as RGBA; `None` when it does not decode, or when it
/// does not come out at that size, which the cache holds only.
pub fn raster_icon(bytes: &[u8], ext: &str) -> (r: Option<Vec<u8>>)
    ensures
        match filled_rgba(bytes@, ext@, ICON_SIZE, ICON_SIZE) {
            Some(d) => if d.len() == ICON_SIZE * ICON_SIZE * 4 {
                r matches Some(x) && x@ == d
            } else {
                r is None
            },
            None => r is None,
        },
{
    match decode_fill(bytes, ext, ICON_SIZE, ICON_SIZE) {
        Some(px) => if px.len() == (ICON_SIZE * ICON_SIZE * 4) as usize {
            Some(px)
        } else {
            None
        },
        None => None,
    }
}

/// How to load a file with extension `ext` (empty when it has none).
pub fn icon_kind(ext: &str) -> (k: IconKind)
    ensures
        k == kind_of_ext(lowercase(ext@)),
{
    let lower = to_lowercase(ext);
    if str_eq(lower.as_str(), "svg") || str_eq(lower.as_str(), "svgz") {
        IconKind::Svg
    } else if str_eq(lower.as_str(), "xpm") {
        IconKind::Skip
    } else {
        IconKind::Raster
    }
}

// ── the cache ────────────────────────────────────────────────────────────────

/// The bitmap cached for `name`: `None` for an empty name, one never loaded, or
/// one that could not be loaded.
pub open spec fn cached_pixels(cache: Seq<(String, Option<Vec<u8>>)>, name: Seq<char>) -> Option<Seq<u8>> {
    if name.len() == 0 {
        None
    } else {
        match get_key(cache, name) {
            Some(Some(d)) => Some(d@),
            _ => None,
        }
    }
}

/// Every bitmap cached holds `ICON_SIZE` x `ICON_SIZE` RGBA pixels.
pub open spec fn bitmaps_fit(cache: Seq<(String, Option<Vec<u8>>)>) -> bool {
    forall|k: Seq<char>| #[trigger] get_key(cache, k) matches Some(Some(d))
        ==> d@.len() == ICON_SIZE * ICON_SIZE * 4
}

/// The launcher's icon cache: for each icon name looked up, the RGBA bitmap at
/// `ICON_SIZE` x `ICON_SIZE`, or `None` when it could not be found or loaded; and
/// the directories searched, in priority order.
pub struct IconCache {
    pub cache: Vec<(String, Option<Vec<u8>>)>,
    pub search_dirs: Vec<IconSearchDir>,
}

impl IconCache {
    /// No name repeats in the cache, and every cached bitmap is `ICON_SIZE` x
    /// `ICON_SIZE` RGBA.
    pub open spec fn wf(&self) -> bool {
        &&& unique_keys(self.cache@)
        &&& bitmaps_fit(self.cache@)
    }

    /// An empty cache searching the theme directories `bases` that exist (in the
    /// order of `theme_bases`), then the pixmaps directory.
    pub fn new(bases: Vec<String>) -> (c: IconCache)
        ensures
            c.wf(),
            c.cache@.len() == 0,
            dirs_view(c.search_dirs@) == search_dirs_spec(strs_view(bases@)),
    {
        let mut dirs: Vec<IconSearchDir> = Vec::new();
        let mut i: usize = 0;
        while i < bases.len()
            invariant
                i <= bases@.len(),
                dirs_view(dirs@) == strs_view(bases@).take(i as int).map_values(
                    |b: Seq<char>| (b, theme_subdirs()),
                ),
            decreases bases.len() - i,
        {
            let d = IconSearchDir { base: copy_str(bases[i].as_str()), subdirs: subdir_list() };
            let ghost before = dirs@;
            dirs.push(d);
            proof {
                assert(dirs_view(dirs@) =~= dirs_view(before).push(dir_view(d)));
                assert(strs_view(bases@).take(i + 1) =~= strs_view(bases@).take(i as int).push(bases@[i as int]@));
            }
            i = i + 1;
        }
        let mut flat: Vec<String> = Vec::new();
        let e = String::new();
        proof {
            lemma_strs_view_push(flat@, e);
        }
        flat.push(e);
        let last = IconSearchDir { base: copy_str("/usr/share/pixmaps"), subdirs: flat };
        let ghost before = dirs@;
        dirs.push(last);
        proof {
            assert(dirs_view(dirs@) =~= dirs_view(before).push(dir_view(last)));
            assert(strs_view(bases@).take(bases@.len() as int) == strs_view(bases@));
            assert(strs_view(flat@) =~= seq![Seq::<char>::empty()]);
            assert(dirs_view(dirs@) =~= search_dirs_spec(strs_view(bases@)));
        }
        IconCache { cache: Vec::new(), search_dirs: dirs }
    }

    /// The edge length of the bitmaps.
    pub fn icon_size(&self) -> (n: u32)
        ensures
            n == ICON_SIZE,
    {
        ICON_SIZE
    }

    /// Whether `name` should be looked up and loaded: it is not empty and not
    /// cached yet (a failed load is cached too).
    pub fn needs_load(&self, name: &str) -> (b: bool)
        ensures
            b == (name@.len() > 0 && find_key(self.cache@, name@) is None),
    {
        let v = chars_of(name);
        v.len() > 0 && find_key_exec(&self.cache, name).is_none()
    }

    /// Caches what loading `name` gave: a bitmap of `ICON_SIZE` x `ICON_SIZE` RGBA
    /// pixels, or `None` when it could not be loaded.
    pub fn insert(&mut self, name: String, data: Option<Vec<u8>>)
        requires
            old(self).wf(),
            data matches Some(d) ==> d@.len() == ICON_SIZE * ICON_SIZE * 4,
        ensures
            final(self).wf(),
            final(self).search_dirs == old(self).search_dirs,
            get_key(final(self).cache@, name@) == Some(data),
            find_key(final(self).cache@, name@) is Some,
            cached_pixels(final(self).cache@, name@) == (if name@.len() == 0 {
                None
            } else {
                match data {
                    Some(d) => Some(d@),
                    None => None,
                }
            }),
            forall|k: Seq<char>| k != name@ ==> get_key(final(self).cache@, k) == get_key(old(self).cache@, k),
    {
        let ghost kv = name@;
        put(&mut self.cache, name, data);
        proof {
            assert forall|k: Seq<char>| #[trigger] get_key(self.cache@, k) is Some
                && get_key(self.cache@, k)->0 is Some
                implies get_key(self.cache@, k)->0->0@.len() == ICON_SIZE * ICON_SIZE * 4 by {
                if k != kv {
                    assert(get_key(self.cache@, k) == get_key(old(self).cache@, k));
                }
            }
            assert(bitmaps_fit(self.cache@));
        }
    }

    /// The bitmap cached for `name`, if one was loaded: `icon_size()` squared
    /// RGBA pixels.
    pub fn get(&self, name: &str) -> (r: Option<&[u8]>)
        ensures
            match cached_pixels(self.cache@, name@) {
                Some(d) => r matches Some(p) && p@ == d,
                None => r is None,
            },
            self.wf() && r is Some ==> r->0@.len() == ICON_SIZE * ICON_SIZE * 4,
    {
        let v = chars_of(name);
        if v.len() == 0 {
            return None;
        }
        match find_key_exec(&self.cache, name) {
            Some(i) => match &self.cache[i].1 {
                Some(d) => Some(d.as_slice()),
                None => None,
            },
            None => None,
        }
    }

    /// The files to try for `name`, in order; the first that exists is loaded.
    pub fn candidate_paths(&self, name: &str) -> (r: Vec<String>)
        ensures
            strs_view(r@) == candidates_spec(dirs_view(self.search_dirs@), name@),
    {
        let v = chars_of(name);
        let mut out: Vec<String> = Vec::new();
        if v.len() > 0 && v[0] == '/' {
            let p = copy_str(name);
            proof {
                lemma_strs_view_push(out@, p);
            }
            out.push(p);
            return out;
        }
        let dot = has_dot_exec(name);
        let ghost ds = dirs_view(self.search_dirs@);
        let mut i: usize = 0;
        while i < self.search_dirs.len()
            invariant
                i <= self.search_dirs@.len(),
                ds == dirs_view(self.search_dirs@),
                dot == has_dot(name@),
                strs_view(out@) == dirs_candidates(ds.take(i as int), name@),
            decreases self.search_dirs.len() - i,
        {
            let dir = &self.search_dirs[i];
            let ghost base = ds[i as int].0;
            let ghost subs = ds[i as int].1;
            let ghost start = strs_view(out@);
            let mut j: usize = 0;
            while j < dir.subdirs.len()
                invariant
                    j <= dir.subdirs@.len(),
                    base == dir.base@,
                    subs == strs_view(dir.subdirs@),
                    dot == has_dot(name@),
                    strs_view(out@) == start + subdir_candidates(base, subs.take(j as int), name@),
                decreases dir.subdirs.len() - j,
            {
                let sub = &dir.subdirs[j];
                let sv = chars_of(sub.as_str());
                let d = if sv.len() == 0 {
                    copy_str(dir.base.as_str())
                } else {
                    concat3(dir.base.as_str(), "/", sub.as_str())
                };
                assert(d@ == dir_path(base, subs[j as int]));
                push_name_candidates(&mut out, d.as_str(), name, dot);
                proof {
                    assert(subs.take(j + 1).drop_last() == subs.take(j as int));
                    assert(subs.take(j + 1).last() == subs[j as int]);
                }
                j = j + 1;
            }
            proof {
                assert(subs.take(j as int) == subs);
                assert(ds.take(i + 1).drop_last() == ds.take(i as int));
                assert(ds.take(i + 1).last() == ds[i as int]);
            }
            i = i + 1;
        }
        assert(ds.take(i as int) == ds);
        out
    }
}

} // verus!
