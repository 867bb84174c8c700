//! `.desktop` entries: parsing the `[Desktop Entry]` section, and labels for display.
use vstd::prelude::*;
use crate::strs::{
    chars_of, find_char_in, join, push_char, push_str, range_eq_str, split, split_once,
    split_ranges, str_eq, string_of, trim, trim_range, word_ranges, words,
};

verus! {

/// One launchable application.
pub struct DesktopEntry {
    pub name: String,
    pub exec_line: String,
    pub comment: String,
    pub icon: String,
    pub categories: Vec<String>,
    pub terminal: bool,
    pub path: String,
}

/// The category names of an entry, as character sequences.
pub open spec fn cat_views(cats: Seq<String>) -> Seq<Seq<char>> {
    cats.map_values(|c: String| c@)
}

/// The display label for a single category name, if it names one of the known groups.
pub open spec fn label_for(cat: Seq<char>) -> Option<Seq<char>> {
    if cat == "WebBrowser"@ || cat == "Network"@ {
        Some("Browser"@)
    } else if cat == "TerminalEmulator"@ || cat == "System"@ {
        Some("System"@)
    } else if cat == "TextEditor"@ || cat == "Development"@ || cat == "IDE"@ {
        Some("Editor"@)
    } else if cat == "FileManager"@ || cat == "Utility"@ {
        Some("Utility"@)
    } else if cat == "Graphics"@ {
        Some("Graphics"@)
    } else if cat == "AudioVideo"@ || cat == "Audio"@ || cat == "Video"@ || cat == "Player"@ {
        Some("Media"@)
    } else if cat == "Game"@ {
        Some("Game"@)
    } else if cat == "Settings"@ {
        Some("Settings"@)
    } else if cat == "Office"@ {
        Some("Office"@)
    } else {
        None
    }
}

/// The label of the first category that has one, else "App".
pub open spec fn category_label_of(cats: Seq<Seq<char>>) -> Seq<char>
    decreases cats.len(),
{
    if cats.len() == 0 {
        "App"@
    } else {
        match label_for(cats[0]) {
            Some(l) => l,
            None => category_label_of(cats.drop_first()),
        }
    }
}

fn label_of_category(cat: &str) -> (r: Option<&'static str>)
    ensures
        r matches Some(l) ==> label_for(cat@) == Some(l@),
        r is None ==> label_for(cat@) is None,
{
    if str_eq(cat, "WebBrowser") || str_eq(cat, "Network") {
        Some("Browser")
    } else if str_eq(cat, "TerminalEmulator") || str_eq(cat, "System") {
        Some("System")
    } else if str_eq(cat, "TextEditor") || str_eq(cat, "Development") || str_eq(cat, "IDE") {
        Some("Editor")
    } else if str_eq(cat, "FileManager") || str_eq(cat, "Utility") {
        Some("Utility")
    } else if str_eq(cat, "Graphics") {
        Some("Graphics")
    } else if str_eq(cat, "AudioVideo") || str_eq(cat, "Audio") || str_eq(cat, "Video") || str_eq(
        cat,
        "Player",
    ) {
        Some("Media")
    } else if str_eq(cat, "Game") {
        Some("Game")
    } else if str_eq(cat, "Settings") {
        Some("Settings")
    } else if str_eq(cat, "Office") {
        Some("Office")
    } else {
        None
    }
}

impl DesktopEntry {
    /// Short category label for display (first category or inferred).
    pub fn category_label(&self) -> (r: &'static str)
        ensures
            r@ == category_label_of(cat_views(self.categories@)),
    {
        let ghost cv = cat_views(self.categories@);
        assert(cv.skip(0) == cv);
        let mut i: usize = 0;
        while i < self.categories.len()
            invariant
                0 <= i <= self.categories@.len(),
                cv == cat_views(self.categories@),
                category_label_of(cv) == category_label_of(cv.skip(i as int)),
            decreases self.categories.len() - i,
        {
            assert(cv.skip(i as int)[0] == self.categories@[i as int]@);
            match label_of_category(self.categories[i].as_str()) {
                Some(l) => {
                    return l;
                },
                None => {},
            }
            assert(cv.skip(i as int).drop_first() == cv.skip(i + 1));
            i = i + 1;
        }
        assert(cv.skip(i as int).len() == 0);
        "App"
    }
}

/// Key and value of a `key=value` line, both trimmed.
pub open spec fn kv(line: Seq<char>) -> Option<(Seq<char>, Seq<char>)> {
    match split_once(trim(line), '=') {
        Some(p) => Some((trim(p.0), trim(p.1))),
        None => None,
    }
}

/// A section header line: it starts with `[` once trimmed.
pub open spec fn is_header(line: Seq<char>) -> bool {
    trim(line).len() > 0 && trim(line)[0] == '['
}

/// Index of the first `[Desktop Entry]` line at or after `i`.
pub open spec fn entry_start(ls: Seq<Seq<char>>, i: int) -> Option<int>
    decreases ls.len() - i,
{
    if i >= ls.len() || i < 0 {
        None
    } else if trim(ls[i]) == "[Desktop Entry]"@ {
        Some(i)
    } else {
        entry_start(ls, i + 1)
    }
}

/// Index of the first header line at or after `i` (or the number of lines).
pub open spec fn next_header(ls: Seq<Seq<char>>, i: int) -> int
    decreases ls.len() - i,
{
    if i >= ls.len() || i < 0 {
        ls.len() as int
    } else if is_header(ls[i]) {
        i
    } else {
        next_header(ls, i + 1)
    }
}

/// The value of the last `key=...` line among lines `lo..hi`, or empty.
pub open spec fn lookup(ls: Seq<Seq<char>>, lo: int, hi: int, key: Seq<char>) -> Seq<char>
    decreases hi - lo,
{
    if hi <= lo {
        Seq::<char>::empty()
    } else {
        match kv(ls[hi - 1]) {
            Some(p) => if p.0 == key {
                p.1
            } else {
                lookup(ls, lo, hi - 1, key)
            },
            None => lookup(ls, lo, hi - 1, key),
        }
    }
}

/// The words of an `Exec` value that are not field codes (`%u`, `%F`, ...).
pub open spec fn without_field_codes(ws: Seq<Seq<char>>) -> Seq<Seq<char>>
    decreases ws.len(),
{
    if ws.len() == 0 {
        ws
    } else if ws.last().len() > 0 && ws.last()[0] == '%' {
        without_field_codes(ws.drop_last())
    } else {
        without_field_codes(ws.drop_last()).push(ws.last())
    }
}

/// The `Exec` value with field codes removed and words joined by single spaces.
pub open spec fn clean_exec(cmd: Seq<char>) -> Seq<char> {
    join(without_field_codes(words(cmd)), seq![' '])
}

/// The non-empty trimmed pieces.
pub open spec fn nonempty_trimmed(ps: Seq<Seq<char>>) -> Seq<Seq<char>>
    decreases ps.len(),
{
    if ps.len() == 0 {
        ps
    } else if trim(ps.last()).len() == 0 {
        nonempty_trimmed(ps.drop_last())
    } else {
        nonempty_trimmed(ps.drop_last()).push(trim(ps.last()))
    }
}

/// The `Categories` value split on `;`, trimmed, empty pieces dropped.
pub open spec fn clean_categories(c: Seq<char>) -> Seq<Seq<char>> {
    nonempty_trimmed(split(c, ';'))
}

/// What parsing a `.desktop` file's text yields: `Some` exactly when the
/// `[Desktop Entry]` section has a non-empty `Name` and `Exec` and is neither
/// `NoDisplay=true` nor `Hidden=true`.
pub open spec fn desktop_spec(content: Seq<char>) -> Option<
    (Seq<char>, Seq<char>, Seq<char>, Seq<char>, Seq<Seq<char>>, bool),
> {
    let ls = split(content, '\n');
    match entry_start(ls, 0) {
        None => None,
        Some(a) => {
            let b = next_header(ls, a + 1);
            let name = lookup(ls, a + 1, b, "Name"@);
            let cmd = lookup(ls, a + 1, b, "Exec"@);
            let comment = lookup(ls, a + 1, b, "Comment"@);
            let icon = lookup(ls, a + 1, b, "Icon"@);
            let cats = lookup(ls, a + 1, b, "Categories"@);
            let terminal = lookup(ls, a + 1, b, "Terminal"@) == "true"@;
            let no_display = lookup(ls, a + 1, b, "NoDisplay"@) == "true"@;
            let hidden = lookup(ls, a + 1, b, "Hidden"@) == "true"@;
            if name.len() == 0 || cmd.len() == 0 || no_display || hidden {
                None
            } else {
                Some((name, clean_exec(cmd), comment, icon, clean_categories(cats), terminal))
            }
        },
    }
}

/// The characters a stored value range stands for (empty when unset).
pub open spec fn rng(v: Seq<char>, r: Option<(usize, usize)>) -> Seq<char> {
    match r {
        Some(p) => v.subrange(p.0 as int, p.1 as int),
        None => Seq::<char>::empty(),
    }
}

fn string_of_rng(v: &Vec<char>, r: Option<(usize, usize)>) -> (s: String)
    requires
        r matches Some(p) ==> p.0 <= p.1 <= v@.len(),
    ensures
        s@ == rng(v@, r),
{
    match r {
        Some(p) => string_of(v.as_slice(), p.0, p.1),
        None => String::new(),
    }
}

fn rng_is_true(v: &Vec<char>, r: Option<(usize, usize)>) -> (b: bool)
    requires
        r matches Some(p) ==> p.0 <= p.1 <= v@.len(),
    ensures
        b == (rng(v@, r) == "true"@),
{
    match r {
        Some(p) => {
            let sl = v.as_slice();
            let b = range_eq_str(sl, p.0, p.1, "true");
            assert(sl@ == v@);
            assert(rng(v@, r) == v@.subrange(p.0 as int, p.1 as int));
            b
        },
        None => {
            proof {
                reveal_strlit("true");
                assert("true"@.len() == 4);
            }
            false
        },
    }
}

/// The `Exec` value without field codes, words joined by single spaces.
fn clean_exec_string(v: &Vec<char>, lo: usize, hi: usize) -> (s: String)
    requires
        lo <= hi <= v@.len(),
    ensures
        s@ == clean_exec(v@.subrange(lo as int, hi as int)),
{
    let ws = word_ranges(v.as_slice(), lo, hi);
    let ghost all = words(v@.subrange(lo as int, hi as int));
    let mut out = String::new();
    let mut kept: usize = 0;
    let mut k: usize = 0;
    while k < ws.len()
        invariant
            0 <= k <= ws@.len(),
            lo <= hi <= v@.len(),
            ws@.len() == all.len(),
            all == words(v@.subrange(lo as int, hi as int)),
            forall|i: int|
                0 <= i < ws@.len() ==> lo <= (#[trigger] ws@[i]).0 <= ws@[i].1 <= hi && v@.subrange(
                    ws@[i].0 as int,
                    ws@[i].1 as int,
                ) == all[i],
            kept == without_field_codes(all.take(k as int)).len(),
            kept <= k,
            out@ == join(without_field_codes(all.take(k as int)), seq![' ']),
        decreases ws.len() - k,
    {
        let (a, b) = ws[k];
        assert(all.take(k + 1).drop_last() == all.take(k as int));
        assert(all.take(k + 1).last() == all[k as int]);
        if a < b && v[a] == '%' {
        } else {
            let ghost prev = without_field_codes(all.take(k as int));
            if kept > 0 {
                push_char(&mut out, ' ');
            }
            let w = string_of(v.as_slice(), a, b);
            push_str(&mut out, w.as_str());
            proof {
                let nw = prev.push(all[k as int]);
                assert(nw.drop_last() == prev);
                if prev.len() == 0 {
                    assert(join(nw, seq![' ']) == nw[0]);
                }
                assert(out@ == join(nw, seq![' ']));
            }
            kept = kept + 1;
        }
        k = k + 1;
    }
    assert(all.take(ws@.len() as int) == all);
    out
}

/// The `Categories` pieces, trimmed, without empty ones.
fn clean_categories_vec(v: &Vec<char>, lo: usize, hi: usize) -> (cats: Vec<String>)
    requires
        lo <= hi <= v@.len(),
    ensures
        cat_views(cats@) == clean_categories(v@.subrange(lo as int, hi as int)),
{
    let ps = split_ranges(v.as_slice(), lo, hi, ';');
    let ghost all = split(v@.subrange(lo as int, hi as int), ';');
    let mut cats: Vec<String> = Vec::new();
    let mut k: usize = 0;
    while k < ps.len()
        invariant
            0 <= k <= ps@.len(),
            lo <= hi <= v@.len(),
            ps@.len() == all.len(),
            all == split(v@.subrange(lo as int, hi as int), ';'),
            forall|i: int|
                0 <= i < ps@.len() ==> lo <= (#[trigger] ps@[i]).0 <= ps@[i].1 <= hi && v@.subrange(
                    ps@[i].0 as int,
                    ps@[i].1 as int,
                ) == all[i],
            cat_views(cats@) == nonempty_trimmed(all.take(k as int)),
        decreases ps.len() - k,
    {
        let (a, b) = ps[k];
        let (tl, th) = trim_range(v.as_slice(), a, b);
        assert(all.take(k + 1).drop_last() == all.take(k as int));
        assert(all.take(k + 1).last() == all[k as int]);
        if tl < th {
            let s = string_of(v.as_slice(), tl, th);
            let ghost before = cats@;
            cats.push(s);
            assert(cat_views(cats@) == cat_views(before).push(s@));
        }
        k = k + 1;
    }
    assert(all.take(ps@.len() as int) == all);
    cats
}

/// Parse the text of a `.desktop` file found at `path`.
/// Only the `[Desktop Entry]` section is read; entries without a name or
/// command, or marked `NoDisplay=true` or `Hidden=true`, give `None`.
pub fn parse_desktop_file(content: &str, path: &str) -> (r: Option<DesktopEntry>)
    ensures
        r is Some <==> desktop_spec(content@) is Some,
        r matches Some(e) ==> ({
            let d = desktop_spec(content@)->0;
            &&& e.name@ == d.0
            &&& e.exec_line@ == d.1
            &&& e.comment@ == d.2
            &&& e.icon@ == d.3
            &&& cat_views(e.categories@) == d.4
            &&& e.terminal == d.5
            &&& e.path@ == path@
        }),
{
    let v = chars_of(content);
    let lines = split_ranges(v.as_slice(), 0, v.len(), '\n');
    let ghost ls = split(v@.subrange(0, v@.len() as int), '\n');
    assert(v@.subrange(0, v@.len() as int) == content@);
    // find the [Desktop Entry] header
    let mut a: usize = 0;
    let mut found = false;
    while !found && a < lines.len()
        invariant
            0 <= a <= lines@.len(),
            lines@.len() == ls.len(),
            ls == split(content@, '\n'),
            v@ == content@,
            forall|i: int|
                0 <= i < lines@.len() ==> 0 <= (#[trigger] lines@[i]).0 <= lines@[i].1 <= v@.len()
                    && v@.subrange(lines@[i].0 as int, lines@[i].1 as int) == ls[i],
            found ==> a < lines.len() && entry_start(ls, 0) == Some(a as int),
            !found ==> entry_start(ls, 0) == entry_start(ls, a as int),
        decreases lines.len() - a + (if found { 0int } else { 1 }),
    {
        let (l0, l1) = lines[a];
        let (tl, th) = trim_range(v.as_slice(), l0, l1);
        if range_eq_str(v.as_slice(), tl, th, "[Desktop Entry]") {
            found = true;
        } else {
            a = a + 1;
        }
    }
    if !found {
        return None;
    }
    let mut name: Option<(usize, usize)> = None;
    let mut exec_val: Option<(usize, usize)> = None;
    let mut comment: Option<(usize, usize)> = None;
    let mut icon: Option<(usize, usize)> = None;
    let mut cats: Option<(usize, usize)> = None;
    let mut terminal: Option<(usize, usize)> = None;
    let mut no_display: Option<(usize, usize)> = None;
    let mut hidden: Option<(usize, usize)> = None;
    let lo = a + 1;
    let mut i = lo;
    let mut stop = false;
    while !stop && i < lines.len()
        invariant
            lo == a + 1,
            stop ==> i < lines@.len() && is_header(ls[i as int]),
            lo <= i <= lines@.len(),
            lines@.len() == ls.len(),
            ls == split(content@, '\n'),
            v@ == content@,
            forall|j: int|
                0 <= j < lines@.len() ==> 0 <= (#[trigger] lines@[j]).0 <= lines@[j].1 <= v@.len()
                    && v@.subrange(lines@[j].0 as int, lines@[j].1 as int) == ls[j],
            next_header(ls, lo as int) == next_header(ls, i as int),
            name matches Some(p) ==> p.0 <= p.1 <= v@.len(),
            exec_val matches Some(p) ==> p.0 <= p.1 <= v@.len(),
            comment matches Some(p) ==> p.0 <= p.1 <= v@.len(),
            icon matches Some(p) ==> p.0 <= p.1 <= v@.len(),
            cats matches Some(p) ==> p.0 <= p.1 <= v@.len(),
            terminal matches Some(p) ==> p.0 <= p.1 <= v@.len(),
            no_display matches Some(p) ==> p.0 <= p.1 <= v@.len(),
            hidden matches Some(p) ==> p.0 <= p.1 <= v@.len(),
            rng(v@, name) == lookup(ls, lo as int, i as int, "Name"@),
            rng(v@, exec_val) == lookup(ls, lo as int, i as int, "Exec"@),
            rng(v@, comment) == lookup(ls, lo as int, i as int, "Comment"@),
            rng(v@, icon) == lookup(ls, lo as int, i as int, "Icon"@),
            rng(v@, cats) == lookup(ls, lo as int, i as int, "Categories"@),
            rng(v@, terminal) == lookup(ls, lo as int, i as int, "Terminal"@),
            rng(v@, no_display) == lookup(ls, lo as int, i as int, "NoDisplay"@),
            rng(v@, hidden) == lookup(ls, lo as int, i as int, "Hidden"@),
        decreases lines.len() - i + (if stop { 0int } else { 1 }),
    {
        let (l0, l1) = lines[i];
        let (tl, th) = trim_range(v.as_slice(), l0, l1);
        let ghost t = v@.subrange(tl as int, th as int);
        assert(t == trim(ls[i as int]));
        if tl < th && v[tl] == '[' {
            assert(is_header(ls[i as int]));
            stop = true;
        } else {
        assert(!is_header(ls[i as int]));
        match find_char_in(v.as_slice(), tl, th, '=') {
            None => {
                assert(kv(ls[i as int]) is None);
            },
            Some(p) => {
                let eq = tl + p;
                let (kl, kh) = trim_range(v.as_slice(), tl, eq);
                let (vl, vh) = trim_range(v.as_slice(), eq + 1, th);
                proof {
                    assert(t.take(p as int) == v@.subrange(tl as int, eq as int));
                    assert(t.skip(p + 1) == v@.subrange(eq + 1, th as int));
                    assert(kv(ls[i as int]) == Some(
                        (v@.subrange(kl as int, kh as int), v@.subrange(vl as int, vh as int)),
                    ));
                }
                let val = Some((vl, vh));
                if range_eq_str(v.as_slice(), kl, kh, "Name") {
                    name = val;
                }
                if range_eq_str(v.as_slice(), kl, kh, "Exec") {
                    exec_val = val;
                }
                if range_eq_str(v.as_slice(), kl, kh, "Comment") {
                    comment = val;
                }
                if range_eq_str(v.as_slice(), kl, kh, "Icon") {
                    icon = val;
                }
                if range_eq_str(v.as_slice(), kl, kh, "Categories") {
                    cats = val;
                }
                if range_eq_str(v.as_slice(), kl, kh, "Terminal") {
                    terminal = val;
                }
                if range_eq_str(v.as_slice(), kl, kh, "NoDisplay") {
                    no_display = val;
                }
                if range_eq_str(v.as_slice(), kl, kh, "Hidden") {
                    hidden = val;
                }
            },
        }
        i = i + 1;
        }
    }
    let ghost b = i as int;
    assert(next_header(ls, lo as int) == b);
    let is_terminal = rng_is_true(&v, terminal);
    let is_no_display = rng_is_true(&v, no_display);
    let is_hidden = rng_is_true(&v, hidden);
    let name_empty = match name {
        Some(p) => p.0 == p.1,
        None => true,
    };
    let exec_range = match exec_val {
        Some(p) => p,
        None => (0, 0),
    };
    assert(v@.subrange(exec_range.0 as int, exec_range.1 as int) == rng(v@, exec_val));
    if name_empty || exec_range.0 == exec_range.1 || is_no_display || is_hidden {
        return None;
    }
    let cat_range = match cats {
        Some(p) => p,
        None => (0, 0),
    };
    assert(v@.subrange(cat_range.0 as int, cat_range.1 as int) == rng(v@, cats));
    Some(
        DesktopEntry {
            name: string_of_rng(&v, name),
            exec_line: clean_exec_string(&v, exec_range.0, exec_range.1),
            comment: string_of_rng(&v, comment),
            icon: string_of_rng(&v, icon),
            categories: clean_categories_vec(&v, cat_range.0, cat_range.1),
            terminal: is_terminal,
            path: path.to_owned(),
        },
    )
}

} // verus!
