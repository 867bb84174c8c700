//! Keybind configuration: the list of binds, the sway include file generated from it,
//! and the TOML file that stores it.
use vstd::prelude::*;
use crate::strs::{byte_len, char_width, chars_of, contains, lemma_byte_len_prefix_mono, occurs_at, push_char,
    push_str, str_eq};

verus! {

/// One sway keybinding.
#[derive(Clone, Debug)]
pub struct Bind {
    pub category: String,
    pub key: String,
    pub action: String,
    pub label: String,
}

/// A bind's fields as character sequences.
pub struct BindV {
    pub category: Seq<char>,
    pub key: Seq<char>,
    pub action: Seq<char>,
    pub label: Seq<char>,
}

impl View for Bind {
    type V = BindV;

    open spec fn view(&self) -> BindV {
        BindV { category: self.category@, key: self.key@, action: self.action@, label: self.label@ }
    }
}

/// The keybinds file: a list of `[[bind]]` tables.
pub struct KeybindsCfg {
    pub binds: Vec<Bind>,
}

impl KeybindsCfg {
    /// No binds.
    pub fn new() -> (c: KeybindsCfg)
        ensures
            c.binds@.len() == 0,
    {
        KeybindsCfg { binds: Vec::new() }
    }
}

pub open spec fn binds_view(bs: Seq<Bind>) -> Seq<BindV> {
    bs.map_values(|b: Bind| b@)
}

// ── sway include file ─────────────────────────────────────────────────────────

/// The categories that get a section of their own, in file order.
pub open spec fn fixed_cats() -> Seq<Seq<char>> {
    seq![
        "core"@, "apps"@, "woven"@, "focus"@, "move"@, "layout"@, "workspaces"@, "media"@,
        "screenshots"@,
    ]
}

/// The section titles of the fixed categories.
pub open spec fn fixed_headers() -> Seq<Seq<char>> {
    seq![
        "Core"@, "Apps"@, "Woven shell"@, "Focus"@, "Move"@, "Layout"@, "Workspaces"@,
        "Media / System"@, "Screenshots"@,
    ]
}

pub open spec fn sway_preamble() -> Seq<char> {
    "# ── woven-keybinds ──────────────────────────────────────────────────────────────\n# GENERATED by woven-cfg — do not edit manually\n# Source of truth: ~/.config/woven-shell/keybinds.toml\n# ─────────────────────────────────────────────────────────────────────────────────\n\n"@
}

pub open spec fn sway_resize_mode() -> Seq<char> {
    "# ── Resize mode ─────────────────────────────────────────────────────────────────\nmode \"resize\" {\n    bindsym h      resize shrink width  10px\n    bindsym j      resize grow   height 10px\n    bindsym k      resize shrink height 10px\n    bindsym l      resize grow   width  10px\n    bindsym Left   resize shrink width  10px\n    bindsym Down   resize grow   height 10px\n    bindsym Up     resize shrink height 10px\n    bindsym Right  resize grow   width  10px\n    bindsym Return mode \"default\"\n    bindsym Escape mode \"default\"\n    bindsym $mod+r mode \"default\"\n}\nbindsym $mod+r mode \"resize\"\n"@
}

/// `n` box-drawing dashes.
pub open spec fn dashes(n: int) -> Seq<char> {
    Seq::new(if n < 0 { 0nat } else { n as nat }, |i: int| '─')
}

/// The `bindsym` line of one bind.
pub open spec fn bind_line(b: BindV) -> Seq<char> {
    "bindsym "@ + b.key + " "@ + b.action + "\n"@
}

/// The `bindsym` lines of the binds in category `cat`, in list order.
pub open spec fn bind_lines(bs: Seq<BindV>, cat: Seq<char>) -> Seq<char>
    decreases bs.len(),
{
    if bs.len() == 0 {
        Seq::empty()
    } else {
        let rest = bind_lines(bs.drop_last(), cat);
        let b = bs.last();
        if b.category == cat {
            rest + bind_line(b)
        } else {
            rest
        }
    }
}

/// Some bind is in category `cat`.
pub open spec fn has_cat(bs: Seq<BindV>, cat: Seq<char>) -> bool {
    exists|i: int| 0 <= i < bs.len() && (#[trigger] bs[i]).category == cat
}

/// A titled section: a rule line padded with dashes to `width` bytes, the
/// category's bind lines, and a blank line.
pub open spec fn section(title: Seq<char>, width: int, bs: Seq<BindV>, cat: Seq<char>) -> Seq<char> {
    "# ── "@ + title + " "@ + dashes(width - byte_len(title)) + "\n"@ + bind_lines(bs, cat) + "\n"@
}

/// Sections of the fixed categories `0..n` that have binds.
pub open spec fn fixed_sections(bs: Seq<BindV>, n: int) -> Seq<char>
    decreases n,
{
    if n <= 0 {
        Seq::empty()
    } else {
        let rest = fixed_sections(bs, n - 1);
        if has_cat(bs, fixed_cats()[n - 1]) {
            rest + section(fixed_headers()[n - 1], 70, bs, fixed_cats()[n - 1])
        } else {
            rest
        }
    }
}

/// Bind `j` is the first one of a category outside the fixed list.
pub open spec fn opens_other(bs: Seq<BindV>, j: int) -> bool {
    &&& !fixed_cats().contains(bs[j].category)
    &&& forall|i: int| 0 <= i < j ==> (#[trigger] bs[i]).category != bs[j].category
}

/// Sections of the other categories, in order of first appearance among binds `0..n`.
pub open spec fn other_sections(bs: Seq<BindV>, n: int) -> Seq<char>
    decreases n,
{
    if n <= 0 {
        Seq::empty()
    } else {
        let rest = other_sections(bs, n - 1);
        if opens_other(bs, n - 1) {
            rest + section(bs[n - 1].category, 68, bs, bs[n - 1].category)
        } else {
            rest
        }
    }
}

/// The whole generated sway include file.
pub open spec fn sway_text(bs: Seq<BindV>) -> Seq<char> {
    sway_preamble() + fixed_sections(bs, 9) + other_sections(bs, bs.len() as int)
        + sway_resize_mode()
}

fn fixed_cat(i: usize) -> (r: (&'static str, &'static str))
    requires
        i < 9,
    ensures
        r.0@ == fixed_cats()[i as int],
        r.1@ == fixed_headers()[i as int],
{
    if i == 0 {
        ("core", "Core")
    } else if i == 1 {
        ("apps", "Apps")
    } else if i == 2 {
        ("woven", "Woven shell")
    } else if i == 3 {
        ("focus", "Focus")
    } else if i == 4 {
        ("move", "Move")
    } else if i == 5 {
        ("layout", "Layout")
    } else if i == 6 {
        ("workspaces", "Workspaces")
    } else if i == 7 {
        ("media", "Media / System")
    } else {
        ("screenshots", "Screenshots")
    }
}

fn push_dashes(out: &mut String, n: usize)
    ensures
        final(out)@ == old(out)@ + dashes(n as int),
{
    let ghost s0 = out@;
    let mut i: usize = 0;
    while i < n
        invariant
            i <= n,
            out@ == s0 + dashes(i as int),
        decreases n - i,
    {
        push_char(out, '─');
        assert(dashes(i + 1) == dashes(i as int).push('─'));
        i = i + 1;
    }
}

fn push_bind_lines(out: &mut String, binds: &[Bind], cat: &str)
    ensures
        final(out)@ == old(out)@ + bind_lines(binds_view(binds@), cat@),
{
    let ghost bs = binds_view(binds@);
    let ghost s0 = out@;
    let mut i: usize = 0;
    while i < binds.len()
        invariant
            i <= binds@.len(),
            bs == binds_view(binds@),
            out@ == s0 + bind_lines(bs.take(i as int), cat@),
        decreases binds.len() - i,
    {
        let b = &binds[i];
        assert(bs.take(i + 1).drop_last() == bs.take(i as int));
        assert(bs.take(i + 1).last() == b@);
        if str_eq(b.category.as_str(), cat) {
            push_str(out, "bindsym ");
            push_str(out, b.key.as_str());
            push_str(out, " ");
            push_str(out, b.action.as_str());
            push_str(out, "\n");
        }
        i = i + 1;
    }
    assert(bs.take(binds@.len() as int) == bs);
}

/// How many bytes `title` falls short of `width` (0 when it does not).
fn pad_to(title: &str, width: usize) -> (r: usize)
    ensures
        r as int == if byte_len(title@) < width { width - byte_len(title@) } else { 0 },
{
    let v = chars_of(title);
    let ghost s = v@;
    assert(s.take(s.len() as int) == s);
    if width == 0 {
        return 0;
    }
    let mut acc: usize = 0;
    let mut i: usize = 0;
    while i < v.len()
        invariant
            i <= s.len(),
            v@ == s,
            s == title@,
            s.take(s.len() as int) == s,
            acc == byte_len(s.take(i as int)),
            acc < width,
        decreases v.len() - i,
    {
        assert(s.take(i + 1).drop_last() == s.take(i as int));
        assert(s.take(i + 1).last() == s[i as int]);
        let w = char_width(v[i]);
        if w >= width - acc {
            proof {
                lemma_byte_len_prefix_mono(s, i + 1, s.len() as int);
            }
            return 0;
        }
        acc = acc + w;
        i = i + 1;
    }
    width - acc
}

fn push_section(out: &mut String, title: &str, width: usize, binds: &[Bind], cat: &str)
    ensures
        final(out)@ == old(out)@ + section(title@, width as int, binds_view(binds@), cat@),
{
    let pad = pad_to(title, width);
    push_str(out, "# ── ");
    push_str(out, title);
    push_str(out, " ");
    push_dashes(out, pad);
    push_str(out, "\n");
    push_bind_lines(out, binds, cat);
    push_str(out, "\n");
}

fn has_category(binds: &[Bind], cat: &str) -> (r: bool)
    ensures
        r == has_cat(binds_view(binds@), cat@),
{
    let ghost bs = binds_view(binds@);
    let mut i: usize = 0;
    while i < binds.len()
        invariant
            i <= binds@.len(),
            bs == binds_view(binds@),
            forall|j: int| 0 <= j < i ==> (#[trigger] bs[j]).category != cat@,
        decreases binds.len() - i,
    {
        if str_eq(binds[i].category.as_str(), cat) {
            assert(bs[i as int].category == cat@);
            return true;
        }
        i = i + 1;
    }
    false
}

fn is_fixed_cat(cat: &str) -> (r: bool)
    ensures
        r == fixed_cats().contains(cat@),
{
    let mut i: usize = 0;
    while i < 9
        invariant
            i <= 9,
            forall|j: int| 0 <= j < i ==> fixed_cats()[j] != cat@,
        decreases 9 - i,
    {
        let (c, _h) = fixed_cat(i);
        if str_eq(c, cat) {
            assert(fixed_cats()[i as int] == cat@);
            return true;
        }
        i = i + 1;
    }
    assert forall|j: int| 0 <= j < fixed_cats().len() implies fixed_cats()[j] != cat@ by {}
    false
}

/// The sway include file for `binds`: the fixed categories in their fixed order, then
/// any other categories in order of first appearance, then the resize mode.
pub fn sway_keybinds_text(binds: &[Bind]) -> (out: String)
    ensures
        out@ == sway_text(binds_view(binds@)),
{
    let ghost bs = binds_view(binds@);
    let mut out = String::new();
    push_str(&mut out, "# ── woven-keybinds ──────────────────────────────────────────────────────────────\n# GENERATED by woven-cfg — do not edit manually\n# Source of truth: ~/.config/woven-shell/keybinds.toml\n# ─────────────────────────────────────────────────────────────────────────────────\n\n");
    let ghost s1 = out@;
    let mut i: usize = 0;
    while i < 9
        invariant
            i <= 9,
            bs == binds_view(binds@),
            out@ == s1 + fixed_sections(bs, i as int),
        decreases 9 - i,
    {
        let (cat, hdr) = fixed_cat(i);
        if has_category(binds, cat) {
            push_section(&mut out, hdr, 70, binds, cat);
        }
        i = i + 1;
    }
    let ghost s2 = out@;
    let mut j: usize = 0;
    while j < binds.len()
        invariant
            j <= binds@.len(),
            bs == binds_view(binds@),
            out@ == s2 + other_sections(bs, j as int),
        decreases binds.len() - j,
    {
        let cat = binds[j].category.as_str();
        let mut opens = !is_fixed_cat(cat);
        let mut k: usize = 0;
        while opens && k < j
            invariant
                k <= j < binds@.len(),
                bs == binds_view(binds@),
                cat@ == bs[j as int].category,
                opens ==> forall|i: int| 0 <= i < k ==> (#[trigger] bs[i]).category != bs[j as int].category,
                opens ==> !fixed_cats().contains(bs[j as int].category),
                !opens ==> !opens_other(bs, j as int),
            decreases j - k,
        {
            if str_eq(binds[k].category.as_str(), cat) {
                assert(bs[k as int].category == bs[j as int].category);
                opens = false;
            }
            k = k + 1;
        }
        if opens {
            push_section(&mut out, cat, 68, binds, cat);
        }
        j = j + 1;
    }
    push_str(&mut out, "# ── Resize mode ─────────────────────────────────────────────────────────────────\nmode \"resize\" {\n    bindsym h      resize shrink width  10px\n    bindsym j      resize grow   height 10px\n    bindsym k      resize shrink height 10px\n    bindsym l      resize grow   width  10px\n    bindsym Left   resize shrink width  10px\n    bindsym Down   resize grow   height 10px\n    bindsym Up     resize shrink height 10px\n    bindsym Right  resize grow   width  10px\n    bindsym Return mode \"default\"\n    bindsym Escape mode \"default\"\n    bindsym $mod+r mode \"default\"\n}\nbindsym $mod+r mode \"resize\"\n");
    out
}

/// Every bind in the list gets its `bindsym` line in the generated sway file,
/// whatever its category.
pub proof fn lemma_every_bind_written(bs: Seq<BindV>, k: int)
    requires
        0 <= k < bs.len(),
    ensures
        contains(sway_text(bs), bind_line(bs[k])),
{
    let cat = bs[k].category;
    let line = bind_line(bs[k]);
    lemma_bind_lines_contain(bs, cat, k);
    let sec_fixed = fixed_sections(bs, 9);
    let sec_other = other_sections(bs, bs.len() as int);
    if fixed_cats().contains(cat) {
        let j = choose|j: int| 0 <= j < fixed_cats().len() && fixed_cats()[j] == cat;
        assert(has_cat(bs, cat));
        lemma_section_contains(fixed_headers()[j], 70, bs, cat, line);
        lemma_fixed_sections_contain(bs, j, 9, line);
        lemma_contains_after(sway_preamble(), sec_fixed, line);
        lemma_contains_before(sway_preamble() + sec_fixed, sec_other, line);
    } else {
        let j = lemma_first_of_category(bs, k);
        lemma_section_contains(cat, 68, bs, cat, line);
        lemma_other_sections_contain(bs, j, bs.len() as int, line);
        lemma_contains_after(sway_preamble() + sec_fixed, sec_other, line);
    }
    lemma_contains_before(sway_preamble() + sec_fixed + sec_other, sway_resize_mode(), line);
}

proof fn lemma_contains_before(a: Seq<char>, b: Seq<char>, p: Seq<char>)
    requires
        contains(a, p),
    ensures
        contains(a + b, p),
{
    let i = choose|i: int| occurs_at(a, p, i);
    assert((a + b).subrange(i, i + p.len()) == a.subrange(i, i + p.len()));
    assert(occurs_at(a + b, p, i));
}

proof fn lemma_contains_after(a: Seq<char>, b: Seq<char>, p: Seq<char>)
    requires
        contains(b, p),
    ensures
        contains(a + b, p),
{
    let i = choose|i: int| occurs_at(b, p, i);
    assert((a + b).subrange(a.len() + i, a.len() + i + p.len()) == b.subrange(i, i + p.len()));
    assert(occurs_at(a + b, p, a.len() + i));
}

/// The lines of a category hold the line of each of its binds.
proof fn lemma_bind_lines_contain(bs: Seq<BindV>, cat: Seq<char>, k: int)
    requires
        0 <= k < bs.len(),
        bs[k].category == cat,
    ensures
        contains(bind_lines(bs, cat), bind_line(bs[k])),
    decreases bs.len(),
{
    let rest = bind_lines(bs.drop_last(), cat);
    let line = bind_line(bs[k]);
    if k == bs.len() - 1 {
        assert((rest + line).subrange(rest.len() as int, (rest.len() + line.len()) as int) == line);
        assert(occurs_at(rest + line, line, rest.len() as int));
    } else {
        lemma_bind_lines_contain(bs.drop_last(), cat, k);
        if bs.last().category == cat {
            lemma_contains_before(rest, bind_line(bs.last()), line);
        }
    }
}

proof fn lemma_section_contains(
    title: Seq<char>,
    width: int,
    bs: Seq<BindV>,
    cat: Seq<char>,
    p: Seq<char>,
)
    requires
        contains(bind_lines(bs, cat), p),
    ensures
        contains(section(title, width, bs, cat), p),
{
    let head = "# ── "@ + title + " "@ + dashes(width - byte_len(title)) + "\n"@;
    lemma_contains_after(head, bind_lines(bs, cat), p);
    lemma_contains_before(head + bind_lines(bs, cat), "\n"@, p);
}

/// The fixed sections up to `n` hold the section of fixed category `j < n`,
/// when that category has binds.
proof fn lemma_fixed_sections_contain(bs: Seq<BindV>, j: int, n: int, p: Seq<char>)
    requires
        0 <= j < n <= 9,
        has_cat(bs, fixed_cats()[j]),
        contains(section(fixed_headers()[j], 70, bs, fixed_cats()[j]), p),
    ensures
        contains(fixed_sections(bs, n), p),
    decreases n,
{
    let rest = fixed_sections(bs, n - 1);
    if j == n - 1 {
        lemma_contains_after(rest, section(fixed_headers()[j], 70, bs, fixed_cats()[j]), p);
    } else {
        lemma_fixed_sections_contain(bs, j, n - 1, p);
        if has_cat(bs, fixed_cats()[n - 1]) {
            lemma_contains_before(rest, section(fixed_headers()[n - 1], 70, bs, fixed_cats()[n - 1]), p);
        }
    }
}

/// The other sections up to `n` hold the section opened by bind `j < n`.
proof fn lemma_other_sections_contain(bs: Seq<BindV>, j: int, n: int, p: Seq<char>)
    requires
        0 <= j < n <= bs.len(),
        opens_other(bs, j),
        contains(section(bs[j].category, 68, bs, bs[j].category), p),
    ensures
        contains(other_sections(bs, n), p),
    decreases n,
{
    let rest = other_sections(bs, n - 1);
    if j == n - 1 {
        lemma_contains_after(rest, section(bs[j].category, 68, bs, bs[j].category), p);
    } else {
        lemma_other_sections_contain(bs, j, n - 1, p);
        if opens_other(bs, n - 1) {
            lemma_contains_before(rest, section(bs[n - 1].category, 68, bs, bs[n - 1].category), p);
        }
    }
}

/// A bind outside the fixed categories has a first bind of its category, which
/// opens that category's section.
proof fn lemma_first_of_category(bs: Seq<BindV>, k: int) -> (j: int)
    requires
        0 <= k < bs.len(),
        !fixed_cats().contains(bs[k].category),
    ensures
        0 <= j <= k,
        bs[j].category == bs[k].category,
        opens_other(bs, j),
    decreases k,
{
    if exists|i: int| 0 <= i < k && (#[trigger] bs[i]).category == bs[k].category {
        let i = choose|i: int| 0 <= i < k && (#[trigger] bs[i]).category == bs[k].category;
        lemma_first_of_category(bs, i)
    } else {
        k
    }
}

// ── keybinds.toml ────────────────────────────────────────────────────────────

/// The text `format!("{:?}", s)` gives for a string `s`: `s` in double quotes with
/// quotes, backslashes and non-printable characters escaped.
pub uninterp spec fn debug_quoted(s: Seq<char>) -> Seq<char>;

/// `<str as Debug>::fmt`, through `format!("{:?}", ..)`.
#[verifier::external_body]
fn debug_str(s: &str) -> (r: String)
    ensures
        r@ == debug_quoted(s@),
{
    format!("{:?}", s)
}

/// One `[[bind]]` table.
pub open spec fn toml_bind(b: BindV) -> Seq<char> {
    "[[bind]]\n"@ + "category = "@ + debug_quoted(b.category) + "\n"@ + "key      = "@
        + debug_quoted(b.key) + "\n"@ + "action   = "@ + debug_quoted(b.action) + "\n"@
        + "label    = "@ + debug_quoted(b.label) + "\n"@ + "\n"@
}

pub open spec fn toml_binds(bs: Seq<BindV>) -> Seq<char>
    decreases bs.len(),
{
    if bs.len() == 0 {
        Seq::empty()
    } else {
        toml_binds(bs.drop_last()) + toml_bind(bs.last())
    }
}

/// The whole keybinds.toml file.
pub open spec fn toml_text(bs: Seq<BindV>) -> Seq<char> {
    "# woven-cfg managed keybinds — source of truth\n# Edit via woven-cfg. ~/.config/sway/woven-keybinds is auto-generated.\n\n"@
        + toml_binds(bs)
}

fn push_toml_bind(out: &mut String, b: &Bind)
    ensures
        final(out)@ == old(out)@ + toml_bind(b@),
{
    let ghost s0 = out@;
    push_str(out, "[[bind]]\n");
    push_str(out, "category = ");
    let q = debug_str(b.category.as_str());
    push_str(out, q.as_str());
    push_str(out, "\n");
    push_str(out, "key      = ");
    let q = debug_str(b.key.as_str());
    push_str(out, q.as_str());
    push_str(out, "\n");
    push_str(out, "action   = ");
    let q = debug_str(b.action.as_str());
    push_str(out, q.as_str());
    push_str(out, "\n");
    push_str(out, "label    = ");
    let q = debug_str(b.label.as_str());
    push_str(out, q.as_str());
    push_str(out, "\n");
    push_str(out, "\n");
    assert(out@ =~= s0 + toml_bind(b@));
}

/// The keybinds.toml text for `cfg`: a comment header, then one table per bind.
pub fn toml_keybinds_text(cfg: &KeybindsCfg) -> (out: String)
    ensures
        out@ == toml_text(binds_view(cfg.binds@)),
{
    let ghost bs = binds_view(cfg.binds@);
    let mut out = String::new();
    push_str(&mut out, "# woven-cfg managed keybinds — source of truth\n# Edit via woven-cfg. ~/.config/sway/woven-keybinds is auto-generated.\n\n");
    let ghost s0 = out@;
    let mut i: usize = 0;
    while i < cfg.binds.len()
        invariant
            i <= cfg.binds@.len(),
            bs == binds_view(cfg.binds@),
            out@ == s0 + toml_binds(bs.take(i as int)),
        decreases cfg.binds.len() - i,
    {
        let b = &cfg.binds[i];
        assert(bs.take(i + 1).drop_last() == bs.take(i as int));
        assert(bs.take(i + 1).last() == b@);
        push_toml_bind(&mut out, b);
        i = i + 1;
    }
    assert(bs.take(cfg.binds@.len() as int) == bs);
    out
}

} // verus!
