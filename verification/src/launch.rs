//! The launcher's state: query, results, selection and scrolling, and what Enter
//! launches. Drawing and hit-testing stay with the caller, which passes results in.
use vstd::prelude::*;
use crate::desktop::DesktopEntry;
use crate::search::{SearchResult, fuzzy_search, lemma_results_unique, results_complete, results_ordered,
    results_sound};
use crate::strs::{byte_len, char_width, chars_of, dec_text, decimal, push_str, string_of, trim, trim_range,
    lemma_byte_len_prefix_mono};

verus! {

/// Launcher settings (the `[launcher]` table of launch.toml).
pub struct LauncherSettings {
    pub width: u32,
    pub max_results: usize,
    pub background: String,
    pub panel_background: String,
    pub text_color: String,
    pub text_dim: String,
    pub accent_color: String,
    pub selection_color: String,
    pub border_color: String,
    pub calculator: bool,
    pub command_runner: bool,
}

fn string_from(s: &str) -> (r: String)
    ensures
        r@ == s@,
{
    let mut r = String::new();
    push_str(&mut r, s);
    r
}

impl Default for LauncherSettings {
    fn default() -> (s: LauncherSettings)
        ensures
            s.width == 620 && s.max_results == 8,
            s.background@ == "#0a0010"@ && s.panel_background@ == "#0f0020"@,
            s.text_color@ == "#e8e0f0"@ && s.text_dim@ == "#8888aa"@,
            s.accent_color@ == "#c792ea"@ && s.selection_color@ == "#1a0035"@,
            s.border_color@ == "#c792ea"@,
            s.calculator && s.command_runner,
    {
        LauncherSettings {
            width: 620,
            max_results: 8,
            background: string_from("#0a0010"),
            panel_background: string_from("#0f0020"),
            text_color: string_from("#e8e0f0"),
            text_dim: string_from("#8888aa"),
            accent_color: string_from("#c792ea"),
            selection_color: string_from("#1a0035"),
            border_color: string_from("#c792ea"),
            calculator: true,
            command_runner: true,
        }
    }
}

/// The whole launch.toml.
pub struct LaunchConfig {
    pub launcher: LauncherSettings,
}

impl Default for LaunchConfig {
    fn default() -> (c: LaunchConfig)
        ensures
            c.launcher.width == 620 && c.launcher.max_results == 8,
            c.launcher.calculator && c.launcher.command_runner,
            c.launcher.background@ == "#0a0010"@,
    {
        LaunchConfig { launcher: LauncherSettings::default() }
    }
}

/// The query starts with `=` and the calculator is on.
pub open spec fn calc_mode(q: Seq<char>, cfg: LauncherSettings) -> bool {
    cfg.calculator && q.len() > 0 && q[0] == '='
}

/// The query starts with `!` and the command runner is on.
pub open spec fn cmd_mode(q: Seq<char>, cfg: LauncherSettings) -> bool {
    cfg.command_runner && q.len() > 0 && q[0] == '!'
}

/// `r` is what `fuzzy_search` gives for `entries` and query `q`.
pub open spec fn search_result(r: Seq<SearchResult>, entries: Seq<DesktopEntry>, q: Seq<char>) -> bool {
    &&& q.len() == 0 ==> r.len() == entries.len() && forall|k: int|
        0 <= k < r.len() ==> (#[trigger] r[k]).index == k && r[k].score == 0
    &&& q.len() > 0 ==> results_ordered(r) && results_sound(r, entries, q, entries.len() as int)
        && results_complete(r, entries, q, entries.len() as int)
}

/// The results shown for query `q`: none in calculator or command mode, else the search.
pub open spec fn shown_results(r: Seq<SearchResult>, entries: Seq<DesktopEntry>, q: Seq<char>,
    cfg: LauncherSettings) -> bool {
    if calc_mode(q, cfg) || cmd_mode(q, cfg) {
        r.len() == 0
    } else {
        search_result(r, entries, q)
    }
}

/// The command a desktop entry runs: in a terminal when it asks for one.
pub open spec fn entry_command(e: DesktopEntry) -> Seq<char> {
    if e.terminal {
        "kitty -e "@ + e.exec_line@
    } else {
        e.exec_line@
    }
}

/// The window of results starting at `off` of at most `max` rows that shows `sel`.
pub open spec fn visible_offset(sel: int, off: int, max: int) -> int {
    if sel < off {
        sel
    } else if sel >= off + max {
        sel + 1 - max
    } else {
        off
    }
}

/// The search field's placeholder: it names the calculator and the command runner
/// when they are on.
pub open spec fn placeholder_spec(cfg: LauncherSettings) -> Seq<char> {
    if cfg.calculator && cfg.command_runner {
        "Search apps, = calc, ! command..."@
    } else if cfg.calculator {
        "Search apps, = calc..."@
    } else {
        "Search apps..."@
    }
}

/// The key hints under the results: the mode's own hint in calculator or command
/// mode; else navigation, launch and close, followed by the position of the
/// selection ("n of m", counting from 1) when there are more results than rows.
pub open spec fn footer_spec(q: Seq<char>, cfg: LauncherSettings, selected: int, len: int) -> Seq<char> {
    if calc_mode(q, cfg) {
        "= calculator mode    Esc close"@
    } else if cmd_mode(q, cfg) {
        "\u{21b5} run command    Esc close"@
    } else if len > cfg.max_results {
        "\u{2191}\u{2193} navigate    \u{21b5} launch    Esc close    "@ + dec_text((selected + 1) as nat) + " of "@
            + dec_text(len as nat)
    } else {
        "\u{2191}\u{2193} navigate    \u{21b5} launch    Esc close"@
    }
}

/// The first row shown after one wheel step in `direction` from offset `off`, with
/// `len` results and `max` rows: one row down but not past the last page, one row
/// up but not above the first, or unchanged.
pub open spec fn scrolled_offset(off: int, direction: i32, len: int, max: int) -> int {
    let max_off = if len > max { len - max } else { 0 };
    if direction > 0 {
        if off + 1 < max_off { off + 1 } else { max_off }
    } else if direction < 0 {
        if off > 0 { off - 1 } else { 0 }
    } else {
        off
    }
}

/// The results shown for a query are determined by the entries, the query and the
/// settings.
pub proof fn lemma_shown_results_unique(r1: Seq<SearchResult>, r2: Seq<SearchResult>,
    entries: Seq<DesktopEntry>, q: Seq<char>, cfg: LauncherSettings)
    requires
        shown_results(r1, entries, q, cfg),
        shown_results(r2, entries, q, cfg),
    ensures
        r1 == r2,
{
    if calc_mode(q, cfg) || cmd_mode(q, cfg) {
        assert(r1 =~= r2);
    } else if q.len() == 0 {
        assert forall|k: int| 0 <= k < r1.len() implies r1[k] == r2[k] by {
            assert(r1[k].index == k && r2[k].index == k);
        }
        assert(r1 =~= r2);
    } else {
        lemma_results_unique(r1, r2, entries, q);
    }
}

/// Typing a character into the launcher and pressing Backspace gives back the query
/// and the result list it had.
pub proof fn lemma_backspace_restores_results(a: LaunchState, b: LaunchState, c: LaunchState, ch: char)
    requires
        shown_results(a.results@, a.entries@, a.query@, a.cfg),
        b.query@ == a.query@.push(ch),
        b.entries == a.entries,
        b.cfg == a.cfg,
        c.query@ == b.query@.drop_last(),
        shown_results(c.results@, b.entries@, c.query@, b.cfg),
    ensures
        c.query@ == a.query@,
        c.results@ == a.results@,
{
    assert(a.query@.push(ch).drop_last() =~= a.query@);
    lemma_shown_results_unique(c.results@, a.results@, a.entries@, a.query@, a.cfg);
}

/// Scrolling to show the selection works: with a window of `max > 0` rows, the
/// selected row lies inside the window that `visible_offset` picks, and a selection
/// already inside the window does not move it.
pub proof fn lemma_selection_visible(sel: int, off: int, max: int)
    requires
        max > 0,
        0 <= sel,
        0 <= off,
    ensures
        visible_offset(sel, off, max) <= sel < visible_offset(sel, off, max) + max,
        off <= sel < off + max ==> visible_offset(sel, off, max) == off,
        0 <= visible_offset(sel, off, max),
{
}

/// The launcher's state.
pub struct LaunchState {
    pub query: String,
    pub selected: usize,
    pub entries: Vec<DesktopEntry>,
    pub results: Vec<SearchResult>,
    pub should_close: bool,
    pub launch_exec: Option<String>,
    pub scroll_offset: usize,
    pub hovered: Option<usize>,
    pub dirty: bool,
    pub cfg: LauncherSettings,
}

impl LaunchState {
    /// Every result names an entry.
    pub open spec fn wf(&self) -> bool {
        forall|k: int| 0 <= k < self.results@.len() ==> (#[trigger] self.results@[k]).index < self.entries@.len()
    }

    /// A launcher over `entries` with an empty query: every entry is a result.
    pub fn new(cfg: LauncherSettings, entries: Vec<DesktopEntry>) -> (s: LaunchState)
        ensures
            s.wf(),
            s.query@.len() == 0,
            s.selected == 0 && s.scroll_offset == 0,
            s.entries@ == entries@,
            search_result(s.results@, entries@, Seq::empty()),
            !s.should_close && s.launch_exec is None && s.hovered is None && s.dirty,
            s.cfg == cfg,
    {
        let results = fuzzy_search(entries.as_slice(), "");
        proof {
            reveal_strlit("");
        }
        LaunchState {
            query: String::new(),
            selected: 0,
            entries,
            results,
            should_close: false,
            launch_exec: None,
            scroll_offset: 0,
            hovered: None,
            dirty: true,
            cfg,
        }
    }

    pub fn is_calc_mode(&self) -> (b: bool)
        ensures
            b == calc_mode(self.query@, self.cfg),
    {
        if !self.cfg.calculator {
            return false;
        }
        let v = chars_of(self.query.as_str());
        v.len() > 0 && v[0] == '='
    }

    pub fn is_cmd_mode(&self) -> (b: bool)
        ensures
            b == cmd_mode(self.query@, self.cfg),
    {
        if !self.cfg.command_runner {
            return false;
        }
        let v = chars_of(self.query.as_str());
        v.len() > 0 && v[0] == '!'
    }

    /// The search field's placeholder (see `placeholder_spec`).
    pub fn placeholder(&self) -> (r: &'static str)
        ensures
            r@ == placeholder_spec(self.cfg),
    {
        if self.cfg.calculator && self.cfg.command_runner {
            "Search apps, = calc, ! command..."
        } else if self.cfg.calculator {
            "Search apps, = calc..."
        } else {
            "Search apps..."
        }
    }

    /// The key hints under the results (see `footer_spec`).
    pub fn footer_hint(&self) -> (r: String)
        requires
            !(calc_mode(self.query@, self.cfg) || cmd_mode(self.query@, self.cfg))
                && self.results@.len() > self.cfg.max_results ==> self.selected < usize::MAX,
        ensures
            r@ == footer_spec(self.query@, self.cfg, self.selected as int, self.results@.len() as int),
    {
        let mut r = String::new();
        if self.is_calc_mode() {
            push_str(&mut r, "= calculator mode    Esc close");
        } else if self.is_cmd_mode() {
            push_str(&mut r, "\u{21b5} run command    Esc close");
        } else if self.results.len() > self.cfg.max_results {
            push_str(&mut r, "\u{2191}\u{2193} navigate    \u{21b5} launch    Esc close    ");
            let pos = decimal((self.selected + 1) as u64);
            push_str(&mut r, pos.as_str());
            push_str(&mut r, " of ");
            let total = decimal(self.results.len() as u64);
            push_str(&mut r, total.as_str());
        } else {
            push_str(&mut r, "\u{2191}\u{2193} navigate    \u{21b5} launch    Esc close");
        }
        r
    }

    /// Rows the result list shows: one line in calculator or command mode, else the
    /// results from the scroll offset on, at most `max_results`.
    pub fn visible_count(&self) -> (n: usize)
        ensures
            n == if calc_mode(self.query@, self.cfg) || cmd_mode(self.query@, self.cfg) {
                1
            } else if self.results@.len() <= self.scroll_offset {
                0
            } else if self.results@.len() - self.scroll_offset < self.cfg.max_results {
                (self.results@.len() - self.scroll_offset) as int
            } else {
                self.cfg.max_results as int
            },
    {
        if self.is_calc_mode() || self.is_cmd_mode() {
            1
        } else {
            let remaining = if self.results.len() > self.scroll_offset {
                self.results.len() - self.scroll_offset
            } else {
                0
            };
            if remaining < self.cfg.max_results {
                remaining
            } else {
                self.cfg.max_results
            }
        }
    }

    /// Scrolls so the selected row is inside the window of `max_results` rows.
    fn ensure_visible(&mut self)
        requires
            old(self).scroll_offset + old(self).cfg.max_results <= usize::MAX,
            old(self).selected < usize::MAX,
        ensures
            final(self).scroll_offset == visible_offset(old(self).selected as int,
                old(self).scroll_offset as int, old(self).cfg.max_results as int),
            final(self).selected == old(self).selected,
            final(self).query == old(self).query,
            final(self).entries == old(self).entries,
            final(self).results == old(self).results,
            final(self).should_close == old(self).should_close,
            final(self).launch_exec == old(self).launch_exec,
            final(self).hovered == old(self).hovered,
            final(self).dirty == old(self).dirty,
            final(self).cfg == old(self).cfg,
    {
        if self.selected < self.scroll_offset {
            self.scroll_offset = self.selected;
        } else if self.selected >= self.scroll_offset + self.cfg.max_results {
            self.scroll_offset = self.selected + 1 - self.cfg.max_results;
        }
    }

    /// Recomputes the results for the query; the selection and scrolling reset.
    fn refilter(&mut self)
        requires
            old(self).wf(),
        ensures
            final(self).wf(),
            shown_results(final(self).results@, old(self).entries@, old(self).query@, old(self).cfg),
            final(self).selected == 0 && final(self).scroll_offset == 0,
            final(self).query == old(self).query,
            final(self).entries == old(self).entries,
            final(self).should_close == old(self).should_close,
            final(self).launch_exec == old(self).launch_exec,
            final(self).hovered == old(self).hovered,
            final(self).dirty == old(self).dirty,
            final(self).cfg == old(self).cfg,
    {
        if self.is_calc_mode() || self.is_cmd_mode() {
            self.results = Vec::new();
            self.selected = 0;
            self.scroll_offset = 0;
            return;
        }
        self.results = fuzzy_search(self.entries.as_slice(), self.query.as_str());
        self.selected = 0;
        self.scroll_offset = 0;
    }

    /// Types `ch` into the query.
    pub fn push_char(&mut self, ch: char)
        requires
            old(self).wf(),
        ensures
            final(self).wf(),
            final(self).query@ == old(self).query@.push(ch),
            shown_results(final(self).results@, old(self).entries@, final(self).query@, old(self).cfg),
            final(self).selected == 0 && final(self).scroll_offset == 0,
            final(self).dirty,
            final(self).entries == old(self).entries,
            final(self).should_close == old(self).should_close,
            final(self).launch_exec == old(self).launch_exec,
            final(self).cfg == old(self).cfg,
    {
        crate::strs::push_char(&mut self.query, ch);
        self.refilter();
        self.dirty = true;
    }

    /// Deletes the last character of the query, if any.
    pub fn pop_char(&mut self)
        requires
            old(self).wf(),
        ensures
            final(self).wf(),
            final(self).query@ == if old(self).query@.len() == 0 {
                old(self).query@
            } else {
                old(self).query@.drop_last()
            },
            shown_results(final(self).results@, old(self).entries@, final(self).query@, old(self).cfg),
            final(self).selected == 0 && final(self).scroll_offset == 0,
            final(self).dirty,
            final(self).entries == old(self).entries,
            final(self).should_close == old(self).should_close,
            final(self).launch_exec == old(self).launch_exec,
            final(self).cfg == old(self).cfg,
    {
        let v = chars_of(self.query.as_str());
        if v.len() > 0 {
            self.query = string_of(v.as_slice(), 0, v.len() - 1);
            assert(v@.subrange(0, v@.len() - 1) == v@.drop_last());
        }
        self.refilter();
        self.dirty = true;
    }

    /// Empties the query.
    pub fn clear_query(&mut self)
        requires
            old(self).wf(),
        ensures
            final(self).wf(),
            final(self).query@.len() == 0,
            search_result(final(self).results@, old(self).entries@, Seq::empty()),
            final(self).selected == 0 && final(self).scroll_offset == 0,
            final(self).dirty,
            final(self).entries == old(self).entries,
            final(self).should_close == old(self).should_close,
            final(self).launch_exec == old(self).launch_exec,
            final(self).cfg == old(self).cfg,
    {
        self.query = String::new();
        self.refilter();
        self.dirty = true;
    }

    /// Escape: closes the launcher on an empty query, else clears the query.
    pub fn handle_escape(&mut self)
        requires
            old(self).wf(),
        ensures
            final(self).wf(),
            old(self).query@.len() == 0 ==> final(self).should_close
                && final(self).query == old(self).query && final(self).results == old(self).results,
            old(self).query@.len() > 0 ==> final(self).query@.len() == 0
                && final(self).should_close == old(self).should_close
                && search_result(final(self).results@, old(self).entries@, Seq::empty()),
            final(self).entries == old(self).entries,
            final(self).launch_exec == old(self).launch_exec,
    {
        if self.query.as_str().is_empty() {
            self.should_close = true;
        } else {
            self.clear_query();
        }
    }

    /// Moves the selection one row up.
    pub fn select_up(&mut self)
        requires
            old(self).scroll_offset + old(self).cfg.max_results <= usize::MAX,
        ensures
            final(self).selected == if old(self).selected > 0 { old(self).selected - 1 } else { 0 },
            final(self).scroll_offset == if old(self).selected > 0 {
                visible_offset(old(self).selected - 1, old(self).scroll_offset as int,
                    old(self).cfg.max_results as int)
            } else {
                old(self).scroll_offset as int
            },
            final(self).dirty,
            final(self).results == old(self).results && final(self).entries == old(self).entries,
            final(self).query == old(self).query && final(self).cfg == old(self).cfg,
    {
        if self.selected > 0 {
            self.selected = self.selected - 1;
            self.ensure_visible();
        }
        self.dirty = true;
    }

    /// Moves the selection one row down, stopping at the last result.
    pub fn select_down(&mut self)
        requires
            old(self).scroll_offset + old(self).cfg.max_results <= usize::MAX,
        ensures
            final(self).selected == if old(self).selected + 1 < old(self).results@.len() {
                old(self).selected + 1
            } else {
                old(self).selected as int
            },
            final(self).scroll_offset == if old(self).selected + 1 < old(self).results@.len() {
                visible_offset(old(self).selected + 1, old(self).scroll_offset as int,
                    old(self).cfg.max_results as int)
            } else {
                old(self).scroll_offset as int
            },
            final(self).dirty,
            final(self).results == old(self).results && final(self).entries == old(self).entries,
            final(self).query == old(self).query && final(self).cfg == old(self).cfg,
    {
        let max = if self.results.len() > 0 { self.results.len() - 1 } else { 0 };
        if self.selected < max {
            self.selected = self.selected + 1;
            self.ensure_visible();
        }
        self.dirty = true;
    }

    /// Moves the selection a page (`max_results` rows) up, stopping at the first result.
    pub fn page_up(&mut self)
        requires
            old(self).scroll_offset + old(self).cfg.max_results <= usize::MAX,
            old(self).selected < usize::MAX,
        ensures
            final(self).selected == if old(self).selected > old(self).cfg.max_results {
                old(self).selected - old(self).cfg.max_results
            } else {
                0
            },
            final(self).scroll_offset == visible_offset(final(self).selected as int,
                old(self).scroll_offset as int, old(self).cfg.max_results as int),
            final(self).dirty,
            final(self).results == old(self).results && final(self).entries == old(self).entries,
            final(self).query == old(self).query && final(self).cfg == old(self).cfg,
    {
        let page = self.cfg.max_results;
        self.selected = if self.selected > page { self.selected - page } else { 0 };
        self.ensure_visible();
        self.dirty = true;
    }

    /// Moves the selection a page down, stopping at the last result.
    pub fn page_down(&mut self)
        requires
            old(self).scroll_offset + old(self).cfg.max_results <= usize::MAX,
            old(self).selected + old(self).cfg.max_results < usize::MAX,
        ensures
            final(self).selected == {
                let last = if old(self).results@.len() > 0 { old(self).results@.len() - 1 } else { 0 };
                if old(self).selected + old(self).cfg.max_results < last {
                    old(self).selected + old(self).cfg.max_results
                } else {
                    last
                }
            },
            final(self).scroll_offset == visible_offset(final(self).selected as int,
                old(self).scroll_offset as int, old(self).cfg.max_results as int),
            final(self).dirty,
            final(self).results == old(self).results && final(self).entries == old(self).entries,
            final(self).query == old(self).query && final(self).cfg == old(self).cfg,
    {
        let page = self.cfg.max_results;
        let max = if self.results.len() > 0 { self.results.len() - 1 } else { 0 };
        let next = self.selected + page;
        self.selected = if next < max { next } else { max };
        self.ensure_visible();
        self.dirty = true;
    }

    /// Mouse wheel: `direction` > 0 scrolls one row down (not past the last page),
    /// < 0 one row up, 0 only re-clamps; the selection is kept inside the window.
    /// Nothing happens in calculator or command mode.
    pub fn scroll(&mut self, direction: i32)
        requires
            !(calc_mode(old(self).query@, old(self).cfg) || cmd_mode(old(self).query@, old(self).cfg)) ==> {
                let off2 = scrolled_offset(old(self).scroll_offset as int, direction,
                    old(self).results@.len() as int, old(self).cfg.max_results as int);
                &&& direction > 0 ==> old(self).scroll_offset < usize::MAX
                &&& off2 + old(self).cfg.max_results <= usize::MAX
                &&& old(self).cfg.max_results > 0 || off2 > 0
            },
        ensures
            calc_mode(old(self).query@, old(self).cfg) || cmd_mode(old(self).query@, old(self).cfg)
                ==> *final(self) == *old(self),
            !(calc_mode(old(self).query@, old(self).cfg) || cmd_mode(old(self).query@, old(self).cfg)) ==> {
                let max = old(self).cfg.max_results as int;
                let off2 = scrolled_offset(old(self).scroll_offset as int, direction,
                    old(self).results@.len() as int, max);
                let sel = old(self).selected as int;
                &&& final(self).scroll_offset == off2
                &&& final(self).selected == if sel < off2 {
                    off2
                } else if sel >= off2 + max {
                    off2 + max - 1
                } else {
                    sel
                }
                &&& max >= 1 ==> final(self).scroll_offset <= final(self).selected < final(self).scroll_offset + max
                &&& final(self).dirty
                &&& final(self).results == old(self).results
                &&& final(self).query == old(self).query
                &&& final(self).cfg == old(self).cfg
            },
    {
        if self.is_calc_mode() || self.is_cmd_mode() {
            return;
        }
        let max_offset = if self.results.len() > self.cfg.max_results {
            self.results.len() - self.cfg.max_results
        } else {
            0
        };
        if direction > 0 {
            let next = self.scroll_offset + 1;
            self.scroll_offset = if next < max_offset { next } else { max_offset };
        } else if direction < 0 {
            self.scroll_offset = if self.scroll_offset > 0 { self.scroll_offset - 1 } else { 0 };
        }
        if self.selected < self.scroll_offset {
            self.selected = self.scroll_offset;
        } else if self.selected >= self.scroll_offset + self.cfg.max_results {
            self.selected = self.scroll_offset + self.cfg.max_results - 1;
        }
        self.dirty = true;
    }

    /// The pointer is over result row `hit` (or none): the hover highlight follows it.
    /// Nothing happens in calculator or command mode.
    pub fn set_hovered(&mut self, hit: Option<usize>)
        ensures
            calc_mode(old(self).query@, old(self).cfg) || cmd_mode(old(self).query@, old(self).cfg)
                || hit == old(self).hovered ==> *final(self) == *old(self),
            !(calc_mode(old(self).query@, old(self).cfg) || cmd_mode(old(self).query@, old(self).cfg))
                && hit != old(self).hovered ==> final(self).hovered == hit && final(self).dirty
                && final(self).selected == old(self).selected && final(self).results == old(self).results,
    {
        if self.is_calc_mode() || self.is_cmd_mode() {
            return;
        }
        if hit != self.hovered {
            self.hovered = hit;
            self.dirty = true;
        }
    }

    /// Enter: in command mode runs the trimmed text after `!` (if any); otherwise
    /// launches the selected entry's command. Both close the launcher. Calculator mode
    /// launches nothing.
    pub fn confirm(&mut self)
        requires
            old(self).wf(),
        ensures
            final(self).wf(),
            final(self).query == old(self).query && final(self).selected == old(self).selected,
            final(self).results == old(self).results && final(self).entries == old(self).entries,
            final(self).scroll_offset == old(self).scroll_offset && final(self).cfg == old(self).cfg,
            final(self).dirty == old(self).dirty && final(self).hovered == old(self).hovered,
            ({
                let q = old(self).query@;
                if calc_mode(q, old(self).cfg) {
                    final(self).launch_exec == old(self).launch_exec
                        && final(self).should_close == old(self).should_close
                } else if cmd_mode(q, old(self).cfg) {
                    let cmd = trim(q.drop_first());
                    if cmd.len() > 0 {
                        final(self).launch_exec matches Some(e) && e@ == cmd && final(self).should_close
                    } else {
                        final(self).launch_exec == old(self).launch_exec
                            && final(self).should_close == old(self).should_close
                    }
                } else if old(self).selected < old(self).results@.len() {
                    final(self).launch_exec matches Some(e) && e@ == entry_command(
                        old(self).entries@[old(self).results@[old(self).selected as int].index as int])
                        && final(self).should_close
                } else {
                    final(self).launch_exec == old(self).launch_exec
                        && final(self).should_close == old(self).should_close
                }
            }),
    {
        if self.is_calc_mode() {
            return;
        }
        if self.is_cmd_mode() {
            let v = chars_of(self.query.as_str());
            let (lo, hi) = trim_range(v.as_slice(), 1, v.len());
            assert(v@.subrange(1, v@.len() as int) == v@.drop_first());
            if lo < hi {
                self.launch_exec = Some(string_of(v.as_slice(), lo, hi));
                self.should_close = true;
            }
            return;
        }
        if self.selected < self.results.len() {
            let idx = self.results[self.selected].index;
            let entry = &self.entries[idx];
            let mut exec = String::new();
            if entry.terminal {
                push_str(&mut exec, "kitty -e ");
            }
            push_str(&mut exec, entry.exec_line.as_str());
            self.launch_exec = Some(exec);
            self.should_close = true;
        }
    }

    /// A click: outside the panel closes the launcher; on result row `hit` (outside
    /// calculator and command mode) selects it and confirms.
    pub fn click(&mut self, inside_panel: bool, hit: Option<usize>)
        requires
            old(self).wf(),
        ensures
            final(self).wf(),
            !inside_panel ==> final(self).should_close && final(self).launch_exec == old(self).launch_exec
                && final(self).selected == old(self).selected,
            inside_panel && (calc_mode(old(self).query@, old(self).cfg) || cmd_mode(old(self).query@, old(self).cfg)
                || hit is None) ==> *final(self) == *old(self),
            inside_panel && !(calc_mode(old(self).query@, old(self).cfg) || cmd_mode(old(self).query@, old(self).cfg))
                ==> (hit matches Some(i) ==> final(self).selected == i && if i < old(self).results@.len() {
                    final(self).launch_exec matches Some(e) && e@ == entry_command(
                        old(self).entries@[old(self).results@[i as int].index as int]) && final(self).should_close
                } else {
                    final(self).launch_exec == old(self).launch_exec
                        && final(self).should_close == old(self).should_close
                }),
    {
        if !inside_panel {
            self.should_close = true;
            return;
        }
        if self.is_calc_mode() || self.is_cmd_mode() {
            return;
        }
        match hit {
            Some(idx) => {
                self.selected = idx;
                self.confirm();
            },
            None => {},
        }
    }
}

// ── labels ───────────────────────────────────────────────────────────────────

/// Length of the longest prefix of `s[..k]` whose UTF-8 encoding fits in `max` bytes.
pub open spec fn fit_chars(s: Seq<char>, max: int, k: int) -> int
    decreases k,
{
    if k <= 0 {
        0
    } else if byte_len(s.take(k)) <= max {
        k
    } else {
        fit_chars(s, max, k - 1)
    }
}

/// `s` if it fits in `max` bytes, else its longest prefix that fits followed by `...`.
pub open spec fn truncate_spec(s: Seq<char>, max: int) -> Seq<char> {
    if byte_len(s) <= max {
        s
    } else {
        s.take(fit_chars(s, max, s.len() as int)) + "..."@
    }
}

/// Shortens `s` to at most `max` bytes, cutting at a character boundary and
/// appending `...` when something was cut.
pub fn truncate(s: &str, max: usize) -> (r: String)
    ensures
        r@ == truncate_spec(s@, max as int),
{
    let v = chars_of(s);
    let ghost sv = v@;
    assert(sv.take(sv.len() as int) == sv);
    let mut acc: usize = 0;
    let mut i: usize = 0;
    while i < v.len()
        invariant
            i <= sv.len(),
            v@ == sv,
            sv == s@,
            sv.take(sv.len() as int) == sv,
            acc == byte_len(sv.take(i as int)),
            acc <= max,
        decreases v.len() - i,
    {
        assert(sv.take(i + 1).drop_last() == sv.take(i as int));
        assert(sv.take(i + 1).last() == sv[i as int]);
        let w = char_width(v[i]);
        if w > max - acc {
            proof {
                lemma_fit_is_prefix(sv, max as int, i as int);
                lemma_byte_len_prefix_mono(sv, i + 1, sv.len() as int);
            }
            let mut r = string_of(v.as_slice(), 0, i);
            push_str(&mut r, "...");
            return r;
        }
        acc = acc + w;
        i = i + 1;
    }
    string_of(v.as_slice(), 0, v.len())
}

/// When prefix `i` fits and prefix `i + 1` does not, the fitting prefix of the whole is `i`.
proof fn lemma_fit_is_prefix(s: Seq<char>, max: int, i: int)
    requires
        0 <= i < s.len(),
        byte_len(s.take(i)) <= max,
        byte_len(s.take(i + 1)) > max,
    ensures
        fit_chars(s, max, s.len() as int) == i,
    decreases s.len() - i,
{
    lemma_fit_down(s, max, i, s.len() as int);
}

proof fn lemma_fit_down(s: Seq<char>, max: int, i: int, k: int)
    requires
        0 <= i < k <= s.len(),
        byte_len(s.take(i)) <= max,
        byte_len(s.take(i + 1)) > max,
    ensures
        fit_chars(s, max, k) == i,
    decreases k - i,
{
    lemma_byte_len_prefix_mono(s, i + 1, k);
    assert(byte_len(s.take(k)) > max);
    assert(fit_chars(s, max, k) == fit_chars(s, max, k - 1));
    if k == i + 1 {
        assert(fit_chars(s, max, i) == i);
    } else {
        lemma_fit_down(s, max, i, k - 1);
    }
}

} // verus!
