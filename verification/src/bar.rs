//! Bar configuration types and the grouping of modules into bubbles.
use vstd::prelude::*;
use crate::strs::push_str;

verus! {

/// Screen edge the bar sits on.
#[derive(Clone, Copy, PartialEq, Eq, Structural)]
pub enum BarPosition {
    Top,
    Bottom,
}

impl Default for BarPosition {
    fn default() -> (p: BarPosition)
        ensures
            p == BarPosition::Top,
    {
        BarPosition::Top
    }
}

/// How the bar is drawn.
#[derive(Clone, Copy, PartialEq, Eq, Structural)]
pub enum BarStyle {
    /// A solid bar spanning the full width.
    Solid,
    /// Separate rounded pills, one per module group.
    Bubbles,
}

impl Default for BarStyle {
    fn default() -> (s: BarStyle)
        ensures
            s == BarStyle::Solid,
    {
        BarStyle::Solid
    }
}

/// Where the bar takes its colours from.
#[derive(Clone, Copy, PartialEq, Eq, Structural)]
pub enum ThemeSource {
    /// The `[theme]` section of bar.toml.
    Config,
    /// The theme extracted from the wallpaper.
    Wallpaper,
}

impl Default for ThemeSource {
    fn default() -> (s: ThemeSource)
        ensures
            s == ThemeSource::Config,
    {
        ThemeSource::Config
    }
}

/// Look of the bubbles in bubble mode.
pub struct BubbleSettings {
    /// Background colour of each pill (hex).
    pub background: String,
    /// Corner radius of each pill.
    pub radius: u32,
    /// Gap between adjacent pills.
    pub gap: u32,
    /// Horizontal padding inside each pill.
    pub padding: u32,
    /// Inset from the bar's top and bottom edges.
    pub margin: u32,
}

impl Default for BubbleSettings {
    fn default() -> (b: BubbleSettings)
        ensures
            b.background@ == "#1a0a2e"@,
            b.radius == 12 && b.gap == 6 && b.padding == 10 && b.margin == 4,
    {
        let mut background = String::new();
        push_str(&mut background, "#1a0a2e");
        BubbleSettings { background, radius: 12, gap: 6, padding: 10, margin: 4 }
    }
}

/// A bar module.
#[derive(Clone, Copy, PartialEq, Eq, Structural)]
pub enum ModuleKind {
    Activities,
    Workspaces,
    WindowTitle,
    Network,
    Audio,
    Battery,
    Clock,
    Systray,
    Cpu,
    Memory,
    Disk,
    Temp,
    Media,
    Notifications,
    ControlCenter,
    Weather,
    /// Splits the modules around it into separate bubbles (`|` in the module lists).
    Separator,
}

/// The modules of the three bar slots.
pub struct Modules {
    pub left: Vec<ModuleKind>,
    pub center: Vec<ModuleKind>,
    pub right: Vec<ModuleKind>,
}

impl Default for Modules {
    fn default() -> (m: Modules)
        ensures
            m.left@ == seq![ModuleKind::Activities, ModuleKind::Workspaces],
            m.center@ == seq![ModuleKind::WindowTitle],
            m.right@ == seq![ModuleKind::Network, ModuleKind::Audio, ModuleKind::Battery, ModuleKind::Clock],
    {
        let left = vec![ModuleKind::Activities, ModuleKind::Workspaces];
        let center = vec![ModuleKind::WindowTitle];
        let right = vec![ModuleKind::Network, ModuleKind::Audio, ModuleKind::Battery, ModuleKind::Clock];
        assert(left@ == seq![ModuleKind::Activities, ModuleKind::Workspaces]);
        assert(center@ == seq![ModuleKind::WindowTitle]);
        assert(right@ == seq![ModuleKind::Network, ModuleKind::Audio, ModuleKind::Battery, ModuleKind::Clock]);
        Modules { left, center, right }
    }
}

/// Bar height when bar.toml gives none.
pub fn default_height() -> (h: u32)
    ensures
        h == 32,
{
    32
}

// ── bubble groups ─────────────────────────────────────────────────────────────

/// After the first `i` modules: the closed groups, the open group, and the number of
/// widgets (non-separators) seen.
pub open spec fn group_state(mods: Seq<ModuleKind>, i: int) -> (Seq<Seq<usize>>, Seq<usize>, int)
    decreases i,
{
    if i <= 0 {
        (Seq::empty(), Seq::empty(), 0)
    } else {
        let (done, cur, w) = group_state(mods, i - 1);
        if mods[i - 1] == ModuleKind::Separator {
            if cur.len() > 0 {
                (done.push(cur), Seq::empty(), w)
            } else {
                (done, cur, w)
            }
        } else {
            (done, cur.push(w as usize), w + 1)
        }
    }
}

/// The groups of widget indices for `mods`: the widgets between separators, empty
/// groups dropped.
pub open spec fn groups_spec(mods: Seq<ModuleKind>) -> Seq<Seq<usize>> {
    let (done, cur, w) = group_state(mods, mods.len() as int);
    if cur.len() > 0 {
        done.push(cur)
    } else {
        done
    }
}

/// Number of widgets (non-separators) among the first `i` modules.
pub open spec fn widget_count(mods: Seq<ModuleKind>, i: int) -> int
    decreases i,
{
    if i <= 0 {
        0
    } else if mods[i - 1] == ModuleKind::Separator {
        widget_count(mods, i - 1)
    } else {
        widget_count(mods, i - 1) + 1
    }
}

/// The groups one after another.
pub open spec fn flatten(gs: Seq<Seq<usize>>) -> Seq<usize>
    decreases gs.len(),
{
    if gs.len() == 0 {
        Seq::empty()
    } else {
        flatten(gs.drop_last()) + gs.last()
    }
}

/// `0, 1, .., n - 1`.
pub open spec fn indices(n: int) -> Seq<usize> {
    Seq::new(if n < 0 { 0nat } else { n as nat }, |i: int| i as usize)
}

proof fn lemma_group_state(mods: Seq<ModuleKind>, i: int)
    requires
        0 <= i <= mods.len(),
    ensures
        ({
            let (done, cur, w) = group_state(mods, i);
            &&& w == widget_count(mods, i)
            &&& w >= 0
            &&& flatten(done) + cur == indices(w)
            &&& forall|g: int| 0 <= g < done.len() ==> (#[trigger] done[g]).len() > 0
        }),
    decreases i,
{
    if i > 0 {
        lemma_group_state(mods, i - 1);
        let (done, cur, w) = group_state(mods, i - 1);
        if mods[i - 1] == ModuleKind::Separator {
            if cur.len() > 0 {
                assert(done.push(cur).drop_last() == done);
                assert(flatten(done.push(cur)) + Seq::<usize>::empty() =~= flatten(done) + cur);
            }
        } else {
            assert(flatten(done) + cur.push(w as usize) =~= (flatten(done) + cur).push(w as usize));
            assert(indices(w + 1) =~= indices(w).push(w as usize));
        }
    }
}

/// The bubble groups cover the widgets exactly once, in order: read one after
/// another they are `0, 1, .., n - 1` for the `n` non-separator modules, and none is
/// empty.
pub proof fn lemma_groups_partition(mods: Seq<ModuleKind>)
    ensures
        flatten(groups_spec(mods)) == indices(widget_count(mods, mods.len() as int)),
        forall|g: int| 0 <= g < groups_spec(mods).len() ==> (#[trigger] groups_spec(mods)[g]).len() > 0,
{
    lemma_group_state(mods, mods.len() as int);
    let (done, cur, w) = group_state(mods, mods.len() as int);
    if cur.len() > 0 {
        assert(done.push(cur).drop_last() == done);
    } else {
        assert(flatten(done) + cur == flatten(done));
    }
}

/// Splits a module list at separators into groups of consecutive widget indices
/// (indices into the widget list, which has the separators removed).
pub fn compute_groups(modules: &[ModuleKind]) -> (groups: Vec<Vec<usize>>)
    ensures
        groups@.map_values(|g: Vec<usize>| g@) == groups_spec(modules@),
{
    let mut groups: Vec<Vec<usize>> = Vec::new();
    let mut current: Vec<usize> = Vec::new();
    let mut widget_idx: usize = 0;
    let mut i: usize = 0;
    while i < modules.len()
        invariant
            i <= modules@.len(),
            ({
                let (done, cur, w) = group_state(modules@, i as int);
                &&& groups@.map_values(|g: Vec<usize>| g@) == done
                &&& current@ == cur
                &&& widget_idx == w
            }),
            widget_idx <= i,
        decreases modules.len() - i,
    {
        let ghost gv = groups@.map_values(|g: Vec<usize>| g@);
        if modules[i] == ModuleKind::Separator {
            if current.len() > 0 {
                let g = current;
                current = Vec::new();
                let ghost g_view = g@;
                groups.push(g);
                assert(groups@.map_values(|g: Vec<usize>| g@) =~= gv.push(g_view));
            }
        } else {
            current.push(widget_idx);
            widget_idx = widget_idx + 1;
        }
        i = i + 1;
    }
    if current.len() > 0 {
        let ghost gv = groups@.map_values(|g: Vec<usize>| g@);
        let ghost cv = current@;
        groups.push(current);
        assert(groups@.map_values(|g: Vec<usize>| g@) =~= gv.push(cv));
    }
    groups
}

// ── the main loop's schedule ─────────────────────────────────────────────────

/// When the bar's main loop last checked bar.toml, last checked the wallpaper theme
/// file, and last redrew, in milliseconds.
pub struct BarTimers {
    pub last_cfg_check_ms: u64,
    pub last_theme_check_ms: u64,
    pub last_tick_ms: u64,
}

/// The periodic work due in one turn of the main loop.
pub struct BarDue {
    /// Look whether bar.toml changed (every 2 s).
    pub check_config: bool,
    /// Look whether the wallpaper theme changed (every 2 s, when the colours come
    /// from the wallpaper).
    pub check_theme: bool,
    /// Redraw (every 16 ms while bubbles animate, else every second).
    pub redraw: bool,
}

impl BarTimers {
    /// All timers start at `now_ms`.
    pub fn new(now_ms: u64) -> (t: BarTimers)
        ensures
            t.last_cfg_check_ms == now_ms && t.last_theme_check_ms == now_ms && t.last_tick_ms == now_ms,
    {
        BarTimers { last_cfg_check_ms: now_ms, last_theme_check_ms: now_ms, last_tick_ms: now_ms }
    }

    /// What is due at `now_ms`; each due timer restarts at `now_ms`.
    pub fn due(&mut self, now_ms: u64, wallpaper_theme: bool, animating: bool) -> (d: BarDue)
        requires
            now_ms >= old(self).last_cfg_check_ms,
            now_ms >= old(self).last_theme_check_ms,
            now_ms >= old(self).last_tick_ms,
        ensures
            d.check_config == (now_ms - old(self).last_cfg_check_ms >= 2000),
            d.check_theme == (wallpaper_theme && now_ms - old(self).last_theme_check_ms >= 2000),
            d.redraw == (now_ms - old(self).last_tick_ms >= if animating { 16int } else { 1000int }),
            final(self).last_cfg_check_ms == if d.check_config { now_ms } else { old(self).last_cfg_check_ms },
            final(self).last_theme_check_ms == if d.check_theme { now_ms } else { old(self).last_theme_check_ms },
            final(self).last_tick_ms == if d.redraw { now_ms } else { old(self).last_tick_ms },
    {
        let check_config = now_ms - self.last_cfg_check_ms >= 2000;
        if check_config {
            self.last_cfg_check_ms = now_ms;
        }
        let check_theme = wallpaper_theme && now_ms - self.last_theme_check_ms >= 2000;
        if check_theme {
            self.last_theme_check_ms = now_ms;
        }
        let interval: u64 = if animating { 16 } else { 1000 };
        let redraw = now_ms - self.last_tick_ms >= interval;
        if redraw {
            self.last_tick_ms = now_ms;
        }
        BarDue { check_config, check_theme, redraw }
    }
}

/// A reloaded config changes the widgets only when a slot's module list changed;
/// then the widgets, their bubble groups and the intro animation are rebuilt.
pub fn modules_changed(old: &Modules, new: &Modules) -> (b: bool)
    ensures
        b == !(old.left@ == new.left@ && old.center@ == new.center@ && old.right@ == new.right@),
{
    !(same_kinds(&old.left, &new.left) && same_kinds(&old.center, &new.center)
        && same_kinds(&old.right, &new.right))
}

fn same_kinds(a: &Vec<ModuleKind>, b: &Vec<ModuleKind>) -> (r: bool)
    ensures
        r == (a@ == b@),
{
    if a.len() != b.len() {
        return false;
    }
    let mut i: usize = 0;
    while i < a.len()
        invariant
            i <= a@.len() == b@.len(),
            forall|k: int| 0 <= k < i ==> a@[k] == b@[k],
        decreases a.len() - i,
    {
        if a[i] != b[i] {
            return false;
        }
        i = i + 1;
    }
    assert(a@ =~= b@);
    true
}

// ── waiting for outputs ──────────────────────────────────────────────────────

/// Dispatch rounds the bar waits, 20 ms apart, for a Wayland output to appear.
pub const BAR_OUTPUT_ROUNDS: u32 = 50;

/// What to do after a Wayland dispatch while waiting for outputs.
#[derive(Clone, Copy, PartialEq, Eq, Structural)]
pub enum WaitStep {
    /// An output is there: go on.
    Ready,
    /// None yet: sleep and dispatch again.
    Again,
    /// None after the last round: give up with an error.
    GiveUp,
}

/// Waiting for outputs: at most `limit` dispatch rounds, of which `rounds` are done.
pub struct OutputWait {
    pub rounds: u32,
    pub limit: u32,
}

impl OutputWait {
    pub open spec fn wf(&self) -> bool {
        self.rounds <= self.limit
    }

    /// No round done yet, `limit` rounds allowed.
    pub fn new(limit: u32) -> (w: OutputWait)
        ensures
            w.wf(),
            w.rounds == 0 && w.limit == limit,
    {
        OutputWait { rounds: 0, limit }
    }

    /// Before a round: with no round left the wait is over (and failed).
    pub fn exhausted(&self) -> (b: bool)
        ensures
            b == (self.rounds >= self.limit),
    {
        self.rounds >= self.limit
    }

    /// After a dispatch round that found `outputs` outputs: ready when there is one;
    /// else the round counts, and after the last allowed round the wait gives up.
    pub fn after_dispatch(&mut self, outputs: usize) -> (step: WaitStep)
        requires
            old(self).wf(),
            old(self).rounds < old(self).limit,
        ensures
            final(self).wf(),
            final(self).limit == old(self).limit,
            outputs > 0 ==> step == WaitStep::Ready && final(self).rounds == old(self).rounds,
            outputs == 0 ==> final(self).rounds == old(self).rounds + 1 && step == if final(self).rounds
                < final(self).limit {
                WaitStep::Again
            } else {
                WaitStep::GiveUp
            },
    {
        if outputs > 0 {
            return WaitStep::Ready;
        }
        self.rounds = self.rounds + 1;
        if self.rounds < self.limit {
            WaitStep::Again
        } else {
            WaitStep::GiveUp
        }
    }
}

} // verus!
