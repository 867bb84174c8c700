//! The settings tool's view of the shell's config files (bar, wallpaper, lock and
//! launcher tables without their floating-point fields), with their defaults.
use vstd::prelude::*;
use crate::strs::push_str;

verus! {

fn string_from(s: &str) -> (r: String)
    ensures
        r@ == s@,
{
    let mut r = String::new();
    push_str(&mut r, s);
    r
}

/// Bubble look in bar.toml.
pub struct BubblesCfg {
    pub background: String,
    pub radius: u32,
    pub gap: u32,
    pub padding: u32,
    pub margin: u32,
}

impl Default for BubblesCfg {
    fn default() -> (b: BubblesCfg)
        ensures
            b.background@.len() == 0 && b.radius == 0 && b.gap == 0 && b.padding == 0 && b.margin == 0,
    {
        BubblesCfg { background: String::new(), radius: 0, gap: 0, padding: 0, margin: 0 }
    }
}

/// Default bubble background when bar.toml omits it.
pub fn def_bubble_bg() -> (s: String)
    ensures
        s@ == "#1a0a2e"@,
{
    string_from("#1a0a2e")
}

pub fn def_radius() -> (r: u32)
    ensures
        r == 7,
{
    7
}

pub fn def_gap() -> (r: u32)
    ensures
        r == 6,
{
    6
}

pub fn def_padding() -> (r: u32)
    ensures
        r == 10,
{
    10
}

pub fn def_margin() -> (r: u32)
    ensures
        r == 4,
{
    4
}

/// Module names of the bar's three slots.
pub struct ModulesCfg {
    pub left: Vec<String>,
    pub center: Vec<String>,
    pub right: Vec<String>,
}

impl Default for ModulesCfg {
    fn default() -> (m: ModulesCfg)
        ensures
            m.left@.len() == 0 && m.center@.len() == 0 && m.right@.len() == 0,
    {
        ModulesCfg { left: Vec::new(), center: Vec::new(), right: Vec::new() }
    }
}

/// A bar slot.
#[derive(Clone, Copy, PartialEq, Eq, Structural)]
pub enum BarSlot {
    Left,
    Center,
    Right,
}

impl ModulesCfg {
    pub open spec fn slot(&self, s: BarSlot) -> Seq<String> {
        match s {
            BarSlot::Left => self.left@,
            BarSlot::Center => self.center@,
            BarSlot::Right => self.right@,
        }
    }

    /// Removes module `idx` of slot `slot`, if there is one.
    pub fn remove_module(&mut self, slot: BarSlot, idx: usize)
        ensures
            forall|s: BarSlot| s != slot ==> final(self).slot(s) == old(self).slot(s),
            final(self).slot(slot) == if idx < old(self).slot(slot).len() {
                old(self).slot(slot).remove(idx as int)
            } else {
                old(self).slot(slot)
            },
    {
        match slot {
            BarSlot::Left => {
                if idx < self.left.len() {
                    self.left.remove(idx);
                }
            },
            BarSlot::Center => {
                if idx < self.center.len() {
                    self.center.remove(idx);
                }
            },
            BarSlot::Right => {
                if idx < self.right.len() {
                    self.right.remove(idx);
                }
            },
        }
    }

    /// Appends module `name` to slot `slot`.
    pub fn add_module(&mut self, slot: BarSlot, name: String)
        ensures
            forall|s: BarSlot| s != slot ==> final(self).slot(s) == old(self).slot(s),
            final(self).slot(slot) == old(self).slot(slot).push(name),
    {
        match slot {
            BarSlot::Left => self.left.push(name),
            BarSlot::Center => self.center.push(name),
            BarSlot::Right => self.right.push(name),
        }
    }
}

/// bar.toml as the settings tool edits it, without the theme's font size (a
/// floating-point value the caller keeps). `style` is the key woven-bar reads.
pub struct BarSettings {
    pub height: u32,
    pub position: String,
    pub theme_source: String,
    pub style: String,
    pub background: String,
    pub foreground: String,
    pub accent: String,
    pub dim: String,
    pub radius: u32,
    pub bubbles: BubblesCfg,
    pub modules: ModulesCfg,
}

impl Default for BarSettings {
    fn default() -> (b: BarSettings)
        ensures
            b.height == 34 && b.position@ == "top"@ && b.theme_source@ == "config"@ && b.style@ == "solid"@,
            b.background@.len() == 0 && b.foreground@.len() == 0 && b.accent@.len() == 0 && b.dim@.len() == 0,
            b.radius == 0,
            b.modules.left@.len() == 3 && b.modules.center@.len() == 1 && b.modules.right@.len() == 8,
            b.modules.left@[0]@ == "activities"@ && b.modules.left@[1]@ == "workspaces"@
                && b.modules.left@[2]@ == "window_title"@,
            b.modules.center@[0]@ == "clock"@,
            b.modules.right@[0]@ == "systray"@ && b.modules.right@[1]@ == "notifications"@
                && b.modules.right@[2]@ == "media"@ && b.modules.right@[3]@ == "cpu"@
                && b.modules.right@[4]@ == "memory"@ && b.modules.right@[5]@ == "audio"@
                && b.modules.right@[6]@ == "battery"@ && b.modules.right@[7]@ == "control_center"@,
    {
        let left = vec![string_from("activities"), string_from("workspaces"), string_from("window_title")];
        let center = vec![string_from("clock")];
        let right = vec![
            string_from("systray"),
            string_from("notifications"),
            string_from("media"),
            string_from("cpu"),
            string_from("memory"),
            string_from("audio"),
            string_from("battery"),
            string_from("control_center"),
        ];
        BarSettings {
            height: 34,
            position: string_from("top"),
            theme_source: string_from("config"),
            style: string_from("solid"),
            background: String::new(),
            foreground: String::new(),
            accent: String::new(),
            dim: String::new(),
            radius: 0,
            bubbles: BubblesCfg::default(),
            modules: ModulesCfg { left, center, right },
        }
    }
}

pub fn default_bar_height() -> (h: u32)
    ensures
        h == 34,
{
    34
}

pub fn default_position() -> (s: String)
    ensures
        s@ == "top"@,
{
    string_from("top")
}

pub fn def_bg() -> (s: String)
    ensures
        s@ == "#0a0010"@,
{
    string_from("#0a0010")
}

pub fn def_fg() -> (s: String)
    ensures
        s@ == "#cdd6f4"@,
{
    string_from("#cdd6f4")
}

pub fn def_accent() -> (s: String)
    ensures
        s@ == "#c792ea"@,
{
    string_from("#c792ea")
}

pub fn def_dim() -> (s: String)
    ensures
        s@ == "#2a1545"@,
{
    string_from("#2a1545")
}

/// wall.toml's `[wallpaper]` table as the settings tool edits it, without the
/// transition and slide durations (floating-point values the caller keeps).
pub struct WallSettings {
    pub kind: String,
    pub path: String,
    pub color: String,
    pub dir: String,
    pub colors: Vec<String>,
    pub interval: u32,
    pub transition: String,
    pub shuffle: bool,
}

impl Default for WallSettings {
    fn default() -> (w: WallSettings)
        ensures
            w.kind@.len() == 0 && w.path@.len() == 0 && w.color@.len() == 0 && w.dir@.len() == 0,
            w.colors@.len() == 0 && w.interval == 0 && w.transition@.len() == 0 && !w.shuffle,
    {
        WallSettings {
            kind: String::new(),
            path: String::new(),
            color: String::new(),
            dir: String::new(),
            colors: Vec::new(),
            interval: 0,
            transition: String::new(),
            shuffle: false,
        }
    }
}

pub fn def_wall_type() -> (s: String)
    ensures
        s@ == "image"@,
{
    string_from("image")
}

pub fn def_interval() -> (n: u32)
    ensures
        n == 300,
{
    300
}

pub fn def_transition() -> (s: String)
    ensures
        s@ == "pixelate"@,
{
    string_from("pixelate")
}

/// The `[background]` table of lock.toml.
pub struct LockBgCfg {
    pub kind: String,
    pub dir: String,
    pub path: String,
}

impl Default for LockBgCfg {
    fn default() -> (c: LockBgCfg)
        ensures
            c.kind@ == "random"@ && c.dir@ == "~/Pictures/Wallpapers"@ && c.path@.len() == 0,
    {
        LockBgCfg { kind: string_from("random"), dir: string_from("~/Pictures/Wallpapers"), path: String::new() }
    }
}

pub fn def_lock_bg_type() -> (s: String)
    ensures
        s@ == "random"@,
{
    string_from("random")
}

/// The `[lock]` table of lock.toml.
pub struct LockSettingsCfg {
    pub blur_radius: u32,
    pub show_clock: bool,
    pub clock_format: String,
    pub show_date: bool,
    pub date_format: String,
    pub text_color: String,
    pub accent_color: String,
    pub error_color: String,
    pub fade_in_ms: u32,
    pub fade_out_ms: u32,
    pub shake_on_error: bool,
}

impl Default for LockSettingsCfg {
    fn default() -> (c: LockSettingsCfg)
        ensures
            c.blur_radius == 20 && c.show_clock && c.show_date && c.shake_on_error,
            c.clock_format@ == "%H:%M"@ && c.date_format@ == "%A, %B %e"@,
            c.text_color@ == "#cdd6f4"@ && c.accent_color@ == "#cba6f7"@ && c.error_color@ == "#f07178"@,
            c.fade_in_ms == 200 && c.fade_out_ms == 200,
    {
        LockSettingsCfg {
            blur_radius: 20,
            show_clock: true,
            clock_format: string_from("%H:%M"),
            show_date: true,
            date_format: string_from("%A, %B %e"),
            text_color: string_from("#cdd6f4"),
            accent_color: string_from("#cba6f7"),
            error_color: string_from("#f07178"),
            fade_in_ms: 200,
            fade_out_ms: 200,
            shake_on_error: true,
        }
    }
}

pub fn def_blur() -> (r: u32)
    ensures
        r == 20,
{
    20
}

pub fn def_true() -> (b: bool)
    ensures
        b,
{
    true
}

pub fn def_fade() -> (r: u32)
    ensures
        r == 200,
{
    200
}

/// lock.toml as the settings tool edits it.
pub struct LockCfg {
    pub background: LockBgCfg,
    pub lock: LockSettingsCfg,
}

impl Default for LockCfg {
    fn default() -> (c: LockCfg)
        ensures
            c.background.kind@ == "random"@,
            c.lock.blur_radius == 20 && c.lock.fade_in_ms == 200,
    {
        LockCfg { background: LockBgCfg::default(), lock: LockSettingsCfg::default() }
    }
}

/// The `[launcher]` table of launch.toml.
pub struct LauncherCfg {
    pub width: u32,
    pub max_results: u32,
    pub background: String,
    pub panel_background: String,
    pub text_color: String,
    pub text_dim: String,
    pub accent_color: String,
    pub selection_color: String,
    pub border_color: String,
    pub calculator: bool,
    pub command_runner: bool,
}

impl Default for LauncherCfg {
    fn default() -> (c: LauncherCfg)
        ensures
            c.width == 620 && c.max_results == 8,
            c.background@ == "#0a0010"@ && c.panel_background@ == "#0f0020"@,
            c.text_color@ == "#e8e0f0"@ && c.text_dim@ == "#8888aa"@,
            c.accent_color@ == "#c792ea"@ && c.selection_color@ == "#1a0035"@ && c.border_color@ == "#c792ea"@,
            c.calculator && c.command_runner,
    {
        LauncherCfg {
            width: 620,
            max_results: 8,
            background: string_from("#0a0010"),
            panel_background: string_from("#0f0020"),
            text_color: string_from("#e8e0f0"),
            text_dim: string_from("#8888aa"),
            accent_color: string_from("#c792ea"),
            selection_color: string_from("#1a0035"),
            border_color: string_from("#c792ea"),
            calculator: true,
            command_runner: true,
        }
    }
}

pub fn def_launch_w() -> (r: u32)
    ensures
        r == 620,
{
    620
}

pub fn def_max_results() -> (r: u32)
    ensures
        r == 8,
{
    8
}

/// launch.toml as the settings tool edits it.
pub struct LaunchCfg {
    pub launcher: LauncherCfg,
}

impl Default for LaunchCfg {
    fn default() -> (c: LaunchCfg)
        ensures
            c.launcher.width == 620 && c.launcher.max_results == 8 && c.launcher.calculator,
    {
        LaunchCfg { launcher: LauncherCfg::default() }
    }
}

} // verus!
