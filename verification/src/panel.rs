//! The settings panel apart from drawing: tab names, category colours and headers,
//! the keybind editor, and the panel's state machine (which field has the focus,
//! where typing goes, what each click zone and key does, and how the forms are
//! written back into the config).
use vstd::prelude::*;
use crate::cfg::{BarSettings, BarSlot, LaunchCfg, LauncherCfg, LockCfg, LockSettingsCfg, WallSettings};
use crate::keybinds::{Bind, BindV, binds_view};
use crate::panel_forms::{erase_in, erased, pushed, type_into, BarField, BarInputs, BarToggleField,
    LaunchField, LaunchInputs, LaunchToggleField, LockField, LockInputs, LockToggleField, WallField,
    WallInputs};
use crate::strs::{byte_len, chars_of, dec_text, decimal, lemma_dec_text_parses, lemma_dec_text_u32,
    parse_unsigned, parse_unsigned_exec, push_str, str_eq, string_of, trim, trim_range};
use crate::widgets::{KeyCapture, TextInput, Toggle, delete_word_to};

verus! {

/// The panel's tabs.
#[derive(Clone, Copy, PartialEq, Eq, Structural)]
pub enum Tab {
    Bar,
    Wall,
    Lock,
    Launch,
    Sway,
    Theme,
}

impl Tab {
    /// The tabs in the order the tab bar shows them.
    pub fn all() -> (v: Vec<Tab>)
        ensures
            v@ == seq![Tab::Bar, Tab::Wall, Tab::Lock, Tab::Launch, Tab::Sway, Tab::Theme],
    {
        let v = vec![Tab::Bar, Tab::Wall, Tab::Lock, Tab::Launch, Tab::Sway, Tab::Theme];
        assert(v@ == seq![Tab::Bar, Tab::Wall, Tab::Lock, Tab::Launch, Tab::Sway, Tab::Theme]);
        v
    }

    pub fn label(self) -> (r: &'static str)
        ensures
            r@ == match self {
                Tab::Bar => "Bar"@,
                Tab::Wall => "Wall"@,
                Tab::Lock => "Lock"@,
                Tab::Launch => "Launch"@,
                Tab::Sway => "Sway"@,
                Tab::Theme => "Theme"@,
            },
    {
        match self {
            Tab::Bar => "Bar",
            Tab::Wall => "Wall",
            Tab::Lock => "Lock",
            Tab::Launch => "Launch",
            Tab::Sway => "Sway",
            Tab::Theme => "Theme",
        }
    }
}

/// The pill colour of a keybind category.
pub open spec fn cat_color_spec(cat: Seq<char>) -> Seq<char> {
    if cat == "core"@ { "#c792ea"@ }
    else if cat == "apps"@ { "#00e5c8"@ }
    else if cat == "woven"@ { "#82aaff"@ }
    else if cat == "focus"@ { "#f07178"@ }
    else if cat == "move"@ { "#ffcb6b"@ }
    else if cat == "layout"@ { "#c3e88d"@ }
    else if cat == "workspaces"@ { "#f78c6c"@ }
    else if cat == "media"@ { "#89ddff"@ }
    else if cat == "screenshots"@ { "#b2ccd6"@ }
    else { "#cdd6f4"@ }
}

pub fn cat_color(cat: &str) -> (r: &'static str)
    ensures
        r@ == cat_color_spec(cat@),
{
    if str_eq(cat, "core") { "#c792ea" }
    else if str_eq(cat, "apps") { "#00e5c8" }
    else if str_eq(cat, "woven") { "#82aaff" }
    else if str_eq(cat, "focus") { "#f07178" }
    else if str_eq(cat, "move") { "#ffcb6b" }
    else if str_eq(cat, "layout") { "#c3e88d" }
    else if str_eq(cat, "workspaces") { "#f78c6c" }
    else if str_eq(cat, "media") { "#89ddff" }
    else if str_eq(cat, "screenshots") { "#b2ccd6" }
    else { "#cdd6f4" }
}

/// The header the keybind list shows above a category's rows.
pub open spec fn category_header_spec(cat: Seq<char>) -> Seq<char> {
    if cat == "core"@ { "── Core"@ }
    else if cat == "apps"@ { "── Apps"@ }
    else if cat == "woven"@ { "── Woven Shell"@ }
    else if cat == "focus"@ { "── Focus"@ }
    else if cat == "move"@ { "── Move"@ }
    else if cat == "layout"@ { "── Layout"@ }
    else if cat == "workspaces"@ { "── Workspaces"@ }
    else if cat == "media"@ { "── Media / System"@ }
    else if cat == "screenshots"@ { "── Screenshots"@ }
    else { "── Other"@ }
}

pub fn category_header(cat: &str) -> (r: &'static str)
    ensures
        r@ == category_header_spec(cat@),
{
    if str_eq(cat, "core") { "── Core" }
    else if str_eq(cat, "apps") { "── Apps" }
    else if str_eq(cat, "woven") { "── Woven Shell" }
    else if str_eq(cat, "focus") { "── Focus" }
    else if str_eq(cat, "move") { "── Move" }
    else if str_eq(cat, "layout") { "── Layout" }
    else if str_eq(cat, "workspaces") { "── Workspaces" }
    else if str_eq(cat, "media") { "── Media / System" }
    else if str_eq(cat, "screenshots") { "── Screenshots" }
    else { "── Other" }
}

// ── keybind editor ───────────────────────────────────────────────────────────

/// The field of the keybind editor that has focus.
#[derive(Clone, Copy, PartialEq, Eq, Structural)]
pub enum SwayField {
    Key,
    Label,
    Action,
}

/// The field Tab moves the focus to: key combo, label, action, then key combo again.
pub open spec fn next_field(f: SwayField) -> SwayField {
    match f {
        SwayField::Key => SwayField::Label,
        SwayField::Label => SwayField::Action,
        SwayField::Action => SwayField::Key,
    }
}

/// Three presses of Tab bring the focus back to the field it started on.
pub proof fn lemma_tab_cycle(f: SwayField)
    ensures
        next_field(next_field(next_field(f))) == f,
{
}

/// The keybind being edited: an existing bind (`idx`) or a new one.
pub struct SwayEditState {
    pub idx: Option<usize>,
    pub key: KeyCapture,
    pub label: TextInput,
    pub action: TextInput,
    pub focused: SwayField,
}

impl SwayEditState {
    pub open spec fn wf(&self) -> bool {
        self.label.wf() && self.action.wf()
    }

    /// An empty editor for a new bind, focused on the key combo.
    pub fn new_add() -> (e: SwayEditState)
        ensures
            e.wf(),
            e.idx is None,
            e.key.value@.len() == 0 && !e.key.capturing,
            e.label.value@.len() == 0 && e.action.value@.len() == 0,
            e.focused == SwayField::Key,
    {
        SwayEditState {
            idx: None,
            key: KeyCapture::new(String::new()),
            label: TextInput::new(String::new()),
            action: TextInput::new(String::new()),
            focused: SwayField::Key,
        }
    }

    /// An editor holding bind `idx`, focused on the key combo.
    pub fn from_bind(idx: usize, b: &Bind) -> (e: SwayEditState)
        requires
            byte_len(b.label@) <= usize::MAX,
            byte_len(b.action@) <= usize::MAX,
        ensures
            e.wf(),
            e.idx == Some(idx),
            e.key.value@ == b.key@ && !e.key.capturing,
            e.label.value@ == b.label@,
            e.action.value@ == b.action@,
            e.focused == SwayField::Key,
    {
        SwayEditState {
            idx: Some(idx),
            key: KeyCapture::new(b.key.clone()),
            label: TextInput::new(b.label.clone()),
            action: TextInput::new(b.action.clone()),
            focused: SwayField::Key,
        }
    }
}

/// The bind an editor saves: its fields, in the category of the bind it edits
/// (or "apps" for a new one).
pub open spec fn saved_bind(binds: Seq<BindV>, e: SwayEditState) -> BindV {
    BindV {
        category: match e.idx {
            Some(i) => binds[i as int].category,
            None => "apps"@,
        },
        key: e.key.value@,
        action: e.action.value@,
        label: e.label.value@,
    }
}

/// What backspace (`word` false) or Ctrl+Backspace (`word` true) at character position
/// `k` of `s` leaves: text `t` with the cursor at byte `c`.
pub open spec fn edited(s: Seq<char>, k: int, word: bool, t: Seq<char>, c: int) -> bool {
    if word {
        t == s.take(delete_word_to(s, k)) + s.skip(k) && c == byte_len(s.take(delete_word_to(s, k)))
    } else if k == 0 {
        t == s && c == 0
    } else {
        t == s.take(k - 1) + s.skip(k) && c == byte_len(s.take(k - 1))
    }
}

// ── the panel ────────────────────────────────────────────────────────────────

/// The config values the panel edits and saves.
pub struct PanelCfg {
    pub binds: Vec<Bind>,
    pub bar: BarSettings,
    pub wall: WallSettings,
    pub lock: LockCfg,
    /// The lock program chosen on the lock tab.
    pub lock_program: String,
    pub launch: LaunchCfg,
}

/// A click target of the panel: what pressing it does.
#[derive(Clone)]
pub enum ZoneAction {
    SelectTab(Tab),
    Close,
    Apply,
    SwayEdit(usize),
    SwayDelete(usize),
    SwayAdd,
    SwayEditField(SwayField),
    SwayEditSave,
    SwayEditCancel,
    BarModuleRemove { slot: BarSlot, idx: usize },
    BarModuleAdd(BarSlot),
    BarModulePicker(String),
    BarModulePickerClose,
    BarFieldFocus(BarField),
    BarToggle(BarToggleField),
    WallKindSelect(String),
    WallFieldFocus(WallField),
    LockProgramSelect(String),
    LockBgKindSelect(String),
    LockFieldFocus(LockField),
    LockToggle(LockToggleField),
    LaunchFieldFocus(LaunchField),
    LaunchToggle(LaunchToggleField),
    ThemeSelect(String),
}

/// A key event for the panel. Clicks and scrolling are matched against the drawn
/// click zones by the caller, which then calls `dispatch_action` or `unfocus_all`.
pub enum Input {
    Char(char),
    Backspace,
    CtrlBackspace,
    Enter,
    Escape,
    Tab,
    Left,
    Right,
    Up,
    Down,
    KeyCombo { key: String },
}

/// The text input that typing goes to.
#[derive(Clone, Copy, PartialEq, Eq, Structural)]
pub enum InputSlot {
    SwayLabel,
    SwayAction,
    Bar(BarField),
    Wall(WallField),
    Lock(LockField),
    Launch(LaunchField),
}

/// The settings panel: the tab shown, the config being edited, the forms of each
/// tab with their focused field, the keybind editor, and the status line.
pub struct Panel {
    pub tab: Tab,
    pub cfg: PanelCfg,
    pub dirty: bool,
    pub should_close: bool,
    pub status_msg: Option<(String, bool)>,
    pub status_timer: u32,
    pub sway_edit: Option<SwayEditState>,
    pub bar_module_picker: Option<BarSlot>,
    pub bar_focused: Option<BarField>,
    pub bar_inputs: BarInputs,
    pub wall_focused: Option<WallField>,
    pub wall_inputs: WallInputs,
    pub lock_focused: Option<LockField>,
    pub lock_inputs: LockInputs,
    pub launch_focused: Option<LaunchField>,
    pub launch_inputs: LaunchInputs,
    pub selected_theme: String,
}

/// The editor with key capture stopped.
pub open spec fn stop_capture(e: Option<SwayEditState>) -> Option<SwayEditState> {
    match e {
        Some(s) => Some(SwayEditState { key: KeyCapture { capturing: false, ..s.key }, ..s }),
        None => None,
    }
}

/// The panel after a click outside any field: nothing focused, no key capture.
pub open spec fn unfocused(p: Panel) -> Panel {
    Panel {
        bar_focused: None,
        wall_focused: None,
        lock_focused: None,
        launch_focused: None,
        sway_edit: stop_capture(p.sway_edit),
        dirty: true,
        ..p
    }
}

/// Where typing goes: the editor's label or action field unless a key combo is being
/// captured; else the focused field of the bar, wall, lock or launch tab, in that
/// order (the lock program is not typed).
pub open spec fn active_slot(p: Panel) -> Option<InputSlot> {
    match p.sway_edit {
        Some(e) => if e.key.capturing {
            None
        } else {
            match e.focused {
                SwayField::Label => Some(InputSlot::SwayLabel),
                SwayField::Action => Some(InputSlot::SwayAction),
                SwayField::Key => None,
            }
        },
        None => match p.bar_focused {
            Some(f) => Some(InputSlot::Bar(f)),
            None => match p.wall_focused {
                Some(f) => Some(InputSlot::Wall(f)),
                None => match p.lock_focused {
                    Some(f) => if f == LockField::LockProgram {
                        None
                    } else {
                        Some(InputSlot::Lock(f))
                    },
                    None => match p.launch_focused {
                        Some(f) => Some(InputSlot::Launch(f)),
                        None => None,
                    },
                },
            },
        },
    }
}

/// The text input in slot `s`.
pub open spec fn input_at(p: Panel, s: InputSlot) -> TextInput {
    match s {
        InputSlot::SwayLabel => p.sway_edit.unwrap().label,
        InputSlot::SwayAction => p.sway_edit.unwrap().action,
        InputSlot::Bar(f) => p.bar_inputs.field(f),
        InputSlot::Wall(f) => p.wall_inputs.field(f),
        InputSlot::Lock(f) => p.lock_inputs.field(f),
        InputSlot::Launch(f) => p.launch_inputs.field(f),
    }
}

/// The panel with the text input in slot `s` replaced by `t`.
pub open spec fn with_input(p: Panel, s: InputSlot, t: TextInput) -> Panel {
    match s {
        InputSlot::SwayLabel => Panel { sway_edit: Some(SwayEditState { label: t, ..p.sway_edit.unwrap() }), ..p },
        InputSlot::SwayAction => Panel { sway_edit: Some(SwayEditState { action: t, ..p.sway_edit.unwrap() }), ..p },
        InputSlot::Bar(f) => Panel { bar_inputs: p.bar_inputs.with_field(f, t), ..p },
        InputSlot::Wall(f) => Panel { wall_inputs: p.wall_inputs.with_field(f, t), ..p },
        InputSlot::Lock(f) => Panel { lock_inputs: p.lock_inputs.with_field(f, t), ..p },
        InputSlot::Launch(f) => Panel { launch_inputs: p.launch_inputs.with_field(f, t), ..p },
    }
}

/// The panel with the text input in slot `s` edited to `t`, marked for redrawing.
pub open spec fn retyped(p: Panel, s: InputSlot, t: TextInput) -> Panel {
    Panel { dirty: true, ..with_input(p, s, t) }
}

/// The status line shows `msg` (an error when `err`) for 120 ticks.
pub open spec fn status_set(a: Panel, b: Panel, msg: Seq<char>, err: bool) -> bool {
    &&& b == Panel { status_msg: b.status_msg, status_timer: 120, dirty: true, ..a }
    &&& b.status_msg matches Some(m) && m.0@ == msg && m.1 == err
}

/// The panel after the keybind editor is saved.
pub open spec fn saved(a: Panel, b: Panel) -> bool {
    match a.sway_edit {
        None => b == Panel { dirty: true, ..a },
        Some(e) => if e.key.value@.len() == 0 || e.action.value@.len() == 0 {
            status_set(a, b, "Key and action cannot be empty"@, true)
        } else {
            &&& b == Panel { cfg: PanelCfg { binds: b.cfg.binds, ..a.cfg }, sway_edit: None, dirty: true, ..a }
            &&& binds_view(b.cfg.binds@) == match e.idx {
                Some(i) => binds_view(a.cfg.binds@).update(i as int, saved_bind(binds_view(a.cfg.binds@), e)),
                None => binds_view(a.cfg.binds@).push(saved_bind(binds_view(a.cfg.binds@), e)),
            }
        },
    }
}

/// Every text input sits on a character boundary.
pub open spec fn forms_wf(p: Panel) -> bool {
    &&& p.sway_edit matches Some(e) ==> e.wf()
    &&& p.bar_inputs.wf()
    &&& p.wall_inputs.wf()
    &&& p.lock_inputs.wf()
    &&& p.launch_inputs.wf()
}

/// The forms hold the config's values as a fresh panel shows them: texts as they
/// are, numbers in decimal, the two floating-point fields as `fs` and `ts`.
pub open spec fn forms_from(p: Panel, fs: Seq<char>, ts: Seq<char>) -> bool {
    &&& p.bar_inputs.height.value@ == dec_text(p.cfg.bar.height as nat)
    &&& p.bar_inputs.position.value@ == p.cfg.bar.position@
    &&& p.bar_inputs.background.value@ == p.cfg.bar.background@
    &&& p.bar_inputs.foreground.value@ == p.cfg.bar.foreground@
    &&& p.bar_inputs.accent.value@ == p.cfg.bar.accent@
    &&& p.bar_inputs.dim.value@ == p.cfg.bar.dim@
    &&& p.bar_inputs.font_size.value@ == fs
    &&& p.bar_inputs.use_bubbles.value == (p.cfg.bar.style@ == "bubbles"@)
    &&& p.bar_inputs.wallpaper_theme.value == (p.cfg.bar.theme_source@ == "wallpaper"@)
    &&& p.wall_inputs.path.value@ == p.cfg.wall.path@
    &&& p.wall_inputs.color.value@ == p.cfg.wall.color@
    &&& p.wall_inputs.dir.value@ == p.cfg.wall.dir@
    &&& p.wall_inputs.interval.value@ == dec_text(p.cfg.wall.interval as nat)
    &&& p.wall_inputs.transition_secs.value@ == ts
    &&& p.wall_inputs.kind@ == p.cfg.wall.kind@
    &&& p.lock_inputs.lock_program@ == p.cfg.lock_program@
    &&& p.lock_inputs.dir.value@ == p.cfg.lock.background.dir@
    &&& p.lock_inputs.path.value@ == p.cfg.lock.background.path@
    &&& p.lock_inputs.blur_radius.value@ == dec_text(p.cfg.lock.lock.blur_radius as nat)
    &&& p.lock_inputs.clock_format.value@ == p.cfg.lock.lock.clock_format@
    &&& p.lock_inputs.date_format.value@ == p.cfg.lock.lock.date_format@
    &&& p.lock_inputs.text_color.value@ == p.cfg.lock.lock.text_color@
    &&& p.lock_inputs.accent_color.value@ == p.cfg.lock.lock.accent_color@
    &&& p.lock_inputs.error_color.value@ == p.cfg.lock.lock.error_color@
    &&& p.lock_inputs.fade_in_ms.value@ == dec_text(p.cfg.lock.lock.fade_in_ms as nat)
    &&& p.lock_inputs.bg_kind@ == p.cfg.lock.background.kind@
    &&& p.lock_inputs.show_clock.value == p.cfg.lock.lock.show_clock
    &&& p.lock_inputs.show_date.value == p.cfg.lock.lock.show_date
    &&& p.lock_inputs.shake.value == p.cfg.lock.lock.shake_on_error
    &&& p.launch_inputs.width.value@ == dec_text(p.cfg.launch.launcher.width as nat)
    &&& p.launch_inputs.max_results.value@ == dec_text(p.cfg.launch.launcher.max_results as nat)
    &&& p.launch_inputs.background.value@ == p.cfg.launch.launcher.background@
    &&& p.launch_inputs.panel_bg.value@ == p.cfg.launch.launcher.panel_background@
    &&& p.launch_inputs.text_color.value@ == p.cfg.launch.launcher.text_color@
    &&& p.launch_inputs.text_dim.value@ == p.cfg.launch.launcher.text_dim@
    &&& p.launch_inputs.accent_color.value@ == p.cfg.launch.launcher.accent_color@
    &&& p.launch_inputs.selection.value@ == p.cfg.launch.launcher.selection_color@
    &&& p.launch_inputs.border_color.value@ == p.cfg.launch.launcher.border_color@
    &&& p.launch_inputs.calculator.value == p.cfg.launch.launcher.calculator
    &&& p.launch_inputs.cmd_runner.value == p.cfg.launch.launcher.command_runner
}

fn text_input_of(s: &String) -> (t: TextInput)
    requires
        byte_len(s@) <= usize::MAX,
    ensures
        t.wf() && t.value@ == s@ && !t.focused && t.cursor == byte_len(s@),
{
    let mut v = String::new();
    push_str(&mut v, s.as_str());
    TextInput::new(v)
}

fn number_input(n: u32) -> (t: TextInput)
    ensures
        t.wf() && t.value@ == dec_text(n as nat) && !t.focused,
{
    proof {
        lemma_dec_text_u32(n);
    }
    TextInput::new(decimal(n as u64))
}

/// Every text the panel puts in an input has a byte length a `usize` holds.
pub open spec fn cfg_fits(c: PanelCfg) -> bool {
    &&& byte_len(c.bar.position@) <= usize::MAX
    &&& byte_len(c.bar.background@) <= usize::MAX
    &&& byte_len(c.bar.foreground@) <= usize::MAX
    &&& byte_len(c.bar.accent@) <= usize::MAX
    &&& byte_len(c.bar.dim@) <= usize::MAX
    &&& byte_len(c.wall.path@) <= usize::MAX
    &&& byte_len(c.wall.color@) <= usize::MAX
    &&& byte_len(c.wall.dir@) <= usize::MAX
    &&& byte_len(c.lock.background.dir@) <= usize::MAX
    &&& byte_len(c.lock.background.path@) <= usize::MAX
    &&& byte_len(c.lock.lock.clock_format@) <= usize::MAX
    &&& byte_len(c.lock.lock.date_format@) <= usize::MAX
    &&& byte_len(c.lock.lock.text_color@) <= usize::MAX
    &&& byte_len(c.lock.lock.accent_color@) <= usize::MAX
    &&& byte_len(c.lock.lock.error_color@) <= usize::MAX
    &&& byte_len(c.launch.launcher.background@) <= usize::MAX
    &&& byte_len(c.launch.launcher.panel_background@) <= usize::MAX
    &&& byte_len(c.launch.launcher.text_color@) <= usize::MAX
    &&& byte_len(c.launch.launcher.text_dim@) <= usize::MAX
    &&& byte_len(c.launch.launcher.accent_color@) <= usize::MAX
    &&& byte_len(c.launch.launcher.selection_color@) <= usize::MAX
    &&& byte_len(c.launch.launcher.border_color@) <= usize::MAX
}

impl Panel {
    /// A panel on the Sway tab editing `cfg`; every form starts from the config's
    /// values, numbers in decimal. The bar font size and the wallpaper transition
    /// time are floating-point values, handed in already written out.
    pub fn new(cfg: PanelCfg, font_size: String, transition_secs: String) -> (p: Panel)
        requires
            cfg_fits(cfg),
            byte_len(font_size@) <= usize::MAX,
            byte_len(transition_secs@) <= usize::MAX,
        ensures
            forms_wf(p),
            p.tab == Tab::Sway,
            p.dirty && !p.should_close,
            p.status_msg is None && p.status_timer == 0,
            p.sway_edit is None && p.bar_module_picker is None,
            p.bar_focused is None && p.wall_focused is None && p.lock_focused is None && p.launch_focused is None,
            p.selected_theme@ == "catppuccin"@,
            forms_from(p, font_size@, transition_secs@),
            p.cfg == cfg,
    {
        let bar_inputs = BarInputs {
            height: number_input(cfg.bar.height),
            position: text_input_of(&cfg.bar.position),
            background: text_input_of(&cfg.bar.background),
            foreground: text_input_of(&cfg.bar.foreground),
            accent: text_input_of(&cfg.bar.accent),
            dim: text_input_of(&cfg.bar.dim),
            font_size: TextInput::new(font_size),
            use_bubbles: Toggle::new(str_eq(cfg.bar.style.as_str(), "bubbles")),
            wallpaper_theme: Toggle::new(str_eq(cfg.bar.theme_source.as_str(), "wallpaper")),
        };
        let mut kind = String::new();
        push_str(&mut kind, cfg.wall.kind.as_str());
        let wall_inputs = WallInputs {
            path: text_input_of(&cfg.wall.path),
            color: text_input_of(&cfg.wall.color),
            dir: text_input_of(&cfg.wall.dir),
            interval: number_input(cfg.wall.interval),
            transition_secs: TextInput::new(transition_secs),
            kind,
        };
        let mut program = String::new();
        push_str(&mut program, cfg.lock_program.as_str());
        let mut bg_kind = String::new();
        push_str(&mut bg_kind, cfg.lock.background.kind.as_str());
        let lock_inputs = LockInputs {
            lock_program: program,
            dir: text_input_of(&cfg.lock.background.dir),
            path: text_input_of(&cfg.lock.background.path),
            blur_radius: number_input(cfg.lock.lock.blur_radius),
            clock_format: text_input_of(&cfg.lock.lock.clock_format),
            date_format: text_input_of(&cfg.lock.lock.date_format),
            text_color: text_input_of(&cfg.lock.lock.text_color),
            accent_color: text_input_of(&cfg.lock.lock.accent_color),
            error_color: text_input_of(&cfg.lock.lock.error_color),
            fade_in_ms: number_input(cfg.lock.lock.fade_in_ms),
            bg_kind,
            show_clock: Toggle::new(cfg.lock.lock.show_clock),
            show_date: Toggle::new(cfg.lock.lock.show_date),
            shake: Toggle::new(cfg.lock.lock.shake_on_error),
        };
        let la = &cfg.launch.launcher;
        let launch_inputs = LaunchInputs {
            width: number_input(la.width),
            max_results: number_input(la.max_results),
            background: text_input_of(&la.background),
            panel_bg: text_input_of(&la.panel_background),
            text_color: text_input_of(&la.text_color),
            text_dim: text_input_of(&la.text_dim),
            accent_color: text_input_of(&la.accent_color),
            selection: text_input_of(&la.selection_color),
            border_color: text_input_of(&la.border_color),
            calculator: Toggle::new(la.calculator),
            cmd_runner: Toggle::new(la.command_runner),
        };
        let mut theme = String::new();
        push_str(&mut theme, "catppuccin");
        let p = Panel {
            tab: Tab::Sway,
            cfg,
            dirty: true,
            should_close: false,
            status_msg: None,
            status_timer: 0,
            sway_edit: None,
            bar_module_picker: None,
            bar_focused: None,
            bar_inputs,
            wall_focused: None,
            wall_inputs,
            lock_focused: None,
            lock_inputs,
            launch_focused: None,
            launch_inputs,
            selected_theme: theme,
        };
        assert(p.bar_inputs.wf() && p.wall_inputs.wf() && p.lock_inputs.wf() && p.launch_inputs.wf());
        p
    }

    /// A click outside any field: drops the focus of every tab and stops key capture.
    pub fn unfocus_all(&mut self)
        ensures
            *final(self) == unfocused(*old(self)),
    {
        self.bar_focused = None;
        self.wall_focused = None;
        self.lock_focused = None;
        self.launch_focused = None;
        match &mut self.sway_edit {
            Some(e) => {
                e.key.capturing = false;
            },
            None => {},
        }
        self.dirty = true;
    }

    /// Shows `msg` in the status line for 120 ticks.
    pub fn set_status(&mut self, msg: &str, err: bool)
        ensures
            status_set(*old(self), *final(self), msg@, err),
    {
        let mut s = String::new();
        push_str(&mut s, msg);
        self.status_msg = Some((s, err));
        self.status_timer = 120;
        self.dirty = true;
    }

    /// Counts the status line down; it disappears when the count reaches zero.
    pub fn tick_status(&mut self)
        ensures
            *final(self) == if old(self).status_timer == 0 {
                *old(self)
            } else if old(self).status_timer == 1 {
                Panel { status_timer: 0, status_msg: None, dirty: true, ..*old(self) }
            } else {
                Panel { status_timer: (old(self).status_timer - 1) as u32, ..*old(self) }
            },
    {
        if self.status_timer > 0 {
            self.status_timer = self.status_timer - 1;
            if self.status_timer == 0 {
                self.status_msg = None;
                self.dirty = true;
            }
        }
    }
}

/// The panel after Escape: stop capturing a key combo, else close the editor, else
/// close the module picker, else drop the focus.
pub open spec fn escaped(p: Panel) -> Panel {
    match p.sway_edit {
        Some(e) => if e.key.capturing {
            Panel { sway_edit: stop_capture(p.sway_edit), dirty: true, ..p }
        } else {
            Panel { sway_edit: None, dirty: true, ..p }
        },
        None => if p.bar_module_picker is Some {
            Panel { bar_module_picker: None, dirty: true, ..p }
        } else {
            unfocused(p)
        },
    }
}

/// The panel after Tab: the editor's focus moves on (capturing a key combo exactly
/// when the key field gets the focus).
pub open spec fn tabbed(p: Panel) -> Panel {
    match p.sway_edit {
        Some(e) => Panel {
            sway_edit: Some(SwayEditState {
                focused: next_field(e.focused),
                key: KeyCapture {
                    capturing: match e.focused {
                        SwayField::Key => false,
                        SwayField::Label => e.key.capturing,
                        SwayField::Action => true,
                    },
                    ..e.key
                },
                ..e
            }),
            dirty: true,
            ..p
        },
        None => p,
    }
}

/// The panel after a key combo arrives: while capturing, it becomes the bind's key
/// and the focus moves to the label.
pub open spec fn combo_taken(p: Panel, key: String) -> Panel {
    match p.sway_edit {
        Some(e) => if e.key.capturing {
            Panel {
                sway_edit: Some(SwayEditState {
                    key: KeyCapture { value: key, capturing: false },
                    focused: SwayField::Label,
                    ..e
                }),
                dirty: true,
                ..p
            }
        } else {
            p
        },
        None => p,
    }
}

/// The panel after typing `ch`.
pub open spec fn typed(a: Panel, b: Panel, ch: char) -> bool {
    match active_slot(a) {
        None => b == a,
        Some(s) => {
            &&& b == retyped(a, s, input_at(b, s))
            &&& pushed(input_at(a, s), input_at(b, s), ch)
        },
    }
}

/// The panel after Backspace (`word` false) or Ctrl+Backspace (`word` true).
pub open spec fn backspaced(a: Panel, b: Panel, word: bool) -> bool {
    match active_slot(a) {
        None => b == a,
        Some(s) => {
            &&& b == retyped(a, s, input_at(b, s))
            &&& erased(input_at(a, s), input_at(b, s), word)
        },
    }
}

/// Saving the keybind editor can go ahead: an editor with its key and action both
/// filled in edits no bind, or one that is there (a key or action left empty is
/// refused before any bind is read).
pub open spec fn save_ok(p: Panel) -> bool {
    p.sway_edit matches Some(e) ==> (e.key.value@.len() == 0 || e.action.value@.len() == 0
        || (e.idx matches Some(i) ==> i < p.cfg.binds@.len()))
}

impl Panel {
    /// Types `ch` into the active input, if there is one.
    pub fn handle_char(&mut self, ch: char)
        requires
            forms_wf(*old(self)),
            active_slot(*old(self)) matches Some(s) ==> input_at(*old(self), s).cursor + 4 <= usize::MAX,
        ensures
            forms_wf(*final(self)),
            typed(*old(self), *final(self), ch),
    {
        let ghost a = *self;
        match &mut self.sway_edit {
            Some(e) => {
                if !e.key.capturing {
                    match e.focused {
                        SwayField::Label => {
                            type_into(&mut e.label, ch);
                            self.dirty = true;
                        },
                        SwayField::Action => {
                            type_into(&mut e.action, ch);
                            self.dirty = true;
                        },
                        SwayField::Key => {},
                    }
                }
                return;
            },
            None => {},
        }
        match self.bar_focused {
            Some(f) => {
                self.bar_inputs.type_char(f, ch);
                self.dirty = true;
                return;
            },
            None => {},
        }
        match self.wall_focused {
            Some(f) => {
                self.wall_inputs.type_char(f, ch);
                self.dirty = true;
                return;
            },
            None => {},
        }
        match self.lock_focused {
            Some(f) => {
                if f != LockField::LockProgram {
                    self.lock_inputs.type_char(f, ch);
                    self.dirty = true;
                }
                return;
            },
            None => {},
        }
        match self.launch_focused {
            Some(f) => {
                self.launch_inputs.type_char(f, ch);
                self.dirty = true;
            },
            None => {},
        }
    }

    /// Backspace (or Ctrl+Backspace when `word`) in the active input, if there is one.
    pub fn handle_backspace(&mut self, word: bool)
        requires
            forms_wf(*old(self)),
        ensures
            forms_wf(*final(self)),
            backspaced(*old(self), *final(self), word),
    {
        match &mut self.sway_edit {
            Some(e) => {
                if !e.key.capturing {
                    match e.focused {
                        SwayField::Label => {
                            erase_in(&mut e.label, word);
                            self.dirty = true;
                        },
                        SwayField::Action => {
                            erase_in(&mut e.action, word);
                            self.dirty = true;
                        },
                        SwayField::Key => {},
                    }
                }
                return;
            },
            None => {},
        }
        match self.bar_focused {
            Some(f) => {
                self.bar_inputs.erase(f, word);
                self.dirty = true;
                return;
            },
            None => {},
        }
        match self.wall_focused {
            Some(f) => {
                self.wall_inputs.erase(f, word);
                self.dirty = true;
                return;
            },
            None => {},
        }
        match self.lock_focused {
            Some(f) => {
                if f != LockField::LockProgram {
                    self.lock_inputs.erase(f, word);
                    self.dirty = true;
                }
                return;
            },
            None => {},
        }
        match self.launch_focused {
            Some(f) => {
                self.launch_inputs.erase(f, word);
                self.dirty = true;
            },
            None => {},
        }
    }

    /// Escape: stops a key capture, else closes the editor, else the module picker,
    /// else drops the focus.
    pub fn handle_escape(&mut self)
        ensures
            *final(self) == escaped(*old(self)),
    {
        match &mut self.sway_edit {
            Some(e) => {
                if e.key.capturing {
                    e.key.capturing = false;
                    self.dirty = true;
                    return;
                }
            },
            None => {},
        }
        if self.sway_edit.is_some() {
            self.sway_edit = None;
            self.dirty = true;
            return;
        }
        if self.bar_module_picker.is_some() {
            self.bar_module_picker = None;
            self.dirty = true;
            return;
        }
        self.unfocus_all();
    }

    /// Tab cycles the editor's focus: key combo, label, action, and back.
    pub fn handle_tab_key(&mut self)
        ensures
            *final(self) == tabbed(*old(self)),
    {
        match &mut self.sway_edit {
            Some(e) => {
                e.focused = match e.focused {
                    SwayField::Key => {
                        e.key.capturing = false;
                        SwayField::Label
                    },
                    SwayField::Label => SwayField::Action,
                    SwayField::Action => {
                        e.key.capturing = true;
                        SwayField::Key
                    },
                };
                self.dirty = true;
            },
            None => {},
        }
    }

    /// A captured key combo becomes the bind's key and the focus moves to the label.
    pub fn handle_key_combo(&mut self, key: String)
        ensures
            *final(self) == combo_taken(*old(self), key),
    {
        match &mut self.sway_edit {
            Some(e) => {
                if e.key.capturing {
                    e.key.value = key;
                    e.key.capturing = false;
                    e.focused = SwayField::Label;
                    self.dirty = true;
                }
            },
            None => {},
        }
    }

    /// Saves the keybind editor: a key or action left empty is refused with an error
    /// in the status line; otherwise the bind replaces the one edited (keeping its
    /// category) or is appended in category "apps", and the editor closes.
    pub fn sway_edit_save(&mut self)
        requires
            save_ok(*old(self)),
        ensures
            saved(*old(self), *final(self)),
    {
        let ghost bs0 = binds_view(self.cfg.binds@);
        match &self.sway_edit {
            None => {
                self.dirty = true;
            },
            Some(e) => {
                if e.key.value.as_str().is_empty() || e.action.value.as_str().is_empty() {
                    self.set_status("Key and action cannot be empty", true);
                    return;
                }
                let category = match e.idx {
                    Some(i) => self.cfg.binds[i].category.clone(),
                    None => {
                        let mut c = String::new();
                        push_str(&mut c, "apps");
                        c
                    },
                };
                let bind = Bind {
                    category,
                    key: e.key.value.clone(),
                    label: e.label.value.clone(),
                    action: e.action.value.clone(),
                };
                let ghost bv = bind@;
                let idx = e.idx;
                match idx {
                    Some(i) => {
                        self.cfg.binds.set(i, bind);
                        assert(binds_view(self.cfg.binds@) =~= bs0.update(i as int, bv));
                    },
                    None => {
                        self.cfg.binds.push(bind);
                        assert(binds_view(self.cfg.binds@) =~= bs0.push(bv));
                    },
                }
                self.sway_edit = None;
                self.dirty = true;
            },
        }
    }

    /// Enter saves the keybind editor when it is open.
    pub fn handle_enter(&mut self)
        requires
            save_ok(*old(self)),
        ensures
            old(self).sway_edit is Some ==> saved(*old(self), *final(self)),
            old(self).sway_edit is None ==> *final(self) == *old(self),
    {
        if self.sway_edit.is_some() {
            self.sway_edit_save();
        }
    }
}

/// Backspace undoes a typed character: typing `ch` into whichever field has the focus
/// and pressing Backspace gives back the panel as it was (the field's text and
/// cursor included), except that it is marked for redrawing.
pub proof fn lemma_backspace_undoes_typing(a: Panel, b: Panel, c: Panel, ch: char)
    requires
        forms_wf(a),
        active_slot(a) is Some,
        typed(a, b, ch),
        backspaced(b, c, false),
    ensures
        ({
            let s = active_slot(a).unwrap();
            &&& active_slot(c) == Some(s)
            &&& c == retyped(a, s, input_at(c, s))
            &&& input_at(c, s).value@ == input_at(a, s).value@
            &&& input_at(c, s).cursor == input_at(a, s).cursor
            &&& input_at(c, s).focused == input_at(a, s).focused
        }),
{
    let s = active_slot(a).unwrap();
    lemma_slot_wf(a, s);
    lemma_slot_kept(a, s, input_at(b, s));
    lemma_slot_kept(b, s, input_at(c, s));
    lemma_with_input_twice(a, s, input_at(b, s), input_at(c, s));
    crate::panel_forms::lemma_erase_after_push(input_at(a, s), input_at(b, s), input_at(c, s), ch);
}

/// The input in the active slot sits on a character boundary.
proof fn lemma_slot_wf(p: Panel, s: InputSlot)
    requires
        forms_wf(p),
        active_slot(p) == Some(s),
    ensures
        input_at(p, s).wf(),
{
    match s {
        InputSlot::Bar(f) => assert(p.bar_inputs.field(f).wf()),
        InputSlot::Wall(f) => assert(p.wall_inputs.field(f).wf()),
        InputSlot::Lock(f) => assert(p.lock_inputs.field(f).wf()),
        InputSlot::Launch(f) => assert(p.launch_inputs.field(f).wf()),
        _ => {},
    }
}

/// Replacing the active input keeps it active and puts `t` in it.
proof fn lemma_slot_kept(p: Panel, s: InputSlot, t: TextInput)
    requires
        active_slot(p) == Some(s),
    ensures
        active_slot(retyped(p, s, t)) == Some(s),
        input_at(retyped(p, s, t), s) == t,
{
    match s {
        InputSlot::Bar(f) => assert(p.bar_inputs.with_field(f, t).field(f) == t),
        InputSlot::Wall(f) => assert(p.wall_inputs.with_field(f, t).field(f) == t),
        InputSlot::Lock(f) => assert(p.lock_inputs.with_field(f, t).field(f) == t),
        InputSlot::Launch(f) => assert(p.launch_inputs.with_field(f, t).field(f) == t),
        _ => {},
    }
}

/// Replacing an input twice is replacing it with the second value.
proof fn lemma_with_input_twice(p: Panel, s: InputSlot, x: TextInput, y: TextInput)
    requires
        active_slot(p) == Some(s),
    ensures
        retyped(retyped(p, s, x), s, y) == retyped(p, s, y),
{
    match s {
        InputSlot::Bar(f) => assert(p.bar_inputs.with_field(f, x).with_field(f, y) == p.bar_inputs.with_field(f, y)),
        InputSlot::Wall(f) => assert(p.wall_inputs.with_field(f, x).with_field(f, y) == p.wall_inputs.with_field(f, y)),
        InputSlot::Lock(f) => assert(p.lock_inputs.with_field(f, x).with_field(f, y) == p.lock_inputs.with_field(f, y)),
        InputSlot::Launch(f) => assert(p.launch_inputs.with_field(f, x).with_field(f, y) == p.launch_inputs.with_field(f, y)),
        _ => {},
    }
}

// ── writing the forms back ───────────────────────────────────────────────────

/// A number field's value: the trimmed text parsed as a `u32`, or `old` when it is
/// not one.
pub open spec fn parsed_u32(text: Seq<char>, old: u32) -> u32 {
    match parse_unsigned(trim(text), u32::MAX as nat) {
        Some(n) => n as u32,
        None => old,
    }
}

/// The config after the forms are written back into it (Apply): text fields
/// trimmed, number fields parsed where they hold a number, toggles and choices as
/// set. The bar font size and the wallpaper transition time are left to the caller.
pub open spec fn flushed(a: Panel, b: Panel) -> bool {
    let bi = a.bar_inputs;
    let wi = a.wall_inputs;
    let li = a.lock_inputs;
    let ni = a.launch_inputs;
    let (bar, wall, lock, launch) = (b.cfg.bar, b.cfg.wall, b.cfg.lock, b.cfg.launch.launcher);
    &&& b == Panel { cfg: b.cfg, ..a }
    &&& b.cfg.binds == a.cfg.binds
    &&& bar == BarSettings {
        height: parsed_u32(bi.height.value@, a.cfg.bar.height),
        position: bar.position,
        theme_source: bar.theme_source,
        style: bar.style,
        background: bar.background,
        foreground: bar.foreground,
        accent: bar.accent,
        dim: bar.dim,
        ..a.cfg.bar
    }
    &&& bar.position@ == trim(bi.position.value@)
    &&& bar.background@ == trim(bi.background.value@)
    &&& bar.foreground@ == trim(bi.foreground.value@)
    &&& bar.accent@ == trim(bi.accent.value@)
    &&& bar.dim@ == trim(bi.dim.value@)
    &&& bar.theme_source@ == if bi.wallpaper_theme.value { "wallpaper"@ } else { "config"@ }
    &&& bar.style@ == if bi.use_bubbles.value { "bubbles"@ } else { "solid"@ }
    &&& wall == WallSettings {
        kind: wall.kind,
        path: wall.path,
        color: wall.color,
        dir: wall.dir,
        interval: parsed_u32(wi.interval.value@, a.cfg.wall.interval),
        ..a.cfg.wall
    }
    &&& wall.kind@ == wi.kind@
    &&& wall.path@ == trim(wi.path.value@)
    &&& wall.color@ == trim(wi.color.value@)
    &&& wall.dir@ == trim(wi.dir.value@)
    &&& b.cfg.lock_program@ == li.lock_program@
    &&& lock.background.kind@ == li.bg_kind@
    &&& lock.background.dir@ == trim(li.dir.value@)
    &&& lock.background.path@ == trim(li.path.value@)
    &&& lock.lock == LockSettingsCfg {
        blur_radius: parsed_u32(li.blur_radius.value@, a.cfg.lock.lock.blur_radius),
        fade_in_ms: parsed_u32(li.fade_in_ms.value@, a.cfg.lock.lock.fade_in_ms),
        fade_out_ms: parsed_u32(li.fade_in_ms.value@, a.cfg.lock.lock.fade_out_ms),
        show_clock: li.show_clock.value,
        show_date: li.show_date.value,
        shake_on_error: li.shake.value,
        ..lock.lock
    }
    &&& lock.lock.clock_format@ == trim(li.clock_format.value@)
    &&& lock.lock.date_format@ == trim(li.date_format.value@)
    &&& lock.lock.text_color@ == trim(li.text_color.value@)
    &&& lock.lock.accent_color@ == trim(li.accent_color.value@)
    &&& lock.lock.error_color@ == trim(li.error_color.value@)
    &&& launch == LauncherCfg {
        width: parsed_u32(ni.width.value@, a.cfg.launch.launcher.width),
        max_results: parsed_u32(ni.max_results.value@, a.cfg.launch.launcher.max_results),
        calculator: ni.calculator.value,
        command_runner: ni.cmd_runner.value,
        ..launch
    }
    &&& launch.background@ == trim(ni.background.value@)
    &&& launch.panel_background@ == trim(ni.panel_bg.value@)
    &&& launch.text_color@ == trim(ni.text_color.value@)
    &&& launch.text_dim@ == trim(ni.text_dim.value@)
    &&& launch.accent_color@ == trim(ni.accent_color.value@)
    &&& launch.selection_color@ == trim(ni.selection.value@)
    &&& launch.border_color@ == trim(ni.border_color.value@)
}

/// `s` without leading and trailing white space.
fn trimmed(s: &String) -> (r: String)
    ensures
        r@ == trim(s@),
{
    let v = chars_of(s.as_str());
    let (lo, hi) = trim_range(v.as_slice(), 0, v.len());
    assert(v@.subrange(0, v@.len() as int) == s@);
    string_of(v.as_slice(), lo, hi)
}

/// The value of a number field, or `old`.
fn parse_field(s: &String, old: u32) -> (r: u32)
    ensures
        r == parsed_u32(s@, old),
{
    let t = trimmed(s);
    match parse_unsigned_exec(t.as_str(), 0xffff_ffff) {
        Some(n) => n as u32,
        None => old,
    }
}

fn copied(s: &String) -> (r: String)
    ensures
        r@ == s@,
{
    let mut r = String::new();
    push_str(&mut r, s.as_str());
    r
}

fn lit(s: &str) -> (r: String)
    ensures
        r@ == s@,
{
    let mut r = String::new();
    push_str(&mut r, s);
    r
}

impl Panel {
    /// Writes the forms back into the config.
    pub fn flush_inputs(&mut self)
        ensures
            flushed(*old(self), *final(self)),
    {
        let b = &mut self.cfg.bar;
        b.height = parse_field(&self.bar_inputs.height.value, b.height);
        b.position = trimmed(&self.bar_inputs.position.value);
        b.background = trimmed(&self.bar_inputs.background.value);
        b.foreground = trimmed(&self.bar_inputs.foreground.value);
        b.accent = trimmed(&self.bar_inputs.accent.value);
        b.dim = trimmed(&self.bar_inputs.dim.value);
        b.theme_source = if self.bar_inputs.wallpaper_theme.value { lit("wallpaper") } else { lit("config") };
        b.style = if self.bar_inputs.use_bubbles.value { lit("bubbles") } else { lit("solid") };

        let w = &mut self.cfg.wall;
        w.kind = copied(&self.wall_inputs.kind);
        w.path = trimmed(&self.wall_inputs.path.value);
        w.color = trimmed(&self.wall_inputs.color.value);
        w.dir = trimmed(&self.wall_inputs.dir.value);
        w.interval = parse_field(&self.wall_inputs.interval.value, w.interval);

        self.cfg.lock_program = copied(&self.lock_inputs.lock_program);
        let l = &mut self.cfg.lock;
        l.background.kind = copied(&self.lock_inputs.bg_kind);
        l.background.dir = trimmed(&self.lock_inputs.dir.value);
        l.background.path = trimmed(&self.lock_inputs.path.value);
        l.lock.blur_radius = parse_field(&self.lock_inputs.blur_radius.value, l.lock.blur_radius);
        l.lock.fade_out_ms = parse_field(&self.lock_inputs.fade_in_ms.value, l.lock.fade_out_ms);
        l.lock.fade_in_ms = parse_field(&self.lock_inputs.fade_in_ms.value, l.lock.fade_in_ms);
        l.lock.clock_format = trimmed(&self.lock_inputs.clock_format.value);
        l.lock.date_format = trimmed(&self.lock_inputs.date_format.value);
        l.lock.text_color = trimmed(&self.lock_inputs.text_color.value);
        l.lock.accent_color = trimmed(&self.lock_inputs.accent_color.value);
        l.lock.error_color = trimmed(&self.lock_inputs.error_color.value);
        l.lock.show_clock = self.lock_inputs.show_clock.value;
        l.lock.show_date = self.lock_inputs.show_date.value;
        l.lock.shake_on_error = self.lock_inputs.shake.value;

        let la = &mut self.cfg.launch.launcher;
        la.width = parse_field(&self.launch_inputs.width.value, la.width);
        la.max_results = parse_field(&self.launch_inputs.max_results.value, la.max_results);
        la.background = trimmed(&self.launch_inputs.background.value);
        la.panel_background = trimmed(&self.launch_inputs.panel_bg.value);
        la.text_color = trimmed(&self.launch_inputs.text_color.value);
        la.text_dim = trimmed(&self.launch_inputs.text_dim.value);
        la.accent_color = trimmed(&self.launch_inputs.accent_color.value);
        la.selection_color = trimmed(&self.launch_inputs.selection.value);
        la.border_color = trimmed(&self.launch_inputs.border_color.value);
        la.calculator = self.launch_inputs.calculator.value;
        la.command_runner = self.launch_inputs.cmd_runner.value;
    }
}

/// Two configs hold the same values (texts compared by their characters).
pub open spec fn same_cfg(x: PanelCfg, y: PanelCfg) -> bool {
    let (xb, yb) = (x.bar, y.bar);
    let (xw, yw) = (x.wall, y.wall);
    let (xl, yl) = (x.lock, y.lock);
    let (xn, yn) = (x.launch.launcher, y.launch.launcher);
    &&& x.binds == y.binds
    &&& xb.height == yb.height && xb.radius == yb.radius && xb.bubbles == yb.bubbles
    &&& xb.modules == yb.modules
    &&& xb.position@ == yb.position@ && xb.theme_source@ == yb.theme_source@ && xb.style@ == yb.style@
    &&& xb.background@ == yb.background@ && xb.foreground@ == yb.foreground@
    &&& xb.accent@ == yb.accent@ && xb.dim@ == yb.dim@
    &&& xw.kind@ == yw.kind@ && xw.path@ == yw.path@ && xw.color@ == yw.color@ && xw.dir@ == yw.dir@
    &&& xw.colors == yw.colors && xw.interval == yw.interval && xw.transition == yw.transition
    &&& xw.shuffle == yw.shuffle
    &&& x.lock_program@ == y.lock_program@
    &&& xl.background.kind@ == yl.background.kind@ && xl.background.dir@ == yl.background.dir@
    &&& xl.background.path@ == yl.background.path@
    &&& xl.lock.blur_radius == yl.lock.blur_radius && xl.lock.fade_in_ms == yl.lock.fade_in_ms
    &&& xl.lock.fade_out_ms == yl.lock.fade_out_ms
    &&& xl.lock.show_clock == yl.lock.show_clock && xl.lock.show_date == yl.lock.show_date
    &&& xl.lock.shake_on_error == yl.lock.shake_on_error
    &&& xl.lock.clock_format@ == yl.lock.clock_format@ && xl.lock.date_format@ == yl.lock.date_format@
    &&& xl.lock.text_color@ == yl.lock.text_color@ && xl.lock.accent_color@ == yl.lock.accent_color@
    &&& xl.lock.error_color@ == yl.lock.error_color@
    &&& xn.width == yn.width && xn.max_results == yn.max_results
    &&& xn.calculator == yn.calculator && xn.command_runner == yn.command_runner
    &&& xn.background@ == yn.background@ && xn.panel_background@ == yn.panel_background@
    &&& xn.text_color@ == yn.text_color@ && xn.text_dim@ == yn.text_dim@
    &&& xn.accent_color@ == yn.accent_color@ && xn.selection_color@ == yn.selection_color@
    &&& xn.border_color@ == yn.border_color@
}

/// Pressing Apply twice saves the same config as pressing it once.
pub proof fn lemma_apply_twice_same(a: Panel, b: Panel, c: Panel)
    requires
        flushed(a, b),
        flushed(b, c),
    ensures
        same_cfg(b.cfg, c.cfg),
{
}

/// A text with no white space at either end.
pub open spec fn tidy(s: Seq<char>) -> bool {
    trim(s) == s
}

/// A config the panel shows and writes back unchanged: its texts carry no
/// surrounding white space, its bar style and theme source are ones the panel
/// offers, and its lock fades in and out equally fast.
pub open spec fn cfg_normal(c: PanelCfg) -> bool {
    let (b, l, n) = (c.bar, c.lock, c.launch.launcher);
    &&& tidy(b.position@) && tidy(b.background@) && tidy(b.foreground@) && tidy(b.accent@) && tidy(b.dim@)
    &&& b.style@ == "bubbles"@ || b.style@ == "solid"@
    &&& b.theme_source@ == "wallpaper"@ || b.theme_source@ == "config"@
    &&& tidy(c.wall.path@) && tidy(c.wall.color@) && tidy(c.wall.dir@)
    &&& tidy(l.background.dir@) && tidy(l.background.path@)
    &&& tidy(l.lock.clock_format@) && tidy(l.lock.date_format@)
    &&& tidy(l.lock.text_color@) && tidy(l.lock.accent_color@) && tidy(l.lock.error_color@)
    &&& l.lock.fade_out_ms == l.lock.fade_in_ms
    &&& tidy(n.background@) && tidy(n.panel_background@) && tidy(n.text_color@) && tidy(n.text_dim@)
    &&& tidy(n.accent_color@) && tidy(n.selection_color@) && tidy(n.border_color@)
}

/// Apply on a panel whose forms still show the config they were opened with gives
/// that config back, when the config is in the form the panel writes.
pub proof fn lemma_apply_unedited_keeps_config(a: Panel, b: Panel, fs: Seq<char>, ts: Seq<char>)
    requires
        forms_from(a, fs, ts),
        cfg_normal(a.cfg),
        flushed(a, b),
    ensures
        same_cfg(a.cfg, b.cfg),
{
    lemma_dec_text_parses(a.cfg.bar.height as nat, u32::MAX as nat);
    lemma_dec_text_parses(a.cfg.wall.interval as nat, u32::MAX as nat);
    lemma_dec_text_parses(a.cfg.lock.lock.blur_radius as nat, u32::MAX as nat);
    lemma_dec_text_parses(a.cfg.lock.lock.fade_in_ms as nat, u32::MAX as nat);
    lemma_dec_text_parses(a.cfg.launch.launcher.width as nat, u32::MAX as nat);
    lemma_dec_text_parses(a.cfg.launch.launcher.max_results as nat, u32::MAX as nat);
    reveal_strlit("bubbles");
    reveal_strlit("solid");
    reveal_strlit("wallpaper");
    reveal_strlit("config");
}

// ── clicks and keys ──────────────────────────────────────────────────────────

/// Only the module lists of the bar config and the picker differ between `u` and `b`.
pub open spec fn modules_edited(u: Panel, b: Panel) -> bool {
    b == Panel {
        cfg: PanelCfg { bar: BarSettings { modules: b.cfg.bar.modules, ..u.cfg.bar }, ..u.cfg },
        bar_module_picker: b.bar_module_picker,
        ..u
    }
}

/// What pressing a click zone does to the panel `u` (already unfocused).
pub open spec fn acted(u: Panel, action: ZoneAction, b: Panel) -> bool {
    match action {
        ZoneAction::SelectTab(t) => b == Panel { tab: t, sway_edit: None, bar_module_picker: None, ..u },
        ZoneAction::Close => b == Panel { should_close: true, ..u },
        ZoneAction::Apply => flushed(u, b),
        ZoneAction::SwayEdit(i) => {
            &&& b == Panel { sway_edit: b.sway_edit, ..u }
            &&& b.sway_edit matches Some(e) && e.wf() && e.idx == Some(i) && !e.key.capturing
                && e.key.value@ == u.cfg.binds@[i as int].key@
                && e.label.value@ == u.cfg.binds@[i as int].label@
                && e.action.value@ == u.cfg.binds@[i as int].action@
                && e.focused == SwayField::Key
        },
        ZoneAction::SwayDelete(i) => {
            &&& b == Panel { cfg: PanelCfg { binds: b.cfg.binds, ..u.cfg }, ..u }
            &&& b.cfg.binds@ == u.cfg.binds@.remove(i as int)
        },
        ZoneAction::SwayAdd => {
            &&& b == Panel { sway_edit: b.sway_edit, ..u }
            &&& b.sway_edit matches Some(e) && e.wf() && e.idx is None && !e.key.capturing
                && e.key.value@.len() == 0 && e.label.value@.len() == 0 && e.action.value@.len() == 0
                && e.focused == SwayField::Key
        },
        ZoneAction::SwayEditField(f) => b == Panel {
            sway_edit: match u.sway_edit {
                Some(e) => Some(SwayEditState {
                    focused: f,
                    key: KeyCapture { capturing: e.key.capturing || f == SwayField::Key, ..e.key },
                    ..e
                }),
                None => None,
            },
            ..u
        },
        ZoneAction::SwayEditSave => saved(u, b),
        ZoneAction::SwayEditCancel => b == Panel { sway_edit: None, ..u },
        ZoneAction::BarModuleRemove { slot, idx } => {
            &&& modules_edited(u, b)
            &&& b.bar_module_picker == u.bar_module_picker
            &&& forall|t: BarSlot| t != slot ==> b.cfg.bar.modules.slot(t) == u.cfg.bar.modules.slot(t)
            &&& b.cfg.bar.modules.slot(slot) == if idx < u.cfg.bar.modules.slot(slot).len() {
                u.cfg.bar.modules.slot(slot).remove(idx as int)
            } else {
                u.cfg.bar.modules.slot(slot)
            }
        },
        ZoneAction::BarModuleAdd(slot) => b == Panel { bar_module_picker: Some(slot), ..u },
        ZoneAction::BarModulePicker(name) => {
            &&& modules_edited(u, b)
            &&& b.bar_module_picker is None
            &&& match u.bar_module_picker {
                Some(s) => b.cfg.bar.modules.slot(s) == u.cfg.bar.modules.slot(s).push(name)
                    && forall|t: BarSlot| t != s ==> b.cfg.bar.modules.slot(t) == u.cfg.bar.modules.slot(t),
                None => b.cfg.bar.modules == u.cfg.bar.modules,
            }
        },
        ZoneAction::BarModulePickerClose => b == Panel { bar_module_picker: None, ..u },
        ZoneAction::BarFieldFocus(f) => b == Panel { bar_focused: Some(f), ..u },
        ZoneAction::BarToggle(f) => b == Panel {
            bar_inputs: match f {
                BarToggleField::Bubbles => BarInputs {
                    use_bubbles: Toggle { value: !u.bar_inputs.use_bubbles.value },
                    ..u.bar_inputs
                },
                BarToggleField::WallpaperTheme => BarInputs {
                    wallpaper_theme: Toggle { value: !u.bar_inputs.wallpaper_theme.value },
                    ..u.bar_inputs
                },
            },
            ..u
        },
        ZoneAction::WallKindSelect(k) => b == Panel { wall_inputs: WallInputs { kind: k, ..u.wall_inputs }, ..u },
        ZoneAction::WallFieldFocus(f) => b == Panel { wall_focused: Some(f), ..u },
        ZoneAction::LockProgramSelect(p) => b == Panel {
            lock_inputs: LockInputs { lock_program: p, ..u.lock_inputs },
            ..u
        },
        ZoneAction::LockBgKindSelect(k) => b == Panel { lock_inputs: LockInputs { bg_kind: k, ..u.lock_inputs }, ..u },
        ZoneAction::LockFieldFocus(f) => b == Panel { lock_focused: Some(f), ..u },
        ZoneAction::LockToggle(f) => b == Panel {
            lock_inputs: match f {
                LockToggleField::ShowClock => LockInputs {
                    show_clock: Toggle { value: !u.lock_inputs.show_clock.value },
                    ..u.lock_inputs
                },
                LockToggleField::ShowDate => LockInputs {
                    show_date: Toggle { value: !u.lock_inputs.show_date.value },
                    ..u.lock_inputs
                },
                LockToggleField::ShakeOnError => LockInputs {
                    shake: Toggle { value: !u.lock_inputs.shake.value },
                    ..u.lock_inputs
                },
            },
            ..u
        },
        ZoneAction::LaunchFieldFocus(f) => b == Panel { launch_focused: Some(f), ..u },
        ZoneAction::LaunchToggle(f) => b == Panel {
            launch_inputs: match f {
                LaunchToggleField::Calculator => LaunchInputs {
                    calculator: Toggle { value: !u.launch_inputs.calculator.value },
                    ..u.launch_inputs
                },
                LaunchToggleField::CommandRunner => LaunchInputs {
                    cmd_runner: Toggle { value: !u.launch_inputs.cmd_runner.value },
                    ..u.launch_inputs
                },
            },
            ..u
        },
        ZoneAction::ThemeSelect(name) => b == Panel { selected_theme: name, ..u },
    }
}

/// A click the panel can act on: editing or deleting a bind needs the bind to be
/// there (and its label and action to fit in memory), saving a filled-in editor needs
/// the edited bind to be there.
pub open spec fn action_ok(p: Panel, action: ZoneAction) -> bool {
    match action {
        ZoneAction::SwayEdit(i) => i < p.cfg.binds@.len()
            && byte_len(p.cfg.binds@[i as int].label@) <= usize::MAX
            && byte_len(p.cfg.binds@[i as int].action@) <= usize::MAX,
        ZoneAction::SwayDelete(i) => i < p.cfg.binds@.len(),
        ZoneAction::SwayEditSave => save_ok(p),
        _ => true,
    }
}

/// What a key does to the panel.
pub open spec fn handled(a: Panel, input: Input, b: Panel) -> bool {
    match input {
        Input::Char(ch) => typed(a, b, ch),
        Input::Backspace => backspaced(a, b, false),
        Input::CtrlBackspace => backspaced(a, b, true),
        Input::Enter => if a.sway_edit is Some { saved(a, b) } else { b == a },
        Input::Escape => b == escaped(a),
        Input::Tab => b == tabbed(a),
        Input::Left | Input::Right | Input::Up | Input::Down => b == a,
        Input::KeyCombo { key } => b == combo_taken(a, key),
    }
}

impl Panel {
    /// Whether saving the keybind editor can go ahead (see `save_ok`).
    pub fn can_save(&self) -> (b: bool)
        ensures
            b == save_ok(*self),
    {
        match &self.sway_edit {
            Some(e) => {
                if e.key.value.as_str().is_empty() || e.action.value.as_str().is_empty() {
                    return true;
                }
                match e.idx {
                    Some(i) => i < self.cfg.binds.len(),
                    None => true,
                }
            },
            None => true,
        }
    }

    /// Presses a click zone: the focus is dropped first, then the zone's action is
    /// done. Apply writes the forms back into the config and returns `true`: the
    /// caller then applies a selected theme, saves the current tab's file and
    /// reports the outcome with `set_status`.
    pub fn dispatch_action(&mut self, action: ZoneAction) -> (save: bool)
        requires
            forms_wf(*old(self)),
            action_ok(*old(self), action),
        ensures
            forms_wf(*final(self)),
            acted(unfocused(*old(self)), action, *final(self)),
            save == (action is Apply),
    {
        self.unfocus_all();
        match action {
            ZoneAction::Close => {
                self.should_close = true;
                false
            },
            ZoneAction::Apply => {
                self.flush_inputs();
                true
            },
            ZoneAction::SwayEdit(_) | ZoneAction::SwayDelete(_) | ZoneAction::SwayAdd
            | ZoneAction::SwayEditField(_) | ZoneAction::SwayEditSave | ZoneAction::SwayEditCancel => {
                self.act_sway(action);
                false
            },
            ZoneAction::BarModuleRemove { .. } | ZoneAction::BarModuleAdd(_) | ZoneAction::BarModulePicker(_)
            | ZoneAction::BarModulePickerClose | ZoneAction::BarFieldFocus(_) | ZoneAction::BarToggle(_) => {
                self.act_bar(action);
                false
            },
            _ => {
                self.act_other(action);
                false
            },
        }
    }

    fn act_sway(&mut self, action: ZoneAction)
        requires
            forms_wf(*old(self)),
            old(self).dirty,
            action_ok(*old(self), action),
            action is SwayEdit || action is SwayDelete || action is SwayAdd || action is SwayEditField
                || action is SwayEditSave || action is SwayEditCancel,
        ensures
            forms_wf(*final(self)),
            acted(*old(self), action, *final(self)),
    {
        match action {
            ZoneAction::SwayEdit(i) => {
                let e = SwayEditState::from_bind(i, &self.cfg.binds[i]);
                self.sway_edit = Some(e);
            },
            ZoneAction::SwayDelete(i) => {
                self.cfg.binds.remove(i);
            },
            ZoneAction::SwayAdd => {
                self.sway_edit = Some(SwayEditState::new_add());
            },
            ZoneAction::SwayEditField(f) => {
                match &mut self.sway_edit {
                    Some(e) => {
                        e.focused = f;
                        if f == SwayField::Key {
                            e.key.capturing = true;
                        }
                    },
                    None => {},
                }
            },
            ZoneAction::SwayEditSave => {
                self.sway_edit_save();
            },
            ZoneAction::SwayEditCancel => {
                self.sway_edit = None;
            },
            _ => {},
        }
    }

    fn act_bar(&mut self, action: ZoneAction)
        requires
            forms_wf(*old(self)),
            old(self).dirty,
            action is BarModuleRemove || action is BarModuleAdd || action is BarModulePicker
                || action is BarModulePickerClose || action is BarFieldFocus || action is BarToggle,
        ensures
            forms_wf(*final(self)),
            acted(*old(self), action, *final(self)),
    {
        match action {
            ZoneAction::BarModuleRemove { slot, idx } => {
                self.cfg.bar.modules.remove_module(slot, idx);
            },
            ZoneAction::BarModuleAdd(slot) => {
                self.bar_module_picker = Some(slot);
            },
            ZoneAction::BarModulePicker(name) => {
                match self.bar_module_picker {
                    Some(slot) => self.cfg.bar.modules.add_module(slot, name),
                    None => {},
                }
                self.bar_module_picker = None;
            },
            ZoneAction::BarModulePickerClose => {
                self.bar_module_picker = None;
            },
            ZoneAction::BarFieldFocus(f) => {
                self.bar_focused = Some(f);
            },
            ZoneAction::BarToggle(f) => match f {
                BarToggleField::Bubbles => self.bar_inputs.use_bubbles.flip(),
                BarToggleField::WallpaperTheme => self.bar_inputs.wallpaper_theme.flip(),
            },
            _ => {},
        }
    }

    fn act_other(&mut self, action: ZoneAction)
        requires
            forms_wf(*old(self)),
            old(self).dirty,
            !(action is Close || action is Apply || action is SwayEdit || action is SwayDelete
                || action is SwayAdd || action is SwayEditField || action is SwayEditSave
                || action is SwayEditCancel || action is BarModuleRemove || action is BarModuleAdd
                || action is BarModulePicker || action is BarModulePickerClose || action is BarFieldFocus
                || action is BarToggle),
        ensures
            forms_wf(*final(self)),
            acted(*old(self), action, *final(self)),
    {
        match action {
            ZoneAction::SelectTab(t) => {
                self.tab = t;
                self.sway_edit = None;
                self.bar_module_picker = None;
            },
            ZoneAction::WallKindSelect(k) => {
                self.wall_inputs.kind = k;
            },
            ZoneAction::WallFieldFocus(f) => {
                self.wall_focused = Some(f);
            },
            ZoneAction::LockProgramSelect(p) => {
                self.lock_inputs.lock_program = p;
            },
            ZoneAction::LockBgKindSelect(k) => {
                self.lock_inputs.bg_kind = k;
            },
            ZoneAction::LockFieldFocus(f) => {
                self.lock_focused = Some(f);
            },
            ZoneAction::LockToggle(f) => match f {
                LockToggleField::ShowClock => self.lock_inputs.show_clock.flip(),
                LockToggleField::ShowDate => self.lock_inputs.show_date.flip(),
                LockToggleField::ShakeOnError => self.lock_inputs.shake.flip(),
            },
            ZoneAction::LaunchFieldFocus(f) => {
                self.launch_focused = Some(f);
            },
            ZoneAction::LaunchToggle(f) => match f {
                LaunchToggleField::Calculator => self.launch_inputs.calculator.flip(),
                LaunchToggleField::CommandRunner => self.launch_inputs.cmd_runner.flip(),
            },
            ZoneAction::ThemeSelect(name) => {
                self.selected_theme = name;
            },
            _ => {},
        }
    }

    /// Handles a key.
    pub fn handle(&mut self, input: Input)
        requires
            forms_wf(*old(self)),
            input is Enter ==> save_ok(*old(self)),
            input matches Input::Char(_) ==> (active_slot(*old(self)) matches Some(s)
                ==> input_at(*old(self), s).cursor + 4 <= usize::MAX),
        ensures
            forms_wf(*final(self)),
            handled(*old(self), input, *final(self)),
    {
        match input {
            Input::Char(ch) => self.handle_char(ch),
            Input::Backspace => self.handle_backspace(false),
            Input::CtrlBackspace => self.handle_backspace(true),
            Input::Enter => self.handle_enter(),
            Input::Escape => self.handle_escape(),
            Input::Tab => self.handle_tab_key(),
            Input::Left | Input::Right | Input::Up | Input::Down => {},
            Input::KeyCombo { key } => self.handle_key_combo(key),
        }
    }
}

// ── where Apply saves ────────────────────────────────────────────────────────

/// The configuration files the panel writes.
#[derive(Clone, Copy, PartialEq, Eq, Structural)]
pub enum ConfigFile {
    Bar,
    Wall,
    Lock,
    Launch,
    Keybinds,
}

/// The file Apply writes on tab `t`: the Theme tab changes the bar's colours, so it
/// writes the bar's file.
pub open spec fn save_target_spec(t: Tab) -> ConfigFile {
    match t {
        Tab::Bar | Tab::Theme => ConfigFile::Bar,
        Tab::Wall => ConfigFile::Wall,
        Tab::Lock => ConfigFile::Lock,
        Tab::Launch => ConfigFile::Launch,
        Tab::Sway => ConfigFile::Keybinds,
    }
}

impl Panel {
    /// The file Apply writes on the current tab (see `save_target_spec`).
    pub fn save_target(&self) -> (f: ConfigFile)
        ensures
            f == save_target_spec(self.tab),
    {
        match self.tab {
            Tab::Bar | Tab::Theme => ConfigFile::Bar,
            Tab::Wall => ConfigFile::Wall,
            Tab::Lock => ConfigFile::Lock,
            Tab::Launch => ConfigFile::Launch,
            Tab::Sway => ConfigFile::Keybinds,
        }
    }
}

// ── the keybinds tab's click zones ───────────────────────────────────────────

/// The click zones of the keybind editor card: the three fields, Save, Cancel.
pub open spec fn editor_zone_actions() -> Seq<ZoneAction> {
    seq![
        ZoneAction::SwayEditField(SwayField::Key),
        ZoneAction::SwayEditField(SwayField::Label),
        ZoneAction::SwayEditField(SwayField::Action),
        ZoneAction::SwayEditSave,
        ZoneAction::SwayEditCancel,
    ]
}

/// The click zones of the first `n` keybind rows: the row being edited (`edited`)
/// shows the editor card, every other row its Edit and Delete buttons.
pub open spec fn bind_row_actions(n: int, edited: Option<usize>) -> Seq<ZoneAction>
    decreases n,
{
    if n <= 0 {
        Seq::empty()
    } else {
        bind_row_actions(n - 1, edited) + if edited == Some((n - 1) as usize) {
            editor_zone_actions()
        } else {
            seq![ZoneAction::SwayEdit((n - 1) as usize), ZoneAction::SwayDelete((n - 1) as usize)]
        }
    }
}

/// The click zones of the keybinds tab, in the order they are laid out: the rows of
/// the `n` binds, the editor card of a new bind below them when one is being added,
/// and last the "Add bind" button.
pub open spec fn sway_zone_spec(n: int, edit: Option<Option<usize>>) -> Seq<ZoneAction> {
    let edited = match edit {
        Some(Some(i)) => Some(i),
        _ => None,
    };
    bind_row_actions(n, edited) + if edit == Some(Option::<usize>::None) {
        editor_zone_actions()
    } else {
        Seq::empty()
    } + seq![ZoneAction::SwayAdd]
}

fn push_editor_actions(v: &mut Vec<ZoneAction>)
    ensures
        final(v)@ == old(v)@ + editor_zone_actions(),
{
    v.push(ZoneAction::SwayEditField(SwayField::Key));
    v.push(ZoneAction::SwayEditField(SwayField::Label));
    v.push(ZoneAction::SwayEditField(SwayField::Action));
    v.push(ZoneAction::SwayEditSave);
    v.push(ZoneAction::SwayEditCancel);
    assert(final(v)@ =~= old(v)@ + editor_zone_actions());
}

impl Panel {
    /// The click zones of the keybinds tab, in layout order (see `sway_zone_spec`);
    /// the drawing places them.
    pub fn sway_zone_actions(&self) -> (r: Vec<ZoneAction>)
        ensures
            r@ == sway_zone_spec(self.cfg.binds@.len() as int, match self.sway_edit {
                Some(e) => Some(e.idx),
                None => None,
            }),
    {
        let edited: Option<usize> = match &self.sway_edit {
            Some(e) => e.idx,
            None => None,
        };
        let mut r: Vec<ZoneAction> = Vec::new();
        let n = self.cfg.binds.len();
        let mut i: usize = 0;
        while i < n
            invariant
                i <= n == self.cfg.binds@.len(),
                r@ == bind_row_actions(i as int, edited),
            decreases n - i,
        {
            let ghost before = r@;
            let here = match edited {
                Some(j) => j == i,
                None => false,
            };
            if here {
                push_editor_actions(&mut r);
            } else {
                r.push(ZoneAction::SwayEdit(i));
                r.push(ZoneAction::SwayDelete(i));
                assert(r@ =~= before + seq![ZoneAction::SwayEdit(i), ZoneAction::SwayDelete(i)]);
            }
            i = i + 1;
        }
        let adding = match &self.sway_edit {
            Some(e) => e.idx.is_none(),
            None => false,
        };
        let ghost rows = r@;
        if adding {
            push_editor_actions(&mut r);
        } else {
            assert(r@ =~= rows + Seq::<ZoneAction>::empty());
        }
        r.push(ZoneAction::SwayAdd);
        r
    }
}

// ── themes ───────────────────────────────────────────────────────────────────

/// The string the toml crate reads from a TOML text under `[table]` and `key`:
/// `None` where the text is not a TOML table, has no such table, or the key is
/// missing or not a string.
pub uninterp spec fn toml_table_string(content: Seq<char>, table: Seq<char>, key: Seq<char>) -> Option<Seq<char>>;

/// `toml::from_str::<toml::Table>` on `content`, then `get(table)`, `as_table`,
/// `get(key)` and `as_str`; the result is named, not described.
#[verifier::external_body]
fn table_string(content: &str, table: &str, key: &str) -> (r: Option<String>)
    ensures
        match toml_table_string(content@, table@, key@) {
            Some(v) => r matches Some(s) && s@ == v,
            None => r is None,
        },
{
    let parsed: toml::Table = toml::from_str(content).ok()?;
    parsed.get(table)?.as_table()?.get(key)?.as_str().map(|v| v.to_string())
}

/// The bar colours after a theme is applied: each colour the theme sets replaces
/// the bar's, the others stay.
pub open spec fn themed(a: Panel, b: Panel, bg: Option<Seq<char>>, fg: Option<Seq<char>>, accent: Option<Seq<char>>, dim: Option<Seq<char>>) -> bool {
    &&& b == Panel {
        cfg: PanelCfg {
            bar: BarSettings {
                background: b.cfg.bar.background,
                foreground: b.cfg.bar.foreground,
                accent: b.cfg.bar.accent,
                dim: b.cfg.bar.dim,
                ..a.cfg.bar
            },
            ..a.cfg
        },
        ..a
    }
    &&& b.cfg.bar.background@ == match bg { Some(v) => v, None => a.cfg.bar.background@ }
    &&& b.cfg.bar.foreground@ == match fg { Some(v) => v, None => a.cfg.bar.foreground@ }
    &&& b.cfg.bar.accent@ == match accent { Some(v) => v, None => a.cfg.bar.accent@ }
    &&& b.cfg.bar.dim@ == match dim { Some(v) => v, None => a.cfg.bar.dim@ }
}

pub open spec fn opt_view(o: Option<String>) -> Option<Seq<char>> {
    match o {
        Some(v) => Some(v@),
        None => None,
    }
}

impl Panel {
    /// Sets the bar colours a theme names.
    pub fn set_theme_colors(&mut self, bg: Option<String>, fg: Option<String>, accent: Option<String>, dim: Option<String>)
        ensures
            themed(*old(self), *final(self), opt_view(bg), opt_view(fg), opt_view(accent), opt_view(dim)),
    {
        match bg {
            Some(v) => self.cfg.bar.background = v,
            None => {},
        }
        match fg {
            Some(v) => self.cfg.bar.foreground = v,
            None => {},
        }
        match accent {
            Some(v) => self.cfg.bar.accent = v,
            None => {},
        }
        match dim {
            Some(v) => self.cfg.bar.dim = v,
            None => {},
        }
    }

    /// Applies the selected theme file's text (themes/<selected_theme>.toml): its
    /// `[theme]` background, foreground, accent and dim colours go to the bar.
    pub fn apply_theme(&mut self, content: &str)
        ensures
            themed(*old(self), *final(self), toml_table_string(content@, "theme"@, "background"@),
                toml_table_string(content@, "theme"@, "foreground"@),
                toml_table_string(content@, "theme"@, "accent"@),
                toml_table_string(content@, "theme"@, "dim"@)),
    {
        let bg = table_string(content, "theme", "background");
        let fg = table_string(content, "theme", "foreground");
        let accent = table_string(content, "theme", "accent");
        let dim = table_string(content, "theme", "dim");
        self.set_theme_colors(bg, fg, accent, dim);
    }
}

} // verus!
