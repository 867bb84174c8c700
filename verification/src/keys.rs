//! Keyboard handling of the settings panel: modifier prefixes and key names in sway's
//! notation, and how one key press becomes panel input.
use vstd::prelude::*;
use crate::strs::{chars_of, lowercase, push_char, push_str, to_lowercase};

verus! {

// X11 keysym values (keysymdef.h).
pub const KEY_SPACE: u32 = 0x0020;
pub const KEY_APOSTROPHE: u32 = 0x0027;
pub const KEY_COMMA: u32 = 0x002c;
pub const KEY_MINUS: u32 = 0x002d;
pub const KEY_PERIOD: u32 = 0x002e;
pub const KEY_SLASH: u32 = 0x002f;
pub const KEY_SEMICOLON: u32 = 0x003b;
pub const KEY_EQUAL: u32 = 0x003d;
pub const KEY_BRACKETLEFT: u32 = 0x005b;
pub const KEY_BACKSLASH: u32 = 0x005c;
pub const KEY_BRACKETRIGHT: u32 = 0x005d;
pub const KEY_GRAVE: u32 = 0x0060;
pub const KEY_BACKSPACE: u32 = 0xff08;
pub const KEY_TAB: u32 = 0xff09;
pub const KEY_RETURN: u32 = 0xff0d;
pub const KEY_ESCAPE: u32 = 0xff1b;
pub const KEY_HOME: u32 = 0xff50;
pub const KEY_LEFT: u32 = 0xff51;
pub const KEY_UP: u32 = 0xff52;
pub const KEY_RIGHT: u32 = 0xff53;
pub const KEY_DOWN: u32 = 0xff54;
pub const KEY_PAGE_UP: u32 = 0xff55;
pub const KEY_PAGE_DOWN: u32 = 0xff56;
pub const KEY_END: u32 = 0xff57;
pub const KEY_PRINT: u32 = 0xff61;
pub const KEY_KP_ENTER: u32 = 0xff8d;
pub const KEY_F1: u32 = 0xffbe;
pub const KEY_F12: u32 = 0xffc9;
pub const KEY_SHIFT_L: u32 = 0xffe1;
pub const KEY_SUPER_R: u32 = 0xffec;
pub const KEY_DELETE: u32 = 0xffff;

/// The modifiers held down, as the keyboard last reported them.
pub struct TrackedMods {
    pub shift: bool,
    pub ctrl: bool,
    pub super_: bool,
    pub alt: bool,
}

pub open spec fn prefix_spec(m: TrackedMods) -> Seq<char> {
    (if m.super_ { "$mod+"@ } else { Seq::empty() }) + (if m.ctrl { "Ctrl+"@ } else { Seq::empty() })
        + (if m.alt { "Mod1+"@ } else { Seq::empty() }) + (if m.shift { "Shift+"@ } else { Seq::empty() })
}

impl TrackedMods {
    /// No modifier held.
    pub fn new() -> (m: TrackedMods)
        ensures
            !m.shift && !m.ctrl && !m.super_ && !m.alt,
    {
        TrackedMods { shift: false, ctrl: false, super_: false, alt: false }
    }

    /// The sway prefix for the held modifiers, in the order `$mod+`, `Ctrl+`, `Mod1+`, `Shift+`.
    pub fn to_sway_prefix(&self) -> (s: String)
        ensures
            s@ == prefix_spec(*self),
    {
        let mut s = String::new();
        if self.super_ {
            push_str(&mut s, "$mod+");
        }
        if self.ctrl {
            push_str(&mut s, "Ctrl+");
        }
        if self.alt {
            push_str(&mut s, "Mod1+");
        }
        if self.shift {
            push_str(&mut s, "Shift+");
        }
        assert(s@ =~= prefix_spec(*self));
        s
    }
}

/// The F-key names, `F1` to `F12`.
pub open spec fn f_key_name(n: int) -> Seq<char> {
    if n == 1 { "F1"@ } else if n == 2 { "F2"@ } else if n == 3 { "F3"@ } else if n == 4 { "F4"@ }
    else if n == 5 { "F5"@ } else if n == 6 { "F6"@ } else if n == 7 { "F7"@ } else if n == 8 { "F8"@ }
    else if n == 9 { "F9"@ } else if n == 10 { "F10"@ } else if n == 11 { "F11"@ } else { "F12"@ }
}

/// The sway name of a keysym that has one; letters and digits have none.
pub open spec fn sway_key_name(raw: u32) -> Option<Seq<char>> {
    if raw == KEY_RETURN || raw == KEY_KP_ENTER { Some("Return"@) }
    else if raw == KEY_TAB { Some("Tab"@) }
    else if raw == KEY_ESCAPE { Some("Escape"@) }
    else if raw == KEY_SPACE { Some("space"@) }
    else if raw == KEY_BACKSPACE { Some("BackSpace"@) }
    else if raw == KEY_DELETE { Some("Delete"@) }
    else if raw == KEY_LEFT { Some("Left"@) }
    else if raw == KEY_RIGHT { Some("Right"@) }
    else if raw == KEY_UP { Some("Up"@) }
    else if raw == KEY_DOWN { Some("Down"@) }
    else if raw == KEY_HOME { Some("Home"@) }
    else if raw == KEY_END { Some("End"@) }
    else if raw == KEY_PAGE_UP { Some("Page_Up"@) }
    else if raw == KEY_PAGE_DOWN { Some("Page_Down"@) }
    else if KEY_F1 <= raw <= KEY_F12 { Some(f_key_name(raw - KEY_F1 + 1)) }
    else if raw == 0x1008ff11 { Some("XF86AudioLowerVolume"@) }
    else if raw == 0x1008ff13 { Some("XF86AudioRaiseVolume"@) }
    else if raw == 0x1008ff12 { Some("XF86AudioMute"@) }
    else if raw == 0x1008ff14 { Some("XF86AudioPlay"@) }
    else if raw == 0x1008ff17 { Some("XF86AudioNext"@) }
    else if raw == 0x1008ff16 { Some("XF86AudioPrev"@) }
    else if raw == 0x1008ff02 { Some("XF86MonBrightnessUp"@) }
    else if raw == 0x1008ff03 { Some("XF86MonBrightnessDown"@) }
    else if raw == 0x1008ff1b { Some("XF86Search"@) }
    else if raw == KEY_PRINT { Some("Print"@) }
    else if raw == KEY_COMMA { Some("comma"@) }
    else if raw == KEY_PERIOD { Some("period"@) }
    else if raw == KEY_MINUS { Some("minus"@) }
    else if raw == KEY_EQUAL { Some("equal"@) }
    else if raw == KEY_GRAVE { Some("grave"@) }
    else if raw == KEY_BRACKETLEFT { Some("bracketleft"@) }
    else if raw == KEY_BRACKETRIGHT { Some("bracketright"@) }
    else if raw == KEY_SLASH { Some("slash"@) }
    else if raw == KEY_BACKSLASH { Some("backslash"@) }
    else if raw == KEY_SEMICOLON { Some("semicolon"@) }
    else if raw == KEY_APOSTROPHE { Some("apostrophe"@) }
    else { None }
}

fn f_key_str(n: u32) -> (r: &'static str)
    requires
        1 <= n <= 12,
    ensures
        r@ == f_key_name(n as int),
{
    if n == 1 { "F1" } else if n == 2 { "F2" } else if n == 3 { "F3" } else if n == 4 { "F4" }
    else if n == 5 { "F5" } else if n == 6 { "F6" } else if n == 7 { "F7" } else if n == 8 { "F8" }
    else if n == 9 { "F9" } else if n == 10 { "F10" } else if n == 11 { "F11" } else { "F12" }
}

fn key_name_str(raw: u32) -> (r: Option<&'static str>)
    ensures
        match sway_key_name(raw) {
            Some(n) => r matches Some(s) && s@ == n,
            None => r is None,
        },
{
    if raw == KEY_RETURN || raw == KEY_KP_ENTER { Some("Return") }
    else if raw == KEY_TAB { Some("Tab") }
    else if raw == KEY_ESCAPE { Some("Escape") }
    else if raw == KEY_SPACE { Some("space") }
    else if raw == KEY_BACKSPACE { Some("BackSpace") }
    else if raw == KEY_DELETE { Some("Delete") }
    else if raw == KEY_LEFT { Some("Left") }
    else if raw == KEY_RIGHT { Some("Right") }
    else if raw == KEY_UP { Some("Up") }
    else if raw == KEY_DOWN { Some("Down") }
    else if raw == KEY_HOME { Some("Home") }
    else if raw == KEY_END { Some("End") }
    else if raw == KEY_PAGE_UP { Some("Page_Up") }
    else if raw == KEY_PAGE_DOWN { Some("Page_Down") }
    else if KEY_F1 <= raw && raw <= KEY_F12 { Some(f_key_str(raw - KEY_F1 + 1)) }
    else if raw == 0x1008ff11 { Some("XF86AudioLowerVolume") }
    else if raw == 0x1008ff13 { Some("XF86AudioRaiseVolume") }
    else if raw == 0x1008ff12 { Some("XF86AudioMute") }
    else if raw == 0x1008ff14 { Some("XF86AudioPlay") }
    else if raw == 0x1008ff17 { Some("XF86AudioNext") }
    else if raw == 0x1008ff16 { Some("XF86AudioPrev") }
    else if raw == 0x1008ff02 { Some("XF86MonBrightnessUp") }
    else if raw == 0x1008ff03 { Some("XF86MonBrightnessDown") }
    else if raw == 0x1008ff1b { Some("XF86Search") }
    else if raw == KEY_PRINT { Some("Print") }
    else if raw == KEY_COMMA { Some("comma") }
    else if raw == KEY_PERIOD { Some("period") }
    else if raw == KEY_MINUS { Some("minus") }
    else if raw == KEY_EQUAL { Some("equal") }
    else if raw == KEY_GRAVE { Some("grave") }
    else if raw == KEY_BRACKETLEFT { Some("bracketleft") }
    else if raw == KEY_BRACKETRIGHT { Some("bracketright") }
    else if raw == KEY_SLASH { Some("slash") }
    else if raw == KEY_BACKSLASH { Some("backslash") }
    else if raw == KEY_SEMICOLON { Some("semicolon") }
    else if raw == KEY_APOSTROPHE { Some("apostrophe") }
    else { None }
}

/// The sway name of keysym `raw`, for the keys that have one.
pub fn keysym_to_sway_name(raw: u32) -> (r: Option<String>)
    ensures
        match sway_key_name(raw) {
            Some(n) => r matches Some(s) && s@ == n,
            None => r is None,
        },
{
    match key_name_str(raw) {
        Some(n) => {
            let mut s = String::new();
            push_str(&mut s, n);
            assert(s@ == n@);
            Some(s)
        },
        None => None,
    }
}

// ── hexadecimal ──────────────────────────────────────────────────────────────

pub open spec fn hex_digit(d: int) -> char {
    if d < 10 {
        (('0' as int) + d) as char
    } else {
        (('a' as int) + d - 10) as char
    }
}

/// Lower-case hexadecimal digits of `n` without leading zeros (`format!("{:x}", n)`).
pub open spec fn hex_text(n: nat) -> Seq<char>
    decreases n,
{
    if n < 16 {
        seq![hex_digit(n as int)]
    } else {
        hex_text(n / 16).push(hex_digit((n % 16) as int))
    }
}

fn hex_digit_exec(d: u32) -> (c: char)
    requires
        d < 16,
    ensures
        c == hex_digit(d as int),
{
    let digits = ['0', '1', '2', '3', '4', '5', '6', '7', '8', '9', 'a', 'b', 'c', 'd', 'e', 'f'];
    assert(digits@ == seq!['0', '1', '2', '3', '4', '5', '6', '7', '8', '9', 'a', 'b', 'c', 'd', 'e', 'f']);
    digits[d as usize]
}

/// `n` in lower-case hexadecimal.
pub fn hex_string(n: u32) -> (s: String)
    ensures
        s@ == hex_text(n as nat),
    decreases n,
{
    if n < 16 {
        let mut s = String::new();
        push_char(&mut s, hex_digit_exec(n));
        s
    } else {
        let mut s = hex_string(n / 16);
        push_char(&mut s, hex_digit_exec(n % 16));
        s
    }
}

// ── key presses ──────────────────────────────────────────────────────────────

/// Keyboard input to the settings panel.
pub enum KeyInput {
    Char(char),
    Backspace,
    CtrlBackspace,
    Enter,
    Escape,
    Tab,
    Left,
    Right,
    Up,
    Down,
    KeyCombo(String),
}

pub enum KeyInputV {
    Char(char),
    Backspace,
    CtrlBackspace,
    Enter,
    Escape,
    Tab,
    Left,
    Right,
    Up,
    Down,
    KeyCombo(Seq<char>),
}

impl View for KeyInput {
    type V = KeyInputV;

    open spec fn view(&self) -> KeyInputV {
        match self {
            KeyInput::Char(c) => KeyInputV::Char(*c),
            KeyInput::Backspace => KeyInputV::Backspace,
            KeyInput::CtrlBackspace => KeyInputV::CtrlBackspace,
            KeyInput::Enter => KeyInputV::Enter,
            KeyInput::Escape => KeyInputV::Escape,
            KeyInput::Tab => KeyInputV::Tab,
            KeyInput::Left => KeyInputV::Left,
            KeyInput::Right => KeyInputV::Right,
            KeyInput::Up => KeyInputV::Up,
            KeyInput::Down => KeyInputV::Down,
            KeyInput::KeyCombo(s) => KeyInputV::KeyCombo(s@),
        }
    }
}

pub open spec fn inputs_view(v: Seq<KeyInput>) -> Seq<KeyInputV> {
    v.map_values(|k: KeyInput| k@)
}

/// A modifier key on its own (Shift, Control, Meta, Alt, Super; left and right).
pub open spec fn is_modifier_key(raw: u32) -> bool {
    KEY_SHIFT_L <= raw <= KEY_SUPER_R && raw != 0xffe5 && raw != 0xffe6
}

/// `char::is_control`: the C0 and C1 control characters.
pub open spec fn is_control(c: char) -> bool {
    (c as u32) <= 0x1f || (0x7f <= (c as u32) && (c as u32) <= 0x9f)
}

/// The characters of `s` that are not control characters, each as typed input.
pub open spec fn typed_chars(s: Seq<char>) -> Seq<KeyInputV>
    decreases s.len(),
{
    if s.len() == 0 {
        Seq::empty()
    } else if is_control(s.last()) {
        typed_chars(s.drop_last())
    } else {
        typed_chars(s.drop_last()).push(KeyInputV::Char(s.last()))
    }
}

/// The name a captured key combo gets for its key: its sway name, else the lower-cased
/// text it types, else its keysym in hexadecimal.
pub open spec fn combo_key_name(raw: u32, text: Option<Seq<char>>) -> Seq<char> {
    match sway_key_name(raw) {
        Some(n) => n,
        None => match text {
            Some(t) => lowercase(t),
            None => hex_text(raw as nat),
        },
    }
}

/// The panel input produced by one key press.
pub open spec fn key_inputs_spec(capturing: bool, mods: TrackedMods, raw: u32, text: Option<Seq<char>>)
    -> Seq<KeyInputV> {
    if capturing {
        if is_modifier_key(raw) {
            Seq::empty()
        } else {
            seq![KeyInputV::KeyCombo(prefix_spec(mods) + combo_key_name(raw, text))]
        }
    } else if raw == KEY_ESCAPE {
        seq![KeyInputV::Escape]
    } else if raw == KEY_RETURN || raw == KEY_KP_ENTER {
        seq![KeyInputV::Enter]
    } else if raw == KEY_TAB {
        seq![KeyInputV::Tab]
    } else if raw == KEY_BACKSPACE {
        if mods.ctrl { seq![KeyInputV::CtrlBackspace] } else { seq![KeyInputV::Backspace] }
    } else if raw == KEY_LEFT {
        seq![KeyInputV::Left]
    } else if raw == KEY_RIGHT {
        seq![KeyInputV::Right]
    } else if raw == KEY_UP {
        seq![KeyInputV::Up]
    } else if raw == KEY_DOWN {
        seq![KeyInputV::Down]
    } else {
        match text {
            Some(t) => typed_chars(t),
            None => Seq::empty(),
        }
    }
}

fn is_control_char(c: char) -> (b: bool)
    ensures
        b == is_control(c),
{
    let u = c as u32;
    u <= 0x1f || (0x7f <= u && u <= 0x9f)
}

proof fn lemma_inputs_push(ks: Seq<KeyInput>, k: KeyInput)
    ensures
        inputs_view(ks.push(k)) == inputs_view(ks).push(k@),
{
    assert(inputs_view(ks.push(k)) =~= inputs_view(ks).push(k@));
}

fn typed_inputs(t: &str) -> (r: Vec<KeyInput>)
    ensures
        inputs_view(r@) == typed_chars(t@),
{
    let mut r: Vec<KeyInput> = Vec::new();
    let v = chars_of(t);
    let mut i: usize = 0;
    while i < v.len()
        invariant
            i <= v@.len(),
            v@ == t@,
            inputs_view(r@) == typed_chars(v@.take(i as int)),
        decreases v.len() - i,
    {
        assert(v@.take(i + 1).drop_last() == v@.take(i as int));
        assert(v@.take(i + 1).last() == v@[i as int]);
        let ch = v[i];
        if !is_control_char(ch) {
            proof {
                lemma_inputs_push(r@, KeyInput::Char(ch));
            }
            r.push(KeyInput::Char(ch));
        }
        i = i + 1;
    }
    assert(v@.take(v@.len() as int) == v@);
    r
}

/// Turns one key press into panel input. While a key combo is being captured, a
/// non-modifier key becomes the combo (modifier prefix and key name); otherwise
/// editing keys map to their input and other keys type their text.
pub fn key_inputs(capturing: bool, mods: &TrackedMods, raw: u32, text: Option<&str>) -> (r: Vec<KeyInput>)
    ensures
        inputs_view(r@) == key_inputs_spec(capturing, *mods, raw, match text {
            Some(t) => Some(t@),
            None => None,
        }),
{
    let mut r: Vec<KeyInput> = Vec::new();
    if capturing {
        if KEY_SHIFT_L <= raw && raw <= KEY_SUPER_R && raw != 0xffe5 && raw != 0xffe6 {
            assert(inputs_view(r@) =~= Seq::empty());
            return r;
        }
        let name = match keysym_to_sway_name(raw) {
            Some(n) => n,
            None => match text {
                Some(t) => to_lowercase(t),
                None => hex_string(raw),
            },
        };
        let mut combo = mods.to_sway_prefix();
        push_str(&mut combo, name.as_str());
        r.push(KeyInput::KeyCombo(combo));
        assert(inputs_view(r@) =~= seq![r@[0]@]);
        return r;
    }
    if raw == KEY_ESCAPE {
        r.push(KeyInput::Escape);
    } else if raw == KEY_RETURN || raw == KEY_KP_ENTER {
        r.push(KeyInput::Enter);
    } else if raw == KEY_TAB {
        r.push(KeyInput::Tab);
    } else if raw == KEY_BACKSPACE {
        if mods.ctrl {
            r.push(KeyInput::CtrlBackspace);
        } else {
            r.push(KeyInput::Backspace);
        }
    } else if raw == KEY_LEFT {
        r.push(KeyInput::Left);
    } else if raw == KEY_RIGHT {
        r.push(KeyInput::Right);
    } else if raw == KEY_UP {
        r.push(KeyInput::Up);
    } else if raw == KEY_DOWN {
        r.push(KeyInput::Down);
    } else {
        match text {
            Some(t) => {
                return typed_inputs(t);
            },
            None => {
                assert(inputs_view(r@) =~= Seq::empty());
            },
        }
        return r;
    }
    assert(inputs_view(r@) =~= seq![r@[0]@]);
    r
}

} // verus!
