//! The settings panel's forms: the fields of each tab that can take the focus, the
//! text inputs and toggles holding the values being edited, and how typing reaches
//! the focused input.
use vstd::prelude::*;
use crate::panel::edited;
use crate::strs::{byte_len, utf8_width};
use crate::widgets::{TextInput, Toggle, at_char};

verus! {

/// Text input `b` is `a` with `ch` typed at the cursor.
pub open spec fn pushed(a: TextInput, b: TextInput, ch: char) -> bool {
    &&& b.wf()
    &&& b.focused == a.focused
    &&& b.cursor == a.cursor + utf8_width(ch)
    &&& forall|k: int| #[trigger] at_char(a.value@, a.cursor as int, k)
        ==> b.value@ == a.value@.take(k).push(ch) + a.value@.skip(k)
}

/// Text input `b` is `a` after Backspace (`word` false) or Ctrl+Backspace (`word` true).
pub open spec fn erased(a: TextInput, b: TextInput, word: bool) -> bool {
    &&& b.wf()
    &&& b.focused == a.focused
    &&& forall|k: int| #[trigger] at_char(a.value@, a.cursor as int, k)
        ==> edited(a.value@, k, word, b.value@, b.cursor as int)
}

/// Backspace right after typing `ch` restores the text, cursor and focus.
pub proof fn lemma_erase_after_push(a: TextInput, b: TextInput, c: TextInput, ch: char)
    requires
        a.wf(),
        pushed(a, b, ch),
        erased(b, c, false),
    ensures
        c.value@ == a.value@,
        c.cursor == a.cursor,
        c.focused == a.focused,
{
    let k = choose|k: int| 0 <= k <= a.value@.len() && byte_len(#[trigger] a.value@.take(k)) == a.cursor;
    assert(at_char(a.value@, a.cursor as int, k));
    let t = a.value@.take(k).push(ch) + a.value@.skip(k);
    assert(b.value@ == t);
    crate::widgets::lemma_backspace_undoes_push(a.value@, k, ch);
    assert(at_char(b.value@, b.cursor as int, k + 1));
    assert(edited(b.value@, k + 1, false, c.value@, c.cursor as int));
}

/// Types `ch` into `t`.
pub fn type_into(t: &mut TextInput, ch: char)
    requires
        old(t).wf(),
        old(t).cursor + 4 <= usize::MAX,
    ensures
        pushed(*old(t), *final(t), ch),
{
    t.push(ch);
}

/// Backspace or Ctrl+Backspace in `t`.
pub fn erase_in(t: &mut TextInput, word: bool)
    requires
        old(t).wf(),
    ensures
        erased(*old(t), *final(t), word),
{
    let ghost a = *t;
    if word {
        t.delete_word();
    } else {
        t.backspace();
    }
    proof {
        assert forall|k: int| #[trigger] at_char(a.value@, a.cursor as int, k) implies edited(
            a.value@,
            k,
            word,
            t.value@,
            t.cursor as int,
        ) by {
            if !word && k == 0 {
                assert(a.cursor == 0);
            }
        }
    }
}

// ── bar tab ──────────────────────────────────────────────────────────────────

#[derive(Clone, Copy, PartialEq, Eq, Structural)]
pub enum BarField {
    Height,
    Position,
    Background,
    Foreground,
    Accent,
    Dim,
    FontSize,
}

#[derive(Clone, Copy, PartialEq, Eq, Structural)]
pub enum BarToggleField {
    Bubbles,
    WallpaperTheme,
}

pub struct BarInputs {
    pub height: TextInput,
    pub position: TextInput,
    pub background: TextInput,
    pub foreground: TextInput,
    pub accent: TextInput,
    pub dim: TextInput,
    pub font_size: TextInput,
    pub use_bubbles: Toggle,
    pub wallpaper_theme: Toggle,
}

impl BarInputs {
    pub open spec fn field(self, f: BarField) -> TextInput {
        match f {
            BarField::Height => self.height,
            BarField::Position => self.position,
            BarField::Background => self.background,
            BarField::Foreground => self.foreground,
            BarField::Accent => self.accent,
            BarField::Dim => self.dim,
            BarField::FontSize => self.font_size,
        }
    }

    pub open spec fn with_field(self, f: BarField, t: TextInput) -> BarInputs {
        match f {
            BarField::Height => BarInputs { height: t, ..self },
            BarField::Position => BarInputs { position: t, ..self },
            BarField::Background => BarInputs { background: t, ..self },
            BarField::Foreground => BarInputs { foreground: t, ..self },
            BarField::Accent => BarInputs { accent: t, ..self },
            BarField::Dim => BarInputs { dim: t, ..self },
            BarField::FontSize => BarInputs { font_size: t, ..self },
        }
    }

    pub open spec fn wf(self) -> bool {
        &&& self.height.wf()
        &&& self.position.wf()
        &&& self.background.wf()
        &&& self.foreground.wf()
        &&& self.accent.wf()
        &&& self.dim.wf()
        &&& self.font_size.wf()
    }

    /// Types `ch` into field `f`.
    pub fn type_char(&mut self, f: BarField, ch: char)
        requires
            old(self).wf(),
            old(self).field(f).cursor + 4 <= usize::MAX,
        ensures
            final(self).wf(),
            *final(self) == old(self).with_field(f, final(self).field(f)),
            pushed(old(self).field(f), final(self).field(f), ch),
    {
        assert(self.field(f).wf() && self.field(f).cursor + 4 <= usize::MAX);
        match f {
            BarField::Height => type_into(&mut self.height, ch),
            BarField::Position => type_into(&mut self.position, ch),
            BarField::Background => type_into(&mut self.background, ch),
            BarField::Foreground => type_into(&mut self.foreground, ch),
            BarField::Accent => type_into(&mut self.accent, ch),
            BarField::Dim => type_into(&mut self.dim, ch),
            BarField::FontSize => type_into(&mut self.font_size, ch),
        }
    }

    /// Backspace or Ctrl+Backspace in field `f`.
    pub fn erase(&mut self, f: BarField, word: bool)
        requires
            old(self).wf(),
        ensures
            final(self).wf(),
            *final(self) == old(self).with_field(f, final(self).field(f)),
            erased(old(self).field(f), final(self).field(f), word),
    {
        assert(self.field(f).wf());
        match f {
            BarField::Height => erase_in(&mut self.height, word),
            BarField::Position => erase_in(&mut self.position, word),
            BarField::Background => erase_in(&mut self.background, word),
            BarField::Foreground => erase_in(&mut self.foreground, word),
            BarField::Accent => erase_in(&mut self.accent, word),
            BarField::Dim => erase_in(&mut self.dim, word),
            BarField::FontSize => erase_in(&mut self.font_size, word),
        }
    }
}

// ── wall tab ─────────────────────────────────────────────────────────────────

#[derive(Clone, Copy, PartialEq, Eq, Structural)]
pub enum WallField {
    Path,
    Color,
    Dir,
    Interval,
    TransitionSecs,
}

pub struct WallInputs {
    pub path: TextInput,
    pub color: TextInput,
    pub dir: TextInput,
    pub interval: TextInput,
    pub transition_secs: TextInput,
    pub kind: String,
}

impl WallInputs {
    pub open spec fn field(self, f: WallField) -> TextInput {
        match f {
            WallField::Path => self.path,
            WallField::Color => self.color,
            WallField::Dir => self.dir,
            WallField::Interval => self.interval,
            WallField::TransitionSecs => self.transition_secs,
        }
    }

    pub open spec fn with_field(self, f: WallField, t: TextInput) -> WallInputs {
        match f {
            WallField::Path => WallInputs { path: t, ..self },
            WallField::Color => WallInputs { color: t, ..self },
            WallField::Dir => WallInputs { dir: t, ..self },
            WallField::Interval => WallInputs { interval: t, ..self },
            WallField::TransitionSecs => WallInputs { transition_secs: t, ..self },
        }
    }

    pub open spec fn wf(self) -> bool {
        &&& self.path.wf()
        &&& self.color.wf()
        &&& self.dir.wf()
        &&& self.interval.wf()
        &&& self.transition_secs.wf()
    }

    /// Types `ch` into field `f`.
    pub fn type_char(&mut self, f: WallField, ch: char)
        requires
            old(self).wf(),
            old(self).field(f).cursor + 4 <= usize::MAX,
        ensures
            final(self).wf(),
            *final(self) == old(self).with_field(f, final(self).field(f)),
            pushed(old(self).field(f), final(self).field(f), ch),
    {
        assert(self.field(f).wf() && self.field(f).cursor + 4 <= usize::MAX);
        match f {
            WallField::Path => type_into(&mut self.path, ch),
            WallField::Color => type_into(&mut self.color, ch),
            WallField::Dir => type_into(&mut self.dir, ch),
            WallField::Interval => type_into(&mut self.interval, ch),
            WallField::TransitionSecs => type_into(&mut self.transition_secs, ch),
        }
    }

    /// Backspace or Ctrl+Backspace in field `f`.
    pub fn erase(&mut self, f: WallField, word: bool)
        requires
            old(self).wf(),
        ensures
            final(self).wf(),
            *final(self) == old(self).with_field(f, final(self).field(f)),
            erased(old(self).field(f), final(self).field(f), word),
    {
        assert(self.field(f).wf());
        match f {
            WallField::Path => erase_in(&mut self.path, word),
            WallField::Color => erase_in(&mut self.color, word),
            WallField::Dir => erase_in(&mut self.dir, word),
            WallField::Interval => erase_in(&mut self.interval, word),
            WallField::TransitionSecs => erase_in(&mut self.transition_secs, word),
        }
    }
}

// ── lock tab ─────────────────────────────────────────────────────────────────

/// A field of the lock tab; the lock program is chosen from a list, not typed.
#[derive(Clone, Copy, PartialEq, Eq, Structural)]
pub enum LockField {
    Dir,
    Path,
    BlurRadius,
    ClockFormat,
    DateFormat,
    TextColor,
    AccentColor,
    ErrorColor,
    FadeInMs,
    LockProgram,
}

#[derive(Clone, Copy, PartialEq, Eq, Structural)]
pub enum LockToggleField {
    ShowClock,
    ShowDate,
    ShakeOnError,
}

pub struct LockInputs {
    pub lock_program: String,
    pub dir: TextInput,
    pub path: TextInput,
    pub blur_radius: TextInput,
    pub clock_format: TextInput,
    pub date_format: TextInput,
    pub text_color: TextInput,
    pub accent_color: TextInput,
    pub error_color: TextInput,
    pub fade_in_ms: TextInput,
    pub bg_kind: String,
    pub show_clock: Toggle,
    pub show_date: Toggle,
    pub shake: Toggle,
}

impl LockInputs {
    pub open spec fn field(self, f: LockField) -> TextInput {
        match f {
            LockField::Dir => self.dir,
            LockField::Path => self.path,
            LockField::BlurRadius => self.blur_radius,
            LockField::ClockFormat => self.clock_format,
            LockField::DateFormat => self.date_format,
            LockField::TextColor => self.text_color,
            LockField::AccentColor => self.accent_color,
            LockField::ErrorColor => self.error_color,
            LockField::FadeInMs => self.fade_in_ms,
            LockField::LockProgram => self.dir,
        }
    }

    pub open spec fn with_field(self, f: LockField, t: TextInput) -> LockInputs {
        match f {
            LockField::Dir => LockInputs { dir: t, ..self },
            LockField::Path => LockInputs { path: t, ..self },
            LockField::BlurRadius => LockInputs { blur_radius: t, ..self },
            LockField::ClockFormat => LockInputs { clock_format: t, ..self },
            LockField::DateFormat => LockInputs { date_format: t, ..self },
            LockField::TextColor => LockInputs { text_color: t, ..self },
            LockField::AccentColor => LockInputs { accent_color: t, ..self },
            LockField::ErrorColor => LockInputs { error_color: t, ..self },
            LockField::FadeInMs => LockInputs { fade_in_ms: t, ..self },
            LockField::LockProgram => self,
        }
    }

    pub open spec fn wf(self) -> bool {
        &&& self.dir.wf()
        &&& self.path.wf()
        &&& self.blur_radius.wf()
        &&& self.clock_format.wf()
        &&& self.date_format.wf()
        &&& self.text_color.wf()
        &&& self.accent_color.wf()
        &&& self.error_color.wf()
        &&& self.fade_in_ms.wf()
    }

    /// Types `ch` into field `f`.
    pub fn type_char(&mut self, f: LockField, ch: char)
        requires
            old(self).wf(),
            old(self).field(f).cursor + 4 <= usize::MAX,
            f != LockField::LockProgram,
        ensures
            final(self).wf(),
            *final(self) == old(self).with_field(f, final(self).field(f)),
            pushed(old(self).field(f), final(self).field(f), ch),
    {
        assert(self.field(f).wf() && self.field(f).cursor + 4 <= usize::MAX);
        match f {
            LockField::Dir => type_into(&mut self.dir, ch),
            LockField::Path => type_into(&mut self.path, ch),
            LockField::BlurRadius => type_into(&mut self.blur_radius, ch),
            LockField::ClockFormat => type_into(&mut self.clock_format, ch),
            LockField::DateFormat => type_into(&mut self.date_format, ch),
            LockField::TextColor => type_into(&mut self.text_color, ch),
            LockField::AccentColor => type_into(&mut self.accent_color, ch),
            LockField::ErrorColor => type_into(&mut self.error_color, ch),
            LockField::FadeInMs => type_into(&mut self.fade_in_ms, ch),
            LockField::LockProgram => {},
        }
    }

    /// Backspace or Ctrl+Backspace in field `f`.
    pub fn erase(&mut self, f: LockField, word: bool)
        requires
            old(self).wf(),
            f != LockField::LockProgram,
        ensures
            final(self).wf(),
            *final(self) == old(self).with_field(f, final(self).field(f)),
            erased(old(self).field(f), final(self).field(f), word),
    {
        assert(self.field(f).wf());
        match f {
            LockField::Dir => erase_in(&mut self.dir, word),
            LockField::Path => erase_in(&mut self.path, word),
            LockField::BlurRadius => erase_in(&mut self.blur_radius, word),
            LockField::ClockFormat => erase_in(&mut self.clock_format, word),
            LockField::DateFormat => erase_in(&mut self.date_format, word),
            LockField::TextColor => erase_in(&mut self.text_color, word),
            LockField::AccentColor => erase_in(&mut self.accent_color, word),
            LockField::ErrorColor => erase_in(&mut self.error_color, word),
            LockField::FadeInMs => erase_in(&mut self.fade_in_ms, word),
            LockField::LockProgram => {},
        }
    }
}

// ── launch tab ───────────────────────────────────────────────────────────────

#[derive(Clone, Copy, PartialEq, Eq, Structural)]
pub enum LaunchField {
    Width,
    MaxResults,
    Background,
    PanelBg,
    TextColor,
    TextDim,
    AccentColor,
    SelectionColor,
    BorderColor,
}

#[derive(Clone, Copy, PartialEq, Eq, Structural)]
pub enum LaunchToggleField {
    Calculator,
    CommandRunner,
}

pub struct LaunchInputs {
    pub width: TextInput,
    pub max_results: TextInput,
    pub background: TextInput,
    pub panel_bg: TextInput,
    pub text_color: TextInput,
    pub text_dim: TextInput,
    pub accent_color: TextInput,
    pub selection: TextInput,
    pub border_color: TextInput,
    pub calculator: Toggle,
    pub cmd_runner: Toggle,
}

impl LaunchInputs {
    pub open spec fn field(self, f: LaunchField) -> TextInput {
        match f {
            LaunchField::Width => self.width,
            LaunchField::MaxResults => self.max_results,
            LaunchField::Background => self.background,
            LaunchField::PanelBg => self.panel_bg,
            LaunchField::TextColor => self.text_color,
            LaunchField::TextDim => self.text_dim,
            LaunchField::AccentColor => self.accent_color,
            LaunchField::SelectionColor => self.selection,
            LaunchField::BorderColor => self.border_color,
        }
    }

    pub open spec fn with_field(self, f: LaunchField, t: TextInput) -> LaunchInputs {
        match f {
            LaunchField::Width => LaunchInputs { width: t, ..self },
            LaunchField::MaxResults => LaunchInputs { max_results: t, ..self },
            LaunchField::Background => LaunchInputs { background: t, ..self },
            LaunchField::PanelBg => LaunchInputs { panel_bg: t, ..self },
            LaunchField::TextColor => LaunchInputs { text_color: t, ..self },
            LaunchField::TextDim => LaunchInputs { text_dim: t, ..self },
            LaunchField::AccentColor => LaunchInputs { accent_color: t, ..self },
            LaunchField::SelectionColor => LaunchInputs { selection: t, ..self },
            LaunchField::BorderColor => LaunchInputs { border_color: t, ..self },
        }
    }

    pub open spec fn wf(self) -> bool {
        &&& self.width.wf()
        &&& self.max_results.wf()
        &&& self.background.wf()
        &&& self.panel_bg.wf()
        &&& self.text_color.wf()
        &&& self.text_dim.wf()
        &&& self.accent_color.wf()
        &&& self.selection.wf()
        &&& self.border_color.wf()
    }

    /// Types `ch` into field `f`.
    pub fn type_char(&mut self, f: LaunchField, ch: char)
        requires
            old(self).wf(),
            old(self).field(f).cursor + 4 <= usize::MAX,
        ensures
            final(self).wf(),
            *final(self) == old(self).with_field(f, final(self).field(f)),
            pushed(old(self).field(f), final(self).field(f), ch),
    {
        assert(self.field(f).wf() && self.field(f).cursor + 4 <= usize::MAX);
        match f {
            LaunchField::Width => type_into(&mut self.width, ch),
            LaunchField::MaxResults => type_into(&mut self.max_results, ch),
            LaunchField::Background => type_into(&mut self.background, ch),
            LaunchField::PanelBg => type_into(&mut self.panel_bg, ch),
            LaunchField::TextColor => type_into(&mut self.text_color, ch),
            LaunchField::TextDim => type_into(&mut self.text_dim, ch),
            LaunchField::AccentColor => type_into(&mut self.accent_color, ch),
            LaunchField::SelectionColor => type_into(&mut self.selection, ch),
            LaunchField::BorderColor => type_into(&mut self.border_color, ch),
        }
    }

    /// Backspace or Ctrl+Backspace in field `f`.
    pub fn erase(&mut self, f: LaunchField, word: bool)
        requires
            old(self).wf(),
        ensures
            final(self).wf(),
            *final(self) == old(self).with_field(f, final(self).field(f)),
            erased(old(self).field(f), final(self).field(f), word),
    {
        assert(self.field(f).wf());
        match f {
            LaunchField::Width => erase_in(&mut self.width, word),
            LaunchField::MaxResults => erase_in(&mut self.max_results, word),
            LaunchField::Background => erase_in(&mut self.background, word),
            LaunchField::PanelBg => erase_in(&mut self.panel_bg, word),
            LaunchField::TextColor => erase_in(&mut self.text_color, word),
            LaunchField::TextDim => erase_in(&mut self.text_dim, word),
            LaunchField::AccentColor => erase_in(&mut self.accent_color, word),
            LaunchField::SelectionColor => erase_in(&mut self.selection, word),
            LaunchField::BorderColor => erase_in(&mut self.border_color, word),
        }
    }
}

} // verus!
