//! The lock screen's state machine: password entry, verification, the error shake
//! and the unlock fade. Times are milliseconds on a monotonic clock, passed in.
use vstd::prelude::*;
use crate::strs::{chars_of, push_char, push_str, starts_with, starts_with_chars, str_eq, string_of};

verus! {

/// What the lock screen is doing.
#[derive(Clone, Copy, PartialEq, Eq, Structural)]
pub enum LockPhase {
    FadeIn,
    Idle,
    Typing,
    Verifying,
    Error,
    Unlocking,
}

/// Keyboard input on the lock screen.
pub enum LockInput {
    Char(char),
    Backspace,
    Enter,
    Escape,
}

/// Outcome of a PAM authentication.
pub enum AuthResult {
    Success,
    Failed,
    Error(String),
}

/// Where the lock screen's background comes from.
pub enum BackgroundSettings {
    /// A single image.
    Image { path: String },
    /// A random image from a directory, picked on each lock.
    Random { dir: String },
}

impl Default for BackgroundSettings {
    fn default() -> (b: BackgroundSettings)
        ensures
            b matches BackgroundSettings::Random { dir } && dir@ == "~/Pictures/Wallpapers"@,
    {
        let mut dir = String::new();
        push_str(&mut dir, "~/Pictures/Wallpapers");
        BackgroundSettings::Random { dir }
    }
}

/// The `[lock]` table of lock.toml.
pub struct LockSettings {
    pub blur_radius: u32,
    pub show_clock: bool,
    pub clock_format: String,
    pub show_date: bool,
    pub date_format: String,
    pub text_color: String,
    pub accent_color: String,
    pub error_color: String,
    pub fade_in_ms: u32,
    pub fade_out_ms: u32,
    pub shake_on_error: bool,
}

fn string_from(s: &str) -> (r: String)
    ensures
        r@ == s@,
{
    let mut r = String::new();
    push_str(&mut r, s);
    r
}

impl Default for LockSettings {
    fn default() -> (s: LockSettings)
        ensures
            s.blur_radius == 20 && s.show_clock && s.show_date && s.shake_on_error,
            s.clock_format@ == "%H:%M"@ && s.date_format@ == "%A, %B %e"@,
            s.text_color@ == "#cdd6f4"@ && s.accent_color@ == "#cba6f7"@,
            s.error_color@ == "#f07178"@,
            s.fade_in_ms == 200 && s.fade_out_ms == 200,
    {
        LockSettings {
            blur_radius: 20,
            show_clock: true,
            clock_format: string_from("%H:%M"),
            show_date: true,
            date_format: string_from("%A, %B %e"),
            text_color: string_from("#cdd6f4"),
            accent_color: string_from("#cba6f7"),
            error_color: string_from("#f07178"),
            fade_in_ms: 200,
            fade_out_ms: 200,
            shake_on_error: true,
        }
    }
}

/// The whole lock.toml.
pub struct LockConfig {
    pub lock: LockSettings,
    pub background: BackgroundSettings,
}

impl Default for LockConfig {
    fn default() -> (c: LockConfig)
        ensures
            c.lock.blur_radius == 20 && c.lock.fade_in_ms == 200 && c.lock.fade_out_ms == 200,
            c.background matches BackgroundSettings::Random { dir } && dir@ == "~/Pictures/Wallpapers"@,
    {
        LockConfig { lock: LockSettings::default(), background: BackgroundSettings::default() }
    }
}

/// The image extensions a wallpaper directory is searched for (as written, lower case).
pub open spec fn wallpaper_ext(ext: Seq<char>) -> bool {
    ext == "jpg"@ || ext == "jpeg"@ || ext == "png"@ || ext == "bmp"@ || ext == "webp"@
}

pub fn is_wallpaper_ext(ext: &str) -> (b: bool)
    ensures
        b == wallpaper_ext(ext@),
{
    str_eq(ext, "jpg") || str_eq(ext, "jpeg") || str_eq(ext, "png") || str_eq(ext, "bmp") || str_eq(ext, "webp")
}

/// Which of `n` candidate wallpapers to show for a random `seed`: `seed % n`, or none
/// when there is no candidate.
pub fn pick_wallpaper(n: usize, seed: usize) -> (r: Option<usize>)
    ensures
        n == 0 ==> r is None,
        n > 0 ==> r == Some((seed % n) as usize),
{
    if n == 0 {
        None
    } else {
        Some(seed % n)
    }
}

/// `path` with a leading `~/` replaced by `home` followed by `/`.
pub open spec fn expand_tilde_spec(path: Seq<char>, home: Seq<char>) -> Seq<char> {
    if starts_with(path, "~/"@) {
        home + path.drop_first()
    } else {
        path
    }
}

pub fn expand_tilde(path: &str, home: &str) -> (r: String)
    ensures
        r@ == expand_tilde_spec(path@, home@),
{
    let v = chars_of(path);
    let t = chars_of("~/");
    if starts_with_chars(v.as_slice(), t.as_slice()) {
        let mut r = string_from(home);
        proof {
            reveal_strlit("~/");
        }
        let rest = string_of(v.as_slice(), 1, v.len());
        push_str(&mut r, rest.as_str());
        assert(v@.subrange(1, v@.len() as int) == path@.drop_first());
        r
    } else {
        let r = string_of(v.as_slice(), 0, v.len());
        assert(v@.subrange(0, v@.len() as int) == path@);
        r
    }
}

/// Milliseconds from `start` to `now`, zero if `now` is earlier.
pub open spec fn elapsed(now: u64, start: u64) -> int {
    if now >= start {
        now - start
    } else {
        0
    }
}

fn elapsed_ms(now: u64, start: u64) -> (e: u64)
    ensures
        e == elapsed(now, start),
{
    if now >= start {
        now - start
    } else {
        0
    }
}

/// Input is ignored while the password is being checked or the screen is unlocking.
pub open spec fn busy(p: LockPhase) -> bool {
    p == LockPhase::Verifying || p == LockPhase::Unlocking
}

/// Dispatch rounds the lock screen waits, 20 ms apart, for its outputs to be
/// configured (see `crate::bar::OutputWait`).
pub const LOCK_OUTPUT_ROUNDS: u32 = 100;

/// The lock screen's state.
pub struct LockState {
    pub phase: LockPhase,
    pub password: String,
    pub phase_start_ms: u64,
    pub error_start_ms: Option<u64>,
    pub cursor_blink_ms: u64,
    pub fade_in_ms: u32,
    pub fade_out_ms: u32,
}

impl LockState {
    /// Fading in, no password, all timers at `now`.
    pub fn new(cfg: &LockSettings, now: u64) -> (s: LockState)
        ensures
            s.phase == LockPhase::FadeIn,
            s.password@.len() == 0,
            s.phase_start_ms == now && s.cursor_blink_ms == now && s.error_start_ms is None,
            s.fade_in_ms == cfg.fade_in_ms && s.fade_out_ms == cfg.fade_out_ms,
    {
        LockState {
            phase: LockPhase::FadeIn,
            password: String::new(),
            phase_start_ms: now,
            error_start_ms: None,
            cursor_blink_ms: now,
            fade_in_ms: cfg.fade_in_ms,
            fade_out_ms: cfg.fade_out_ms,
        }
    }

    /// Appends `ch` to the password; the screen is now typing.
    pub fn push_char(&mut self, ch: char, now: u64)
        ensures
            final(self).password@ == old(self).password@.push(ch),
            final(self).phase == LockPhase::Typing,
            final(self).cursor_blink_ms == now,
            final(self).phase_start_ms == old(self).phase_start_ms,
            final(self).error_start_ms == old(self).error_start_ms,
            final(self).fade_in_ms == old(self).fade_in_ms && final(self).fade_out_ms == old(self).fade_out_ms,
    {
        push_char(&mut self.password, ch);
        self.phase = LockPhase::Typing;
        self.cursor_blink_ms = now;
    }

    /// Deletes the last password character; an empty password makes the screen idle.
    pub fn pop_char(&mut self, now: u64)
        ensures
            final(self).password@ == if old(self).password@.len() == 0 {
                old(self).password@
            } else {
                old(self).password@.drop_last()
            },
            final(self).phase == if final(self).password@.len() == 0 {
                LockPhase::Idle
            } else {
                old(self).phase
            },
            final(self).cursor_blink_ms == now,
            final(self).phase_start_ms == old(self).phase_start_ms,
            final(self).error_start_ms == old(self).error_start_ms,
            final(self).fade_in_ms == old(self).fade_in_ms && final(self).fade_out_ms == old(self).fade_out_ms,
    {
        let v = chars_of(self.password.as_str());
        if v.len() > 0 {
            self.password = string_of(v.as_slice(), 0, v.len() - 1);
            assert(v@.subrange(0, v@.len() - 1) == v@.drop_last());
        }
        if self.password.as_str().is_empty() {
            self.phase = LockPhase::Idle;
        }
        self.cursor_blink_ms = now;
    }

    /// Forgets the password; the screen is idle.
    pub fn clear_password(&mut self)
        ensures
            final(self).password@.len() == 0,
            final(self).phase == LockPhase::Idle,
            final(self).phase_start_ms == old(self).phase_start_ms,
            final(self).error_start_ms == old(self).error_start_ms,
            final(self).cursor_blink_ms == old(self).cursor_blink_ms,
            final(self).fade_in_ms == old(self).fade_in_ms && final(self).fade_out_ms == old(self).fade_out_ms,
    {
        self.password = String::new();
        self.phase = LockPhase::Idle;
    }

    pub fn start_verify(&mut self, now: u64)
        ensures
            final(self).phase == LockPhase::Verifying,
            final(self).phase_start_ms == now,
            final(self).password == old(self).password,
            final(self).error_start_ms == old(self).error_start_ms,
            final(self).cursor_blink_ms == old(self).cursor_blink_ms,
            final(self).fade_in_ms == old(self).fade_in_ms && final(self).fade_out_ms == old(self).fade_out_ms,
    {
        self.phase = LockPhase::Verifying;
        self.phase_start_ms = now;
    }

    /// A rejected password: the field shakes and empties.
    pub fn show_error(&mut self, now: u64)
        ensures
            final(self).phase == LockPhase::Error,
            final(self).error_start_ms == Some(now),
            final(self).password@.len() == 0,
            final(self).phase_start_ms == old(self).phase_start_ms,
            final(self).cursor_blink_ms == old(self).cursor_blink_ms,
            final(self).fade_in_ms == old(self).fade_in_ms && final(self).fade_out_ms == old(self).fade_out_ms,
    {
        self.phase = LockPhase::Error;
        self.error_start_ms = Some(now);
        self.password = String::new();
    }

    pub fn start_unlock(&mut self, now: u64)
        ensures
            final(self).phase == LockPhase::Unlocking,
            final(self).phase_start_ms == now,
            final(self).password == old(self).password,
            final(self).error_start_ms == old(self).error_start_ms,
            final(self).cursor_blink_ms == old(self).cursor_blink_ms,
            final(self).fade_in_ms == old(self).fade_in_ms && final(self).fade_out_ms == old(self).fade_out_ms,
    {
        self.phase = LockPhase::Unlocking;
        self.phase_start_ms = now;
    }

    /// The unlock fade has run its full length.
    pub fn unlock_done(&self, now: u64) -> (b: bool)
        ensures
            b == (self.phase == LockPhase::Unlocking && elapsed(now, self.phase_start_ms) >= self.fade_out_ms),
    {
        self.phase == LockPhase::Unlocking && elapsed_ms(now, self.phase_start_ms) >= self.fade_out_ms as u64
    }

    /// More than 800 ms after an error the screen goes back to idle.
    pub fn maybe_reset_error(&mut self, now: u64)
        ensures
            ({
                let reset = old(self).phase == LockPhase::Error && (old(self).error_start_ms matches Some(t)
                    && elapsed(now, t) > 800);
                &&& final(self).phase == if reset { LockPhase::Idle } else { old(self).phase }
                &&& final(self).error_start_ms == if reset { None } else { old(self).error_start_ms }
            }),
            final(self).password == old(self).password,
            final(self).phase_start_ms == old(self).phase_start_ms,
            final(self).cursor_blink_ms == old(self).cursor_blink_ms,
            final(self).fade_in_ms == old(self).fade_in_ms && final(self).fade_out_ms == old(self).fade_out_ms,
    {
        if self.phase == LockPhase::Error {
            match self.error_start_ms {
                Some(t) => {
                    if elapsed_ms(now, t) > 800 {
                        self.phase = LockPhase::Idle;
                        self.error_start_ms = None;
                    }
                },
                None => {},
            }
        }
    }

    /// Once the fade-in has run its full length the screen is idle.
    pub fn advance_fade_in(&mut self, now: u64)
        ensures
            final(self).phase == if old(self).phase == LockPhase::FadeIn
                && elapsed(now, old(self).phase_start_ms) >= old(self).fade_in_ms {
                LockPhase::Idle
            } else {
                old(self).phase
            },
            final(self).password == old(self).password,
            final(self).phase_start_ms == old(self).phase_start_ms,
            final(self).error_start_ms == old(self).error_start_ms,
            final(self).cursor_blink_ms == old(self).cursor_blink_ms,
            final(self).fade_in_ms == old(self).fade_in_ms && final(self).fade_out_ms == old(self).fade_out_ms,
    {
        if self.phase == LockPhase::FadeIn && elapsed_ms(now, self.phase_start_ms) >= self.fade_in_ms as u64 {
            self.phase = LockPhase::Idle;
        }
    }

    /// Whether the screen needs frequent redraws: during the fade-in, the first 600 ms
    /// of the error shake, the unlock fade, verification, and for the blinking cursor.
    pub fn is_animating(&self, now: u64) -> (b: bool)
        ensures
            b == match self.phase {
                LockPhase::FadeIn => elapsed(now, self.phase_start_ms) < self.fade_in_ms,
                LockPhase::Error => self.error_start_ms matches Some(t) && elapsed(now, t) < 600,
                LockPhase::Unlocking => elapsed(now, self.phase_start_ms) < self.fade_out_ms,
                _ => true,
            },
    {
        match self.phase {
            LockPhase::FadeIn => elapsed_ms(now, self.phase_start_ms) < self.fade_in_ms as u64,
            LockPhase::Error => match self.error_start_ms {
                Some(t) => elapsed_ms(now, t) < 600,
                None => false,
            },
            LockPhase::Unlocking => !self.unlock_done(now),
            _ => true,
        }
    }

    /// One key of input. Typing, Backspace and Escape edit the password (typing and
    /// Backspace restart the cursor blink) and Enter on a non-empty password starts
    /// verification (the result is `true`: authenticate the password now); all of it
    /// is ignored while verifying or unlocking. Nothing else changes.
    pub fn handle_input(&mut self, input: LockInput, now: u64) -> (start_auth: bool)
        ensures
            busy(old(self).phase) ==> *final(self) == *old(self) && !start_auth,
            !busy(old(self).phase) ==> match input {
                LockInput::Char(c) => final(self).password@ == old(self).password@.push(c) && !start_auth
                    && *final(self) == (LockState {
                        password: final(self).password,
                        phase: LockPhase::Typing,
                        cursor_blink_ms: now,
                        ..*old(self)
                    }),
                LockInput::Backspace => final(self).password@ == (if old(self).password@.len() == 0 {
                    old(self).password@
                } else {
                    old(self).password@.drop_last()
                }) && final(self).phase == (if final(self).password@.len() == 0 {
                    LockPhase::Idle
                } else {
                    old(self).phase
                }) && !start_auth && *final(self) == (LockState {
                    password: final(self).password,
                    phase: final(self).phase,
                    cursor_blink_ms: now,
                    ..*old(self)
                }),
                LockInput::Escape => final(self).password@.len() == 0 && !start_auth
                    && *final(self) == (LockState {
                        password: final(self).password,
                        phase: LockPhase::Idle,
                        ..*old(self)
                    }),
                LockInput::Enter => if old(self).password@.len() > 0 {
                    start_auth && *final(self) == (LockState {
                        phase: LockPhase::Verifying,
                        phase_start_ms: now,
                        ..*old(self)
                    })
                } else {
                    !start_auth && *final(self) == *old(self)
                },
            },
    {
        if self.phase == LockPhase::Verifying || self.phase == LockPhase::Unlocking {
            return false;
        }
        match input {
            LockInput::Char(c) => {
                self.push_char(c, now);
                false
            },
            LockInput::Backspace => {
                self.pop_char(now);
                false
            },
            LockInput::Escape => {
                self.clear_password();
                false
            },
            LockInput::Enter => {
                if self.password.as_str().is_empty() {
                    false
                } else {
                    self.start_verify(now);
                    true
                }
            },
        }
    }

    /// The authentication finished: success unlocks, anything else shows the error and
    /// empties the password. Nothing else changes.
    pub fn on_auth_result(&mut self, result: &AuthResult, now: u64)
        ensures
            match result {
                AuthResult::Success => *final(self) == (LockState {
                    phase: LockPhase::Unlocking,
                    phase_start_ms: now,
                    ..*old(self)
                }),
                _ => final(self).password@.len() == 0 && *final(self) == (LockState {
                    phase: LockPhase::Error,
                    error_start_ms: Some(now),
                    password: final(self).password,
                    ..*old(self)
                }),
            },
    {
        match result {
            AuthResult::Success => self.start_unlock(now),
            _ => self.show_error(now),
        }
    }
}

} // verus!
