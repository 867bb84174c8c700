//! The control centre's buttons: what each runs and whether it closes the panel.
use vstd::prelude::*;
use crate::images::{decode_exact, exact_rgba};
use crate::strs::{chars_of, parse_unsigned, parse_unsigned_exec, split, split_ranges, string_of, trim,
    trim_range};

verus! {

/// A control-centre button.
#[derive(Clone, Copy, PartialEq, Eq, Structural)]
pub enum Btn {
    DndToggle,
    Lock,
    Suspend,
    Logout,
    Reboot,
    Shutdown,
    BrightnessDown,
    BrightnessUp,
    VolumeDown,
    VolumeUp,
    MuteToggle,
}

/// The session actions close the panel; the others keep it open.
pub open spec fn closes_spec(b: Btn) -> bool {
    b == Btn::Lock || b == Btn::Suspend || b == Btn::Logout || b == Btn::Reboot || b == Btn::Shutdown
}

/// The command a button runs, and its arguments.
pub open spec fn command_spec(b: Btn) -> (Seq<char>, Seq<Seq<char>>) {
    match b {
        Btn::DndToggle => ("swaync-client"@, seq!["-d"@]),
        Btn::Lock => ("swaylock"@, seq!["-f"@]),
        Btn::Suspend => ("systemctl"@, seq!["suspend"@]),
        Btn::Logout => ("swaymsg"@, seq!["exit"@]),
        Btn::Reboot => ("systemctl"@, seq!["reboot"@]),
        Btn::Shutdown => ("systemctl"@, seq!["poweroff"@]),
        Btn::BrightnessDown => ("brightnessctl"@, seq!["set"@, "10%-"@]),
        Btn::BrightnessUp => ("brightnessctl"@, seq!["set"@, "10%+"@]),
        Btn::VolumeDown => ("wpctl"@, seq!["set-volume"@, "@DEFAULT_AUDIO_SINK@"@, "10%-"@]),
        Btn::VolumeUp => ("wpctl"@, seq!["set-volume"@, "@DEFAULT_AUDIO_SINK@"@, "10%+"@]),
        Btn::MuteToggle => ("wpctl"@, seq!["set-mute"@, "@DEFAULT_AUDIO_SINK@"@, "toggle"@]),
    }
}

/// No two buttons run the same command: each button, Reboot and Shutdown among
/// them, does something of its own.
pub proof fn lemma_buttons_run_distinct_commands(a: Btn, b: Btn)
    requires
        a != b,
    ensures
        command_spec(a) != command_spec(b),
{
    reveal_strlit("swaync-client");
    reveal_strlit("-d");
    reveal_strlit("swaylock");
    reveal_strlit("-f");
    reveal_strlit("systemctl");
    reveal_strlit("suspend");
    reveal_strlit("swaymsg");
    reveal_strlit("exit");
    reveal_strlit("reboot");
    reveal_strlit("poweroff");
    reveal_strlit("brightnessctl");
    reveal_strlit("set");
    reveal_strlit("10%-");
    reveal_strlit("10%+");
    reveal_strlit("wpctl");
    reveal_strlit("set-volume");
    reveal_strlit("@DEFAULT_AUDIO_SINK@");
    reveal_strlit("set-mute");
    reveal_strlit("toggle");
    let (pa, xa) = command_spec(a);
    let (pb, xb) = command_spec(b);
    if pa == pb && xa == xb {
        assert(pa.len() == pb.len());
        assert(xa.len() == xb.len());
        assert(xa[0] == xb[0]);
        assert(xa[0].len() == xb[0].len());
        if xa.len() > 2 {
            assert(xa[2] == xb[2]);
            assert(xa[2][3] == xb[2][3]);
        }
        if xa.len() == 2 {
            assert(xa[1] == xb[1]);
            assert(xa[1][3] == xb[1][3]);
        }
        assert(xa[0][0] == xb[0][0]);
        assert(pa[0] == pb[0]);
    }
}

/// The buttons that close the panel are exactly those that end or suspend the
/// session: they run the screen locker, sway's exit or systemd's power actions.
pub proof fn lemma_closing_buttons_are_session_commands(b: Btn)
    ensures
        closes_spec(b) <==> (command_spec(b).0 == "swaylock"@ || command_spec(b).0 == "systemctl"@
            || command_spec(b).0 == "swaymsg"@),
{
    reveal_strlit("swaync-client");
    reveal_strlit("swaylock");
    reveal_strlit("systemctl");
    reveal_strlit("swaymsg");
    reveal_strlit("brightnessctl");
    reveal_strlit("wpctl");
    let p = command_spec(b).0;
    if !closes_spec(b) {
        assert(p.len() == 13 || p.len() == 5);
    }
}

pub fn command(b: Btn) -> (r: (&'static str, Vec<&'static str>))
    ensures
        r.0@ == command_spec(b).0,
        r.1@.len() == command_spec(b).1.len(),
        forall|i: int| 0 <= i < r.1@.len() ==> (#[trigger] r.1@[i])@ == command_spec(b).1[i],
{
    match b {
        Btn::DndToggle => ("swaync-client", vec!["-d"]),
        Btn::Lock => ("swaylock", vec!["-f"]),
        Btn::Suspend => ("systemctl", vec!["suspend"]),
        Btn::Logout => ("swaymsg", vec!["exit"]),
        Btn::Reboot => ("systemctl", vec!["reboot"]),
        Btn::Shutdown => ("systemctl", vec!["poweroff"]),
        Btn::BrightnessDown => ("brightnessctl", vec!["set", "10%-"]),
        Btn::BrightnessUp => ("brightnessctl", vec!["set", "10%+"]),
        Btn::VolumeDown => ("wpctl", vec!["set-volume", "@DEFAULT_AUDIO_SINK@", "10%-"]),
        Btn::VolumeUp => ("wpctl", vec!["set-volume", "@DEFAULT_AUDIO_SINK@", "10%+"]),
        Btn::MuteToggle => ("wpctl", vec!["set-mute", "@DEFAULT_AUDIO_SINK@", "toggle"]),
    }
}

/// What the control centre shows.
pub struct CcState {
    pub dnd: bool,
    pub brightness: u8,
    pub volume: u8,
    pub muted: bool,
    pub username: String,
    pub hostname: String,
    pub pfp: Option<Vec<u8>>,
}

impl CcState {
    /// A button press (after its command was started): the do-not-disturb button
    /// flips the shown state; the result says whether the panel closes.
    pub fn handle(&mut self, b: Btn) -> (close: bool)
        ensures
            close == closes_spec(b),
            final(self).dnd == if b == Btn::DndToggle { !old(self).dnd } else { old(self).dnd },
            final(self).brightness == old(self).brightness && final(self).volume == old(self).volume,
            final(self).muted == old(self).muted,
            final(self).username == old(self).username && final(self).hostname == old(self).hostname,
            final(self).pfp == old(self).pfp,
    {
        match b {
            Btn::DndToggle => {
                self.dnd = !self.dnd;
                false
            },
            Btn::Lock | Btn::Suspend | Btn::Logout | Btn::Reboot | Btn::Shutdown => true,
            _ => false,
        }
    }
}

/// The profile picture's edge in pixels.
pub const PFP_SIZE: u32 = 64;

/// The profile picture the candidate files give: the first file that could be read
/// (`Some`) and decodes, scaled to `PFP_SIZE` x `PFP_SIZE` RGBA; `None` when there
/// is none.
pub open spec fn pfp_spec(files: Seq<Option<Seq<u8>>>) -> Option<Seq<u8>>
    decreases files.len(),
{
    if files.len() == 0 {
        None
    } else {
        match files[0] {
            Some(b) => match exact_rgba(b, PFP_SIZE, PFP_SIZE) {
                Some(px) => Some(px),
                None => pfp_spec(files.drop_first()),
            },
            None => pfp_spec(files.drop_first()),
        }
    }
}

pub open spec fn files_view(files: Seq<Option<Vec<u8>>>) -> Seq<Option<Seq<u8>>> {
    files.map_values(|f: Option<Vec<u8>>| match f {
        Some(b) => Some(b@),
        None => None,
    })
}

/// The profile picture from the contents of the candidate files, in order (`None`
/// for a file that could not be read); see `pfp_spec`.
pub fn profile_picture(files: &Vec<Option<Vec<u8>>>) -> (r: Option<Vec<u8>>)
    ensures
        match pfp_spec(files_view(files@)) {
            Some(d) => r matches Some(x) && x@ == d,
            None => r is None,
        },
{
    let ghost fv = files_view(files@);
    assert(fv.skip(0) == fv);
    let mut i: usize = 0;
    while i < files.len()
        invariant
            i <= files@.len(),
            fv == files_view(files@),
            pfp_spec(fv) == pfp_spec(fv.skip(i as int)),
        decreases files.len() - i,
    {
        assert(fv.skip(i as int).drop_first() == fv.skip(i + 1));
        assert(fv.skip(i as int)[0] == fv[i as int]);
        match &files[i] {
            Some(b) => match decode_exact(b.as_slice(), PFP_SIZE, PFP_SIZE) {
                Some(px) => {
                    return Some(px);
                },
                None => {},
            },
            None => {},
        }
        i = i + 1;
    }
    assert(fv.skip(i as int).len() == 0);
    None
}

/// Whether `swaync-client -D` output says do-not-disturb is on.
pub fn dnd_on(out: &str) -> (b: bool)
    ensures
        b == (trim(out@) == "true"@),
{
    let v = chars_of(out);
    let (lo, hi) = trim_range(v.as_slice(), 0, v.len());
    assert(v@.subrange(0, v@.len() as int) == out@);
    let t = string_of(v.as_slice(), lo, hi);
    crate::strs::str_eq(t.as_str(), "true")
}

/// `s` without its trailing `%` characters.
pub open spec fn strip_percents(s: Seq<char>) -> Seq<char>
    decreases s.len(),
{
    if s.len() > 0 && s.last() == '%' {
        strip_percents(s.drop_last())
    } else {
        s
    }
}

/// The brightness percentage in `brightnessctl -m g` output: the sixth comma-separated
/// field, without its `%`.
pub open spec fn ctl_brightness_spec(s: Seq<char>) -> Option<u8> {
    let parts = split(trim(s), ',');
    if parts.len() > 5 {
        match parse_unsigned(strip_percents(parts[5]), 255) {
            Some(n) => Some(n as u8),
            None => None,
        }
    } else {
        None
    }
}

#[verifier::spinoff_prover]
pub fn ctl_brightness(s: &str) -> (r: Option<u8>)
    ensures
        r == ctl_brightness_spec(s@),
{
    let v = chars_of(s);
    let (lo, hi) = trim_range(v.as_slice(), 0, v.len());
    assert(v@.subrange(0, v@.len() as int) == s@);
    let parts = split_ranges(v.as_slice(), lo, hi, ',');
    if parts.len() <= 5 {
        return None;
    }
    let (a, b) = parts[5];
    let mut e = b;
    while e > a && v[e - 1] == '%'
        invariant
            a <= e <= b <= v@.len(),
            strip_percents(v@.subrange(a as int, b as int)) == strip_percents(v@.subrange(a as int, e as int)),
        decreases e - a,
    {
        assert(v@.subrange(a as int, e as int).drop_last() == v@.subrange(a as int, e - 1));
        e = e - 1;
    }
    let field = string_of(v.as_slice(), a, e);
    match parse_unsigned_exec(field.as_str(), 255) {
        Some(n) => Some(n as u8),
        None => None,
    }
}

/// Brightness from sysfs: `cur * 100 / max` cut to a byte, then at most 100.
pub fn sysfs_brightness(cur: u64, max: u64) -> (r: u8)
    requires
        max > 0,
        cur * 100 <= u64::MAX,
    ensures
        r == if (cur * 100 / (max as int)) % 256 < 100 { (cur * 100 / (max as int)) % 256 } else { 100 },
{
    let p = cur * 100 / max;
    let b = (p % 256) as u8;
    if b < 100 { b } else { 100 }
}

} // verus!
