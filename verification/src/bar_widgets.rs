//! State and text of the bar's widgets. Each widget caches what it last read and
//! says when it is due for another read; the caller does the reading (files,
//! commands) and the drawing, and hands the text it read back in.
use vstd::prelude::*;
use crate::strs::{chars_of, contains, contains_chars, dec_text, decimal, parse_unsigned,
    parse_unsigned_exec, push_char, push_str, split, split_ranges, starts_with,
    starts_with_chars, str_eq, string_of, trim, trim_range, words, word_ranges};

verus! {

fn string_from(s: &str) -> (r: String)
    ensures
        r@ == s@,
{
    let mut r = String::new();
    push_str(&mut r, s);
    r
}

/// Milliseconds from `last` to `now`, for a clock that may step back (then 0).
pub open spec fn since(now: u64, last: u64) -> int {
    if now >= last { now - last } else { 0 }
}

// ── battery ──────────────────────────────────────────────────────────────────

/// Charge in percent and whether it is charging (or full).
#[derive(Clone, Copy)]
pub struct BatteryInfo {
    pub pct: u8,
    pub charging: bool,
}

/// Battery widget: the last reading, taken at most every 10 s.
pub struct BatteryWidget {
    pub cache: Option<BatteryInfo>,
    pub last_read_ms: u64,
}

/// The battery glyph: charging, or one of five charge levels.
pub open spec fn battery_icon_spec(info: BatteryInfo) -> Seq<char> {
    if info.charging {
        "\u{f0084}"@
    } else if info.pct >= 80 {
        "\u{f0079}"@
    } else if info.pct >= 60 {
        "\u{f007a}"@
    } else if info.pct >= 40 {
        "\u{f007b}"@
    } else if info.pct >= 20 {
        "\u{f007c}"@
    } else {
        "\u{f007d}"@
    }
}

impl BatteryWidget {
    pub fn new() -> (w: BatteryWidget)
        ensures
            w.cache is None && w.last_read_ms == 0,
    {
        BatteryWidget { cache: None, last_read_ms: 0 }
    }

    /// A new reading is due when there is none or the last is more than 10 s old.
    pub fn needs_read(&self, now_ms: u64) -> (b: bool)
        requires
            self.cache is Some ==> now_ms >= self.last_read_ms,
        ensures
            b == (self.cache is None || now_ms - self.last_read_ms > 10_000),
    {
        self.cache.is_none() || now_ms - self.last_read_ms > 10_000
    }

    /// Stores a reading taken at `now_ms`.
    pub fn store(&mut self, info: Option<BatteryInfo>, now_ms: u64)
        ensures
            final(self).cache == info && final(self).last_read_ms == now_ms,
    {
        self.cache = info;
        self.last_read_ms = now_ms;
    }
}

pub fn battery_icon(info: BatteryInfo) -> (r: &'static str)
    ensures
        r@ == battery_icon_spec(info),
{
    if info.charging {
        "\u{f0084}"
    } else if info.pct >= 80 {
        "\u{f0079}"
    } else if info.pct >= 60 {
        "\u{f007a}"
    } else if info.pct >= 40 {
        "\u{f007b}"
    } else if info.pct >= 20 {
        "\u{f007c}"
    } else {
        "\u{f007d}"
    }
}

/// Below 20 % and not charging: drawn in red.
pub fn battery_low(info: BatteryInfo) -> (b: bool)
    ensures
        b == (info.pct < 20 && !info.charging),
{
    info.pct < 20 && !info.charging
}

/// `"<icon> <pct>%"`.
pub fn battery_label(info: BatteryInfo) -> (s: String)
    ensures
        s@ == battery_icon_spec(info) + " "@ + dec_text(info.pct as nat) + "%"@,
{
    let mut s = string_from(battery_icon(info));
    push_str(&mut s, " ");
    let d = decimal(info.pct as u64);
    push_str(&mut s, d.as_str());
    push_str(&mut s, "%");
    s
}

/// A power supply `status` file means charging when it reads `Charging` or `Full`.
pub fn charging_status(status: &str) -> (b: bool)
    ensures
        b == (trim(status@) == "Charging"@ || trim(status@) == "Full"@),
{
    let v = chars_of(status);
    let (lo, hi) = trim_range(v.as_slice(), 0, v.len());
    assert(v@.subrange(0, v@.len() as int) == status@);
    let t = string_of(v.as_slice(), lo, hi);
    str_eq(t.as_str(), "Charging") || str_eq(t.as_str(), "Full")
}

// ── audio ────────────────────────────────────────────────────────────────────

/// Volume in percent and whether the sink is muted.
#[derive(Clone, Copy)]
pub struct AudioInfo {
    pub pct: u8,
    pub muted: bool,
}

/// Audio widget: the last reading, taken at most every second.
pub struct AudioWidget {
    pub cache: Option<AudioInfo>,
    pub last_read_ms: u64,
}

pub open spec fn audio_icon_spec(info: AudioInfo) -> Seq<char> {
    if info.muted {
        "\u{f0581}"@
    } else if info.pct >= 60 {
        "\u{f057f}"@
    } else if info.pct >= 20 {
        "\u{f0580}"@
    } else {
        "\u{f057e}"@
    }
}

impl AudioWidget {
    pub fn new() -> (w: AudioWidget)
        ensures
            w.cache is None && w.last_read_ms == 0,
    {
        AudioWidget { cache: None, last_read_ms: 0 }
    }

    /// A new reading is due when there is none or the last is more than 1 s old.
    pub fn needs_read(&self, now_ms: u64) -> (b: bool)
        requires
            self.cache is Some ==> now_ms >= self.last_read_ms,
        ensures
            b == (self.cache is None || now_ms - self.last_read_ms > 1_000),
    {
        self.cache.is_none() || now_ms - self.last_read_ms > 1_000
    }

    pub fn store(&mut self, info: Option<AudioInfo>, now_ms: u64)
        ensures
            final(self).cache == info && final(self).last_read_ms == now_ms,
    {
        self.cache = info;
        self.last_read_ms = now_ms;
    }

    /// A click toggles mute; the next frame reads again.
    pub fn on_click(&mut self)
        ensures
            final(self).cache is None && final(self).last_read_ms == old(self).last_read_ms,
    {
        self.cache = None;
    }
}

pub fn audio_icon(info: AudioInfo) -> (r: &'static str)
    ensures
        r@ == audio_icon_spec(info),
{
    if info.muted {
        "\u{f0581}"
    } else if info.pct >= 60 {
        "\u{f057f}"
    } else if info.pct >= 20 {
        "\u{f0580}"
    } else {
        "\u{f057e}"
    }
}

/// `"<icon> <pct>%"`.
pub fn audio_label(info: AudioInfo) -> (s: String)
    ensures
        s@ == audio_icon_spec(info) + " "@ + dec_text(info.pct as nat) + "%"@,
{
    let mut s = string_from(audio_icon(info));
    push_str(&mut s, " ");
    let d = decimal(info.pct as u64);
    push_str(&mut s, d.as_str());
    push_str(&mut s, "%");
    s
}

/// `wpctl get-volume` output marks a muted sink with `[MUTED]`.
pub fn is_muted(out: &str) -> (b: bool)
    ensures
        b == contains(out@, "[MUTED]"@),
{
    let v = chars_of(out);
    let m = chars_of("[MUTED]");
    contains_chars(v.as_slice(), m.as_slice())
}

// ── network ──────────────────────────────────────────────────────────────────

/// The Wi-Fi network joined, or whether a wired link is up.
pub struct NetInfo {
    pub ssid: Option<String>,
    pub wired: bool,
}

/// Network widget: the last reading, taken at most every 5 s.
pub struct NetworkWidget {
    pub cache: Option<NetInfo>,
    pub last_read_ms: u64,
}

impl NetworkWidget {
    pub fn new() -> (w: NetworkWidget)
        ensures
            w.cache is None && w.last_read_ms == 0,
    {
        NetworkWidget { cache: None, last_read_ms: 0 }
    }

    /// A new reading is due when there is none or the last is more than 5 s old.
    pub fn needs_read(&self, now_ms: u64) -> (b: bool)
        requires
            self.cache is Some ==> now_ms >= self.last_read_ms,
        ensures
            b == (self.cache is None || now_ms - self.last_read_ms > 5_000),
    {
        self.cache.is_none() || now_ms - self.last_read_ms > 5_000
    }

    pub fn store(&mut self, info: NetInfo, now_ms: u64)
        ensures
            final(self).cache == Some(info) && final(self).last_read_ms == now_ms,
    {
        self.cache = Some(info);
        self.last_read_ms = now_ms;
    }
}

/// The widget text: Wi-Fi glyph and network name, ethernet glyph and `eth`, or the
/// Wi-Fi-off glyph and `disconnected` (drawn dimmed).
pub open spec fn net_text_spec(info: NetInfo) -> Seq<char> {
    match info.ssid {
        Some(s) => "\u{f05a9}"@ + " "@ + s@,
        None => if info.wired {
            "\u{f0200}"@ + " "@ + "eth"@
        } else {
            "\u{f05aa}"@ + " "@ + "disconnected"@
        },
    }
}

pub fn net_text(info: &NetInfo) -> (s: String)
    ensures
        s@ == net_text_spec(*info),
{
    match &info.ssid {
        Some(ssid) => {
            let mut s = string_from("\u{f05a9}");
            push_str(&mut s, " ");
            push_str(&mut s, ssid.as_str());
            s
        },
        None => {
            if info.wired {
                let mut s = string_from("\u{f0200}");
                push_str(&mut s, " ");
                push_str(&mut s, "eth");
                s
            } else {
                let mut s = string_from("\u{f05aa}");
                push_str(&mut s, " ");
                push_str(&mut s, "disconnected");
                s
            }
        },
    }
}

/// Whether the network text is drawn dimmed (no connection).
pub fn net_dim(info: &NetInfo) -> (b: bool)
    ensures
        b == (info.ssid is None && !info.wired),
{
    info.ssid.is_none() && !info.wired
}

/// The lines of `text`, trimmed, that start with `prefix`, with the prefix removed.
pub open spec fn prefixed_lines(text: Seq<char>, prefix: Seq<char>) -> Seq<Seq<char>> {
    prefixed_in(split(text, '\n'), prefix)
}

pub open spec fn prefixed_in(ls: Seq<Seq<char>>, prefix: Seq<char>) -> Seq<Seq<char>>
    decreases ls.len(),
{
    if ls.len() == 0 {
        Seq::empty()
    } else {
        let rest = prefixed_in(ls.drop_last(), prefix);
        let l = trim(ls.last());
        if starts_with(l, prefix) {
            rest.push(l.skip(prefix.len() as int))
        } else {
            rest
        }
    }
}

/// The lines of `text`, trimmed, that start with `prefix`, with the prefix removed.
fn lines_with_prefix(text: &str, prefix: &str) -> (r: Vec<String>)
    ensures
        r@.map_values(|s: String| s@) == prefixed_lines(text@, prefix@),
{
    let v = chars_of(text);
    let p = chars_of(prefix);
    let ranges = split_ranges(v.as_slice(), 0, v.len(), '\n');
    assert(v@.subrange(0, v@.len() as int) == text@);
    let ghost ls = split(text@, '\n');
    let mut r: Vec<String> = Vec::new();
    let mut i: usize = 0;
    while i < ranges.len()
        invariant
            i <= ranges@.len(),
            v@ == text@,
            p@ == prefix@,
            ls == split(text@, '\n'),
            ranges@.len() == ls.len(),
            forall|k: int| 0 <= k < ranges@.len() ==> (#[trigger] ranges@[k]).0 <= ranges@[k].1 <= v@.len()
                && v@.subrange(ranges@[k].0 as int, ranges@[k].1 as int) == ls[k],
            r@.map_values(|s: String| s@) == prefixed_in(ls.take(i as int), prefix@),
        decreases ranges.len() - i,
    {
        let (a, b) = ranges[i];
        let (lo, hi) = trim_range(v.as_slice(), a, b);
        let line = string_of(v.as_slice(), lo, hi);
        assert(ls.take(i + 1).drop_last() == ls.take(i as int));
        assert(ls.take(i + 1).last() == ls[i as int]);
        let lv = chars_of(line.as_str());
        if starts_with_chars(lv.as_slice(), p.as_slice()) {
            let rest = string_of(lv.as_slice(), p.len(), lv.len());
            let ghost r0 = r@.map_values(|s: String| s@);
            let ghost rv = rest@;
            r.push(rest);
            assert(r@.map_values(|s: String| s@) =~= r0.push(rv));
        }
        i = i + 1;
    }
    assert(ls.take(ls.len() as int) == ls);
    r
}

/// The interface names `iw dev` lists.
pub fn iw_interfaces(out: &str) -> (r: Vec<String>)
    ensures
        r@.map_values(|s: String| s@) == prefixed_lines(out@, "Interface "@),
{
    lines_with_prefix(out, "Interface ")
}

/// The network name `iw dev <iface> link` reports, if any.
pub fn iw_ssid(out: &str) -> (r: Option<String>)
    ensures
        match r {
            Some(s) => prefixed_lines(out@, "SSID: "@).len() > 0 && s@ == prefixed_lines(out@, "SSID: "@)[0],
            None => prefixed_lines(out@, "SSID: "@).len() == 0,
        },
{
    let mut all = lines_with_prefix(out, "SSID: ");
    if all.len() == 0 {
        None
    } else {
        let ghost av = all@.map_values(|s: String| s@);
        assert(av[0] == all@[0]@);
        Some(all.remove(0))
    }
}

/// An interface named `eth*` or `en*` is wired.
pub fn is_wired_iface(name: &str) -> (b: bool)
    ensures
        b == (starts_with(name@, "eth"@) || starts_with(name@, "en"@)),
{
    let v = chars_of(name);
    let e1 = chars_of("eth");
    let e2 = chars_of("en");
    starts_with_chars(v.as_slice(), e1.as_slice()) || starts_with_chars(v.as_slice(), e2.as_slice())
}

/// A `carrier` file reading `1` means the link is up.
pub fn carrier_up(carrier: &str) -> (b: bool)
    ensures
        b == (trim(carrier@) == "1"@),
{
    let v = chars_of(carrier);
    let (lo, hi) = trim_range(v.as_slice(), 0, v.len());
    assert(v@.subrange(0, v@.len() as int) == carrier@);
    let t = string_of(v.as_slice(), lo, hi);
    str_eq(t.as_str(), "1")
}

// ── notifications ────────────────────────────────────────────────────────────

/// Notification widget: unread count and do-not-disturb, read every 3 s.
pub struct NotificationsWidget {
    pub count: u32,
    pub dnd: bool,
    pub last_ms: u64,
}

impl NotificationsWidget {
    pub fn new() -> (w: NotificationsWidget)
        ensures
            w.count == 0 && !w.dnd && w.last_ms == 0,
    {
        NotificationsWidget { count: 0, dnd: false, last_ms: 0 }
    }

    /// A new reading is due 3 s after the last.
    pub fn due(&self, now_ms: u64) -> (b: bool)
        requires
            now_ms >= self.last_ms,
        ensures
            b == (now_ms - self.last_ms >= 3000),
    {
        !(now_ms - self.last_ms < 3000)
    }

    /// Stores what `swaync-client -D` (do-not-disturb) and `-c` (count) printed; a
    /// count that does not parse counts as 0.
    pub fn apply(&mut self, dnd_out: &str, count_out: &str, now_ms: u64)
        ensures
            final(self).last_ms == now_ms,
            final(self).dnd == (trim(dnd_out@) == "true"@),
            final(self).count == match parse_unsigned(trim(count_out@), u32::MAX as nat) {
                Some(n) => n,
                None => 0,
            },
    {
        self.last_ms = now_ms;
        let dv = chars_of(dnd_out);
        let (lo, hi) = trim_range(dv.as_slice(), 0, dv.len());
        assert(dv@.subrange(0, dv@.len() as int) == dnd_out@);
        let d = string_of(dv.as_slice(), lo, hi);
        self.dnd = str_eq(d.as_str(), "true");
        let cv = chars_of(count_out);
        let (lo, hi) = trim_range(cv.as_slice(), 0, cv.len());
        assert(cv@.subrange(0, cv@.len() as int) == count_out@);
        let c = string_of(cv.as_slice(), lo, hi);
        self.count = match parse_unsigned_exec(c.as_str(), 0xffff_ffff) {
            Some(n) => n as u32,
            None => 0,
        };
    }

    /// A click toggles the notification panel; the next frame reads again.
    pub fn on_click(&mut self)
        ensures
            final(self).last_ms == 0 && final(self).count == old(self).count && final(self).dnd == old(self).dnd,
    {
        self.last_ms = 0;
    }
}

/// Bell glyph (crossed out in do-not-disturb), followed by the count when non-zero.
pub open spec fn notif_label_spec(count: u32, dnd: bool) -> Seq<char> {
    let icon = if dnd { "\u{f09a7}"@ } else { "\u{f09a4}"@ };
    if count > 0 {
        icon + " "@ + dec_text(count as nat)
    } else {
        icon
    }
}

pub fn notif_label(w: &NotificationsWidget) -> (s: String)
    ensures
        s@ == notif_label_spec(w.count, w.dnd),
{
    let mut s = if w.dnd { string_from("\u{f09a7}") } else { string_from("\u{f09a4}") };
    if w.count > 0 {
        push_str(&mut s, " ");
        let d = decimal(w.count as u64);
        push_str(&mut s, d.as_str());
    }
    s
}

// ── media ────────────────────────────────────────────────────────────────────

/// Media widget: what the player shows, read every 2 s.
pub struct MediaWidget {
    pub title: String,
    pub playing: bool,
    pub last_ms: u64,
    pub max_chars: usize,
}

/// `artist — title`, or the title alone, or nothing.
pub open spec fn media_title_spec(artist: Seq<char>, title: Seq<char>) -> Seq<char> {
    if artist.len() > 0 && title.len() > 0 {
        artist + " — "@ + title
    } else if title.len() > 0 {
        title
    } else {
        Seq::empty()
    }
}

/// At most `max` characters: longer text keeps `max - 1` and ends in `…`.
pub open spec fn truncate_chars_spec(s: Seq<char>, max: int) -> Seq<char> {
    if s.len() <= max {
        s
    } else {
        s.take(max - 1).push('…')
    }
}

/// Shortens `s` to `max` characters, ending in `…` when cut.
pub fn truncate_chars(s: &str, max: usize) -> (r: String)
    requires
        s@.len() <= max || max >= 1,
    ensures
        r@ == truncate_chars_spec(s@, max as int),
{
    let v = chars_of(s);
    if v.len() <= max {
        let r = string_of(v.as_slice(), 0, v.len());
        assert(v@.subrange(0, v@.len() as int) == s@);
        return r;
    }
    let mut r = string_of(v.as_slice(), 0, max - 1);
    assert(v@.subrange(0, max - 1) == s@.take(max - 1));
    push_char(&mut r, '…');
    r
}

impl MediaWidget {
    pub fn new() -> (w: MediaWidget)
        ensures
            w.title@.len() == 0 && !w.playing && w.last_ms == 0 && w.max_chars == 30,
    {
        MediaWidget { title: String::new(), playing: false, last_ms: 0, max_chars: 30 }
    }

    /// A new reading is due 2 s after the last.
    pub fn due(&self, now_ms: u64) -> (b: bool)
        requires
            now_ms >= self.last_ms,
        ensures
            b == (now_ms - self.last_ms >= 2000),
    {
        !(now_ms - self.last_ms < 2000)
    }

    /// Player metadata is only read for a playing or paused player.
    pub fn wants_metadata(status: &str) -> (b: bool)
        ensures
            b == (trim(status@) == "Playing"@ || trim(status@) == "Paused"@),
    {
        let v = chars_of(status);
        let (lo, hi) = trim_range(v.as_slice(), 0, v.len());
        assert(v@.subrange(0, v@.len() as int) == status@);
        let t = string_of(v.as_slice(), lo, hi);
        str_eq(t.as_str(), "Playing") || str_eq(t.as_str(), "Paused")
    }

    /// Stores what `playerctl status`, `metadata artist` and `metadata title`
    /// printed (the last two only matter for a playing or paused player).
    pub fn apply(&mut self, status: &str, artist: &str, title: &str, now_ms: u64)
        ensures
            final(self).last_ms == now_ms,
            final(self).playing == (trim(status@) == "Playing"@),
            final(self).title@ == if trim(status@) == "Playing"@ || trim(status@) == "Paused"@ {
                media_title_spec(trim(artist@), trim(title@))
            } else {
                Seq::empty()
            },
            final(self).max_chars == old(self).max_chars,
    {
        self.last_ms = now_ms;
        let v = chars_of(status);
        let (lo, hi) = trim_range(v.as_slice(), 0, v.len());
        assert(v@.subrange(0, v@.len() as int) == status@);
        let st = string_of(v.as_slice(), lo, hi);
        self.playing = str_eq(st.as_str(), "Playing");
        if self.playing || str_eq(st.as_str(), "Paused") {
            let av = chars_of(artist);
            let (alo, ahi) = trim_range(av.as_slice(), 0, av.len());
            assert(av@.subrange(0, av@.len() as int) == artist@);
            let a = string_of(av.as_slice(), alo, ahi);
            let tv = chars_of(title);
            let (tlo, thi) = trim_range(tv.as_slice(), 0, tv.len());
            assert(tv@.subrange(0, tv@.len() as int) == title@);
            let t = string_of(tv.as_slice(), tlo, thi);
            if !a.as_str().is_empty() && !t.as_str().is_empty() {
                let mut s = a;
                push_str(&mut s, " — ");
                push_str(&mut s, t.as_str());
                self.title = s;
            } else if !t.as_str().is_empty() {
                self.title = t;
            } else {
                self.title = String::new();
            }
        } else {
            self.title = String::new();
        }
    }

    /// A click toggles play/pause; the next frame reads again.
    pub fn on_click(&mut self)
        ensures
            final(self).last_ms == 0 && final(self).title == old(self).title
                && final(self).playing == old(self).playing && final(self).max_chars == old(self).max_chars,
    {
        self.last_ms = 0;
    }

    /// Play or pause glyph and the title cut to `max_chars`.
    pub fn label(&self) -> (s: String)
        requires
            self.title@.len() <= self.max_chars || self.max_chars >= 1,
        ensures
            s@ == (if self.playing { "\u{f040a}"@ } else { "\u{f03e4}"@ }) + " "@
                + truncate_chars_spec(self.title@, self.max_chars as int),
    {
        let mut s = if self.playing { string_from("\u{f040a}") } else { string_from("\u{f03e4}") };
        push_str(&mut s, " ");
        let t = truncate_chars(self.title.as_str(), self.max_chars);
        push_str(&mut s, t.as_str());
        s
    }
}

// ── memory ───────────────────────────────────────────────────────────────────

/// The first whitespace-separated word of `s` as a number of kB, 0 if there is none
/// or it is not a number.
pub open spec fn parse_kb_spec(s: Seq<char>) -> u64 {
    let ws = words(s);
    if ws.len() == 0 {
        0
    } else {
        match parse_unsigned(ws[0], u64::MAX as nat) {
            Some(n) => n as u64,
            None => 0,
        }
    }
}

pub fn parse_kb(s: &str) -> (n: u64)
    ensures
        n == parse_kb_spec(s@),
{
    let v = chars_of(s);
    let ws = word_ranges(v.as_slice(), 0, v.len());
    assert(v@.subrange(0, v@.len() as int) == s@);
    if ws.len() == 0 {
        return 0;
    }
    let (a, b) = ws[0];
    let w = string_of(v.as_slice(), a, b);
    match parse_unsigned_exec(w.as_str(), 0xffff_ffff_ffff_ffff) {
        Some(n) => n,
        None => 0,
    }
}

/// The last `MemTotal:` and `MemAvailable:` values of /proc/meminfo (0 if absent).
pub open spec fn meminfo_field(ls: Seq<Seq<char>>, key: Seq<char>) -> u64
    decreases ls.len(),
{
    if ls.len() == 0 {
        0
    } else if starts_with(ls.last(), key) {
        parse_kb_spec(ls.last().skip(key.len() as int))
    } else {
        meminfo_field(ls.drop_last(), key)
    }
}

/// Used and total memory in MiB from /proc/meminfo: total minus available, floored at 0.
pub open spec fn meminfo_spec(s: Seq<char>) -> (u64, u64) {
    let ls = split(s, '\n');
    let total = meminfo_field(ls, "MemTotal:"@);
    let avail = meminfo_field(ls, "MemAvailable:"@);
    let used = if total >= avail { total - avail } else { 0 };
    ((used / 1024) as u64, (total / 1024) as u64)
}

fn meminfo_value(v: &[char], ranges: &Vec<(usize, usize)>, key: &str) -> (n: u64)
    requires
        forall|k: int| 0 <= k < ranges@.len() ==> (#[trigger] ranges@[k]).0 <= ranges@[k].1 <= v@.len(),
    ensures
        n == meminfo_field(Seq::new(ranges@.len(), |k: int| v@.subrange(ranges@[k].0 as int, ranges@[k].1 as int)), key@),
{
    let ghost ls = Seq::new(ranges@.len(), |k: int| v@.subrange(ranges@[k].0 as int, ranges@[k].1 as int));
    let kv = chars_of(key);
    assert(ls.take(ls.len() as int) == ls);
    let mut i: usize = ranges.len();
    while i > 0
        invariant
            i <= ranges@.len(),
            kv@ == key@,
            ls == Seq::new(ranges@.len(), |k: int| v@.subrange(ranges@[k].0 as int, ranges@[k].1 as int)),
            forall|k: int| 0 <= k < ranges@.len() ==> (#[trigger] ranges@[k]).0 <= ranges@[k].1 <= v@.len(),
            meminfo_field(ls, key@) == meminfo_field(ls.take(i as int), key@),
        decreases i,
    {
        let (a, b) = ranges[i - 1];
        let line = string_of(v, a, b);
        let lv = chars_of(line.as_str());
        assert(ls.take(i as int).last() == ls[i - 1]);
        assert(ls.take(i as int).drop_last() == ls.take(i - 1));
        if starts_with_chars(lv.as_slice(), kv.as_slice()) {
            let rest = string_of(lv.as_slice(), kv.len(), lv.len());
            return parse_kb(rest.as_str());
        }
        i = i - 1;
    }
    0
}

/// Used and total memory in MiB read from the text of /proc/meminfo.
pub fn parse_meminfo(s: &str) -> (r: (u64, u64))
    ensures
        r == meminfo_spec(s@),
{
    let v = chars_of(s);
    let ranges = split_ranges(v.as_slice(), 0, v.len(), '\n');
    assert(v@.subrange(0, v@.len() as int) == s@);
    let ghost ls = Seq::new(ranges@.len(), |k: int| v@.subrange(ranges@[k].0 as int, ranges@[k].1 as int));
    assert(ls =~= split(s@, '\n'));
    let total = meminfo_value(v.as_slice(), &ranges, "MemTotal:");
    let avail = meminfo_value(v.as_slice(), &ranges, "MemAvailable:");
    let used = if total >= avail { total - avail } else { 0 };
    (used / 1024, total / 1024)
}

/// Memory widget: used and total MiB, read every 2 s.
pub struct MemoryWidget {
    pub used_mb: u64,
    pub total_mb: u64,
    pub last_ms: u64,
}

impl MemoryWidget {
    /// A widget showing the memory described by `meminfo` (the text of /proc/meminfo).
    pub fn new(meminfo: &str) -> (w: MemoryWidget)
        ensures
            (w.used_mb, w.total_mb) == meminfo_spec(meminfo@),
            w.last_ms == 0,
    {
        let (u, t) = parse_meminfo(meminfo);
        MemoryWidget { used_mb: u, total_mb: t, last_ms: 0 }
    }

    pub fn due(&self, now_ms: u64) -> (b: bool)
        requires
            now_ms >= self.last_ms,
        ensures
            b == (now_ms - self.last_ms >= 2000),
    {
        !(now_ms - self.last_ms < 2000)
    }

    pub fn apply(&mut self, meminfo: &str, now_ms: u64)
        ensures
            (final(self).used_mb, final(self).total_mb) == meminfo_spec(meminfo@),
            final(self).last_ms == now_ms,
    {
        self.last_ms = now_ms;
        let (u, t) = parse_meminfo(meminfo);
        self.used_mb = u;
        self.total_mb = t;
    }
}

// ── status indicators ────────────────────────────────────────────────────────

/// Pending package updates and whether the game-streaming server runs, checked every
/// 10 minutes.
pub struct SystrayWidget {
    pub updates: u32,
    pub sunshine: bool,
    pub last_ms: u64,
}

/// Number of lines of `text` that are not blank.
pub open spec fn count_nonblank(ls: Seq<Seq<char>>) -> int
    decreases ls.len(),
{
    if ls.len() == 0 {
        0
    } else {
        count_nonblank(ls.drop_last()) + if trim(ls.last()).len() > 0 { 1int } else { 0int }
    }
}

impl SystrayWidget {
    /// The first check comes 30 s after `now_ms` (as if the last was 9.5 minutes ago).
    pub fn new(now_ms: u64) -> (w: SystrayWidget)
        ensures
            w.updates == 0 && !w.sunshine,
            w.last_ms == if now_ms >= 570_000 { now_ms - 570_000 } else { 0 },
    {
        let start = if now_ms >= 570_000 { now_ms - 570_000 } else { 0 };
        SystrayWidget { updates: 0, sunshine: false, last_ms: start }
    }

    pub fn due(&self, now_ms: u64) -> (b: bool)
        requires
            now_ms >= self.last_ms,
        ensures
            b == (now_ms - self.last_ms >= 600_000),
    {
        !(now_ms - self.last_ms < 600_000)
    }

    /// Stores the output of the update check (one package per line) and whether the
    /// streaming server is running.
    pub fn apply(&mut self, updates_out: &str, sunshine: bool, now_ms: u64)
        requires
            split(updates_out@, '\n').len() <= u32::MAX,
        ensures
            final(self).updates == count_nonblank(split(updates_out@, '\n')),
            final(self).sunshine == sunshine,
            final(self).last_ms == now_ms,
    {
        self.last_ms = now_ms;
        let v = chars_of(updates_out);
        let ranges = split_ranges(v.as_slice(), 0, v.len(), '\n');
        assert(v@.subrange(0, v@.len() as int) == updates_out@);
        let ghost ls = split(updates_out@, '\n');
        let mut n: u32 = 0;
        let mut i: usize = 0;
        while i < ranges.len()
            invariant
                i <= ranges@.len(),
                ranges@.len() == ls.len() <= u32::MAX,
                v@ == updates_out@,
                forall|k: int| 0 <= k < ranges@.len() ==> (#[trigger] ranges@[k]).0 <= ranges@[k].1 <= v@.len()
                    && v@.subrange(ranges@[k].0 as int, ranges@[k].1 as int) == ls[k],
                n == count_nonblank(ls.take(i as int)),
                n <= i,
            decreases ranges.len() - i,
        {
            let (a, b) = ranges[i];
            let (lo, hi) = trim_range(v.as_slice(), a, b);
            assert(ls.take(i + 1).drop_last() == ls.take(i as int));
            assert(ls.take(i + 1).last() == ls[i as int]);
            if lo < hi {
                n = n + 1;
            }
            i = i + 1;
        }
        assert(ls.take(ls.len() as int) == ls);
        self.updates = n;
        self.sunshine = sunshine;
    }
}

// ── weather ──────────────────────────────────────────────────────────────────

/// The glyph for a WMO weather code.
pub open spec fn wmo_icon_spec(code: u32) -> Seq<char> {
    if code == 0 {
        "\u{f0599}"@
    } else if 1 <= code <= 3 {
        "\u{f0595}"@
    } else if code == 45 || code == 48 {
        "\u{f0591}"@
    } else if (51 <= code <= 57) || (61 <= code <= 67) || (80 <= code <= 82) {
        "\u{f0597}"@
    } else if (71 <= code <= 77) || code == 85 || code == 86 {
        "\u{f059b}"@
    } else if 95 <= code <= 99 {
        "\u{f0593}"@
    } else {
        "\u{f0590}"@
    }
}

pub fn wmo_icon(code: u32) -> (r: &'static str)
    ensures
        r@ == wmo_icon_spec(code),
{
    if code == 0 {
        "\u{f0599}"
    } else if 1 <= code && code <= 3 {
        "\u{f0595}"
    } else if code == 45 || code == 48 {
        "\u{f0591}"
    } else if (51 <= code && code <= 57) || (61 <= code && code <= 67) || (80 <= code && code <= 82) {
        "\u{f0597}"
    } else if (71 <= code && code <= 77) || code == 85 || code == 86 {
        "\u{f059b}"
    } else if 95 <= code && code <= 99 {
        "\u{f0593}"
    } else {
        "\u{f0590}"
    }
}

// ── cpu ──────────────────────────────────────────────────────────────────────

/// The words of `ws` that parse as numbers, in order.
pub open spec fn numbers_in(ws: Seq<Seq<char>>) -> Seq<u64>
    decreases ws.len(),
{
    if ws.len() == 0 {
        Seq::empty()
    } else {
        match parse_unsigned(ws.last(), u64::MAX as nat) {
            Some(n) => numbers_in(ws.drop_last()).push(n as u64),
            None => numbers_in(ws.drop_last()),
        }
    }
}

pub open spec fn sum_of(ns: Seq<u64>) -> int
    decreases ns.len(),
{
    if ns.len() == 0 {
        0
    } else {
        sum_of(ns.drop_last()) + ns.last()
    }
}

/// The counters of the first line of /proc/stat (after the `cpu` label).
pub open spec fn stat_numbers(s: Seq<char>) -> Seq<u64> {
    let ws = words(split(s, '\n')[0]);
    numbers_in(if ws.len() > 0 { ws.skip(1) } else { ws })
}

/// Idle time and total time from /proc/stat: the fourth counter and the sum of all;
/// `(0, 1)` when there are fewer than four counters.
pub open spec fn read_stat_spec(s: Seq<char>) -> (u64, u64) {
    let ns = stat_numbers(s);
    if ns.len() < 4 {
        (0, 1)
    } else {
        (ns[3], sum_of(ns) as u64)
    }
}

pub fn parse_stat(s: &str) -> (r: (u64, u64))
    requires
        sum_of(stat_numbers(s@)) <= u64::MAX,
    ensures
        r == read_stat_spec(s@),
{
    let v = chars_of(s);
    let lines = split_ranges(v.as_slice(), 0, v.len(), '\n');
    assert(v@.subrange(0, v@.len() as int) == s@);
    proof {
        crate::strs::lemma_split_nonempty(s@, '\n');
    }
    let (a, b) = lines[0];
    assert(v@.subrange(a as int, b as int) == split(s@, '\n')[0]);
    let ws = word_ranges(v.as_slice(), a, b);
    let ghost wv = words(split(s@, '\n')[0]);
    let ghost rest = if wv.len() > 0 { wv.skip(1) } else { wv };
    let mut nums: Vec<u64> = Vec::new();
    let mut sum: u64 = 0;
    let mut i: usize = 1;
    if ws.len() == 0 {
        assert(rest.len() == 0);
        assert(numbers_in(rest) == Seq::<u64>::empty());
        return (0, 1);
    }
    while i < ws.len()
        invariant
            1 <= i <= ws@.len(),
            ws@.len() == wv.len(),
            wv.len() > 0 && rest == wv.skip(1),
            v@ == s@,
            forall|k: int| 0 <= k < ws@.len() ==> (#[trigger] ws@[k]).0 <= ws@[k].1 <= v@.len()
                && v@.subrange(ws@[k].0 as int, ws@[k].1 as int) == wv[k],
            nums@ == numbers_in(rest.take(i - 1)),
            sum == sum_of(nums@),
            sum_of(numbers_in(rest)) <= u64::MAX,
        decreases ws.len() - i,
    {
        let (c, d) = ws[i];
        let w = string_of(v.as_slice(), c, d);
        assert(rest.take(i as int).drop_last() == rest.take(i - 1));
        assert(rest.take(i as int).last() == wv[i as int]);
        proof {
            lemma_numbers_prefix(rest, i as int);
        }
        match parse_unsigned_exec(w.as_str(), 0xffff_ffff_ffff_ffff) {
            Some(n) => {
                nums.push(n);
                assert(nums@.drop_last() == numbers_in(rest.take(i - 1)));
                sum = sum + n;
            },
            None => {},
        }
        i = i + 1;
    }
    assert(rest.take(i - 1) == rest);
    if nums.len() < 4 {
        (0, 1)
    } else {
        (nums[3], sum)
    }
}

/// Whether the counters of /proc/stat's first line sum within `u64`, as
/// `parse_stat` needs.
pub fn stat_sum_fits(s: &str) -> (b: bool)
    ensures
        b == (sum_of(stat_numbers(s@)) <= u64::MAX),
{
    let v = chars_of(s);
    let lines = split_ranges(v.as_slice(), 0, v.len(), '\n');
    assert(v@.subrange(0, v@.len() as int) == s@);
    proof {
        crate::strs::lemma_split_nonempty(s@, '\n');
    }
    let (a, b) = lines[0];
    assert(v@.subrange(a as int, b as int) == split(s@, '\n')[0]);
    let ws = word_ranges(v.as_slice(), a, b);
    let ghost wv = words(split(s@, '\n')[0]);
    let ghost rest = if wv.len() > 0 { wv.skip(1) } else { wv };
    if ws.len() == 0 {
        assert(rest.len() == 0);
        assert(numbers_in(rest) == Seq::<u64>::empty());
        return true;
    }
    let ghost mut nums: Seq<u64> = Seq::empty();
    let mut sum: u64 = 0;
    let mut i: usize = 1;
    while i < ws.len()
        invariant
            1 <= i <= ws@.len(),
            ws@.len() == wv.len(),
            wv.len() > 0 && rest == wv.skip(1),
            v@ == s@,
            forall|k: int| 0 <= k < ws@.len() ==> (#[trigger] ws@[k]).0 <= ws@[k].1 <= v@.len()
                && v@.subrange(ws@[k].0 as int, ws@[k].1 as int) == wv[k],
            wv == words(split(s@, '\n')[0]),
            nums == numbers_in(rest.take(i - 1)),
            sum == sum_of(nums),
        decreases ws.len() - i,
    {
        let (c, d) = ws[i];
        let w = string_of(v.as_slice(), c, d);
        assert(rest.take(i as int).drop_last() == rest.take(i - 1));
        assert(rest.take(i as int).last() == wv[i as int]);
        match parse_unsigned_exec(w.as_str(), 0xffff_ffff_ffff_ffff) {
            Some(n) => {
                proof {
                    nums = nums.push(n);
                    assert(nums.drop_last() == numbers_in(rest.take(i - 1)));
                }
                match sum.checked_add(n) {
                    Some(t) => {
                        sum = t;
                    },
                    None => {
                        proof {
                            lemma_numbers_prefix(rest, i as int);
                            assert(numbers_in(rest.take(i as int)) == nums);
                            assert(sum_of(nums) == sum + n);
                        }
                        return false;
                    },
                }
            },
            None => {},
        }
        i = i + 1;
    }
    assert(rest.take(i - 1) == rest);
    true
}

/// Sums over a prefix of the numbers are no larger than over all of them.
proof fn lemma_numbers_prefix(ws: Seq<Seq<char>>, i: int)
    requires
        0 <= i <= ws.len(),
    ensures
        sum_of(numbers_in(ws.take(i))) <= sum_of(numbers_in(ws)),
    decreases ws.len() - i,
{
    if i < ws.len() {
        lemma_numbers_prefix(ws, i + 1);
        assert(ws.take(i + 1).drop_last() == ws.take(i));
        let a = numbers_in(ws.take(i));
        match parse_unsigned(ws.take(i + 1).last(), u64::MAX as nat) {
            Some(n) => {
                assert(numbers_in(ws.take(i + 1)) == a.push(n as u64));
                assert(a.push(n as u64).drop_last() == a);
            },
            None => {},
        }
    } else {
        assert(ws.take(i) == ws);
    }
}

/// `a - b`, or 0 where `b` is larger.
pub open spec fn sat_sub(a: u64, b: u64) -> u64 {
    if a >= b { (a - b) as u64 } else { 0 }
}

/// CPU widget: the idle and total counters of the previous sample, and the busy and
/// total time between the last two samples that were apart.
pub struct CpuWidget {
    pub prev_idle: u64,
    pub prev_total: u64,
    pub busy: Option<(u64, u64)>,
    pub last_ms: u64,
}

/// A new sample can be taken against `w`: the idle time has not grown by more
/// than the total time.
pub open spec fn cpu_sample_ok(w: CpuWidget, stat: Seq<char>) -> bool {
    let (idle, total) = read_stat_spec(stat);
    let dt = sat_sub(total, w.prev_total);
    dt > 0 ==> sat_sub(idle, w.prev_idle) <= dt
}

impl CpuWidget {
    /// Starts from the counters of a first reading of /proc/stat.
    pub fn new(stat: &str) -> (w: CpuWidget)
        requires
            sum_of(stat_numbers(stat@)) <= u64::MAX,
        ensures
            (w.prev_idle, w.prev_total) == read_stat_spec(stat@),
            w.busy is None,
            w.last_ms == 0,
    {
        let (idle, total) = parse_stat(stat);
        CpuWidget { prev_idle: idle, prev_total: total, busy: None, last_ms: 0 }
    }

    /// A new sample is due a second after the last one.
    pub fn due(&self, now_ms: u64) -> (b: bool)
        requires
            now_ms >= self.last_ms,
        ensures
            b == (now_ms - self.last_ms >= 1_000),
    {
        now_ms - self.last_ms >= 1_000
    }

    /// Takes a sample: the time since the previous one, split into busy and total,
    /// replaces the last share when any time has passed; the counters move on.
    pub fn apply(&mut self, stat: &str, now_ms: u64)
        requires
            sum_of(stat_numbers(stat@)) <= u64::MAX,
            cpu_sample_ok(*old(self), stat@),
        ensures
            ({
                let (idle, total) = read_stat_spec(stat@);
                let dt = sat_sub(total, old(self).prev_total);
                let di = sat_sub(idle, old(self).prev_idle);
                &&& final(self).prev_idle == idle
                &&& final(self).prev_total == total
                &&& final(self).last_ms == now_ms
                &&& final(self).busy == if dt > 0 {
                    Some(((dt - di) as u64, dt))
                } else {
                    old(self).busy
                }
            }),
    {
        let (idle, total) = parse_stat(stat);
        let dt = total.saturating_sub(self.prev_total);
        let di = idle.saturating_sub(self.prev_idle);
        if dt > 0 {
            self.busy = Some((dt - di, dt));
        }
        self.prev_idle = idle;
        self.prev_total = total;
        self.last_ms = now_ms;
    }
}

// ── small widgets ────────────────────────────────────────────────────────────

/// Clock widget: a strftime format.
pub struct ClockWidget {
    pub format: String,
}

impl ClockWidget {
    pub fn new() -> (w: ClockWidget)
        ensures
            w.format@ == "%a %d %b  %H:%M"@,
    {
        ClockWidget { format: string_from("%a %d %b  %H:%M") }
    }
}

/// Focused window title, cut to a number of characters.
pub struct WindowTitleWidget {
    pub max_chars: usize,
}

impl WindowTitleWidget {
    pub fn new() -> (w: WindowTitleWidget)
        ensures
            w.max_chars == 40,
    {
        WindowTitleWidget { max_chars: 40 }
    }

    /// The title as shown: cut to `max_chars`, ending in `…` when cut.
    pub fn display(&self, title: &str) -> (s: String)
        requires
            title@.len() <= self.max_chars || self.max_chars >= 1,
        ensures
            s@ == truncate_chars_spec(title@, self.max_chars as int),
    {
        truncate_chars(title, self.max_chars)
    }
}

/// Workspace pills; remembers how many there were for its width.
pub struct WorkspacesWidget {
    pub last_count: usize,
}

impl WorkspacesWidget {
    pub fn new() -> (w: WorkspacesWidget)
        ensures
            w.last_count == 1,
    {
        WorkspacesWidget { last_count: 1 }
    }

    /// Records the number of workspaces drawn (at least one pill's room is kept).
    pub fn set_count(&mut self, n: usize)
        ensures
            final(self).last_count == if n > 1 { n } else { 1 },
    {
        self.last_count = if n > 1 { n } else { 1 };
    }
}

/// The activities button.
pub struct ActivitiesWidget {
    pub label: String,
}

impl ActivitiesWidget {
    pub fn new() -> (w: ActivitiesWidget)
        ensures
            w.label@ == " \u{f00b} "@,
    {
        ActivitiesWidget { label: string_from(" \u{f00b} ") }
    }
}

/// The control-centre button.
pub struct ControlCenterWidget;

impl ControlCenterWidget {
    pub fn new() -> (w: ControlCenterWidget) {
        ControlCenterWidget
    }
}

} // verus!
