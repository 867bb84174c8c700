use woven_shell::desktop::{parse_desktop_file, DesktopEntry};
use woven_shell::launch::{truncate, LaunchState, LauncherSettings};

fn entry(name: &str, exec: &str, terminal: bool) -> DesktopEntry {
    let text = format!(
        "[Desktop Entry]\nName={name}\nExec={exec}\nTerminal={}\n",
        if terminal { "true" } else { "false" }
    );
    parse_desktop_file(&text, "/x.desktop").unwrap()
}

fn state() -> LaunchState {
    let entries = vec![
        entry("Firefox", "firefox %u", false),
        entry("Files", "thunar", false),
        entry("Htop", "htop", true),
    ];
    LaunchState::new(LauncherSettings::default(), entries)
}

#[test]
fn starts_with_all_entries() {
    let s = state();
    assert_eq!(s.results.len(), 3);
    assert_eq!(s.selected, 0);
    assert!(s.query.is_empty());
}

#[test]
fn typing_filters_and_enter_launches() {
    let mut s = state();
    s.push_char('h');
    s.push_char('t');
    assert_eq!(s.results.len(), 1);
    assert_eq!(s.results[0].index, 2);
    s.confirm();
    assert_eq!(s.launch_exec.as_deref(), Some("kitty -e htop"));
    assert!(s.should_close);
}

#[test]
fn command_mode_runs_trimmed_text() {
    let mut s = state();
    for c in "!  ls -l ".chars() {
        s.push_char(c);
    }
    assert!(s.results.is_empty());
    s.confirm();
    assert_eq!(s.launch_exec.as_deref(), Some("ls -l"));
}

#[test]
fn calc_mode_launches_nothing() {
    let mut s = state();
    s.push_char('=');
    s.push_char('1');
    s.confirm();
    assert!(s.launch_exec.is_none());
    assert!(!s.should_close);
    assert_eq!(s.visible_count(), 1);
}

#[test]
fn escape_clears_then_closes() {
    let mut s = state();
    s.push_char('f');
    s.handle_escape();
    assert!(s.query.is_empty());
    assert!(!s.should_close);
    s.handle_escape();
    assert!(s.should_close);
}

#[test]
fn selection_moves_and_clamps() {
    let mut s = state();
    s.select_down();
    s.select_down();
    s.select_down();
    assert_eq!(s.selected, 2);
    s.select_up();
    assert_eq!(s.selected, 1);
    s.page_up();
    assert_eq!(s.selected, 0);
    s.page_down();
    assert_eq!(s.selected, 2);
    s.pop_char();
    assert_eq!(s.selected, 0);
}

#[test]
fn scroll_window_follows_selection() {
    let mut cfg = LauncherSettings::default();
    cfg.max_results = 2;
    let entries = vec![
        entry("A", "a", false),
        entry("B", "b", false),
        entry("C", "c", false),
        entry("D", "d", false),
    ];
    let mut s = LaunchState::new(cfg, entries);
    s.select_down();
    s.select_down();
    assert_eq!(s.selected, 2);
    assert_eq!(s.scroll_offset, 1);
    s.scroll(1);
    assert_eq!(s.scroll_offset, 2);
    assert_eq!(s.selected, 2);
    s.scroll(-1);
    s.scroll(-1);
    assert_eq!(s.scroll_offset, 0);
    assert_eq!(s.selected, 1);
    assert_eq!(s.visible_count(), 2);
}

#[test]
fn click_outside_closes_and_click_on_row_launches() {
    let mut s = state();
    s.click(true, Some(1));
    assert_eq!(s.launch_exec.as_deref(), Some("thunar"));
    let mut s2 = state();
    s2.click(false, None);
    assert!(s2.should_close);
    assert!(s2.launch_exec.is_none());
}

#[test]
fn hover_follows_pointer() {
    let mut s = state();
    s.dirty = false;
    s.set_hovered(Some(1));
    assert_eq!(s.hovered, Some(1));
    assert!(s.dirty);
}

#[test]
fn truncate_cuts_at_char_boundary() {
    assert_eq!(truncate("hello", 10), "hello");
    assert_eq!(truncate("hello world", 5), "hello...");
    assert_eq!(truncate("héllo", 2), "h...");
}

#[test]
fn backspace_restores_results() {
    let mut s = state();
    s.push_char('f');
    let before: Vec<(usize, i32)> = s.results.iter().map(|r| (r.index, r.score)).collect();
    assert_eq!(before.len(), 2);
    s.push_char('i');
    s.push_char('q');
    assert!(s.results.is_empty());
    s.pop_char();
    s.pop_char();
    let after: Vec<(usize, i32)> = s.results.iter().map(|r| (r.index, r.score)).collect();
    assert_eq!(s.query, "f");
    assert_eq!(after, before);
}

#[test]
fn scrolling_keeps_selection_in_window_and_results_unchanged() {
    let mut cfg = LauncherSettings::default();
    cfg.max_results = 3;
    let entries: Vec<DesktopEntry> =
        ["A", "B", "C", "D", "E", "F"].iter().map(|n| entry(n, &n.to_lowercase(), false)).collect();
    let mut s = LaunchState::new(cfg, entries);
    let before: Vec<usize> = s.results.iter().map(|r| r.index).collect();
    for d in [1, 1, 1, 1, 1, -1, 0, -1, -1, -1] {
        s.scroll(d);
        assert!(s.scroll_offset <= s.selected && s.selected < s.scroll_offset + 3);
        assert!(s.scroll_offset <= 3);
    }
    assert_eq!(s.scroll_offset, 0);
    let after: Vec<usize> = s.results.iter().map(|r| r.index).collect();
    assert_eq!(before, after);
}

#[test]
fn placeholder_and_footer_hints() {
    let mut s = state();
    assert_eq!(s.placeholder(), "Search apps, = calc, ! command...");
    assert_eq!(s.footer_hint(), "↑↓ navigate    ↵ launch    Esc close");
    s.cfg.command_runner = false;
    assert_eq!(s.placeholder(), "Search apps, = calc...");
    s.cfg.calculator = false;
    assert_eq!(s.placeholder(), "Search apps...");
    let mut cfg = LauncherSettings::default();
    cfg.max_results = 2;
    let entries = vec![entry("A", "a", false), entry("B", "b", false), entry("C", "c", false)];
    let mut t = LaunchState::new(cfg, entries);
    t.select_down();
    assert_eq!(t.footer_hint(), "↑↓ navigate    ↵ launch    Esc close    2 of 3");
    t.push_char('=');
    assert_eq!(t.footer_hint(), "= calculator mode    Esc close");
    t.pop_char();
    t.push_char('!');
    assert_eq!(t.footer_hint(), "↵ run command    Esc close");
}
