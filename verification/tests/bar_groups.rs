use woven_shell::bar::{OutputWait, WaitStep};
use woven_shell::bar::ModuleKind::{Activities, Audio, Battery, Clock, Separator, Workspaces};
use woven_shell::bar::{compute_groups, default_height, modules_changed, BarPosition, BarStyle, BarTimers, BubbleSettings, ModuleKind, Modules, ThemeSource};

#[test]
fn groups_split_at_separators() {
    let g = compute_groups(&[Activities, Workspaces, Separator, Clock, Separator, Separator, Audio]);
    assert_eq!(g, vec![vec![0, 1], vec![2], vec![3]]);
}

#[test]
fn groups_without_separators_is_one_group() {
    assert_eq!(compute_groups(&[Clock, Audio, Battery]), vec![vec![0, 1, 2]]);
    assert!(compute_groups(&[]).is_empty());
    assert!(compute_groups(&[Separator, Separator]).is_empty());
}

#[test]
fn bar_defaults() {
    assert_eq!(default_height(), 32);
    assert!(BarPosition::default() == BarPosition::Top);
    assert!(BarStyle::default() == BarStyle::Solid);
    assert!(ThemeSource::default() == ThemeSource::Config);
    let b = BubbleSettings::default();
    assert_eq!((b.radius, b.gap, b.padding, b.margin), (12, 6, 10, 4));
    assert_eq!(b.background, "#1a0a2e");
    let m = Modules::default();
    assert!(m.left == vec![ModuleKind::Activities, ModuleKind::Workspaces]);
    assert_eq!(m.right.len(), 4);
}

#[test]
fn loop_schedule() {
    let mut t = BarTimers::new(10_000);
    let d = t.due(11_000, true, false);
    assert!(!d.check_config && !d.check_theme && d.redraw);
    assert_eq!(t.last_tick_ms, 11_000);
    let d = t.due(11_016, true, true);
    assert!(d.redraw && !d.check_config);
    let d = t.due(12_000, false, false);
    assert!(d.check_config && !d.check_theme && !d.redraw);
    assert_eq!((t.last_cfg_check_ms, t.last_theme_check_ms), (12_000, 10_000));
    let d = t.due(12_001, true, false);
    assert!(d.check_theme && !d.check_config);
}

#[test]
fn module_lists_changed() {
    let a = Modules { left: vec![Activities, Separator, Clock], center: vec![], right: vec![Audio] };
    let b = Modules { left: vec![Activities, Separator, Clock], center: vec![], right: vec![Audio] };
    let c = Modules { left: vec![Activities, Clock], center: vec![], right: vec![Audio] };
    assert!(!modules_changed(&a, &b));
    assert!(modules_changed(&a, &c));
}

#[test]
fn output_wait_gives_up_after_its_rounds() {
    let mut w = OutputWait::new(3);
    assert!(!w.exhausted());
    assert!(w.after_dispatch(0) == WaitStep::Again);
    assert!(w.after_dispatch(2) == WaitStep::Ready);
    assert!(w.after_dispatch(0) == WaitStep::Again);
    assert!(w.after_dispatch(0) == WaitStep::GiveUp);
    assert!(w.exhausted());
    assert!(OutputWait::new(0).exhausted());
}
