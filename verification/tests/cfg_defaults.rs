use woven_shell::cfg::{BarSettings, BarSlot, LaunchCfg, LockCfg, ModulesCfg, WallSettings};

#[test]
fn config_defaults() {
    let l = LaunchCfg::default();
    assert_eq!((l.launcher.width, l.launcher.max_results), (620, 8));
    assert_eq!(l.launcher.selection_color, "#1a0035");
    let k = LockCfg::default();
    assert_eq!(k.background.kind, "random");
    assert_eq!(k.lock.date_format, "%A, %B %e");
}

#[test]
fn module_editing() {
    let mut m = ModulesCfg::default();
    m.add_module(BarSlot::Right, "clock".to_string());
    m.add_module(BarSlot::Right, "battery".to_string());
    assert_eq!(m.right, vec!["clock".to_string(), "battery".to_string()]);
    m.remove_module(BarSlot::Right, 0);
    assert_eq!(m.right, vec!["battery".to_string()]);
    m.remove_module(BarSlot::Right, 7);
    assert_eq!(m.right.len(), 1);
    assert!(m.left.is_empty());
}

#[test]
fn bar_and_wall_defaults() {
    let b = BarSettings::default();
    assert_eq!((b.height, b.position.as_str(), b.theme_source.as_str(), b.style.as_str()), (34, "top", "config", "solid"));
    assert_eq!(b.modules.left, vec!["activities", "workspaces", "window_title"]);
    assert_eq!(b.modules.right.len(), 8);
    let w = WallSettings::default();
    assert_eq!((w.kind.as_str(), w.interval), ("", 0));
}
