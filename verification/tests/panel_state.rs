use woven_shell::panel::ConfigFile;
use woven_shell::cfg::{BarSettings, BarSlot, LaunchCfg, LockCfg, WallSettings};
use woven_shell::keybinds::Bind;
use woven_shell::panel::{cat_color, category_header, Input, Panel, PanelCfg, SwayField, Tab, ZoneAction};
use woven_shell::panel_forms::{BarField, BarToggleField, LaunchField, LockField, LockToggleField, WallField};

fn bind(cat: &str, key: &str, action: &str, label: &str) -> Bind {
    Bind { category: cat.into(), key: key.into(), action: action.into(), label: label.into() }
}

fn panel() -> Panel {
    let cfg = PanelCfg {
        binds: vec![bind("core", "$mod+Return", "exec kitty", "Terminal"), bind("media", "XF86AudioMute", "exec mute", "Mute")],
        bar: BarSettings::default(),
        wall: WallSettings::default(),
        lock: LockCfg::default(),
        lock_program: "woven-lock".to_string(),
        launch: LaunchCfg::default(),
    };
    Panel::new(cfg, "13".to_string(), "1.5".to_string())
}

fn type_text(p: &mut Panel, s: &str) {
    for c in s.chars() {
        p.handle(Input::Char(c));
    }
}

#[test]
fn labels_colors_headers() {
    let labels: Vec<&str> = Tab::all().into_iter().map(|t| t.label()).collect();
    assert_eq!(labels, vec!["Bar", "Wall", "Lock", "Launch", "Sway", "Theme"]);
    assert_eq!(cat_color("apps"), "#00e5c8");
    assert_eq!(cat_color("zzz"), "#cdd6f4");
    assert_eq!(category_header("media"), "── Media / System");
    assert_eq!(category_header("zzz"), "── Other");
}

#[test]
fn new_panel_fills_forms() {
    let p = panel();
    assert!(p.tab == Tab::Sway);
    assert_eq!(p.bar_inputs.height.value, "34");
    assert_eq!(p.bar_inputs.height.cursor, 2);
    assert_eq!(p.bar_inputs.position.value, "top");
    assert_eq!(p.bar_inputs.font_size.value, "13");
    assert!(!p.bar_inputs.use_bubbles.value);
    assert!(!p.bar_inputs.wallpaper_theme.value);
    assert_eq!(p.wall_inputs.interval.value, "0");
    assert_eq!(p.wall_inputs.transition_secs.value, "1.5");
    assert_eq!(p.lock_inputs.blur_radius.value, "20");
    assert_eq!(p.lock_inputs.fade_in_ms.value, "200");
    assert_eq!(p.lock_inputs.lock_program, "woven-lock");
    assert_eq!(p.launch_inputs.width.value, "620");
    assert_eq!(p.selected_theme, "catppuccin");
    assert!(p.dirty && !p.should_close);
}

#[test]
fn add_new_bind() {
    let mut p = panel();
    assert!(!p.dispatch_action(ZoneAction::SwayAdd));
    p.dispatch_action(ZoneAction::SwayEditField(SwayField::Key));
    p.handle(Input::KeyCombo { key: "$mod+b".to_string() });
    let e = p.sway_edit.as_ref().unwrap();
    assert!(e.focused == SwayField::Label);
    assert!(!e.key.capturing);
    type_text(&mut p, "Web");
    p.handle(Input::Tab);
    type_text(&mut p, "exec firefox");
    p.handle(Input::Enter);
    assert!(p.sway_edit.is_none());
    assert_eq!(p.cfg.binds.len(), 3);
    let b = &p.cfg.binds[2];
    assert_eq!((b.category.as_str(), b.key.as_str(), b.label.as_str(), b.action.as_str()), ("apps", "$mod+b", "Web", "exec firefox"));
}

#[test]
fn edit_existing_keeps_category() {
    let mut p = panel();
    p.dispatch_action(ZoneAction::SwayEdit(1));
    p.dispatch_action(ZoneAction::SwayEditField(SwayField::Action));
    p.handle(Input::CtrlBackspace);
    type_text(&mut p, "pamixer -t");
    p.dispatch_action(ZoneAction::SwayEditSave);
    assert_eq!(p.cfg.binds.len(), 2);
    assert_eq!(p.cfg.binds[1].category, "media");
    assert_eq!(p.cfg.binds[1].action, "exec pamixer -t");
    assert!(p.can_save());
}

#[test]
fn empty_key_is_refused() {
    let mut p = panel();
    p.dispatch_action(ZoneAction::SwayAdd);
    p.dispatch_action(ZoneAction::SwayEditSave);
    assert!(p.sway_edit.is_some());
    assert_eq!(p.cfg.binds.len(), 2);
    let (msg, err) = p.status_msg.clone().unwrap();
    assert_eq!(msg, "Key and action cannot be empty");
    assert!(err);
    assert_eq!(p.status_timer, 120);
    for _ in 0..119 {
        p.tick_status();
    }
    assert!(p.status_msg.is_some());
    p.tick_status();
    assert!(p.status_msg.is_none());
}

#[test]
fn delete_and_cancel() {
    let mut p = panel();
    p.dispatch_action(ZoneAction::SwayDelete(0));
    assert_eq!(p.cfg.binds.len(), 1);
    assert_eq!(p.cfg.binds[0].key, "XF86AudioMute");
    p.dispatch_action(ZoneAction::SwayAdd);
    p.dispatch_action(ZoneAction::SwayEditCancel);
    assert!(p.sway_edit.is_none());
}

#[test]
fn tab_key_cycles_focus() {
    let mut p = panel();
    p.dispatch_action(ZoneAction::SwayAdd);
    p.handle(Input::Tab);
    assert!(p.sway_edit.as_ref().unwrap().focused == SwayField::Label);
    p.handle(Input::Tab);
    assert!(p.sway_edit.as_ref().unwrap().focused == SwayField::Action);
    p.handle(Input::Tab);
    let e = p.sway_edit.as_ref().unwrap();
    assert!(e.focused == SwayField::Key);
    assert!(e.key.capturing);
    // typing while a key combo is captured goes nowhere
    p.handle(Input::Char('x'));
    assert_eq!(p.sway_edit.as_ref().unwrap().label.value, "");
}

#[test]
fn escape_steps_back() {
    let mut p = panel();
    p.dispatch_action(ZoneAction::SwayAdd);
    p.dispatch_action(ZoneAction::SwayEditField(SwayField::Key));
    p.handle(Input::Escape);
    assert!(!p.sway_edit.as_ref().unwrap().key.capturing);
    p.handle(Input::Escape);
    assert!(p.sway_edit.is_none());
    p.dispatch_action(ZoneAction::BarModuleAdd(BarSlot::Left));
    p.handle(Input::Escape);
    assert!(p.bar_module_picker.is_none());
    p.dispatch_action(ZoneAction::BarFieldFocus(BarField::Dim));
    p.handle(Input::Escape);
    assert!(p.bar_focused.is_none());
}

#[test]
fn typing_goes_to_focused_field_and_apply_writes_back() {
    let mut p = panel();
    p.dispatch_action(ZoneAction::SelectTab(Tab::Bar));
    assert!(p.tab == Tab::Bar);
    p.dispatch_action(ZoneAction::BarFieldFocus(BarField::Height));
    p.handle(Input::Backspace);
    p.handle(Input::Backspace);
    type_text(&mut p, " 40 ");
    assert_eq!(p.bar_inputs.height.value, " 40 ");
    p.dispatch_action(ZoneAction::BarFieldFocus(BarField::Position));
    p.handle(Input::CtrlBackspace);
    type_text(&mut p, "bottom ");
    p.dispatch_action(ZoneAction::BarToggle(BarToggleField::Bubbles));
    p.dispatch_action(ZoneAction::WallFieldFocus(WallField::Interval));
    type_text(&mut p, "x");
    p.dispatch_action(ZoneAction::WallKindSelect("color".to_string()));
    p.dispatch_action(ZoneAction::LockFieldFocus(LockField::FadeInMs));
    p.handle(Input::CtrlBackspace);
    type_text(&mut p, "350");
    p.dispatch_action(ZoneAction::LockFieldFocus(LockField::LockProgram));
    type_text(&mut p, "zzz");
    p.dispatch_action(ZoneAction::LockProgramSelect("swaylock".to_string()));
    p.dispatch_action(ZoneAction::LockToggle(LockToggleField::ShowDate));
    p.dispatch_action(ZoneAction::LaunchFieldFocus(LaunchField::Width));
    type_text(&mut p, "0");
    assert!(p.dispatch_action(ZoneAction::Apply));
    assert!(p.launch_focused.is_none());
    assert_eq!(p.cfg.bar.height, 40);
    assert_eq!(p.cfg.bar.position, "bottom");
    assert_eq!(p.cfg.bar.style, "bubbles");
    assert_eq!(p.cfg.bar.theme_source, "config");
    assert_eq!(p.cfg.wall.interval, 0);
    assert_eq!(p.cfg.wall.kind, "color");
    assert_eq!(p.cfg.lock.lock.fade_in_ms, 350);
    assert_eq!(p.cfg.lock.lock.fade_out_ms, 350);
    assert!(!p.cfg.lock.lock.show_date);
    assert_eq!(p.cfg.lock_program, "swaylock");
    assert_eq!(p.cfg.launch.launcher.width, 6200);
    assert_eq!(p.lock_inputs.blur_radius.value, "20");
}

#[test]
fn module_picker_and_removal() {
    let mut p = panel();
    p.dispatch_action(ZoneAction::BarModuleAdd(BarSlot::Center));
    p.dispatch_action(ZoneAction::BarModulePicker("weather".to_string()));
    assert!(p.bar_module_picker.is_none());
    assert_eq!(p.cfg.bar.modules.center, vec!["clock".to_string(), "weather".to_string()]);
    p.dispatch_action(ZoneAction::BarModulePicker("ignored".to_string()));
    assert_eq!(p.cfg.bar.modules.center.len(), 2);
    p.dispatch_action(ZoneAction::BarModuleRemove { slot: BarSlot::Left, idx: 0 });
    assert_eq!(p.cfg.bar.modules.left, vec!["workspaces".to_string(), "window_title".to_string()]);
    p.dispatch_action(ZoneAction::BarModuleRemove { slot: BarSlot::Left, idx: 9 });
    assert_eq!(p.cfg.bar.modules.left.len(), 2);
}

#[test]
fn theme_file_sets_bar_colours() {
    let mut p = panel();
    p.dispatch_action(ZoneAction::ThemeSelect("nord".to_string()));
    assert_eq!(p.selected_theme, "nord");
    p.apply_theme("[theme]\nbackground = \"#2e3440\"\naccent = \"#88c0d0\"\ndim = 3\n");
    assert_eq!(p.cfg.bar.background, "#2e3440");
    assert_eq!(p.cfg.bar.accent, "#88c0d0");
    assert_eq!(p.cfg.bar.foreground, "");
    assert_eq!(p.cfg.bar.dim, "");
    p.apply_theme("not toml [");
    assert_eq!(p.cfg.bar.background, "#2e3440");
}

#[test]
fn close_and_arrows() {
    let mut p = panel();
    p.handle(Input::Left);
    assert!(!p.should_close);
    assert!(!p.dispatch_action(ZoneAction::Close));
    assert!(p.should_close);
}

#[test]
fn apply_without_edits_keeps_config() {
    let mut p = panel();
    p.dispatch_action(ZoneAction::SelectTab(Tab::Lock));
    assert!(p.dispatch_action(ZoneAction::Apply));
    assert_eq!(p.cfg.bar.height, 34);
    assert_eq!(p.cfg.bar.position, "top");
    assert_eq!(p.cfg.bar.style, "solid");
    assert_eq!(p.cfg.bar.theme_source, "config");
    assert_eq!(p.cfg.lock.lock.blur_radius, 20);
    assert_eq!((p.cfg.lock.lock.fade_in_ms, p.cfg.lock.lock.fade_out_ms), (200, 200));
    assert_eq!(p.cfg.lock.background.dir, "~/Pictures/Wallpapers");
    assert_eq!(p.cfg.launch.launcher.width, 620);
    assert_eq!(p.cfg.launch.launcher.border_color, "#c792ea");
    assert_eq!(p.cfg.lock_program, "woven-lock");
    // a second Apply saves the same
    p.dispatch_action(ZoneAction::Apply);
    assert_eq!(p.cfg.bar.height, 34);
    assert_eq!(p.cfg.launch.launcher.max_results, 8);
    assert_eq!(p.cfg.binds.len(), 2);
}

#[test]
fn backspace_undoes_typed_char_in_panel() {
    let mut p = panel();
    p.dispatch_action(ZoneAction::LaunchFieldFocus(LaunchField::TextDim));
    let before = (p.launch_inputs.text_dim.value.clone(), p.launch_inputs.text_dim.cursor);
    p.handle(Input::Char('é'));
    assert_eq!(p.launch_inputs.text_dim.value, "#8888aaé");
    p.handle(Input::Backspace);
    assert_eq!((p.launch_inputs.text_dim.value.clone(), p.launch_inputs.text_dim.cursor), before);
}

fn zone_name(a: &ZoneAction) -> String {
    match a {
        ZoneAction::SwayEdit(i) => format!("edit{i}"),
        ZoneAction::SwayDelete(i) => format!("delete{i}"),
        ZoneAction::SwayAdd => "add".to_string(),
        ZoneAction::SwayEditField(SwayField::Key) => "key".to_string(),
        ZoneAction::SwayEditField(SwayField::Label) => "label".to_string(),
        ZoneAction::SwayEditField(SwayField::Action) => "action".to_string(),
        ZoneAction::SwayEditSave => "save".to_string(),
        ZoneAction::SwayEditCancel => "cancel".to_string(),
        _ => "other".to_string(),
    }
}

#[test]
fn keybind_tab_zones_follow_the_rows_and_the_editor() {
    let mut p = panel();
    let names: Vec<String> = p.sway_zone_actions().iter().map(zone_name).collect();
    assert_eq!(names, vec!["edit0", "delete0", "edit1", "delete1", "add"]);
    p.dispatch_action(ZoneAction::SwayEdit(0));
    let names: Vec<String> = p.sway_zone_actions().iter().map(zone_name).collect();
    assert_eq!(names, vec!["key", "label", "action", "save", "cancel", "edit1", "delete1", "add"]);
    p.dispatch_action(ZoneAction::SwayEditCancel);
    p.dispatch_action(ZoneAction::SwayAdd);
    let names: Vec<String> = p.sway_zone_actions().iter().map(zone_name).collect();
    assert_eq!(names, vec!["edit0", "delete0", "edit1", "delete1", "key", "label", "action", "save", "cancel", "add"]);
}

#[test]
fn empty_field_is_refused_even_when_the_edited_bind_was_deleted() {
    let mut p = panel();
    p.dispatch_action(ZoneAction::SwayEdit(1));
    p.dispatch_action(ZoneAction::SwayEditField(SwayField::Action));
    while !p.sway_edit.as_ref().unwrap().action.value.is_empty() {
        p.handle(Input::Backspace);
    }
    p.dispatch_action(ZoneAction::SwayDelete(0));
    assert_eq!(p.cfg.binds.len(), 1);
    assert_eq!(p.sway_edit.as_ref().unwrap().idx, Some(1));
    assert_eq!(p.sway_edit.as_ref().unwrap().action.value, "");
    assert!(p.can_save());
    p.dispatch_action(ZoneAction::SwayEditSave);
    assert!(p.sway_edit.is_some());
    assert_eq!(p.cfg.binds.len(), 1);
    assert_eq!(p.status_msg.clone().unwrap(), ("Key and action cannot be empty".to_string(), true));
    assert_eq!(p.status_timer, 120);
    p.handle(Input::Enter);
    assert!(p.sway_edit.is_some());
    assert_eq!(p.cfg.binds.len(), 1);
}

#[test]
fn apply_saves_the_file_of_the_tab() {
    let mut p = panel();
    let expect = [
        (Tab::Bar, ConfigFile::Bar),
        (Tab::Wall, ConfigFile::Wall),
        (Tab::Lock, ConfigFile::Lock),
        (Tab::Launch, ConfigFile::Launch),
        (Tab::Sway, ConfigFile::Keybinds),
        (Tab::Theme, ConfigFile::Bar),
    ];
    for (tab, file) in expect {
        p.tab = tab;
        assert!(p.save_target() == file);
    }
}
