use woven_shell::keybinds::{sway_keybinds_text, toml_keybinds_text, Bind, KeybindsCfg};

fn bind(cat: &str, key: &str, action: &str, label: &str) -> Bind {
    Bind {
        category: cat.to_string(),
        key: key.to_string(),
        action: action.to_string(),
        label: label.to_string(),
    }
}

#[test]
fn sway_text_orders_fixed_categories_then_others() {
    let binds = vec![
        bind("custom", "$mod+x", "exec foo", "Foo"),
        bind("apps", "$mod+b", "exec firefox", "Browser"),
        bind("core", "$mod+Return", "exec kitty", "Terminal"),
        bind("apps", "$mod+e", "exec thunar", "Files"),
    ];
    let text = sway_keybinds_text(&binds);
    let core = text.find("# ── Core ").unwrap();
    let apps = text.find("# ── Apps ").unwrap();
    let custom = text.find("# ── custom ").unwrap();
    let resize = text.find("# ── Resize mode").unwrap();
    assert!(core < apps && apps < custom && custom < resize);
    assert!(text.contains("bindsym $mod+b exec firefox\nbindsym $mod+e exec thunar\n\n"));
    assert!(text.starts_with("# ── woven-keybinds"));
    assert!(text.ends_with("bindsym $mod+r mode \"resize\"\n"));
    let core_line = text.lines().find(|l| l.starts_with("# ── Core ")).unwrap();
    assert_eq!(core_line, format!("# ── Core {}", "─".repeat(66)));
    let custom_line = text.lines().find(|l| l.starts_with("# ── custom ")).unwrap();
    assert_eq!(custom_line, format!("# ── custom {}", "─".repeat(62)));
}

#[test]
fn sway_text_empty_binds_has_only_frame() {
    let text = sway_keybinds_text(&[]);
    assert!(!text.contains("bindsym $mod+Return"));
    assert!(text.contains("mode \"resize\" {\n"));
    assert_eq!(text.matches("# ── ").count(), 2);
}

#[test]
fn toml_text_quotes_fields() {
    let cfg = KeybindsCfg { binds: vec![bind("apps", "$mod+b", "exec \"x\"", "B")] };
    let text = toml_keybinds_text(&cfg);
    assert!(text.starts_with("# woven-cfg managed keybinds — source of truth\n"));
    assert!(text.contains("[[bind]]\ncategory = \"apps\"\nkey      = \"$mod+b\"\naction   = \"exec \\\"x\\\"\"\nlabel    = \"B\"\n\n"));
}

#[test]
fn every_bind_line_written() {
    let binds = vec![
        bind("media", "XF86AudioPlay", "exec playerctl play-pause", "Play"),
        bind("misc", "$mod+z", "exec zoom", "Zoom"),
        bind("focus", "$mod+h", "focus left", "Left"),
        bind("misc", "$mod+y", "exec yazi", "Yazi"),
        bind("", "$mod+q", "kill", "Kill"),
    ];
    let text = sway_keybinds_text(&binds);
    for b in &binds {
        assert!(text.contains(&format!("bindsym {} {}\n", b.key, b.action)));
    }
    assert_eq!(text.matches("# ── misc ").count(), 1);
}
