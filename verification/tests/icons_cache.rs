use std::io::Write;
use woven_shell::icons::{
    desktop_file_keys, expand_rgba, icon_file_candidates, load_png_rgba, settings_icon_theme, svg_source,
    IconCache, IconPlan,
};

fn square(size: u32, fill: u8) -> (u32, u32, Vec<u8>) {
    (size, size, vec![fill; (size * size * 4) as usize])
}

#[test]
fn overrides_and_cache() {
    let mut c = IconCache::new();
    assert_eq!(c.icon_size, 48);
    c.store("firefox".to_string(), None);
    c.store("kitty".to_string(), Some(square(48, 1)));
    c.register_override("FireFox".to_string(), "/icons/ff.png".to_string());
    assert_eq!(c.override_path("firefox").as_deref(), Some("/icons/ff.png"));
    assert!(c.cache_index("firefox").is_none());
    assert!(c.cache_index("kitty").is_some());
    c.register_override("firefox".to_string(), "/icons/ff2.png".to_string());
    assert_eq!(c.override_path("firefox").as_deref(), Some("/icons/ff2.png"));
    assert_eq!(c.overrides.len(), 1);
    c.store("missing".to_string(), None);
    c.register_override_default("/icons/default.png".to_string());
    assert!(c.cache_index("missing").is_none());
    assert!(c.cache_index("kitty").is_some());
    assert_eq!(c.override_default.as_deref(), Some("/icons/default.png"));
}

#[test]
fn desktop_keys_and_resolution() {
    let content = "[Desktop Entry]\nName=Files\nExec=/usr/bin/nautilus.sh --new-window %U\nIcon=org.gnome.Nautilus\nStartupWMClass=Nautilus\n[Desktop Action x]\nName=Other\n";
    let (icon, keys) = desktop_file_keys("org.gnome.Nautilus", content);
    assert_eq!(icon.as_deref(), Some("org.gnome.Nautilus"));
    assert_eq!(keys, vec!["files", "nautilus", "nautilus", "org.gnome.nautilus", "nautilus"]);
    let mut c = IconCache::new();
    c.add_desktop_keys(icon.as_deref().unwrap(), &keys);
    c.add_desktop_keys("other", &vec!["files".to_string(), "".to_string(), "new".to_string()]);
    assert_eq!(c.resolve_icon_name("files"), "org.gnome.Nautilus");
    assert_eq!(c.resolve_icon_name("new"), "other");
    assert_eq!(c.resolve_icon_name("org.example.Nautilus"), "org.gnome.Nautilus");
    assert_eq!(c.resolve_icon_name("unknown-app"), "unknown-app");
    c.add_desktop_keys("joined", &vec!["gnome-files".to_string()]);
    assert_eq!(c.resolve_icon_name("org.gnome.Files"), "org.gnome.Nautilus");
    assert_eq!(c.resolve_icon_name("org.gnome.Terminal"), "org.gnome.Terminal");
}

#[test]
fn rgba_expansion() {
    let rgb = vec![1, 2, 3, 4, 5, 6];
    assert_eq!(expand_rgba(2, 1, 2, &rgb), Some((2, 1, vec![1, 2, 3, 255, 4, 5, 6, 255])));
    let ga = vec![9, 100];
    assert_eq!(expand_rgba(1, 1, 4, &ga), Some((1, 1, vec![9, 9, 9, 100])));
    assert_eq!(expand_rgba(1, 1, 0, &vec![7]), Some((1, 1, vec![7, 7, 7, 255])));
    assert_eq!(expand_rgba(1, 1, 3, &vec![0]), None);
}

#[test]
fn png_bytes_decode_to_rgba() {
    let mut bytes = Vec::new();
    {
        let mut enc = png::Encoder::new(&mut bytes, 2, 1);
        enc.set_color(png::ColorType::Rgb);
        enc.set_depth(png::BitDepth::Eight);
        let mut w = enc.write_header().unwrap();
        w.write_image_data(&[10, 20, 30, 40, 50, 60]).unwrap();
    }
    assert_eq!(load_png_rgba(&bytes), Some((2, 1, vec![10, 20, 30, 255, 40, 50, 60, 255])));
    assert_eq!(load_png_rgba(b"not a png"), None);
}

#[test]
fn svgz_is_gunzipped() {
    let mut enc = flate2::write::GzEncoder::new(Vec::new(), flate2::Compression::default());
    enc.write_all(b"<svg/>").unwrap();
    let gz = enc.finish().unwrap();
    assert_eq!(svg_source(true, gz.clone()), Some(b"<svg/>".to_vec()));
    assert_eq!(svg_source(false, gz.clone()), Some(gz));
    assert_eq!(svg_source(true, b"plain".to_vec()), None);
}

#[test]
fn bar_gtk_theme_setting() {
    assert_eq!(settings_icon_theme("[Settings]\ngtk-icon-theme-name=Papirus-Dark\n"), Some("Papirus-Dark".to_string()));
    assert_eq!(settings_icon_theme("gtk-icon-theme-name = \"Adwaita\"\r\n"), Some("Adwaita".to_string()));
    assert_eq!(settings_icon_theme("gtk-icon-theme-name=a=b"), Some("a".to_string()));
    assert_eq!(settings_icon_theme("  gtk-icon-theme-name=Indented\n"), None);
    assert_eq!(settings_icon_theme("gtk-icon-theme-name Papirus\ngtk-icon-theme-name=\"\"\ngtk-icon-theme-name=Breeze"), Some("Breeze".to_string()));
    assert_eq!(settings_icon_theme(""), None);
}

#[test]
fn bar_icon_file_order() {
    let c = icon_file_candidates("/home/u", "kitty", None);
    assert_eq!(c.len(), 16);
    assert_eq!(c[0], ("/home/u/.local/share/icons/hicolor/48x48/apps/kitty.png".to_string(), false));
    assert_eq!(c[1].0, "/home/u/.local/share/icons/hicolor/32x32/apps/kitty.png");
    assert_eq!(c[7].0, "/usr/share/icons/hicolor/48x48/apps/kitty.png");
    assert_eq!(c[13].0, "/usr/share/icons/hicolor/16x16/apps/kitty.png");
    assert_eq!(c[14], ("/usr/share/pixmaps/kitty.png".to_string(), false));
    assert_eq!(c[15], ("/usr/share/pixmaps/kitty".to_string(), true));
    let t = icon_file_candidates("/h", "kitty", Some("Papirus"));
    assert_eq!(t.len(), 23);
    assert_eq!(t[14].0, "/usr/share/icons/Papirus/48x48/apps/kitty.png");
    assert_eq!(t[20].0, "/usr/share/icons/Papirus/16x16/apps/kitty.png");
    assert_eq!(t[21].0, "/usr/share/pixmaps/kitty.png");
}

#[test]
fn lookup_order_cache_override_scan_xdg() {
    let mut c = IconCache::new();
    let (key, step) = c.plan("Org.Gnome.Files");
    assert_eq!(key, "org.gnome.files");
    assert!(matches!(step, IconPlan::Scan));
    c.desktop_scanned = true;
    c.add_desktop_keys("system-file-manager", &vec!["files".to_string()]);
    match c.plan("org.gnome.Files").1 {
        IconPlan::Xdg { name, fallback } => {
            assert_eq!(name, "system-file-manager");
            assert!(fallback.is_none());
        }
        _ => panic!("expected an XDG lookup"),
    }
    c.register_override_default("/icons/default.png".to_string());
    c.register_override("firefox".to_string(), "/icons/ff.png".to_string());
    match c.plan("FireFox").1 {
        IconPlan::Override(p) => assert_eq!(p, "/icons/ff.png"),
        _ => panic!("expected the override"),
    }
    match c.plan("kitty").1 {
        IconPlan::Xdg { name, fallback } => {
            assert_eq!(name, "kitty");
            assert_eq!(fallback.as_deref(), Some("/icons/default.png"));
        }
        _ => panic!("expected an XDG lookup"),
    }
    c.store("kitty".to_string(), None);
    assert!(matches!(c.plan("Kitty").1, IconPlan::Cached(_)));
}

#[test]
fn stored_lookup_serves_every_case_of_the_id() {
    let mut c = IconCache::new();
    c.desktop_scanned = true;
    let (key, _) = c.plan("Kitty");
    c.store(key, Some(square(48, 5)));
    for id in ["kitty", "KITTY", "kItTy"] {
        match c.plan(id).1 {
            IconPlan::Cached(i) => assert_eq!(c.cache[i].1, Some(square(48, 5))),
            _ => panic!("expected the cached icon"),
        }
    }
}

#[test]
fn override_replaces_a_cached_lookup_only_for_its_class() {
    let mut c = IconCache::new();
    c.desktop_scanned = true;
    c.store("firefox".to_string(), Some(square(48, 1)));
    c.store("kitty".to_string(), Some(square(48, 2)));
    c.register_override("FireFox".to_string(), "/icons/ff.png".to_string());
    match c.plan("FIREFOX").1 {
        IconPlan::Override(p) => assert_eq!(p, "/icons/ff.png"),
        _ => panic!("expected the override"),
    }
    match c.plan("kitty").1 {
        IconPlan::Cached(i) => assert_eq!(c.cache[i].1, Some(square(48, 2))),
        _ => panic!("expected the cached icon"),
    }
}

#[test]
fn default_override_retries_misses_and_keeps_hits() {
    let mut c = IconCache::new();
    c.desktop_scanned = true;
    c.store("missing".to_string(), None);
    c.store("kitty".to_string(), Some(square(48, 3)));
    assert!(matches!(c.plan("missing").1, IconPlan::Cached(_)));
    c.register_override_default("/icons/default.png".to_string());
    match c.plan("Missing").1 {
        IconPlan::Xdg { name, fallback } => {
            assert_eq!(name, "missing");
            assert_eq!(fallback.as_deref(), Some("/icons/default.png"));
        }
        _ => panic!("expected a new lookup"),
    }
    match c.plan("kitty").1 {
        IconPlan::Cached(i) => assert_eq!(c.cache[i].1, Some(square(48, 3))),
        _ => panic!("expected the cached icon"),
    }
}

#[test]
fn cached_lookup_ignores_case_and_keeps_misses() {
    let mut c = IconCache::new();
    assert!(c.cached("Kitty").is_none());
    c.store("kitty".to_string(), Some(square(48, 9)));
    c.store("ghost".to_string(), None);
    assert_eq!(c.cached("KITTY"), Some(&Some(square(48, 9))));
    assert_eq!(c.cached("kitty"), c.cached("Kitty"));
    assert_eq!(c.cached("Ghost"), Some(&None));
    assert!(c.cached("other").is_none());
}
