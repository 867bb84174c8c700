use woven_shell::launch_icons::{gtk_icon_theme, icon_kind, theme_bases, IconCache, IconKind, ICON_SIZE};

#[test]
fn gtk_theme_from_settings() {
    let ini = "[Settings]\ngtk-theme-name=Adwaita-dark\ngtk-icon-theme-name = Papirus-Dark \ngtk-font-name=Cantarell 11\n";
    assert_eq!(gtk_icon_theme(ini), Some("Papirus-Dark".to_string()));
    assert_eq!(gtk_icon_theme("gtk-icon-theme-name=\ngtk-icon-theme-name==Breeze\r\n"), Some("Breeze".to_string()));
    assert_eq!(gtk_icon_theme("  gtk-icon-theme-name\tPapirus"), Some("Papirus".to_string()));
    assert_eq!(gtk_icon_theme("[Settings]\ngtk-theme-name=Adwaita\n"), None);
    assert_eq!(gtk_icon_theme(""), None);
    assert_eq!(gtk_icon_theme("gtk-icon-theme-name=   \n"), None);
}

#[test]
fn theme_dirs_in_search_order() {
    assert_eq!(
        theme_bases("/home/u", "Papirus"),
        vec![
            "/home/u/.local/share/icons/Papirus",
            "/home/u/.local/share/icons/hicolor",
            "/usr/share/icons/Papirus",
            "/usr/share/icons/hicolor",
        ]
    );
    assert_eq!(
        theme_bases("/home/u", "hicolor"),
        vec!["/home/u/.local/share/icons/hicolor", "/usr/share/icons/hicolor"]
    );
}

#[test]
fn search_dirs_and_candidates() {
    let c = IconCache::new(vec!["/usr/share/icons/hicolor".to_string()]);
    assert_eq!(c.search_dirs.len(), 2);
    assert_eq!(c.search_dirs[0].base, "/usr/share/icons/hicolor");
    assert_eq!(c.search_dirs[0].subdirs.len(), 10);
    assert_eq!(c.search_dirs[0].subdirs[0], "48x48/apps");
    assert_eq!(c.search_dirs[0].subdirs[9], "scalable/mimetypes");
    assert_eq!(c.search_dirs[1].base, "/usr/share/pixmaps");
    assert_eq!(c.search_dirs[1].subdirs, vec![String::new()]);
    assert_eq!(c.icon_size(), 28);
    assert_eq!(ICON_SIZE, 28);

    let paths = c.candidate_paths("firefox");
    assert_eq!(paths.len(), 11 * 4);
    assert_eq!(paths[0], "/usr/share/icons/hicolor/48x48/apps/firefox.png");
    assert_eq!(paths[1], "/usr/share/icons/hicolor/48x48/apps/firefox.svg");
    assert_eq!(paths[4], "/usr/share/icons/hicolor/64x64/apps/firefox.png");
    assert_eq!(paths[40], "/usr/share/pixmaps/firefox.png");
    assert_eq!(paths[43], "/usr/share/pixmaps/firefox.xpm");

    let dotted = c.candidate_paths("app.png");
    assert_eq!(dotted.len(), 11 * 5);
    assert_eq!(dotted[0], "/usr/share/icons/hicolor/48x48/apps/app.png");
    assert_eq!(dotted[1], "/usr/share/icons/hicolor/48x48/apps/app.png.png");

    assert_eq!(c.candidate_paths("/opt/x/icon.svg"), vec!["/opt/x/icon.svg"]);
}

#[test]
fn image_kinds() {
    assert_eq!(icon_kind("png"), IconKind::Raster);
    assert_eq!(icon_kind("SVG"), IconKind::Svg);
    assert_eq!(icon_kind("svgz"), IconKind::Svg);
    assert_eq!(icon_kind("xpm"), IconKind::Skip);
    assert_eq!(icon_kind(""), IconKind::Raster);
    assert_eq!(icon_kind("ico"), IconKind::Raster);
}

#[test]
fn cache_keeps_loads_and_failures() {
    let mut c = IconCache::new(vec![]);
    assert!(c.needs_load("kitty"));
    assert!(!c.needs_load(""));
    assert_eq!(c.get("kitty"), None);
    let n = (ICON_SIZE * ICON_SIZE * 4) as usize;
    c.insert("kitty".to_string(), Some(vec![1; n]));
    c.insert("missing".to_string(), None);
    assert!(!c.needs_load("kitty"));
    assert!(!c.needs_load("missing"));
    assert_eq!(c.get("kitty"), Some(&vec![1u8; n][..]));
    assert_eq!(c.get("missing"), None);
    c.insert("kitty".to_string(), Some(vec![9; n]));
    assert_eq!(c.get("kitty"), Some(&vec![9u8; n][..]));
    assert_eq!(c.get("kitty").unwrap().len(), (c.icon_size() * c.icon_size() * 4) as usize);
    assert_eq!(c.cache.len(), 2);
}
