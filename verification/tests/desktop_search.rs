use woven_shell::desktop::parse_desktop_file;
use woven_shell::search::fuzzy_search;

#[test]
fn parses_desktop_entry_section_only() {
    let text = "[Desktop Entry]\nName = Firefox \nExec=/usr/bin/firefox %u --new\nIcon=firefox\nCategories=Network;WebBrowser;;\nTerminal=false\n[Desktop Action new]\nName=New Window\n";
    let e = parse_desktop_file(text, "/usr/share/applications/firefox.desktop").unwrap();
    assert_eq!(e.name, "Firefox");
    assert_eq!(e.exec_line, "/usr/bin/firefox --new");
    assert_eq!(e.icon, "firefox");
    assert_eq!(e.categories, vec!["Network".to_string(), "WebBrowser".to_string()]);
    assert!(!e.terminal);
    assert_eq!(e.category_label(), "Browser");
    assert_eq!(e.path, "/usr/share/applications/firefox.desktop");
}

#[test]
fn hidden_and_incomplete_entries_are_skipped() {
    assert!(parse_desktop_file("[Desktop Entry]\nName=X\nExec=x\nNoDisplay=true\n", "p").is_none());
    assert!(parse_desktop_file("[Desktop Entry]\nName=X\nExec=x\nHidden=true\n", "p").is_none());
    assert!(parse_desktop_file("[Desktop Entry]\nName=X\n", "p").is_none());
    assert!(parse_desktop_file("Name=X\nExec=x\n", "p").is_none());
    let e = parse_desktop_file("[Desktop Entry]\nName=X\nExec=x\nCategories=Game\n", "p").unwrap();
    assert_eq!(e.category_label(), "Game");
    let e = parse_desktop_file("[Desktop Entry]\nName=X\nExec=x\n", "p").unwrap();
    assert_eq!(e.category_label(), "App");
}

#[test]
fn fuzzy_ranks_prefix_matches_first() {
    let entries = vec![
        parse_desktop_file("[Desktop Entry]\nName=Terminal\nExec=kitty\n", "a").unwrap(),
        parse_desktop_file("[Desktop Entry]\nName=Kitty\nExec=kitty\n", "b").unwrap(),
        parse_desktop_file("[Desktop Entry]\nName=Files\nExec=thunar\n", "c").unwrap(),
    ];
    let r = fuzzy_search(&entries, "kit");
    assert!(!r.is_empty());
    assert_eq!(r[0].index, 1);
    assert!(r.iter().all(|x| x.index != 2));
    let all = fuzzy_search(&entries, "");
    assert_eq!(all.iter().map(|x| x.index).collect::<Vec<_>>(), vec![0, 1, 2]);
    assert!(all.iter().all(|x| x.score == 0));
}
