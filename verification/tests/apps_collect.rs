use woven_shell::apps::{collect_entries, DesktopFile};

fn file(name: &str, path: &str, app: &str) -> DesktopFile {
    DesktopFile {
        file_name: name.into(),
        path: path.into(),
        content: format!("[Desktop Entry]\nName={app}\nExec={}\n", app.to_lowercase()),
    }
}

#[test]
fn earlier_directory_wins_and_names_sort_case_insensitively() {
    let files = vec![
        file("b.desktop", "/home/u/b.desktop", "beta"),
        file("a.desktop", "/home/u/a.desktop", "Alpha"),
        file("b.desktop", "/usr/b.desktop", "Bravo"),
        file("c.desktop", "/usr/c.desktop", "alpha"),
        DesktopFile { file_name: "a.desktop".into(), path: "/usr/a.desktop".into(), content: "garbage".into() },
    ];
    let entries = collect_entries(&files);
    let names: Vec<&str> = entries.iter().map(|e| e.name.as_str()).collect();
    assert_eq!(names, vec!["Alpha", "alpha", "beta"]);
    assert_eq!(entries[2].path, "/home/u/b.desktop");
    assert_eq!(entries[0].path, "/home/u/a.desktop");
}

#[test]
fn no_files_no_entries() {
    assert!(collect_entries(&[]).is_empty());
}

#[test]
fn user_entry_overrides_system_entry_of_same_name() {
    let files = vec![
        file("foo.desktop", "/h/.local/share/applications/foo.desktop", "Mine"),
        file("foo.desktop", "/usr/share/applications/foo.desktop", "System"),
    ];
    let entries = collect_entries(&files);
    assert_eq!(entries.len(), 1);
    assert_eq!(entries[0].name, "Mine");
    assert_eq!(entries[0].path, "/h/.local/share/applications/foo.desktop");
}

#[test]
fn unparsable_user_file_lets_system_entry_through() {
    let files = vec![
        DesktopFile { file_name: "foo.desktop".into(), path: "/h/foo.desktop".into(), content: "junk".into() },
        file("foo.desktop", "/usr/foo.desktop", "System"),
    ];
    let entries = collect_entries(&files);
    assert_eq!(entries.len(), 1);
    assert_eq!(entries[0].path, "/usr/foo.desktop");
}
