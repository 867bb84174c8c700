use woven_shell::runs::{for_each_run, is_icon, is_icon_codepoint, IconSet};

#[test]
fn runs_split_on_font_changes() {
    let runs = for_each_run("ab\u{f0079}\u{f007a}cd", true, IconSet::Shell);
    assert_eq!(runs.len(), 3);
    assert_eq!(runs[0], ("ab".to_string(), 0));
    assert_eq!(runs[1], ("\u{f0079}\u{f007a}".to_string(), 1));
    assert_eq!(runs[2], ("cd".to_string(), 0));
}

#[test]
fn no_icon_font_gives_one_run() {
    let runs = for_each_run("a\u{e000}b", false, IconSet::Shell);
    assert_eq!(runs, vec![("a\u{e000}b".to_string(), 0)]);
    let empty = for_each_run("", true, IconSet::Lock);
    assert_eq!(empty, vec![(String::new(), 0)]);
}

#[test]
fn icon_sets_differ() {
    assert!(is_icon_codepoint('\u{f0079}'));
    assert!(!is_icon('\u{f0079}'));
    assert!(is_icon('\u{e000}'));
    assert!(is_icon('\u{2600}'));
    assert!(!is_icon_codepoint('a'));
    let runs = for_each_run("x\u{f0079}", true, IconSet::Lock);
    assert_eq!(runs, vec![("x\u{f0079}".to_string(), 0)]);
}
