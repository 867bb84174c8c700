use woven_shell::widgets::{KeyCapture, TextInput, Toggle};

#[test]
fn new_puts_cursor_at_byte_end() {
    let t = TextInput::new("héllo".to_string());
    assert_eq!(t.cursor, 6);
    assert!(!t.focused);
}

#[test]
fn push_inserts_at_cursor() {
    let mut t = TextInput::new("ac".to_string());
    t.cursor = 1;
    t.push('b');
    assert_eq!(t.value, "abc");
    assert_eq!(t.cursor, 2);
    t.push('é');
    assert_eq!(t.value, "abéc");
    assert_eq!(t.cursor, 4);
}

#[test]
fn backspace_undoes_push() {
    let mut t = TextInput::new("añb".to_string());
    t.cursor = 3;
    t.push('€');
    t.backspace();
    assert_eq!(t.value, "añb");
    assert_eq!(t.cursor, 3);
    t.backspace();
    assert_eq!(t.value, "ab");
    assert_eq!(t.cursor, 1);
}

#[test]
fn backspace_at_start_does_nothing() {
    let mut t = TextInput::new("x".to_string());
    t.cursor = 0;
    t.backspace();
    assert_eq!(t.value, "x");
    assert_eq!(t.cursor, 0);
}

#[test]
fn delete_word_removes_last_word() {
    let mut t = TextInput::new("exec foo bar".to_string());
    t.delete_word();
    assert_eq!(t.value, "exec foo ");
    assert_eq!(t.cursor, 9);
    t.delete_word();
    assert_eq!(t.value, "exec ");
    assert_eq!(t.cursor, 5);
    t.delete_word();
    assert_eq!(t.value, "");
    assert_eq!(t.cursor, 0);
}

#[test]
fn delete_word_stops_at_space_before_cursor_mid_text() {
    let mut t = TextInput::new("ab cd".to_string());
    t.cursor = 3;
    t.delete_word();
    assert_eq!(t.value, "ab cd");
    assert_eq!(t.cursor, 3);
}

#[test]
fn toggle_and_capture() {
    let mut g = Toggle::new(false);
    g.flip();
    assert!(g.value);
    g.flip();
    assert!(!g.value);
    let k = KeyCapture::new("$mod+x".to_string());
    assert_eq!(k.value, "$mod+x");
    assert!(!k.capturing);
}

#[test]
fn push_then_backspace_restores_the_input() {
    let mut t = TextInput::new("añb".to_string());
    t.cursor = 1;
    t.focused = true;
    t.push('€');
    assert_eq!(t.value, "a€ñb");
    assert_eq!(t.cursor, 4);
    t.backspace();
    assert_eq!(t.value, "añb");
    assert_eq!(t.cursor, 1);
    assert!(t.focused);
}
