use woven_shell::keys::{
    KEY_APOSTROPHE, KEY_BACKSLASH, KEY_BACKSPACE, KEY_BRACKETLEFT, KEY_BRACKETRIGHT, KEY_COMMA,
    KEY_DELETE, KEY_DOWN, KEY_END, KEY_EQUAL, KEY_ESCAPE, KEY_F1, KEY_F12, KEY_GRAVE, KEY_HOME,
    KEY_KP_ENTER, KEY_LEFT, KEY_MINUS, KEY_PAGE_DOWN, KEY_PAGE_UP, KEY_PERIOD, KEY_PRINT, KEY_RETURN,
    KEY_RIGHT, KEY_SEMICOLON, KEY_SHIFT_L, KEY_SLASH, KEY_SPACE, KEY_SUPER_R, KEY_TAB, KEY_UP,
};
use xkeysym::key;

#[test]
fn key_constants_match_xkeysym() {
    let pairs = [
        (KEY_SPACE, key::space),
        (KEY_APOSTROPHE, key::apostrophe),
        (KEY_COMMA, key::comma),
        (KEY_MINUS, key::minus),
        (KEY_PERIOD, key::period),
        (KEY_SLASH, key::slash),
        (KEY_SEMICOLON, key::semicolon),
        (KEY_EQUAL, key::equal),
        (KEY_BRACKETLEFT, key::bracketleft),
        (KEY_BACKSLASH, key::backslash),
        (KEY_BRACKETRIGHT, key::bracketright),
        (KEY_GRAVE, key::grave),
        (KEY_BACKSPACE, key::BackSpace),
        (KEY_TAB, key::Tab),
        (KEY_RETURN, key::Return),
        (KEY_ESCAPE, key::Escape),
        (KEY_HOME, key::Home),
        (KEY_LEFT, key::Left),
        (KEY_UP, key::Up),
        (KEY_RIGHT, key::Right),
        (KEY_DOWN, key::Down),
        (KEY_PAGE_UP, key::Page_Up),
        (KEY_PAGE_DOWN, key::Page_Down),
        (KEY_END, key::End),
        (KEY_PRINT, key::Print),
        (KEY_KP_ENTER, key::KP_Enter),
        (KEY_F1, key::F1),
        (KEY_F12, key::F12),
        (KEY_SHIFT_L, key::Shift_L),
        (KEY_SUPER_R, key::Super_R),
        (KEY_DELETE, key::Delete),
    ];
    for (ours, theirs) in pairs {
        assert_eq!(ours, theirs);
    }
}
