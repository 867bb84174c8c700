use woven_shell::keys::{hex_string, key_inputs, keysym_to_sway_name, KeyInput, TrackedMods};

fn mods(shift: bool, ctrl: bool, super_: bool, alt: bool) -> TrackedMods {
    TrackedMods { shift, ctrl, super_, alt }
}

#[test]
fn sway_prefix_order() {
    assert_eq!(mods(true, true, true, true).to_sway_prefix(), "$mod+Ctrl+Mod1+Shift+");
    assert_eq!(mods(false, false, false, false).to_sway_prefix(), "");
    assert_eq!(mods(true, false, true, false).to_sway_prefix(), "$mod+Shift+");
}

#[test]
fn key_names() {
    assert_eq!(keysym_to_sway_name(0xff0d).as_deref(), Some("Return"));
    assert_eq!(keysym_to_sway_name(0xff8d).as_deref(), Some("Return"));
    assert_eq!(keysym_to_sway_name(0xffc1).as_deref(), Some("F4"));
    assert_eq!(keysym_to_sway_name(0x1008ff12).as_deref(), Some("XF86AudioMute"));
    assert_eq!(keysym_to_sway_name(0x2c).as_deref(), Some("comma"));
    assert_eq!(keysym_to_sway_name(0x61), None);
    assert_eq!(hex_string(0), "0");
    assert_eq!(hex_string(0x1008ff99), "1008ff99");
}

#[test]
fn capture_builds_combo() {
    let m = mods(true, false, true, false);
    match key_inputs(true, &m, 0x71, Some("Q")).as_slice() {
        [KeyInput::KeyCombo(k)] => assert_eq!(k, "$mod+Shift+q"),
        _ => panic!("expected one combo"),
    }
    match key_inputs(true, &m, 0xff0d, None).as_slice() {
        [KeyInput::KeyCombo(k)] => assert_eq!(k, "$mod+Shift+Return"),
        _ => panic!("expected one combo"),
    }
    match key_inputs(true, &mods(false, false, false, false), 0x12345, None).as_slice() {
        [KeyInput::KeyCombo(k)] => assert_eq!(k, "12345"),
        _ => panic!("expected one combo"),
    }
    assert!(key_inputs(true, &m, 0xffe1, None).is_empty());
}

#[test]
fn normal_mode_inputs() {
    let none = mods(false, false, false, false);
    assert!(matches!(key_inputs(false, &none, 0xff1b, None).as_slice(), [KeyInput::Escape]));
    assert!(matches!(key_inputs(false, &none, 0xff08, None).as_slice(), [KeyInput::Backspace]));
    assert!(matches!(key_inputs(false, &mods(false, true, false, false), 0xff08, None).as_slice(), [KeyInput::CtrlBackspace]));
    match key_inputs(false, &none, 0x61, Some("a\u{7}b")).as_slice() {
        [KeyInput::Char('a'), KeyInput::Char('b')] => {}
        _ => panic!("expected two chars"),
    }
    assert!(key_inputs(false, &none, 0x61, None).is_empty());
}
