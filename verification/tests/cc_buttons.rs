use woven_shell::cc::{command, ctl_brightness, dnd_on, sysfs_brightness, Btn, CcState};

#[test]
fn buttons() {
    let mut s = CcState { dnd: false, brightness: 50, volume: 40, muted: false, username: "u".into(), hostname: "h".into(), pfp: None };
    assert!(!s.handle(Btn::DndToggle));
    assert!(s.dnd);
    assert!(s.handle(Btn::Lock));
    assert!(!s.handle(Btn::VolumeUp));
    let (cmd, args) = command(Btn::MuteToggle);
    assert_eq!(cmd, "wpctl");
    assert_eq!(args, vec!["set-mute", "@DEFAULT_AUDIO_SINK@", "toggle"]);
    assert_eq!(command(Btn::Shutdown).1, vec!["poweroff"]);
}

#[test]
fn brightness_parsing() {
    assert_eq!(ctl_brightness("intel_backlight,backlight,19200,40%,48000\n"), None);
    assert_eq!(ctl_brightness("intel_backlight,backlight,x,19200,48000,40%\n"), Some(40));
    assert_eq!(ctl_brightness("a,b,c,d,e,300%"), None);
    assert_eq!(sysfs_brightness(24000, 48000), 50);
    assert_eq!(sysfs_brightness(480, 48), 100);
    assert_eq!(sysfs_brightness(3, 1), 44);
}

#[test]
fn dnd_output() {
    assert!(dnd_on("true\n"));
    assert!(!dnd_on("false\n"));
    assert!(!dnd_on(""));
    assert!(!dnd_on("True"));
}

#[test]
fn buttons_leave_user_and_picture_alone() {
    let mut s = CcState { dnd: false, brightness: 50, volume: 40, muted: false, username: "u".into(), hostname: "h".into(), pfp: Some(vec![1, 2, 3, 4]) };
    for b in [Btn::DndToggle, Btn::Lock, Btn::Suspend, Btn::Logout, Btn::VolumeUp, Btn::MuteToggle] {
        s.handle(b);
        assert_eq!(s.username, "u");
        assert_eq!(s.hostname, "h");
        assert_eq!(s.pfp, Some(vec![1, 2, 3, 4]));
    }
}
