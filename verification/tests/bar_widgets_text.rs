use woven_shell::bar_widgets::{
    audio_label, battery_label, battery_low, carrier_up, charging_status, is_muted, is_wired_iface,
    iw_interfaces, iw_ssid, net_dim, net_text, notif_label, parse_kb, parse_meminfo, truncate_chars,
    AudioInfo, BatteryInfo, BatteryWidget, MediaWidget, MemoryWidget, NetInfo, NotificationsWidget,
    SystrayWidget, WindowTitleWidget, WorkspacesWidget, parse_stat, stat_sum_fits, wmo_icon,
    CpuWidget,
};

#[test]
fn battery_text_and_levels() {
    assert_eq!(battery_label(BatteryInfo { pct: 85, charging: false }), "\u{f0079} 85%");
    assert_eq!(battery_label(BatteryInfo { pct: 5, charging: false }), "\u{f007d} 5%");
    assert_eq!(battery_label(BatteryInfo { pct: 5, charging: true }), "\u{f0084} 5%");
    assert!(battery_low(BatteryInfo { pct: 19, charging: false }));
    assert!(!battery_low(BatteryInfo { pct: 19, charging: true }));
    assert!(charging_status(" Charging\n"));
    assert!(charging_status("Full"));
    assert!(!charging_status("Discharging"));
}

#[test]
fn battery_reads_every_ten_seconds() {
    let mut w = BatteryWidget::new();
    assert!(w.needs_read(0));
    w.store(Some(BatteryInfo { pct: 50, charging: false }), 1000);
    assert!(!w.needs_read(11000));
    assert!(w.needs_read(11001));
}

#[test]
fn audio_text() {
    assert_eq!(audio_label(AudioInfo { pct: 70, muted: false }), "\u{f057f} 70%");
    assert_eq!(audio_label(AudioInfo { pct: 30, muted: false }), "\u{f0580} 30%");
    assert_eq!(audio_label(AudioInfo { pct: 10, muted: false }), "\u{f057e} 10%");
    assert_eq!(audio_label(AudioInfo { pct: 70, muted: true }), "\u{f0581} 70%");
    assert!(is_muted("Volume: 0.42 [MUTED]"));
    assert!(!is_muted("Volume: 0.42"));
}

#[test]
fn network_text() {
    let wifi = NetInfo { ssid: Some("home".to_string()), wired: false };
    assert_eq!(net_text(&wifi), "\u{f05a9} home");
    assert!(!net_dim(&wifi));
    let eth = NetInfo { ssid: None, wired: true };
    assert_eq!(net_text(&eth), "\u{f0200} eth");
    let none = NetInfo { ssid: None, wired: false };
    assert_eq!(net_text(&none), "\u{f05aa} disconnected");
    assert!(net_dim(&none));
}

#[test]
fn iw_output_parsing() {
    let dev = "phy#0\n\tInterface wlan0\n\t\tifindex 3\n\tInterface wlan1\n";
    assert_eq!(iw_interfaces(dev), vec!["wlan0".to_string(), "wlan1".to_string()]);
    let link = "Connected to aa:bb (on wlan0)\n\tSSID: My Net\n\tfreq: 5180\n";
    assert_eq!(iw_ssid(link), Some("My Net".to_string()));
    assert_eq!(iw_ssid("Not connected.\n"), None);
    assert!(is_wired_iface("enp3s0"));
    assert!(is_wired_iface("eth0"));
    assert!(!is_wired_iface("wlan0"));
    assert!(carrier_up("1\n"));
    assert!(!carrier_up("0\n"));
}

#[test]
fn notifications() {
    let mut w = NotificationsWidget::new();
    assert!(w.due(3000));
    w.apply("false\n", " 3\n", 5000);
    assert_eq!(w.count, 3);
    assert!(!w.dnd);
    assert_eq!(notif_label(&w), "\u{f09a4} 3");
    assert!(!w.due(7999));
    assert!(w.due(8000));
    w.apply("true", "garbage", 9000);
    assert_eq!(w.count, 0);
    assert_eq!(notif_label(&w), "\u{f09a7}");
    w.on_click();
    assert_eq!(w.last_ms, 0);
}

#[test]
fn media() {
    let mut w = MediaWidget::new();
    assert!(w.due(2000));
    w.apply("Playing\n", " Artist \n", "Song\n", 2000);
    assert!(w.playing);
    assert_eq!(w.title, "Artist — Song");
    assert_eq!(w.label(), "\u{f040a} Artist — Song");
    w.apply("Paused", "", "Song", 4000);
    assert!(!w.playing);
    assert_eq!(w.title, "Song");
    w.apply("Stopped", "A", "B", 6000);
    assert_eq!(w.title, "");
    assert_eq!(truncate_chars("abcdef", 4), "abc…");
    assert_eq!(truncate_chars("abcd", 4), "abcd");
}

#[test]
fn memory() {
    let info = "MemTotal:       16384000 kB\nMemFree:         1000000 kB\nMemAvailable:    8192000 kB\n";
    assert_eq!(parse_meminfo(info), (8000, 16000));
    assert_eq!(parse_kb("  123 kB"), 123);
    assert_eq!(parse_kb("x"), 0);
    let w = MemoryWidget::new(info);
    assert_eq!((w.used_mb, w.total_mb, w.last_ms), (8000, 16000, 0));
    assert_eq!(parse_meminfo(""), (0, 0));
}

#[test]
fn systray_and_small_widgets() {
    let mut s = SystrayWidget::new(1_000_000);
    assert_eq!(s.last_ms, 430_000);
    assert!(!s.due(1_029_999));
    assert!(s.due(1_030_000));
    s.apply("pkg 1 -> 2\n\n  \nother 3 -> 4\n", true, 1_030_000);
    assert_eq!(s.updates, 2);
    assert!(s.sunshine);
    assert_eq!(SystrayWidget::new(5).last_ms, 0);
    let t = WindowTitleWidget::new();
    assert_eq!(t.display("short"), "short");
    assert_eq!(t.display(&"x".repeat(50)).chars().count(), 40);
    let mut ws = WorkspacesWidget::new();
    ws.set_count(0);
    assert_eq!(ws.last_count, 1);
    ws.set_count(5);
    assert_eq!(ws.last_count, 5);
}

#[test]
fn proc_stat_counters() {
    let stat = "cpu  10 20 30 400 5 6 7\ncpu0 1 2 3 4\n";
    assert_eq!(parse_stat(stat), (400, 478));
    assert!(stat_sum_fits(stat));
    assert_eq!(parse_stat("cpu 1 2 3\n"), (0, 1));
    assert_eq!(parse_stat(""), (0, 1));
    assert_eq!(parse_stat("cpu 1 x 2 3 4"), (4, 10));
    assert!(!stat_sum_fits("cpu 18446744073709551615 1 0 0"));
    assert!(stat_sum_fits("cpu 18446744073709551615 0 0 0"));
}

#[test]
fn cpu_busy_share() {
    let mut w = CpuWidget::new("cpu 100 0 100 800\n");
    assert_eq!((w.prev_idle, w.prev_total, w.busy, w.last_ms), (800, 1000, None, 0));
    assert!(w.due(1_000));
    assert!(!w.due(999));
    w.apply("cpu 150 0 150 900\n", 1_000);
    assert_eq!(w.busy, Some((100, 200)));
    assert_eq!((w.prev_idle, w.prev_total, w.last_ms), (900, 1200, 1_000));
    // no time passed: the last share stays
    w.apply("cpu 150 0 150 900\n", 2_000);
    assert_eq!(w.busy, Some((100, 200)));
    assert_eq!(w.last_ms, 2_000);
}

#[test]
fn weather_icons() {
    assert_eq!(wmo_icon(0), "\u{f0599}");
    assert_eq!(wmo_icon(2), "\u{f0595}");
    assert_eq!(wmo_icon(48), "\u{f0591}");
    assert_eq!(wmo_icon(63), "\u{f0597}");
    assert_eq!(wmo_icon(86), "\u{f059b}");
    assert_eq!(wmo_icon(96), "\u{f0593}");
    assert_eq!(wmo_icon(4), "\u{f0590}");
}
