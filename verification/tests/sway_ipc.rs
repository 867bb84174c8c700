use woven_shell::sway::{find_focused, ipc_frame, reply_len, sort_workspaces, TreeNode, WsInfo};

#[test]
fn frame_layout() {
    let m = ipc_frame(2, b"[\"window\"]");
    assert_eq!(&m[..6], b"i3-ipc");
    assert_eq!(&m[6..10], &10u32.to_le_bytes());
    assert_eq!(&m[10..14], &2u32.to_le_bytes());
    assert_eq!(&m[14..], b"[\"window\"]");
}

#[test]
fn reply_header() {
    let mut h = [0u8; 14];
    h[..6].copy_from_slice(b"i3-ipc");
    h[6..10].copy_from_slice(&300u32.to_le_bytes());
    assert_eq!(reply_len(&h), Some(300));
    h[0] = b'x';
    assert_eq!(reply_len(&h), None);
}

fn ws(name: &str, num: i32) -> WsInfo {
    WsInfo { name: name.into(), num, active: false, urgent: false }
}

#[test]
fn workspaces_sort_stably() {
    let sorted = sort_workspaces(vec![ws("3", 3), ws("1a", 1), ws("2", 2), ws("1b", 1)]);
    let names: Vec<&str> = sorted.iter().map(|w| w.name.as_str()).collect();
    assert_eq!(names, vec!["1a", "1b", "2", "3"]);
}

fn leaf(focused: bool, name: &str, app_id: Option<&str>, class: Option<&str>) -> TreeNode {
    TreeNode {
        focused,
        name: Some(name.into()),
        app_id: app_id.map(|s| s.into()),
        class: class.map(|s| s.into()),
        nodes: vec![],
        floating_nodes: vec![],
    }
}

#[test]
fn focused_window_search() {
    let tree = TreeNode {
        focused: false,
        name: Some("root".into()),
        app_id: None,
        class: None,
        nodes: vec![leaf(false, "a", Some("x"), None), leaf(true, "", Some("y"), None)],
        floating_nodes: vec![leaf(true, "Float", Some(""), Some("XClass"))],
    };
    assert_eq!(find_focused(&tree), Some(("Float".to_string(), "XClass".to_string())));
    assert_eq!(find_focused(&leaf(false, "a", None, None)), None);
}

#[test]
fn workspace_reply_defaults() {
    let w = WsInfo::from_reply(None, None, None, Some(true));
    assert_eq!((w.name.as_str(), w.num, w.active, w.urgent), ("?", 0, false, true));
    let w = WsInfo::from_reply(Some("3: web".to_string()), Some(3), Some(true), Some(false));
    assert_eq!((w.name.as_str(), w.num, w.active, w.urgent), ("3: web", 3, true, false));
    assert_eq!(WsInfo::from_reply(None, Some(4_294_967_297), None, None).num, 1);
}

#[test]
fn framed_header_reads_back() {
    let payload = vec![b'x'; 300];
    let m = ipc_frame(4, &payload);
    let mut hdr = [0u8; 14];
    hdr.copy_from_slice(&m[..14]);
    assert_eq!(reply_len(&hdr), Some(300));
}
