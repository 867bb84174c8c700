//! Sway IPC: message framing, and the workspace list as the bar shows it.
use vstd::prelude::*;

verus! {

/// One sway workspace.
pub struct WsInfo {
    pub name: String,
    pub num: i32,
    pub active: bool,
    pub urgent: bool,
}

impl WsInfo {
    /// A workspace from the fields of a `GET_WORKSPACES` reply entry: a missing name
    /// reads as `?`, a missing number as 0 (and a number is cut to 32 bits), missing
    /// flags as false.
    pub fn from_reply(name: Option<String>, num: Option<i64>, focused: Option<bool>, urgent: Option<bool>) -> (w: WsInfo)
        ensures
            w.name@ == match name {
                Some(n) => n@,
                None => "?"@,
            },
            w.num == match num {
                Some(n) => n as i32,
                None => 0i32,
            },
            w.active == (focused == Some(true)),
            w.urgent == (urgent == Some(true)),
    {
        let name = match name {
            Some(n) => n,
            None => {
                let mut q = String::new();
                crate::strs::push_str(&mut q, "?");
                q
            },
        };
        let num: i32 = match num {
            Some(n) => n as i32,
            None => 0,
        };
        let active = match focused {
            Some(b) => b,
            None => false,
        };
        let urgent = match urgent {
            Some(b) => b,
            None => false,
        };
        WsInfo { name, num, active, urgent }
    }
}

/// What the bar knows of the compositor.
pub struct BarState {
    pub workspaces: Vec<WsInfo>,
    pub active_title: String,
    pub active_class: String,
}

/// A sway IPC client, by the path of sway's socket.
pub struct SwayClient {
    pub socket_path: String,
}

impl SwayClient {
    pub fn new(socket_path: String) -> (c: SwayClient)
        ensures
            c.socket_path@ == socket_path@,
    {
        SwayClient { socket_path }
    }
}

pub const MSG_GET_WORKSPACES: u32 = 1;
pub const MSG_SUBSCRIBE: u32 = 2;
pub const MSG_GET_TREE: u32 = 4;

/// The magic string that starts every IPC message: `i3-ipc`.
pub open spec fn magic() -> Seq<u8> {
    seq![0x69u8, 0x33u8, 0x2du8, 0x69u8, 0x70u8, 0x63u8]
}

/// Little-endian bytes of `n`.
pub open spec fn le32(n: u32) -> Seq<u8> {
    seq![(n % 256) as u8, ((n / 256) % 256) as u8, ((n / 65536) % 256) as u8, ((n / 16777216) % 256) as u8]
}

/// The value of four little-endian bytes.
pub open spec fn from_le32(b: Seq<u8>) -> int {
    b[0] + b[1] * 256 + b[2] * 65536 + b[3] * 16777216
}

fn le_bytes(n: u32) -> (b: [u8; 4])
    ensures
        b@ == le32(n),
{
    let b = [(n % 256) as u8, ((n / 256) % 256) as u8, ((n / 65536) % 256) as u8, ((n / 16777216) % 256) as u8];
    assert(b@ == le32(n));
    b
}

/// An IPC message: magic, payload length and message type (both little-endian
/// 32-bit), then the payload.
pub fn ipc_frame(msg_type: u32, payload: &[u8]) -> (msg: Vec<u8>)
    requires
        payload@.len() <= u32::MAX,
    ensures
        msg@ == magic() + le32(payload@.len() as u32) + le32(msg_type) + payload@,
{
    let mut msg: Vec<u8> = Vec::new();
    let m: [u8; 6] = [0x69, 0x33, 0x2d, 0x69, 0x70, 0x63];
    assert(m@ == magic());
    let l = le_bytes(payload.len() as u32);
    let t = le_bytes(msg_type);
    let mut i: usize = 0;
    while i < 6
        invariant
            i <= 6,
            msg@ == m@.take(i as int),
        decreases 6 - i,
    {
        msg.push(m[i]);
        assert(m@.take(i + 1) == m@.take(i as int).push(m@[i as int]));
        i = i + 1;
    }
    assert(m@.take(6) == m@);
    let mut i: usize = 0;
    while i < 4
        invariant
            i <= 4,
            msg@ == magic() + l@.take(i as int),
        decreases 4 - i,
    {
        msg.push(l[i]);
        assert(l@.take(i + 1) == l@.take(i as int).push(l@[i as int]));
        i = i + 1;
    }
    assert(l@.take(4) == l@);
    let mut i: usize = 0;
    while i < 4
        invariant
            i <= 4,
            msg@ == magic() + l@ + t@.take(i as int),
        decreases 4 - i,
    {
        msg.push(t[i]);
        assert(t@.take(i + 1) == t@.take(i as int).push(t@[i as int]));
        i = i + 1;
    }
    assert(t@.take(4) == t@);
    let ghost head = msg@;
    let mut i: usize = 0;
    while i < payload.len()
        invariant
            i <= payload@.len(),
            head == magic() + l@ + t@,
            msg@ == head + payload@.take(i as int),
        decreases payload.len() - i,
    {
        msg.push(payload[i]);
        assert(payload@.take(i + 1) == payload@.take(i as int).push(payload@[i as int]));
        i = i + 1;
    }
    assert(payload@.take(payload@.len() as int) == payload@);
    msg
}

/// The payload length a 14-byte reply header announces, or `None` when the header
/// does not start with the magic string.
pub fn reply_len(hdr: &[u8; 14]) -> (r: Option<u32>)
    ensures
        hdr@.take(6) == magic() ==> (r matches Some(n) && n == from_le32(hdr@.subrange(6, 10))),
        hdr@.take(6) != magic() ==> r is None,
{
    if hdr[0] == 0x69 && hdr[1] == 0x33 && hdr[2] == 0x2d && hdr[3] == 0x69 && hdr[4] == 0x70 && hdr[5] == 0x63 {
        assert(hdr@.take(6) =~= magic());
        let n: u32 = hdr[6] as u32 + (hdr[7] as u32) * 256 + (hdr[8] as u32) * 65536 + (hdr[9] as u32) * 16777216;
        Some(n)
    } else {
        proof {
            if hdr@.take(6) == magic() {
                assert(hdr@.take(6)[0] == hdr@[0]);
                assert(hdr@.take(6)[1] == hdr@[1]);
                assert(hdr@.take(6)[2] == hdr@[2]);
                assert(hdr@.take(6)[3] == hdr@[3]);
                assert(hdr@.take(6)[4] == hdr@[4]);
                assert(hdr@.take(6)[5] == hdr@[5]);
            }
        }
        None
    }
}

/// Reading back the little-endian bytes of `n` gives `n`.
pub proof fn lemma_le32_roundtrip(n: u32)
    ensures
        from_le32(le32(n)) == n,
{
    let b = le32(n);
    let (q1, q2, q3) = (n / 256, n / 65536, n / 16777216);
    assert(n == q1 * 256 + n % 256) by (nonlinear_arith)
        requires
            q1 == n / 256,
    ;
    assert(q1 == q2 * 256 + q1 % 256) by (nonlinear_arith)
        requires
            q1 == n / 256,
            q2 == n / 65536,
    ;
    assert(q2 == q3 * 256 + q2 % 256) by (nonlinear_arith)
        requires
            q2 == n / 65536,
            q3 == n / 16777216,
    ;
    assert(q3 < 256) by (nonlinear_arith)
        requires
            q3 == n / 16777216,
            n < 0x1_0000_0000,
    ;
    assert(b[0] == n % 256 && b[1] == q1 % 256 && b[2] == q2 % 256 && b[3] == q3 % 256);
    assert(from_le32(b) == n) by (nonlinear_arith)
        requires
            from_le32(b) == b[0] + b[1] * 256 + b[2] * 65536 + b[3] * 16777216,
            b[0] == n % 256,
            b[1] == q1 % 256,
            b[2] == q2 % 256,
            b[3] == q3 % 256,
            q3 < 256,
            n == q1 * 256 + n % 256,
            q1 == q2 * 256 + q1 % 256,
            q2 == q3 * 256 + q2 % 256,
    ;
}

/// A framed message's first 14 bytes, read back as a reply header, carry the magic
/// string and announce the payload's length.
pub proof fn lemma_frame_header_announces_length(msg_type: u32, payload: Seq<u8>)
    requires
        payload.len() <= u32::MAX,
    ensures
        ({
            let msg = magic() + le32(payload.len() as u32) + le32(msg_type) + payload;
            &&& msg.take(6) == magic()
            &&& from_le32(msg.subrange(6, 10)) == payload.len()
        }),
{
    let msg = magic() + le32(payload.len() as u32) + le32(msg_type) + payload;
    assert(msg.take(6) == magic());
    assert(msg.subrange(6, 10) == le32(payload.len() as u32));
    lemma_le32_roundtrip(payload.len() as u32);
}

// ── workspace order ──────────────────────────────────────────────────────────

/// `p` lists each index below `n` exactly once.
pub open spec fn is_perm(p: Seq<int>, n: int) -> bool {
    &&& p.len() == n
    &&& forall|i: int| 0 <= i < n ==> 0 <= #[trigger] p[i] < n
    &&& forall|i: int, j: int| 0 <= i < j < n ==> #[trigger] p[i] != #[trigger] p[j]
}

/// `r` is `s` sorted by workspace number, workspaces with equal numbers keeping their
/// order (`p` says where each came from).
pub open spec fn sorted_by_num(r: Seq<WsInfo>, s: Seq<WsInfo>, p: Seq<int>) -> bool {
    &&& r.len() == s.len()
    &&& is_perm(p, s.len() as int)
    &&& forall|i: int| 0 <= i < r.len() ==> #[trigger] r[i] == s[p[i]]
    &&& forall|i: int, j: int| 0 <= i < j < r.len() ==> (#[trigger] r[i]).num <= (#[trigger] r[j]).num
    &&& forall|i: int, j: int| 0 <= i < j < r.len() && (#[trigger] r[i]).num == (#[trigger] r[j]).num
        ==> p[i] < p[j]
}

/// Sorts the workspaces by number; equal numbers keep their order.
pub fn sort_workspaces(ws: Vec<WsInfo>) -> (r: Vec<WsInfo>)
    ensures
        exists|p: Seq<int>| sorted_by_num(r@, ws@, p),
{
    let ghost s = ws@;
    let n = ws.len();
    let mut v = ws;
    let ghost mut p: Seq<int> = Seq::new(n as nat, |k: int| k);
    let mut i: usize = 0;
    while i < n
        invariant
            i <= n == s.len() == v@.len(),
            p.len() == n,
            forall|k: int| 0 <= k < n ==> #[trigger] v@[k] == s[p[k]],
            forall|k: int| 0 <= k < i ==> 0 <= #[trigger] p[k] < i,
            forall|k: int| i <= k < n ==> #[trigger] p[k] == k,
            forall|a: int, b: int| 0 <= a < b < i ==> #[trigger] p[a] != #[trigger] p[b],
            forall|a: int, b: int| 0 <= a < b < i ==> (#[trigger] v@[a]).num <= (#[trigger] v@[b]).num,
            forall|a: int, b: int| 0 <= a < b < i && (#[trigger] v@[a]).num == (#[trigger] v@[b]).num
                ==> p[a] < p[b],
        decreases n - i,
    {
        let x = v.remove(i);
        let ghost p1 = p.remove(i as int);
        let mut j: usize = i;
        while j > 0 && v[j - 1].num > x.num
            invariant
                j <= i < n,
                v@.len() == n - 1,
                forall|k: int| j <= k < i ==> (#[trigger] v@[k]).num > x.num,
            decreases j,
        {
            j = j - 1;
        }
        let ghost v1 = v@;
        v.insert(j, x);
        proof {
            p = p1.insert(j as int, i as int);
            assert forall|k: int| 0 <= k < n implies #[trigger] v@[k] == s[p[k]] by {
                if k < j {
                    assert(v@[k] == v1[k]);
                } else if k > j {
                    assert(v@[k] == v1[k - 1]);
                }
            }
        }
        i = i + 1;
    }
    proof {
        assert(sorted_by_num(v@, s, p));
    }
    v
}

// ── focused window ───────────────────────────────────────────────────────────

/// A node of sway's layout tree, with the fields the bar reads.
pub struct TreeNode {
    pub focused: bool,
    /// The window title.
    pub name: Option<String>,
    /// The Wayland app id.
    pub app_id: Option<String>,
    /// The X11 class (`window_properties.class`).
    pub class: Option<String>,
    pub nodes: Vec<TreeNode>,
    pub floating_nodes: Vec<TreeNode>,
}

pub open spec fn opt_text(o: Option<String>) -> Seq<char> {
    match o {
        Some(s) => s@,
        None => Seq::empty(),
    }
}

/// Title and class of `n` itself, when it is focused and has a title. The class is
/// the app id, or the X11 class when the app id is missing or empty.
pub open spec fn own_focus(n: TreeNode) -> Option<(Seq<char>, Seq<char>)> {
    if n.focused && opt_text(n.name).len() > 0 {
        Some((opt_text(n.name), if opt_text(n.app_id).len() > 0 {
            opt_text(n.app_id)
        } else {
            opt_text(n.class)
        }))
    } else {
        None
    }
}

/// The focused window in `n`'s subtree: `n` itself, else depth first through its
/// tiled children, then its floating children.
pub open spec fn focused_in(n: TreeNode) -> Option<(Seq<char>, Seq<char>)>
    decreases n, 0int,
{
    match own_focus(n) {
        Some(r) => Some(r),
        None => match focused_among(n.nodes@, 0) {
            Some(r) => Some(r),
            None => focused_among(n.floating_nodes@, 0),
        },
    }
}

/// The first of `cs[i..]` whose subtree holds the focused window.
pub open spec fn focused_among(cs: Seq<TreeNode>, i: int) -> Option<(Seq<char>, Seq<char>)>
    decreases cs, cs.len() - i,
{
    if i < 0 || i >= cs.len() {
        None
    } else {
        match focused_in(cs[i]) {
            Some(r) => Some(r),
            None => focused_among(cs, i + 1),
        }
    }
}

/// A focused window with a title reports that title, and its Wayland app id as its
/// class whenever the app id is set and not empty, whatever its X11 class says.
pub proof fn lemma_focused_reports_app_id(n: TreeNode)
    requires
        n.focused,
        n.name matches Some(t) && t@.len() > 0,
        n.app_id matches Some(a) && a@.len() > 0,
    ensures
        focused_in(n) == Some((n.name->0@, n.app_id->0@)),
{
}

/// A focused window with a title and no app id (or an empty one) reports its X11
/// class, or an empty class when it has none.
pub proof fn lemma_focused_falls_back_to_class(n: TreeNode)
    requires
        n.focused,
        n.name matches Some(t) && t@.len() > 0,
        !(n.app_id matches Some(a) && a@.len() > 0),
    ensures
        focused_in(n) == Some((n.name->0@, match n.class {
            Some(c) => c@,
            None => Seq::<char>::empty(),
        })),
{
}

/// A window that is not focused, or has no title, is never the one reported for
/// itself: what its subtree reports comes from its children.
pub proof fn lemma_unfocused_defers_to_children(n: TreeNode)
    requires
        !n.focused || !(n.name matches Some(t) && t@.len() > 0),
    ensures
        focused_in(n) == match focused_among(n.nodes@, 0) {
            Some(r) => Some(r),
            None => focused_among(n.floating_nodes@, 0),
        },
{
}

fn opt_string(o: &Option<String>) -> (s: String)
    ensures
        s@ == opt_text(*o),
{
    match o {
        Some(t) => t.clone(),
        None => String::new(),
    }
}

fn find_among(cs: &Vec<TreeNode>, Ghost(parent): Ghost<TreeNode>) -> (r: Option<(String, String)>)
    requires
        decreases_to!(parent => cs@),
    ensures
        match focused_among(cs@, 0) {
            Some(x) => r matches Some(y) && y.0@ == x.0 && y.1@ == x.1,
            None => r is None,
        },
    decreases parent, 0int,
{
    let mut i: usize = 0;
    while i < cs.len()
        invariant
            i <= cs@.len(),
            decreases_to!(parent => cs@),
            focused_among(cs@, 0) == focused_among(cs@, i as int),
        decreases cs.len() - i,
    {
        assert(decreases_to!(cs@ => cs@[i as int]));
        assert(decreases_to!(parent => cs@[i as int]));
        match find_focused(&cs[i]) {
            Some(r) => {
                return Some(r);
            },
            None => {},
        }
        i = i + 1;
    }
    None
}

/// The title and class of the focused window under `node`, if any.
pub fn find_focused(node: &TreeNode) -> (r: Option<(String, String)>)
    ensures
        match focused_in(*node) {
            Some(x) => r matches Some(y) && y.0@ == x.0 && y.1@ == x.1,
            None => r is None,
        },
    decreases *node, 1int,
{
    if node.focused {
        let title = opt_string(&node.name);
        if !title.as_str().is_empty() {
            let app = opt_string(&node.app_id);
            let class = if !app.as_str().is_empty() { app } else { opt_string(&node.class) };
            return Some((title, class));
        }
    }
    assert(decreases_to!(*node => node.nodes@));
    match find_among(&node.nodes, Ghost(*node)) {
        Some(r) => {
            return Some(r);
        },
        None => {},
    }
    assert(decreases_to!(*node => node.floating_nodes@));
    find_among(&node.floating_nodes, Ghost(*node))
}

} // verus!
