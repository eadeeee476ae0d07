use union_kvm::capture::{CaptureEvent, VirtualBounds};
use union_kvm::clipboard::{ClipboardPayload, PayloadKind};
use union_kvm::config::{HotkeyConfig, LayoutMap, Position, ServerConfig};
use union_kvm::digest::sha256;
use union_kvm::focus::{
    apply_focus_change, cross_edge, detect_edge, hotkey_cycle, place_cursor_inside_edge,
    return_to_local, route, FocusPrefs,
};
use union_kvm::metrics::{inc, snapshot, Counters};
use union_kvm::protocol::{Edge, KeyCode, Message, Modifiers, MouseButton};
use union_kvm::reload::{apply_diff, apply_layout_to_connected, layout_equal};
use union_kvm::server::{
    admit_peer, conclude_handshake, open_session, seat_of, share_clipboard, ClientSession,
};
use union_kvm::session::Peer;
use union_kvm::state::{
    entry_edge_for_position, is_v2_only, is_v3_only, position_for_server_edge, ConnectedClient,
    Focus, ServerState,
};
use union_kvm::status::{build_snapshot, position_str, FocusSnapshot};
use union_kvm::throttle::{
    AuthThrottle, PeerAddr, BACKOFF_BASE, BACKOFF_MAX, FAILURE_DECAY, MAX_FAILURES,
};

const QUIET: FocusPrefs = FocusPrefs { notify: false, overlay: false };
const LOUD: FocusPrefs = FocusPrefs { notify: true, overlay: true };
const BOUNDS: VirtualBounds = VirtualBounds { min_x: 0, min_y: 0, max_x: 1920, max_y: 1080 };

fn peer(name: &str, version: u16) -> Peer {
    Peer { hostname: name.into(), peer_version: version }
}

/// A server with the given clients, to the right, the left, above and below.
fn server(names: &[&str]) -> ServerState {
    let mut layout = LayoutMap::new();
    let places = [Position::Right, Position::Left, Position::Above, Position::Below];
    for (i, n) in names.iter().enumerate() {
        layout.insert(n, places[i % 4]);
    }
    let mut st = ServerState::new();
    for n in names {
        open_session(&mut st, &layout, peer(n, 2));
    }
    st
}

fn holder(st: &ServerState) -> Option<u64> {
    match st.focus {
        Focus::Local => None,
        Focus::Remote { client_id, .. } => Some(client_id),
    }
}

#[test]
fn clients_come_and_go() {
    let mut st = server(&["a", "b", "c"]);
    assert_eq!(st.order, vec![1, 2, 3]);
    assert_eq!(st.next_id, 4);
    assert_eq!(st.counters.sessions_opened, 3);
    assert_eq!(st.client_count(), 3);
    assert!(st.is_connected(2));
    apply_focus_change(
        &mut st,
        Focus::Remote { client_id: 2, entry_edge: Edge::Left },
        QUIET,
    );
    st.remove_client(2);
    assert_eq!(st.order, vec![1, 3]);
    assert_eq!(st.focus, Focus::Local);
    assert!(!st.is_connected(2));
    assert_eq!(st.alloc_id(), 4);
    let c = ConnectedClient {
        id: 9,
        hostname: "z".into(),
        screen: None,
        outbox: vec![],
        position: Position::Above,
        proto_version: 1,
    };
    assert_eq!(st.add_client(c), 9);
    assert_eq!(st.order, vec![1, 3, 9]);
    st.remove_client(77);
    assert_eq!(st.order, vec![1, 3, 9]);
}

#[test]
fn old_clients_are_spared_new_messages() {
    let offer = Message::ClipboardImageOffer { hash: [0; 32], width: 1, height: 1, total_chunks: 1 };
    let reject = Message::FileTransferReject { id: 1, reason: "r".into() };
    assert!(is_v2_only(&offer) && !is_v3_only(&offer));
    assert!(is_v3_only(&reject) && !is_v2_only(&reject));
    assert!(is_v2_only(&Message::SetExitEdge { edge: Edge::Top }));
    assert!(is_v2_only(&Message::RequestFocusReturn));
    assert!(is_v3_only(&Message::FileTransferDone { id: 1, sha256: [0; 32] }));
    let mut c = ConnectedClient {
        id: 1,
        hostname: "a".into(),
        screen: None,
        outbox: vec![],
        position: Position::Right,
        proto_version: 1,
    };
    c.send_compat(offer.clone());
    c.send_compat(reject.clone());
    c.send_compat(Message::Ping);
    assert_eq!(c.outbox, vec![Message::Ping]);
    c.proto_version = 2;
    c.send_compat(offer.clone());
    c.send_compat(reject.clone());
    assert_eq!(c.outbox, vec![Message::Ping, offer]);
    c.proto_version = 3;
    c.send_compat(reject.clone());
    assert_eq!(c.outbox[2], reject);
}

#[test]
fn edges_and_positions() {
    assert_eq!(position_for_server_edge(Edge::Top), Position::Above);
    assert_eq!(position_for_server_edge(Edge::Bottom), Position::Below);
    assert_eq!(position_for_server_edge(Edge::Left), Position::Left);
    assert_eq!(entry_edge_for_position(Position::Right), Edge::Left);
    assert_eq!(entry_edge_for_position(Position::Above), Edge::Bottom);
    for e in [Edge::Left, Edge::Right, Edge::Top, Edge::Bottom] {
        assert_eq!(entry_edge_for_position(position_for_server_edge(e)), e.opposite());
    }
    assert_eq!(detect_edge(2, 500, BOUNDS), Some(Edge::Left));
    assert_eq!(detect_edge(3, 500, BOUNDS), None);
    assert_eq!(detect_edge(1917, 500, BOUNDS), Some(Edge::Right));
    assert_eq!(detect_edge(1916, 500, BOUNDS), None);
    assert_eq!(detect_edge(500, 2, BOUNDS), Some(Edge::Top));
    assert_eq!(detect_edge(500, 1077, BOUNDS), Some(Edge::Bottom));
    assert_eq!(detect_edge(0, 0, BOUNDS), Some(Edge::Left));
}

#[test]
fn the_cursor_enters_inside_the_edge() {
    assert_eq!(place_cursor_inside_edge(1920, 1080, Edge::Left), (8, 540));
    assert_eq!(place_cursor_inside_edge(1920, 1080, Edge::Right), (1911, 540));
    assert_eq!(place_cursor_inside_edge(1920, 1081, Edge::Top), (960, 8));
    assert_eq!(place_cursor_inside_edge(1920, 1080, Edge::Bottom), (960, 1071));
    assert_eq!(place_cursor_inside_edge(-3, -5, Edge::Left), (8, -2));
    assert_eq!(
        place_cursor_inside_edge(i32::MIN, 0, Edge::Right),
        (i32::MIN.wrapping_sub(9), 0)
    );
}

#[test]
fn moving_the_focus_tells_both_clients() {
    let mut st = server(&["a", "b"]);
    let mut s = ClientSession::new(2);
    s.on_message(&mut st, Message::ScreenInfo { width: 800, height: 600 }, QUIET);
    let e = apply_focus_change(
        &mut st,
        Focus::Remote { client_id: 1, entry_edge: Edge::Left },
        QUIET,
    );
    assert!(e.capturing);
    assert_eq!((e.notice, e.overlay), (None, None));
    assert_eq!(
        st.take_outbox(1),
        vec![
            Message::SetExitEdge { edge: Edge::Left },
            Message::EnterScreen { x: 100, y: 100 }
        ]
    );
    let e = apply_focus_change(
        &mut st,
        Focus::Remote { client_id: 2, entry_edge: Edge::Right },
        LOUD,
    );
    let notice = e.notice.unwrap();
    assert_eq!((notice.summary.as_str(), notice.body.as_str()), ("Union", "focus → b"));
    assert_eq!(e.overlay.unwrap(), "→ b");
    assert_eq!(st.take_outbox(1), vec![Message::LeaveScreen]);
    assert_eq!(
        st.take_outbox(2),
        vec![
            Message::SetExitEdge { edge: Edge::Right },
            Message::EnterScreen { x: 791, y: 300 }
        ]
    );
    let e = return_to_local(&mut st, LOUD);
    assert!(!e.capturing);
    assert_eq!(e.overlay.unwrap(), "→ local");
    assert_eq!(st.take_outbox(2), vec![Message::LeaveScreen]);
    assert_eq!(st.take_outbox(77), vec![]);
    assert_eq!(st.counters.focus_switches, 3);
    let e = apply_focus_change(
        &mut st,
        Focus::Remote { client_id: 42, entry_edge: Edge::Top },
        LOUD,
    );
    assert_eq!(e.overlay.unwrap(), "→ client #42");
}

#[test]
fn hotkeys_walk_the_list() {
    let mut st = server(&["a", "b", "c"]);
    let mut seen = vec![];
    for _ in 0..4 {
        hotkey_cycle(&mut st, 1, QUIET).unwrap();
        seen.push(holder(&st));
    }
    assert_eq!(seen, vec![Some(1), Some(2), Some(3), None]);
    let mut seen = vec![];
    for _ in 0..4 {
        hotkey_cycle(&mut st, -1, QUIET).unwrap();
        seen.push(holder(&st));
    }
    assert_eq!(seen, vec![Some(3), Some(2), Some(1), None]);
    assert_eq!(hotkey_cycle(&mut ServerState::new(), 1, QUIET), None);
}

#[test]
fn rounds_from_anywhere_in_either_direction() {
    for start in 0..4 {
        for dir in [1, -1] {
            let mut st = server(&["a", "b", "c"]);
            for _ in 0..start {
                hotkey_cycle(&mut st, 1, QUIET);
            }
            let first = holder(&st);
            let mut seen = vec![];
            for _ in 0..4 {
                hotkey_cycle(&mut st, dir, QUIET);
                seen.push(holder(&st));
            }
            assert_eq!(holder(&st), first);
            seen.sort();
            assert_eq!(seen, vec![None, Some(1), Some(2), Some(3)]);
        }
    }
}

#[test]
fn a_step_forward_and_back() {
    for start in 0..4 {
        let mut st = server(&["a", "b", "c"]);
        for _ in 0..start {
            hotkey_cycle(&mut st, 1, QUIET);
        }
        let before = holder(&st);
        hotkey_cycle(&mut st, 1, QUIET);
        hotkey_cycle(&mut st, -1, QUIET);
        assert_eq!(holder(&st), before);
    }
}

#[test]
fn crossing_an_edge_reaches_the_neighbour() {
    let mut st = server(&["right", "left"]);
    assert!(cross_edge(&mut st, Edge::Left, QUIET).is_some());
    assert_eq!(st.focus, Focus::Remote { client_id: 2, entry_edge: Edge::Right });
    let before = st.counters;
    assert_eq!(cross_edge(&mut st, Edge::Top, QUIET), None);
    assert_eq!(st.counters, before);
}

fn motion(x: i32, y: i32) -> CaptureEvent {
    CaptureEvent::MouseMove { x, y, dx: 1, dy: -1 }
}

#[test]
fn routing() {
    let mut st = server(&["right"]);
    let hk = HotkeyConfig::default();
    let mut armed = true;
    // Away from the edges nothing happens, and nothing is passed on.
    assert_eq!(route(&mut st, &mut armed, motion(900, 500), &hk, BOUNDS, QUIET), None);
    assert_eq!(
        route(
            &mut st,
            &mut armed,
            CaptureEvent::MouseWheel { dx: 0, dy: 1 },
            &hk,
            BOUNDS,
            QUIET
        ),
        None
    );
    assert_eq!(st.take_outbox(1), vec![]);
    // At an edge with no neighbour neither, and the next touch still counts.
    assert_eq!(route(&mut st, &mut armed, motion(0, 500), &hk, BOUNDS, QUIET), None);
    assert!(armed);
    // At the right edge the client gets the focus.
    let e = route(&mut st, &mut armed, motion(1919, 500), &hk, BOUNDS, QUIET).unwrap();
    assert!(e.capturing && !armed);
    assert_eq!(st.take_outbox(1).len(), 2);
    // From now on it gets the input.
    let key = CaptureEvent::Key {
        key: KeyCode(4),
        pressed: true,
        modifiers: Modifiers::default(),
    };
    let button = CaptureEvent::MouseButton { button: MouseButton::Left, pressed: true };
    for ev in [motion(1, 2), button, CaptureEvent::MouseWheel { dx: 3, dy: 4 }, key] {
        assert_eq!(route(&mut st, &mut armed, ev, &hk, BOUNDS, QUIET), None);
    }
    assert_eq!(
        st.take_outbox(1),
        vec![
            Message::MouseMove { dx: 1, dy: -1 },
            Message::MouseButton { button: MouseButton::Left, pressed: true },
            Message::MouseWheel { dx: 3, dy: 4 },
            Message::KeyEvent {
                key: KeyCode(4),
                pressed: true,
                modifiers: Modifiers::default()
            },
        ]
    );
    // Back at home the edge does not count again before the cursor has left it.
    return_to_local(&mut st, QUIET);
    assert_eq!(route(&mut st, &mut armed, motion(1919, 500), &hk, BOUNDS, QUIET), None);
    assert_eq!(holder(&st), None);
    route(&mut st, &mut armed, motion(900, 500), &hk, BOUNDS, QUIET);
    assert!(armed);
    assert!(route(&mut st, &mut armed, motion(1919, 500), &hk, BOUNDS, QUIET).is_some());
    // The hotkey works from anywhere, and arms the edges.
    let held = Modifiers { shift: false, ctrl: true, alt: true, meta: false };
    let forward = CaptureEvent::Key { key: KeyCode(0x4f), pressed: true, modifiers: held };
    let e = route(&mut st, &mut armed, forward, &hk, BOUNDS, QUIET).unwrap();
    assert!(!e.capturing && armed);
    assert_eq!(holder(&st), None);
    // Without its modifiers it is a key like any other.
    let plain = CaptureEvent::Key {
        key: KeyCode(0x4f),
        pressed: true,
        modifiers: Modifiers::default(),
    };
    assert_eq!(route(&mut st, &mut armed, plain, &hk, BOUNDS, QUIET), None);
}

#[test]
fn offers_and_chunks_are_relayed_and_put_together() {
    let mut st = server(&["a", "b", "c"]);
    let mut s = ClientSession::new(1);
    let offer = Message::ClipboardOffer {
        hash: sha256(b"abc"),
        size: 3,
        truncated: false,
        mime: "m".into(),
    };
    let chunk = Message::ClipboardData {
        hash: sha256(b"abc"),
        chunk_index: 0,
        total_chunks: 1,
        data: b"abc".to_vec(),
    };
    assert_eq!(s.on_message(&mut st, offer.clone(), QUIET).clipboard, None);
    let step = s.on_message(&mut st, chunk.clone(), QUIET);
    assert_eq!(step.clipboard, Some((PayloadKind::Text, b"abc".to_vec())));
    assert_eq!(st.take_outbox(1), vec![]);
    assert_eq!(st.take_outbox(2), vec![offer.clone(), chunk.clone()]);
    assert_eq!(st.take_outbox(3), vec![offer, chunk]);
    let image = Message::ClipboardImageOffer { hash: [1; 32], width: 2, height: 3, total_chunks: 2 };
    s.on_message(&mut st, image.clone(), QUIET);
    assert_eq!(st.take_outbox(2), vec![image]);
    assert_eq!(
        s.incoming.pending.as_ref().unwrap().parts.kind,
        PayloadKind::Image { width: 2, height: 3 }
    );
}

#[test]
fn other_messages_of_a_client() {
    let mut st = server(&["a", "b"]);
    let mut s = ClientSession::new(2);
    s.on_message(&mut st, Message::Ping, QUIET);
    assert_eq!(st.take_outbox(2), vec![Message::Pong]);
    s.on_message(&mut st, Message::ScreenInfo { width: 5, height: 6 }, QUIET);
    assert_eq!(st.clients[&2].screen, Some((5, 6)));
    hotkey_cycle(&mut st, 1, QUIET);
    let step = s.on_message(&mut st, Message::RequestFocusReturn, QUIET);
    assert!(!step.effect.unwrap().capturing);
    assert_eq!(st.focus, Focus::Local);
    let step = s.on_message(&mut st, Message::AuthOk, QUIET);
    assert!(step.effect.is_none() && step.clipboard.is_none());
    s.close(&mut st);
    assert_eq!(st.order, vec![1]);
}

#[test]
fn the_clipboard_is_shared_with_all() {
    let mut st = server(&["a", "b"]);
    let payload = ClipboardPayload {
        hash: sha256(&[7u8; 40_000]),
        bytes: vec![7u8; 40_000],
        mime: "text/plain;charset=utf-8".into(),
        truncated: false,
        kind: PayloadKind::Text,
    };
    share_clipboard(&mut st, &payload);
    assert_eq!(st.counters.clipboard_text_bytes, 40_000);
    assert_eq!(st.counters.clipboard_image_bytes, 0);
    for id in [1, 2] {
        let sent = st.take_outbox(id);
        assert_eq!(sent.len(), 3);
        assert!(matches!(sent[0], Message::ClipboardOffer { size: 40_000, .. }));
        assert!(matches!(sent[1], Message::ClipboardData { chunk_index: 0, total_chunks: 2, .. }));
        assert!(matches!(sent[2], Message::ClipboardData { chunk_index: 1, total_chunks: 2, .. }));
    }
}

#[test]
fn handshakes_are_concluded() {
    let mut st = ServerState::new();
    let mut throttle = AuthThrottle::new();
    let mut layout = LayoutMap::new();
    layout.insert("known", Position::Below);
    let addr = PeerAddr::V4(0x7f00_0001);
    assert_eq!(conclude_handshake(&mut st, &mut throttle, &layout, addr, 5, None), None);
    assert_eq!(throttle.failures(addr), 1);
    assert_eq!(st.counters.auth_failures, 1);
    let id = conclude_handshake(&mut st, &mut throttle, &layout, addr, 6, Some(peer("known", 1)));
    assert_eq!(id, Some(1));
    assert_eq!(throttle.failures(addr), 0);
    assert_eq!(st.clients[&1].position, Position::Below);
    assert_eq!(st.clients[&1].proto_version, 1);
    assert_eq!(seat_of(&layout, "stranger"), Position::Right);
}

#[test]
fn blocks_after_threshold() {
    let mut t = AuthThrottle::new();
    let mut c = Counters::new();
    let ip = PeerAddr::V4(u32::from_be_bytes([127, 0, 0, 1]));
    for _ in 0..MAX_FAILURES {
        assert!(t.blocked(ip, 1000).is_none());
        t.record_failure(ip, 1000, &mut c);
    }
    assert!(t.blocked(ip, 1000).is_some());
    assert_eq!(t.blocked(ip, 1000), Some(BACKOFF_BASE));
    assert_eq!(admit_peer(&t, ip, 1000), Err(BACKOFF_BASE));
    assert_eq!(admit_peer(&t, ip, 1000 + BACKOFF_BASE), Ok(()));
    assert_eq!(admit_peer(&t, PeerAddr::V6(1), 1000), Ok(()));
    assert_eq!(t.blocked(ip, 1000 + BACKOFF_BASE - 1), Some(1));
    assert_eq!(t.blocked(ip, 1000 + BACKOFF_BASE), None);
    assert_eq!(t.blocked(PeerAddr::V6(1), 1000), None);
    assert_eq!(c.auth_failures, 3);
}

#[test]
fn success_clears_state() {
    let mut t = AuthThrottle::new();
    let mut c = Counters::new();
    let ip = PeerAddr::V4(u32::from_be_bytes([10, 0, 0, 1]));
    for _ in 0..MAX_FAILURES {
        t.record_failure(ip, 7, &mut c);
    }
    assert!(t.blocked(ip, 7).is_some());
    t.record_success(ip);
    assert!(t.blocked(ip, 7).is_none());
}

#[test]
fn backoff_grows() {
    let mut t = AuthThrottle::new();
    let mut c = Counters::new();
    let ip = PeerAddr::V4(u32::from_be_bytes([10, 0, 0, 2]));
    for _ in 0..MAX_FAILURES {
        t.record_failure(ip, 7, &mut c);
    }
    let first = t.blocked(ip, 7).unwrap();
    t.record_failure(ip, 7, &mut c);
    let second = t.blocked(ip, 7).unwrap();
    assert!(second > first, "expected backoff to grow: {first:?} -> {second:?}");
    assert_eq!(second, 2 * first);
    for _ in 0..60 {
        t.record_failure(ip, 7, &mut c);
    }
    assert_eq!(t.blocked(ip, 7), Some(BACKOFF_MAX));
}

#[test]
fn a_quiet_time_forgives() {
    let mut t = AuthThrottle::new();
    let mut c = Counters::new();
    let ip = PeerAddr::V6(77);
    for _ in 0..5 {
        t.record_failure(ip, 1, &mut c);
    }
    t.record_failure(ip, 1 + FAILURE_DECAY, &mut c);
    assert_eq!(t.failures(ip), 6);
    t.record_failure(ip, 2 + 2 * FAILURE_DECAY, &mut c);
    assert_eq!(t.failures(ip), 1);
    assert_eq!(t.blocked(ip, 2 + 2 * FAILURE_DECAY), None);
}

#[test]
fn counters_wrap() {
    let mut c = Counters::new();
    c.focus_switches = u64::MAX;
    inc(&mut c.focus_switches, 3);
    assert_eq!(snapshot(&c).focus_switches, 2);
}

fn config(layout: &[(&str, Position)]) -> ServerConfig {
    let mut l = LayoutMap::new();
    for (h, p) in layout {
        l.insert(h, *p);
    }
    ServerConfig {
        port: 1,
        bind: "0.0.0.0".into(),
        psk: "p".into(),
        cert_dir: vec!["/".into(), "etc".into()],
        clipboard_limit_bytes: 1,
        hotkey: HotkeyConfig::default(),
        layout: l,
        notify_on_focus: false,
        overlay_on_focus: false,
        release_focus_on_lock: false,
    }
}

#[test]
fn layouts_compare_by_what_they_say() {
    let a = config(&[("x", Position::Left), ("y", Position::Above)]).layout;
    let b = config(&[("y", Position::Above), ("x", Position::Right), ("x", Position::Left)]).layout;
    assert!(layout_equal(&a, &b));
    assert_eq!(b.len(), 2);
    assert_eq!(b.get("x"), Some(Position::Left));
    assert_eq!(b.get("z"), None);
    assert!(!layout_equal(&a, &config(&[("x", Position::Left)]).layout));
    assert!(!layout_equal(
        &a,
        &config(&[("x", Position::Left), ("y", Position::Below)]).layout
    ));
}

#[test]
fn reloading_moves_clients() {
    let mut st = server(&["a", "b"]);
    let old = config(&[]);
    let mut new = config(&[("a", Position::Above)]);
    new.notify_on_focus = true;
    let mut layout = LayoutMap::new();
    let mut prefs = QUIET;
    let report = apply_diff(&old, &new, &mut st, &mut layout, &mut prefs);
    assert_eq!(report.notify, Some(true));
    assert!(!report.restart_required && !report.hotkey_ignored);
    assert_eq!(report.layout_entries, Some(1));
    assert_eq!(report.overlay, None);
    assert!(prefs.notify && !prefs.overlay);
    assert_eq!(st.clients[&1].position, Position::Above);
    assert_eq!(st.clients[&2].position, Position::Right);
    assert_eq!(layout.get("a"), Some(Position::Above));
    let mut other = config(&[("a", Position::Above)]);
    other.notify_on_focus = true;
    other.cert_dir = vec!["/".into()];
    other.hotkey.require_meta = true;
    let report = apply_diff(&new, &other, &mut st, &mut layout, &mut prefs);
    assert!(report.restart_required && report.hotkey_ignored);
    assert_eq!((report.notify, report.layout_entries), (None, None));
    apply_layout_to_connected(&mut st, &LayoutMap::new());
    assert_eq!(st.clients[&1].position, Position::Right);
}

#[test]
fn reloading_takes_over_the_wishes() {
    let mut st = server(&["a"]);
    let off = config(&[]);
    let mut on = config(&[]);
    on.overlay_on_focus = true;
    let mut layout = LayoutMap::new();
    let mut prefs = QUIET;
    let report = apply_diff(&off, &on, &mut st, &mut layout, &mut prefs);
    assert_eq!((report.notify, report.overlay), (None, Some(true)));
    assert!(!prefs.notify && prefs.overlay);
    assert!(!report.restart_required && !report.hotkey_ignored);
    let report = apply_diff(&on, &off, &mut st, &mut layout, &mut prefs);
    assert_eq!((report.notify, report.overlay), (None, Some(false)));
    assert_eq!(prefs, QUIET);
    let report = apply_diff(&off, &off, &mut st, &mut layout, &mut prefs);
    assert_eq!((report.notify, report.overlay), (None, None));
}

#[test]
fn the_status_lists_clients_and_focus() {
    let mut st = server(&["a", "b"]);
    let mut s = ClientSession::new(2);
    s.on_message(&mut st, Message::ScreenInfo { width: 5, height: 6 }, QUIET);
    hotkey_cycle(&mut st, -1, QUIET);
    let snap = build_snapshot(
        &st,
        "fp",
        "0.0.0.0:1",
        BOUNDS,
        9,
        1000,
        Some("127.0.0.1:5".into()),
        &[0xab; 32],
    );
    assert_eq!((snap.pid, snap.timestamp_unix), (9, 1000));
    assert_eq!(snap.virtual_desktop, (0, 0, 1920, 1080));
    assert_eq!(snap.focus, FocusSnapshot::Remote("b".into()));
    assert_eq!(snap.clients.len(), 2);
    assert_eq!(snap.clients[0].hostname, "a");
    assert_eq!(snap.clients[0].position, "right");
    assert_eq!(snap.clients[1].position, "left");
    assert_eq!(snap.clients[1].screen, Some((5, 6)));
    assert_eq!(snap.metrics.sessions_opened, 2);
    assert_eq!(snap.ipc_addr.as_deref(), Some("127.0.0.1:5"));
    assert_eq!(snap.ipc_token, "ab".repeat(32));
    assert_eq!(position_str(Position::Below), "below");
}
