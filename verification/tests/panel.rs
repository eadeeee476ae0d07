use union_kvm::config::{ClientLayout, Position};
use union_kvm::hotkeys::{hid_for, hotkey_list, key_label_for};
use union_kvm::metrics::Snapshot;
use union_kvm::monitor::{
    can_test, daemon_button, needs_snapshot, runtime_panel, status_line, test_result,
    DaemonButton, DaemonState, LogBuffer, PanelEvent, TestExit, TestStatus,
};
use union_kvm::panel::{validate, ClientForm, FormError, Mode, ServerForm};
use union_kvm::saved::{
    config_file_name, load_client, load_server, read_client_doc, read_server_doc,
    reload_from_disk, save_config, ClientDoc, HotkeyDoc, LayoutDoc, ServerDoc,
};
use union_kvm::status::{ClientSnapshot, FocusSnapshot, StatusSnapshot};
use union_kvm::toml_doc::TomlDoc;

fn server() -> ServerForm {
    ServerForm::new("/certs".into())
}

fn client() -> ClientForm {
    ClientForm::new("me".into())
}

#[test]
fn hotkey_names() {
    assert_eq!(key_label_for(0x4F), "RightArrow");
    assert_eq!(key_label_for(0x43), "F10");
    assert_eq!(key_label_for(0x0BEF), "0x0BEF");
    assert_eq!(hid_for("Space"), 0x2C);
    assert_eq!(hid_for("0x0BEF"), 0x4F);
    let all = hotkey_list();
    assert_eq!(all.len(), 18);
    for (label, hid) in all {
        assert_eq!(key_label_for(hid), label);
        assert_eq!(hid_for(label), hid);
    }
}

#[test]
fn forms_at_first() {
    let s = server();
    assert_eq!((s.port, s.bind.as_str(), s.psk.as_str()), (24800, "0.0.0.0", ""));
    assert_eq!((s.cert_dir.as_str(), s.clipboard_limit_kb), ("/certs", 1024));
    assert!(s.notify_on_focus && !s.overlay_on_focus && s.layout.is_empty());
    assert_eq!(s.hotkey.forward_label, "RightArrow");
    let c = client();
    assert_eq!((c.server_addr.as_str(), c.port, c.hostname.as_str()), ("127.0.0.1", 24800, "me"));
    assert!(!c.discover && c.notify_on_focus && !c.overlay_on_focus);
}

#[test]
fn what_forms_lack() {
    let mut s = server();
    let mut c = client();
    assert_eq!(validate(Mode::Server, &s, &c), Err(FormError::EmptyPsk));
    s.psk = "x".into();
    assert_eq!(validate(Mode::Server, &s, &c), Ok(()));
    assert_eq!(validate(Mode::Client, &s, &c), Err(FormError::EmptyPsk));
    c.psk = "x".into();
    c.hostname = String::new();
    assert_eq!(validate(Mode::Client, &s, &c), Err(FormError::EmptyHostname));
    c.hostname = "h".into();
    c.server_addr = String::new();
    assert_eq!(validate(Mode::Client, &s, &c), Err(FormError::EmptyServer));
    c.server_addr = "a".into();
    assert_eq!(validate(Mode::Client, &s, &c), Err(FormError::BadFingerprint));
    c.fingerprint_hex = "0".repeat(63);
    assert_eq!(validate(Mode::Client, &s, &c), Err(FormError::BadFingerprint));
    c.fingerprint_hex = "g".repeat(64);
    assert_eq!(validate(Mode::Client, &s, &c), Err(FormError::BadFingerprint));
    assert!(!can_test(Mode::Client, &s, &c, &TestStatus::Idle));
    c.fingerprint_hex = format!(" {} ", vec!["0f"; 32].join(":"));
    assert_eq!(validate(Mode::Client, &s, &c), Ok(()));
    assert!(can_test(Mode::Client, &s, &c, &TestStatus::Idle));
    assert!(!can_test(Mode::Client, &s, &c, &TestStatus::Running));
    c.fingerprint_hex = String::new();
    c.discover = true;
    assert_eq!(validate(Mode::Client, &s, &c), Ok(()));
    assert_eq!(FormError::BadFingerprint.text(), "Fingerprint must be 64 hex chars");
}

#[test]
fn hosts_are_added_and_removed() {
    let mut s = server();
    s.new_layout_host = "  ".into();
    assert!(!s.can_add());
    s.new_layout_host = " a ".into();
    s.new_layout_position = Position::Above;
    assert!(s.can_add());
    s.add_layout();
    assert_eq!(s.layout, vec![ClientLayout { hostname: "a".into(), position: Position::Above }]);
    assert_eq!(s.new_layout_host, "");
    s.new_layout_host = "a".into();
    assert!(!s.can_add());
    s.add_layout();
    assert_eq!(s.layout.len(), 1);
    s.remove_layout(0);
    assert!(s.layout.is_empty());
}

#[test]
fn documents_are_taken_over() {
    let mut s = server();
    load_server(
        &mut s,
        &ServerDoc {
            port: Some(65536 + 7),
            bind: None,
            psk: Some("p".into()),
            cert_dir: None,
            clipboard_limit_bytes: Some(4096),
            notify_on_focus: Some(false),
            overlay_on_focus: None,
            hotkey: Some(HotkeyDoc {
                forward: Some(0x3A),
                backward: Some(-1),
                require_ctrl: Some(false),
                require_alt: None,
                require_meta: Some(true),
            }),
            layout: Some(vec![
                LayoutDoc { hostname: "x".into(), position: Some("below".into()) },
                LayoutDoc { hostname: "y".into(), position: Some("nowhere".into()) },
                LayoutDoc { hostname: "z".into(), position: None },
            ]),
        },
    );
    assert_eq!((s.port, s.bind.as_str(), s.psk.as_str()), (7, "0.0.0.0", "p"));
    assert_eq!(s.clipboard_limit_kb, 4);
    assert!(!s.notify_on_focus);
    assert_eq!(s.hotkey.forward_label, "F1");
    assert_eq!(s.hotkey.backward_label, "0xFFFF");
    assert!(!s.hotkey.require_ctrl && s.hotkey.require_alt && s.hotkey.require_meta);
    let places: Vec<Position> = s.layout.iter().map(|e| e.position).collect();
    assert_eq!(places, vec![Position::Below, Position::Right, Position::Right]);
    let mut c = client();
    load_client(
        &mut c,
        &ClientDoc {
            discover: Some(true),
            server_addr: None,
            port: Some(-1),
            hostname: Some("h".into()),
            psk: None,
            server_fingerprint_hex: Some("ff".into()),
            clipboard_limit_bytes: Some(-1),
            notify_on_focus: None,
            overlay_on_focus: Some(true),
        },
    );
    assert_eq!((c.port, c.hostname.as_str(), c.fingerprint_hex.as_str()), (65535, "h", "ff"));
    assert_eq!(c.clipboard_limit_kb, u64::MAX / 1024);
    assert!(c.discover && c.overlay_on_focus);
    assert_eq!(c.server_addr, "127.0.0.1");
}

#[test]
fn files_are_read() {
    let text = "port = 5\nbind = \"b\"\npsk = 3\n[hotkey]\ncycle_forward_key = 58\n\
                [layout.zeta]\nposition = \"left\"\n[layout.alpha]\nposition = 4\n";
    let doc = TomlDoc::parse(text).unwrap();
    let d = read_server_doc(&doc);
    assert_eq!((d.port, d.bind.as_deref(), d.psk.as_deref()), (Some(5), Some("b"), None));
    assert_eq!(d.hotkey.unwrap().forward, Some(58));
    let l = d.layout.unwrap();
    assert_eq!((l[0].hostname.as_str(), l[0].position.as_deref()), ("alpha", None));
    assert_eq!((l[1].hostname.as_str(), l[1].position.as_deref()), ("zeta", Some("left")));
    let d = read_client_doc(&TomlDoc::parse("discover = true\n").unwrap());
    assert_eq!((d.discover, d.port), (Some(true), None));
    assert!(TomlDoc::parse("= nonsense").is_none());
}

#[test]
fn what_is_saved_is_loaded() {
    let mut s = server();
    s.psk = "se\"cret\n'''\r\t".into();
    s.port = 1;
    s.clipboard_limit_kb = 77;
    s.hotkey.forward_label = "Tab".into();
    s.hotkey.require_meta = true;
    s.layout.push(ClientLayout { hostname: "b.c d".into(), position: Position::Below });
    s.layout.push(ClientLayout { hostname: "a".into(), position: Position::Left });
    let mut c = client();
    c.fingerprint_hex = " ab ".into();
    c.psk = "ção".into();
    let st = save_config(Mode::Server, &s, &c).unwrap();
    let ct = save_config(Mode::Client, &s, &c).unwrap();
    let mut s2 = server();
    let mut c2 = ClientForm::new("other".into());
    reload_from_disk(&mut s2, &mut c2, Some(&st), Some(&ct));
    s.layout.reverse();
    assert_eq!(s2, s);
    c.fingerprint_hex = "ab".into();
    assert_eq!(c2, c);
    // A file that is missing or malformed changes nothing.
    reload_from_disk(&mut s2, &mut c2, None, Some("[["));
    assert_eq!((s2, c2), (s, c));
    assert_eq!(config_file_name(Mode::Server), "server.toml");
    assert_eq!(config_file_name(Mode::Client), "client.toml");
}

#[test]
fn long_runs_of_quotes_are_refused() {
    let mut s = server();
    let c = client();
    for quote in ["'", "\""] {
        s.psk = format!("a{}b{}", quote.repeat(255), quote.repeat(255));
        let text = save_config(Mode::Server, &s, &c).unwrap();
        let mut s2 = server();
        reload_from_disk(&mut s2, &mut client(), Some(&text), None);
        assert_eq!(s2.psk, s.psk);
        s.psk = format!("a\n\t\r\\{}", quote.repeat(255));
        let text = save_config(Mode::Server, &s, &c).unwrap();
        reload_from_disk(&mut s2, &mut client(), Some(&text), None);
        assert_eq!(s2.psk, s.psk);
        s.psk = format!("é{}", quote.repeat(256));
        assert_eq!(
            save_config(Mode::Server, &s, &c),
            Err("more than 255 quotes in a row cannot be saved".to_string())
        );
    }
    let mut c = client();
    c.hostname = "'".repeat(300);
    assert!(save_config(Mode::Client, &s, &c).is_err());
}

#[test]
fn a_host_that_marks_a_date_is_saved_but_not_read_back() {
    let mut s = server();
    s.port = 7;
    let host = "$__toml_private_datetime";
    s.layout.push(ClientLayout { hostname: host.into(), position: Position::Left });
    let text = save_config(Mode::Server, &s, &client()).unwrap();
    assert!(text.contains(host));
    assert!(TomlDoc::parse(&text).is_none());
    let mut s2 = server();
    reload_from_disk(&mut s2, &mut client(), Some(&text), None);
    assert_eq!(s2, server());
}

#[test]
fn of_two_places_for_a_host_the_later_counts() {
    let mut s = server();
    s.layout.push(ClientLayout { hostname: "a".into(), position: Position::Left });
    s.layout.push(ClientLayout { hostname: "b".into(), position: Position::Left });
    s.layout.push(ClientLayout { hostname: "a".into(), position: Position::Above });
    let text = save_config(Mode::Server, &s, &client()).unwrap();
    let mut s2 = server();
    reload_from_disk(&mut s2, &mut client(), Some(&text), None);
    s.layout.swap_remove(0);
    assert_eq!(s2.layout, s.layout);
}

#[test]
fn names_of_hosts_may_hold_any_run_of_quotes() {
    for quote in ["'", "\"", "\"'"] {
        let mut s = server();
        let host = format!("h\n{}", quote.repeat(300));
        s.layout.push(ClientLayout { hostname: host, position: Position::Left });
        let text = save_config(Mode::Server, &s, &client()).unwrap();
        let mut s2 = server();
        reload_from_disk(&mut s2, &mut client(), Some(&text), None);
        assert_eq!(s2.layout, s.layout);
    }
}

#[test]
fn saved_files_have_the_expected_keys() {
    let mut s = server();
    s.psk = "p".into();
    let text = save_config(Mode::Server, &s, &client()).unwrap();
    let v: toml::Value = text.parse().unwrap();
    assert_eq!(v["port"].as_integer(), Some(24800));
    assert_eq!(v["clipboard_limit_bytes"].as_integer(), Some(1024 * 1024));
    assert_eq!(v["hotkey"]["cycle_backward_key"].as_integer(), Some(0x50));
    assert_eq!(v["hotkey"]["require_ctrl"].as_bool(), Some(true));
    assert!(v.get("layout").is_none());
    s.layout.push(ClientLayout { hostname: "a".into(), position: Position::Left });
    s.layout.push(ClientLayout { hostname: "a".into(), position: Position::Above });
    let text = save_config(Mode::Server, &s, &client()).unwrap();
    let v: toml::Value = text.parse().unwrap();
    assert_eq!(v["layout"]["a"]["position"].as_str(), Some("above"));
}

#[test]
fn daemons_in_words() {
    let r = DaemonState::Running(7);
    assert!(r.is_running());
    assert_eq!(r.status_text(), "running (pid 7)");
    assert_eq!(DaemonState::Idle.status_text(), "idle");
    assert_eq!(r.reap(None), r);
    assert_eq!(r.reap(Some((true, Some(0)))).status_text(), "exited (ok)");
    let broke = r.reap(Some((false, Some(-9))));
    assert_eq!(broke.status_text(), "exited (code Some(-9))");
    assert_eq!(broke.reap(Some((true, None))), broke);
    assert_eq!(DaemonState::Broke(None).status_text(), "exited (code None)");
    assert!(!DaemonState::Idle.is_running());
}

fn ran(code: Option<i32>, stdout: &str, stderr: &str) -> TestStatus {
    test_result(&TestExit::Ran { code, stdout: stdout.into(), stderr: stderr.into() })
}

#[test]
fn the_button_of_the_program() {
    let mut s = server();
    let c = client();
    assert_eq!(
        daemon_button(DaemonState::Idle, Mode::Server, &s, &c),
        DaemonButton::Blocked("Cannot start: PSK must not be empty".into())
    );
    assert_eq!(
        daemon_button(DaemonState::Running(1), Mode::Server, &s, &c),
        DaemonButton::Stop
    );
    s.psk = "x".into();
    assert_eq!(
        daemon_button(DaemonState::Broke(None), Mode::Server, &s, &c),
        DaemonButton::Start
    );
}

#[test]
fn tests_of_the_connection() {
    assert_eq!(ran(Some(0), " \n", "x"), TestStatus::Passed("Handshake OK".into()));
    assert_eq!(ran(Some(0), " fine\n", ""), TestStatus::Passed("fine".into()));
    assert_eq!(ran(Some(2), "", " m "), TestStatus::Failed("Fingerprint mismatch: m".into()));
    assert_eq!(ran(Some(1), "", "e"), TestStatus::Failed("Failed (code 1): e".into()));
    assert_eq!(ran(None, "", ""), TestStatus::Failed("Process killed".into()));
    assert_eq!(
        test_result(&TestExit::NotStarted("gone".into())),
        TestStatus::Failed("Spawn failed: gone".into())
    );
}

#[test]
fn the_status_line() {
    assert_eq!(status_line(&PanelEvent::Reloaded), "Config reloaded from disk");
    assert_eq!(status_line(&PanelEvent::Saved("/x".into())), "Saved to /x");
    assert_eq!(status_line(&PanelEvent::SaveFailed("e".into())), "Save failed: e");
    assert_eq!(status_line(&PanelEvent::Stopped), "Daemon stopped");
    assert_eq!(status_line(&PanelEvent::Started), "Daemon started");
    assert_eq!(status_line(&PanelEvent::StartFailed("e".into())), "Start failed: e");
}

#[test]
fn logs_keep_the_last_lines() {
    let mut log = LogBuffer::new();
    assert_eq!(log.snapshot_logs(), "");
    log.push_log("a".into());
    log.push_log("b".into());
    assert_eq!(log.snapshot_logs(), "a\nb");
    for i in 0..400 {
        log.push_log(i.to_string());
    }
    let text = log.snapshot_logs();
    assert_eq!(text.lines().count(), 400);
    assert!(text.starts_with("0\n1\n") && text.ends_with("\n399"));
}

#[test]
fn the_runtime_panel() {
    let snap = StatusSnapshot {
        pid: 12,
        timestamp_unix: 1000,
        fingerprint_hex: "fp".into(),
        listening_on: "l".into(),
        virtual_desktop: (0, 0, 1, 1),
        focus: FocusSnapshot::Remote("h".into()),
        clients: vec![
            ClientSnapshot {
                hostname: "h".into(),
                position: "left".into(),
                screen: Some((800, 600)),
            },
            ClientSnapshot { hostname: "i".into(), position: "right".into(), screen: None },
        ],
        metrics: Snapshot {
            auth_failures: 1,
            focus_switches: 2,
            sessions_opened: 3,
            clipboard_text_bytes: 4,
            clipboard_image_bytes: 5,
        },
        ipc_addr: None,
        ipc_token: String::new(),
    };
    let p = runtime_panel(&snap, 1005);
    assert_eq!(p.stale, None);
    assert_eq!((p.pid.as_str(), p.focus.as_str()), ("12", "→ h"));
    assert_eq!(p.clients[0].screen, "800x600");
    assert_eq!(p.clients[1].screen, "—");
    assert_eq!(p.clients[1].hostname, "i");
    assert_eq!(
        (p.sessions_opened.as_str(), p.focus_switches.as_str(), p.auth_failures.as_str()),
        ("3", "2", "1")
    );
    assert_eq!((p.clipboard_text_bytes, p.clipboard_image_bytes), (4, 5));
    assert_eq!(runtime_panel(&snap, 1006).stale.unwrap(), "snapshot stale (6s old)");
    assert_eq!(runtime_panel(&snap, 0).stale, None);
    assert!(needs_snapshot(None) && needs_snapshot(Some(801)) && !needs_snapshot(Some(800)));
}
