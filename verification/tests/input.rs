use union_kvm::capture::{
    hotkey, CaptureError, CaptureEvent, GrabState, Grabbed, InputCapturer, ModifierKey, RawEvent,
};
use union_kvm::client::{
    fingerprint_from, on_disconnect, on_message, parse_fingerprint, share_clipboard,
    FingerprintError,
};
use union_kvm::clipboard::{chunk_payload, ClipboardPayload, Incoming, PayloadKind};
use union_kvm::config::HotkeyConfig;
use union_kvm::digest::sha256;
use union_kvm::inject::{
    new_injector, Action, InjectCmd, InjectError, InputInjector, PlatformInjector, PointerButton,
};
use union_kvm::keymap::{hid_to_enigo, Key};
use union_kvm::protocol::{Edge, KeyCode, Message, Modifiers, MouseButton};

#[test]
fn letters_map_lower_and_upper() {
    assert!(matches!(hid_to_enigo(0x04, false), Some(Key::Unicode('a'))));
    assert!(matches!(hid_to_enigo(0x04, true), Some(Key::Unicode('A'))));
    assert!(matches!(hid_to_enigo(0x1D, false), Some(Key::Unicode('z'))));
}

#[test]
fn arrows_map() {
    assert!(matches!(hid_to_enigo(0x4F, false), Some(Key::RightArrow)));
    assert!(matches!(hid_to_enigo(0x52, false), Some(Key::UpArrow)));
}

#[test]
fn unknown_returns_none() {
    assert!(hid_to_enigo(0xFFFF, false).is_none());
}

#[test]
fn the_other_keys() {
    assert_eq!(hid_to_enigo(0x1D, true), Some(Key::Unicode('Z')));
    assert_eq!(hid_to_enigo(0x1E, true), Some(Key::Unicode('!')));
    assert_eq!(hid_to_enigo(0x27, false), Some(Key::Unicode('0')));
    assert_eq!(hid_to_enigo(0x31, false), Some(Key::Unicode('\\')));
    assert_eq!(hid_to_enigo(0x34, true), Some(Key::Unicode('"')));
    assert_eq!(hid_to_enigo(0x34, false), Some(Key::Unicode('\'')));
    assert_eq!(hid_to_enigo(0x28, true), Some(Key::Return));
    assert_eq!(hid_to_enigo(0x45, false), Some(Key::F12));
    assert_eq!(hid_to_enigo(0xE4, false), Some(Key::Control));
    for gap in [0x00, 0x03, 0x32, 0x46, 0x49, 0x53, 0xDF, 0xE8] {
        assert_eq!(hid_to_enigo(gap, false), None);
    }
}

const NONE: Modifiers = Modifiers { shift: false, ctrl: false, alt: false, meta: false };

#[test]
fn capture_errors() {
    assert_eq!(CaptureError::Init("no".into()).text(), "init: no");
    assert_eq!(
        CaptureError::PermissionDenied.text(),
        "permission denied — accessibility/uinput access required"
    );
}

#[test]
fn capture_switches() {
    let mut c = InputCapturer::new();
    assert!(!c.is_enabled());
    c.enable();
    assert!(c.is_enabled());
    c.disable();
    assert!(!c.is_enabled());
}

fn press(modifier: Option<ModifierKey>, hid: u16) -> RawEvent {
    RawEvent::Key { modifier, hid: Some(hid), pressed: true }
}

#[test]
fn events_are_swallowed_while_capture_is_on() {
    let mut g = GrabState::new();
    let ev = RawEvent::Motion { x: 5, y: 6, delta: Some((1, 0)) };
    assert_eq!(g.grab(ev, false), Grabbed { event: None, swallow: false });
    assert_eq!(
        g.grab(ev, true),
        Grabbed {
            event: Some(CaptureEvent::MouseMove { x: 5, y: 6, dx: 1, dy: 0 }),
            swallow: true
        }
    );
    let still = RawEvent::Motion { x: 5, y: 6, delta: Some((0, 0)) };
    assert_eq!(g.grab(still, true), Grabbed { event: None, swallow: true });
    let first = RawEvent::Motion { x: 5, y: 6, delta: None };
    assert_eq!(g.grab(first, true), Grabbed { event: None, swallow: true });
    let wheel = RawEvent::Wheel { delta_x: 100_000, delta_y: -100_000 };
    assert_eq!(
        g.grab(wheel, true).event,
        Some(CaptureEvent::MouseWheel { dx: i16::MAX, dy: i16::MIN })
    );
    let odd = RawEvent::Button { button: None, pressed: true };
    assert_eq!(g.grab(odd, true), Grabbed { event: None, swallow: true });
    let left = RawEvent::Button { button: Some(MouseButton::Left), pressed: false };
    assert_eq!(
        g.grab(left, true).event,
        Some(CaptureEvent::MouseButton { button: MouseButton::Left, pressed: false })
    );
}

#[test]
fn modifiers_are_followed_even_while_capture_is_off() {
    let mut g = GrabState::new();
    g.grab(press(Some(ModifierKey::Ctrl), 0xE0), false);
    g.grab(press(Some(ModifierKey::Alt), 0xE2), false);
    g.grab(press(Some(ModifierKey::Shift), 0xE1), false);
    g.grab(press(Some(ModifierKey::Meta), 0xE3), false);
    g.grab(
        RawEvent::Key { modifier: Some(ModifierKey::Shift), hid: None, pressed: false },
        false,
    );
    assert_eq!(g.mods, Modifiers { shift: false, ctrl: true, alt: true, meta: true });
    assert_eq!(
        g.grab(press(None, 4), true).event,
        Some(CaptureEvent::Key { key: KeyCode(4), pressed: true, modifiers: g.mods })
    );
    assert_eq!(
        g.grab(RawEvent::Key { modifier: None, hid: None, pressed: true }, true),
        Grabbed { event: None, swallow: true }
    );
}

#[test]
fn a_watching_server_notices_hotkeys_and_motion() {
    let hk = HotkeyConfig::default();
    let mut g = GrabState::new();
    let ev = RawEvent::Motion { x: 5, y: 6, delta: Some((1, 0)) };
    let got = g.watch(ev, false, &hk);
    assert!(got.event.is_some() && !got.swallow);
    assert!(g.watch(ev, true, &hk).swallow);
    assert_eq!(g.watch(press(None, 0x4F), false, &hk), Grabbed { event: None, swallow: false });
    g.watch(press(Some(ModifierKey::Ctrl), 0xE0), false, &hk);
    g.watch(press(Some(ModifierKey::Alt), 0xE2), false, &hk);
    let got = g.watch(press(None, 0x4F), false, &hk);
    assert!(got.swallow);
    assert_eq!(hotkey(&hk, &got.event.unwrap()), Some(1));
    let back = CaptureEvent::Key { key: KeyCode(0x50), pressed: true, modifiers: g.mods };
    assert_eq!(hotkey(&hk, &back), Some(-1));
    let up = CaptureEvent::Key { key: KeyCode(0x50), pressed: false, modifiers: g.mods };
    assert_eq!(hotkey(&hk, &up), None);
}

#[test]
fn commands_become_actions() {
    let inj = new_injector(Ok(())).unwrap();
    assert_eq!(inj.plan(&InjectCmd::MoveRel(1, -2)), vec![Action::MoveRel(1, -2)]);
    assert_eq!(inj.plan(&InjectCmd::MoveAbs(3, 4)), vec![Action::MoveAbs(3, 4)]);
    assert_eq!(
        inj.plan(&InjectCmd::Button(MouseButton::Middle, true)),
        vec![Action::Button { button: PointerButton::Middle, press: true }]
    );
    assert_eq!(inj.plan(&InjectCmd::Button(MouseButton::Back, true)), vec![]);
    assert_eq!(inj.plan(&InjectCmd::Wheel(0, -3)), vec![Action::ScrollVertical(-3)]);
    assert_eq!(
        inj.plan(&InjectCmd::Wheel(2, 1)),
        vec![Action::ScrollHorizontal(2), Action::ScrollVertical(1)]
    );
    assert_eq!(inj.plan(&InjectCmd::ReleaseAllModifiers), vec![]);
    assert_eq!(inj.mouse_wheel(0, 0), vec![]);
    assert_eq!(
        new_injector(Err("no display".into())).unwrap_err(),
        InjectError::Init("no display".into())
    );
}

#[test]
fn modifiers_change_only_where_they_have_to() {
    let mut inj = PlatformInjector::new();
    let mods = Modifiers { shift: true, ctrl: true, alt: false, meta: false };
    let cmd = InjectCmd::Key { key: KeyCode(4), pressed: true, modifiers: mods };
    let key = |key, press| Action::Key { key, press };
    assert_eq!(
        inj.plan(&cmd),
        vec![key(Key::Shift, true), key(Key::Control, true), key(Key::Unicode('A'), true)]
    );
    // One change went through and the next failed: nothing is taken to be held.
    inj.settle(&cmd, 1);
    assert_eq!(inj.plan(&cmd).len(), 3);
    // The changes went through, the key did not.
    inj.settle(&cmd, 2);
    assert_eq!(inj.plan(&cmd), vec![key(Key::Unicode('A'), true)]);
    let unmapped = InjectCmd::Key { key: KeyCode(0xffff), pressed: true, modifiers: NONE };
    assert_eq!(
        inj.plan(&unmapped),
        vec![key(Key::Shift, false), key(Key::Control, false)]
    );
    let release = InjectCmd::ReleaseAllModifiers;
    let plan = inj.plan(&release);
    assert_eq!(plan, vec![key(Key::Shift, false), key(Key::Control, false)]);
    inj.settle(&release, plan.len());
    assert_eq!(inj.plan(&release), vec![]);
    inj.settle(&InjectCmd::MoveRel(0, 0), 1);
    assert_eq!(inj.release_all_modifiers(), vec![]);
}

#[test]
fn a_client_carries_out_what_it_is_told() {
    let mut incoming = Incoming::new();
    let mods = Modifiers { shift: true, ctrl: false, alt: false, meta: false };
    let cases = vec![
        (Message::EnterScreen { x: 1, y: 2 }, InjectCmd::MoveAbs(1, 2)),
        (Message::LeaveScreen, InjectCmd::ReleaseAllModifiers),
        (Message::MouseMove { dx: 3, dy: 4 }, InjectCmd::MoveRel(3, 4)),
        (
            Message::MouseButton { button: MouseButton::Left, pressed: true },
            InjectCmd::Button(MouseButton::Left, true),
        ),
        (Message::MouseWheel { dx: 5, dy: 6 }, InjectCmd::Wheel(5, 6)),
        (
            Message::KeyEvent { key: KeyCode(7), pressed: false, modifiers: mods },
            InjectCmd::Key { key: KeyCode(7), pressed: false, modifiers: mods },
        ),
    ];
    for (m, cmd) in cases {
        let a = on_message(&mut incoming, m);
        assert_eq!(a.inject, Some(cmd));
        assert!(a.reply.is_none() && a.clipboard.is_none());
    }
    assert_eq!(on_message(&mut incoming, Message::Ping).reply, Some(Message::Pong));
    let a = on_message(&mut incoming, Message::SetExitEdge { edge: Edge::Left });
    assert!(a.inject.is_none() && a.reply.is_none() && a.clipboard.is_none());
    assert_eq!(on_disconnect(), InjectCmd::ReleaseAllModifiers);
}

fn payload(bytes: Vec<u8>) -> ClipboardPayload {
    ClipboardPayload {
        hash: sha256(&bytes),
        bytes,
        mime: "text/plain;charset=utf-8".into(),
        truncated: false,
        kind: PayloadKind::Text,
    }
}

#[test]
fn a_shared_text_reaches_the_client() {
    let p = payload(vec![b'x'; 100_000]);
    let msgs = share_clipboard(&p);
    assert_eq!(msgs.len(), 5);
    assert_eq!(msgs[1..], chunk_payload(&p)[..]);
    assert_eq!(
        msgs[0],
        Message::ClipboardOffer {
            hash: p.hash,
            size: 100_000,
            truncated: false,
            mime: "text/plain;charset=utf-8".into()
        }
    );
    let mut incoming = Incoming::new();
    let mut got = None;
    for m in msgs {
        assert_eq!(got, None);
        got = on_message(&mut incoming, m).clipboard;
    }
    assert_eq!(got, Some(p.bytes));
}

#[test]
fn fingerprints_as_people_write_them() {
    let colons = vec!["aB"; 32].join(":");
    assert_eq!(parse_fingerprint(&format!(" {colons}\t")), Ok([0xab; 32]));
    assert_eq!(parse_fingerprint(&"01".repeat(32)), Ok([1; 32]));
    assert_eq!(parse_fingerprint("0102"), Err(FingerprintError::WrongLength(2)));
    let e = parse_fingerprint("xyz").unwrap_err();
    assert_eq!(e.text(), "server_fingerprint_hex must be hex: Odd number of digits");
    let e = parse_fingerprint("xyzw").unwrap_err();
    assert_eq!(
        e.text(),
        "server_fingerprint_hex must be hex: Invalid character 'x' at position 0"
    );
    assert_eq!(
        fingerprint_from(Ok(vec![0; 31])).unwrap_err().text(),
        "expected 32-byte SHA-256 fingerprint, got 31 bytes"
    );
    assert_eq!(fingerprint_from(Ok(vec![9; 32])), Ok([9; 32]));
    assert_eq!(
        fingerprint_from(Err("e".into())),
        Err(FingerprintError::NotHex("e".into()))
    );
}
