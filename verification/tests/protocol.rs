use rand::{Rng, SeedableRng};
use union_kvm::protocol::{
    decode_message, encode_message, frame_len, read_message, write_message, Edge, KeyCode, Message,
    Modifiers, MouseButton, ProtoError, DEFAULT_PORT, MAX_FRAME_BYTES, MDNS_SERVICE_TYPE,
    PROTOCOL_VERSION,
};

fn roundtrip(msg: Message) -> Message {
    let mut stream = Vec::new();
    write_message(&mut stream, &msg).unwrap();
    let (received, used) = read_message(&stream).unwrap();
    assert_eq!(used, stream.len());
    received
}

fn encoded(msg: &Message) -> Vec<u8> {
    let mut out = Vec::new();
    encode_message(&mut out, msg);
    out
}

#[test]
fn hello_roundtrip() {
    let m = Message::Hello {
        protocol_version: PROTOCOL_VERSION,
        hostname: "macbook.local".into(),
    };
    assert_eq!(roundtrip(m.clone()), m);
}

#[test]
fn mouse_move_roundtrip() {
    let m = Message::MouseMove { dx: -7, dy: 12 };
    assert_eq!(roundtrip(m.clone()), m);
}

#[test]
fn key_event_roundtrip() {
    let m = Message::KeyEvent {
        key: KeyCode(0x04),
        pressed: true,
        modifiers: Modifiers {
            shift: true,
            ctrl: false,
            alt: false,
            meta: false,
        },
    };
    assert_eq!(roundtrip(m.clone()), m);
}

#[test]
fn clipboard_offer_roundtrip() {
    let m = Message::ClipboardOffer {
        hash: [1u8; 32],
        size: 42,
        truncated: false,
        mime: "text/plain;charset=utf-8".into(),
    };
    assert_eq!(roundtrip(m.clone()), m);
}

#[test]
fn rejects_oversize_frame() {
    let err = read_message(&u32::MAX.to_be_bytes()).unwrap_err();
    assert!(matches!(err, ProtoError::FrameTooLarge(_)));
    assert_eq!(err, ProtoError::FrameTooLarge(u32::MAX as usize));
}

#[test]
fn read_message_never_panics_on_garbage() {
    let mut rng = rand::rngs::StdRng::seed_from_u64(0xC0FFEE);
    for _ in 0..2000 {
        let len = rng.gen_range(0..=1024);
        let mut buf = vec![0u8; len];
        rng.fill(&mut buf[..]);
        let _ = read_message(&buf);
    }
}

#[test]
fn truncated_payload_errors_cleanly() {
    let mut stream = 100u32.to_be_bytes().to_vec();
    stream.extend_from_slice(&[0u8; 10]);
    let err = read_message(&stream).unwrap_err();
    assert!(matches!(err, ProtoError::Io | ProtoError::PeerClosed));
}

#[test]
fn closed_before_the_length_is_complete() {
    assert_eq!(read_message(&[]).unwrap_err(), ProtoError::PeerClosed);
    assert_eq!(read_message(&[0, 0, 0]).unwrap_err(), ProtoError::PeerClosed);
}

#[test]
fn unknown_messages_do_not_decode() {
    let mut stream = 4u32.to_be_bytes().to_vec();
    stream.extend_from_slice(&23u32.to_le_bytes());
    assert_eq!(read_message(&stream).unwrap_err(), ProtoError::Decode);
}

#[test]
fn what_follows_a_frame_is_left_alone() {
    let mut stream = Vec::new();
    write_message(&mut stream, &Message::Ping).unwrap();
    write_message(&mut stream, &Message::EnterScreen { x: -1, y: 2 }).unwrap();
    let (first, used) = read_message(&stream).unwrap();
    assert_eq!(first, Message::Ping);
    let (second, rest) = read_message(&stream[used..]).unwrap();
    assert_eq!(second, Message::EnterScreen { x: -1, y: 2 });
    assert_eq!(used + rest, stream.len());
}

#[test]
fn frames_are_big_endian_lengths_and_payloads() {
    let mut stream = Vec::new();
    write_message(&mut stream, &Message::MouseMove { dx: -7, dy: 12 }).unwrap();
    assert_eq!(
        stream,
        vec![0, 0, 0, 12, 7, 0, 0, 0, 0xf9, 0xff, 0xff, 0xff, 12, 0, 0, 0]
    );
    assert_eq!(frame_len(&[0, 0, 0, 12]), Ok(12));
    assert_eq!(frame_len(&[1, 0, 0, 0]), Ok(MAX_FRAME_BYTES));
    assert_eq!(
        frame_len(&[1, 0, 0, 1]),
        Err(ProtoError::FrameTooLarge(MAX_FRAME_BYTES + 1))
    );
}

#[test]
fn too_large_messages_are_not_written() {
    let m = Message::FileTransferChunk {
        id: 1,
        chunk_index: 0,
        data: vec![0; MAX_FRAME_BYTES],
    };
    let mut out = vec![1, 2, 3];
    assert_eq!(
        write_message(&mut out, &m),
        Err(ProtoError::FrameTooLarge(MAX_FRAME_BYTES + 20))
    );
    assert_eq!(out, vec![1, 2, 3]);
}

/// A unit variant has no fields, and a struct variant is its index and then its fields in order.
#[test]
fn payloads_are_those_of_bincode() {
    let h = [7u8; 32];
    assert_eq!(
        encoded(&Message::Hello { protocol_version: 2, hostname: "é".into() }),
        bincode::serialize(&(0u32, 2u16, "é")).unwrap()
    );
    assert_eq!(
        encoded(&Message::AuthChallenge { nonce: h }),
        bincode::serialize(&(1u32, h)).unwrap()
    );
    assert_eq!(encoded(&Message::AuthOk), bincode::serialize(&3u32).unwrap());
    assert_eq!(
        encoded(&Message::ScreenInfo { width: 1920, height: 1080 }),
        bincode::serialize(&(4u32, 1920u32, 1080u32)).unwrap()
    );
    assert_eq!(
        encoded(&Message::MouseButton { button: MouseButton::Forward, pressed: true }),
        bincode::serialize(&(8u32, 4u32, true)).unwrap()
    );
    assert_eq!(
        encoded(&Message::MouseWheel { dx: -1, dy: 300 }),
        bincode::serialize(&(9u32, -1i16, 300i16)).unwrap()
    );
    assert_eq!(
        encoded(&Message::KeyEvent {
            key: KeyCode(0x4f),
            pressed: false,
            modifiers: Modifiers { shift: false, ctrl: true, alt: true, meta: false },
        }),
        bincode::serialize(&(10u32, 0x4fu16, false, (false, true, true, false))).unwrap()
    );
    assert_eq!(
        encoded(&Message::ClipboardOffer {
            hash: h,
            size: 9,
            truncated: true,
            mime: "m".into()
        }),
        bincode::serialize(&(11u32, h, 9u32, true, "m")).unwrap()
    );
    assert_eq!(
        encoded(&Message::ClipboardData {
            hash: h,
            chunk_index: 1,
            total_chunks: 2,
            data: vec![1, 2, 3],
        }),
        bincode::serialize(&(13u32, h, 1u16, 2u16, vec![1u8, 2, 3])).unwrap()
    );
    assert_eq!(
        encoded(&Message::SetExitEdge { edge: Edge::Bottom }),
        bincode::serialize(&(17u32, 3u32)).unwrap()
    );
    assert_eq!(
        encoded(&Message::FileTransferOffer {
            id: 5,
            name: "a.txt".into(),
            size: 1 << 33,
            total_chunks: 7
        }),
        bincode::serialize(&(19u32, 5u32, "a.txt", 1u64 << 33, 7u32)).unwrap()
    );
}

#[test]
fn every_message_round_trips() {
    let h = [3u8; 32];
    let all = vec![
        Message::Hello { protocol_version: 1, hostname: String::new() },
        Message::AuthChallenge { nonce: h },
        Message::AuthResponse { mac: h },
        Message::AuthOk,
        Message::ScreenInfo { width: 1, height: u32::MAX },
        Message::EnterScreen { x: i32::MIN, y: i32::MAX },
        Message::LeaveScreen,
        Message::MouseMove { dx: 0, dy: -1 },
        Message::MouseButton { button: MouseButton::Left, pressed: false },
        Message::MouseButton { button: MouseButton::Right, pressed: true },
        Message::MouseButton { button: MouseButton::Middle, pressed: true },
        Message::MouseButton { button: MouseButton::Back, pressed: true },
        Message::MouseWheel { dx: i16::MIN, dy: i16::MAX },
        Message::KeyEvent { key: KeyCode(1), pressed: true, modifiers: Modifiers::default() },
        Message::ClipboardOffer { hash: h, size: 1, truncated: true, mime: "ü".into() },
        Message::ClipboardRequest { hash: h },
        Message::ClipboardData { hash: h, chunk_index: 0, total_chunks: 1, data: vec![] },
        Message::Ping,
        Message::Pong,
        Message::ClipboardImageOffer { hash: h, width: 2, height: 3, total_chunks: 4 },
        Message::SetExitEdge { edge: Edge::Top },
        Message::RequestFocusReturn,
        Message::FileTransferOffer { id: 1, name: "n".into(), size: 2, total_chunks: 3 },
        Message::FileTransferChunk { id: 1, chunk_index: 2, data: vec![9; 100] },
        Message::FileTransferDone { id: 1, sha256: h },
        Message::FileTransferReject { id: 1, reason: "r".into() },
    ];
    for m in all {
        assert_eq!(roundtrip(m.clone()), m);
    }
}

#[test]
fn bad_fields_do_not_decode() {
    // A flag that is neither 0 nor 1, a button that there is not, text that is not UTF-8.
    assert_eq!(decode_message(&[8, 0, 0, 0, 0, 0, 0, 0, 2]), None);
    assert_eq!(decode_message(&[8, 0, 0, 0, 5, 0, 0, 0, 1]), None);
    let mut hello = bincode::serialize(&(0u32, 2u16, 1u64)).unwrap();
    hello.push(0xff);
    assert_eq!(decode_message(&hello), None);
    // A length that is longer than what follows.
    let short = bincode::serialize(&(0u32, 2u16, u64::MAX)).unwrap();
    assert_eq!(decode_message(&short), None);
    // Bytes behind a message are passed over.
    assert_eq!(decode_message(&[14, 0, 0, 0, 99]), Some(Message::Ping));
}

#[test]
fn opposite_edges() {
    for e in [Edge::Left, Edge::Right, Edge::Top, Edge::Bottom] {
        assert_eq!(e.opposite().opposite(), e);
        assert_ne!(e.opposite(), e);
    }
    assert_eq!(Edge::Top.opposite(), Edge::Bottom);
    assert_eq!(Edge::Left.opposite(), Edge::Right);
}

#[test]
fn well_known_values() {
    assert_eq!(DEFAULT_PORT, 24800);
    assert_eq!(MDNS_SERVICE_TYPE, "_union._tcp.local.");
}
