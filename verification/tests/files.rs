use union_kvm::config::LayoutMap;
use union_kvm::digest::sha256;
use union_kvm::focus::{hotkey_cycle, FocusPrefs};
use union_kvm::ipc::{
    decode_request, decode_response, encode_request, encode_response, ipc_frame_len, random_token,
    read_frame, write_frame, IpcError, IpcRequest, IpcResponse, MAX_IPC_FRAME,
};
use union_kvm::protocol::{Message, MAX_FILE_BYTES};
use union_kvm::send::{
    chunk_requests, expect_ok, file_request, parse_token, transfer_result, SendStep, Sender,
    TokenError, CHUNK,
};
use union_kvm::server::open_session;
use union_kvm::session::Peer;
use union_kvm::state::{Focus, ServerState};
use union_kvm::transfer::{pick_target_client, Helper, HelperFailure, Next};

const QUIET: FocusPrefs = FocusPrefs { notify: false, overlay: false };

fn server(n: usize) -> ServerState {
    let mut st = ServerState::new();
    for i in 0..n {
        let peer = Peer { hostname: format!("c{i}"), peer_version: 2 };
        open_session(&mut st, &LayoutMap::new(), peer);
    }
    st
}

/// A helper that has been shown the token.
fn greeted(st: &mut ServerState, next_id: &mut u32) -> Helper {
    let mut h = Helper::new([1; 32]);
    let step = h.on_request(st, IpcRequest::Hello { token: [1; 32] }, next_id);
    assert_eq!(step.replies, vec![IpcResponse::Accepted]);
    assert_eq!(step.next, Next::Read);
    h
}

#[test]
fn requests_are_those_of_bincode() {
    let t = [5u8; 32];
    assert_eq!(
        encode_request(&IpcRequest::Hello { token: t }),
        bincode::serialize(&(0u32, t)).unwrap()
    );
    assert_eq!(
        encode_request(&IpcRequest::File { name: "ñ".into(), size: 7, sha256: t }),
        bincode::serialize(&(1u32, "ñ", 7u64, t)).unwrap()
    );
    assert_eq!(
        encode_request(&IpcRequest::Chunk(vec![1, 2])),
        bincode::serialize(&(2u32, vec![1u8, 2])).unwrap()
    );
    assert_eq!(encode_response(&IpcResponse::Accepted), bincode::serialize(&0u32).unwrap());
    assert_eq!(
        encode_response(&IpcResponse::Done { client_count: 3 }),
        bincode::serialize(&(1u32, 3u32)).unwrap()
    );
    assert_eq!(
        encode_response(&IpcResponse::Failed("no".into())),
        bincode::serialize(&(2u32, "no")).unwrap()
    );
}

#[test]
fn requests_and_answers_round_trip() {
    for r in [
        IpcRequest::Hello { token: [9; 32] },
        IpcRequest::File { name: "x".into(), size: u64::MAX, sha256: [2; 32] },
        IpcRequest::Chunk(vec![]),
    ] {
        assert_eq!(decode_request(&encode_request(&r)), Some(r));
    }
    for r in [
        IpcResponse::Accepted,
        IpcResponse::Done { client_count: 1 },
        IpcResponse::Failed("é".into()),
    ] {
        assert_eq!(decode_response(&encode_response(&r)), Some(r));
    }
    assert_eq!(decode_request(&[3, 0, 0, 0]), None);
    assert_eq!(decode_request(&[0, 0, 0, 0, 1]), None);
    assert_eq!(decode_response(&[]), None);
}

#[test]
fn frames() {
    let mut w = vec![9];
    write_frame(&mut w, b"abc").unwrap();
    assert_eq!(w, vec![9, 0, 0, 0, 3, b'a', b'b', b'c']);
    assert_eq!(read_frame(&w[1..]), Ok(&b"abc"[..]));
    assert_eq!(read_frame(&w[1..4]), Err(IpcError::Io));
    assert_eq!(read_frame(&w[1..7]), Err(IpcError::Io));
    let long = vec![0u8; MAX_IPC_FRAME + 1];
    assert_eq!(write_frame(&mut w, &long), Err(IpcError::TooLarge));
    assert_eq!(w.len(), 8);
    assert_eq!(read_frame(&[0xff; 8]), Err(IpcError::TooLarge));
    assert_eq!(ipc_frame_len(&[0, 0, 1, 0]), Ok(256));
    assert_eq!(ipc_frame_len(&[0, 0x40, 0, 1]), Err(IpcError::TooLarge));
}

#[test]
fn tokens() {
    assert_ne!(random_token(), random_token());
    assert_eq!(parse_token(&format!("  {}\n", "aB".repeat(32))), Ok([0xab; 32]));
    assert_eq!(parse_token("zz"), Err(TokenError::NotHex));
    assert_eq!(parse_token("abc"), Err(TokenError::NotHex));
    assert_eq!(parse_token("abcd"), Err(TokenError::WrongLength));
    assert_eq!(TokenError::NotHex.text(), "ipc_token must be hex");
    assert_eq!(TokenError::WrongLength.text(), "ipc_token must be 32 bytes (64 hex chars)");
}

#[test]
fn answers_are_understood() {
    assert_eq!(expect_ok(IpcResponse::Accepted), Ok(()));
    assert_eq!(expect_ok(IpcResponse::Failed("no".into())), Err("server: no".to_string()));
    assert_eq!(
        expect_ok(IpcResponse::Done { client_count: 1 }),
        Err("server: unexpected Done".to_string())
    );
    assert_eq!(transfer_result(IpcResponse::Done { client_count: 4 }), Ok(4));
    assert_eq!(
        transfer_result(IpcResponse::Failed("no".into())),
        Err("server rejected: no".to_string())
    );
    assert_eq!(
        transfer_result(IpcResponse::Accepted),
        Err("unexpected Ok at end of transfer".to_string())
    );
}

#[test]
fn a_file_is_announced_and_cut() {
    let bytes: Vec<u8> = (0..70_000u32).map(|i| (i / 3) as u8).collect();
    assert_eq!(
        file_request("f.bin", &bytes),
        IpcRequest::File { name: "f.bin".into(), size: 70_000, sha256: sha256(&bytes) }
    );
    let reqs = chunk_requests(&bytes);
    assert_eq!(reqs.len(), 3);
    assert_eq!(reqs[0], IpcRequest::Chunk(bytes[..CHUNK].to_vec()));
    assert_eq!(reqs[2], IpcRequest::Chunk(bytes[2 * CHUNK..].to_vec()));
    assert!(chunk_requests(&[]).is_empty());
}

#[test]
fn a_file_arrives() {
    let bytes: Vec<u8> = (0..70_000u32).map(|i| (i / 3) as u8).collect();
    let mut st = server(2);
    st.clients.get_mut(&1).unwrap().proto_version = 3;
    let mut next_id = 7;
    let mut h = greeted(&mut st, &mut next_id);
    assert_eq!(h.patience(), 5);
    let step = h.on_request(&mut st, file_request("f.bin", &bytes), &mut next_id);
    assert_eq!(step.replies, vec![IpcResponse::Accepted]);
    assert_eq!(step.next, Next::Read);
    assert_eq!(next_id, 8);
    assert_eq!(h.patience(), 30);
    let reqs = chunk_requests(&bytes);
    let n = reqs.len();
    for (i, req) in reqs.into_iter().enumerate() {
        let step = h.on_request(&mut st, req, &mut next_id);
        if i + 1 < n {
            assert_eq!((step.replies, step.next), (vec![], Next::Read));
        } else {
            assert_eq!(
                (step.replies, step.next),
                (vec![IpcResponse::Done { client_count: 2 }], Next::Close)
            );
        }
    }
    let sent = st.take_outbox(1);
    assert_eq!(
        sent[0],
        Message::FileTransferOffer {
            id: 7,
            name: "f.bin".into(),
            size: 70_000,
            total_chunks: 3
        }
    );
    let mut got = vec![];
    for (i, m) in sent[1..4].iter().enumerate() {
        match m {
            Message::FileTransferChunk { id: 7, chunk_index, data } => {
                assert_eq!(*chunk_index as usize, i);
                got.extend_from_slice(data);
            }
            other => panic!("{other:?}"),
        }
    }
    assert_eq!(got, bytes);
    assert_eq!(sent[4], Message::FileTransferDone { id: 7, sha256: sha256(&bytes) });
    assert_eq!(sent.len(), 5);
    assert_eq!(st.take_outbox(2), vec![]);
    // The conversation is over.
    let step = h.on_request(&mut st, IpcRequest::Chunk(vec![1]), &mut next_id);
    assert_eq!((step.replies, step.next), (vec![], Next::Close));
}

#[test]
fn the_tool_and_the_server_agree() {
    let bytes: Vec<u8> = (0..70_000u32).map(|i| (i / 5) as u8).collect();
    let mut st = server(3);
    let mut next_id = 1;
    let mut helper = Helper::new([4; 32]);
    let (mut sender, hello) = Sender::start([4; 32], "f".into(), bytes);
    let mut requests = vec![hello];
    let count = loop {
        let mut replies = vec![];
        for req in requests.drain(..) {
            let step = helper.on_request(&mut st, req, &mut next_id);
            replies.extend(step.replies);
        }
        assert_eq!(replies.len(), 1);
        match sender.on_response(replies.pop().unwrap()).unwrap() {
            SendStep::Ask(next) => requests = next,
            SendStep::Finished(n) => break n,
        }
    };
    assert_eq!(count, 3);
    assert_eq!(
        sender.on_response(IpcResponse::Accepted),
        Err("the transfer is over".to_string())
    );
}

#[test]
fn the_tool_gives_up_when_it_is_refused() {
    let (mut sender, hello) = Sender::start([4; 32], "f".into(), vec![1]);
    assert_eq!(hello, IpcRequest::Hello { token: [4; 32] });
    assert_eq!(
        sender.on_response(IpcResponse::Failed("invalid token".into())),
        Err("server: invalid token".to_string())
    );
    assert_eq!(
        sender.on_response(IpcResponse::Accepted),
        Err("the transfer is over".to_string())
    );
}

#[test]
fn an_empty_file_needs_no_chunks() {
    let mut st = server(1);
    st.clients.get_mut(&1).unwrap().proto_version = 3;
    let mut next_id = u32::MAX;
    let mut h = greeted(&mut st, &mut next_id);
    let step = h.on_request(&mut st, file_request("e", &[]), &mut next_id);
    assert_eq!(
        step.replies,
        vec![IpcResponse::Accepted, IpcResponse::Done { client_count: 1 }]
    );
    assert_eq!(step.next, Next::Close);
    assert_eq!(next_id, 0);
    assert_eq!(st.take_outbox(1).len(), 2);
}

#[test]
fn a_wrong_file_is_rejected() {
    let mut st = server(1);
    st.clients.get_mut(&1).unwrap().proto_version = 3;
    let mut next_id = 1;
    let mut h = greeted(&mut st, &mut next_id);
    let file = IpcRequest::File { name: "f".into(), size: 10, sha256: [0; 32] };
    h.on_request(&mut st, file, &mut next_id);
    h.on_request(&mut st, IpcRequest::Chunk(vec![1, 2]), &mut next_id);
    // An empty chunk ends the file early.
    let step = h.on_request(&mut st, IpcRequest::Chunk(vec![]), &mut next_id);
    assert_eq!(
        step.replies,
        vec![IpcResponse::Failed("payload hash mismatch on the way in".into())]
    );
    assert_eq!(step.next, Next::Close);
    assert_eq!(
        st.take_outbox(1).last(),
        Some(&Message::FileTransferReject { id: 1, reason: "ipc-side hash mismatch".into() })
    );
}

#[test]
fn conversations_that_go_wrong() {
    let mut st = server(0);
    let mut next_id = 1;
    let mut h = Helper::new([1; 32]);
    let step = h.on_request(&mut st, IpcRequest::Hello { token: [2; 32] }, &mut next_id);
    assert_eq!(step.replies, vec![IpcResponse::Failed("invalid token".into())]);
    assert_eq!(step.next, Next::Fail(HelperFailure::AuthFailed));
    let mut h = Helper::new([1; 32]);
    let step = h.on_request(&mut st, IpcRequest::Chunk(vec![]), &mut next_id);
    assert_eq!(step.replies, vec![]);
    assert_eq!(step.next, Next::Fail(HelperFailure::ExpectedHello));
    let mut h = greeted(&mut st, &mut next_id);
    let step = h.on_request(&mut st, IpcRequest::Chunk(vec![]), &mut next_id);
    assert_eq!(step.next, Next::Fail(HelperFailure::ExpectedFile));
    let mut h = greeted(&mut st, &mut next_id);
    let step = h.on_request(&mut st, file_request("f", b"abc"), &mut next_id);
    assert_eq!(
        step.replies,
        vec![IpcResponse::Accepted, IpcResponse::Failed("no client connected".into())]
    );
    assert_eq!(step.next, Next::Close);
    assert_eq!(next_id, 1);
    let mut h = greeted(&mut st, &mut next_id);
    let huge = IpcRequest::File { name: "f".into(), size: MAX_FILE_BYTES + 1, sha256: [0; 32] };
    let step = h.on_request(&mut st, huge, &mut next_id);
    assert_eq!(
        step.replies,
        vec![IpcResponse::Failed(format!(
            "file too large ({} > {MAX_FILE_BYTES})",
            MAX_FILE_BYTES + 1
        ))]
    );
    let mut st = server(1);
    let mut h = greeted(&mut st, &mut next_id);
    h.on_request(&mut st, file_request("f", b"abc"), &mut next_id);
    let step = h.on_request(&mut st, IpcRequest::Hello { token: [1; 32] }, &mut next_id);
    assert_eq!(step.next, Next::Fail(HelperFailure::ExpectedChunk));
    assert_eq!(HelperFailure::ExpectedChunk.text(), "expected Chunk while streaming");
    assert_eq!(HelperFailure::AuthFailed.text(), "ipc auth failed");
}

#[test]
fn a_file_may_be_cut_in_any_way() {
    let mut st = server(1);
    st.clients.get_mut(&1).unwrap().proto_version = 3;
    let mut next_id = 1;
    let mut h = greeted(&mut st, &mut next_id);
    h.on_request(&mut st, file_request("f", b"abcdef"), &mut next_id);
    let mut replies = vec![];
    for chunk in [&b"a"[..], b"bcd", b"ef"] {
        let step = h.on_request(&mut st, IpcRequest::Chunk(chunk.to_vec()), &mut next_id);
        replies.extend(step.replies);
    }
    assert_eq!(replies, vec![IpcResponse::Done { client_count: 1 }]);
    let sent = st.take_outbox(1);
    assert_eq!(
        sent[2],
        Message::FileTransferChunk { id: 1, chunk_index: 1, data: b"bcd".to_vec() }
    );
    assert_eq!(sent[4], Message::FileTransferDone { id: 1, sha256: sha256(b"abcdef") });
}

#[test]
fn a_client_that_is_gone_gets_no_file() {
    let mut st = server(1);
    st.focus = Focus::Remote {
        client_id: 99,
        entry_edge: union_kvm::protocol::Edge::Left,
    };
    let mut next_id = 1;
    let mut h = greeted(&mut st, &mut next_id);
    let step = h.on_request(&mut st, file_request("f", b"abc"), &mut next_id);
    assert_eq!(
        step.replies,
        vec![IpcResponse::Accepted, IpcResponse::Failed("target client disappeared".into())]
    );
    assert_eq!(next_id, 2);
}

#[test]
fn the_target_is_the_focus_or_the_first() {
    let mut st = server(2);
    assert_eq!(pick_target_client(&st), Some(1));
    hotkey_cycle(&mut st, -1, QUIET);
    assert_eq!(pick_target_client(&st), Some(2));
    assert_eq!(pick_target_client(&server(0)), None);
}
