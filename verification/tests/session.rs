use union_kvm::cert::{
    fingerprint_hex, fingerprint_sha256, first_fingerprint, generate_self_signed, identity_from,
    load_or_generate, server_identity, stored_fingerprint, subject_for, CertError, CertPair,
    ObservedFingerprint, PinnedVerifier,
};
use union_kvm::client::on_message;
use union_kvm::clipboard::{chunk_payload, offer_for, ClipboardPayload, Incoming, PayloadKind};
use union_kvm::digest::sha256;
use union_kvm::protocol::{
    read_message, write_message, Message, ProtoError, PROTOCOL_VERSION,
};
use union_kvm::psk::{derive_psk_from_passphrase, hmac_psk, verify_psk};
use union_kvm::session::{
    accept_final, accept_hello, accept_response, answer_challenge, client_hello, open_challenge,
    ClientHandshake, HandshakeError, ServerHandshake,
};

#[test]
fn psk_roundtrip() {
    let psk = derive_psk_from_passphrase("correct-horse-battery-staple");
    let nonce = [42u8; 32];
    let proof = hmac_psk(&psk, &nonce);
    assert!(verify_psk(&psk, &nonce, &proof));
}

#[test]
fn wrong_psk_rejected() {
    let psk_a = derive_psk_from_passphrase("a");
    let psk_b = derive_psk_from_passphrase("b");
    let nonce = [9u8; 32];
    let proof = hmac_psk(&psk_a, &nonce);
    assert!(!verify_psk(&psk_b, &nonce, &proof));
}

#[test]
fn wrong_nonce_rejected() {
    let psk = derive_psk_from_passphrase("x");
    let proof = hmac_psk(&psk, &[1u8; 32]);
    assert!(!verify_psk(&psk, &[2u8; 32], &proof));
}

#[test]
fn known_hashes() {
    assert_eq!(
        fingerprint_hex(&derive_psk_from_passphrase("hunter2")),
        "ac02cedbdaa4c55cf6e303a9f3782b7c2e1e18e75276a56f7f7e30572e689afe"
    );
    assert_eq!(
        fingerprint_hex(&hmac_psk(&[7u8; 32], &[9u8; 32])),
        "650c9bcf997fbfe17284d4977c89545d13be53ef46f67b7385061cbe993cbe84"
    );
    assert_eq!(
        fingerprint_hex(&sha256(b"abc")),
        "ba7816bf8f01cfea414140de5dae2223b00361a396177a9cb410ff61f20015ad"
    );
}

#[test]
fn generates_and_fingerprints() {
    let pair = generate_self_signed("test.local").unwrap();
    assert!(pair.cert_pem.contains("BEGIN CERTIFICATE"));
    let fp1 = fingerprint_sha256(&pair.cert_pem).unwrap();
    let fp2 = fingerprint_sha256(&pair.cert_pem).unwrap();
    assert_eq!(fp1, fp2);
}

#[test]
fn distinct_certs_have_distinct_fingerprints() {
    let a = generate_self_signed("a.local").unwrap();
    let b = generate_self_signed("b.local").unwrap();
    let fa = fingerprint_sha256(&a.cert_pem).unwrap();
    let fb = fingerprint_sha256(&b.cert_pem).unwrap();
    assert_ne!(fa, fb);
}

#[test]
fn certificates_are_made_for_the_name() {
    let s = subject_for("test.local");
    assert_eq!(s.common_name, "test.local");
    assert_eq!(s.alt_names, vec!["test.local".to_string()]);
}

#[test]
fn names_that_are_not_ascii_get_no_certificate() {
    let refused = || CertError::Generate("Invalid IA5String: 'máquina'".to_string());
    assert_eq!(generate_self_signed("máquina").unwrap_err(), refused());
    assert_eq!(load_or_generate(None, "máquina").unwrap_err(), refused());
}

#[test]
fn fingerprints_of_files() {
    assert_eq!(fingerprint_sha256("no pem here").unwrap_err(), CertError::NoCertificate);
    assert!(matches!(
        fingerprint_sha256("-----BEGIN CERTIFICATE-----\n*\n-----END CERTIFICATE-----\n"),
        Err(CertError::Pem(_))
    ));
    assert_eq!(
        fingerprint_sha256("-----BEGIN CERTIFICATE-----\nYWJj\n").unwrap_err(),
        CertError::Pem("section end \"CERTIFICATE\" missing".to_string())
    );
    assert_eq!(
        first_fingerprint(Err("why".into())).unwrap_err(),
        CertError::Pem("why".to_string())
    );
    assert_eq!(first_fingerprint(Ok(vec![])).unwrap_err(), CertError::NoCertificate);
    assert_eq!(
        first_fingerprint(Ok(vec![b"abc".to_vec(), b"x".to_vec()])).unwrap(),
        sha256(b"abc")
    );
    assert_eq!(
        fingerprint_sha256("-----BEGIN CERTIFICATE-----\nYWJj\n-----END CERTIFICATE-----\n")
            .unwrap(),
        sha256(b"abc")
    );
    assert_eq!(stored_fingerprint(None), None);
    assert_eq!(stored_fingerprint(Some("")), None);
    assert_eq!(
        stored_fingerprint(Some(
            "-----BEGIN CERTIFICATE-----\nYWJj\n-----END CERTIFICATE-----\n"
        )),
        Some("ba7816bf8f01cfea414140de5dae2223b00361a396177a9cb410ff61f20015ad".to_string())
    );
}

#[test]
fn identities_take_the_last_key() {
    let id = identity_from(Ok(vec![vec![1]]), Ok(vec![vec![2], vec![3]])).unwrap();
    assert_eq!((id.certs, id.key), (vec![vec![1]], vec![3]));
    assert_eq!(identity_from(Ok(vec![]), Ok(vec![])).unwrap_err(), CertError::NoKey);
    let bad = |why: &str| Err(why.to_string());
    let pem = |why: &str| CertError::Pem(why.to_string());
    assert_eq!(identity_from(bad("a"), Ok(vec![])).unwrap_err(), pem("a"));
    assert_eq!(identity_from(Ok(vec![]), bad("b")).unwrap_err(), pem("b"));
    assert_eq!(identity_from(bad("a"), bad("b")).unwrap_err(), pem("a"));
}

#[test]
fn a_fresh_pair_is_an_identity_that_its_pin_accepts() {
    let (pair, fp, fresh) = load_or_generate(None, "test.local").unwrap();
    assert!(fresh);
    let id = server_identity(&pair.cert_pem, &pair.key_pem).unwrap();
    assert_eq!(id.certs.len(), 1);
    let mut pin = PinnedVerifier::new(fp);
    assert_eq!(pin.verify_server_cert(&id.certs[0]), Ok(()));
    assert_eq!(pin.observed.get(), Some(fp));
    let again = load_or_generate(Some(pair.clone()), "other.local").unwrap();
    assert_eq!(again, (pair, fp, false));
}

#[test]
fn a_stored_pair_must_hold_a_certificate() {
    let bad = CertPair { cert_pem: String::new(), key_pem: String::new() };
    assert_eq!(load_or_generate(Some(bad), "x").unwrap_err(), CertError::NoCertificate);
}

#[test]
fn another_certificate_is_refused_and_remembered() {
    let mut pin = PinnedVerifier::new([0u8; 32]);
    assert_eq!(ObservedFingerprint::default().get(), None);
    assert_eq!(pin.observed.get(), None);
    let why = pin.verify_server_cert(b"abc").unwrap_err();
    assert_eq!(
        why,
        "cert pinning failed: got \
         ba7816bf8f01cfea414140de5dae2223b00361a396177a9cb410ff61f20015ad expected \
         0000000000000000000000000000000000000000000000000000000000000000"
    );
    assert_eq!(pin.observed.get(), Some(sha256(b"abc")));
}

#[test]
fn the_same_key_completes_the_handshake() {
    let psk = derive_psk_from_passphrase("hunter2");
    let (peer, nonce, challenge) = open_challenge(Ok(client_hello("client-A"))).unwrap();
    assert_eq!(peer.hostname, "client-A");
    assert_eq!(peer.peer_version, PROTOCOL_VERSION);
    assert_eq!(challenge, Message::AuthChallenge { nonce });
    let response = answer_challenge(&psk, Ok(challenge)).unwrap();
    let last = accept_response(&psk, &nonce, Ok(response)).unwrap();
    assert_eq!(last, Message::AuthOk);
    assert_eq!(accept_final(Ok(last)), Ok(()));
}

/// Runs a handshake to its end, and gives what each side makes of it.
fn handshake(
    server_key: &str,
    client_key: &str,
) -> (Result<Option<String>, HandshakeError>, Result<(), HandshakeError>) {
    let mut server = ServerHandshake::new(derive_psk_from_passphrase(server_key));
    let key = derive_psk_from_passphrase(client_key);
    let (mut client, mut to_server) = ClientHandshake::start(key, "client-A");
    loop {
        let step = match server.on_message(across(&to_server)) {
            Ok(step) => step,
            Err(e) => return (Err(e), client.on_message(Err(ProtoError::PeerClosed)).map(|_| ())),
        };
        let who = step.done.map(|p| p.hostname);
        match client.on_message(across(&step.send)) {
            Ok(Some(m)) => to_server = m,
            Ok(None) => return (Ok(who), Ok(())),
            Err(e) => return (Ok(who), Err(e)),
        }
    }
}

#[test]
fn handshakes_run_to_their_end() {
    assert_eq!(handshake("hunter2", "hunter2"), (Ok(Some("client-A".into())), Ok(())));
    assert_eq!(
        handshake("correct", "wrong"),
        (
            Err(HandshakeError::AuthFailed),
            Err(HandshakeError::Protocol(ProtoError::PeerClosed))
        )
    );
}

#[test]
fn handshakes_that_are_over_stay_over() {
    let mut server = ServerHandshake::new([0; 32]);
    assert_eq!(server.on_message(Ok(Message::Ping)), Err(HandshakeError::UnexpectedMessage));
    assert_eq!(
        server.on_message(Ok(client_hello("x"))),
        Err(HandshakeError::UnexpectedMessage)
    );
    let (mut client, _) = ClientHandshake::start([0; 32], "x");
    assert_eq!(client.on_message(Ok(Message::AuthOk)), Err(HandshakeError::UnexpectedMessage));
    assert_eq!(
        client.on_message(Ok(Message::AuthChallenge { nonce: [1; 32] })),
        Err(HandshakeError::UnexpectedMessage)
    );
    let (mut client, _) = ClientHandshake::start([0; 32], "x");
    client.on_message(Ok(Message::AuthChallenge { nonce: [1; 32] })).unwrap();
    assert_eq!(client.on_message(Ok(Message::Ping)), Err(HandshakeError::AuthFailed));
}

#[test]
fn nonces_are_not_constant() {
    let (_, a, _) = open_challenge(Ok(client_hello("x"))).unwrap();
    let (_, b, _) = open_challenge(Ok(client_hello("x"))).unwrap();
    assert_ne!(a, b);
}

#[test]
fn another_key_fails() {
    let server = derive_psk_from_passphrase("correct");
    let client = derive_psk_from_passphrase("wrong");
    let nonce = [5u8; 32];
    let response = answer_challenge(&client, Ok(Message::AuthChallenge { nonce })).unwrap();
    let res = accept_response(&server, &nonce, Ok(response));
    assert!(matches!(res, Err(HandshakeError::AuthFailed)));
}

#[test]
fn version_mismatch_rejected() {
    let hello = Message::Hello { protocol_version: 99, hostname: "x".into() };
    let res = accept_hello(Ok(hello));
    assert!(matches!(res, Err(HandshakeError::VersionMismatch { .. })));
    assert_eq!(
        res.unwrap_err(),
        HandshakeError::VersionMismatch { got: 99, expected: 2 }
    );
}

#[test]
fn the_server_ends_the_handshake_with_another_version() {
    let mut server = ServerHandshake::new(derive_psk_from_passphrase("x"));
    let hello = || Message::Hello { protocol_version: 99, hostname: "x".into() };
    assert_eq!(
        server.on_message(Ok(hello())),
        Err(HandshakeError::VersionMismatch { got: 99, expected: 2 })
    );
    assert_eq!(
        server.on_message(Ok(client_hello("x"))),
        Err(HandshakeError::UnexpectedMessage)
    );
}

#[test]
fn old_clients_are_accepted_down_to_the_oldest_version() {
    for v in 1..=2u16 {
        let hello = Message::Hello { protocol_version: v, hostname: "x".into() };
        assert_eq!(accept_hello(Ok(hello)).unwrap().peer_version, v);
    }
    for v in [0u16, 3] {
        let hello = Message::Hello { protocol_version: v, hostname: "x".into() };
        assert_eq!(
            accept_hello(Ok(hello)).unwrap_err(),
            HandshakeError::VersionMismatch { got: v, expected: 2 }
        );
    }
}

#[test]
fn unexpected_messages_end_the_handshake() {
    let psk = [1u8; 32];
    let nonce = [2u8; 32];
    assert_eq!(accept_hello(Ok(Message::Ping)), Err(HandshakeError::UnexpectedMessage));
    assert_eq!(open_challenge(Ok(Message::Ping)), Err(HandshakeError::UnexpectedMessage));
    assert_eq!(
        accept_response(&psk, &nonce, Ok(Message::AuthOk)),
        Err(HandshakeError::UnexpectedMessage)
    );
    assert_eq!(
        answer_challenge(&psk, Ok(Message::AuthOk)),
        Err(HandshakeError::UnexpectedMessage)
    );
    assert_eq!(accept_final(Ok(Message::Ping)), Err(HandshakeError::AuthFailed));
    let closed = HandshakeError::Protocol(ProtoError::PeerClosed);
    assert_eq!(accept_hello(Err(ProtoError::PeerClosed)), Err(closed));
    assert_eq!(accept_response(&psk, &nonce, Err(ProtoError::PeerClosed)), Err(closed));
    assert_eq!(answer_challenge(&psk, Err(ProtoError::PeerClosed)), Err(closed));
    assert_eq!(accept_final(Err(ProtoError::PeerClosed)), Err(closed));
}

#[test]
fn wrong_fingerprint_rejected() {
    let pair = generate_self_signed("test.local").unwrap();
    let id = server_identity(&pair.cert_pem, &pair.key_pem).unwrap();
    let wrong_fp = [0u8; 32];
    assert!(PinnedVerifier::new(wrong_fp).verify_server_cert(&id.certs[0]).is_err());
}

/// One message through a stream of bytes.
fn across(msg: &Message) -> Result<Message, ProtoError> {
    let mut stream = Vec::new();
    write_message(&mut stream, msg).unwrap();
    read_message(&stream).map(|(m, _)| m)
}

#[test]
fn full_session_text_clipboard() {
    let psk = derive_psk_from_passphrase("e2e-secret");
    let hello = across(&client_hello("e2e-client"));
    let (peer, nonce, challenge) = open_challenge(hello).unwrap();
    assert_eq!(peer.hostname, "e2e-client");
    let response = answer_challenge(&psk, across(&challenge)).unwrap();
    let ok = accept_response(&psk, &nonce, across(&response)).unwrap();
    accept_final(across(&ok)).unwrap();

    let screen = across(&Message::ScreenInfo { width: 1920, height: 1080 }).unwrap();
    assert!(matches!(screen, Message::ScreenInfo { width: 1920, height: 1080 }));

    let bytes = b"the quick brown fox".to_vec();
    let payload = ClipboardPayload {
        hash: sha256(&bytes),
        bytes: bytes.clone(),
        mime: "text/plain;charset=utf-8".into(),
        truncated: false,
        kind: PayloadKind::Text,
    };
    let mut incoming = Incoming::new();
    let mut received = None;
    let mut sent = vec![offer_for(&payload)];
    sent.extend(chunk_payload(&payload));
    for m in &sent {
        received = on_message(&mut incoming, across(m).unwrap()).clipboard;
    }
    assert_eq!(received.as_deref(), Some(&bytes[..]));
}
