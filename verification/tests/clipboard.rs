use union_kvm::cert::fingerprint_hex;
use union_kvm::clipboard::{
    chunk_payload, decode_outcome, decode_png, encode_outcome, encode_png, image_hash, offer_for,
    text_outcome, truncate_utf8, write_image, write_text, ClipboardError, ClipboardPayload,
    Incoming, PayloadKind, PollStep, Reassembler, SeenImage, Watcher,
};
use union_kvm::digest::sha256;
use union_kvm::protocol::{Message, CLIPBOARD_CHUNK_BYTES, MAX_IMAGE_BYTES};

fn text_payload(bytes: Vec<u8>) -> ClipboardPayload {
    ClipboardPayload {
        hash: sha256(&bytes),
        bytes,
        mime: "text/plain;charset=utf-8".into(),
        truncated: false,
        kind: PayloadKind::Text,
    }
}

#[test]
fn truncate_utf8_respects_boundary() {
    let s = "aéééé";
    assert_eq!(truncate_utf8(s, 3), "aé");
    assert_eq!(truncate_utf8(s, 4), "aé");
    assert_eq!(truncate_utf8(s, 100), s);
}

#[test]
fn truncation_takes_as_much_as_fits() {
    assert_eq!(truncate_utf8("aéééé", 0), "");
    assert_eq!(truncate_utf8("é", 1), "");
    assert_eq!(truncate_utf8("aéééé", 9), "aéééé");
    assert_eq!(truncate_utf8("aéééé", 8), "aééé");
    assert_eq!(truncate_utf8("€😀", 6), "€");
}

#[test]
fn chunking_and_reassembly() {
    let payload = ClipboardPayload {
        hash: sha256(b"hello world hello world"),
        bytes: b"hello world hello world".to_vec(),
        mime: "text/plain;charset=utf-8".into(),
        truncated: false,
        kind: PayloadKind::Text,
    };
    let msgs = chunk_payload(&payload);
    assert!(!msgs.is_empty());
    let mut r = Reassembler::new_text(payload.hash, msgs.len() as u16);
    let mut result = None;
    for m in msgs {
        if let Message::ClipboardData { chunk_index, data, .. } = m {
            result = r.push(chunk_index, data);
        }
    }
    assert_eq!(result.as_deref(), Some(&payload.bytes[..]));
}

#[test]
fn image_png_round_trip() {
    let w = 4u32;
    let h = 3u32;
    let raw: Vec<u8> = (0..(w * h * 4) as u8).collect();
    let png = encode_png(&raw, w, h).unwrap();
    let (dw, dh, decoded) = decode_png(&png).unwrap();
    assert_eq!((dw, dh), (w, h));
    assert_eq!(decoded, raw);
}

#[test]
fn the_size_of_an_image_is_that_of_the_png() {
    let raw: Vec<u8> = (0..48u8).collect();
    let png = encode_png(&raw, 4, 3).unwrap();
    assert_eq!(write_image(png, 99, 98).unwrap(), (4, 3, raw));
    assert!(write_image(vec![1], 1, 1).is_err());
}

#[test]
fn image_chunking_and_reassembly() {
    let w = 4u32;
    let h = 3u32;
    let raw: Vec<u8> = (0..(w * h * 4) as u8).collect();
    let png = encode_png(&raw, w, h).unwrap();
    let payload = ClipboardPayload {
        hash: image_hash(&png),
        bytes: png.clone(),
        mime: "image/png".into(),
        truncated: false,
        kind: PayloadKind::Image { width: w, height: h },
    };
    let msgs = chunk_payload(&payload);
    let mut r = Reassembler::new_image(payload.hash, msgs.len() as u16, w, h);
    let mut result = None;
    for m in msgs {
        if let Message::ClipboardData { chunk_index, data, .. } = m {
            result = r.push(chunk_index, data);
        }
    }
    assert_eq!(result.as_deref(), Some(&png[..]));
}

#[test]
fn images_of_the_wrong_size_are_refused() {
    assert_eq!(
        encode_png(&[0; 15], 2, 2).unwrap_err(),
        ClipboardError::Arboard("rgba length mismatch".into())
    );
    assert_eq!(
        encode_png(&[0; 15], u32::MAX, u32::MAX).unwrap_err(),
        ClipboardError::Arboard("rgba length mismatch".into())
    );
    assert!(matches!(encode_png(&[], 0, 0), Err(ClipboardError::Arboard(e)) if e.starts_with("png encode: ")));
    assert!(matches!(decode_png(b"nonsense"), Err(ClipboardError::Arboard(e)) if e.starts_with("png decode: ")));
}

#[test]
fn outcomes_carry_the_reason() {
    assert_eq!(encode_outcome(Ok(vec![1])).unwrap(), vec![1]);
    assert_eq!(
        encode_outcome(Err("why".into())).unwrap_err(),
        ClipboardError::Arboard("png encode: why".into())
    );
    assert_eq!(text_outcome(Ok("t".into())).unwrap(), "t");
    assert_eq!(
        text_outcome(Err("why".into())).unwrap_err(),
        ClipboardError::Arboard("non-utf8 text: why".into())
    );
    assert_eq!(decode_outcome(Ok((1, 2, vec![3]))).unwrap(), (1, 2, vec![3]));
    assert_eq!(
        decode_outcome(Err("why".into())).unwrap_err(),
        ClipboardError::Arboard("png decode: why".into())
    );
}

#[test]
fn image_hashes_are_labelled() {
    assert_eq!(
        fingerprint_hex(&image_hash(b"abc")),
        "0fa623ec02f65a28d5af2c31c3e702030a495feb42f186de6cae63dadcbc61f9"
    );
}

#[test]
fn text_must_be_utf8() {
    assert_eq!(write_text("olá".as_bytes()).unwrap(), "olá");
    assert_eq!(
        write_text(&[b'a', 0xff]).unwrap_err(),
        ClipboardError::Arboard(
            "non-utf8 text: invalid utf-8 sequence of 1 bytes from index 1".into()
        )
    );
}

#[test]
fn chunks_of_a_long_payload() {
    let bytes: Vec<u8> = (0..70_000u32).map(|i| i as u8).collect();
    let payload = text_payload(bytes.clone());
    let msgs = chunk_payload(&payload);
    assert_eq!(msgs.len(), 3);
    let mut sizes = vec![];
    for (i, m) in msgs.iter().enumerate() {
        match m {
            Message::ClipboardData { hash, chunk_index, total_chunks, data } => {
                assert_eq!(*hash, payload.hash);
                assert_eq!(*chunk_index as usize, i);
                assert_eq!(*total_chunks, 3);
                sizes.push(data.len());
            }
            _ => panic!("not a chunk"),
        }
    }
    assert_eq!(sizes, vec![CLIPBOARD_CHUNK_BYTES, CLIPBOARD_CHUNK_BYTES, 4464]);
    // In reverse, with one of them twice.
    let mut r = Reassembler::new_text(payload.hash, 3);
    let mut result = None;
    for m in [&msgs[2], &msgs[1], &msgs[2], &msgs[0]] {
        assert_eq!(result, None);
        if let Message::ClipboardData { chunk_index, data, .. } = m.clone() {
            result = r.push(chunk_index, data);
        }
    }
    assert_eq!(result, Some(bytes));
}

#[test]
fn an_empty_payload_has_no_chunks() {
    let payload = text_payload(vec![]);
    assert!(chunk_payload(&payload).is_empty());
    assert_eq!(
        offer_for(&payload),
        Message::ClipboardOffer {
            hash: payload.hash,
            size: 0,
            truncated: false,
            mime: "text/plain;charset=utf-8".into()
        }
    );
}

#[test]
fn offers() {
    let mut payload = text_payload(vec![0; 40_000]);
    payload.truncated = true;
    assert_eq!(
        offer_for(&payload),
        Message::ClipboardOffer {
            hash: payload.hash,
            size: 40_000,
            truncated: true,
            mime: "text/plain;charset=utf-8".into()
        }
    );
    payload.kind = PayloadKind::Image { width: 5, height: 6 };
    assert_eq!(
        offer_for(&payload),
        Message::ClipboardImageOffer { hash: payload.hash, width: 5, height: 6, total_chunks: 2 }
    );
}

#[test]
fn wrong_hashes_and_places_give_nothing() {
    let mut r = Reassembler::new_text([0; 32], 1);
    assert_eq!(r.push(0, b"abc".to_vec()), None);
    assert_eq!(r.push(1, b"abc".to_vec()), None);
    let mut r = Reassembler::new_text(sha256(b"abc"), 1);
    assert_eq!(r.push(7, b"abc".to_vec()), None);
    assert_eq!(r.push(0, b"abc".to_vec()), Some(b"abc".to_vec()));
    // A text is not an image.
    let mut r = Reassembler::new_image(sha256(b"abc"), 1, 1, 1);
    assert_eq!(r.push(0, b"abc".to_vec()), None);
    let mut r = Reassembler::new_text(sha256(b""), 0);
    assert_eq!(r.push(0, vec![]), None);
}

#[test]
fn announced_payloads_arrive() {
    let bytes: Vec<u8> = (0..100_000u32).map(|i| (i / 7) as u8).collect();
    let payload = text_payload(bytes.clone());
    let mut incoming = Incoming::new();
    incoming.announce_text(payload.hash);
    let msgs = chunk_payload(&payload);
    let n = msgs.len();
    for (i, m) in msgs.into_iter().enumerate() {
        if let Message::ClipboardData { hash, chunk_index, total_chunks, data } = m {
            let got = incoming.take_chunk(hash, chunk_index, total_chunks, data);
            if i + 1 < n {
                assert_eq!(got, None);
            } else {
                assert_eq!(got, Some((PayloadKind::Text, bytes.clone())));
            }
        }
    }
    assert_eq!(incoming.pending, None);
}

#[test]
fn announced_images_arrive() {
    let png = vec![7u8; 33_000];
    let payload = ClipboardPayload {
        hash: image_hash(&png),
        bytes: png.clone(),
        mime: "image/png".into(),
        truncated: false,
        kind: PayloadKind::Image { width: 8, height: 9 },
    };
    let mut incoming = Incoming::new();
    incoming.announce_image(payload.hash, 2, 8, 9);
    let mut got = None;
    for m in chunk_payload(&payload) {
        if let Message::ClipboardData { hash, chunk_index, total_chunks, data } = m {
            got = incoming.take_chunk(hash, chunk_index, total_chunks, data);
        }
    }
    assert_eq!(got, Some((PayloadKind::Image { width: 8, height: 9 }, png)));
}

#[test]
fn chunks_without_an_offer_start_a_text() {
    let mut incoming = Incoming::new();
    let got = incoming.take_chunk(sha256(b"abc"), 0, 1, b"abc".to_vec());
    assert_eq!(got, Some((PayloadKind::Text, b"abc".to_vec())));
    // Another hash replaces what was coming in.
    incoming.announce_image([1; 32], 2, 3, 4);
    let got = incoming.take_chunk(sha256(b"xyz"), 0, 1, b"xyz".to_vec());
    assert_eq!(got, Some((PayloadKind::Text, b"xyz".to_vec())));
}

fn sent(step: PollStep) -> Option<PayloadKind> {
    step.payload.map(|p| p.kind)
}

const QUIET: PollStep = PollStep { payload: None, notice: None };

#[test]
fn the_watcher_sends_a_text_once() {
    let mut w = Watcher::new(1024);
    let step = w.poll_text(Some("hello"));
    assert_eq!(step.payload, Some(text_payload(b"hello".to_vec())));
    assert_eq!(step.notice, None);
    assert_eq!(w.poll_text(Some("hello")), QUIET);
    assert!(w.poll_text(Some("other")).payload.is_some());
    assert!(w.poll_text(Some("hello")).payload.is_some());
    assert_eq!(w.poll_text(None), QUIET);
    assert_eq!(w.poll_text(Some("hello")), QUIET);
}

#[test]
fn the_watcher_cuts_long_texts() {
    let mut w = Watcher::new(2048);
    let text = "é".repeat(2000);
    let step = w.poll_text(Some(&text));
    let p = step.payload.unwrap();
    assert_eq!(p.bytes, "é".repeat(1024).into_bytes());
    assert!(p.truncated);
    assert_eq!(p.hash, sha256(&p.bytes));
    let notice = step.notice.unwrap();
    assert_eq!(notice.summary, "Clipboard truncado");
    assert_eq!(
        notice.body,
        "Conteúdo de 3 KB excedeu limite de 2 KB; enviando truncado."
    );
    // It is known by the hash of the whole text.
    assert_eq!(w.poll_text(Some(&text)), QUIET);
}

#[test]
fn the_watcher_sends_an_image_once() {
    let raw: Vec<u8> = (0..48u8).collect();
    let png = encode_png(&raw, 4, 3).unwrap();
    let mut w = Watcher::new(1024);
    let step = w.poll_image(&raw, 4, 3, None);
    assert_eq!(
        step.payload,
        Some(ClipboardPayload {
            hash: image_hash(&png),
            bytes: png,
            mime: "image/png".into(),
            truncated: false,
            kind: PayloadKind::Image { width: 4, height: 3 },
        })
    );
    assert_eq!(w.poll_image(&raw, 4, 3, None), QUIET);
    // An image that cannot be encoded ends the look.
    assert_eq!(w.poll_image(&raw[..4], 4, 3, Some("t")), QUIET);
}

#[test]
fn an_unchanged_clipboard_is_sent_once() {
    let raw: Vec<u8> = (0..48u8).collect();
    let image = Some(PayloadKind::Image { width: 4, height: 3 });
    let mut w = Watcher::new(1024);
    assert_eq!(sent(w.poll_image(&raw, 4, 3, Some("t"))), image);
    assert_eq!(sent(w.poll_image(&raw, 4, 3, Some("t"))), Some(PayloadKind::Text));
    for _ in 0..5 {
        assert_eq!(w.poll_image(&raw, 4, 3, Some("t")), QUIET);
    }
    // Another image with the same text beside it: the text has not changed.
    let other: Vec<u8> = (0..48u8).rev().collect();
    assert_eq!(sent(w.poll_image(&other, 4, 3, Some("t"))), image);
    assert_eq!(w.poll_image(&other, 4, 3, Some("t")), QUIET);
    // Another text beside the same image.
    assert_eq!(sent(w.poll_image(&other, 4, 3, Some("u"))), Some(PayloadKind::Text));
    assert_eq!(w.poll_image(&other, 4, 3, Some("u")), QUIET);
}

#[test]
fn what_comes_back_is_sent_again() {
    let raw: Vec<u8> = (0..48u8).collect();
    let image = Some(PayloadKind::Image { width: 4, height: 3 });
    let mut w = Watcher::new(1024);
    assert_eq!(sent(w.poll_text(Some("t"))), Some(PayloadKind::Text));
    assert_eq!(sent(w.poll_image(&raw, 4, 3, None)), image);
    assert_eq!(sent(w.poll_text(Some("t"))), Some(PayloadKind::Text));
    assert_eq!(sent(w.poll_image(&raw, 4, 3, None)), image);
    assert_eq!(w.poll_image(&raw, 4, 3, None), QUIET);
}

#[test]
fn what_comes_back_beside_another_is_sent_again() {
    let raw: Vec<u8> = (0..48u8).collect();
    let image = Some(PayloadKind::Image { width: 4, height: 3 });
    let text = Some(PayloadKind::Text);
    // The image goes, and comes back.
    let mut w = Watcher::new(1024);
    assert_eq!(sent(w.poll_image(&raw, 4, 3, Some("t"))), image);
    assert_eq!(sent(w.poll_image(&raw, 4, 3, Some("t"))), text);
    assert_eq!(w.poll_text(Some("t")), QUIET);
    assert_eq!(sent(w.poll_image(&raw, 4, 3, Some("t"))), image);
    assert_eq!(w.poll_image(&raw, 4, 3, Some("t")), QUIET);
    // The text is left alone after the image was sent.
    let mut w = Watcher::new(1024);
    assert_eq!(sent(w.poll_text(Some("t"))), text);
    assert_eq!(sent(w.poll_image(&raw, 4, 3, Some("t"))), image);
    assert_eq!(sent(w.poll_text(Some("t"))), text);
    assert_eq!(w.poll_text(Some("t")), QUIET);
    // The text goes, and comes back. The image was not sent last, and is sent again.
    let mut w = Watcher::new(1024);
    assert_eq!(sent(w.poll_image(&raw, 4, 3, Some("t"))), image);
    assert_eq!(sent(w.poll_image(&raw, 4, 3, Some("t"))), text);
    assert_eq!(sent(w.poll_image(&raw, 4, 3, None)), image);
    assert_eq!(sent(w.poll_image(&raw, 4, 3, Some("t"))), text);
    assert_eq!(w.poll_image(&raw, 4, 3, Some("t")), QUIET);
    // Both go, and come back.
    assert_eq!(w.poll_text(None), QUIET);
    assert_eq!(sent(w.poll_image(&raw, 4, 3, Some("t"))), image);
    assert_eq!(sent(w.poll_image(&raw, 4, 3, Some("t"))), text);
    assert_eq!(w.poll_image(&raw, 4, 3, Some("t")), QUIET);
}

#[test]
fn the_watcher_ignores_huge_images() {
    let mut w = Watcher::new(1024);
    let huge = || SeenImage::Png {
        bytes: vec![0u8; MAX_IMAGE_BYTES + 1024],
        width: 1,
        height: 1,
    };
    let step = w.judge(huge(), Some("t"));
    assert_eq!(step.payload, None);
    let n = step.notice.unwrap();
    assert_eq!(n.summary, "Imagem do clipboard ignorada");
    assert_eq!(n.body, "PNG comprimido tem 8193 KB e excede o limite de 8192 KB.");
    assert_eq!(sent(w.judge(huge(), Some("t"))), Some(PayloadKind::Text));
    assert_eq!(w.judge(huge(), Some("t")), QUIET);
    assert_eq!(w.judge(SeenImage::Unencodable, Some("u")), QUIET);
    assert_eq!(w.judge(SeenImage::Absent, None), QUIET);
    let fits = SeenImage::Png { bytes: vec![0u8; MAX_IMAGE_BYTES], width: 1, height: 1 };
    assert!(w.judge(fits, None).payload.is_some());
}

#[test]
fn later_pieces_do_not_change_the_count() {
    let whole = sha256(b"abcd");
    let mut incoming = Incoming::new();
    incoming.announce_text(whole);
    assert_eq!(incoming.take_chunk(whole, 0, 2, b"ab".to_vec()), None);
    assert_eq!(
        incoming.take_chunk(whole, 1, 3, b"cd".to_vec()),
        Some((PayloadKind::Text, b"abcd".to_vec()))
    );
    // Without an offer the first piece counts too, even if it has no place.
    assert_eq!(incoming.take_chunk(whole, 5, 2, b"xx".to_vec()), None);
    assert_eq!(incoming.take_chunk(whole, 0, 9, b"ab".to_vec()), None);
    assert_eq!(
        incoming.take_chunk(whole, 1, 9, b"cd".to_vec()),
        Some((PayloadKind::Text, b"abcd".to_vec()))
    );
    // A piece that names no count leaves the one place.
    incoming.announce_text(whole);
    assert_eq!(
        incoming.take_chunk(whole, 0, 0, b"abcd".to_vec()),
        Some((PayloadKind::Text, b"abcd".to_vec()))
    );
}
