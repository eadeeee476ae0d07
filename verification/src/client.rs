//! What a client does about the messages of the server.

use crate::bytes::copy_32;
use crate::capture::{hotkey_direction, CaptureEvent, VirtualBounds};
use crate::clipboard::{
    announced, carried, chunk_messages, chunk_payload, chunk_step, chunks_taken,
    contents_are_known_by_their_hashes, lemma_piece_bounds, messages_carry_the_whole_payload,
    offer_message, only_the_right_bytes_come_out, payload_arrives, payload_hash, pending_sound,
    piece_count, text_announced, ClipboardPayload, Incoming, PayloadKind, PayloadView, PendingView,
};
use crate::config::HotkeyConfig;
use crate::digest::{
    hex_decode, hex_error_of, hex_of, hex_value, is_hex, sha256_of, unhex, unhex_undoes_hex,
};
use crate::focus::{event_message, holder, input_goes_to_the_focused_client, routed, FocusPrefs};
use crate::inject::{
    actions, buttons_keep_their_names, keys_are_carried_out, machine_after_all,
    motions_are_carried_out, nothing_stays_down, scrolled, wheel_turns_are_carried_out, Action,
    InjectCmd, PointerButton,
};
use crate::keymap::key_for;
use crate::protocol::{message_views, Message, MessageView, Modifiers, MouseButton};
use crate::state::{ClientId, StateView};
use crate::text::{
    cat, cat3, decimal, decimal_text, replace_char, replaced, replacing_what_is_not_there, trim,
    trimmed, trimmed_start,
};
use vstd::prelude::*;

verus! {

/// What is wrong with a pinned fingerprint.
#[derive(Debug, PartialEq, Eq)]
pub enum FingerprintError {
    /// It is not hexadecimal, for this reason.
    NotHex(String),
    /// It has so many bytes.
    WrongLength(usize),
}

impl FingerprintError {
    pub open spec fn words(self) -> Seq<char> {
        match self {
            FingerprintError::NotHex(e) => "server_fingerprint_hex must be hex: "@ + e@,
            FingerprintError::WrongLength(n) => "expected 32-byte SHA-256 fingerprint, got "@
                + decimal(n as nat) + " bytes"@,
        }
    }

    /// The error in words.
    pub fn text(&self) -> (r: String)
        ensures
            r@ == self.words(),
    {
        match self {
            FingerprintError::NotHex(e) => cat(
                "server_fingerprint_hex must be hex: ",
                e.as_str(),
            ),
            FingerprintError::WrongLength(n) => {
                let d = decimal_text(*n as u64);
                cat3("expected 32-byte SHA-256 fingerprint, got ", d.as_str(), " bytes")
            },
        }
    }
}

/// The fingerprint that was decoded, or what is wrong with it.
pub fn fingerprint_from(decoded: Result<Vec<u8>, String>) -> (r: Result<[u8; 32], FingerprintError>)
    ensures
        match (decoded, r) {
            (Ok(b), Ok(fp)) => b@.len() == 32 && fp@ == b@,
            (Ok(b), Err(FingerprintError::WrongLength(n))) => b@.len() != 32 && n == b@.len(),
            (Err(why), Err(FingerprintError::NotHex(e))) => e == why,
            _ => false,
        },
{
    match decoded {
        Ok(b) => {
            if b.len() != 32 {
                return Err(FingerprintError::WrongLength(b.len()));
            }
            let fp = copy_32(b.as_slice(), 0);
            assert(fp@ =~= b@);
            Ok(fp)
        },
        Err(why) => Err(FingerprintError::NotHex(why)),
    }
}

/// The digits of a fingerprint as people write it: with white space around it or not, and with
/// colons between the bytes or not.
pub open spec fn fingerprint_digits(t: Seq<char>) -> Seq<char> {
    replaced(trimmed(t), ':', ""@)
}

/// The fingerprint that a text stands for.
pub fn parse_fingerprint(hex_str: &str) -> (r: Result<[u8; 32], FingerprintError>)
    ensures
        ({
            let digits = fingerprint_digits(hex_str@);
            match r {
                Ok(fp) => is_hex(digits) && digits.len() == 64 && fp@ == unhex(digits),
                Err(FingerprintError::WrongLength(n)) => is_hex(digits) && digits.len() != 64 && n
                    == digits.len() / 2,
                Err(FingerprintError::NotHex(why)) => !is_hex(digits) && why@ == hex_error_of(
                    digits,
                ),
            }
        }),
{
    let digits = replace_char(trim(hex_str), ':', "");
    fingerprint_from(hex_decode(digits.as_str()))
}

/// What a client does about a message.
#[derive(Debug, PartialEq, Eq)]
pub struct ClientAction {
    pub inject: Option<InjectCmd>,
    pub reply: Option<Message>,
    /// A text that is complete and goes to the clipboard.
    pub clipboard: Option<Vec<u8>>,
}

/// What a client does about a message, and what is still coming in afterwards.
pub struct ClientActionView {
    pub pending: Option<PendingView>,
    pub inject: Option<InjectCmd>,
    pub reply: Option<MessageView>,
    pub clipboard: Option<Seq<u8>>,
}

/// What a [`ClientAction`] says.
pub open spec fn action_view(
    pending: Option<PendingView>,
    a: ClientAction,
) -> ClientActionView {
    ClientActionView {
        pending,
        inject: a.inject,
        reply: match a.reply {
            Some(m) => Some(m@),
            None => None,
        },
        clipboard: match a.clipboard {
            Some(b) => Some(b@),
            None => None,
        },
    }
}

/// The command that a message of the server amounts to, if any.
pub open spec fn command_of(m: MessageView) -> Option<InjectCmd> {
    match m {
        MessageView::EnterScreen { x, y } => Some(InjectCmd::MoveAbs(x, y)),
        MessageView::LeaveScreen => Some(InjectCmd::ReleaseAllModifiers),
        MessageView::MouseMove { dx, dy } => Some(InjectCmd::MoveRel(dx, dy)),
        MessageView::MouseButton { button, pressed } => Some(InjectCmd::Button(button, pressed)),
        MessageView::MouseWheel { dx, dy } => Some(InjectCmd::Wheel(dx, dy)),
        MessageView::KeyEvent { key, pressed, modifiers } => Some(
            InjectCmd::Key { key, pressed, modifiers },
        ),
        _ => None,
    }
}

/// What a client does about a message of the server.
pub open spec fn client_action(
    pending: Option<PendingView>,
    m: MessageView,
) -> ClientActionView {
    let quiet = ClientActionView {
        pending,
        inject: command_of(m),
        reply: None,
        clipboard: None,
    };
    match m {
        MessageView::ClipboardOffer { hash, .. } => ClientActionView {
            pending: text_announced(hash),
            ..quiet
        },
        MessageView::ClipboardData { hash, chunk_index, total_chunks, data } => {
            let (left, complete) = chunk_step(pending, hash, chunk_index, total_chunks, data);
            ClientActionView {
                pending: left,
                clipboard: match complete {
                    Some((_, b)) => Some(b),
                    None => None,
                },
                ..quiet
            }
        },
        MessageView::Ping => ClientActionView { reply: Some(MessageView::Pong), ..quiet },
        _ => quiet,
    }
}

/// A message came from the server.
pub fn on_message(incoming: &mut Incoming, msg: Message) -> (r: ClientAction)
    ensures
        action_view(final(incoming)@, r) == client_action(old(incoming)@, msg@),
{
    let mut a = ClientAction { inject: None, reply: None, clipboard: None };
    match msg {
        Message::EnterScreen { x, y } => {
            a.inject = Some(InjectCmd::MoveAbs(x, y));
        },
        Message::LeaveScreen => {
            a.inject = Some(InjectCmd::ReleaseAllModifiers);
        },
        Message::MouseMove { dx, dy } => {
            a.inject = Some(InjectCmd::MoveRel(dx, dy));
        },
        Message::MouseButton { button, pressed } => {
            a.inject = Some(InjectCmd::Button(button, pressed));
        },
        Message::MouseWheel { dx, dy } => {
            a.inject = Some(InjectCmd::Wheel(dx, dy));
        },
        Message::KeyEvent { key, pressed, modifiers } => {
            a.inject = Some(InjectCmd::Key { key, pressed, modifiers });
        },
        Message::ClipboardOffer { hash, .. } => {
            incoming.announce_text(hash);
        },
        Message::ClipboardData { hash, chunk_index, total_chunks, data } => {
            if let Some((_, bytes)) = incoming.take_chunk(hash, chunk_index, total_chunks, data) {
                a.clipboard = Some(bytes);
            }
        },
        Message::Ping => {
            a.reply = Some(Message::Pong);
        },
        _ => {},
    }
    a
}

/// The session has ended: no modifier stays down.
pub fn on_disconnect() -> (r: InjectCmd)
    ensures
        r == InjectCmd::ReleaseAllModifiers,
{
    InjectCmd::ReleaseAllModifiers
}

/// What a client sends when its clipboard has changed: an offer, and then the chunks.
pub open spec fn clipboard_messages(p: PayloadView) -> Seq<MessageView> {
    seq![
        MessageView::ClipboardOffer {
            hash: p.hash,
            size: (p.bytes.len() % 0x1_0000_0000) as u32,
            truncated: p.truncated,
            mime: p.mime,
        },
    ] + chunk_messages(p)
}

/// What a client sends when its clipboard has changed.
pub fn share_clipboard(p: &ClipboardPayload) -> (r: Vec<Message>)
    ensures
        message_views(r@) == clipboard_messages(p@),
{
    let mut out: Vec<Message> = Vec::new();
    out.push(
        Message::ClipboardOffer {
            hash: p.hash,
            size: (p.bytes.len() as u64 % 0x1_0000_0000) as u32,
            truncated: p.truncated,
            mime: p.mime.clone(),
        },
    );
    let mut chunks = chunk_payload(p);
    let ghost all = chunks@;
    out.append(&mut chunks);
    assert(message_views(out@) =~= seq![out@[0]@] + message_views(all));
    out
}

/// What is captured on the server is what is carried out on the client that has the focus.
pub proof fn captured_input_is_injected(ev: CaptureEvent)
    ensures
        command_of(event_message(ev)) == Some(
            match ev {
                CaptureEvent::MouseMove { dx, dy, .. } => InjectCmd::MoveRel(dx, dy),
                CaptureEvent::MouseButton { button, pressed } => InjectCmd::Button(button, pressed),
                CaptureEvent::MouseWheel { dx, dy } => InjectCmd::Wheel(dx, dy),
                CaptureEvent::Key { key, pressed, modifiers } => InjectCmd::Key {
                    key,
                    pressed,
                    modifiers,
                },
            },
        ),
{
}

/// The state of a client's clipboard after the first `k` chunks of a text that the server shared,
/// one after the other, behind the offer.
pub open spec fn text_taken(p: PayloadView, k: nat) -> ClientActionView
    decreases k,
{
    if k == 0 {
        client_action(None, offer_message(p))
    } else {
        client_action(text_taken(p, (k - 1) as nat).pending, chunk_messages(p)[k - 1])
    }
}

/// A text that the server shares reaches the client's clipboard, with its last chunk and not
/// before.
pub proof fn shared_text_arrives(p: PayloadView, k: nat)
    requires
        p.kind == PayloadKind::Text,
        p.hash == payload_hash(p.kind, p.bytes),
        p.bytes.len() > 0,
        piece_count(p.bytes.len()) <= u16::MAX,
        k <= piece_count(p.bytes.len()),
    ensures
        text_taken(p, k).clipboard == if k == piece_count(p.bytes.len()) {
            Some(p.bytes)
        } else {
            None
        },
        text_taken(p, k).pending == chunks_taken(announced(p), p, k).0,
    decreases k,
{
    payload_arrives(p, k);
    lemma_piece_bounds(p.bytes.len(), 0);
    if k > 0 {
        shared_text_arrives(p, (k - 1) as nat);
    }
}

/// What is done at the server, on the keyboard or with the mouse, while a client that is there has
/// the focus, is what is done on that client's machine: the message that the event appends to what
/// waits for the client makes the client perform the event. A button is pressed or released on the
/// pointer's button of the same name; a key is pressed or released as it was, with its modifiers
/// held; the cursor moves as far, and the wheel turns as far.
pub proof fn captured_input_is_performed(
    s: StateView,
    armed: bool,
    ev: CaptureEvent,
    hk: HotkeyConfig,
    b: VirtualBounds,
    prefs: FocusPrefs,
    id: ClientId,
    pending: Option<PendingView>,
    held: Modifiers,
)
    requires
        holder(s.focus) == Some(id),
        s.clients.dom().contains(id),
        hotkey_direction(hk, ev) is None,
    ensures
        ({
            let sent = routed(s, armed, ev, hk, b, prefs).state.clients[id].outbox;
            let a = client_action(pending, sent.last());
            let acts = actions(held, a.inject->Some_0);
            &&& sent.len() == s.clients[id].outbox.len() + 1
            &&& sent.drop_last() == s.clients[id].outbox
            &&& a.inject is Some
            &&& a.pending == pending && a.reply is None && a.clipboard is None
            &&& match ev {
                CaptureEvent::MouseMove { dx, dy, .. } => acts == seq![Action::MoveRel(dx, dy)],
                CaptureEvent::MouseButton { button, pressed } => {
                    let one = |p: PointerButton|
                        acts == seq![Action::Button { button: p, press: pressed }];
                    &&& button == MouseButton::Left ==> one(PointerButton::Left)
                    &&& button == MouseButton::Right ==> one(PointerButton::Right)
                    &&& button == MouseButton::Middle ==> one(PointerButton::Middle)
                },
                CaptureEvent::MouseWheel { dx, dy } => scrolled(acts) == (dx as int, dy as int),
                CaptureEvent::Key { key, pressed, modifiers } => {
                    &&& a.inject == Some(InjectCmd::Key { key, pressed, modifiers })
                    &&& key_for(key.0, modifiers.shift) matches Some(k) ==> acts.len() > 0
                        && acts.last() == (Action::Key { key: k, press: pressed })
                        && machine_after_all(held, acts.drop_last()) == modifiers
                },
            }
        }),
{
    input_goes_to_the_focused_client(s, armed, ev, hk, b, prefs, id);
    match ev {
        CaptureEvent::MouseMove { dx, dy, .. } => {
            motions_are_carried_out(held, dx, dy);
            assert(actions(held, InjectCmd::MoveRel(dx, dy)) =~= seq![Action::MoveRel(dx, dy)]);
        },
        CaptureEvent::MouseButton { button, pressed } => {
            buttons_keep_their_names(held, button, pressed);
        },
        CaptureEvent::MouseWheel { dx, dy } => {
            wheel_turns_are_carried_out(held, dx, dy);
        },
        CaptureEvent::Key { key, pressed, modifiers } => {
            keys_are_carried_out(held, key, pressed, modifiers);
            let acts = actions(held, InjectCmd::Key { key, pressed, modifiers });
            if acts.len() > 0 {
                assert(acts.take(acts.len() - 1) =~= acts.drop_last());
            }
        },
    }
}

/// A client whose screen the cursor enters puts its cursor where the server says, and one that it
/// leaves releases all modifiers.
pub proof fn cursor_and_modifiers_follow_the_focus(
    pending: Option<PendingView>,
    x: i32,
    y: i32,
    held: Modifiers,
)
    ensures
        client_action(pending, MessageView::EnterScreen { x, y }).inject == Some(
            InjectCmd::MoveAbs(x, y),
        ),
        ({
            let c = client_action(pending, MessageView::LeaveScreen).inject;
            c is Some && machine_after_all(held, actions(held, c->Some_0)) == (Modifiers {
                shift: false,
                ctrl: false,
                alt: false,
                meta: false,
            })
        }),
{
    nothing_stays_down(held);
}

/// A client answers a ping with a pong and nothing else with anything, carries out input and the
/// coming and going of the cursor and nothing else, and writes to its clipboard only with a chunk.
pub proof fn clients_do_only_what_they_are_asked(pending: Option<PendingView>, m: MessageView)
    ensures
        ({
            let a = client_action(pending, m);
            &&& a.reply == if m is Ping {
                Some(MessageView::Pong)
            } else {
                None
            }
            &&& a.inject is Some <==> m is EnterScreen || m is LeaveScreen || m is MouseMove || m
                is MouseButton || m is MouseWheel || m is KeyEvent
            &&& a.clipboard is Some ==> m is ClipboardData
            &&& !(m is ClipboardData) && !(m is ClipboardOffer) ==> a.pending == pending
        }),
{
}

/// What a client's clipboard gets has the hash under which it came.
pub proof fn clients_take_only_the_right_bytes(
    pending: Option<PendingView>,
    hash: Seq<u8>,
    index: u16,
    total: u16,
    data: Seq<u8>,
)
    requires
        pending_sound(pending),
        pending matches Some(p) ==> p.parts.kind is Text,
    ensures
        client_action(
            pending,
            MessageView::ClipboardData {
                hash,
                chunk_index: index,
                total_chunks: total,
                data,
            },
        ).clipboard matches Some(bytes) ==> sha256_of(bytes) == hash,
{
    only_the_right_bytes_come_out(pending, hash, index, total, data);
    contents_are_known_by_their_hashes(data, 1, 1);
}

/// What a client sends for a text on its clipboard is the offer of it, and then all of its bytes.
pub proof fn clients_share_their_texts(p: PayloadView)
    requires
        p.kind is Text,
    ensures
        clipboard_messages(p).len() > 0,
        clipboard_messages(p)[0] == offer_message(p),
        clipboard_messages(p).skip(1) == chunk_messages(p),
        carried(clipboard_messages(p).skip(1)) == p.bytes,
{
    messages_carry_the_whole_payload(p);
    assert(clipboard_messages(p).skip(1) =~= chunk_messages(p));
}

/// A fingerprint that is written in hexadecimal, as the server shows it, is read as itself.
pub proof fn shown_fingerprint_is_read(fp: Seq<u8>)
    requires
        fp.len() == 32,
    ensures
        is_hex(fingerprint_digits(hex_of(fp))),
        fingerprint_digits(hex_of(fp)).len() == 64,
        unhex(fingerprint_digits(hex_of(fp))) == fp,
{
    let t = hex_of(fp);
    unhex_undoes_hex(fp);
    assert(trimmed(t) == t) by {
        lemma_trimmed_hex(fp);
    }
    assert forall|i: int| 0 <= i < t.len() implies #[trigger] t[i] != ':' by {
        assert(hex_value(t[i]) is Some);
    }
    replacing_what_is_not_there(t, ':', ""@);
}

/// There is nothing to trim on hexadecimal digits.
proof fn lemma_trimmed_hex(fp: Seq<u8>)
    ensures
        trimmed(hex_of(fp)) == hex_of(fp),
{
    let t = hex_of(fp);
    unhex_undoes_hex(fp);
    if t.len() > 0 {
        assert(hex_value(t[0]) is Some);
        assert(hex_value(t[t.len() - 1]) is Some);
    }
    assert(trimmed_start(t) == t);
}

/// What a client does is told whole: what it performs, what it answers and what goes to the clipboard.
pub proof fn actions_are_told_whole(pending: Option<PendingView>, a: ClientAction)
    ensures
        action_view(pending, a).pending == pending,
        action_view(pending, a).inject == a.inject,
        action_view(pending, a).reply is Some <==> a.reply is Some,
        a.reply is Some ==> action_view(pending, a).reply == Some(a.reply->Some_0@),
        action_view(pending, a).clipboard is Some <==> a.clipboard is Some,
        a.clipboard is Some ==> action_view(pending, a).clipboard == Some(a.clipboard->Some_0@),
{
}

} // verus!
