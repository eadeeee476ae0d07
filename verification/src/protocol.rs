//! The messages that the two sides exchange, and their frames.
//!
//! A frame is the length of a payload in four bytes, most significant first, and the payload: the
//! encoding of one [`Message`]. The length is bounded when a frame is read, which bounds the
//! memory that a peer can ask for.

use crate::bytes::{
    append_bytes, be32_bytes, be32_value, lemma_be32_round_trip, lemma_le_bytes_len, u32_from_be,
    u32_to_be,
};
use crate::wire::{
    appended, encoded_all, fit_all, lemma_appended, lemma_encoded_all_len,
    lemma_encoded_of_parsed, lemma_encoded_of_parsed_all, lemma_parsed_all_of_encoded,
    lemma_parsed_of_encoded, lemma_scanned, parsed, parsed_all, put_bytes, put_bytes32, put_flag,
    put_i16, put_i32, put_text, put_u16, put_u32, put_u64, put_variant, scanned, Cursor, Field,
    Kind,
};
use vstd::prelude::*;

verus! {

/// The version that this build speaks.
pub const PROTOCOL_VERSION: u16 = 2;

/// The oldest version that is still accepted. An older peer is refused; for one that lags behind,
/// the messages that its version did not have are withheld.
pub const MIN_PROTOCOL_VERSION: u16 = 1;

pub const DEFAULT_PORT: u16 = 24800;

/// The mDNS service type under which a server announces itself.
pub const MDNS_SERVICE_TYPE: &'static str = "_union._tcp.local.";

pub const MAX_FRAME_BYTES: usize = 16 * 1024 * 1024;

pub const CLIPBOARD_CHUNK_BYTES: usize = 32 * 1024;

/// The largest image, as a PNG, that the clipboard carries.
pub const MAX_IMAGE_BYTES: usize = 8 * 1024 * 1024;

pub const FILE_CHUNK_BYTES: usize = 32 * 1024;

/// The largest file that is relayed.
pub const MAX_FILE_BYTES: u64 = 256 * 1024 * 1024;

/// Seconds between two pings of one side.
pub const PING_INTERVAL: u64 = 10;

/// Seconds without any frame after which the peer is taken to be gone.
pub const READ_IDLE_TIMEOUT: u64 = 30;

/// Seconds that the server waits for the handshake.
pub const HANDSHAKE_TIMEOUT: u64 = 10;

#[derive(Debug, Clone, Copy, PartialEq, Eq, Structural)]
pub enum MouseButton {
    Left,
    Right,
    Middle,
    Back,
    Forward,
}

impl MouseButton {
    /// The place of the button in the list of variants.
    pub open spec fn index(self) -> nat {
        match self {
            MouseButton::Left => 0,
            MouseButton::Right => 1,
            MouseButton::Middle => 2,
            MouseButton::Back => 3,
            MouseButton::Forward => 4,
        }
    }

    /// The button at place `i`.
    pub open spec fn at(i: nat) -> MouseButton {
        if i == 0 {
            MouseButton::Left
        } else if i == 1 {
            MouseButton::Right
        } else if i == 2 {
            MouseButton::Middle
        } else if i == 3 {
            MouseButton::Back
        } else {
            MouseButton::Forward
        }
    }

    fn to_index(&self) -> (r: u32)
        ensures
            r == self.index(),
    {
        match self {
            MouseButton::Left => 0,
            MouseButton::Right => 1,
            MouseButton::Middle => 2,
            MouseButton::Back => 3,
            MouseButton::Forward => 4,
        }
    }

    fn from_index(i: u32) -> (r: Self)
        ensures
            r == MouseButton::at(i as nat),
    {
        if i == 0 {
            MouseButton::Left
        } else if i == 1 {
            MouseButton::Right
        } else if i == 2 {
            MouseButton::Middle
        } else if i == 3 {
            MouseButton::Back
        } else {
            MouseButton::Forward
        }
    }
}

#[derive(Debug, Clone, Copy, PartialEq, Eq, Structural)]
pub struct Modifiers {
    pub shift: bool,
    pub ctrl: bool,
    pub alt: bool,
    pub meta: bool,
}

impl Default for Modifiers {
    /// No modifier is held.
    fn default() -> (r: Self)
        ensures
            r == (Modifiers { shift: false, ctrl: false, alt: false, meta: false }),
    {
        Modifiers { shift: false, ctrl: false, alt: false, meta: false }
    }
}

/// A key, by its HID usage on the keyboard page, which no platform owns. Each backend translates
/// it to its native code.
#[derive(Debug, Clone, Copy, PartialEq, Eq, Structural)]
pub struct KeyCode(pub u16);

/// The edge of a screen that a cursor crosses.
#[derive(Debug, Clone, Copy, PartialEq, Eq, Structural)]
pub enum Edge {
    Left,
    Right,
    Top,
    Bottom,
}

impl Edge {
    /// The edge on the other side of the screen.
    pub open spec fn across(self) -> Edge {
        match self {
            Edge::Left => Edge::Right,
            Edge::Right => Edge::Left,
            Edge::Top => Edge::Bottom,
            Edge::Bottom => Edge::Top,
        }
    }

    pub fn opposite(self) -> (r: Edge)
        ensures
            r == self.across(),
    {
        match self {
            Edge::Left => Edge::Right,
            Edge::Right => Edge::Left,
            Edge::Top => Edge::Bottom,
            Edge::Bottom => Edge::Top,
        }
    }

    /// The place of the edge in the list of variants.
    pub open spec fn index(self) -> nat {
        match self {
            Edge::Left => 0,
            Edge::Right => 1,
            Edge::Top => 2,
            Edge::Bottom => 3,
        }
    }

    /// The edge at place `i`.
    pub open spec fn at(i: nat) -> Edge {
        if i == 0 {
            Edge::Left
        } else if i == 1 {
            Edge::Right
        } else if i == 2 {
            Edge::Top
        } else {
            Edge::Bottom
        }
    }

    fn to_index(&self) -> (r: u32)
        ensures
            r == self.index(),
    {
        match self {
            Edge::Left => 0,
            Edge::Right => 1,
            Edge::Top => 2,
            Edge::Bottom => 3,
        }
    }

    fn from_index(i: u32) -> (r: Self)
        ensures
            r == Edge::at(i as nat),
    {
        if i == 0 {
            Edge::Left
        } else if i == 1 {
            Edge::Right
        } else if i == 2 {
            Edge::Top
        } else {
            Edge::Bottom
        }
    }
}

/// The opposite of the opposite edge is the edge itself, and no edge is its own opposite.
pub proof fn opposite_edges_pair_up(e: Edge)
    ensures
        e.across().across() == e,
        e.across() != e,
{
}

#[allow(inconsistent_fields)]
#[derive(Debug, PartialEq, Eq)]
pub enum Message {
    /// Handshake, client to server: the first message.
    Hello { protocol_version: u16, hostname: String },
    /// Server to client: random bytes for the proof of the shared key.
    AuthChallenge { nonce: [u8; 32] },
    /// Client to server: the keyed hash of the nonce.
    AuthResponse { mac: [u8; 32] },
    /// Server to client: the proof was accepted.
    AuthOk,
    /// Either side, after authentication: the size of its screen.
    ScreenInfo { width: u32, height: u32 },
    /// Server to client: the cursor entered the client's screen here.
    EnterScreen { x: i32, y: i32 },
    /// Server to client: the cursor left the client's screen.
    LeaveScreen,
    /// Relative motion.
    MouseMove { dx: i32, dy: i32 },
    MouseButton { button: MouseButton, pressed: bool },
    MouseWheel { dx: i16, dy: i16 },
    KeyEvent { key: KeyCode, pressed: bool, modifiers: Modifiers },
    /// The sender has a new clipboard payload.
    ClipboardOffer { hash: [u8; 32], size: u32, truncated: bool, mime: String },
    /// The receiver asks for the payload.
    ClipboardRequest { hash: [u8; 32] },
    /// One chunk of a payload; chunks are numbered from 0.
    ClipboardData { hash: [u8; 32], chunk_index: u16, total_chunks: u16, data: Vec<u8> },
    /// Keepalive; either side may send it.
    Ping,
    /// The answer to a `Ping`.
    Pong,
    /// An image payload follows, in `ClipboardData` frames with this hash. Since version 2.
    ClipboardImageOffer { hash: [u8; 32], width: u32, height: u32, total_chunks: u16 },
    /// Server to client: the edge through which the cursor leaves the client. Since version 2.
    SetExitEdge { edge: Edge },
    /// Client to server: the cursor reached the exit edge. Since version 2.
    RequestFocusReturn,
    /// Server to client: a file follows. Since version 3.
    FileTransferOffer { id: u32, name: String, size: u64, total_chunks: u32 },
    /// One chunk of a file. Since version 3.
    FileTransferChunk { id: u32, chunk_index: u32, data: Vec<u8> },
    /// The file is complete, with this SHA-256. Since version 3.
    FileTransferDone { id: u32, sha256: [u8; 32] },
    /// The transfer was abandoned. Since version 3.
    FileTransferReject { id: u32, reason: String },
}

/// What a [`Message`] says.
#[allow(inconsistent_fields)]
pub enum MessageView {
    Hello { protocol_version: u16, hostname: Seq<char> },
    AuthChallenge { nonce: Seq<u8> },
    AuthResponse { mac: Seq<u8> },
    AuthOk,
    ScreenInfo { width: u32, height: u32 },
    EnterScreen { x: i32, y: i32 },
    LeaveScreen,
    MouseMove { dx: i32, dy: i32 },
    MouseButton { button: MouseButton, pressed: bool },
    MouseWheel { dx: i16, dy: i16 },
    KeyEvent { key: KeyCode, pressed: bool, modifiers: Modifiers },
    ClipboardOffer { hash: Seq<u8>, size: u32, truncated: bool, mime: Seq<char> },
    ClipboardRequest { hash: Seq<u8> },
    ClipboardData { hash: Seq<u8>, chunk_index: u16, total_chunks: u16, data: Seq<u8> },
    Ping,
    Pong,
    ClipboardImageOffer { hash: Seq<u8>, width: u32, height: u32, total_chunks: u16 },
    SetExitEdge { edge: Edge },
    RequestFocusReturn,
    FileTransferOffer { id: u32, name: Seq<char>, size: u64, total_chunks: u32 },
    FileTransferChunk { id: u32, chunk_index: u32, data: Seq<u8> },
    FileTransferDone { id: u32, sha256: Seq<u8> },
    FileTransferReject { id: u32, reason: Seq<char> },
}

impl View for Message {
    type V = MessageView;

    open spec fn view(&self) -> MessageView {
        match *self {
            Message::Hello { protocol_version, hostname } => MessageView::Hello {
                protocol_version,
                hostname: hostname@,
            },
            Message::AuthChallenge { nonce } => MessageView::AuthChallenge { nonce: nonce@ },
            Message::AuthResponse { mac } => MessageView::AuthResponse { mac: mac@ },
            Message::AuthOk => MessageView::AuthOk,
            Message::ScreenInfo { width, height } => MessageView::ScreenInfo { width, height },
            Message::EnterScreen { x, y } => MessageView::EnterScreen { x, y },
            Message::LeaveScreen => MessageView::LeaveScreen,
            Message::MouseMove { dx, dy } => MessageView::MouseMove { dx, dy },
            Message::MouseButton { button, pressed } => MessageView::MouseButton {
                button,
                pressed,
            },
            Message::MouseWheel { dx, dy } => MessageView::MouseWheel { dx, dy },
            Message::KeyEvent { key, pressed, modifiers } => MessageView::KeyEvent {
                key,
                pressed,
                modifiers,
            },
            Message::ClipboardOffer { hash, size, truncated, mime } => MessageView::ClipboardOffer {
                hash: hash@,
                size,
                truncated,
                mime: mime@,
            },
            Message::ClipboardRequest { hash } => MessageView::ClipboardRequest { hash: hash@ },
            Message::ClipboardData { hash, chunk_index, total_chunks, data } => MessageView::ClipboardData {
                hash: hash@,
                chunk_index,
                total_chunks,
                data: data@,
            },
            Message::Ping => MessageView::Ping,
            Message::Pong => MessageView::Pong,
            Message::ClipboardImageOffer { hash, width, height, total_chunks } => MessageView::ClipboardImageOffer {
                hash: hash@,
                width,
                height,
                total_chunks,
            },
            Message::SetExitEdge { edge } => MessageView::SetExitEdge { edge },
            Message::RequestFocusReturn => MessageView::RequestFocusReturn,
            Message::FileTransferOffer { id, name, size, total_chunks } => MessageView::FileTransferOffer {
                id,
                name: name@,
                size,
                total_chunks,
            },
            Message::FileTransferChunk { id, chunk_index, data } => MessageView::FileTransferChunk {
                id,
                chunk_index,
                data: data@,
            },
            Message::FileTransferDone { id, sha256 } => MessageView::FileTransferDone {
                id,
                sha256: sha256@,
            },
            Message::FileTransferReject { id, reason } => MessageView::FileTransferReject {
                id,
                reason: reason@,
            },
        }
    }
}

impl Clone for Message {
    /// A message that says the same.
    fn clone(&self) -> (r: Self)
        ensures
            r@ == self@,
    {
        match self {
            Message::Hello { protocol_version, hostname } => Message::Hello {
                protocol_version: *protocol_version,
                hostname: hostname.clone(),
            },
            Message::AuthChallenge { nonce } => Message::AuthChallenge { nonce: *nonce },
            Message::AuthResponse { mac } => Message::AuthResponse { mac: *mac },
            Message::AuthOk => Message::AuthOk,
            Message::ScreenInfo { width, height } => Message::ScreenInfo {
                width: *width,
                height: *height,
            },
            Message::EnterScreen { x, y } => Message::EnterScreen { x: *x, y: *y },
            Message::LeaveScreen => Message::LeaveScreen,
            Message::MouseMove { dx, dy } => Message::MouseMove { dx: *dx, dy: *dy },
            Message::MouseButton { button, pressed } => Message::MouseButton {
                button: *button,
                pressed: *pressed,
            },
            Message::MouseWheel { dx, dy } => Message::MouseWheel { dx: *dx, dy: *dy },
            Message::KeyEvent { key, pressed, modifiers } => Message::KeyEvent {
                key: *key,
                pressed: *pressed,
                modifiers: *modifiers,
            },
            Message::ClipboardOffer { hash, size, truncated, mime } => Message::ClipboardOffer {
                hash: *hash,
                size: *size,
                truncated: *truncated,
                mime: mime.clone(),
            },
            Message::ClipboardRequest { hash } => Message::ClipboardRequest { hash: *hash },
            Message::ClipboardData { hash, chunk_index, total_chunks, data } => Message::ClipboardData {
                hash: *hash,
                chunk_index: *chunk_index,
                total_chunks: *total_chunks,
                data: data.clone(),
            },
            Message::Ping => Message::Ping,
            Message::Pong => Message::Pong,
            Message::ClipboardImageOffer { hash, width, height, total_chunks } => Message::ClipboardImageOffer {
                hash: *hash,
                width: *width,
                height: *height,
                total_chunks: *total_chunks,
            },
            Message::SetExitEdge { edge } => Message::SetExitEdge { edge: *edge },
            Message::RequestFocusReturn => Message::RequestFocusReturn,
            Message::FileTransferOffer { id, name, size, total_chunks } => Message::FileTransferOffer {
                id: *id,
                name: name.clone(),
                size: *size,
                total_chunks: *total_chunks,
            },
            Message::FileTransferChunk { id, chunk_index, data } => Message::FileTransferChunk {
                id: *id,
                chunk_index: *chunk_index,
                data: data.clone(),
            },
            Message::FileTransferDone { id, sha256 } => Message::FileTransferDone {
                id: *id,
                sha256: *sha256,
            },
            Message::FileTransferReject { id, reason } => Message::FileTransferReject {
                id: *id,
                reason: reason.clone(),
            },
        }
    }
}

/// What several messages say.
pub open spec fn message_views(ms: Seq<Message>) -> Seq<MessageView> {
    ms.map_values(|m: Message| m@)
}

/// The number of variants of [`Message`].
pub open spec fn message_count() -> nat {
    23
}

/// The kinds of the fields of variant `tag`.
pub open spec fn message_kinds(tag: nat) -> Seq<Kind> {
    if tag == 0 {
        seq![Kind::U16, Kind::Text]
    } else if tag == 1 {
        seq![Kind::Bytes32]
    } else if tag == 2 {
        seq![Kind::Bytes32]
    } else if tag == 3 {
        Seq::empty()
    } else if tag == 4 {
        seq![Kind::U32, Kind::U32]
    } else if tag == 5 {
        seq![Kind::I32, Kind::I32]
    } else if tag == 6 {
        Seq::empty()
    } else if tag == 7 {
        seq![Kind::I32, Kind::I32]
    } else if tag == 8 {
        seq![Kind::Variant(5), Kind::Flag]
    } else if tag == 9 {
        seq![Kind::I16, Kind::I16]
    } else if tag == 10 {
        seq![Kind::U16, Kind::Flag, Kind::Flag, Kind::Flag, Kind::Flag, Kind::Flag]
    } else if tag == 11 {
        seq![Kind::Bytes32, Kind::U32, Kind::Flag, Kind::Text]
    } else if tag == 12 {
        seq![Kind::Bytes32]
    } else if tag == 13 {
        seq![Kind::Bytes32, Kind::U16, Kind::U16, Kind::Bytes]
    } else if tag == 14 {
        Seq::empty()
    } else if tag == 15 {
        Seq::empty()
    } else if tag == 16 {
        seq![Kind::Bytes32, Kind::U32, Kind::U32, Kind::U16]
    } else if tag == 17 {
        seq![Kind::Variant(4)]
    } else if tag == 18 {
        Seq::empty()
    } else if tag == 19 {
        seq![Kind::U32, Kind::Text, Kind::U64, Kind::U32]
    } else if tag == 20 {
        seq![Kind::U32, Kind::U32, Kind::Bytes]
    } else if tag == 21 {
        seq![Kind::U32, Kind::Bytes32]
    } else if tag == 22 {
        seq![Kind::U32, Kind::Text]
    } else {
        Seq::empty()
    }
}

/// The message of variant `tag` with the fields `fs`.
pub open spec fn message_of(tag: nat, fs: Seq<Field>) -> MessageView {
    if tag == 0 {
        MessageView::Hello { protocol_version: fs[0]->U16_0, hostname: fs[1]->Text_0 }
    } else if tag == 1 {
        MessageView::AuthChallenge { nonce: fs[0]->Bytes32_0 }
    } else if tag == 2 {
        MessageView::AuthResponse { mac: fs[0]->Bytes32_0 }
    } else if tag == 3 {
        MessageView::AuthOk
    } else if tag == 4 {
        MessageView::ScreenInfo { width: fs[0]->U32_0, height: fs[1]->U32_0 }
    } else if tag == 5 {
        MessageView::EnterScreen { x: fs[0]->I32_0, y: fs[1]->I32_0 }
    } else if tag == 6 {
        MessageView::LeaveScreen
    } else if tag == 7 {
        MessageView::MouseMove { dx: fs[0]->I32_0, dy: fs[1]->I32_0 }
    } else if tag == 8 {
        MessageView::MouseButton {
            button: MouseButton::at(fs[0]->Variant_0),
            pressed: fs[1]->Flag_0,
        }
    } else if tag == 9 {
        MessageView::MouseWheel { dx: fs[0]->I16_0, dy: fs[1]->I16_0 }
    } else if tag == 10 {
        MessageView::KeyEvent {
            key: KeyCode(fs[0]->U16_0),
            pressed: fs[1]->Flag_0,
            modifiers: Modifiers {
                shift: fs[2]->Flag_0,
                ctrl: fs[3]->Flag_0,
                alt: fs[4]->Flag_0,
                meta: fs[5]->Flag_0,
            },
        }
    } else if tag == 11 {
        MessageView::ClipboardOffer {
            hash: fs[0]->Bytes32_0,
            size: fs[1]->U32_0,
            truncated: fs[2]->Flag_0,
            mime: fs[3]->Text_0,
        }
    } else if tag == 12 {
        MessageView::ClipboardRequest { hash: fs[0]->Bytes32_0 }
    } else if tag == 13 {
        MessageView::ClipboardData {
            hash: fs[0]->Bytes32_0,
            chunk_index: fs[1]->U16_0,
            total_chunks: fs[2]->U16_0,
            data: fs[3]->Bytes_0,
        }
    } else if tag == 14 {
        MessageView::Ping
    } else if tag == 15 {
        MessageView::Pong
    } else if tag == 16 {
        MessageView::ClipboardImageOffer {
            hash: fs[0]->Bytes32_0,
            width: fs[1]->U32_0,
            height: fs[2]->U32_0,
            total_chunks: fs[3]->U16_0,
        }
    } else if tag == 17 {
        MessageView::SetExitEdge { edge: Edge::at(fs[0]->Variant_0) }
    } else if tag == 18 {
        MessageView::RequestFocusReturn
    } else if tag == 19 {
        MessageView::FileTransferOffer {
            id: fs[0]->U32_0,
            name: fs[1]->Text_0,
            size: fs[2]->U64_0,
            total_chunks: fs[3]->U32_0,
        }
    } else if tag == 20 {
        MessageView::FileTransferChunk {
            id: fs[0]->U32_0,
            chunk_index: fs[1]->U32_0,
            data: fs[2]->Bytes_0,
        }
    } else if tag == 21 {
        MessageView::FileTransferDone { id: fs[0]->U32_0, sha256: fs[1]->Bytes32_0 }
    } else {
        MessageView::FileTransferReject { id: fs[0]->U32_0, reason: fs[1]->Text_0 }
    }
}

impl MessageView {
    /// The place of the message in the list of variants.
    pub open spec fn tag(self) -> nat {
        match self {
            MessageView::Hello { .. } => 0,
            MessageView::AuthChallenge { .. } => 1,
            MessageView::AuthResponse { .. } => 2,
            MessageView::AuthOk => 3,
            MessageView::ScreenInfo { .. } => 4,
            MessageView::EnterScreen { .. } => 5,
            MessageView::LeaveScreen => 6,
            MessageView::MouseMove { .. } => 7,
            MessageView::MouseButton { .. } => 8,
            MessageView::MouseWheel { .. } => 9,
            MessageView::KeyEvent { .. } => 10,
            MessageView::ClipboardOffer { .. } => 11,
            MessageView::ClipboardRequest { .. } => 12,
            MessageView::ClipboardData { .. } => 13,
            MessageView::Ping => 14,
            MessageView::Pong => 15,
            MessageView::ClipboardImageOffer { .. } => 16,
            MessageView::SetExitEdge { .. } => 17,
            MessageView::RequestFocusReturn => 18,
            MessageView::FileTransferOffer { .. } => 19,
            MessageView::FileTransferChunk { .. } => 20,
            MessageView::FileTransferDone { .. } => 21,
            MessageView::FileTransferReject { .. } => 22,
        }
    }

    /// The fields of the message, in order.
    pub open spec fn fields(self) -> Seq<Field> {
        match self {
            MessageView::Hello { protocol_version, hostname } => seq![
                Field::U16(protocol_version),
                Field::Text(hostname),
            ],
            MessageView::AuthChallenge { nonce } => seq![Field::Bytes32(nonce)],
            MessageView::AuthResponse { mac } => seq![Field::Bytes32(mac)],
            MessageView::AuthOk => Seq::empty(),
            MessageView::ScreenInfo { width, height } => seq![
                Field::U32(width),
                Field::U32(height),
            ],
            MessageView::EnterScreen { x, y } => seq![Field::I32(x), Field::I32(y)],
            MessageView::LeaveScreen => Seq::empty(),
            MessageView::MouseMove { dx, dy } => seq![Field::I32(dx), Field::I32(dy)],
            MessageView::MouseButton { button, pressed } => seq![
                Field::Variant(button.index()),
                Field::Flag(pressed),
            ],
            MessageView::MouseWheel { dx, dy } => seq![Field::I16(dx), Field::I16(dy)],
            MessageView::KeyEvent { key, pressed, modifiers } => seq![
                Field::U16(key.0),
                Field::Flag(pressed),
                Field::Flag(modifiers.shift),
                Field::Flag(modifiers.ctrl),
                Field::Flag(modifiers.alt),
                Field::Flag(modifiers.meta),
            ],
            MessageView::ClipboardOffer { hash, size, truncated, mime } => seq![
                Field::Bytes32(hash),
                Field::U32(size),
                Field::Flag(truncated),
                Field::Text(mime),
            ],
            MessageView::ClipboardRequest { hash } => seq![Field::Bytes32(hash)],
            MessageView::ClipboardData { hash, chunk_index, total_chunks, data } => seq![
                Field::Bytes32(hash),
                Field::U16(chunk_index),
                Field::U16(total_chunks),
                Field::Bytes(data),
            ],
            MessageView::Ping => Seq::empty(),
            MessageView::Pong => Seq::empty(),
            MessageView::ClipboardImageOffer { hash, width, height, total_chunks } => seq![
                Field::Bytes32(hash),
                Field::U32(width),
                Field::U32(height),
                Field::U16(total_chunks),
            ],
            MessageView::SetExitEdge { edge } => seq![Field::Variant(edge.index())],
            MessageView::RequestFocusReturn => Seq::empty(),
            MessageView::FileTransferOffer { id, name, size, total_chunks } => seq![
                Field::U32(id),
                Field::Text(name),
                Field::U64(size),
                Field::U32(total_chunks),
            ],
            MessageView::FileTransferChunk { id, chunk_index, data } => seq![
                Field::U32(id),
                Field::U32(chunk_index),
                Field::Bytes(data),
            ],
            MessageView::FileTransferDone { id, sha256 } => seq![
                Field::U32(id),
                Field::Bytes32(sha256),
            ],
            MessageView::FileTransferReject { id, reason } => seq![
                Field::U32(id),
                Field::Text(reason),
            ],
        }
    }

    /// The message can be written: what must be 32 bytes long is, and no length overflows.
    pub open spec fn wf(self) -> bool {
        fit_all(self.fields(), message_kinds(self.tag()))
    }

    /// The bytes of the message.
    pub open spec fn encoded(self) -> Seq<u8> {
        Field::Variant(self.tag()).encoded() + encoded_all(self.fields())
    }
}

/// The message that `s` starts with, if it starts with one.
pub open spec fn parsed_message(s: Seq<u8>) -> Option<MessageView> {
    match parsed(Kind::Variant(message_count()), s) {
        Some((Field::Variant(tag), n)) => match parsed_all(message_kinds(tag), s.skip(n as int)) {
            Some((fs, _)) => Some(message_of(tag, fs)),
            None => None,
        },
        _ => None,
    }
}

/// Appends the bytes of a message.
#[verifier::rlimit(40)]
pub fn encode_message(out: &mut Vec<u8>, msg: &Message)
    ensures
        final(out)@ == old(out)@ + msg@.encoded(),
{
    let ghost tagged = out@ + Field::Variant(msg@.tag()).encoded();
    proof {
        reveal_with_fuel(appended, 7);
        lemma_appended(tagged, msg@.fields(), 0);
        assert(msg@.fields().skip(0) =~= msg@.fields());
        assert(out@ + msg@.encoded() =~= tagged + encoded_all(msg@.fields()));
    }
    match msg {
        Message::Hello { protocol_version, hostname } => {
            put_variant(out, 0);
            put_u16(out, *protocol_version);
            put_text(out, hostname.as_str());
        },
        Message::AuthChallenge { nonce } => {
            put_variant(out, 1);
            put_bytes32(out, nonce);
        },
        Message::AuthResponse { mac } => {
            put_variant(out, 2);
            put_bytes32(out, mac);
        },
        Message::AuthOk => {
            put_variant(out, 3);
        },
        Message::ScreenInfo { width, height } => {
            put_variant(out, 4);
            put_u32(out, *width);
            put_u32(out, *height);
        },
        Message::EnterScreen { x, y } => {
            put_variant(out, 5);
            put_i32(out, *x);
            put_i32(out, *y);
        },
        Message::LeaveScreen => {
            put_variant(out, 6);
        },
        Message::MouseMove { dx, dy } => {
            put_variant(out, 7);
            put_i32(out, *dx);
            put_i32(out, *dy);
        },
        Message::MouseButton { button, pressed } => {
            put_variant(out, 8);
            put_variant(out, button.to_index());
            put_flag(out, *pressed);
        },
        Message::MouseWheel { dx, dy } => {
            put_variant(out, 9);
            put_i16(out, *dx);
            put_i16(out, *dy);
        },
        Message::KeyEvent { key, pressed, modifiers } => {
            put_variant(out, 10);
            put_u16(out, key.0);
            put_flag(out, *pressed);
            put_flag(out, modifiers.shift);
            put_flag(out, modifiers.ctrl);
            put_flag(out, modifiers.alt);
            put_flag(out, modifiers.meta);
        },
        Message::ClipboardOffer { hash, size, truncated, mime } => {
            put_variant(out, 11);
            put_bytes32(out, hash);
            put_u32(out, *size);
            put_flag(out, *truncated);
            put_text(out, mime.as_str());
        },
        Message::ClipboardRequest { hash } => {
            put_variant(out, 12);
            put_bytes32(out, hash);
        },
        Message::ClipboardData { hash, chunk_index, total_chunks, data } => {
            put_variant(out, 13);
            put_bytes32(out, hash);
            put_u16(out, *chunk_index);
            put_u16(out, *total_chunks);
            put_bytes(out, data.as_slice());
        },
        Message::Ping => {
            put_variant(out, 14);
        },
        Message::Pong => {
            put_variant(out, 15);
        },
        Message::ClipboardImageOffer { hash, width, height, total_chunks } => {
            put_variant(out, 16);
            put_bytes32(out, hash);
            put_u32(out, *width);
            put_u32(out, *height);
            put_u16(out, *total_chunks);
        },
        Message::SetExitEdge { edge } => {
            put_variant(out, 17);
            put_variant(out, edge.to_index());
        },
        Message::RequestFocusReturn => {
            put_variant(out, 18);
        },
        Message::FileTransferOffer { id, name, size, total_chunks } => {
            put_variant(out, 19);
            put_u32(out, *id);
            put_text(out, name.as_str());
            put_u64(out, *size);
            put_u32(out, *total_chunks);
        },
        Message::FileTransferChunk { id, chunk_index, data } => {
            put_variant(out, 20);
            put_u32(out, *id);
            put_u32(out, *chunk_index);
            put_bytes(out, data.as_slice());
        },
        Message::FileTransferDone { id, sha256 } => {
            put_variant(out, 21);
            put_u32(out, *id);
            put_bytes32(out, sha256);
        },
        Message::FileTransferReject { id, reason } => {
            put_variant(out, 22);
            put_u32(out, *id);
            put_text(out, reason.as_str());
        },
    }
}

/// The message that `bytes` starts with; bytes behind it are passed over.
#[verifier::rlimit(40)]
pub fn decode_message(bytes: &[u8]) -> (r: Option<Message>)
    ensures
        match r {
            Some(m) => parsed_message(bytes@) == Some(m@),
            None => parsed_message(bytes@) is None,
        },
{
    let mut c = Cursor::new(bytes);
    let tag = c.variant(23)?;
    proof {
        lemma_encoded_of_parsed(Kind::Variant(message_count()), bytes@);
        reveal_with_fuel(scanned, 7);
        lemma_scanned(message_kinds(tag as nat), Seq::empty(), c.rest());
        assert(message_kinds(tag as nat).skip(0) =~= message_kinds(tag as nat));
    }
    if tag == 0 {
        let protocol_version = c.u16()?;
        let hostname = c.text()?;
        Some(Message::Hello { protocol_version, hostname })
    } else if tag == 1 {
        let nonce = c.bytes32()?;
        Some(Message::AuthChallenge { nonce })
    } else if tag == 2 {
        let mac = c.bytes32()?;
        Some(Message::AuthResponse { mac })
    } else if tag == 3 {
        Some(Message::AuthOk)
    } else if tag == 4 {
        let width = c.u32()?;
        let height = c.u32()?;
        Some(Message::ScreenInfo { width, height })
    } else if tag == 5 {
        let x = c.i32()?;
        let y = c.i32()?;
        Some(Message::EnterScreen { x, y })
    } else if tag == 6 {
        Some(Message::LeaveScreen)
    } else if tag == 7 {
        let dx = c.i32()?;
        let dy = c.i32()?;
        Some(Message::MouseMove { dx, dy })
    } else if tag == 8 {
        let button = MouseButton::from_index(c.variant(5)?);
        let pressed = c.flag()?;
        Some(Message::MouseButton { button, pressed })
    } else if tag == 9 {
        let dx = c.i16()?;
        let dy = c.i16()?;
        Some(Message::MouseWheel { dx, dy })
    } else if tag == 10 {
        let key = KeyCode(c.u16()?);
        let pressed = c.flag()?;
        let shift = c.flag()?;
        let ctrl = c.flag()?;
        let alt = c.flag()?;
        let meta = c.flag()?;
        let modifiers = Modifiers { shift, ctrl, alt, meta };
        Some(Message::KeyEvent { key, pressed, modifiers })
    } else if tag == 11 {
        let hash = c.bytes32()?;
        let size = c.u32()?;
        let truncated = c.flag()?;
        let mime = c.text()?;
        Some(Message::ClipboardOffer { hash, size, truncated, mime })
    } else if tag == 12 {
        let hash = c.bytes32()?;
        Some(Message::ClipboardRequest { hash })
    } else if tag == 13 {
        let hash = c.bytes32()?;
        let chunk_index = c.u16()?;
        let total_chunks = c.u16()?;
        let data = c.bytes()?;
        Some(Message::ClipboardData { hash, chunk_index, total_chunks, data })
    } else if tag == 14 {
        Some(Message::Ping)
    } else if tag == 15 {
        Some(Message::Pong)
    } else if tag == 16 {
        let hash = c.bytes32()?;
        let width = c.u32()?;
        let height = c.u32()?;
        let total_chunks = c.u16()?;
        Some(Message::ClipboardImageOffer { hash, width, height, total_chunks })
    } else if tag == 17 {
        let edge = Edge::from_index(c.variant(4)?);
        Some(Message::SetExitEdge { edge })
    } else if tag == 18 {
        Some(Message::RequestFocusReturn)
    } else if tag == 19 {
        let id = c.u32()?;
        let name = c.text()?;
        let size = c.u64()?;
        let total_chunks = c.u32()?;
        Some(Message::FileTransferOffer { id, name, size, total_chunks })
    } else if tag == 20 {
        let id = c.u32()?;
        let chunk_index = c.u32()?;
        let data = c.bytes()?;
        Some(Message::FileTransferChunk { id, chunk_index, data })
    } else if tag == 21 {
        let id = c.u32()?;
        let sha256 = c.bytes32()?;
        Some(Message::FileTransferDone { id, sha256 })
    } else if tag == 22 {
        let id = c.u32()?;
        let reason = c.text()?;
        Some(Message::FileTransferReject { id, reason })
    } else {
        None
    }
}

/// Why a frame could not be written or read.
#[derive(Debug, Clone, Copy, PartialEq, Eq, Structural)]
pub enum ProtoError {
    /// The stream ended inside a payload, or failed.
    Io,
    /// The payload holds no message.
    Decode,
    /// The payload is, or would be, longer than [`MAX_FRAME_BYTES`].
    FrameTooLarge(usize),
    /// The stream ended before the length of a frame was complete.
    PeerClosed,
}

/// What a stream holds where a frame is expected.
pub enum FrameView {
    /// The four bytes of the length are not all there.
    Closed,
    /// A length that is not accepted.
    TooLarge(nat),
    /// The payload is not all there.
    Short,
    /// A whole frame.
    Whole(Seq<u8>),
}

/// What `s` starts with, for payloads of at most `max` bytes.
pub open spec fn framed(s: Seq<u8>, max: nat) -> FrameView {
    if s.len() < 4 {
        FrameView::Closed
    } else {
        let len = be32_value(s.take(4));
        if len > max {
            FrameView::TooLarge(len)
        } else if s.len() - 4 < len {
            FrameView::Short
        } else {
            FrameView::Whole(s.subrange(4, 4 + len as int))
        }
    }
}

/// The bytes of the frame around `payload`.
pub open spec fn frame(payload: Seq<u8>) -> Seq<u8> {
    be32_bytes(payload.len()) + payload
}

/// No payload is longer than what is accepted, whatever the stream holds, and none is taken from a
/// stream that does not hold all of it.
pub proof fn payloads_are_bounded(s: Seq<u8>, max: nat)
    ensures
        framed(s, max) matches FrameView::Whole(p) ==> p.len() <= max && p.len() + 4 <= s.len(),
        framed(s, max) matches FrameView::TooLarge(n) ==> n > max,
{
}

/// Writes a message as one frame behind what is in `w`. A message whose payload is too long is
/// refused, and nothing is written.
pub fn write_message(w: &mut Vec<u8>, msg: &Message) -> (r: Result<(), ProtoError>)
    ensures
        msg@.encoded().len() <= MAX_FRAME_BYTES ==> r is Ok && final(w)@ == old(w)@ + frame(
            msg@.encoded(),
        ),
        msg@.encoded().len() > MAX_FRAME_BYTES ==> r == Err::<(), _>(
            ProtoError::FrameTooLarge(msg@.encoded().len() as usize),
        ) && final(w)@ == old(w)@,
{
    let mut payload: Vec<u8> = Vec::new();
    encode_message(&mut payload, msg);
    assert(payload@ =~= msg@.encoded());
    if payload.len() > MAX_FRAME_BYTES {
        return Err(ProtoError::FrameTooLarge(payload.len()));
    }
    let len = u32_to_be(payload.len() as u32);
    append_bytes(w, len.as_slice());
    append_bytes(w, payload.as_slice());
    assert(w@ =~= old(w)@ + frame(msg@.encoded()));
    Ok(())
}

/// The length of the payload that `header` announces, where it is accepted.
pub fn frame_len(header: &[u8; 4]) -> (r: Result<usize, ProtoError>)
    ensures
        r == if be32_value(header@) > MAX_FRAME_BYTES {
            Err(ProtoError::FrameTooLarge(be32_value(header@) as usize))
        } else {
            Ok(be32_value(header@) as usize)
        },
{
    let len: usize = u32_from_be(header) as usize;
    if len > MAX_FRAME_BYTES {
        return Err(ProtoError::FrameTooLarge(len));
    }
    Ok(len)
}

/// Reads one message off the front of `input`: the message, and the number of bytes that its
/// frame takes.
pub fn read_message(input: &[u8]) -> (r: Result<(Message, usize), ProtoError>)
    ensures
        match framed(input@, MAX_FRAME_BYTES as nat) {
            FrameView::Closed => r == Err::<(Message, usize), _>(ProtoError::PeerClosed),
            FrameView::TooLarge(n) => r == Err::<(Message, usize), _>(
                ProtoError::FrameTooLarge(n as usize),
            ),
            FrameView::Short => r == Err::<(Message, usize), _>(ProtoError::Io),
            FrameView::Whole(payload) => match parsed_message(payload) {
                Some(m) => r is Ok && r->Ok_0.0@ == m && r->Ok_0.1 == 4 + payload.len(),
                None => r == Err::<(Message, usize), _>(ProtoError::Decode),
            },
        },
{
    if input.len() < 4 {
        return Err(ProtoError::PeerClosed);
    }
    let header = [input[0], input[1], input[2], input[3]];
    assert(header@ =~= input@.take(4));
    let len = match frame_len(&header) {
        Ok(n) => n,
        Err(e) => {
            return Err(e);
        },
    };
    if input.len() - 4 < len {
        return Err(ProtoError::Io);
    }
    let payload = vstd::slice::slice_subrange(input, 4, 4 + len);
    match decode_message(payload) {
        Some(m) => Ok((m, 4 + len)),
        None => Err(ProtoError::Decode),
    }
}

/// A message whose bytes can be counted is well formed.
pub proof fn lemma_message_wf(m: Message)
    requires
        m@.encoded().len() <= u64::MAX,
    ensures
        m@.wf(),
{
    broadcast use lemma_le_bytes_len;

    let fs = m@.fields();
    let ks = message_kinds(m@.tag());
    assert forall|i: int| 0 <= i < fs.len() implies (#[trigger] fs[i]).fits(ks[i]) by {
        lemma_encoded_all_len(fs, i);
        reveal(Field::encoded);
    }
}

/// A message is read back from its bytes, whatever follows them.
pub proof fn decode_undoes_encode(m: MessageView, rest: Seq<u8>)
    requires
        m.wf(),
    ensures
        parsed_message(m.encoded() + rest) == Some(m),
{
    let tag = Field::Variant(m.tag());
    let tail = encoded_all(m.fields()) + rest;
    assert(m.encoded() + rest =~= tag.encoded() + tail);
    lemma_parsed_of_encoded(tag, Kind::Variant(message_count()), tail);
    assert((tag.encoded() + tail).skip(tag.encoded().len() as int) =~= tail);
    lemma_parsed_all_of_encoded(m.fields(), message_kinds(m.tag()), rest);
}

/// What a read gives back is what a write wrote: a stream that starts with the frame of a message
/// holds that message, and what follows the frame is left alone.
pub proof fn read_undoes_write(m: Message, rest: Seq<u8>)
    requires
        m@.encoded().len() <= MAX_FRAME_BYTES,
    ensures
        framed(frame(m@.encoded()) + rest, MAX_FRAME_BYTES as nat) == FrameView::Whole(
            m@.encoded(),
        ),
        parsed_message(m@.encoded()) == Some(m@),
        (frame(m@.encoded()) + rest).skip(4 + m@.encoded().len() as int) == rest,
{
    let payload = m@.encoded();
    let s = frame(payload) + rest;
    lemma_be32_round_trip(payload.len());
    assert(s.take(4) =~= be32_bytes(payload.len()));
    assert(s.subrange(4, 4 + payload.len() as int) =~= payload);
    assert(s.skip(4 + payload.len() as int) =~= rest);
    lemma_message_wf(m);
    decode_undoes_encode(m@, Seq::empty());
    assert(payload + Seq::<u8>::empty() =~= payload);
}

/// A payload that was taken for a message is long enough to be one: it starts with the message's
/// own bytes.
pub proof fn encode_undoes_decode(s: Seq<u8>)
    ensures
        parsed_message(s) matches Some(m) ==> m.wf() && m.encoded().len() <= s.len() && s.take(
            m.encoded().len() as int,
        ) == m.encoded(),
{
    if let Some(m) = parsed_message(s) {
        let k = Kind::Variant(message_count());
        lemma_encoded_of_parsed(k, s);
        let (f, n) = parsed(k, s).unwrap();
        let tag = f->Variant_0;
        let ks = message_kinds(tag);
        lemma_encoded_of_parsed_all(ks, s.skip(n as int));
        let (fs, len) = parsed_all(ks, s.skip(n as int)).unwrap();
        lemma_fields_of_message(tag, fs);
        assert(s.take(n as int) + s.skip(n as int).take(len as int) =~= s.take((n + len) as int));
    }
}

/// The fields of a message are those that it was made of.
#[verifier::rlimit(40)]
proof fn lemma_fields_of_message(tag: nat, fs: Seq<Field>)
    requires
        tag < message_count(),
        fit_all(fs, message_kinds(tag)),
    ensures
        message_of(tag, fs).tag() == tag,
        message_of(tag, fs).fields() == fs,
{
    let m = message_of(tag, fs);
    assert forall|i: int| 0 <= i < fs.len() implies m.fields()[i] == fs[i] by {
        assert(fs[i].fits(message_kinds(tag)[i]));
    }
    assert(m.fields() =~= fs);
}

/// Opposite edges are parallel.
pub proof fn opposite_edges_are_parallel(e: Edge)
    ensures
        e is Left || e is Right <==> e.across() is Left || e.across() is Right,
        e is Top || e is Bottom <==> e.across() is Top || e.across() is Bottom,
{
}

/// The buttons and the edges are numbered in the order in which they are listed.
pub proof fn variants_are_numbered(b: MouseButton, e: Edge)
    ensures
        b == seq![
            MouseButton::Left,
            MouseButton::Right,
            MouseButton::Middle,
            MouseButton::Back,
            MouseButton::Forward,
        ][b.index() as int],
        e == seq![Edge::Left, Edge::Right, Edge::Top, Edge::Bottom][e.index() as int],
        b.index() < 5,
        e.index() < 4,
        MouseButton::at(b.index()) == b,
        Edge::at(e.index()) == e,
{
}

/// The bytes of a message: the number of its kind in four bytes, and its fields one after the other,
/// in the order in which they are listed.
#[verifier::rlimit(60)]
pub proof fn messages_are_spelled_out(m: MessageView)
    ensures
        m.encoded() == match m {
            MessageView::Hello { protocol_version, hostname } => Field::U32(0).encoded()
                + Field::U16(protocol_version).encoded() + Field::Text(hostname).encoded(),
            MessageView::AuthChallenge { nonce } => Field::U32(1).encoded() + nonce,
            MessageView::AuthResponse { mac } => Field::U32(2).encoded() + mac,
            MessageView::AuthOk => Field::U32(3).encoded(),
            MessageView::ScreenInfo { width, height } => Field::U32(4).encoded() + Field::U32(
                width,
            ).encoded() + Field::U32(height).encoded(),
            MessageView::EnterScreen { x, y } => Field::U32(5).encoded() + Field::I32(x).encoded()
                + Field::I32(y).encoded(),
            MessageView::LeaveScreen => Field::U32(6).encoded(),
            MessageView::MouseMove { dx, dy } => Field::U32(7).encoded() + Field::I32(dx).encoded()
                + Field::I32(dy).encoded(),
            MessageView::MouseButton { button, pressed } => Field::U32(8).encoded() + Field::U32(
                button.index() as u32,
            ).encoded() + Field::Flag(pressed).encoded(),
            MessageView::MouseWheel { dx, dy } => Field::U32(9).encoded() + Field::I16(
                dx,
            ).encoded() + Field::I16(dy).encoded(),
            MessageView::KeyEvent { key, pressed, modifiers } => Field::U32(10).encoded()
                + Field::U16(key.0).encoded() + Field::Flag(pressed).encoded() + Field::Flag(
                modifiers.shift,
            ).encoded() + Field::Flag(modifiers.ctrl).encoded() + Field::Flag(
                modifiers.alt,
            ).encoded() + Field::Flag(modifiers.meta).encoded(),
            MessageView::ClipboardOffer { hash, size, truncated, mime } => Field::U32(11).encoded()
                + hash + Field::U32(size).encoded() + Field::Flag(truncated).encoded()
                + Field::Text(mime).encoded(),
            MessageView::ClipboardRequest { hash } => Field::U32(12).encoded() + hash,
            MessageView::ClipboardData { hash, chunk_index, total_chunks, data } => Field::U32(
                13,
            ).encoded() + hash + Field::U16(chunk_index).encoded() + Field::U16(
                total_chunks,
            ).encoded() + Field::Bytes(data).encoded(),
            MessageView::Ping => Field::U32(14).encoded(),
            MessageView::Pong => Field::U32(15).encoded(),
            MessageView::ClipboardImageOffer { hash, width, height, total_chunks } => Field::U32(
                16,
            ).encoded() + hash + Field::U32(width).encoded() + Field::U32(height).encoded()
                + Field::U16(total_chunks).encoded(),
            MessageView::SetExitEdge { edge } => Field::U32(17).encoded() + Field::U32(
                edge.index() as u32,
            ).encoded(),
            MessageView::RequestFocusReturn => Field::U32(18).encoded(),
            MessageView::FileTransferOffer { id, name, size, total_chunks } => Field::U32(
                19,
            ).encoded() + Field::U32(id).encoded() + Field::Text(name).encoded() + Field::U64(
                size,
            ).encoded() + Field::U32(total_chunks).encoded(),
            MessageView::FileTransferChunk { id, chunk_index, data } => Field::U32(20).encoded()
                + Field::U32(id).encoded() + Field::U32(chunk_index).encoded() + Field::Bytes(
                data,
            ).encoded(),
            MessageView::FileTransferDone { id, sha256 } => Field::U32(21).encoded() + Field::U32(
                id,
            ).encoded() + sha256,
            MessageView::FileTransferReject { id, reason } => Field::U32(22).encoded()
                + Field::U32(id).encoded() + Field::Text(reason).encoded(),
        },
{
    reveal_with_fuel(encoded_all, 7);
    let fs = m.fields();
    lemma_as_number(m.tag());
    match m {
        MessageView::AuthChallenge { nonce } => lemma_as_written(nonce),
        MessageView::AuthResponse { mac } => lemma_as_written(mac),
        MessageView::MouseButton { button, .. } => lemma_as_number(button.index()),
        MessageView::ClipboardOffer { hash, .. } => lemma_as_written(hash),
        MessageView::ClipboardRequest { hash } => lemma_as_written(hash),
        MessageView::ClipboardData { hash, .. } => lemma_as_written(hash),
        MessageView::ClipboardImageOffer { hash, .. } => lemma_as_written(hash),
        MessageView::SetExitEdge { edge } => lemma_as_number(edge.index()),
        MessageView::FileTransferDone { sha256, .. } => lemma_as_written(sha256),
        _ => {},
    }
    lemma_laid_out(fs);
    assert(Field::U32(m.tag() as u32).encoded() + Seq::<u8>::empty() =~= Field::U32(
        m.tag() as u32,
    ).encoded());
}

/// The number of a variant is written as a number.
proof fn lemma_as_number(n: nat)
    requires
        n <= u32::MAX,
    ensures
        Field::Variant(n).encoded() == Field::U32(n as u32).encoded(),
{
    reveal(Field::encoded);
}

/// Bytes of a fixed number are written as they are.
proof fn lemma_as_written(b: Seq<u8>)
    ensures
        Field::Bytes32(b).encoded() == b,
{
    reveal(Field::encoded);
}

/// The bytes of up to six fields.
proof fn lemma_laid_out(fs: Seq<Field>)
    ensures
        fs.len() == 0 ==> encoded_all(fs) == Seq::<u8>::empty(),
        forall|h: Seq<u8>|
            fs.len() == 1 ==> #[trigger] (h + encoded_all(fs)) == h + fs[0].encoded(),
        forall|h: Seq<u8>|
            fs.len() == 2 ==> #[trigger] (h + encoded_all(fs)) == h + fs[0].encoded()
                + fs[1].encoded(),
        forall|h: Seq<u8>|
            fs.len() == 3 ==> #[trigger] (h + encoded_all(fs)) == h + fs[0].encoded()
                + fs[1].encoded() + fs[2].encoded(),
        forall|h: Seq<u8>|
            fs.len() == 4 ==> #[trigger] (h + encoded_all(fs)) == h + fs[0].encoded()
                + fs[1].encoded() + fs[2].encoded() + fs[3].encoded(),
        forall|h: Seq<u8>|
            fs.len() == 6 ==> #[trigger] (h + encoded_all(fs)) == h + fs[0].encoded()
                + fs[1].encoded() + fs[2].encoded() + fs[3].encoded() + fs[4].encoded()
                + fs[5].encoded(),
{
    reveal_with_fuel(encoded_all, 7);
    assert forall|h: Seq<u8>| fs.len() == 1 implies #[trigger] (h + encoded_all(fs)) == h
        + fs[0].encoded() by {
        assert(h + encoded_all(fs) =~= h + fs[0].encoded());
    }
    assert forall|h: Seq<u8>| fs.len() == 2 implies #[trigger] (h + encoded_all(fs)) == h
        + fs[0].encoded() + fs[1].encoded() by {
        assert(h + encoded_all(fs) =~= h + fs[0].encoded() + fs[1].encoded());
    }
    assert forall|h: Seq<u8>| fs.len() == 3 implies #[trigger] (h + encoded_all(fs)) == h
        + fs[0].encoded() + fs[1].encoded() + fs[2].encoded() by {
        assert(h + encoded_all(fs) =~= h + fs[0].encoded() + fs[1].encoded() + fs[2].encoded());
    }
    assert forall|h: Seq<u8>| fs.len() == 4 implies #[trigger] (h + encoded_all(fs)) == h
        + fs[0].encoded() + fs[1].encoded() + fs[2].encoded() + fs[3].encoded() by {
        assert(h + encoded_all(fs) =~= h + fs[0].encoded() + fs[1].encoded() + fs[2].encoded()
            + fs[3].encoded());
    }
    assert forall|h: Seq<u8>| fs.len() == 6 implies #[trigger] (h + encoded_all(fs)) == h
        + fs[0].encoded() + fs[1].encoded() + fs[2].encoded() + fs[3].encoded() + fs[4].encoded()
        + fs[5].encoded() by {
        assert(h + encoded_all(fs) =~= h + fs[0].encoded() + fs[1].encoded() + fs[2].encoded()
            + fs[3].encoded() + fs[4].encoded() + fs[5].encoded());
    }
}

/// A frame is the length of its payload in four bytes, the most significant first, and the payload;
/// and a stream is taken for a frame if and only if the length is accepted and all of the payload is
/// there.
pub proof fn frames_are_spelled_out(s: Seq<u8>, max: nat, payload: Seq<u8>)
    requires
        payload.len() <= u32::MAX,
    ensures
        frame(payload).len() == 4 + payload.len(),
        frame(payload).skip(4) == payload,
        0x100_0000 * frame(payload)[0] + 0x1_0000 * frame(payload)[1] + 0x100 * frame(payload)[2]
            + frame(payload)[3] == payload.len(),
        framed(s, max) is Closed <==> s.len() < 4,
        s.len() >= 4 ==> {
            let len = 0x100_0000 * s[0] + 0x1_0000 * s[1] + 0x100 * s[2] + s[3];
            &&& framed(s, max) is TooLarge <==> len > max
            &&& framed(s, max) is Short <==> len <= max && s.len() < 4 + len
            &&& framed(s, max) is Whole <==> len <= max && s.len() >= 4 + len
            &&& framed(s, max) is Whole ==> framed(s, max)->Whole_0 == s.subrange(4, 4 + len)
        },
{
    lemma_be32_round_trip(payload.len());
    assert(frame(payload).skip(4) =~= payload);
    let b = be32_bytes(payload.len());
    assert(frame(payload)[0] == b[0] && frame(payload)[1] == b[1] && frame(payload)[2] == b[2]
        && frame(payload)[3] == b[3]);
}

/// A frame is accepted if its payload takes no more than sixteen megabytes, and refused if it takes
/// more.
pub proof fn long_frames_are_refused(payload: Seq<u8>, rest: Seq<u8>)
    requires
        payload.len() <= u32::MAX,
    ensures
        payload.len() <= 0x100_0000 ==> framed(frame(payload) + rest, MAX_FRAME_BYTES as nat)
            == FrameView::Whole(payload),
        payload.len() > 0x100_0000 ==> framed(frame(payload) + rest, MAX_FRAME_BYTES as nat)
            == FrameView::TooLarge(payload.len()),
{
    lemma_be32_round_trip(payload.len());
    let s = frame(payload) + rest;
    assert(s.take(4) =~= be32_bytes(payload.len()));
    assert(s.subrange(4, 4 + payload.len() as int) =~= payload);
}

} // verus!
