//! Handing files to the running server from the same machine.
//!
//! A local tool connects, shows the token that the server has written down for it, and streams one
//! file in frames. The server passes the file on, chunk by chunk, to the client that has the focus,
//! or to the first client.

use crate::bytes::{
    append_bytes, be32_bytes, be32_value, lemma_be32_round_trip, lemma_le_bytes_len, u32_from_be,
    u32_to_be,
};
use crate::protocol::{frame, framed, FrameView};
use crate::session::random_32;
use crate::wire::{
    appended, encoded_all, lemma_appended, lemma_encoded_all_len, lemma_encoded_of_parsed,
    lemma_parsed_all_of_encoded, lemma_parsed_of_encoded, lemma_scanned, parsed, parsed_all,
    put_bytes, put_bytes32, put_text, put_u32, put_u64, put_variant, scanned, Cursor, Field, Kind,
};
use vstd::prelude::*;

verus! {

/// The longest frame that is accepted.
pub const MAX_IPC_FRAME: usize = 4 * 1024 * 1024;

/// What a tool has to show: 32 random bytes.
pub type IpcToken = [u8; 32];

/// A token of which nothing is known.
pub fn random_token() -> (r: IpcToken) {
    random_32()
}

/// Where tools reach the server.
#[derive(Debug, PartialEq, Eq)]
pub struct Ipc {
    pub addr: String,
}

/// What a tool says.
#[derive(Debug, PartialEq, Eq)]
pub enum IpcRequest {
    /// The first frame.
    Hello { token: IpcToken },
    /// The file that follows.
    File { name: String, size: u64, sha256: [u8; 32] },
    /// The next bytes of the file.
    Chunk(Vec<u8>),
}

/// What an [`IpcRequest`] says.
pub enum RequestView {
    Hello { token: Seq<u8> },
    File { name: Seq<char>, size: u64, sha256: Seq<u8> },
    Chunk(Seq<u8>),
}

impl View for IpcRequest {
    type V = RequestView;

    open spec fn view(&self) -> RequestView {
        match *self {
            IpcRequest::Hello { token } => RequestView::Hello { token: token@ },
            IpcRequest::File { name, size, sha256 } => RequestView::File {
                name: name@,
                size,
                sha256: sha256@,
            },
            IpcRequest::Chunk(b) => RequestView::Chunk(b@),
        }
    }
}

/// What the server answers.
#[derive(Debug, PartialEq, Eq)]
pub enum IpcResponse {
    Accepted,
    /// The file went out; so many clients are connected.
    Done { client_count: u32 },
    Failed(String),
}

/// What an [`IpcResponse`] says.
pub enum ResponseView {
    Accepted,
    Done { client_count: u32 },
    Failed(Seq<char>),
}

impl View for IpcResponse {
    type V = ResponseView;

    open spec fn view(&self) -> ResponseView {
        match *self {
            IpcResponse::Accepted => ResponseView::Accepted,
            IpcResponse::Done { client_count } => ResponseView::Done { client_count },
            IpcResponse::Failed(e) => ResponseView::Failed(e@),
        }
    }
}

/// What several answers say.
pub open spec fn response_views(v: Seq<IpcResponse>) -> Seq<ResponseView> {
    v.map_values(|r: IpcResponse| r@)
}

impl RequestView {
    pub open spec fn tag(self) -> nat {
        match self {
            RequestView::Hello { .. } => 0,
            RequestView::File { .. } => 1,
            RequestView::Chunk(_) => 2,
        }
    }

    pub open spec fn fields(self) -> Seq<Field> {
        match self {
            RequestView::Hello { token } => seq![Field::Bytes32(token)],
            RequestView::File { name, size, sha256 } => seq![
                Field::Text(name),
                Field::U64(size),
                Field::Bytes32(sha256),
            ],
            RequestView::Chunk(b) => seq![Field::Bytes(b)],
        }
    }

    /// The bytes of the request.
    pub open spec fn encoded(self) -> Seq<u8> {
        Field::Variant(self.tag()).encoded() + encoded_all(self.fields())
    }
}

/// The kinds of the fields of a request.
pub open spec fn request_kinds(tag: nat) -> Seq<Kind> {
    if tag == 0 {
        seq![Kind::Bytes32]
    } else if tag == 1 {
        seq![Kind::Text, Kind::U64, Kind::Bytes32]
    } else {
        seq![Kind::Bytes]
    }
}

/// The request with these fields.
pub open spec fn request_of(tag: nat, fs: Seq<Field>) -> RequestView {
    if tag == 0 {
        RequestView::Hello { token: fs[0]->Bytes32_0 }
    } else if tag == 1 {
        RequestView::File {
            name: fs[0]->Text_0,
            size: fs[1]->U64_0,
            sha256: fs[2]->Bytes32_0,
        }
    } else {
        RequestView::Chunk(fs[0]->Bytes_0)
    }
}

/// The request that `s` starts with, if it starts with one.
pub open spec fn parsed_request(s: Seq<u8>) -> Option<RequestView> {
    match parsed(Kind::Variant(3), s) {
        Some((Field::Variant(tag), n)) => match parsed_all(request_kinds(tag), s.skip(n as int)) {
            Some((fs, _)) => Some(request_of(tag, fs)),
            None => None,
        },
        _ => None,
    }
}

impl ResponseView {
    pub open spec fn tag(self) -> nat {
        match self {
            ResponseView::Accepted => 0,
            ResponseView::Done { .. } => 1,
            ResponseView::Failed(_) => 2,
        }
    }

    pub open spec fn fields(self) -> Seq<Field> {
        match self {
            ResponseView::Accepted => Seq::empty(),
            ResponseView::Done { client_count } => seq![Field::U32(client_count)],
            ResponseView::Failed(e) => seq![Field::Text(e)],
        }
    }

    /// The bytes of the answer.
    pub open spec fn encoded(self) -> Seq<u8> {
        Field::Variant(self.tag()).encoded() + encoded_all(self.fields())
    }
}

/// The kinds of the fields of an answer.
pub open spec fn response_kinds(tag: nat) -> Seq<Kind> {
    if tag == 0 {
        Seq::empty()
    } else if tag == 1 {
        seq![Kind::U32]
    } else {
        seq![Kind::Text]
    }
}

/// The answer with these fields.
pub open spec fn response_of(tag: nat, fs: Seq<Field>) -> ResponseView {
    if tag == 0 {
        ResponseView::Accepted
    } else if tag == 1 {
        ResponseView::Done { client_count: fs[0]->U32_0 }
    } else {
        ResponseView::Failed(fs[0]->Text_0)
    }
}

/// The answer that `s` starts with, if it starts with one.
pub open spec fn parsed_response(s: Seq<u8>) -> Option<ResponseView> {
    match parsed(Kind::Variant(3), s) {
        Some((Field::Variant(tag), n)) => match parsed_all(response_kinds(tag), s.skip(n as int)) {
            Some((fs, _)) => Some(response_of(tag, fs)),
            None => None,
        },
        _ => None,
    }
}

/// The bytes of a request.
pub fn encode_request(req: &IpcRequest) -> (r: Vec<u8>)
    ensures
        r@ == req@.encoded(),
{
    let mut out: Vec<u8> = Vec::new();
    let ghost tagged = out@ + Field::Variant(req@.tag()).encoded();
    proof {
        reveal_with_fuel(appended, 4);
        lemma_appended(tagged, req@.fields(), 0);
        assert(req@.fields().skip(0) =~= req@.fields());
        assert(tagged =~= Field::Variant(req@.tag()).encoded());
    }
    match req {
        IpcRequest::Hello { token } => {
            put_variant(&mut out, 0);
            put_bytes32(&mut out, token);
        },
        IpcRequest::File { name, size, sha256 } => {
            put_variant(&mut out, 1);
            put_text(&mut out, name.as_str());
            put_u64(&mut out, *size);
            put_bytes32(&mut out, sha256);
        },
        IpcRequest::Chunk(b) => {
            put_variant(&mut out, 2);
            put_bytes(&mut out, b.as_slice());
        },
    }
    out
}

/// The request that `bytes` starts with.
pub fn decode_request(bytes: &[u8]) -> (r: Option<IpcRequest>)
    ensures
        match r {
            Some(m) => parsed_request(bytes@) == Some(m@),
            None => parsed_request(bytes@) is None,
        },
{
    let mut c = Cursor::new(bytes);
    let tag = c.variant(3)?;
    proof {
        lemma_encoded_of_parsed(Kind::Variant(3), bytes@);
        reveal_with_fuel(scanned, 4);
        lemma_scanned(request_kinds(tag as nat), Seq::empty(), c.rest());
        assert(request_kinds(tag as nat).skip(0) =~= request_kinds(tag as nat));
    }
    if tag == 0 {
        let token = c.bytes32()?;
        Some(IpcRequest::Hello { token })
    } else if tag == 1 {
        let name = c.text()?;
        let size = c.u64()?;
        let sha256 = c.bytes32()?;
        Some(IpcRequest::File { name, size, sha256 })
    } else {
        let b = c.bytes()?;
        Some(IpcRequest::Chunk(b))
    }
}

/// The bytes of an answer.
pub fn encode_response(resp: &IpcResponse) -> (r: Vec<u8>)
    ensures
        r@ == resp@.encoded(),
{
    let mut out: Vec<u8> = Vec::new();
    let ghost tagged = out@ + Field::Variant(resp@.tag()).encoded();
    proof {
        reveal_with_fuel(appended, 3);
        lemma_appended(tagged, resp@.fields(), 0);
        assert(resp@.fields().skip(0) =~= resp@.fields());
        assert(tagged =~= Field::Variant(resp@.tag()).encoded());
    }
    match resp {
        IpcResponse::Accepted => {
            put_variant(&mut out, 0);
        },
        IpcResponse::Done { client_count } => {
            put_variant(&mut out, 1);
            put_u32(&mut out, *client_count);
        },
        IpcResponse::Failed(e) => {
            put_variant(&mut out, 2);
            put_text(&mut out, e.as_str());
        },
    }
    out
}

/// The answer that `bytes` starts with.
pub fn decode_response(bytes: &[u8]) -> (r: Option<IpcResponse>)
    ensures
        match r {
            Some(m) => parsed_response(bytes@) == Some(m@),
            None => parsed_response(bytes@) is None,
        },
{
    let mut c = Cursor::new(bytes);
    let tag = c.variant(3)?;
    proof {
        lemma_encoded_of_parsed(Kind::Variant(3), bytes@);
        reveal_with_fuel(scanned, 3);
        lemma_scanned(response_kinds(tag as nat), Seq::empty(), c.rest());
        assert(response_kinds(tag as nat).skip(0) =~= response_kinds(tag as nat));
    }
    if tag == 0 {
        Some(IpcResponse::Accepted)
    } else if tag == 1 {
        let client_count = c.u32()?;
        Some(IpcResponse::Done { client_count })
    } else {
        let e = c.text()?;
        Some(IpcResponse::Failed(e))
    }
}

/// Why a frame could not be written or read.
#[derive(Debug, Clone, Copy, PartialEq, Eq, Structural)]
pub enum IpcError {
    /// The stream ended inside a frame, or failed.
    Io,
    /// The frame is longer than [`MAX_IPC_FRAME`].
    TooLarge,
    /// The frame holds something else than what was expected.
    Decode,
}

/// Writes one frame behind what is in `w`. A body that is too long is refused, and nothing is
/// written.
pub fn write_frame(w: &mut Vec<u8>, body: &[u8]) -> (r: Result<(), IpcError>)
    ensures
        body@.len() <= MAX_IPC_FRAME ==> r is Ok && final(w)@ == old(w)@ + frame(body@),
        body@.len() > MAX_IPC_FRAME ==> r == Err::<(), _>(IpcError::TooLarge) && final(w)@ == old(
            w,
        )@,
{
    if body.len() > MAX_IPC_FRAME {
        return Err(IpcError::TooLarge);
    }
    let len = u32_to_be(body.len() as u32);
    append_bytes(w, len.as_slice());
    append_bytes(w, body);
    assert(w@ =~= old(w)@ + frame(body@));
    Ok(())
}

/// The length of the body that `header` announces, where it is accepted.
pub fn ipc_frame_len(header: &[u8; 4]) -> (r: Result<usize, IpcError>)
    ensures
        r == if be32_value(header@) > MAX_IPC_FRAME {
            Err(IpcError::TooLarge)
        } else {
            Ok(be32_value(header@) as usize)
        },
{
    let len: usize = u32_from_be(header) as usize;
    if len > MAX_IPC_FRAME {
        return Err(IpcError::TooLarge);
    }
    Ok(len)
}

/// The body of the frame that `input` starts with.
pub fn read_frame<'a>(input: &'a [u8]) -> (r: Result<&'a [u8], IpcError>)
    ensures
        match framed(input@, MAX_IPC_FRAME as nat) {
            FrameView::Closed => r == Err::<&'a [u8], _>(IpcError::Io),
            FrameView::TooLarge(_) => r == Err::<&'a [u8], _>(IpcError::TooLarge),
            FrameView::Short => r == Err::<&'a [u8], _>(IpcError::Io),
            FrameView::Whole(body) => r is Ok && r->Ok_0@ == body,
        },
{
    if input.len() < 4 {
        return Err(IpcError::Io);
    }
    let header = [input[0], input[1], input[2], input[3]];
    assert(header@ =~= input@.take(4));
    let len = match ipc_frame_len(&header) {
        Ok(n) => n,
        Err(e) => {
            return Err(e);
        },
    };
    if input.len() - 4 < len {
        return Err(IpcError::Io);
    }
    Ok(vstd::slice::slice_subrange(input, 4, 4 + len))
}

/// A frame is read back, whatever follows it.
pub proof fn ipc_read_undoes_write(body: Seq<u8>, rest: Seq<u8>)
    requires
        body.len() <= MAX_IPC_FRAME,
    ensures
        framed(frame(body) + rest, MAX_IPC_FRAME as nat) == FrameView::Whole(body),
{
    let s = frame(body) + rest;
    lemma_be32_round_trip(body.len());
    assert(s.take(4) =~= be32_bytes(body.len()));
    assert(s.subrange(4, 4 + body.len() as int) =~= body);
}

/// A request is read back from its bytes.
pub proof fn request_round_trip(req: IpcRequest)
    requires
        req@.encoded().len() <= MAX_IPC_FRAME,
    ensures
        parsed_request(req@.encoded()) == Some(req@),
{
    broadcast use lemma_le_bytes_len;

    let m = req@;
    let fs = m.fields();
    let ks = request_kinds(m.tag());
    assert forall|i: int| 0 <= i < fs.len() implies (#[trigger] fs[i]).fits(ks[i]) by {
        lemma_encoded_all_len(fs, i);
        reveal(Field::encoded);
    }
    let tag = Field::Variant(m.tag());
    let tail = encoded_all(fs) + Seq::<u8>::empty();
    assert(m.encoded() =~= tag.encoded() + tail);
    lemma_parsed_of_encoded(tag, Kind::Variant(3), tail);
    assert((tag.encoded() + tail).skip(tag.encoded().len() as int) =~= tail);
    lemma_parsed_all_of_encoded(fs, ks, Seq::empty());
}

/// An answer is read back from its bytes.
pub proof fn response_round_trip(resp: IpcResponse)
    requires
        resp@.encoded().len() <= MAX_IPC_FRAME,
    ensures
        parsed_response(resp@.encoded()) == Some(resp@),
{
    broadcast use lemma_le_bytes_len;

    let m = resp@;
    let fs = m.fields();
    let ks = response_kinds(m.tag());
    assert forall|i: int| 0 <= i < fs.len() implies (#[trigger] fs[i]).fits(ks[i]) by {
        lemma_encoded_all_len(fs, i);
        reveal(Field::encoded);
    }
    let tag = Field::Variant(m.tag());
    let tail = encoded_all(fs) + Seq::<u8>::empty();
    assert(m.encoded() =~= tag.encoded() + tail);
    lemma_parsed_of_encoded(tag, Kind::Variant(3), tail);
    assert((tag.encoded() + tail).skip(tag.encoded().len() as int) =~= tail);
    lemma_parsed_all_of_encoded(fs, ks, Seq::empty());
}

/// The bytes of a request: the number of its kind in four bytes, and its fields one after the other.
pub proof fn requests_are_spelled_out(q: RequestView)
    ensures
        q.encoded() == match q {
            RequestView::Hello { token } => Field::U32(0).encoded() + token,
            RequestView::File { name, size, sha256 } => Field::U32(1).encoded() + Field::Text(
                name,
            ).encoded() + Field::U64(size).encoded() + sha256,
            RequestView::Chunk(b) => Field::U32(2).encoded() + Field::Bytes(b).encoded(),
        },
{
    reveal_with_fuel(encoded_all, 4);
    lemma_small_number(q.tag());
    match q {
        RequestView::Hello { token } => {
            lemma_as_they_are(token);
            assert(q.encoded() =~= Field::U32(0).encoded() + token);
        },
        RequestView::File { name, size, sha256 } => {
            lemma_as_they_are(sha256);
            assert(q.encoded() =~= Field::U32(1).encoded() + Field::Text(name).encoded()
                + Field::U64(size).encoded() + sha256);
        },
        RequestView::Chunk(b) => {
            assert(q.encoded() =~= Field::U32(2).encoded() + Field::Bytes(b).encoded());
        },
    }
}

/// The bytes of an answer: the number of its kind in four bytes, and its field.
pub proof fn responses_are_spelled_out(r: ResponseView)
    ensures
        r.encoded() == match r {
            ResponseView::Accepted => Field::U32(0).encoded(),
            ResponseView::Done { client_count } => Field::U32(1).encoded() + Field::U32(
                client_count,
            ).encoded(),
            ResponseView::Failed(e) => Field::U32(2).encoded() + Field::Text(e).encoded(),
        },
{
    reveal_with_fuel(encoded_all, 2);
    lemma_small_number(r.tag());
    match r {
        ResponseView::Accepted => {
            assert(r.encoded() =~= Field::U32(0).encoded());
        },
        ResponseView::Done { client_count } => {
            assert(r.encoded() =~= Field::U32(1).encoded() + Field::U32(client_count).encoded());
        },
        ResponseView::Failed(e) => {
            assert(r.encoded() =~= Field::U32(2).encoded() + Field::Text(e).encoded());
        },
    }
}

/// The number of a kind is written as a number.
proof fn lemma_small_number(n: nat)
    requires
        n <= 2,
    ensures
        Field::Variant(n).encoded() == Field::U32(n as u32).encoded(),
{
    reveal(Field::encoded);
}

/// Bytes of a fixed number are written as they are.
proof fn lemma_as_they_are(b: Seq<u8>)
    ensures
        Field::Bytes32(b).encoded() == b,
{
    reveal(Field::encoded);
}

/// A body is accepted if it takes no more than four megabytes, and refused if it takes more.
pub proof fn long_bodies_are_refused(body: Seq<u8>, rest: Seq<u8>)
    requires
        body.len() <= u32::MAX,
    ensures
        body.len() <= 0x40_0000 ==> framed(frame(body) + rest, MAX_IPC_FRAME as nat)
            == FrameView::Whole(body),
        body.len() > 0x40_0000 ==> framed(frame(body) + rest, MAX_IPC_FRAME as nat)
            is TooLarge,
{
    lemma_be32_round_trip(body.len());
    let s = frame(body) + rest;
    assert(s.take(4) =~= be32_bytes(body.len()));
    assert(s.subrange(4, 4 + body.len() as int) =~= body);
}

} // verus!
