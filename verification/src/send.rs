//! The tool that hands a file to the running server.

use crate::bytes::{copy_32, copy_range};
use crate::clipboard::{lemma_piece_bounds, piece, piece_count};
use crate::digest::{
    hex_decode, hex_of, hex_value, is_hex, sha256, sha256_of, unhex, unhex_undoes_hex,
};
use crate::ipc::{IpcRequest, IpcResponse, IpcToken, RequestView, ResponseView};
use crate::protocol::{MessageView, CLIPBOARD_CHUNK_BYTES, MAX_FILE_BYTES};
use crate::state::StateView;
use crate::text::{cat, is_white, owned, trim, trimmed, trimmed_start};
use crate::transfer::{
    announced_file_is_accepted, chunks_passed, file_arrives, helper_step, passed_on,
    pieces_are_chunks, put_together, target_of, HelperView, Next, StageView,
};
use vstd::prelude::*;

verus! {

/// The length of a chunk of a file.
pub const CHUNK: usize = 32 * 1024;

/// What is wrong with a token.
#[derive(Debug, Clone, Copy, PartialEq, Eq, Structural)]
pub enum TokenError {
    NotHex,
    WrongLength,
}

impl TokenError {
    pub open spec fn words(self) -> Seq<char> {
        match self {
            TokenError::NotHex => "ipc_token must be hex"@,
            TokenError::WrongLength => "ipc_token must be 32 bytes (64 hex chars)"@,
        }
    }

    /// The error in words.
    pub fn text(self) -> (r: &'static str)
        ensures
            r@ == self.words(),
    {
        match self {
            TokenError::NotHex => "ipc_token must be hex",
            TokenError::WrongLength => "ipc_token must be 32 bytes (64 hex chars)",
        }
    }
}

/// The token that a text stands for: 64 hexadecimal digits, with white space around them or not.
pub fn parse_token(hex_str: &str) -> (r: Result<IpcToken, TokenError>)
    ensures
        match r {
            Ok(t) => is_hex(trimmed(hex_str@)) && trimmed(hex_str@).len() == 64 && t@ == unhex(
                trimmed(hex_str@),
            ),
            Err(TokenError::NotHex) => !is_hex(trimmed(hex_str@)),
            Err(TokenError::WrongLength) => is_hex(trimmed(hex_str@)) && trimmed(hex_str@).len()
                != 64,
        },
{
    match hex_decode(trim(hex_str)) {
        Ok(bytes) => {
            if bytes.len() != 32 {
                return Err(TokenError::WrongLength);
            }
            let t = copy_32(bytes.as_slice(), 0);
            assert(t@ =~= bytes@);
            Ok(t)
        },
        Err(_) => Err(TokenError::NotHex),
    }
}

/// A hexadecimal digit is no white space.
proof fn lemma_digit_not_white(c: char)
    requires
        hex_value(c) is Some,
    ensures
        !is_white(c),
{
}

/// A text of digits is left as it is.
proof fn lemma_nothing_to_trim(t: Seq<char>)
    requires
        is_hex(t),
    ensures
        trimmed(t) == t,
{
    if t.len() > 0 {
        assert(hex_value(t[0]) is Some);
        assert(hex_value(t[t.len() - 1]) is Some);
        lemma_digit_not_white(t[0]);
        lemma_digit_not_white(t[t.len() - 1]);
    }
    assert(trimmed_start(t) == t);
}

/// A token is read back from the text that the server writes for it.
pub proof fn token_round_trip(token: Seq<u8>)
    requires
        token.len() == 32,
    ensures
        is_hex(trimmed(hex_of(token))),
        trimmed(hex_of(token)).len() == 64,
        unhex(trimmed(hex_of(token))) == token,
{
    unhex_undoes_hex(token);
    lemma_nothing_to_trim(hex_of(token));
}

/// The server must have accepted; otherwise the reason.
pub fn expect_ok(r: IpcResponse) -> (out: Result<(), String>)
    ensures
        match (r@, out) {
            (ResponseView::Accepted, Ok(_)) => true,
            (ResponseView::Failed(e), Err(why)) => why@ == "server: "@ + e,
            (ResponseView::Done { .. }, Err(why)) => why@ == "server: unexpected Done"@,
            _ => false,
        },
{
    match r {
        IpcResponse::Accepted => Ok(()),
        IpcResponse::Failed(e) => Err(cat("server: ", e.as_str())),
        IpcResponse::Done { .. } => Err(owned("server: unexpected Done")),
    }
}

/// The last answer: how many clients are connected, or why the file did not go out.
pub fn transfer_result(r: IpcResponse) -> (out: Result<u32, String>)
    ensures
        match (r@, out) {
            (ResponseView::Done { client_count }, Ok(n)) => n == client_count,
            (ResponseView::Failed(e), Err(why)) => why@ == "server rejected: "@ + e,
            (ResponseView::Accepted, Err(why)) => why@ == "unexpected Ok at end of transfer"@,
            _ => false,
        },
{
    match r {
        IpcResponse::Done { client_count } => Ok(client_count),
        IpcResponse::Failed(e) => Err(cat("server rejected: ", e.as_str())),
        IpcResponse::Accepted => Err(owned("unexpected Ok at end of transfer")),
    }
}

/// The request that announces a file, with its size and its hash.
pub fn file_request(name: &str, bytes: &[u8]) -> (r: IpcRequest)
    ensures
        r@ == (RequestView::File {
            name: name@,
            size: bytes@.len() as u64,
            sha256: sha256_of(bytes@),
        }),
{
    IpcRequest::File { name: owned(name), size: bytes.len() as u64, sha256: sha256(bytes) }
}

/// What several requests say.
pub open spec fn request_views(v: Seq<IpcRequest>) -> Seq<RequestView> {
    v.map_values(|r: IpcRequest| r@)
}

/// The requests that bring a file, in order.
pub open spec fn chunk_request_views(bytes: Seq<u8>) -> Seq<RequestView> {
    Seq::new(piece_count(bytes.len()), |i: int| RequestView::Chunk(piece(bytes, i)))
}

/// The requests that bring a file, in order. An empty file needs none.
pub fn chunk_requests(bytes: &[u8]) -> (r: Vec<IpcRequest>)
    ensures
        request_views(r@) == chunk_request_views(bytes@),
{
    let len: usize = bytes.len();
    let mut out: Vec<IpcRequest> = Vec::new();
    let mut from: usize = 0;
    proof {
        lemma_piece_bounds(len as nat, 0);
        assert(request_views(out@) =~= chunk_request_views(bytes@).take(0));
    }
    while from < len
        invariant
            len == bytes@.len(),
            from <= len,
            CHUNK == CLIPBOARD_CHUNK_BYTES,
            out@.len() <= piece_count(len as nat),
            from == if out@.len() < piece_count(len as nat) {
                out@.len() * CLIPBOARD_CHUNK_BYTES
            } else {
                len as int
            },
            request_views(out@) == chunk_request_views(bytes@).take(out@.len() as int),
        decreases len - from,
    {
        let to: usize = if len - from < CHUNK {
            len
        } else {
            from + CHUNK
        };
        let ghost n = out@.len() as int;
        proof {
            lemma_piece_bounds(len as nat, n);
            lemma_piece_bounds(len as nat, n + 1);
        }
        let data = copy_range(bytes, from, to);
        assert(data@ == piece(bytes@, n));
        out.push(IpcRequest::Chunk(data));
        assert(request_views(out@) =~= chunk_request_views(bytes@).take(n + 1));
        from = to;
    }
    assert(chunk_request_views(bytes@).take(out@.len() as int) =~= chunk_request_views(bytes@));
    out
}

/// How far the tool has come.
#[derive(Debug, Clone, Copy, PartialEq, Eq, Structural)]
pub enum SendStage {
    /// The token was shown.
    Greeted,
    /// The file was announced.
    Announced,
    /// The file was sent.
    Sent,
    /// There is nothing more to say.
    Ended,
}

/// The tool's side of a conversation, about one file.
#[derive(Debug, PartialEq, Eq)]
pub struct Sender {
    pub stage: SendStage,
    pub name: String,
    pub bytes: Vec<u8>,
}

/// What the tool does next.
#[derive(Debug, PartialEq, Eq)]
pub enum SendStep {
    /// It sends these requests, and reads an answer.
    Ask(Vec<IpcRequest>),
    /// The file went out; so many clients are connected.
    Finished(u32),
}

/// What a [`SendStep`] says.
pub enum SendStepView {
    Ask(Seq<RequestView>),
    Finished(u32),
}

impl View for SendStep {
    type V = SendStepView;

    open spec fn view(&self) -> SendStepView {
        match *self {
            SendStep::Ask(v) => SendStepView::Ask(request_views(v@)),
            SendStep::Finished(n) => SendStepView::Finished(n),
        }
    }
}

/// Why an answer is not the acceptance that is expected, if it is not.
pub open spec fn not_accepted(r: ResponseView) -> Option<Seq<char>> {
    match r {
        ResponseView::Accepted => None,
        ResponseView::Failed(e) => Some("server: "@ + e),
        ResponseView::Done { .. } => Some("server: unexpected Done"@),
    }
}

/// What the tool does about an answer: where it stands then, and what it does next, or why it gives
/// up.
pub open spec fn send_step(
    stage: SendStage,
    name: Seq<char>,
    bytes: Seq<u8>,
    r: ResponseView,
) -> (SendStage, Result<SendStepView, Seq<char>>) {
    match stage {
        SendStage::Greeted => match not_accepted(r) {
            None => (
                SendStage::Announced,
                Ok(
                    SendStepView::Ask(
                        seq![
                            RequestView::File {
                                name,
                                size: bytes.len() as u64,
                                sha256: sha256_of(bytes),
                            },
                        ],
                    ),
                ),
            ),
            Some(why) => (SendStage::Ended, Err(why)),
        },
        SendStage::Announced => match not_accepted(r) {
            None => (SendStage::Sent, Ok(SendStepView::Ask(chunk_request_views(bytes)))),
            Some(why) => (SendStage::Ended, Err(why)),
        },
        SendStage::Sent => (
            SendStage::Ended,
            match r {
                ResponseView::Done { client_count } => Ok(SendStepView::Finished(client_count)),
                ResponseView::Failed(e) => Err("server rejected: "@ + e),
                ResponseView::Accepted => Err("unexpected Ok at end of transfer"@),
            },
        ),
        SendStage::Ended => (SendStage::Ended, Err("the transfer is over"@)),
    }
}

impl Sender {
    /// Starts a conversation about a file: with the request to send.
    pub fn start(token: IpcToken, name: String, bytes: Vec<u8>) -> (r: (Self, IpcRequest))
        ensures
            r.0.stage == SendStage::Greeted,
            r.0.name == name,
            r.0.bytes == bytes,
            r.1@ == (RequestView::Hello { token: token@ }),
    {
        (Sender { stage: SendStage::Greeted, name, bytes }, IpcRequest::Hello { token })
    }

    /// An answer came from the server.
    pub fn on_response(&mut self, resp: IpcResponse) -> (r: Result<SendStep, String>)
        ensures
            final(self).name == old(self).name,
            final(self).bytes == old(self).bytes,
            (
                final(self).stage,
                match r {
                    Ok(s) => Ok(s@),
                    Err(why) => Err(why@),
                },
            ) == send_step(old(self).stage, old(self).name@, old(self).bytes@, resp@),
    {
        let stage = self.stage;
        self.stage = SendStage::Ended;
        match stage {
            SendStage::Greeted => match expect_ok(resp) {
                Ok(_) => {
                    self.stage = SendStage::Announced;
                    let mut ask: Vec<IpcRequest> = Vec::new();
                    ask.push(file_request(self.name.as_str(), self.bytes.as_slice()));
                    assert(request_views(ask@) =~= seq![ask@[0]@]);
                    Ok(SendStep::Ask(ask))
                },
                Err(why) => Err(why),
            },
            SendStage::Announced => match expect_ok(resp) {
                Ok(_) => {
                    self.stage = SendStage::Sent;
                    Ok(SendStep::Ask(chunk_requests(self.bytes.as_slice())))
                },
                Err(why) => Err(why),
            },
            SendStage::Sent => match transfer_result(resp) {
                Ok(n) => Ok(SendStep::Finished(n)),
                Err(why) => Err(why),
            },
            SendStage::Ended => Err(owned("the transfer is over")),
        }
    }
}

/// The tool announces the file under its name, with its length and its hash, once it has been let
/// in; and then sends all of its bytes, in chunks none of which is empty or longer than a chunk may
/// be. It says that the file went out only if the server says so.
pub proof fn files_are_sent_whole(name: Seq<char>, bytes: Seq<u8>, n: u32)
    requires
        bytes.len() <= u64::MAX,
    ensures
        send_step(SendStage::Greeted, name, bytes, ResponseView::Accepted) == (
            SendStage::Announced,
            Ok::<_, Seq<char>>(
                SendStepView::Ask(
                    seq![
                        RequestView::File {
                            name,
                            size: bytes.len() as u64,
                            sha256: sha256_of(bytes),
                        },
                    ],
                ),
            ),
        ),
        ({
            let r = send_step(SendStage::Announced, name, bytes, ResponseView::Accepted);
            &&& r.0 == SendStage::Sent
            &&& r.1 matches Ok(SendStepView::Ask(reqs)) && {
                &&& forall|i: int|
                    0 <= i < reqs.len() ==> (#[trigger] reqs[i] matches RequestView::Chunk(data)
                        && 0 < data.len() <= 0x8000)
                &&& put_together(reqs.map_values(|q: RequestView| q->Chunk_0)) == bytes
            }
        }),
        send_step(SendStage::Sent, name, bytes, ResponseView::Done { client_count: n }).1 == Ok::<
            _,
            Seq<char>,
        >(SendStepView::Finished(n)),
{
    let reqs = chunk_request_views(bytes);
    pieces_are_chunks(bytes);
    let chunks = Seq::new(piece_count(bytes.len()), |i: int| piece(bytes, i));
    assert(reqs.map_values(|q: RequestView| q->Chunk_0) =~= chunks);
    assert forall|i: int| 0 <= i < reqs.len() implies (#[trigger] reqs[i] matches RequestView::Chunk(
        data,
    ) && 0 < data.len() <= 0x8000) by {
        lemma_piece_bounds(bytes.len(), i);
        assert(CLIPBOARD_CHUNK_BYTES == 0x8000);
    }
}

/// Whatever the server answers but what is due ends the conversation, and the tool says why, with
/// the server's own words where it gave any.
pub proof fn refusals_end_the_conversation(
    stage: SendStage,
    name: Seq<char>,
    bytes: Seq<u8>,
    r: ResponseView,
)
    ensures
        ({
            let due = match stage {
                SendStage::Greeted => r is Accepted,
                SendStage::Announced => r is Accepted,
                SendStage::Sent => r is Done,
                SendStage::Ended => false,
            };
            let (after, out) = send_step(stage, name, bytes, r);
            &&& out is Ok <==> due
            &&& !due ==> after == SendStage::Ended
            &&& r is Failed && !(stage is Ended) ==> out == Err::<SendStepView, _>(
                (if stage is Sent {
                    "server rejected: "@
                } else {
                    "server: "@
                }) + r->Failed_0,
            )
            &&& r is Done && (stage is Greeted || stage is Announced) ==> out == Err::<
                SendStepView,
                _,
            >("server: unexpected Done"@)
            &&& r is Accepted && stage is Sent ==> out == Err::<SendStepView, _>(
                "unexpected Ok at end of transfer"@,
            )
        }),
{
}

/// The tool and the server agree: a file that is neither empty nor too large, handed to a server
/// with a client to take it, goes out. What the tool announces is accepted, all that it then sends
/// is passed on to the client in order, and at the end the tool says that the file went out.
pub proof fn handed_file_goes_out(
    token: Seq<u8>,
    s: StateView,
    next_id: u32,
    name: Seq<char>,
    bytes: Seq<u8>,
)
    requires
        0 < bytes.len() <= MAX_FILE_BYTES,
        target_of(s) is Some,
        s.clients.dom().contains(target_of(s)->Some_0),
    ensures
        ({
            let announce = send_step(SendStage::Greeted, name, bytes, ResponseView::Accepted);
            let req = announce.1->Ok_0->Ask_0[0];
            let taken = helper_step(
                HelperView { token, stage: StageView::File },
                s,
                next_id,
                req,
            );
            let bring = send_step(announce.0, name, bytes, taken.replies[0]);
            let chunks = bring.1->Ok_0->Ask_0.map_values(|q: RequestView| q->Chunk_0);
            let t = taken.helper.stage->Streaming_0;
            let end = chunks_passed(
                token,
                taken.state,
                taken.next_id,
                t,
                chunks,
                chunks.len(),
            );
            let last = send_step(bring.0, name, bytes, end.replies[0]);
            &&& taken.replies == seq![ResponseView::Accepted]
            &&& taken.helper.stage is Streaming
            &&& put_together(chunks) == bytes
            &&& end.replies.len() == 1
            &&& end.next == Next::Close
            &&& end.state == passed_on(taken.state, t, chunks, chunks.len()).sent_to(
                t.target,
                MessageView::FileTransferDone { id: next_id, sha256: sha256_of(bytes) },
            )
            &&& last.1 is Ok && last.1->Ok_0 is Finished
        }),
{
    files_are_sent_whole(name, bytes, 0);
    announced_file_is_accepted(token, s, next_id, name, bytes);
    let taken = helper_step(
        HelperView { token, stage: StageView::File },
        s,
        next_id,
        RequestView::File { name, size: bytes.len() as u64, sha256: sha256_of(bytes) },
    );
    let t = taken.helper.stage->Streaming_0;
    let reqs = chunk_request_views(bytes);
    let chunks = reqs.map_values(|q: RequestView| q->Chunk_0);
    assert forall|i: int| 0 <= i < chunks.len() implies (#[trigger] chunks[i]).len() > 0 by {
        assert(reqs[i] is Chunk);
        lemma_piece_bounds(bytes.len(), i);
    }
    lemma_piece_bounds(bytes.len(), 0);
    file_arrives(token, taken.state, taken.next_id, t, chunks, chunks.len());
}

} // verus!
