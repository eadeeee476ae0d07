//! Passing a file on from a local tool to a client.

use crate::bytes::same_32;
use crate::clipboard::{lemma_piece_bounds, piece, piece_count};
use crate::digest::{fed, sha256_of, RunningHash};
use crate::ipc::{response_views, IpcRequest, IpcResponse, IpcToken, RequestView, ResponseView};
use crate::protocol::{
    Message, MessageView, CLIPBOARD_CHUNK_BYTES, FILE_CHUNK_BYTES, MAX_FILE_BYTES,
};
use crate::state::{ClientId, Focus, ServerState, StateView};
use crate::text::{cat3, decimal, decimal_text, owned};
use vstd::prelude::*;

verus! {

/// A file on its way.
pub struct Transfer {
    /// The number under which the client knows it.
    pub id: u32,
    pub target: ClientId,
    pub size: u64,
    pub sha256: [u8; 32],
    got: u64,
    chunk_index: u32,
    hasher: RunningHash,
}

/// What is known of a [`Transfer`].
pub struct TransferView {
    pub id: u32,
    pub target: ClientId,
    pub size: u64,
    pub sha256: Seq<u8>,
    /// The bytes that have come so far.
    pub content: Seq<u8>,
    /// The number of chunks that have come so far.
    pub chunks: nat,
}

/// How far a tool has come.
pub enum Stage {
    /// It has to show the token.
    Hello,
    /// It has to say what file it brings.
    File,
    /// It brings the file.
    Streaming(Transfer),
    /// There is nothing more to say.
    Ended,
}

/// What is known of a [`Stage`].
pub enum StageView {
    Hello,
    File,
    Streaming(TransferView),
    Ended,
}

/// The server's side of a conversation with a local tool.
pub struct Helper {
    token: IpcToken,
    stage: Stage,
}

/// What is known of a [`Helper`].
pub struct HelperView {
    pub token: Seq<u8>,
    pub stage: StageView,
}

impl View for Transfer {
    type V = TransferView;

    closed spec fn view(&self) -> TransferView {
        TransferView {
            id: self.id,
            target: self.target,
            size: self.size,
            sha256: self.sha256@,
            content: fed(self.hasher),
            chunks: self.chunk_index as nat,
        }
    }
}

impl Transfer {
    /// The transfer is not complete, and what is counted is what has come.
    pub closed spec fn wf(self) -> bool {
        &&& self.got == fed(self.hasher).len()
        &&& self.chunk_index <= self.got
        &&& self.got < self.size
        &&& self.size <= MAX_FILE_BYTES
    }
}

impl View for Helper {
    type V = HelperView;

    closed spec fn view(&self) -> HelperView {
        HelperView {
            token: self.token@,
            stage: match self.stage {
                Stage::Hello => StageView::Hello,
                Stage::File => StageView::File,
                Stage::Streaming(t) => StageView::Streaming(t@),
                Stage::Ended => StageView::Ended,
            },
        }
    }
}

/// Why a conversation is broken off.
#[derive(Debug, Clone, Copy, PartialEq, Eq, Structural)]
pub enum HelperFailure {
    ExpectedHello,
    AuthFailed,
    ExpectedFile,
    ExpectedChunk,
}

impl HelperFailure {
    pub open spec fn words(self) -> Seq<char> {
        match self {
            HelperFailure::ExpectedHello => "expected Hello, got something else"@,
            HelperFailure::AuthFailed => "ipc auth failed"@,
            HelperFailure::ExpectedFile => "expected File metadata"@,
            HelperFailure::ExpectedChunk => "expected Chunk while streaming"@,
        }
    }

    /// The failure in words.
    pub fn text(self) -> (r: &'static str)
        ensures
            r@ == self.words(),
    {
        match self {
            HelperFailure::ExpectedHello => "expected Hello, got something else",
            HelperFailure::AuthFailed => "ipc auth failed",
            HelperFailure::ExpectedFile => "expected File metadata",
            HelperFailure::ExpectedChunk => "expected Chunk while streaming",
        }
    }
}

/// How a conversation goes on.
#[derive(Debug, Clone, Copy, PartialEq, Eq, Structural)]
pub enum Next {
    /// Read another request.
    Read,
    /// It is over.
    Close,
    Fail(HelperFailure),
}

/// What comes of a request: what to answer, and how to go on.
#[derive(Debug, PartialEq, Eq)]
pub struct HelperStep {
    pub replies: Vec<IpcResponse>,
    pub next: Next,
}

/// What comes of a request: what is known afterwards, what to answer, and how to go on.
pub struct HelperStepView {
    pub helper: HelperView,
    pub state: StateView,
    pub next_id: u32,
    pub replies: Seq<ResponseView>,
    pub next: Next,
}

/// Who gets a file: the client that has the focus, or the first.
pub open spec fn target_of(s: StateView) -> Option<ClientId> {
    match s.focus {
        Focus::Remote { client_id, .. } => Some(client_id),
        Focus::Local => if s.order.len() > 0 {
            Some(s.order[0])
        } else {
            None
        },
    }
}

/// Who gets a file: the client that has the focus, or the first.
pub fn pick_target_client(st: &ServerState) -> (r: Option<ClientId>)
    ensures
        r == target_of(st@),
{
    match st.focus {
        Focus::Remote { client_id, .. } => Some(client_id),
        Focus::Local => if st.order.len() > 0 {
            Some(st.order[0])
        } else {
            None
        },
    }
}

/// The number of chunks of a file, at least one, in 32 bits.
pub open spec fn file_chunk_count(size: u64) -> u32 {
    let n = (size + FILE_CHUNK_BYTES - 1) / (FILE_CHUNK_BYTES as int);
    ((if n == 0 {
        1
    } else {
        n
    }) % 0x1_0000_0000) as u32
}

/// What is answered about a file that is too large.
pub open spec fn too_large_text(size: u64) -> Seq<char> {
    "file too large ("@ + decimal(size as nat) + " > "@ + decimal(MAX_FILE_BYTES as nat) + ")"@
}

/// What comes of the end of a file: if it is the one that was announced, the client is told that it
/// is complete, otherwise that it is void.
pub open spec fn finished(
    token: Seq<u8>,
    s: StateView,
    next_id: u32,
    t: TransferView,
    before: Seq<ResponseView>,
) -> HelperStepView {
    let helper = HelperView { token, stage: StageView::Ended };
    if sha256_of(t.content) == t.sha256 {
        HelperStepView {
            helper,
            state: s.sent_to(
                t.target,
                MessageView::FileTransferDone { id: t.id, sha256: t.sha256 },
            ),
            next_id,
            replies: before.push(
                ResponseView::Done {
                    client_count: (s.clients.dom().len() % 0x1_0000_0000) as u32,
                },
            ),
            next: Next::Close,
        }
    } else {
        HelperStepView {
            helper,
            state: s.sent_to(
                t.target,
                MessageView::FileTransferReject { id: t.id, reason: "ipc-side hash mismatch"@ },
            ),
            next_id,
            replies: before.push(ResponseView::Failed("payload hash mismatch on the way in"@)),
            next: Next::Close,
        }
    }
}

/// What comes of the announcement of a file.
pub open spec fn file_step(
    token: Seq<u8>,
    s: StateView,
    next_id: u32,
    name: Seq<char>,
    size: u64,
    sha256: Seq<u8>,
) -> HelperStepView {
    let ended = HelperView { token, stage: StageView::Ended };
    let after_id = ((next_id + 1) % 0x1_0000_0000) as u32;
    if size > MAX_FILE_BYTES {
        HelperStepView {
            helper: ended,
            state: s,
            next_id,
            replies: seq![ResponseView::Failed(too_large_text(size))],
            next: Next::Close,
        }
    } else {
        match target_of(s) {
            None => HelperStepView {
                helper: ended,
                state: s,
                next_id,
                replies: seq![ResponseView::Accepted, ResponseView::Failed("no client connected"@)],
                next: Next::Close,
            },
            Some(target) => if !s.clients.dom().contains(target) {
                HelperStepView {
                    helper: ended,
                    state: s,
                    next_id: after_id,
                    replies: seq![
                        ResponseView::Accepted,
                        ResponseView::Failed("target client disappeared"@),
                    ],
                    next: Next::Close,
                }
            } else {
                let offered = s.sent_to(
                    target,
                    MessageView::FileTransferOffer {
                        id: next_id,
                        name,
                        size,
                        total_chunks: file_chunk_count(size),
                    },
                );
                let t = TransferView {
                    id: next_id,
                    target,
                    size,
                    sha256,
                    content: Seq::empty(),
                    chunks: 0,
                };
                if size == 0 {
                    finished(token, offered, after_id, t, seq![ResponseView::Accepted])
                } else {
                    HelperStepView {
                        helper: HelperView { token, stage: StageView::Streaming(t) },
                        state: offered,
                        next_id: after_id,
                        replies: seq![ResponseView::Accepted],
                        next: Next::Read,
                    }
                }
            },
        }
    }
}

/// What comes of a chunk of a file. An empty one ends the file.
pub open spec fn chunk_of_file_step(
    token: Seq<u8>,
    s: StateView,
    next_id: u32,
    t: TransferView,
    data: Seq<u8>,
) -> HelperStepView {
    if data.len() == 0 {
        finished(token, s, next_id, t, Seq::empty())
    } else {
        let passed = s.sent_to(
            t.target,
            MessageView::FileTransferChunk { id: t.id, chunk_index: t.chunks as u32, data },
        );
        let u = TransferView { content: t.content + data, chunks: t.chunks + 1, ..t };
        if u.content.len() < u.size {
            HelperStepView {
                helper: HelperView { token, stage: StageView::Streaming(u) },
                state: passed,
                next_id,
                replies: Seq::empty(),
                next: Next::Read,
            }
        } else {
            finished(token, passed, next_id, u, Seq::empty())
        }
    }
}

/// What comes of a request.
pub open spec fn helper_step(
    h: HelperView,
    s: StateView,
    next_id: u32,
    req: RequestView,
) -> HelperStepView {
    let ended = HelperView { token: h.token, stage: StageView::Ended };
    let broken = |why: HelperFailure|
        HelperStepView {
            helper: ended,
            state: s,
            next_id,
            replies: Seq::empty(),
            next: Next::Fail(why),
        };
    match (h.stage, req) {
        (StageView::Hello, RequestView::Hello { token }) => if token == h.token {
            HelperStepView {
                helper: HelperView { token: h.token, stage: StageView::File },
                state: s,
                next_id,
                replies: seq![ResponseView::Accepted],
                next: Next::Read,
            }
        } else {
            HelperStepView {
                helper: ended,
                state: s,
                next_id,
                replies: seq![ResponseView::Failed("invalid token"@)],
                next: Next::Fail(HelperFailure::AuthFailed),
            }
        },
        (StageView::Hello, _) => broken(HelperFailure::ExpectedHello),
        (StageView::File, RequestView::File { name, size, sha256 }) => file_step(
            h.token,
            s,
            next_id,
            name,
            size,
            sha256,
        ),
        (StageView::File, _) => broken(HelperFailure::ExpectedFile),
        (StageView::Streaming(t), RequestView::Chunk(data)) => chunk_of_file_step(
            h.token,
            s,
            next_id,
            t,
            data,
        ),
        (StageView::Streaming(_), _) => broken(HelperFailure::ExpectedChunk),
        (StageView::Ended, _) => HelperStepView {
            helper: h,
            state: s,
            next_id,
            replies: Seq::empty(),
            next: Next::Close,
        },
    }
}

/// The number of chunks of a file, at least one, in 32 bits.
fn file_chunks(size: u64) -> (r: u32)
    ensures
        r == file_chunk_count(size),
{
    let whole: u64 = size / FILE_CHUNK_BYTES as u64;
    let n: u64 = if size % FILE_CHUNK_BYTES as u64 == 0 {
        whole
    } else {
        whole + 1
    };
    proof {
        let c = FILE_CHUNK_BYTES as int;
        assert(c == 0x8000);
        assert(n == (size + c - 1) / c) by (nonlinear_arith)
            requires
                c == 0x8000,
                n == if size as int % c == 0 {
                    size as int / c
                } else {
                    size as int / c + 1
                },
        ;
    }
    if n == 0 {
        1
    } else {
        (n % 0x1_0000_0000) as u32
    }
}

/// One answer.
fn reply(r: IpcResponse) -> (v: Vec<IpcResponse>)
    ensures
        response_views(v@) == seq![r@],
{
    let mut v: Vec<IpcResponse> = Vec::new();
    v.push(r);
    assert(response_views(v@) =~= seq![r@]);
    v
}

/// One more answer.
fn push_reply(v: &mut Vec<IpcResponse>, r: IpcResponse)
    ensures
        response_views(final(v)@) == response_views(old(v)@).push(r@),
{
    v.push(r);
    assert(response_views(v@) =~= response_views(old(v)@).push(r@));
}

/// Ends a file.
fn finish_transfer(st: &mut ServerState, t: Transfer, before: Vec<IpcResponse>) -> (r: HelperStep)
    ensures
        forall|token: Seq<u8>, next_id: u32| #[trigger]
            finished(token, old(st)@, next_id, t@, response_views(before@)) == (HelperStepView {
                helper: HelperView { token, stage: StageView::Ended },
                state: final(st)@,
                next_id,
                replies: response_views(r.replies@),
                next: r.next,
            }),
{
    let mut replies = before;
    let Transfer { id, target, size, sha256, got, chunk_index, hasher } = t;
    let actual = hasher.finish();
    if !same_32(&actual, &sha256) {
        st.send_to(
            target,
            Message::FileTransferReject { id, reason: owned("ipc-side hash mismatch") },
        );
        push_reply(
            &mut replies,
            IpcResponse::Failed(owned("payload hash mismatch on the way in")),
        );
        return HelperStep { replies, next: Next::Close };
    }
    let count = st.client_count();
    st.send_to(target, Message::FileTransferDone { id, sha256 });
    push_reply(
        &mut replies,
        IpcResponse::Done { client_count: (count as u64 % 0x1_0000_0000) as u32 },
    );
    HelperStep { replies, next: Next::Close }
}

impl Helper {
    /// What is counted is what has come.
    pub closed spec fn wf(self) -> bool {
        self.stage matches Stage::Streaming(t) ==> t.wf()
    }

    /// A conversation with a tool that has to show `token`.
    pub fn new(token: IpcToken) -> (r: Self)
        ensures
            r.wf(),
            r@ == (HelperView { token: token@, stage: StageView::Hello }),
    {
        Helper { token, stage: Stage::Hello }
    }

    /// How many seconds to wait for the next request.
    pub fn patience(&self) -> (r: u64)
        ensures
            r == if self@.stage is Streaming {
                30u64
            } else {
                5u64
            },
    {
        match &self.stage {
            Stage::Streaming(_) => 30,
            _ => 5,
        }
    }

    /// The tool has said what file it brings.
    fn on_file(
        &mut self,
        st: &mut ServerState,
        next_id: &mut u32,
        name: String,
        size: u64,
        sha256: [u8; 32],
    ) -> (r: HelperStep)
        requires
            old(self)@.stage is Ended,
            old(self).wf(),
        ensures
            final(self).wf(),
            (HelperStepView {
                helper: final(self)@,
                state: final(st)@,
                next_id: *final(next_id),
                replies: response_views(r.replies@),
                next: r.next,
            }) == file_step(old(self)@.token, old(st)@, *old(next_id), name@, size, sha256@),
    {
        if size > MAX_FILE_BYTES {
            let n = decimal_text(size);
            let max = decimal_text(MAX_FILE_BYTES);
            let head = cat3("file too large (", n.as_str(), " > ");
            let text = cat3(head.as_str(), max.as_str(), ")");
            return HelperStep { replies: reply(IpcResponse::Failed(text)), next: Next::Close };
        }
        let mut replies = reply(IpcResponse::Accepted);
        let target = match pick_target_client(st) {
            Some(t) => t,
            None => {
                push_reply(&mut replies, IpcResponse::Failed(owned("no client connected")));
                assert(response_views(replies@) =~= seq![
                    ResponseView::Accepted,
                    ResponseView::Failed("no client connected"@),
                ]);
                return HelperStep { replies, next: Next::Close };
            },
        };
        let id = *next_id;
        *next_id = next_id.wrapping_add(1);
        let total_chunks = file_chunks(size);
        if !st.is_connected(target) {
            push_reply(&mut replies, IpcResponse::Failed(owned("target client disappeared")));
            assert(response_views(replies@) =~= seq![
                ResponseView::Accepted,
                ResponseView::Failed("target client disappeared"@),
            ]);
            return HelperStep { replies, next: Next::Close };
        }
        st.send_to(target, Message::FileTransferOffer { id, name, size, total_chunks });
        let t = Transfer {
            id,
            target,
            size,
            sha256,
            got: 0,
            chunk_index: 0,
            hasher: RunningHash::new(),
        };
        if size == 0 {
            let step = finish_transfer(st, t, replies);
            assert(finished(
                self@.token,
                old(st)@.sent_to(
                    target,
                    MessageView::FileTransferOffer { id, name: name@, size, total_chunks },
                ),
                *next_id,
                t@,
                seq![ResponseView::Accepted],
            ).helper == self@);
            return step;
        }
        self.stage = Stage::Streaming(t);
        HelperStep { replies, next: Next::Read }
    }

    /// The tool has sent a chunk.
    fn on_chunk(&mut self, st: &mut ServerState, t: Transfer, data: Vec<u8>) -> (r: HelperStep)
        requires
            old(self)@.stage is Ended,
            old(self).wf(),
            t.wf(),
        ensures
            final(self).wf(),
            forall|next_id: u32| #[trigger]
                chunk_of_file_step(old(self)@.token, old(st)@, next_id, t@, data@) == (
                HelperStepView {
                    helper: final(self)@,
                    state: final(st)@,
                    next_id,
                    replies: response_views(r.replies@),
                    next: r.next,
                }),
    {
        let none: Vec<IpcResponse> = Vec::new();
        assert(response_views(none@) =~= Seq::empty());
        if data.len() == 0 {
            return finish_transfer(st, t, none);
        }
        let mut t = t;
        let ghost before = t@;
        let got: u64 = t.got.saturating_add(data.len() as u64);
        t.hasher.update(data.as_slice());
        let chunk_index = t.chunk_index;
        t.got = got;
        t.chunk_index = chunk_index + 1;
        let id = t.id;
        st.send_to(t.target, Message::FileTransferChunk { id, chunk_index, data });
        if got < t.size {
            self.stage = Stage::Streaming(t);
            return HelperStep { replies: none, next: Next::Read };
        }
        finish_transfer(st, t, none)
    }

    /// A request came from the tool. `next_id` is the number for the next file.
    #[verifier::rlimit(40)]
    pub fn on_request(&mut self, st: &mut ServerState, req: IpcRequest, next_id: &mut u32) -> (r:
        HelperStep)
        requires
            old(self).wf(),
        ensures
            final(self).wf(),
            (HelperStepView {
                helper: final(self)@,
                state: final(st)@,
                next_id: *final(next_id),
                replies: response_views(r.replies@),
                next: r.next,
            }) == helper_step(old(self)@, old(st)@, *old(next_id), req@),
    {
        let none: Vec<IpcResponse> = Vec::new();
        assert(response_views(none@) =~= Seq::empty());
        let stage = self.take_stage();
        match stage {
            Stage::Hello => match req {
                IpcRequest::Hello { token } => if same_32(&token, &self.token) {
                    self.stage = Stage::File;
                    HelperStep { replies: reply(IpcResponse::Accepted), next: Next::Read }
                } else {
                    HelperStep {
                        replies: reply(IpcResponse::Failed(owned("invalid token"))),
                        next: Next::Fail(HelperFailure::AuthFailed),
                    }
                },
                _ => HelperStep { replies: none, next: Next::Fail(HelperFailure::ExpectedHello) },
            },
            Stage::File => match req {
                IpcRequest::File { name, size, sha256 } => self.on_file(
                    st,
                    next_id,
                    name,
                    size,
                    sha256,
                ),
                _ => HelperStep { replies: none, next: Next::Fail(HelperFailure::ExpectedFile) },
            },
            Stage::Streaming(t) => match req {
                IpcRequest::Chunk(data) => self.on_chunk(st, t, data),
                _ => HelperStep { replies: none, next: Next::Fail(HelperFailure::ExpectedChunk) },
            },
            Stage::Ended => HelperStep { replies: none, next: Next::Close },
        }
    }

    /// Takes the stage out; without it the conversation is over.
    fn take_stage(&mut self) -> (r: Stage)
        requires
            old(self).wf(),
        ensures
            r == old(self).stage,
            final(self).stage is Ended,
            final(self).token == old(self).token,
    {
        let mut s = Stage::Ended;
        std::mem::swap(&mut s, &mut self.stage);
        s
    }
}

/// Without the token nothing happens: no client is told anything, and the conversation is over.
pub proof fn token_is_required(h: HelperView, s: StateView, next_id: u32, req: RequestView)
    requires
        h.stage is Hello,
        req != (RequestView::Hello { token: h.token }),
    ensures
        ({
            let r = helper_step(h, s, next_id, req);
            &&& r.state == s
            &&& r.helper.stage is Ended
            &&& r.next is Fail
        }),
{
}

/// Once a conversation is over, nothing changes any more.
pub proof fn ended_stays_ended(h: HelperView, s: StateView, next_id: u32, req: RequestView)
    requires
        h.stage is Ended,
    ensures
        helper_step(h, s, next_id, req).helper == h,
        helper_step(h, s, next_id, req).state == s,
{
}

/// Chunks, one after the other.
pub open spec fn put_together(chunks: Seq<Seq<u8>>) -> Seq<u8>
    decreases chunks.len(),
{
    if chunks.len() == 0 {
        Seq::empty()
    } else {
        put_together(chunks.drop_last()) + chunks.last()
    }
}

/// What comes of the first `k` of some chunks of a file, sent one after the other.
pub open spec fn chunks_passed(
    token: Seq<u8>,
    s: StateView,
    next_id: u32,
    t: TransferView,
    chunks: Seq<Seq<u8>>,
    k: nat,
) -> HelperStepView
    decreases k,
{
    if k == 0 {
        HelperStepView {
            helper: HelperView { token, stage: StageView::Streaming(t) },
            state: s,
            next_id,
            replies: Seq::empty(),
            next: Next::Read,
        }
    } else {
        let before = chunks_passed(token, s, next_id, t, chunks, (k - 1) as nat);
        helper_step(
            before.helper,
            before.state,
            before.next_id,
            RequestView::Chunk(chunks[k - 1]),
        )
    }
}

/// After the first `k` of some chunks of a file have been passed on to the client.
pub open spec fn passed_on(s: StateView, t: TransferView, chunks: Seq<Seq<u8>>, k: nat) -> StateView
    decreases k,
{
    if k == 0 {
        s
    } else {
        passed_on(s, t, chunks, (k - 1) as nat).sent_to(
            t.target,
            MessageView::FileTransferChunk {
                id: t.id,
                chunk_index: (k - 1) as u32,
                data: chunks[k - 1],
            },
        )
    }
}

/// None of some chunks is empty.
pub open spec fn none_empty(chunks: Seq<Seq<u8>>) -> bool {
    forall|i: int| 0 <= i < chunks.len() ==> (#[trigger] chunks[i]).len() > 0
}

/// Some chunks but not all are less than the whole.
proof fn lemma_part_is_shorter(chunks: Seq<Seq<u8>>, k: int)
    requires
        none_empty(chunks),
        0 <= k < chunks.len(),
    ensures
        put_together(chunks.take(k)).len() < put_together(chunks).len(),
        put_together(chunks.take(k + 1)) == put_together(chunks.take(k)) + chunks[k],
    decreases chunks.len(),
{
    let before = chunks.drop_last();
    assert(chunks.take(k + 1).drop_last() =~= chunks.take(k));
    assert(chunks[chunks.len() - 1].len() > 0);
    if k < before.len() {
        assert forall|i: int| 0 <= i < before.len() implies (#[trigger] before[i]).len() > 0 by {
            assert(chunks[i].len() > 0);
        }
        assert(before.take(k) =~= chunks.take(k));
        lemma_part_is_shorter(before, k);
    } else {
        assert(chunks.take(k) =~= before);
    }
}

/// What has come after some chunks of a file but not all.
proof fn lemma_chunks_passed(
    token: Seq<u8>,
    s: StateView,
    next_id: u32,
    t: TransferView,
    chunks: Seq<Seq<u8>>,
    k: nat,
)
    requires
        t.content == Seq::<u8>::empty(),
        t.chunks == 0,
        none_empty(chunks),
        t.size == put_together(chunks).len(),
        k < chunks.len(),
    ensures
        chunks_passed(token, s, next_id, t, chunks, k) == (HelperStepView {
            helper: HelperView {
                token,
                stage: StageView::Streaming(
                    TransferView {
                        content: put_together(chunks.take(k as int)),
                        chunks: k,
                        ..t
                    },
                ),
            },
            state: passed_on(s, t, chunks, k),
            next_id,
            replies: Seq::empty(),
            next: Next::Read,
        }),
    decreases k,
{
    if k == 0 {
        assert(chunks.take(0) =~= Seq::empty());
    } else {
        lemma_chunks_passed(token, s, next_id, t, chunks, (k - 1) as nat);
        lemma_part_is_shorter(chunks, k - 1);
        lemma_part_is_shorter(chunks, k as int);
        assert(chunks[k - 1].len() > 0);
    }
}

/// A file arrives, however it is cut into chunks that are not empty. Before the last chunk nothing
/// is answered. With it the conversation ends: if the file has the hash that was announced, the tool
/// is told that it went out, and the client that it is complete; otherwise the tool is told so, and
/// the client that it is void. In either case the chunks have gone out to the client in order. A
/// client is handed these messages only from version 3 of the protocol on, and the handshake lets in
/// none above version 2, so that for now no client is handed anything of a file.
pub proof fn file_arrives(
    token: Seq<u8>,
    s: StateView,
    next_id: u32,
    t: TransferView,
    chunks: Seq<Seq<u8>>,
    k: nat,
)
    requires
        t.content == Seq::<u8>::empty(),
        t.chunks == 0,
        none_empty(chunks),
        t.size == put_together(chunks).len(),
        0 < chunks.len(),
        k <= chunks.len(),
    ensures
        ({
            let r = chunks_passed(token, s, next_id, t, chunks, k);
            let out = passed_on(s, t, chunks, k);
            &&& k < chunks.len() ==> r.next == Next::Read && r.replies.len() == 0 && r.state == out
            &&& k == chunks.len() ==> r.next == Next::Close && r.helper.stage is Ended
                && r.replies.len() == 1
            &&& k == chunks.len() && sha256_of(put_together(chunks)) == t.sha256 ==> r.replies[0]
                is Done && r.state == out.sent_to(
                t.target,
                MessageView::FileTransferDone { id: t.id, sha256: t.sha256 },
            )
            &&& k == chunks.len() && sha256_of(put_together(chunks)) != t.sha256 ==> r.replies[0]
                == ResponseView::Failed("payload hash mismatch on the way in"@) && r.state
                == out.sent_to(
                t.target,
                MessageView::FileTransferReject { id: t.id, reason: "ipc-side hash mismatch"@ },
            )
        }),
{
    if k < chunks.len() {
        lemma_chunks_passed(token, s, next_id, t, chunks, k);
    } else {
        let n = chunks.len();
        lemma_chunks_passed(token, s, next_id, t, chunks, (n - 1) as nat);
        lemma_part_is_shorter(chunks, n - 1);
        assert(chunks.take(n as int) =~= chunks);
        assert(chunks[n - 1].len() > 0);
    }
}

/// The pieces that the tool cuts a file into are such chunks: none is empty, and put together they
/// are the file.
pub proof fn pieces_are_chunks(content: Seq<u8>)
    ensures
        none_empty(Seq::new(piece_count(content.len()), |i: int| piece(content, i))),
        put_together(Seq::new(piece_count(content.len()), |i: int| piece(content, i))) == content,
{
    let n = piece_count(content.len());
    let chunks = Seq::new(n, |i: int| piece(content, i));
    assert forall|i: int| 0 <= i < chunks.len() implies (#[trigger] chunks[i]).len() > 0 by {
        lemma_piece_bounds(content.len(), i);
    }
    lemma_pieces_together(content, n);
    lemma_piece_bounds(content.len(), n as int);
    assert(chunks.take(n as int) =~= chunks);
    assert(content.take(content.len() as int) =~= content);
}

/// The first pieces put together are the beginning of the file.
proof fn lemma_pieces_together(content: Seq<u8>, k: nat)
    requires
        k <= piece_count(content.len()),
    ensures
        ({
            let chunks = Seq::new(piece_count(content.len()), |i: int| piece(content, i));
            put_together(chunks.take(k as int)) == content.take(
                if k * CLIPBOARD_CHUNK_BYTES <= content.len() {
                    k * CLIPBOARD_CHUNK_BYTES
                } else {
                    content.len() as int
                },
            )
        }),
    decreases k,
{
    let chunks = Seq::new(piece_count(content.len()), |i: int| piece(content, i));
    if k == 0 {
        assert(chunks.take(0) =~= Seq::empty());
        assert(content.take(0) =~= Seq::empty());
    } else {
        lemma_pieces_together(content, (k - 1) as nat);
        lemma_piece_bounds(content.len(), k - 1);
        assert(chunks.take(k as int).drop_last() =~= chunks.take(k - 1));
        assert(chunks.take(k as int).last() == piece(content, k - 1));
        assert(put_together(chunks.take(k as int)) =~= content.take(
            if k * CLIPBOARD_CHUNK_BYTES <= content.len() {
                k * CLIPBOARD_CHUNK_BYTES
            } else {
                content.len() as int
            },
        ));
    }
}

/// A file that is announced with its size and its hash is accepted and offered to the client, as
/// long as there is a client and the file is neither empty nor too large.
pub proof fn announced_file_is_accepted(
    token: Seq<u8>,
    s: StateView,
    next_id: u32,
    name: Seq<char>,
    content: Seq<u8>,
)
    requires
        0 < content.len() <= MAX_FILE_BYTES,
        target_of(s) is Some,
        s.clients.dom().contains(target_of(s)->Some_0),
    ensures
        ({
            let target = target_of(s)->Some_0;
            let size = content.len() as u64;
            let r = helper_step(
                HelperView { token, stage: StageView::File },
                s,
                next_id,
                RequestView::File { name, size, sha256: sha256_of(content) },
            );
            &&& r.next == Next::Read
            &&& r.replies == seq![ResponseView::Accepted]
            &&& r.state == s.sent_to(
                target,
                MessageView::FileTransferOffer {
                    id: next_id,
                    name,
                    size,
                    total_chunks: file_chunk_count(size),
                },
            )
            &&& r.helper == (HelperView {
                token,
                stage: StageView::Streaming(
                    TransferView {
                        id: next_id,
                        target,
                        size,
                        sha256: sha256_of(content),
                        content: Seq::empty(),
                        chunks: 0,
                    },
                ),
            })
        }),
{
}

/// A file whose bytes are not those that were announced is never said to be complete: the tool is
/// told so, and the client is told that it is void.
pub proof fn wrong_file_is_rejected(
    token: Seq<u8>,
    s: StateView,
    next_id: u32,
    t: TransferView,
    before: Seq<ResponseView>,
)
    requires
        sha256_of(t.content) != t.sha256,
    ensures
        finished(token, s, next_id, t, before).state == s.sent_to(
            t.target,
            MessageView::FileTransferReject { id: t.id, reason: "ipc-side hash mismatch"@ },
        ),
        finished(token, s, next_id, t, before).replies.last() == ResponseView::Failed(
            "payload hash mismatch on the way in"@,
        ),
{
}

/// Whatever a tool says keeps the server's state sound, and changes neither who is connected nor who
/// has the focus.
pub proof fn transfers_keep_state_sound(h: HelperView, s: StateView, next_id: u32, req: RequestView)
    requires
        s.wf(),
    ensures
        ({
            let t = helper_step(h, s, next_id, req).state;
            &&& t.wf()
            &&& t.order == s.order
            &&& t.focus == s.focus
        }),
{
}

/// A file goes to the client that has the focus, whoever that is, and to the first in the list while
/// the focus is local; with no clients it goes to nobody.
pub proof fn files_go_to_the_focused_client(s: StateView)
    ensures
        s.focus matches Focus::Remote { client_id, .. } ==> target_of(s) == Some(client_id),
        s.focus is Local && s.order.len() > 0 ==> target_of(s) == Some(s.order[0]),
        s.focus is Local && s.order.len() == 0 ==> target_of(s) is None,
{
}

/// The offer of a file counts as many chunks as the tool cuts it into: enough for all of it, and one
/// fewer would not be. An empty file is offered as one.
pub proof fn offers_count_the_chunks(size: u64)
    requires
        size <= MAX_FILE_BYTES,
    ensures
        size == 0 ==> file_chunk_count(size) == 1,
        size > 0 ==> file_chunk_count(size) == piece_count(size as nat),
        size > 0 ==> (file_chunk_count(size) - 1) * 0x8000 < size <= file_chunk_count(size) * 0x8000,
{
    let c = FILE_CHUNK_BYTES as int;
    assert(c == 0x8000 && CLIPBOARD_CHUNK_BYTES == 0x8000);
    let n = (size + 0x8000 - 1) / 0x8000;
    assert((size + c - 1) / c == n);
    assert(piece_count(size as nat) == n);
}

/// The right token opens a conversation, and a second one is not needed.
pub proof fn right_token_opens(token: Seq<u8>, s: StateView, next_id: u32)
    ensures
        ({
            let h = HelperView { token, stage: StageView::Hello };
            let r = helper_step(h, s, next_id, RequestView::Hello { token });
            &&& r.helper == (HelperView { token, stage: StageView::File })
            &&& r.state == s
            &&& r.next_id == next_id
            &&& r.replies == seq![ResponseView::Accepted]
            &&& r.next == Next::Read
        }),
{
}

/// A request out of turn breaks the conversation off, for what was expected, and no client is told
/// anything.
pub proof fn requests_out_of_turn_break_off(
    h: HelperView,
    s: StateView,
    next_id: u32,
    req: RequestView,
)
    requires
        h.stage is Hello && !(req is Hello) || h.stage is File && !(req is File) || h.stage
            is Streaming && !(req is Chunk),
    ensures
        ({
            let r = helper_step(h, s, next_id, req);
            &&& h.stage is Hello ==> r.next == Next::Fail(HelperFailure::ExpectedHello)
            &&& h.stage is File ==> r.next == Next::Fail(HelperFailure::ExpectedFile)
            &&& h.stage is Streaming ==> r.next == Next::Fail(HelperFailure::ExpectedChunk)
            &&& r.state == s
            &&& r.helper.stage is Ended
            &&& r.replies.len() == 0
        }),
{
}

/// A file is refused if it is larger than what is relayed, or if there is nobody to take it; then no
/// client is told anything, and the tool is told why.
pub proof fn files_without_a_taker_are_refused(
    token: Seq<u8>,
    s: StateView,
    next_id: u32,
    name: Seq<char>,
    size: u64,
    sha256: Seq<u8>,
)
    ensures
        ({
            let h = HelperView { token, stage: StageView::File };
            let r = helper_step(h, s, next_id, RequestView::File { name, size, sha256 });
            let taker = if s.focus is Remote {
                Some(s.focus->client_id)
            } else if s.order.len() > 0 {
                Some(s.order[0])
            } else {
                None
            };
            let refused = size > 256 * 1024 * 1024 || taker is None || !s.clients.dom().contains(
                taker->Some_0,
            );
            &&& refused ==> {
                &&& r.state == s
                &&& r.next == Next::Close
                &&& r.helper.stage is Ended
                &&& r.replies.len() > 0 && r.replies.last() is Failed
            }
            &&& !refused && size > 0 ==> r.helper.stage is Streaming && r.next == Next::Read
            &&& size > 256 * 1024 * 1024 ==> r.replies == seq![
                ResponseView::Failed(
                    "file too large ("@ + decimal(size as nat) + " > "@ + decimal(
                        256 * 1024 * 1024,
                    ) + ")"@,
                ),
            ]
        }),
{
}

/// Each file that is offered gets the next number, which no file before it had, until the numbers
/// begin again.
pub proof fn files_get_their_own_numbers(
    token: Seq<u8>,
    s: StateView,
    next_id: u32,
    name: Seq<char>,
    size: u64,
    sha256: Seq<u8>,
)
    requires
        next_id < u32::MAX,
    ensures
        ({
            let h = HelperView { token, stage: StageView::File };
            let r = helper_step(h, s, next_id, RequestView::File { name, size, sha256 });
            &&& r.helper.stage matches StageView::Streaming(t) ==> t.id == next_id && r.next_id
                == next_id + 1 && t.size == size && t.sha256 == sha256 && t.content.len() == 0
            &&& r.next_id == next_id ==> r.state == s
        }),
{
}

/// An empty file is complete as soon as it is announced: the client is told of it and that it is
/// complete, and the tool that it was accepted and went out, to how many clients there are.
pub proof fn empty_files_are_complete_at_once(
    token: Seq<u8>,
    s: StateView,
    next_id: u32,
    name: Seq<char>,
)
    requires
        target_of(s) is Some,
        s.clients.dom().contains(target_of(s)->Some_0),
        s.clients.dom().len() <= u32::MAX,
    ensures
        ({
            let id = target_of(s)->Some_0;
            let sha256 = sha256_of(Seq::empty());
            let r = helper_step(
                HelperView { token, stage: StageView::File },
                s,
                next_id,
                RequestView::File { name, size: 0, sha256 },
            );
            &&& r.next == Next::Close
            &&& r.replies == seq![
                ResponseView::Accepted,
                ResponseView::Done { client_count: s.clients.dom().len() as u32 },
            ]
            &&& s.clients[id].proto_version >= 3 ==> r.state.clients[id].outbox
                == s.clients[id].outbox.push(
                MessageView::FileTransferOffer { id: next_id, name, size: 0, total_chunks: 1 },
            ).push(MessageView::FileTransferDone { id: next_id, sha256 })
        }),
{
    let id = target_of(s)->Some_0;
    let t = s.sent_to(
        id,
        MessageView::FileTransferOffer { id: next_id, name, size: 0, total_chunks: 1 },
    );
    assert(t.clients.dom() =~= s.clients.dom());
    offers_count_the_chunks(0);
    assert(seq![ResponseView::Accepted].push(
        ResponseView::Done { client_count: s.clients.dom().len() as u32 },
    ) =~= seq![
        ResponseView::Accepted,
        ResponseView::Done { client_count: s.clients.dom().len() as u32 },
    ]);
}

/// A chunk goes on to the client that the file is for, and to nobody else, under the file's number
/// and with the number of chunks before it; what has come is what came before and the chunk.
pub proof fn chunks_go_on_as_they_are(
    token: Seq<u8>,
    s: StateView,
    next_id: u32,
    t: TransferView,
    data: Seq<u8>,
    x: ClientId,
)
    requires
        data.len() > 0,
        t.content.len() + data.len() < t.size,
        t.chunks <= u32::MAX,
        s.clients.dom().contains(t.target),
        s.clients.dom().contains(x),
        s.clients[t.target].proto_version >= 3,
    ensures
        ({
            let h = HelperView { token, stage: StageView::Streaming(t) };
            let r = helper_step(h, s, next_id, RequestView::Chunk(data));
            &&& r.state.clients[t.target].outbox == s.clients[t.target].outbox.push(
                MessageView::FileTransferChunk { id: t.id, chunk_index: t.chunks as u32, data },
            )
            &&& x != t.target ==> r.state.clients[x] == s.clients[x]
            &&& r.helper.stage == StageView::Streaming(
                TransferView { content: t.content + data, chunks: t.chunks + 1, ..t },
            )
            &&& r.replies.len() == 0
        }),
{
}

/// A file that is complete and is the one that was announced is answered with how many clients
/// there are.
pub proof fn done_says_how_many_clients(
    token: Seq<u8>,
    s: StateView,
    next_id: u32,
    t: TransferView,
)
    requires
        sha256_of(t.content) == t.sha256,
        s.clients.dom().len() <= u32::MAX,
    ensures
        ({
            let h = HelperView { token, stage: StageView::Streaming(t) };
            let r = helper_step(h, s, next_id, RequestView::Chunk(Seq::empty()));
            r.replies == seq![ResponseView::Done { client_count: s.clients.dom().len() as u32 }]
        }),
{
    assert(Seq::<ResponseView>::empty().push(
        ResponseView::Done { client_count: s.clients.dom().len() as u32 },
    ) =~= seq![ResponseView::Done { client_count: s.clients.dom().len() as u32 }]);
}

/// The server waits half a minute for the next chunk of a file, and five seconds for anything else.
pub proof fn chunks_are_waited_for_longer(h: &Helper, r: u64)
    requires
        call_ensures(Helper::patience, (h,), r),
    ensures
        h@.stage is Streaming ==> r == 30,
        !(h@.stage is Streaming) ==> r == 5,
{
}

/// The words for a failure tell which one it is.
pub proof fn failures_are_told_apart(a: HelperFailure, b: HelperFailure)
    ensures
        a.words() == b.words() ==> a == b,
        a.words().len() > 0,
{
    reveal_strlit("expected Hello, got something else");
    reveal_strlit("ipc auth failed");
    reveal_strlit("expected File metadata");
    reveal_strlit("expected Chunk while streaming");
    assert("expected Hello, got something else"@.len() == 34);
    assert("ipc auth failed"@.len() == 15);
    assert("expected File metadata"@.len() == 22);
    assert("expected Chunk while streaming"@.len() == 30);
}

} // verus!
