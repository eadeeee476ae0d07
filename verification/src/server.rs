//! What the server does for each client, from the moment that it connects, and for all of them.

use crate::clipboard::{
    announced, chunk_messages, chunk_payload, chunk_step, chunks_taken, complete_view,
    image_announced, lemma_piece_bounds, offer_for, offer_message, only_the_right_bytes_come_out,
    payload_arrives, payload_hash, pending_sound, piece_count, text_announced, ClipboardPayload,
    Incoming, PayloadKind, PayloadView, PendingView,
};
use crate::config::{LayoutMap, Position};
use crate::focus::{
    effect_view, focus_effect, focused, focusing_keeps_state_sound, return_to_local, FocusEffect,
    FocusEffectView, FocusPrefs,
};
use crate::metrics::{counted_on, inc, Counters};
use crate::protocol::{message_views, Message, MessageView};
use crate::session::{Peer, PeerView};
use crate::state::{
    adding_keeps_state_sound, sending_keeps_state_sound, ClientId, ClientView, ConnectedClient,
    Focus, ServerState, StateView,
};
use crate::throttle::{blocked_for, AuthThrottle, PeerAddr, BACKOFF_MAX};
use vstd::prelude::*;

verus! {

/// Where a host sits: to the right, unless the layout says otherwise.
pub open spec fn seat(layout: Map<Seq<char>, Position>, hostname: Seq<char>) -> Position {
    if layout.dom().contains(hostname) {
        layout[hostname]
    } else {
        Position::Right
    }
}

/// Where a host sits: to the right, unless the layout says otherwise.
pub fn seat_of(layout: &LayoutMap, hostname: &str) -> (r: Position)
    requires
        layout.wf(),
    ensures
        r == seat(layout@, hostname@),
{
    match layout.get(hostname) {
        Some(p) => p,
        None => Position::Right,
    }
}

/// Whether a connection from an address is looked at at all: an address that is blocked is turned
/// away, with the time for which it still is, and nothing is held against it for that.
pub fn admit_peer(throttle: &AuthThrottle, addr: PeerAddr, now: u64) -> (r: Result<(), u64>)
    ensures
        r == match blocked_for(throttle.record(addr), now) {
            Some(remaining) => Err(remaining),
            None => Ok(()),
        },
{
    match throttle.blocked(addr, now) {
        Some(remaining) => Err(remaining),
        None => Ok(()),
    }
}

/// After a client with this name and version has been let in.
pub open spec fn opened(s: StateView, layout: Map<Seq<char>, Position>, peer: PeerView) -> StateView {
    let t = StateView {
        next_id: (s.next_id + 1) as u64,
        counters: Counters {
            sessions_opened: counted_on(s.counters.sessions_opened, 1),
            ..s.counters
        },
        ..s
    };
    t.added(
        ClientView {
            id: s.next_id,
            hostname: peer.hostname,
            screen: None,
            outbox: Seq::empty(),
            position: seat(layout, peer.hostname),
            proto_version: peer.peer_version,
        },
    )
}

/// Lets in a client that has completed the handshake.
pub fn open_session(st: &mut ServerState, layout: &LayoutMap, peer: Peer) -> (r: ClientId)
    requires
        layout.wf(),
        old(st)@.next_id < u64::MAX,
    ensures
        r == old(st)@.next_id,
        final(st)@ == opened(old(st)@, layout@, peer@),
{
    inc(&mut st.counters.sessions_opened, 1);
    let position = seat_of(layout, peer.hostname.as_str());
    let id = st.alloc_id();
    let c = ConnectedClient {
        id,
        hostname: peer.hostname,
        screen: None,
        outbox: Vec::new(),
        position,
        proto_version: peer.peer_version,
    };
    assert(c@.outbox =~= Seq::empty());
    st.add_client(c)
}

/// The handshake of a connection has ended: with a client, who is let in and whose failures are
/// forgotten, or in failure of any kind, which is held against the address.
pub fn conclude_handshake(
    st: &mut ServerState,
    throttle: &mut AuthThrottle,
    layout: &LayoutMap,
    addr: PeerAddr,
    now: u64,
    outcome: Option<Peer>,
) -> (r: Option<ClientId>)
    requires
        layout.wf(),
        outcome is Some ==> old(st)@.next_id < u64::MAX,
        outcome is None ==> old(throttle).record(addr).decayed(now).failures < u32::MAX,
        outcome is None ==> now + BACKOFF_MAX <= u64::MAX,
    ensures
        match outcome {
            Some(peer) => {
                &&& r == Some(old(st)@.next_id)
                &&& final(st)@ == opened(old(st)@, layout@, peer@)
                &&& forall|a: PeerAddr| #[trigger]
                    final(throttle).peer(a) == if a == addr {
                        None
                    } else {
                        old(throttle).peer(a)
                    }
            },
            None => {
                &&& r is None
                &&& final(st)@ == (StateView {
                    counters: Counters {
                        auth_failures: counted_on(old(st)@.counters.auth_failures, 1),
                        ..old(st)@.counters
                    },
                    ..old(st)@
                })
                &&& forall|a: PeerAddr| #[trigger]
                    final(throttle).peer(a) == if a == addr {
                        Some(old(throttle).record(addr).failed(now))
                    } else {
                        old(throttle).peer(a)
                    }
            },
        },
{
    match outcome {
        Some(peer) => {
            throttle.record_success(addr);
            Some(open_session(st, layout, peer))
        },
        None => {
            throttle.record_failure(addr, now, &mut st.counters);
            None
        },
    }
}

/// What the server remembers of a session: whose it is, and the payload that is coming in.
#[derive(Debug, PartialEq, Eq)]
pub struct ClientSession {
    pub id: ClientId,
    pub incoming: Incoming,
}

/// What comes of a message from a client.
#[derive(Debug, PartialEq, Eq)]
pub struct ClientStep {
    /// A payload that is complete and goes to the server's own clipboard.
    pub clipboard: Option<(PayloadKind, Vec<u8>)>,
    pub effect: Option<FocusEffect>,
}

/// What comes of a message from a client: what the server knows afterwards, and what it does.
pub struct ClientStepView {
    pub state: StateView,
    pub pending: Option<PendingView>,
    pub clipboard: Option<(PayloadKind, Seq<u8>)>,
    pub effect: Option<FocusEffectView>,
}

/// After a client has said how large its screen is.
pub open spec fn with_screen(s: StateView, id: ClientId, width: u32, height: u32) -> StateView {
    if s.clients.dom().contains(id) {
        StateView {
            clients: s.clients.insert(
                id,
                ClientView { screen: Some((width, height)), ..s.clients[id] },
            ),
            ..s
        }
    } else {
        s
    }
}

/// What the server does about a message from client `id`. Offers and chunks go on to all other
/// clients, and chunks are put together for the server's own clipboard too.
pub open spec fn client_step(
    s: StateView,
    pending: Option<PendingView>,
    id: ClientId,
    m: MessageView,
    prefs: FocusPrefs,
) -> ClientStepView {
    match m {
        MessageView::ScreenInfo { width, height } => ClientStepView {
            state: with_screen(s, id, width, height),
            pending,
            clipboard: None,
            effect: None,
        },
        MessageView::ClipboardOffer { hash, .. } => ClientStepView {
            state: s.broadcast(m, Some(id)),
            pending: text_announced(hash),
            clipboard: None,
            effect: None,
        },
        MessageView::ClipboardImageOffer { hash, width, height, total_chunks } => ClientStepView {
            state: s.broadcast(m, Some(id)),
            pending: image_announced(hash, total_chunks, width, height),
            clipboard: None,
            effect: None,
        },
        MessageView::ClipboardData { hash, chunk_index, total_chunks, data } => {
            let (left, complete) = chunk_step(pending, hash, chunk_index, total_chunks, data);
            ClientStepView {
                state: s.broadcast(m, Some(id)),
                pending: left,
                clipboard: complete,
                effect: None,
            }
        },
        MessageView::Ping => ClientStepView {
            state: s.sent_to(id, MessageView::Pong),
            pending,
            clipboard: None,
            effect: None,
        },
        MessageView::RequestFocusReturn => ClientStepView {
            state: focused(s, Focus::Local),
            pending,
            clipboard: None,
            effect: Some(focus_effect(s, Focus::Local, prefs)),
        },
        _ => ClientStepView { state: s, pending, clipboard: None, effect: None },
    }
}

/// A client said how large its screen is.
fn set_screen(st: &mut ServerState, id: ClientId, width: u32, height: u32)
    ensures
        final(st)@ == with_screen(old(st)@, id, width, height),
{
    broadcast use vstd::std_specs::hash::group_hash_axioms;

    if let Some(mut c) = st.clients.remove(&id) {
        c.screen = Some((width, height));
        st.clients.insert(id, c);
    }
    assert(st@.clients =~= with_screen(old(st)@, id, width, height).clients);
}

impl ClientSession {
    /// A session in which nothing has come in yet.
    pub fn new(id: ClientId) -> (r: Self)
        ensures
            r.id == id,
            r.incoming@ is None,
    {
        ClientSession { id, incoming: Incoming::new() }
    }

    /// A message came from the client.
    pub fn on_message(&mut self, st: &mut ServerState, msg: Message, prefs: FocusPrefs) -> (r:
        ClientStep)
        ensures
            final(self).id == old(self).id,
            (ClientStepView {
                state: final(st)@,
                pending: final(self).incoming@,
                clipboard: complete_view(r.clipboard),
                effect: effect_view(r.effect),
            }) == client_step(
                old(st)@,
                old(self).incoming@,
                old(self).id,
                msg@,
                prefs,
            ),
    {
        match &msg {
            Message::ClipboardOffer { .. }
            | Message::ClipboardImageOffer { .. }
            | Message::ClipboardData { .. } => {
                st.send_to_all(&msg, Some(self.id));
            },
            _ => {},
        }
        match msg {
            Message::ScreenInfo { width, height } => {
                set_screen(st, self.id, width, height);
                ClientStep { clipboard: None, effect: None }
            },
            Message::ClipboardOffer { hash, .. } => {
                self.incoming.announce_text(hash);
                ClientStep { clipboard: None, effect: None }
            },
            Message::ClipboardImageOffer { hash, width, height, total_chunks } => {
                self.incoming.announce_image(hash, total_chunks, width, height);
                ClientStep { clipboard: None, effect: None }
            },
            Message::ClipboardData { hash, chunk_index, total_chunks, data } => {
                let clipboard = self.incoming.take_chunk(hash, chunk_index, total_chunks, data);
                ClientStep { clipboard, effect: None }
            },
            Message::Ping => {
                st.send_to(self.id, Message::Pong);
                ClientStep { clipboard: None, effect: None }
            },
            Message::RequestFocusReturn => {
                let effect = return_to_local(st, prefs);
                ClientStep { clipboard: None, effect: Some(effect) }
            },
            _ => ClientStep { clipboard: None, effect: None },
        }
    }

    /// The session has ended: the client is gone.
    pub fn close(self, st: &mut ServerState)
        ensures
            final(st)@ == old(st)@.removed(self.id),
    {
        st.remove_client(self.id);
    }
}

/// Letting a client in keeps the state sound.
pub proof fn opening_keeps_state_sound(
    s: StateView,
    layout: Map<Seq<char>, Position>,
    peer: PeerView,
)
    requires
        s.wf(),
        s.next_id < u64::MAX,
    ensures
        opened(s, layout, peer).wf(),
        opened(s, layout, peer).clients.dom() == s.clients.dom().insert(s.next_id),
        opened(s, layout, peer).focus == s.focus,
{
    let t = StateView {
        counters: Counters {
            sessions_opened: counted_on(s.counters.sessions_opened, 1),
            ..s.counters
        },
        ..s
    };
    let c = ClientView {
        id: s.next_id,
        hostname: peer.hostname,
        screen: None,
        outbox: Seq::empty(),
        position: seat(layout, peer.hostname),
        proto_version: peer.peer_version,
    };
    adding_keeps_state_sound(t, c);
    assert(opened(s, layout, peer).clients.dom() =~= s.clients.dom().insert(s.next_id));
}

/// Whatever a client sends keeps the state sound, and changes neither who is connected nor in what
/// order.
pub proof fn messages_keep_state_sound(
    s: StateView,
    pending: Option<PendingView>,
    id: ClientId,
    m: MessageView,
    prefs: FocusPrefs,
)
    requires
        s.wf(),
    ensures
        ({
            let t = client_step(s, pending, id, m, prefs).state;
            &&& t.wf()
            &&& t.order == s.order
            &&& t.clients.dom() == s.clients.dom()
        }),
{
    let t = client_step(s, pending, id, m, prefs).state;
    sending_keeps_state_sound(s, id, MessageView::Pong, Some(id));
    sending_keeps_state_sound(s, id, m, Some(id));
    focusing_keeps_state_sound(s, Focus::Local);
    assert(t.clients.dom() =~= s.clients.dom());
    assert forall|x: ClientId| #[trigger] t.clients.dom().contains(x) implies t.clients[x].id == x
        && x < t.next_id by {
        assert(s.clients.dom().contains(x));
    }
}

/// What a client offers, and its chunks, go on to every other client that can read them, and never
/// back to it.
pub proof fn clipboard_is_relayed(
    s: StateView,
    pending: Option<PendingView>,
    id: ClientId,
    m: MessageView,
    prefs: FocusPrefs,
    other: ClientId,
)
    requires
        m is ClipboardOffer || m is ClipboardImageOffer || m is ClipboardData,
        s.clients.dom().contains(other),
    ensures
        ({
            let t = client_step(s, pending, id, m, prefs).state;
            t.clients[other] == if other == id {
                s.clients[other]
            } else {
                s.clients[other].sent(m)
            }
        }),
{
}

/// A client that is there and gives the focus back takes it from whoever has it: the server's own
/// machine receives the input again, and capture is off.
pub proof fn focus_is_returned(
    s: StateView,
    pending: Option<PendingView>,
    id: ClientId,
    prefs: FocusPrefs,
)
    ensures
        ({
            let r = client_step(s, pending, id, MessageView::RequestFocusReturn, prefs);
            &&& r.state.focus == Focus::Local
            &&& r.effect is Some
            &&& !r.effect->Some_0.capturing
        }),
{
}

/// After the bytes of a payload have been counted.
pub open spec fn payload_counted(s: StateView, p: PayloadView) -> StateView {
    let n = p.bytes.len();
    let counters = match p.kind {
        PayloadKind::Text => Counters {
            clipboard_text_bytes: counted_on(s.counters.clipboard_text_bytes, n),
            ..s.counters
        },
        PayloadKind::Image { .. } => Counters {
            clipboard_image_bytes: counted_on(s.counters.clipboard_image_bytes, n),
            ..s.counters
        },
    };
    StateView { counters, ..s }
}

/// After a new content of the server's clipboard has been shared: all clients are sent the offer
/// and then the chunks, and the bytes are counted.
pub open spec fn shared(s: StateView, p: PayloadView) -> StateView {
    payload_counted(s, p).broadcast_all(seq![offer_message(p)] + chunk_messages(p))
}

/// Shares a new content of the server's clipboard with all clients.
pub fn share_clipboard(st: &mut ServerState, payload: &ClipboardPayload)
    ensures
        final(st)@ == shared(old(st)@, payload@),
{
    let bytes = payload.bytes.len() as u64;
    match payload.kind {
        PayloadKind::Text => {
            inc(&mut st.counters.clipboard_text_bytes, bytes);
        },
        PayloadKind::Image { .. } => {
            inc(&mut st.counters.clipboard_image_bytes, bytes);
        },
    }
    let ghost start = st@;
    let offer = offer_for(payload);
    let chunks = chunk_payload(payload);
    let ghost all = seq![offer@] + message_views(chunks@);
    st.send_to_all(&offer, None);
    proof {
        reveal_with_fuel(StateView::broadcast_all, 2);
        assert(all.take(1).drop_last() =~= Seq::empty());
        assert(all.take(1).last() == offer@);
    }
    let n: usize = chunks.len();
    let mut i: usize = 0;
    while i < n
        invariant
            i <= n,
            n == chunks@.len(),
            all == seq![offer@] + message_views(chunks@),
            st@ == start.broadcast_all(all.take(i + 1)),
        decreases n - i,
    {
        st.send_to_all(&chunks[i], None);
        proof {
            assert(all.take(i + 2).drop_last() =~= all.take(i + 1));
            assert(all.take(i + 2).last() == chunks@[i as int]@);
        }
        i = i + 1;
    }
    assert(all.take(n + 1) =~= all);
}

/// What each client gets of several messages to all: each that it can read, in order.
pub proof fn lemma_broadcast_all(s: StateView, ms: Seq<MessageView>, id: ClientId)
    requires
        s.clients.dom().contains(id),
    ensures
        s.broadcast_all(ms).clients.dom() == s.clients.dom(),
        s.broadcast_all(ms).clients[id] == s.clients[id].sent_all(ms),
    decreases ms.len(),
{
    if ms.len() > 0 {
        lemma_broadcast_all(s, ms.drop_last(), id);
        assert(s.broadcast_all(ms).clients.dom() =~= s.clients.dom());
    }
}

/// Every client is sent the offer of a shared content, and then its chunks.
pub proof fn sharing_reaches_every_client(s: StateView, p: PayloadView, id: ClientId)
    requires
        s.clients.dom().contains(id),
    ensures
        shared(s, p).clients[id] == s.clients[id].sent_all(
            seq![offer_message(p)] + chunk_messages(p),
        ),
{
    lemma_broadcast_all(payload_counted(s, p), seq![offer_message(p)] + chunk_messages(p), id);
}

/// Sending several messages to all keeps the state sound.
proof fn lemma_broadcast_all_sound(s: StateView, ms: Seq<MessageView>)
    requires
        s.wf(),
    ensures
        s.broadcast_all(ms).wf(),
        s.broadcast_all(ms) == (StateView { clients: s.broadcast_all(ms).clients, ..s }),
    decreases ms.len(),
{
    if ms.len() > 0 {
        let t = s.broadcast_all(ms.drop_last());
        lemma_broadcast_all_sound(s, ms.drop_last());
        sending_keeps_state_sound(t, 0, ms.last(), None);
    }
}

/// Sharing a content keeps the state sound, and moves no focus.
pub proof fn sharing_keeps_state_sound(s: StateView, p: PayloadView)
    requires
        s.wf(),
    ensures
        shared(s, p).wf(),
        shared(s, p).order == s.order,
        shared(s, p).focus == s.focus,
{
    lemma_broadcast_all_sound(payload_counted(s, p), seq![offer_message(p)] + chunk_messages(p));
}

/// What comes of the offer of a payload and its first `k` chunks, sent by client `id` one after the
/// other.
pub open spec fn payload_sent(
    s: StateView,
    pending: Option<PendingView>,
    id: ClientId,
    p: PayloadView,
    prefs: FocusPrefs,
    k: nat,
) -> ClientStepView
    decreases k,
{
    if k == 0 {
        client_step(s, pending, id, offer_message(p), prefs)
    } else {
        let before = payload_sent(s, pending, id, p, prefs, (k - 1) as nat);
        client_step(before.state, before.pending, id, chunk_messages(p)[k - 1], prefs)
    }
}

/// A payload that a client offers and sends reaches the server's own clipboard, with its last chunk
/// and not before, whatever was coming in from that client.
pub proof fn payload_reaches_the_server(
    s: StateView,
    pending: Option<PendingView>,
    id: ClientId,
    p: PayloadView,
    prefs: FocusPrefs,
    k: nat,
)
    requires
        p.hash == payload_hash(p.kind, p.bytes),
        p.bytes.len() > 0,
        piece_count(p.bytes.len()) <= u16::MAX,
        k <= piece_count(p.bytes.len()),
    ensures
        payload_sent(s, pending, id, p, prefs, k).clipboard == if k == piece_count(p.bytes.len()) {
            Some((p.kind, p.bytes))
        } else {
            None
        },
        payload_sent(s, pending, id, p, prefs, k).pending == chunks_taken(announced(p), p, k).0,
    decreases k,
{
    payload_arrives(p, k);
    lemma_piece_bounds(p.bytes.len(), 0);
    if k > 0 {
        payload_reaches_the_server(s, pending, id, p, prefs, (k - 1) as nat);
    }
}

/// A client sits where the layout says, under its own name, and to the right where the layout says
/// nothing of it.
pub proof fn clients_sit_where_the_layout_says(
    layout: Map<Seq<char>, Position>,
    hostname: Seq<char>,
    p: Position,
)
    ensures
        seat(layout.insert(hostname, p), hostname) == p,
        seat(layout.remove(hostname), hostname) == Position::Right,
{
}

/// A client that is let in is listed last, under a number that no other has had, by its own name and
/// version, at the place that the layout gives to its name, with no screen and nothing waiting for
/// it. The others and the focus stay as they are, and the session is counted.
pub proof fn clients_are_let_in_as_they_are(
    s: StateView,
    layout: Map<Seq<char>, Position>,
    peer: PeerView,
    x: ClientId,
)
    requires
        s.wf(),
        s.next_id < u64::MAX,
        s.counters.sessions_opened < u64::MAX,
    ensures
        ({
            let t = opened(s, layout, peer);
            let id = s.next_id;
            let c = t.clients[id];
            &&& !s.clients.dom().contains(id)
            &&& t.order == s.order + seq![id]
            &&& t.next_id == s.next_id + 1
            &&& c.id == id
            &&& c.hostname == peer.hostname
            &&& c.proto_version == peer.peer_version
            &&& c.screen is None
            &&& c.outbox.len() == 0
            &&& layout.dom().contains(peer.hostname) ==> c.position == layout[peer.hostname]
            &&& !layout.dom().contains(peer.hostname) ==> c.position == Position::Right
            &&& s.clients.dom().contains(x) ==> t.clients[x] == s.clients[x]
            &&& t.focus == s.focus
            &&& t.counters == (Counters {
                sessions_opened: (s.counters.sessions_opened + 1) as u64,
                ..s.counters
            })
        }),
{
    opening_keeps_state_sound(s, layout, peer);
}

/// What a client says of its screen is remembered of that client, width and height each as it is,
/// and nothing else changes. The next time that the focus comes to it, the cursor is placed on that
/// screen.
pub proof fn screens_are_remembered(
    s: StateView,
    pending: Option<PendingView>,
    id: ClientId,
    width: u32,
    height: u32,
    prefs: FocusPrefs,
    x: ClientId,
)
    requires
        s.clients.dom().contains(id),
        s.clients.dom().contains(x),
    ensures
        ({
            let r = client_step(s, pending, id, MessageView::ScreenInfo { width, height }, prefs);
            &&& r.state.clients[id] == (ClientView {
                screen: Some((width, height)),
                ..s.clients[id]
            })
            &&& x != id ==> r.state.clients[x] == s.clients[x]
            &&& r.state.clients.dom() == s.clients.dom()
            &&& r.state.focus == s.focus && r.state.order == s.order
            &&& r.pending == pending && r.clipboard is None && r.effect is None
        }),
{
    let r = client_step(s, pending, id, MessageView::ScreenInfo { width, height }, prefs);
    assert(r.state.clients.dom() =~= s.clients.dom());
}

/// A ping is answered with a pong, to the client that sent it and to nobody else.
pub proof fn pings_are_answered(
    s: StateView,
    pending: Option<PendingView>,
    id: ClientId,
    prefs: FocusPrefs,
    x: ClientId,
)
    requires
        s.clients.dom().contains(id),
        s.clients.dom().contains(x),
    ensures
        ({
            let r = client_step(s, pending, id, MessageView::Ping, prefs);
            &&& r.state.clients[id].outbox == s.clients[id].outbox.push(MessageView::Pong)
            &&& x != id ==> r.state.clients[x] == s.clients[x]
            &&& r.state.focus == s.focus
            &&& r.pending == pending && r.clipboard is None && r.effect is None
        }),
{
}

/// A client can change nothing at the server but the size of its own screen, the clipboards and
/// whether it has the focus: whatever else it sends is passed over.
pub proof fn other_messages_are_passed_over(
    s: StateView,
    pending: Option<PendingView>,
    id: ClientId,
    m: MessageView,
    prefs: FocusPrefs,
)
    requires
        !(m is ScreenInfo),
        !(m is ClipboardOffer),
        !(m is ClipboardImageOffer),
        !(m is ClipboardData),
        !(m is Ping),
        !(m is RequestFocusReturn),
    ensures
        client_step(s, pending, id, m, prefs) == (ClientStepView {
            state: s,
            pending,
            clipboard: None,
            effect: None,
        }),
{
}

/// Only chunks bring a payload to the server's own clipboard, and it has the hash under which it
/// came. No message moves the focus but the one that returns it.
pub proof fn clipboard_gets_only_the_right_bytes(
    s: StateView,
    pending: Option<PendingView>,
    id: ClientId,
    m: MessageView,
    prefs: FocusPrefs,
)
    requires
        pending_sound(pending),
    ensures
        ({
            let r = client_step(s, pending, id, m, prefs);
            &&& r.clipboard matches Some((kind, bytes)) ==> m is ClipboardData && payload_hash(
                kind,
                bytes,
            ) == m->ClipboardData_hash
            &&& pending_sound(r.pending)
            &&& r.effect is Some <==> m is RequestFocusReturn
            &&& !(m is RequestFocusReturn) ==> r.state.focus == s.focus
        }),
{
    if let MessageView::ClipboardData { hash, chunk_index, total_chunks, data } = m {
        only_the_right_bytes_come_out(pending, hash, chunk_index, total_chunks, data);
    }
}

/// What is shared is counted by its bytes, as text or as image, and nothing else is.
pub proof fn shared_bytes_are_counted(s: StateView, p: PayloadView)
    requires
        s.wf(),
        s.counters.clipboard_text_bytes + p.bytes.len() <= u64::MAX,
        s.counters.clipboard_image_bytes + p.bytes.len() <= u64::MAX,
    ensures
        p.kind is Text ==> shared(s, p).counters == (Counters {
            clipboard_text_bytes: (s.counters.clipboard_text_bytes + p.bytes.len()) as u64,
            ..s.counters
        }),
        p.kind is Image ==> shared(s, p).counters == (Counters {
            clipboard_image_bytes: (s.counters.clipboard_image_bytes + p.bytes.len()) as u64,
            ..s.counters
        }),
{
    let t = payload_counted(s, p);
    assert(t.wf());
    lemma_broadcast_all_sound(t, seq![offer_message(p)] + chunk_messages(p));
}

/// A text that the server shares waits for every client behind all else, as its offer and then its
/// bytes, whatever version the client speaks.
pub proof fn shared_text_waits_for_every_client(s: StateView, p: PayloadView, id: ClientId)
    requires
        s.clients.dom().contains(id),
        p.kind is Text,
    ensures
        shared(s, p).clients[id].outbox == s.clients[id].outbox + (seq![offer_message(p)]
            + chunk_messages(p)),
{
    let ms = seq![offer_message(p)] + chunk_messages(p);
    sharing_reaches_every_client(s, p, id);
    assert forall|i: int| 0 <= i < ms.len() implies {
        ||| (#[trigger] ms[i]) is ClipboardOffer
        ||| ms[i] is ClipboardData
    } by {}
    lemma_sent_all(s.clients[id], ms);
}

/// Messages that every client can read are all appended, in order.
proof fn lemma_sent_all(c: ClientView, ms: Seq<MessageView>)
    requires
        forall|i: int|
            0 <= i < ms.len() ==> (#[trigger] ms[i]) is ClipboardOffer || ms[i] is ClipboardData,
    ensures
        c.sent_all(ms).outbox == c.outbox + ms,
        c.sent_all(ms).proto_version == c.proto_version,
    decreases ms.len(),
{
    if ms.len() == 0 {
        assert(c.outbox + ms =~= c.outbox);
    } else {
        let before = ms.drop_last();
        assert forall|i: int| 0 <= i < before.len() implies {
            ||| (#[trigger] before[i]) is ClipboardOffer
            ||| before[i] is ClipboardData
        } by {
            assert(before[i] == ms[i]);
        }
        lemma_sent_all(c, before);
        assert(ms[ms.len() - 1] is ClipboardOffer || ms[ms.len() - 1] is ClipboardData);
        assert((c.outbox + before).push(ms.last()) =~= c.outbox + ms);
    }
}

/// An image that is shared waits for every client that knows images: the offer, and its chunks
/// behind it.
pub proof fn shared_image_waits_for_clients_that_know_images(
    s: StateView,
    p: PayloadView,
    id: ClientId,
)
    requires
        s.clients.dom().contains(id),
        p.kind is Image,
        s.clients[id].proto_version >= 2,
    ensures
        shared(s, p).clients[id].outbox == s.clients[id].outbox + (seq![offer_message(p)]
            + chunk_messages(p)),
{
    let ms = seq![offer_message(p)] + chunk_messages(p);
    sharing_reaches_every_client(s, p, id);
    lemma_sent_all_known(s.clients[id], ms);
}

/// Messages that a client knows are all appended, in order.
proof fn lemma_sent_all_known(c: ClientView, ms: Seq<MessageView>)
    requires
        c.proto_version >= 2,
        forall|i: int|
            0 <= i < ms.len() ==> (#[trigger] ms[i]) is ClipboardImageOffer || ms[i]
                is ClipboardData,
    ensures
        c.sent_all(ms).outbox == c.outbox + ms,
        c.sent_all(ms).proto_version == c.proto_version,
    decreases ms.len(),
{
    if ms.len() == 0 {
        assert(c.outbox + ms =~= c.outbox);
    } else {
        let before = ms.drop_last();
        assert forall|i: int| 0 <= i < before.len() implies {
            ||| (#[trigger] before[i]) is ClipboardImageOffer
            ||| before[i] is ClipboardData
        } by {
            assert(before[i] == ms[i]);
        }
        lemma_sent_all_known(c, before);
        assert(ms[ms.len() - 1] is ClipboardImageOffer || ms[ms.len() - 1] is ClipboardData);
        assert((c.outbox + before).push(ms.last()) =~= c.outbox + ms);
    }
}

/// A peer is turned away if and only if it is blocked, and is told for how long it still is.
pub proof fn blocked_peers_are_turned_away(
    throttle: &AuthThrottle,
    addr: PeerAddr,
    now: u64,
    r: Result<(), u64>,
)
    requires
        call_ensures(admit_peer, (throttle, addr, now), r),
    ensures
        ({
            let until = throttle.record(addr).blocked_until;
            &&& r is Err <==> until is Some && until->Some_0 > now
            &&& r is Err ==> now + r->Err_0 == until->Some_0
        }),
{
}

} // verus!
