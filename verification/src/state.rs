//! The state of the server: its clients, what is waiting to be sent to each, and which of them
//! holds the focus.

use crate::config::Position;
use crate::metrics::Counters;
use crate::protocol::{message_views, Edge, Message, MessageView};
use std::collections::HashMap;
use vstd::prelude::*;
use vstd::std_specs::iter::IteratorSpec;

verus! {

pub type ClientId = u64;

/// A client that has completed the handshake.
#[derive(Debug, PartialEq, Eq)]
pub struct ConnectedClient {
    pub id: ClientId,
    pub hostname: String,
    /// The size of its screen, once it has said so.
    pub screen: Option<(u32, u32)>,
    /// The messages that are waiting to be sent to it.
    pub outbox: Vec<Message>,
    pub position: Position,
    /// The version that the client speaks. What that version does not know is withheld.
    pub proto_version: u16,
}

/// What is known of a [`ConnectedClient`].
pub struct ClientView {
    pub id: ClientId,
    pub hostname: Seq<char>,
    pub screen: Option<(u32, u32)>,
    pub outbox: Seq<MessageView>,
    pub position: Position,
    pub proto_version: u16,
}

impl View for ConnectedClient {
    type V = ClientView;

    open spec fn view(&self) -> ClientView {
        ClientView {
            id: self.id,
            hostname: self.hostname@,
            screen: self.screen,
            outbox: message_views(self.outbox@),
            position: self.position,
            proto_version: self.proto_version,
        }
    }
}

/// Who receives the input.
#[derive(Debug, Clone, Copy, PartialEq, Eq, Structural)]
pub enum Focus {
    /// The server's own machine.
    Local,
    /// A client. The cursor entered its screen through `entry_edge`, and has to leave through the
    /// same edge to come back.
    Remote { client_id: ClientId, entry_edge: Edge },
}

/// The first version that knows a message; zero for those that were there from the start.
pub open spec fn since_version(m: MessageView) -> u16 {
    match m {
        MessageView::ClipboardImageOffer { .. }
        | MessageView::SetExitEdge { .. }
        | MessageView::RequestFocusReturn => 2,
        MessageView::FileTransferOffer { .. }
        | MessageView::FileTransferChunk { .. }
        | MessageView::FileTransferDone { .. }
        | MessageView::FileTransferReject { .. } => 3,
        _ => 0,
    }
}

impl ClientView {
    /// After a message has been sent to the client: nothing changes where it speaks an older
    /// version than the message needs.
    pub open spec fn sent(self, m: MessageView) -> ClientView {
        if self.proto_version < since_version(m) {
            self
        } else {
            ClientView { outbox: self.outbox.push(m), ..self }
        }
    }

    /// After several messages have been sent to the client, in order.
    pub open spec fn sent_all(self, ms: Seq<MessageView>) -> ClientView
        decreases ms.len(),
    {
        if ms.len() == 0 {
            self
        } else {
            self.sent_all(ms.drop_last()).sent(ms.last())
        }
    }
}

/// Messages that came with version 2. An older client could not read them, and would end the
/// session.
pub fn is_v2_only(msg: &Message) -> (r: bool)
    ensures
        r == (since_version(msg@) == 2),
{
    match msg {
        Message::ClipboardImageOffer { .. } => true,
        Message::SetExitEdge { .. } => true,
        Message::RequestFocusReturn => true,
        _ => false,
    }
}

/// Messages that came with version 3, for files.
pub fn is_v3_only(msg: &Message) -> (r: bool)
    ensures
        r == (since_version(msg@) == 3),
{
    match msg {
        Message::FileTransferOffer { .. } => true,
        Message::FileTransferChunk { .. } => true,
        Message::FileTransferDone { .. } => true,
        Message::FileTransferReject { .. } => true,
        _ => false,
    }
}

impl ConnectedClient {
    /// Sends a message to the client, unless the client is too old to read it.
    pub fn send_compat(&mut self, msg: Message)
        ensures
            final(self)@ == old(self)@.sent(msg@),
    {
        if self.proto_version < 2 && is_v2_only(&msg) {
            return;
        }
        if self.proto_version < 3 && is_v3_only(&msg) {
            return;
        }
        self.outbox.push(msg);
        assert(message_views(self.outbox@) =~= message_views(old(self).outbox@).push(msg@));
    }
}

/// The position of the client that a cursor reaches through an edge of the server's screen.
pub open spec fn position_beyond(edge: Edge) -> Position {
    match edge {
        Edge::Left => Position::Left,
        Edge::Right => Position::Right,
        Edge::Top => Position::Above,
        Edge::Bottom => Position::Below,
    }
}

/// The edge of a client's screen that faces the server.
pub open spec fn facing_edge(p: Position) -> Edge {
    match p {
        Position::Right => Edge::Left,
        Position::Left => Edge::Right,
        Position::Above => Edge::Bottom,
        Position::Below => Edge::Top,
    }
}

pub fn position_for_server_edge(edge: Edge) -> (r: Position)
    ensures
        r == position_beyond(edge),
{
    match edge {
        Edge::Left => Position::Left,
        Edge::Right => Position::Right,
        Edge::Top => Position::Above,
        Edge::Bottom => Position::Below,
    }
}

/// The edge of a client's screen through which the cursor enters.
pub fn entry_edge_for_position(p: Position) -> (r: Edge)
    ensures
        r == facing_edge(p),
{
    match p {
        Position::Right => Edge::Left,
        Position::Left => Edge::Right,
        Position::Above => Edge::Bottom,
        Position::Below => Edge::Top,
    }
}

/// The cursor enters a client's screen through the edge opposite to the one by which it left the
/// server's.
pub proof fn edges_face_each_other(edge: Edge)
    ensures
        facing_edge(position_beyond(edge)) == edge.across(),
{
}

/// A list of clients without one of them.
pub open spec fn without(order: Seq<ClientId>, id: ClientId) -> Seq<ClientId>
    decreases order.len(),
{
    if order.len() == 0 {
        order
    } else if order.last() == id {
        without(order.drop_last(), id)
    } else {
        without(order.drop_last(), id).push(order.last())
    }
}

/// The state of the server.
#[derive(Debug)]
pub struct ServerState {
    pub clients: HashMap<ClientId, ConnectedClient>,
    /// The clients in the order in which they connected.
    pub order: Vec<ClientId>,
    pub focus: Focus,
    pub next_id: ClientId,
    pub counters: Counters,
}

/// What is known of the state of the server.
pub struct StateView {
    pub clients: Map<ClientId, ClientView>,
    pub order: Seq<ClientId>,
    pub focus: Focus,
    pub next_id: ClientId,
    pub counters: Counters,
}

impl View for ServerState {
    type V = StateView;

    open spec fn view(&self) -> StateView {
        StateView {
            clients: self.clients@.map_values(|c: ConnectedClient| c@),
            order: self.order@,
            focus: self.focus,
            next_id: self.next_id,
            counters: self.counters,
        }
    }
}

impl StateView {
    /// Nobody is connected.
    pub open spec fn start() -> StateView {
        StateView {
            clients: Map::empty(),
            order: Seq::empty(),
            focus: Focus::Local,
            next_id: 1,
            counters: Counters::zero(),
        }
    }

    /// The clients are those in `order`, each there once, with their own numbers, which were all
    /// given out before; and the focus is on one of them, if it is on a client.
    pub open spec fn wf(self) -> bool {
        &&& self.order.no_duplicates()
        &&& forall|id: ClientId| #[trigger]
            self.order.contains(id) <==> self.clients.dom().contains(id)
        &&& forall|id: ClientId| #[trigger]
            self.clients.dom().contains(id) ==> self.clients[id].id == id && id < self.next_id
        &&& self.focus matches Focus::Remote { client_id, .. } ==> self.clients.dom().contains(
            client_id,
        )
    }

    pub open spec fn added(self, c: ClientView) -> StateView {
        StateView {
            clients: self.clients.insert(c.id, c),
            order: self.order.push(c.id),
            ..self
        }
    }

    pub open spec fn removed(self, id: ClientId) -> StateView {
        StateView {
            clients: self.clients.remove(id),
            order: without(self.order, id),
            focus: match self.focus {
                Focus::Remote { client_id, .. } => if client_id == id {
                    Focus::Local
                } else {
                    self.focus
                },
                Focus::Local => Focus::Local,
            },
            ..self
        }
    }

    /// After a message has been sent to one client, if it is there.
    pub open spec fn sent_to(self, id: ClientId, m: MessageView) -> StateView {
        if self.clients.dom().contains(id) {
            StateView { clients: self.clients.insert(id, self.clients[id].sent(m)), ..self }
        } else {
            self
        }
    }

    /// After a message has been sent to all clients, but for one.
    pub open spec fn broadcast(self, m: MessageView, except: Option<ClientId>) -> StateView {
        StateView {
            clients: Map::new(
                |id: ClientId| self.clients.dom().contains(id),
                |id: ClientId|
                    if except == Some(id) {
                        self.clients[id]
                    } else {
                        self.clients[id].sent(m)
                    },
            ),
            ..self
        }
    }

    /// After several messages have been sent to all clients, in order.
    pub open spec fn broadcast_all(self, ms: Seq<MessageView>) -> StateView
        decreases ms.len(),
    {
        if ms.len() == 0 {
            self
        } else {
            self.broadcast_all(ms.drop_last()).broadcast(ms.last(), None)
        }
    }
}

impl Default for ServerState {
    fn default() -> (r: Self)
        ensures
            r@ == StateView::start(),
    {
        ServerState::new()
    }
}

impl ServerState {
    /// Nobody is connected.
    pub fn new() -> (r: Self)
        ensures
            r@ == StateView::start(),
    {
        let r = ServerState {
            clients: HashMap::new(),
            order: Vec::new(),
            focus: Focus::Local,
            next_id: 1,
            counters: Counters::new(),
        };
        assert(r@.clients =~= Map::empty());
        r
    }

    /// Adds a client behind those that are there.
    pub fn add_client(&mut self, c: ConnectedClient) -> (r: ClientId)
        ensures
            r == c.id,
            final(self)@ == old(self)@.added(c@),
    {
        broadcast use vstd::std_specs::hash::group_hash_axioms;

        let id = c.id;
        self.order.push(id);
        self.clients.insert(id, c);
        assert(self@.clients =~= old(self)@.clients.insert(id, c@));
        id
    }

    /// Removes a client. If it had the focus, the focus is local again.
    pub fn remove_client(&mut self, id: ClientId)
        ensures
            final(self)@ == old(self)@.removed(id),
    {
        broadcast use vstd::std_specs::hash::group_hash_axioms;

        let _ = self.clients.remove(&id);
        assert(self@.clients =~= old(self)@.clients.remove(id));
        let n: usize = self.order.len();
        let mut kept: Vec<ClientId> = Vec::new();
        let mut i: usize = 0;
        assert(self.order@.take(0) =~= Seq::empty());
        while i < n
            invariant
                i <= n,
                n == self.order@.len(),
                kept@ == without(self.order@.take(i as int), id),
            decreases n - i,
        {
            assert(self.order@.take(i + 1).drop_last() =~= self.order@.take(i as int));
            if self.order[i] != id {
                kept.push(self.order[i]);
            }
            i = i + 1;
        }
        assert(self.order@.take(n as int) =~= self.order@);
        self.order = kept;
        if let Focus::Remote { client_id, .. } = self.focus {
            if client_id == id {
                self.focus = Focus::Local;
            }
        }
    }

    /// A number for a new client.
    pub fn alloc_id(&mut self) -> (r: ClientId)
        requires
            old(self)@.next_id < u64::MAX,
        ensures
            r == old(self)@.next_id,
            final(self)@ == (StateView { next_id: (old(self)@.next_id + 1) as u64, ..old(self)@ }),
    {
        let id = self.next_id;
        self.next_id = self.next_id + 1;
        id
    }

    /// Sends a message to one client, if it is there and can read it.
    pub fn send_to(&mut self, id: ClientId, msg: Message)
        ensures
            final(self)@ == old(self)@.sent_to(id, msg@),
    {
        broadcast use vstd::std_specs::hash::group_hash_axioms;

        if let Some(mut c) = self.clients.remove(&id) {
            c.send_compat(msg);
            self.clients.insert(id, c);
        }
        assert(self@.clients =~= old(self)@.sent_to(id, msg@).clients);
    }

    /// Whether a client is there.
    pub fn is_connected(&self, id: ClientId) -> (r: bool)
        ensures
            r == self@.clients.dom().contains(id),
    {
        broadcast use vstd::std_specs::hash::group_hash_axioms;

        self.clients.contains_key(&id)
    }

    /// The number of clients.
    pub fn client_count(&self) -> (r: usize)
        ensures
            r == self@.clients.dom().len(),
    {
        broadcast use vstd::std_specs::hash::group_hash_axioms;

        assert(self@.clients.dom() =~= self.clients@.dom());
        self.clients.len()
    }

    /// The numbers of the clients, in no particular order.
    pub(crate) fn ids(&self) -> (r: Vec<ClientId>)
        ensures
            r@.no_duplicates(),
            forall|id: ClientId| #[trigger] r@.contains(id) <==> self@.clients.dom().contains(id),
    {
        broadcast use vstd::std_specs::hash::group_hash_axioms;

        let keys = self.clients.keys();
        let ghost all = keys.remaining().unref();
        let mut r: Vec<ClientId> = Vec::new();
        for id in it: keys
            invariant
                all == it.seq().unref(),
                r@.len() == it.index(),
                forall|j: int| 0 <= j < r@.len() ==> r@[j] == *it.seq()[j],
        {
            r.push(*id);
        }
        assert(r@ =~= all);
        assert forall|id: ClientId| #[trigger] r@.contains(id) <==> self@.clients.dom().contains(
            id,
        ) by {
            assert(r@.to_set().contains(id) <==> r@.contains(id));
        }
        r
    }

    /// Sends a message to all clients but for `except`, as far as they can read it.
    pub fn send_to_all(&mut self, msg: &Message, except: Option<ClientId>)
        ensures
            final(self)@ == old(self)@.broadcast(msg@, except),
    {
        let ids = self.ids();
        let n: usize = ids.len();
        let mut i: usize = 0;
        let ghost start = self@;
        while i < n
            invariant
                i <= n,
                n == ids@.len(),
                ids@.no_duplicates(),
                self@ == (StateView { clients: self@.clients, ..start }),
                self@.clients.dom() =~= start.clients.dom(),
                forall|j: int|
                    0 <= j < i ==> #[trigger] self@.clients[ids@[j]] == start.broadcast(
                        msg@,
                        except,
                    ).clients[ids@[j]],
                forall|j: int|
                    i <= j < n ==> #[trigger] self@.clients[ids@[j]] == start.clients[ids@[j]],
                forall|id: ClientId| #[trigger]
                    ids@.contains(id) <==> start.clients.dom().contains(id),
            decreases n - i,
        {
            let id = ids[i];
            assert(ids@.contains(id));
            let skip = match except {
                Some(x) => x == id,
                None => false,
            };
            if !skip {
                self.send_to(id, msg.clone());
            }
            i = i + 1;
        }
        proof {
            let want = start.broadcast(msg@, except);
            assert forall|id: ClientId| self@.clients.dom().contains(id) implies self@.clients[id]
                == want.clients[id] by {
                assert(ids@.contains(id));
                let j = choose|j: int| 0 <= j < ids@.len() && ids@[j] == id;
                assert(self@.clients[ids@[j]] == want.clients[ids@[j]]);
            }
            assert(self@.clients =~= want.clients);
        }
    }

    /// Takes what is waiting to be sent to a client.
    pub fn take_outbox(&mut self, id: ClientId) -> (r: Vec<Message>)
        ensures
            message_views(r@) == if old(self)@.clients.dom().contains(id) {
                old(self)@.clients[id].outbox
            } else {
                Seq::empty()
            },
            final(self)@ == if old(self)@.clients.dom().contains(id) {
                StateView {
                    clients: old(self)@.clients.insert(
                        id,
                        ClientView { outbox: Seq::empty(), ..old(self)@.clients[id] },
                    ),
                    ..old(self)@
                }
            } else {
                old(self)@
            },
    {
        broadcast use vstd::std_specs::hash::group_hash_axioms;

        match self.clients.remove(&id) {
            Some(c) => {
                let ConnectedClient { id: own, hostname, screen, outbox, position, proto_version } =
                    c;
                let emptied = ConnectedClient {
                    id: own,
                    hostname,
                    screen,
                    outbox: Vec::new(),
                    position,
                    proto_version,
                };
                assert(emptied@.outbox =~= Seq::empty());
                self.clients.insert(id, emptied);
                assert(self@.clients =~= old(self)@.clients.insert(
                    id,
                    ClientView { outbox: Seq::empty(), ..old(self)@.clients[id] },
                ));
                outbox
            },
            None => {
                let r: Vec<Message> = Vec::new();
                assert(message_views(r@) =~= Seq::empty());
                assert(self@.clients =~= old(self)@.clients);
                r
            },
        }
    }
}

/// A client is in the list after another was taken out if it was in the list and is another.
proof fn lemma_without(order: Seq<ClientId>, id: ClientId)
    ensures
        forall|x: ClientId| #[trigger]
            without(order, id).contains(x) <==> order.contains(x) && x != id,
        order.no_duplicates() ==> without(order, id).no_duplicates(),
    decreases order.len(),
{
    if order.len() > 0 {
        let before = order.drop_last();
        let rest = without(before, id);
        lemma_without(before, id);
        assert forall|x: ClientId| order.contains(x) <==> before.contains(x) || x == order.last() by {
            if before.contains(x) {
                let j = choose|j: int| 0 <= j < before.len() && before[j] == x;
                assert(order[j] == x);
            }
            if order.contains(x) && x != order.last() {
                let j = choose|j: int| 0 <= j < order.len() && order[j] == x;
                assert(before[j] == x);
            }
            if x == order.last() {
                assert(order[order.len() - 1] == x);
            }
        }
        if order.last() != id {
            let all = rest.push(order.last());
            assert forall|x: ClientId| #[trigger] all.contains(x) <==> rest.contains(x) || x
                == order.last() by {
                if rest.contains(x) {
                    let j = choose|j: int| 0 <= j < rest.len() && rest[j] == x;
                    assert(all[j] == x);
                }
                if all.contains(x) && x != order.last() {
                    let j = choose|j: int| 0 <= j < all.len() && all[j] == x;
                    assert(rest[j] == x);
                }
                if x == order.last() {
                    assert(all[all.len() - 1] == x);
                }
            }
            if order.no_duplicates() {
                assert(!before.contains(order.last())) by {
                    if before.contains(order.last()) {
                        let j = choose|j: int| 0 <= j < before.len() && before[j] == order.last();
                        assert(order[j] == order[order.len() - 1]);
                    }
                }
                assert(before.no_duplicates()) by {
                    assert forall|a: int, b: int|
                        0 <= a < before.len() && 0 <= b < before.len() && a != b implies before[a]
                        != before[b] by {
                        assert(order[a] != order[b]);
                    }
                }
                assert forall|a: int, b: int|
                    0 <= a < all.len() && 0 <= b < all.len() && a != b implies all[a] != all[b] by {
                    if a < rest.len() {
                        assert(rest.contains(rest[a]));
                    }
                    if b < rest.len() {
                        assert(rest.contains(rest[b]));
                    }
                }
            }
        } else if order.no_duplicates() {
            assert(before.no_duplicates()) by {
                assert forall|a: int, b: int|
                    0 <= a < before.len() && 0 <= b < before.len() && a != b implies before[a]
                    != before[b] by {
                    assert(order[a] != order[b]);
                }
            }
        }
    }
}

/// The state is sound at the start.
pub proof fn start_is_sound()
    ensures
        StateView::start().wf(),
{
}

/// Adding a client under a number that was just given out keeps the state sound.
pub proof fn adding_keeps_state_sound(s: StateView, c: ClientView)
    requires
        s.wf(),
        s.next_id < u64::MAX,
        c.id == s.next_id,
    ensures
        (StateView { next_id: (s.next_id + 1) as u64, ..s }).added(c).wf(),
{
    let t = (StateView { next_id: (s.next_id + 1) as u64, ..s }).added(c);
    assert(!s.clients.dom().contains(c.id));
    assert(!s.order.contains(c.id));
    assert forall|id: ClientId| #[trigger] t.order.contains(id) <==> t.clients.dom().contains(
        id,
    ) by {
        if s.order.contains(id) {
            let j = choose|j: int| 0 <= j < s.order.len() && s.order[j] == id;
            assert(t.order[j] == id);
        }
        if t.order.contains(id) && id != c.id {
            let j = choose|j: int| 0 <= j < t.order.len() && t.order[j] == id;
            assert(s.order[j] == id);
        }
        if id == c.id {
            assert(t.order[t.order.len() - 1] == id);
        }
    }
    assert forall|a: int, b: int|
        0 <= a < t.order.len() && 0 <= b < t.order.len() && a != b implies t.order[a]
        != t.order[b] by {
        if a < s.order.len() {
            assert(s.order.contains(s.order[a]));
        }
        if b < s.order.len() {
            assert(s.order.contains(s.order[b]));
        }
    }
}

/// Removing a client keeps the state sound, and the client is gone: it is not listed, and does not
/// hold the focus.
pub proof fn removing_keeps_state_sound(s: StateView, id: ClientId)
    requires
        s.wf(),
    ensures
        s.removed(id).wf(),
        !s.removed(id).order.contains(id),
        s.removed(id).focus matches Focus::Remote { client_id, .. } ==> client_id != id,
{
    lemma_without(s.order, id);
}

/// Sending keeps the state sound, and changes nothing but what is waiting to be sent.
pub proof fn sending_keeps_state_sound(
    s: StateView,
    id: ClientId,
    m: MessageView,
    except: Option<ClientId>,
)
    requires
        s.wf(),
    ensures
        s.sent_to(id, m).wf(),
        s.broadcast(m, except).wf(),
        s.sent_to(id, m) == (StateView { clients: s.sent_to(id, m).clients, ..s }),
        s.broadcast(m, except) == (StateView { clients: s.broadcast(m, except).clients, ..s }),
{
}

/// A client is never sent what its version does not know: whatever is sent, what waits for it was
/// waiting before or is known to its version.
pub proof fn old_clients_are_spared(c: ClientView, m: MessageView)
    requires
        forall|i: int|
            0 <= i < c.outbox.len() ==> since_version(#[trigger] c.outbox[i]) <= c.proto_version,
    ensures
        forall|i: int|
            0 <= i < c.sent(m).outbox.len() ==> since_version(#[trigger] c.sent(m).outbox[i])
                <= c.proto_version,
        c.sent(m).proto_version == c.proto_version,
{
    assert forall|i: int| 0 <= i < c.sent(m).outbox.len() implies since_version(
        #[trigger] c.sent(m).outbox[i],
    ) <= c.proto_version by {
        if i < c.outbox.len() {
            assert(c.sent(m).outbox[i] == c.outbox[i]);
        }
    }
}

/// A message that is sent to a client waits behind all others, and nothing else changes, if the
/// client can read it. Every client can read what was there from the start, which is all of the
/// input; an image, the exit edge and the return of the focus need version 2, and files version 3.
pub proof fn sending_appends_what_can_be_read(c: ClientView, m: MessageView)
    ensures
        ({
            let needs_2 = m is ClipboardImageOffer || m is SetExitEdge || m is RequestFocusReturn;
            let needs_3 = m is FileTransferOffer || m is FileTransferChunk || m is FileTransferDone
                || m is FileTransferReject;
            let reads = (needs_2 ==> c.proto_version >= 2) && (needs_3 ==> c.proto_version >= 3);
            &&& reads ==> c.sent(m) == (ClientView { outbox: c.outbox.push(m), ..c })
            &&& !reads ==> c.sent(m) == c
        }),
{
}

/// A message to one client changes what waits for that client, and for no other.
pub proof fn sending_reaches_one_client(s: StateView, id: ClientId, m: MessageView, x: ClientId)
    requires
        s.clients.dom().contains(x),
    ensures
        s.sent_to(id, m).clients.dom() == s.clients.dom(),
        x == id ==> s.sent_to(id, m).clients[x] == s.clients[x].sent(m),
        x != id ==> s.sent_to(id, m).clients[x] == s.clients[x],
{
    assert(s.sent_to(id, m).clients.dom() =~= s.clients.dom());
}

/// A message to all reaches every client but the one that is left out, which it does not touch.
pub proof fn broadcasting_reaches_the_others(
    s: StateView,
    m: MessageView,
    except: Option<ClientId>,
    x: ClientId,
)
    requires
        s.clients.dom().contains(x),
    ensures
        s.broadcast(m, except).clients.dom() == s.clients.dom(),
        except != Some(x) ==> s.broadcast(m, except).clients[x] == s.clients[x].sent(m),
        except == Some(x) ==> s.broadcast(m, except).clients[x] == s.clients[x],
{
    assert(s.broadcast(m, except).clients.dom() =~= s.clients.dom());
}

/// A list without one client is the list of the others, in the same order.
proof fn lemma_without_filters(order: Seq<ClientId>, id: ClientId)
    ensures
        without(order, id) == order.filter(|x: ClientId| x != id),
    decreases order.len(),
{
    reveal(Seq::filter);
    if order.len() > 0 {
        lemma_without_filters(order.drop_last(), id);
    }
}

/// A client that leaves takes nothing with it but itself: the others stay as they are, in the same
/// order, and the focus stays where it is, unless the client had it, and is then local.
pub proof fn leaving_touches_nobody_else(s: StateView, id: ClientId, x: ClientId)
    requires
        s.clients.dom().contains(x),
        x != id,
    ensures
        s.removed(id).clients.dom() == s.clients.dom().remove(id),
        s.removed(id).clients[x] == s.clients[x],
        s.removed(id).order == s.order.filter(|y: ClientId| y != id),
        s.removed(id).next_id == s.next_id,
        s.removed(id).counters == s.counters,
        s.focus matches Focus::Remote { client_id, .. } && client_id == id ==> s.removed(id).focus
            == Focus::Local,
        !(s.focus matches Focus::Remote { client_id, .. } && client_id == id) ==> s.removed(id).focus
            == s.focus,
{
    lemma_without_filters(s.order, id);
}

/// A client that comes is listed behind the others, which stay as they are.
pub proof fn coming_touches_nobody_else(s: StateView, c: ClientView, x: ClientId)
    requires
        s.clients.dom().contains(x),
        x != c.id,
    ensures
        s.added(c).clients[c.id] == c,
        s.added(c).clients[x] == s.clients[x],
        s.added(c).clients.dom() == s.clients.dom().insert(c.id),
        s.added(c).order == s.order + seq![c.id],
        s.added(c).focus == s.focus,
{
}

/// The client beyond an edge of the server's screen sits on that side of it, and faces the server
/// with the opposite edge.
pub proof fn sides_match_edges(edge: Edge)
    ensures
        position_beyond(edge) == Position::Left <==> edge == Edge::Left,
        position_beyond(edge) == Position::Right <==> edge == Edge::Right,
        position_beyond(edge) == Position::Above <==> edge == Edge::Top,
        position_beyond(edge) == Position::Below <==> edge == Edge::Bottom,
        facing_edge(Position::Left) == Edge::Right,
        facing_edge(Position::Right) == Edge::Left,
        facing_edge(Position::Above) == Edge::Bottom,
        facing_edge(Position::Below) == Edge::Top,
{
}

/// At first nobody is there, the focus is local, nothing has been counted, and the first client will
/// be number one.
pub proof fn nobody_is_there_at_first(id: ClientId)
    ensures
        !StateView::start().clients.dom().contains(id),
        StateView::start().order.len() == 0,
        StateView::start().focus is Local,
        StateView::start().next_id == 1,
        StateView::start().counters.sessions_opened == 0,
        StateView::start().counters.auth_failures == 0,
        StateView::start().counters.focus_switches == 0,
        StateView::start().counters.clipboard_text_bytes == 0,
        StateView::start().counters.clipboard_image_bytes == 0,
        StateView::start().wf(),
{
}

} // verus!
