//! What the running server tells of itself, for the control panel and the tool that sends files.

use crate::capture::VirtualBounds;
use crate::config::{words_name_positions, Position};
use crate::digest::{hex_encode, hex_of};
use crate::metrics::{snapshot, snapshot_of, Snapshot};
use crate::state::{ClientId, Focus, ServerState, StateView};
use crate::text::owned;
use vstd::prelude::*;

verus! {

/// Seconds between two writes of the status file.
pub const WRITE_INTERVAL: u64 = 1;

/// Who has the focus.
#[derive(Debug, PartialEq, Eq)]
pub enum FocusSnapshot {
    Local,
    /// The client with this name.
    Remote(String),
}

/// One client.
#[derive(Debug, PartialEq, Eq)]
pub struct ClientSnapshot {
    pub hostname: String,
    pub position: String,
    pub screen: Option<(u32, u32)>,
}

/// What a [`ClientSnapshot`] says.
pub struct ClientSnapshotView {
    pub hostname: Seq<char>,
    pub position: Seq<char>,
    pub screen: Option<(u32, u32)>,
}

impl View for ClientSnapshot {
    type V = ClientSnapshotView;

    open spec fn view(&self) -> ClientSnapshotView {
        ClientSnapshotView {
            hostname: self.hostname@,
            position: self.position@,
            screen: self.screen,
        }
    }
}

/// The server at one moment.
#[derive(Debug, PartialEq, Eq)]
pub struct StatusSnapshot {
    pub pid: u32,
    pub timestamp_unix: u64,
    pub fingerprint_hex: String,
    pub listening_on: String,
    pub virtual_desktop: (i32, i32, i32, i32),
    pub focus: FocusSnapshot,
    pub clients: Vec<ClientSnapshot>,
    pub metrics: Snapshot,
    /// Where local tools reach the server.
    pub ipc_addr: Option<String>,
    /// What local tools have to show, in hexadecimal.
    pub ipc_token: String,
}

/// The name of the client that has the focus, if a client has it.
pub open spec fn focus_name(s: StateView) -> Option<Seq<char>> {
    match s.focus {
        Focus::Remote { client_id, .. } => if s.clients.dom().contains(client_id) {
            Some(s.clients[client_id].hostname)
        } else {
            None
        },
        Focus::Local => None,
    }
}

/// What a snapshot of the focus says.
pub open spec fn focus_snapshot_view(f: FocusSnapshot) -> Option<Seq<char>> {
    match f {
        FocusSnapshot::Remote(h) => Some(h@),
        FocusSnapshot::Local => None,
    }
}

/// The first `n` clients of the list, in order, as far as they are there.
pub open spec fn listed(s: StateView, n: nat) -> Seq<ClientSnapshotView>
    decreases n,
{
    if n == 0 {
        Seq::empty()
    } else {
        let before = listed(s, (n - 1) as nat);
        let id = s.order[n - 1];
        if s.clients.dom().contains(id) {
            before.push(
                ClientSnapshotView {
                    hostname: s.clients[id].hostname,
                    position: s.clients[id].position.word(),
                    screen: s.clients[id].screen,
                },
            )
        } else {
            before
        }
    }
}

/// What several snapshots of clients say.
pub open spec fn client_snapshot_views(v: Seq<ClientSnapshot>) -> Seq<ClientSnapshotView> {
    v.map_values(|c: ClientSnapshot| c@)
}

/// The word for a position.
pub fn position_str(p: Position) -> (r: &'static str)
    ensures
        r@ == p.word(),
{
    p.as_str()
}

/// One client, if it is there.
fn client_snapshot(st: &ServerState, id: ClientId) -> (r: Option<ClientSnapshot>)
    ensures
        match r {
            Some(c) => st@.clients.dom().contains(id) && c@ == (ClientSnapshotView {
                hostname: st@.clients[id].hostname,
                position: st@.clients[id].position.word(),
                screen: st@.clients[id].screen,
            }),
            None => !st@.clients.dom().contains(id),
        },
{
    broadcast use vstd::std_specs::hash::group_hash_axioms;

    match st.clients.get(&id) {
        Some(c) => Some(
            ClientSnapshot {
                hostname: c.hostname.clone(),
                position: owned(position_str(c.position)),
                screen: c.screen,
            },
        ),
        None => None,
    }
}

/// The server at one moment.
pub fn build_snapshot(
    st: &ServerState,
    fingerprint_hex: &str,
    listening_on: &str,
    bounds: VirtualBounds,
    pid: u32,
    timestamp_unix: u64,
    ipc_addr: Option<String>,
    ipc_token: &[u8; 32],
) -> (r: StatusSnapshot)
    ensures
        r.pid == pid,
        r.timestamp_unix == timestamp_unix,
        r.fingerprint_hex@ == fingerprint_hex@,
        r.listening_on@ == listening_on@,
        r.virtual_desktop == (bounds.min_x, bounds.min_y, bounds.max_x, bounds.max_y),
        focus_snapshot_view(r.focus) == focus_name(st@),
        client_snapshot_views(r.clients@) == listed(st@, st@.order.len()),
        r.metrics == snapshot_of(st@.counters),
        r.ipc_addr == ipc_addr,
        r.ipc_token@ == hex_of(ipc_token@),
{
    let n: usize = st.order.len();
    let mut clients: Vec<ClientSnapshot> = Vec::new();
    let mut i: usize = 0;
    assert(client_snapshot_views(clients@) =~= listed(st@, 0));
    while i < n
        invariant
            i <= n,
            n == st@.order.len(),
            client_snapshot_views(clients@) == listed(st@, i as nat),
        decreases n - i,
    {
        let ghost before = client_snapshot_views(clients@);
        if let Some(c) = client_snapshot(st, st.order[i]) {
            clients.push(c);
            assert(client_snapshot_views(clients@) =~= before.push(c@));
        }
        i = i + 1;
    }
    let focus = match st.focus {
        Focus::Local => FocusSnapshot::Local,
        Focus::Remote { client_id, .. } => match client_snapshot(st, client_id) {
            Some(c) => FocusSnapshot::Remote(c.hostname),
            None => FocusSnapshot::Local,
        },
    };
    StatusSnapshot {
        pid,
        timestamp_unix,
        fingerprint_hex: owned(fingerprint_hex),
        listening_on: owned(listening_on),
        virtual_desktop: (bounds.min_x, bounds.min_y, bounds.max_x, bounds.max_y),
        focus,
        clients,
        metrics: snapshot(&st.counters),
        ipc_addr,
        ipc_token: hex_encode(ipc_token.as_slice()),
    }
}

/// In a sound state every connected client is listed, in the order of connection.
pub proof fn every_client_is_listed(s: StateView, n: nat)
    requires
        s.wf(),
        n <= s.order.len(),
    ensures
        listed(s, n).len() == n,
        forall|i: int|
            0 <= i < n ==> (#[trigger] listed(s, n)[i]).hostname
                == s.clients[s.order[i]].hostname,
    decreases n,
{
    if n > 0 {
        every_client_is_listed(s, (n - 1) as nat);
        assert(s.order.contains(s.order[n - 1]));
        assert forall|i: int| 0 <= i < n implies (#[trigger] listed(s, n)[i]).hostname
            == s.clients[s.order[i]].hostname by {
            if i < n - 1 {
                assert(listed(s, n)[i] == listed(s, (n - 1) as nat)[i]);
            }
        }
    }
}

/// Every client in the list is told of with its own name, place and screen.
pub proof fn clients_are_told_of_as_they_are(s: StateView, n: nat, i: int)
    requires
        s.wf(),
        n <= s.order.len(),
        0 <= i < n,
    ensures
        listed(s, n).len() == n,
        listed(s, n)[i].hostname == s.clients[s.order[i]].hostname,
        listed(s, n)[i].screen == s.clients[s.order[i]].screen,
        Position::named(listed(s, n)[i].position) == Some(s.clients[s.order[i]].position),
    decreases n,
{
    every_client_is_listed(s, n);
    every_client_is_listed(s, (n - 1) as nat);
    assert(s.order.contains(s.order[n - 1]));
    if i < n - 1 {
        clients_are_told_of_as_they_are(s, (n - 1) as nat, i);
        assert(listed(s, n)[i] == listed(s, (n - 1) as nat)[i]);
    } else {
        let p = s.clients[s.order[i]].position;
        words_name_positions(p, p.word());
    }
}

/// The focus is told of by the name of the client that has it.
pub proof fn focus_is_told_of(s: StateView)
    ensures
        s.focus is Local ==> focus_name(s) is None,
        s.focus is Remote && s.clients.dom().contains(s.focus->client_id) ==> focus_name(s) == Some(
            s.clients[s.focus->client_id].hostname,
        ),
{
}

} // verus!
