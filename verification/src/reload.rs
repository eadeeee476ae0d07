//! Taking over a configuration that has changed while the server runs.
//!
//! The layout and the wishes to be notified and to see a banner take effect at once. The address, the
//! port, the passphrase, the place of the certificate and the hotkeys need a restart; a change of
//! them is reported and otherwise ignored.

use crate::config::{LayoutMap, Position, ServerConfig};
use crate::focus::FocusPrefs;
use crate::server::{seat, seat_of};
use crate::state::{ClientId, ClientView, ServerState, StateView};
use crate::text::{same_text, same_texts, texts};
use vstd::prelude::*;

verus! {

/// What a reload did.
#[derive(Debug, Clone, Copy, PartialEq, Eq, Structural)]
pub struct ReloadReport {
    /// The new wish to be notified, if it changed.
    pub notify: Option<bool>,
    /// The new wish to see a banner, if it changed.
    pub overlay: Option<bool>,
    /// Something changed that needs a restart: the address, the port, the passphrase or the place
    /// of the certificate.
    pub restart_required: bool,
    /// A hotkey changed, which needs a restart too.
    pub hotkey_ignored: bool,
    /// The number of entries of the new layout, if the layout changed.
    pub layout_entries: Option<usize>,
}

/// After every client has moved to the place that a layout gives it.
pub open spec fn reseated(s: StateView, layout: Map<Seq<char>, Position>) -> StateView {
    StateView {
        clients: s.clients.map_values(
            |c: ClientView| ClientView { position: seat(layout, c.hostname), ..c },
        ),
        ..s
    }
}

/// The new value of a wish, if it changed.
pub open spec fn changed_to(old: bool, new: bool) -> Option<bool> {
    if old != new {
        Some(new)
    } else {
        None
    }
}

/// A wish after a change of it, if there is one.
pub open spec fn taken_over(wish: bool, change: Option<bool>) -> bool {
    match change {
        Some(new) => new,
        None => wish,
    }
}

/// Takes over a wish, if it changed.
fn take_over(wish: &mut bool, old_wish: bool, new_wish: bool) -> (r: Option<bool>)
    ensures
        r == changed_to(old_wish, new_wish),
        *final(wish) == taken_over(*old(wish), changed_to(old_wish, new_wish)),
{
    if old_wish != new_wish {
        *wish = new_wish;
        Some(new_wish)
    } else {
        None
    }
}

/// Something changed that needs a restart.
pub open spec fn needs_restart(old: ServerConfig, new: ServerConfig) -> bool {
    ||| old.port != new.port
    ||| old.bind@ != new.bind@
    ||| old.psk@ != new.psk@
    ||| texts(old.cert_dir@) != texts(new.cert_dir@)
}

/// Whether two layouts give the same places to the same hosts.
pub fn layout_equal(a: &LayoutMap, b: &LayoutMap) -> (r: bool)
    requires
        a.wf(),
        b.wf(),
    ensures
        r == (a@ == b@),
{
    a.same_as(b)
}

/// Moves every client to the place that a layout gives it.
pub fn apply_layout_to_connected(st: &mut ServerState, layout: &LayoutMap)
    requires
        layout.wf(),
    ensures
        final(st)@ == reseated(old(st)@, layout@),
{
    broadcast use vstd::std_specs::hash::group_hash_axioms;

    let ids = st.ids();
    let n: usize = ids.len();
    let mut i: usize = 0;
    let ghost start = st@;
    let ghost want = reseated(start, layout@);
    while i < n
        invariant
            i <= n,
            n == ids@.len(),
            layout.wf(),
            want == reseated(start, layout@),
            ids@.no_duplicates(),
            st@ == (StateView { clients: st@.clients, ..start }),
            st@.clients.dom() =~= start.clients.dom(),
            forall|j: int| 0 <= j < i ==> #[trigger] st@.clients[ids@[j]] == want.clients[ids@[j]],
            forall|j: int| i <= j < n ==> #[trigger] st@.clients[ids@[j]] == start.clients[ids@[j]],
            forall|id: ClientId| #[trigger] ids@.contains(id) <==> start.clients.dom().contains(id),
        decreases n - i,
    {
        broadcast use vstd::std_specs::hash::group_hash_axioms;

        let id = ids[i];
        assert(ids@.contains(id));
        let ghost before = st@;
        if let Some(mut c) = st.clients.remove(&id) {
            assert(c@ == before.clients[id]);
            c.position = seat_of(layout, c.hostname.as_str());
            st.clients.insert(id, c);
            assert(st@.clients =~= before.clients.insert(id, want.clients[id]));
        }
        i = i + 1;
    }
    proof {
        assert forall|id: ClientId| st@.clients.dom().contains(id) implies st@.clients[id]
            == want.clients[id] by {
            assert(ids@.contains(id));
            let j = choose|j: int| 0 <= j < ids@.len() && ids@[j] == id;
            assert(st@.clients[ids@[j]] == want.clients[ids@[j]]);
        }
        assert(st@.clients =~= want.clients);
    }
}

/// Takes over what can be taken over of a changed configuration.
pub fn apply_diff(
    old_cfg: &ServerConfig,
    new_cfg: &ServerConfig,
    st: &mut ServerState,
    layout: &mut LayoutMap,
    prefs: &mut FocusPrefs,
) -> (r: ReloadReport)
    requires
        old_cfg.layout.wf(),
        new_cfg.layout.wf(),
        old(layout).wf(),
    ensures
        final(layout).wf(),
        r.notify == changed_to(old_cfg.notify_on_focus, new_cfg.notify_on_focus),
        r.overlay == changed_to(old_cfg.overlay_on_focus, new_cfg.overlay_on_focus),
        *final(prefs) == (FocusPrefs {
            notify: taken_over(old(prefs).notify, r.notify),
            overlay: taken_over(old(prefs).overlay, r.overlay),
        }),
        r.restart_required == needs_restart(*old_cfg, *new_cfg),
        r.hotkey_ignored == (old_cfg.hotkey != new_cfg.hotkey),
        old_cfg.layout@ == new_cfg.layout@ ==> final(layout)@ == old(layout)@ && final(st)@ == old(
            st,
        )@ && r.layout_entries is None,
        old_cfg.layout@ != new_cfg.layout@ ==> final(layout)@ == new_cfg.layout@ && final(st)@
            == reseated(old(st)@, new_cfg.layout@) && r.layout_entries is Some
            && r.layout_entries->Some_0 == new_cfg.layout@.dom().len(),
{
    let notify = take_over(
        &mut prefs.notify,
        old_cfg.notify_on_focus,
        new_cfg.notify_on_focus,
    );
    let overlay = take_over(
        &mut prefs.overlay,
        old_cfg.overlay_on_focus,
        new_cfg.overlay_on_focus,
    );
    let restart_required = old_cfg.port != new_cfg.port || !same_text(
        old_cfg.bind.as_str(),
        new_cfg.bind.as_str(),
    ) || !same_text(old_cfg.psk.as_str(), new_cfg.psk.as_str()) || !same_texts(
        &old_cfg.cert_dir,
        &new_cfg.cert_dir,
    );
    let hotkey_ignored = old_cfg.hotkey != new_cfg.hotkey;
    let layout_entries = if layout_equal(&old_cfg.layout, &new_cfg.layout) {
        None
    } else {
        *layout = new_cfg.layout.clone();
        apply_layout_to_connected(st, &new_cfg.layout);
        Some(new_cfg.layout.len())
    };
    ReloadReport { notify, overlay, restart_required, hotkey_ignored, layout_entries }
}

/// Where the server ran with the wishes of the old configuration, it runs with those of the new one
/// after a reload.
pub proof fn reload_follows_the_file(old_cfg: ServerConfig, new_cfg: ServerConfig)
    ensures
        taken_over(
            old_cfg.notify_on_focus,
            changed_to(old_cfg.notify_on_focus, new_cfg.notify_on_focus),
        ) == new_cfg.notify_on_focus,
        taken_over(
            old_cfg.overlay_on_focus,
            changed_to(old_cfg.overlay_on_focus, new_cfg.overlay_on_focus),
        ) == new_cfg.overlay_on_focus,
{
}

/// Moving the clients to other places keeps the state sound, and applying the same layout again
/// changes nothing.
pub proof fn reseating_keeps_state_sound(s: StateView, layout: Map<Seq<char>, Position>)
    requires
        s.wf(),
    ensures
        reseated(s, layout).wf(),
        reseated(reseated(s, layout), layout) == reseated(s, layout),
{
    let t = reseated(s, layout);
    assert(reseated(t, layout).clients =~= t.clients);
    assert forall|id: ClientId| #[trigger] t.clients.dom().contains(id) implies t.clients[id].id
        == id && id < t.next_id by {
        assert(s.clients.dom().contains(id));
    }
}

/// After a reload every client sits where the new layout says, under its own name, or to the right
/// where it says nothing; of no client anything else changes, and neither does the focus.
pub proof fn reload_moves_everybody(
    s: StateView,
    layout: Map<Seq<char>, Position>,
    id: ClientId,
)
    requires
        s.clients.dom().contains(id),
    ensures
        ({
            let t = reseated(s, layout);
            let c = s.clients[id];
            &&& layout.dom().contains(c.hostname) ==> t.clients[id] == (ClientView {
                position: layout[c.hostname],
                ..c
            })
            &&& !layout.dom().contains(c.hostname) ==> t.clients[id] == (ClientView {
                position: Position::Right,
                ..c
            })
            &&& t.clients.dom() == s.clients.dom()
            &&& t.order == s.order && t.focus == s.focus && t.counters == s.counters
        }),
{
    assert(reseated(s, layout).clients.dom() =~= s.clients.dom());
}

/// A restart is asked for if the port, the address, the passphrase or the place of the certificate
/// changes, by any of them alone, and for nothing else.
pub proof fn restarts_are_asked_for(a: ServerConfig, b: ServerConfig)
    ensures
        a.port != b.port ==> needs_restart(a, b),
        a.bind@ != b.bind@ ==> needs_restart(a, b),
        a.psk@ != b.psk@ ==> needs_restart(a, b),
        texts(a.cert_dir@) != texts(b.cert_dir@) ==> needs_restart(a, b),
        a.port == b.port && a.bind == b.bind && a.psk == b.psk && a.cert_dir == b.cert_dir
            ==> !needs_restart(a, b),
{
}

} // verus!
