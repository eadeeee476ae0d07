//! Moving the focus between the server's own machine and its clients, and routing the input.

use crate::capture::{hotkey, hotkey_direction, CaptureEvent, VirtualBounds};
use crate::clipboard::{Notice, NoticeView};
use crate::config::{HotkeyConfig, Position};
use crate::metrics::{counted_on, inc, Counters};
use crate::protocol::{Edge, KeyCode, Message, MessageView, Modifiers};
use crate::state::{
    entry_edge_for_position, facing_edge, position_beyond, position_for_server_edge, ClientId,
    ClientView, Focus, ServerState, StateView,
};
use crate::text::{cat, decimal, decimal_text, owned};
use crate::wire::{signed32, u32_to_i32};
use vstd::prelude::*;

verus! {

/// How many pixels from the border count as the edge.
pub const EDGE_BAND: i32 = 2;

/// How many pixels from the edge the cursor is placed when it enters a screen.
pub const INSET: i32 = 8;

/// What the user wants to be told of a change of focus.
#[derive(Debug, Clone, Copy, PartialEq, Eq, Structural)]
pub struct FocusPrefs {
    pub notify: bool,
    pub overlay: bool,
}

/// What a change of focus asks of the program.
#[derive(Debug, PartialEq, Eq)]
pub struct FocusEffect {
    /// Whether local input is captured from now on.
    pub capturing: bool,
    pub notice: Option<Notice>,
    /// The text of the banner.
    pub overlay: Option<String>,
}

/// What a [`FocusEffect`] says.
pub struct FocusEffectView {
    pub capturing: bool,
    pub notice: Option<NoticeView>,
    pub overlay: Option<Seq<char>>,
}

impl View for FocusEffect {
    type V = FocusEffectView;

    open spec fn view(&self) -> FocusEffectView {
        FocusEffectView {
            capturing: self.capturing,
            notice: match self.notice {
                Some(n) => Some(n@),
                None => None,
            },
            overlay: match self.overlay {
                Some(t) => Some(t@),
                None => None,
            },
        }
    }
}

/// What an optional effect says.
pub open spec fn effect_view(e: Option<FocusEffect>) -> Option<FocusEffectView> {
    match e {
        Some(e) => Some(e@),
        None => None,
    }
}

/// Half of a number, rounded towards zero.
pub open spec fn half(n: i32) -> i32 {
    if n < 0 {
        -((-n) / 2) as i32
    } else {
        (n / 2) as i32
    }
}

/// The place that is so many pixels inside the far border of a side of length `n`. It wraps around
/// below the smallest number.
pub open spec fn inside_far(n: i32) -> i32 {
    if n - INSET - 1 < i32::MIN {
        (n - INSET - 1 + 0x1_0000_0000) as i32
    } else {
        (n - INSET - 1) as i32
    }
}

/// The place just inside an edge of a screen, in the middle of it.
pub open spec fn entry_point(w: i32, h: i32, edge: Edge) -> (i32, i32) {
    match edge {
        Edge::Left => (INSET, half(h)),
        Edge::Right => (inside_far(w), half(h)),
        Edge::Top => (half(w), INSET),
        Edge::Bottom => (half(w), inside_far(h)),
    }
}

fn half_of(n: i32) -> (r: i32)
    ensures
        r == half(n),
{
    if n >= 0 {
        n / 2
    } else {
        let m: i64 = -(n as i64);
        (-(m / 2)) as i32
    }
}

/// A place a few pixels inside `edge`, so that the first motion does not leave through it at once.
pub fn place_cursor_inside_edge(w: i32, h: i32, edge: Edge) -> (r: (i32, i32))
    ensures
        r == entry_point(w, h, edge),
{
    let cx: i32 = half_of(w);
    let cy: i32 = half_of(h);
    match edge {
        Edge::Left => (INSET, cy),
        Edge::Right => (w.wrapping_sub(INSET + 1), cy),
        Edge::Top => (cx, INSET),
        Edge::Bottom => (cx, h.wrapping_sub(INSET + 1)),
    }
}

/// The cursor is placed on the screen, away from the edge that it came through, wherever the screen
/// is wide and high enough.
pub proof fn entry_point_is_inside(w: i32, h: i32, edge: Edge)
    requires
        w > INSET,
        h > INSET,
    ensures
        0 <= entry_point(w, h, edge).0 < w,
        0 <= entry_point(w, h, edge).1 < h,
        edge == Edge::Left ==> entry_point(w, h, edge).0 == INSET,
        edge == Edge::Right ==> entry_point(w, h, edge).0 == w - 1 - INSET,
        edge == Edge::Top ==> entry_point(w, h, edge).1 == INSET,
        edge == Edge::Bottom ==> entry_point(w, h, edge).1 == h - 1 - INSET,
{
}

/// Where the cursor enters a client's screen: a fixed place, where the screen is not known.
pub open spec fn entry_on(screen: Option<(u32, u32)>, edge: Edge) -> (i32, i32) {
    match screen {
        Some((w, h)) => entry_point(signed32(w as nat), signed32(h as nat), edge),
        None => (100i32, 100i32),
    }
}

/// The name of what has the focus.
pub open spec fn focus_label(s: StateView, f: Focus) -> Seq<char> {
    match f {
        Focus::Local => "local"@,
        Focus::Remote { client_id, .. } => if s.clients.dom().contains(client_id) {
            s.clients[client_id].hostname
        } else {
            "client #"@ + decimal(client_id as nat)
        },
    }
}

/// After the client that has the focus was told to let go of it.
pub open spec fn released(s: StateView) -> StateView {
    match s.focus {
        Focus::Remote { client_id, .. } => s.sent_to(client_id, MessageView::LeaveScreen),
        Focus::Local => s,
    }
}

/// After the client that gets the focus was told so: through which edge the cursor came and has to
/// leave again, and where it is.
pub open spec fn received(s: StateView, f: Focus) -> StateView {
    match f {
        Focus::Remote { client_id, entry_edge } => if s.clients.dom().contains(client_id) {
            let (x, y) = entry_on(s.clients[client_id].screen, entry_edge);
            s.sent_to(client_id, MessageView::SetExitEdge { edge: entry_edge }).sent_to(
                client_id,
                MessageView::EnterScreen { x, y },
            )
        } else {
            s
        },
        Focus::Local => s,
    }
}

/// After the focus has moved to `f`.
pub open spec fn focused(s: StateView, f: Focus) -> StateView {
    let t = received(released(s), f);
    StateView {
        focus: f,
        counters: Counters { focus_switches: counted_on(t.counters.focus_switches, 1), ..t.counters },
        ..t
    }
}

/// What a move of the focus to `f` asks of the program.
pub open spec fn focus_effect(s: StateView, f: Focus, prefs: FocusPrefs) -> FocusEffectView {
    let label = focus_label(s, f);
    FocusEffectView {
        capturing: f is Remote,
        notice: if prefs.notify {
            Some(NoticeView { summary: "Union"@, body: "focus → "@ + label })
        } else {
            None
        },
        overlay: if prefs.overlay {
            Some("→ "@ + label)
        } else {
            None
        },
    }
}

/// The name of a client.
fn hostname_of(st: &ServerState, id: ClientId) -> (r: Option<String>)
    ensures
        match r {
            Some(h) => st@.clients.dom().contains(id) && h@ == st@.clients[id].hostname,
            None => !st@.clients.dom().contains(id),
        },
{
    broadcast use vstd::std_specs::hash::group_hash_axioms;

    match st.clients.get(&id) {
        Some(c) => Some(c.hostname.clone()),
        None => None,
    }
}

/// Moves the focus: the client that had it lets go, the one that gets it is told, and the program
/// is told whether to capture.
pub fn apply_focus_change(st: &mut ServerState, new_focus: Focus, prefs: FocusPrefs) -> (r:
    FocusEffect)
    ensures
        final(st)@ == focused(old(st)@, new_focus),
        r@ == focus_effect(old(st)@, new_focus, prefs),
{
    broadcast use vstd::std_specs::hash::group_hash_axioms;

    if let Focus::Remote { client_id: prev, .. } = st.focus {
        st.send_to(prev, Message::LeaveScreen);
    }
    assert(st@ == released(old(st)@));
    if let Focus::Remote { client_id: next, entry_edge } = new_focus {
        let entry = match st.clients.get(&next) {
            Some(c) => Some(
                match c.screen {
                    Some((w, h)) => place_cursor_inside_edge(
                        u32_to_i32(w),
                        u32_to_i32(h),
                        entry_edge,
                    ),
                    None => (100, 100),
                },
            ),
            None => None,
        };
        if let Some((x, y)) = entry {
            st.send_to(next, Message::SetExitEdge { edge: entry_edge });
            st.send_to(next, Message::EnterScreen { x, y });
        }
    }
    let label = match new_focus {
        Focus::Local => owned("local"),
        Focus::Remote { client_id, .. } => match hostname_of(st, client_id) {
            Some(h) => h,
            None => {
                let n = decimal_text(client_id);
                cat("client #", n.as_str())
            },
        },
    };
    st.focus = new_focus;
    inc(&mut st.counters.focus_switches, 1);
    let capturing = match new_focus {
        Focus::Remote { .. } => true,
        Focus::Local => false,
    };
    let notice = if prefs.notify {
        Some(Notice { summary: owned("Union"), body: cat("focus → ", label.as_str()) })
    } else {
        None
    };
    let overlay = if prefs.overlay {
        Some(cat("→ ", label.as_str()))
    } else {
        None
    };
    FocusEffect { capturing, notice, overlay }
}

/// Moves the focus back to the server's own machine.
pub fn return_to_local(st: &mut ServerState, prefs: FocusPrefs) -> (r: FocusEffect)
    ensures
        final(st)@ == focused(old(st)@, Focus::Local),
        r@ == focus_effect(old(st)@, Focus::Local, prefs),
{
    apply_focus_change(st, Focus::Local, prefs)
}

/// The bounds are not so close to the ends of the number range that the edge band leaves it.
pub open spec fn bounds_fit(b: VirtualBounds) -> bool {
    &&& b.min_x + EDGE_BAND <= i32::MAX
    &&& b.min_y + EDGE_BAND <= i32::MAX
    &&& b.max_x - 1 - EDGE_BAND >= i32::MIN
    &&& b.max_y - 1 - EDGE_BAND >= i32::MIN
}

/// The edge that a cursor touches. In a corner it is the left or right one.
pub open spec fn edge_at(x: i32, y: i32, b: VirtualBounds) -> Option<Edge> {
    if x <= b.min_x + EDGE_BAND {
        Some(Edge::Left)
    } else if x >= b.max_x - 1 - EDGE_BAND {
        Some(Edge::Right)
    } else if y <= b.min_y + EDGE_BAND {
        Some(Edge::Top)
    } else if y >= b.max_y - 1 - EDGE_BAND {
        Some(Edge::Bottom)
    } else {
        None
    }
}

pub fn detect_edge(x: i32, y: i32, bounds: VirtualBounds) -> (r: Option<Edge>)
    requires
        bounds_fit(bounds),
    ensures
        r == edge_at(x, y, bounds),
{
    if x <= bounds.min_x + EDGE_BAND {
        Some(Edge::Left)
    } else if x >= bounds.max_x - 1 - EDGE_BAND {
        Some(Edge::Right)
    } else if y <= bounds.min_y + EDGE_BAND {
        Some(Edge::Top)
    } else if y >= bounds.max_y - 1 - EDGE_BAND {
        Some(Edge::Bottom)
    } else {
        None
    }
}

/// The first client, from place `i` on, that sits at a position.
pub open spec fn first_at(s: StateView, p: Position, i: int) -> Option<ClientId>
    decreases s.order.len() - i,
{
    if i < 0 || i >= s.order.len() {
        None
    } else if s.clients.dom().contains(s.order[i]) && s.clients[s.order[i]].position == p {
        Some(s.order[i])
    } else {
        first_at(s, p, i + 1)
    }
}

/// Where the focus goes when the cursor crosses an edge of the server's screen: to the client that
/// sits there, if there is one.
pub open spec fn focus_beyond(s: StateView, edge: Edge) -> Option<Focus> {
    let p = position_beyond(edge);
    match first_at(s, p, 0) {
        Some(client_id) => Some(Focus::Remote { client_id, entry_edge: facing_edge(p) }),
        None => None,
    }
}

/// The position of a client.
fn position_of(st: &ServerState, id: ClientId) -> (r: Option<Position>)
    ensures
        r == if st@.clients.dom().contains(id) {
            Some(st@.clients[id].position)
        } else {
            None
        },
{
    broadcast use vstd::std_specs::hash::group_hash_axioms;

    match st.clients.get(&id) {
        Some(c) => Some(c.position),
        None => None,
    }
}

/// The cursor crossed an edge of the server's screen: the client beyond it gets the focus. Where
/// there is none, nothing happens.
pub fn cross_edge(st: &mut ServerState, server_edge: Edge, prefs: FocusPrefs) -> (r: Option<
    FocusEffect,
>)
    ensures
        match focus_beyond(old(st)@, server_edge) {
            Some(f) => final(st)@ == focused(old(st)@, f) && effect_view(r) == Some(
                focus_effect(old(st)@, f, prefs),
            ),
            None => final(st)@ == old(st)@ && r is None,
        },
{
    let target = position_for_server_edge(server_edge);
    let n: usize = st.order.len();
    let mut i: usize = 0;
    while i < n
        invariant
            i <= n,
            n == st@.order.len(),
            st@ == old(st)@,
            first_at(st@, target, 0) == first_at(st@, target, i as int),
            target == position_beyond(server_edge),
        decreases n - i,
    {
        let id = st.order[i];
        let hit = match position_of(st, id) {
            Some(p) => p == target,
            None => false,
        };
        if hit {
            let entry_edge = entry_edge_for_position(target);
            let effect = apply_focus_change(
                st,
                Focus::Remote { client_id: id, entry_edge },
                prefs,
            );
            return Some(effect);
        }
        i = i + 1;
    }
    None
}

/// The first place, from `i` on, at which a client is listed.
pub open spec fn place_from(order: Seq<ClientId>, id: ClientId, i: int) -> Option<int>
    decreases order.len() - i,
{
    if i < 0 || i >= order.len() {
        None
    } else if order[i] == id {
        Some(i)
    } else {
        place_from(order, id, i + 1)
    }
}

/// The edge that the cursor is taken to have come through when a hotkey moves the focus.
pub open spec fn assumed_entry(dir: i32) -> Edge {
    if dir > 0 {
        Edge::Left
    } else {
        Edge::Right
    }
}

/// Where a hotkey moves the focus: along the list of clients, and off either end of it to the
/// server's own machine. From there it goes to the first client, or backward to the last.
pub open spec fn focus_along(s: StateView, dir: i32) -> Focus
    recommends
        s.order.len() > 0,
{
    let entry_edge = assumed_entry(dir);
    match s.focus {
        Focus::Local => Focus::Remote {
            client_id: if dir > 0 {
                s.order[0]
            } else {
                s.order.last()
            },
            entry_edge,
        },
        Focus::Remote { client_id, .. } => match place_from(s.order, client_id, 0) {
            None => Focus::Local,
            Some(i) => if 0 <= i + dir < s.order.len() {
                Focus::Remote { client_id: s.order[i + dir], entry_edge }
            } else {
                Focus::Local
            },
        },
    }
}

/// The place at which a client is listed.
fn find_place(order: &Vec<ClientId>, id: ClientId) -> (r: Option<usize>)
    ensures
        match r {
            Some(i) => place_from(order@, id, 0) == Some(i as int) && i < order@.len(),
            None => place_from(order@, id, 0) is None,
        },
{
    let n: usize = order.len();
    let mut i: usize = 0;
    while i < n
        invariant
            i <= n,
            n == order@.len(),
            place_from(order@, id, 0) == place_from(order@, id, i as int),
        decreases n - i,
    {
        if order[i] == id {
            return Some(i);
        }
        i = i + 1;
    }
    None
}

/// A hotkey was pressed: moves the focus along the list of clients. With no clients nothing
/// happens.
pub fn hotkey_cycle(st: &mut ServerState, dir: i32, prefs: FocusPrefs) -> (r: Option<FocusEffect>)
    requires
        old(st)@.order.len() <= i32::MAX,
        old(st)@.order.len() + dir <= i32::MAX,
    ensures
        old(st)@.order.len() == 0 ==> final(st)@ == old(st)@ && r is None,
        old(st)@.order.len() > 0 ==> final(st)@ == focused(old(st)@, focus_along(old(st)@, dir))
            && effect_view(r) == Some(
            focus_effect(old(st)@, focus_along(old(st)@, dir), prefs),
        ),
{
    let n: usize = st.order.len();
    if n == 0 {
        return None;
    }
    let entry_edge = if dir > 0 {
        Edge::Left
    } else {
        Edge::Right
    };
    let new_focus = match st.focus {
        Focus::Local => {
            let client_id = if dir > 0 {
                st.order[0]
            } else {
                st.order[n - 1]
            };
            Focus::Remote { client_id, entry_edge }
        },
        Focus::Remote { client_id, .. } => match find_place(&st.order, client_id) {
            None => Focus::Local,
            Some(i) => {
                let next: i32 = i as i32 + dir;
                if next < 0 || next >= n as i32 {
                    Focus::Local
                } else {
                    Focus::Remote { client_id: st.order[next as usize], entry_edge }
                }
            },
        },
    };
    Some(apply_focus_change(st, new_focus, prefs))
}

/// The message that passes an event on to a client.
pub open spec fn event_message(ev: CaptureEvent) -> MessageView {
    match ev {
        CaptureEvent::MouseMove { dx, dy, .. } => MessageView::MouseMove { dx, dy },
        CaptureEvent::MouseButton { button, pressed } => MessageView::MouseButton {
            button,
            pressed,
        },
        CaptureEvent::MouseWheel { dx, dy } => MessageView::MouseWheel { dx, dy },
        CaptureEvent::Key { key, pressed, modifiers } => MessageView::KeyEvent {
            key,
            pressed,
            modifiers,
        },
    }
}

/// The cursor is away from every edge.
pub open spec fn in_safe_zone(x: i32, y: i32, b: VirtualBounds) -> bool {
    &&& b.min_x + EDGE_BAND < x < b.max_x - 1 - EDGE_BAND
    &&& b.min_y + EDGE_BAND < y < b.max_y - 1 - EDGE_BAND
}

/// The cursor is away from every edge exactly when it touches none.
pub proof fn safe_zone_touches_no_edge(x: i32, y: i32, b: VirtualBounds)
    ensures
        in_safe_zone(x, y, b) <==> edge_at(x, y, b) is None,
{
}

/// What comes of an event.
pub struct RoutedView {
    pub state: StateView,
    /// Whether the next touch of an edge counts.
    pub armed: bool,
    pub effect: Option<FocusEffectView>,
}

/// Routes one event. A hotkey moves the focus. While the focus is local, a cursor that touches an
/// edge moves it too, once until the cursor has been away from the edges; other events are dropped.
/// While a client has the focus, it gets the event.
pub open spec fn routed(
    s: StateView,
    armed: bool,
    ev: CaptureEvent,
    hk: HotkeyConfig,
    b: VirtualBounds,
    prefs: FocusPrefs,
) -> RoutedView {
    match hotkey_direction(hk, ev) {
        Some(dir) => if s.order.len() == 0 {
            RoutedView { state: s, armed: true, effect: None }
        } else {
            let f = focus_along(s, dir);
            RoutedView {
                state: focused(s, f),
                armed: true,
                effect: Some(focus_effect(s, f, prefs)),
            }
        },
        None => match s.focus {
            Focus::Local => match ev {
                CaptureEvent::MouseMove { x, y, .. } => match edge_at(x, y, b) {
                    Some(edge) => match focus_beyond(s, edge) {
                        Some(f) => if armed {
                            RoutedView {
                                state: focused(s, f),
                                armed: false,
                                effect: Some(focus_effect(s, f, prefs)),
                            }
                        } else {
                            RoutedView { state: s, armed, effect: None }
                        },
                        None => RoutedView { state: s, armed, effect: None },
                    },
                    None => RoutedView { state: s, armed: true, effect: None },
                },
                _ => RoutedView { state: s, armed, effect: None },
            },
            Focus::Remote { client_id, .. } => RoutedView {
                state: s.sent_to(client_id, event_message(ev)),
                armed,
                effect: None,
            },
        },
    }
}

/// Routes one event.
pub fn route(
    st: &mut ServerState,
    armed: &mut bool,
    ev: CaptureEvent,
    hk: &HotkeyConfig,
    bounds: VirtualBounds,
    prefs: FocusPrefs,
) -> (r: Option<FocusEffect>)
    requires
        bounds_fit(bounds),
        old(st)@.order.len() < i32::MAX,
    ensures
        (RoutedView { state: final(st)@, armed: *final(armed), effect: effect_view(r) }) == routed(
            old(st)@,
            *old(armed),
            ev,
            *hk,
            bounds,
            prefs,
        ),
{
    if let Some(dir) = hotkey(hk, &ev) {
        *armed = true;
        return hotkey_cycle(st, dir, prefs);
    }
    match st.focus {
        Focus::Local => {
            if let CaptureEvent::MouseMove { x, y, .. } = ev {
                let in_safe = x > bounds.min_x + EDGE_BAND && x < bounds.max_x - 1 - EDGE_BAND
                    && y > bounds.min_y + EDGE_BAND && y < bounds.max_y - 1 - EDGE_BAND;
                match detect_edge(x, y, bounds) {
                    Some(edge) => {
                        if *armed {
                            let effect = cross_edge(st, edge, prefs);
                            if effect.is_some() {
                                *armed = false;
                            }
                            return effect;
                        }
                    },
                    None => {
                        if in_safe {
                            *armed = true;
                        }
                    },
                }
            }
            None
        },
        Focus::Remote { client_id, .. } => {
            let msg = match ev {
                CaptureEvent::MouseMove { dx, dy, .. } => Message::MouseMove { dx, dy },
                CaptureEvent::MouseButton { button, pressed } => Message::MouseButton {
                    button,
                    pressed,
                },
                CaptureEvent::MouseWheel { dx, dy } => Message::MouseWheel { dx, dy },
                CaptureEvent::Key { key, pressed, modifiers } => Message::KeyEvent {
                    key,
                    pressed,
                    modifiers,
                },
            };
            st.send_to(client_id, msg);
            None
        },
    }
}

/// A place that is found is the place of the client, and every listed client is found.
proof fn lemma_place_from(order: Seq<ClientId>, id: ClientId, i: int)
    requires
        0 <= i <= order.len(),
    ensures
        match place_from(order, id, i) {
            Some(j) => i <= j < order.len() && order[j] == id,
            None => forall|j: int| i <= j < order.len() ==> order[j] != id,
        },
    decreases order.len() - i,
{
    if i < order.len() && order[i] != id {
        lemma_place_from(order, id, i + 1);
        if place_from(order, id, i + 1) is None {
            assert forall|j: int| i <= j < order.len() implies order[j] != id by {}
        }
    }
}

/// In a list without repetitions a client is found at its place.
proof fn lemma_place_of(order: Seq<ClientId>, k: int)
    requires
        order.no_duplicates(),
        0 <= k < order.len(),
    ensures
        place_from(order, order[k], 0) == Some(k),
{
    lemma_place_from(order, order[k], 0);
}

/// Whoever sits at a position is a client.
proof fn lemma_first_at(s: StateView, p: Position, i: int)
    requires
        0 <= i <= s.order.len(),
    ensures
        match first_at(s, p, i) {
            Some(id) => s.clients.dom().contains(id) && s.clients[id].position == p
                && s.order.contains(id),
            None => forall|j: int|
                i <= j < s.order.len() && s.clients.dom().contains(#[trigger] s.order[j])
                    ==> s.clients[s.order[j]].position != p,
        },
    decreases s.order.len() - i,
{
    if i < s.order.len() {
        lemma_first_at(s, p, i + 1);
    }
}

/// Moving the focus to a client that is there, or to the server's own machine, keeps the state
/// sound, and the number of clients the same.
pub proof fn focusing_keeps_state_sound(s: StateView, f: Focus)
    requires
        s.wf(),
        f matches Focus::Remote { client_id, .. } ==> s.clients.dom().contains(client_id),
    ensures
        focused(s, f).wf(),
        focused(s, f).order == s.order,
        focused(s, f).clients.dom() == s.clients.dom(),
        focused(s, f).focus == f,
{
    let t = focused(s, f);
    assert(t.clients.dom() =~= s.clients.dom());
    assert forall|id: ClientId| #[trigger] t.clients.dom().contains(id) implies t.clients[id].id
        == id by {
        assert(s.clients.dom().contains(id));
    }
}

/// Where the focus goes over an edge is to a client that is there and sits beyond that edge, and
/// the cursor has to come back through the edge of the client's screen that faces the server. It
/// stays where it is only if nobody sits there.
pub proof fn crossing_reaches_the_neighbour(s: StateView, edge: Edge)
    ensures
        match focus_beyond(s, edge) {
            Some(Focus::Remote { client_id, entry_edge }) => s.clients.dom().contains(client_id)
                && s.clients[client_id].position == position_beyond(edge) && entry_edge
                == edge.across(),
            Some(Focus::Local) => false,
            None => forall|j: int|
                0 <= j < s.order.len() && s.clients.dom().contains(#[trigger] s.order[j])
                    ==> s.clients[s.order[j]].position != position_beyond(edge),
        },
{
    lemma_first_at(s, position_beyond(edge), 0);
}

/// Routing an event keeps the state sound, and changes neither who is connected nor in what order.
/// Input is captured from then on exactly if a client has the focus, wherever the focus moved.
pub proof fn routing_keeps_state_sound(
    s: StateView,
    armed: bool,
    ev: CaptureEvent,
    hk: HotkeyConfig,
    b: VirtualBounds,
    prefs: FocusPrefs,
)
    requires
        s.wf(),
    ensures
        ({
            let r = routed(s, armed, ev, hk, b, prefs);
            &&& r.state.wf()
            &&& r.state.order == s.order
            &&& r.state.clients.dom() == s.clients.dom()
            &&& r.effect matches Some(e) ==> e.capturing == (r.state.focus is Remote)
            &&& r.effect is None ==> r.state.focus == s.focus
        }),
{
    let r = routed(s, armed, ev, hk, b, prefs);
    match hotkey_direction(hk, ev) {
        Some(dir) => if s.order.len() > 0 {
            let f = focus_along(s, dir);
            assert(s.order.contains(s.order[0]));
            assert(s.order.contains(s.order[s.order.len() - 1]));
            if let Focus::Remote { client_id, .. } = s.focus {
                lemma_place_from(s.order, client_id, 0);
                if let Some(i) = place_from(s.order, client_id, 0) {
                    if 0 <= i + dir < s.order.len() {
                        assert(s.order.contains(s.order[i + dir]));
                    }
                }
            }
            focusing_keeps_state_sound(s, f);
        },
        None => match s.focus {
            Focus::Local => if let CaptureEvent::MouseMove { x, y, .. } = ev {
                if let Some(edge) = edge_at(x, y, b) {
                    crossing_reaches_the_neighbour(s, edge);
                    if let Some(f) = focus_beyond(s, edge) {
                        focusing_keeps_state_sound(s, f);
                    }
                }
            },
            Focus::Remote { client_id, .. } => {
                let t = s.sent_to(client_id, event_message(ev));
                assert(t.clients.dom() =~= s.clients.dom());
            },
        },
    }
}

/// The state after the focus was moved along the list `k` times.
pub open spec fn cycled(s: StateView, dir: i32, k: nat) -> StateView
    decreases k,
{
    if k == 0 {
        s
    } else {
        let t = cycled(s, dir, (k - 1) as nat);
        focused(t, focus_along(t, dir))
    }
}

/// Who has the focus.
pub open spec fn holder(f: Focus) -> Option<ClientId> {
    match f {
        Focus::Local => None,
        Focus::Remote { client_id, .. } => Some(client_id),
    }
}

/// The place of whoever has the focus, in the round of the machines: the server's own machine comes
/// first, and then the clients in order.
pub open spec fn slot(s: StateView) -> int {
    match s.focus {
        Focus::Local => 0,
        Focus::Remote { client_id, .. } => match place_from(s.order, client_id, 0) {
            Some(i) => i + 1,
            None => 0,
        },
    }
}

/// The machine at a place in the round.
pub open spec fn machine_at(order: Seq<ClientId>, slot: int) -> Option<ClientId> {
    if 1 <= slot <= order.len() {
        Some(order[slot - 1])
    } else {
        None
    }
}

/// The number of machines in the round.
pub open spec fn round_len(s: StateView) -> int {
    s.order.len() as int + 1
}

/// The place next to another in the round, in either direction.
proof fn lemma_next_slot(p: int, dir: int, n: int)
    requires
        0 <= p < n,
        dir == 1 || dir == -1,
    ensures
        (p + dir) % n == if p + dir == n {
            0
        } else if p + dir == -1 {
            n - 1
        } else {
            p + dir
        },
{
    if p + dir == n {
        vstd::arithmetic::div_mod::lemma_mod_self_0(n);
    } else if p + dir == -1 {
        vstd::arithmetic::div_mod::lemma_fundamental_div_mod_converse(-1, n, -1, n - 1);
    } else {
        vstd::arithmetic::div_mod::lemma_small_mod((p + dir) as nat, n as nat);
    }
}

/// A hotkey moves the focus to the next machine in the round, in its direction, and a client is
/// entered from the left forward and from the right backward.
pub proof fn cycling_moves_to_the_next(s: StateView, dir: i32)
    requires
        s.wf(),
        s.order.len() > 0,
        dir == 1 || dir == -1,
    ensures
        ({
            let f = focus_along(s, dir);
            let t = focused(s, f);
            &&& 0 <= slot(s) < round_len(s)
            &&& holder(s.focus) == machine_at(s.order, slot(s))
            &&& t.wf()
            &&& t.order == s.order
            &&& t.focus == f
            &&& slot(t) == (slot(s) + dir) % round_len(s)
            &&& holder(f) == machine_at(s.order, slot(t))
            &&& f matches Focus::Remote { entry_edge, .. } ==> entry_edge == if dir == 1 {
                Edge::Left
            } else {
                Edge::Right
            }
        }),
{
    let n = s.order.len() as int;
    let f = focus_along(s, dir);
    if let Focus::Remote { client_id, .. } = s.focus {
        assert(s.order.contains(client_id));
        let k = choose|k: int| 0 <= k < n && s.order[k] == client_id;
        lemma_place_of(s.order, k);
    }
    lemma_next_slot(slot(s), dir as int, n + 1);
    if let Focus::Remote { client_id, .. } = f {
        let k = (slot(s) + dir) % (n + 1) - 1;
        assert(0 <= k < n && client_id == s.order[k]);
        assert(s.order.contains(s.order[k]));
        lemma_place_of(s.order, k);
    }
    focusing_keeps_state_sound(s, f);
}

/// After any number of steps in one direction the focus is that many places further in the round.
pub proof fn cycling_goes_round(s: StateView, dir: i32, k: nat)
    requires
        s.wf(),
        s.order.len() > 0,
        dir == 1 || dir == -1,
    ensures
        cycled(s, dir, k).wf(),
        cycled(s, dir, k).order == s.order,
        slot(cycled(s, dir, k)) == (slot(s) + dir * k) % round_len(s),
        holder(cycled(s, dir, k).focus) == machine_at(
            s.order,
            (slot(s) + dir * k) % round_len(s),
        ),
    decreases k,
{
    let n = round_len(s);
    cycling_moves_to_the_next(s, dir);
    if k == 0 {
        vstd::arithmetic::div_mod::lemma_small_mod(slot(s) as nat, n as nat);
        assert(dir * 0 == 0);
    } else {
        let t = cycled(s, dir, (k - 1) as nat);
        cycling_goes_round(s, dir, (k - 1) as nat);
        cycling_moves_to_the_next(t, dir);
        let x = slot(s) + dir * (k - 1);
        assert(x + dir == slot(s) + dir * k) by (nonlinear_arith)
            requires
                x == slot(s) + dir * (k - 1),
        ;
        vstd::arithmetic::div_mod::lemma_add_mod_noop(x, dir as int, n);
        vstd::arithmetic::div_mod::lemma_add_mod_noop(x % n, dir as int, n);
        vstd::arithmetic::div_mod::lemma_mod_twice(x, n);
        cycling_moves_to_the_next(cycled(s, dir, k), dir);
    }
}

/// From wherever the focus is, as many steps in one direction as there are machines visit every
/// client once, and come back to where the focus was.
pub proof fn cycling_visits_all(s: StateView, dir: i32)
    requires
        s.wf(),
        s.order.len() > 0,
        dir == 1 || dir == -1,
    ensures
        holder(cycled(s, dir, round_len(s) as nat).focus) == holder(s.focus),
        forall|i: nat, j: nat|
            1 <= i < j <= round_len(s) ==> holder((#[trigger] cycled(s, dir, i)).focus) != holder(
                (#[trigger] cycled(s, dir, j)).focus,
            ),
        forall|id: ClientId| #[trigger]
            s.order.contains(id) ==> exists|k: nat|
                1 <= k <= round_len(s) && holder((#[trigger] cycled(s, dir, k)).focus) == Some(id),
{
    let n = round_len(s);
    let p = slot(s);
    cycling_moves_to_the_next(s, dir);
    assert forall|k: nat| holder((#[trigger] cycled(s, dir, k)).focus) == machine_at(
        s.order,
        (p + dir * k) % n,
    ) && 0 <= (p + dir * k) % n < n by {
        cycling_goes_round(s, dir, k);
        vstd::arithmetic::div_mod::lemma_mod_bound(p + dir * k, n);
    }
    // Back at the start.
    vstd::arithmetic::div_mod::lemma_mod_multiples_vanish(dir as int, p, n);
    vstd::arithmetic::div_mod::lemma_small_mod(p as nat, n as nat);
    assert(n * dir + p == p + dir * n) by (nonlinear_arith);
    assert(holder(cycled(s, dir, n as nat).focus) == machine_at(s.order, p));
    // No machine twice.
    assert forall|i: nat, j: nat| 1 <= i < j <= n implies holder(
        (#[trigger] cycled(s, dir, i)).focus,
    ) != holder((#[trigger] cycled(s, dir, j)).focus) by {
        let a = (p + dir * i) % n;
        let b = (p + dir * j) % n;
        if a == b {
            let d = dir * j - dir * i;
            assert(d == dir * (j - i)) by (nonlinear_arith)
                requires
                    d == dir * j - dir * i,
            ;
            assert(d == j - i || d == -(j - i));
            vstd::arithmetic::div_mod::lemma_fundamental_div_mod(p + dir * i, n);
            vstd::arithmetic::div_mod::lemma_fundamental_div_mod(p + dir * j, n);
            let q = (p + dir * j) / n - (p + dir * i) / n;
            assert(d == n * q) by (nonlinear_arith)
                requires
                    p + dir * i == n * ((p + dir * i) / n) + a,
                    p + dir * j == n * ((p + dir * j) / n) + b,
                    a == b,
                    d == dir * j - dir * i,
                    q == (p + dir * j) / n - (p + dir * i) / n,
            ;
            assert(false) by (nonlinear_arith)
                requires
                    d == n * q,
                    -n < d < n,
                    d != 0,
                    n > 0,
            ;
        }
        if a > 0 && b > 0 {
            assert(s.order[a - 1] != s.order[b - 1]);
        }
    }
    // Every client once.
    assert forall|id: ClientId| #[trigger] s.order.contains(id) implies exists|k: nat|
        1 <= k <= n && holder((#[trigger] cycled(s, dir, k)).focus) == Some(id) by {
        let c = choose|c: int| 0 <= c < s.order.len() && s.order[c] == id;
        let steps = (dir * (c + 1 - p)) % n;
        let k: nat = if steps == 0 {
            n as nat
        } else {
            steps as nat
        };
        vstd::arithmetic::div_mod::lemma_mod_bound(dir * (c + 1 - p), n);
        lemma_steps_reach(p, dir as int, c + 1, n);
        assert(holder(cycled(s, dir, k).focus) == Some(id));
    }
}

/// The steps that lead from one place in the round to another.
proof fn lemma_steps_reach(p: int, dir: int, q: int, n: int)
    requires
        0 <= p < n,
        0 <= q < n,
        dir == 1 || dir == -1,
    ensures
        ({
            let steps = (dir * (q - p)) % n;
            let k = if steps == 0 {
                n
            } else {
                steps
            };
            (p + dir * k) % n == q
        }),
{
    let w = dir * (q - p);
    let steps = w % n;
    let k = if steps == 0 {
        n
    } else {
        steps
    };
    vstd::arithmetic::div_mod::lemma_fundamental_div_mod(w, n);
    let m = if steps == 0 {
        w / n - 1
    } else {
        w / n
    };
    assert(w == n * m + k) by (nonlinear_arith)
        requires
            w == n * (w / n) + steps,
            k == if steps == 0 {
                n
            } else {
                steps
            },
            m == if steps == 0 {
                w / n - 1
            } else {
                w / n
            },
    ;
    assert(dir * w == q - p) by (nonlinear_arith)
        requires
            w == dir * (q - p),
            dir == 1 || dir == -1,
    ;
    assert(dir * w == n * (dir * m) + dir * k) by (nonlinear_arith)
        requires
            w == n * m + k,
    ;
    assert(p + dir * k == n * (-(dir * m)) + q) by (nonlinear_arith)
        requires
            dir * w == q - p,
            dir * w == n * (dir * m) + dir * k,
    ;
    vstd::arithmetic::div_mod::lemma_mod_multiples_vanish(-(dir * m), q, n);
    vstd::arithmetic::div_mod::lemma_small_mod(q as nat, n as nat);
}

/// Moving the focus one step and back leaves it where it was, in either direction.
pub proof fn cycling_back_undoes_forward(s: StateView, dir: i32)
    requires
        s.wf(),
        s.order.len() > 0,
        dir == 1 || dir == -1,
    ensures
        ({
            let t = focused(s, focus_along(s, dir));
            holder(focus_along(t, (-dir) as i32)) == holder(s.focus)
        }),
{
    let n = s.order.len() as int;
    let f = focus_along(s, dir);
    let t = focused(s, f);
    match s.focus {
        Focus::Local => {
            assert(s.order.contains(s.order[0]));
            assert(s.order.contains(s.order[n - 1]));
            focusing_keeps_state_sound(s, f);
            lemma_place_of(s.order, 0);
            lemma_place_of(s.order, n - 1);
        },
        Focus::Remote { client_id, .. } => {
            assert(s.order.contains(client_id));
            let k = choose|k: int| 0 <= k < n && s.order[k] == client_id;
            lemma_place_of(s.order, k);
            if 0 <= k + dir < n {
                assert(s.order.contains(s.order[k + dir]));
                lemma_place_of(s.order, k + dir);
            }
            focusing_keeps_state_sound(s, f);
        },
    }
}

/// While a client that is there has the focus, every event that is no hotkey, press or release, goes
/// to that client and to nobody else: one message that says the event waits behind the others, and
/// nothing else changes.
pub proof fn input_goes_to_the_focused_client(
    s: StateView,
    armed: bool,
    ev: CaptureEvent,
    hk: HotkeyConfig,
    b: VirtualBounds,
    prefs: FocusPrefs,
    id: ClientId,
)
    requires
        holder(s.focus) == Some(id),
        s.clients.dom().contains(id),
        hotkey_direction(hk, ev) is None,
    ensures
        ({
            let r = routed(s, armed, ev, hk, b, prefs);
            let before = s.clients[id].outbox;
            let after = r.state.clients[id].outbox;
            &&& after.len() == before.len() + 1
            &&& after.drop_last() == before
            &&& match ev {
                CaptureEvent::MouseMove { dx, dy, .. } => after.last() == (MessageView::MouseMove {
                    dx,
                    dy,
                }),
                CaptureEvent::MouseButton { button, pressed } => after.last() == (
                MessageView::MouseButton { button, pressed }),
                CaptureEvent::MouseWheel { dx, dy } => after.last() == (MessageView::MouseWheel {
                    dx,
                    dy,
                }),
                CaptureEvent::Key { key, pressed, modifiers } => after.last() == (
                MessageView::KeyEvent { key, pressed, modifiers }),
            }
            &&& r.state.clients.dom() == s.clients.dom()
            &&& forall|x: ClientId|
                x != id && s.clients.dom().contains(x) ==> #[trigger] r.state.clients[x]
                    == s.clients[x]
            &&& r.state.focus == s.focus
            &&& r.state.order == s.order
            &&& r.armed == armed
            &&& r.effect is None
        }),
{
    let r = routed(s, armed, ev, hk, b, prefs);
    assert(r.state.clients.dom() =~= s.clients.dom());
    assert(r.state.clients[id].outbox.drop_last() =~= s.clients[id].outbox);
}

/// While the focus is local and nothing but the keyboard, the buttons or the wheel is used, nothing
/// happens, unless it is a hotkey: no client is sent what is typed on the server's own machine.
pub proof fn local_input_stays_local(
    s: StateView,
    armed: bool,
    ev: CaptureEvent,
    hk: HotkeyConfig,
    b: VirtualBounds,
    prefs: FocusPrefs,
)
    requires
        s.focus is Local,
        hotkey_direction(hk, ev) is None,
        !(ev is MouseMove),
    ensures
        ({
            let r = routed(s, armed, ev, hk, b, prefs);
            r.state == s && r.armed == armed && r.effect is None
        }),
{
}

/// What a move of the focus tells each client. The one that had the focus is told that the cursor
/// has left; the one that gets it is told through which edge the cursor has to leave again, if it
/// can read that, and, last of all, where the cursor is. The others are told nothing, and of no
/// client anything else changes.
pub proof fn moving_the_focus_tells_the_clients(s: StateView, f: Focus, x: ClientId)
    requires
        s.clients.dom().contains(x),
    ensures
        ({
            let before = s.clients[x].outbox;
            let after = focused(s, f).clients[x].outbox;
            let left = if holder(s.focus) == Some(x) {
                before.push(MessageView::LeaveScreen)
            } else {
                before
            };
            let told = if s.clients[x].proto_version >= 2 {
                left.push(MessageView::SetExitEdge { edge: f->entry_edge })
            } else {
                left
            };
            &&& holder(f) != Some(x) ==> after == left
            &&& holder(f) == Some(x) ==> after.len() == told.len() + 1 && after.drop_last() == told
                && after.last() is EnterScreen
            &&& focused(s, f).clients[x] == (ClientView { outbox: after, ..s.clients[x] })
        }),
{
    let before = s.clients[x].outbox;
    let after = focused(s, f).clients[x].outbox;
    if holder(f) == Some(x) {
        let left = if holder(s.focus) == Some(x) {
            before.push(MessageView::LeaveScreen)
        } else {
            before
        };
        let told = if s.clients[x].proto_version >= 2 {
            left.push(MessageView::SetExitEdge { edge: f->entry_edge })
        } else {
            left
        };
        assert(after.drop_last() =~= told);
    }
}

/// Whenever the focus moves to a client whose screen is known, and wider and higher than the inset,
/// the last that the client is told is a place on its screen that is as far as the inset inside the
/// edge through which the cursor comes, in the middle of it. Where the screen is not known, it is a
/// fixed place.
pub proof fn cursor_enters_through_its_edge(s: StateView, id: ClientId, entry_edge: Edge)
    requires
        s.clients.dom().contains(id),
    ensures
        ({
            let f = Focus::Remote { client_id: id, entry_edge };
            focused(s, f).clients[id].outbox.last() matches MessageView::EnterScreen { x, y } && {
                &&& s.clients[id].screen matches Some((w, h)) ==> INSET < w <= i32::MAX && INSET < h
                    <= i32::MAX ==> {
                    &&& 0 <= x < w && 0 <= y < h
                    &&& entry_edge == Edge::Left ==> x == INSET && y == h as int / 2
                    &&& entry_edge == Edge::Right ==> x == w - 1 - INSET && y == h as int / 2
                    &&& entry_edge == Edge::Top ==> y == INSET && x == w as int / 2
                    &&& entry_edge == Edge::Bottom ==> y == h - 1 - INSET && x == w as int / 2
                }
                &&& s.clients[id].screen is None ==> x == 100 && y == 100
            }
        }),
{
}

/// A cursor that enters a screen does not touch any edge of it, so that it does not leave at once.
pub proof fn entering_touches_no_edge(w: i32, h: i32, edge: Edge)
    requires
        w > 2 * INSET,
        h > 2 * INSET,
    ensures
        edge_at(
            entry_point(w, h, edge).0,
            entry_point(w, h, edge).1,
            VirtualBounds { min_x: 0, min_y: 0, max_x: w, max_y: h },
        ) is None,
{
}

/// What a move of the focus asks of the program: to capture exactly if a client gets the focus, and
/// to say who has it, where the user wants to be told.
pub proof fn moves_are_announced(s: StateView, f: Focus, prefs: FocusPrefs)
    ensures
        ({
            let e = focus_effect(s, f, prefs);
            &&& e.capturing <==> f is Remote
            &&& e.notice is Some <==> prefs.notify
            &&& e.overlay is Some <==> prefs.overlay
            &&& f is Local ==> {
                &&& e.notice matches Some(n) ==> n.summary == "Union"@ && n.body == "focus → "@
                    + "local"@
                &&& e.overlay matches Some(t) ==> t == "→ "@ + "local"@
            }
            &&& f is Remote && s.clients.dom().contains(f->client_id) ==> {
                let name = s.clients[f->client_id].hostname;
                &&& e.notice matches Some(n) ==> n.summary == "Union"@ && n.body == "focus → "@
                    + name
                &&& e.overlay matches Some(t) ==> t == "→ "@ + name
            }
        }),
{
}

/// Every move of the focus is counted, and nothing but the clients, the focus and that counter
/// changes.
pub proof fn moves_are_counted(s: StateView, f: Focus)
    ensures
        focused(s, f).focus == f,
        focused(s, f).order == s.order,
        focused(s, f).next_id == s.next_id,
        s.counters.focus_switches < u64::MAX ==> focused(s, f).counters == (Counters {
            focus_switches: (s.counters.focus_switches + 1) as u64,
            ..s.counters
        }),
{
}

/// A client sits on a side of the server's screen, and nobody before it in the list does.
pub open spec fn first_on(s: StateView, p: Position, id: ClientId) -> bool {
    exists|k: int|
        {
            &&& 0 <= k < s.order.len()
            &&& #[trigger] s.order[k] == id
            &&& s.clients.dom().contains(id)
            &&& s.clients[id].position == p
            &&& forall|j: int|
                0 <= j < k && s.clients.dom().contains(#[trigger] s.order[j])
                    ==> s.clients[s.order[j]].position != p
        }
}

/// Whoever is found first is the first.
proof fn lemma_first_on(s: StateView, p: Position, i: int)
    requires
        0 <= i <= s.order.len(),
        forall|j: int|
            0 <= j < i && s.clients.dom().contains(#[trigger] s.order[j])
                ==> s.clients[s.order[j]].position != p,
    ensures
        first_at(s, p, i) matches Some(id) ==> first_on(s, p, id),
    decreases s.order.len() - i,
{
    if i < s.order.len() {
        if s.clients.dom().contains(s.order[i]) && s.clients[s.order[i]].position == p {
            assert(s.order[i] == first_at(s, p, i)->Some_0);
        } else {
            lemma_first_on(s, p, i + 1);
        }
    }
}

/// While the focus is local, a cursor that comes within the band along a side of the server's
/// screen, the left and right ones first, moves the focus to the first client that sits on that
/// side, which the cursor enters through the opposite edge. It does so once, until the cursor has
/// been away from all sides. Where nobody sits there, or the cursor was not away since, nothing
/// happens.
pub proof fn crossing_a_side_reaches_who_sits_there(
    s: StateView,
    armed: bool,
    x: i32,
    y: i32,
    dx: i32,
    dy: i32,
    hk: HotkeyConfig,
    b: VirtualBounds,
    prefs: FocusPrefs,
)
    requires
        s.focus is Local,
    ensures
        ({
            let r = routed(s, armed, CaptureEvent::MouseMove { x, y, dx, dy }, hk, b, prefs);
            let left = x - b.min_x <= EDGE_BAND;
            let right = !left && b.max_x - 1 - x <= EDGE_BAND;
            let top = !left && !right && y - b.min_y <= EDGE_BAND;
            let bottom = !left && !right && !top && b.max_y - 1 - y <= EDGE_BAND;
            let reached = |p: Position, e: Edge|
                {
                    &&& r.effect is Some ==> {
                        &&& armed
                        &&& !r.armed
                        &&& r.effect->Some_0.capturing
                        &&& r.state == focused(s, r.state.focus)
                        &&& r.state.focus matches Focus::Remote { client_id, entry_edge }
                            && entry_edge == e && first_on(s, p, client_id)
                    }
                    &&& r.effect is None ==> {
                        &&& r.state == s
                        &&& r.armed == armed
                        &&& !armed || forall|j: int|
                            0 <= j < s.order.len() && s.clients.dom().contains(
                                #[trigger] s.order[j],
                            ) ==> s.clients[s.order[j]].position != p
                    }
                };
            &&& left ==> reached(Position::Left, Edge::Right)
            &&& right ==> reached(Position::Right, Edge::Left)
            &&& top ==> reached(Position::Above, Edge::Bottom)
            &&& bottom ==> reached(Position::Below, Edge::Top)
            &&& !left && !right && !top && !bottom ==> r.state == s && r.armed && r.effect is None
        }),
{
    lemma_first_at(s, Position::Left, 0);
    lemma_first_at(s, Position::Right, 0);
    lemma_first_at(s, Position::Above, 0);
    lemma_first_at(s, Position::Below, 0);
    lemma_first_on(s, Position::Left, 0);
    lemma_first_on(s, Position::Right, 0);
    lemma_first_on(s, Position::Above, 0);
    lemma_first_on(s, Position::Below, 0);
}

/// A press of the forward key with the modifiers that it needs moves the focus to the next machine
/// in the round, and one of the backward key to the one before, whoever has the focus. The press
/// itself goes to nobody: no client is sent anything but what a move of the focus tells it. Where
/// there are no clients, nothing moves.
pub proof fn hotkeys_move_the_focus(
    s: StateView,
    armed: bool,
    key: KeyCode,
    mods: Modifiers,
    hk: HotkeyConfig,
    b: VirtualBounds,
    prefs: FocusPrefs,
)
    requires
        s.wf(),
        hk.require_ctrl ==> mods.ctrl,
        hk.require_alt ==> mods.alt,
        hk.require_meta ==> mods.meta,
        key.0 == hk.cycle_forward_key || key.0 == hk.cycle_backward_key,
    ensures
        ({
            let ev = CaptureEvent::Key { key, pressed: true, modifiers: mods };
            let r = routed(s, armed, ev, hk, b, prefs);
            let step = if key.0 == hk.cycle_forward_key {
                1int
            } else {
                -1int
            };
            &&& r.armed
            &&& s.order.len() == 0 ==> r.state == s && r.effect is None
            &&& s.order.len() > 0 ==> {
                &&& r.effect is Some
                &&& r.state == focused(s, r.state.focus)
                &&& holder(r.state.focus) == machine_at(
                    s.order,
                    (slot(s) + step) % round_len(s),
                )
            }
        }),
{
    if s.order.len() > 0 {
        if key.0 == hk.cycle_forward_key {
            cycling_moves_to_the_next(s, 1);
        } else {
            cycling_moves_to_the_next(s, -1i32);
        }
    }
}

/// What has the focus is called by its name: a client by the name that it gave, or by its number
/// where it is not there any more.
pub proof fn focus_is_called_by_its_name(s: StateView, id: ClientId, edge: Edge)
    ensures
        focus_label(s, Focus::Local) == "local"@,
        s.clients.dom().contains(id) ==> focus_label(
            s,
            Focus::Remote { client_id: id, entry_edge: edge },
        ) == s.clients[id].hostname,
        !s.clients.dom().contains(id) ==> focus_label(
            s,
            Focus::Remote { client_id: id, entry_edge: edge },
        ) == "client #"@ + decimal(id as nat),
{
}

/// The cursor enters in the middle of the edge, and as far inside it as it should, whatever numbers a
/// client gave for its screen: a distance that does not fit in the range of places goes round.
pub proof fn cursor_enters_in_the_middle(w: i32, h: i32, edge: Edge)
    ensures
        ({
            let (x, y) = entry_point(w, h, edge);
            let round = 0x1_0000_0000int;
            let middle = |c: i32, n: i32|
                if n >= 0 {
                    n - 1 <= 2 * c <= n
                } else {
                    n <= 2 * c <= n + 1
                };
            &&& edge is Left ==> x == 8 && middle(y, h)
            &&& edge is Right ==> (x == w - 9 || x == w - 9 + round) && middle(y, h)
            &&& edge is Top ==> y == 8 && middle(x, w)
            &&& edge is Bottom ==> (y == h - 9 || y == h - 9 + round) && middle(x, w)
        }),
{
}

/// A cursor touches a side of the desktop on its outermost three pixels, and beyond; in a corner the
/// left or the right side counts; and elsewhere it touches none.
pub proof fn sides_are_touched_at_the_rim(x: i32, y: i32, b: VirtualBounds)
    requires
        b.min_x + 6 <= b.max_x,
        b.min_y + 6 <= b.max_y,
    ensures
        edge_at(x, y, b) == Some(Edge::Left) <==> x < b.min_x + 3,
        edge_at(x, y, b) == Some(Edge::Right) <==> x >= b.max_x - 3,
        edge_at(x, y, b) == Some(Edge::Top) <==> b.min_x + 3 <= x < b.max_x - 3 && y < b.min_y + 3,
        edge_at(x, y, b) == Some(Edge::Bottom) <==> b.min_x + 3 <= x < b.max_x - 3 && y >= b.max_y
            - 3,
        edge_at(x, y, b) is None <==> b.min_x + 3 <= x < b.max_x - 3 && b.min_y + 3 <= y < b.max_y
            - 3,
{
}

} // verus!
