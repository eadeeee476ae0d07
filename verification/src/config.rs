//! What the server and its clients are told: addresses, keys, and where each client sits.

use crate::clipboard::DEFAULT_LIMIT_BYTES;
use crate::protocol::DEFAULT_PORT;
use crate::text::{owned, same_text};
use vstd::prelude::*;

verus! {

/// Where a client sits, seen from the server's screen.
#[derive(Debug, Clone, Copy, PartialEq, Eq, Structural)]
pub enum Position {
    Left,
    Right,
    Above,
    Below,
}

/// All positions, in the order in which they are offered.
pub open spec fn all_positions() -> Seq<Position> {
    seq![Position::Left, Position::Right, Position::Above, Position::Below]
}

impl Position {
    /// The word for a position.
    pub open spec fn word(self) -> Seq<char> {
        match self {
            Position::Left => "left"@,
            Position::Right => "right"@,
            Position::Above => "above"@,
            Position::Below => "below"@,
        }
    }

    /// All positions, in the order in which they are offered.
    pub fn all() -> (r: [Position; 4])
        ensures
            r@ == all_positions(),
    {
        [Position::Left, Position::Right, Position::Above, Position::Below]
    }

    pub fn as_str(self) -> (r: &'static str)
        ensures
            r@ == self.word(),
    {
        match self {
            Position::Left => "left",
            Position::Right => "right",
            Position::Above => "above",
            Position::Below => "below",
        }
    }

    /// The position that a word stands for.
    pub open spec fn named(w: Seq<char>) -> Option<Position> {
        if w == "left"@ {
            Some(Position::Left)
        } else if w == "right"@ {
            Some(Position::Right)
        } else if w == "above"@ {
            Some(Position::Above)
        } else if w == "below"@ {
            Some(Position::Below)
        } else {
            None
        }
    }

    /// The position that a word stands for.
    pub fn from_str(s: &str) -> (r: Option<Position>)
        ensures
            r == Position::named(s@),
    {
        if same_text(s, "left") {
            Some(Position::Left)
        } else if same_text(s, "right") {
            Some(Position::Right)
        } else if same_text(s, "above") {
            Some(Position::Above)
        } else if same_text(s, "below") {
            Some(Position::Below)
        } else {
            None
        }
    }
}

/// Each position is named by its own word, and by no other.
pub proof fn words_name_positions(p: Position, w: Seq<char>)
    ensures
        Position::named(w) == Some(p) <==> w == p.word(),
{
    reveal_strlit("left");
    reveal_strlit("right");
    reveal_strlit("above");
    reveal_strlit("below");
    assert("left"@[0] == 'l');
    assert("right"@[0] == 'r');
    assert("above"@[0] == 'a');
    assert("below"@[0] == 'b');
}

/// Where one client sits.
#[derive(Debug, PartialEq, Eq)]
pub struct ClientLayout {
    pub hostname: String,
    pub position: Position,
}

/// Where the clients sit, by the names of their hosts. No host is listed twice.
#[derive(Debug, PartialEq, Eq)]
pub struct LayoutMap {
    entries: Vec<ClientLayout>,
}

/// The places that a list of entries gives, the last for each host.
pub open spec fn places(es: Seq<ClientLayout>) -> Map<Seq<char>, Position>
    decreases es.len(),
{
    if es.len() == 0 {
        Map::empty()
    } else {
        places(es.drop_last()).insert(es.last().hostname@, es.last().position)
    }
}

/// No two entries are about the same host.
pub open spec fn hosts_differ(es: Seq<ClientLayout>) -> bool {
    forall|i: int, j: int|
        0 <= i < j < es.len() ==> (#[trigger] es[i]).hostname@ != (#[trigger] es[j]).hostname@
}

impl View for LayoutMap {
    type V = Map<Seq<char>, Position>;

    closed spec fn view(&self) -> Map<Seq<char>, Position> {
        places(self.entries@)
    }
}

/// What a list of entries says of one host.
proof fn lemma_places(es: Seq<ClientLayout>, i: int)
    requires
        hosts_differ(es),
        0 <= i < es.len(),
    ensures
        places(es).dom().contains(es[i].hostname@),
        places(es)[es[i].hostname@] == es[i].position,
    decreases es.len(),
{
    if i < es.len() - 1 {
        assert(es.drop_last()[i] == es[i]);
        lemma_places(es.drop_last(), i);
    }
}

/// A host that has a place is in the list.
proof fn lemma_places_dom(es: Seq<ClientLayout>, h: Seq<char>)
    ensures
        places(es).dom().contains(h) <==> exists|i: int|
            0 <= i < es.len() && (#[trigger] es[i]).hostname@ == h,
    decreases es.len(),
{
    if es.len() > 0 {
        lemma_places_dom(es.drop_last(), h);
        if places(es).dom().contains(h) {
            if es.last().hostname@ == h {
                assert(es[es.len() - 1].hostname@ == h);
            } else {
                let i = choose|i: int|
                    0 <= i < es.drop_last().len() && (#[trigger] es.drop_last()[i]).hostname@ == h;
                assert(es[i].hostname@ == h);
            }
        }
        if exists|i: int| 0 <= i < es.len() && (#[trigger] es[i]).hostname@ == h {
            let i = choose|i: int| 0 <= i < es.len() && (#[trigger] es[i]).hostname@ == h;
            if i < es.len() - 1 {
                assert(es.drop_last()[i].hostname@ == h);
            }
        }
    }
}

/// There are as many places as entries.
proof fn lemma_places_len(es: Seq<ClientLayout>)
    requires
        hosts_differ(es),
    ensures
        places(es).dom().finite(),
        places(es).dom().len() == es.len(),
    decreases es.len(),
{
    if es.len() > 0 {
        let before = es.drop_last();
        assert forall|i: int, j: int| 0 <= i < j < before.len() implies (
        #[trigger] before[i]).hostname@ != (#[trigger] before[j]).hostname@ by {
            assert(es[i].hostname@ != es[j].hostname@);
        }
        lemma_places_len(before);
        lemma_places_dom(before, es.last().hostname@);
        if places(before).dom().contains(es.last().hostname@) {
            let i = choose|i: int|
                0 <= i < before.len() && (#[trigger] before[i]).hostname@ == es.last().hostname@;
            assert(es[i].hostname@ != es[es.len() - 1].hostname@);
        }
        assert(places(es).dom() =~= places(before).dom().insert(es.last().hostname@));
    } else {
        assert(places(es).dom() =~= Set::empty());
    }
}

impl LayoutMap {
    /// No host is listed twice.
    pub closed spec fn wf(self) -> bool {
        hosts_differ(self.entries@)
    }

    /// Nobody has a place.
    pub fn new() -> (r: Self)
        ensures
            r.wf(),
            r@ == Map::<Seq<char>, Position>::empty(),
    {
        LayoutMap { entries: Vec::new() }
    }

    /// The number of hosts that have a place.
    pub fn len(&self) -> (r: usize)
        requires
            self.wf(),
        ensures
            r == self@.dom().len(),
            self@.dom().finite(),
    {
        proof {
            lemma_places_len(self.entries@);
        }
        self.entries.len()
    }

    /// Where the entry for a host stands in the list.
    fn find(&self, hostname: &str) -> (r: Option<usize>)
        requires
            self.wf(),
        ensures
            match r {
                Some(i) => i < self.entries@.len() && self.entries@[i as int].hostname@ == hostname@,
                None => forall|i: int|
                    0 <= i < self.entries@.len() ==> (#[trigger] self.entries@[i]).hostname@
                        != hostname@,
            },
    {
        let n: usize = self.entries.len();
        let mut i: usize = 0;
        while i < n
            invariant
                n == self.entries@.len(),
                forall|j: int|
                    0 <= j < i ==> (#[trigger] self.entries@[j]).hostname@ != hostname@,
            decreases n - i,
        {
            if same_text(self.entries[i].hostname.as_str(), hostname) {
                return Some(i);
            }
            i = i + 1;
        }
        None
    }

    /// Where a host sits, if it is listed.
    pub fn get(&self, hostname: &str) -> (r: Option<Position>)
        requires
            self.wf(),
        ensures
            r == if self@.dom().contains(hostname@) {
                Some(self@[hostname@])
            } else {
                None
            },
    {
        proof {
            lemma_places_dom(self.entries@, hostname@);
        }
        match self.find(hostname) {
            Some(i) => {
                proof {
                    lemma_places(self.entries@, i as int);
                }
                Some(self.entries[i].position)
            },
            None => None,
        }
    }

    /// Gives a host a place, the only one that it has from now on.
    pub fn insert(&mut self, hostname: &str, position: Position)
        requires
            old(self).wf(),
        ensures
            final(self).wf(),
            final(self)@ == old(self)@.insert(hostname@, position),
    {
        proof {
            lemma_places_dom(self.entries@, hostname@);
        }
        let entry = ClientLayout { hostname: owned(hostname), position };
        match self.find(hostname) {
            Some(i) => {
                let ghost es = self.entries@;
                let _ = self.entries.remove(i);
                self.entries.push(entry);
                proof {
                    lemma_places_moved(es, i as int, entry);
                    assert(self.entries@ =~= es.remove(i as int).push(entry));
                }
            },
            None => {
                self.entries.push(entry);
                assert(self.entries@.drop_last() =~= old(self).entries@);
            },
        }
    }

    /// Whether two layouts give the same places to the same hosts.
    pub fn same_as(&self, other: &LayoutMap) -> (r: bool)
        requires
            self.wf(),
            other.wf(),
        ensures
            r == (self@ == other@),
    {
        proof {
            lemma_places_len(self.entries@);
            lemma_places_len(other.entries@);
        }
        let n: usize = self.entries.len();
        if n != other.entries.len() {
            return false;
        }
        let mut i: usize = 0;
        while i < n
            invariant
                i <= n,
                n == self.entries@.len(),
                self.wf(),
                other.wf(),
                forall|j: int|
                    0 <= j < i ==> other@.dom().contains((#[trigger] self.entries@[j]).hostname@)
                        && other@[self.entries@[j].hostname@] == self.entries@[j].position,
            decreases n - i,
        {
            proof {
                lemma_places(self.entries@, i as int);
            }
            match other.get(self.entries[i].hostname.as_str()) {
                Some(p) => if p != self.entries[i].position {
                    return false;
                },
                None => {
                    return false;
                },
            }
            i = i + 1;
        }
        proof {
            assert forall|h: Seq<char>| #[trigger] self@.dom().contains(h) implies other@.dom().contains(h)
                && other@[h] == self@[h] by {
                lemma_places_dom(self.entries@, h);
                let j = choose|j: int|
                    0 <= j < self.entries@.len() && (#[trigger] self.entries@[j]).hostname@ == h;
                lemma_places(self.entries@, j);
            }
            assert(self@.dom().subset_of(other@.dom()));
            vstd::set_lib::lemma_subset_equality(self@.dom(), other@.dom());
            assert(self@ =~= other@);
        }
        true
    }
}

impl Clone for LayoutMap {
    /// The same places.
    fn clone(&self) -> (r: Self)
        ensures
            r@ == self@,
            self.wf() ==> r.wf(),
    {
        let n: usize = self.entries.len();
        let mut entries: Vec<ClientLayout> = Vec::new();
        let mut i: usize = 0;
        while i < n
            invariant
                i <= n,
                n == self.entries@.len(),
                entries@ == self.entries@.take(i as int),
            decreases n - i,
        {
            let e = &self.entries[i];
            entries.push(ClientLayout { hostname: e.hostname.clone(), position: e.position });
            assert(entries@ =~= self.entries@.take(i + 1));
            i = i + 1;
        }
        assert(entries@ =~= self.entries@);
        LayoutMap { entries }
    }
}

/// What the entries say once entry `i` is gone.
proof fn lemma_places_removed(es: Seq<ClientLayout>, i: int)
    requires
        hosts_differ(es),
        0 <= i < es.len(),
    ensures
        hosts_differ(es.remove(i)),
        places(es.remove(i)) == places(es).remove(es[i].hostname@),
{
    let rest = es.remove(i);
    assert forall|a: int, b: int| 0 <= a < b < rest.len() implies (#[trigger] rest[a]).hostname@ != (
    #[trigger] rest[b]).hostname@ by {
        let x = if a < i {
            a
        } else {
            a + 1
        };
        let y = if b < i {
            b
        } else {
            b + 1
        };
        assert(rest[a] == es[x] && rest[b] == es[y]);
    }
    assert forall|h: Seq<char>| #[trigger]
        places(rest).dom().contains(h) <==> places(es).remove(es[i].hostname@).dom().contains(h) by {
        lemma_places_dom(rest, h);
        lemma_places_dom(es, h);
        if places(rest).dom().contains(h) {
            let a = choose|a: int| 0 <= a < rest.len() && (#[trigger] rest[a]).hostname@ == h;
            let x = if a < i {
                a
            } else {
                a + 1
            };
            assert(rest[a] == es[x]);
            assert(es[x].hostname@ == h);
            if x < i {
                assert(es[x].hostname@ != es[i].hostname@);
            } else {
                assert(es[i].hostname@ != es[x].hostname@);
            }
        }
        if places(es).remove(es[i].hostname@).dom().contains(h) {
            let x = choose|x: int| 0 <= x < es.len() && (#[trigger] es[x]).hostname@ == h;
            let a = if x < i {
                x
            } else {
                x - 1
            };
            assert(rest[a] == es[x]);
            assert(rest[a].hostname@ == h);
        }
    }
    assert forall|h: Seq<char>| #[trigger] places(rest).dom().contains(h) implies places(rest)[h]
        == places(es)[h] by {
        lemma_places_dom(rest, h);
        let a = choose|a: int| 0 <= a < rest.len() && (#[trigger] rest[a]).hostname@ == h;
        let x = if a < i {
            a
        } else {
            a + 1
        };
        assert(rest[a] == es[x]);
        lemma_places(rest, a);
        lemma_places(es, x);
    }
    assert(places(rest) =~= places(es).remove(es[i].hostname@));
}

/// What the entries say once entry `i` has been replaced by one for the same host at the end.
proof fn lemma_places_moved(es: Seq<ClientLayout>, i: int, entry: ClientLayout)
    requires
        hosts_differ(es),
        0 <= i < es.len(),
        entry.hostname@ == es[i].hostname@,
    ensures
        hosts_differ(es.remove(i).push(entry)),
        places(es.remove(i).push(entry)) == places(es).insert(entry.hostname@, entry.position),
{
    let rest = es.remove(i);
    let all = rest.push(entry);
    lemma_places_removed(es, i);
    assert(all.drop_last() =~= rest);
    lemma_places_dom(rest, entry.hostname@);
    assert forall|a: int, b: int| 0 <= a < b < all.len() implies (#[trigger] all[a]).hostname@ != (
    #[trigger] all[b]).hostname@ by {
        if b < rest.len() {
            assert(rest[a].hostname@ != rest[b].hostname@);
        } else {
            assert(all[a] == rest[a]);
            assert(rest[a].hostname@ != entry.hostname@);
        }
    }
    assert(places(all) =~= places(es).insert(entry.hostname@, entry.position));
}

/// The keys that move the focus, by HID usage, and the modifiers that must be held.
#[derive(Debug, Clone, Copy, PartialEq, Eq, Structural)]
pub struct HotkeyConfig {
    pub cycle_forward_key: u16,
    pub cycle_backward_key: u16,
    pub require_ctrl: bool,
    pub require_alt: bool,
    pub require_meta: bool,
}

impl Default for HotkeyConfig {
    /// The right and left arrows, with Ctrl and Alt.
    fn default() -> (r: Self)
        ensures
            r == (HotkeyConfig {
                cycle_forward_key: 0x4F,
                cycle_backward_key: 0x50,
                require_ctrl: true,
                require_alt: true,
                require_meta: false,
            }),
    {
        HotkeyConfig {
            cycle_forward_key: 0x4F,
            cycle_backward_key: 0x50,
            require_ctrl: true,
            require_alt: true,
            require_meta: false,
        }
    }
}

/// What the server is told.
#[derive(Debug, PartialEq, Eq)]
pub struct ServerConfig {
    pub port: u16,
    /// The address to listen on.
    pub bind: String,
    /// The passphrase, the same on every side.
    pub psk: String,
    /// Where the certificate and its key are stored, by the components of the path.
    pub cert_dir: Vec<String>,
    /// The longest text that is sent whole.
    pub clipboard_limit_bytes: usize,
    pub hotkey: HotkeyConfig,
    pub layout: LayoutMap,
    pub notify_on_focus: bool,
    pub overlay_on_focus: bool,
    pub release_focus_on_lock: bool,
}

/// What a client is told.
#[derive(Debug, PartialEq, Eq)]
pub struct ClientConfig {
    pub server_addr: String,
    pub port: u16,
    /// The name that the server lists.
    pub hostname: String,
    /// The passphrase, the same on every side.
    pub psk: String,
    /// The pinned fingerprint, in hexadecimal.
    pub server_fingerprint_hex: String,
    pub clipboard_limit_bytes: usize,
    /// The server name in the TLS handshake. The certificate is pinned, so it may be anything.
    pub sni: String,
}

pub fn default_port() -> (r: u16)
    ensures
        r == DEFAULT_PORT,
{
    DEFAULT_PORT
}

/// All interfaces.
pub fn default_bind() -> (r: String)
    ensures
        r@ == "0.0.0.0"@,
{
    owned("0.0.0.0")
}

pub fn default_clipboard_limit() -> (r: usize)
    ensures
        r == DEFAULT_LIMIT_BYTES,
{
    DEFAULT_LIMIT_BYTES
}

pub fn default_sni() -> (r: String)
    ensures
        r@ == "union-server"@,
{
    owned("union-server")
}

/// The words for the positions, which are all offered, each once.
pub proof fn positions_have_their_words(p: Position)
    ensures
        p.word() == match p {
            Position::Left => "left"@,
            Position::Right => "right"@,
            Position::Above => "above"@,
            Position::Below => "below"@,
        },
        Position::named(p.word()) == Some(p),
        exists|i: int| 0 <= i < all_positions().len() && #[trigger] all_positions()[i] == p,
        all_positions().no_duplicates(),
{
    words_name_positions(p, p.word());
    let all = all_positions();
    assert(all[0] is Left && all[1] is Right && all[2] is Above && all[3] is Below);
}

/// In a list of entries that names no host twice, every entry gives its host its place, and no
/// other host has one.
pub proof fn entries_give_their_places(es: Seq<ClientLayout>, h: Seq<char>)
    requires
        hosts_differ(es),
    ensures
        places(es).dom().contains(h) <==> exists|i: int|
            0 <= i < es.len() && (#[trigger] es[i]).hostname@ == h,
        forall|i: int|
            0 <= i < es.len() && (#[trigger] es[i]).hostname@ == h ==> places(es)[h]
                == es[i].position,
{
    lemma_places_dom(es, h);
    assert forall|i: int| 0 <= i < es.len() && (#[trigger] es[i]).hostname@ == h implies places(
        es,
    )[h] == es[i].position by {
        lemma_places(es, i);
    }
}

} // verus!
