//! Saving the forms of the control panel in configuration files, and loading them from there.

use crate::config::{words_name_positions, ClientLayout, Position};
use crate::hotkeys::{
    hid_for, hotkey_keys, key_label_for, label_of, offered_keys_round_trip, usage_of,
};
use crate::panel::{
    hosts_unique, layout_view, ClientForm, ClientFormView, HotkeyForm, HotkeyFormView, Mode,
    ServerForm, ServerFormView,
};
use crate::text::{owned, trim, trimmed};
use crate::toml_doc::{
    ascending, at, check_quotes, date_key, dateless, doc_pairs, flag_at, integer_at,
    lemma_ascending_value, lemma_short_text_quotes, lemma_table_dom, lemma_table_value, pairs,
    plain_toml, put_entry, quotes_fit, table_of, text_at, toml_content, toml_flag, toml_integer,
    toml_of, toml_pretty, toml_pretty_of, toml_table, toml_text, TomlDoc, TomlView,
};
use vstd::prelude::*;

verus! {

/// The lowest 16 bits of a number.
pub open spec fn low16(i: i64) -> u16 {
    (i % 0x1_0000) as u16
}

/// The unsigned number with the same 64 bits.
pub open spec fn unsigned(i: i64) -> u64 {
    if i < 0 {
        (i + 0x1_0000_0000_0000_0000) as u64
    } else {
        i as u64
    }
}

/// The signed number with the same 64 bits.
pub open spec fn signed(u: u64) -> i64 {
    if u <= i64::MAX {
        u as i64
    } else {
        (u - 0x1_0000_0000_0000_0000) as i64
    }
}

fn take_low16(i: i64) -> (r: u16)
    ensures
        r == low16(i),
{
    if i >= 0 {
        (i % 0x1_0000) as u16
    } else {
        let below: i64 = -(i + 1);
        (0xffff - below % 0x1_0000) as u16
    }
}

fn to_unsigned(i: i64) -> (r: u64)
    ensures
        r == unsigned(i),
{
    if i >= 0 {
        i as u64
    } else {
        let below: i64 = -(i + 1);
        0xffff_ffff_ffff_ffff - below as u64
    }
}

fn to_signed(u: u64) -> (r: i64)
    ensures
        r == signed(u),
{
    if u <= 0x7fff_ffff_ffff_ffff {
        u as i64
    } else {
        let above: u64 = 0xffff_ffff_ffff_ffff - u;
        -(above as i64) - 1
    }
}

/// What a file says of the hotkeys.
#[derive(Debug, PartialEq, Eq)]
pub struct HotkeyDoc {
    pub forward: Option<i64>,
    pub backward: Option<i64>,
    pub require_ctrl: Option<bool>,
    pub require_alt: Option<bool>,
    pub require_meta: Option<bool>,
}

/// What a file says of one client's place.
#[derive(Debug, PartialEq, Eq)]
pub struct LayoutDoc {
    pub hostname: String,
    pub position: Option<String>,
}

/// What a file says of the server. What it does not say stays as it is.
#[derive(Debug, PartialEq, Eq)]
pub struct ServerDoc {
    pub port: Option<i64>,
    pub bind: Option<String>,
    pub psk: Option<String>,
    pub cert_dir: Option<String>,
    pub clipboard_limit_bytes: Option<i64>,
    pub notify_on_focus: Option<bool>,
    pub overlay_on_focus: Option<bool>,
    pub hotkey: Option<HotkeyDoc>,
    pub layout: Option<Vec<LayoutDoc>>,
}

/// What a file says of a client. What it does not say stays as it is.
#[derive(Debug, PartialEq, Eq)]
pub struct ClientDoc {
    pub discover: Option<bool>,
    pub server_addr: Option<String>,
    pub port: Option<i64>,
    pub hostname: Option<String>,
    pub psk: Option<String>,
    pub server_fingerprint_hex: Option<String>,
    pub clipboard_limit_bytes: Option<i64>,
    pub notify_on_focus: Option<bool>,
    pub overlay_on_focus: Option<bool>,
}

/// A text that may be there, by what it says.
pub open spec fn opt_text(t: Option<String>) -> Option<Seq<char>> {
    match t {
        Some(t) => Some(t@),
        None => None,
    }
}

/// The places that a file gives, in order, each with the word that stands for it.
pub open spec fn layout_doc_view(l: Seq<LayoutDoc>) -> Seq<(Seq<char>, Option<Seq<char>>)> {
    l.map_values(|e: LayoutDoc| (e.hostname@, opt_text(e.position)))
}

/// What a file says of the hotkeys is what stands in a table of it.
pub open spec fn hotkey_doc_reads(d: HotkeyDoc, v: TomlView) -> bool {
    &&& d.forward == integer_at(v, "cycle_forward_key"@)
    &&& d.backward == integer_at(v, "cycle_backward_key"@)
    &&& d.require_ctrl == flag_at(v, "require_ctrl"@)
    &&& d.require_alt == flag_at(v, "require_alt"@)
    &&& d.require_meta == flag_at(v, "require_meta"@)
}

/// The names of the entries of a table, each with the word that stands for its place.
pub open spec fn words_of(ps: Seq<(Seq<char>, TomlView)>) -> Seq<(Seq<char>, Option<Seq<char>>)> {
    Seq::new(ps.len(), |i: int| (ps[i].0, text_at(ps[i].1, "position"@)))
}

/// The places are those of a table: one for each entry, in the order of the names.
pub open spec fn layout_doc_reads(l: Seq<LayoutDoc>, m: Map<Seq<char>, TomlView>) -> bool {
    &&& exists|ps: Seq<(Seq<char>, TomlView)>|
        {
            &&& m == #[trigger] table_of(ps)
            &&& ascending(ps)
            &&& layout_doc_view(l) == words_of(ps)
        }
}

/// What a file says of the server is what stands in it.
pub open spec fn server_doc_reads(d: ServerDoc, v: TomlView) -> bool {
    &&& d.port == integer_at(v, "port"@)
    &&& opt_text(d.bind) == text_at(v, "bind"@)
    &&& opt_text(d.psk) == text_at(v, "psk"@)
    &&& opt_text(d.cert_dir) == text_at(v, "cert_dir"@)
    &&& d.clipboard_limit_bytes == integer_at(v, "clipboard_limit_bytes"@)
    &&& d.notify_on_focus == flag_at(v, "notify_on_focus"@)
    &&& d.overlay_on_focus == flag_at(v, "overlay_on_focus"@)
    &&& match at(v, "hotkey"@) {
        Some(TomlView::Table(m)) => d.hotkey is Some && hotkey_doc_reads(
            d.hotkey->Some_0,
            TomlView::Table(m),
        ),
        _ => d.hotkey is None,
    }
    &&& match at(v, "layout"@) {
        Some(TomlView::Table(m)) => d.layout is Some && layout_doc_reads(d.layout->Some_0@, m),
        _ => d.layout is None,
    }
}

/// What a file says of a client is what stands in it.
pub open spec fn client_doc_reads(d: ClientDoc, v: TomlView) -> bool {
    &&& d.discover == flag_at(v, "discover"@)
    &&& opt_text(d.server_addr) == text_at(v, "server_addr"@)
    &&& d.port == integer_at(v, "port"@)
    &&& opt_text(d.hostname) == text_at(v, "hostname"@)
    &&& opt_text(d.psk) == text_at(v, "psk"@)
    &&& opt_text(d.server_fingerprint_hex) == text_at(v, "server_fingerprint_hex"@)
    &&& d.clipboard_limit_bytes == integer_at(v, "clipboard_limit_bytes"@)
    &&& d.notify_on_focus == flag_at(v, "notify_on_focus"@)
    &&& d.overlay_on_focus == flag_at(v, "overlay_on_focus"@)
}

/// The places that the entries of a table give.
fn read_layout(es: Vec<(String, TomlDoc)>) -> (r: Vec<LayoutDoc>)
    ensures
        layout_doc_view(r@) == words_of(doc_pairs(es@)),
{
    let ghost want = words_of(doc_pairs(es@));
    let n: usize = es.len();
    let mut out: Vec<LayoutDoc> = Vec::new();
    let mut i: usize = 0;
    assert(layout_doc_view(out@) =~= want.take(0));
    while i < n
        invariant
            i <= n,
            n == es@.len(),
            want == words_of(doc_pairs(es@)),
            layout_doc_view(out@) == want.take(i as int),
        decreases n - i,
    {
        let position = es[i].1.text("position");
        let ghost before = layout_doc_view(out@);
        out.push(LayoutDoc { hostname: es[i].0.clone(), position });
        proof {
            assert(doc_pairs(es@)[i as int] == (es@[i as int].0@, es@[i as int].1.content()));
            assert(layout_doc_view(out@) =~= before.push((es@[i as int].0@, opt_text(position))));
            assert(want[i as int] == (es@[i as int].0@, opt_text(position)));
            assert(want.take(i + 1) =~= want.take(i as int).push(want[i as int]));
        }
        i = i + 1;
    }
    assert(want.take(n as int) =~= want);
    out
}

/// What a file says of the server.
pub fn read_server_doc(doc: &TomlDoc) -> (r: ServerDoc)
    ensures
        server_doc_reads(r, doc.content()),
{
    let hotkey = match doc.section("hotkey") {
        Some(hk) => Some(
            HotkeyDoc {
                forward: hk.integer("cycle_forward_key"),
                backward: hk.integer("cycle_backward_key"),
                require_ctrl: hk.flag("require_ctrl"),
                require_alt: hk.flag("require_alt"),
                require_meta: hk.flag("require_meta"),
            },
        ),
        None => None,
    };
    let layout = match doc.table("layout") {
        Some(es) => {
            let ghost ps = doc_pairs(es@);
            let l = read_layout(es);
            assert(layout_doc_reads(l@, table_of(ps)));
            Some(l)
        },
        None => None,
    };
    ServerDoc {
        port: doc.integer("port"),
        bind: doc.text("bind"),
        psk: doc.text("psk"),
        cert_dir: doc.text("cert_dir"),
        clipboard_limit_bytes: doc.integer("clipboard_limit_bytes"),
        notify_on_focus: doc.flag("notify_on_focus"),
        overlay_on_focus: doc.flag("overlay_on_focus"),
        hotkey,
        layout,
    }
}

/// What a file says of a client.
pub fn read_client_doc(doc: &TomlDoc) -> (r: ClientDoc)
    ensures
        client_doc_reads(r, doc.content()),
{
    ClientDoc {
        discover: doc.flag("discover"),
        server_addr: doc.text("server_addr"),
        port: doc.integer("port"),
        hostname: doc.text("hostname"),
        psk: doc.text("psk"),
        server_fingerprint_hex: doc.text("server_fingerprint_hex"),
        clipboard_limit_bytes: doc.integer("clipboard_limit_bytes"),
        notify_on_focus: doc.flag("notify_on_focus"),
        overlay_on_focus: doc.flag("overlay_on_focus"),
    }
}

/// A new value where there is one, otherwise the old one.
pub open spec fn or_old<T>(new: Option<T>, before: T) -> T {
    match new {
        Some(t) => t,
        None => before,
    }
}

/// The place that a word stands for: the right, where it stands for none.
pub open spec fn place_of_word(w: Option<Seq<char>>) -> Position {
    match w {
        Some(w) => match Position::named(w) {
            Some(p) => p,
            None => Position::Right,
        },
        None => Position::Right,
    }
}

/// The places that words stand for.
pub open spec fn places_of(l: Seq<(Seq<char>, Option<Seq<char>>)>) -> Seq<(Seq<char>, Position)> {
    Seq::new(l.len(), |i: int| (l[i].0, place_of_word(l[i].1)))
}

/// The hotkeys of a form after a file was loaded.
pub open spec fn hotkey_loaded(f: HotkeyFormView, d: HotkeyDoc) -> HotkeyFormView {
    HotkeyFormView {
        forward: match d.forward {
            Some(n) => label_of(low16(n)),
            None => f.forward,
        },
        backward: match d.backward {
            Some(n) => label_of(low16(n)),
            None => f.backward,
        },
        require_ctrl: or_old(d.require_ctrl, f.require_ctrl),
        require_alt: or_old(d.require_alt, f.require_alt),
        require_meta: or_old(d.require_meta, f.require_meta),
    }
}

/// The form for the server after a file was loaded.
pub open spec fn server_loaded(f: ServerFormView, d: ServerDoc) -> ServerFormView {
    ServerFormView {
        port: match d.port {
            Some(p) => low16(p),
            None => f.port,
        },
        bind: or_old(opt_text(d.bind), f.bind),
        psk: or_old(opt_text(d.psk), f.psk),
        cert_dir: or_old(opt_text(d.cert_dir), f.cert_dir),
        clipboard_limit_kb: match d.clipboard_limit_bytes {
            Some(n) => (unsigned(n) / 1024) as u64,
            None => f.clipboard_limit_kb,
        },
        notify_on_focus: or_old(d.notify_on_focus, f.notify_on_focus),
        overlay_on_focus: or_old(d.overlay_on_focus, f.overlay_on_focus),
        hotkey: match d.hotkey {
            Some(hk) => hotkey_loaded(f.hotkey, hk),
            None => f.hotkey,
        },
        layout: match d.layout {
            Some(l) => places_of(layout_doc_view(l@)),
            None => f.layout,
        },
        ..f
    }
}

/// The form for a client after a file was loaded.
pub open spec fn client_loaded(f: ClientFormView, d: ClientDoc) -> ClientFormView {
    ClientFormView {
        discover: or_old(d.discover, f.discover),
        server_addr: or_old(opt_text(d.server_addr), f.server_addr),
        port: match d.port {
            Some(p) => low16(p),
            None => f.port,
        },
        hostname: or_old(opt_text(d.hostname), f.hostname),
        psk: or_old(opt_text(d.psk), f.psk),
        fingerprint_hex: or_old(opt_text(d.server_fingerprint_hex), f.fingerprint_hex),
        clipboard_limit_kb: match d.clipboard_limit_bytes {
            Some(n) => (unsigned(n) / 1024) as u64,
            None => f.clipboard_limit_kb,
        },
        notify_on_focus: or_old(d.notify_on_focus, f.notify_on_focus),
        overlay_on_focus: or_old(d.overlay_on_focus, f.overlay_on_focus),
    }
}

/// Replaces a text where there is a new one.
fn set_text(t: &mut String, new: &Option<String>)
    ensures
        final(t)@ == or_old(opt_text(*new), old(t)@),
{
    if let Some(n) = new {
        *t = n.clone();
    }
}

/// Replaces a flag where there is a new one.
fn set_flag(b: &mut bool, new: Option<bool>)
    ensures
        *final(b) == or_old(new, *old(b)),
{
    if let Some(n) = new {
        *b = n;
    }
}

/// The places that a file gives, for a form.
fn layout_from(l: &Vec<LayoutDoc>) -> (r: Vec<ClientLayout>)
    ensures
        layout_view(r@) == places_of(layout_doc_view(l@)),
{
    let ghost want = places_of(layout_doc_view(l@));
    let n: usize = l.len();
    let mut out: Vec<ClientLayout> = Vec::new();
    let mut i: usize = 0;
    assert(layout_view(out@) =~= want.take(0));
    while i < n
        invariant
            i <= n,
            n == l@.len(),
            want == places_of(layout_doc_view(l@)),
            layout_view(out@) == want.take(i as int),
        decreases n - i,
    {
        let position = match &l[i].position {
            Some(w) => match Position::from_str(w.as_str()) {
                Some(p) => p,
                None => Position::Right,
            },
            None => Position::Right,
        };
        let ghost before = layout_view(out@);
        out.push(ClientLayout { hostname: l[i].hostname.clone(), position });
        proof {
            assert(layout_doc_view(l@)[i as int] == (
                l@[i as int].hostname@,
                opt_text(l@[i as int].position),
            ));
            assert(layout_view(out@) =~= before.push((l@[i as int].hostname@, position)));
            assert(want[i as int] == (l@[i as int].hostname@, position));
            assert(want.take(i + 1) =~= want.take(i as int).push(want[i as int]));
        }
        i = i + 1;
    }
    assert(want.take(n as int) =~= want);
    out
}

/// Takes over what a file says of the hotkeys.
fn load_hotkey(f: &mut HotkeyForm, d: &HotkeyDoc)
    ensures
        final(f)@ == hotkey_loaded(old(f)@, *d),
{
    if let Some(n) = d.forward {
        f.forward_label = key_label_for(take_low16(n));
    }
    if let Some(n) = d.backward {
        f.backward_label = key_label_for(take_low16(n));
    }
    set_flag(&mut f.require_ctrl, d.require_ctrl);
    set_flag(&mut f.require_alt, d.require_alt);
    set_flag(&mut f.require_meta, d.require_meta);
}

/// Takes over into the form for the server what a file says.
#[verifier::rlimit(40)]
pub fn load_server(f: &mut ServerForm, d: &ServerDoc)
    ensures
        final(f)@ == server_loaded(old(f)@, *d),
{
    if let Some(p) = d.port {
        f.port = take_low16(p);
    }
    set_text(&mut f.bind, &d.bind);
    set_text(&mut f.psk, &d.psk);
    set_text(&mut f.cert_dir, &d.cert_dir);
    if let Some(n) = d.clipboard_limit_bytes {
        f.clipboard_limit_kb = to_unsigned(n) / 1024;
    }
    set_flag(&mut f.notify_on_focus, d.notify_on_focus);
    set_flag(&mut f.overlay_on_focus, d.overlay_on_focus);
    if let Some(hk) = &d.hotkey {
        load_hotkey(&mut f.hotkey, hk);
    }
    if let Some(l) = &d.layout {
        f.layout = layout_from(l);
    }
}

/// Takes over into the form for a client what a file says.
pub fn load_client(f: &mut ClientForm, d: &ClientDoc)
    ensures
        final(f)@ == client_loaded(old(f)@, *d),
{
    set_flag(&mut f.discover, d.discover);
    set_text(&mut f.server_addr, &d.server_addr);
    if let Some(p) = d.port {
        f.port = take_low16(p);
    }
    set_text(&mut f.hostname, &d.hostname);
    set_text(&mut f.psk, &d.psk);
    set_text(&mut f.fingerprint_hex, &d.server_fingerprint_hex);
    if let Some(n) = d.clipboard_limit_bytes {
        f.clipboard_limit_kb = to_unsigned(n) / 1024;
    }
    set_flag(&mut f.notify_on_focus, d.notify_on_focus);
    set_flag(&mut f.overlay_on_focus, d.overlay_on_focus);
}

/// The form for the server comes to be `after` by loading a file, if there is one and it is well
/// formed.
pub open spec fn server_reloaded(
    before: ServerFormView,
    text: Option<Seq<char>>,
    after: ServerFormView,
) -> bool {
    match text {
        Some(t) => match toml_of(t) {
            Some(v) => exists|d: ServerDoc|
                #[trigger] server_doc_reads(d, v) && after == server_loaded(before, d),
            None => after == before,
        },
        None => after == before,
    }
}

/// The form for a client comes to be `after` by loading a file, if there is one and it is well
/// formed.
pub open spec fn client_reloaded(
    before: ClientFormView,
    text: Option<Seq<char>>,
    after: ClientFormView,
) -> bool {
    match text {
        Some(t) => match toml_of(t) {
            Some(v) => exists|d: ClientDoc|
                #[trigger] client_doc_reads(d, v) && after == client_loaded(before, d),
            None => after == before,
        },
        None => after == before,
    }
}

/// The text of a file, if there is one.
pub open spec fn file_text(t: Option<&str>) -> Option<Seq<char>> {
    match t {
        Some(t) => Some(t@),
        None => None,
    }
}

/// Loads both forms from the texts of their files, as far as these are there and well formed.
pub fn reload_from_disk(
    server: &mut ServerForm,
    client: &mut ClientForm,
    server_toml: Option<&str>,
    client_toml: Option<&str>,
)
    ensures
        server_reloaded(old(server)@, file_text(server_toml), final(server)@),
        client_reloaded(old(client)@, file_text(client_toml), final(client)@),
{
    if let Some(t) = server_toml {
        if let Some(doc) = TomlDoc::parse(t) {
            let d = read_server_doc(&doc);
            load_server(server, &d);
            assert(server_doc_reads(d, doc.content()));
        }
    }
    if let Some(t) = client_toml {
        if let Some(doc) = TomlDoc::parse(t) {
            let d = read_client_doc(&doc);
            load_client(client, &d);
            assert(client_doc_reads(d, doc.content()));
        }
    }
}

/// A limit in KB can be written in bytes.
pub open spec fn limit_fits(kb: u64) -> bool {
    kb * 1024 <= u64::MAX
}

/// What is saved of the hotkeys.
pub open spec fn hotkey_pairs(f: HotkeyFormView) -> Seq<(Seq<char>, TomlView)> {
    seq![
        ("cycle_forward_key"@, TomlView::Integer(usage_of(f.forward) as i64)),
        ("cycle_backward_key"@, TomlView::Integer(usage_of(f.backward) as i64)),
        ("require_ctrl"@, TomlView::Flag(f.require_ctrl)),
        ("require_alt"@, TomlView::Flag(f.require_alt)),
        ("require_meta"@, TomlView::Flag(f.require_meta)),
    ]
}

/// What is saved of one client's place.
pub open spec fn place_table(p: Position) -> TomlView {
    TomlView::Table(table_of(seq![("position"@, TomlView::Text(p.word()))]))
}

/// What is saved of the clients' places.
pub open spec fn layout_pairs(l: Seq<(Seq<char>, Position)>) -> Seq<(Seq<char>, TomlView)> {
    Seq::new(l.len(), |i: int| (l[i].0, place_table(l[i].1)))
}

/// What is saved of the form for the server, but for the places.
pub open spec fn server_base_pairs(f: ServerFormView) -> Seq<(Seq<char>, TomlView)> {
    seq![
        ("port"@, TomlView::Integer(f.port as i64)),
        ("bind"@, TomlView::Text(f.bind)),
        ("psk"@, TomlView::Text(f.psk)),
        ("cert_dir"@, TomlView::Text(f.cert_dir)),
        (
            "clipboard_limit_bytes"@,
            TomlView::Integer(signed((f.clipboard_limit_kb * 1024) as u64)),
        ),
        ("notify_on_focus"@, TomlView::Flag(f.notify_on_focus)),
        ("overlay_on_focus"@, TomlView::Flag(f.overlay_on_focus)),
        ("hotkey"@, TomlView::Table(table_of(hotkey_pairs(f.hotkey)))),
    ]
}

/// What is saved of the form for the server. The places are left out where there are none.
pub open spec fn server_pairs(f: ServerFormView) -> Seq<(Seq<char>, TomlView)> {
    if f.layout.len() == 0 {
        server_base_pairs(f)
    } else {
        server_base_pairs(f).push(
            ("layout"@, TomlView::Table(table_of(layout_pairs(f.layout)))),
        )
    }
}

/// What is saved of the form for a client.
pub open spec fn client_pairs(f: ClientFormView) -> Seq<(Seq<char>, TomlView)> {
    seq![
        ("discover"@, TomlView::Flag(f.discover)),
        ("server_addr"@, TomlView::Text(f.server_addr)),
        ("port"@, TomlView::Integer(f.port as i64)),
        ("hostname"@, TomlView::Text(f.hostname)),
        ("psk"@, TomlView::Text(f.psk)),
        ("server_fingerprint_hex"@, TomlView::Text(trimmed(f.fingerprint_hex))),
        (
            "clipboard_limit_bytes"@,
            TomlView::Integer(signed((f.clipboard_limit_kb * 1024) as u64)),
        ),
        ("notify_on_focus"@, TomlView::Flag(f.notify_on_focus)),
        ("overlay_on_focus"@, TomlView::Flag(f.overlay_on_focus)),
    ]
}

/// What is saved of the form for the server.
pub open spec fn server_table(f: ServerFormView) -> TomlView {
    TomlView::Table(table_of(server_pairs(f)))
}

/// What is saved of the form for a client.
pub open spec fn client_table(f: ClientFormView) -> TomlView {
    TomlView::Table(table_of(client_pairs(f)))
}

/// The table of the hotkeys.
fn hotkey_table(f: &HotkeyForm) -> (r: toml::Value)
    ensures
        toml_content(r) == TomlView::Table(table_of(hotkey_pairs(f@))),
{
    let mut es: Vec<(String, toml::Value)> = Vec::new();
    let forward = hid_for(f.forward_label.as_str());
    let backward = hid_for(f.backward_label.as_str());
    put_entry(&mut es, "cycle_forward_key", toml_integer(forward as i64));
    put_entry(&mut es, "cycle_backward_key", toml_integer(backward as i64));
    put_entry(&mut es, "require_ctrl", toml_flag(f.require_ctrl));
    put_entry(&mut es, "require_alt", toml_flag(f.require_alt));
    put_entry(&mut es, "require_meta", toml_flag(f.require_meta));
    assert(pairs(es@) =~= hotkey_pairs(f@));
    toml_table(es)
}

/// The table of one client's place.
fn place_value(p: Position) -> (r: toml::Value)
    ensures
        toml_content(r) == place_table(p),
{
    let mut es: Vec<(String, toml::Value)> = Vec::new();
    put_entry(&mut es, "position", toml_text(p.as_str()));
    assert(pairs(es@) =~= seq![("position"@, TomlView::Text(p.word()))]);
    toml_table(es)
}

/// The table of the clients' places.
fn layout_value(l: &Vec<ClientLayout>) -> (r: toml::Value)
    ensures
        toml_content(r) == TomlView::Table(table_of(layout_pairs(layout_view(l@)))),
{
    let ghost want = layout_pairs(layout_view(l@));
    let n: usize = l.len();
    let mut es: Vec<(String, toml::Value)> = Vec::new();
    let mut i: usize = 0;
    assert(pairs(es@) =~= want.take(0));
    while i < n
        invariant
            i <= n,
            n == l@.len(),
            want == layout_pairs(layout_view(l@)),
            pairs(es@) == want.take(i as int),
        decreases n - i,
    {
        let v = place_value(l[i].position);
        put_entry(&mut es, l[i].hostname.as_str(), v);
        proof {
            assert(layout_view(l@)[i as int] == (l@[i as int].hostname@, l@[i as int].position));
            assert(want[i as int] == (l@[i as int].hostname@, place_table(l@[i as int].position)));
            assert(want.take(i + 1) =~= want.take(i as int).push(want[i as int]));
        }
        i = i + 1;
    }
    assert(want.take(n as int) =~= want);
    toml_table(es)
}

/// The table of the form for the server.
fn server_value(f: &ServerForm) -> (r: toml::Value)
    requires
        limit_fits(f@.clipboard_limit_kb),
    ensures
        toml_content(r) == server_table(f@),
{
    let mut es: Vec<(String, toml::Value)> = Vec::new();
    put_entry(&mut es, "port", toml_integer(f.port as i64));
    put_entry(&mut es, "bind", toml_text(f.bind.as_str()));
    put_entry(&mut es, "psk", toml_text(f.psk.as_str()));
    put_entry(&mut es, "cert_dir", toml_text(f.cert_dir.as_str()));
    let limit = to_signed(f.clipboard_limit_kb * 1024);
    put_entry(&mut es, "clipboard_limit_bytes", toml_integer(limit));
    put_entry(&mut es, "notify_on_focus", toml_flag(f.notify_on_focus));
    put_entry(&mut es, "overlay_on_focus", toml_flag(f.overlay_on_focus));
    put_entry(&mut es, "hotkey", hotkey_table(&f.hotkey));
    assert(pairs(es@) =~= server_base_pairs(f@));
    if f.layout.len() > 0 {
        put_entry(&mut es, "layout", layout_value(&f.layout));
    }
    assert(pairs(es@) == server_pairs(f@));
    toml_table(es)
}

/// The table of the form for a client.
fn client_value(f: &ClientForm) -> (r: toml::Value)
    requires
        limit_fits(f@.clipboard_limit_kb),
    ensures
        toml_content(r) == client_table(f@),
{
    let mut es: Vec<(String, toml::Value)> = Vec::new();
    put_entry(&mut es, "discover", toml_flag(f.discover));
    put_entry(&mut es, "server_addr", toml_text(f.server_addr.as_str()));
    put_entry(&mut es, "port", toml_integer(f.port as i64));
    put_entry(&mut es, "hostname", toml_text(f.hostname.as_str()));
    put_entry(&mut es, "psk", toml_text(f.psk.as_str()));
    put_entry(
        &mut es,
        "server_fingerprint_hex",
        toml_text(trim(f.fingerprint_hex.as_str())),
    );
    let limit = to_signed(f.clipboard_limit_kb * 1024);
    put_entry(&mut es, "clipboard_limit_bytes", toml_integer(limit));
    put_entry(&mut es, "notify_on_focus", toml_flag(f.notify_on_focus));
    put_entry(&mut es, "overlay_on_focus", toml_flag(f.overlay_on_focus));
    assert(pairs(es@) =~= client_pairs(f@));
    toml_table(es)
}

/// The name of the file that a form is saved in.
pub fn config_file_name(mode: Mode) -> (r: &'static str)
    ensures
        r@ == match mode {
            Mode::Server => "server.toml"@,
            Mode::Client => "client.toml"@,
        },
{
    match mode {
        Mode::Server => "server.toml",
        Mode::Client => "client.toml",
    }
}

/// The texts of a form hold no long run of quotes, which could not be written.
pub open spec fn savable(mode: Mode, server: ServerFormView, client: ClientFormView) -> bool {
    match mode {
        Mode::Server => {
            &&& quotes_fit(server.bind)
            &&& quotes_fit(server.psk)
            &&& quotes_fit(server.cert_dir)
        },
        Mode::Client => {
            &&& quotes_fit(client.server_addr)
            &&& quotes_fit(client.hostname)
            &&& quotes_fit(client.psk)
            &&& quotes_fit(trimmed(client.fingerprint_hex))
        },
    }
}

/// What is saved of the form of the current mode.
pub open spec fn saved_table(mode: Mode, server: ServerFormView, client: ClientFormView) -> TomlView {
    match mode {
        Mode::Server => server_table(server),
        Mode::Client => client_table(client),
    }
}

/// What is saved of a form can be read back: no host has the name that marks a date in such a file.
pub open spec fn reads_back(mode: Mode, server: ServerFormView) -> bool {
    mode == Mode::Server ==> forall|i: int|
        0 <= i < server.layout.len() ==> (#[trigger] server.layout[i]).0 != date_key()
}

/// The text of the file that the form of the current mode is saved in, which is read back as what
/// was saved, unless a host has the name that marks a date in such a file. A form with more than 255
/// quotes in a row in one of its texts is refused.
pub fn save_config(mode: Mode, server: &ServerForm, client: &ClientForm) -> (r: Result<
    String,
    String,
>)
    requires
        mode == Mode::Server ==> limit_fits(server@.clipboard_limit_kb),
        mode == Mode::Client ==> limit_fits(client@.clipboard_limit_kb),
    ensures
        savable(mode, server@, client@) ==> {
            &&& r is Ok
            &&& r->Ok_0@ == toml_pretty_of(saved_table(mode, server@, client@))
            &&& reads_back(mode, server@) ==> toml_of(r->Ok_0@) == Some(
                saved_table(mode, server@, client@),
            )
        },
        !savable(mode, server@, client@) ==> r is Err && r->Err_0@
            == "more than 255 quotes in a row cannot be saved"@,
{
    let fits = match mode {
        Mode::Server => check_quotes(server.bind.as_str()) && check_quotes(server.psk.as_str())
            && check_quotes(server.cert_dir.as_str()),
        Mode::Client => check_quotes(client.server_addr.as_str()) && check_quotes(
            client.hostname.as_str(),
        ) && check_quotes(client.psk.as_str()) && check_quotes(
            trim(client.fingerprint_hex.as_str()),
        ),
    };
    if !fits {
        return Err(owned("more than 255 quotes in a row cannot be saved"));
    }
    match mode {
        Mode::Server => {
            proof {
                lemma_server_table_plain(server@);
                if reads_back(mode, server@) {
                    lemma_server_table_dateless(server@);
                }
            }
            toml_pretty(&server_value(server))
        },
        Mode::Client => {
            proof {
                lemma_client_table_plain(client@);
                lemma_client_table_dateless(client@);
            }
            toml_pretty(&client_value(client))
        },
    }
}

/// A table of plain values is plain.
proof fn lemma_table_plain(ps: Seq<(Seq<char>, TomlView)>, depth: nat)
    requires
        depth > 0,
        forall|i: int|
            0 <= i < ps.len() ==> plain_toml((#[trigger] ps[i]).1, (depth - 1) as nat),
    ensures
        plain_toml(TomlView::Table(table_of(ps)), depth),
    decreases ps.len(),
{
    let m = table_of(ps);
    assert forall|k: Seq<char>| #[trigger] m.dom().contains(k) implies plain_toml(
        m[k],
        (depth - 1) as nat,
    ) by {
        if ps.len() > 0 {
            let before = ps.drop_last();
            assert forall|i: int| 0 <= i < before.len() implies plain_toml(
                (#[trigger] before[i]).1,
                (depth - 1) as nat,
            ) by {
                assert(plain_toml(ps[i].1, (depth - 1) as nat));
            }
            lemma_table_plain(before, depth);
            assert(plain_toml(ps[ps.len() - 1].1, (depth - 1) as nat));
            assert(m == table_of(before).insert(ps.last().0, ps.last().1));
            if k != ps.last().0 {
                assert(table_of(before).dom().contains(k));
                assert(m[k] == table_of(before)[k]);
                let tb = TomlView::Table(table_of(before));
                assert(plain_toml(tb, depth));
                assert(tb->Table_0.dom().contains(k));
                assert(plain_toml(tb->Table_0[k], (depth - 1) as nat));
            } else {
                assert(m[k] == ps.last().1);
            }
        }
    }
}

/// What is saved of the form for the server is plain.
proof fn lemma_server_table_plain(f: ServerFormView)
    requires
        quotes_fit(f.bind),
        quotes_fit(f.psk),
        quotes_fit(f.cert_dir),
    ensures
        plain_toml(server_table(f), 3),
{
    assert forall|p: Position| #[trigger] plain_toml(place_table(p), 1) by {
        reveal_strlit("left");
        reveal_strlit("right");
        reveal_strlit("above");
        reveal_strlit("below");
        lemma_short_text_quotes(p.word());
        lemma_table_plain(seq![("position"@, TomlView::Text(p.word()))], 1);
    }
    lemma_table_plain(layout_pairs(f.layout), 2);
    assert forall|i: int| 0 <= i < hotkey_pairs(f.hotkey).len() implies plain_toml(
        (#[trigger] hotkey_pairs(f.hotkey)[i]).1,
        1,
    ) by {}
    lemma_table_plain(hotkey_pairs(f.hotkey), 2);
    assert forall|i: int| 0 <= i < server_pairs(f).len() implies plain_toml(
        (#[trigger] server_pairs(f)[i]).1,
        2,
    ) by {}
    lemma_table_plain(server_pairs(f), 3);
}

/// What is saved of the form for a client is plain.
proof fn lemma_client_table_plain(f: ClientFormView)
    requires
        quotes_fit(f.server_addr),
        quotes_fit(f.hostname),
        quotes_fit(f.psk),
        quotes_fit(trimmed(f.fingerprint_hex)),
    ensures
        plain_toml(client_table(f), 3),
{
    assert forall|i: int| 0 <= i < client_pairs(f).len() implies plain_toml(
        (#[trigger] client_pairs(f)[i]).1,
        2,
    ) by {}
    lemma_table_plain(client_pairs(f), 3);
}

/// A table of values without dates, under other keys than the one that marks a date, has none.
proof fn lemma_table_dateless(ps: Seq<(Seq<char>, TomlView)>, depth: nat)
    requires
        depth > 0,
        forall|i: int|
            0 <= i < ps.len() ==> (#[trigger] ps[i]).0 != date_key() && dateless(
                ps[i].1,
                (depth - 1) as nat,
            ),
    ensures
        dateless(TomlView::Table(table_of(ps)), depth),
    decreases ps.len(),
{
    if ps.len() > 0 {
        let before = ps.drop_last();
        let tb = TomlView::Table(table_of(before));
        assert forall|i: int| 0 <= i < before.len() implies (#[trigger] before[i]).0 != date_key()
            && dateless(before[i].1, (depth - 1) as nat) by {
            assert(before[i] == ps[i]);
        }
        lemma_table_dateless(before, depth);
        assert(ps[ps.len() - 1].0 != date_key());
        assert forall|k: Seq<char>| #[trigger] table_of(ps).dom().contains(k) implies dateless(
            table_of(ps)[k],
            (depth - 1) as nat,
        ) by {
            if k != ps.last().0 {
                assert(tb->Table_0.dom().contains(k));
                assert(dateless(tb->Table_0[k], (depth - 1) as nat));
            }
        }
    }
}

/// What is saved of the form for the server marks no date, unless a host does.
proof fn lemma_server_table_dateless(f: ServerFormView)
    requires
        reads_back(Mode::Server, f),
    ensures
        dateless(server_table(f), 3),
{
    reveal_strlit("$__toml_private_datetime");
    reveal_strlit("port");
    reveal_strlit("bind");
    reveal_strlit("psk");
    reveal_strlit("cert_dir");
    reveal_strlit("clipboard_limit_bytes");
    reveal_strlit("notify_on_focus");
    reveal_strlit("overlay_on_focus");
    reveal_strlit("hotkey");
    reveal_strlit("layout");
    reveal_strlit("position");
    reveal_strlit("cycle_forward_key");
    reveal_strlit("cycle_backward_key");
    reveal_strlit("require_ctrl");
    reveal_strlit("require_alt");
    reveal_strlit("require_meta");
    let hp = hotkey_pairs(f.hotkey);
    assert forall|i: int| 0 <= i < hp.len() implies (#[trigger] hp[i]).0 != date_key() && dateless(
        hp[i].1,
        1,
    ) by {
        assert(hp[i].0.len() != date_key().len());
    }
    lemma_table_dateless(hp, 2);
    let lp = layout_pairs(f.layout);
    assert forall|i: int| 0 <= i < lp.len() implies (#[trigger] lp[i]).0 != date_key() && dateless(
        lp[i].1,
        1,
    ) by {
        assert(f.layout[i].0 != date_key());
        let one = seq![("position"@, TomlView::Text(f.layout[i].1.word()))];
        assert(one[0].0.len() != date_key().len());
        lemma_table_dateless(one, 1);
    }
    lemma_table_dateless(lp, 2);
    let ps = server_pairs(f);
    assert forall|i: int| 0 <= i < ps.len() implies (#[trigger] ps[i]).0 != date_key() && dateless(
        ps[i].1,
        2,
    ) by {
        assert(ps[i].0.len() != date_key().len());
    }
    lemma_table_dateless(ps, 3);
}

/// What is saved of the form for a client marks no date.
proof fn lemma_client_table_dateless(f: ClientFormView)
    ensures
        dateless(client_table(f), 3),
{
    reveal_strlit("$__toml_private_datetime");
    reveal_strlit("discover");
    reveal_strlit("server_addr");
    reveal_strlit("port");
    reveal_strlit("hostname");
    reveal_strlit("psk");
    reveal_strlit("server_fingerprint_hex");
    reveal_strlit("clipboard_limit_bytes");
    reveal_strlit("notify_on_focus");
    reveal_strlit("overlay_on_focus");
    let ps = client_pairs(f);
    assert forall|i: int| 0 <= i < ps.len() implies (#[trigger] ps[i]).0 != date_key() && dateless(
        ps[i].1,
        2,
    ) by {
        assert(ps[i].0.len() != date_key().len());
    }
    lemma_table_dateless(ps, 3);
}

/// The keys that a client's file holds differ.
proof fn lemma_client_entry(f: ClientFormView, i: int)
    requires
        0 <= i < client_pairs(f).len(),
    ensures
        at(client_table(f), client_pairs(f)[i].0) == Some(client_pairs(f)[i].1),
{
    let ps = client_pairs(f);
    reveal_strlit("discover");
    reveal_strlit("server_addr");
    reveal_strlit("port");
    reveal_strlit("hostname");
    reveal_strlit("psk");
    reveal_strlit("server_fingerprint_hex");
    reveal_strlit("clipboard_limit_bytes");
    reveal_strlit("notify_on_focus");
    reveal_strlit("overlay_on_focus");
    assert forall|j: int| i < j < ps.len() implies (#[trigger] ps[j]).0 != ps[i].0 by {
        let a = ps[i].0;
        let b = ps[j].0;
        if a == b {
            assert(a.len() == b.len());
            assert(a[0] == b[0]);
        }
    }
    lemma_table_value(ps, i);
}

/// The keys that the server's file holds differ.
proof fn lemma_server_entry(f: ServerFormView, i: int)
    requires
        0 <= i < server_pairs(f).len(),
    ensures
        at(server_table(f), server_pairs(f)[i].0) == Some(server_pairs(f)[i].1),
{
    let ps = server_pairs(f);
    reveal_strlit("port");
    reveal_strlit("bind");
    reveal_strlit("psk");
    reveal_strlit("cert_dir");
    reveal_strlit("clipboard_limit_bytes");
    reveal_strlit("notify_on_focus");
    reveal_strlit("overlay_on_focus");
    reveal_strlit("hotkey");
    reveal_strlit("layout");
    assert forall|j: int| i < j < ps.len() implies (#[trigger] ps[j]).0 != ps[i].0 by {
        let a = ps[i].0;
        let b = ps[j].0;
        if a == b {
            assert(a.len() == b.len());
            assert(a[0] == b[0]);
        }
    }
    lemma_table_value(ps, i);
}

/// The keys that stand for the hotkeys differ.
proof fn lemma_hotkey_entry(f: HotkeyFormView, i: int)
    requires
        0 <= i < hotkey_pairs(f).len(),
    ensures
        at(TomlView::Table(table_of(hotkey_pairs(f))), hotkey_pairs(f)[i].0) == Some(
            hotkey_pairs(f)[i].1,
        ),
{
    let ps = hotkey_pairs(f);
    reveal_strlit("cycle_forward_key");
    reveal_strlit("cycle_backward_key");
    reveal_strlit("require_ctrl");
    reveal_strlit("require_alt");
    reveal_strlit("require_meta");
    assert forall|j: int| i < j < ps.len() implies (#[trigger] ps[j]).0 != ps[i].0 by {
        let a = ps[i].0;
        let b = ps[j].0;
        if a == b {
            assert(a.len() == b.len());
            assert(a[8] == b[8]);
        }
    }
    lemma_table_value(ps, i);
}

/// What was saved of a limit is the limit.
proof fn lemma_limit_round_trip(kb: u64)
    requires
        limit_fits(kb),
    ensures
        unsigned(signed((kb * 1024) as u64)) / 1024 == kb,
{
}

/// What was saved of the form for a client is what is loaded from what stands in the file.
proof fn lemma_saved_client(f: ClientFormView, g: ClientFormView, d: ClientDoc)
    requires
        limit_fits(f.clipboard_limit_kb),
        client_doc_reads(d, client_table(f)),
    ensures
        client_loaded(g, d) == (ClientFormView {
            fingerprint_hex: trimmed(f.fingerprint_hex),
            ..f
        }),
{
    lemma_limit_round_trip(f.clipboard_limit_kb);
    lemma_client_entry(f, 0);
    lemma_client_entry(f, 1);
    lemma_client_entry(f, 2);
    lemma_client_entry(f, 3);
    lemma_client_entry(f, 4);
    lemma_client_entry(f, 5);
    lemma_client_entry(f, 6);
    lemma_client_entry(f, 7);
    lemma_client_entry(f, 8);
}

/// What stands in the file for the hotkeys is what was saved of them.
proof fn lemma_hotkeys_read(f: HotkeyFormView, d: HotkeyDoc)
    requires
        hotkey_doc_reads(d, TomlView::Table(table_of(hotkey_pairs(f)))),
    ensures
        d.forward == Some(usage_of(f.forward) as i64),
        d.backward == Some(usage_of(f.backward) as i64),
        d.require_ctrl == Some(f.require_ctrl),
        d.require_alt == Some(f.require_alt),
        d.require_meta == Some(f.require_meta),
{
    let ps = hotkey_pairs(f);
    assert(ps[0] == ("cycle_forward_key"@, TomlView::Integer(usage_of(f.forward) as i64)));
    assert(ps[1] == ("cycle_backward_key"@, TomlView::Integer(usage_of(f.backward) as i64)));
    assert(ps[2] == ("require_ctrl"@, TomlView::Flag(f.require_ctrl)));
    assert(ps[3] == ("require_alt"@, TomlView::Flag(f.require_alt)));
    assert(ps[4] == ("require_meta"@, TomlView::Flag(f.require_meta)));
    lemma_hotkey_entry(f, 0);
    lemma_hotkey_entry(f, 1);
    lemma_hotkey_entry(f, 2);
    lemma_hotkey_entry(f, 3);
    lemma_hotkey_entry(f, 4);
}

/// What was saved of the hotkeys is loaded again, where they are keys on offer.
proof fn lemma_saved_hotkeys(f: HotkeyFormView, g: HotkeyFormView, d: HotkeyDoc)
    requires
        label_of(usage_of(f.forward)) == f.forward,
        label_of(usage_of(f.backward)) == f.backward,
        hotkey_doc_reads(d, TomlView::Table(table_of(hotkey_pairs(f)))),
    ensures
        hotkey_loaded(g, d) == f,
{
    lemma_hotkeys_read(f, d);
    assert(forall|n: u16| #[trigger] low16(n as i64) == n);
}

/// The places that were saved are those that are loaded.
proof fn lemma_saved_layout(l: Seq<(Seq<char>, Position)>, ld: Seq<LayoutDoc>)
    requires
        hosts_unique(l),
        layout_doc_reads(ld, table_of(layout_pairs(l))),
    ensures
        forall|e: (Seq<char>, Position)| #[trigger]
            places_of(layout_doc_view(ld)).contains(e) <==> l.contains(e),
{
    let lp = layout_pairs(l);
    let m = table_of(lp);
    let ps = choose|ps: Seq<(Seq<char>, TomlView)>|
        {
            &&& m == #[trigger] table_of(ps)
            &&& ascending(ps)
            &&& layout_doc_view(ld) == words_of(ps)
        };
    let got = places_of(layout_doc_view(ld));
    assert forall|i: int| 0 <= i < l.len() implies m.dom().contains(l[i].0) && m[#[trigger] l[i].0]
        == place_table(l[i].1) by {
        assert forall|j: int| i < j < lp.len() implies (#[trigger] lp[j]).0 != lp[i].0 by {
            assert(l[i].0 != l[j].0);
        }
        lemma_table_value(lp, i);
    }
    assert forall|p: Position| text_at(#[trigger] place_table(p), "position"@) == Some(
        p.word(),
    ) && place_of_word(Some(p.word())) == p by {
        let one = seq![("position"@, TomlView::Text(p.word()))];
        lemma_table_value(one, 0);
        words_name_positions(p, p.word());
    }
    assert forall|i: int| 0 <= i < ps.len() implies m.dom().contains((#[trigger] ps[i]).0)
        && m[ps[i].0] == ps[i].1 by {
        lemma_ascending_value(ps, i);
    }
    assert forall|e: (Seq<char>, Position)| #[trigger] got.contains(e) <==> l.contains(e) by {
        if got.contains(e) {
            let i = choose|i: int| 0 <= i < got.len() && got[i] == e;
            assert(m.dom().contains(ps[i].0));
            lemma_table_dom(lp, ps[i].0);
            let j = choose|j: int| 0 <= j < lp.len() && (#[trigger] lp[j]).0 == ps[i].0;
            assert(m[l[j].0] == place_table(l[j].1));
            assert(l[j] == e);
        }
        if l.contains(e) {
            let j = choose|j: int| 0 <= j < l.len() && l[j] == e;
            assert(m.dom().contains(l[j].0));
            lemma_table_dom(ps, l[j].0);
            let i = choose|i: int| 0 <= i < ps.len() && (#[trigger] ps[i]).0 == l[j].0;
            assert(m[ps[i].0] == place_table(l[j].1));
            assert(got[i] == e);
        }
    }
}

/// What was saved of the form for the server is what is loaded from what stands in the file.
#[verifier::rlimit(40)]
proof fn lemma_saved_server(f: ServerFormView, g: ServerFormView, d: ServerDoc)
    requires
        limit_fits(f.clipboard_limit_kb),
        label_of(usage_of(f.hotkey.forward)) == f.hotkey.forward,
        label_of(usage_of(f.hotkey.backward)) == f.hotkey.backward,
        hosts_unique(f.layout),
        server_doc_reads(d, server_table(f)),
    ensures
        server_loaded(g, d) == (ServerFormView {
            layout: server_loaded(g, d).layout,
            new_layout_host: g.new_layout_host,
            new_layout_position: g.new_layout_position,
            ..f
        }),
        f.layout.len() > 0 ==> forall|e: (Seq<char>, Position)| #[trigger]
            server_loaded(g, d).layout.contains(e) <==> f.layout.contains(e),
        f.layout.len() == 0 ==> server_loaded(g, d).layout == g.layout,
{
    lemma_limit_round_trip(f.clipboard_limit_kb);
    lemma_server_entry(f, 0);
    lemma_server_entry(f, 1);
    lemma_server_entry(f, 2);
    lemma_server_entry(f, 3);
    lemma_server_entry(f, 4);
    lemma_server_entry(f, 5);
    lemma_server_entry(f, 6);
    lemma_server_entry(f, 7);
    lemma_saved_hotkeys(f.hotkey, g.hotkey, d.hotkey->Some_0);
    let ps = server_pairs(f);
    if f.layout.len() > 0 {
        lemma_server_entry(f, 8);
        lemma_saved_layout(f.layout, d.layout->Some_0@);
    } else {
        reveal_strlit("port");
        reveal_strlit("bind");
        reveal_strlit("psk");
        reveal_strlit("cert_dir");
        reveal_strlit("clipboard_limit_bytes");
        reveal_strlit("notify_on_focus");
        reveal_strlit("overlay_on_focus");
        reveal_strlit("hotkey");
        reveal_strlit("layout");
        lemma_table_dom(ps, "layout"@);
        assert forall|i: int| 0 <= i < ps.len() implies (#[trigger] ps[i]).0 != "layout"@ by {
            if ps[i].0 == "layout"@ {
                assert(ps[i].0.len() == "layout"@.len());
                assert(ps[i].0[0] == "layout"@[0]);
            }
        }
        assert(at(server_table(f), "layout"@) is None);
    }
}

/// What was saved of the form for a client is loaded again, whatever the form held meanwhile; only
/// the white space around the fingerprint is gone.
pub proof fn saved_client_is_loaded(
    f: ClientFormView,
    text: Seq<char>,
    g: ClientFormView,
    h: ClientFormView,
)
    requires
        limit_fits(f.clipboard_limit_kb),
        toml_of(text) == Some(client_table(f)),
        client_reloaded(g, Some(text), h),
    ensures
        h == (ClientFormView { fingerprint_hex: trimmed(f.fingerprint_hex), ..f }),
{
    let d = choose|d: ClientDoc|
        #[trigger] client_doc_reads(d, client_table(f)) && h == client_loaded(g, d);
    lemma_saved_client(f, g, d);
}

/// What was saved of the form for the server is loaded again, whatever the form held meanwhile, as
/// long as the hotkeys are keys on offer and no host is listed twice. The places come in the order
/// of the names. Where there were none, those that the form holds stay.
pub proof fn saved_server_is_loaded(
    f: ServerFormView,
    text: Seq<char>,
    g: ServerFormView,
    h: ServerFormView,
)
    requires
        limit_fits(f.clipboard_limit_kb),
        label_of(usage_of(f.hotkey.forward)) == f.hotkey.forward,
        label_of(usage_of(f.hotkey.backward)) == f.hotkey.backward,
        hosts_unique(f.layout),
        toml_of(text) == Some(server_table(f)),
        server_reloaded(g, Some(text), h),
    ensures
        h == (ServerFormView {
            layout: h.layout,
            new_layout_host: g.new_layout_host,
            new_layout_position: g.new_layout_position,
            ..f
        }),
        f.layout.len() > 0 ==> forall|e: (Seq<char>, Position)| #[trigger]
            h.layout.contains(e) <==> f.layout.contains(e),
        f.layout.len() == 0 ==> h.layout == g.layout,
{
    let d = choose|d: ServerDoc|
        #[trigger] server_doc_reads(d, server_table(f)) && h == server_loaded(g, d);
    lemma_saved_server(f, g, d);
}

/// What is saved of the form for the server stands under the name that the server looks for.
pub proof fn saved_server_has_its_names(f: ServerFormView)
    requires
        limit_fits(f.clipboard_limit_kb),
    ensures
        ({
            let t = server_table(f);
            let limit = integer_at(t, "clipboard_limit_bytes"@);
            &&& integer_at(t, "port"@) == Some(f.port as i64)
            &&& text_at(t, "bind"@) == Some(f.bind)
            &&& text_at(t, "psk"@) == Some(f.psk)
            &&& text_at(t, "cert_dir"@) == Some(f.cert_dir)
            &&& limit is Some
            &&& f.clipboard_limit_kb * 1024 <= i64::MAX ==> limit->Some_0 == f.clipboard_limit_kb
                * 1024
            &&& flag_at(t, "notify_on_focus"@) == Some(f.notify_on_focus)
            &&& flag_at(t, "overlay_on_focus"@) == Some(f.overlay_on_focus)
            &&& at(t, "hotkey"@) is Some && {
                let h = at(t, "hotkey"@)->Some_0;
                &&& integer_at(h, "cycle_forward_key"@) == Some(usage_of(f.hotkey.forward) as i64)
                &&& integer_at(h, "cycle_backward_key"@) == Some(
                    usage_of(f.hotkey.backward) as i64,
                )
                &&& flag_at(h, "require_ctrl"@) == Some(f.hotkey.require_ctrl)
                &&& flag_at(h, "require_alt"@) == Some(f.hotkey.require_alt)
                &&& flag_at(h, "require_meta"@) == Some(f.hotkey.require_meta)
            }
        }),
{
    lemma_server_entry(f, 0);
    lemma_server_entry(f, 1);
    lemma_server_entry(f, 2);
    lemma_server_entry(f, 3);
    lemma_server_entry(f, 4);
    lemma_server_entry(f, 5);
    lemma_server_entry(f, 6);
    lemma_server_entry(f, 7);
    lemma_hotkey_entry(f.hotkey, 0);
    lemma_hotkey_entry(f.hotkey, 1);
    lemma_hotkey_entry(f.hotkey, 2);
    lemma_hotkey_entry(f.hotkey, 3);
    lemma_hotkey_entry(f.hotkey, 4);
}

/// What is saved of a client's place stands in the table of the places, under the client's name, as
/// the word for it.
pub proof fn saved_places_have_their_names(f: ServerFormView, i: int)
    requires
        hosts_unique(f.layout),
        0 <= i < f.layout.len(),
    ensures
        ({
            let places = at(server_table(f), "layout"@);
            &&& places is Some
            &&& at(places->Some_0, f.layout[i].0) is Some
            &&& text_at(at(places->Some_0, f.layout[i].0)->Some_0, "position"@) == Some(
                f.layout[i].1.word(),
            )
        }),
{
    lemma_server_entry(f, 8);
    let lp = layout_pairs(f.layout);
    assert forall|j: int| i < j < lp.len() implies (#[trigger] lp[j]).0 != lp[i].0 by {
        assert(f.layout[i].0 != f.layout[j].0);
    }
    lemma_table_value(lp, i);
    let p = f.layout[i].1;
    lemma_table_value(seq![("position"@, TomlView::Text(p.word()))], 0);
}

/// What is saved of the form for a client stands under the name that the client looks for.
pub proof fn saved_client_has_its_names(f: ClientFormView)
    requires
        limit_fits(f.clipboard_limit_kb),
    ensures
        ({
            let t = client_table(f);
            let limit = integer_at(t, "clipboard_limit_bytes"@);
            &&& flag_at(t, "discover"@) == Some(f.discover)
            &&& text_at(t, "server_addr"@) == Some(f.server_addr)
            &&& integer_at(t, "port"@) == Some(f.port as i64)
            &&& text_at(t, "hostname"@) == Some(f.hostname)
            &&& text_at(t, "psk"@) == Some(f.psk)
            &&& text_at(t, "server_fingerprint_hex"@) == Some(trimmed(f.fingerprint_hex))
            &&& limit is Some
            &&& f.clipboard_limit_kb * 1024 <= i64::MAX ==> limit->Some_0 == f.clipboard_limit_kb
                * 1024
            &&& flag_at(t, "notify_on_focus"@) == Some(f.notify_on_focus)
            &&& flag_at(t, "overlay_on_focus"@) == Some(f.overlay_on_focus)
        }),
{
    lemma_client_entry(f, 0);
    lemma_client_entry(f, 1);
    lemma_client_entry(f, 2);
    lemma_client_entry(f, 3);
    lemma_client_entry(f, 4);
    lemma_client_entry(f, 5);
    lemma_client_entry(f, 6);
    lemma_client_entry(f, 7);
    lemma_client_entry(f, 8);
}

/// A file changes in the form for the server what it speaks of, to what it says, and nothing else.
pub proof fn server_form_takes_what_the_file_says(f: ServerFormView, v: TomlView, d: ServerDoc)
    requires
        server_doc_reads(d, v),
    ensures
        ({
            let g = server_loaded(f, d);
            let port = integer_at(v, "port"@);
            let limit = integer_at(v, "clipboard_limit_bytes"@);
            &&& port is None ==> g.port == f.port
            &&& port is Some && 0 <= port->Some_0 <= u16::MAX ==> g.port == port->Some_0
            &&& text_at(v, "bind"@) is None ==> g.bind == f.bind
            &&& text_at(v, "bind"@) is Some ==> Some(g.bind) == text_at(v, "bind"@)
            &&& text_at(v, "psk"@) is None ==> g.psk == f.psk
            &&& text_at(v, "psk"@) is Some ==> Some(g.psk) == text_at(v, "psk"@)
            &&& text_at(v, "cert_dir"@) is None ==> g.cert_dir == f.cert_dir
            &&& text_at(v, "cert_dir"@) is Some ==> Some(g.cert_dir) == text_at(v, "cert_dir"@)
            &&& limit is None ==> g.clipboard_limit_kb == f.clipboard_limit_kb
            &&& limit is Some && limit->Some_0 >= 0 ==> g.clipboard_limit_kb * 1024
                <= limit->Some_0 < (g.clipboard_limit_kb + 1) * 1024
            &&& flag_at(v, "notify_on_focus"@) is None ==> g.notify_on_focus == f.notify_on_focus
            &&& flag_at(v, "notify_on_focus"@) is Some ==> Some(g.notify_on_focus) == flag_at(
                v,
                "notify_on_focus"@,
            )
            &&& flag_at(v, "overlay_on_focus"@) is None ==> g.overlay_on_focus
                == f.overlay_on_focus
            &&& flag_at(v, "overlay_on_focus"@) is Some ==> Some(g.overlay_on_focus) == flag_at(
                v,
                "overlay_on_focus"@,
            )
            &&& !(at(v, "hotkey"@) is Some && at(v, "hotkey"@)->Some_0 is Table) ==> g.hotkey
                == f.hotkey
            &&& !(at(v, "layout"@) is Some && at(v, "layout"@)->Some_0 is Table) ==> g.layout
                == f.layout
            &&& g.new_layout_host == f.new_layout_host
            &&& g.new_layout_position == f.new_layout_position
        }),
{
}

/// A file changes in the form for a client what it speaks of, to what it says, and nothing else.
pub proof fn client_form_takes_what_the_file_says(f: ClientFormView, v: TomlView, d: ClientDoc)
    requires
        client_doc_reads(d, v),
    ensures
        ({
            let g = client_loaded(f, d);
            let port = integer_at(v, "port"@);
            let limit = integer_at(v, "clipboard_limit_bytes"@);
            &&& g.discover == if flag_at(v, "discover"@) is Some {
                flag_at(v, "discover"@)->Some_0
            } else {
                f.discover
            }
            &&& g.server_addr == if text_at(v, "server_addr"@) is Some {
                text_at(v, "server_addr"@)->Some_0
            } else {
                f.server_addr
            }
            &&& port is None ==> g.port == f.port
            &&& port is Some && 0 <= port->Some_0 <= u16::MAX ==> g.port == port->Some_0
            &&& g.hostname == if text_at(v, "hostname"@) is Some {
                text_at(v, "hostname"@)->Some_0
            } else {
                f.hostname
            }
            &&& g.psk == if text_at(v, "psk"@) is Some {
                text_at(v, "psk"@)->Some_0
            } else {
                f.psk
            }
            &&& g.fingerprint_hex == if text_at(v, "server_fingerprint_hex"@) is Some {
                text_at(v, "server_fingerprint_hex"@)->Some_0
            } else {
                f.fingerprint_hex
            }
            &&& limit is None ==> g.clipboard_limit_kb == f.clipboard_limit_kb
            &&& limit is Some && limit->Some_0 >= 0 ==> g.clipboard_limit_kb * 1024
                <= limit->Some_0 < (g.clipboard_limit_kb + 1) * 1024
            &&& g.notify_on_focus == if flag_at(v, "notify_on_focus"@) is Some {
                flag_at(v, "notify_on_focus"@)->Some_0
            } else {
                f.notify_on_focus
            }
            &&& g.overlay_on_focus == if flag_at(v, "overlay_on_focus"@) is Some {
                flag_at(v, "overlay_on_focus"@)->Some_0
            } else {
                f.overlay_on_focus
            }
        }),
{
}

/// The hotkeys of the form are the keys that the file names, with the modifiers that it asks for;
/// what it does not speak of stays.
pub proof fn hotkeys_are_taken_from_the_file(f: HotkeyFormView, v: TomlView, d: HotkeyDoc, hid: u16)
    requires
        hotkey_doc_reads(d, v),
        exists|k: int| 0 <= k < hotkey_keys().len() && (#[trigger] hotkey_keys()[k]).1 == hid,
    ensures
        ({
            let g = hotkey_loaded(f, d);
            let forward = integer_at(v, "cycle_forward_key"@);
            let backward = integer_at(v, "cycle_backward_key"@);
            &&& forward == Some(hid as i64) ==> usage_of(g.forward) == hid
            &&& forward is None ==> g.forward == f.forward
            &&& backward == Some(hid as i64) ==> usage_of(g.backward) == hid
            &&& backward is None ==> g.backward == f.backward
            &&& g.require_ctrl == if flag_at(v, "require_ctrl"@) is Some {
                flag_at(v, "require_ctrl"@)->Some_0
            } else {
                f.require_ctrl
            }
            &&& g.require_alt == if flag_at(v, "require_alt"@) is Some {
                flag_at(v, "require_alt"@)->Some_0
            } else {
                f.require_alt
            }
            &&& g.require_meta == if flag_at(v, "require_meta"@) is Some {
                flag_at(v, "require_meta"@)->Some_0
            } else {
                f.require_meta
            }
        }),
{
    offered_keys_round_trip(hid);
    assert(low16(hid as i64) == hid);
}

/// A place is the one that its word names; a word that names none, or none at all, means the right.
pub proof fn places_are_taken_at_their_word(
    l: Seq<(Seq<char>, Option<Seq<char>>)>,
    i: int,
    p: Position,
)
    requires
        0 <= i < l.len(),
    ensures
        places_of(l).len() == l.len(),
        places_of(l)[i].0 == l[i].0,
        l[i].1 == Some(p.word()) ==> places_of(l)[i].1 == p,
        l[i].1 is None ==> places_of(l)[i].1 is Right,
        l[i].1 is Some && l[i].1->Some_0 != "left"@ && l[i].1->Some_0 != "above"@ && l[i].1->Some_0
            != "below"@ ==> places_of(l)[i].1 is Right,
{
    words_name_positions(p, p.word());
}

/// A file that cannot be read, or that is not there, changes nothing.
pub proof fn unreadable_files_change_nothing(
    server: ServerFormView,
    client: ClientFormView,
    text: Seq<char>,
    s: ServerFormView,
    c: ClientFormView,
)
    ensures
        server_reloaded(server, None, s) ==> s == server,
        client_reloaded(client, None, c) ==> c == client,
        toml_of(text) is None && server_reloaded(server, Some(text), s) ==> s == server,
        toml_of(text) is None && client_reloaded(client, Some(text), c) ==> c == client,
{
}

} // verus!
