//! Configuration files: what stands in them, by way of the `toml` crate.

use crate::text::{owned, same_text};
use vstd::prelude::*;
use vstd::utf8::encode_utf8;

verus! {

/// A value of a configuration file. What is neither text, number, flag nor table is of no interest
/// here.
pub enum TomlView {
    Text(Seq<char>),
    Integer(i64),
    Flag(bool),
    Table(Map<Seq<char>, TomlView>),
    Other,
}

/// A value of the `toml` crate.
#[verifier::external_type_specification]
#[verifier::external_body]
pub struct ExTomlValue(toml::Value);

/// What a value of the `toml` crate holds.
pub uninterp spec fn toml_content(v: toml::Value) -> TomlView;

/// What a configuration file holds; `None` where it is malformed.
pub uninterp spec fn toml_of(text: Seq<char>) -> Option<TomlView>;

/// The text that is written for a table of text, numbers, flags and such tables.
pub uninterp spec fn toml_pretty_of(v: TomlView) -> Seq<char>;

/// A value of the `toml` crate, opened: a table shows its entries.
pub enum Shape {
    Text(String),
    Integer(i64),
    Flag(bool),
    Table(Vec<(String, toml::Value)>),
    Other,
}

/// What the entries of a table hold, in order.
pub open spec fn pairs(es: Seq<(String, toml::Value)>) -> Seq<(Seq<char>, TomlView)> {
    es.map_values(|e: (String, toml::Value)| (e.0@, toml_content(e.1)))
}

/// The table of some entries. Of two for the same key the later one counts.
pub open spec fn table_of(ps: Seq<(Seq<char>, TomlView)>) -> Map<Seq<char>, TomlView>
    decreases ps.len(),
{
    if ps.len() == 0 {
        Map::empty()
    } else {
        table_of(ps.drop_last()).insert(ps.last().0, ps.last().1)
    }
}

/// What an opened value holds.
pub open spec fn shape_view(s: Shape) -> TomlView {
    match s {
        Shape::Text(t) => TomlView::Text(t@),
        Shape::Integer(i) => TomlView::Integer(i),
        Shape::Flag(b) => TomlView::Flag(b),
        Shape::Table(es) => TomlView::Table(table_of(pairs(es@))),
        Shape::Other => TomlView::Other,
    }
}

/// One text comes before another in the order of the characters.
pub open spec fn comes_before(a: Seq<char>, b: Seq<char>) -> bool
    decreases a.len(),
{
    if b.len() == 0 {
        false
    } else if a.len() == 0 {
        true
    } else {
        a[0] < b[0] || (a[0] == b[0] && comes_before(a.drop_first(), b.drop_first()))
    }
}

/// The keys come in the order of their characters, and so each of them once.
pub open spec fn ascending(ps: Seq<(Seq<char>, TomlView)>) -> bool {
    forall|i: int, j: int|
        0 <= i < j < ps.len() ==> comes_before((#[trigger] ps[i]).0, (#[trigger] ps[j]).0)
}

/// `toml::Value` parsed from text: what the file holds, or `None` where it is malformed. Which text
/// is well formed is left to that crate.
#[verifier::external_body]
fn toml_parse(text: &str) -> (r: Option<toml::Value>)
    ensures
        r is Some <==> toml_of(text@) is Some,
        r matches Some(v) ==> Some(toml_content(v)) == toml_of(text@),
{
    text.parse::<toml::Value>().ok()
}

/// `toml::Value`, opened. The entries of a table come in the order of their keys, since the crate
/// keeps them in a `BTreeMap`.
#[verifier::external_body]
fn toml_open(v: &toml::Value) -> (r: Shape)
    ensures
        shape_view(r) == toml_content(*v),
        r matches Shape::Table(es) ==> ascending(pairs(es@)),
{
    match v {
        toml::Value::String(s) => Shape::Text(s.clone()),
        toml::Value::Integer(i) => Shape::Integer(*i),
        toml::Value::Boolean(b) => Shape::Flag(*b),
        toml::Value::Table(t) => {
            Shape::Table(t.iter().map(|(k, v)| (k.clone(), v.clone())).collect())
        },
        toml::Value::Float(_) => Shape::Other,
        toml::Value::Datetime(_) => Shape::Other,
        toml::Value::Array(_) => Shape::Other,
    }
}

/// `toml::Value` made from text.
#[verifier::external_body]
pub(crate) fn toml_text(s: &str) -> (r: toml::Value)
    ensures
        toml_content(r) == TomlView::Text(s@),
{
    toml::Value::String(s.to_string())
}

/// `toml::Value` made from a number.
#[verifier::external_body]
pub(crate) fn toml_integer(i: i64) -> (r: toml::Value)
    ensures
        toml_content(r) == TomlView::Integer(i),
{
    toml::Value::Integer(i)
}

/// `toml::Value` made from a flag.
#[verifier::external_body]
pub(crate) fn toml_flag(b: bool) -> (r: toml::Value)
    ensures
        toml_content(r) == TomlView::Flag(b),
{
    toml::Value::Boolean(b)
}

/// A table of the `toml` crate.
#[verifier::external_type_specification]
#[verifier::external_body]
#[verifier::reject_recursive_types(K)]
#[verifier::reject_recursive_types(V)]
pub struct ExTomlTable<K, V>(toml::map::Map<K, V>);

/// What a table of the `toml` crate holds.
pub uninterp spec fn table_content(t: toml::map::Map<String, toml::Value>) -> Map<
    Seq<char>,
    TomlView,
>;

/// `toml::map::Map::new`: an empty table.
#[verifier::external_body]
fn table_new() -> (r: toml::map::Map<String, toml::Value>)
    ensures
        (table_content(r) == Map::<Seq<char>, TomlView>::empty()),
{
    toml::map::Map::new()
}

/// `toml::map::Map::insert`: the key then has this value, whether it had another before or not.
#[verifier::external_body]
fn table_insert(t: &mut toml::map::Map<String, toml::Value>, key: String, v: toml::Value)
    ensures
        table_content(*final(t)) == table_content(*old(t)).insert(key@, toml_content(v)),
{
    let _ = t.insert(key, v);
}

/// `toml::Value` made from a table.
#[verifier::external_body]
fn toml_of_table(t: toml::map::Map<String, toml::Value>) -> (r: toml::Value)
    ensures
        toml_content(r) == TomlView::Table(table_content(t)),
{
    toml::Value::Table(t)
}

/// The table of some entries, inserted one after the other.
pub(crate) fn toml_table(es: Vec<(String, toml::Value)>) -> (r: toml::Value)
    ensures
        toml_content(r) == TomlView::Table(table_of(pairs(es@))),
{
    let ghost ps = pairs(es@);
    let mut es = es;
    let mut t = table_new();
    let ghost mut done: int = 0;
    assert(ps.take(0) =~= Seq::empty());
    while es.len() > 0
        invariant
            0 <= done,
            done + es@.len() == ps.len(),
            pairs(es@) == ps.skip(done),
            table_content(t) == table_of(ps.take(done)),
        decreases es@.len(),
    {
        proof {
            assert(pairs(es@)[0] == ps[done]);
            assert(ps.take(done + 1).drop_last() =~= ps.take(done));
            assert(pairs(es@.remove(0)) =~= pairs(es@).skip(1));
            assert(ps.skip(done).skip(1) =~= ps.skip(done + 1));
            done = done + 1;
        }
        let (k, v) = es.remove(0);
        table_insert(&mut t, k, v);
    }
    assert(ps.take(done) =~= ps);
    toml_of_table(t)
}

/// The number of bytes `c` that `b` ends with.
pub open spec fn run_at_end(b: Seq<u8>, c: u8) -> nat
    decreases b.len(),
{
    if b.len() == 0 || b.last() != c {
        0
    } else {
        run_at_end(b.drop_last(), c) + 1
    }
}

/// Nowhere in `b` do more than 255 bytes `c` follow each other.
pub open spec fn runs_fit(b: Seq<u8>, c: u8) -> bool {
    forall|k: int| 0 <= k <= b.len() ==> #[trigger] run_at_end(b.take(k), c) <= 255
}

/// Nowhere in a text do more than 255 single quotes, or double quotes, follow each other.
pub open spec fn quotes_fit(t: Seq<char>) -> bool {
    runs_fit(encode_utf8(t), 0x27) && runs_fit(encode_utf8(t), 0x22)
}

/// Nowhere in `b` do more than 255 bytes `c` follow each other.
fn check_runs(b: &[u8], c: u8) -> (r: bool)
    ensures
        r == runs_fit(b@, c),
{
    let n: usize = b.len();
    let mut run: usize = 0;
    let mut i: usize = 0;
    assert(b@.take(0) =~= Seq::empty());
    while i < n
        invariant
            i <= n,
            n == b@.len(),
            run <= 255,
            run == run_at_end(b@.take(i as int), c),
            forall|k: int| 0 <= k <= i ==> #[trigger] run_at_end(b@.take(k), c) <= 255,
        decreases n - i,
    {
        assert(b@.take(i + 1).drop_last() =~= b@.take(i as int));
        if b[i] == c {
            run = run + 1;
        } else {
            run = 0;
        }
        assert(run == run_at_end(b@.take(i + 1), c));
        if run > 255 {
            return false;
        }
        i = i + 1;
    }
    true
}

/// Nowhere in a text do more than 255 single quotes, or double quotes, follow each other.
pub(crate) fn check_quotes(t: &str) -> (r: bool)
    ensures
        r == quotes_fit(t@),
{
    check_runs(t.as_bytes(), 0x27) && check_runs(t.as_bytes(), 0x22)
}

/// A short text holds no long run.
pub proof fn lemma_short_text_quotes(t: Seq<char>)
    requires
        t.len() <= 63,
    ensures
        quotes_fit(t),
{
    let b = encode_utf8(t);
    lemma_encoded_text_len(t);
    assert forall|k: int| 0 <= k <= b.len() implies #[trigger] run_at_end(b.take(k), 0x27) <= 255 by {
        lemma_run_len(b.take(k), 0x27);
    }
    assert forall|k: int| 0 <= k <= b.len() implies #[trigger] run_at_end(b.take(k), 0x22) <= 255 by {
        lemma_run_len(b.take(k), 0x22);
    }
}

/// No character takes more than four bytes.
proof fn lemma_encoded_text_len(t: Seq<char>)
    ensures
        encode_utf8(t).len() <= 4 * t.len(),
    decreases t.len(),
{
    if t.len() > 0 {
        lemma_encoded_text_len(t.drop_first());
    }
}

/// A run is not longer than what it ends.
proof fn lemma_run_len(b: Seq<u8>, c: u8)
    ensures
        run_at_end(b, c) <= b.len(),
    decreases b.len(),
{
    if b.len() > 0 {
        lemma_run_len(b.drop_last(), c);
    }
}

/// There is nothing in a value but text without long runs of quotes, numbers, flags, and tables of
/// these, to the given depth.
pub open spec fn plain_toml(v: TomlView, depth: nat) -> bool
    decreases depth,
{
    match v {
        TomlView::Text(t) => quotes_fit(t),
        TomlView::Other => false,
        TomlView::Table(m) => depth > 0 && forall|k: Seq<char>| #[trigger]
            m.dom().contains(k) ==> plain_toml(m[k], (depth - 1) as nat),
        _ => true,
    }
}

/// A key that the `toml` crate keeps to itself: it reads a table that begins with it as a date.
pub open spec fn date_key() -> Seq<char> {
    "$__toml_private_datetime"@
}

/// No table in a value, to the given depth, has the key that marks a date.
pub open spec fn dateless(v: TomlView, depth: nat) -> bool
    decreases depth,
{
    match v {
        TomlView::Table(m) => depth > 0 && !m.dom().contains(date_key()) && forall|k: Seq<char>|
            #[trigger] m.dom().contains(k) ==> dateless(m[k], (depth - 1) as nat),
        _ => true,
    }
}

/// `toml::to_string_pretty` on a table of text, numbers, flags and such tables: always succeeds,
/// with a text that is read back as the same table, unless a table in it has the key that marks a
/// date. The crate counts quotes that follow each other in a value in eight bits, so longer runs of
/// them are left out; in a key it counts none.
#[verifier::external_body]
pub(crate) fn toml_pretty(v: &toml::Value) -> (r: Result<String, String>)
    requires
        toml_content(*v) is Table,
        plain_toml(toml_content(*v), 3),
    ensures
        r is Ok,
        r->Ok_0@ == toml_pretty_of(toml_content(*v)),
        dateless(toml_content(*v), 3) ==> toml_of(r->Ok_0@) == Some(toml_content(*v)),
{
    toml::to_string_pretty(v).map_err(|e| e.to_string())
}

/// What a table holds under a key.
pub open spec fn at(v: TomlView, key: Seq<char>) -> Option<TomlView> {
    match v {
        TomlView::Table(m) => if m.dom().contains(key) {
            Some(m[key])
        } else {
            None
        },
        _ => None,
    }
}

/// The text under a key.
pub open spec fn text_at(v: TomlView, key: Seq<char>) -> Option<Seq<char>> {
    match at(v, key) {
        Some(TomlView::Text(t)) => Some(t),
        _ => None,
    }
}

/// The number under a key.
pub open spec fn integer_at(v: TomlView, key: Seq<char>) -> Option<i64> {
    match at(v, key) {
        Some(TomlView::Integer(i)) => Some(i),
        _ => None,
    }
}

/// The flag under a key.
pub open spec fn flag_at(v: TomlView, key: Seq<char>) -> Option<bool> {
    match at(v, key) {
        Some(TomlView::Flag(b)) => Some(b),
        _ => None,
    }
}

/// No text comes before itself.
proof fn lemma_not_before_itself(a: Seq<char>)
    ensures
        !comes_before(a, a),
    decreases a.len(),
{
    if a.len() > 0 {
        lemma_not_before_itself(a.drop_first());
    }
}

/// A key is in the table of some entries if one of them is for it.
pub proof fn lemma_table_dom(ps: Seq<(Seq<char>, TomlView)>, k: Seq<char>)
    ensures
        table_of(ps).dom().contains(k) <==> exists|i: int|
            0 <= i < ps.len() && (#[trigger] ps[i]).0 == k,
    decreases ps.len(),
{
    if ps.len() > 0 {
        let before = ps.drop_last();
        lemma_table_dom(before, k);
        if table_of(ps).dom().contains(k) {
            if ps.last().0 == k {
                assert(ps[ps.len() - 1].0 == k);
            } else {
                let i = choose|i: int| 0 <= i < before.len() && (#[trigger] before[i]).0 == k;
                assert(ps[i].0 == k);
            }
        }
        if exists|i: int| 0 <= i < ps.len() && (#[trigger] ps[i]).0 == k {
            let i = choose|i: int| 0 <= i < ps.len() && (#[trigger] ps[i]).0 == k;
            if i < before.len() {
                assert(before[i].0 == k);
            }
        }
    }
}

/// In a table whose entries are for different keys each entry counts.
pub proof fn lemma_table_value(ps: Seq<(Seq<char>, TomlView)>, i: int)
    requires
        0 <= i < ps.len(),
        forall|j: int| i < j < ps.len() ==> (#[trigger] ps[j]).0 != ps[i].0,
    ensures
        table_of(ps).dom().contains(ps[i].0),
        table_of(ps)[ps[i].0] == ps[i].1,
    decreases ps.len(),
{
    if i < ps.len() - 1 {
        let before = ps.drop_last();
        assert(before[i] == ps[i]);
        assert forall|j: int| i < j < before.len() implies (#[trigger] before[j]).0 != before[i].0 by {
            assert(ps[j].0 != ps[i].0);
        }
        lemma_table_value(before, i);
        assert(ps[ps.len() - 1].0 != ps[i].0);
    }
}

/// In a table whose entries come in the order of their keys each entry counts.
pub proof fn lemma_ascending_value(ps: Seq<(Seq<char>, TomlView)>, i: int)
    requires
        ascending(ps),
        0 <= i < ps.len(),
    ensures
        table_of(ps).dom().contains(ps[i].0),
        table_of(ps)[ps[i].0] == ps[i].1,
{
    lemma_not_before_itself(ps[i].0);
    assert forall|j: int| i < j < ps.len() implies (#[trigger] ps[j]).0 != ps[i].0 by {
        assert(comes_before(ps[i].0, ps[j].0));
    }
    lemma_table_value(ps, i);
}

/// A configuration file that has been read.
pub struct TomlDoc {
    root: toml::Value,
}

impl TomlDoc {
    /// What the file holds.
    pub closed spec fn content(self) -> TomlView {
        toml_content(self.root)
    }

    /// Reads a file.
    pub fn parse(text: &str) -> (r: Option<TomlDoc>)
        ensures
            match r {
                Some(d) => toml_of(text@) == Some(d.content()),
                None => toml_of(text@) is None,
            },
    {
        match toml_parse(text) {
            Some(root) => Some(TomlDoc { root }),
            None => None,
        }
    }

    /// What stands under a key.
    fn field(&self, key: &str) -> (r: Option<Shape>)
        ensures
            match r {
                Some(s) => at(self.content(), key@) == Some(shape_view(s)) && (
                s matches Shape::Table(es) ==> ascending(pairs(es@))),
                None => at(self.content(), key@) is None,
            },
    {
        let es = match toml_open(&self.root) {
            Shape::Table(es) => es,
            _ => {
                return None;
            },
        };
        let ghost ps = pairs(es@);
        let n: usize = es.len();
        let mut i: usize = 0;
        while i < n
            invariant
                i <= n,
                n == es@.len(),
                ps == pairs(es@),
                ascending(ps),
                self.content() == TomlView::Table(table_of(ps)),
                forall|j: int| 0 <= j < i ==> (#[trigger] ps[j]).0 != key@,
            decreases n - i,
        {
            assert(ps[i as int].0 == es@[i as int].0@);
            if same_text(es[i].0.as_str(), key) {
                proof {
                    lemma_ascending_value(ps, i as int);
                }
                return Some(toml_open(&es[i].1));
            }
            i = i + 1;
        }
        proof {
            lemma_table_dom(ps, key@);
        }
        None
    }

    /// The text under a key.
    pub fn text(&self, key: &str) -> (r: Option<String>)
        ensures
            match r {
                Some(t) => text_at(self.content(), key@) == Some(t@),
                None => text_at(self.content(), key@) is None,
            },
    {
        match self.field(key) {
            Some(Shape::Text(t)) => Some(t),
            _ => None,
        }
    }

    /// The number under a key.
    pub fn integer(&self, key: &str) -> (r: Option<i64>)
        ensures
            r == integer_at(self.content(), key@),
    {
        match self.field(key) {
            Some(Shape::Integer(i)) => Some(i),
            _ => None,
        }
    }

    /// The flag under a key.
    pub fn flag(&self, key: &str) -> (r: Option<bool>)
        ensures
            r == flag_at(self.content(), key@),
    {
        match self.field(key) {
            Some(Shape::Flag(b)) => Some(b),
            _ => None,
        }
    }

    /// The table under a key, by its entries.
    pub fn table(&self, key: &str) -> (r: Option<Vec<(String, TomlDoc)>>)
        ensures
            match r {
                Some(es) => at(self.content(), key@) == Some(
                    TomlView::Table(table_of(doc_pairs(es@))),
                ) && ascending(doc_pairs(es@)),
                None => !(at(self.content(), key@) matches Some(TomlView::Table(_))),
            },
    {
        let es = match self.field(key) {
            Some(Shape::Table(es)) => es,
            _ => {
                return None;
            },
        };
        let ghost ps = pairs(es@);
        let mut es = es;
        let mut out: Vec<(String, TomlDoc)> = Vec::new();
        while es.len() > 0
            invariant
                doc_pairs(out@) + pairs(es@) == ps,
            decreases es@.len(),
        {
            let ghost before = doc_pairs(out@) + pairs(es@);
            let (k, root) = es.remove(0);
            out.push((k, TomlDoc { root }));
            assert(doc_pairs(out@) + pairs(es@) =~= before);
        }
        assert(doc_pairs(out@) =~= ps);
        Some(out)
    }

    /// The table under a key, as a document of its own.
    pub fn section(&self, key: &str) -> (r: Option<TomlDoc>)
        ensures
            match r {
                Some(d) => at(self.content(), key@) == Some(d.content()) && d.content() is Table,
                None => !(at(self.content(), key@) matches Some(TomlView::Table(_))),
            },
    {
        match self.field(key) {
            Some(Shape::Table(es)) => Some(TomlDoc { root: toml_table(es) }),
            _ => None,
        }
    }
}

/// What the entries of a table hold, in order.
pub open spec fn doc_pairs(es: Seq<(String, TomlDoc)>) -> Seq<(Seq<char>, TomlView)> {
    es.map_values(|e: (String, TomlDoc)| (e.0@, e.1.content()))
}

/// Appends an entry.
pub(crate) fn put_entry(es: &mut Vec<(String, toml::Value)>, key: &str, v: toml::Value)
    ensures
        pairs(final(es)@) == pairs(old(es)@).push((key@, toml_content(v))),
{
    es.push((owned(key), v));
    assert(pairs(es@) =~= pairs(old(es)@).push((key@, toml_content(v))));
}

/// What stands under a key is found there as what it is, and as nothing else; and of two entries for
/// one key the later one counts.
pub proof fn entries_are_found(
    ps: Seq<(Seq<char>, TomlView)>,
    key: Seq<char>,
    v: TomlView,
    other: Seq<char>,
)
    ensures
        ({
            let t = TomlView::Table(table_of(ps.push((key, v))));
            &&& at(t, key) == Some(v)
            &&& other != key ==> at(t, other) == at(TomlView::Table(table_of(ps)), other)
            &&& text_at(t, key) == if v is Text {
                Some(v->Text_0)
            } else {
                None
            }
            &&& integer_at(t, key) == if v is Integer {
                Some(v->Integer_0)
            } else {
                None
            }
            &&& flag_at(t, key) == if v is Flag {
                Some(v->Flag_0)
            } else {
                None
            }
        }),
        at(TomlView::Table(table_of(Seq::empty())), key) is None,
{
    assert(ps.push((key, v)).drop_last() =~= ps);
}

} // verus!
