//! How the server is found on the local network.

use crate::paths::Platform;
use crate::protocol::PROTOCOL_VERSION;
use crate::text::{
    cat, decimal, decimal_text, decimal_value, decimals_spell_their_number, owned, text_from_utf8,
    trim, trimmed,
};
use vstd::prelude::*;
use vstd::utf8::{decode_utf8, valid_utf8};

verus! {

/// A letter or a digit of ASCII.
pub open spec fn is_alnum(c: char) -> bool {
    '0' <= c <= '9' || 'a' <= c <= 'z' || 'A' <= c <= 'Z'
}

/// The character itself where a name may hold it, otherwise a hyphen.
pub open spec fn cleaned_char(c: char) -> char {
    if is_alnum(c) || c == '-' {
        c
    } else {
        '-'
    }
}

/// Every character cleaned.
pub open spec fn cleaned(t: Seq<char>) -> Seq<char> {
    t.map_values(|c: char| cleaned_char(c))
}

/// The text without the hyphens that it starts with.
pub open spec fn unhyphened_start(t: Seq<char>) -> Seq<char>
    decreases t.len(),
{
    if t.len() > 0 && t[0] == '-' {
        unhyphened_start(t.drop_first())
    } else {
        t
    }
}

/// The text without the hyphens that it ends with.
pub open spec fn unhyphened_end(t: Seq<char>) -> Seq<char>
    decreases t.len(),
{
    if t.len() > 0 && t.last() == '-' {
        unhyphened_end(t.drop_last())
    } else {
        t
    }
}

/// The name under which a host announces itself.
pub open spec fn instance_name(host: Seq<char>) -> Seq<char> {
    let t = unhyphened_end(unhyphened_start(cleaned(host)));
    if t.len() == 0 {
        "union-server"@
    } else {
        t
    }
}

/// A name for a host that is made of ASCII letters, digits and hyphens, with no hyphen at its ends.
pub fn sanitize_instance_name(host: &str) -> (r: String)
    ensures
        r@ == instance_name(host@),
{
    let n: usize = host.unicode_len();
    let mut clean = String::new();
    let mut i: usize = 0;
    proof {
        reveal_strlit("-");
        assert("-"@ =~= seq!['-']);
    }
    while i < n
        invariant
            i <= n,
            n == host@.len(),
            clean@ == cleaned(host@.take(i as int)),
            "-"@ == seq!['-'],
        decreases n - i,
    {
        let c = host.get_char(i);
        let keep = ('0' <= c && c <= '9') || ('a' <= c && c <= 'z') || ('A' <= c && c <= 'Z') || c
            == '-';
        if keep {
            clean.append(host.substring_char(i, i + 1));
        } else {
            clean.append("-");
        }
        assert(clean@ =~= cleaned(host@.take(i + 1)));
        i = i + 1;
    }
    assert(host@.take(n as int) =~= host@);
    let t = clean.as_str();
    let mut a: usize = 0;
    assert(t@.skip(0) =~= t@);
    while a < n && t.get_char(a) == '-'
        invariant
            a <= n,
            n == t@.len(),
            unhyphened_start(t@) == unhyphened_start(t@.skip(a as int)),
        decreases n - a,
    {
        assert(t@.skip(a as int).drop_first() =~= t@.skip(a + 1));
        a = a + 1;
    }
    let ghost s = t@.skip(a as int);
    assert(unhyphened_start(t@) == s);
    let mut b: usize = n;
    assert(t@.subrange(a as int, n as int) =~= s);
    while a < b && t.get_char(b - 1) == '-'
        invariant
            a <= b <= n,
            n == t@.len(),
            unhyphened_end(s) == unhyphened_end(t@.subrange(a as int, b as int)),
        decreases b,
    {
        assert(t@.subrange(a as int, b as int).drop_last() =~= t@.subrange(a as int, b - 1));
        b = b - 1;
    }
    if a == b {
        return owned("union-server");
    }
    owned(t.substring_char(a, b))
}

/// What is announced of a server.
#[derive(Debug, PartialEq, Eq)]
pub struct ServiceRecord {
    pub instance: String,
    pub host: String,
    /// The fingerprint to pin, in hexadecimal.
    pub fp: String,
    /// The version that the server speaks.
    pub v: String,
}

/// What is announced of the server on a host.
pub fn service_record(hostname: &str, fp_hex: &str) -> (r: ServiceRecord)
    ensures
        r.instance@ == instance_name(hostname@),
        r.host@ == instance_name(hostname@) + ".local."@,
        r.fp@ == fp_hex@,
        r.v@ == decimal(PROTOCOL_VERSION as nat),
{
    let instance = sanitize_instance_name(hostname);
    let host = cat(instance.as_str(), ".local.");
    ServiceRecord { instance, host, fp: owned(fp_hex), v: decimal_text(PROTOCOL_VERSION as u64) }
}

/// The name of this host: what the environment says, or else what the `hostname` command printed,
/// without the white space around it, or else `fallback`.
pub fn hostname_default(
    env: Option<String>,
    command_output: Option<Vec<u8>>,
    fallback: &str,
) -> (r: String)
    ensures
        r@ == match (env, command_output) {
            (Some(h), _) => h@,
            (None, Some(out)) => if valid_utf8(out@) {
                trimmed(decode_utf8(out@))
            } else {
                fallback@
            },
            (None, None) => fallback@,
        },
{
    if let Some(h) = env {
        return h;
    }
    match command_output {
        Some(out) => match text_from_utf8(out.as_slice()) {
            Ok(t) => owned(trim(t.as_str())),
            Err(_) => owned(fallback),
        },
        None => owned(fallback),
    }
}

/// The name of the program that shows the banner.
pub fn overlay_binary_name(platform: Platform) -> (r: &'static str)
    ensures
        r@ == if platform == Platform::Windows {
            "union-overlay.exe"@
        } else {
            "union-overlay"@
        },
{
    match platform {
        Platform::Windows => "union-overlay.exe",
        _ => "union-overlay",
    }
}

/// Taking the hyphens off at the start leaves no hyphen there, and an end of what was there.
proof fn lemma_unhyphened_start(t: Seq<char>)
    ensures
        unhyphened_start(t).len() > 0 ==> unhyphened_start(t)[0] != '-',
        unhyphened_start(t).len() <= t.len(),
        unhyphened_start(t) == t.skip(t.len() - unhyphened_start(t).len()),
    decreases t.len(),
{
    if t.len() > 0 && t[0] == '-' {
        lemma_unhyphened_start(t.drop_first());
        let k = unhyphened_start(t).len();
        assert(t.drop_first().skip(t.len() - 1 - k) =~= t.skip(t.len() - k));
    } else {
        assert(t.skip(0) =~= t);
    }
}

/// Taking the hyphens off at the end leaves no hyphen there, and a beginning of what was there.
proof fn lemma_unhyphened_end(t: Seq<char>)
    ensures
        unhyphened_end(t).len() > 0 ==> unhyphened_end(t).last() != '-',
        unhyphened_end(t).len() <= t.len(),
        unhyphened_end(t) == t.take(unhyphened_end(t).len() as int),
    decreases t.len(),
{
    if t.len() > 0 && t.last() == '-' {
        lemma_unhyphened_end(t.drop_last());
        let k = unhyphened_end(t).len() as int;
        assert(t.drop_last().take(k) =~= t.take(k));
    } else {
        assert(t.take(t.len() as int) =~= t);
    }
}

/// Whatever the host is called, the name that is announced is made of ASCII letters, digits and
/// hyphens, is not empty, and neither starts nor ends with a hyphen.
pub proof fn instance_names_are_portable(host: Seq<char>)
    ensures
        instance_name(host).len() > 0,
        instance_name(host)[0] != '-',
        instance_name(host).last() != '-',
        forall|i: int|
            0 <= i < instance_name(host).len() ==> is_alnum(#[trigger] instance_name(host)[i])
                || instance_name(host)[i] == '-',
{
    let c = cleaned(host);
    let a = unhyphened_start(c);
    let t = unhyphened_end(a);
    lemma_unhyphened_start(c);
    lemma_unhyphened_end(a);
    assert forall|i: int| 0 <= i < t.len() implies is_alnum(#[trigger] t[i]) || t[i] == '-' by {
        assert(t[i] == a[i]);
        assert(a[i] == c[c.len() - a.len() + i]);
    }
    if t.len() > 0 {
        assert(t[0] == a[0]);
    } else {
        reveal_strlit("union-server");
    }
}

/// The announced name keeps what it can of the name of the host: it is a stretch of it, with a hyphen
/// in the place of each character that is no ASCII letter or digit, and no letter or digit is left
/// out. A host without any gets a name of its own.
pub proof fn instance_names_keep_what_they_can(host: Seq<char>)
    ensures
        (exists|i: int| 0 <= i < host.len() && is_alnum(#[trigger] host[i])) ==> exists|k: int|
            {
                &&& 0 <= k
                &&& k + instance_name(host).len() <= host.len()
                &&& instance_name(host) == cleaned(
                    (#[trigger] host.skip(k)).take(instance_name(host).len() as int),
                )
                &&& forall|j: int|
                    0 <= j < k || k + instance_name(host).len() <= j < host.len() ==> !is_alnum(
                        #[trigger] host[j],
                    )
            },
        (forall|i: int| 0 <= i < host.len() ==> !is_alnum(#[trigger] host[i])) ==> instance_name(
            host,
        ) == "union-server"@,
{
    let c = cleaned(host);
    let a = unhyphened_start(c);
    let t = unhyphened_end(a);
    lemma_unhyphened_start(c);
    lemma_unhyphened_end(a);
    lemma_hyphens_taken_at_start(c);
    lemma_hyphens_taken_at_end(a);
    let k = c.len() - a.len();
    assert forall|j: int| 0 <= j < k || k + t.len() <= j < host.len() implies !is_alnum(
        #[trigger] host[j],
    ) by {
        if j < k {
            assert(c[j] == '-');
        } else {
            assert(a[j - k] == '-');
            assert(c[j] == a[j - k]);
        }
        assert(c[j] == cleaned_char(host[j]));
    }
    if exists|i: int| 0 <= i < host.len() && is_alnum(#[trigger] host[i]) {
        let i = choose|i: int| 0 <= i < host.len() && is_alnum(#[trigger] host[i]);
        assert(t.len() > 0);
        assert(t =~= cleaned(host.skip(k).take(t.len() as int)));
    } else if t.len() > 0 {
        assert(t[0] == a[0] && a[0] == c[k]);
        assert(c[k] == cleaned_char(host[k]));
        assert(is_alnum(host[k]));
    }
}

/// Only letters and digits of ASCII, and hyphens, stay as they are.
pub proof fn letters_and_digits_are_kept(host: Seq<char>, i: int)
    requires
        0 <= i < host.len(),
    ensures
        cleaned(host).len() == host.len(),
        ({
            let c = host[i];
            cleaned(host)[i] == if '0' <= c <= '9' || 'a' <= c <= 'z' || 'A' <= c <= 'Z' {
                c
            } else {
                '-'
            }
        }),
{
}

/// What is taken off at the start is hyphens.
proof fn lemma_hyphens_taken_at_start(t: Seq<char>)
    ensures
        unhyphened_start(t).len() <= t.len(),
        forall|i: int| 0 <= i < t.len() - unhyphened_start(t).len() ==> #[trigger] t[i] == '-',
    decreases t.len(),
{
    if t.len() > 0 && t[0] == '-' {
        let rest = t.drop_first();
        lemma_hyphens_taken_at_start(rest);
        assert forall|i: int| 0 <= i < t.len() - unhyphened_start(t).len() implies #[trigger] t[i]
            == '-' by {
            if i > 0 {
                assert(rest[i - 1] == t[i]);
            }
        }
    }
}

/// What is taken off at the end is hyphens.
proof fn lemma_hyphens_taken_at_end(t: Seq<char>)
    ensures
        unhyphened_end(t).len() <= t.len(),
        forall|i: int| unhyphened_end(t).len() <= i < t.len() ==> #[trigger] t[i] == '-',
    decreases t.len(),
{
    if t.len() > 0 && t.last() == '-' {
        let rest = t.drop_last();
        lemma_hyphens_taken_at_end(rest);
        assert forall|i: int| unhyphened_end(t).len() <= i < t.len() implies #[trigger] t[i]
            == '-' by {
            if i < t.len() - 1 {
                assert(rest[i] == t[i]);
            }
        }
    }
}

/// The name of the host is what the environment says, before anything else; what the command printed
/// counts only where the environment says nothing and the command printed a text.
pub proof fn environment_names_the_host(
    env: Option<String>,
    out: Option<Vec<u8>>,
    fallback: &str,
    r: String,
)
    requires
        call_ensures(hostname_default, (env, out, fallback), r),
    ensures
        env is Some ==> r@ == env->Some_0@,
        env is None && out is Some && valid_utf8(out->Some_0@) ==> r@ == trimmed(
            decode_utf8(out->Some_0@),
        ),
        env is None && (out is None || !valid_utf8(out->Some_0@)) ==> r@ == fallback@,
{
}

/// What is announced is the cleaned name, which is also the name of the host on the local network,
/// and the fingerprint as it is.
pub proof fn records_say_who_and_what(hostname: &str, fp: &str, r: ServiceRecord)
    requires
        call_ensures(service_record, (hostname, fp), r),
    ensures
        r.instance@ == instance_name(hostname@),
        r.instance@.is_prefix_of(r.host@),
        r.host@.len() == r.instance@.len() + 7,
        r.fp@ == fp@,
        decimal_value(r.v@) == PROTOCOL_VERSION,
{
    reveal_strlit(".local.");
    assert(r.host@.subrange(0, r.instance@.len() as int) =~= r.instance@);
    decimals_spell_their_number(PROTOCOL_VERSION as nat);
}

} // verus!
