//! Text: the few operations on strings that the rest of the crate needs.

use vstd::prelude::*;
use vstd::utf8::{decode_utf8, valid_utf8};

verus! {

/// What `std::str::Utf8Error` says of bytes that are not valid UTF-8.
pub uninterp spec fn utf8_error_of(bytes: Seq<u8>) -> Seq<char>;

/// `std::str::from_utf8`: the text that the bytes encode, or what is wrong with them where they are
/// not valid UTF-8, in the words of the error.
#[verifier::external_body]
pub(crate) fn text_from_utf8(bytes: &[u8]) -> (r: Result<String, String>)
    ensures
        r is Ok <==> valid_utf8(bytes@),
        r matches Ok(s) ==> s@ == decode_utf8(bytes@),
        r matches Err(e) ==> e@ == utf8_error_of(bytes@),
{
    match std::str::from_utf8(bytes) {
        Ok(s) => Ok(s.to_string()),
        Err(e) => Err(e.to_string()),
    }
}

/// The text of `t`, owned.
pub(crate) fn owned(t: &str) -> (r: String)
    ensures
        r@ == t@,
{
    t.to_owned()
}

/// Two texts, one after the other.
pub(crate) fn cat(a: &str, b: &str) -> (r: String)
    ensures
        r@ == a@ + b@,
{
    let mut r = a.to_owned();
    r.append(b);
    r
}

/// Three texts, one after the other.
pub(crate) fn cat3(a: &str, b: &str, c: &str) -> (r: String)
    ensures
        r@ == a@ + b@ + c@,
{
    let mut r = a.to_owned();
    r.append(b);
    r.append(c);
    r
}

/// Whether two texts are the same.
pub(crate) fn same_text(a: &str, b: &str) -> (r: bool)
    ensures
        r == (a@ == b@),
{
    a.to_owned() == b.to_owned()
}

/// What several texts say.
pub open spec fn texts(v: Seq<String>) -> Seq<Seq<char>> {
    v.map_values(|s: String| s@)
}

/// Whether two lists of texts are the same.
pub(crate) fn same_texts(a: &Vec<String>, b: &Vec<String>) -> (r: bool)
    ensures
        r == (texts(a@) == texts(b@)),
{
    let n: usize = a.len();
    if n != b.len() {
        assert(texts(a@).len() != texts(b@).len());
        return false;
    }
    let mut i: usize = 0;
    while i < n
        invariant
            i <= n,
            n == a@.len(),
            n == b@.len(),
            forall|j: int| 0 <= j < i ==> (#[trigger] a@[j])@ == b@[j]@,
        decreases n - i,
    {
        if !same_text(a[i].as_str(), b[i].as_str()) {
            assert(texts(a@)[i as int] != texts(b@)[i as int]);
            return false;
        }
        i = i + 1;
    }
    assert(texts(a@) =~= texts(b@));
    true
}

/// A text with `with` in the place of every `c`.
pub open spec fn replaced(t: Seq<char>, c: char, with: Seq<char>) -> Seq<char>
    decreases t.len(),
{
    if t.len() == 0 {
        t
    } else {
        replaced(t.drop_last(), c, with) + (if t.last() == c {
            with
        } else {
            seq![t.last()]
        })
    }
}

/// A text with `with` in the place of every `c`.
pub(crate) fn replace_char(t: &str, c: char, with: &str) -> (r: String)
    ensures
        r@ == replaced(t@, c, with@),
{
    let n: usize = t.unicode_len();
    let mut out = String::new();
    let mut i: usize = 0;
    assert(t@.take(0) =~= Seq::empty());
    while i < n
        invariant
            i <= n,
            n == t@.len(),
            out@ == replaced(t@.take(i as int), c, with@),
        decreases n - i,
    {
        assert(t@.take(i + 1).drop_last() =~= t@.take(i as int));
        if t.get_char(i) == c {
            out.append(with);
        } else {
            out.append(t.substring_char(i, i + 1));
            assert(t@.subrange(i as int, i + 1) =~= seq![t@[i as int]]);
        }
        i = i + 1;
    }
    assert(t@.take(n as int) =~= t@);
    out
}

/// The characters that count as white space, as Unicode's `White_Space` property lists them.
pub open spec fn is_white(c: char) -> bool {
    ||| '\u{9}' <= c <= '\u{d}'
    ||| c == ' '
    ||| c == '\u{85}'
    ||| c == '\u{a0}'
    ||| c == '\u{1680}'
    ||| '\u{2000}' <= c <= '\u{200a}'
    ||| c == '\u{2028}'
    ||| c == '\u{2029}'
    ||| c == '\u{202f}'
    ||| c == '\u{205f}'
    ||| c == '\u{3000}'
}

fn white(c: char) -> (r: bool)
    ensures
        r == is_white(c),
{
    ('\u{9}' <= c && c <= '\u{d}') || c == ' ' || c == '\u{85}' || c == '\u{a0}' || c == '\u{1680}'
        || ('\u{2000}' <= c && c <= '\u{200a}') || c == '\u{2028}' || c == '\u{2029}' || c
        == '\u{202f}' || c == '\u{205f}' || c == '\u{3000}'
}

/// The text without the white space that it starts with.
pub open spec fn trimmed_start(t: Seq<char>) -> Seq<char>
    decreases t.len(),
{
    if t.len() > 0 && is_white(t[0]) {
        trimmed_start(t.drop_first())
    } else {
        t
    }
}

/// The text without the white space that it ends with.
pub open spec fn trimmed_end(t: Seq<char>) -> Seq<char>
    decreases t.len(),
{
    if t.len() > 0 && is_white(t.last()) {
        trimmed_end(t.drop_last())
    } else {
        t
    }
}

/// The text without the white space around it.
pub open spec fn trimmed(t: Seq<char>) -> Seq<char> {
    trimmed_end(trimmed_start(t))
}

/// The text without the white space around it.
pub(crate) fn trim<'a>(t: &'a str) -> (r: &'a str)
    ensures
        r@ == trimmed(t@),
{
    let n = t.unicode_len();
    let mut a: usize = 0;
    assert(t@.skip(0) =~= t@);
    while a < n && white(t.get_char(a))
        invariant
            a <= n,
            n == t@.len(),
            trimmed_start(t@) == trimmed_start(t@.skip(a as int)),
        decreases n - a,
    {
        assert(t@.skip(a as int).drop_first() =~= t@.skip(a + 1));
        a = a + 1;
    }
    let ghost s = t@.skip(a as int);
    assert(trimmed_start(t@) == s);
    let mut b: usize = n;
    assert(t@.subrange(a as int, n as int) =~= s);
    while a < b && white(t.get_char(b - 1))
        invariant
            a <= b <= n,
            n == t@.len(),
            trimmed_end(s) == trimmed_end(t@.subrange(a as int, b as int)),
        decreases b,
    {
        assert(t@.subrange(a as int, b as int).drop_last() =~= t@.subrange(a as int, b - 1));
        b = b - 1;
    }
    t.substring_char(a, b)
}

/// The digit for `d`, which is below ten.
pub open spec fn digit_char(d: nat) -> char {
    (('0' as nat) + d) as char
}

/// A number in decimal digits, without leading zeros.
pub open spec fn decimal(n: nat) -> Seq<char>
    decreases n,
{
    if n < 10 {
        seq![digit_char(n)]
    } else {
        decimal(n / 10).push(digit_char(n % 10))
    }
}

/// One decimal digit.
fn digit_text(d: u64) -> (r: &'static str)
    requires
        d < 10,
    ensures
        r@ == seq![digit_char(d as nat)],
{
    proof {
        reveal_strlit("0");
        reveal_strlit("1");
        reveal_strlit("2");
        reveal_strlit("3");
        reveal_strlit("4");
        reveal_strlit("5");
        reveal_strlit("6");
        reveal_strlit("7");
        reveal_strlit("8");
        reveal_strlit("9");
    }
    let r = if d == 0 {
        "0"
    } else if d == 1 {
        "1"
    } else if d == 2 {
        "2"
    } else if d == 3 {
        "3"
    } else if d == 4 {
        "4"
    } else if d == 5 {
        "5"
    } else if d == 6 {
        "6"
    } else if d == 7 {
        "7"
    } else if d == 8 {
        "8"
    } else {
        "9"
    };
    assert(r@ =~= seq![digit_char(d as nat)]);
    r
}

/// A number in decimal.
pub(crate) fn decimal_text(n: u64) -> (r: String)
    ensures
        r@ == decimal(n as nat),
    decreases n,
{
    if n < 10 {
        return digit_text(n).to_owned();
    }
    let mut r = decimal_text(n / 10);
    r.append(digit_text(n % 10));
    assert(r@ =~= decimal(n as nat));
    r
}

/// A signed number in decimal, after a minus sign where it is negative.
pub open spec fn signed_decimal(n: int) -> Seq<char> {
    if n < 0 {
        "-"@ + decimal((-n) as nat)
    } else {
        decimal(n as nat)
    }
}

/// A signed number in decimal.
pub(crate) fn signed_text(n: i32) -> (r: String)
    ensures
        r@ == signed_decimal(n as int),
{
    if n >= 0 {
        return decimal_text(n as u64);
    }
    let m: i64 = -(n as i64);
    let d = decimal_text(m as u64);
    cat("-", d.as_str())
}

/// A text in which a character does not occur is left as it is by replacing that character.
pub proof fn replacing_what_is_not_there(t: Seq<char>, c: char, with: Seq<char>)
    requires
        forall|i: int| 0 <= i < t.len() ==> #[trigger] t[i] != c,
    ensures
        replaced(t, c, with) == t,
    decreases t.len(),
{
    if t.len() > 0 {
        let before = t.drop_last();
        assert forall|i: int| 0 <= i < before.len() implies #[trigger] before[i] != c by {
            assert(t[i] != c);
        }
        assert(t[t.len() - 1] != c);
        replacing_what_is_not_there(before, c, with);
        assert(before + seq![t.last()] =~= t);
    }
}

/// Replacing works piece by piece.
pub proof fn replacing_works_piece_by_piece(a: Seq<char>, b: Seq<char>, c: char, with: Seq<char>)
    ensures
        replaced(a + b, c, with) == replaced(a, c, with) + replaced(b, c, with),
        replaced(seq![c], c, with) == with,
    decreases b.len(),
{
    reveal_with_fuel(replaced, 2);
    assert(seq![c].drop_last() =~= Seq::empty());
    assert(replaced(seq![c], c, with) =~= with);
    if b.len() == 0 {
        assert(a + b =~= a);
        assert(replaced(b, c, with) =~= Seq::empty());
        assert(replaced(a, c, with) + replaced(b, c, with) =~= replaced(a, c, with));
    } else {
        assert((a + b).drop_last() =~= a + b.drop_last());
        replacing_works_piece_by_piece(a, b.drop_last(), c, with);
        let end = if b.last() == c {
            with
        } else {
            seq![b.last()]
        };
        assert(replaced(a, c, with) + replaced(b.drop_last(), c, with) + end =~= replaced(
            a,
            c,
            with,
        ) + replaced(b, c, with));
    }
}

/// Taking white space off at the start leaves an end of the text, before which there is nothing but
/// white space, and which starts with something else.
proof fn lemma_trimmed_start(t: Seq<char>)
    ensures
        ({
            let n = t.len() - trimmed_start(t).len();
            &&& 0 <= n <= t.len()
            &&& trimmed_start(t) == t.skip(n)
            &&& forall|i: int| 0 <= i < n ==> is_white(#[trigger] t[i])
            &&& trimmed_start(t).len() > 0 ==> !is_white(trimmed_start(t)[0])
        }),
    decreases t.len(),
{
    if t.len() > 0 && is_white(t[0]) {
        let rest = t.drop_first();
        lemma_trimmed_start(rest);
        let n = t.len() - trimmed_start(t).len();
        assert(rest.skip(n - 1) =~= t.skip(n));
        assert forall|i: int| 0 <= i < n implies is_white(#[trigger] t[i]) by {
            if i > 0 {
                assert(is_white(rest[i - 1]));
            }
        }
    } else {
        assert(t.skip(0) =~= t);
    }
}

/// Taking white space off at the end leaves a beginning of the text, behind which there is nothing
/// but white space, and which ends with something else.
proof fn lemma_trimmed_end(t: Seq<char>)
    ensures
        ({
            let n = trimmed_end(t).len() as int;
            &&& n <= t.len()
            &&& trimmed_end(t) == t.take(n)
            &&& forall|i: int| n <= i < t.len() ==> is_white(#[trigger] t[i])
            &&& n > 0 ==> !is_white(trimmed_end(t).last())
        }),
    decreases t.len(),
{
    if t.len() > 0 && is_white(t.last()) {
        let rest = t.drop_last();
        lemma_trimmed_end(rest);
        let n = trimmed_end(t).len() as int;
        assert(rest.take(n) =~= t.take(n));
        assert forall|i: int| n <= i < t.len() implies is_white(#[trigger] t[i]) by {
            if i < rest.len() {
                assert(is_white(rest[i]));
            }
        }
    } else {
        assert(t.take(t.len() as int) =~= t);
    }
}

/// What is left of a text without the white space around it is a part of it that neither starts nor
/// ends with white space, and all that is gone is white space.
pub proof fn trimming_takes_white_space_only(t: Seq<char>)
    ensures
        trimmed(t).len() > 0 ==> !is_white(trimmed(t)[0]) && !is_white(trimmed(t).last()),
        exists|a: int, b: int|
            {
                &&& 0 <= a <= b <= t.len()
                &&& trimmed(t) == #[trigger] t.subrange(a, b)
                &&& forall|i: int| 0 <= i < a || b <= i < t.len() ==> is_white(#[trigger] t[i])
            },
{
    lemma_trimmed_start(t);
    let s = trimmed_start(t);
    lemma_trimmed_end(s);
    let a = t.len() - s.len();
    let b = a + trimmed_end(s).len();
    assert(trimmed(t) =~= t.subrange(a, b));
    assert forall|i: int| 0 <= i < a || b <= i < t.len() implies is_white(#[trigger] t[i]) by {
        if i >= b {
            assert(s[i - a] == t[i]);
        }
    }
}

/// The number that decimal digits spell.
pub open spec fn decimal_value(t: Seq<char>) -> nat
    decreases t.len(),
{
    if t.len() == 0 {
        0
    } else {
        10 * decimal_value(t.drop_last()) + (t.last() as nat - '0' as nat) as nat
    }
}

/// A number in decimal is made of digits that spell the number, and does not start with a zero,
/// unless it is zero.
pub proof fn decimals_spell_their_number(n: nat)
    ensures
        decimal_value(decimal(n)) == n,
        decimal(n).len() > 0,
        forall|i: int| 0 <= i < decimal(n).len() ==> '0' <= #[trigger] decimal(n)[i] <= '9',
        n > 0 ==> decimal(n)[0] != '0',
    decreases n,
{
    reveal_with_fuel(decimal_value, 2);
    if n < 10 {
        assert(decimal(n).drop_last() =~= Seq::empty());
    } else {
        decimals_spell_their_number(n / 10);
        let t = decimal(n);
        assert(t.drop_last() =~= decimal(n / 10));
        assert forall|i: int| 0 <= i < t.len() implies '0' <= #[trigger] t[i] <= '9' by {
            if i < t.len() - 1 {
                assert(t[i] == decimal(n / 10)[i]);
            }
        }
        assert(t[0] == decimal(n / 10)[0]);
    }
}

/// Different numbers are never written alike.
pub proof fn decimals_differ(m: nat, n: nat)
    requires
        decimal(m) == decimal(n),
    ensures
        m == n,
{
    decimals_spell_their_number(m);
    decimals_spell_their_number(n);
}

/// A signed number in decimal is its magnitude, behind a minus sign exactly if it is negative.
pub proof fn signed_decimals_spell_their_number(n: int)
    ensures
        n >= 0 ==> decimal_value(signed_decimal(n)) == n && signed_decimal(n)[0] != '-',
        n < 0 ==> signed_decimal(n)[0] == '-' && decimal_value(signed_decimal(n).skip(1)) == -n,
{
    if n >= 0 {
        decimals_spell_their_number(n as nat);
        assert('0' <= decimal(n as nat)[0] <= '9');
    } else {
        reveal_strlit("-");
        decimals_spell_their_number((-n) as nat);
        assert(signed_decimal(n).skip(1) =~= decimal((-n) as nat));
    }
}

/// Of the characters of ASCII, the space and those from the tab to the carriage return are white
/// space, and no others.
pub proof fn white_space_of_ascii(c: char)
    requires
        c <= '\u{7f}',
    ensures
        is_white(c) <==> c == ' ' || c == '\t' || c == '\n' || c == '\u{b}' || c == '\u{c}' || c
            == '\r',
{
}

/// Putting nothing in the place of a character leaves the others, in order.
pub proof fn replacing_by_nothing_leaves_the_others(t: Seq<char>, c: char)
    ensures
        replaced(t, c, ""@) == t.filter(|x: char| x != c),
    decreases t.len(),
{
    reveal(Seq::filter);
    reveal_strlit("");
    if t.len() > 0 {
        replacing_by_nothing_leaves_the_others(t.drop_last(), c);
        let rest = t.drop_last().filter(|x: char| x != c);
        assert(rest + ""@ =~= rest);
        assert(rest + seq![t.last()] =~= rest.push(t.last()));
    }
}

} // verus!
