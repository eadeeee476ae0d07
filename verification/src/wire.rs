//! The encoding of values on the wire.
//!
//! A value is a sequence of fields, each of a fixed kind. Integers are little-endian and of fixed
//! width, a flag is one byte, a 32-byte value stands as it is, byte strings and texts follow
//! their length in eight bytes, and the variant of an enumeration is its index in four bytes.

use crate::bytes::{
    append_bytes, bytes_are_digits, copy_32, copy_range, le_bytes, le_value, lemma_le_bytes_len,
    lemma_le_bytes_of_value, lemma_le_value_of_bytes, lemma_pow256_widths, pow256,
};
use crate::text::text_from_utf8;
use vstd::prelude::*;
use vstd::utf8::{
    decode_utf8, decode_utf8_encode_utf8, encode_utf8, encode_utf8_decode_utf8,
    encode_utf8_valid_utf8, valid_utf8,
};

verus! {

/// What went wrong inside the `bincode` crate.
#[verifier::external_type_specification]
#[verifier::external_body]
pub struct ExBincodeErrorKind(bincode::ErrorKind);

/// `bincode::serialize` on a `u16`: always succeeds, with the two bytes of `v`, least significant
/// first.
#[verifier::external_body]
fn bincode_from_u16(v: u16) -> (r: Result<Vec<u8>, Box<bincode::ErrorKind>>)
    ensures
        r is Ok,
        r->Ok_0@ == le_bytes(v as nat, 2),
{
    bincode::serialize(&v)
}

/// `bincode::serialize` on a `u32`: always succeeds, with the four bytes of `v`, least
/// significant first.
#[verifier::external_body]
fn bincode_from_u32(v: u32) -> (r: Result<Vec<u8>, Box<bincode::ErrorKind>>)
    ensures
        r is Ok,
        r->Ok_0@ == le_bytes(v as nat, 4),
{
    bincode::serialize(&v)
}

/// `bincode::serialize` on a `u64`: always succeeds, with the eight bytes of `v`, least
/// significant first.
#[verifier::external_body]
fn bincode_from_u64(v: u64) -> (r: Result<Vec<u8>, Box<bincode::ErrorKind>>)
    ensures
        r is Ok,
        r->Ok_0@ == le_bytes(v as nat, 8),
{
    bincode::serialize(&v)
}

/// `bincode::deserialize` to a `u16`: the number that the first two bytes spell, least
/// significant first, whatever follows them; an error where there are fewer than two bytes.
#[verifier::external_body]
fn bincode_to_u16(b: &[u8]) -> (r: Result<u16, Box<bincode::ErrorKind>>)
    ensures
        r is Ok <==> b@.len() >= 2,
        r matches Ok(v) ==> v == le_value(b@.take(2)),
{
    bincode::deserialize(b)
}

/// `bincode::deserialize` to a `u32`: the number that the first four bytes spell, least
/// significant first, whatever follows them; an error where there are fewer than four bytes.
#[verifier::external_body]
fn bincode_to_u32(b: &[u8]) -> (r: Result<u32, Box<bincode::ErrorKind>>)
    ensures
        r is Ok <==> b@.len() >= 4,
        r matches Ok(v) ==> v == le_value(b@.take(4)),
{
    bincode::deserialize(b)
}

/// `bincode::deserialize` to a `u64`: the number that the first eight bytes spell, least
/// significant first, whatever follows them; an error where there are fewer than eight bytes.
#[verifier::external_body]
fn bincode_to_u64(b: &[u8]) -> (r: Result<u64, Box<bincode::ErrorKind>>)
    ensures
        r is Ok <==> b@.len() >= 8,
        r matches Ok(v) ==> v == le_value(b@.take(8)),
{
    bincode::deserialize(b)
}

/// The kinds of field that a value is made of.
pub enum Kind {
    Flag,
    U16,
    U32,
    U64,
    I16,
    I32,
    /// The index of one of so many variants.
    Variant(nat),
    Bytes32,
    Bytes,
    Text,
}

/// One field of a value.
pub enum Field {
    Flag(bool),
    U16(u16),
    U32(u32),
    U64(u64),
    I16(i16),
    I32(i32),
    Variant(nat),
    Bytes32(Seq<u8>),
    Bytes(Seq<u8>),
    Text(Seq<char>),
}

/// The two's complement of a 16-bit number, read as unsigned.
pub open spec fn twos16(v: i16) -> nat {
    if v < 0 {
        (v + 0x1_0000) as nat
    } else {
        v as nat
    }
}

/// The two's complement of a 32-bit number, read as unsigned.
pub open spec fn twos32(v: i32) -> nat {
    if v < 0 {
        (v + 0x1_0000_0000) as nat
    } else {
        v as nat
    }
}

/// The 16-bit number whose two's complement is `n`.
pub open spec fn signed16(n: nat) -> i16 {
    if n < 0x8000 {
        n as i16
    } else {
        (n - 0x1_0000) as i16
    }
}

/// The 32-bit number whose two's complement is `n`.
pub open spec fn signed32(n: nat) -> i32 {
    if n < 0x8000_0000 {
        n as i32
    } else {
        (n - 0x1_0000_0000) as i32
    }
}

impl Field {
    /// The field is of kind `k`, and it can be written: a variant is one of those there are, and
    /// a length fits in its eight bytes.
    pub open spec fn fits(self, k: Kind) -> bool {
        match (self, k) {
            (Field::Flag(_), Kind::Flag) => true,
            (Field::U16(_), Kind::U16) => true,
            (Field::U32(_), Kind::U32) => true,
            (Field::U64(_), Kind::U64) => true,
            (Field::I16(_), Kind::I16) => true,
            (Field::I32(_), Kind::I32) => true,
            (Field::Variant(i), Kind::Variant(n)) => i < n && i <= u32::MAX,
            (Field::Bytes32(b), Kind::Bytes32) => b.len() == 32,
            (Field::Bytes(b), Kind::Bytes) => b.len() <= u64::MAX,
            (Field::Text(t), Kind::Text) => encode_utf8(t).len() <= u64::MAX,
            _ => false,
        }
    }

    /// The bytes of the field.
    #[verifier::opaque]
    pub open spec fn encoded(self) -> Seq<u8> {
        match self {
            Field::Flag(b) => seq![if b { 1u8 } else { 0u8 }],
            Field::U16(v) => le_bytes(v as nat, 2),
            Field::U32(v) => le_bytes(v as nat, 4),
            Field::U64(v) => le_bytes(v as nat, 8),
            Field::I16(v) => le_bytes(twos16(v), 2),
            Field::I32(v) => le_bytes(twos32(v), 4),
            Field::Variant(i) => le_bytes(i, 4),
            Field::Bytes32(b) => b,
            Field::Bytes(b) => le_bytes(b.len(), 8) + b,
            Field::Text(t) => le_bytes(encode_utf8(t).len(), 8) + encode_utf8(t),
        }
    }
}

/// The bytes that an eight-byte length announces, where they are all there: how many, and where
/// they end.
pub open spec fn counted(s: Seq<u8>) -> Option<Seq<u8>> {
    if s.len() >= 8 && le_value(s.take(8)) <= s.len() - 8 {
        Some(s.subrange(8, 8 + le_value(s.take(8)) as int))
    } else {
        None
    }
}

/// The field of kind `k` that `s` starts with, and the number of bytes that it takes.
#[verifier::opaque]
pub open spec fn parsed(k: Kind, s: Seq<u8>) -> Option<(Field, nat)> {
    match k {
        Kind::Flag => if s.len() >= 1 && s[0] <= 1 {
            Some((Field::Flag(s[0] == 1), 1))
        } else {
            None
        },
        Kind::U16 => if s.len() >= 2 {
            Some((Field::U16(le_value(s.take(2)) as u16), 2))
        } else {
            None
        },
        Kind::U32 => if s.len() >= 4 {
            Some((Field::U32(le_value(s.take(4)) as u32), 4))
        } else {
            None
        },
        Kind::U64 => if s.len() >= 8 {
            Some((Field::U64(le_value(s.take(8)) as u64), 8))
        } else {
            None
        },
        Kind::I16 => if s.len() >= 2 {
            Some((Field::I16(signed16(le_value(s.take(2)))), 2))
        } else {
            None
        },
        Kind::I32 => if s.len() >= 4 {
            Some((Field::I32(signed32(le_value(s.take(4)))), 4))
        } else {
            None
        },
        Kind::Variant(n) => if s.len() >= 4 && le_value(s.take(4)) < n {
            Some((Field::Variant(le_value(s.take(4))), 4))
        } else {
            None
        },
        Kind::Bytes32 => if s.len() >= 32 {
            Some((Field::Bytes32(s.take(32)), 32))
        } else {
            None
        },
        Kind::Bytes => match counted(s) {
            Some(b) => Some((Field::Bytes(b), 8 + b.len())),
            None => None,
        },
        Kind::Text => match counted(s) {
            Some(b) => if valid_utf8(b) {
                Some((Field::Text(decode_utf8(b)), 8 + b.len()))
            } else {
                None
            },
            None => None,
        },
    }
}

/// A field is read back from its bytes, whatever follows them.
pub proof fn lemma_parsed_of_encoded(f: Field, k: Kind, rest: Seq<u8>)
    requires
        f.fits(k),
    ensures
        parsed(k, f.encoded() + rest) == Some((f, f.encoded().len())),
{
    broadcast use lemma_le_bytes_len;

    reveal(parsed);
    reveal(Field::encoded);
    lemma_pow256_widths();
    let s = f.encoded() + rest;
    match f {
        Field::Flag(b) => {},
        Field::U16(v) => {
            lemma_le_value_of_bytes(v as nat, 2);
            assert(s.take(2) =~= f.encoded());
        },
        Field::U32(v) => {
            lemma_le_value_of_bytes(v as nat, 4);
            assert(s.take(4) =~= f.encoded());
        },
        Field::U64(v) => {
            lemma_le_value_of_bytes(v as nat, 8);
            assert(s.take(8) =~= f.encoded());
        },
        Field::I16(v) => {
            lemma_le_value_of_bytes(twos16(v), 2);
            assert(s.take(2) =~= f.encoded());
        },
        Field::I32(v) => {
            lemma_le_value_of_bytes(twos32(v), 4);
            assert(s.take(4) =~= f.encoded());
        },
        Field::Variant(i) => {
            lemma_le_value_of_bytes(i, 4);
            assert(s.take(4) =~= f.encoded());
        },
        Field::Bytes32(b) => {
            assert(s.take(32) =~= b);
        },
        Field::Bytes(b) => {
            lemma_le_value_of_bytes(b.len(), 8);
            assert(s.take(8) =~= le_bytes(b.len(), 8));
            assert(s.subrange(8, 8 + b.len() as int) =~= b);
        },
        Field::Text(t) => {
            let b = encode_utf8(t);
            lemma_le_value_of_bytes(b.len(), 8);
            assert(s.take(8) =~= le_bytes(b.len(), 8));
            assert(s.subrange(8, 8 + b.len() as int) =~= b);
            encode_utf8_valid_utf8(t);
            encode_utf8_decode_utf8(t);
        },
    }
}

/// What is read is what was written: the bytes that a field takes are its encoding.
pub proof fn lemma_encoded_of_parsed(k: Kind, s: Seq<u8>)
    ensures
        parsed(k, s) matches Some((f, n)) ==> f.fits(k) && n <= s.len() && f.encoded() == s.take(
            n as int,
        ),
{
    broadcast use lemma_le_bytes_len;

    reveal(parsed);
    reveal(Field::encoded);
    lemma_pow256_widths();
    if let Some((f, n)) = parsed(k, s) {
        lemma_le_bytes_of_value(s.take(n as int));
        if s.len() >= 8 {
            lemma_le_bytes_of_value(s.take(8));
        }
        match f {
            Field::Flag(b) => {
                assert(f.encoded() =~= s.take(1));
            },
            Field::Bytes(b) => {
                assert(f.encoded() =~= s.take(n as int));
            },
            Field::Text(t) => {
                let b = counted(s).unwrap();
                decode_utf8_encode_utf8(b);
                assert(f.encoded() =~= s.take(n as int));
            },
            _ => {},
        }
    }
}

/// The first bytes of `s` spell numbers that fit in their count.
proof fn lemma_prefix_values(s: Seq<u8>)
    ensures
        s.len() >= 2 ==> le_value(s.take(2)) <= u16::MAX,
        s.len() >= 4 ==> le_value(s.take(4)) <= u32::MAX,
        s.len() >= 8 ==> le_value(s.take(8)) <= u64::MAX,
{
    lemma_pow256_widths();
    if s.len() >= 2 {
        lemma_le_bytes_of_value(s.take(2));
    }
    if s.len() >= 4 {
        lemma_le_bytes_of_value(s.take(4));
    }
    if s.len() >= 8 {
        lemma_le_bytes_of_value(s.take(8));
    }
}

/// The bytes of several fields, one after the other.
pub open spec fn encoded_all(fs: Seq<Field>) -> Seq<u8>
    decreases fs.len(),
{
    if fs.len() == 0 {
        Seq::empty()
    } else {
        fs[0].encoded() + encoded_all(fs.drop_first())
    }
}

/// The fields are of the kinds `ks`, in order.
pub open spec fn fit_all(fs: Seq<Field>, ks: Seq<Kind>) -> bool {
    &&& fs.len() == ks.len()
    &&& forall|i: int| 0 <= i < fs.len() ==> (#[trigger] fs[i]).fits(ks[i])
}

/// The fields of kinds `ks` that `s` starts with, and the number of bytes that they take.
pub open spec fn parsed_all(ks: Seq<Kind>, s: Seq<u8>) -> Option<(Seq<Field>, nat)>
    decreases ks.len(),
{
    if ks.len() == 0 {
        Some((Seq::empty(), 0))
    } else {
        match parsed(ks[0], s) {
            None => None,
            Some((f, n)) => match parsed_all(ks.drop_first(), s.skip(n as int)) {
                None => None,
                Some((fs, m)) => Some((seq![f] + fs, n + m)),
            },
        }
    }
}

/// Fields are read back from their bytes, whatever follows them.
pub proof fn lemma_parsed_all_of_encoded(fs: Seq<Field>, ks: Seq<Kind>, rest: Seq<u8>)
    requires
        fit_all(fs, ks),
    ensures
        parsed_all(ks, encoded_all(fs) + rest) == Some((fs, encoded_all(fs).len())),
    decreases fs.len(),
{
    if fs.len() > 0 {
        let s = encoded_all(fs) + rest;
        let tail = encoded_all(fs.drop_first());
        assert(s =~= fs[0].encoded() + (tail + rest));
        lemma_parsed_of_encoded(fs[0], ks[0], tail + rest);
        assert(s.skip(fs[0].encoded().len() as int) =~= tail + rest);
        assert forall|i: int| 0 <= i < fs.drop_first().len() implies (
        #[trigger] fs.drop_first()[i]).fits(ks.drop_first()[i]) by {
            assert(fs[i + 1].fits(ks[i + 1]));
        }
        lemma_parsed_all_of_encoded(fs.drop_first(), ks.drop_first(), rest);
        assert(seq![fs[0]] + fs.drop_first() =~= fs);
    } else {
        assert(fs =~= Seq::<Field>::empty());
    }
}

/// The bytes that fields were read from are their encoding.
pub proof fn lemma_encoded_of_parsed_all(ks: Seq<Kind>, s: Seq<u8>)
    ensures
        parsed_all(ks, s) matches Some((fs, n)) ==> fit_all(fs, ks) && n <= s.len() && encoded_all(
            fs,
        ) == s.take(n as int),
    decreases ks.len(),
{
    if let Some((fs, n)) = parsed_all(ks, s) {
        if ks.len() > 0 {
            let (f, a) = parsed(ks[0], s).unwrap();
            lemma_encoded_of_parsed(ks[0], s);
            lemma_encoded_of_parsed_all(ks.drop_first(), s.skip(a as int));
            let (tail, b) = parsed_all(ks.drop_first(), s.skip(a as int)).unwrap();
            assert(fs.drop_first() =~= tail);
            assert(s.take(a as int) + s.skip(a as int).take(b as int) =~= s.take(n as int));
            assert forall|i: int| 0 <= i < fs.len() implies (#[trigger] fs[i]).fits(ks[i]) by {
                if i > 0 {
                    assert(tail[i - 1].fits(ks.drop_first()[i - 1]));
                }
            }
        } else {
            assert(encoded_all(fs) =~= s.take(0));
        }
    }
}

/// No field is longer than all of them together.
pub proof fn lemma_encoded_all_len(fs: Seq<Field>, i: int)
    requires
        0 <= i < fs.len(),
    ensures
        fs[i].encoded().len() <= encoded_all(fs).len(),
    decreases fs.len(),
{
    if i > 0 {
        lemma_encoded_all_len(fs.drop_first(), i - 1);
    }
}

/// The bytes `base` with those of the fields from place `i` on behind them.
pub open spec fn appended(base: Seq<u8>, fs: Seq<Field>, i: int) -> Seq<u8>
    decreases fs.len() - i,
{
    if i < 0 || i >= fs.len() {
        base
    } else {
        appended(base + fs[i].encoded(), fs, i + 1)
    }
}

/// Appending field by field appends the encoding of all of them.
pub proof fn lemma_appended(base: Seq<u8>, fs: Seq<Field>, i: int)
    requires
        0 <= i <= fs.len(),
    ensures
        appended(base, fs, i) == base + encoded_all(fs.skip(i)),
    decreases fs.len() - i,
{
    if i < fs.len() {
        lemma_appended(base + fs[i].encoded(), fs, i + 1);
        assert(fs.skip(i).drop_first() =~= fs.skip(i + 1));
        assert(base + fs[i].encoded() + encoded_all(fs.skip(i + 1)) =~= base + encoded_all(
            fs.skip(i),
        ));
    } else {
        assert(base + encoded_all(fs.skip(i)) =~= base);
    }
}

/// The fields `got`, and those that follow them in `s` up to the end of the kinds `ks`; and the
/// bytes behind them.
pub open spec fn scanned(ks: Seq<Kind>, got: Seq<Field>, s: Seq<u8>) -> Option<
    (Seq<Field>, Seq<u8>),
>
    decreases ks.len() - got.len(),
{
    if got.len() >= ks.len() {
        Some((got, s))
    } else {
        match parsed(ks[got.len() as int], s) {
            None => None,
            Some((f, n)) => scanned(ks, got.push(f), s.skip(n as int)),
        }
    }
}

/// Reading field by field reads all of them.
pub proof fn lemma_scanned(ks: Seq<Kind>, got: Seq<Field>, s: Seq<u8>)
    requires
        got.len() <= ks.len(),
    ensures
        scanned(ks, got, s) == match parsed_all(ks.skip(got.len() as int), s) {
            Some((fs, n)) => Some((got + fs, s.skip(n as int))),
            None => None,
        },
    decreases ks.len() - got.len(),
{
    let left = ks.skip(got.len() as int);
    if got.len() < ks.len() {
        lemma_encoded_of_parsed(left[0], s);
        if let Some((f, n)) = parsed(left[0], s) {
            assert(left.drop_first() =~= ks.skip(got.len() as int + 1));
            lemma_scanned(ks, got.push(f), s.skip(n as int));
            lemma_encoded_of_parsed_all(left.drop_first(), s.skip(n as int));
            if let Some((fs, m)) = parsed_all(left.drop_first(), s.skip(n as int)) {
                assert(got.push(f) + fs =~= got + (seq![f] + fs));
                assert(s.skip(n as int).skip(m as int) =~= s.skip((n + m) as int));
            }
        }
    } else {
        assert(got + Seq::<Field>::empty() =~= got);
        assert(s.skip(0) =~= s);
    }
}

/// The signed number with the same 32 bits.
pub fn u32_to_i32(u: u32) -> (r: i32)
    ensures
        r == signed32(u as nat),
{
    assert(u < 0x8000_0000 ==> u as i32 == u) by (bit_vector);
    assert(u >= 0x8000_0000 ==> u as i32 == u - 0x1_0000_0000) by (bit_vector);
    u as i32
}

/// Appends an unsigned 16-bit number.
pub fn put_u16(out: &mut Vec<u8>, v: u16)
    ensures
        final(out)@ == old(out)@ + Field::U16(v).encoded(),
{
    proof {
        reveal(Field::encoded);
    }
    if let Ok(b) = bincode_from_u16(v) {
        append_bytes(out, b.as_slice());
    }
}

/// Appends an unsigned 32-bit number.
pub fn put_u32(out: &mut Vec<u8>, v: u32)
    ensures
        final(out)@ == old(out)@ + Field::U32(v).encoded(),
{
    proof {
        reveal(Field::encoded);
    }
    if let Ok(b) = bincode_from_u32(v) {
        append_bytes(out, b.as_slice());
    }
}

/// Appends an unsigned 64-bit number.
pub fn put_u64(out: &mut Vec<u8>, v: u64)
    ensures
        final(out)@ == old(out)@ + Field::U64(v).encoded(),
{
    proof {
        reveal(Field::encoded);
    }
    if let Ok(b) = bincode_from_u64(v) {
        append_bytes(out, b.as_slice());
    }
}

/// Appends a signed 16-bit number.
pub fn put_i16(out: &mut Vec<u8>, v: i16)
    ensures
        final(out)@ == old(out)@ + Field::I16(v).encoded(),
{
    proof {
        reveal(Field::encoded);
    }
    assert(v >= 0 ==> v as u16 == v) by (bit_vector);
    assert(v < 0 ==> v as u16 == v + 0x1_0000) by (bit_vector);
    put_u16(out, v as u16);
}

/// Appends a signed 32-bit number.
pub fn put_i32(out: &mut Vec<u8>, v: i32)
    ensures
        final(out)@ == old(out)@ + Field::I32(v).encoded(),
{
    proof {
        reveal(Field::encoded);
    }
    assert(v >= 0 ==> v as u32 == v) by (bit_vector);
    assert(v < 0 ==> v as u32 == v + 0x1_0000_0000) by (bit_vector);
    put_u32(out, v as u32);
}

/// Appends a flag.
pub fn put_flag(out: &mut Vec<u8>, v: bool)
    ensures
        final(out)@ == old(out)@ + Field::Flag(v).encoded(),
{
    proof {
        reveal(Field::encoded);
    }
    out.push(if v { 1u8 } else { 0u8 });
    assert(out@ =~= old(out)@ + Field::Flag(v).encoded());
}

/// Appends the index of a variant.
pub fn put_variant(out: &mut Vec<u8>, i: u32)
    ensures
        final(out)@ == old(out)@ + Field::Variant(i as nat).encoded(),
{
    proof {
        reveal(Field::encoded);
    }
    put_u32(out, i);
}

/// Appends a 32-byte value.
pub fn put_bytes32(out: &mut Vec<u8>, b: &[u8; 32])
    ensures
        final(out)@ == old(out)@ + Field::Bytes32(b@).encoded(),
{
    proof {
        reveal(Field::encoded);
    }
    append_bytes(out, b.as_slice());
}

/// Appends a byte string, after its length.
pub fn put_bytes(out: &mut Vec<u8>, b: &[u8])
    ensures
        final(out)@ == old(out)@ + Field::Bytes(b@).encoded(),
{
    proof {
        reveal(Field::encoded);
    }
    put_u64(out, b.len() as u64);
    append_bytes(out, b);
    assert(out@ =~= old(out)@ + Field::Bytes(b@).encoded());
}

/// Appends a text, after the length of its UTF-8 encoding.
pub fn put_text(out: &mut Vec<u8>, t: &str)
    ensures
        final(out)@ == old(out)@ + Field::Text(t@).encoded(),
{
    proof {
        reveal(Field::encoded);
    }
    put_bytes(out, t.as_bytes());
}

/// A place in a byte string, from which fields are read one after the other.
pub struct Cursor<'a> {
    bytes: &'a [u8],
    pos: usize,
}

impl<'a> Cursor<'a> {
    /// The place is inside the bytes or at their end.
    pub closed spec fn wf(self) -> bool {
        self.pos <= self.bytes@.len()
    }

    /// The bytes that have not been read.
    pub closed spec fn rest(self) -> Seq<u8> {
        self.bytes@.skip(self.pos as int)
    }

    /// Nothing else than a field of kind `k` was read: `got` says which, `None` where the bytes do
    /// not start with one.
    pub open spec fn took(self, before: Self, k: Kind, got: Option<Field>) -> bool {
        &&& self.wf()
        &&& match parsed(k, before.rest()) {
            Some((f, n)) => got == Some(f) && self.rest() == before.rest().skip(n as int),
            None => got is None,
        }
    }

    /// The start of `bytes`.
    pub fn new(bytes: &'a [u8]) -> (r: Self)
        ensures
            r.wf(),
            r.rest() == bytes@,
    {
        assert(bytes@.skip(0) =~= bytes@);
        Cursor { bytes, pos: 0 }
    }

    /// What has not been read, as a slice.
    fn left(&self) -> (r: &'a [u8])
        requires
            self.wf(),
        ensures
            r@ == self.rest(),
            r@.len() == self.bytes@.len() - self.pos,
    {
        let r = vstd::slice::slice_subrange(self.bytes, self.pos, self.bytes.len());
        assert(r@ =~= self.rest());
        r
    }

    /// Passes over `n` bytes.
    fn skip(&mut self, n: usize)
        requires
            old(self).wf(),
            n <= old(self).rest().len(),
        ensures
            final(self).wf(),
            final(self).rest() == old(self).rest().skip(n as int),
    {
        assert(self.bytes.len() == self.bytes@.len());
        self.pos = self.pos + n;
        assert(self.rest() =~= old(self).rest().skip(n as int));
    }

    /// Reads an unsigned 16-bit number.
    pub fn u16(&mut self) -> (r: Option<u16>)
        requires
            old(self).wf(),
        ensures
            final(self).took(*old(self), Kind::U16, match r {
                Some(v) => Some(Field::U16(v)),
                None => None,
            }),
    {
        proof {
            reveal(parsed);
        }
        match bincode_to_u16(self.left()) {
            Ok(v) => {
                self.skip(2);
                Some(v)
            },
            Err(_) => None,
        }
    }

    /// Reads an unsigned 32-bit number.
    pub fn u32(&mut self) -> (r: Option<u32>)
        requires
            old(self).wf(),
        ensures
            final(self).took(*old(self), Kind::U32, match r {
                Some(v) => Some(Field::U32(v)),
                None => None,
            }),
    {
        proof {
            reveal(parsed);
        }
        match bincode_to_u32(self.left()) {
            Ok(v) => {
                self.skip(4);
                Some(v)
            },
            Err(_) => None,
        }
    }

    /// Reads an unsigned 64-bit number.
    pub fn u64(&mut self) -> (r: Option<u64>)
        requires
            old(self).wf(),
        ensures
            final(self).took(*old(self), Kind::U64, match r {
                Some(v) => Some(Field::U64(v)),
                None => None,
            }),
    {
        proof {
            reveal(parsed);
        }
        match bincode_to_u64(self.left()) {
            Ok(v) => {
                self.skip(8);
                Some(v)
            },
            Err(_) => None,
        }
    }

    /// Reads a signed 16-bit number.
    pub fn i16(&mut self) -> (r: Option<i16>)
        requires
            old(self).wf(),
        ensures
            final(self).took(*old(self), Kind::I16, match r {
                Some(v) => Some(Field::I16(v)),
                None => None,
            }),
    {
        proof {
            reveal(parsed);
            lemma_prefix_values(self.rest());
        }
        match self.u16() {
            Some(u) => {
                assert(u < 0x8000 ==> u as i16 == u) by (bit_vector);
                assert(u >= 0x8000 ==> u as i16 == u - 0x1_0000) by (bit_vector);
                Some(u as i16)
            },
            None => None,
        }
    }

    /// Reads a signed 32-bit number.
    pub fn i32(&mut self) -> (r: Option<i32>)
        requires
            old(self).wf(),
        ensures
            final(self).took(*old(self), Kind::I32, match r {
                Some(v) => Some(Field::I32(v)),
                None => None,
            }),
    {
        proof {
            reveal(parsed);
            lemma_prefix_values(self.rest());
        }
        match self.u32() {
            Some(u) => Some(u32_to_i32(u)),
            None => None,
        }
    }

    /// Reads a flag.
    pub fn flag(&mut self) -> (r: Option<bool>)
        requires
            old(self).wf(),
        ensures
            final(self).took(*old(self), Kind::Flag, match r {
                Some(v) => Some(Field::Flag(v)),
                None => None,
            }),
    {
        proof {
            reveal(parsed);
        }
        let left = self.left();
        if left.len() == 0 || left[0] > 1 {
            return None;
        }
        let v = left[0] == 1;
        self.skip(1);
        Some(v)
    }

    /// Reads the index of one of `n` variants.
    pub fn variant(&mut self, n: u32) -> (r: Option<u32>)
        requires
            old(self).wf(),
        ensures
            final(self).took(*old(self), Kind::Variant(n as nat), match r {
                Some(v) => Some(Field::Variant(v as nat)),
                None => None,
            }),
    {
        proof {
            reveal(parsed);
            lemma_prefix_values(self.rest());
        }
        match self.u32() {
            Some(i) => if i < n {
                Some(i)
            } else {
                None
            },
            None => None,
        }
    }

    /// Reads a 32-byte value.
    pub fn bytes32(&mut self) -> (r: Option<[u8; 32]>)
        requires
            old(self).wf(),
        ensures
            final(self).took(*old(self), Kind::Bytes32, match r {
                Some(v) => Some(Field::Bytes32(v@)),
                None => None,
            }),
    {
        proof {
            reveal(parsed);
        }
        let left = self.left();
        if left.len() < 32 {
            return None;
        }
        let v = copy_32(left, 0);
        assert(v@ =~= left@.take(32));
        self.skip(32);
        Some(v)
    }

    /// Reads a byte string.
    pub fn bytes(&mut self) -> (r: Option<Vec<u8>>)
        requires
            old(self).wf(),
        ensures
            final(self).took(*old(self), Kind::Bytes, match r {
                Some(v) => Some(Field::Bytes(v@)),
                None => None,
            }),
    {
        proof {
            reveal(parsed);
            lemma_prefix_values(self.rest());
        }
        match self.u64() {
            Some(n) => {
                let left = self.left();
                if n > left.len() as u64 {
                    return None;
                }
                let ghost before = old(self).rest();
                let v = copy_range(left, 0, n as usize);
                assert(v@ =~= before.subrange(8, 8 + n));
                self.skip(n as usize);
                assert(self.rest() =~= before.skip(8 + n));
                Some(v)
            },
            None => None,
        }
    }

    /// Reads a text.
    pub fn text(&mut self) -> (r: Option<String>)
        requires
            old(self).wf(),
        ensures
            final(self).took(*old(self), Kind::Text, match r {
                Some(v) => Some(Field::Text(v@)),
                None => None,
            }),
    {
        proof {
            reveal(parsed);
        }
        match self.bytes() {
            Some(b) => match text_from_utf8(b.as_slice()) {
                Ok(t) => Some(t),
                Err(_) => None,
            },
            None => None,
        }
    }
}

/// The bytes of a field: a flag takes one byte, which is 1 or 0; a number takes as many as its type
/// has, the least significant first; a negative one is written as the number that is larger by the
/// number of values of its type; 32 bytes are written as they are; and other bytes, and the UTF-8 of
/// a text, have their length, in eight bytes, in front of them.
pub proof fn fields_are_spelled_out(
    flag: bool,
    a: u16,
    b: u32,
    c: i16,
    d: i32,
    bytes: Seq<u8>,
    text: Seq<char>,
)
    ensures
        Field::Flag(flag).encoded() == seq![
            if flag {
                1u8
            } else {
                0u8
            },
        ],
        Field::U16(a).encoded() == seq![(a % 256) as u8, (a / 256) as u8],
        Field::U32(b).encoded() == seq![
            (b % 256) as u8,
            (b / 0x100 % 256) as u8,
            (b / 0x1_0000 % 256) as u8,
            (b / 0x100_0000) as u8,
        ],
        c >= 0 ==> Field::I16(c).encoded() == Field::U16(c as u16).encoded(),
        c < 0 ==> Field::I16(c).encoded() == Field::U16((c + 0x1_0000) as u16).encoded(),
        d >= 0 ==> Field::I32(d).encoded() == Field::U32(d as u32).encoded(),
        d < 0 ==> Field::I32(d).encoded() == Field::U32((d + 0x1_0000_0000) as u32).encoded(),
        Field::Variant(b as nat).encoded() == Field::U32(b).encoded(),
        Field::Bytes32(bytes).encoded() == bytes,
        bytes.len() <= u64::MAX ==> Field::Bytes(bytes).encoded() == Field::U64(
            bytes.len() as u64,
        ).encoded() + bytes,
        encode_utf8(text).len() <= u64::MAX ==> Field::Text(text).encoded() == Field::Bytes(
            encode_utf8(text),
        ).encoded(),
{
    reveal(Field::encoded);
    reveal_with_fuel(le_bytes, 5);
    assert(Field::U16(a).encoded() =~= seq![(a % 256) as u8, (a / 256) as u8]);
    assert(Field::U32(b).encoded() =~= seq![
        (b % 256) as u8,
        (b / 0x100 % 256) as u8,
        (b / 0x1_0000 % 256) as u8,
        (b / 0x100_0000) as u8,
    ]);
}

/// A number of eight bytes is written with the least significant first.
pub proof fn long_numbers_are_spelled_out(v: u64, i: nat)
    requires
        i < 8,
    ensures
        Field::U64(v).encoded().len() == 8,
        Field::U64(v).encoded()[i as int] == (v as nat / pow256(i)) % 256,
{
    reveal(Field::encoded);
    bytes_are_digits(v as nat, 8, i);
}

/// Fields are written one after the other, in order, with nothing between them.
pub proof fn fields_follow_each_other(a: Seq<Field>, b: Seq<Field>, f: Field)
    ensures
        encoded_all(a + b) == encoded_all(a) + encoded_all(b),
        encoded_all(seq![f]) == f.encoded(),
    decreases a.len(),
{
    reveal_with_fuel(encoded_all, 2);
    assert(seq![f].drop_first() =~= Seq::empty());
    assert(encoded_all(seq![f]) =~= f.encoded());
    if a.len() == 0 {
        assert(a + b =~= b);
        assert(encoded_all(a) + encoded_all(b) =~= encoded_all(b));
    } else {
        assert((a + b).drop_first() =~= a.drop_first() + b);
        fields_follow_each_other(a.drop_first(), b, f);
        assert(encoded_all(a + b) =~= encoded_all(a) + encoded_all(b));
    }
}

/// The number with the same 32 bits, and so on for 16: what is written of a signed number is read as
/// that number.
pub proof fn signed_numbers_keep_their_bits(c: i16, d: i32, n: u32)
    ensures
        signed16(twos16(c)) == c,
        signed32(twos32(d)) == d,
        twos32(signed32(n as nat)) == n,
        signed32(n as nat) == n <==> n <= i32::MAX,
{
}

} // verus!
