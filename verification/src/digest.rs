//! SHA-256, HMAC-SHA-256 and hexadecimal text.

use hmac::Mac;
use sha2::Digest;
use vstd::prelude::*;

verus! {

/// The SHA-256 of a byte string.
pub uninterp spec fn sha256_of(data: Seq<u8>) -> Seq<u8>;

/// `sha2::Sha256::digest`: the hash of `data`, which depends on nothing else.
#[verifier::external_body]
fn sha2_digest(data: &[u8]) -> (r: [u8; 32])
    ensures
        r@ == sha256_of(data@),
{
    sha2::Sha256::digest(data).into()
}

/// The SHA-256 of `data`.
pub fn sha256(data: &[u8]) -> (r: [u8; 32])
    ensures
        r@ == sha256_of(data@),
{
    sha2_digest(data)
}

/// A hash that is fed piece by piece. Its one field is a `sha2::Sha256`, whose type has parameters
/// of its own that cannot be declared here.
#[verifier::external_body]
pub struct RunningHash {
    inner: sha2::Sha256,
}

/// The bytes that a hash has been fed, in order.
pub uninterp spec fn fed(h: RunningHash) -> Seq<u8>;

impl RunningHash {
    /// `sha2::Sha256::new`: a hash that has been fed nothing.
    #[verifier::external_body]
    pub(crate) fn new() -> (r: Self)
        ensures
            fed(r) == Seq::<u8>::empty(),
    {
        RunningHash { inner: sha2::Sha256::new() }
    }

    /// `sha2::Digest::update`: feeds `data` behind what was fed before.
    #[verifier::external_body]
    pub(crate) fn update(&mut self, data: &[u8])
        ensures
            fed(*final(self)) == fed(*old(self)) + data@,
    {
        self.inner.update(data)
    }

    /// `sha2::Digest::finalize`: the hash of all that was fed, the same as of one string.
    #[verifier::external_body]
    pub(crate) fn finish(self) -> (r: [u8; 32])
        ensures
            r@ == sha256_of(fed(self)),
    {
        self.inner.finalize().into()
    }
}

/// The HMAC-SHA-256 of `data` under `key`.
pub uninterp spec fn hmac_sha256_of(key: Seq<u8>, data: Seq<u8>) -> Seq<u8>;

/// `hmac::Hmac::<sha2::Sha256>` over one piece of data: the code depends on the key and the data
/// alone. A key of 32 bytes is always accepted.
#[verifier::external_body]
pub(crate) fn hmac_code(key: &[u8; 32], data: &[u8; 32]) -> (r: [u8; 32])
    ensures
        r@ == hmac_sha256_of(key@, data@),
{
    let mut mac = hmac::Hmac::<sha2::Sha256>::new_from_slice(key).expect("any key length");
    mac.update(data);
    mac.finalize().into_bytes().into()
}

/// `hmac::Mac::verify_slice`, which compares in constant time: whether `code` is the code of the
/// data under the key.
#[verifier::external_body]
pub(crate) fn hmac_verify(key: &[u8; 32], data: &[u8; 32], code: &[u8; 32]) -> (r: bool)
    ensures
        r == (code@ == hmac_sha256_of(key@, data@)),
{
    let mut mac = hmac::Hmac::<sha2::Sha256>::new_from_slice(key).expect("any key length");
    mac.update(data);
    mac.verify_slice(code).is_ok()
}

/// The lower-case digit for `n`, which is below 16.
pub open spec fn hex_digit(n: nat) -> char {
    if n < 10 {
        (('0' as nat) + n) as char
    } else {
        (('a' as nat) + (n - 10)) as char
    }
}

/// Two lower-case digits for each byte.
pub open spec fn hex_of(data: Seq<u8>) -> Seq<char> {
    Seq::new(
        2 * data.len(),
        |i: int|
            hex_digit(
                if i % 2 == 0 {
                    data[i / 2] as nat / 16
                } else {
                    data[i / 2] as nat % 16
                },
            ),
    )
}

/// The value of a digit of either case.
pub open spec fn hex_value(c: char) -> Option<nat> {
    if '0' <= c <= '9' {
        Some((c as nat - '0' as nat) as nat)
    } else if 'a' <= c <= 'f' {
        Some((c as nat - 'a' as nat + 10) as nat)
    } else if 'A' <= c <= 'F' {
        Some((c as nat - 'A' as nat + 10) as nat)
    } else {
        None
    }
}

/// The characters are digits, and they pair up.
pub open spec fn is_hex(t: Seq<char>) -> bool {
    &&& t.len() % 2 == 0
    &&& forall|i: int| 0 <= i < t.len() ==> hex_value(#[trigger] t[i]) is Some
}

/// The bytes that pairs of digits spell.
pub open spec fn unhex(t: Seq<char>) -> Seq<u8> {
    Seq::new(
        t.len() / 2,
        |i: int| (hex_value(t[2 * i]).unwrap() * 16 + hex_value(t[2 * i + 1]).unwrap()) as u8,
    )
}

/// What `hex::FromHexError` says of a text that is not hexadecimal.
pub uninterp spec fn hex_error_of(text: Seq<char>) -> Seq<char>;

/// `hex::encode`: two lower-case digits for each byte.
#[verifier::external_body]
pub(crate) fn hex_encode(data: &[u8]) -> (r: String)
    ensures
        r@ == hex_of(data@),
{
    hex::encode(data)
}

/// `hex::decode`: the bytes that the digits spell, in either case; or, where there is an odd number
/// of characters or one that is no digit, what is wrong, in the words of the error.
#[verifier::external_body]
pub(crate) fn hex_decode(text: &str) -> (r: Result<Vec<u8>, String>)
    ensures
        r is Ok <==> is_hex(text@),
        r matches Ok(b) ==> b@ == unhex(text@),
        r matches Err(e) ==> e@ == hex_error_of(text@),
{
    match hex::decode(text) {
        Ok(b) => Ok(b),
        Err(e) => Err(e.to_string()),
    }
}

/// Hexadecimal text is read back as the bytes that it was written for.
pub proof fn unhex_undoes_hex(data: Seq<u8>)
    ensures
        is_hex(hex_of(data)),
        unhex(hex_of(data)) == data,
{
    let t = hex_of(data);
    assert forall|i: int| 0 <= i < t.len() implies hex_value(#[trigger] t[i]) == Some(
        if i % 2 == 0 {
            data[i / 2] as nat / 16
        } else {
            data[i / 2] as nat % 16
        },
    ) by {}
    assert forall|i: int| 0 <= i < data.len() implies unhex(t)[i] == data[i] by {
        assert(hex_value(t[2 * i]) == Some(data[i] as nat / 16));
        assert(hex_value(t[2 * i + 1]) == Some(data[i] as nat % 16));
    }
    assert(unhex(t) =~= data);
}

} // verus!
