//! The shared key, and the proof that a peer holds it.
//!
//! Both sides derive a 32-byte key from a passphrase. For each connection the server picks a nonce
//! and the client answers with the keyed hash of it, which the server compares in constant time. A
//! proof is good for one nonce only.

use crate::bytes::append_bytes;
use crate::digest::{hmac_code, hmac_sha256_of, hmac_verify, sha256, sha256_of};
use vstd::prelude::*;
use vstd::utf8::{encode_utf8, encode_utf8_decode_utf8};

verus! {

/// What is hashed in front of the passphrase.
pub const PSK_LABEL: &'static str = "union-psk-v1:";

/// The key that a passphrase stands for.
pub open spec fn psk_of(passphrase: Seq<char>) -> Seq<u8> {
    sha256_of(encode_utf8(PSK_LABEL@) + encode_utf8(passphrase))
}

pub fn derive_psk_from_passphrase(passphrase: &str) -> (r: [u8; 32])
    ensures
        r@ == psk_of(passphrase@),
{
    let mut data: Vec<u8> = Vec::new();
    append_bytes(&mut data, PSK_LABEL.as_bytes());
    append_bytes(&mut data, passphrase.as_bytes());
    assert(data@ =~= encode_utf8(PSK_LABEL@) + encode_utf8(passphrase@));
    sha256(data.as_slice())
}

/// The proof that the holder of `psk` gives for `nonce`.
pub fn hmac_psk(psk: &[u8; 32], nonce: &[u8; 32]) -> (r: [u8; 32])
    ensures
        r@ == hmac_sha256_of(psk@, nonce@),
{
    hmac_code(psk, nonce)
}

/// Whether `expected` is the proof that the holder of `psk` gives for `nonce`.
pub fn verify_psk(psk: &[u8; 32], nonce: &[u8; 32], expected: &[u8; 32]) -> (r: bool)
    ensures
        r == (expected@ == hmac_sha256_of(psk@, nonce@)),
{
    hmac_verify(psk, nonce, expected)
}

/// The key is the hash of all of the passphrase, behind a label that nothing else is hashed with:
/// for two passphrases it is the same only if the hash of the two labelled texts is, and these
/// differ.
pub proof fn keys_come_of_the_whole_passphrase(a: Seq<char>, b: Seq<char>)
    ensures
        psk_of(a) == sha256_of(encode_utf8("union-psk-v1:"@) + encode_utf8(a)),
        a != b ==> encode_utf8("union-psk-v1:"@) + encode_utf8(a) != encode_utf8("union-psk-v1:"@)
            + encode_utf8(b),
{
    let label = encode_utf8("union-psk-v1:"@);
    let x = label + encode_utf8(a);
    let y = label + encode_utf8(b);
    if x == y {
        assert(x.skip(label.len() as int) =~= encode_utf8(a));
        assert(y.skip(label.len() as int) =~= encode_utf8(b));
        encode_utf8_decode_utf8(a);
        encode_utf8_decode_utf8(b);
    }
}

} // verus!
