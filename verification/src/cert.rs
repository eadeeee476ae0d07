//! Certificates: a self-signed pair for the server, and the fingerprint by which clients know it.

use crate::bytes::same_32;
use crate::digest::{hex_encode, hex_of, sha256, sha256_of};
use crate::text::{cat, cat3, owned, texts};
use vstd::prelude::*;
use vstd::utf8::{encode_utf8, is_ascii_chars};

verus! {

/// A certificate and its private key, both in PEM.
#[derive(Debug, PartialEq, Eq)]
pub struct CertPair {
    pub cert_pem: String,
    pub key_pem: String,
}

impl Clone for CertPair {
    fn clone(&self) -> (r: Self)
        ensures
            r == *self,
    {
        CertPair { cert_pem: self.cert_pem.clone(), key_pem: self.key_pem.clone() }
    }
}

/// Why a certificate could not be made or used.
#[derive(Debug, PartialEq, Eq)]
pub enum CertError {
    /// The certificate could not be generated, for this reason.
    Generate(String),
    /// The text is not well-formed PEM, for this reason.
    Pem(String),
    /// The text holds no certificate.
    NoCertificate,
    /// The text holds no PKCS #8 private key.
    NoKey,
}

/// What a [`CertError`] says.
pub enum CertErrorView {
    Generate(Seq<char>),
    Pem(Seq<char>),
    NoCertificate,
    NoKey,
}

impl View for CertError {
    type V = CertErrorView;

    open spec fn view(&self) -> CertErrorView {
        match *self {
            CertError::Generate(why) => CertErrorView::Generate(why@),
            CertError::Pem(why) => CertErrorView::Pem(why@),
            CertError::NoCertificate => CertErrorView::NoCertificate,
            CertError::NoKey => CertErrorView::NoKey,
        }
    }
}

/// The DER bytes of the certificates in a PEM file, in order, or why the file is malformed.
pub uninterp spec fn pem_certs_of(pem: Seq<u8>) -> Result<Seq<Seq<u8>>, Seq<char>>;

/// The DER bytes of the PKCS #8 private keys in a PEM file, in order, or why the file is malformed.
pub uninterp spec fn pem_pkcs8_keys_of(pem: Seq<u8>) -> Result<Seq<Seq<u8>>, Seq<char>>;

/// The byte strings that a vector of vectors holds.
pub open spec fn byte_strings(v: Seq<Vec<u8>>) -> Seq<Seq<u8>> {
    v.map_values(|b: Vec<u8>| b@)
}

/// The byte strings that were read, or why they could not be.
pub open spec fn read_sections(v: Result<Vec<Vec<u8>>, String>) -> Result<
    Seq<Seq<u8>>,
    Seq<char>,
> {
    match v {
        Ok(v) => Ok(byte_strings(v@)),
        Err(why) => Err(why@),
    }
}

/// `rustls_pemfile::certs`, collected: the certificates of the file, or why reading one of its
/// sections failed. Which text is well formed is left to that crate.
#[verifier::external_body]
fn pem_certs(pem: &[u8]) -> (r: Result<Vec<Vec<u8>>, String>)
    ensures
        read_sections(r) == pem_certs_of(pem@),
{
    let mut cursor = std::io::Cursor::new(pem);
    let certs: Result<Vec<Vec<u8>>, std::io::Error> =
        rustls_pemfile::certs(&mut cursor).map(|c| c.map(|der| der.as_ref().to_vec())).collect();
    certs.map_err(|e| e.to_string())
}

/// `rustls_pemfile::pkcs8_private_keys`, collected: the private keys of the file, or why reading
/// one of its sections failed. Which text is well formed is left to that crate.
#[verifier::external_body]
fn pem_pkcs8_keys(pem: &[u8]) -> (r: Result<Vec<Vec<u8>>, String>)
    ensures
        read_sections(r) == pem_pkcs8_keys_of(pem@),
{
    let mut cursor = std::io::Cursor::new(pem);
    let keys: Result<Vec<Vec<u8>>, std::io::Error> =
        rustls_pemfile::pkcs8_private_keys(&mut cursor)
        .map(|k| k.map(|der| der.secret_pkcs8_der().to_vec())).collect();
    keys.map_err(|e| e.to_string())
}

/// What a certificate is made for.
#[derive(Debug, PartialEq, Eq)]
pub struct CertSubject {
    pub common_name: String,
    pub alt_names: Vec<String>,
}

/// The subject of a certificate for a host: its name is also the only alternative name.
pub fn subject_for(common_name: &str) -> (r: CertSubject)
    ensures
        r.common_name@ == common_name@,
        texts(r.alt_names@) == seq![common_name@],
{
    let mut alt_names: Vec<String> = Vec::new();
    alt_names.push(owned(common_name));
    assert(texts(alt_names@) =~= seq![common_name@]);
    CertSubject { common_name: owned(common_name), alt_names }
}

/// The first of some names that is not ASCII, if there is one.
pub open spec fn foreign_name(names: Seq<Seq<char>>) -> Option<Seq<char>>
    decreases names.len(),
{
    if names.len() == 0 {
        None
    } else if !is_ascii_chars(names[0]) {
        Some(names[0])
    } else {
        foreign_name(names.drop_first())
    }
}

/// What is said of a name that is not ASCII.
pub open spec fn foreign_name_reason(name: Seq<char>) -> Seq<char> {
    "Invalid IA5String: '"@ + name + "'"@
}

/// `rcgen::CertificateParams::self_signed` on a key from `rcgen::KeyPair::generate`, for the common
/// name and the alternative names of the subject. An alternative name that is not ASCII is refused,
/// and the first such name is the reason. The key and so the certificate are random, and generation
/// may fail; where it succeeds, each text is one PEM section, which `rustls_pemfile` reads as one
/// certificate and one key. That the certificate names the subject is left unsaid, as nothing here
/// reads the names in it.
#[verifier::external_body]
fn rcgen_self_signed(subject: &CertSubject) -> (r: Result<CertPair, String>)
    ensures
        foreign_name(texts(subject.alt_names@)) matches Some(name) ==> r is Err && r->Err_0@
            == foreign_name_reason(name),
        r matches Ok(p) ==> pem_certs_of(encode_utf8(p.cert_pem@)) is Ok,
        r matches Ok(p) ==> pem_certs_of(encode_utf8(p.cert_pem@))->Ok_0.len() == 1,
        r matches Ok(p) ==> pem_pkcs8_keys_of(encode_utf8(p.key_pem@)) is Ok,
        r matches Ok(p) ==> pem_pkcs8_keys_of(encode_utf8(p.key_pem@))->Ok_0.len() == 1,
{
    let reason = |e: rcgen::Error| e.to_string();
    let mut params = rcgen::CertificateParams::new(subject.alt_names.clone()).map_err(reason)?;
    params.distinguished_name = rcgen::DistinguishedName::new();
    params.distinguished_name.push(rcgen::DnType::CommonName, subject.common_name.as_str());
    let key_pair = rcgen::KeyPair::generate().map_err(reason)?;
    let cert = params.self_signed(&key_pair).map_err(reason)?;
    Ok(CertPair { cert_pem: cert.pem(), key_pem: key_pair.serialize_pem() })
}

/// The fingerprint of the first of some certificates, where they could be read.
pub open spec fn fingerprint_of(certs: Result<Seq<Seq<u8>>, Seq<char>>) -> Result<
    Seq<u8>,
    CertErrorView,
> {
    match certs {
        Err(why) => Err(CertErrorView::Pem(why)),
        Ok(c) => if c.len() == 0 {
            Err(CertErrorView::NoCertificate)
        } else {
            Ok(sha256_of(c[0]))
        },
    }
}

/// A fingerprint by its bytes, or the error.
pub open spec fn fingerprint_bytes(r: Result<[u8; 32], CertError>) -> Result<
    Seq<u8>,
    CertErrorView,
> {
    match r {
        Ok(fp) => Ok(fp@),
        Err(e) => Err(e@),
    }
}

/// A fresh self-signed certificate for `common_name`. It has a fingerprint, and its key can be
/// found. A name that is not ASCII is refused; otherwise it depends on the system's randomness
/// whether there is one, and which.
pub fn generate_self_signed(common_name: &str) -> (r: Result<CertPair, CertError>)
    ensures
        !vstd::string::is_ascii(common_name) ==> r is Err && r->Err_0@ == CertErrorView::Generate(
            foreign_name_reason(common_name@),
        ),
        r matches Err(e) ==> e is Generate,
        r matches Ok(p) ==> fingerprint_of(pem_certs_of(encode_utf8(p.cert_pem@))) is Ok
            && identity_of(
            pem_certs_of(encode_utf8(p.cert_pem@)),
            pem_pkcs8_keys_of(encode_utf8(p.key_pem@)),
        ) is Ok,
{
    let subject = subject_for(common_name);
    assert(texts(subject.alt_names@)[0] == common_name@);
    match rcgen_self_signed(&subject) {
        Ok(p) => Ok(p),
        Err(why) => Err(CertError::Generate(why)),
    }
}

/// The fingerprint of the first of some certificates; an error where they could not be read, or
/// where there is none.
pub fn first_fingerprint(certs: Result<Vec<Vec<u8>>, String>) -> (r: Result<[u8; 32], CertError>)
    ensures
        fingerprint_bytes(r) == fingerprint_of(read_sections(certs)),
{
    match certs {
        Err(why) => Err(CertError::Pem(why)),
        Ok(c) => if c.len() == 0 {
            Err(CertError::NoCertificate)
        } else {
            Ok(sha256(c[0].as_slice()))
        },
    }
}

/// The SHA-256 of the first certificate in a PEM file, in its DER form. This is what a client pins.
pub fn fingerprint_sha256(cert_pem: &str) -> (r: Result<[u8; 32], CertError>)
    ensures
        fingerprint_bytes(r) == fingerprint_of(pem_certs_of(encode_utf8(cert_pem@))),
{
    first_fingerprint(pem_certs(cert_pem.as_bytes()))
}

/// A fingerprint as people read it: in hexadecimal.
pub fn fingerprint_hex(fp: &[u8; 32]) -> (r: String)
    ensures
        r@ == hex_of(fp@),
{
    hex_encode(fp.as_slice())
}

/// The fingerprint of a certificate file as people read it, where there is such a file and it holds
/// a certificate.
pub fn stored_fingerprint(cert_pem: Option<&str>) -> (r: Option<String>)
    ensures
        match cert_pem {
            Some(pem) => match fingerprint_of(pem_certs_of(encode_utf8(pem@))) {
                Ok(fp) => r is Some && r->Some_0@ == hex_of(fp),
                Err(_) => r is None,
            },
            None => r is None,
        },
{
    match cert_pem {
        Some(pem) => match fingerprint_sha256(pem) {
            Ok(fp) => Some(fingerprint_hex(&fp)),
            Err(_) => None,
        },
        None => None,
    }
}

/// What the server shows to its peers: its certificates, and the private key, both in DER.
#[derive(Debug, PartialEq, Eq)]
pub struct ServerIdentity {
    pub certs: Vec<Vec<u8>>,
    pub key: Vec<u8>,
}

/// The certificates and the last of the keys, where both could be read and there is a key.
pub open spec fn identity_of(
    certs: Result<Seq<Seq<u8>>, Seq<char>>,
    keys: Result<Seq<Seq<u8>>, Seq<char>>,
) -> Result<(Seq<Seq<u8>>, Seq<u8>), CertErrorView> {
    match (certs, keys) {
        (Err(why), _) => Err(CertErrorView::Pem(why)),
        (Ok(_), Err(why)) => Err(CertErrorView::Pem(why)),
        (Ok(c), Ok(k)) => if k.len() == 0 {
            Err(CertErrorView::NoKey)
        } else {
            Ok((c, k.last()))
        },
    }
}

impl View for ServerIdentity {
    type V = (Seq<Seq<u8>>, Seq<u8>);

    open spec fn view(&self) -> (Seq<Seq<u8>>, Seq<u8>) {
        (byte_strings(self.certs@), self.key@)
    }
}

/// An identity by its bytes, or the error.
pub open spec fn identity_bytes(r: Result<ServerIdentity, CertError>) -> Result<
    (Seq<Seq<u8>>, Seq<u8>),
    CertErrorView,
> {
    match r {
        Ok(id) => Ok(id@),
        Err(e) => Err(e@),
    }
}

/// Puts an identity together from what was read: all the certificates, and the last of the keys.
pub fn identity_from(
    certs: Result<Vec<Vec<u8>>, String>,
    keys: Result<Vec<Vec<u8>>, String>,
) -> (r: Result<ServerIdentity, CertError>)
    ensures
        identity_bytes(r) == identity_of(read_sections(certs), read_sections(keys)),
{
    let certs = match certs {
        Ok(c) => c,
        Err(why) => {
            return Err(CertError::Pem(why));
        },
    };
    let mut keys = match keys {
        Ok(k) => k,
        Err(why) => {
            return Err(CertError::Pem(why));
        },
    };
    match keys.pop() {
        Some(key) => Ok(ServerIdentity { certs, key }),
        None => Err(CertError::NoKey),
    }
}

/// The identity that two PEM files hold.
pub fn server_identity(cert_pem: &str, key_pem: &str) -> (r: Result<ServerIdentity, CertError>)
    ensures
        identity_bytes(r) == identity_of(
            pem_certs_of(encode_utf8(cert_pem@)),
            pem_pkcs8_keys_of(encode_utf8(key_pem@)),
        ),
{
    identity_from(pem_certs(cert_pem.as_bytes()), pem_pkcs8_keys(key_pem.as_bytes()))
}

/// The pair that the server uses, and its fingerprint: the one it has stored, or a fresh one. The
/// last part of the result says whether the pair is fresh and has to be stored.
pub fn load_or_generate(stored: Option<CertPair>, common_name: &str) -> (r: Result<
    (CertPair, [u8; 32], bool),
    CertError,
>)
    ensures
        match stored {
            Some(p) => match fingerprint_of(pem_certs_of(encode_utf8(p.cert_pem@))) {
                Ok(fp) => r is Ok && r->Ok_0.0 == p && r->Ok_0.1@ == fp && !r->Ok_0.2,
                Err(e) => r is Err && r->Err_0@ == e,
            },
            None => match r {
                Ok((p, fp, fresh)) => fresh && fingerprint_of(
                    pem_certs_of(encode_utf8(p.cert_pem@)),
                ) == Ok::<_, CertErrorView>(fp@),
                Err(e) => e is Generate,
            },
        },
        stored is None && !vstd::string::is_ascii(common_name) ==> r is Err && r->Err_0@
            == CertErrorView::Generate(foreign_name_reason(common_name@)),
{
    let fresh = stored.is_none();
    let pair = match stored {
        Some(p) => p,
        None => match generate_self_signed(common_name) {
            Ok(p) => p,
            Err(e) => {
                return Err(e);
            },
        },
    };
    match fingerprint_sha256(pair.cert_pem.as_str()) {
        Ok(fp) => Ok((pair, fp, fresh)),
        Err(e) => Err(e),
    }
}

/// The last fingerprint that a verifier saw. Read after a failed handshake, it tells a changed
/// certificate from a failed connection.
#[derive(Debug, Clone, Copy, PartialEq, Eq)]
pub struct ObservedFingerprint(pub Option<[u8; 32]>);

impl Default for ObservedFingerprint {
    fn default() -> (r: Self)
        ensures
            r.0 is None,
    {
        ObservedFingerprint(None)
    }
}

impl ObservedFingerprint {
    pub fn get(&self) -> (r: Option<[u8; 32]>)
        ensures
            r == self.0,
    {
        self.0
    }
}

/// Accepts one certificate: the one with the pinned fingerprint.
#[derive(Debug, Clone, Copy, PartialEq, Eq)]
pub struct PinnedVerifier {
    pub fingerprint: [u8; 32],
    pub observed: ObservedFingerprint,
}

/// What is said of a certificate with the fingerprint `got` where `expected` is pinned.
pub open spec fn pinning_failure(got: Seq<u8>, expected: Seq<u8>) -> Seq<char> {
    "cert pinning failed: got "@ + hex_of(got) + " expected "@ + hex_of(expected)
}

impl PinnedVerifier {
    /// A verifier that has seen nothing yet.
    pub fn new(fingerprint: [u8; 32]) -> (r: Self)
        ensures
            r.fingerprint == fingerprint,
            r.observed.0 is None,
    {
        PinnedVerifier { fingerprint, observed: ObservedFingerprint(None) }
    }

    /// Looks at the certificate that a server shows, and remembers its fingerprint. It is accepted
    /// if and only if it is the pinned one.
    pub fn verify_server_cert(&mut self, end_entity: &[u8]) -> (r: Result<(), String>)
        ensures
            final(self).fingerprint == old(self).fingerprint,
            final(self).observed.0 is Some,
            final(self).observed.0->Some_0@ == sha256_of(end_entity@),
            r is Ok <==> sha256_of(end_entity@) == old(self).fingerprint@,
            r matches Err(why) ==> why@ == pinning_failure(
                sha256_of(end_entity@),
                old(self).fingerprint@,
            ),
    {
        let actual = sha256(end_entity);
        self.observed = ObservedFingerprint(Some(actual));
        if same_32(&actual, &self.fingerprint) {
            return Ok(());
        }
        let got = fingerprint_hex(&actual);
        let expected = fingerprint_hex(&self.fingerprint);
        let head = cat3("cert pinning failed: got ", got.as_str(), " expected ");
        Err(cat(head.as_str(), expected.as_str()))
    }
}

/// The certificate that a server shows first is accepted by a client that pinned the fingerprint
/// of the server's file.
pub proof fn own_fingerprint_is_accepted(cert_pem: Seq<char>, key_pem: Seq<char>)
    requires
        fingerprint_of(pem_certs_of(encode_utf8(cert_pem))) is Ok,
        identity_of(
            pem_certs_of(encode_utf8(cert_pem)),
            pem_pkcs8_keys_of(encode_utf8(key_pem)),
        ) is Ok,
    ensures
        ({
            let shown = identity_of(
                pem_certs_of(encode_utf8(cert_pem)),
                pem_pkcs8_keys_of(encode_utf8(key_pem)),
            )->Ok_0.0;
            &&& shown.len() > 0
            &&& sha256_of(shown[0]) == fingerprint_of(pem_certs_of(encode_utf8(cert_pem)))->Ok_0
        }),
{
}

/// The fingerprint is the SHA-256 of the first certificate, whatever follows it; there is one if and
/// only if the file could be read and holds a certificate.
pub proof fn first_certificate_counts(c: Seq<u8>, rest: Seq<Seq<u8>>, why: Seq<char>)
    ensures
        fingerprint_of(Ok(seq![c] + rest)) == Ok::<_, CertErrorView>(sha256_of(c)),
        fingerprint_of(Ok(Seq::empty())) == Err::<Seq<u8>, _>(CertErrorView::NoCertificate),
        fingerprint_of(Err(why)) == Err::<Seq<u8>, _>(CertErrorView::Pem(why)),
{
}

/// What the server shows is all of its certificates, in order, and the last of its keys; there is
/// such a thing if and only if both files could be read and there is a key.
pub proof fn last_key_counts(
    certs: Seq<Seq<u8>>,
    keys: Seq<Seq<u8>>,
    key: Seq<u8>,
    why: Seq<char>,
)
    ensures
        identity_of(Ok(certs), Ok(keys.push(key))) == Ok::<_, CertErrorView>((certs, key)),
        identity_of(Ok(certs), Ok(Seq::empty())) == Err::<(Seq<Seq<u8>>, Seq<u8>), _>(
            CertErrorView::NoKey,
        ),
        identity_of(Err(why), Ok(keys)) is Err,
        identity_of(Ok(certs), Err(why)) is Err,
{
}

/// A name is refused for the first name that is not ASCII, and for no other reason.
pub proof fn foreign_names_are_found(names: Seq<Seq<char>>)
    ensures
        foreign_name(names) is None <==> forall|i: int|
            0 <= i < names.len() ==> is_ascii_chars(#[trigger] names[i]),
        foreign_name(names) is Some ==> exists|i: int|
            0 <= i < names.len() && #[trigger] names[i] == foreign_name(names)->Some_0
                && !is_ascii_chars(names[i]),
    decreases names.len(),
{
    if names.len() > 0 {
        let rest = names.drop_first();
        foreign_names_are_found(rest);
        if is_ascii_chars(names[0]) {
            assert forall|i: int| 0 <= i < rest.len() implies rest[i] == #[trigger] names[i + 1] by {}
            if foreign_name(names) is Some {
                let i = choose|i: int|
                    0 <= i < rest.len() && #[trigger] rest[i] == foreign_name(rest)->Some_0
                        && !is_ascii_chars(rest[i]);
                assert(names[i + 1] == foreign_name(names)->Some_0);
            } else {
                assert forall|i: int| 0 <= i < names.len() implies is_ascii_chars(
                    #[trigger] names[i],
                ) by {
                    if i > 0 {
                        assert(rest[i - 1] == names[i]);
                    }
                }
            }
        }
    }
}

} // verus!
