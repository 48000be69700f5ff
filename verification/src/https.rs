//! Trust between a client and a host: the certificate and the key that a client presents, and the
//! certificate of the host, which is pinned when the client pairs.
use rustls::pki_types::pem::PemObject;
use rustls::pki_types::{CertificateDer, PrivateKeyDer, ServerName};

use vstd::prelude::*;
use vstd::string::*;
use vstd::utf8::encode_utf8;

use crate::bytes::{copy_range, same_bytes};
use crate::error::{is_protocol, protocol, protocol2, Error};
use crate::text::copy_str;

verus! {

/// The certificates among the PEM blocks of a byte string, in order, with what is wrong for each
/// block that cannot be read.
pub uninterp spec fn pem_certificates(pem: Seq<u8>) -> Seq<Result<Seq<u8>, Seq<char>>>;

/// What came of reading a certificate.
pub open spec fn outcome(r: Result<Vec<u8>, String>) -> Result<Seq<u8>, Seq<char>> {
    match r {
        Ok(v) => Ok(v@),
        Err(e) => Err(e@),
    }
}

/// What came of reading certificates.
pub open spec fn outcomes(v: Seq<Result<Vec<u8>, String>>) -> Seq<Result<Seq<u8>, Seq<char>>> {
    v.map_values(|r: Result<Vec<u8>, String>| outcome(r))
}

/// Reads all certificates by `CertificateDer::pem_slice_iter` of `rustls::pki_types`. The
/// certificates in DER form and the texts of the outside errors are named, not described.
#[verifier::external_body]
fn read_certificates(pem: &[u8]) -> (r: Vec<Result<Vec<u8>, String>>)
    ensures
        outcomes(r@) == pem_certificates(pem@),
{
    CertificateDer::pem_slice_iter(pem)
        .map(|c| c.map(|c| c.as_ref().to_vec()).map_err(|e| e.to_string()))
        .collect()
}

/// The certificate that was read first, or the text of the error that says why there is none.
pub open spec fn first_certificate(read: Seq<Result<Seq<u8>, Seq<char>>>) -> Result<
    Seq<u8>,
    Seq<char>,
> {
    if read.len() == 0 {
        Err("no certificate in host PEM"@)
    } else {
        match read[0] {
            Ok(v) => Ok(v),
            Err(why) => Err("parse host cert PEM: "@ + why),
        }
    }
}

/// The certificate that was read first, or the error that says why there is none.
pub fn certificate_or_error(read: Vec<Result<Vec<u8>, String>>) -> (r: Result<Vec<u8>, Error>)
    ensures
        match first_certificate(outcomes(read@)) {
            Ok(v) => r matches Ok(w) && w@ == v,
            Err(t) => r matches Err(e) && is_protocol(e, t),
        },
{
    if read.len() == 0 {
        return Err(protocol("no certificate in host PEM"));
    }
    assert(outcomes(read@)[0] == outcome(read@[0]));
    match &read[0] {
        Ok(v) => {
            let w: Vec<u8> = copy_range(v, 0, v.len());
            assert(w@ =~= v@);
            Ok(w)
        },
        Err(why) => Err(protocol2("parse host cert PEM: ", why.as_str())),
    }
}

/// The first certificate in a PEM file, in the DER form in which it is pinned.
pub fn cert_pem_to_der(pem: &[u8]) -> (r: Result<Vec<u8>, Error>)
    ensures
        match first_certificate(pem_certificates(pem@)) {
            Ok(v) => r matches Ok(w) && w@ == v,
            Err(t) => r matches Err(e) && is_protocol(e, t),
        },
{
    certificate_or_error(read_certificates(pem))
}

/// The first `n` certificates that were read, or what is wrong with the first of them that is not
/// one.
pub open spec fn all_certificates(read: Seq<Result<Seq<u8>, Seq<char>>>, n: nat) -> Result<
    Seq<Seq<u8>>,
    Seq<char>,
>
    decreases n,
{
    if n == 0 {
        Ok(Seq::empty())
    } else {
        match (all_certificates(read, (n - 1) as nat), read[n - 1]) {
            (Err(why), _) => Err(why),
            (_, Err(why)) => Err(why),
            (Ok(before), Ok(v)) => Ok(before.push(v)),
        }
    }
}

/// The contents of a list of byte strings.
pub open spec fn all_bytes(v: Seq<Vec<u8>>) -> Seq<Seq<u8>> {
    v.map_values(|b: Vec<u8>| b@)
}

/// An error among the first certificates stays the first one.
proof fn lemma_first_error(read: Seq<Result<Seq<u8>, Seq<char>>>, m: nat, n: nat)
    requires
        m <= n,
        all_certificates(read, m) is Err,
    ensures
        all_certificates(read, n) == all_certificates(read, m),
    decreases n,
{
    if m < n {
        lemma_first_error(read, m, (n - 1) as nat);
    }
}

/// The certificates that were read, or the error that says what is wrong with the first block that
/// is not one.
pub fn certificates_or_error(read: Vec<Result<Vec<u8>, String>>) -> (r: Result<
    Vec<Vec<u8>>,
    Error,
>)
    ensures
        match all_certificates(outcomes(read@), read@.len()) {
            Ok(v) => r matches Ok(w) && all_bytes(w@) == v,
            Err(t) => r matches Err(e) && is_protocol(e, "load client cert: "@ + t),
        },
{
    let ghost all = outcomes(read@);
    let mut certs: Vec<Vec<u8>> = Vec::new();
    assert(all_bytes(certs@) =~= Seq::empty());
    let mut i: usize = 0;
    while i < read.len()
        invariant
            i <= read.len(),
            all == outcomes(read@),
            all_certificates(all, i as nat) == Ok::<Seq<Seq<u8>>, Seq<char>>(all_bytes(certs@)),
        decreases read.len() - i,
    {
        assert(all[i as int] == outcome(read@[i as int]));
        match &read[i] {
            Ok(v) => {
                let w: Vec<u8> = copy_range(v, 0, v.len());
                assert(w@ =~= v@);
                let ghost before = all_bytes(certs@);
                let ghost bytes = w@;
                certs.push(w);
                assert(all_bytes(certs@) =~= before.push(bytes));
            },
            Err(why) => {
                proof {
                    lemma_first_error(all, (i + 1) as nat, read@.len());
                }
                return Err(protocol2("load client cert: ", why.as_str()));
            },
        }
        i += 1;
    }
    Ok(certs)
}

/// The certificates in the PEM text of a client, in DER form.
pub fn load_certs(pem: &str) -> (r: Result<Vec<Vec<u8>>, Error>)
    ensures
        ({
            let read = pem_certificates(encode_utf8(pem@));
            match all_certificates(read, read.len()) {
                Ok(v) => r matches Ok(w) && all_bytes(w@) == v,
                Err(t) => r matches Err(e) && is_protocol(e, "load client cert: "@ + t),
            }
        }),
{
    certificates_or_error(read_certificates(pem.as_bytes()))
}

/// The forms of a private key.
#[derive(Debug, Clone, Copy, PartialEq, Eq, Structural)]
pub enum KeyKind {
    Pkcs1,
    Sec1,
    Pkcs8,
    /// None of these.
    Other,
}

/// A private key in DER form.
#[derive(Debug, Clone, PartialEq, Eq)]
pub struct ClientKey {
    pub kind: KeyKind,
    pub der: Vec<u8>,
}

/// The form and the DER bytes of the first private key among the PEM blocks of a byte string, or
/// why there is none.
pub uninterp spec fn pem_key(pem: Seq<u8>) -> Result<(KeyKind, Seq<u8>), Seq<char>>;

/// What came of reading a key.
pub open spec fn key_outcome(r: Result<ClientKey, String>) -> Result<
    (KeyKind, Seq<u8>),
    Seq<char>,
> {
    match r {
        Ok(key) => Ok((key.kind, key.der@)),
        Err(e) => Err(e@),
    }
}

/// Reads the first private key by `PrivateKeyDer::from_pem_slice` of `rustls::pki_types`. Its form,
/// its DER bytes and the text of the outside error are named, not described.
#[verifier::external_body]
fn read_key(pem: &[u8]) -> (r: Result<ClientKey, String>)
    ensures
        key_outcome(r) == pem_key(pem@),
{
    let key = PrivateKeyDer::from_pem_slice(pem).map_err(|e| e.to_string())?;
    let kind = match &key {
        PrivateKeyDer::Pkcs1(_) => KeyKind::Pkcs1,
        PrivateKeyDer::Sec1(_) => KeyKind::Sec1,
        PrivateKeyDer::Pkcs8(_) => KeyKind::Pkcs8,
        _ => KeyKind::Other,
    };
    Ok(ClientKey { kind, der: key.secret_der().to_vec() })
}

/// The key that was read, or the error that says why there is none.
pub fn key_or_error(read: Result<ClientKey, String>) -> (r: Result<ClientKey, Error>)
    ensures
        match read {
            Ok(key) => r matches Ok(k) && k.kind == key.kind && k.der@ == key.der@,
            Err(why) => r matches Err(e) && is_protocol(e, "load client key: "@ + why@),
        },
{
    match read {
        Ok(key) => Ok(key),
        Err(why) => Err(protocol2("load client key: ", why.as_str())),
    }
}

/// The private key in the PEM text of a client, in DER form.
pub fn load_key(pem: &str) -> (r: Result<ClientKey, Error>)
    ensures
        match pem_key(encode_utf8(pem@)) {
            Ok((kind, der)) => r matches Ok(k) && k.kind == kind && k.der@ == der,
            Err(t) => r matches Err(e) && is_protocol(e, "load client key: "@ + t),
        },
{
    key_or_error(read_key(pem.as_bytes()))
}

/// The name or address that TLS knows a host by, or why there is none.
pub uninterp spec fn tls_name(host: Seq<char>) -> Result<Seq<char>, Seq<char>>;

/// Reads the name or the address of a host by `ServerName::try_from` of `rustls::pki_types`, and
/// writes it as `ServerName::to_str` does. The name and the text of the outside error are named,
/// not described.
#[verifier::external_body]
fn read_server_name(host: &str) -> (r: Result<String, String>)
    ensures
        match r {
            Ok(name) => tls_name(host@) == Ok::<Seq<char>, Seq<char>>(name@),
            Err(e) => tls_name(host@) == Err::<Seq<char>, Seq<char>>(e@),
        },
{
    match ServerName::try_from(host) {
        Ok(name) => Ok(name.to_str().into_owned()),
        Err(e) => Err(e.to_string()),
    }
}

/// The name of a host that was read, or the error that says why it is none.
pub fn name_or_error(host: &str, read: Result<String, String>) -> (r: Result<String, Error>)
    ensures
        match read {
            Ok(name) => r matches Ok(n) && n@ == name@,
            Err(why) => r matches Err(e) && is_protocol(
                e,
                "invalid server name "@ + host@ + ": "@ + why@,
            ),
        },
{
    match read {
        Ok(name) => Ok(name),
        Err(why) => {
            let mut text: String = copy_str("invalid server name ");
            text.append(host);
            text.append(": ");
            text.append(why.as_str());
            Err(Error::Protocol(text))
        },
    }
}

/// The name or address that TLS knows a host by.
pub fn server_name(host: &str) -> (r: Result<String, Error>)
    ensures
        match tls_name(host@) {
            Ok(name) => r matches Ok(n) && n@ == name,
            Err(why) => r matches Err(e) && is_protocol(
                e,
                "invalid server name "@ + host@ + ": "@ + why,
            ),
        },
{
    name_or_error(host, read_server_name(host))
}

/// Whether a host that presents a certificate is the one that was pinned. Without a pin every
/// host is accepted.
pub fn accepts_certificate(pinned: Option<&Vec<u8>>, presented: &[u8]) -> (r: bool)
    ensures
        r == match pinned {
            Some(p) => p@ == presented@,
            None => true,
        },
{
    match pinned {
        Some(p) => same_bytes(p, presented),
        None => true,
    }
}

/// The certificates of a client are all those that were read, in order; where one was not, the first
/// such block is what is wrong.
pub proof fn law_all_certificates(read: Seq<Result<Seq<u8>, Seq<char>>>, n: nat)
    requires
        n <= read.len(),
    ensures
        match all_certificates(read, n) {
            Ok(v) => v.len() == n && forall|i: int|
                0 <= i < n ==> read[i] == Ok::<Seq<u8>, Seq<char>>(#[trigger] v[i]),
            Err(why) => exists|i: int|
                0 <= i < n && #[trigger] read[i] == Err::<Seq<u8>, Seq<char>>(why) && forall|j: int|
                    0 <= j < i ==> (#[trigger] read[j]) is Ok,
        },
    decreases n,
{
    if n > 0 {
        law_all_certificates(read, (n - 1) as nat);
        match all_certificates(read, (n - 1) as nat) {
            Ok(before) => {
                assert forall|j: int| 0 <= j < n - 1 implies (#[trigger] read[j]) is Ok by {
                    assert(read[j] == Ok::<Seq<u8>, Seq<char>>(before[j]));
                }
                assert(read[n - 1] is Ok || read[n - 1] is Err);
            },
            Err(_) => {},
        }
    }
}

} // verus!
