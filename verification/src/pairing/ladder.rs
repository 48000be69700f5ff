//! The exchange that pairs a client with a host.
//!
//! Four requests go over plain HTTP and a fifth over TLS with the certificate that the host has
//! come to trust. A [`PairingRun`] decides each step; the caller sends the requests.
use std::time::Duration;

use vstd::prelude::*;
use vstd::string::*;
use vstd::utf8::encode_utf8;

use crate::bytes::push_slice;
use crate::error::{is_protocol, protocol, protocol2, protocol3, Error};
use crate::hex::{decode, encode, hex_decoded, hex_error_text, hex_text};
use crate::pairing::crypto::{
    aes_ecb_decrypt, aes_ecb_encrypt, block_count, concatenated, ecb_decrypted, ecb_encrypted,
    pin_key, random_bytes, sha256, sha256_of, take16,
};
use crate::pairing::identity::{certificate_signature, p256_signature, ClientIdentity};
use crate::text::{chars_of, copy_str, decimal, decimal_string, same_chars};
use crate::xml::{after_events, parse_flat, xml_events, Flat, FlatView};

verus! {

/// Builds the requests to one host.
pub struct PairingClient {
    pub host: String,
    pub http_port: u16,
    pub identity: ClientIdentity,
    pub timeout: Duration,
}

/// What a host answers to a request.
#[derive(Debug, Clone)]
pub struct PairResponse {
    pub status_code: Option<u16>,
    pub paired: bool,
    pub plaincert: Option<Vec<u8>>,
    pub challenge_response: Option<Vec<u8>>,
    pub pairing_secret: Option<Vec<u8>>,
}

/// What a [`PairResponse`] holds.
#[verifier::ext_equal]
pub struct PairView {
    pub status_code: Option<u16>,
    pub paired: bool,
    pub plaincert: Option<Seq<u8>>,
    pub challenge_response: Option<Seq<u8>>,
    pub pairing_secret: Option<Seq<u8>>,
}

/// The contents of an optional byte string.
pub open spec fn optional_bytes(v: Option<Vec<u8>>) -> Option<Seq<u8>> {
    match v {
        Some(b) => Some(b@),
        None => None,
    }
}

impl View for PairResponse {
    type V = PairView;

    open spec fn view(&self) -> PairView {
        PairView {
            status_code: self.status_code,
            paired: self.paired,
            plaincert: optional_bytes(self.plaincert),
            challenge_response: optional_bytes(self.challenge_response),
            pairing_secret: optional_bytes(self.pairing_secret),
        }
    }
}

impl Default for PairResponse {
    fn default() -> (r: Self)
        ensures
            r@ == (PairView {
                status_code: None,
                paired: false,
                plaincert: None,
                challenge_response: None,
                pairing_secret: None,
            }),
    {
        PairResponse {
            status_code: None,
            paired: false,
            plaincert: None,
            challenge_response: None,
            pairing_secret: None,
        }
    }
}

/// The bytes that a leaf spells in hexadecimal, if it is there, or the text of the error.
pub open spec fn hex_field(fields: Map<Seq<char>, Seq<char>>, name: Seq<char>) -> Result<
    Option<Seq<u8>>,
    Seq<char>,
> {
    if !fields.contains_key(name) {
        Ok(None)
    } else {
        match hex_decoded(fields[name]) {
            Ok(v) => Ok(Some(v)),
            Err(e) => Err("/pair "@ + name + ": "@ + hex_error_text(e)),
        }
    }
}

/// The answer that an envelope holds, or the text of the first error.
pub open spec fn pair_view(flat: FlatView) -> Result<PairView, Seq<char>> {
    match hex_field(flat.fields, "plaincert"@) {
        Err(t) => Err(t),
        Ok(plaincert) => match hex_field(flat.fields, "challengeresponse"@) {
            Err(t) => Err(t),
            Ok(challenge_response) => match hex_field(flat.fields, "pairingsecret"@) {
                Err(t) => Err(t),
                Ok(pairing_secret) => Ok(
                    PairView {
                        status_code: flat.status_code,
                        paired: flat.fields.contains_key("paired"@) && flat.fields["paired"@]
                            == "1"@,
                        plaincert,
                        challenge_response,
                        pairing_secret,
                    },
                ),
            },
        },
    }
}

/// The answer that a document holds, or the text of the first error.
pub open spec fn pair_document(xml: Seq<u8>) -> Result<PairView, Seq<char>> {
    match after_events(xml_events(xml), xml_events(xml).len()) {
        Err(t) => Err(t),
        Ok(p) => pair_view(p.flat),
    }
}

/// The answer that an HTTP response holds, or the text of the error.
pub open spec fn pair_reply_view(status: u16, body: Seq<u8>) -> Result<PairView, Seq<char>> {
    if status != 200 {
        Err("/pair HTTP "@ + decimal(status as nat))
    } else {
        pair_document(body)
    }
}

fn decode_field(flat: &Flat, name: &str) -> (r: Result<Option<Vec<u8>>, Error>)
    requires
        flat.wf(),
    ensures
        match hex_field(flat@.fields, name@) {
            Ok(v) => r matches Ok(w) && optional_bytes(w) == v,
            Err(t) => r matches Err(e) && is_protocol(e, t),
        },
{
    match flat.get(name) {
        Some(v) => match decode(v) {
            Ok(bytes) => Ok(Some(bytes)),
            Err(e) => {
                let mut text: String = copy_str("/pair ");
                text.append(name);
                text.append(": ");
                text.append(e.message().as_str());
                Err(Error::Protocol(text))
            },
        },
        None => Ok(None),
    }
}

/// The answer that an envelope holds.
pub fn pair_response_of(flat: &Flat) -> (r: Result<PairResponse, Error>)
    requires
        flat.wf(),
    ensures
        match pair_view(flat@) {
            Ok(v) => r matches Ok(p) && p@ == v,
            Err(t) => r matches Err(e) && is_protocol(e, t),
        },
{
    let plaincert = match decode_field(flat, "plaincert") {
        Ok(v) => v,
        Err(e) => {
            return Err(e);
        },
    };
    let challenge_response = match decode_field(flat, "challengeresponse") {
        Ok(v) => v,
        Err(e) => {
            return Err(e);
        },
    };
    let pairing_secret = match decode_field(flat, "pairingsecret") {
        Ok(v) => v,
        Err(e) => {
            return Err(e);
        },
    };
    let paired = match flat.get("paired") {
        Some(v) => same_chars(&chars_of(v), &chars_of("1")),
        None => false,
    };
    Ok(
        PairResponse {
            status_code: flat.status_code,
            paired,
            plaincert,
            challenge_response,
            pairing_secret,
        },
    )
}

/// Parse the envelope in which a host answers and decode its binary fields.
pub fn parse_pair_response(xml: &[u8]) -> (r: Result<PairResponse, Error>)
    ensures
        match pair_document(xml@) {
            Ok(v) => r matches Ok(p) && p@ == v,
            Err(t) => r matches Err(e) && is_protocol(e, t),
        },
{
    match parse_flat(xml) {
        Ok(flat) => pair_response_of(&flat),
        Err(e) => Err(e),
    }
}

/// The answer that an HTTP response holds.
pub fn pair_reply(status: u16, body: &[u8]) -> (r: Result<PairResponse, Error>)
    ensures
        match pair_reply_view(status, body@) {
            Ok(v) => r matches Ok(p) && p@ == v,
            Err(t) => r matches Err(e) && is_protocol(e, t),
        },
{
    if status != 200 {
        return Err(protocol2("/pair HTTP ", decimal_string(status as u64).as_str()));
    }
    parse_pair_response(body)
}

/// What an identity holds.
#[verifier::ext_equal]
pub struct IdentityView {
    pub unique_id: Seq<char>,
    pub device_name: Seq<char>,
    pub cert_pem: Seq<char>,
    pub key_pem: Seq<char>,
}

impl View for ClientIdentity {
    type V = IdentityView;

    open spec fn view(&self) -> IdentityView {
        IdentityView {
            unique_id: self.unique_id@,
            device_name: self.device_name@,
            cert_pem: self.cert_pem@,
            key_pem: self.key_pem@,
        }
    }
}

/// The request that sends the certificate and the salt.
pub open spec fn server_cert_path(id: IdentityView, salt: Seq<u8>) -> Seq<char> {
    "/pair?uniqueid="@ + id.unique_id + "&uuid="@ + id.unique_id + "&devicename="@ + id.device_name
        + "&updateState=1&phrase=getservercert&salt="@ + hex_text(salt, false) + "&clientcert="@
        + hex_text(encode_utf8(id.cert_pem), false)
}

/// A request that carries one blob.
pub open spec fn blob_path(id: IdentityView, name: Seq<char>, blob: Seq<u8>) -> Seq<char> {
    "/pair?uniqueid="@ + id.unique_id + name + hex_text(blob, false)
}

/// The request that sends a challenge.
pub open spec fn challenge_path(id: IdentityView, key: Seq<u8>, challenge: Seq<u8>) -> Seq<char> {
    blob_path(
        id,
        "&clientchallenge="@,
        ecb_encrypted(key, challenge, block_count(challenge)),
    )
}

/// The hash by which the client commits to its secret.
pub open spec fn commitment(server_challenge: Seq<u8>, cert_sig: Seq<u8>, secret: Seq<u8>) -> Seq<
    u8,
> {
    sha256_of(server_challenge + cert_sig + secret)
}

/// The request that commits to a secret, or the text of the error.
pub open spec fn commit_path(
    id: IdentityView,
    key: Seq<u8>,
    server_challenge: Seq<u8>,
    secret: Seq<u8>,
) -> Result<Seq<char>, Seq<char>> {
    match certificate_signature(encode_utf8(id.cert_pem)) {
        Err(why) => Err("parse cert: "@ + why),
        Ok(sig) => {
            let hash = commitment(server_challenge, sig, secret);
            Ok(blob_path(id, "&serverchallengeresp="@, ecb_encrypted(key, hash, block_count(hash))))
        },
    }
}

/// The request that reveals a secret with its signature, or the text of the error.
pub open spec fn reveal_path(id: IdentityView, secret: Seq<u8>) -> Result<Seq<char>, Seq<char>> {
    match p256_signature(id.key_pem, secret) {
        Err(why) => Err("load signing key: "@ + why),
        Ok(sig) => Ok(blob_path(id, "&clientpairingsecret="@, secret + sig)),
    }
}

/// The request that ends the pairing.
pub open spec fn final_path(id: IdentityView) -> Seq<char> {
    "/pair?uniqueid="@ + id.unique_id + "&phrase=pairchallenge"@
}

/// What the caller has to do next.
#[derive(Debug, Clone, Copy, PartialEq, Eq, Structural)]
pub enum LadderStage {
    /// Send the request for the certificate of the host.
    ServerCert,
    /// Supply random bytes for the challenge.
    DrawChallenge,
    /// Send the challenge.
    Challenge,
    /// Supply random bytes for the secret.
    DrawSecret,
    /// Send the commitment to the secret.
    Commit,
    /// Send the secret.
    Reveal,
    /// Nothing: the host trusts the certificate of the client.
    Finished,
}

/// A pairing under way.
pub struct PairingRun {
    stage: LadderStage,
    key: [u8; 16],
    path: String,
    server_cert: Vec<u8>,
    server_challenge: [u8; 16],
    client_secret: [u8; 16],
}

/// What a [`PairingRun`] holds.
#[verifier::ext_equal]
pub struct RunView {
    pub stage: LadderStage,
    /// The key derived from the salt and the PIN.
    pub key: Seq<u8>,
    /// The request to send.
    pub path: Seq<char>,
    pub server_cert: Seq<u8>,
    pub server_challenge: Seq<u8>,
    pub client_secret: Seq<u8>,
}

impl View for PairingRun {
    type V = RunView;

    closed spec fn view(&self) -> RunView {
        RunView {
            stage: self.stage,
            key: self.key@,
            path: self.path@,
            server_cert: self.server_cert@,
            server_challenge: self.server_challenge@,
            client_secret: self.client_secret@,
        }
    }
}

/// Sixteen zeros.
pub open spec fn zeros16() -> Seq<u8> {
    Seq::new(16, |i: int| 0u8)
}

/// The start of a pairing.
pub open spec fn run_start(id: IdentityView, salt: Seq<u8>, pin: Seq<char>) -> RunView {
    RunView {
        stage: LadderStage::ServerCert,
        key: sha256_of(salt + encode_utf8(pin)).take(16),
        path: server_cert_path(id, salt),
        server_cert: Seq::empty(),
        server_challenge: zeros16(),
        client_secret: zeros16(),
    }
}

/// The pairing after an answer, or the text of the error that ends it. An answer when none is
/// awaited changes nothing.
pub open spec fn after_answer(id: IdentityView, run: RunView, r: PairView) -> Result<
    RunView,
    Seq<char>,
> {
    match run.stage {
        LadderStage::ServerCert => if !r.paired {
            Err("getservercert: host returned paired=0 (cert rejected or pairing busy)"@)
        } else {
            match r.plaincert {
                None => Err("getservercert: no <plaincert> in response"@),
                Some(cert) => Ok(
                    RunView { stage: LadderStage::DrawChallenge, server_cert: cert, ..run },
                ),
            }
        },
        LadderStage::Challenge => if !r.paired {
            Err("clientchallenge: paired=0 (wrong PIN or PIN not entered on host)"@)
        } else {
            match r.challenge_response {
                None => Err("no <challengeresponse> in response"@),
                Some(response) => {
                    let dec = ecb_decrypted(run.key, response, response.len() / 16);
                    if response.len() / 16 < 3 {
                        Err(
                            "challengeresponse too short: "@ + decimal(16 * (response.len() / 16))
                                + " bytes (want 48)"@,
                        )
                    } else {
                        Ok(
                            RunView {
                                stage: LadderStage::DrawSecret,
                                server_challenge: dec.subrange(32, 48),
                                ..run
                            },
                        )
                    }
                },
            }
        },
        LadderStage::Commit => if !r.paired {
            Err("serverchallengeresp: paired=0 (challenge hash rejected)"@)
        } else if r.pairing_secret is None {
            Err("no <pairingsecret> in response"@)
        } else {
            match reveal_path(id, run.client_secret) {
                Err(t) => Err(t),
                Ok(path) => Ok(RunView { stage: LadderStage::Reveal, path, ..run }),
            }
        },
        LadderStage::Reveal => if !r.paired {
            Err("clientpairingsecret: paired=0 (signature or commitment rejected)"@)
        } else {
            Ok(RunView { stage: LadderStage::Finished, ..run })
        },
        _ => Ok(run),
    }
}

/// Whether a pairing awaits random bytes.
pub open spec fn awaits_draw(stage: LadderStage) -> bool {
    stage == LadderStage::DrawChallenge || stage == LadderStage::DrawSecret
}

/// The pairing after random bytes, or the text of the error that ends it. Bytes when none are
/// awaited change nothing.
pub open spec fn after_draw(id: IdentityView, run: RunView, fresh: Seq<u8>) -> Result<
    RunView,
    Seq<char>,
> {
    match run.stage {
        LadderStage::DrawChallenge => Ok(
            RunView {
                stage: LadderStage::Challenge,
                path: challenge_path(id, run.key, fresh),
                ..run
            },
        ),
        LadderStage::DrawSecret => match commit_path(id, run.key, run.server_challenge, fresh) {
            Err(t) => Err(t),
            Ok(path) => Ok(
                RunView { stage: LadderStage::Commit, path, client_secret: fresh, ..run },
            ),
        },
        _ => Ok(run),
    }
}

/// The requests of a pairing in which the host accepts every step: the third commits to the very
/// secret that the fourth reveals, the challenge that goes into the commitment is the one that
/// the host sent encrypted, and the certificate that comes out is that of the first answer.
pub proof fn law_pairing_exchange(
    id: IdentityView,
    salt: Seq<u8>,
    pin: Seq<char>,
    challenge: Seq<u8>,
    secret: Seq<u8>,
    first: PairView,
    second: PairView,
    third: PairView,
    fourth: PairView,
)
    requires
        first.paired && second.paired && third.paired && fourth.paired,
        first.plaincert is Some,
        second.challenge_response is Some,
        second.challenge_response->0.len() >= 48,
        third.pairing_secret is Some,
        certificate_signature(encode_utf8(id.cert_pem)) is Ok,
        p256_signature(id.key_pem, secret) is Ok,
    ensures
        ({
            let start = run_start(id, salt, pin);
            let drawing = after_answer(id, start, first)->Ok_0;
            let challenging = after_draw(id, drawing, challenge)->Ok_0;
            let answered = after_answer(id, challenging, second)->Ok_0;
            let committing = after_draw(id, answered, secret)->Ok_0;
            let revealing = after_answer(id, committing, third)->Ok_0;
            let done = after_answer(id, revealing, fourth);
            let key = sha256_of(salt + encode_utf8(pin)).take(16);
            let response = second.challenge_response->0;
            let server_challenge = ecb_decrypted(key, response, response.len() / 16).subrange(
                32,
                48,
            );
            let cert_sig = certificate_signature(encode_utf8(id.cert_pem))->Ok_0;
            let hash = commitment(server_challenge, cert_sig, secret);
            &&& start.path == server_cert_path(id, salt)
            &&& challenging.path == challenge_path(id, key, challenge)
            &&& committing.path == blob_path(
                id,
                "&serverchallengeresp="@,
                ecb_encrypted(key, hash, block_count(hash)),
            )
            &&& revealing.path == blob_path(
                id,
                "&clientpairingsecret="@,
                secret + p256_signature(id.key_pem, secret)->Ok_0,
            )
            &&& done is Ok
            &&& done->Ok_0.stage == LadderStage::Finished
            &&& done->Ok_0.server_cert == first.plaincert->0
        }),
{
}

impl PairingRun {
    /// What the caller has to do next.
    pub fn stage(&self) -> (r: LadderStage)
        ensures
            r == self@.stage,
    {
        self.stage
    }

    /// The request to send.
    pub fn path(&self) -> (r: &str)
        ensures
            r@ == self@.path,
    {
        self.path.as_str()
    }

    /// The certificate of the host, once the pairing is finished.
    pub fn into_server_cert(self) -> (r: Option<Vec<u8>>)
        ensures
            r is Some <==> self@.stage == LadderStage::Finished,
            r matches Some(cert) ==> cert@ == self@.server_cert,
    {
        match self.stage {
            LadderStage::Finished => Some(self.server_cert),
            _ => None,
        }
    }
}

impl PairingClient {
    /// A client that waits up to ten seconds for the host.
    pub fn new(host: &str, http_port: u16, identity: ClientIdentity) -> (r: Self)
        ensures
            r.host@ == host@,
            r.http_port == http_port,
            r.identity == identity,
            r.timeout == span_of_seconds(10),
    {
        PairingClient {
            host: copy_str(host),
            http_port,
            identity,
            timeout: seconds(10),
        }
    }

    fn blob_request(&self, name: &str, blob: &[u8]) -> (r: String)
        ensures
            r@ == blob_path(self.identity@, name@, blob@),
    {
        let mut s: String = copy_str("/pair?uniqueid=");
        s.append(self.identity.unique_id.as_str());
        s.append(name);
        s.append(encode(blob).as_str());
        s
    }

    /// The first request: our certificate and the salt, for the certificate of the host.
    pub fn get_server_cert(&self, salt: &[u8; 16]) -> (r: String)
        ensures
            r@ == server_cert_path(self.identity@, salt@),
    {
        let mut s: String = copy_str("/pair?uniqueid=");
        s.append(self.identity.unique_id.as_str());
        s.append("&uuid=");
        s.append(self.identity.unique_id.as_str());
        s.append("&devicename=");
        s.append(self.identity.device_name.as_str());
        s.append("&updateState=1&phrase=getservercert&salt=");
        s.append(encode(salt).as_str());
        s.append("&clientcert=");
        s.append(encode(self.identity.cert_pem.as_str().as_bytes()).as_str());
        s
    }

    /// The second request: a challenge, encrypted with the key that the PIN yields.
    pub fn client_challenge(&self, key: &[u8; 16], challenge: &[u8; 16]) -> (r: String)
        ensures
            r@ == challenge_path(self.identity@, key@, challenge@),
    {
        let enc: Vec<u8> = aes_ecb_encrypt(key, challenge);
        self.blob_request("&clientchallenge=", &enc)
    }

    /// The third request: a commitment to our secret.
    pub fn server_challenge_resp(
        &self,
        key: &[u8; 16],
        server_challenge: &[u8; 16],
        client_secret: &[u8; 16],
    ) -> (r: Result<String, Error>)
        ensures
            match commit_path(self.identity@, key@, server_challenge@, client_secret@) {
                Ok(path) => r matches Ok(s) && s@ == path,
                Err(t) => r matches Err(e) && is_protocol(e, t),
            },
    {
        let sig: Vec<u8> = match self.identity.cert_signature() {
            Ok(sig) => sig,
            Err(e) => {
                return Err(e);
            },
        };
        let list: [&[u8]; 3] = [server_challenge, &sig, client_secret];
        proof {
            reveal_with_fuel(concatenated, 4);
            assert(concatenated(list@, 3) =~= server_challenge@ + sig@ + client_secret@);
        }
        let hash: [u8; 32] = sha256(&list);
        let enc: Vec<u8> = aes_ecb_encrypt(key, &hash);
        Ok(self.blob_request("&serverchallengeresp=", &enc))
    }

    /// The fourth request: our secret and its signature.
    pub fn client_pairing_secret(&self, client_secret: &[u8; 16]) -> (r: Result<String, Error>)
        ensures
            match reveal_path(self.identity@, client_secret@) {
                Ok(path) => r matches Ok(s) && s@ == path,
                Err(t) => r matches Err(e) && is_protocol(e, t),
            },
    {
        match self.identity.sign(client_secret) {
            Ok(signature) => {
                let mut blob: Vec<u8> = Vec::new();
                push_slice(&mut blob, client_secret);
                push_slice(&mut blob, &signature);
                assert(blob@ =~= client_secret@ + signature@);
                Ok(self.blob_request("&clientpairingsecret=", &blob))
            },
            Err(e) => Err(e),
        }
    }

    /// The fifth request, over TLS with our certificate.
    pub fn pair_challenge(&self) -> (r: String)
        ensures
            r@ == final_path(self.identity@),
    {
        let mut s: String = copy_str("/pair?uniqueid=");
        s.append(self.identity.unique_id.as_str());
        s.append("&phrase=pairchallenge");
        s
    }

    /// Take the answer to the fifth request.
    pub fn pair_challenge_answer(status: u16, body: &[u8]) -> (r: Result<(), Error>)
        ensures
            if status != 200 {
                r matches Err(e) && is_protocol(
                    e,
                    "pairchallenge HTTP "@ + decimal(status as nat),
                )
            } else {
                match pair_document(body@) {
                    Err(t) => r matches Err(e) && is_protocol(e, t),
                    Ok(v) => if v.paired {
                        r is Ok
                    } else {
                        r matches Err(e) && is_protocol(
                            e,
                            "pairchallenge: paired=0 (mTLS finalization rejected)"@,
                        )
                    },
                }
            },
    {
        if status != 200 {
            return Err(protocol2("pairchallenge HTTP ", decimal_string(status as u64).as_str()));
        }
        match parse_pair_response(body) {
            Err(e) => Err(e),
            Ok(r) => PairingClient::finalized(&r),
        }
    }

    /// Whether the host has ended the pairing.
    pub fn finalized(answer: &PairResponse) -> (r: Result<(), Error>)
        ensures
            answer.paired ==> r is Ok,
            !answer.paired ==> (r matches Err(e) && is_protocol(
                e,
                "pairchallenge: paired=0 (mTLS finalization rejected)"@,
            )),
    {
        if answer.paired {
            Ok(())
        } else {
            Err(protocol("pairchallenge: paired=0 (mTLS finalization rejected)"))
        }
    }

    /// Begin to pair. The first request is answered once the PIN has been entered on the host.
    pub fn pair(&self, salt: &[u8; 16], pin: &str) -> (r: PairingRun)
        ensures
            r@ == run_start(self.identity@, salt@, pin@),
    {
        let zeros = [0u8;16];
        assert(zeros@ =~= zeros16());
        PairingRun {
            stage: LadderStage::ServerCert,
            key: pin_key(salt, pin),
            path: self.get_server_cert(salt),
            server_cert: Vec::new(),
            server_challenge: zeros,
            client_secret: zeros,
        }
    }

    /// Take the HTTP response to the request of a pairing.
    pub fn on_reply(&self, run: &mut PairingRun, status: u16, body: &[u8]) -> (r: Result<
        (),
        Error,
    >)
        ensures
            match pair_reply_view(status, body@) {
                Err(t) => (r matches Err(e) && is_protocol(e, t)) && final(run)@ == old(run)@,
                Ok(v) => match after_answer(self.identity@, old(run)@, v) {
                    Ok(next) => r is Ok && final(run)@ == next,
                    Err(t) => (r matches Err(e) && is_protocol(e, t)) && final(run)@ == old(
                        run,
                    )@,
                },
            },
    {
        match pair_reply(status, body) {
            Ok(answer) => self.on_answer(run, answer),
            Err(e) => Err(e),
        }
    }

    /// Take the answer of the host.
    pub fn on_answer(&self, run: &mut PairingRun, answer: PairResponse) -> (r: Result<(), Error>)
        ensures
            match after_answer(self.identity@, old(run)@, answer@) {
                Ok(next) => r is Ok && final(run)@ == next,
                Err(t) => (r matches Err(e) && is_protocol(e, t)) && final(run)@ == old(run)@,
            },
    {
        match run.stage {
            LadderStage::ServerCert => {
                if !answer.paired {
                    return Err(
                        protocol(
                            "getservercert: host returned paired=0 (cert rejected or pairing busy)",
                        ),
                    );
                }
                match answer.plaincert {
                    Some(cert) => {
                        run.server_cert = cert;
                        run.stage = LadderStage::DrawChallenge;
                        Ok(())
                    },
                    None => Err(protocol("getservercert: no <plaincert> in response")),
                }
            },
            LadderStage::Challenge => {
                if !answer.paired {
                    return Err(
                        protocol(
                            "clientchallenge: paired=0 (wrong PIN or PIN not entered on host)",
                        ),
                    );
                }
                match answer.challenge_response {
                    Some(response) => {
                        let dec: Vec<u8> = aes_ecb_decrypt(&run.key, &response);
                        if dec.len() < 48 {
                            return Err(
                                protocol3(
                                    "challengeresponse too short: ",
                                    decimal_string(dec.len() as u64).as_str(),
                                    " bytes (want 48)",
                                ),
                            );
                        }
                        run.server_challenge = take16(&dec, 32);
                        run.stage = LadderStage::DrawSecret;
                        Ok(())
                    },
                    None => Err(protocol("no <challengeresponse> in response")),
                }
            },
            LadderStage::Commit => {
                if !answer.paired {
                    return Err(
                        protocol("serverchallengeresp: paired=0 (challenge hash rejected)"),
                    );
                }
                if answer.pairing_secret.is_none() {
                    return Err(protocol("no <pairingsecret> in response"));
                }
                match self.client_pairing_secret(&run.client_secret) {
                    Ok(path) => {
                        run.path = path;
                        run.stage = LadderStage::Reveal;
                        Ok(())
                    },
                    Err(e) => Err(e),
                }
            },
            LadderStage::Reveal => {
                if !answer.paired {
                    return Err(
                        protocol(
                            "clientpairingsecret: paired=0 (signature or commitment rejected)",
                        ),
                    );
                }
                run.stage = LadderStage::Finished;
                Ok(())
            },
            _ => Ok(()),
        }
    }

    /// Draw the random bytes that a pairing awaits. Where it awaits none, none are drawn and
    /// nothing changes. The error is that of the random number generator, or the one that the
    /// bytes it gave end the pairing with.
    pub fn draw(&self, run: &mut PairingRun) -> (r: Result<(), Error>)
        ensures
            !awaits_draw(old(run)@.stage) ==> r is Ok && final(run)@ == old(run)@,
            r is Ok ==> exists|fresh: Seq<u8>|
                fresh.len() == 16 && #[trigger] after_draw(self.identity@, old(run)@, fresh)
                    == Ok::<RunView, Seq<char>>(final(run)@),
            r matches Err(e) ==> final(run)@ == old(run)@ && {
                ||| exists|why: Seq<char>| #[trigger] is_protocol(e, "OS RNG: "@ + why)
                ||| exists|fresh: Seq<u8>|
                    fresh.len() == 16 && (#[trigger] after_draw(self.identity@, old(run)@, fresh)
                        matches Err(t) && is_protocol(e, t))
            },
    {
        match run.stage {
            LadderStage::DrawChallenge | LadderStage::DrawSecret => {},
            _ => {
                let ghost unused = Seq::new(16, |i: int| 0u8);
                assert(after_draw(self.identity@, run@, unused) == Ok::<RunView, Seq<char>>(run@));
                return Ok(());
            },
        }
        match random_bytes::<16>() {
            Ok(fresh) => {
                let r = self.on_draw(run, &fresh);
                assert(fresh@.len() == 16);
                assert(r is Ok ==> after_draw(self.identity@, old(run)@, fresh@) == Ok::<
                    RunView,
                    Seq<char>,
                >(run@));
                r
            },
            Err(e) => Err(e),
        }
    }

    /// Take the random bytes that a pairing awaits.
    pub fn on_draw(&self, run: &mut PairingRun, fresh: &[u8; 16]) -> (r: Result<(), Error>)
        ensures
            match after_draw(self.identity@, old(run)@, fresh@) {
                Ok(next) => r is Ok && final(run)@ == next,
                Err(t) => (r matches Err(e) && is_protocol(e, t)) && final(run)@ == old(run)@,
            },
    {
        match run.stage {
            LadderStage::DrawChallenge => {
                run.path = self.client_challenge(&run.key, fresh);
                run.stage = LadderStage::Challenge;
                Ok(())
            },
            LadderStage::DrawSecret => {
                match self.server_challenge_resp(&run.key, &run.server_challenge, fresh) {
                    Ok(path) => {
                        run.path = path;
                        run.client_secret = *fresh;
                        run.stage = LadderStage::Commit;
                        Ok(())
                    },
                    Err(e) => Err(e),
                }
            },
            _ => Ok(()),
        }
    }
}

/// The span of a number of seconds.
pub uninterp spec fn span_of_seconds(n: u64) -> Duration;

/// The span of a number of seconds, by `Duration::from_secs`. The span is named; it is only
/// carried along.
#[verifier::external_body]
fn seconds(n: u64) -> (r: Duration)
    ensures
        r == span_of_seconds(n),
{
    Duration::from_secs(n)
}

} // verus!
