//! A pairing as the host sees it: what its requests say, and when it comes to an end.
use vstd::prelude::*;
use vstd::string::*;
use vstd::utf8::encode_utf8;

use crate::hex::{hex_decoded, hex_text, law_decode_of_encode, HexError};
use crate::pairing::crypto::{block_count, ecb_decrypted, ecb_encrypted, sha256_of};
use crate::pairing::identity::{certificate_signature, p256_signature};
use crate::pairing::ladder::{
    after_answer, after_draw, challenge_path, commit_path, final_path, pair_reply_view,
    pair_view, reveal_path, run_start, server_cert_path, IdentityView, LadderStage, PairView,
    RunView,
};
use crate::query::{
    are_parts, asks, differ, endpoint, is_part, joined_from, lemma_hex_part, lemma_part_pair,
    lemma_request, lemma_values, parameters,
};
use crate::xml::FlatView;

verus! {

/// Whether a pairing awaits an answer of the host.
pub open spec fn awaits_answer(stage: LadderStage) -> bool {
    stage != LadderStage::DrawChallenge && stage != LadderStage::DrawSecret && stage
        != LadderStage::Finished
}

/// A host that does not say that the client is paired ends the pairing, at whichever request.
pub proof fn law_refused_answer(id: IdentityView, run: RunView, answer: PairView)
    requires
        awaits_answer(run.stage),
        !answer.paired,
    ensures
        after_answer(id, run, answer) is Err,
{
}

/// What can happen to a pairing.
pub enum PairingEvent {
    /// The host answers.
    Answer(PairView),
    /// Random bytes are drawn.
    Draw(Seq<u8>),
}

/// The pairing after the first `n` events. An error leaves it as it was.
pub open spec fn after_pairing_events(
    id: IdentityView,
    start: RunView,
    events: Seq<PairingEvent>,
    n: nat,
) -> RunView
    decreases n,
{
    if n == 0 {
        start
    } else {
        let run = after_pairing_events(id, start, events, (n - 1) as nat);
        let next = match events[n - 1] {
            PairingEvent::Answer(answer) => after_answer(id, run, answer),
            PairingEvent::Draw(fresh) => after_draw(id, run, fresh),
        };
        match next {
            Ok(run) => run,
            Err(_) => run,
        }
    }
}

/// How many of the first `n` events are answers that say that the client is paired.
pub open spec fn acceptances(events: Seq<PairingEvent>, n: nat) -> nat
    decreases n,
{
    if n == 0 {
        0
    } else {
        acceptances(events, (n - 1) as nat) + match events[n - 1] {
            PairingEvent::Answer(answer) => if answer.paired {
                1nat
            } else {
                0nat
            },
            PairingEvent::Draw(_) => 0nat,
        }
    }
}

/// How many draws are among the first `n` events.
pub open spec fn draws(events: Seq<PairingEvent>, n: nat) -> nat
    decreases n,
{
    if n == 0 {
        0
    } else {
        draws(events, (n - 1) as nat) + match events[n - 1] {
            PairingEvent::Answer(_) => 0nat,
            PairingEvent::Draw(_) => 1nat,
        }
    }
}

/// How many answers a stage comes after.
spec fn answers_before(stage: LadderStage) -> nat {
    match stage {
        LadderStage::ServerCert => 0,
        LadderStage::DrawChallenge => 1,
        LadderStage::Challenge => 1,
        LadderStage::DrawSecret => 2,
        LadderStage::Commit => 2,
        LadderStage::Reveal => 3,
        LadderStage::Finished => 4,
    }
}

/// How many draws a stage comes after.
spec fn draws_before(stage: LadderStage) -> nat {
    match stage {
        LadderStage::ServerCert => 0,
        LadderStage::DrawChallenge => 0,
        LadderStage::Challenge => 1,
        LadderStage::DrawSecret => 1,
        LadderStage::Commit => 2,
        LadderStage::Reveal => 2,
        LadderStage::Finished => 2,
    }
}

/// A pairing is finished only after the host has said four times that the client is paired, once
/// to each request, and after a challenge and a secret were drawn. The certificate that comes of
/// it is one that an accepting answer of the host carried.
pub proof fn law_finished_pairing(
    id: IdentityView,
    salt: Seq<u8>,
    pin: Seq<char>,
    events: Seq<PairingEvent>,
)
    requires
        after_pairing_events(id, run_start(id, salt, pin), events, events.len()).stage
            == LadderStage::Finished,
    ensures
        acceptances(events, events.len()) >= 4,
        draws(events, events.len()) >= 2,
        exists|i: int|
            0 <= i < events.len() && (#[trigger] events[i] matches PairingEvent::Answer(a)
                && a.paired && a.plaincert == Some(
                after_pairing_events(id, run_start(id, salt, pin), events, events.len()).server_cert,
            )),
{
    lemma_progress(id, run_start(id, salt, pin), events, events.len());
}

proof fn lemma_progress(id: IdentityView, start: RunView, events: Seq<PairingEvent>, n: nat)
    requires
        start.stage == LadderStage::ServerCert,
        n <= events.len(),
    ensures
        ({
            let run = after_pairing_events(id, start, events, n);
            &&& acceptances(events, n) >= answers_before(run.stage)
            &&& draws(events, n) >= draws_before(run.stage)
            &&& run.stage == LadderStage::ServerCert || exists|i: int|
                0 <= i < n && (#[trigger] events[i] matches PairingEvent::Answer(a) && a.paired
                    && a.plaincert == Some(run.server_cert))
        }),
    decreases n,
{
    if n > 0 {
        let m = (n - 1) as nat;
        lemma_progress(id, start, events, m);
        let before = after_pairing_events(id, start, events, m);
        let run = after_pairing_events(id, start, events, n);
        if before.stage != LadderStage::ServerCert {
            let i = choose|i: int|
                0 <= i < m && (#[trigger] events[i] matches PairingEvent::Answer(a) && a.paired
                    && a.plaincert == Some(before.server_cert));
            assert(run.server_cert == before.server_cert);
            assert(events[i] matches PairingEvent::Answer(a) && a.paired && a.plaincert == Some(
                run.server_cert,
            ));
        } else if run.stage != LadderStage::ServerCert {
            assert(events[m as int] matches PairingEvent::Answer(a) && a.paired && a.plaincert
                == Some(run.server_cert));
        }
    }
}

/// Whether a request to pair says who asks.
pub open spec fn is_from(path: Seq<char>, id: IdentityView) -> bool {
    endpoint(path) == "/pair"@ && asks(path, "uniqueid="@, id.unique_id)
}

/// Whether a parameter of a request spells bytes in hexadecimal.
pub open spec fn asks_bytes(path: Seq<char>, name: Seq<char>, b: Seq<u8>) -> bool {
    exists|t: Seq<char>|
        #[trigger] asks(path, name, t) && hex_decoded(t) == Ok::<Seq<u8>, HexError>(b)
}

proof fn lemma_asks_bytes(path: Seq<char>, name: Seq<char>, b: Seq<u8>)
    requires
        asks(path, name, hex_text(b, false)),
    ensures
        asks_bytes(path, name, b),
{
    let none = Seq::<char>::empty();
    law_decode_of_encode(b, false, none, none);
    assert(none + hex_text(b, false) + none =~= hex_text(b, false));
}

/// The first request names the client and its device and carries the salt and the certificate.
/// Neither name holds an ampersand.
#[verifier::spinoff_prover]
#[verifier::rlimit(60)]
pub proof fn law_first_request(id: IdentityView, salt: Seq<u8>)
    requires
        is_part(id.unique_id),
        is_part(id.device_name),
    ensures
        ({
            let path = server_cert_path(id, salt);
            &&& is_from(path, id)
            &&& asks(path, "uuid="@, id.unique_id)
            &&& asks(path, "devicename="@, id.device_name)
            &&& asks(path, "updateState="@, "1"@)
            &&& asks(path, "phrase="@, "getservercert"@)
            &&& asks_bytes(path, "salt="@, salt)
            &&& asks_bytes(path, "clientcert="@, encode_utf8(id.cert_pem))
        }),
{
    let path = server_cert_path(id, salt);
    let cert = encode_utf8(id.cert_pem);
    let l = seq![
        "uniqueid="@ + id.unique_id,
        "uuid="@ + id.unique_id,
        "devicename="@ + id.device_name,
        "updateState="@ + "1"@,
        "phrase="@ + "getservercert"@,
        "salt="@ + hex_text(salt, false),
        "clientcert="@ + hex_text(cert, false),
    ];
    reveal_strlit("/pair");
    reveal_strlit("/pair?uniqueid=");
    reveal_strlit("uniqueid=");
    reveal_strlit("&uuid=");
    reveal_strlit("uuid=");
    reveal_strlit("&devicename=");
    reveal_strlit("devicename=");
    reveal_strlit("&updateState=1&phrase=getservercert&salt=");
    reveal_strlit("updateState=");
    reveal_strlit("1");
    reveal_strlit("phrase=");
    reveal_strlit("getservercert");
    reveal_strlit("salt=");
    reveal_strlit("&clientcert=");
    reveal_strlit("clientcert=");
    lemma_first_path(id, salt, l);
    assert(are_parts(l, 7)) by {
        reveal_with_fuel(are_parts, 8);
        lemma_hex_part(salt);
        lemma_hex_part(cert);
        lemma_part_pair("uniqueid="@, id.unique_id);
        lemma_part_pair("uuid="@, id.unique_id);
        lemma_part_pair("devicename="@, id.device_name);
        lemma_part_pair("updateState="@, "1"@);
        lemma_part_pair("phrase="@, "getservercert"@);
        lemma_part_pair("salt="@, hex_text(salt, false));
        lemma_part_pair("clientcert="@, hex_text(cert, false));
    }
    lemma_request(path, "/pair"@, l);
    reveal_with_fuel(differ, 8);
    lemma_values(l, 0, "uniqueid="@, id.unique_id, 0, 1);
    lemma_values(l, 1, "uuid="@, id.unique_id, 0, 1);
    lemma_values(l, 2, "devicename="@, id.device_name, 0, 0);
    lemma_values(l, 3, "updateState="@, "1"@, 0, 1);
    lemma_values(l, 4, "phrase="@, "getservercert"@, 0, 0);
    lemma_values(l, 5, "salt="@, hex_text(salt, false), 0, 0);
    lemma_values(l, 6, "clientcert="@, hex_text(cert, false), 0, 0);
    lemma_asks_bytes(path, "salt="@, salt);
    lemma_asks_bytes(path, "clientcert="@, cert);
}

/// How the first request is put together.
#[verifier::spinoff_prover]
#[verifier::rlimit(60)]
proof fn lemma_first_path(id: IdentityView, salt: Seq<u8>, l: Seq<Seq<char>>)
    requires
        l == seq![
            "uniqueid="@ + id.unique_id,
            "uuid="@ + id.unique_id,
            "devicename="@ + id.device_name,
            "updateState="@ + "1"@,
            "phrase="@ + "getservercert"@,
            "salt="@ + hex_text(salt, false),
            "clientcert="@ + hex_text(encode_utf8(id.cert_pem), false),
        ],
    ensures
        server_cert_path(id, salt) == "/pair"@ + (seq!['?'] + joined_from(l, 0)),
{
    let amp = seq!['&'];
    assert("/pair?uniqueid="@ =~= "/pair"@ + (seq!['?'] + "uniqueid="@)) by {
        reveal_strlit("/pair?uniqueid=");
        reveal_strlit("/pair");
        reveal_strlit("uniqueid=");
    }
    assert("&uuid="@ =~= amp + "uuid="@) by {
        reveal_strlit("&uuid=");
        reveal_strlit("uuid=");
    }
    assert("&devicename="@ =~= amp + "devicename="@) by {
        reveal_strlit("&devicename=");
        reveal_strlit("devicename=");
    }
    let middle = amp + ("updateState="@ + "1"@) + amp + ("phrase="@ + "getservercert"@) + amp
        + "salt="@;
    assert("&updateState=1&phrase=getservercert&salt="@ =~= middle) by {
        reveal_strlit("&updateState=1&phrase=getservercert&salt=");
        reveal_strlit("updateState=");
        reveal_strlit("1");
        reveal_strlit("phrase=");
        reveal_strlit("getservercert");
        reveal_strlit("salt=");
    }
    assert("&clientcert="@ =~= amp + "clientcert="@) by {
        reveal_strlit("&clientcert=");
        reveal_strlit("clientcert=");
    }
    reveal_with_fuel(joined_from, 8);
    let (h1, h2) = (hex_text(salt, false), hex_text(encode_utf8(id.cert_pem), false));
    let j6 = joined_from(l, 6);
    let j5 = joined_from(l, 5);
    let j3 = joined_from(l, 3);
    let j2 = joined_from(l, 2);
    let j1 = joined_from(l, 1);
    assert(h1 + "&clientcert="@ + h2 =~= h1 + (amp + j6));
    assert(j5 =~= "salt="@ + (h1 + (amp + j6)));
    assert("&updateState=1&phrase=getservercert&salt="@ + (h1 + (amp + j6)) =~= amp + j3);
    assert("&devicename="@ + id.device_name + (amp + j3) =~= amp + j2);
    assert("&uuid="@ + id.unique_id + (amp + j2) =~= amp + j1);
    let path = server_cert_path(id, salt);
    let p2 = "/pair?uniqueid="@ + id.unique_id + "&uuid="@ + id.unique_id + "&devicename="@
        + id.device_name;
    assert(path =~= p2 + ("&updateState=1&phrase=getservercert&salt="@ + (h1 + (amp + j6))));
    let p1 = "/pair?uniqueid="@ + id.unique_id + "&uuid="@ + id.unique_id;
    assert(p2 + (amp + j3) =~= p1 + ("&devicename="@ + id.device_name + (amp + j3)));
    let p0 = "/pair?uniqueid="@ + id.unique_id;
    assert(p1 + (amp + j2) =~= p0 + ("&uuid="@ + id.unique_id + (amp + j2)));
    assert(p0 + (amp + j1) =~= "/pair"@ + (seq!['?'] + joined_from(l, 0)));
}

/// A request that carries one blob, under a name whose first letter is not that of another
/// parameter.
proof fn lemma_blob_request(
    id: IdentityView,
    name: Seq<char>,
    blob: Seq<u8>,
    path: Seq<char>,
)
    requires
        is_part(id.unique_id),
        is_part(name),
        name.len() > 0,
        name[0] != 'u',
        path == "/pair?uniqueid="@ + id.unique_id + (seq!['&'] + name) + hex_text(blob, false),
    ensures
        is_from(path, id),
        asks_bytes(path, name, blob),
        parameters(path).len() == 2,
{
    let l = seq!["uniqueid="@ + id.unique_id, name + hex_text(blob, false)];
    reveal_strlit("/pair");
    reveal_strlit("/pair?uniqueid=");
    reveal_strlit("uniqueid=");
    assert("/pair?uniqueid="@ =~= "/pair"@ + (seq!['?'] + "uniqueid="@));
    reveal_with_fuel(joined_from, 3);
    reveal_with_fuel(are_parts, 3);
    reveal_with_fuel(differ, 3);
    lemma_hex_part(blob);
    lemma_part_pair("uniqueid="@, id.unique_id);
    lemma_part_pair(name, hex_text(blob, false));
    assert(path =~= "/pair"@ + (seq!['?'] + joined_from(l, 0)));
    lemma_request(path, "/pair"@, l);
    lemma_values(l, 0, "uniqueid="@, id.unique_id, 0, 0);
    lemma_values(l, 1, name, hex_text(blob, false), 0, 0);
    lemma_asks_bytes(path, name, blob);
}

/// The second request carries the challenge, encrypted with the key.
pub proof fn law_challenge_request(id: IdentityView, key: Seq<u8>, challenge: Seq<u8>)
    requires
        is_part(id.unique_id),
    ensures
        ({
            let path = challenge_path(id, key, challenge);
            &&& is_from(path, id)
            &&& asks_bytes(
                path,
                "clientchallenge="@,
                ecb_encrypted(key, challenge, (challenge.len() + 15) / 16),
            )
        }),
{
    reveal_strlit("&clientchallenge=");
    reveal_strlit("clientchallenge=");
    assert("&clientchallenge="@ =~= seq!['&'] + "clientchallenge="@);
    let blob = ecb_encrypted(key, challenge, block_count(challenge));
    lemma_blob_request(id, "clientchallenge="@, blob, challenge_path(id, key, challenge));
}

/// The third request carries, encrypted with the key, the hash of the host's challenge, of the
/// signature of the client's certificate and of the secret, in this order.
pub proof fn law_commit_request(
    id: IdentityView,
    key: Seq<u8>,
    server_challenge: Seq<u8>,
    secret: Seq<u8>,
    signature: Seq<u8>,
)
    requires
        is_part(id.unique_id),
        certificate_signature(encode_utf8(id.cert_pem)) == Ok::<Seq<u8>, Seq<char>>(signature),
    ensures
        ({
            let hash = sha256_of(server_challenge + signature + secret);
            &&& commit_path(id, key, server_challenge, secret) is Ok
            &&& is_from(commit_path(id, key, server_challenge, secret)->Ok_0, id)
            &&& asks_bytes(
                commit_path(id, key, server_challenge, secret)->Ok_0,
                "serverchallengeresp="@,
                ecb_encrypted(key, hash, (hash.len() + 15) / 16),
            )
        }),
{
    reveal_strlit("&serverchallengeresp=");
    reveal_strlit("serverchallengeresp=");
    assert("&serverchallengeresp="@ =~= seq!['&'] + "serverchallengeresp="@);
    let hash = sha256_of(server_challenge + signature + secret);
    lemma_blob_request(
        id,
        "serverchallengeresp="@,
        ecb_encrypted(key, hash, block_count(hash)),
        commit_path(id, key, server_challenge, secret)->Ok_0,
    );
}

/// The fourth request carries the secret and, behind it, its signature under the client's key.
pub proof fn law_reveal_request(id: IdentityView, secret: Seq<u8>, signature: Seq<u8>)
    requires
        is_part(id.unique_id),
        p256_signature(id.key_pem, secret) == Ok::<Seq<u8>, Seq<char>>(signature),
    ensures
        reveal_path(id, secret) is Ok,
        is_from(reveal_path(id, secret)->Ok_0, id),
        asks_bytes(reveal_path(id, secret)->Ok_0, "clientpairingsecret="@, secret + signature),
{
    reveal_strlit("&clientpairingsecret=");
    reveal_strlit("clientpairingsecret=");
    assert("&clientpairingsecret="@ =~= seq!['&'] + "clientpairingsecret="@);
    lemma_blob_request(
        id,
        "clientpairingsecret="@,
        secret + signature,
        reveal_path(id, secret)->Ok_0,
    );
}

/// The last request asks for the final step.
pub proof fn law_final_request(id: IdentityView)
    requires
        is_part(id.unique_id),
    ensures
        is_from(final_path(id), id),
        asks(final_path(id), "phrase="@, "pairchallenge"@),
{
    let path = final_path(id);
    let l = seq!["uniqueid="@ + id.unique_id, "phrase="@ + "pairchallenge"@];
    reveal_strlit("/pair");
    reveal_strlit("/pair?uniqueid=");
    reveal_strlit("uniqueid=");
    reveal_strlit("phrase=");
    reveal_strlit("pairchallenge");
    reveal_strlit("&phrase=pairchallenge");
    assert("/pair?uniqueid="@ =~= "/pair"@ + (seq!['?'] + "uniqueid="@));
    assert("&phrase=pairchallenge"@ =~= seq!['&'] + ("phrase="@ + "pairchallenge"@));
    reveal_with_fuel(joined_from, 3);
    reveal_with_fuel(are_parts, 3);
    reveal_with_fuel(differ, 3);
    lemma_part_pair("uniqueid="@, id.unique_id);
    lemma_part_pair("phrase="@, "pairchallenge"@);
    assert(path =~= "/pair"@ + (seq!['?'] + joined_from(l, 0)));
    lemma_request(path, "/pair"@, l);
    lemma_values(l, 0, "uniqueid="@, id.unique_id, 0, 0);
    lemma_values(l, 1, "phrase="@, "pairchallenge"@, 0, 0);
}

/// The host's challenge is the third block of what its answer decrypts to under the key that salt
/// and PIN make, and the secret is committed to with it.
pub proof fn law_host_challenge(id: IdentityView, run: RunView, answer: PairView, response: Seq<u8>)
    requires
        run.stage == LadderStage::Challenge,
        answer.paired,
        answer.challenge_response == Some(response),
    ensures
        after_answer(id, run, answer) is Ok <==> response.len() >= 48,
        after_answer(id, run, answer) matches Ok(next) ==> {
            &&& next.stage == LadderStage::DrawSecret
            &&& next.server_challenge == ecb_decrypted(
                run.key,
                response,
                response.len() / 16,
            ).subrange(32, 48)
            &&& next.key == run.key
        },
{
}

/// The bytes in an answer are those that its leaves of these names spell, and the client is paired
/// exactly if the leaf of that name is the digit one.
pub proof fn law_answer(flat: FlatView, cert: Seq<u8>, response: Seq<u8>, secret: Seq<u8>)
    requires
        flat.fields.contains_key("plaincert"@),
        flat.fields["plaincert"@] == hex_text(cert, false),
        flat.fields.contains_key("challengeresponse"@),
        flat.fields["challengeresponse"@] == hex_text(response, false),
        flat.fields.contains_key("pairingsecret"@),
        flat.fields["pairingsecret"@] == hex_text(secret, false),
    ensures
        pair_view(flat) matches Ok(answer) && {
            &&& answer.plaincert == Some(cert)
            &&& answer.challenge_response == Some(response)
            &&& answer.pairing_secret == Some(secret)
            &&& answer.paired <==> flat.fields.contains_key("paired"@) && flat.fields["paired"@]
                == seq!['1']
        },
{
    let none = Seq::<char>::empty();
    law_decode_of_encode(cert, false, none, none);
    law_decode_of_encode(response, false, none, none);
    law_decode_of_encode(secret, false, none, none);
    assert(none + hex_text(cert, false) + none =~= hex_text(cert, false));
    assert(none + hex_text(response, false) + none =~= hex_text(response, false));
    assert(none + hex_text(secret, false) + none =~= hex_text(secret, false));
    reveal_strlit("1");
    assert("1"@ =~= seq!['1']);
}

/// A reply with a status other than 200 is no answer, whatever it carries.
pub proof fn law_failed_reply(status: u16, body: Seq<u8>)
    requires
        status != 200,
    ensures
        pair_reply_view(status, body) is Err,
{
}

/// An answer of the host is read from its leaves: the bytes that each spells, and whether it says
/// that the client is paired, which only the digit one does.
pub proof fn law_answer_fields(
    flat: FlatView,
    plaincert: Seq<u8>,
    response: Seq<u8>,
    secret: Seq<u8>,
)
    requires
        flat.fields.contains_key("plaincert"@) && flat.fields["plaincert"@] == hex_text(
            plaincert,
            false,
        ),
        flat.fields.contains_key("challengeresponse"@) && flat.fields["challengeresponse"@]
            == hex_text(response, false),
        flat.fields.contains_key("pairingsecret"@) && flat.fields["pairingsecret"@] == hex_text(
            secret,
            false,
        ),
    ensures
        pair_view(flat) matches Ok(answer) && {
            &&& answer.plaincert == Some(plaincert)
            &&& answer.challenge_response == Some(response)
            &&& answer.pairing_secret == Some(secret)
            &&& answer.status_code == flat.status_code
            &&& answer.paired <==> flat.fields.contains_key("paired"@) && flat.fields["paired"@].len()
                == 1 && flat.fields["paired"@][0] == '1'
        },
{
    let none = Seq::<char>::empty();
    law_decode_of_encode(plaincert, false, none, none);
    law_decode_of_encode(response, false, none, none);
    law_decode_of_encode(secret, false, none, none);
    assert(none + hex_text(plaincert, false) + none =~= hex_text(plaincert, false));
    assert(none + hex_text(response, false) + none =~= hex_text(response, false));
    assert(none + hex_text(secret, false) + none =~= hex_text(secret, false));
    reveal_strlit("1");
    assert("1"@ =~= seq!['1']);
    if flat.fields["paired"@].len() == 1 && flat.fields["paired"@][0] == '1' {
        assert(flat.fields["paired"@] =~= "1"@);
    }
}

} // verus!
