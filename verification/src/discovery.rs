//! Known hosts, and the plain HTTP in which they are asked.
use vstd::prelude::*;
use vstd::string::*;
use vstd::utf8::encode_utf8;

use crate::bytes::{copy_range, push_slice};
use crate::error::{is_not_implemented, is_protocol, protocol, Error};
use crate::rtsp::{find_subslice, head_end, head_of, parse_head, subslice_at, HeadView};
use crate::text::{copy_str, decode_lossy, lemma_split_crlf_first, split_crlf, utf8_lossy};
use crate::rtsp::messages::{ends_head, lemma_no_end};

verus! {

/// A host that the client knows of.
#[derive(Debug, Clone, PartialEq, Eq)]
pub struct Host {
    pub hostname: String,
    pub address: String,
    pub paired: bool,
}

/// Ask a host whether it can be reached and is paired. Not there yet.
pub fn probe(_address: &str) -> (r: Result<Host, Error>)
    ensures
        r matches Err(e) && is_not_implemented(
            e,
            "discovery::probe"@,
            "protocol/01-discovery.md"@,
        ),
{
    Err(Error::NotImplemented("discovery::probe", "protocol/01-discovery.md"))
}

/// The status and the body of an HTTP response.
#[derive(Debug, Clone, PartialEq, Eq)]
pub struct HttpResponse {
    pub status: u16,
    pub body: Vec<u8>,
}

/// The text of a request for `path`.
pub open spec fn get_text(host: Seq<char>, path: Seq<char>) -> Seq<char> {
    "GET "@ + path + " HTTP/1.1\r\nHost: "@ + host
        + "\r\nConnection: close\r\nUser-Agent: starfire\r\n\r\n"@
}

/// The bytes of a request for `path`, after whose response the connection is closed.
pub fn get_request(host: &str, path: &str) -> (r: Vec<u8>)
    ensures
        r@ == encode_utf8(get_text(host@, path@)),
{
    let mut text: String = copy_str("GET ");
    text.append(path);
    text.append(" HTTP/1.1\r\nHost: ");
    text.append(host);
    text.append("\r\nConnection: close\r\nUser-Agent: starfire\r\n\r\n");
    let mut out: Vec<u8> = Vec::new();
    push_slice(&mut out, text.as_str().as_bytes());
    assert(out@ =~= encode_utf8(text@));
    out
}

/// The status and the body of a whole response, or the text of the error.
pub open spec fn http_response(raw: Seq<u8>) -> Result<(u16, Seq<u8>), Seq<char>> {
    let at = subslice_at(raw, head_end(), 0);
    if at < 0 {
        Err("HTTP: no end of headers in response"@)
    } else {
        match head_of(utf8_lossy(raw.take(at + 4))) {
            Err(text) => Err(text),
            Ok(head) => Ok((head.status, raw.skip(at + 4))),
        }
    }
}

/// Take apart a response that was read to the end of the connection.
pub fn parse_http_response(raw: &[u8]) -> (r: Result<HttpResponse, Error>)
    ensures
        match http_response(raw@) {
            Ok((status, body)) => r matches Ok(h) && h.status == status && h.body@ == body,
            Err(text) => r matches Err(e) && is_protocol(e, text),
        },
{
    let end: [u8; 4] = [13, 10, 13, 10];
    assert(end@ =~= head_end());
    let at: usize = match find_subslice(raw, &end) {
        Some(at) => at,
        None => {
            return Err(protocol("HTTP: no end of headers in response"));
        },
    };
    let head_bytes = vstd::slice::slice_subrange(raw, 0, at + 4);
    assert(head_bytes@ =~= raw@.take(at + 4));
    let text: String = decode_lossy(head_bytes);
    match parse_head(text.as_str()) {
        Ok(head) => {
            let body: Vec<u8> = copy_range(raw, at + 4, raw.len());
            assert(body@ =~= raw@.skip(at + 4));
            Ok(HttpResponse { status: head.status, body })
        },
        Err(e) => Err(e),
    }
}

/// Take apart what was read of a response, given the error that ended the reading, if one did. A
/// host may close the connection without a farewell, so an error counts only where nothing was
/// read.
pub fn response_read(raw: &[u8], failure: Option<String>) -> (r: Result<HttpResponse, Error>)
    ensures
        match failure {
            Some(why) if raw@.len() == 0 => r matches Err(Error::Io(t)) && t@ == why@,
            _ => match http_response(raw@) {
                Ok((status, body)) => r matches Ok(h) && h.status == status && h.body@ == body,
                Err(text) => r matches Err(e) && is_protocol(e, text),
            },
        },
{
    if raw.len() == 0 {
        if let Some(why) = failure {
            return Err(Error::Io(why));
        }
    }
    parse_http_response(raw)
}

/// The body of a response is all that follows the empty line of its head, and its status is that of
/// the head.
pub proof fn law_http_response(h: Seq<u8>, body: Seq<u8>, head: HeadView)
    requires
        ends_head(h),
        head_of(utf8_lossy(h)) == Ok::<HeadView, Seq<char>>(head),
    ensures
        http_response(h + body) == Ok::<(u16, Seq<u8>), Seq<char>>((head.status, body)),
{
    let b = h + body;
    assert(b.take(h.len() as int) =~= h);
    lemma_no_end(h, b, 0);
    assert(b.skip(h.len() as int) =~= body);
}

/// The lines of a request: the path that is asked for, the host, and that the connection ends with
/// the response.
pub proof fn law_get_request(host: Seq<char>, path: Seq<char>)
    requires
        forall|i: int| 0 <= i < host.len() ==> #[trigger] host[i] != '\r',
        forall|i: int| 0 <= i < path.len() ==> #[trigger] path[i] != '\r',
    ensures
        split_crlf(get_text(host, path)) == seq![
            "GET "@ + path + " HTTP/1.1"@,
            "Host: "@ + host,
            "Connection: close"@,
            "User-Agent: starfire"@,
            Seq::<char>::empty(),
            Seq::<char>::empty(),
        ],
{
    let end = seq!['\r', '\n'];
    let none = Seq::<char>::empty();
    let l1 = "GET "@ + path + " HTTP/1.1"@;
    let l2 = "Host: "@ + host;
    let l3 = "Connection: close"@;
    let l4 = "User-Agent: starfire"@;
    reveal_strlit("GET ");
    reveal_strlit(" HTTP/1.1");
    reveal_strlit("Host: ");
    reveal_strlit("Connection: close");
    reveal_strlit("User-Agent: starfire");
    assert(" HTTP/1.1\r\nHost: "@ =~= " HTTP/1.1"@ + end + "Host: "@) by {
        reveal_strlit(" HTTP/1.1\r\nHost: ");
    }
    assert("\r\nConnection: close\r\nUser-Agent: starfire\r\n\r\n"@ =~= end + l3 + end + l4 + end
        + end) by {
        reveal_strlit("\r\nConnection: close\r\nUser-Agent: starfire\r\n\r\n");
    }
    let r5 = none + end + none;
    let r4 = l4 + end + r5;
    let r3 = l3 + end + r4;
    let r2 = l2 + end + r3;
    assert(get_text(host, path) =~= l1 + end + r2);
    assert forall|i: int| 0 <= i < l1.len() implies #[trigger] l1[i] != '\r' by {
        if 4 <= i < 4 + path.len() {
            assert(l1[i] == path[i - 4]);
        }
    }
    assert forall|i: int| 0 <= i < l2.len() implies #[trigger] l2[i] != '\r' by {
        if i >= 6 {
            assert(l2[i] == host[i - 6]);
        }
    }
    lemma_split_crlf_first(l1, r2);
    lemma_split_crlf_first(l2, r3);
    lemma_split_crlf_first(l3, r4);
    lemma_split_crlf_first(l4, r5);
    lemma_split_crlf_first(none, none);
    assert(split_crlf(get_text(host, path)) =~= seq![l1, l2, l3, l4, none, none]);
}

} // verus!
