//! Messages of the protocol as the other side reads or writes them.
use vstd::prelude::*;
use vstd::string::*;
use vstd::utf8::encode_utf8;

use crate::rtsp::announcement::is_one_line;
use crate::rtsp::{
    after_response, announce_sdp, head_end, head_lines, head_of, header_lines, header_value,
    reading, request_bytes, request_head, sdp_lines, sdp_of, server_port, stage_request,
    subslice_at, target_of, url_parts, with_header, with_line, AnnounceConfig, ClientView,
    HandshakeView, HeadView, Reading, ResponseView, SdpView, Stage,
};
use crate::text::{
    before, begins_with, decimal, index_of, is_digit, is_white, law_parsed_decimal,
    lemma_decimal, lemma_index_of, lemma_index_of_is, lemma_last_index_is, lemma_split_crlf_first,
    lemma_split_first, lemma_trimmed_padded, lemma_trimmed_same, parsed, same_but_case,
    second_word, split, split_crlf, trimmed, trimmed_start, utf8_lossy, word_len,
};

verus! {

/// A header as a line.
pub open spec fn header_line(h: (Seq<char>, Seq<char>)) -> Seq<char> {
    h.0 + ": "@ + h.1
}

/// The headers as lines.
pub open spec fn as_lines(headers: Seq<(Seq<char>, Seq<char>)>) -> Seq<Seq<char>> {
    headers.map_values(|h: (Seq<char>, Seq<char>)| header_line(h))
}

/// Whether no header holds a line break.
pub open spec fn are_one_line(headers: Seq<(Seq<char>, Seq<char>)>) -> bool {
    forall|i: int|
        0 <= i < headers.len() ==> is_one_line(#[trigger] headers[i].0) && is_one_line(
            headers[i].1,
        )
}

/// The lines of a request: its first line, its number, its headers, the length of its body unless
/// that is empty, and an empty line, after which nothing more stands.
pub open spec fn request_lines(
    method: Seq<char>,
    uri: Seq<char>,
    cseq: nat,
    headers: Seq<(Seq<char>, Seq<char>)>,
    body_len: nat,
) -> Seq<Seq<char>> {
    seq![method + seq![' '] + uri + " RTSP/1.0"@, header_line(("CSeq"@, decimal(cseq)))] + as_lines(
        headers,
    ) + (if body_len > 0 {
        seq![header_line(("Content-Length"@, decimal(body_len)))]
    } else {
        Seq::empty()
    }) + seq![Seq::<char>::empty(), Seq::<char>::empty()]
}

proof fn lemma_one_line_pair(a: Seq<char>, b: Seq<char>)
    requires
        is_one_line(a),
        is_one_line(b),
    ensures
        is_one_line(a + b),
{
    assert forall|i: int| 0 <= i < (a + b).len() implies #[trigger] (a + b)[i] != '\n' && (a
        + b)[i] != '\r' by {
        if i < a.len() {
            assert((a + b)[i] == a[i]);
        } else {
            assert((a + b)[i] == b[i - a.len()]);
        }
    }
}

proof fn lemma_decimal_line(n: nat)
    ensures
        is_one_line(decimal(n)),
{
    lemma_decimal(n);
    assert(!is_digit('\n') && !is_digit('\r'));
}

/// A line, a line break and what follows.
proof fn lemma_line(line: Seq<char>, rest: Seq<char>)
    requires
        is_one_line(line),
    ensures
        split_crlf(line + "\r\n"@ + rest) == seq![line] + split_crlf(rest),
{
    reveal_strlit("\r\n");
    assert("\r\n"@ =~= seq!['\r', '\n']);
    lemma_split_crlf_first(line, rest);
}

/// Header lines before what follows them.
proof fn lemma_header_lines(headers: Seq<(Seq<char>, Seq<char>)>, n: nat, rest: Seq<char>)
    requires
        n <= headers.len(),
        are_one_line(headers),
    ensures
        split_crlf(header_lines(headers, n) + rest) == as_lines(headers).take(n as int)
            + split_crlf(rest),
    decreases n,
{
    if n == 0 {
        assert(header_lines(headers, 0) + rest =~= rest);
        assert(as_lines(headers).take(0) + split_crlf(rest) =~= split_crlf(rest));
    } else {
        let m = (n - 1) as nat;
        let h = headers[m as int];
        let line = header_line(h);
        assert(is_one_line(h.0) && is_one_line(h.1));
        assert(is_one_line(": "@)) by {
            reveal_strlit(": ");
        }
        lemma_one_line_pair(h.0, ": "@);
        lemma_one_line_pair(h.0 + ": "@, h.1);
        lemma_line(line, rest);
        lemma_header_lines(headers, m, line + "\r\n"@ + rest);
        assert(header_lines(headers, n) + rest =~= header_lines(headers, m) + (line + "\r\n"@
            + rest));
        assert(as_lines(headers).take(m as int) + (seq![line] + split_crlf(rest)) =~= as_lines(
            headers,
        ).take(n as int) + split_crlf(rest));
    }
}

/// A request is read line by line as what it was made of.
#[verifier::spinoff_prover]
#[verifier::rlimit(40)]
pub proof fn law_request_lines(
    method: Seq<char>,
    uri: Seq<char>,
    cseq: u32,
    headers: Seq<(Seq<char>, Seq<char>)>,
    body_len: nat,
)
    requires
        is_one_line(method),
        is_one_line(uri),
        are_one_line(headers),
    ensures
        split_crlf(request_head(method, uri, cseq, headers, body_len)) == request_lines(
            method,
            uri,
            cseq as nat,
            headers,
            body_len,
        ),
{
    let head = request_head(method, uri, cseq, headers, body_len);
    let crlf = "\r\n"@;
    let empty = Seq::<char>::empty();
    let first = method + seq![' '] + uri + " RTSP/1.0"@;
    let number = header_line(("CSeq"@, decimal(cseq as nat)));
    let length = header_line(("Content-Length"@, decimal(body_len)));
    assert(is_one_line(first) && " "@ =~= seq![' ']) by {
        reveal_strlit(" RTSP/1.0");
        reveal_strlit(" ");
        lemma_one_line_pair(method, seq![' ']);
        lemma_one_line_pair(method + seq![' '], uri);
        lemma_one_line_pair(method + seq![' '] + uri, " RTSP/1.0"@);
    }
    assert(is_one_line(number)) by {
        reveal_strlit("CSeq");
        reveal_strlit(": ");
        lemma_decimal_line(cseq as nat);
        lemma_one_line_pair("CSeq"@, ": "@);
        lemma_one_line_pair("CSeq"@ + ": "@, decimal(cseq as nat));
    }
    assert(is_one_line(length)) by {
        reveal_strlit("Content-Length");
        reveal_strlit(": ");
        lemma_decimal_line(body_len);
        lemma_one_line_pair("Content-Length"@, ": "@);
        lemma_one_line_pair("Content-Length"@ + ": "@, decimal(body_len));
    }
    assert(" RTSP/1.0\r\nCSeq: "@ =~= " RTSP/1.0"@ + crlf + "CSeq"@ + ": "@) by {
        reveal_strlit(" RTSP/1.0\r\nCSeq: ");
        reveal_strlit(" RTSP/1.0");
        reveal_strlit("\r\n");
        reveal_strlit("CSeq");
        reveal_strlit(": ");
    }
    assert("Content-Length: "@ =~= "Content-Length"@ + ": "@) by {
        reveal_strlit("Content-Length: ");
        reveal_strlit("Content-Length");
        reveal_strlit(": ");
    }
    lemma_line(empty, empty);
    assert(empty + crlf + empty =~= crlf);
    lemma_split_crlf_first(empty, empty);
    let ends = seq![empty, empty];
    assert(split_crlf(crlf) =~= ends);
    let tail = if body_len > 0 {
        length + crlf + crlf
    } else {
        crlf
    };
    let extra = if body_len > 0 {
        seq![length]
    } else {
        Seq::empty()
    };
    if body_len > 0 {
        lemma_line(length, crlf);
    }
    assert(split_crlf(tail) =~= extra + ends);
    let after = header_lines(headers, headers.len()) + tail;
    lemma_header_lines(headers, headers.len(), tail);
    assert(as_lines(headers).take(headers.len() as int) =~= as_lines(headers));
    lemma_line(number, after);
    lemma_line(first, number + crlf + after);
    let cs = decimal(cseq as nat);
    let all = header_lines(headers, headers.len());
    let start = method + " "@ + uri + " RTSP/1.0\r\nCSeq: "@ + cs + crlf + all;
    assert(start =~= first + crlf + (number + crlf + all));
    if body_len > 0 {
        assert(head =~= start + (length + crlf) + crlf);
        assert(start + (length + crlf) + crlf =~= first + crlf + (number + crlf + (all + (length
            + crlf + crlf))));
    } else {
        assert(head =~= start + crlf);
        assert(start + crlf =~= first + crlf + (number + crlf + (all + crlf)));
    }
    assert(head == first + crlf + (number + crlf + after));
    assert(seq![first] + (seq![number] + (as_lines(headers) + (extra + ends))) =~= request_lines(
        method,
        uri,
        cseq as nat,
        headers,
        body_len,
    ));
}

/// Whether bytes are a request with a body.
pub open spec fn is_request(
    bytes: Seq<u8>,
    method: Seq<char>,
    uri: Seq<char>,
    cseq: nat,
    headers: Seq<(Seq<char>, Seq<char>)>,
    body: Seq<u8>,
) -> bool {
    exists|text: Seq<char>|
        bytes == #[trigger] encode_utf8(text) + body && split_crlf(text) == request_lines(
            method,
            uri,
            cseq,
            headers,
            body.len(),
        )
}

/// The words of the protocol hold no line breaks.
proof fn lemma_words()
    ensures
        is_one_line("X-GS-ClientVersion"@),
        is_one_line("14"@),
        is_one_line("Transport"@),
        is_one_line("unicast;X-GS-ClientPort=50000-50001"@),
        is_one_line("Session"@),
        is_one_line("Content-type"@),
        is_one_line("application/sdp"@),
        is_one_line("OPTIONS"@),
        is_one_line("DESCRIBE"@),
        is_one_line("SETUP"@),
        is_one_line("ANNOUNCE"@),
        is_one_line("PLAY"@),
        is_one_line("/streamid="@),
        is_one_line("video"@),
        is_one_line("audio"@),
        is_one_line("control"@),
{
    assert(is_one_line("X-GS-ClientVersion"@)) by {
        reveal_strlit("X-GS-ClientVersion");
    }
    assert(is_one_line("14"@)) by {
        reveal_strlit("14");
    }
    assert(is_one_line("Transport"@)) by {
        reveal_strlit("Transport");
    }
    assert(is_one_line("unicast;X-GS-ClientPort=50000-50001"@)) by {
        reveal_strlit("unicast;X-GS-ClientPort=50000-50001");
    }
    assert(is_one_line("Session"@)) by {
        reveal_strlit("Session");
    }
    assert(is_one_line("Content-type"@)) by {
        reveal_strlit("Content-type");
    }
    assert(is_one_line("application/sdp"@)) by {
        reveal_strlit("application/sdp");
    }
    assert(is_one_line("OPTIONS"@)) by {
        reveal_strlit("OPTIONS");
    }
    assert(is_one_line("DESCRIBE"@)) by {
        reveal_strlit("DESCRIBE");
    }
    assert(is_one_line("SETUP"@)) by {
        reveal_strlit("SETUP");
    }
    assert(is_one_line("ANNOUNCE"@)) by {
        reveal_strlit("ANNOUNCE");
    }
    assert(is_one_line("PLAY"@)) by {
        reveal_strlit("PLAY");
    }
    assert(is_one_line("/streamid="@)) by {
        reveal_strlit("/streamid=");
    }
    assert(is_one_line("video"@)) by {
        reveal_strlit("video");
    }
    assert(is_one_line("audio"@)) by {
        reveal_strlit("audio");
    }
    assert(is_one_line("control"@)) by {
        reveal_strlit("control");
    }
}

/// The requests of a handshake: what is asked, of which stream, and with which headers, each with
/// the number that follows the last one.
#[verifier::spinoff_prover]
#[verifier::rlimit(60)]
pub proof fn law_handshake_requests(c: ClientView, h: HandshakeView, cfg: AnnounceConfig)
    requires
        is_one_line(c.target),
        is_one_line(h.session_id),
        c.cseq < u32::MAX,
    ensures
        ({
            let bytes = stage_request(c, h, cfg);
            let n = (c.cseq + 1) as nat;
            let none = Seq::<u8>::empty();
            let version = ("X-GS-ClientVersion"@, "14"@);
            let transport = ("Transport"@, "unicast;X-GS-ClientPort=50000-50001"@);
            let session = ("Session"@, h.session_id);
            match h.stage {
                Stage::Options => is_request(bytes, "OPTIONS"@, c.target, n, seq![version], none),
                Stage::Describe => is_request(bytes, "DESCRIBE"@, c.target, n, seq![version], none),
                Stage::SetupVideo => is_request(
                    bytes,
                    "SETUP"@,
                    c.target + "/streamid="@ + "video"@,
                    n,
                    seq![transport, version],
                    none,
                ),
                Stage::SetupAudio => is_request(
                    bytes,
                    "SETUP"@,
                    c.target + "/streamid="@ + "audio"@,
                    n,
                    seq![transport, version],
                    none,
                ),
                Stage::SetupControl => is_request(
                    bytes,
                    "SETUP"@,
                    c.target + "/streamid="@ + "control"@,
                    n,
                    seq![transport, version],
                    none,
                ),
                Stage::Announce => is_request(
                    bytes,
                    "ANNOUNCE"@,
                    c.target,
                    n,
                    seq![("Content-type"@, "application/sdp"@), session, version],
                    encode_utf8(announce_sdp(c.host, cfg)),
                ),
                Stage::Play => is_request(bytes, "PLAY"@, c.target, n, seq![session, version], none),
                Stage::Done => true,
            }
        }),
{
    let cseq = (c.cseq + 1) as u32;
    let none = Seq::<u8>::empty();
    let version = ("X-GS-ClientVersion"@, "14"@);
    let transport = ("Transport"@, "unicast;X-GS-ClientPort=50000-50001"@);
    let session = ("Session"@, h.session_id);
    let kind = ("Content-type"@, "application/sdp"@);
    lemma_words();
    assert(is_one_line(version.0) && is_one_line(version.1));
    assert(is_one_line(transport.0) && is_one_line(transport.1));
    assert(is_one_line(session.0) && is_one_line(session.1));
    assert(is_one_line(kind.0) && is_one_line(kind.1));
    lemma_one_line_pair(c.target, "/streamid="@);
    lemma_one_line_pair(c.target + "/streamid="@, "video"@);
    lemma_one_line_pair(c.target + "/streamid="@, "audio"@);
    lemma_one_line_pair(c.target + "/streamid="@, "control"@);
    match h.stage {
        Stage::Options => lemma_request("OPTIONS"@, c.target, cseq, seq![version], none),
        Stage::Describe => lemma_request("DESCRIBE"@, c.target, cseq, seq![version], none),
        Stage::SetupVideo => lemma_request(
            "SETUP"@,
            c.target + "/streamid="@ + "video"@,
            cseq,
            seq![transport, version],
            none,
        ),
        Stage::SetupAudio => lemma_request(
            "SETUP"@,
            c.target + "/streamid="@ + "audio"@,
            cseq,
            seq![transport, version],
            none,
        ),
        Stage::SetupControl => lemma_request(
            "SETUP"@,
            c.target + "/streamid="@ + "control"@,
            cseq,
            seq![transport, version],
            none,
        ),
        Stage::Announce => lemma_request(
            "ANNOUNCE"@,
            c.target,
            cseq,
            seq![kind, session, version],
            encode_utf8(announce_sdp(c.host, cfg)),
        ),
        Stage::Play => lemma_request("PLAY"@, c.target, cseq, seq![session, version], none),
        Stage::Done => {},
    }
}

proof fn lemma_request(
    method: Seq<char>,
    uri: Seq<char>,
    cseq: u32,
    headers: Seq<(Seq<char>, Seq<char>)>,
    body: Seq<u8>,
)
    requires
        is_one_line(method),
        is_one_line(uri),
        are_one_line(headers),
    ensures
        is_request(
            request_bytes(method, uri, cseq, headers, body),
            method,
            uri,
            cseq as nat,
            headers,
            body,
        ),
{
    law_request_lines(method, uri, cseq, headers, body.len());
    let text = request_head(method, uri, cseq, headers, body.len());
    assert(request_bytes(method, uri, cseq, headers, body) == encode_utf8(text) + body);
}

/// Whether a text is a word: it is not empty, and no white space is in it.
pub open spec fn is_word(s: Seq<char>) -> bool {
    s.len() > 0 && forall|i: int| 0 <= i < s.len() ==> !is_white(#[trigger] s[i])
}

/// Whether a text starts and ends with something else than white space, or is empty.
pub open spec fn is_trim(s: Seq<char>) -> bool {
    s.len() > 0 ==> !is_white(s[0]) && !is_white(s.last())
}

proof fn lemma_word_len(a: Seq<char>, rest: Seq<char>)
    requires
        forall|i: int| 0 <= i < a.len() ==> !is_white(#[trigger] a[i]),
        rest.len() == 0 || is_white(rest[0]),
    ensures
        word_len(a + rest) == a.len(),
    decreases a.len(),
{
    let s = a + rest;
    if a.len() > 0 {
        assert(s[0] == a[0]);
        assert(s.skip(1) =~= a.skip(1) + rest);
        lemma_word_len(a.skip(1), rest);
    } else {
        assert(s =~= rest);
    }
}

/// The second word of a line is the one between its first two spaces.
proof fn lemma_second_word(version: Seq<char>, status: Seq<char>, reason: Seq<char>)
    requires
        is_word(version),
        is_word(status),
    ensures
        second_word(version + seq![' '] + status + seq![' '] + reason) == Some(status),
{
    let rest = seq![' '] + reason;
    let t = version + seq![' '] + status + seq![' '] + reason;
    assert(t[0] == version[0]);
    assert(trimmed_start(t) == t);
    assert(t =~= version + (seq![' '] + status + rest));
    lemma_word_len(version, seq![' '] + status + rest);
    let u = t.skip(version.len() as int);
    assert(u =~= seq![' '] + (status + rest));
    assert(is_white(u[0]));
    assert(u.skip(1) =~= status + rest);
    assert(u.skip(1)[0] == status[0]);
    assert(trimmed_start(u) == trimmed_start(u.skip(1)));
    assert(trimmed_start(u.skip(1)) == u.skip(1));
    lemma_word_len(status, rest);
    assert((status + rest).take(status.len() as int) =~= status);
}

/// Whether a header is written as hosts write it.
pub open spec fn is_header(h: (Seq<char>, Seq<char>)) -> bool {
    &&& is_one_line(h.0)
    &&& is_one_line(h.1)
    &&& is_trim(h.0)
    &&& is_trim(h.1)
    &&& forall|i: int| 0 <= i < h.0.len() ==> #[trigger] h.0[i] != ':'
}

/// The length that the last of the first `n` headers of that name gives, if it gives one.
pub open spec fn told_length(headers: Seq<(Seq<char>, Seq<char>)>, n: nat) -> Option<nat>
    decreases n,
{
    if n == 0 {
        None
    } else if same_but_case(headers[n - 1].0, "Content-Length"@) {
        parsed(headers[n - 1].1, usize::MAX as nat)
    } else {
        told_length(headers, (n - 1) as nat)
    }
}

/// The head of a response, as a text.
pub open spec fn response_text(
    version: Seq<char>,
    status: u16,
    reason: Seq<char>,
    headers: Seq<(Seq<char>, Seq<char>)>,
) -> Seq<char> {
    version + seq![' '] + decimal(status as nat) + seq![' '] + reason + "\r\n"@ + header_lines(
        headers,
        headers.len(),
    ) + "\r\n"@
}

proof fn lemma_header_read(head: HeadView, h: (Seq<char>, Seq<char>))
    requires
        is_header(h),
    ensures
        with_header(head, header_line(h)) == (HeadView {
            headers: head.headers.push(h),
            content_length: if same_but_case(h.0, "Content-Length"@) {
                parsed(h.1, usize::MAX as nat)
            } else {
                head.content_length
            },
            ..head
        }),
{
    let line = header_line(h);
    reveal_strlit(": ");
    let n = h.0.len() as int;
    assert(line[n] == ':');
    assert forall|j: int| 0 <= j < n implies #[trigger] line[j] != ':' by {
        assert(line[j] == h.0[j]);
    }
    lemma_index_of_is(line, ':', n);
    assert(line.take(n) =~= h.0);
    assert(line.skip(n + 1) =~= seq![' '] + h.1 + Seq::<char>::empty());
    lemma_trimmed_same(h.0);
    assert(is_white(' '));
    lemma_trimmed_padded(seq![' '], h.1, Seq::empty());
    assert((h.0, h.1) == h);
}

proof fn lemma_head_lines(
    status: u16,
    lines: Seq<Seq<char>>,
    headers: Seq<(Seq<char>, Seq<char>)>,
    n: nat,
)
    requires
        n <= headers.len(),
        lines.len() >= headers.len() + 1,
        forall|i: int| 0 <= i < headers.len() ==> is_header(#[trigger] headers[i]),
        forall|i: int|
            0 <= i < headers.len() ==> lines[i + 1] == header_line(#[trigger] headers[i]),
    ensures
        head_lines(status, lines, (n + 1) as nat) == (HeadView {
            status,
            headers: headers.take(n as int),
            content_length: told_length(headers, n),
        }),
    decreases n,
{
    if n == 0 {
        assert(headers.take(0) =~= Seq::empty());
    } else {
        let m = (n - 1) as nat;
        lemma_head_lines(status, lines, headers, m);
        assert(lines[n as int] == header_line(headers[m as int]));
        lemma_header_read(head_lines(status, lines, n), headers[m as int]);
        assert(headers.take(m as int).push(headers[m as int]) =~= headers.take(n as int));
    }
}

/// The head of a response is read as it was written: its status, its headers in order, and the
/// length that one of them gives.
#[verifier::spinoff_prover]
#[verifier::rlimit(40)]
pub proof fn law_response_head(
    version: Seq<char>,
    status: u16,
    reason: Seq<char>,
    headers: Seq<(Seq<char>, Seq<char>)>,
)
    requires
        is_word(version),
        is_one_line(version),
        is_one_line(reason),
        forall|i: int| 0 <= i < headers.len() ==> is_header(#[trigger] headers[i]),
    ensures
        head_of(response_text(version, status, reason, headers)) == Ok::<HeadView, Seq<char>>(
            HeadView { status, headers, content_length: told_length(headers, headers.len()) },
        ),
{
    let text = response_text(version, status, reason, headers);
    let crlf = "\r\n"@;
    let empty = Seq::<char>::empty();
    let digits = decimal(status as nat);
    let first = version + seq![' '] + digits + seq![' '] + reason;
    lemma_decimal(status as nat);
    lemma_decimal_line(status as nat);
    lemma_one_line_pair(version, seq![' ']);
    lemma_one_line_pair(version + seq![' '], digits);
    lemma_one_line_pair(version + seq![' '] + digits, seq![' ']);
    lemma_one_line_pair(version + seq![' '] + digits + seq![' '], reason);
    assert(is_word(digits));
    lemma_second_word(version, digits, reason);
    law_parsed_decimal(status as nat, u16::MAX as nat);
    let n = headers.len();
    let all = header_lines(headers, n);
    assert(are_one_line(headers)) by {
        assert forall|i: int| 0 <= i < headers.len() implies is_one_line(#[trigger] headers[i].0)
            && is_one_line(headers[i].1) by {
            assert(is_header(headers[i]));
        }
    }
    lemma_split_crlf_first(empty, empty);
    lemma_line(empty, empty);
    assert(empty + crlf + empty =~= crlf);
    lemma_header_lines(headers, n, crlf);
    lemma_line(first, all + crlf);
    assert(text =~= first + crlf + (all + crlf));
    let lines = split_crlf(text);
    let hl = as_lines(headers);
    assert(hl.take(n as int) =~= hl);
    assert(lines =~= seq![first] + (hl + (seq![empty] + seq![empty])));
    assert forall|i: int| 0 <= i < n implies lines[i + 1] == header_line(#[trigger] headers[i]) by {
        assert(hl[i] == header_line(headers[i]));
    }
    lemma_head_lines(status, lines, headers, n);
    assert(lines.len() == n + 3);
    assert(lines[n as int + 1] == empty && lines[n as int + 2] == empty);
    lemma_index_of(empty, ':');
    let head = head_lines(status, lines, (n + 1) as nat);
    assert(with_header(head, empty) == head);
    assert(head_lines(status, lines, (n + 2) as nat) == head);
    assert(head_lines(status, lines, (n + 3) as nat) == head);
    assert(headers.take(n as int) =~= headers);
}

/// Whether bytes are the head of a response: they end with its empty line, and hold no other.
pub open spec fn ends_head(h: Seq<u8>) -> bool {
    &&& h.len() >= 4
    &&& h.subrange(h.len() - 4, h.len() as int) == seq![13u8, 10u8, 13u8, 10u8]
    &&& forall|i: int|
        0 <= i < h.len() - 4 ==> #[trigger] h.subrange(i, i + 4) != seq![13u8, 10u8, 13u8, 10u8]
}

pub proof fn lemma_no_end(h: Seq<u8>, b: Seq<u8>, from: int)
    requires
        ends_head(h),
        0 <= from <= h.len() - 4,
        b.len() < h.len() ==> b == h.take(b.len() as int),
        b.len() >= h.len() ==> b.take(h.len() as int) == h,
    ensures
        subslice_at(b, head_end(), from) == if b.len() >= h.len() {
            h.len() - 4
        } else {
            -1
        },
    decreases h.len() - from,
{
    assert(head_end() == seq![13u8, 10u8, 13u8, 10u8]);
    if from + 4 <= b.len() {
        let w = b.subrange(from, from + 4);
        if b.len() < h.len() {
            assert(w =~= h.subrange(from, from + 4));
        } else {
            assert(w =~= b.take(h.len() as int).subrange(from, from + 4));
        }
        if from < h.len() - 4 {
            lemma_no_end(h, b, from + 1);
        }
    }
}

/// A response is complete when as many bytes follow its head as the head says, or when the
/// connection is closed; its body is all that follows the head. Until then more bytes are awaited,
/// wherever it is cut.
pub proof fn law_response_read(h: Seq<u8>, body: Seq<u8>, head: HeadView, closed: bool, cut: nat)
    requires
        ends_head(h),
        head_of(utf8_lossy(h)) == Ok::<HeadView, Seq<char>>(head),
        cut < h.len(),
    ensures
        closed || (head.content_length matches Some(n) && n <= body.len()) ==> reading(
            h + body,
            closed,
        ) == Reading::Complete(
            ResponseView { status: head.status, headers: head.headers, body },
        ),
        !closed && !(head.content_length matches Some(n) && n <= body.len()) ==> reading(
            h + body,
            closed,
        ) is Partial,
        reading(h.take(cut as int), false) is Partial,
        reading(h.take(cut as int), true) is Failed,
{
    let b = h + body;
    assert(b.take(h.len() as int) =~= h);
    lemma_no_end(h, b, 0);
    assert(b.skip(h.len() as int) =~= body);
    let c = h.take(cut as int);
    assert(c =~= h.take(c.len() as int));
    lemma_no_end(h, c, 0);
}

/// The URI that is asked for names the host and the port that it was made of, whatever path
/// follows.
pub proof fn law_url(host: Seq<char>, port: u16, path: Seq<char>)
    requires
        forall|i: int| 0 <= i < host.len() ==> #[trigger] host[i] != '/',
        path.len() == 0 || path[0] == '/',
    ensures
        url_parts("rtsp://"@ + host + seq![':'] + decimal(port as nat) + path) == Ok::<
            (Seq<char>, u16),
            Seq<char>,
        >((host, port)),
        url_parts(target_of(host, port)) == Ok::<(Seq<char>, u16), Seq<char>>((host, port)),
{
    lemma_url(host, port, path);
    lemma_url(host, port, Seq::empty());
    reveal_strlit(":");
    assert(":"@ =~= seq![':']);
    assert("rtsp://"@ + host + seq![':'] + decimal(port as nat) + Seq::<char>::empty()
        =~= target_of(host, port));
}

proof fn lemma_url(host: Seq<char>, port: u16, path: Seq<char>)
    requires
        forall|i: int| 0 <= i < host.len() ==> #[trigger] host[i] != '/',
        path.len() == 0 || path[0] == '/',
    ensures
        url_parts("rtsp://"@ + host + seq![':'] + decimal(port as nat) + path) == Ok::<
            (Seq<char>, u16),
            Seq<char>,
        >((host, port)),
{
    let digits = decimal(port as nat);
    let scheme = "rtsp://"@;
    let url = scheme + host + seq![':'] + digits + path;
    lemma_decimal(port as nat);
    law_parsed_decimal(port as nat, u16::MAX as nat);
    assert(!is_digit('/') && !is_digit(':'));
    let authority = host + seq![':'] + digits;
    assert(url.take(scheme.len() as int) =~= scheme);
    let rest = url.skip(scheme.len() as int);
    assert(rest =~= authority + path);
    let n = authority.len() as int;
    assert forall|j: int| 0 <= j < n implies #[trigger] rest[j] != '/' by {
        assert(rest[j] == authority[j]);
        if j < host.len() {
            assert(authority[j] == host[j]);
        } else if j > host.len() {
            assert(authority[j] == digits[j - host.len() - 1]);
        }
    }
    lemma_index_of_is(rest, '/', n);
    assert(before(rest, '/') =~= authority);
    let colon = host.len() as int;
    assert forall|j: int| colon < j < n implies #[trigger] authority[j] != ':' by {
        assert(authority[j] == digits[j - colon - 1]);
    }
    lemma_last_index_is(authority, ':', colon);
    assert(authority.skip(colon + 1) =~= digits);
    assert(authority.take(colon) =~= host);
}

/// A URI without a port names the usual one.
pub proof fn law_url_without_port(host: Seq<char>)
    requires
        forall|i: int| 0 <= i < host.len() ==> #[trigger] host[i] != '/' && host[i] != ':',
    ensures
        url_parts("rtsp://"@ + host) == Ok::<(Seq<char>, u16), Seq<char>>((host, 48010u16)),
{
    let scheme = "rtsp://"@;
    let url = scheme + host;
    assert(url.take(scheme.len() as int) =~= scheme);
    assert(url.skip(scheme.len() as int) =~= host);
    lemma_index_of_is(host, '/', host.len() as int);
    assert(before(host, '/') =~= host);
    lemma_last_index_is(host, ':', -1);
}

/// A response that sets up a stream names its port: the parameter of that name, wherever it stands
/// among others that semicolons separate.
pub proof fn law_server_port(first: Seq<char>, port: u16, rest: Seq<char>)
    requires
        forall|i: int| 0 <= i < first.len() ==> #[trigger] first[i] != ';',
        is_trim(first),
        first.len() > 0 ==> first[0] != 's',
    ensures
        ({
            let p = "server_port="@ + decimal(port as nat);
            &&& server_port(Some(first + seq![';'] + p)) == Ok::<u16, Seq<char>>(port)
            &&& server_port(Some(first + seq![';'] + p + seq![';'] + rest)) == Ok::<u16, Seq<char>>(
                port,
            )
            &&& server_port(Some(p)) == Ok::<u16, Seq<char>>(port)
        }),
{
    let digits = decimal(port as nat);
    let name = "server_port="@;
    let p = name + digits;
    reveal_strlit("server_port=");
    lemma_decimal(port as nat);
    law_parsed_decimal(port as nat, u16::MAX as nat);
    assert(!is_digit(';'));
    assert forall|i: int| 0 <= i < p.len() implies #[trigger] p[i] != ';' by {
        if i >= name.len() {
            assert(p[i] == digits[i - name.len()]);
        }
    }
    assert(is_trim(p)) by {
        assert(p[0] == name[0]);
        assert(p.last() == digits.last());
    }
    lemma_trimmed_same(p);
    lemma_trimmed_same(first);
    assert(p.take(name.len() as int) =~= name);
    assert(p.skip(name.len() as int) =~= digits);
    assert(is_trim(digits));
    lemma_trimmed_same(digits);
    assert(!begins_with(first, name)) by {
        if begins_with(first, name) {
            assert(first.take(name.len() as int)[0] == first[0]);
        }
    }
    lemma_split_first(first, ';', p);
    lemma_split_first(p, ';', rest);
    lemma_split_first(first, ';', p + seq![';'] + rest);
    assert(first + seq![';'] + p + seq![';'] + rest =~= first + seq![';'] + (p + seq![';'] + rest));
    let l1 = seq![first] + seq![p];
    assert(l1.skip(1) =~= seq![p]);
    let l2 = seq![first] + (seq![p] + split(rest, ';'));
    assert(l2.skip(1) =~= seq![p] + split(rest, ';'));
    assert(l2.skip(1)[0] == p);
    assert(l2[0] == first && l1[0] == first && l1.skip(1)[0] == p);
    reveal_with_fuel(crate::rtsp::first_value, 3);
}

/// What a response to a `SETUP` request says is kept: the port for the stream that was asked for and
/// for no other, the name of the session up to a semicolon, the payload of pings as it is spelled,
/// and the number for the control connection.
pub proof fn law_setup_response(
    h: HandshakeView,
    r: ResponseView,
    port: u16,
    session: Seq<char>,
    rest: Seq<char>,
    payload: Seq<char>,
    number: u32,
)
    requires
        h.stage == Stage::SetupVideo || h.stage == Stage::SetupAudio || h.stage
            == Stage::SetupControl,
        r.status == 200,
        header_value(r.headers, "Transport"@) == Some("server_port="@ + decimal(port as nat)),
        header_value(r.headers, "Session"@) == Some(session + seq![';'] + rest) || header_value(
            r.headers,
            "Session"@,
        ) == Some(session),
        is_trim(session),
        forall|i: int| 0 <= i < session.len() ==> #[trigger] session[i] != ';',
        header_value(r.headers, "X-SS-Ping-Payload"@) == Some(payload),
        is_trim(payload),
        header_value(r.headers, "X-SS-Connect-Data"@) == Some(decimal(number as nat)),
    ensures
        after_response(h, r) matches Ok(next) && {
            &&& next.session_id == session
            &&& next.ping_payload == encode_utf8(payload)
            &&& next.control_connect_data == number
            &&& next.sdp == h.sdp
            &&& h.stage == Stage::SetupVideo ==> next.stage == Stage::SetupAudio
                && next.ports.video_port == port && next.ports.audio_port == h.ports.audio_port
                && next.ports.control_port == h.ports.control_port
            &&& h.stage == Stage::SetupAudio ==> next.stage == Stage::SetupControl
                && next.ports.audio_port == port && next.ports.video_port == h.ports.video_port
                && next.ports.control_port == h.ports.control_port
            &&& h.stage == Stage::SetupControl ==> next.stage == Stage::Announce
                && next.ports.control_port == port && next.ports.video_port == h.ports.video_port
                && next.ports.audio_port == h.ports.audio_port
        },
{
    law_server_port(Seq::empty(), port, Seq::empty());
    lemma_trimmed_same(session);
    lemma_trimmed_same(payload);
    lemma_decimal(number as nat);
    assert(is_trim(decimal(number as nat)));
    lemma_trimmed_same(decimal(number as nat));
    law_parsed_decimal(number as nat, u32::MAX as nat);
    let with_rest = session + seq![';'] + rest;
    assert(with_rest[session.len() as int] == ';');
    assert forall|j: int| 0 <= j < session.len() implies #[trigger] with_rest[j] != ';' by {
        assert(with_rest[j] == session[j]);
    }
    lemma_index_of_is(with_rest, ';', session.len() as int);
    assert(before(with_rest, ';') =~= session);
    lemma_index_of_is(session, ';', session.len() as int);
    assert(before(session, ';') =~= session);
}

/// A response without these headers leaves what earlier ones said.
pub proof fn law_silent_setup_response(h: HandshakeView, r: ResponseView, port: u16)
    requires
        h.stage == Stage::SetupVideo || h.stage == Stage::SetupAudio || h.stage
            == Stage::SetupControl,
        r.status == 200,
        server_port(header_value(r.headers, "Transport"@)) == Ok::<u16, Seq<char>>(port),
        header_value(r.headers, "Session"@) is None,
        header_value(r.headers, "X-SS-Ping-Payload"@) is None,
        header_value(r.headers, "X-SS-Connect-Data"@) is None,
    ensures
        after_response(h, r) matches Ok(next) && next.session_id == h.session_id
            && next.ping_payload == h.ping_payload && next.control_connect_data
            == h.control_connect_data,
{
}

/// From the third request on, a status other than 200 ends the handshake.
pub proof fn law_refused_request(h: HandshakeView, r: ResponseView)
    requires
        r.status != 200,
    ensures
        h.stage == Stage::Options || h.stage == Stage::Describe || h.stage == Stage::Done
            || after_response(h, r) is Err,
{
}

/// Headers are found by their names, whatever the case of their letters, and the first one counts.
pub proof fn law_header_value(
    before_it: Seq<(Seq<char>, Seq<char>)>,
    h: (Seq<char>, Seq<char>),
    after_it: Seq<(Seq<char>, Seq<char>)>,
    name: Seq<char>,
)
    requires
        same_but_case(h.0, name),
        forall|i: int| 0 <= i < before_it.len() ==> !same_but_case(#[trigger] before_it[i].0, name),
    ensures
        header_value(before_it + seq![h] + after_it, name) == Some(h.1),
        header_value(before_it, name) is None,
    decreases before_it.len(),
{
    let all = before_it + seq![h] + after_it;
    if before_it.len() > 0 {
        assert(all[0] == before_it[0]);
        assert(!same_but_case(before_it[0].0, name));
        let rest = before_it.skip(1);
        assert(all.skip(1) =~= rest + seq![h] + after_it);
        assert forall|i: int| 0 <= i < rest.len() implies !same_but_case(#[trigger] rest[i].0, name) by {
            assert(rest[i] == before_it[i + 1]);
        }
        law_header_value(rest, h, after_it, name);
    } else {
        assert(all[0] == h);
    }
}

/// What a line of a description of a host says: each attribute sets its own field, and a layout is
/// added to those before it.
#[verifier::spinoff_prover]
#[verifier::rlimit(40)]
pub proof fn law_host_attributes(sdp: SdpView, n: u32, layout: Seq<char>)
    requires
        is_trim(layout),
        layout.len() > 0,
    ensures
        with_line(sdp, "a=x-ss-general.featureFlags:"@ + decimal(n as nat) + seq!['\r']) == (SdpView {
            feature_flags: n,
            ..sdp
        }),
        with_line(sdp, "a=x-ss-general.encryptionSupported:"@ + decimal(n as nat) + seq!['\r']) == (
        SdpView { encryption_supported: n, ..sdp }),
        with_line(sdp, "a=x-ss-general.encryptionRequested:"@ + decimal(n as nat) + seq!['\r']) == (
        SdpView { encryption_requested: n, ..sdp }),
        with_line(sdp, "a=fmtp:97 surround-params="@ + layout + seq!['\r']) == (SdpView {
            surround_params: sdp.surround_params.push(layout),
            ..sdp
        }),
{
    let features = "a=x-ss-general.featureFlags:"@;
    let supported = "a=x-ss-general.encryptionSupported:"@;
    let requested = "a=x-ss-general.encryptionRequested:"@;
    let surround = "a=fmtp:97 surround-params="@;
    reveal_strlit("a=x-ss-general.featureFlags:");
    reveal_strlit("a=x-ss-general.encryptionSupported:");
    reveal_strlit("a=x-ss-general.encryptionRequested:");
    reveal_strlit("a=fmtp:97 surround-params=");
    let digits = decimal(n as nat);
    lemma_decimal(n as nat);
    law_parsed_decimal(n as nat, u32::MAX as nat);
    assert(is_trim(digits));
    lemma_trimmed_same(digits);
    lemma_trimmed_same(layout);
    lemma_attribute_line(features, digits);
    lemma_attribute_line(supported, digits);
    lemma_attribute_line(requested, digits);
    lemma_attribute_line(surround, layout);
    lemma_not_begins(supported + digits, features, 15);
    lemma_not_begins(requested + digits, features, 15);
    lemma_not_begins(requested + digits, supported, 25);
    lemma_not_begins(surround + layout, features, 2);
    lemma_not_begins(surround + layout, supported, 2);
    lemma_not_begins(surround + layout, requested, 2);
}

proof fn lemma_attribute_line(name: Seq<char>, value: Seq<char>)
    requires
        name.len() > 0,
        !is_white(name[0]),
        value.len() > 0,
        !is_white(value.last()),
    ensures
        trimmed(name + value + seq!['\r']) == name + value,
        begins_with(name + value, name),
        (name + value).skip(name.len() as int) == value,
{
    let line = name + value;
    let none = Seq::<char>::empty();
    assert(line[0] == name[0] && line.last() == value.last());
    assert(is_white('\r'));
    lemma_trimmed_padded(none, line, seq!['\r']);
    assert(none + line + seq!['\r'] =~= line + seq!['\r']);
    assert(line.take(name.len() as int) =~= name);
    assert(line.skip(name.len() as int) =~= value);
}

proof fn lemma_not_begins(line: Seq<char>, name: Seq<char>, k: int)
    requires
        0 <= k < name.len(),
        k < line.len(),
        line[k] != name[k],
    ensures
        !begins_with(line, name),
{
    if begins_with(line, name) {
        assert(line.take(name.len() as int)[k] == line[k]);
    }
}

/// A description is read line by line: one more line adds what it says.
pub proof fn law_description_lines(text: Seq<char>, line: Seq<char>)
    requires
        forall|i: int| 0 <= i < line.len() ==> #[trigger] line[i] != '\n',
    ensures
        sdp_of(text + seq!['\n'] + line) == with_line(sdp_of(text), line),
{
    lemma_split_push(text, '\n', line);
    let l = split(text, '\n');
    let m = l.push(line);
    lemma_sdp_same(l, m, l.len());
}

proof fn lemma_sdp_same(a: Seq<Seq<char>>, b: Seq<Seq<char>>, n: nat)
    requires
        forall|i: int| 0 <= i < n ==> a[i] == b[i],
    ensures
        sdp_lines(a, n) == sdp_lines(b, n),
    decreases n,
{
    if n > 0 {
        lemma_sdp_same(a, b, (n - 1) as nat);
    }
}

/// A part behind one more separator is one more part.
proof fn lemma_split_push(text: Seq<char>, c: char, line: Seq<char>)
    requires
        forall|i: int| 0 <= i < line.len() ==> #[trigger] line[i] != c,
    ensures
        split(text + seq![c] + line, c) == split(text, c).push(line),
    decreases text.len(),
{
    lemma_index_of(text, c);
    let i = index_of(text, c);
    let first = text.take(i);
    assert forall|j: int| 0 <= j < first.len() implies #[trigger] first[j] != c by {
        assert(first[j] == text[j]);
    }
    lemma_split_first(line, c, Seq::empty());
    if i < text.len() {
        let rest = text.skip(i + 1);
        lemma_split_push(rest, c, line);
        lemma_split_first(first, c, rest + seq![c] + line);
        assert(text + seq![c] + line =~= first + seq![c] + (rest + seq![c] + line));
        assert(seq![first] + split(rest, c).push(line) =~= (seq![first] + split(rest, c)).push(
            line,
        ));
    } else {
        assert(first =~= text);
        lemma_split_first(text, c, line);
        assert(seq![text] + seq![line] =~= seq![text].push(line));
    }
}

} // verus!
