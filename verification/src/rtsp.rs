//! Stream setup over RTSP.
//!
//! The host takes one request per connection and closes it after the response, which carries no
//! length in general: the body runs to the end of the connection. The modules of this file build
//! requests, take responses apart and decide each step; they leave the sockets to the caller.
use std::time::Duration;

use vstd::prelude::*;
use vstd::string::*;
use vstd::utf8::encode_utf8;

use crate::bytes::{copy_range, push_slice};
use crate::error::{is_protocol, protocol, protocol2, protocol3, Error};
use crate::text::{
    before, begins_with, chars_of, copy_str, decimal, decimal_string, decode_lossy,
    equal_ignoring_case, find, index_of, last_index_of, parse_u16, parse_u32, parse_up_to, parsed,
    parts, quote, quoted, rfind, same_but_case, second_word, split, split_crlf, split_lines,
    split_on, string_of, strip_prefix, trim, trimmed, utf8_lossy, word_two,
};

pub mod announcement;
pub mod messages;

verus! {

/// The UDP ports of the host, one per stream.
#[derive(Debug, Clone, Copy, PartialEq, Eq, Structural)]
pub struct StreamSetup {
    pub video_port: u16,
    pub audio_port: u16,
    pub control_port: u16,
}

impl Default for StreamSetup {
    fn default() -> (r: Self)
        ensures
            r == (StreamSetup { video_port: 0, audio_port: 0, control_port: 0 }),
    {
        StreamSetup { video_port: 0, audio_port: 0, control_port: 0 }
    }
}

/// The contents of a list of strings.
pub open spec fn strings(v: Seq<String>) -> Seq<Seq<char>> {
    v.map_values(|s: String| s@)
}

/// What the session description of a host says.
#[derive(Debug, Clone, PartialEq, Eq)]
pub struct SdpInfo {
    pub feature_flags: u32,
    pub encryption_supported: u32,
    pub encryption_requested: u32,
    /// Audio channel layouts.
    pub surround_params: Vec<String>,
}

/// What an [`SdpInfo`] holds.
#[verifier::ext_equal]
pub struct SdpView {
    pub feature_flags: u32,
    pub encryption_supported: u32,
    pub encryption_requested: u32,
    pub surround_params: Seq<Seq<char>>,
}

impl View for SdpInfo {
    type V = SdpView;

    open spec fn view(&self) -> SdpView {
        SdpView {
            feature_flags: self.feature_flags,
            encryption_supported: self.encryption_supported,
            encryption_requested: self.encryption_requested,
            surround_params: strings(self.surround_params@),
        }
    }
}

/// A description that says nothing.
pub open spec fn empty_sdp() -> SdpView {
    SdpView {
        feature_flags: 0,
        encryption_supported: 0,
        encryption_requested: 0,
        surround_params: Seq::empty(),
    }
}

/// The number that `s` spells, white space aside, and zero if it spells none.
pub open spec fn number_or_zero(s: Seq<char>) -> u32 {
    match parsed(trimmed(s), u32::MAX as nat) {
        Some(n) => n as u32,
        None => 0,
    }
}

/// The description after one more line: a known attribute sets its field or adds a layout.
pub open spec fn with_line(sdp: SdpView, line: Seq<char>) -> SdpView {
    let line = trimmed(line);
    let features = "a=x-ss-general.featureFlags:"@;
    let supported = "a=x-ss-general.encryptionSupported:"@;
    let requested = "a=x-ss-general.encryptionRequested:"@;
    let surround = "a=fmtp:97 surround-params="@;
    if begins_with(line, features) {
        SdpView { feature_flags: number_or_zero(line.skip(features.len() as int)), ..sdp }
    } else if begins_with(line, supported) {
        SdpView { encryption_supported: number_or_zero(line.skip(supported.len() as int)), ..sdp }
    } else if begins_with(line, requested) {
        SdpView { encryption_requested: number_or_zero(line.skip(requested.len() as int)), ..sdp }
    } else if begins_with(line, surround) {
        SdpView {
            surround_params: sdp.surround_params.push(trimmed(line.skip(surround.len() as int))),
            ..sdp
        }
    } else {
        sdp
    }
}

/// What the first `n` lines say.
pub open spec fn sdp_lines(lines: Seq<Seq<char>>, n: nat) -> SdpView
    decreases n,
{
    if n == 0 {
        empty_sdp()
    } else {
        with_line(sdp_lines(lines, (n - 1) as nat), lines[n - 1])
    }
}

/// What a description in text form says.
pub open spec fn sdp_of(text: Seq<char>) -> SdpView {
    sdp_lines(split(text, '\n'), split(text, '\n').len())
}

fn parse_or_zero(s: &[char]) -> (r: u32)
    ensures
        r == number_or_zero(s@),
{
    match parse_u32(trim(s)) {
        Some(n) => n,
        None => 0,
    }
}

impl Default for SdpInfo {
    fn default() -> (r: Self)
        ensures
            r@ == empty_sdp(),
    {
        let r = SdpInfo {
            feature_flags: 0,
            encryption_supported: 0,
            encryption_requested: 0,
            surround_params: Vec::new(),
        };
        assert(strings(r.surround_params@) =~= Seq::empty());
        r
    }
}

impl SdpInfo {
    /// Parse the description that a host sends.
    pub fn parse(sdp: &[u8]) -> (r: Self)
        ensures
            r@ == sdp_of(utf8_lossy(sdp@)),
    {
        SdpInfo::from_text(decode_lossy(sdp).as_str())
    }

    /// Parse a description in text form.
    pub fn from_text(text: &str) -> (r: Self)
        ensures
            r@ == sdp_of(text@),
    {
        let chars: Vec<char> = chars_of(text);
        let lines: Vec<Vec<char>> = split_on(&chars, '\n');
        let mut out = SdpInfo::default();
        let mut i: usize = 0;
        while i < lines.len()
            invariant
                i <= lines.len(),
                parts(lines@) == split(text@, '\n'),
                out@ == sdp_lines(split(text@, '\n'), i as nat),
            decreases lines.len() - i,
        {
            assert(parts(lines@)[i as int] == lines@[i as int]@);
            let line = trim(&lines[i]);
            let ghost before_line = out@;
            if let Some(v) = strip_prefix(line, "a=x-ss-general.featureFlags:") {
                out.feature_flags = parse_or_zero(v);
            } else if let Some(v) = strip_prefix(line, "a=x-ss-general.encryptionSupported:") {
                out.encryption_supported = parse_or_zero(v);
            } else if let Some(v) = strip_prefix(line, "a=x-ss-general.encryptionRequested:") {
                out.encryption_requested = parse_or_zero(v);
            } else if let Some(v) = strip_prefix(line, "a=fmtp:97 surround-params=") {
                let value: String = string_of(trim(v));
                let ghost layout = value@;
                out.surround_params.push(value);
                assert(strings(out.surround_params@) =~= before_line.surround_params.push(layout));
            }
            i += 1;
        }
        out
    }

    /// Whether the host asks for any media encryption.
    pub fn encryption_required(&self) -> (r: bool)
        ensures
            r == (self.encryption_requested != 0),
    {
        self.encryption_requested != 0
    }
}

/// The parameters of the stream that the client announces.
#[derive(Debug, Clone, Copy, PartialEq, Eq, Structural)]
pub struct AnnounceConfig {
    pub width: u32,
    pub height: u32,
    pub fps: u32,
    pub bitrate_kbps: u32,
    /// Slices that the encoder cuts a frame into.
    pub slices_per_frame: u32,
    /// Parity overhead in percent.
    pub fec_percent: u32,
    /// Payload size of video packets.
    pub packet_size: u32,
    /// Which planes are encrypted; zero for none.
    pub encryption_enabled: u32,
}

impl Default for AnnounceConfig {
    fn default() -> (r: Self)
        ensures
            r == (AnnounceConfig {
                width: 1920,
                height: 1080,
                fps: 60,
                bitrate_kbps: 10_000,
                slices_per_frame: 1,
                fec_percent: 50,
                packet_size: 1392,
                encryption_enabled: 0,
            }),
    {
        AnnounceConfig {
            width: 1920,
            height: 1080,
            fps: 60,
            bitrate_kbps: 10_000,
            slices_per_frame: 1,
            fec_percent: 50,
            packet_size: 1392,
            encryption_enabled: 0,
        }
    }
}

/// What a handshake yields.
#[derive(Debug, Clone, PartialEq, Eq)]
pub struct RtspSession {
    pub session_id: String,
    pub ports: StreamSetup,
    /// The bytes that open the return path of a media port, as the host spelled them.
    pub ping_payload: Vec<u8>,
    /// The token of the control channel.
    pub control_connect_data: u32,
    pub sdp: SdpInfo,
}

/// A response of the host.
#[derive(Debug, Clone)]
pub struct RtspResponse {
    pub status: u16,
    pub headers: Vec<(String, String)>,
    pub body: Vec<u8>,
}

/// What an [`RtspResponse`] holds.
#[verifier::ext_equal]
pub struct ResponseView {
    pub status: u16,
    pub headers: Seq<(Seq<char>, Seq<char>)>,
    pub body: Seq<u8>,
}

/// The contents of a list of pairs of strings.
pub open spec fn string_pairs(v: Seq<(String, String)>) -> Seq<(Seq<char>, Seq<char>)> {
    v.map_values(|p: (String, String)| (p.0@, p.1@))
}

impl View for RtspResponse {
    type V = ResponseView;

    open spec fn view(&self) -> ResponseView {
        ResponseView {
            status: self.status,
            headers: string_pairs(self.headers@),
            body: self.body@,
        }
    }
}

/// The value of the first header with the given name, whatever the case of its letters.
pub open spec fn header_value(
    headers: Seq<(Seq<char>, Seq<char>)>,
    name: Seq<char>,
) -> Option<Seq<char>>
    decreases headers.len(),
{
    if headers.len() == 0 {
        None
    } else if same_but_case(headers[0].0, name) {
        Some(headers[0].1)
    } else {
        header_value(headers.skip(1), name)
    }
}

impl RtspResponse {
    /// The value of a header, whatever the case of the letters in its name.
    pub fn header(&self, name: &str) -> (r: Option<&str>)
        ensures
            r is Some <==> header_value(self@.headers, name@) is Some,
            r matches Some(v) ==> v@ == header_value(self@.headers, name@)->0,
    {
        let wanted: Vec<char> = chars_of(name);
        let mut i: usize = 0;
        let ghost headers = self@.headers;
        assert(headers.skip(0) =~= headers);
        while i < self.headers.len()
            invariant
                i <= self.headers.len(),
                headers == string_pairs(self.headers@),
                wanted@ == name@,
                header_value(headers, name@) == header_value(headers.skip(i as int), name@),
            decreases self.headers.len() - i,
        {
            assert(headers[i as int] == (self.headers@[i as int].0@, self.headers@[i as int].1@));
            let key: Vec<char> = chars_of(self.headers[i].0.as_str());
            if equal_ignoring_case(&key, &wanted) {
                return Some(self.headers[i].1.as_str());
            }
            assert(headers.skip(i as int).skip(1) =~= headers.skip(i + 1));
            i += 1;
        }
        None
    }
}

/// The default port of a host.
pub const DEFAULT_RTSP_PORT: u16 = 48010;

/// The host and the port that a URL names, or the text of the error.
pub open spec fn url_parts(url: Seq<char>) -> Result<(Seq<char>, u16), Seq<char>> {
    if !begins_with(url, "rtsp://"@) {
        Err("not an rtsp URL: "@ + url)
    } else {
        let authority = before(url.skip("rtsp://"@.len() as int), '/');
        let colon = last_index_of(authority, ':');
        if colon < 0 {
            Ok((authority, DEFAULT_RTSP_PORT))
        } else {
            match parsed(authority.skip(colon + 1), u16::MAX as nat) {
                Some(p) => Ok((authority.take(colon), p as u16)),
                None => Err("bad RTSP port in "@ + url),
            }
        }
    }
}

/// The URI of a host and a port.
pub open spec fn target_of(host: Seq<char>, port: u16) -> Seq<char> {
    "rtsp://"@ + host + ":"@ + decimal(port as nat)
}

/// Builds the requests to one host and counts them.
pub struct RtspClient {
    host: String,
    port: u16,
    target: String,
    cseq: u32,
    timeout: Duration,
}

/// What an [`RtspClient`] holds.
#[verifier::ext_equal]
pub struct ClientView {
    pub host: Seq<char>,
    pub port: u16,
    pub target: Seq<char>,
    /// The number of the last request.
    pub cseq: u32,
    pub timeout: Duration,
}

impl View for RtspClient {
    type V = ClientView;

    closed spec fn view(&self) -> ClientView {
        ClientView {
            host: self.host@,
            port: self.port,
            target: self.target@,
            cseq: self.cseq,
            timeout: self.timeout,
        }
    }
}

/// Header lines, each a name, a colon, a value and a line break.
pub open spec fn header_lines(headers: Seq<(Seq<char>, Seq<char>)>, n: nat) -> Seq<char>
    decreases n,
{
    if n == 0 {
        Seq::empty()
    } else {
        header_lines(headers, (n - 1) as nat) + headers[n - 1].0 + ": "@ + headers[n - 1].1
            + "\r\n"@
    }
}

/// The text of a request before its body.
pub open spec fn request_head(
    method: Seq<char>,
    uri: Seq<char>,
    cseq: u32,
    headers: Seq<(Seq<char>, Seq<char>)>,
    body_len: nat,
) -> Seq<char> {
    let start = method + " "@ + uri + " RTSP/1.0\r\nCSeq: "@ + decimal(cseq as nat) + "\r\n"@
        + header_lines(headers, headers.len());
    let length = if body_len > 0 {
        "Content-Length: "@ + decimal(body_len) + "\r\n"@
    } else {
        Seq::empty()
    };
    start + length + "\r\n"@
}

/// The bytes of a request.
pub open spec fn request_bytes(
    method: Seq<char>,
    uri: Seq<char>,
    cseq: u32,
    headers: Seq<(Seq<char>, Seq<char>)>,
    body: Seq<u8>,
) -> Seq<u8> {
    encode_utf8(request_head(method, uri, cseq, headers, body.len())) + body
}

/// The contents of a list of pairs of string slices.
pub open spec fn str_pairs(v: Seq<(&str, &str)>) -> Seq<(Seq<char>, Seq<char>)> {
    v.map_values(|p: (&str, &str)| (p.0@, p.1@))
}

/// One line of a session description: an attribute, its value and a line break.
pub open spec fn sdp_line(name: Seq<char>, value: Seq<char>) -> Seq<char> {
    name + value + "\r\n"@
}

/// The description that announces a stream.
pub open spec fn announce_sdp(host: Seq<char>, cfg: AnnounceConfig) -> Seq<char> {
    let kbps = decimal(cfg.bitrate_kbps as nat);
    Seq::<char>::empty()
        + sdp_line("v=0"@, ""@)
        + sdp_line("o=android 0 14 IN IPv4 "@, host)
        + sdp_line("s=NVIDIA Streaming Client"@, ""@)
        + sdp_line("t=0 0"@, ""@)
        + sdp_line("a=x-nv-video[0].clientViewportWd:"@, decimal(cfg.width as nat))
        + sdp_line("a=x-nv-video[0].clientViewportHt:"@, decimal(cfg.height as nat))
        + sdp_line("a=x-nv-video[0].maxFPS:"@, decimal(cfg.fps as nat))
        + sdp_line("a=x-nv-video[0].clientRefreshRateX100:"@, decimal((cfg.fps * 100) as nat))
        + sdp_line("a=x-nv-video[0].packetSize:"@, decimal(cfg.packet_size as nat))
        + sdp_line("a=x-nv-video[0].rateControlMode:4"@, ""@)
        + sdp_line("a=x-nv-video[0].timeoutLengthMs:7000"@, ""@)
        + sdp_line("a=x-nv-video[0].framesWithInvalidRefThreshold:0"@, ""@)
        + sdp_line("a=x-nv-video[0].initialBitrateKbps:"@, kbps)
        + sdp_line("a=x-nv-video[0].initialPeakBitrateKbps:"@, kbps)
        + sdp_line("a=x-nv-video[0].maxNumReferenceFrames:1"@, ""@)
        + sdp_line(
        "a=x-nv-video[0].videoEncoderSlicesPerFrame:"@,
        decimal(cfg.slices_per_frame as nat),
    )
        + sdp_line("a=x-nv-video[0].encoderCscMode:0"@, ""@)
        + sdp_line("a=x-nv-video[0].dynamicRangeMode:0"@, ""@)
        + sdp_line("a=x-nv-vqos[0].bw.minimumBitrateKbps:"@, kbps)
        + sdp_line("a=x-nv-vqos[0].bw.maximumBitrateKbps:"@, kbps)
        + sdp_line("a=x-nv-vqos[0].fec.enable:1"@, ""@)
        + sdp_line("a=x-nv-vqos[0].fec.numSrcPackets:0"@, ""@)
        + sdp_line("a=x-nv-vqos[0].fec.repairPercent:"@, decimal(cfg.fec_percent as nat))
        + sdp_line("a=x-nv-vqos[0].fec.repairMaxPercent:100"@, ""@)
        + sdp_line("a=x-nv-vqos[0].fec.minRequiredFecPackets:2"@, ""@)
        + sdp_line("a=x-nv-vqos[0].drc.enable:0"@, ""@)
        + sdp_line("a=x-nv-vqos[0].qosTrafficType:5"@, ""@)
        + sdp_line("a=x-nv-vqos[0].bitStreamFormat:1"@, ""@)
        + sdp_line("a=x-nv-aqos.qosTrafficType:4"@, ""@)
        + sdp_line("a=x-nv-aqos.packetDuration:5"@, ""@)
        + sdp_line("a=x-nv-aqos.coupledAq:1"@, ""@)
        + sdp_line("a=x-nv-general.serverAddress:"@, host)
        + sdp_line("a=x-nv-general.featureFlags:135"@, ""@)
        + sdp_line("a=x-nv-general.useReliableUdp:1"@, ""@)
        + sdp_line("a=x-nv-clientSupportHevc:1"@, ""@)
        + sdp_line("a=x-nv-audio.surround.numChannels:2"@, ""@)
        + sdp_line("a=x-nv-audio.surround.channelMask:3"@, ""@)
        + sdp_line("a=x-nv-audio.surround.enable:0"@, ""@)
        + sdp_line("a=x-nv-audio.surround.AudioQuality:0"@, ""@)
        + sdp_line("a=x-ml-general.featureFlags:0"@, ""@)
        + sdp_line("a=x-ml-video.configuredBitrateKbps:"@, kbps)
        + sdp_line(
        "a=x-ss-general.encryptionEnabled:"@,
        decimal(cfg.encryption_enabled as nat),
    )
        + sdp_line("a=x-ss-video[0].chromaSamplingType:0"@, ""@)
        + sdp_line("a=x-ss-video[0].intraRefresh:0"@, ""@)
}

fn push_sdp(out: &mut String, name: &str, value: &str)
    ensures
        final(out)@ == old(out)@ + sdp_line(name@, value@),
{
    out.append(name);
    out.append(value);
    out.append("\r\n");
    assert(out@ =~= old(out)@ + sdp_line(name@, value@));
}

fn push_attribute(out: &mut String, line: &str)
    ensures
        final(out)@ == old(out)@ + sdp_line(line@, ""@),
{
    push_sdp(out, line, "");
}

impl RtspClient {
    /// A client for the host that an `rtsp://host:port` URL names.
    pub fn new(rtsp_url: &str, timeout: Duration) -> (r: Result<Self, Error>)
        ensures
            match url_parts(rtsp_url@) {
                Ok((host, port)) => r matches Ok(c) && c@ == (ClientView {
                    host,
                    port,
                    target: target_of(host, port),
                    cseq: 0,
                    timeout,
                }),
                Err(text) => r matches Err(e) && is_protocol(e, text),
            },
    {
        let url: Vec<char> = chars_of(rtsp_url);
        let rest = match strip_prefix(&url, "rtsp://") {
            Some(rest) => rest,
            None => {
                return Err(protocol2("not an rtsp URL: ", rtsp_url));
            },
        };
        let slash: usize = find(rest, '/');
        let authority = vstd::slice::slice_subrange(rest, 0, slash);
        assert(authority@ =~= before(rest@, '/'));
        let (host, port) = match rfind(authority, ':') {
            Some(colon) => {
                let digits = vstd::slice::slice_subrange(authority, colon + 1, authority.len());
                assert(digits@ =~= authority@.skip(colon + 1));
                match parse_u16(digits) {
                    Some(p) => {
                        let name = vstd::slice::slice_subrange(authority, 0, colon);
                        assert(name@ =~= authority@.take(colon as int));
                        (string_of(name), p)
                    },
                    None => {
                        return Err(protocol2("bad RTSP port in ", rtsp_url));
                    },
                }
            },
            None => (string_of(authority), DEFAULT_RTSP_PORT),
        };
        let mut target = "rtsp://".to_owned();
        target.append(host.as_str());
        target.append(":");
        target.append(decimal_string(port as u64).as_str());
        Ok(RtspClient { host, port, target, cseq: 0, timeout })
    }

    /// The host to connect to.
    pub fn host(&self) -> (r: &str)
        ensures
            r@ == self@.host,
    {
        self.host.as_str()
    }

    /// The port to connect to.
    pub fn port(&self) -> (r: u16)
        ensures
            r == self@.port,
    {
        self.port
    }

    /// How long to wait for the host.
    pub fn timeout(&self) -> (r: Duration)
        ensures
            r == self@.timeout,
    {
        self.timeout
    }

    /// The URI of the host.
    pub fn target(&self) -> (r: &str)
        ensures
            r@ == self@.target,
    {
        self.target.as_str()
    }

    /// The number of the next request.
    pub fn next_cseq(&self) -> (r: u32)
        requires
            self@.cseq < u32::MAX,
        ensures
            r == self@.cseq + 1,
    {
        self.cseq + 1
    }

    /// The bytes of the next request, to be sent at once on a fresh connection.
    pub fn request(
        &mut self,
        method: &str,
        uri: Option<&str>,
        extra_headers: &[(&str, &str)],
        body: &[u8],
    ) -> (r: Vec<u8>)
        requires
            old(self)@.cseq < u32::MAX,
        ensures
            final(self)@ == (ClientView { cseq: (old(self)@.cseq + 1) as u32, ..old(self)@ }),
            r@ == request_bytes(
                method@,
                match uri {
                    Some(u) => u@,
                    None => old(self)@.target,
                },
                (old(self)@.cseq + 1) as u32,
                str_pairs(extra_headers@),
                body@,
            ),
    {
        self.cseq = self.cseq + 1;
        let uri_text: String = match uri {
            Some(u) => copy_str(u),
            None => copy_str(self.target.as_str()),
        };
        let ghost headers = str_pairs(extra_headers@);
        let mut req: String = copy_str(method);
        req.append(" ");
        req.append(uri_text.as_str());
        req.append(" RTSP/1.0\r\nCSeq: ");
        req.append(decimal_string(self.cseq as u64).as_str());
        req.append("\r\n");
        let ghost start = req@;
        let mut i: usize = 0;
        assert(start + header_lines(headers, 0) =~= start);
        while i < extra_headers.len()
            invariant
                i <= extra_headers.len(),
                headers == str_pairs(extra_headers@),
                req@ == start + header_lines(headers, i as nat),
            decreases extra_headers.len() - i,
        {
            let (k, v) = extra_headers[i];
            assert(headers[i as int] == (k@, v@));
            req.append(k);
            req.append(": ");
            req.append(v);
            req.append("\r\n");
            i += 1;
            assert(req@ =~= start + header_lines(headers, i as nat));
        }
        let ghost with_headers = req@;
        if body.len() > 0 {
            req.append("Content-Length: ");
            req.append(decimal_string(body.len() as u64).as_str());
            req.append("\r\n");
            assert(req@ =~= with_headers + ("Content-Length: "@ + decimal(body@.len()) + "\r\n"@));
        } else {
            assert(req@ =~= with_headers + Seq::empty());
        }
        req.append("\r\n");
        let mut packet: Vec<u8> = Vec::new();
        push_slice(&mut packet, req.as_str().as_bytes());
        push_slice(&mut packet, body);
        assert(packet@ =~= encode_utf8(req@) + body@);
        packet
    }

    /// The description that announces a stream.
    pub fn build_announce_sdp(&self, cfg: &AnnounceConfig) -> (r: String)
        requires
            cfg.fps * 100 <= u32::MAX,
        ensures
            r@ == announce_sdp(self@.host, *cfg),
    {
        let host = self.host.as_str();
        let kbps: String = decimal_string(cfg.bitrate_kbps as u64);
        let mut s = String::new();
        push_attribute(&mut s, "v=0");
        push_sdp(&mut s, "o=android 0 14 IN IPv4 ", host);
        push_attribute(&mut s, "s=NVIDIA Streaming Client");
        push_attribute(&mut s, "t=0 0");
        push_sdp(
            &mut s,
            "a=x-nv-video[0].clientViewportWd:",
            decimal_string(cfg.width as u64).as_str(),
        );
        push_sdp(
            &mut s,
            "a=x-nv-video[0].clientViewportHt:",
            decimal_string(cfg.height as u64).as_str(),
        );
        push_sdp(&mut s, "a=x-nv-video[0].maxFPS:", decimal_string(cfg.fps as u64).as_str());
        push_sdp(
            &mut s,
            "a=x-nv-video[0].clientRefreshRateX100:",
            decimal_string((cfg.fps * 100) as u64).as_str(),
        );
        push_sdp(
            &mut s,
            "a=x-nv-video[0].packetSize:",
            decimal_string(cfg.packet_size as u64).as_str(),
        );
        push_attribute(&mut s, "a=x-nv-video[0].rateControlMode:4");
        push_attribute(&mut s, "a=x-nv-video[0].timeoutLengthMs:7000");
        push_attribute(&mut s, "a=x-nv-video[0].framesWithInvalidRefThreshold:0");
        push_sdp(&mut s, "a=x-nv-video[0].initialBitrateKbps:", kbps.as_str());
        push_sdp(&mut s, "a=x-nv-video[0].initialPeakBitrateKbps:", kbps.as_str());
        push_attribute(&mut s, "a=x-nv-video[0].maxNumReferenceFrames:1");
        push_sdp(
            &mut s,
            "a=x-nv-video[0].videoEncoderSlicesPerFrame:",
            decimal_string(cfg.slices_per_frame as u64).as_str(),
        );
        push_attribute(&mut s, "a=x-nv-video[0].encoderCscMode:0");
        push_attribute(&mut s, "a=x-nv-video[0].dynamicRangeMode:0");
        push_sdp(&mut s, "a=x-nv-vqos[0].bw.minimumBitrateKbps:", kbps.as_str());
        push_sdp(&mut s, "a=x-nv-vqos[0].bw.maximumBitrateKbps:", kbps.as_str());
        push_attribute(&mut s, "a=x-nv-vqos[0].fec.enable:1");
        push_attribute(&mut s, "a=x-nv-vqos[0].fec.numSrcPackets:0");
        push_sdp(
            &mut s,
            "a=x-nv-vqos[0].fec.repairPercent:",
            decimal_string(cfg.fec_percent as u64).as_str(),
        );
        push_attribute(&mut s, "a=x-nv-vqos[0].fec.repairMaxPercent:100");
        push_attribute(&mut s, "a=x-nv-vqos[0].fec.minRequiredFecPackets:2");
        push_attribute(&mut s, "a=x-nv-vqos[0].drc.enable:0");
        push_attribute(&mut s, "a=x-nv-vqos[0].qosTrafficType:5");
        push_attribute(&mut s, "a=x-nv-vqos[0].bitStreamFormat:1");
        push_attribute(&mut s, "a=x-nv-aqos.qosTrafficType:4");
        push_attribute(&mut s, "a=x-nv-aqos.packetDuration:5");
        push_attribute(&mut s, "a=x-nv-aqos.coupledAq:1");
        push_sdp(&mut s, "a=x-nv-general.serverAddress:", host);
        push_attribute(&mut s, "a=x-nv-general.featureFlags:135");
        push_attribute(&mut s, "a=x-nv-general.useReliableUdp:1");
        push_attribute(&mut s, "a=x-nv-clientSupportHevc:1");
        push_attribute(&mut s, "a=x-nv-audio.surround.numChannels:2");
        push_attribute(&mut s, "a=x-nv-audio.surround.channelMask:3");
        push_attribute(&mut s, "a=x-nv-audio.surround.enable:0");
        push_attribute(&mut s, "a=x-nv-audio.surround.AudioQuality:0");
        push_attribute(&mut s, "a=x-ml-general.featureFlags:0");
        push_sdp(&mut s, "a=x-ml-video.configuredBitrateKbps:", kbps.as_str());
        push_sdp(
            &mut s,
            "a=x-ss-general.encryptionEnabled:",
            decimal_string(cfg.encryption_enabled as u64).as_str(),
        );
        push_attribute(&mut s, "a=x-ss-video[0].chromaSamplingType:0");
        push_attribute(&mut s, "a=x-ss-video[0].intraRefresh:0");
        s
    }
}

/// What follows `prefix` in the first part that begins with it, white space around a part aside.
pub open spec fn first_value(list: Seq<Seq<char>>, prefix: Seq<char>) -> Option<Seq<char>>
    decreases list.len(),
{
    if list.len() == 0 {
        None
    } else if begins_with(trimmed(list[0]), prefix) {
        Some(trimmed(list[0]).skip(prefix.len() as int))
    } else {
        first_value(list.skip(1), prefix)
    }
}

/// The server port that a `Transport` header names, or the text of the error.
pub open spec fn server_port(transport: Option<Seq<char>>) -> Result<u16, Seq<char>> {
    match transport {
        None => Err("SETUP: no Transport header"@),
        Some(t) => match first_value(split(t, ';'), "server_port="@) {
            None => Err("SETUP: no server_port in "@ + quoted(t)),
            Some(v) => match parsed(trimmed(v), u16::MAX as nat) {
                None => Err("SETUP: no server_port in "@ + quoted(t)),
                Some(n) => Ok(n as u16),
            },
        },
    }
}

/// The server port that a `Transport` header names.
pub fn parse_server_port(transport: Option<&str>) -> (r: Result<u16, Error>)
    ensures
        match server_port(
            match transport {
                Some(t) => Some(t@),
                None => None,
            },
        ) {
            Ok(n) => r == Ok::<u16, Error>(n),
            Err(text) => r matches Err(e) && is_protocol(e, text),
        },
{
    let t = match transport {
        Some(t) => t,
        None => {
            return Err(protocol("SETUP: no Transport header"));
        },
    };
    let chars: Vec<char> = chars_of(t);
    let list: Vec<Vec<char>> = split_on(&chars, ';');
    let ghost all = split(t@, ';');
    let mut i: usize = 0;
    assert(all.skip(0) =~= all);
    while i < list.len()
        invariant
            i <= list.len(),
            all == split(t@, ';'),
            all == parts(list@),
            transport == Some(t),
            first_value(all, "server_port="@) == first_value(all.skip(i as int), "server_port="@),
        decreases list.len() - i,
    {
        assert(all[i as int] == list@[i as int]@);
        if let Some(v) = strip_prefix(trim(&list[i]), "server_port=") {
            return match parse_u16(trim(v)) {
                Some(n) => Ok(n),
                None => Err(protocol2("SETUP: no server_port in ", quote(t).as_str())),
            };
        }
        assert(all.skip(i as int).skip(1) =~= all.skip(i + 1));
        i += 1;
    }
    Err(protocol2("SETUP: no server_port in ", quote(t).as_str()))
}

/// The status, the headers and the announced length of the body of a response.
pub struct ResponseHead {
    pub status: u16,
    pub headers: Vec<(String, String)>,
    pub content_length: Option<usize>,
}

/// What a [`ResponseHead`] holds.
#[verifier::ext_equal]
pub struct HeadView {
    pub status: u16,
    pub headers: Seq<(Seq<char>, Seq<char>)>,
    pub content_length: Option<nat>,
}

impl View for ResponseHead {
    type V = HeadView;

    open spec fn view(&self) -> HeadView {
        HeadView {
            status: self.status,
            headers: string_pairs(self.headers@),
            content_length: match self.content_length {
                Some(n) => Some(n as nat),
                None => None,
            },
        }
    }
}

/// The head after one more line: a line with a colon is a header, and a `Content-Length` header
/// sets the length if it spells one.
pub open spec fn with_header(head: HeadView, line: Seq<char>) -> HeadView {
    let colon = index_of(line, ':');
    if colon < line.len() {
        let name = trimmed(line.take(colon));
        let value = trimmed(line.skip(colon + 1));
        HeadView {
            headers: head.headers.push((name, value)),
            content_length: if same_but_case(name, "Content-Length"@) {
                parsed(value, usize::MAX as nat)
            } else {
                head.content_length
            },
            ..head
        }
    } else {
        head
    }
}

/// The head that the lines from the second up to the `n`-th make.
pub open spec fn head_lines(status: u16, lines: Seq<Seq<char>>, n: nat) -> HeadView
    decreases n,
{
    if n <= 1 {
        HeadView { status, headers: Seq::empty(), content_length: None }
    } else {
        with_header(head_lines(status, lines, (n - 1) as nat), lines[n - 1])
    }
}

/// The head in text form taken apart, or the text of the error. The status is the second word of
/// the first line.
pub open spec fn head_of(text: Seq<char>) -> Result<HeadView, Seq<char>> {
    let lines = split_crlf(text);
    let bad = "RTSP: bad status line "@ + quoted(lines[0]);
    match second_word(lines[0]) {
        None => Err(bad),
        Some(w) => match parsed(w, u16::MAX as nat) {
            None => Err(bad),
            Some(status) => Ok(head_lines(status as u16, lines, lines.len())),
        },
    }
}

/// Take the head of a response apart.
pub fn parse_head(text: &str) -> (r: Result<ResponseHead, Error>)
    ensures
        match head_of(text@) {
            Ok(head) => r matches Ok(h) && h@ == head,
            Err(t) => r matches Err(e) && is_protocol(e, t),
        },
{
    let chars: Vec<char> = chars_of(text);
    let lines: Vec<Vec<char>> = split_lines(&chars);
    let ghost all = split_crlf(text@);
    assert(all[0] == lines@[0]@);
    let status: Option<u16> = match word_two(&lines[0]) {
        Some(w) => parse_u16(w),
        None => None,
    };
    let status: u16 = match status {
        Some(n) => n,
        None => {
            let line: String = string_of(&lines[0]);
            return Err(protocol2("RTSP: bad status line ", quote(line.as_str()).as_str()));
        },
    };
    let mut headers: Vec<(String, String)> = Vec::new();
    let mut content_length: Option<usize> = None;
    let wanted: Vec<char> = chars_of("Content-Length");
    let ghost mut head = head_lines(status, all, 1);
    assert(string_pairs(headers@) =~= Seq::empty());
    let mut i: usize = 1;
    while i < lines.len()
        invariant
            1 <= i <= lines.len(),
            all == parts(lines@),
            wanted@ == "Content-Length"@,
            head == head_lines(status, all, i as nat),
            head.status == status,
            head.headers == string_pairs(headers@),
            head.content_length == (match content_length {
                Some(n) => Some(n as nat),
                None => None,
            }),
        decreases lines.len() - i,
    {
        assert(all[i as int] == lines@[i as int]@);
        let line = lines[i].as_slice();
        let colon: usize = find(line, ':');
        if colon < line.len() {
            let name = trim(vstd::slice::slice_subrange(line, 0, colon));
            let value = trim(vstd::slice::slice_subrange(line, colon + 1, line.len()));
            assert(line@.subrange(0, colon as int) =~= line@.take(colon as int));
            assert(line@.subrange(colon + 1, line@.len() as int) =~= line@.skip(colon + 1));
            if equal_ignoring_case(name, &wanted) {
                content_length = match parse_up_to(value, usize::MAX as u64) {
                    Some(n) => Some(n as usize),
                    None => None,
                };
            }
            let ghost before_push = headers@;
            headers.push((string_of(name), string_of(value)));
            assert(string_pairs(headers@) =~= string_pairs(before_push).push((name@, value@)));
        }
        proof {
            head = head_lines(status, all, (i + 1) as nat);
        }
        i += 1;
    }
    Ok(ResponseHead { status, headers, content_length })
}

/// The index of the first occurrence of `needle` at or after `from`, or -1 if there is none.
pub open spec fn subslice_at(haystack: Seq<u8>, needle: Seq<u8>, from: int) -> int
    decreases haystack.len() - from,
{
    if from < 0 || from + needle.len() > haystack.len() {
        -1
    } else if haystack.subrange(from, from + needle.len()) == needle {
        from
    } else if from < haystack.len() {
        subslice_at(haystack, needle, from + 1)
    } else {
        -1
    }
}

/// The index of the first occurrence of `needle`.
pub fn find_subslice(haystack: &[u8], needle: &[u8]) -> (r: Option<usize>)
    requires
        needle.len() > 0,
    ensures
        r is Some <==> subslice_at(haystack@, needle@, 0) >= 0,
        r matches Some(i) ==> i == subslice_at(haystack@, needle@, 0) && i + needle.len()
            <= haystack.len(),
{
    let mut i: usize = 0;
    while i <= haystack.len() && needle.len() <= haystack.len() - i
        invariant
            i <= haystack.len(),
            needle.len() > 0,
            subslice_at(haystack@, needle@, 0) == subslice_at(haystack@, needle@, i as int),
        decreases haystack.len() - i,
    {
        let window = vstd::slice::slice_subrange(haystack, i, i + needle.len());
        if crate::bytes::same_bytes(window, needle) {
            return Some(i);
        }
        i += 1;
    }
    None
}

/// The empty line that ends the head of a response.
pub open spec fn head_end() -> Seq<u8> {
    seq![13u8, 10u8, 13u8, 10u8]
}

/// How far a response has come.
pub enum Reading {
    /// More bytes are needed.
    Partial,
    /// The connection may be closed.
    Complete(ResponseView),
    /// The bytes are no response; the text says why.
    Failed(Seq<char>),
}

/// How far the response is that starts with the given bytes. It is complete when as many bytes
/// as announced follow the head, or when the connection is closed.
pub open spec fn reading(received: Seq<u8>, closed: bool) -> Reading {
    let at = subslice_at(received, head_end(), 0);
    if at < 0 {
        if closed {
            Reading::Failed("RTSP: connection closed before headers"@)
        } else {
            Reading::Partial
        }
    } else {
        match head_of(utf8_lossy(received.take(at + 4))) {
            Err(text) => Reading::Failed(text),
            Ok(head) => {
                let body = received.skip(at + 4);
                if closed || (head.content_length matches Some(n) && body.len() >= n) {
                    Reading::Complete(
                        ResponseView { status: head.status, headers: head.headers, body },
                    )
                } else {
                    Reading::Partial
                }
            },
        }
    }
}

/// Look at the bytes of a response received so far: `Ok(None)` asks for more. Whether it is
/// complete does not depend on how the bytes were cut into reads.
pub fn read_response(received: &[u8], closed: bool) -> (r: Result<Option<RtspResponse>, Error>)
    ensures
        match reading(received@, closed) {
            Reading::Partial => r matches Ok(None),
            Reading::Complete(v) => r matches Ok(Some(resp)) && resp@ == v,
            Reading::Failed(text) => r matches Err(e) && is_protocol(e, text),
        },
{
    let mut end: Vec<u8> = Vec::new();
    end.push(13);
    end.push(10);
    end.push(13);
    end.push(10);
    assert(end@ =~= head_end());
    let at: usize = match find_subslice(received, &end) {
        Some(at) => at,
        None => {
            if closed {
                return Err(protocol("RTSP: connection closed before headers"));
            }
            return Ok(None);
        },
    };
    let head_bytes = vstd::slice::slice_subrange(received, 0, at + 4);
    assert(head_bytes@ =~= received@.take(at + 4));
    let text: String = decode_lossy(head_bytes);
    let head = match parse_head(text.as_str()) {
        Ok(head) => head,
        Err(e) => {
            return Err(e);
        },
    };
    let body_len: usize = received.len() - (at + 4);
    let enough = match head.content_length {
        Some(n) => body_len >= n,
        None => false,
    };
    if closed || enough {
        let body: Vec<u8> = copy_range(received, at + 4, received.len());
        assert(body@ =~= received@.skip(at + 4));
        Ok(Some(RtspResponse { status: head.status, headers: head.headers, body }))
    } else {
        Ok(None)
    }
}

/// The steps of a handshake, in order.
#[derive(Debug, Clone, Copy, PartialEq, Eq, Structural)]
pub enum Stage {
    Options,
    Describe,
    SetupVideo,
    SetupAudio,
    SetupControl,
    Announce,
    Play,
    Done,
}

/// The step after `s`.
pub open spec fn next_stage(s: Stage) -> Stage {
    match s {
        Stage::Options => Stage::Describe,
        Stage::Describe => Stage::SetupVideo,
        Stage::SetupVideo => Stage::SetupAudio,
        Stage::SetupAudio => Stage::SetupControl,
        Stage::SetupControl => Stage::Announce,
        Stage::Announce => Stage::Play,
        Stage::Play => Stage::Done,
        Stage::Done => Stage::Done,
    }
}

/// A handshake under way.
pub struct Handshake {
    stage: Stage,
    sdp: SdpInfo,
    ports: StreamSetup,
    session_id: String,
    ping_payload: Vec<u8>,
    control_connect_data: u32,
}

/// What a [`Handshake`] has learned.
#[verifier::ext_equal]
pub struct HandshakeView {
    pub stage: Stage,
    pub sdp: SdpView,
    pub ports: StreamSetup,
    pub session_id: Seq<char>,
    pub ping_payload: Seq<u8>,
    pub control_connect_data: u32,
}

impl View for Handshake {
    type V = HandshakeView;

    closed spec fn view(&self) -> HandshakeView {
        HandshakeView {
            stage: self.stage,
            sdp: self.sdp@,
            ports: self.ports,
            session_id: self.session_id@,
            ping_payload: self.ping_payload@,
            control_connect_data: self.control_connect_data,
        }
    }
}

/// A handshake that has learned nothing.
pub open spec fn handshake_start() -> HandshakeView {
    HandshakeView {
        stage: Stage::Options,
        sdp: empty_sdp(),
        ports: StreamSetup { video_port: 0, audio_port: 0, control_port: 0 },
        session_id: Seq::empty(),
        ping_payload: Seq::empty(),
        control_connect_data: 0,
    }
}

/// The stream that a step sets up.
pub open spec fn stream_name(s: Stage) -> Seq<char> {
    match s {
        Stage::SetupVideo => "video"@,
        Stage::SetupAudio => "audio"@,
        _ => "control"@,
    }
}

/// The ports with that of one more stream.
pub open spec fn with_port(ports: StreamSetup, s: Stage, port: u16) -> StreamSetup {
    match s {
        Stage::SetupVideo => StreamSetup { video_port: port, ..ports },
        Stage::SetupAudio => StreamSetup { audio_port: port, ..ports },
        _ => StreamSetup { control_port: port, ..ports },
    }
}

/// What a successful response to a `SETUP` request adds.
pub open spec fn with_setup(h: HandshakeView, r: ResponseView, port: u16) -> HandshakeView {
    HandshakeView {
        stage: next_stage(h.stage),
        sdp: h.sdp,
        ports: with_port(h.ports, h.stage, port),
        session_id: match header_value(r.headers, "Session"@) {
            Some(v) => trimmed(before(v, ';')),
            None => h.session_id,
        },
        ping_payload: match header_value(r.headers, "X-SS-Ping-Payload"@) {
            Some(v) => encode_utf8(trimmed(v)),
            None => h.ping_payload,
        },
        control_connect_data: match header_value(r.headers, "X-SS-Connect-Data"@) {
            Some(v) => number_or_zero(v),
            None => h.control_connect_data,
        },
    }
}

/// The handshake after a response, or the text of the error that ends it.
pub open spec fn after_response(h: HandshakeView, r: ResponseView) -> Result<
    HandshakeView,
    Seq<char>,
> {
    match h.stage {
        Stage::Options => Ok(HandshakeView { stage: Stage::Describe, ..h }),
        Stage::Describe => Ok(
            HandshakeView { stage: Stage::SetupVideo, sdp: sdp_of(utf8_lossy(r.body)), ..h },
        ),
        Stage::SetupVideo | Stage::SetupAudio | Stage::SetupControl => if r.status != 200 {
            Err("SETUP "@ + stream_name(h.stage) + ": RTSP "@ + decimal(r.status as nat))
        } else {
            match server_port(header_value(r.headers, "Transport"@)) {
                Err(text) => Err(text),
                Ok(port) => Ok(with_setup(h, r, port)),
            }
        },
        Stage::Announce => if r.status != 200 {
            Err(
                "ANNOUNCE: RTSP "@ + decimal(r.status as nat)
                    + " (SDP missing a mandatory attribute?)"@,
            )
        } else {
            Ok(HandshakeView { stage: Stage::Play, ..h })
        },
        Stage::Play => if r.status != 200 {
            Err("PLAY: RTSP "@ + decimal(r.status as nat))
        } else {
            Ok(HandshakeView { stage: Stage::Done, ..h })
        },
        Stage::Done => Ok(h),
    }
}

/// The header that tells the version of the client.
pub open spec fn version_header() -> (Seq<char>, Seq<char>) {
    ("X-GS-ClientVersion"@, "14"@)
}

/// The request of a step.
pub open spec fn stage_request(c: ClientView, h: HandshakeView, cfg: AnnounceConfig) -> Seq<u8> {
    let cseq = (c.cseq + 1) as u32;
    let empty = Seq::<u8>::empty();
    match h.stage {
        Stage::Options => request_bytes(
            "OPTIONS"@,
            c.target,
            cseq,
            seq![version_header()],
            empty,
        ),
        Stage::Describe => request_bytes(
            "DESCRIBE"@,
            c.target,
            cseq,
            seq![version_header()],
            empty,
        ),
        Stage::SetupVideo | Stage::SetupAudio | Stage::SetupControl => request_bytes(
            "SETUP"@,
            c.target + "/streamid="@ + stream_name(h.stage),
            cseq,
            seq![("Transport"@, "unicast;X-GS-ClientPort=50000-50001"@), version_header()],
            empty,
        ),
        Stage::Announce => request_bytes(
            "ANNOUNCE"@,
            c.target,
            cseq,
            seq![
                ("Content-type"@, "application/sdp"@),
                ("Session"@, h.session_id),
                version_header(),
            ],
            encode_utf8(announce_sdp(c.host, cfg)),
        ),
        _ => request_bytes(
            "PLAY"@,
            c.target,
            cseq,
            seq![("Session"@, h.session_id), version_header()],
            empty,
        ),
    }
}

/// The handshake after the first `n` responses.
pub open spec fn after_responses(responses: Seq<ResponseView>, n: nat) -> Result<
    HandshakeView,
    Seq<char>,
>
    decreases n,
{
    if n == 0 {
        Ok(handshake_start())
    } else {
        match after_responses(responses, (n - 1) as nat) {
            Err(text) => Err(text),
            Ok(h) => after_response(h, responses[n - 1]),
        }
    }
}

/// Whether a response to a `SETUP` request is one to go on with.
pub open spec fn setup_accepted(r: ResponseView) -> bool {
    r.status == 200 && server_port(header_value(r.headers, "Transport"@)) is Ok
}

/// A handshake takes seven responses: it succeeds exactly if the three `SETUP` requests are
/// accepted with a server port and the last two requests with status 200, and it binds each
/// stream to the port of its own response.
pub proof fn law_handshake(rs: Seq<ResponseView>)
    requires
        rs.len() == 7,
    ensures
        after_responses(rs, 7) is Ok <==> setup_accepted(rs[2]) && setup_accepted(rs[3])
            && setup_accepted(rs[4]) && rs[5].status == 200 && rs[6].status == 200,
        after_responses(rs, 7) matches Ok(h) ==> {
            &&& h.stage == Stage::Done
            &&& h.sdp == sdp_of(utf8_lossy(rs[1].body))
            &&& h.ports == (StreamSetup {
                video_port: server_port(header_value(rs[2].headers, "Transport"@))->Ok_0,
                audio_port: server_port(header_value(rs[3].headers, "Transport"@))->Ok_0,
                control_port: server_port(header_value(rs[4].headers, "Transport"@))->Ok_0,
            })
        },
{
    reveal_with_fuel(after_responses, 8);
}

impl Handshake {
    /// The step that the handshake is at.
    pub fn stage(&self) -> (r: Stage)
        ensures
            r == self@.stage,
    {
        self.stage
    }

    /// Take the response to the request of the current step.
    pub fn on_response(&mut self, resp: &RtspResponse) -> (r: Result<(), Error>)
        ensures
            match after_response(old(self)@, resp@) {
                Ok(h) => r is Ok && final(self)@ == h,
                Err(text) => (r matches Err(e) && is_protocol(e, text)) && final(self)@ == old(
                    self,
                )@,
            },
    {
        match self.stage {
            Stage::Options => {
                self.stage = Stage::Describe;
                Ok(())
            },
            Stage::Describe => {
                self.sdp = SdpInfo::parse(&resp.body);
                self.stage = Stage::SetupVideo;
                Ok(())
            },
            Stage::SetupVideo => self.on_setup(resp, "video"),
            Stage::SetupAudio => self.on_setup(resp, "audio"),
            Stage::SetupControl => self.on_setup(resp, "control"),
            Stage::Announce => {
                if resp.status != 200 {
                    return Err(
                        protocol3(
                            "ANNOUNCE: RTSP ",
                            decimal_string(resp.status as u64).as_str(),
                            " (SDP missing a mandatory attribute?)",
                        ),
                    );
                }
                self.stage = Stage::Play;
                Ok(())
            },
            Stage::Play => {
                if resp.status != 200 {
                    return Err(
                        protocol2("PLAY: RTSP ", decimal_string(resp.status as u64).as_str()),
                    );
                }
                self.stage = Stage::Done;
                Ok(())
            },
            Stage::Done => Ok(()),
        }
    }

    fn on_setup(&mut self, resp: &RtspResponse, stream: &str) -> (r: Result<(), Error>)
        requires
            old(self)@.stage == Stage::SetupVideo || old(self)@.stage == Stage::SetupAudio || old(
                self,
            )@.stage == Stage::SetupControl,
            stream@ == stream_name(old(self)@.stage),
        ensures
            match after_response(old(self)@, resp@) {
                Ok(h) => r is Ok && final(self)@ == h,
                Err(text) => (r matches Err(e) && is_protocol(e, text)) && final(self)@ == old(
                    self,
                )@,
            },
    {
        if resp.status != 200 {
            let mut text = "SETUP ".to_owned();
            text.append(stream);
            text.append(": RTSP ");
            text.append(decimal_string(resp.status as u64).as_str());
            return Err(Error::Protocol(text));
        }
        let port: u16 = match parse_server_port(resp.header("Transport")) {
            Ok(port) => port,
            Err(e) => {
                return Err(e);
            },
        };
        if let Some(v) = resp.header("Session") {
            let chars: Vec<char> = chars_of(v);
            let semicolon: usize = find(&chars, ';');
            let id = vstd::slice::slice_subrange(&chars, 0, semicolon);
            assert(id@ =~= before(v@, ';'));
            self.session_id = string_of(trim(id));
        }
        if let Some(v) = resp.header("X-SS-Ping-Payload") {
            let chars: Vec<char> = chars_of(v);
            let payload: String = string_of(trim(&chars));
            let bytes = payload.as_str().as_bytes();
            self.ping_payload = copy_range(bytes, 0, bytes.len());
            assert(self.ping_payload@ =~= encode_utf8(trimmed(v@)));
        }
        if let Some(v) = resp.header("X-SS-Connect-Data") {
            let chars: Vec<char> = chars_of(v);
            self.control_connect_data = parse_or_zero(&chars);
        }
        match self.stage {
            Stage::SetupVideo => {
                self.ports.video_port = port;
                self.stage = Stage::SetupAudio;
            },
            Stage::SetupAudio => {
                self.ports.audio_port = port;
                self.stage = Stage::SetupControl;
            },
            _ => {
                self.ports.control_port = port;
                self.stage = Stage::Announce;
            },
        }
        Ok(())
    }

    /// What a finished handshake has learned.
    pub fn into_session(self) -> (r: Option<RtspSession>)
        ensures
            r is Some <==> self@.stage == Stage::Done,
            r matches Some(s) ==> {
                &&& s.session_id@ == self@.session_id
                &&& s.ports == self@.ports
                &&& s.ping_payload@ == self@.ping_payload
                &&& s.control_connect_data == self@.control_connect_data
                &&& s.sdp@ == self@.sdp
            },
    {
        match self.stage {
            Stage::Done => Some(
                RtspSession {
                    session_id: self.session_id,
                    ports: self.ports,
                    ping_payload: self.ping_payload,
                    control_connect_data: self.control_connect_data,
                    sdp: self.sdp,
                },
            ),
            _ => None,
        }
    }
}

impl RtspClient {
    /// Begin the handshake.
    pub fn handshake(&self) -> (r: Handshake)
        ensures
            r@ == handshake_start(),
    {
        Handshake {
            stage: Stage::Options,
            sdp: SdpInfo::default(),
            ports: StreamSetup::default(),
            session_id: String::new(),
            ping_payload: Vec::new(),
            control_connect_data: 0,
        }
    }

    /// The request that announces the stream.
    pub fn announce(&mut self, session_id: &str, cfg: &AnnounceConfig) -> (r: Vec<u8>)
        requires
            old(self)@.cseq < u32::MAX,
            cfg.fps * 100 <= u32::MAX,
        ensures
            final(self)@ == (ClientView { cseq: (old(self)@.cseq + 1) as u32, ..old(self)@ }),
            r@ == request_bytes(
                "ANNOUNCE"@,
                old(self)@.target,
                (old(self)@.cseq + 1) as u32,
                seq![
                    ("Content-type"@, "application/sdp"@),
                    ("Session"@, session_id@),
                    version_header(),
                ],
                encode_utf8(announce_sdp(old(self)@.host, *cfg)),
            ),
    {
        let sdp: String = self.build_announce_sdp(cfg);
        let headers: [(&str, &str); 3] = [
            ("Content-type", "application/sdp"),
            ("Session", session_id),
            ("X-GS-ClientVersion", "14"),
        ];
        assert(str_pairs(headers@) =~= seq![
            ("Content-type"@, "application/sdp"@),
            ("Session"@, session_id@),
            version_header(),
        ]);
        self.request("ANNOUNCE", None, &headers, sdp.as_str().as_bytes())
    }

    /// The request of the current step of a handshake; `None` once it is finished.
    pub fn handshake_request(&mut self, h: &Handshake, cfg: &AnnounceConfig) -> (r: Option<
        Vec<u8>,
    >)
        requires
            old(self)@.cseq < u32::MAX,
            cfg.fps * 100 <= u32::MAX,
        ensures
            r is None <==> h@.stage == Stage::Done,
            r is None ==> final(self)@ == old(self)@,
            r matches Some(bytes) ==> {
                &&& bytes@ == stage_request(old(self)@, h@, *cfg)
                &&& final(self)@ == (ClientView {
                    cseq: (old(self)@.cseq + 1) as u32,
                    ..old(self)@
                })
            },
    {
        let version: [(&str, &str); 1] = [("X-GS-ClientVersion", "14")];
        assert(str_pairs(version@) =~= seq![version_header()]);
        let none: [u8; 0] = [];
        assert(none@ =~= Seq::<u8>::empty());
        match h.stage {
            Stage::Options => Some(self.request("OPTIONS", None, &version, &none)),
            Stage::Describe => Some(self.request("DESCRIBE", None, &version, &none)),
            Stage::SetupVideo => Some(self.setup("video")),
            Stage::SetupAudio => Some(self.setup("audio")),
            Stage::SetupControl => Some(self.setup("control")),
            Stage::Announce => Some(self.announce(h.session_id.as_str(), cfg)),
            Stage::Play => {
                let headers: [(&str, &str); 2] = [
                    ("Session", h.session_id.as_str()),
                    ("X-GS-ClientVersion", "14"),
                ];
                assert(str_pairs(headers@) =~= seq![
                    ("Session"@, h@.session_id),
                    version_header(),
                ]);
                Some(self.request("PLAY", None, &headers, &none))
            },
            Stage::Done => None,
        }
    }

    fn setup(&mut self, stream: &str) -> (r: Vec<u8>)
        requires
            old(self)@.cseq < u32::MAX,
        ensures
            final(self)@ == (ClientView { cseq: (old(self)@.cseq + 1) as u32, ..old(self)@ }),
            r@ == request_bytes(
                "SETUP"@,
                old(self)@.target + "/streamid="@ + stream@,
                (old(self)@.cseq + 1) as u32,
                seq![("Transport"@, "unicast;X-GS-ClientPort=50000-50001"@), version_header()],
                Seq::empty(),
            ),
    {
        let mut uri: String = copy_str(self.target.as_str());
        uri.append("/streamid=");
        uri.append(stream);
        let headers: [(&str, &str); 2] = [
            ("Transport", "unicast;X-GS-ClientPort=50000-50001"),
            ("X-GS-ClientVersion", "14"),
        ];
        assert(str_pairs(headers@) =~= seq![
            ("Transport"@, "unicast;X-GS-ClientPort=50000-50001"@),
            version_header(),
        ]);
        let none: [u8; 0] = [];
        assert(none@ =~= Seq::<u8>::empty());
        self.request("SETUP", Some(uri.as_str()), &headers, &none)
    }
}

} // verus!
