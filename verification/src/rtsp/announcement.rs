//! The description of a stream, read back by the names of its attributes.
use vstd::prelude::*;
use vstd::string::*;

use crate::query::{differ, lemma_differ};
use crate::rtsp::{announce_sdp, AnnounceConfig};
use crate::text::{
    before, begins_with, decimal, index_of, is_digit, law_parsed_decimal, lemma_decimal,
    lemma_index_of, parsed,
};

verus! {

/// The values of the attribute `name` in a description: what follows the name in each line that
/// begins with it. A line ends with a carriage return and a line feed.
pub open spec fn attribute(text: Seq<char>, name: Seq<char>) -> Seq<Seq<char>>
    decreases text.len(),
{
    let end = index_of(text, '\n');
    let line = text.take(end);
    let value = if begins_with(line, name) {
        seq![before(line.skip(name.len() as int), '\r')]
    } else {
        Seq::empty()
    };
    if 0 <= end < text.len() {
        value + attribute(text.skip(end + 1), name)
    } else {
        value
    }
}

/// Whether `name` stands in a description once, with a value that spells a number.
pub open spec fn says_number(text: Seq<char>, name: Seq<char>, n: nat) -> bool {
    attribute(text, name).len() == 1 && parsed(attribute(text, name)[0], n) == Some(n)
}

/// Whether `name` stands in a description once, with a value.
pub open spec fn says(text: Seq<char>, name: Seq<char>, value: Seq<char>) -> bool {
    attribute(text, name) == seq![value]
}

/// No line break is in a text.
pub open spec fn is_one_line(s: Seq<char>) -> bool {
    forall|i: int| 0 <= i < s.len() ==> #[trigger] s[i] != '\n' && s[i] != '\r'
}

/// The lines of a description.
spec fn lines(host: Seq<char>, cfg: AnnounceConfig) -> Seq<Seq<char>> {
    seq![
        "v=0"@ + ""@,
        "o=android 0 14 IN IPv4 "@ + host,
        "s=NVIDIA Streaming Client"@ + ""@,
        "t=0 0"@ + ""@,
        "a=x-nv-video[0].clientViewportWd:"@ + decimal(cfg.width as nat),
        "a=x-nv-video[0].clientViewportHt:"@ + decimal(cfg.height as nat),
        "a=x-nv-video[0].maxFPS:"@ + decimal(cfg.fps as nat),
        "a=x-nv-video[0].clientRefreshRateX100:"@ + decimal((cfg.fps * 100) as nat),
        "a=x-nv-video[0].packetSize:"@ + decimal(cfg.packet_size as nat),
        "a=x-nv-video[0].rateControlMode:4"@ + ""@,
        "a=x-nv-video[0].timeoutLengthMs:7000"@ + ""@,
        "a=x-nv-video[0].framesWithInvalidRefThreshold:0"@ + ""@,
        "a=x-nv-video[0].initialBitrateKbps:"@ + decimal(cfg.bitrate_kbps as nat),
        "a=x-nv-video[0].initialPeakBitrateKbps:"@ + decimal(cfg.bitrate_kbps as nat),
        "a=x-nv-video[0].maxNumReferenceFrames:1"@ + ""@,
        "a=x-nv-video[0].videoEncoderSlicesPerFrame:"@ + decimal(cfg.slices_per_frame as nat),
        "a=x-nv-video[0].encoderCscMode:0"@ + ""@,
        "a=x-nv-video[0].dynamicRangeMode:0"@ + ""@,
        "a=x-nv-vqos[0].bw.minimumBitrateKbps:"@ + decimal(cfg.bitrate_kbps as nat),
        "a=x-nv-vqos[0].bw.maximumBitrateKbps:"@ + decimal(cfg.bitrate_kbps as nat),
        "a=x-nv-vqos[0].fec.enable:1"@ + ""@,
        "a=x-nv-vqos[0].fec.numSrcPackets:0"@ + ""@,
        "a=x-nv-vqos[0].fec.repairPercent:"@ + decimal(cfg.fec_percent as nat),
        "a=x-nv-vqos[0].fec.repairMaxPercent:100"@ + ""@,
        "a=x-nv-vqos[0].fec.minRequiredFecPackets:2"@ + ""@,
        "a=x-nv-vqos[0].drc.enable:0"@ + ""@,
        "a=x-nv-vqos[0].qosTrafficType:5"@ + ""@,
        "a=x-nv-vqos[0].bitStreamFormat:1"@ + ""@,
        "a=x-nv-aqos.qosTrafficType:4"@ + ""@,
        "a=x-nv-aqos.packetDuration:5"@ + ""@,
        "a=x-nv-aqos.coupledAq:1"@ + ""@,
        "a=x-nv-general.serverAddress:"@ + host,
        "a=x-nv-general.featureFlags:135"@ + ""@,
        "a=x-nv-general.useReliableUdp:1"@ + ""@,
        "a=x-nv-clientSupportHevc:1"@ + ""@,
        "a=x-nv-audio.surround.numChannels:2"@ + ""@,
        "a=x-nv-audio.surround.channelMask:3"@ + ""@,
        "a=x-nv-audio.surround.enable:0"@ + ""@,
        "a=x-nv-audio.surround.AudioQuality:0"@ + ""@,
        "a=x-ml-general.featureFlags:0"@ + ""@,
        "a=x-ml-video.configuredBitrateKbps:"@ + decimal(cfg.bitrate_kbps as nat),
        "a=x-ss-general.encryptionEnabled:"@ + decimal(cfg.encryption_enabled as nat),
        "a=x-ss-video[0].chromaSamplingType:0"@ + ""@,
        "a=x-ss-video[0].intraRefresh:0"@ + ""@,
    ]
}

/// The lines from `j` on, with their line breaks.
spec fn lines_from(l: Seq<Seq<char>>, j: int) -> Seq<char>
    decreases l.len() - j,
{
    if j < 0 || j >= l.len() {
        Seq::empty()
    } else {
        (l[j] + "\r\n"@) + lines_from(l, j + 1)
    }
}

/// The first `n` lines, with their line breaks.
spec fn lines_up_to(l: Seq<Seq<char>>, n: nat) -> Seq<char>
    decreases n,
{
    if n == 0 {
        Seq::empty()
    } else {
        lines_up_to(l, (n - 1) as nat) + (l[n - 1] + "\r\n"@)
    }
}

proof fn lemma_lines_meet(l: Seq<Seq<char>>, n: nat)
    requires
        n <= l.len(),
    ensures
        lines_up_to(l, n) + lines_from(l, n as int) == lines_from(l, 0),
    decreases n,
{
    if n == 0 {
        assert(lines_up_to(l, 0) + lines_from(l, 0) =~= lines_from(l, 0));
    } else {
        lemma_lines_meet(l, (n - 1) as nat);
        assert(lines_up_to(l, n) + lines_from(l, n as int) =~= lines_up_to(l, (n - 1) as nat)
            + lines_from(l, n - 1));
    }
}

/// One more line.
proof fn lemma_line(l: Seq<Seq<char>>, n: nat, line: Seq<char>)
    requires
        l[n as int] == line,
    ensures
        lines_up_to(l, n + 1) == lines_up_to(l, n) + (line + "\r\n"@),
{
}

/// The description consists of its lines.
#[verifier::spinoff_prover]
#[verifier::rlimit(60)]
proof fn lemma_lines(host: Seq<char>, cfg: AnnounceConfig)
    ensures
        announce_sdp(host, cfg) == lines_from(lines(host, cfg), 0),
        lines(host, cfg).len() == 44,
{
    let l = lines(host, cfg);
    lemma_line(l, 0, "v=0"@ + ""@);
    lemma_line(l, 1, "o=android 0 14 IN IPv4 "@ + host);
    lemma_line(l, 2, "s=NVIDIA Streaming Client"@ + ""@);
    lemma_line(l, 3, "t=0 0"@ + ""@);
    lemma_line(l, 4, "a=x-nv-video[0].clientViewportWd:"@ + decimal(cfg.width as nat));
    lemma_line(l, 5, "a=x-nv-video[0].clientViewportHt:"@ + decimal(cfg.height as nat));
    lemma_line(l, 6, "a=x-nv-video[0].maxFPS:"@ + decimal(cfg.fps as nat));
    lemma_line(l, 7, "a=x-nv-video[0].clientRefreshRateX100:"@ + decimal((cfg.fps * 100) as nat));
    lemma_line(l, 8, "a=x-nv-video[0].packetSize:"@ + decimal(cfg.packet_size as nat));
    lemma_line(l, 9, "a=x-nv-video[0].rateControlMode:4"@ + ""@);
    lemma_line(l, 10, "a=x-nv-video[0].timeoutLengthMs:7000"@ + ""@);
    lemma_line(l, 11, "a=x-nv-video[0].framesWithInvalidRefThreshold:0"@ + ""@);
    lemma_line(l, 12, "a=x-nv-video[0].initialBitrateKbps:"@ + decimal(cfg.bitrate_kbps as nat));
    lemma_line(l, 13, "a=x-nv-video[0].initialPeakBitrateKbps:"@ + decimal(cfg.bitrate_kbps as nat));
    lemma_line(l, 14, "a=x-nv-video[0].maxNumReferenceFrames:1"@ + ""@);
    lemma_line(l, 15, "a=x-nv-video[0].videoEncoderSlicesPerFrame:"@ + decimal(cfg.slices_per_frame as nat));
    lemma_line(l, 16, "a=x-nv-video[0].encoderCscMode:0"@ + ""@);
    lemma_line(l, 17, "a=x-nv-video[0].dynamicRangeMode:0"@ + ""@);
    lemma_line(l, 18, "a=x-nv-vqos[0].bw.minimumBitrateKbps:"@ + decimal(cfg.bitrate_kbps as nat));
    lemma_line(l, 19, "a=x-nv-vqos[0].bw.maximumBitrateKbps:"@ + decimal(cfg.bitrate_kbps as nat));
    lemma_line(l, 20, "a=x-nv-vqos[0].fec.enable:1"@ + ""@);
    lemma_line(l, 21, "a=x-nv-vqos[0].fec.numSrcPackets:0"@ + ""@);
    lemma_line(l, 22, "a=x-nv-vqos[0].fec.repairPercent:"@ + decimal(cfg.fec_percent as nat));
    lemma_line(l, 23, "a=x-nv-vqos[0].fec.repairMaxPercent:100"@ + ""@);
    lemma_line(l, 24, "a=x-nv-vqos[0].fec.minRequiredFecPackets:2"@ + ""@);
    lemma_line(l, 25, "a=x-nv-vqos[0].drc.enable:0"@ + ""@);
    lemma_line(l, 26, "a=x-nv-vqos[0].qosTrafficType:5"@ + ""@);
    lemma_line(l, 27, "a=x-nv-vqos[0].bitStreamFormat:1"@ + ""@);
    lemma_line(l, 28, "a=x-nv-aqos.qosTrafficType:4"@ + ""@);
    lemma_line(l, 29, "a=x-nv-aqos.packetDuration:5"@ + ""@);
    lemma_line(l, 30, "a=x-nv-aqos.coupledAq:1"@ + ""@);
    lemma_line(l, 31, "a=x-nv-general.serverAddress:"@ + host);
    lemma_line(l, 32, "a=x-nv-general.featureFlags:135"@ + ""@);
    lemma_line(l, 33, "a=x-nv-general.useReliableUdp:1"@ + ""@);
    lemma_line(l, 34, "a=x-nv-clientSupportHevc:1"@ + ""@);
    lemma_line(l, 35, "a=x-nv-audio.surround.numChannels:2"@ + ""@);
    lemma_line(l, 36, "a=x-nv-audio.surround.channelMask:3"@ + ""@);
    lemma_line(l, 37, "a=x-nv-audio.surround.enable:0"@ + ""@);
    lemma_line(l, 38, "a=x-nv-audio.surround.AudioQuality:0"@ + ""@);
    lemma_line(l, 39, "a=x-ml-general.featureFlags:0"@ + ""@);
    lemma_line(l, 40, "a=x-ml-video.configuredBitrateKbps:"@ + decimal(cfg.bitrate_kbps as nat));
    lemma_line(l, 41, "a=x-ss-general.encryptionEnabled:"@ + decimal(cfg.encryption_enabled as nat));
    lemma_line(l, 42, "a=x-ss-video[0].chromaSamplingType:0"@ + ""@);
    lemma_line(l, 43, "a=x-ss-video[0].intraRefresh:0"@ + ""@);
    lemma_lines_meet(l, 44);
    assert(lines_up_to(l, 44) + lines_from(l, 44) =~= lines_up_to(l, 44));
}

/// Whether the first `n` lines hold no line breaks.
spec fn plain(l: Seq<Seq<char>>, n: nat) -> bool
    decreases n,
{
    n == 0 || (plain(l, (n - 1) as nat) && is_one_line(l[n - 1]))
}

proof fn lemma_plain(l: Seq<Seq<char>>, n: nat, j: int)
    requires
        plain(l, n),
        0 <= j < n,
    ensures
        is_one_line(l[j]),
    decreases n,
{
    if j < n - 1 {
        lemma_plain(l, (n - 1) as nat, j);
    }
}

/// What is read from line `j` on: the value of line `own`, if that is still to come.
proof fn lemma_attribute(
    l: Seq<Seq<char>>,
    own: int,
    name: Seq<char>,
    value: Seq<char>,
    a: int,
    b: int,
    j: int,
)
    requires
        plain(l, l.len()),
        differ(l, l.len(), own, name, a, b),
        0 <= own < l.len(),
        l[own] == name + value,
        0 <= a < name.len(),
        0 <= b < name.len(),
        0 <= j <= l.len(),
    ensures
        attribute(lines_from(l, j), name) == if j <= own {
            seq![value]
        } else {
            Seq::empty()
        },
    decreases l.len() - j,
{
    let text = lines_from(l, j);
    reveal_strlit("\r\n");
    if j == l.len() {
        lemma_index_of(text, '\n');
        assert(text.take(0) =~= Seq::empty());
    } else {
        lemma_attribute(l, own, name, value, a, b, j + 1);
        lemma_plain(l, l.len(), j);
        let rest = lines_from(l, j + 1);
        let n = l[j].len() as int;
        let end = n + 1;
        assert(text[n] == '\r' && text[end] == '\n');
        lemma_index_of(text, '\n');
        assert(index_of(text, '\n') == end) by {
            let i = index_of(text, '\n');
            if i < end {
                if i < n {
                    assert(text[i] == l[j][i]);
                }
            } else if i > end {
                assert(text[end] != '\n');
            }
        }
        let line = text.take(end);
        assert(text.skip(end + 1) =~= rest);
        if j == own {
            assert(line.take(name.len() as int) =~= name);
            let tail = line.skip(name.len() as int);
            assert(tail[value.len() as int] == '\r');
            lemma_index_of(tail, '\r');
            assert(index_of(tail, '\r') == value.len()) by {
                let i = index_of(tail, '\r');
                if i < value.len() {
                    assert(tail[i] == l[own][name.len() + i]);
                } else if i > value.len() {
                    assert(tail[value.len() as int] != '\r');
                }
            }
            assert(before(tail, '\r') =~= value);
            assert(seq![value] + Seq::<Seq<char>>::empty() =~= seq![value]);
        } else {
            lemma_differ(l, l.len(), own, name, a, b, j);
            if begins_with(line, name) {
                assert(line.take(name.len() as int)[a] == line[a]);
                assert(line.take(name.len() as int)[b] == line[b]);
                assert(a < n ==> line[a] == l[j][a]);
                assert(b < n ==> line[b] == l[j][b]);
                assert(name[a] != '\r' && name[b] != '\r') by {
                    lemma_plain(l, l.len(), own);
                    assert(l[own][a] == name[a] && l[own][b] == name[b]);
                }
            }
            assert(Seq::<Seq<char>>::empty() + attribute(rest, name) =~= attribute(rest, name));
        }
    }
}

/// No line of the description holds a line break.
proof fn lemma_all_plain(host: Seq<char>, cfg: AnnounceConfig)
    requires
        is_one_line(host),
    ensures
        plain(lines(host, cfg), 44),
{
    let l = lines(host, cfg);
    reveal_with_fuel(plain, 45);
    lemma_digits_plain(cfg.width as nat);
    lemma_digits_plain(cfg.height as nat);
    lemma_digits_plain(cfg.fps as nat);
    lemma_digits_plain((cfg.fps * 100) as nat);
    lemma_digits_plain(cfg.packet_size as nat);
    lemma_digits_plain(cfg.bitrate_kbps as nat);
    lemma_digits_plain(cfg.slices_per_frame as nat);
    lemma_digits_plain(cfg.fec_percent as nat);
    lemma_digits_plain(cfg.encryption_enabled as nat);
    assert(is_one_line(l[0])) by {
        reveal_strlit("v=0");
        reveal_strlit("");
        lemma_plain_pair("v=0"@, ""@);
    }
    assert(is_one_line(l[1])) by {
        reveal_strlit("o=android 0 14 IN IPv4 ");
        lemma_plain_pair("o=android 0 14 IN IPv4 "@, host);
    }
    assert(is_one_line(l[2])) by {
        reveal_strlit("s=NVIDIA Streaming Client");
        reveal_strlit("");
        lemma_plain_pair("s=NVIDIA Streaming Client"@, ""@);
    }
    assert(is_one_line(l[3])) by {
        reveal_strlit("t=0 0");
        reveal_strlit("");
        lemma_plain_pair("t=0 0"@, ""@);
    }
    assert(is_one_line(l[4])) by {
        reveal_strlit("a=x-nv-video[0].clientViewportWd:");
        lemma_plain_pair("a=x-nv-video[0].clientViewportWd:"@, decimal(cfg.width as nat));
    }
    assert(is_one_line(l[5])) by {
        reveal_strlit("a=x-nv-video[0].clientViewportHt:");
        lemma_plain_pair("a=x-nv-video[0].clientViewportHt:"@, decimal(cfg.height as nat));
    }
    assert(is_one_line(l[6])) by {
        reveal_strlit("a=x-nv-video[0].maxFPS:");
        lemma_plain_pair("a=x-nv-video[0].maxFPS:"@, decimal(cfg.fps as nat));
    }
    assert(is_one_line(l[7])) by {
        reveal_strlit("a=x-nv-video[0].clientRefreshRateX100:");
        lemma_plain_pair("a=x-nv-video[0].clientRefreshRateX100:"@, decimal((cfg.fps * 100) as nat));
    }
    assert(is_one_line(l[8])) by {
        reveal_strlit("a=x-nv-video[0].packetSize:");
        lemma_plain_pair("a=x-nv-video[0].packetSize:"@, decimal(cfg.packet_size as nat));
    }
    assert(is_one_line(l[9])) by {
        reveal_strlit("a=x-nv-video[0].rateControlMode:4");
        reveal_strlit("");
        lemma_plain_pair("a=x-nv-video[0].rateControlMode:4"@, ""@);
    }
    assert(is_one_line(l[10])) by {
        reveal_strlit("a=x-nv-video[0].timeoutLengthMs:7000");
        reveal_strlit("");
        lemma_plain_pair("a=x-nv-video[0].timeoutLengthMs:7000"@, ""@);
    }
    assert(is_one_line(l[11])) by {
        reveal_strlit("a=x-nv-video[0].framesWithInvalidRefThreshold:0");
        reveal_strlit("");
        lemma_plain_pair("a=x-nv-video[0].framesWithInvalidRefThreshold:0"@, ""@);
    }
    assert(is_one_line(l[12])) by {
        reveal_strlit("a=x-nv-video[0].initialBitrateKbps:");
        lemma_plain_pair("a=x-nv-video[0].initialBitrateKbps:"@, decimal(cfg.bitrate_kbps as nat));
    }
    assert(is_one_line(l[13])) by {
        reveal_strlit("a=x-nv-video[0].initialPeakBitrateKbps:");
        lemma_plain_pair("a=x-nv-video[0].initialPeakBitrateKbps:"@, decimal(cfg.bitrate_kbps as nat));
    }
    assert(is_one_line(l[14])) by {
        reveal_strlit("a=x-nv-video[0].maxNumReferenceFrames:1");
        reveal_strlit("");
        lemma_plain_pair("a=x-nv-video[0].maxNumReferenceFrames:1"@, ""@);
    }
    assert(is_one_line(l[15])) by {
        reveal_strlit("a=x-nv-video[0].videoEncoderSlicesPerFrame:");
        lemma_plain_pair("a=x-nv-video[0].videoEncoderSlicesPerFrame:"@, decimal(cfg.slices_per_frame as nat));
    }
    assert(is_one_line(l[16])) by {
        reveal_strlit("a=x-nv-video[0].encoderCscMode:0");
        reveal_strlit("");
        lemma_plain_pair("a=x-nv-video[0].encoderCscMode:0"@, ""@);
    }
    assert(is_one_line(l[17])) by {
        reveal_strlit("a=x-nv-video[0].dynamicRangeMode:0");
        reveal_strlit("");
        lemma_plain_pair("a=x-nv-video[0].dynamicRangeMode:0"@, ""@);
    }
    assert(is_one_line(l[18])) by {
        reveal_strlit("a=x-nv-vqos[0].bw.minimumBitrateKbps:");
        lemma_plain_pair("a=x-nv-vqos[0].bw.minimumBitrateKbps:"@, decimal(cfg.bitrate_kbps as nat));
    }
    assert(is_one_line(l[19])) by {
        reveal_strlit("a=x-nv-vqos[0].bw.maximumBitrateKbps:");
        lemma_plain_pair("a=x-nv-vqos[0].bw.maximumBitrateKbps:"@, decimal(cfg.bitrate_kbps as nat));
    }
    assert(is_one_line(l[20])) by {
        reveal_strlit("a=x-nv-vqos[0].fec.enable:1");
        reveal_strlit("");
        lemma_plain_pair("a=x-nv-vqos[0].fec.enable:1"@, ""@);
    }
    assert(is_one_line(l[21])) by {
        reveal_strlit("a=x-nv-vqos[0].fec.numSrcPackets:0");
        reveal_strlit("");
        lemma_plain_pair("a=x-nv-vqos[0].fec.numSrcPackets:0"@, ""@);
    }
    assert(is_one_line(l[22])) by {
        reveal_strlit("a=x-nv-vqos[0].fec.repairPercent:");
        lemma_plain_pair("a=x-nv-vqos[0].fec.repairPercent:"@, decimal(cfg.fec_percent as nat));
    }
    assert(is_one_line(l[23])) by {
        reveal_strlit("a=x-nv-vqos[0].fec.repairMaxPercent:100");
        reveal_strlit("");
        lemma_plain_pair("a=x-nv-vqos[0].fec.repairMaxPercent:100"@, ""@);
    }
    assert(is_one_line(l[24])) by {
        reveal_strlit("a=x-nv-vqos[0].fec.minRequiredFecPackets:2");
        reveal_strlit("");
        lemma_plain_pair("a=x-nv-vqos[0].fec.minRequiredFecPackets:2"@, ""@);
    }
    assert(is_one_line(l[25])) by {
        reveal_strlit("a=x-nv-vqos[0].drc.enable:0");
        reveal_strlit("");
        lemma_plain_pair("a=x-nv-vqos[0].drc.enable:0"@, ""@);
    }
    assert(is_one_line(l[26])) by {
        reveal_strlit("a=x-nv-vqos[0].qosTrafficType:5");
        reveal_strlit("");
        lemma_plain_pair("a=x-nv-vqos[0].qosTrafficType:5"@, ""@);
    }
    assert(is_one_line(l[27])) by {
        reveal_strlit("a=x-nv-vqos[0].bitStreamFormat:1");
        reveal_strlit("");
        lemma_plain_pair("a=x-nv-vqos[0].bitStreamFormat:1"@, ""@);
    }
    assert(is_one_line(l[28])) by {
        reveal_strlit("a=x-nv-aqos.qosTrafficType:4");
        reveal_strlit("");
        lemma_plain_pair("a=x-nv-aqos.qosTrafficType:4"@, ""@);
    }
    assert(is_one_line(l[29])) by {
        reveal_strlit("a=x-nv-aqos.packetDuration:5");
        reveal_strlit("");
        lemma_plain_pair("a=x-nv-aqos.packetDuration:5"@, ""@);
    }
    assert(is_one_line(l[30])) by {
        reveal_strlit("a=x-nv-aqos.coupledAq:1");
        reveal_strlit("");
        lemma_plain_pair("a=x-nv-aqos.coupledAq:1"@, ""@);
    }
    assert(is_one_line(l[31])) by {
        reveal_strlit("a=x-nv-general.serverAddress:");
        lemma_plain_pair("a=x-nv-general.serverAddress:"@, host);
    }
    assert(is_one_line(l[32])) by {
        reveal_strlit("a=x-nv-general.featureFlags:135");
        reveal_strlit("");
        lemma_plain_pair("a=x-nv-general.featureFlags:135"@, ""@);
    }
    assert(is_one_line(l[33])) by {
        reveal_strlit("a=x-nv-general.useReliableUdp:1");
        reveal_strlit("");
        lemma_plain_pair("a=x-nv-general.useReliableUdp:1"@, ""@);
    }
    assert(is_one_line(l[34])) by {
        reveal_strlit("a=x-nv-clientSupportHevc:1");
        reveal_strlit("");
        lemma_plain_pair("a=x-nv-clientSupportHevc:1"@, ""@);
    }
    assert(is_one_line(l[35])) by {
        reveal_strlit("a=x-nv-audio.surround.numChannels:2");
        reveal_strlit("");
        lemma_plain_pair("a=x-nv-audio.surround.numChannels:2"@, ""@);
    }
    assert(is_one_line(l[36])) by {
        reveal_strlit("a=x-nv-audio.surround.channelMask:3");
        reveal_strlit("");
        lemma_plain_pair("a=x-nv-audio.surround.channelMask:3"@, ""@);
    }
    assert(is_one_line(l[37])) by {
        reveal_strlit("a=x-nv-audio.surround.enable:0");
        reveal_strlit("");
        lemma_plain_pair("a=x-nv-audio.surround.enable:0"@, ""@);
    }
    assert(is_one_line(l[38])) by {
        reveal_strlit("a=x-nv-audio.surround.AudioQuality:0");
        reveal_strlit("");
        lemma_plain_pair("a=x-nv-audio.surround.AudioQuality:0"@, ""@);
    }
    assert(is_one_line(l[39])) by {
        reveal_strlit("a=x-ml-general.featureFlags:0");
        reveal_strlit("");
        lemma_plain_pair("a=x-ml-general.featureFlags:0"@, ""@);
    }
    assert(is_one_line(l[40])) by {
        reveal_strlit("a=x-ml-video.configuredBitrateKbps:");
        lemma_plain_pair("a=x-ml-video.configuredBitrateKbps:"@, decimal(cfg.bitrate_kbps as nat));
    }
    assert(is_one_line(l[41])) by {
        reveal_strlit("a=x-ss-general.encryptionEnabled:");
        lemma_plain_pair("a=x-ss-general.encryptionEnabled:"@, decimal(cfg.encryption_enabled as nat));
    }
    assert(is_one_line(l[42])) by {
        reveal_strlit("a=x-ss-video[0].chromaSamplingType:0");
        reveal_strlit("");
        lemma_plain_pair("a=x-ss-video[0].chromaSamplingType:0"@, ""@);
    }
    assert(is_one_line(l[43])) by {
        reveal_strlit("a=x-ss-video[0].intraRefresh:0");
        reveal_strlit("");
        lemma_plain_pair("a=x-ss-video[0].intraRefresh:0"@, ""@);
    }
}

proof fn lemma_digits_plain(n: nat)
    ensures
        is_one_line(decimal(n)),
{
    lemma_decimal(n);
    assert(!is_digit('\n') && !is_digit('\r'));
}

proof fn lemma_plain_pair(a: Seq<char>, b: Seq<char>)
    requires
        is_one_line(a),
        is_one_line(b),
    ensures
        is_one_line(a + b),
{
    assert forall|i: int| 0 <= i < (a + b).len() implies #[trigger] (a + b)[i] != '\n' && (a
        + b)[i] != '\r' by {
        if i < a.len() {
            assert((a + b)[i] == a[i]);
        } else {
            assert((a + b)[i] == b[i - a.len()]);
        }
    }
}

/// Where each attribute differs from all other lines.
#[verifier::spinoff_prover]
#[verifier::rlimit(60)]
proof fn lemma_names(host: Seq<char>, cfg: AnnounceConfig)
    ensures
        ({
            let l = lines(host, cfg);
            &&& "o=android 0 14 IN IPv4 "@.len() > 0 && differ(l, 44, 1, "o=android 0 14 IN IPv4 "@, 0, 0)
            &&& "a=x-nv-video[0].clientViewportWd:"@.len() > 30 && differ(l, 44, 4, "a=x-nv-video[0].clientViewportWd:"@, 16, 30)
            &&& "a=x-nv-video[0].clientViewportHt:"@.len() > 30 && differ(l, 44, 5, "a=x-nv-video[0].clientViewportHt:"@, 16, 30)
            &&& "a=x-nv-video[0].maxFPS:"@.len() > 19 && differ(l, 44, 6, "a=x-nv-video[0].maxFPS:"@, 19, 19)
            &&& "a=x-nv-video[0].clientRefreshRateX100:"@.len() > 22 && differ(l, 44, 7, "a=x-nv-video[0].clientRefreshRateX100:"@, 16, 22)
            &&& "a=x-nv-video[0].packetSize:"@.len() > 19 && differ(l, 44, 8, "a=x-nv-video[0].packetSize:"@, 19, 19)
            &&& "a=x-nv-video[0].initialBitrateKbps:"@.len() > 23 && differ(l, 44, 12, "a=x-nv-video[0].initialBitrateKbps:"@, 16, 23)
            &&& "a=x-nv-video[0].initialPeakBitrateKbps:"@.len() > 23 && differ(l, 44, 13, "a=x-nv-video[0].initialPeakBitrateKbps:"@, 16, 23)
            &&& "a=x-nv-video[0].videoEncoderSlicesPerFrame:"@.len() > 16 && differ(l, 44, 15, "a=x-nv-video[0].videoEncoderSlicesPerFrame:"@, 16, 16)
            &&& "a=x-nv-vqos[0].bw.minimumBitrateKbps:"@.len() > 19 && differ(l, 44, 18, "a=x-nv-vqos[0].bw.minimumBitrateKbps:"@, 19, 19)
            &&& "a=x-nv-vqos[0].bw.maximumBitrateKbps:"@.len() > 20 && differ(l, 44, 19, "a=x-nv-vqos[0].bw.maximumBitrateKbps:"@, 20, 20)
            &&& "a=x-nv-vqos[0].fec.repairPercent:"@.len() > 25 && differ(l, 44, 22, "a=x-nv-vqos[0].fec.repairPercent:"@, 19, 25)
            &&& "a=x-nv-general.serverAddress:"@.len() > 15 && differ(l, 44, 31, "a=x-nv-general.serverAddress:"@, 15, 15)
            &&& "a=x-ml-video.configuredBitrateKbps:"@.len() > 13 && differ(l, 44, 40, "a=x-ml-video.configuredBitrateKbps:"@, 13, 13)
            &&& "a=x-ss-general.encryptionEnabled:"@.len() > 15 && differ(l, 44, 41, "a=x-ss-general.encryptionEnabled:"@, 15, 15)
        }),
{
    let l = lines(host, cfg);
    reveal_strlit("v=0");
    reveal_strlit("o=android 0 14 IN IPv4 ");
    reveal_strlit("s=NVIDIA Streaming Client");
    reveal_strlit("t=0 0");
    reveal_strlit("a=x-nv-video[0].clientViewportWd:");
    reveal_strlit("a=x-nv-video[0].clientViewportHt:");
    reveal_strlit("a=x-nv-video[0].maxFPS:");
    reveal_strlit("a=x-nv-video[0].clientRefreshRateX100:");
    reveal_strlit("a=x-nv-video[0].packetSize:");
    reveal_strlit("a=x-nv-video[0].rateControlMode:4");
    reveal_strlit("a=x-nv-video[0].timeoutLengthMs:7000");
    reveal_strlit("a=x-nv-video[0].framesWithInvalidRefThreshold:0");
    reveal_strlit("a=x-nv-video[0].initialBitrateKbps:");
    reveal_strlit("a=x-nv-video[0].initialPeakBitrateKbps:");
    reveal_strlit("a=x-nv-video[0].maxNumReferenceFrames:1");
    reveal_strlit("a=x-nv-video[0].videoEncoderSlicesPerFrame:");
    reveal_strlit("a=x-nv-video[0].encoderCscMode:0");
    reveal_strlit("a=x-nv-video[0].dynamicRangeMode:0");
    reveal_strlit("a=x-nv-vqos[0].bw.minimumBitrateKbps:");
    reveal_strlit("a=x-nv-vqos[0].bw.maximumBitrateKbps:");
    reveal_strlit("a=x-nv-vqos[0].fec.enable:1");
    reveal_strlit("a=x-nv-vqos[0].fec.numSrcPackets:0");
    reveal_strlit("a=x-nv-vqos[0].fec.repairPercent:");
    reveal_strlit("a=x-nv-vqos[0].fec.repairMaxPercent:100");
    reveal_strlit("a=x-nv-vqos[0].fec.minRequiredFecPackets:2");
    reveal_strlit("a=x-nv-vqos[0].drc.enable:0");
    reveal_strlit("a=x-nv-vqos[0].qosTrafficType:5");
    reveal_strlit("a=x-nv-vqos[0].bitStreamFormat:1");
    reveal_strlit("a=x-nv-aqos.qosTrafficType:4");
    reveal_strlit("a=x-nv-aqos.packetDuration:5");
    reveal_strlit("a=x-nv-aqos.coupledAq:1");
    reveal_strlit("a=x-nv-general.serverAddress:");
    reveal_strlit("a=x-nv-general.featureFlags:135");
    reveal_strlit("a=x-nv-general.useReliableUdp:1");
    reveal_strlit("a=x-nv-clientSupportHevc:1");
    reveal_strlit("a=x-nv-audio.surround.numChannels:2");
    reveal_strlit("a=x-nv-audio.surround.channelMask:3");
    reveal_strlit("a=x-nv-audio.surround.enable:0");
    reveal_strlit("a=x-nv-audio.surround.AudioQuality:0");
    reveal_strlit("a=x-ml-general.featureFlags:0");
    reveal_strlit("a=x-ml-video.configuredBitrateKbps:");
    reveal_strlit("a=x-ss-general.encryptionEnabled:");
    reveal_strlit("a=x-ss-video[0].chromaSamplingType:0");
    reveal_strlit("a=x-ss-video[0].intraRefresh:0");
    reveal_strlit("");
    reveal_with_fuel(differ, 45);
    assert(differ(l, 44, 1, "o=android 0 14 IN IPv4 "@, 0, 0));
    assert(differ(l, 44, 4, "a=x-nv-video[0].clientViewportWd:"@, 16, 30));
    assert(differ(l, 44, 5, "a=x-nv-video[0].clientViewportHt:"@, 16, 30));
    assert(differ(l, 44, 6, "a=x-nv-video[0].maxFPS:"@, 19, 19));
    assert(differ(l, 44, 7, "a=x-nv-video[0].clientRefreshRateX100:"@, 16, 22));
    assert(differ(l, 44, 8, "a=x-nv-video[0].packetSize:"@, 19, 19));
    assert(differ(l, 44, 12, "a=x-nv-video[0].initialBitrateKbps:"@, 16, 23));
    assert(differ(l, 44, 13, "a=x-nv-video[0].initialPeakBitrateKbps:"@, 16, 23));
    assert(differ(l, 44, 15, "a=x-nv-video[0].videoEncoderSlicesPerFrame:"@, 16, 16));
    assert(differ(l, 44, 18, "a=x-nv-vqos[0].bw.minimumBitrateKbps:"@, 19, 19));
    assert(differ(l, 44, 19, "a=x-nv-vqos[0].bw.maximumBitrateKbps:"@, 20, 20));
    assert(differ(l, 44, 22, "a=x-nv-vqos[0].fec.repairPercent:"@, 19, 25));
    assert(differ(l, 44, 31, "a=x-nv-general.serverAddress:"@, 15, 15));
    assert(differ(l, 44, 40, "a=x-ml-video.configuredBitrateKbps:"@, 13, 13));
    assert(differ(l, 44, 41, "a=x-ss-general.encryptionEnabled:"@, 15, 15));
}

/// Where fixed attributes differ from all other lines, and what their lines are.
#[verifier::spinoff_prover]
#[verifier::rlimit(60)]
proof fn lemma_fixed_names_0(host: Seq<char>, cfg: AnnounceConfig)
    ensures
        ({
            let l = lines(host, cfg);
            &&& "a=x-nv-video[0].rateControlMode:"@.len() > 20 && differ(l, 44, 9, "a=x-nv-video[0].rateControlMode:"@, 20, 20)
            &&& l[9] == "a=x-nv-video[0].rateControlMode:"@ + "4"@
            &&& "a=x-nv-video[0].timeoutLengthMs:"@.len() > 16 && differ(l, 44, 10, "a=x-nv-video[0].timeoutLengthMs:"@, 16, 16)
            &&& l[10] == "a=x-nv-video[0].timeoutLengthMs:"@ + "7000"@
            &&& "a=x-nv-video[0].framesWithInvalidRefThreshold:"@.len() > 18 && differ(l, 44, 11, "a=x-nv-video[0].framesWithInvalidRefThreshold:"@, 18, 18)
            &&& l[11] == "a=x-nv-video[0].framesWithInvalidRefThreshold:"@ + "0"@
            &&& "a=x-nv-video[0].maxNumReferenceFrames:"@.len() > 19 && differ(l, 44, 14, "a=x-nv-video[0].maxNumReferenceFrames:"@, 19, 19)
            &&& l[14] == "a=x-nv-video[0].maxNumReferenceFrames:"@ + "1"@
            &&& "a=x-nv-video[0].encoderCscMode:"@.len() > 22 && differ(l, 44, 16, "a=x-nv-video[0].encoderCscMode:"@, 22, 22)
            &&& l[16] == "a=x-nv-video[0].encoderCscMode:"@ + "0"@
            &&& "a=x-nv-video[0].dynamicRangeMode:"@.len() > 16 && differ(l, 44, 17, "a=x-nv-video[0].dynamicRangeMode:"@, 16, 16)
            &&& l[17] == "a=x-nv-video[0].dynamicRangeMode:"@ + "0"@
            &&& "a=x-nv-vqos[0].fec.enable:"@.len() > 19 && differ(l, 44, 20, "a=x-nv-vqos[0].fec.enable:"@, 15, 19)
            &&& l[20] == "a=x-nv-vqos[0].fec.enable:"@ + "1"@
            &&& "a=x-nv-vqos[0].fec.numSrcPackets:"@.len() > 19 && differ(l, 44, 21, "a=x-nv-vqos[0].fec.numSrcPackets:"@, 7, 19)
            &&& l[21] == "a=x-nv-vqos[0].fec.numSrcPackets:"@ + "0"@
            &&& "a=x-nv-vqos[0].fec.repairMaxPercent:"@.len() > 25 && differ(l, 44, 23, "a=x-nv-vqos[0].fec.repairMaxPercent:"@, 8, 25)
            &&& l[23] == "a=x-nv-vqos[0].fec.repairMaxPercent:"@ + "100"@
        }),
{
    let l = lines(host, cfg);
    reveal_strlit("v=0");
    reveal_strlit("o=android 0 14 IN IPv4 ");
    reveal_strlit("s=NVIDIA Streaming Client");
    reveal_strlit("t=0 0");
    reveal_strlit("a=x-nv-video[0].clientViewportWd:");
    reveal_strlit("a=x-nv-video[0].clientViewportHt:");
    reveal_strlit("a=x-nv-video[0].maxFPS:");
    reveal_strlit("a=x-nv-video[0].clientRefreshRateX100:");
    reveal_strlit("a=x-nv-video[0].packetSize:");
    reveal_strlit("a=x-nv-video[0].rateControlMode:4");
    reveal_strlit("a=x-nv-video[0].timeoutLengthMs:7000");
    reveal_strlit("a=x-nv-video[0].framesWithInvalidRefThreshold:0");
    reveal_strlit("a=x-nv-video[0].initialBitrateKbps:");
    reveal_strlit("a=x-nv-video[0].initialPeakBitrateKbps:");
    reveal_strlit("a=x-nv-video[0].maxNumReferenceFrames:1");
    reveal_strlit("a=x-nv-video[0].videoEncoderSlicesPerFrame:");
    reveal_strlit("a=x-nv-video[0].encoderCscMode:0");
    reveal_strlit("a=x-nv-video[0].dynamicRangeMode:0");
    reveal_strlit("a=x-nv-vqos[0].bw.minimumBitrateKbps:");
    reveal_strlit("a=x-nv-vqos[0].bw.maximumBitrateKbps:");
    reveal_strlit("a=x-nv-vqos[0].fec.enable:1");
    reveal_strlit("a=x-nv-vqos[0].fec.numSrcPackets:0");
    reveal_strlit("a=x-nv-vqos[0].fec.repairPercent:");
    reveal_strlit("a=x-nv-vqos[0].fec.repairMaxPercent:100");
    reveal_strlit("a=x-nv-vqos[0].fec.minRequiredFecPackets:2");
    reveal_strlit("a=x-nv-vqos[0].drc.enable:0");
    reveal_strlit("a=x-nv-vqos[0].qosTrafficType:5");
    reveal_strlit("a=x-nv-vqos[0].bitStreamFormat:1");
    reveal_strlit("a=x-nv-aqos.qosTrafficType:4");
    reveal_strlit("a=x-nv-aqos.packetDuration:5");
    reveal_strlit("a=x-nv-aqos.coupledAq:1");
    reveal_strlit("a=x-nv-general.serverAddress:");
    reveal_strlit("a=x-nv-general.featureFlags:135");
    reveal_strlit("a=x-nv-general.useReliableUdp:1");
    reveal_strlit("a=x-nv-clientSupportHevc:1");
    reveal_strlit("a=x-nv-audio.surround.numChannels:2");
    reveal_strlit("a=x-nv-audio.surround.channelMask:3");
    reveal_strlit("a=x-nv-audio.surround.enable:0");
    reveal_strlit("a=x-nv-audio.surround.AudioQuality:0");
    reveal_strlit("a=x-ml-general.featureFlags:0");
    reveal_strlit("a=x-ml-video.configuredBitrateKbps:");
    reveal_strlit("a=x-ss-general.encryptionEnabled:");
    reveal_strlit("a=x-ss-video[0].chromaSamplingType:0");
    reveal_strlit("a=x-ss-video[0].intraRefresh:0");
    reveal_strlit("");
    reveal_strlit("a=x-nv-video[0].rateControlMode:");
    reveal_strlit("a=x-nv-video[0].timeoutLengthMs:");
    reveal_strlit("a=x-nv-video[0].framesWithInvalidRefThreshold:");
    reveal_strlit("a=x-nv-video[0].maxNumReferenceFrames:");
    reveal_strlit("a=x-nv-video[0].encoderCscMode:");
    reveal_strlit("a=x-nv-video[0].dynamicRangeMode:");
    reveal_strlit("a=x-nv-vqos[0].fec.enable:");
    reveal_strlit("a=x-nv-vqos[0].fec.numSrcPackets:");
    reveal_strlit("a=x-nv-vqos[0].fec.repairMaxPercent:");
    reveal_strlit("4");
    reveal_strlit("7000");
    reveal_strlit("0");
    reveal_strlit("1");
    reveal_strlit("100");
    reveal_with_fuel(differ, 45);
    assert(differ(l, 44, 9, "a=x-nv-video[0].rateControlMode:"@, 20, 20));
    assert("a=x-nv-video[0].rateControlMode:4"@ + ""@ =~= "a=x-nv-video[0].rateControlMode:"@ + "4"@);
    assert(differ(l, 44, 10, "a=x-nv-video[0].timeoutLengthMs:"@, 16, 16));
    assert("a=x-nv-video[0].timeoutLengthMs:7000"@ + ""@ =~= "a=x-nv-video[0].timeoutLengthMs:"@ + "7000"@);
    assert(differ(l, 44, 11, "a=x-nv-video[0].framesWithInvalidRefThreshold:"@, 18, 18));
    assert("a=x-nv-video[0].framesWithInvalidRefThreshold:0"@ + ""@ =~= "a=x-nv-video[0].framesWithInvalidRefThreshold:"@ + "0"@);
    assert(differ(l, 44, 14, "a=x-nv-video[0].maxNumReferenceFrames:"@, 19, 19));
    assert("a=x-nv-video[0].maxNumReferenceFrames:1"@ + ""@ =~= "a=x-nv-video[0].maxNumReferenceFrames:"@ + "1"@);
    assert(differ(l, 44, 16, "a=x-nv-video[0].encoderCscMode:"@, 22, 22));
    assert("a=x-nv-video[0].encoderCscMode:0"@ + ""@ =~= "a=x-nv-video[0].encoderCscMode:"@ + "0"@);
    assert(differ(l, 44, 17, "a=x-nv-video[0].dynamicRangeMode:"@, 16, 16));
    assert("a=x-nv-video[0].dynamicRangeMode:0"@ + ""@ =~= "a=x-nv-video[0].dynamicRangeMode:"@ + "0"@);
    assert(differ(l, 44, 20, "a=x-nv-vqos[0].fec.enable:"@, 15, 19));
    assert("a=x-nv-vqos[0].fec.enable:1"@ + ""@ =~= "a=x-nv-vqos[0].fec.enable:"@ + "1"@);
    assert(differ(l, 44, 21, "a=x-nv-vqos[0].fec.numSrcPackets:"@, 7, 19));
    assert("a=x-nv-vqos[0].fec.numSrcPackets:0"@ + ""@ =~= "a=x-nv-vqos[0].fec.numSrcPackets:"@ + "0"@);
    assert(differ(l, 44, 23, "a=x-nv-vqos[0].fec.repairMaxPercent:"@, 8, 25));
    assert("a=x-nv-vqos[0].fec.repairMaxPercent:100"@ + ""@ =~= "a=x-nv-vqos[0].fec.repairMaxPercent:"@ + "100"@);
}

/// Where fixed attributes differ from all other lines, and what their lines are.
#[verifier::spinoff_prover]
#[verifier::rlimit(60)]
proof fn lemma_fixed_names_1(host: Seq<char>, cfg: AnnounceConfig)
    ensures
        ({
            let l = lines(host, cfg);
            &&& "a=x-nv-vqos[0].fec.minRequiredFecPackets:"@.len() > 21 && differ(l, 44, 24, "a=x-nv-vqos[0].fec.minRequiredFecPackets:"@, 21, 21)
            &&& l[24] == "a=x-nv-vqos[0].fec.minRequiredFecPackets:"@ + "2"@
            &&& "a=x-nv-vqos[0].drc.enable:"@.len() > 15 && differ(l, 44, 25, "a=x-nv-vqos[0].drc.enable:"@, 15, 15)
            &&& l[25] == "a=x-nv-vqos[0].drc.enable:"@ + "0"@
            &&& "a=x-nv-vqos[0].qosTrafficType:"@.len() > 15 && differ(l, 44, 26, "a=x-nv-vqos[0].qosTrafficType:"@, 15, 15)
            &&& l[26] == "a=x-nv-vqos[0].qosTrafficType:"@ + "5"@
            &&& "a=x-nv-vqos[0].bitStreamFormat:"@.len() > 18 && differ(l, 44, 27, "a=x-nv-vqos[0].bitStreamFormat:"@, 18, 18)
            &&& l[27] == "a=x-nv-vqos[0].bitStreamFormat:"@ + "1"@
            &&& "a=x-nv-aqos.qosTrafficType:"@.len() > 12 && differ(l, 44, 28, "a=x-nv-aqos.qosTrafficType:"@, 12, 12)
            &&& l[28] == "a=x-nv-aqos.qosTrafficType:"@ + "4"@
            &&& "a=x-nv-aqos.packetDuration:"@.len() > 12 && differ(l, 44, 29, "a=x-nv-aqos.packetDuration:"@, 12, 12)
            &&& l[29] == "a=x-nv-aqos.packetDuration:"@ + "5"@
            &&& "a=x-nv-aqos.coupledAq:"@.len() > 12 && differ(l, 44, 30, "a=x-nv-aqos.coupledAq:"@, 12, 12)
            &&& l[30] == "a=x-nv-aqos.coupledAq:"@ + "1"@
            &&& "a=x-nv-general.featureFlags:"@.len() > 22 && differ(l, 44, 32, "a=x-nv-general.featureFlags:"@, 5, 22)
            &&& l[32] == "a=x-nv-general.featureFlags:"@ + "135"@
            &&& "a=x-nv-general.useReliableUdp:"@.len() > 15 && differ(l, 44, 33, "a=x-nv-general.useReliableUdp:"@, 15, 15)
            &&& l[33] == "a=x-nv-general.useReliableUdp:"@ + "1"@
        }),
{
    let l = lines(host, cfg);
    reveal_strlit("v=0");
    reveal_strlit("o=android 0 14 IN IPv4 ");
    reveal_strlit("s=NVIDIA Streaming Client");
    reveal_strlit("t=0 0");
    reveal_strlit("a=x-nv-video[0].clientViewportWd:");
    reveal_strlit("a=x-nv-video[0].clientViewportHt:");
    reveal_strlit("a=x-nv-video[0].maxFPS:");
    reveal_strlit("a=x-nv-video[0].clientRefreshRateX100:");
    reveal_strlit("a=x-nv-video[0].packetSize:");
    reveal_strlit("a=x-nv-video[0].rateControlMode:4");
    reveal_strlit("a=x-nv-video[0].timeoutLengthMs:7000");
    reveal_strlit("a=x-nv-video[0].framesWithInvalidRefThreshold:0");
    reveal_strlit("a=x-nv-video[0].initialBitrateKbps:");
    reveal_strlit("a=x-nv-video[0].initialPeakBitrateKbps:");
    reveal_strlit("a=x-nv-video[0].maxNumReferenceFrames:1");
    reveal_strlit("a=x-nv-video[0].videoEncoderSlicesPerFrame:");
    reveal_strlit("a=x-nv-video[0].encoderCscMode:0");
    reveal_strlit("a=x-nv-video[0].dynamicRangeMode:0");
    reveal_strlit("a=x-nv-vqos[0].bw.minimumBitrateKbps:");
    reveal_strlit("a=x-nv-vqos[0].bw.maximumBitrateKbps:");
    reveal_strlit("a=x-nv-vqos[0].fec.enable:1");
    reveal_strlit("a=x-nv-vqos[0].fec.numSrcPackets:0");
    reveal_strlit("a=x-nv-vqos[0].fec.repairPercent:");
    reveal_strlit("a=x-nv-vqos[0].fec.repairMaxPercent:100");
    reveal_strlit("a=x-nv-vqos[0].fec.minRequiredFecPackets:2");
    reveal_strlit("a=x-nv-vqos[0].drc.enable:0");
    reveal_strlit("a=x-nv-vqos[0].qosTrafficType:5");
    reveal_strlit("a=x-nv-vqos[0].bitStreamFormat:1");
    reveal_strlit("a=x-nv-aqos.qosTrafficType:4");
    reveal_strlit("a=x-nv-aqos.packetDuration:5");
    reveal_strlit("a=x-nv-aqos.coupledAq:1");
    reveal_strlit("a=x-nv-general.serverAddress:");
    reveal_strlit("a=x-nv-general.featureFlags:135");
    reveal_strlit("a=x-nv-general.useReliableUdp:1");
    reveal_strlit("a=x-nv-clientSupportHevc:1");
    reveal_strlit("a=x-nv-audio.surround.numChannels:2");
    reveal_strlit("a=x-nv-audio.surround.channelMask:3");
    reveal_strlit("a=x-nv-audio.surround.enable:0");
    reveal_strlit("a=x-nv-audio.surround.AudioQuality:0");
    reveal_strlit("a=x-ml-general.featureFlags:0");
    reveal_strlit("a=x-ml-video.configuredBitrateKbps:");
    reveal_strlit("a=x-ss-general.encryptionEnabled:");
    reveal_strlit("a=x-ss-video[0].chromaSamplingType:0");
    reveal_strlit("a=x-ss-video[0].intraRefresh:0");
    reveal_strlit("");
    reveal_strlit("a=x-nv-vqos[0].fec.minRequiredFecPackets:");
    reveal_strlit("a=x-nv-vqos[0].drc.enable:");
    reveal_strlit("a=x-nv-vqos[0].qosTrafficType:");
    reveal_strlit("a=x-nv-vqos[0].bitStreamFormat:");
    reveal_strlit("a=x-nv-aqos.qosTrafficType:");
    reveal_strlit("a=x-nv-aqos.packetDuration:");
    reveal_strlit("a=x-nv-aqos.coupledAq:");
    reveal_strlit("a=x-nv-general.featureFlags:");
    reveal_strlit("a=x-nv-general.useReliableUdp:");
    reveal_strlit("2");
    reveal_strlit("0");
    reveal_strlit("5");
    reveal_strlit("1");
    reveal_strlit("4");
    reveal_strlit("135");
    reveal_with_fuel(differ, 45);
    assert(differ(l, 44, 24, "a=x-nv-vqos[0].fec.minRequiredFecPackets:"@, 21, 21));
    assert("a=x-nv-vqos[0].fec.minRequiredFecPackets:2"@ + ""@ =~= "a=x-nv-vqos[0].fec.minRequiredFecPackets:"@ + "2"@);
    assert(differ(l, 44, 25, "a=x-nv-vqos[0].drc.enable:"@, 15, 15));
    assert("a=x-nv-vqos[0].drc.enable:0"@ + ""@ =~= "a=x-nv-vqos[0].drc.enable:"@ + "0"@);
    assert(differ(l, 44, 26, "a=x-nv-vqos[0].qosTrafficType:"@, 15, 15));
    assert("a=x-nv-vqos[0].qosTrafficType:5"@ + ""@ =~= "a=x-nv-vqos[0].qosTrafficType:"@ + "5"@);
    assert(differ(l, 44, 27, "a=x-nv-vqos[0].bitStreamFormat:"@, 18, 18));
    assert("a=x-nv-vqos[0].bitStreamFormat:1"@ + ""@ =~= "a=x-nv-vqos[0].bitStreamFormat:"@ + "1"@);
    assert(differ(l, 44, 28, "a=x-nv-aqos.qosTrafficType:"@, 12, 12));
    assert("a=x-nv-aqos.qosTrafficType:4"@ + ""@ =~= "a=x-nv-aqos.qosTrafficType:"@ + "4"@);
    assert(differ(l, 44, 29, "a=x-nv-aqos.packetDuration:"@, 12, 12));
    assert("a=x-nv-aqos.packetDuration:5"@ + ""@ =~= "a=x-nv-aqos.packetDuration:"@ + "5"@);
    assert(differ(l, 44, 30, "a=x-nv-aqos.coupledAq:"@, 12, 12));
    assert("a=x-nv-aqos.coupledAq:1"@ + ""@ =~= "a=x-nv-aqos.coupledAq:"@ + "1"@);
    assert(differ(l, 0, 32, "a=x-nv-general.featureFlags:"@, 5, 22));
    assert(differ(l, 4, 32, "a=x-nv-general.featureFlags:"@, 5, 22));
    assert(differ(l, 8, 32, "a=x-nv-general.featureFlags:"@, 5, 22));
    assert(differ(l, 12, 32, "a=x-nv-general.featureFlags:"@, 5, 22));
    assert(differ(l, 16, 32, "a=x-nv-general.featureFlags:"@, 5, 22));
    assert(differ(l, 20, 32, "a=x-nv-general.featureFlags:"@, 5, 22));
    assert(differ(l, 24, 32, "a=x-nv-general.featureFlags:"@, 5, 22));
    assert(differ(l, 28, 32, "a=x-nv-general.featureFlags:"@, 5, 22));
    assert(differ(l, 32, 32, "a=x-nv-general.featureFlags:"@, 5, 22));
    assert(differ(l, 36, 32, "a=x-nv-general.featureFlags:"@, 5, 22));
    assert(differ(l, 40, 32, "a=x-nv-general.featureFlags:"@, 5, 22));
    assert(differ(l, 44, 32, "a=x-nv-general.featureFlags:"@, 5, 22));
    assert("a=x-nv-general.featureFlags:135"@ + ""@ =~= "a=x-nv-general.featureFlags:"@ + "135"@);
    assert(differ(l, 44, 33, "a=x-nv-general.useReliableUdp:"@, 15, 15));
    assert("a=x-nv-general.useReliableUdp:1"@ + ""@ =~= "a=x-nv-general.useReliableUdp:"@ + "1"@);
}

/// Where fixed attributes differ from all other lines, and what their lines are.
#[verifier::spinoff_prover]
#[verifier::rlimit(60)]
proof fn lemma_fixed_names_2(host: Seq<char>, cfg: AnnounceConfig)
    ensures
        ({
            let l = lines(host, cfg);
            &&& "a=x-nv-clientSupportHevc:"@.len() > 7 && differ(l, 44, 34, "a=x-nv-clientSupportHevc:"@, 7, 7)
            &&& l[34] == "a=x-nv-clientSupportHevc:"@ + "1"@
            &&& "a=x-nv-audio.surround.numChannels:"@.len() > 22 && differ(l, 44, 35, "a=x-nv-audio.surround.numChannels:"@, 7, 22)
            &&& l[35] == "a=x-nv-audio.surround.numChannels:"@ + "2"@
            &&& "a=x-nv-audio.surround.channelMask:"@.len() > 22 && differ(l, 44, 36, "a=x-nv-audio.surround.channelMask:"@, 7, 22)
            &&& l[36] == "a=x-nv-audio.surround.channelMask:"@ + "3"@
            &&& "a=x-nv-audio.surround.enable:"@.len() > 22 && differ(l, 44, 37, "a=x-nv-audio.surround.enable:"@, 4, 22)
            &&& l[37] == "a=x-nv-audio.surround.enable:"@ + "0"@
            &&& "a=x-nv-audio.surround.AudioQuality:"@.len() > 22 && differ(l, 44, 38, "a=x-nv-audio.surround.AudioQuality:"@, 22, 22)
            &&& l[38] == "a=x-nv-audio.surround.AudioQuality:"@ + "0"@
            &&& "a=x-ml-general.featureFlags:"@.len() > 7 && differ(l, 44, 39, "a=x-ml-general.featureFlags:"@, 4, 7)
            &&& l[39] == "a=x-ml-general.featureFlags:"@ + "0"@
            &&& "a=x-ss-video[0].chromaSamplingType:"@.len() > 17 && differ(l, 44, 42, "a=x-ss-video[0].chromaSamplingType:"@, 17, 17)
            &&& l[42] == "a=x-ss-video[0].chromaSamplingType:"@ + "0"@
            &&& "a=x-ss-video[0].intraRefresh:"@.len() > 21 && differ(l, 44, 43, "a=x-ss-video[0].intraRefresh:"@, 21, 21)
            &&& l[43] == "a=x-ss-video[0].intraRefresh:"@ + "0"@
        }),
{
    let l = lines(host, cfg);
    reveal_strlit("v=0");
    reveal_strlit("o=android 0 14 IN IPv4 ");
    reveal_strlit("s=NVIDIA Streaming Client");
    reveal_strlit("t=0 0");
    reveal_strlit("a=x-nv-video[0].clientViewportWd:");
    reveal_strlit("a=x-nv-video[0].clientViewportHt:");
    reveal_strlit("a=x-nv-video[0].maxFPS:");
    reveal_strlit("a=x-nv-video[0].clientRefreshRateX100:");
    reveal_strlit("a=x-nv-video[0].packetSize:");
    reveal_strlit("a=x-nv-video[0].rateControlMode:4");
    reveal_strlit("a=x-nv-video[0].timeoutLengthMs:7000");
    reveal_strlit("a=x-nv-video[0].framesWithInvalidRefThreshold:0");
    reveal_strlit("a=x-nv-video[0].initialBitrateKbps:");
    reveal_strlit("a=x-nv-video[0].initialPeakBitrateKbps:");
    reveal_strlit("a=x-nv-video[0].maxNumReferenceFrames:1");
    reveal_strlit("a=x-nv-video[0].videoEncoderSlicesPerFrame:");
    reveal_strlit("a=x-nv-video[0].encoderCscMode:0");
    reveal_strlit("a=x-nv-video[0].dynamicRangeMode:0");
    reveal_strlit("a=x-nv-vqos[0].bw.minimumBitrateKbps:");
    reveal_strlit("a=x-nv-vqos[0].bw.maximumBitrateKbps:");
    reveal_strlit("a=x-nv-vqos[0].fec.enable:1");
    reveal_strlit("a=x-nv-vqos[0].fec.numSrcPackets:0");
    reveal_strlit("a=x-nv-vqos[0].fec.repairPercent:");
    reveal_strlit("a=x-nv-vqos[0].fec.repairMaxPercent:100");
    reveal_strlit("a=x-nv-vqos[0].fec.minRequiredFecPackets:2");
    reveal_strlit("a=x-nv-vqos[0].drc.enable:0");
    reveal_strlit("a=x-nv-vqos[0].qosTrafficType:5");
    reveal_strlit("a=x-nv-vqos[0].bitStreamFormat:1");
    reveal_strlit("a=x-nv-aqos.qosTrafficType:4");
    reveal_strlit("a=x-nv-aqos.packetDuration:5");
    reveal_strlit("a=x-nv-aqos.coupledAq:1");
    reveal_strlit("a=x-nv-general.serverAddress:");
    reveal_strlit("a=x-nv-general.featureFlags:135");
    reveal_strlit("a=x-nv-general.useReliableUdp:1");
    reveal_strlit("a=x-nv-clientSupportHevc:1");
    reveal_strlit("a=x-nv-audio.surround.numChannels:2");
    reveal_strlit("a=x-nv-audio.surround.channelMask:3");
    reveal_strlit("a=x-nv-audio.surround.enable:0");
    reveal_strlit("a=x-nv-audio.surround.AudioQuality:0");
    reveal_strlit("a=x-ml-general.featureFlags:0");
    reveal_strlit("a=x-ml-video.configuredBitrateKbps:");
    reveal_strlit("a=x-ss-general.encryptionEnabled:");
    reveal_strlit("a=x-ss-video[0].chromaSamplingType:0");
    reveal_strlit("a=x-ss-video[0].intraRefresh:0");
    reveal_strlit("");
    reveal_strlit("a=x-nv-clientSupportHevc:");
    reveal_strlit("a=x-nv-audio.surround.numChannels:");
    reveal_strlit("a=x-nv-audio.surround.channelMask:");
    reveal_strlit("a=x-nv-audio.surround.enable:");
    reveal_strlit("a=x-nv-audio.surround.AudioQuality:");
    reveal_strlit("a=x-ml-general.featureFlags:");
    reveal_strlit("a=x-ss-video[0].chromaSamplingType:");
    reveal_strlit("a=x-ss-video[0].intraRefresh:");
    reveal_strlit("1");
    reveal_strlit("2");
    reveal_strlit("3");
    reveal_strlit("0");
    reveal_with_fuel(differ, 45);
    assert(differ(l, 44, 34, "a=x-nv-clientSupportHevc:"@, 7, 7));
    assert("a=x-nv-clientSupportHevc:1"@ + ""@ =~= "a=x-nv-clientSupportHevc:"@ + "1"@);
    assert(differ(l, 44, 35, "a=x-nv-audio.surround.numChannels:"@, 7, 22));
    assert("a=x-nv-audio.surround.numChannels:2"@ + ""@ =~= "a=x-nv-audio.surround.numChannels:"@ + "2"@);
    assert(differ(l, 44, 36, "a=x-nv-audio.surround.channelMask:"@, 7, 22));
    assert("a=x-nv-audio.surround.channelMask:3"@ + ""@ =~= "a=x-nv-audio.surround.channelMask:"@ + "3"@);
    assert(differ(l, 44, 37, "a=x-nv-audio.surround.enable:"@, 4, 22));
    assert("a=x-nv-audio.surround.enable:0"@ + ""@ =~= "a=x-nv-audio.surround.enable:"@ + "0"@);
    assert(differ(l, 44, 38, "a=x-nv-audio.surround.AudioQuality:"@, 22, 22));
    assert("a=x-nv-audio.surround.AudioQuality:0"@ + ""@ =~= "a=x-nv-audio.surround.AudioQuality:"@ + "0"@);
    assert(differ(l, 44, 39, "a=x-ml-general.featureFlags:"@, 4, 7));
    assert("a=x-ml-general.featureFlags:0"@ + ""@ =~= "a=x-ml-general.featureFlags:"@ + "0"@);
    assert(differ(l, 44, 42, "a=x-ss-video[0].chromaSamplingType:"@, 17, 17));
    assert("a=x-ss-video[0].chromaSamplingType:0"@ + ""@ =~= "a=x-ss-video[0].chromaSamplingType:"@ + "0"@);
    assert(differ(l, 44, 43, "a=x-ss-video[0].intraRefresh:"@, 21, 21));
    assert("a=x-ss-video[0].intraRefresh:0"@ + ""@ =~= "a=x-ss-video[0].intraRefresh:"@ + "0"@);
}

/// The announced description is read back by the names of its attributes: each stands in it once
/// and spells the field of the configuration that it is named after. The name of the host holds no
/// line break.
#[verifier::spinoff_prover]
#[verifier::rlimit(60)]
pub proof fn law_announcement(host: Seq<char>, cfg: AnnounceConfig)
    requires
        is_one_line(host),
    ensures
        ({
            let text = announce_sdp(host, cfg);
            &&& says(text, "o=android 0 14 IN IPv4 "@, host)
            &&& says_number(text, "a=x-nv-video[0].clientViewportWd:"@, cfg.width as nat)
            &&& says_number(text, "a=x-nv-video[0].clientViewportHt:"@, cfg.height as nat)
            &&& says_number(text, "a=x-nv-video[0].maxFPS:"@, cfg.fps as nat)
            &&& says_number(text, "a=x-nv-video[0].clientRefreshRateX100:"@, (100 * cfg.fps) as nat)
            &&& says_number(text, "a=x-nv-video[0].packetSize:"@, cfg.packet_size as nat)
            &&& says_number(text, "a=x-nv-video[0].initialBitrateKbps:"@, cfg.bitrate_kbps as nat)
            &&& says_number(text, "a=x-nv-video[0].initialPeakBitrateKbps:"@, cfg.bitrate_kbps as nat)
            &&& says_number(text, "a=x-nv-video[0].videoEncoderSlicesPerFrame:"@, cfg.slices_per_frame as nat)
            &&& says_number(text, "a=x-nv-vqos[0].bw.minimumBitrateKbps:"@, cfg.bitrate_kbps as nat)
            &&& says_number(text, "a=x-nv-vqos[0].bw.maximumBitrateKbps:"@, cfg.bitrate_kbps as nat)
            &&& says_number(text, "a=x-nv-vqos[0].fec.repairPercent:"@, cfg.fec_percent as nat)
            &&& says(text, "a=x-nv-general.serverAddress:"@, host)
            &&& says_number(text, "a=x-ml-video.configuredBitrateKbps:"@, cfg.bitrate_kbps as nat)
            &&& says_number(text, "a=x-ss-general.encryptionEnabled:"@, cfg.encryption_enabled as nat)
        }),
{
    let text = announce_sdp(host, cfg);
    let l = lines(host, cfg);
    lemma_lines(host, cfg);
    lemma_all_plain(host, cfg);
    lemma_names(host, cfg);
    assert(says(text, "o=android 0 14 IN IPv4 "@, host)) by {
        lemma_attribute(l, 1, "o=android 0 14 IN IPv4 "@, host, 0, 0, 0);
    }
    assert(says_number(text, "a=x-nv-video[0].clientViewportWd:"@, cfg.width as nat)) by {
        lemma_attribute(l, 4, "a=x-nv-video[0].clientViewportWd:"@, decimal(cfg.width as nat), 16, 30, 0);
        law_parsed_decimal(cfg.width as nat, cfg.width as nat);
    }
    assert(says_number(text, "a=x-nv-video[0].clientViewportHt:"@, cfg.height as nat)) by {
        lemma_attribute(l, 5, "a=x-nv-video[0].clientViewportHt:"@, decimal(cfg.height as nat), 16, 30, 0);
        law_parsed_decimal(cfg.height as nat, cfg.height as nat);
    }
    assert(says_number(text, "a=x-nv-video[0].maxFPS:"@, cfg.fps as nat)) by {
        lemma_attribute(l, 6, "a=x-nv-video[0].maxFPS:"@, decimal(cfg.fps as nat), 19, 19, 0);
        law_parsed_decimal(cfg.fps as nat, cfg.fps as nat);
    }
    assert(says_number(text, "a=x-nv-video[0].clientRefreshRateX100:"@, (cfg.fps * 100) as nat)) by {
        lemma_attribute(l, 7, "a=x-nv-video[0].clientRefreshRateX100:"@, decimal((cfg.fps * 100) as nat), 16, 22, 0);
        law_parsed_decimal((cfg.fps * 100) as nat, (cfg.fps * 100) as nat);
    }
    assert(says_number(text, "a=x-nv-video[0].packetSize:"@, cfg.packet_size as nat)) by {
        lemma_attribute(l, 8, "a=x-nv-video[0].packetSize:"@, decimal(cfg.packet_size as nat), 19, 19, 0);
        law_parsed_decimal(cfg.packet_size as nat, cfg.packet_size as nat);
    }
    assert(says_number(text, "a=x-nv-video[0].initialBitrateKbps:"@, cfg.bitrate_kbps as nat)) by {
        lemma_attribute(l, 12, "a=x-nv-video[0].initialBitrateKbps:"@, decimal(cfg.bitrate_kbps as nat), 16, 23, 0);
        law_parsed_decimal(cfg.bitrate_kbps as nat, cfg.bitrate_kbps as nat);
    }
    assert(says_number(text, "a=x-nv-video[0].initialPeakBitrateKbps:"@, cfg.bitrate_kbps as nat)) by {
        lemma_attribute(l, 13, "a=x-nv-video[0].initialPeakBitrateKbps:"@, decimal(cfg.bitrate_kbps as nat), 16, 23, 0);
        law_parsed_decimal(cfg.bitrate_kbps as nat, cfg.bitrate_kbps as nat);
    }
    assert(says_number(text, "a=x-nv-video[0].videoEncoderSlicesPerFrame:"@, cfg.slices_per_frame as nat)) by {
        lemma_attribute(l, 15, "a=x-nv-video[0].videoEncoderSlicesPerFrame:"@, decimal(cfg.slices_per_frame as nat), 16, 16, 0);
        law_parsed_decimal(cfg.slices_per_frame as nat, cfg.slices_per_frame as nat);
    }
    assert(says_number(text, "a=x-nv-vqos[0].bw.minimumBitrateKbps:"@, cfg.bitrate_kbps as nat)) by {
        lemma_attribute(l, 18, "a=x-nv-vqos[0].bw.minimumBitrateKbps:"@, decimal(cfg.bitrate_kbps as nat), 19, 19, 0);
        law_parsed_decimal(cfg.bitrate_kbps as nat, cfg.bitrate_kbps as nat);
    }
    assert(says_number(text, "a=x-nv-vqos[0].bw.maximumBitrateKbps:"@, cfg.bitrate_kbps as nat)) by {
        lemma_attribute(l, 19, "a=x-nv-vqos[0].bw.maximumBitrateKbps:"@, decimal(cfg.bitrate_kbps as nat), 20, 20, 0);
        law_parsed_decimal(cfg.bitrate_kbps as nat, cfg.bitrate_kbps as nat);
    }
    assert(says_number(text, "a=x-nv-vqos[0].fec.repairPercent:"@, cfg.fec_percent as nat)) by {
        lemma_attribute(l, 22, "a=x-nv-vqos[0].fec.repairPercent:"@, decimal(cfg.fec_percent as nat), 19, 25, 0);
        law_parsed_decimal(cfg.fec_percent as nat, cfg.fec_percent as nat);
    }
    assert(says(text, "a=x-nv-general.serverAddress:"@, host)) by {
        lemma_attribute(l, 31, "a=x-nv-general.serverAddress:"@, host, 15, 15, 0);
    }
    assert(says_number(text, "a=x-ml-video.configuredBitrateKbps:"@, cfg.bitrate_kbps as nat)) by {
        lemma_attribute(l, 40, "a=x-ml-video.configuredBitrateKbps:"@, decimal(cfg.bitrate_kbps as nat), 13, 13, 0);
        law_parsed_decimal(cfg.bitrate_kbps as nat, cfg.bitrate_kbps as nat);
    }
    assert(says_number(text, "a=x-ss-general.encryptionEnabled:"@, cfg.encryption_enabled as nat)) by {
        lemma_attribute(l, 41, "a=x-ss-general.encryptionEnabled:"@, decimal(cfg.encryption_enabled as nat), 15, 15, 0);
        law_parsed_decimal(cfg.encryption_enabled as nat, cfg.encryption_enabled as nat);
    }
}

/// The attributes that do not depend on the configuration are announced once each, too.
#[verifier::spinoff_prover]
#[verifier::rlimit(60)]
pub proof fn law_fixed_attributes(host: Seq<char>, cfg: AnnounceConfig)
    requires
        is_one_line(host),
    ensures
        ({
            let text = announce_sdp(host, cfg);
            &&& says(text, "a=x-nv-video[0].rateControlMode:"@, "4"@)
            &&& says(text, "a=x-nv-video[0].timeoutLengthMs:"@, "7000"@)
            &&& says(text, "a=x-nv-video[0].framesWithInvalidRefThreshold:"@, "0"@)
            &&& says(text, "a=x-nv-video[0].maxNumReferenceFrames:"@, "1"@)
            &&& says(text, "a=x-nv-video[0].encoderCscMode:"@, "0"@)
            &&& says(text, "a=x-nv-video[0].dynamicRangeMode:"@, "0"@)
            &&& says(text, "a=x-nv-vqos[0].fec.enable:"@, "1"@)
            &&& says(text, "a=x-nv-vqos[0].fec.numSrcPackets:"@, "0"@)
            &&& says(text, "a=x-nv-vqos[0].fec.repairMaxPercent:"@, "100"@)
            &&& says(text, "a=x-nv-vqos[0].fec.minRequiredFecPackets:"@, "2"@)
            &&& says(text, "a=x-nv-vqos[0].drc.enable:"@, "0"@)
            &&& says(text, "a=x-nv-vqos[0].qosTrafficType:"@, "5"@)
            &&& says(text, "a=x-nv-vqos[0].bitStreamFormat:"@, "1"@)
            &&& says(text, "a=x-nv-aqos.qosTrafficType:"@, "4"@)
            &&& says(text, "a=x-nv-aqos.packetDuration:"@, "5"@)
            &&& says(text, "a=x-nv-aqos.coupledAq:"@, "1"@)
            &&& says(text, "a=x-nv-general.featureFlags:"@, "135"@)
            &&& says(text, "a=x-nv-general.useReliableUdp:"@, "1"@)
            &&& says(text, "a=x-nv-clientSupportHevc:"@, "1"@)
            &&& says(text, "a=x-nv-audio.surround.numChannels:"@, "2"@)
            &&& says(text, "a=x-nv-audio.surround.channelMask:"@, "3"@)
            &&& says(text, "a=x-nv-audio.surround.enable:"@, "0"@)
            &&& says(text, "a=x-nv-audio.surround.AudioQuality:"@, "0"@)
            &&& says(text, "a=x-ml-general.featureFlags:"@, "0"@)
            &&& says(text, "a=x-ss-video[0].chromaSamplingType:"@, "0"@)
            &&& says(text, "a=x-ss-video[0].intraRefresh:"@, "0"@)
        }),
{
    let text = announce_sdp(host, cfg);
    let l = lines(host, cfg);
    lemma_lines(host, cfg);
    lemma_all_plain(host, cfg);
    lemma_fixed_names_0(host, cfg);
    lemma_fixed_names_1(host, cfg);
    lemma_fixed_names_2(host, cfg);
    assert(says(text, "a=x-nv-video[0].rateControlMode:"@, "4"@)) by {
        lemma_attribute(l, 9, "a=x-nv-video[0].rateControlMode:"@, "4"@, 20, 20, 0);
    }
    assert(says(text, "a=x-nv-video[0].timeoutLengthMs:"@, "7000"@)) by {
        lemma_attribute(l, 10, "a=x-nv-video[0].timeoutLengthMs:"@, "7000"@, 16, 16, 0);
    }
    assert(says(text, "a=x-nv-video[0].framesWithInvalidRefThreshold:"@, "0"@)) by {
        lemma_attribute(l, 11, "a=x-nv-video[0].framesWithInvalidRefThreshold:"@, "0"@, 18, 18, 0);
    }
    assert(says(text, "a=x-nv-video[0].maxNumReferenceFrames:"@, "1"@)) by {
        lemma_attribute(l, 14, "a=x-nv-video[0].maxNumReferenceFrames:"@, "1"@, 19, 19, 0);
    }
    assert(says(text, "a=x-nv-video[0].encoderCscMode:"@, "0"@)) by {
        lemma_attribute(l, 16, "a=x-nv-video[0].encoderCscMode:"@, "0"@, 22, 22, 0);
    }
    assert(says(text, "a=x-nv-video[0].dynamicRangeMode:"@, "0"@)) by {
        lemma_attribute(l, 17, "a=x-nv-video[0].dynamicRangeMode:"@, "0"@, 16, 16, 0);
    }
    assert(says(text, "a=x-nv-vqos[0].fec.enable:"@, "1"@)) by {
        lemma_attribute(l, 20, "a=x-nv-vqos[0].fec.enable:"@, "1"@, 15, 19, 0);
    }
    assert(says(text, "a=x-nv-vqos[0].fec.numSrcPackets:"@, "0"@)) by {
        lemma_attribute(l, 21, "a=x-nv-vqos[0].fec.numSrcPackets:"@, "0"@, 7, 19, 0);
    }
    assert(says(text, "a=x-nv-vqos[0].fec.repairMaxPercent:"@, "100"@)) by {
        lemma_attribute(l, 23, "a=x-nv-vqos[0].fec.repairMaxPercent:"@, "100"@, 8, 25, 0);
    }
    assert(says(text, "a=x-nv-vqos[0].fec.minRequiredFecPackets:"@, "2"@)) by {
        lemma_attribute(l, 24, "a=x-nv-vqos[0].fec.minRequiredFecPackets:"@, "2"@, 21, 21, 0);
    }
    assert(says(text, "a=x-nv-vqos[0].drc.enable:"@, "0"@)) by {
        lemma_attribute(l, 25, "a=x-nv-vqos[0].drc.enable:"@, "0"@, 15, 15, 0);
    }
    assert(says(text, "a=x-nv-vqos[0].qosTrafficType:"@, "5"@)) by {
        lemma_attribute(l, 26, "a=x-nv-vqos[0].qosTrafficType:"@, "5"@, 15, 15, 0);
    }
    assert(says(text, "a=x-nv-vqos[0].bitStreamFormat:"@, "1"@)) by {
        lemma_attribute(l, 27, "a=x-nv-vqos[0].bitStreamFormat:"@, "1"@, 18, 18, 0);
    }
    assert(says(text, "a=x-nv-aqos.qosTrafficType:"@, "4"@)) by {
        lemma_attribute(l, 28, "a=x-nv-aqos.qosTrafficType:"@, "4"@, 12, 12, 0);
    }
    assert(says(text, "a=x-nv-aqos.packetDuration:"@, "5"@)) by {
        lemma_attribute(l, 29, "a=x-nv-aqos.packetDuration:"@, "5"@, 12, 12, 0);
    }
    assert(says(text, "a=x-nv-aqos.coupledAq:"@, "1"@)) by {
        lemma_attribute(l, 30, "a=x-nv-aqos.coupledAq:"@, "1"@, 12, 12, 0);
    }
    assert(says(text, "a=x-nv-general.featureFlags:"@, "135"@)) by {
        lemma_attribute(l, 32, "a=x-nv-general.featureFlags:"@, "135"@, 5, 22, 0);
    }
    assert(says(text, "a=x-nv-general.useReliableUdp:"@, "1"@)) by {
        lemma_attribute(l, 33, "a=x-nv-general.useReliableUdp:"@, "1"@, 15, 15, 0);
    }
    assert(says(text, "a=x-nv-clientSupportHevc:"@, "1"@)) by {
        lemma_attribute(l, 34, "a=x-nv-clientSupportHevc:"@, "1"@, 7, 7, 0);
    }
    assert(says(text, "a=x-nv-audio.surround.numChannels:"@, "2"@)) by {
        lemma_attribute(l, 35, "a=x-nv-audio.surround.numChannels:"@, "2"@, 7, 22, 0);
    }
    assert(says(text, "a=x-nv-audio.surround.channelMask:"@, "3"@)) by {
        lemma_attribute(l, 36, "a=x-nv-audio.surround.channelMask:"@, "3"@, 7, 22, 0);
    }
    assert(says(text, "a=x-nv-audio.surround.enable:"@, "0"@)) by {
        lemma_attribute(l, 37, "a=x-nv-audio.surround.enable:"@, "0"@, 4, 22, 0);
    }
    assert(says(text, "a=x-nv-audio.surround.AudioQuality:"@, "0"@)) by {
        lemma_attribute(l, 38, "a=x-nv-audio.surround.AudioQuality:"@, "0"@, 22, 22, 0);
    }
    assert(says(text, "a=x-ml-general.featureFlags:"@, "0"@)) by {
        lemma_attribute(l, 39, "a=x-ml-general.featureFlags:"@, "0"@, 4, 7, 0);
    }
    assert(says(text, "a=x-ss-video[0].chromaSamplingType:"@, "0"@)) by {
        lemma_attribute(l, 42, "a=x-ss-video[0].chromaSamplingType:"@, "0"@, 17, 17, 0);
    }
    assert(says(text, "a=x-ss-video[0].intraRefresh:"@, "0"@)) by {
        lemma_attribute(l, 43, "a=x-ss-video[0].intraRefresh:"@, "0"@, 21, 21, 0);
    }
}


} // verus!
