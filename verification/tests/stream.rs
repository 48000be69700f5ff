use std::time::Duration;

use starfire::audio::rtp::opus_payload;
use starfire::audio::{AudioError, SampleQueue, CHANNELS, MAX_BUFFER_MS, MAX_QUEUED_SAMPLES, SAMPLE_RATE};
use starfire::input::{
    key, mouse_button, mouse_move_abs, mouse_move_rel, scroll_horizontal, scroll_vertical,
    MouseButton,
};
use starfire::rtsp::{
    find_subslice, parse_head, parse_server_port, read_response, AnnounceConfig, RtspClient,
    RtspResponse, SdpInfo, Stage,
};
use starfire::session::{ping_due, reachable_url, MediaStreams, Phase, Session};
use starfire::video::fec::recover;
use starfire::video::gf256::Gf256;
use starfire::video::matrix::invert;
use starfire::video::reassembly::Depacketizer;
use starfire::video::rtp::{parse_header, payload_offset, sof_frame_type};
use starfire::video::Codec;

#[test]
fn rel_mouse_move_layout() {
    let msg = mouse_move_rel(100, -50);
    assert_eq!(
        msg,
        vec![
            0x06, 0x02, // type, little-endian
            0x00, 0x00, 0x00, 0x08, // size
            0x07, 0x00, 0x00, 0x00, // kind
            0x00, 0x64, // dx
            0xff, 0xce, // dy
        ]
    );
}

#[test]
fn mouse_button_layout() {
    let msg = mouse_button(MouseButton::Left, true);
    assert_eq!(msg, vec![0x06, 0x02, 0, 0, 0, 5, 0x08, 0, 0, 0, 0x01]);
}

#[test]
fn key_down_is_vk_in_low_byte() {
    let msg = key(0x41, 0, true);
    assert_eq!(msg[0..2], [0x06, 0x02]);
    assert_eq!(msg[6..10], [0x03, 0, 0, 0]);
    assert_eq!(msg[10], 0);
    assert_eq!(msg[11..13], [0x41, 0x00]);
}

#[test]
fn the_size_field_counts_what_follows() {
    for msg in [
        mouse_move_abs(1, -1, 1920, 1080),
        scroll_vertical(-120),
        scroll_horizontal(120),
        key(0x10, 1, false),
        mouse_button(MouseButton::Side2, false),
    ] {
        let size = u32::from_be_bytes([msg[2], msg[3], msg[4], msg[5]]);
        assert_eq!(size as usize, msg.len() - 6);
    }
    assert_eq!(MouseButton::Middle.to_u8(), 2);
    assert_eq!(scroll_vertical(-120)[10..], [0xff, 0x88, 0xff, 0x88, 0, 0]);
    assert_eq!(mouse_move_abs(1, -1, 1920, 1080)[10..], [0, 1, 0xff, 0xff, 0, 0, 7, 0x80, 4, 0x38]);
}

#[test]
fn new_rejects_non_rtsp_url() {
    assert!(RtspClient::new("http://x", Duration::from_secs(1)).is_err());
}

#[test]
fn new_parses_host_port() {
    let c = RtspClient::new("rtsp://127.0.0.1:48010", Duration::from_secs(1)).unwrap();
    assert_eq!(c.target(), "rtsp://127.0.0.1:48010");
    assert_eq!(c.next_cseq(), 1);
}

#[test]
fn a_client_keeps_what_it_was_made_with() {
    let c = RtspClient::new("rtsp://10.1.2.3:5000", Duration::from_secs(3)).unwrap();
    assert_eq!((c.host(), c.port(), c.timeout()), ("10.1.2.3", 5000, Duration::from_secs(3)));
    let c = RtspClient::new("rtsp://10.1.2.3", Duration::from_secs(3)).unwrap();
    assert_eq!(c.port(), 48010);
}

#[test]
fn parse_server_port_from_transport() {
    assert_eq!(parse_server_port(Some("server_port=48000")).unwrap(), 48000);
    assert_eq!(parse_server_port(Some("unicast;server_port=47998")).unwrap(), 47998);
    assert!(parse_server_port(None).is_err());
    assert!(parse_server_port(Some("unicast")).is_err());
}

#[test]
fn requests_are_numbered() {
    let mut c = RtspClient::new("rtsp://h:1", Duration::from_secs(1)).unwrap();
    let first = c.request("OPTIONS", None, &[("A", "b")], b"");
    assert_eq!(first, b"OPTIONS rtsp://h:1 RTSP/1.0\r\nCSeq: 1\r\nA: b\r\n\r\n");
    let second = c.request("PLAY", Some("u"), &[], b"xyz");
    assert_eq!(second, b"PLAY u RTSP/1.0\r\nCSeq: 2\r\nContent-Length: 3\r\n\r\nxyz");
    assert_eq!(c.next_cseq(), 3);
}

#[test]
fn a_description_is_read() {
    let sdp = SdpInfo::parse(
        b"v=0\r\na=x-ss-general.featureFlags:3\r\na=x-ss-general.encryptionSupported:5\r\n\
          a=x-ss-general.encryptionRequested:1\r\na=fmtp:97 surround-params=21101\r\n",
    );
    assert_eq!(sdp.feature_flags, 3);
    assert_eq!(sdp.encryption_supported, 5);
    assert_eq!(sdp.encryption_requested, 1);
    assert!(sdp.encryption_required());
    assert_eq!(sdp.surround_params, vec!["21101".to_string()]);
    let none = SdpInfo::from_text("");
    assert!(!none.encryption_required());
}

#[test]
fn heads_and_bodies_are_read_as_they_come() {
    let whole = b"RTSP/1.0 200 OK\r\nCSeq: 1\r\ncontent-length: 4\r\n\r\nbody";
    for cut in 0..whole.len() {
        assert!(read_response(&whole[..cut], false).unwrap().is_none());
    }
    let r = read_response(whole, false).unwrap().unwrap();
    assert_eq!(r.status, 200);
    assert_eq!(r.body, b"body");
    assert_eq!(r.header("cseq"), Some("1"));
    assert_eq!(r.header("X"), None);
    let open = b"RTSP/1.0 404 Not Found\r\n\r\n";
    assert!(read_response(open, false).unwrap().is_none());
    assert_eq!(read_response(open, true).unwrap().unwrap().status, 404);
    assert!(read_response(b"RTSP/1.0", true).is_err());
    let bad = parse_head("RTSP\r\n").err().unwrap();
    assert_eq!(
        bad.message(),
        starfire::error::protocol("RTSP: bad status line \"RTSP\"").message()
    );
    assert_eq!(find_subslice(b"abcabc", b"ca"), Some(2));
    assert_eq!(find_subslice(b"abc", b"x"), None);
}

fn reply(status: u16, headers: &[(&str, &str)], body: &[u8]) -> RtspResponse {
    RtspResponse {
        status,
        headers: headers.iter().map(|(k, v)| (k.to_string(), v.to_string())).collect(),
        body: body.to_vec(),
    }
}

#[test]
fn a_handshake_yields_a_session() {
    let cfg = AnnounceConfig::default();
    let mut c = RtspClient::new("rtsp://10.0.0.2:48010", Duration::from_secs(1)).unwrap();
    let mut h = c.handshake();
    let replies = [
        reply(200, &[], b""),
        reply(200, &[], b"a=x-ss-general.featureFlags:3\n"),
        reply(
            200,
            &[
                ("Transport", "server_port=47998"),
                ("Session", "DEADBEEF; timeout=90"),
                ("X-SS-Ping-Payload", " 0123456789ABCDEF "),
            ],
            b"",
        ),
        reply(200, &[("Transport", "server_port=48000")], b""),
        reply(
            200,
            &[("Transport", "server_port=47999"), ("X-SS-Connect-Data", "77")],
            b"",
        ),
        reply(200, &[], b""),
        reply(200, &[], b""),
    ];
    let starts = ["OPTIONS ", "DESCRIBE ", "SETUP ", "SETUP ", "SETUP ", "ANNOUNCE ", "PLAY "];
    for (i, r) in replies.iter().enumerate() {
        let bytes = c.handshake_request(&h, &cfg).unwrap();
        let text = String::from_utf8(bytes).unwrap();
        assert!(text.starts_with(starts[i]), "{text}");
        if i == 3 {
            assert!(text.contains("rtsp://10.0.0.2:48010/streamid=audio RTSP/1.0"));
        }
        if i == 5 {
            assert!(text.contains("Session: DEADBEEF\r\n"));
            assert!(text.contains("a=x-nv-video[0].clientRefreshRateX100:6000"));
            assert!(text.contains("a=x-nv-general.serverAddress:10.0.0.2"));
        }
        h.on_response(r).unwrap();
    }
    assert_eq!(h.stage(), Stage::Done);
    assert!(c.handshake_request(&h, &cfg).is_none());
    let s = h.into_session().unwrap();
    assert_eq!(s.session_id, "DEADBEEF");
    assert_eq!(s.ping_payload, b"0123456789ABCDEF");
    assert_eq!(s.control_connect_data, 77);
    assert_eq!((s.ports.video_port, s.ports.audio_port, s.ports.control_port), (47998, 48000, 47999));
    assert_eq!(s.sdp.feature_flags, 3);
}

#[test]
fn a_handshake_stops_at_a_refusal() {
    let c = RtspClient::new("rtsp://h:1", Duration::from_secs(1)).unwrap();
    let mut h = c.handshake();
    h.on_response(&reply(200, &[], b"")).unwrap();
    h.on_response(&reply(200, &[], b"")).unwrap();
    let e = h.on_response(&reply(461, &[], b"")).unwrap_err();
    assert!(e.message().contains("SETUP video: RTSP 461"));
    assert_eq!(h.stage(), Stage::SetupVideo);
    assert!(h.on_response(&reply(200, &[], b"")).is_err());
    for _ in 0..3 {
        h.on_response(&reply(200, &[("Transport", "server_port=1")], b"")).unwrap();
    }
    let e = h.on_response(&reply(400, &[], b"")).unwrap_err();
    assert!(e.message().contains("ANNOUNCE: RTSP 400 (SDP missing a mandatory attribute?)"));
    h.on_response(&reply(200, &[], b"")).unwrap();
    assert!(h.on_response(&reply(500, &[], b"")).unwrap_err().message().contains("PLAY: RTSP 500"));
    assert!(h.into_session().is_none());
}

#[test]
fn new_session_is_idle() {
    assert_eq!(Session::new().phase(), Phase::Idle);
}

#[test]
fn the_rtsp_address_is_the_one_dialed() {
    assert_eq!(reachable_url("10.0.0.2", "rtsp://192.168.122.5:48011"), "rtsp://10.0.0.2:48011");
    assert_eq!(reachable_url("10.0.0.2", "rtsp://a:48012//"), "rtsp://10.0.0.2:48012");
    assert_eq!(reachable_url("10.0.0.2", "rtsp://a"), "rtsp://10.0.0.2:48010");
    assert_eq!(reachable_url("h", ""), "rtsp://h:48010");
}

#[test]
fn media_is_sorted_by_source_port() {
    let mut m = MediaStreams::new(48000, b"0123456789ABCDEF".to_vec());
    m.receive(47998, b"v1".to_vec());
    m.receive(48000, b"a1".to_vec());
    m.receive(48000, b"a2".to_vec());
    m.receive(1, b"video".to_vec());
    let mut buf = [0xffu8; 4];
    assert!(m.has_audio() && m.has_video());
    assert_eq!(m.poll_audio(&mut buf), Some(2));
    assert_eq!(&buf, b"a1\xff\xff");
    assert_eq!(m.poll_video(&mut buf), Some(2));
    assert_eq!(&buf[..2], b"v1");
    assert_eq!(m.poll_video(&mut buf), Some(4));
    assert_eq!(&buf, b"vide");
    assert_eq!(m.poll_video(&mut buf), None);
    assert_eq!(m.poll_audio(&mut buf), Some(2));
    assert!(!m.has_audio() && !m.has_video());
}

#[test]
fn pings_are_numbered_or_plain() {
    let mut m = MediaStreams::new(48000, b"0123456789ABCDEF".to_vec());
    assert_eq!(m.ping(), b"0123456789ABCDEF\0\0\0\0");
    assert_eq!(m.ping(), b"0123456789ABCDEF\0\0\0\x01");
    let mut old = MediaStreams::new(48000, vec![]);
    assert_eq!(old.ping(), b"PING");
    assert!(!ping_due(200_000_000));
    assert!(ping_due(200_000_001));
}

#[test]
fn audio_payloads_and_queue() {
    let mut pkt = vec![0u8; 12];
    pkt[1] = 97;
    assert_eq!(opus_payload(&pkt), None);
    pkt.extend([1, 2, 3]);
    assert_eq!(opus_payload(&pkt), Some(&[1u8, 2, 3][..]));
    pkt[1] = 127;
    assert_eq!(opus_payload(&pkt), None);
    assert_eq!(opus_payload(&pkt[..5]), None);
    let h = starfire::audio::rtp::parse(&pkt).unwrap();
    assert!(h.is_fec() && !h.is_data());

    assert_eq!(SAMPLE_RATE as usize / 1000 * MAX_BUFFER_MS * CHANNELS, MAX_QUEUED_SAMPLES);
    let mut q = SampleQueue::new(3);
    q.push(&[1, 2]);
    q.push(&[3, 4, 5]);
    assert_eq!([q.pop(), q.pop(), q.pop(), q.pop()], [3, 4, 5, 0]);
    assert_eq!(AudioError::NoBackend.message(), "no audio backend available yet");
    assert_eq!(AudioError::Failed("x".to_string()).message(), "output failed: x");
}

fn field_mul(a: u8, b: u8) -> u8 {
    let (mut a, mut b, mut r) = (a as u16, b, 0u16);
    while b > 0 {
        if b & 1 == 1 {
            r ^= a;
        }
        a <<= 1;
        if a & 0x100 != 0 {
            a ^= 0x11d;
        }
        b >>= 1;
    }
    r as u8
}

fn field_inverse(a: u8) -> u8 {
    (1..=255).find(|&b| field_mul(a, b) == 1).unwrap()
}

fn encode_block(data: &[Vec<u8>], parity: usize) -> Vec<Option<Vec<u8>>> {
    let len = data[0].len();
    let mut out: Vec<Option<Vec<u8>>> = data.iter().cloned().map(Some).collect();
    for j in 0..parity {
        let mut shard = vec![0u8; len];
        for (i, d) in data.iter().enumerate() {
            let c = field_inverse(((parity + i) ^ j) as u8);
            for b in 0..len {
                shard[b] ^= field_mul(c, d[b]);
            }
        }
        out.push(Some(shard));
    }
    out
}

fn sample_data(k: usize, len: usize) -> Vec<Vec<u8>> {
    (0..k).map(|i| (0..len).map(|b| (i * 37 + b * 101 + 7) as u8).collect()).collect()
}

#[test]
fn the_field_tables_match_long_multiplication() {
    let g = Gf256::build();
    for a in 0..=255u8 {
        for b in [0u8, 1, 2, 3, 29, 128, 254, 255] {
            assert_eq!(g.mul(a, b), field_mul(a, b));
        }
        if a != 0 {
            assert_eq!(g.inverse(a), field_inverse(a));
        }
    }
}

#[test]
fn matrices_invert_unless_singular() {
    let g = Gf256::build();
    let m = vec![vec![0, 2], vec![3, 1]];
    let inv = invert(&g, &m).unwrap();
    for r in 0..2 {
        for c in 0..2 {
            let x = g.mul(m[r][0], inv[0][c]) ^ g.mul(m[r][1], inv[1][c]);
            assert_eq!(x, u8::from(r == c));
        }
    }
    assert!(invert(&g, &vec![vec![1, 2], vec![1, 2]]).is_none());
}

#[test]
fn any_shards_restore_the_data() {
    let data = sample_data(5, 20);
    let full = encode_block(&data, 3);
    for lost in [[0usize, 1, 2], [0, 4, 6], [1, 3, 4], [2, 5, 7]] {
        let mut shards = full.clone();
        for i in lost {
            shards[i] = None;
        }
        assert!(recover(5, 3, &mut shards));
        for i in 0..5 {
            assert_eq!(shards[i].as_ref(), Some(&data[i]));
        }
    }
}

#[test]
fn too_few_shards_restore_nothing() {
    let full = encode_block(&sample_data(4, 3), 2);
    let mut shards = full.clone();
    for i in [0, 1, 4] {
        shards[i] = None;
    }
    assert!(!recover(4, 2, &mut shards));
    assert!(!recover(4, 3, &mut full.clone()));
    let mut whole = full.clone();
    assert!(recover(4, 2, &mut whole));
    assert_eq!(whole, full);
}

fn datagram(frame: u32, shard: u32, data: u32, percent: u32, payload: &[u8]) -> Vec<u8> {
    let mut p = vec![0u8; 32];
    p[2..4].copy_from_slice(&(shard as u16).to_be_bytes());
    p[20..24].copy_from_slice(&frame.to_le_bytes());
    p[24] = if shard == 0 { 0x05 } else { 0x01 };
    p[28..32].copy_from_slice(&((data << 22) | (shard << 12) | (percent << 4)).to_le_bytes());
    p.extend_from_slice(payload);
    p
}

fn coded_frame() -> (Vec<Vec<u8>>, Vec<u8>) {
    let mut data = sample_data(4, 16);
    data[0][..8].copy_from_slice(&[1, 0x34, 0x12, 2, 10, 0, 0, 0]);
    let mut all: Vec<u8> = data.iter().take(3).flatten().copied().collect();
    all.extend_from_slice(&data[3][..10]);
    (data, all[8..].to_vec())
}

#[test]
fn headers_of_video_datagrams() {
    let p = datagram(77, 3, 9, 50, &[0, 0, 0, 2, 0]);
    let h = parse_header(&p).unwrap();
    assert_eq!((h.frame_index, h.shard_index, h.data_shards, h.fec_percentage), (77, 3, 9, 50));
    assert_eq!(h.rtp_seq, 3);
    assert!(!h.is_sof() && !h.is_eof());
    assert_eq!(payload_offset(&h), 32);
    assert_eq!(sof_frame_type(&p), Some(2));
    let first = parse_header(&datagram(1, 0, 1, 0, &[])).unwrap();
    assert_eq!(payload_offset(&first), 40);
    assert!(parse_header(&p[..31]).is_none());
    assert_eq!(sof_frame_type(&p[..33]), None);
}

#[test]
fn a_lossless_frame_is_handed_out_once() {
    let (data, frame) = coded_frame();
    let mut d = Depacketizer::new(Codec::Hevc);
    assert!(d.push(b"short").is_none());
    for (i, shard) in data.iter().enumerate() {
        let unit = d.push(&datagram(5, i as u32, 4, 50, shard));
        if i < 3 {
            assert!(unit.is_none());
            assert!(d.push(&datagram(5, i as u32, 4, 50, shard)).is_none());
        } else {
            let unit = unit.unwrap();
            assert_eq!(unit.frame_index, 5);
            assert!(unit.is_keyframe);
            assert_eq!(unit.data, frame);
        }
    }
    assert!(d.push(&datagram(5, 3, 4, 50, &data[3])).is_none());
}

#[test]
fn a_lossy_frame_comes_out_the_same() {
    let (data, frame) = coded_frame();
    let full = encode_block(&data, 2);
    for lost in [[0usize, 1], [1, 3], [0, 4], [2, 5]] {
        let mut d = Depacketizer::new(Codec::H264);
        let mut units = vec![];
        for i in (0..6).rev() {
            if !lost.contains(&i) {
                let p = datagram(9, i as u32, 4, 50, full[i].as_ref().unwrap());
                units.extend(d.push(&p));
            }
        }
        assert_eq!(units.len(), 1);
        assert_eq!(units[0].data, frame);
        assert_eq!(units[0].codec, Codec::H264);
        assert!(units[0].is_keyframe);
    }
}

#[test]
fn a_frame_survives_reordering_and_repetition() {
    let (data, frame) = coded_frame();
    let full = encode_block(&data, 2);
    let mut d = Depacketizer::new(Codec::Hevc);
    let mut units = vec![];
    for i in [5usize, 0, 5, 0, 3, 3, 4, 1, 2, 5] {
        units.extend(d.push(&datagram(9, i as u32, 4, 50, full[i].as_ref().unwrap())));
    }
    assert_eq!(units.len(), 1);
    assert_eq!(units[0].data, frame);

    let mut d = Depacketizer::new(Codec::Hevc);
    for i in [5usize, 0, 5, 0, 3, 3] {
        let p = datagram(9, i as u32, 4, 50, full[i].as_ref().unwrap());
        assert!(d.push(&p).is_none());
    }
}

#[test]
fn a_new_frame_replaces_one_that_is_incomplete() {
    let (data, frame) = coded_frame();
    let mut d = Depacketizer::new(Codec::Hevc);
    assert!(d.push(&datagram(1, 0, 4, 0, &data[0])).is_none());
    let mut last = None;
    for (i, shard) in data.iter().enumerate() {
        last = d.push(&datagram(2, i as u32, 4, 0, shard));
    }
    assert_eq!(last.unwrap().data, frame);
}

#[test]
fn a_late_packet_yields_nothing() {
    let packet = |frame: u8| {
        let mut p = vec![0u8; 20];
        p.extend([frame, 0, 0, 0, 1, 0, 0, 0, 0, 0, 0x40, 0]);
        p.extend([0, 0, 0, 1, 9, 0, 0, 0, 0xaa]);
        p
    };
    let mut d = Depacketizer::new(Codec::Hevc);
    assert_eq!(d.push(&packet(1)).unwrap().frame_index, 1);
    assert_eq!(d.push(&packet(2)).unwrap().frame_index, 2);
    assert!(d.push(&packet(1)).is_none());
    assert!(d.push(&packet(2)).is_none());
    assert_eq!(d.push(&packet(3)).unwrap().frame_index, 3);
}

#[test]
fn a_late_shard_does_not_disturb_the_newer_frame() {
    let (data, frame) = coded_frame();
    let mut d = Depacketizer::new(Codec::Hevc);
    assert!(d.push(&datagram(7, 0, 4, 0, &data[0])).is_none());
    assert!(d.push(&datagram(8, 0, 4, 0, &data[0])).is_none());
    assert!(d.push(&datagram(7, 1, 4, 0, &data[1])).is_none());
    let mut units = vec![];
    for i in [1usize, 2, 3] {
        units.extend(d.push(&datagram(8, i as u32, 4, 0, &data[i])));
        assert!(d.push(&datagram(7, i as u32, 4, 0, &data[i])).is_none());
    }
    assert_eq!(units.len(), 1);
    assert_eq!(units[0].frame_index, 8);
    assert_eq!(units[0].data, frame);
}

#[test]
fn frame_indices_wrap_around() {
    let shard = [0u8, 0, 0, 1, 9, 0, 0, 0, 0xaa];
    let mut d = Depacketizer::new(Codec::Hevc);
    assert!(d.push(&datagram(u32::MAX, 0, 1, 0, &shard)).is_some());
    assert_eq!(d.push(&datagram(0, 0, 1, 0, &shard)).unwrap().frame_index, 0);
    assert!(d.push(&datagram(u32::MAX, 0, 1, 0, &shard)).is_none());
}
