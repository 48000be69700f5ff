use starfire::slicer::cli::{parse_args, summary};
use starfire::slicer::l2l4::{self, Proto, DLT_EN10MB};
use starfire::slicer::layers::{classify, Layer};
use starfire::slicer::pcap::{self, PcapError};
use starfire::slicer::tcp::Reassembler;
use starfire::slicer::testbuild::{eth, ipv4, pcap as build_pcap, tcp, udp};
use starfire::slicer::wire_bench::{measure, median};
use starfire::slicer::{
    encode_frames, meta_toml, sanitize, slice, write_fixtures, MetaParams, UdpFlow,
};

#[test]
fn extracts_udp_over_eth_ipv4() {
    let frame = eth(
        0x0800,
        &ipv4(17, [10, 0, 0, 1], [10, 0, 0, 2], &udp(1111, 47998, b"hi")),
    );
    let l4 = l2l4::parse(DLT_EN10MB, &frame).unwrap();
    assert_eq!(l4.proto, Proto::Udp);
    assert_eq!(l4.src_port, 1111);
    assert_eq!(l4.dst_port, 47998);
    assert_eq!(l4.dst_ip, "10.0.0.2");
    assert_eq!(l4.payload, b"hi");
}

#[test]
fn extracts_tcp_seq_and_payload() {
    let frame = eth(
        0x0800,
        &ipv4(6, [10, 0, 0, 1], [10, 0, 0, 2], &tcp(2222, 48010, 500, b"DESCRIBE")),
    );
    let l4 = l2l4::parse(DLT_EN10MB, &frame).unwrap();
    assert_eq!(l4.proto, Proto::Tcp);
    assert_eq!(l4.seq, 500);
    assert_eq!(l4.payload, b"DESCRIBE");
}

#[test]
fn skips_fragmented_ipv4() {
    let mut frame = eth(
        0x0800,
        &ipv4(17, [10, 0, 0, 1], [10, 0, 0, 2], &udp(1, 2, b"x")),
    );
    frame[14 + 6] |= 0x20;
    assert!(l2l4::parse(DLT_EN10MB, &frame).is_none());
}

#[test]
fn classifies_video_and_rtsp() {
    assert_eq!(classify(Proto::Udp, 50000, 47998).unwrap().layer, Layer::Video);
    assert_eq!(classify(Proto::Tcp, 48010, 50000).unwrap().layer, Layer::Rtsp);
}

#[test]
fn unknown_ports_are_none() {
    assert!(classify(Proto::Udp, 1234, 5678).is_none());
    assert!(classify(Proto::Tcp, 5353, 5353).is_none());
}

fn frame_udp(sp: u16, dp: u16, payload: &[u8]) -> Vec<u8> {
    eth(
        0x0800,
        &ipv4(17, [192, 168, 1, 50], [192, 168, 1, 10], &udp(sp, dp, payload)),
    )
}

fn frame_tcp(sp: u16, dp: u16, seq: u32, payload: &[u8]) -> Vec<u8> {
    eth(
        0x0800,
        &ipv4(6, [192, 168, 1, 50], [192, 168, 1, 10], &tcp(sp, dp, seq, payload)),
    )
}

#[test]
fn end_to_end_slice() {
    let frames = vec![
        frame_tcp(50001, 48010, 1007, b"WORLD"),
        frame_udp(50000, 47998, b"RTP-A"),
        frame_tcp(50001, 48010, 1000, b"HELLO__"),
        frame_udp(50000, 47998, b"RTP-B"),
        frame_udp(50002, 47999, b"CTRL"),
        frame_tcp(50003, 47984, 1, b"<encrypted>"),
    ];
    let bytes = build_pcap(1, &frames);
    let s = slice(&bytes).unwrap();

    assert_eq!(s.tcp.len(), 1);
    assert_eq!(s.tcp[0].layer, Layer::Rtsp);
    assert_eq!(s.tcp[0].c2s, b"HELLO__WORLD");

    let video = s.udp.iter().find(|f| f.layer == Layer::Video).unwrap();
    assert_eq!(video.packets, vec![b"RTP-A".to_vec(), b"RTP-B".to_vec()]);

    assert!(s.udp.iter().any(|f| f.layer == Layer::Control));

    assert_eq!(s.https_packets, 1);
    assert_eq!(s.counts.get("https-control"), Some(&1));
    assert_eq!(s.counts.get("video"), Some(&2));
}

#[test]
fn frames_container_roundtrips_boundaries() {
    let packets = vec![b"aa".to_vec(), b"bbbb".to_vec()];
    let encoded = encode_frames(&packets);
    assert_eq!(
        encoded,
        vec![2, 0, 0, 0, b'a', b'a', 4, 0, 0, 0, b'b', b'b', b'b', b'b']
    );
}

#[test]
fn slices_become_files() {
    let frames = vec![
        frame_tcp(40001, 48010, 1, b"OPTIONS rtsp"),
        frame_tcp(40001, 48010, 13, b" * RTSP/1.0"),
        frame_udp(40000, 47998, b"RTP-1"),
        frame_udp(40000, 47998, b"RTP-2"),
    ];
    let slices = slice(&build_pcap(1, &frames)).unwrap();
    let meta = MetaParams {
        sunshine_version: "0.23.1".to_string(),
        captured: "2026-06-18".to_string(),
        notes: "synthetic test capture".to_string(),
    };
    let files = write_fixtures(&slices, &meta);
    assert_eq!(files.len(), 4);
    let bytes_of = |name: &str| &files.iter().find(|f| f.name == name).unwrap().bytes;
    assert_eq!(bytes_of("192.168.1.50-40001-c2s.bin"), b"OPTIONS rtsp * RTSP/1.0");
    assert_eq!(
        bytes_of("192.168.1.50-40000.frames"),
        &encode_frames(&[b"RTP-1".to_vec(), b"RTP-2".to_vec()])
    );
    let text = String::from_utf8(bytes_of("192.168.1.50-40001-c2s.meta.toml").clone()).unwrap();
    let parsed: toml::Table = text.parse().unwrap();
    assert_eq!(parsed["sunshine_version"].as_str(), Some("0.23.1"));
    assert_eq!(parsed["captured"].as_str(), Some("2026-06-18"));
    assert_eq!(parsed["layer"].as_str(), Some("rtsp"));
    assert_eq!(files[0].dir, "rtsp");
}

#[test]
fn metadata_is_readable() {
    let text = meta_toml("video", "1\\0", "day", "a \"b\"");
    let parsed: toml::Table = text.parse().unwrap();
    assert_eq!(parsed["layer"].as_str(), Some("video"));
    assert_eq!(sanitize("fe80::1"), "fe80__1");
}

fn global_header_le(datalink: u32) -> Vec<u8> {
    let mut v = Vec::new();
    v.extend_from_slice(&0xa1b2_c3d4u32.to_le_bytes());
    v.extend_from_slice(&2u16.to_le_bytes());
    v.extend_from_slice(&4u16.to_le_bytes());
    v.extend_from_slice(&0i32.to_le_bytes());
    v.extend_from_slice(&0u32.to_le_bytes());
    v.extend_from_slice(&65535u32.to_le_bytes());
    v.extend_from_slice(&datalink.to_le_bytes());
    v
}

fn record_le(data: &[u8]) -> Vec<u8> {
    let mut v = Vec::new();
    v.extend_from_slice(&0u32.to_le_bytes());
    v.extend_from_slice(&0u32.to_le_bytes());
    v.extend_from_slice(&(data.len() as u32).to_le_bytes());
    v.extend_from_slice(&(data.len() as u32).to_le_bytes());
    v.extend_from_slice(data);
    v
}

#[test]
fn parses_two_records() {
    let mut f = global_header_le(1);
    f.extend(record_le(b"abc"));
    f.extend(record_le(b"defg"));
    let parsed = pcap::parse(&f).unwrap();
    assert_eq!(parsed.datalink, 1);
    assert_eq!(parsed.records.len(), 2);
    assert_eq!(parsed.records[0].data, b"abc");
    assert_eq!(parsed.records[1].data, b"defg");
}

#[test]
fn rejects_bad_magic() {
    let bytes = [0u8; 24];
    assert!(matches!(pcap::parse(&bytes), Err(PcapError::BadMagic(_))));
}

#[test]
fn tolerates_truncated_trailing_record() {
    let mut f = global_header_le(1);
    f.extend(record_le(b"abc"));
    f.extend_from_slice(&0u32.to_le_bytes());
    f.extend_from_slice(&0u32.to_le_bytes());
    f.extend_from_slice(&10u32.to_le_bytes());
    f.extend_from_slice(&10u32.to_le_bytes());
    f.extend_from_slice(b"xy");
    let parsed = pcap::parse(&f).unwrap();
    assert_eq!(parsed.records.len(), 1);
    assert_eq!(parsed.records[0].data, b"abc");
}

#[test]
fn captures_that_cannot_be_read() {
    let short = pcap::parse(&[0; 23]).err().unwrap();
    assert!(matches!(short, PcapError::TooShort));
    assert!(!short.message().is_empty());
    assert!(PcapError::BadMagic(0x1234).message().contains("1234"));
    let built = build_pcap(101, &[vec![1, 2, 3], vec![]]);
    let parsed = pcap::parse(&built).unwrap();
    assert_eq!(parsed.datalink, 101);
    assert_eq!(parsed.records[0].data, [1, 2, 3]);
    assert_eq!(parsed.records[1].data, [0u8; 0]);
}

#[test]
fn reassembles_out_of_order_with_retransmit() {
    let mut r = Reassembler::new();
    let layer = Layer::Rtsp;
    let ip = "10.0.0.1".to_string();
    r.push(layer, ip.clone(), 5000, 48010, true, 105, b"WORLD");
    r.push(layer, ip.clone(), 5000, 48010, true, 100, b"HELLO");
    r.push(layer, ip.clone(), 5000, 48010, true, 100, b"HELLO");
    let conns = r.finish();
    assert_eq!(conns.len(), 1);
    assert_eq!(conns[0].c2s, b"HELLOWORLD");
    assert!(conns[0].s2c.is_empty());
}

#[test]
fn handles_partial_overlap() {
    let mut r = Reassembler::new();
    r.push(Layer::Rtsp, "1.1.1.1".into(), 1, 48010, true, 10, b"ABCDE");
    r.push(Layer::Rtsp, "1.1.1.1".into(), 1, 48010, true, 13, b"DEFGH");
    let conns = r.finish();
    assert_eq!(conns[0].c2s, b"ABCDEFGH");
}

#[test]
fn connections_are_listed_in_order() {
    let mut r = Reassembler::new();
    r.push(Layer::Rtsp, "9.9.9.9".into(), 1, 48010, false, 1, b"answer");
    r.push(Layer::HttpControl, "9.9.9.9".into(), 2, 47989, true, 1, b"GET");
    r.push(Layer::Rtsp, "10.0.0.1".into(), 1, 48010, true, 1, b"x");
    let conns = r.finish();
    assert_eq!(conns.len(), 3);
    let rtsp: Vec<&str> = conns
        .iter()
        .filter(|c| c.layer == Layer::Rtsp)
        .map(|c| c.client_ip.as_str())
        .collect();
    assert_eq!(rtsp, ["10.0.0.1", "9.9.9.9"]);
    assert!(conns.iter().any(|c| c.s2c == b"answer"));
}

#[test]
fn layers_have_names_in_rank_order() {
    let layers = [
        Layer::Audio,
        Layer::Control,
        Layer::HttpControl,
        Layer::HttpsControl,
        Layer::Mdns,
        Layer::Rtsp,
        Layer::Video,
    ];
    for (i, l) in layers.iter().enumerate() {
        assert_eq!(l.rank(), i);
        if i > 0 {
            assert!(layers[i - 1].name() < l.name());
        }
    }
    assert!(Layer::Rtsp.is_tcp() && !Layer::Video.is_tcp());
}

fn args(list: &[&str]) -> Vec<String> {
    list.iter().map(|s| s.to_string()).collect()
}

#[test]
fn arguments_are_read() {
    let a = parse_args(&args(&["in.pcap", "--out", "dir", "--list", "--notes", "n"])).unwrap();
    assert_eq!(a.input, "in.pcap");
    assert_eq!(a.out.as_deref(), Some("dir"));
    assert!(a.list);
    assert_eq!((a.sunshine_version.as_str(), a.captured.as_str()), ("UNKNOWN", "UNKNOWN"));
    assert_eq!(a.notes, "n");
    let errors = [
        (args(&[]), "no input pcap given"),
        (args(&["a", "b"]), "more than one input file given"),
        (args(&["--out"]), "--out needs a value"),
        (args(&["--what"]), "unknown flag --what"),
        (args(&["-h"]), "help"),
    ];
    for (list, text) in errors {
        assert_eq!(parse_args(&list).err().unwrap(), text);
    }
}

#[test]
fn a_capture_is_summed_up() {
    let frames = vec![
        frame_udp(50000, 47998, b"RTP-A"),
        frame_tcp(50001, 48010, 1000, b"HELLO"),
        frame_tcp(50003, 47984, 1, b"<encrypted>"),
    ];
    let text = summary(&slice(&build_pcap(1, &frames)).unwrap());
    assert!(text.starts_with("capture summary (packets per layer):\n"));
    assert!(text.contains("  video          1\n"));
    assert!(text.contains("192.168.1.50:50001 <-> :48010   c2s 5 B, s2c 0 B\n"));
    assert!(text.contains("192.168.1.50:50000 -> :47998   1 datagram(s), 5 B\n"));
    assert!(text.contains("note: 1 encrypted HTTPS (47984) packet(s)"));
    let none = summary(&slice(&build_pcap(1, &[])).unwrap());
    assert!(none.contains("(no Sunshine-port traffic recognized)"));
}

fn video_datagram(frame: u32, timestamp: u32, latency: u16) -> Vec<u8> {
    let mut p = vec![0u8; 40];
    p[4..8].copy_from_slice(&timestamp.to_be_bytes());
    p[20..24].copy_from_slice(&frame.to_le_bytes());
    p[24] = 0x04;
    p[33..35].copy_from_slice(&latency.to_le_bytes());
    p
}

#[test]
fn a_stream_is_measured_from_its_capture() {
    let mut frames = vec![frame_udp(47998, 50000, b"too short")];
    for (f, t, l) in [(3u32, 100u32, 50u16), (4, 190, 70), (7, 370, 60)] {
        frames.push(frame_udp(47998, 50000, &video_datagram(f, t, l)));
    }
    frames.push(frame_udp(50000, 47998, &video_datagram(9, 0, 1)));
    let s = measure(&build_pcap(1, &frames)).unwrap();
    assert_eq!((s.datalink, s.packets, s.video_bytes, s.frames), (1, 3, 120, 3));
    assert_eq!((s.min_frame, s.max_frame), (3, 7));
    assert_eq!(s.dropped(), 2);
    assert_eq!(s.ticks(), 270);
    assert_eq!(s.host_latency_tenths, [50, 70, 60]);
    assert_eq!(median(&s.host_latency_tenths), Some(60));
    assert_eq!(median(&[4, 1]), Some(4));
    assert_eq!(median(&[]), None);
    let empty = measure(&build_pcap(1, &[])).unwrap();
    assert_eq!((empty.dropped(), empty.ticks()), (0, 0));
}

#[test]
fn a_transcript_with_gaps_holds_what_arrived() {
    let stream = b"0123456789abcdef";
    let mut r = Reassembler::new();
    for (from, to) in [(12usize, 14usize), (2, 5), (4, 7), (2, 3), (10, 11)] {
        let ip = "10.0.0.9".to_string();
        r.push(Layer::Rtsp, ip, 5, 48010, true, 100 + from as u32, &stream[from..to]);
    }
    let conns = r.finish();
    assert_eq!(conns[0].c2s, b"23456acd");
    assert_eq!(conns[0].s2c, b"");
}

#[test]
fn either_byte_order_is_read_up_to_any_cut() {
    let frames: [&[u8]; 3] = [b"one", b"", b"three"];
    for big in [false, true] {
        let put = |v: &mut Vec<u8>, x: u32| {
            v.extend(if big { x.to_be_bytes() } else { x.to_le_bytes() });
        };
        let mut file = vec![];
        put(&mut file, 0xa1b2_3c4d);
        file.extend([9u8; 16]);
        put(&mut file, 101);
        let mut ends = vec![];
        for f in frames {
            file.extend([7u8; 8]);
            put(&mut file, f.len() as u32);
            file.extend([8u8; 4]);
            file.extend(f);
            ends.push(file.len());
        }
        for cut in 24..=file.len() {
            let read = pcap::parse(&file[..cut]).unwrap();
            let whole = ends.iter().filter(|&&end| end <= cut).count();
            assert_eq!(read.datalink, 101);
            assert_eq!(read.records.len(), whole);
            for (record, frame) in read.records.iter().zip(frames) {
                assert_eq!(record.data, frame);
            }
        }
    }
}

#[test]
fn counts_and_flows_account_for_every_packet() {
    let frames = vec![
        frame_udp(50000, 47998, b"v1"),
        frame_udp(50001, 47998, b"other"),
        frame_udp(50000, 47998, b""),
        frame_udp(47998, 50000, b"back"),
        frame_udp(1, 2, b"unknown"),
        frame_tcp(50003, 47984, 1, b"secret"),
        frame_tcp(50004, 48010, 1, b""),
        frame_udp(50000, 47998, b"v2"),
    ];
    let s = slice(&build_pcap(1, &frames)).unwrap();
    let names = ["video", "audio", "control", "mdns", "rtsp", "http-control", "https-control"];
    let sum: usize = names.iter().filter_map(|n| s.counts.get(n)).sum();
    assert_eq!(sum, 7);
    assert_eq!(s.https_packets, 1);
    assert!(s.tcp.is_empty());
    let ours = |f: &&UdpFlow| f.client_port == 50000 && f.client_ip == "192.168.1.50";
    let flow = s.udp.iter().find(ours).unwrap();
    assert_eq!(flow.packets, vec![b"v1".to_vec(), b"v2".to_vec()]);
    let packets: usize = s.udp.iter().map(|f| f.packets.len()).sum();
    assert_eq!(packets, 4);
}
