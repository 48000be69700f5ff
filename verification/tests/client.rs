use starfire::bench::{ranked, BenchStats, LatencyWatch};
use starfire::client::{
    app_or_default, choose_app, configs_from_knobs, host_or_stop, pin_or_default, stopped,
    stream_configs, submit_pin, switched_on, AudioCapture, BringUp, ClientEvent, Ingest, Knobs,
    LoopAction, LoopEvent, LossMonitor, StarfireConfig,
};
use starfire::controls::{vk_from_keycode, Action, Controls, Key};
use starfire::devices::InputError;
use starfire::input::{self, MouseButton};
use starfire::launch::App;
use starfire::testkit::{assert_bytes_eq, drop_indices};
use starfire::video::Codec;

#[test]
fn the_usual_configuration() {
    let cfg = StarfireConfig::default();
    let (launch, announce) = stream_configs(&cfg);
    assert_eq!((launch.width, launch.height, launch.fps), (1920, 1080, 60));
    assert_eq!(announce.bitrate_kbps, 20000);
    assert_eq!(announce.packet_size, 1392);
    assert_eq!(announce.encryption_enabled, 0);
    assert_eq!((cfg.pin.as_str(), cfg.app_name.as_str()), ("1234", "Desktop"));
}

#[test]
fn knobs_override_the_usual() {
    let k = Knobs {
        width: Some("1280".to_string()),
        height: None,
        fps: Some("fast".to_string()),
        bitrate_kbps: None,
        slices: Some("4".to_string()),
        fec_percent: None,
        packet_size: Some("4294967296".to_string()),
    };
    let (launch, announce) = configs_from_knobs(&k);
    assert_eq!((launch.width, launch.height, launch.fps), (1280, 1080, 60));
    assert_eq!(announce.bitrate_kbps, 10_000);
    assert_eq!(announce.slices_per_frame, 4);
    assert_eq!(announce.packet_size, 1392);
}

#[test]
fn switches() {
    for off in ["off", "0", "false", "no"] {
        assert!(!switched_on(Some(off)));
    }
    for on in ["on", "OFF", "", "1"] {
        assert!(switched_on(Some(on)));
    }
    assert!(switched_on(None));
}

#[test]
fn apps_are_chosen_by_title() {
    let apps = vec![
        App { id: "1".to_string(), title: "Steam".to_string() },
        App { id: "2".to_string(), title: "Desk\"top".to_string() },
        App { id: "3".to_string(), title: "Steam".to_string() },
    ];
    assert_eq!(choose_app(&apps, "Steam"), Ok("1".to_string()));
    assert_eq!(
        choose_app(&apps[..2], "Desktop"),
        Err("app \"Desktop\" not found in [\"Steam\", \"Desk\\\"top\"]".to_string())
    );
    assert_eq!(choose_app(&[], "x"), Err("app \"x\" not found in []".to_string()));
}

#[test]
fn a_pin_is_submitted_with_curl() {
    let args = submit_pin("10.0.0.2", "u", "p", "1234");
    assert_eq!(args.len(), 12);
    assert_eq!(args[4], "u:p");
    assert_eq!(args[7], "https://10.0.0.2:47990/api/pin");
    assert_eq!(args[11], "{\"pin\":\"1234\",\"name\":\"starfire\"}");
}

#[test]
fn losses_are_the_missing_frames() {
    let mut m = LossMonitor::new();
    for i in [10, 11, 14, 15, 20] {
        m.on_decoded(i);
    }
    assert!(m.report(500_000_000).is_none());
    let report = m.report(750_000_000).unwrap();
    assert_eq!(report[4..8], 6i32.to_le_bytes());
    assert_eq!(report[8..12], 750i32.to_le_bytes());
    assert_eq!(report[16..20], 20i32.to_le_bytes());
    m.on_decoded(3);
    assert_eq!(m.report(u64::MAX).unwrap()[4..8], [0, 0, 0, 0]);
}

#[test]
fn a_keyframe_is_asked_for_after_a_run_of_failures() {
    let mut m = LossMonitor::new();
    for _ in 0..4 {
        assert!(!m.on_failure(2_000_000_000));
    }
    m.on_decoded(1);
    for _ in 0..4 {
        assert!(!m.on_failure(2_000_000_000));
    }
    assert!(!m.on_failure(1_000_000_000));
    assert!(m.on_failure(1_000_000_001));
    assert!(!m.on_failure(9_000_000_000));
}

fn single_shard(frame: u32) -> Vec<u8> {
    let mut p = vec![0u8; 32];
    p[20..24].copy_from_slice(&frame.to_le_bytes());
    p[24] = 0x05;
    p[28..32].copy_from_slice(&(1u32 << 22).to_le_bytes());
    p.extend([1, 0, 0, 2, 9, 0, 0, 0, 0xab]);
    p
}

#[test]
fn a_session_steps_from_datagrams_to_feedback() {
    let mut s = Ingest::new(Codec::Hevc);
    assert!(matches!(s.step(LoopEvent::Datagram { bytes: vec![] }), LoopAction::Nothing));
    match s.step(LoopEvent::Datagram { bytes: single_shard(4) }) {
        LoopAction::Decode { unit } => {
            assert_eq!(unit.data, [0xab]);
            assert_eq!(unit.frame_index, 4);
        }
        _ => panic!("no unit"),
    }
    assert!(matches!(s.step(LoopEvent::Taken), LoopAction::Nothing));
    assert!(matches!(s.step(LoopEvent::Decoded { index: 4 }), LoopAction::Show));
    assert!(matches!(s.step(LoopEvent::Decoded { index: 7 }), LoopAction::Show));
    assert!(matches!(s.step(LoopEvent::Tick { since_report_ns: 1 }), LoopAction::Nothing));
    match s.step(LoopEvent::Tick { since_report_ns: 600_000_000 }) {
        LoopAction::Report { message } => assert_eq!(message[4], 2),
        _ => panic!("no report"),
    }
    for _ in 0..4 {
        let event = LoopEvent::Failed { since_request_ns: 2_000_000_000 };
        assert!(matches!(s.step(event), LoopAction::Nothing));
    }
    match s.step(LoopEvent::Failed { since_request_ns: 2_000_000_000 }) {
        LoopAction::AskKeyframe { message } => assert_eq!(message, [2, 3, 0, 0]),
        _ => panic!("no request"),
    }
}

#[test]
fn a_stop_says_which_step_failed() {
    let texts = [
        (BringUp::Pair, "pair: x"),
        (BringUp::AppList, "applist: x"),
        (BringUp::Start, "session start: x"),
        (BringUp::Decoder, "no video decoder on this platform: x"),
    ];
    for (step, text) in texts {
        match stopped(step, "x") {
            ClientEvent::Stopped(s) => assert_eq!(s, text),
            ClientEvent::Frame => panic!("a frame"),
        }
    }
}

#[test]
fn captured_audio_keeps_its_boundaries() {
    let mut c = AudioCapture::new();
    assert!(!c.keep(b"ab"));
    assert!(!c.keep(b""));
    assert_eq!(c.data(), [2, 0, b'a', b'b', 0, 0]);
    for _ in 0..597 {
        assert!(!c.keep(b"x"));
    }
    assert!(c.keep(b"y"));
}

#[test]
fn keys_have_virtual_codes() {
    assert_eq!(vk_from_keycode(Key::KeyA), Some(0x41));
    assert_eq!(vk_from_keycode(Key::Digit9), Some(0x39));
    assert_eq!(vk_from_keycode(Key::F12), Some(0x7B));
    assert_eq!(vk_from_keycode(Key::ShiftRight), Some(0x10));
    assert_eq!(vk_from_keycode(Key::Slash), Some(0xBF));
    assert_eq!(vk_from_keycode(Key::Other), None);
}

#[test]
fn modifiers_follow_their_keys() {
    let mut c = Controls::new(false);
    assert_eq!(c.on_key(Key::ShiftLeft, true), Action::Send(input::key(0x10, 1, true)));
    assert_eq!(c.on_key(Key::AltLeft, true), Action::Send(input::key(0x12, 5, true)));
    assert_eq!(c.on_key(Key::KeyB, true), Action::Send(input::key(0x42, 5, true)));
    assert_eq!(c.on_key(Key::ShiftLeft, false), Action::Send(input::key(0x10, 4, false)));
    assert_eq!(c.on_key(Key::Other, true), Action::Nothing);
    assert_eq!(c.modifiers, 4);
}

#[test]
fn the_pointer_is_grabbed_and_released() {
    let mut c = Controls::new(true);
    assert_eq!(c.on_motion(3, 4, true), Action::Nothing);
    assert_eq!(c.on_button(Some(MouseButton::Left), false), Action::Nothing);
    assert_eq!(c.on_button(Some(MouseButton::Left), true), Action::Grab);
    assert_eq!(c.on_motion(3, -4, true), Action::Send(input::mouse_move_rel(3, -4)));
    assert_eq!(c.on_motion(0, 0, false), Action::Nothing);
    assert_eq!(
        c.on_button(Some(MouseButton::Right), true),
        Action::Send(input::mouse_button(MouseButton::Right, true))
    );
    assert_eq!(c.on_button(None, true), Action::Nothing);
    assert_eq!(c.on_key(Key::Escape, true), Action::Release);
    assert_eq!(c.on_key(Key::Escape, true), Action::Send(input::key(0x1B, 0, true)));
    c.grabbed = true;
    c.on_frame(1280, 720);
    assert_eq!(c.cursor_frame(), None);
    assert_eq!(c.on_focus_lost(), Action::Release);
    assert_eq!(c.cursor_frame(), Some((1280, 720)));
}

#[test]
fn f11_stays_with_the_client() {
    let mut c = Controls::new(true);
    assert_eq!(c.on_key(Key::F11, true), Action::Fullscreen(false));
    assert_eq!(c.on_key(Key::F11, false), Action::Nothing);
    assert_eq!(c.on_key(Key::F11, true), Action::Fullscreen(true));
}

#[test]
fn the_wheel_turns_along_two_axes() {
    let c = Controls::new(false);
    assert_eq!(
        c.on_scroll(Some(120), Some(-1)),
        vec![input::scroll_vertical(120), input::scroll_horizontal(-1)]
    );
    assert_eq!(c.on_scroll(None, Some(5)), vec![input::scroll_horizontal(5)]);
    assert!(c.on_scroll(None, None).is_empty());
    assert_eq!(
        InputError::NoBackend.message(),
        "no input backend available for this platform yet"
    );
}

#[test]
fn measures_of_a_run() {
    let mut b = BenchStats::new();
    b.packet(100);
    b.packet(28);
    b.frame(900, Some(12), 3, None, 5, 64, 48);
    b.frame(700, None, 4, Some(16_000), 9, 64, 48);
    b.frame(800, Some(14), 5, Some(17_000), 2, 64, 48);
    assert_eq!((b.packets, b.bytes, b.dropped), (2, 128, 3));
    assert_eq!(b.interval_us, [16_000, 17_000]);
    assert_eq!(b.host_lat_tenths, [12, 14]);
    assert_eq!(b.last_idx, Some(2));
    assert_eq!(ranked(&b.decode_us, 0), Some(700));
    assert_eq!(ranked(&b.decode_us, 1), Some(800));
    assert_eq!(ranked(&b.decode_us, 2), Some(900));
    assert_eq!(ranked(&b.decode_us, 3), None);
    assert_eq!(ranked(&[5, 5, 0], 1), Some(5));
}

#[test]
fn the_start_of_a_frame_tells_the_latency_of_the_host() {
    let mut pkt = vec![0u8; 40];
    pkt[20] = 6;
    pkt[24] = 0x05;
    pkt[33] = 0x2c;
    pkt[34] = 0x01;
    let mut watch = LatencyWatch::new();
    assert_eq!(watch.of(6), None);
    watch.on_datagram(&pkt);
    assert_eq!(watch.of(6), Some(300));
    assert_eq!(watch.of(7), None);
    pkt[20] = 7;
    pkt[24] = 0x01;
    watch.on_datagram(&pkt);
    assert_eq!(watch.of(7), None);
    pkt[24] = 0x05;
    watch.on_datagram(&pkt[..34]);
    assert_eq!(watch.of(6), Some(300));
    watch.on_datagram(&pkt);
    assert_eq!((watch.of(6), watch.of(7)), (None, Some(300)));
}

#[test]
fn bytes_eq_passes_on_match() {
    assert!(assert_bytes_eq(&[1, 2, 3], &[1, 2, 3]).is_ok());
}

#[test]
fn bytes_eq_tells_where_they_differ() {
    let why = assert_bytes_eq(&[1, 2, 3], &[1, 9, 3]).unwrap_err();
    assert_eq!(
        why,
        "golden mismatch: lengths actual=3 expected=3, first diff at byte 1\n  \
         actual    01>02 03\n  expected  01>09 03"
    );
    let why = assert_bytes_eq(&[1, 2, 3], &[1, 2, 3, 4]).unwrap_err();
    assert!(why.contains("golden mismatch"));
    assert!(why.contains("first diff at byte 3"));
    let long: Vec<u8> = (0..20).collect();
    let why = assert_bytes_eq(&long, &[]).unwrap_err();
    assert!(why.ends_with("actual   >00 01 02 03 04 05 06 07\n  expected "));
}

#[test]
fn drop_indices_nulls_the_right_shards() {
    let shards = vec![10u8, 20, 30, 40];
    let with_loss = drop_indices(&shards, &[1, 3]);
    assert_eq!(with_loss, vec![Some(10), None, Some(30), None]);
}

#[test]
fn missing_settings_have_their_usual_values() {
    assert_eq!(pin_or_default(None), "1234");
    assert_eq!(pin_or_default(Some("77")), "77");
    assert_eq!(app_or_default(None), "Desktop");
    assert_eq!(app_or_default(Some("Steam")), "Steam");
    assert_eq!(host_or_stop(Some("10.0.0.1".to_string())).unwrap(), "10.0.0.1");
    match host_or_stop(None) {
        Err(ClientEvent::Stopped(why)) => assert_eq!(why, "STARFIRE_HOST not set"),
        other => panic!("{other:?}"),
    }
}
