use starfire::decode::annexb::{is_parameter_set, iter_nals, to_length_prefixed, NalCodec};
use starfire::decode::backend::{
    biplanar_frame, feed, names_copyleft_decoder, nal_codec, nv12_from_surface, output_size, packed,
    unpacked, FrameSink,
};
use starfire::decode::frame::{ColorSpace, PixelFormat, Plane, VideoFrame};
use starfire::decode::select::{
    choose_client_decoder, choose_decoder, create_decoder, create_video_decoder, Accel, Backend,
    Platform,
};
use starfire::decode::{DecodeError, Decoder};
use starfire::render::{pack_rows, padded_row, plan_upload, RenderError};
use starfire::video::{AccessUnit, Codec};

#[test]
fn parses_four_byte_start_codes() {
    let data = [
        0, 0, 0, 1, 0x40, 0x01, 0xaa, //
        0, 0, 0, 1, 0x26, 0x01, 0xbb, 0xcc,
    ];
    let nals = iter_nals(&data, NalCodec::Hevc);
    assert_eq!(nals.len(), 2);
    assert_eq!(nals[0].nal_type, 32);
    assert_eq!(nals[0].bytes, &[0x40, 0x01, 0xaa]);
    assert_eq!(nals[1].nal_type, 19);
    assert_eq!(nals[1].bytes, &[0x26, 0x01, 0xbb, 0xcc]);
}

#[test]
fn parses_three_byte_start_codes() {
    let data = [0, 0, 1, 0x67, 0x42, 0, 0, 1, 0x65, 0x88];
    let nals = iter_nals(&data, NalCodec::H264);
    assert_eq!(nals.len(), 2);
    assert_eq!(nals[0].nal_type, 7);
    assert_eq!(nals[1].nal_type, 5);
}

#[test]
fn splits_params_from_sample_data() {
    let data = [
        0, 0, 0, 1, 0x40, 0x01, // VPS
        0, 0, 0, 1, 0x42, 0x01, // SPS
        0, 0, 0, 1, 0x44, 0x01, // PPS
        0, 0, 0, 1, 0x26, 0x01, 0xde, 0xad, // IDR slice
    ];
    let (params, sample) = to_length_prefixed(&data, NalCodec::Hevc);
    assert_eq!(params.len(), 3);
    assert_eq!(params[0], vec![0x40, 0x01]);
    assert_eq!(&sample[..4], &[0, 0, 0, 4]);
    assert_eq!(&sample[4..], &[0x26, 0x01, 0xde, 0xad]);
}

#[test]
fn handles_empty_and_garbage_without_panic() {
    assert!(iter_nals(&[], NalCodec::Hevc).is_empty());
    assert!(iter_nals(&[0, 0, 0], NalCodec::Hevc).is_empty());
    let _ = to_length_prefixed(&[0xff, 0xff, 0xff], NalCodec::H264);
}

#[test]
fn a_stream_splits_into_what_it_was_made_of() {
    let units: [&[u8]; 3] = [&[0x65, 0, 0, 3], &[0x41], &[0x61, 9, 0, 0, 2]];
    let mut data = vec![];
    for (i, u) in units.iter().enumerate() {
        if i % 2 == 0 {
            data.push(0);
        }
        data.extend([0, 0, 1]);
        data.extend_from_slice(u);
    }
    let nals = iter_nals(&data, NalCodec::H264);
    assert_eq!(nals.len(), 3);
    for i in 0..3 {
        assert_eq!(nals[i].bytes, units[i]);
    }
    let (params, sample) = to_length_prefixed(&data, NalCodec::H264);
    assert!(params.is_empty());
    assert_eq!(
        sample,
        [0, 0, 0, 4, 0x65, 0, 0, 3, 0, 0, 0, 1, 0x41, 0, 0, 0, 5, 0x61, 9, 0, 0, 2]
    );
    assert!(is_parameter_set(8, NalCodec::H264) && !is_parameter_set(9, NalCodec::H264));
    assert!(is_parameter_set(34, NalCodec::Hevc) && !is_parameter_set(35, NalCodec::Hevc));
}

fn solid_nv12(w: u32, h: u32) -> VideoFrame {
    let cw = w.div_ceil(2) as usize;
    let ch = h.div_ceil(2) as usize;
    VideoFrame {
        width: w,
        height: h,
        format: PixelFormat::Nv12,
        color_space: ColorSpace::Bt709Limited,
        pts: 0,
        planes: vec![
            Plane::new(vec![16; (w * h) as usize], w as usize),
            Plane::new(vec![128; cw * 2 * ch], cw * 2),
        ],
    }
}

#[test]
fn nv12_validates() {
    assert_eq!(solid_nv12(64, 48).validate(), Ok(()));
}

#[test]
fn rejects_wrong_plane_count() {
    let mut f = solid_nv12(64, 48);
    f.planes.pop();
    assert!(f.validate().is_err());
}

#[test]
fn rejects_short_plane() {
    let mut f = solid_nv12(64, 48);
    f.planes[0].data.truncate(10);
    assert!(f.validate().is_err());
}

#[test]
fn odd_dimensions_round_chroma_up() {
    let f = VideoFrame {
        width: 3,
        height: 3,
        format: PixelFormat::I420,
        color_space: ColorSpace::Bt709Limited,
        pts: 0,
        planes: vec![
            Plane::new(vec![16; 9], 3),
            Plane::new(vec![128; 4], 2),
            Plane::new(vec![128; 4], 2),
        ],
    };
    assert_eq!(f.plane_rows(1), 2);
    assert_eq!(f.plane_sample_width(1), 2);
    assert_eq!(f.validate(), Ok(()));
}

#[test]
fn a_narrow_stride_is_rejected() {
    let mut f = solid_nv12(8, 4);
    f.planes[1].stride = 7;
    assert!(f.validate().is_err());
    assert_eq!(f.plane_min_stride(1), 8);
}

#[test]
fn force_software_has_no_permissive_backend() {
    assert!(matches!(
        create_decoder(Codec::Hevc, Accel::ForceSoftware),
        Err(DecodeError::NoBackend)
    ));
}

#[test]
fn windows_hevc_reports_no_backend_until_mft_lands() {
    assert!(matches!(
        choose_decoder(Platform::Windows, Codec::Hevc, Accel::PreferHardware),
        Err(DecodeError::NoBackend)
    ));
    assert!(matches!(
        create_decoder(Codec::Hevc, Accel::PreferHardware),
        Err(DecodeError::NoBackend)
    ));
}

#[test]
fn legacy_video_decoder_factory_reports_no_backend() {
    assert!(matches!(
        create_video_decoder(Codec::Av1, Accel::PreferHardware),
        Err(DecodeError::NoBackend)
    ));
}

#[test]
fn av1_is_unsupported() {
    let refused = nal_codec(Codec::Av1);
    assert!(matches!(refused, Err(DecodeError::UnsupportedCodec(Codec::Av1))));
    assert_eq!(
        DecodeError::UnsupportedCodec(Codec::Av1).message(),
        "codec Av1 not supported by this backend"
    );
}

#[test]
fn av1_is_unsupported_here() {
    assert!(matches!(
        nal_codec(Codec::Av1),
        Err(DecodeError::UnsupportedCodec(Codec::Av1))
    ));
}

#[test]
fn maps_codec_to_nal_codec() {
    assert!(matches!(nal_codec(Codec::Hevc), Ok(NalCodec::Hevc)));
    assert!(matches!(nal_codec(Codec::H264), Ok(NalCodec::H264)));
}

#[test]
fn ensure_session_without_params_errors() {
    let unit =
        AccessUnit { codec: Codec::Hevc, frame_index: 0, is_keyframe: false, data: vec![] };
    assert!(feed(Codec::Hevc, NalCodec::Hevc, false, &unit).is_err());
}

#[test]
fn a_decoder_is_fed_parameter_sets_first() {
    let mut au = AccessUnit {
        codec: Codec::H264,
        frame_index: 1,
        is_keyframe: false,
        data: vec![0, 0, 1, 0x41, 7],
    };
    let e = feed(Codec::H264, NalCodec::H264, false, &au).err().unwrap();
    assert!(e.message().contains("no parameter sets seen yet"));
    let f = feed(Codec::H264, NalCodec::H264, true, &au).ok().unwrap();
    assert!(f.open_with.is_none());
    assert_eq!(f.sample, [0, 0, 0, 2, 0x41, 7]);
    au.data = vec![0, 0, 1, 0x67, 1, 0, 0, 1, 0x41, 7];
    let f = feed(Codec::H264, NalCodec::H264, false, &au).ok().unwrap();
    assert_eq!(f.open_with, Some(vec![vec![0x67, 1]]));
    assert!(matches!(
        feed(Codec::Hevc, NalCodec::Hevc, true, &au),
        Err(DecodeError::UnsupportedCodec(Codec::H264))
    ));
}

#[test]
fn a_sink_gives_its_first_error_before_frames() {
    let mut sink = FrameSink::new();
    sink.deliver(solid_nv12(2, 2));
    sink.fail("first".to_string());
    sink.fail("second".to_string());
    assert!(sink.drain().err().unwrap().message().contains("first"));
    sink.deliver(solid_nv12(4, 4));
    assert_eq!(sink.drain_first().ok().unwrap().unwrap().width, 2);
    assert_eq!(sink.drain().ok().unwrap().len(), 0);
    assert!(sink.drain_first().ok().unwrap().is_none());
}

#[test]
fn surfaces_become_frames() {
    let surface: Vec<u8> = (0..24).collect();
    let f = nv12_from_surface(&surface, 4, 3, 3, 9).unwrap();
    assert_eq!(f.planes[0].data, (0..12).collect::<Vec<u8>>());
    assert_eq!(f.planes[1].data, (12..20).collect::<Vec<u8>>());
    assert_eq!((f.pts, f.planes[1].stride), (9, 4));
    assert!(nv12_from_surface(&surface[..19], 4, 3, 3, 9).is_none());

    let one = biplanar_frame(vec![Plane::new(vec![], 1)], 2, 2, 0).err().unwrap();
    assert_eq!(one, "expected biplanar NV12 (2 planes), got 1");
    let small = vec![Plane::new(vec![0; 4], 2), Plane::new(vec![0; 1], 2)];
    assert!(biplanar_frame(small, 2, 2, 0).is_err());
    let good = vec![Plane::new(vec![0; 4], 2), Plane::new(vec![0; 2], 2)];
    assert_eq!(biplanar_frame(good, 2, 2, 5).ok().unwrap().pts, 5);
}

#[test]
fn platform_values() {
    assert_eq!(packed(1920, 1080), (1920u64 << 32) | 1080);
    assert_eq!(unpacked(packed(1920, 1080)), (1920, 1080));
    assert_eq!(output_size(1920, 1080), Some(3_110_400));
    assert_eq!(output_size(0, 0), Some(64));
    assert_eq!(output_size(u32::MAX, u32::MAX), None);
    assert!(names_copyleft_decoder("My FFmpeg Wrapper"));
    assert!(!names_copyleft_decoder("ffmpe"));
}

#[test]
fn padding_does_not_reach_the_texture() {
    let mut padded = solid_nv12(5, 3);
    let tight = plan_upload(&padded).ok().unwrap();
    let mut y = vec![];
    for row in 0..3 {
        y.extend_from_slice(&padded.planes[0].data[row * 5..row * 5 + 5]);
        y.extend([0xee, 0xee]);
    }
    padded.planes[0] = Plane::new(y, 7);
    assert_eq!(plan_upload(&padded).ok().unwrap(), tight);
    assert_eq!((tight.textures[1].width, tight.textures[1].height), (3, 2));
    assert_eq!(tight.textures[1].bytes_per_texel, 2);
    assert_eq!(tight.textures[2].data, [128]);
    assert_eq!((tight.format, tight.full_range), (0, 0));
    assert_eq!(pack_rows(&[1, 2, 9, 3, 4], 3, 2, 2), [1, 2, 3, 4]);
}

#[test]
fn uploads_tell_layout_and_range() {
    let f = VideoFrame {
        width: 2,
        height: 2,
        format: PixelFormat::I420,
        color_space: ColorSpace::Bt709Full,
        pts: 0,
        planes: vec![
            Plane::new(vec![1; 4], 2),
            Plane::new(vec![2], 1),
            Plane::new(vec![3], 1),
        ],
    };
    let u = plan_upload(&f).ok().unwrap();
    assert_eq!((u.format, u.full_range), (1, 1));
    assert_eq!(u.textures[2].data, [3]);
    let mut bad = solid_nv12(4, 4);
    bad.planes.pop();
    let e = plan_upload(&bad).err().unwrap();
    assert!(e.message().starts_with("present failed: invalid frame: "));
    assert_eq!(
        RenderError::NoBackend.message(),
        "no renderer backend available for this platform yet"
    );
    assert_eq!(padded_row(64, 256), Some(256));
    assert_eq!(padded_row(256, 256), Some(256));
    assert_eq!(padded_row(257, 256), Some(512));
    assert_eq!(padded_row(usize::MAX, 256), None);
}

struct Sightless;

impl Decoder for Sightless {
    fn push(&mut self, _: &AccessUnit) -> Result<Option<VideoFrame>, DecodeError> {
        Err(DecodeError::NoBackend)
    }
}

#[test]
fn a_decoder_holds_nothing_back_unless_it_says_so() {
    let mut decoder: Box<dyn Decoder> = Box::new(Sightless);
    assert_eq!(decoder.flush().unwrap(), vec![]);
}

#[test]
fn each_platform_has_its_decoder() {
    let hard = Accel::PreferHardware;
    assert_eq!(choose_decoder(Platform::MacOs, Codec::Hevc, hard), Ok(Backend::VideoToolbox));
    assert_eq!(choose_decoder(Platform::MacOs, Codec::H264, hard), Ok(Backend::VideoToolbox));
    assert_eq!(
        choose_decoder(Platform::MacOs, Codec::Av1, hard),
        Err(DecodeError::UnsupportedCodec(Codec::Av1))
    );
    assert_eq!(choose_decoder(Platform::Other, Codec::Hevc, hard), Err(DecodeError::NoBackend));
    for codec in [Codec::Hevc, Codec::H264, Codec::Av1] {
        assert_eq!(
            choose_decoder(Platform::MacOs, codec, Accel::ForceSoftware),
            Err(DecodeError::NoBackend)
        );
    }
}

#[test]
fn a_client_decodes_on_the_device_it_shares() {
    let hard = Accel::PreferHardware;
    let win = Platform::Windows;
    assert_eq!(
        choose_client_decoder(win, true, Codec::Hevc, hard),
        Ok(Backend::MediaFoundation)
    );
    assert_eq!(
        choose_client_decoder(win, true, Codec::Av1, hard),
        Err(DecodeError::UnsupportedCodec(Codec::Av1))
    );
    assert_eq!(
        choose_client_decoder(win, false, Codec::Hevc, hard),
        Err(DecodeError::NoBackend)
    );
    assert_eq!(
        choose_client_decoder(Platform::MacOs, false, Codec::Hevc, hard),
        Ok(Backend::VideoToolbox)
    );
}
