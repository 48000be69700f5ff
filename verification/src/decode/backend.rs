//! What platform decoders have in common: the order in which units reach them and frames leave
//! them, and the layout of the memory that they hand out.
use vstd::prelude::*;
use vstd::string::*;

use crate::bytes::copy_range;
use crate::decode::annexb::{
    byte_strings, params_of, sample_of, to_length_prefixed, units, NalCodec,
};
use crate::decode::frame::{ColorSpace, PixelFormat, Plane, VideoFrame};
use crate::decode::DecodeError;
use crate::text::{
    chars_of, copy_str, decimal, decimal_string, equal_ignoring_case, same_but_case,
};
use crate::video::{AccessUnit, Codec};

verus! {

/// The units that a platform decoder for `codec` reads.
pub fn nal_codec(codec: Codec) -> (r: Result<NalCodec, DecodeError>)
    ensures
        match codec {
            Codec::Hevc => r == Ok::<NalCodec, DecodeError>(NalCodec::Hevc),
            Codec::H264 => r == Ok::<NalCodec, DecodeError>(NalCodec::H264),
            Codec::Av1 => r == Err::<NalCodec, DecodeError>(
                DecodeError::UnsupportedCodec(Codec::Av1),
            ),
        },
{
    match codec {
        Codec::Hevc => Ok(NalCodec::Hevc),
        Codec::H264 => Ok(NalCodec::H264),
        Codec::Av1 => Err(DecodeError::UnsupportedCodec(Codec::Av1)),
    }
}

/// What a decoder is fed with one access unit.
pub struct Feed {
    /// The parameter sets to open a session with; `None` if one is open.
    pub open_with: Option<Vec<Vec<u8>>>,
    /// The unit without its parameter sets, in length-prefixed form.
    pub sample: Vec<u8>,
}

/// Decide what a decoder for `own` units is fed. Before a session is open, a unit without
/// parameter sets is an error.
pub fn feed(own: Codec, nal: NalCodec, session_open: bool, au: &AccessUnit) -> (r: Result<
    Feed,
    DecodeError,
>)
    ensures
        ({
            let v = units(au.data@);
            let params = params_of(v, nal, v.len());
            if au.codec != own {
                r == Err::<Feed, DecodeError>(DecodeError::UnsupportedCodec(au.codec))
            } else if !session_open && params.len() == 0 {
                r matches Err(DecodeError::Failed(s)) && s@
                    == "no parameter sets seen yet; need a keyframe to build the format description"@
            } else {
                &&& r matches Ok(f)
                &&& r->Ok_0.sample@ == sample_of(v, nal, v.len())
                &&& session_open <==> r->Ok_0.open_with is None
                &&& r->Ok_0.open_with matches Some(p) ==> byte_strings(p@) == params
            }
        }),
{
    if au.codec != own {
        return Err(DecodeError::UnsupportedCodec(au.codec));
    }
    let (params, sample) = to_length_prefixed(&au.data, nal);
    assert(byte_strings(params@).len() == params@.len());
    if session_open {
        return Ok(Feed { open_with: None, sample });
    }
    if params.len() == 0 {
        return Err(
            DecodeError::Failed(
                copy_str(
                    "no parameter sets seen yet; need a keyframe to build the format description",
                ),
            ),
        );
    }
    Ok(Feed { open_with: Some(params), sample })
}

/// Where a decoder that works on its own thread leaves its frames and its first error.
pub struct FrameSink {
    frames: Vec<VideoFrame>,
    error: Option<String>,
}

impl FrameSink {
    /// The frames that have not been taken.
    pub closed spec fn waiting(&self) -> Seq<VideoFrame> {
        self.frames@
    }

    /// The error that has not been taken.
    pub closed spec fn failure(&self) -> Option<Seq<char>> {
        match self.error {
            Some(s) => Some(s@),
            None => None,
        }
    }

    /// No frames and no error.
    pub fn new() -> (r: Self)
        ensures
            r.waiting() == Seq::<VideoFrame>::empty(),
            r.failure() is None,
    {
        FrameSink { frames: Vec::new(), error: None }
    }

    /// Leave a frame.
    pub fn deliver(&mut self, frame: VideoFrame)
        ensures
            final(self).waiting() == old(self).waiting().push(frame),
            final(self).failure() == old(self).failure(),
    {
        self.frames.push(frame);
    }

    /// Leave an error. The first one stays.
    pub fn fail(&mut self, why: String)
        ensures
            final(self).waiting() == old(self).waiting(),
            final(self).failure() == match old(self).failure() {
                Some(first) => Some(first),
                None => Some(why@),
            },
    {
        if self.error.is_none() {
            self.error = Some(why);
        }
    }

    /// Take the error if there is one, and else the frames.
    pub fn drain(&mut self) -> (r: Result<Vec<VideoFrame>, DecodeError>)
        ensures
            final(self).failure() is None,
            match old(self).failure() {
                Some(why) => (r matches Err(DecodeError::Failed(s)) && s@ == why) && (final(self).waiting()
                    == old(self).waiting()),
                None => (r matches Ok(v) && v@ == old(self).waiting()) && final(self).waiting()
                    == Seq::<VideoFrame>::empty(),
            },
    {
        if let Some(why) = self.error.take() {
            return Err(DecodeError::Failed(why));
        }
        let mut frames: Vec<VideoFrame> = Vec::new();
        core::mem::swap(&mut frames, &mut self.frames);
        Ok(frames)
    }

    /// Take the error if there is one, and else the first frame. Later frames are given up.
    pub fn drain_first(&mut self) -> (r: Result<Option<VideoFrame>, DecodeError>)
        ensures
            final(self).failure() is None,
            match old(self).failure() {
                Some(why) => (r matches Err(DecodeError::Failed(s)) && s@ == why) && (final(self).waiting() == old(self).waiting()),
                None => r == Ok::<Option<VideoFrame>, DecodeError>(
                    if old(self).waiting().len() > 0 {
                        Some(old(self).waiting()[0])
                    } else {
                        None
                    },
                ) && final(self).waiting() == Seq::<VideoFrame>::empty(),
            },
    {
        let mut frames: Vec<VideoFrame> = match self.drain() {
            Ok(frames) => frames,
            Err(e) => {
                return Err(e);
            },
        };
        if frames.len() == 0 {
            return Ok(None);
        }
        Ok(Some(frames.swap_remove(0)))
    }
}

/// The frame of the planes that a decoder gave, luma and interleaved chroma. Other planes, or planes
/// that are too small, are refused.
pub fn biplanar_frame(planes: Vec<Plane>, width: u32, height: u32, pts: i64) -> (r: Result<
    VideoFrame,
    String,
>)
    ensures
        ({
            let f = VideoFrame {
                width,
                height,
                format: PixelFormat::Nv12,
                color_space: ColorSpace::Bt709Limited,
                pts,
                planes,
            };
            if planes@.len() != 2 {
                r matches Err(why) && why@ == "expected biplanar NV12 (2 planes), got "@ + decimal(
                    planes@.len(),
                )
            } else {
                match f.problem() {
                    Some(text) => r matches Err(why) && why@ == text,
                    None => r == Ok::<VideoFrame, String>(f),
                }
            }
        }),
{
    if planes.len() != 2 {
        let mut why: String = copy_str("expected biplanar NV12 (2 planes), got ");
        why.append(decimal_string(planes.len() as u64).as_str());
        return Err(why);
    }
    let frame = VideoFrame {
        width,
        height,
        format: PixelFormat::Nv12,
        color_space: ColorSpace::Bt709Limited,
        pts,
        planes,
    };
    match frame.validate() {
        Ok(()) => Ok(frame),
        Err(why) => Err(why),
    }
}

/// Two numbers in one, the first in the upper half.
pub fn packed(hi: u32, lo: u32) -> (r: u64)
    ensures
        r == 0x1_0000_0000 * hi + lo,
{
    hi as u64 * 0x1_0000_0000 + lo as u64
}

/// The two numbers that were packed into one.
pub fn unpacked(n: u64) -> (r: (u32, u32))
    ensures
        n == 0x1_0000_0000 * r.0 + r.1,
{
    ((n / 0x1_0000_0000) as u32, (n % 0x1_0000_0000) as u32)
}

/// The bytes of a buffer for one frame of the given size, taken to be at least two by two.
pub open spec fn output_bytes(width: u32, height: u32) -> nat {
    let w: nat = if width < 2 {
        2
    } else {
        width as nat
    };
    let h: nat = if height < 2 {
        2
    } else {
        height as nat
    };
    let n = w * h * 3 / 2;
    if n < 64 {
        64
    } else {
        n
    }
}

/// The bytes of a buffer for one frame of the given size; `None` if there are too many.
pub fn output_size(width: u32, height: u32) -> (r: Option<u32>)
    ensures
        r == if output_bytes(width, height) <= u32::MAX {
            Some(output_bytes(width, height) as u32)
        } else {
            None
        },
{
    let w: u128 = if width < 2 {
        2
    } else {
        width as u128
    };
    let h: u128 = if height < 2 {
        2
    } else {
        height as u128
    };
    assert(0 <= w * h <= 0xffff_ffff * 0xffff_ffff) by (nonlinear_arith)
        requires
            2 <= w <= 0xffff_ffff,
            2 <= h <= 0xffff_ffff,
    ;
    let n: u128 = w * h * 3 / 2;
    if n < 64 {
        Some(64)
    } else if n <= 0xffff_ffff {
        Some(n as u32)
    } else {
        None
    }
}

/// The frame in a surface that holds the luma rows followed by the chroma rows, all with one
/// stride; `None` if the surface is too small.
pub fn nv12_from_surface(
    surface: &[u8],
    stride: usize,
    width: u32,
    height: u32,
    pts: i64,
) -> (r: Option<VideoFrame>)
    ensures
        ({
            let rows = if height == 0 {
                1
            } else {
                height as int
            };
            let luma = stride * rows;
            let all = luma + stride * ((rows + 1) / 2);
            &&& r is Some <==> all <= surface@.len()
            &&& r matches Some(f) ==> {
                &&& f.width == width
                &&& f.height == height
                &&& f.format == PixelFormat::Nv12
                &&& f.color_space == ColorSpace::Bt709Limited
                &&& f.pts == pts
                &&& f.planes@.len() == 2
                &&& f.planes@[0].data@ == surface@.subrange(0, luma)
                &&& f.planes@[0].stride == stride
                &&& f.planes@[1].data@ == surface@.subrange(luma, all)
                &&& f.planes@[1].stride == stride
            }
        }),
{
    let rows: u128 = if height == 0 {
        1
    } else {
        height as u128
    };
    let chroma_rows: u128 = (rows + 1) / 2;
    assert(stride * rows <= 0xffff_ffff_ffff_ffff * 0xffff_ffff && stride * chroma_rows
        <= 0xffff_ffff_ffff_ffff * 0xffff_ffff) by (nonlinear_arith)
        requires
            0 <= stride <= 0xffff_ffff_ffff_ffff,
            0 <= rows <= 0xffff_ffff,
            0 <= chroma_rows <= 0xffff_ffff,
    ;
    let luma: u128 = stride as u128 * rows;
    let all: u128 = luma + stride as u128 * chroma_rows;
    if all > surface.len() as u128 {
        return None;
    }
    let mut planes: Vec<Plane> = Vec::with_capacity(2);
    planes.push(Plane::new(copy_range(surface, 0, luma as usize), stride));
    planes.push(Plane::new(copy_range(surface, luma as usize, all as usize), stride));
    Some(
        VideoFrame {
            width,
            height,
            format: PixelFormat::Nv12,
            color_space: ColorSpace::Bt709Limited,
            pts,
            planes,
        },
    )
}

/// Whether `word` occurs in `s` at or after `from`, whatever the case of its letters.
pub open spec fn occurs(s: Seq<char>, word: Seq<char>, from: int) -> bool
    decreases s.len() - from,
{
    if from < 0 || from + word.len() > s.len() {
        false
    } else {
        same_but_case(s.subrange(from, from + word.len()), word) || (from < s.len() && occurs(
            s,
            word,
            from + 1,
        ))
    }
}

/// Whether the name of a system decoder tells that it wraps a library under a copyleft licence.
pub fn names_copyleft_decoder(name: &str) -> (r: bool)
    ensures
        r == occurs(name@, "ffmpeg"@, 0),
{
    let s: Vec<char> = chars_of(name);
    let word: Vec<char> = chars_of("ffmpeg");
    let mut i: usize = 0;
    while word.len() <= s.len() - i
        invariant
            i <= s.len(),
            s@ == name@,
            word@ == "ffmpeg"@,
            occurs(s@, word@, 0) == occurs(s@, word@, i as int),
        decreases s.len() - i,
    {
        let window = vstd::slice::slice_subrange(&s, i, i + word.len());
        if equal_ignoring_case(window, &word) {
            return true;
        }
        if i == s.len() {
            return false;
        }
        i += 1;
    }
    false
}

/// A buffer holds a frame: every row of luma and, for two rows of luma, one of interleaved chroma.
/// It holds no more than that, but for frames of a few pixels.
pub proof fn law_output_bytes(width: u32, height: u32, w: nat, h: nat)
    requires
        width == 2 * w,
        height == 2 * h,
        w * h >= 11,
    ensures
        output_bytes(width, height) == width * height + width * h,
{
    assert(width * height == 4 * (w * h) && width * h == 2 * (w * h)) by (nonlinear_arith)
        requires
            width == 2 * w,
            height == 2 * h,
    ;
    assert(w >= 1 && h >= 1) by (nonlinear_arith)
        requires
            w * h >= 11,
            w >= 0,
            h >= 0,
    ;
}

/// A word occurs where some part of the text is it, but for case.
pub proof fn law_occurs(s: Seq<char>, word: Seq<char>, from: int)
    requires
        0 <= from,
    ensures
        occurs(s, word, from) <==> exists|i: int|
            from <= i && i + word.len() <= s.len() && same_but_case(
                #[trigger] s.subrange(i, i + word.len()),
                word,
            ),
    decreases s.len() - from,
{
    if from + word.len() <= s.len() {
        if from < s.len() {
            law_occurs(s, word, from + 1);
        }
        let here = s.subrange(from, from + word.len());
        if exists|i: int|
            from <= i && i + word.len() <= s.len() && same_but_case(
                #[trigger] s.subrange(i, i + word.len()),
                word,
            ) {
            let i = choose|i: int|
                from <= i && i + word.len() <= s.len() && same_but_case(
                    #[trigger] s.subrange(i, i + word.len()),
                    word,
                );
            if i > from {
                assert(from + 1 <= i);
            }
        }
    }
}

} // verus!
