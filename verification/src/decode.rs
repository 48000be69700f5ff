//! Decoding of access units: the seam that a platform decoder fills, and what it has in common
//! on every platform.
use vstd::prelude::*;
use vstd::string::*;

use crate::text::copy_str;
use crate::video::{AccessUnit, Codec};

pub mod annexb;
pub mod backend;
pub mod frame;
pub mod select;

pub use frame::{ColorSpace, PixelFormat, Plane, VideoFrame};

verus! {

/// Why a unit was not decoded.
#[derive(Debug, Clone, PartialEq, Eq)]
pub enum DecodeError {
    UnsupportedCodec(Codec),
    NoBackend,
    Failed(String),
}

/// The name of a codec.
pub open spec fn codec_name(codec: Codec) -> Seq<char> {
    match codec {
        Codec::Av1 => "Av1"@,
        Codec::Hevc => "Hevc"@,
        Codec::H264 => "H264"@,
    }
}

/// The text that describes an error.
pub open spec fn decode_error_text(e: DecodeError) -> Seq<char> {
    match e {
        DecodeError::UnsupportedCodec(c) => "codec "@ + codec_name(c)
            + " not supported by this backend"@,
        DecodeError::NoBackend => "no decoder backend available for this platform/codec yet"@,
        DecodeError::Failed(why) => "decode failed: "@ + why@,
    }
}

impl DecodeError {
    /// The text that describes this error.
    pub fn message(&self) -> (r: String)
        ensures
            r@ == decode_error_text(*self),
    {
        match self {
            DecodeError::UnsupportedCodec(c) => {
                let mut s: String = copy_str("codec ");
                s.append(
                    match c {
                        Codec::Av1 => "Av1",
                        Codec::Hevc => "Hevc",
                        Codec::H264 => "H264",
                    },
                );
                s.append(" not supported by this backend");
                s
            },
            DecodeError::NoBackend => copy_str(
                "no decoder backend available for this platform/codec yet",
            ),
            DecodeError::Failed(why) => {
                let mut s: String = copy_str("decode failed: ");
                s.append(why.as_str());
                s
            },
        }
    }
}

/// A decoder: access units in, frames in memory out.
pub trait Decoder: Send {
    /// Submit one unit; a frame may come out. Malformed input is an error, never a panic.
    fn push(&mut self, au: &AccessUnit) -> Result<Option<VideoFrame>, DecodeError>;

    /// The frames that are still held back at the end of the stream. A decoder that does not say
    /// otherwise holds none back.
    fn flush(&mut self) -> (r: Result<Vec<VideoFrame>, DecodeError>)
        default_ensures
            r matches Ok(frames) && frames@ == Seq::<VideoFrame>::empty(),
            &*final(self) == &*old(self),
    {
        Ok(Vec::new())
    }
}

/// A frame that a [`VideoDecoder`] has decoded.
#[derive(Debug, Clone, Copy, PartialEq, Eq, Structural)]
pub struct DecodedFrame {
    pub width: u32,
    pub height: u32,
    pub frame_index: u32,
}

/// A decoder that is polled for its frames.
pub trait VideoDecoder: Send {
    fn submit(&mut self, au: &AccessUnit) -> Result<(), DecodeError>;

    fn poll_frame(&mut self) -> Result<Option<DecodedFrame>, DecodeError>;

    fn request_idr(&mut self);
}

} // verus!
