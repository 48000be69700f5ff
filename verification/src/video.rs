//! Video ingest: packet headers, forward error correction and reassembly into access units.
use vstd::prelude::*;

pub mod cauchy;
pub mod fec;
pub mod gf256;
pub mod host;
pub mod matrix;
pub mod reassembly;
pub mod rtp;

verus! {

/// The codecs of a video stream.
#[derive(Debug, Clone, Copy, PartialEq, Eq, Structural)]
pub enum Codec {
    Av1,
    Hevc,
    H264,
}

/// One coded frame, ready for a decoder.
#[derive(Debug, Clone, PartialEq, Eq)]
pub struct AccessUnit {
    pub codec: Codec,
    pub frame_index: u32,
    pub is_keyframe: bool,
    pub data: Vec<u8>,
}

/// What an [`AccessUnit`] holds.
pub struct UnitView {
    pub codec: Codec,
    pub frame_index: u32,
    pub is_keyframe: bool,
    pub data: Seq<u8>,
}

impl View for AccessUnit {
    type V = UnitView;

    open spec fn view(&self) -> UnitView {
        UnitView {
            codec: self.codec,
            frame_index: self.frame_index,
            is_keyframe: self.is_keyframe,
            data: self.data@,
        }
    }
}

} // verus!
