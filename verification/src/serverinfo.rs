//! What a host says it can do.
use vstd::prelude::*;

verus! {

/// The codecs that a host supports.
#[derive(Debug, Clone, Copy, PartialEq, Eq, Structural)]
pub struct CodecCaps {
    pub av1: bool,
    pub hevc: bool,
    pub h264: bool,
    pub main10: bool,
}

/// The bit for AV1 in the codec mask of a host.
pub const SERVER_CODEC_AV1: u32 = 0x40000;

impl Default for CodecCaps {
    fn default() -> (r: Self)
        ensures
            r == (CodecCaps { av1: false, hevc: false, h264: false, main10: false }),
    {
        CodecCaps { av1: false, hevc: false, h264: false, main10: false }
    }
}

impl CodecCaps {
    /// Decode the bits of a codec mask whose meaning is known: that for AV1.
    pub fn from_server_codec_mode_support(mask: u32) -> (r: Self)
        ensures
            r == (CodecCaps {
                av1: mask & SERVER_CODEC_AV1 != 0,
                hevc: false,
                h264: false,
                main10: false,
            }),
    {
        CodecCaps { av1: mask & SERVER_CODEC_AV1 != 0, hevc: false, h264: false, main10: false }
    }
}

/// A host offers AV1 if the bit of that weight is in its mask, whatever the other bits are.
pub proof fn law_av1_bit(mask: u32)
    ensures
        (mask & SERVER_CODEC_AV1 != 0) == (mask / 262144 % 2 == 1),
{
    assert((mask & 0x40000u32 != 0) == (mask / 262144u32 % 2u32 == 1u32)) by (bit_vector);
}

} // verus!
