//! Choice of a decoder.
use vstd::prelude::*;

use crate::decode::{DecodeError, Decoder, VideoDecoder};
use crate::video::Codec;

verus! {

/// Whether hardware is preferred.
#[derive(Debug, Clone, Copy, PartialEq, Eq, Structural)]
pub enum Accel {
    PreferHardware,
    ForceSoftware,
}

/// The systems that differ in the decoders they have.
#[derive(Debug, Clone, Copy, PartialEq, Eq, Structural)]
pub enum Platform {
    MacOs,
    Windows,
    Other,
}

/// The decoders that systems have.
#[derive(Debug, Clone, Copy, PartialEq, Eq, Structural)]
pub enum Backend {
    VideoToolbox,
    MediaFoundation,
}

/// The decoder for `codec` on a platform. Software is never chosen in silence: there is none to
/// fall back on.
pub open spec fn decoder_choice(platform: Platform, codec: Codec, accel: Accel) -> Result<
    Backend,
    DecodeError,
> {
    if accel == Accel::ForceSoftware || platform != Platform::MacOs {
        Err(DecodeError::NoBackend)
    } else if codec == Codec::Av1 {
        Err(DecodeError::UnsupportedCodec(codec))
    } else {
        Ok(Backend::VideoToolbox)
    }
}

/// Choose the decoder for `codec` on a platform.
pub fn choose_decoder(platform: Platform, codec: Codec, accel: Accel) -> (r: Result<
    Backend,
    DecodeError,
>)
    ensures
        r == decoder_choice(platform, codec, accel),
{
    match (accel, platform, codec) {
        (Accel::ForceSoftware, _, _) => Err(DecodeError::NoBackend),
        (_, Platform::MacOs, Codec::Av1) => Err(DecodeError::UnsupportedCodec(codec)),
        (_, Platform::MacOs, _) => Ok(Backend::VideoToolbox),
        _ => Err(DecodeError::NoBackend),
    }
}

/// Choose the decoder of a client that may hold a graphics device which its renderer shares. Where
/// there is such a device on Windows, Media Foundation decodes on it; otherwise the choice is that
/// of the platform.
pub fn choose_client_decoder(
    platform: Platform,
    shared_device: bool,
    codec: Codec,
    accel: Accel,
) -> (r: Result<Backend, DecodeError>)
    ensures
        r == if platform == Platform::Windows && shared_device {
            if codec == Codec::Av1 {
                Err(DecodeError::UnsupportedCodec(codec))
            } else {
                Ok(Backend::MediaFoundation)
            }
        } else {
            decoder_choice(platform, codec, accel)
        },
{
    match (platform, shared_device, codec) {
        (Platform::Windows, true, Codec::Av1) => Err(DecodeError::UnsupportedCodec(codec)),
        (Platform::Windows, true, _) => Ok(Backend::MediaFoundation),
        _ => choose_decoder(platform, codec, accel),
    }
}

/// The decoder of this library for `codec`. It brings none of its own: hardware decoders belong
/// to a platform, and there is no software decoder to fall back on.
pub fn create_decoder(codec: Codec, accel: Accel) -> (r: Result<Box<dyn Decoder>, DecodeError>)
    ensures
        r matches Err(DecodeError::NoBackend),
{
    let _ = (codec, accel);
    Err(DecodeError::NoBackend)
}

/// The polled decoder of this library for `codec`. It brings none.
pub fn create_video_decoder(codec: Codec, accel: Accel) -> (r: Result<
    Box<dyn VideoDecoder>,
    DecodeError,
>)
    ensures
        r matches Err(DecodeError::NoBackend),
{
    let _ = (codec, accel);
    Err(DecodeError::NoBackend)
}

/// A decoder is chosen only where hardware may be used, on the platform that has one, and never for
/// AV1; wherever those hold, one is.
pub proof fn law_hardware_only(platform: Platform, codec: Codec, accel: Accel)
    ensures
        decoder_choice(platform, codec, accel) is Ok <==> platform is MacOs
            && accel is PreferHardware && (codec is Hevc || codec is H264),
        decoder_choice(platform, codec, accel) matches Ok(b) ==> b is VideoToolbox,
        decoder_choice(platform, codec, accel) matches Err(DecodeError::UnsupportedCodec(c)) ==> c
            == codec && codec is Av1 && platform is MacOs && accel is PreferHardware,
        decoder_choice(platform, codec, accel) matches Err(e) ==> !(e is Failed),
        accel is ForceSoftware ==> decoder_choice(platform, codec, accel)->Err_0 is NoBackend,
        codec is Av1 && platform is MacOs && accel is PreferHardware ==> decoder_choice(
            platform,
            codec,
            accel,
        )->Err_0 is UnsupportedCodec,
{
}

} // verus!
