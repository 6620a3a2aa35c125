//! Codecs a media stream can carry, with what their decoders need to know.
use vstd::prelude::*;

pub mod aac;
pub mod h264;
pub mod h265;
pub mod ttxt;
pub mod vp9;

verus! {

/// A stream's codec and its decoder setup.
#[derive(Debug, Clone)]
pub enum Codec {
    H264(h264::Parameters),
    H265(h265::Parameters),
    VP9(vp9::Parameters),
    AAC(aac::Parameters),
    TTXT(ttxt::Parameters),
}

/// The kind of media a codec carries.
#[derive(Debug, Clone, Copy, PartialEq, Eq, Structural)]
pub enum MediaType {
    Video,
    Audio,
    Subtitle,
}

impl Codec {
    /// Video for H.264, H.265 and VP9, audio for AAC, subtitle for timed text.
    pub fn media_type(&self) -> (r: MediaType)
        ensures
            r == (match self {
                Codec::H264(_) | Codec::H265(_) | Codec::VP9(_) => MediaType::Video,
                Codec::AAC(_) => MediaType::Audio,
                Codec::TTXT(_) => MediaType::Subtitle,
            }),
    {
        match self {
            Codec::H264(_) => MediaType::Video,
            Codec::H265(_) => MediaType::Video,
            Codec::VP9(_) => MediaType::Video,
            Codec::AAC(_) => MediaType::Audio,
            Codec::TTXT(_) => MediaType::Subtitle,
        }
    }
}

} // verus!
