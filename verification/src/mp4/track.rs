//! A track of an MP4 file: what it carries, and where and when each of its
//! samples is, worked out from its sample tables.
use vstd::prelude::*;
use std::time::Duration;
use crate::clock::{from_micros, micros_span};
use crate::codec::{Codec, aac, h264, h265, ttxt, vp9};
use crate::fourcc::{FourCC, spec_from_u32};
use crate::mp4::error::Error;
use crate::mp4::atom::constant_name::{AVC1, HEV1, VP09, MP4A, TX3G, AVCC, STCO, CO64, STSZ, STTS, CTTS};
use crate::mp4::atom::{stsc, stts, ctts};
use crate::mp4::atom::trak::Trak;
use crate::mp4::atom::stsd::Stsd;
use crate::mp4::atom::hev1::units_of_type;
use crate::nalu::{Nalu, nalu_views, avcc_to_annexb_in_place, avcc_to_annexb, avcc_units, annexb_join};
use crate::mp4::stream::{fits, read_exact_at};
use crate::file::{Sample, SampleInfo};
use crate::shared_bytes::{bytes_view, bytes_from_vec};

verus! {

/// The kind of media a track carries, as its handler names it.
#[derive(Debug, Clone, Copy, PartialEq, Eq, Structural)]
pub enum TrackType {
    Video,
    Audio,
    Subtitle,
}

/// The handler type of a video track: `vide`.
pub const HANDLER_TYPE_VIDEO: u32 = 0x7669_6465;

/// The handler type of an audio track: `soun`.
pub const HANDLER_TYPE_AUDIO: u32 = 0x736F_756E;

/// The handler type of a subtitle track: `sbtl`.
pub const HANDLER_TYPE_SUBTITLE: u32 = 0x7362_746C;

/// The kind of track a handler type names.
pub open spec fn spec_track_type(handler: u32) -> Result<TrackType, Error> {
    if handler == HANDLER_TYPE_VIDEO {
        Ok(TrackType::Video)
    } else if handler == HANDLER_TYPE_AUDIO {
        Ok(TrackType::Audio)
    } else if handler == HANDLER_TYPE_SUBTITLE {
        Ok(TrackType::Subtitle)
    } else {
        Err(Error::InvalidData("unsupported handler type"))
    }
}

impl TrackType {
    /// The kind of track the handler type `fourcc` names.
    pub fn try_from(fourcc: &FourCC) -> (r: Result<TrackType, Error>)
        ensures
            r == spec_track_type(fourcc.spec_value()),
    {
        let handler = fourcc.value();
        if handler == HANDLER_TYPE_VIDEO {
            Ok(TrackType::Video)
        } else if handler == HANDLER_TYPE_AUDIO {
            Ok(TrackType::Audio)
        } else if handler == HANDLER_TYPE_SUBTITLE {
            Ok(TrackType::Subtitle)
        } else {
            Err(Error::InvalidData("unsupported handler type"))
        }
    }
}

/// A track, as its `trak` box describes it.
#[derive(Debug, Clone)]
pub struct Track {
    pub trak: Trak,
}

/// Copies the units of a list, each with the same bytes.
fn clone_nalus(units: &Vec<Nalu>) -> (r: Vec<Nalu>)
    ensures
        nalu_views(r@) == nalu_views(units@),
{
    let mut r: Vec<Nalu> = Vec::new();
    let mut i: usize = 0;
    while i < units.len()
        invariant
            i <= units@.len(),
            nalu_views(r@) == nalu_views(units@.take(i as int)),
        decreases units@.len() - i,
    {
        let unit = units[i].clone();
        let ghost before = r@;
        r.push(unit);
        proof {
            assert(nalu_views(r@) =~= nalu_views(before).push(unit@));
            assert(nalu_views(units@.take(i + 1)) =~= nalu_views(units@.take(i as int)).push(units@[i as int]@));
        }
        i = i + 1;
    }
    proof {
        assert(units@.take(units@.len() as int) =~= units@);
    }
    r
}

/// What the sample description of a track says its codec is.
pub open spec fn codec_matches(stsd: Stsd, r: Result<Codec, Error>) -> bool {
    if let Some(avc1) = stsd.avc1 {
        r matches Ok(Codec::H264(p)) && p.profile == h264::spec_profile_from(
            avc1.avcc.avc_profile_indication,
            avc1.avcc.profile_compatibility,
        ) && nalu_views(p.sps@) == nalu_views(avc1.avcc.sequence_parameter_sets@) && nalu_views(p.pps@)
            == nalu_views(avc1.avcc.picture_parameter_sets@)
    } else if let Some(hev1) = stsd.hev1 {
        r matches Ok(Codec::H265(p)) && nalu_views(p.sps@) == units_of_type(hev1.hvcc.arrays@, h265::NaluType::Sps)
            && nalu_views(p.pps@) == units_of_type(hev1.hvcc.arrays@, h265::NaluType::Pps) && nalu_views(p.vps@)
            == units_of_type(hev1.hvcc.arrays@, h265::NaluType::Vps)
    } else if let Some(vp09) = stsd.vp09 {
        r matches Ok(Codec::VP9(p)) && p.width == vp09.width && p.height == vp09.height
    } else if let Some(mp4a) = stsd.mp4a {
        let config = mp4a.esds.es_desc.dec_config;
        r matches Ok(Codec::AAC(p)) && p.bitrate == config.avg_bitrate && p.profile == aac::spec_audioobjecttype_from(
            config.dec_specific.profile,
        ) && p.freq_index == aac::spec_samplingfrequencyindex_from(config.dec_specific.freq_index)
            && p.channel_config == aac::spec_channelconfiguration_from(config.dec_specific.chan_conf)
    } else if stsd.tx3g is Some {
        r matches Ok(Codec::TTXT(_))
    } else {
        r == Err::<Codec, Error>(Error::InvalidData("unsupported media format"))
    }
}

/// The sample entry a description holds, the first kind present in the
/// order `avc1`, `hev1`, `vp09`, `mp4a`, `tx3g`.
pub open spec fn spec_sample_entry(stsd: Stsd) -> Result<FourCC, Error> {
    if stsd.avc1 is Some {
        Ok(spec_from_u32(AVC1))
    } else if stsd.hev1 is Some {
        Ok(spec_from_u32(HEV1))
    } else if stsd.vp09 is Some {
        Ok(spec_from_u32(VP09))
    } else if stsd.mp4a is Some {
        Ok(spec_from_u32(MP4A))
    } else if stsd.tx3g is Some {
        Ok(spec_from_u32(TX3G))
    } else {
        Err(Error::InvalidData("unsupported sample entry atom"))
    }
}

impl Track {
    /// The track a `trak` box describes.
    pub fn from(trak: Trak) -> (r: Self)
        ensures
            r.trak == trak,
    {
        Track { trak }
    }

    pub open spec fn stsd(&self) -> Stsd {
        self.trak.mdia.minf.stbl.stsd
    }

    pub fn track_id(&self) -> (r: u32)
        ensures
            r == self.trak.tkhd.track_id,
    {
        self.trak.tkhd.track_id
    }

    /// The kind of track, from its handler type.
    pub fn track_type(&self) -> (r: Result<TrackType, Error>)
        ensures
            r == spec_track_type(self.trak.mdia.hdlr.handler_type.spec_value()),
    {
        TrackType::try_from(&self.trak.mdia.hdlr.handler_type)
    }

    /// The size of the length prefix of each NAL unit of a sample: for H.264
    /// and H.265 tracks only.
    pub open spec fn spec_nalu_length_size(&self) -> Option<usize> {
        if let Some(avc1) = self.stsd().avc1 {
            Some((avc1.avcc.length_size_minus_one + 1) as usize)
        } else if let Some(hev1) = self.stsd().hev1 {
            Some((hev1.hvcc.length_size_minus_one + 1) as usize)
        } else {
            None
        }
    }

    /// The size of the length prefix of each NAL unit of a sample: for H.264
    /// and H.265 tracks only.
    pub fn nalu_length_size(&self) -> (r: Option<usize>)
        ensures
            r == self.spec_nalu_length_size(),
    {
        let stsd = &self.trak.mdia.minf.stbl.stsd;
        if let Some(avc1) = &stsd.avc1 {
            Some(avc1.avcc.length_size_minus_one as usize + 1)
        } else if let Some(hev1) = &stsd.hev1 {
            Some(hev1.hvcc.length_size_minus_one as usize + 1)
        } else {
            None
        }
    }

    /// The codec of the track, with what its decoder needs.
    pub fn media_format(&self) -> (r: Result<Codec, Error>)
        ensures
            codec_matches(self.stsd(), r),
    {
        let stsd = &self.trak.mdia.minf.stbl.stsd;
        if let Some(avc1) = &stsd.avc1 {
            Ok(Codec::H264(h264::Parameters {
                profile: h264::Profile::from((avc1.avcc.avc_profile_indication, avc1.avcc.profile_compatibility)),
                sps: clone_nalus(&avc1.avcc.sequence_parameter_sets),
                pps: clone_nalus(&avc1.avcc.picture_parameter_sets),
            }))
        } else if let Some(hev1) = &stsd.hev1 {
            Ok(Codec::H265(h265::Parameters {
                sps: hev1.hvcc.nalus(h265::NaluType::Sps),
                pps: hev1.hvcc.nalus(h265::NaluType::Pps),
                vps: hev1.hvcc.nalus(h265::NaluType::Vps),
            }))
        } else if let Some(vp09) = &stsd.vp09 {
            Ok(Codec::VP9(vp9::Parameters { width: vp09.width, height: vp09.height }))
        } else if let Some(mp4a) = &stsd.mp4a {
            let config = &mp4a.esds.es_desc.dec_config;
            Ok(Codec::AAC(aac::Parameters {
                bitrate: config.avg_bitrate,
                profile: aac::AudioObjectType::from(config.dec_specific.profile),
                freq_index: aac::SamplingFrequencyIndex::from(config.dec_specific.freq_index),
                channel_config: aac::ChannelConfiguration::from(config.dec_specific.chan_conf),
            }))
        } else if stsd.tx3g.is_some() {
            Ok(Codec::TTXT(ttxt::Parameters {}))
        } else {
            Err(Error::InvalidData("unsupported media format"))
        }
    }

    /// The name of the track's sample entry.
    pub fn sample_entry(&self) -> (r: Result<FourCC, Error>)
        ensures
            r == spec_sample_entry(self.stsd()),
    {
        let stsd = &self.trak.mdia.minf.stbl.stsd;
        if stsd.avc1.is_some() {
            Ok(FourCC::from_u32(AVC1))
        } else if stsd.hev1.is_some() {
            Ok(FourCC::from_u32(HEV1))
        } else if stsd.vp09.is_some() {
            Ok(FourCC::from_u32(VP09))
        } else if stsd.mp4a.is_some() {
            Ok(FourCC::from_u32(MP4A))
        } else if stsd.tx3g.is_some() {
            Ok(FourCC::from_u32(TX3G))
        } else {
            Err(Error::InvalidData("unsupported sample entry atom"))
        }
    }

    /// The width: from the H.264 sample entry where there is one, else the
    /// whole part of the track header's.
    pub fn width(&self) -> (r: u16)
        ensures
            r == (if let Some(avc1) = self.stsd().avc1 {
                avc1.width as int
            } else {
                self.trak.tkhd.width.0 as int / 0x10000
            }),
    {
        if let Some(avc1) = &self.trak.mdia.minf.stbl.stsd.avc1 {
            avc1.width
        } else {
            self.trak.tkhd.width.integer()
        }
    }

    /// The height: from the H.264 sample entry where there is one, else the
    /// whole part of the track header's.
    pub fn height(&self) -> (r: u16)
        ensures
            r == (if let Some(avc1) = self.stsd().avc1 {
                avc1.height as int
            } else {
                self.trak.tkhd.height.0 as int / 0x10000
            }),
    {
        if let Some(avc1) = &self.trak.mdia.minf.stbl.stsd.avc1 {
            avc1.height
        } else {
            self.trak.tkhd.height.integer()
        }
    }

    pub fn language(&self) -> (r: &str)
        ensures
            r@ == self.trak.mdia.mdhd.language@,
    {
        self.trak.mdia.mdhd.language.as_str()
    }

    /// Units per second the track's times are counted in.
    pub fn timescale(&self) -> (r: u32)
        ensures
            r == self.trak.mdia.mdhd.timescale,
    {
        self.trak.mdia.mdhd.timescale
    }

    /// The track's duration as a span of time, to the microsecond below.
    pub fn duration(&self) -> (r: Duration)
        requires
            self.trak.mdia.mdhd.timescale > 0,
            self.trak.mdia.mdhd.duration * 1_000_000 <= u64::MAX,
        ensures
            r == micros_span((self.trak.mdia.mdhd.duration * 1_000_000 / self.trak.mdia.mdhd.timescale as int) as u64),
    {
        from_micros(self.trak.mdia.mdhd.duration * 1_000_000 / self.trak.mdia.mdhd.timescale as u64)
    }

    /// The bitrate where it needs no division: the average an AAC track
    /// states, or 0 for a track that lasts less than a microsecond. None
    /// where it is the track's bits over its duration.
    pub fn stated_bitrate(&self) -> (r: Option<u32>)
        requires
            self.trak.mdia.minf.stbl.stsd.mp4a is None ==> self.trak.mdia.mdhd.timescale > 0
                && self.trak.mdia.mdhd.duration * 1_000_000 <= u64::MAX,
        ensures
            r == match self.trak.mdia.minf.stbl.stsd.mp4a {
                Some(mp4a) => Some(mp4a.esds.es_desc.dec_config.avg_bitrate),
                None => if self.trak.mdia.mdhd.duration * 1_000_000 / self.trak.mdia.mdhd.timescale as int == 0 {
                    Some(0u32)
                } else {
                    None
                },
            },
    {
        match &self.trak.mdia.minf.stbl.stsd.mp4a {
            Some(mp4a) => Some(mp4a.esds.es_desc.dec_config.avg_bitrate),
            None => {
                if self.trak.mdia.mdhd.duration * 1_000_000 / self.trak.mdia.mdhd.timescale as u64 == 0 {
                    Some(0)
                } else {
                    None
                }
            },
        }
    }

    /// Track duration in timescale units.
    pub fn media_duration(&self) -> (r: u64)
        ensures
            r == self.trak.mdia.mdhd.duration,
    {
        self.trak.mdia.mdhd.duration
    }

    /// The number of samples the size table counts.
    pub fn sample_count(&self) -> (r: u32)
        ensures
            r == self.trak.mdia.minf.stbl.stsz.sample_count,
    {
        self.trak.mdia.minf.stbl.stsz.sample_count
    }

    /// The sampling frequency of an AAC track.
    pub fn sample_freq_index(&self) -> (r: Result<aac::SamplingFrequencyIndex, Error>)
        ensures
            r == (if let Some(mp4a) = self.stsd().mp4a {
                Ok(aac::spec_samplingfrequencyindex_from(mp4a.esds.es_desc.dec_config.dec_specific.freq_index))
            } else {
                Err(Error::AtomInStblNotFound(self.trak.tkhd.track_id, spec_from_u32(MP4A)))
            }),
    {
        if let Some(mp4a) = &self.trak.mdia.minf.stbl.stsd.mp4a {
            Ok(aac::SamplingFrequencyIndex::from(mp4a.esds.es_desc.dec_config.dec_specific.freq_index))
        } else {
            Err(Error::AtomInStblNotFound(self.track_id(), FourCC::from_u32(MP4A)))
        }
    }

    /// The channel layout of an AAC track.
    pub fn channel_layout(&self) -> (r: Result<aac::ChannelConfiguration, Error>)
        ensures
            r == (if let Some(mp4a) = self.stsd().mp4a {
                Ok(aac::spec_channelconfiguration_from(mp4a.esds.es_desc.dec_config.dec_specific.chan_conf))
            } else {
                Err(Error::AtomInStblNotFound(self.trak.tkhd.track_id, spec_from_u32(MP4A)))
            }),
    {
        if let Some(mp4a) = &self.trak.mdia.minf.stbl.stsd.mp4a {
            Ok(aac::ChannelConfiguration::from(mp4a.esds.es_desc.dec_config.dec_specific.chan_conf))
        } else {
            Err(Error::AtomInStblNotFound(self.track_id(), FourCC::from_u32(MP4A)))
        }
    }

    /// The profile of an H.264 track.
    pub fn video_profile(&self) -> (r: Result<h264::Profile, Error>)
        ensures
            r == (if let Some(avc1) = self.stsd().avc1 {
                Ok(h264::spec_profile_from(avc1.avcc.avc_profile_indication, avc1.avcc.profile_compatibility))
            } else {
                Err(Error::AtomInStblNotFound(self.trak.tkhd.track_id, spec_from_u32(AVC1)))
            }),
    {
        if let Some(avc1) = &self.trak.mdia.minf.stbl.stsd.avc1 {
            Ok(h264::Profile::from((avc1.avcc.avc_profile_indication, avc1.avcc.profile_compatibility)))
        } else {
            Err(Error::AtomInStblNotFound(self.track_id(), FourCC::from_u32(AVC1)))
        }
    }

    /// The first sequence parameter set of an H.264 track.
    pub fn sequence_parameter_set(&self) -> (r: Result<&[u8], Error>)
        ensures
            match self.stsd().avc1 {
                None => r == Err::<&[u8], Error>(Error::AtomInStblNotFound(self.trak.tkhd.track_id, spec_from_u32(AVC1))),
                Some(avc1) => if avc1.avcc.sequence_parameter_sets@.len() == 0 {
                    r == Err::<&[u8], Error>(Error::EntryInStblNotFound(self.trak.tkhd.track_id, spec_from_u32(AVCC), 0))
                } else {
                    r matches Ok(b) && b@ == avc1.avcc.sequence_parameter_sets@[0]@
                },
            },
    {
        if let Some(avc1) = &self.trak.mdia.minf.stbl.stsd.avc1 {
            if avc1.avcc.sequence_parameter_sets.len() > 0 {
                Ok(avc1.avcc.sequence_parameter_sets[0].as_bytes())
            } else {
                Err(Error::EntryInStblNotFound(self.track_id(), FourCC::from_u32(AVCC), 0))
            }
        } else {
            Err(Error::AtomInStblNotFound(self.track_id(), FourCC::from_u32(AVC1)))
        }
    }

    /// The first picture parameter set of an H.264 track.
    pub fn picture_parameter_set(&self) -> (r: Result<&[u8], Error>)
        ensures
            match self.stsd().avc1 {
                None => r == Err::<&[u8], Error>(Error::AtomInStblNotFound(self.trak.tkhd.track_id, spec_from_u32(AVC1))),
                Some(avc1) => if avc1.avcc.picture_parameter_sets@.len() == 0 {
                    r == Err::<&[u8], Error>(Error::EntryInStblNotFound(self.trak.tkhd.track_id, spec_from_u32(AVCC), 0))
                } else {
                    r matches Ok(b) && b@ == avc1.avcc.picture_parameter_sets@[0]@
                },
            },
    {
        if let Some(avc1) = &self.trak.mdia.minf.stbl.stsd.avc1 {
            if avc1.avcc.picture_parameter_sets.len() > 0 {
                Ok(avc1.avcc.picture_parameter_sets[0].as_bytes())
            } else {
                Err(Error::EntryInStblNotFound(self.track_id(), FourCC::from_u32(AVCC), 0))
            }
        } else {
            Err(Error::AtomInStblNotFound(self.track_id(), FourCC::from_u32(AVC1)))
        }
    }

    /// The audio object type of an AAC track.
    pub fn audio_profile(&self) -> (r: Result<aac::AudioObjectType, Error>)
        ensures
            r == (if let Some(mp4a) = self.stsd().mp4a {
                Ok(aac::spec_audioobjecttype_from(mp4a.esds.es_desc.dec_config.dec_specific.profile))
            } else {
                Err(Error::AtomInStblNotFound(self.trak.tkhd.track_id, spec_from_u32(MP4A)))
            }),
    {
        if let Some(mp4a) = &self.trak.mdia.minf.stbl.stsd.mp4a {
            Ok(aac::AudioObjectType::from(mp4a.esds.es_desc.dec_config.dec_specific.profile))
        } else {
            Err(Error::AtomInStblNotFound(self.track_id(), FourCC::from_u32(MP4A)))
        }
    }
}

/// Whether a table of sample numbers is in order, as a binary search needs.
pub open spec fn sorted(entries: Seq<u32>) -> bool {
    forall|i: int, j: int| 0 <= i <= j < entries.len() ==> entries[i] <= entries[j]
}

/// `slice::binary_search` on a table of sample numbers. For a table in
/// order it finds `x`, or says where it would go: after every smaller
/// entry and before every larger one. For a table out of order its answer
/// is left unsaid, as the documentation leaves it.
#[verifier::external_body]
fn search_sample(entries: &Vec<u32>, x: u32) -> (r: Result<usize, usize>)
    ensures
        sorted(entries@) ==> match r {
            Ok(i) => i < entries@.len() && entries@[i as int] == x,
            Err(i) => i <= entries@.len() && (forall|j: int| 0 <= j < i ==> entries@[j] < x) && (forall|j: int|
                i <= j < entries@.len() ==> entries@[j] > x),
        },
{
    entries.binary_search(&x)
}

/// From entry `i` on, the run of the sample-to-chunk table that holds
/// sample `sample_id`: the entry before the first whose first sample is
/// past it, or the last entry.
pub open spec fn stsc_scan(entries: Seq<stsc::Entry>, sample_id: u32, i: int) -> Result<int, Error>
    decreases entries.len() - i,
{
    if i >= entries.len() {
        Ok(entries.len() - 1)
    } else if sample_id < entries[i].first_sample {
        if i == 0 {
            Err(Error::InvalidData("sample not found"))
        } else {
            Ok(i - 1)
        }
    } else {
        stsc_scan(entries, sample_id, i + 1)
    }
}

pub open spec fn spec_stsc_index(entries: Seq<stsc::Entry>, sample_id: u32) -> Result<int, Error> {
    if entries.len() == 0 {
        Err(Error::InvalidData("no stsc entries"))
    } else {
        stsc_scan(entries, sample_id, 0)
    }
}

/// From entry `i` on, where the first sample of that entry is `count`: the
/// entry of the composition offset table that holds `sample_id`, with the
/// first sample of its run.
pub open spec fn ctts_scan(entries: Seq<ctts::Entry>, track_id: u32, sample_id: u32, i: int, count: int) -> Result<(int, u32), Error>
    decreases entries.len() - i,
{
    if i >= entries.len() {
        Err(Error::EntryInStblNotFound(track_id, spec_from_u32(CTTS), sample_id))
    } else if count + entries[i].sample_count > u32::MAX {
        Err(Error::InvalidData("attempt to sum ctts entries sample_count with overflow"))
    } else if sample_id < count + entries[i].sample_count {
        Ok((i, count as u32))
    } else {
        ctts_scan(entries, track_id, sample_id, i + 1, count + entries[i].sample_count)
    }
}

/// From entry `i` on, where the first sample of that entry is `count` and
/// it starts at `elapsed`: when sample `sample_id` starts, and how long it
/// lasts.
pub open spec fn stts_scan(entries: Seq<stts::Entry>, track_id: u32, sample_id: u32, i: int, count: int, elapsed: int) -> Result<(u64, u32), Error>
    decreases entries.len() - i,
{
    if i >= entries.len() {
        Err(Error::EntryInStblNotFound(track_id, spec_from_u32(STTS), sample_id))
    } else {
        let e = entries[i];
        let next = count + e.sample_count;
        if next > u32::MAX {
            Err(Error::InvalidData("attempt to sum stts entries sample_count with overflow"))
        } else if sample_id < next {
            if sample_id < count {
                Err(Error::EntryInStblNotFound(track_id, spec_from_u32(STTS), sample_id))
            } else if (sample_id - count) * e.sample_delta + elapsed > u64::MAX {
                Err(Error::InvalidData("attempt to sum stts entries durations with overflow"))
            } else {
                Ok((((sample_id - count) * e.sample_delta + elapsed) as u64, e.sample_delta))
            }
        } else if elapsed + e.sample_count * e.sample_delta > u64::MAX {
            Err(Error::InvalidData("attempt to sum stts entries durations with overflow"))
        } else {
            stts_scan(entries, track_id, sample_id, i + 1, next, elapsed + e.sample_count * e.sample_delta)
        }
    }
}

/// From entry `i` on, where the first sample of that entry is `sample_id`
/// and it starts at `elapsed`: the sample that covers `time`, or the one
/// after the last where the table ends first. None where a sum would not
/// fit its integer.
pub open spec fn time_scan(entries: Seq<stts::Entry>, time: u64, i: int, sample_id: int, elapsed: int) -> Option<u32>
    decreases entries.len() - i,
{
    if i >= entries.len() {
        Some(sample_id as u32)
    } else {
        let e = entries[i];
        let span = e.sample_count * e.sample_delta;
        if elapsed + span > u64::MAX {
            None
        } else if time < elapsed + span {
            let k = (time - elapsed) / (if e.sample_delta == 0 { 1 } else { e.sample_delta as int });
            if sample_id + k > u32::MAX {
                None
            } else {
                Some((sample_id + k) as u32)
            }
        } else if sample_id + e.sample_count > u32::MAX {
            None
        } else {
            time_scan(entries, time, i + 1, sample_id + e.sample_count, elapsed + span)
        }
    }
}

impl Track {
    pub open spec fn stbl_entries(&self) -> Seq<stsc::Entry> {
        self.trak.mdia.minf.stbl.stsc.entries@
    }

    /// The size of sample `sample_id`: the one size of every sample where
    /// the table gives one, else the sample's own.
    pub open spec fn spec_sample_size(&self, sample_id: u32) -> Result<u32, Error> {
        let stsz = self.trak.mdia.minf.stbl.stsz;
        if stsz.sample_size > 0 {
            Ok(stsz.sample_size)
        } else if 1 <= sample_id <= stsz.sample_sizes@.len() {
            Ok(stsz.sample_sizes@[sample_id - 1])
        } else {
            Err(Error::EntryInStblNotFound(self.trak.tkhd.track_id, spec_from_u32(STSZ), sample_id))
        }
    }

    /// Where chunk `chunk_id` starts, from the 32-bit chunk offset table, or
    /// else the 64-bit one.
    pub open spec fn spec_chunk_offset(&self, chunk_id: u32) -> Result<u64, Error> {
        let stbl = self.trak.mdia.minf.stbl;
        if let Some(stco) = stbl.stco {
            if 1 <= chunk_id <= stco.entries@.len() {
                Ok(stco.entries@[chunk_id - 1] as u64)
            } else {
                Err(Error::EntryInStblNotFound(self.trak.tkhd.track_id, spec_from_u32(STCO), chunk_id))
            }
        } else if let Some(co64) = stbl.co64 {
            if 1 <= chunk_id <= co64.entries@.len() {
                Ok(co64.entries@[chunk_id - 1])
            } else {
                Err(Error::EntryInStblNotFound(self.trak.tkhd.track_id, spec_from_u32(CO64), chunk_id))
            }
        } else {
            Err(Error::InvalidData("must have either stco or co64 boxes"))
        }
    }

    /// `acc` plus the sizes of samples `i` up to `to`, as a 32-bit sum.
    pub open spec fn spec_sizes_from(&self, acc: int, i: int, to: int) -> Result<int, Error>
        decreases to - i,
    {
        if i >= to {
            Ok(acc)
        } else {
            match self.spec_sample_size(i as u32) {
                Err(e) => Err(e),
                Ok(s) => if acc + s > u32::MAX {
                    Err(Error::InvalidData("attempt to sum sample sizes with overflow"))
                } else {
                    self.spec_sizes_from(acc + s, i + 1, to)
                },
            }
        }
    }

    /// Where sample `sample_id` starts: where its chunk starts, plus the
    /// sizes of the samples before it in that chunk.
    pub open spec fn spec_sample_offset(&self, sample_id: u32) -> Result<u64, Error> {
        let entries = self.stbl_entries();
        match spec_stsc_index(entries, sample_id) {
            Err(e) => Err(e),
            Ok(idx) => {
                let e = entries[idx];
                let spc = e.samples_per_chunk;
                if sample_id < e.first_sample {
                    Err(Error::InvalidData("attempt to calculate stsc chunk_id with overflow"))
                } else if spc == 0 {
                    Err(Error::InvalidData("stsc entry with no samples per chunk"))
                } else if (sample_id - e.first_sample) / spc as int + e.first_chunk > u32::MAX {
                    Err(Error::InvalidData("attempt to calculate stsc chunk_id with overflow"))
                } else {
                    let chunk_id = ((sample_id - e.first_sample) / spc as int + e.first_chunk) as u32;
                    match self.spec_chunk_offset(chunk_id) {
                        Err(err) => Err(err),
                        Ok(chunk_offset) => {
                            let first = sample_id - (sample_id - e.first_sample) % (spc as int);
                            match self.spec_sizes_from(0, first, sample_id as int) {
                                Err(err) => Err(err),
                                Ok(sum) => if chunk_offset + sum > u64::MAX {
                                    Err(Error::InvalidData("attempt to add sample offset with overflow"))
                                } else {
                                    Ok((chunk_offset + sum) as u64)
                                },
                            }
                        },
                    }
                }
            },
        }
    }

    pub open spec fn spec_sample_time(&self, sample_id: u32) -> Result<(u64, u32), Error> {
        stts_scan(self.trak.mdia.minf.stbl.stts.entries@, self.trak.tkhd.track_id, sample_id, 0, 1, 0)
    }

    pub open spec fn spec_ctts_index(&self, sample_id: u32) -> Result<(int, u32), Error> {
        ctts_scan(self.trak.mdia.minf.stbl.ctts->Some_0.entries@, self.trak.tkhd.track_id, sample_id, 0, 1)
    }

    /// How far sample `sample_id` is shown after it is decoded: 0 without a
    /// composition offset table, or for a sample it does not hold.
    pub open spec fn spec_rendering_offset(&self, sample_id: u32) -> i32 {
        match self.trak.mdia.minf.stbl.ctts {
            None => 0,
            Some(ctts) => match self.spec_ctts_index(sample_id) {
                Ok((i, _)) => ctts.entries@[i].sample_offset,
                Err(_) => 0,
            },
        }
    }

    pub open spec fn spec_sample_at_time(&self, time: u64) -> Option<u32> {
        time_scan(self.trak.mdia.minf.stbl.stts.entries@, time, 0, 1, 0)
    }
}

/// The sum of a table of sizes.
pub open spec fn sum_sizes(s: Seq<u32>) -> int
    decreases s.len(),
{
    if s.len() == 0 {
        0
    } else {
        sum_sizes(s.drop_last()) + s.last()
    }
}

/// A sum of `n` sizes is at most `n` times the largest size.
proof fn lemma_sum_sizes_bound(s: Seq<u32>)
    ensures
        0 <= sum_sizes(s) <= s.len() * u32::MAX,
    decreases s.len(),
{
    if s.len() > 0 {
        lemma_sum_sizes_bound(s.drop_last());
    }
}

impl Track {
    /// Which run of the sample-to-chunk table holds sample `sample_id`.
    fn stsc_index(&self, sample_id: u32) -> (r: Result<usize, Error>)
        ensures
            match r {
                Ok(i) => spec_stsc_index(self.stbl_entries(), sample_id) == Ok::<int, Error>(i as int)
                    && i < self.stbl_entries().len(),
                Err(e) => spec_stsc_index(self.stbl_entries(), sample_id) == Err::<int, Error>(e),
            },
    {
        let entries = &self.trak.mdia.minf.stbl.stsc.entries;
        if entries.len() == 0 {
            return Err(Error::InvalidData("no stsc entries"));
        }
        let mut i: usize = 0;
        while i < entries.len()
            invariant
                i <= entries@.len(),
                entries@.len() > 0,
                entries@ == self.stbl_entries(),
                spec_stsc_index(entries@, sample_id) == stsc_scan(entries@, sample_id, i as int),
            decreases entries@.len() - i,
        {
            if sample_id < entries[i].first_sample {
                if i == 0 {
                    return Err(Error::InvalidData("sample not found"));
                } else {
                    return Ok(i - 1);
                }
            }
            i = i + 1;
        }
        Ok(entries.len() - 1)
    }

    /// Where chunk `chunk_id` starts. Chunks are counted from 1.
    fn chunk_offset(&self, chunk_id: u32) -> (r: Result<u64, Error>)
        ensures
            r == self.spec_chunk_offset(chunk_id),
    {
        let stbl = &self.trak.mdia.minf.stbl;
        if stbl.stco.is_none() && stbl.co64.is_none() {
            return Err(Error::InvalidData("must have either stco or co64 boxes"));
        }
        if let Some(stco) = &stbl.stco {
            if chunk_id >= 1 && (chunk_id as usize) <= stco.entries.len() {
                Ok(stco.entries[chunk_id as usize - 1] as u64)
            } else {
                Err(Error::EntryInStblNotFound(self.track_id(), FourCC::from_u32(STCO), chunk_id))
            }
        } else if let Some(co64) = &stbl.co64 {
            if chunk_id >= 1 && (chunk_id as usize) <= co64.entries.len() {
                Ok(co64.entries[chunk_id as usize - 1])
            } else {
                Err(Error::EntryInStblNotFound(self.track_id(), FourCC::from_u32(CO64), chunk_id))
            }
        } else {
            Err(Error::Atom2NotFound(FourCC::from_u32(STCO), FourCC::from_u32(CO64)))
        }
    }

    /// The size of sample `sample_id`. Samples are counted from 1.
    fn sample_size(&self, sample_id: u32) -> (r: Result<u32, Error>)
        ensures
            r == self.spec_sample_size(sample_id),
    {
        let stsz = &self.trak.mdia.minf.stbl.stsz;
        if stsz.sample_size > 0 {
            return Ok(stsz.sample_size);
        }
        if sample_id >= 1 && (sample_id as usize) <= stsz.sample_sizes.len() {
            Ok(stsz.sample_sizes[sample_id as usize - 1])
        } else {
            Err(Error::EntryInStblNotFound(self.track_id(), FourCC::from_u32(STSZ), sample_id))
        }
    }

    /// The bytes all samples take together.
    pub fn total_sample_size(&self) -> (r: u64)
        requires
            self.trak.mdia.minf.stbl.stsz.sample_sizes@.len() <= u32::MAX,
        ensures
            r == (if self.trak.mdia.minf.stbl.stsz.sample_size > 0 {
                self.trak.mdia.minf.stbl.stsz.sample_size * self.trak.mdia.minf.stbl.stsz.sample_count
            } else {
                sum_sizes(self.trak.mdia.minf.stbl.stsz.sample_sizes@)
            }),
    {
        let stsz = &self.trak.mdia.minf.stbl.stsz;
        if stsz.sample_size > 0 {
            proof {
                assert(stsz.sample_size * stsz.sample_count <= u32::MAX * u32::MAX) by (nonlinear_arith)
                    requires
                        stsz.sample_size <= u32::MAX,
                        stsz.sample_count <= u32::MAX,
                ;
            }
            stsz.sample_size as u64 * self.sample_count() as u64
        } else {
            let mut total: u64 = 0;
            let mut i: usize = 0;
            while i < stsz.sample_sizes.len()
                invariant
                    i <= stsz.sample_sizes@.len(),
                    stsz.sample_sizes@.len() <= u32::MAX,
                    total == sum_sizes(stsz.sample_sizes@.take(i as int)),
                decreases stsz.sample_sizes@.len() - i,
            {
                proof {
                    let t = stsz.sample_sizes@.take(i + 1);
                    assert(t.drop_last() =~= stsz.sample_sizes@.take(i as int));
                    lemma_sum_sizes_bound(t);
                    assert(t.len() * u32::MAX <= u32::MAX * u32::MAX) by (nonlinear_arith)
                        requires
                            t.len() <= u32::MAX,
                    ;
                }
                total = total + stsz.sample_sizes[i] as u64;
                i = i + 1;
            }
            proof {
                assert(stsz.sample_sizes@.take(i as int) =~= stsz.sample_sizes@);
            }
            total
        }
    }

    /// Where sample `sample_id` starts in the file. Samples are counted from 1.
    pub fn sample_offset(&self, sample_id: u32) -> (r: Result<u64, Error>)
        ensures
            r == self.spec_sample_offset(sample_id),
    {
        let stsc_index = self.stsc_index(sample_id)?;
        let entry = &self.trak.mdia.minf.stbl.stsc.entries[stsc_index];
        let first_chunk = entry.first_chunk;
        let first_sample = entry.first_sample;
        let samples_per_chunk = entry.samples_per_chunk;
        if sample_id < first_sample {
            return Err(Error::InvalidData("attempt to calculate stsc chunk_id with overflow"));
        }
        if samples_per_chunk == 0 {
            return Err(Error::InvalidData("stsc entry with no samples per chunk"));
        }
        let n = (sample_id - first_sample) / samples_per_chunk;
        if n > u32::MAX - first_chunk {
            return Err(Error::InvalidData("attempt to calculate stsc chunk_id with overflow"));
        }
        let chunk_id = n + first_chunk;
        let chunk_offset = self.chunk_offset(chunk_id)?;
        let rem = (sample_id - first_sample) % samples_per_chunk;
        proof {
            let x = (sample_id - first_sample) as int;
            assert(x % (samples_per_chunk as int) <= x) by (nonlinear_arith)
                requires
                    x >= 0,
                    samples_per_chunk > 0,
            ;
        }
        let first_sample_in_chunk = sample_id - rem;
        let mut sum: u32 = 0;
        let mut i: u32 = first_sample_in_chunk;
        while i < sample_id
            invariant
                first_sample_in_chunk <= i <= sample_id,
                self.spec_sample_offset(sample_id) == match self.spec_sizes_from(0, first_sample_in_chunk as int, sample_id as int) {
                    Err(err) => Err(err),
                    Ok(total) => if chunk_offset + total > u64::MAX {
                        Err(Error::InvalidData("attempt to add sample offset with overflow"))
                    } else {
                        Ok((chunk_offset + total) as u64)
                    },
                },
                self.spec_sizes_from(0, first_sample_in_chunk as int, sample_id as int) == self.spec_sizes_from(
                    sum as int,
                    i as int,
                    sample_id as int,
                ),
            decreases sample_id - i,
        {
            let size = self.sample_size(i)?;
            if sum > u32::MAX - size {
                return Err(Error::InvalidData("attempt to sum sample sizes with overflow"));
            }
            sum = sum + size;
            i = i + 1;
        }
        if chunk_offset > u64::MAX - sum as u64 {
            return Err(Error::InvalidData("attempt to add sample offset with overflow"));
        }
        Ok(chunk_offset + sum as u64)
    }
}

impl Track {
    /// When sample `sample_id` starts, in timescale units, and how long it
    /// lasts.
    fn sample_time(&self, sample_id: u32) -> (r: Result<(u64, u32), Error>)
        ensures
            r == self.spec_sample_time(sample_id),
    {
        let entries = &self.trak.mdia.minf.stbl.stts.entries;
        let mut sample_count: u32 = 1;
        let mut elapsed: u64 = 0;
        let mut i: usize = 0;
        while i < entries.len()
            invariant
                i <= entries@.len(),
                self.spec_sample_time(sample_id) == stts_scan(entries@, self.trak.tkhd.track_id, sample_id, i as int, sample_count as int, elapsed as int),
            decreases entries@.len() - i,
        {
            let entry = entries[i];
            if sample_count > u32::MAX - entry.sample_count {
                return Err(Error::InvalidData("attempt to sum stts entries sample_count with overflow"));
            }
            let new_sample_count = sample_count + entry.sample_count;
            proof {
                assert(entry.sample_count * entry.sample_delta <= u32::MAX * u32::MAX) by (nonlinear_arith)
                    requires
                        entry.sample_count <= u32::MAX,
                        entry.sample_delta <= u32::MAX,
                ;
            }
            if sample_id < new_sample_count {
                if sample_id < sample_count {
                    return Err(Error::EntryInStblNotFound(self.track_id(), FourCC::from_u32(STTS), sample_id));
                }
                proof {
                    assert((sample_id - sample_count) * entry.sample_delta <= u32::MAX * u32::MAX) by (nonlinear_arith)
                        requires
                            0 <= sample_id - sample_count <= u32::MAX,
                            entry.sample_delta <= u32::MAX,
                    ;
                }
                let offset = (sample_id - sample_count) as u64 * entry.sample_delta as u64;
                if offset > u64::MAX - elapsed {
                    return Err(Error::InvalidData("attempt to sum stts entries durations with overflow"));
                }
                return Ok((offset + elapsed, entry.sample_delta));
            }
            let span = entry.sample_count as u64 * entry.sample_delta as u64;
            if span > u64::MAX - elapsed {
                return Err(Error::InvalidData("attempt to sum stts entries durations with overflow"));
            }
            sample_count = new_sample_count;
            elapsed = elapsed + span;
            i = i + 1;
        }
        Err(Error::EntryInStblNotFound(self.track_id(), FourCC::from_u32(STTS), sample_id))
    }

    /// Which run of the composition offset table holds sample `sample_id`,
    /// with the first sample of that run.
    fn ctts_index(&self, sample_id: u32) -> (r: Result<(usize, u32), Error>)
        requires
            self.trak.mdia.minf.stbl.ctts is Some,
        ensures
            match r {
                Ok((i, c)) => self.spec_ctts_index(sample_id) == Ok::<(int, u32), Error>((i as int, c))
                    && i < self.trak.mdia.minf.stbl.ctts->Some_0.entries@.len(),
                Err(e) => self.spec_ctts_index(sample_id) == Err::<(int, u32), Error>(e),
            },
    {
        let ctts = match &self.trak.mdia.minf.stbl.ctts {
            Some(ctts) => ctts,
            None => {
                return Err(Error::AtomInStblNotFound(self.track_id(), FourCC::from_u32(CTTS)));
            },
        };
        let entries = &ctts.entries;
        let mut sample_count: u32 = 1;
        let mut i: usize = 0;
        while i < entries.len()
            invariant
                i <= entries@.len(),
                entries@ == self.trak.mdia.minf.stbl.ctts->Some_0.entries@,
                self.spec_ctts_index(sample_id) == ctts_scan(entries@, self.trak.tkhd.track_id, sample_id, i as int, sample_count as int),
            decreases entries@.len() - i,
        {
            let count = entries[i].sample_count;
            if sample_count > u32::MAX - count {
                return Err(Error::InvalidData("attempt to sum ctts entries sample_count with overflow"));
            }
            let next_sample_count = sample_count + count;
            if sample_id < next_sample_count {
                return Ok((i, sample_count));
            }
            sample_count = next_sample_count;
            i = i + 1;
        }
        Err(Error::EntryInStblNotFound(self.track_id(), FourCC::from_u32(CTTS), sample_id))
    }

    /// How far sample `sample_id` is shown after it is decoded.
    fn sample_rendering_offset(&self, sample_id: u32) -> (r: i32)
        ensures
            r == self.spec_rendering_offset(sample_id),
    {
        if let Some(ctts) = &self.trak.mdia.minf.stbl.ctts {
            if let Ok((ctts_index, _)) = self.ctts_index(sample_id) {
                return ctts.entries[ctts_index].sample_offset;
            }
        }
        0
    }

    /// Whether sample `sample_id` is a keyframe: every sample is without a
    /// sync sample table.
    fn is_sync_sample(&self, sample_id: u32) -> (r: bool)
        ensures
            match self.trak.mdia.minf.stbl.stss {
                None => r,
                Some(stss) => sorted(stss.entries@) ==> r == stss.entries@.contains(sample_id),
            },
    {
        if let Some(stss) = &self.trak.mdia.minf.stbl.stss {
            let found = search_sample(&stss.entries, sample_id);
            proof {
                if sorted(stss.entries@) {
                    if let Err(i) = found {
                        assert forall|j: int| 0 <= j < stss.entries@.len() implies stss.entries@[j] != sample_id by {
                            if j < i {
                            } else {
                            }
                        }
                    }
                }
            }
            found.is_ok()
        } else {
            true
        }
    }

    /// The nearest sync sample at or before `sample_id`, so that a seek lands
    /// on a keyframe rather than mid-group: `sample_id` itself without a sync
    /// sample table, or where it is a sync sample; 1 where no sync sample
    /// comes before it. For a table out of order the answer is what a binary
    /// search over it gives.
    pub fn sync_sample_at_or_before(&self, sample_id: u32) -> (r: u32)
        ensures
            match self.trak.mdia.minf.stbl.stss {
                None => r == sample_id,
                Some(stss) => sorted(stss.entries@) ==> {
                    let e = stss.entries@;
                    if e.contains(sample_id) {
                        r == sample_id
                    } else if forall|j: int| 0 <= j < e.len() ==> e[j] > sample_id {
                        r == 1
                    } else {
                        &&& e.contains(r)
                        &&& r < sample_id
                        &&& forall|j: int| 0 <= j < e.len() && e[j] < sample_id ==> e[j] <= r
                    }
                },
            },
    {
        let stss = match &self.trak.mdia.minf.stbl.stss {
            None => {
                return sample_id;
            },
            Some(stss) => stss,
        };
        let found = search_sample(&stss.entries, sample_id);
        let ghost e = stss.entries@;
        match found {
            Ok(_) => sample_id,
            Err(index) => {
                if index == 0 {
                    proof {
                        if sorted(e) {
                            assert forall|j: int| 0 <= j < e.len() implies e[j] > sample_id by {}
                            assert(!e.contains(sample_id));
                        }
                    }
                    1
                } else if index > stss.entries.len() {
                    sample_id
                } else {
                    let r = stss.entries[index - 1];
                    proof {
                        if sorted(e) {
                            assert(!e.contains(sample_id));
                            assert(e[index - 1] < sample_id);
                            assert(e.contains(r));
                        }
                    }
                    r
                }
            },
        }
    }

    /// The sample that covers `time`, in timescale units, or the one after
    /// the last where the table ends before `time`. None where a count or a
    /// time along the way would not fit its integer.
    pub fn try_sample_at_time(&self, time: u64) -> (r: Option<u32>)
        ensures
            r == self.spec_sample_at_time(time),
    {
        let entries = &self.trak.mdia.minf.stbl.stts.entries;
        let mut sample_id: u32 = 1;
        let mut elapsed: u64 = 0;
        let mut i: usize = 0;
        while i < entries.len()
            invariant
                i <= entries@.len(),
                elapsed <= time,
                self.spec_sample_at_time(time) == time_scan(entries@, time, i as int, sample_id as int, elapsed as int),
            decreases entries@.len() - i,
        {
            let entry = entries[i];
            proof {
                assert(entry.sample_count * entry.sample_delta <= u32::MAX * u32::MAX) by (nonlinear_arith)
                    requires
                        entry.sample_count <= u32::MAX,
                        entry.sample_delta <= u32::MAX,
                ;
            }
            let span = entry.sample_count as u64 * entry.sample_delta as u64;
            if elapsed > u64::MAX - span {
                return None;
            }
            if time < elapsed + span {
                let delta = if entry.sample_delta == 0 { 1 } else { entry.sample_delta as u64 };
                let k = (time - elapsed) / delta;
                proof {
                    if entry.sample_delta == 0 {
                        assert(entry.sample_count * entry.sample_delta == 0) by (nonlinear_arith)
                            requires
                                entry.sample_delta == 0,
                        ;
                    }
                    let t = (time - elapsed) as int;
                    assert(t / (delta as int) < entry.sample_count) by (nonlinear_arith)
                        requires
                            0 <= t < entry.sample_count * entry.sample_delta,
                            delta == entry.sample_delta,
                            delta > 0,
                    ;
                }
                if sample_id as u64 > u32::MAX as u64 - k {
                    return None;
                }
                return Some(sample_id + k as u32);
            }
            if sample_id > u32::MAX - entry.sample_count {
                return None;
            }
            sample_id = sample_id + entry.sample_count;
            elapsed = elapsed + span;
            i = i + 1;
        }
        Some(sample_id)
    }

    /// The sample that covers `time`, in timescale units, or the one after
    /// the last where the table ends before `time`.
    pub fn sample_at_time(&self, time: u64) -> (r: u32)
        requires
            self.spec_sample_at_time(time) is Some,
        ensures
            r == self.spec_sample_at_time(time)->Some_0,
    {
        match self.try_sample_at_time(time) {
            Some(r) => r,
            None => 1,
        }
    }

    /// What `sample_info` answers for sample `sample_id`.
    pub open spec fn info_of(&self, sample_id: u32, r: Result<Option<SampleInfo>, Error>) -> bool {
            match self.spec_sample_size(sample_id) {
                Err(Error::EntryInStblNotFound(_, _, _)) => r == Ok::<Option<SampleInfo>, Error>(None),
                Err(e) => r == Err::<Option<SampleInfo>, Error>(e),
                Ok(size) => match self.spec_sample_time(sample_id) {
                    Err(e) => r == Err::<Option<SampleInfo>, Error>(e),
                    Ok((start_time, duration)) => r matches Ok(Some(info)) && info.start_time == start_time
                        && info.duration == duration && info.rendering_offset == self.spec_rendering_offset(sample_id)
                        && info.size == size && match self.trak.mdia.minf.stbl.stss {
                        None => info.is_sync,
                        Some(stss) => sorted(stss.entries@) ==> info.is_sync == stss.entries@.contains(sample_id),
                    },
                },
            }
    }

    /// What sample `sample_id` is, from the index alone; none past the last
    /// sample of the size table.
    pub fn sample_info(&self, sample_id: u32) -> (r: Result<Option<SampleInfo>, Error>)
        ensures
            self.info_of(sample_id, r),
    {
        let size = match self.sample_size(sample_id) {
            Ok(size) => size,
            Err(Error::EntryInStblNotFound(_, _, _)) => {
                return Ok(None);
            },
            Err(err) => {
                return Err(err);
            },
        };
        let (start_time, duration) = self.sample_time(sample_id)?;
        Ok(Some(SampleInfo {
            start_time,
            duration,
            rendering_offset: self.sample_rendering_offset(sample_id),
            is_sync: self.is_sync_sample(sample_id),
            size: size as usize,
        }))
    }
}

impl Track {
    /// What `read_sample_into` answers for sample `sample_id` of the file
    /// `d`, and what it leaves in a buffer that held `before`.
    pub open spec fn sample_read_into(&self, d: Seq<u8>, sample_id: u32, before: Seq<u8>, after: Seq<u8>, r: Result<(), Error>) -> bool {
            match self.spec_sample_offset(sample_id) {
                Err(e) => r == Err::<(), Error>(e),
                Ok(offset) => if !fits(d, offset as int, before.len() as int) {
                    r == Err::<(), Error>(Error::Io)
                } else {
                    let sample = d.subrange(offset as int, offset + before.len());
                    if self.spec_nalu_length_size() is None {
                        r is Ok && after == sample
                    } else if avcc_units(sample, 4).1 {
                        r is Ok && after == annexb_join(avcc_units(sample, 4).0)
                    } else {
                        r == Err::<(), Error>(Error::InvalidData("malformed sample"))
                    }
                },
            }
    }

    /// Reads sample `sample_id` from the stream `data` straight into `into`,
    /// which must be its size, and rewrites H.264 and H.265 units from
    /// length prefixes to start codes where they lie. Only for 4-byte
    /// prefixes, where Annex-B takes the same room.
    pub fn read_sample_into(&self, data: &[u8], sample_id: u32, into: &mut [u8]) -> (r: Result<(), Error>)
        ensures
            self.sample_read_into(data@, sample_id, old(into)@, final(into)@, r),
    {
        let sample_offset = self.sample_offset(sample_id)?;
        read_exact_at(data, sample_offset, into)?;
        if self.nalu_length_size().is_some() && !avcc_to_annexb_in_place(into) {
            return Err(Error::InvalidData("malformed sample"));
        }
        Ok(())
    }

    /// What `read_sample` answers for sample `sample_id` of the file `d`.
    pub open spec fn sample_read(&self, d: Seq<u8>, sample_id: u32, r: Result<Option<Sample>, Error>) -> bool {
            match self.spec_sample_offset(sample_id) {
                Err(Error::EntryInStblNotFound(_, _, _)) => r == Ok::<Option<Sample>, Error>(None),
                Err(e) => r == Err::<Option<Sample>, Error>(e),
                Ok(offset) => match self.spec_sample_size(sample_id) {
                    Err(Error::EntryInStblNotFound(_, _, _)) => r == Ok::<Option<Sample>, Error>(None),
                    Err(e) => r == Err::<Option<Sample>, Error>(e),
                    Ok(size) => if !fits(d, offset as int, size as int) {
                        r == Err::<Option<Sample>, Error>(Error::Io)
                    } else {
                        let raw = d.subrange(offset as int, offset + size);
                        let bytes = match self.spec_nalu_length_size() {
                            None => Some(raw),
                            Some(n) => if 1 <= n <= 4 && avcc_units(raw, n as nat).1 {
                                Some(annexb_join(avcc_units(raw, n as nat).0))
                            } else {
                                None
                            },
                        };
                        if bytes is None {
                            r == Err::<Option<Sample>, Error>(Error::InvalidData("malformed sample"))
                        } else {
                            match self.spec_sample_time(sample_id) {
                                Err(e) => r == Err::<Option<Sample>, Error>(e),
                                Ok((start_time, duration)) => r matches Ok(Some(sample)) && sample.start_time
                                    == start_time && sample.duration == duration && sample.rendering_offset
                                    == self.spec_rendering_offset(sample_id) && bytes_view(sample.bytes)
                                    == bytes->Some_0 && match self.trak.mdia.minf.stbl.stss {
                                    None => sample.is_sync,
                                    Some(stss) => sorted(stss.entries@) ==> sample.is_sync == stss.entries@.contains(
                                        sample_id,
                                    ),
                                },
                            }
                        }
                    },
                },
            }
    }

    /// Reads sample `sample_id` from the stream `data`, with its timing; H.264
    /// and H.265 units are rewritten from length prefixes to start codes.
    /// None past the last sample of the tables.
    pub fn read_sample(&self, data: &[u8], sample_id: u32) -> (r: Result<Option<Sample>, Error>)
        ensures
            self.sample_read(data@, sample_id, r),
    {
        let sample_offset = match self.sample_offset(sample_id) {
            Ok(offset) => offset,
            Err(Error::EntryInStblNotFound(_, _, _)) => {
                return Ok(None);
            },
            Err(err) => {
                return Err(err);
            },
        };
        let sample_size = match self.sample_size(sample_id) {
            Ok(size) => size,
            Err(Error::EntryInStblNotFound(_, _, _)) => {
                return Ok(None);
            },
            Err(err) => {
                return Err(err);
            },
        };
        let mut buffer: Vec<u8> = vec![0u8; sample_size as usize];
        read_exact_at(data, sample_offset, buffer.as_mut_slice())?;
        if let Some(length_size) = self.nalu_length_size() {
            buffer = match avcc_to_annexb(buffer, length_size) {
                Some(converted) => converted,
                None => {
                    return Err(Error::InvalidData("malformed sample"));
                },
            };
        }
        let (start_time, duration) = self.sample_time(sample_id)?;
        let rendering_offset = self.sample_rendering_offset(sample_id);
        let is_sync = self.is_sync_sample(sample_id);
        Ok(Some(Sample { start_time, duration, rendering_offset, is_sync, bytes: bytes_from_vec(buffer) }))
    }
}

/// A time scan never ends before the sample it starts from.
proof fn lemma_time_scan_from(entries: Seq<stts::Entry>, time: u64, i: int, sample_id: int, elapsed: int)
    requires
        time_scan(entries, time, i, sample_id, elapsed) is Some,
        0 <= i,
        0 <= sample_id <= u32::MAX,
        0 <= elapsed <= time,
    ensures
        time_scan(entries, time, i, sample_id, elapsed)->Some_0 >= sample_id,
    decreases entries.len() - i,
{
    if i < entries.len() {
        let e = entries[i];
        let span = e.sample_count * e.sample_delta;
        if elapsed + span <= u64::MAX && time >= elapsed + span && sample_id + e.sample_count <= u32::MAX {
            assert(span >= 0) by (nonlinear_arith)
                requires
                    span == e.sample_count * e.sample_delta,
            ;
            lemma_time_scan_from(entries, time, i + 1, sample_id + e.sample_count, elapsed + span);
        } else if elapsed + span <= u64::MAX && time < elapsed + span {
            let d = if e.sample_delta == 0 { 1 } else { e.sample_delta as int };
            assert((time - elapsed) / d >= 0) by (nonlinear_arith)
                requires
                    time - elapsed >= 0,
                    d > 0,
            ;
        }
    }
}

/// The sample a time scan finds starts no later than the time and lasts
/// past it, where the decoding time scan over the same entries times it.
#[verifier::spinoff_prover]
#[verifier::rlimit(30)]
proof fn lemma_time_covers(entries: Seq<stts::Entry>, track_id: u32, time: u64, i: int, sample_id: int, elapsed: int)
    requires
        0 <= i,
        0 <= sample_id <= u32::MAX,
        0 <= elapsed <= time,
        time_scan(entries, time, i, sample_id, elapsed) is Some,
        stts_scan(entries, track_id, time_scan(entries, time, i, sample_id, elapsed)->Some_0, i, sample_id, elapsed) is Ok,
    ensures
        ({
            let (start, duration) = stts_scan(
                entries,
                track_id,
                time_scan(entries, time, i, sample_id, elapsed)->Some_0,
                i,
                sample_id,
                elapsed,
            )->Ok_0;
            start <= time < start + duration
        }),
    decreases entries.len() - i,
{
    let x = time_scan(entries, time, i, sample_id, elapsed)->Some_0;
    if i < entries.len() {
        let e = entries[i];
        let c = e.sample_count as int;
        let d = e.sample_delta as int;
        let span = e.sample_count * e.sample_delta;
        assert(span == c * d);
        assert(span >= 0) by (nonlinear_arith)
            requires
                span == c * d,
                c >= 0,
                d >= 0,
        ;
        if time < elapsed + span {
            if d == 0 {
                assert(c * d == 0) by (nonlinear_arith)
                    requires
                        d == 0,
                ;
            }
            let k = (time - elapsed) / d;
            assert(x == sample_id + k);
            assert(0 <= k * d <= time - elapsed < k * d + d && k < c) by (nonlinear_arith)
                requires
                    k == (time - elapsed) / d,
                    d > 0,
                    0 <= time - elapsed < c * d,
            ;
            assert((x - sample_id) * d == k * d);
            assert(stts_scan(entries, track_id, x as u32, i, sample_id, elapsed) == Ok::<(u64, u32), Error>(
                ((k * d + elapsed) as u64, e.sample_delta),
            ));
            assert(k * d + elapsed <= time);
            assert(time < k * d + elapsed + d);
            assert(((k * d + elapsed) as u64) as int == k * d + elapsed);
        } else {
            lemma_time_scan_from(entries, time, i + 1, sample_id + c, elapsed + span);
            lemma_time_covers(entries, track_id, time, i + 1, sample_id + c, elapsed + span);
        }
    }
}

/// Seeking by time lands on the sample that covers it: the sample found
/// for a time starts no later than it and lasts past it.
pub proof fn law_sample_covers_time(track: Track, time: u64)
    requires
        track.spec_sample_at_time(time) is Some,
        track.spec_sample_time(track.spec_sample_at_time(time)->Some_0) is Ok,
    ensures
        ({
            let (start, duration) = track.spec_sample_time(track.spec_sample_at_time(time)->Some_0)->Ok_0;
            start <= time < start + duration
        }),
{
    lemma_time_covers(track.trak.mdia.minf.stbl.stts.entries@, track.trak.tkhd.track_id, time, 0, 1, 0);
}

/// How many samples the composition offset runs before run `k` count.
pub open spec fn ctts_before(entries: Seq<ctts::Entry>, k: int) -> int
    decreases k,
{
    if k <= 0 {
        0
    } else {
        ctts_before(entries, k - 1) + entries[k - 1].sample_count
    }
}

/// Run counts only add up.
proof fn lemma_ctts_before_grows(entries: Seq<ctts::Entry>, a: int, b: int)
    requires
        0 <= a <= b,
    ensures
        ctts_before(entries, a) <= ctts_before(entries, b),
    decreases b - a,
{
    if a < b {
        lemma_ctts_before_grows(entries, a, b - 1);
    }
}

/// What a search of the runs from `i` on finds, where samples are counted
/// from 1.
proof fn lemma_ctts_runs(entries: Seq<ctts::Entry>, track_id: u32, s: u32, i: int)
    requires
        0 <= i <= entries.len(),
        i == 0 || s >= 1 + ctts_before(entries, i),
    ensures
        ctts_scan(entries, track_id, s, i, 1 + ctts_before(entries, i)) matches Ok((k, first)) ==> {
            &&& i <= k < entries.len()
            &&& first == 1 + ctts_before(entries, k)
            &&& s < 1 + ctts_before(entries, k + 1)
            &&& s >= 1 ==> 1 + ctts_before(entries, k) <= s
        },
        forall|k: int|
            #![trigger ctts_before(entries, k)]
            i <= k < entries.len() && 1 + ctts_before(entries, k) <= s < 1 + ctts_before(entries, k + 1) && 1
                + ctts_before(entries, k + 1) <= u32::MAX ==> ctts_scan(entries, track_id, s, i, 1 + ctts_before(entries, i))
                == Ok::<(int, u32), Error>((k, (1 + ctts_before(entries, k)) as u32)),
    decreases entries.len() - i,
{
    if i < entries.len() {
        let count = 1 + ctts_before(entries, i);
        let next = count + entries[i].sample_count;
        assert(ctts_before(entries, i + 1) == ctts_before(entries, i) + entries[i].sample_count);
        lemma_ctts_before_grows(entries, 0, i);
        assert(ctts_before(entries, 0) == 0);
        if next <= u32::MAX && s >= next {
            lemma_ctts_runs(entries, track_id, s, i + 1);
            assert(ctts_scan(entries, track_id, s, i, count) == ctts_scan(entries, track_id, s, i + 1, next));
        } else if next <= u32::MAX {
            assert(ctts_scan(entries, track_id, s, i, count) == Ok::<(int, u32), Error>((i, count as u32)));
            assert(count as u32 == count);
        }
        assert forall|k: int|
            #![trigger ctts_before(entries, k)]
            i <= k < entries.len() && 1 + ctts_before(entries, k) <= s < 1 + ctts_before(entries, k + 1) && 1
                + ctts_before(entries, k + 1) <= u32::MAX implies ctts_scan(entries, track_id, s, i, 1 + ctts_before(entries, i))
                == Ok::<(int, u32), Error>((k, (1 + ctts_before(entries, k)) as u32)) by {
            lemma_ctts_before_grows(entries, i + 1, k + 1);
            if k > i {
                lemma_ctts_before_grows(entries, i + 1, k);
            }
        }
    }
}

/// Samples are counted from 1: the composition offset run found for sample
/// `s` is the run `k` whose samples, counted on from the runs before it,
/// hold `s`; the run starts at 1 plus the samples of the runs before, and
/// the sample takes that run's offset. Sample 1 takes the first run's
/// offset whenever that run counts a sample.
pub proof fn law_ctts_run_holds_sample(track: Track, s: u32)
    requires
        track.trak.mdia.minf.stbl.ctts is Some,
    ensures
        ({
            let entries = track.trak.mdia.minf.stbl.ctts->Some_0.entries@;
            &&& track.spec_ctts_index(s) matches Ok((k, first)) ==> {
                &&& 0 <= k < entries.len()
                &&& first == 1 + ctts_before(entries, k)
                &&& s < 1 + ctts_before(entries, k + 1)
                &&& s >= 1 ==> 1 + ctts_before(entries, k) <= s
            }
            &&& forall|k: int|
                #![trigger ctts_before(entries, k)]
                0 <= k < entries.len() && 1 + ctts_before(entries, k) <= s < 1 + ctts_before(entries, k + 1) && 1
                    + ctts_before(entries, k + 1) <= u32::MAX ==> {
                    &&& track.spec_ctts_index(s) == Ok::<(int, u32), Error>((k, (1 + ctts_before(entries, k)) as u32))
                    &&& track.spec_rendering_offset(s) == entries[k].sample_offset
                }
        }),
{
    let entries = track.trak.mdia.minf.stbl.ctts->Some_0.entries@;
    assert(ctts_before(entries, 0) == 0);
    lemma_ctts_runs(entries, track.trak.tkhd.track_id, s, 0);
}

/// From entry `i` on, where the first sample of that entry is `count` and
/// it starts at `elapsed`: the entry that holds sample `s` ends at a time
/// that fits 64 bits. Where it does not, looking a time up in that entry
/// overflows.
pub open spec fn entry_ends_in_time(entries: Seq<stts::Entry>, s: u32, i: int, count: int, elapsed: int) -> bool
    decreases entries.len() - i,
{
    if i < 0 || i >= entries.len() {
        true
    } else {
        let e = entries[i];
        let next = count + e.sample_count;
        if s < next {
            elapsed + e.sample_count * e.sample_delta <= u64::MAX
        } else {
            entry_ends_in_time(entries, s, i + 1, next, elapsed + e.sample_count * e.sample_delta)
        }
    }
}

/// A sample starts no earlier than the entry it is looked for from.
proof fn lemma_start_after(entries: Seq<stts::Entry>, track_id: u32, s: u32, i: int, count: int, elapsed: int)
    requires
        0 <= i,
        stts_scan(entries, track_id, s, i, count, elapsed) is Ok,
    ensures
        stts_scan(entries, track_id, s, i, count, elapsed)->Ok_0.0 >= elapsed,
    decreases entries.len() - i,
{
    let e = entries[i];
    let next = count + e.sample_count;
    if s < next {
        assert((s - count) * e.sample_delta >= 0) by (nonlinear_arith)
            requires
                s >= count,
        ;
    } else {
        assert(e.sample_count * e.sample_delta >= 0) by (nonlinear_arith);
        lemma_start_after(entries, track_id, s, i + 1, next, elapsed + e.sample_count * e.sample_delta);
    }
}

/// Every tick of a sample's span leads back to that sample.
proof fn lemma_span_finds_sample(entries: Seq<stts::Entry>, track_id: u32, s: u32, t: u64, i: int, count: int, elapsed: int)
    requires
        0 <= i,
        0 <= count,
        0 <= elapsed,
        entry_ends_in_time(entries, s, i, count, elapsed),
        stts_scan(entries, track_id, s, i, count, elapsed) is Ok,
        ({
            let (start, duration) = stts_scan(entries, track_id, s, i, count, elapsed)->Ok_0;
            start <= t < start + duration
        }),
    ensures
        time_scan(entries, t, i, count, elapsed) == Some(s),
        ({
            let (start, duration) = stts_scan(entries, track_id, s, i, count, elapsed)->Ok_0;
            start + duration <= u64::MAX + 1
        }),
    decreases entries.len() - i,
{
    let e = entries[i];
    let c = e.sample_count as int;
    let d = e.sample_delta as int;
    let next = count + c;
    let span = e.sample_count * e.sample_delta;
    assert(span == c * d);
    if s < next {
        let j = s - count;
        let start = j * d + elapsed;
        assert(d > 0);
        assert(0 <= j < c);
        assert(start + d <= elapsed + c * d) by (nonlinear_arith)
            requires
                start == j * d + elapsed,
                0 <= j < c,
                d > 0,
        ;
        assert((t - elapsed) / d == j) by (nonlinear_arith)
            requires
                j * d <= t - elapsed < j * d + d,
                d > 0,
        ;
    } else {
        assert(c * d >= 0) by (nonlinear_arith)
            requires
                c >= 0,
                d >= 0,
        ;
        lemma_start_after(entries, track_id, s, i + 1, next, elapsed + span);
        lemma_span_finds_sample(entries, track_id, s, t, i + 1, next, elapsed + span);
    }
}

/// A sample's start leads back to it, and so does its last tick: the
/// sample found for any time in a sample's span is that sample, where the
/// decoding-time entry holding it ends at a time that fits 64 bits.
pub proof fn law_sample_span_finds_sample(track: Track, s: u32)
    requires
        entry_ends_in_time(track.trak.mdia.minf.stbl.stts.entries@, s, 0, 1, 0),
        track.spec_sample_time(s) is Ok,
        track.spec_sample_time(s)->Ok_0.1 > 0,
    ensures
        ({
            let (start, duration) = track.spec_sample_time(s)->Ok_0;
            &&& start + duration - 1 <= u64::MAX
            &&& track.spec_sample_at_time(start) == Some(s)
            &&& track.spec_sample_at_time((start + duration - 1) as u64) == Some(s)
            &&& forall|t: u64| start <= t < start + duration ==> #[trigger] track.spec_sample_at_time(t) == Some(s)
        }),
{
    let entries = track.trak.mdia.minf.stbl.stts.entries@;
    let id = track.trak.tkhd.track_id;
    let (start, duration) = track.spec_sample_time(s)->Ok_0;
    lemma_span_finds_sample(entries, id, s, start, 0, 1, 0);
    lemma_span_finds_sample(entries, id, s, (start + duration - 1) as u64, 0, 1, 0);
    assert forall|t: u64| start <= t < start + duration implies #[trigger] track.spec_sample_at_time(t) == Some(s) by {
        lemma_span_finds_sample(entries, id, s, t, 0, 1, 0);
    }
}

/// The sizes of samples `i` up to `to + 1` are those up to `to` and then
/// the size of sample `to`.
proof fn lemma_sizes_extend(track: Track, acc: int, i: int, to: int)
    requires
        i <= to,
    ensures
        track.spec_sizes_from(acc, i, to + 1) == match track.spec_sizes_from(acc, i, to) {
            Err(e) => Err(e),
            Ok(sum) => match track.spec_sample_size(to as u32) {
                Err(e) => Err(e),
                Ok(z) => if sum + z > u32::MAX {
                    Err(Error::InvalidData("attempt to sum sample sizes with overflow"))
                } else {
                    Ok(sum + z)
                },
            },
        },
    decreases to - i,
{
    if i == to {
        assert(track.spec_sizes_from(acc, i, to) == Ok::<int, Error>(acc));
        if let Ok(z) = track.spec_sample_size(i as u32) {
            if acc + z <= u32::MAX {
                assert(track.spec_sizes_from(acc + z, i + 1, to + 1) == Ok::<int, Error>(acc + z));
            }
        }
    } else {
        match track.spec_sample_size(i as u32) {
            Err(e) => {
                assert(track.spec_sizes_from(acc, i, to) == Err::<int, Error>(e));
                assert(track.spec_sizes_from(acc, i, to + 1) == Err::<int, Error>(e));
            },
            Ok(z) => {
                if acc + z <= u32::MAX {
                    lemma_sizes_extend(track, acc + z, i + 1, to);
                    assert(track.spec_sizes_from(acc, i, to) == track.spec_sizes_from(acc + z, i + 1, to));
                    assert(track.spec_sizes_from(acc, i, to + 1) == track.spec_sizes_from(acc + z, i + 1, to + 1));
                } else {
                    assert(track.spec_sizes_from(acc, i, to) == Err::<int, Error>(
                        Error::InvalidData("attempt to sum sample sizes with overflow"),
                    ));
                }
            },
        }
    }
}

/// A sum of sizes is at least what it starts from.
proof fn lemma_sizes_grow(track: Track, acc: int, i: int, to: int)
    requires
        track.spec_sizes_from(acc, i, to) is Ok,
    ensures
        track.spec_sizes_from(acc, i, to)->Ok_0 >= acc,
    decreases to - i,
{
    if i < to {
        let z = track.spec_sample_size(i as u32)->Ok_0;
        lemma_sizes_grow(track, acc + z, i + 1, to);
    }
}

/// Samples follow one another within a chunk: where two samples in turn lie
/// in the same chunk of the same run, the second starts where the first
/// ends.
pub proof fn law_next_sample_in_chunk(track: Track, s: u32)
    requires
        s < u32::MAX,
        track.spec_sample_offset(s) is Ok,
        track.spec_sample_offset((s + 1) as u32) is Ok,
        spec_stsc_index(track.stbl_entries(), s) == spec_stsc_index(track.stbl_entries(), (s + 1) as u32),
        ({
            let e = track.stbl_entries()[spec_stsc_index(track.stbl_entries(), s)->Ok_0];
            (s - e.first_sample) / (e.samples_per_chunk as int) == (s + 1 - e.first_sample) / (e.samples_per_chunk as int)
        }),
    ensures
        track.spec_sample_size(s) is Ok,
        track.spec_sample_offset((s + 1) as u32)->Ok_0 == track.spec_sample_offset(s)->Ok_0 + track.spec_sample_size(s)->Ok_0,
{
    let entries = track.stbl_entries();
    let idx = spec_stsc_index(entries, s)->Ok_0;
    let e = entries[idx];
    let f = e.first_sample as int;
    let spc = e.samples_per_chunk as int;
    let x1 = s - f;
    let x2 = s + 1 - f;
    vstd::arithmetic::div_mod::lemma_fundamental_div_mod(x1, spc);
    vstd::arithmetic::div_mod::lemma_fundamental_div_mod(x2, spc);
    assert(0 <= x1 % spc < spc);
    assert(0 <= x2 % spc < spc);
    assert(x2 % spc == x1 % spc + 1);
    let first = s - x1 % spc;
    assert(s + 1 - x2 % spc == first);
    let t = (s + 1) as u32;
    assert(t == s + 1);
    let chunk_id = ((s - f) / spc + e.first_chunk) as u32;
    let co = track.spec_chunk_offset(chunk_id)->Ok_0;
    lemma_sizes_extend(track, 0, first, s as int);
    let sum1 = track.spec_sizes_from(0, first, s as int);
    let sum2 = track.spec_sizes_from(0, first, t as int);
    assert(track.spec_sample_offset(s) == Ok::<u64, Error>((co + sum1->Ok_0) as u64));
    assert(track.spec_sample_offset(t) == Ok::<u64, Error>((co + sum2->Ok_0) as u64));
    assert(sum1 is Ok);
    assert(track.spec_sample_size(s) is Ok);
    let z = track.spec_sample_size(s)->Ok_0;
    assert(sum2 == Ok::<int, Error>(sum1->Ok_0 + z));
    lemma_sizes_grow(track, 0, first, s as int);
    assert(co + sum1->Ok_0 <= u64::MAX);
    assert(co + sum2->Ok_0 <= u64::MAX);
    assert(track.spec_sample_offset(t)->Ok_0 == co + sum1->Ok_0 + z);
    assert(track.spec_sample_offset(s)->Ok_0 == co + sum1->Ok_0);
}

} // verus!
