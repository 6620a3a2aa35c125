//! `mp4a` and `esds`: the sample entry of an AAC track and its elementary
//! stream descriptor, down to the AudioSpecificConfig bits.
use vstd::prelude::*;
use crate::fourcc::spec_from_u32;
use crate::mp4::error::Error;
use crate::mp4::stream::{fits, be16, be24, be32, read_u8, read_u16, read_u24, read_u32, read_u64, skip_bytes};
use crate::mp4::atom::{read_header, spec_header, read_full_header, spec_full_header, box_end, spec_overflow, spec_stuck, outcome, dist};
use crate::mp4::atom::constant_name::{ESDS, WAVE};
use crate::types::FixedU16;

verus! {

/// The three AudioSpecificConfig fields a player needs.
#[derive(Debug, Clone, Copy, PartialEq, Eq, Structural)]
pub struct DecoderSpecificDescriptor {
    pub profile: u8,
    pub freq_index: u8,
    pub chan_conf: u8,
}

#[derive(Debug, Clone, Copy, PartialEq, Eq, Structural)]
pub struct SlConfigDescriptor {}

#[derive(Debug, Clone, Copy, PartialEq, Eq, Structural)]
pub struct DecoderConfigDescriptor {
    pub object_type_indication: u8,
    pub stream_type: u8,
    pub up_stream: u8,
    pub buffer_size_db: u32,
    pub max_bitrate: u32,
    pub avg_bitrate: u32,
    pub dec_specific: DecoderSpecificDescriptor,
}

#[derive(Debug, Clone, Copy, PartialEq, Eq, Structural)]
pub struct EsDescriptor {
    pub es_id: u16,
    pub dec_config: DecoderConfigDescriptor,
    pub sl_config: SlConfigDescriptor,
}

#[derive(Debug, Clone, Copy, PartialEq, Eq, Structural)]
pub struct Esds {
    pub version: u8,
    pub flags: u32,
    pub es_desc: EsDescriptor,
}

#[derive(Debug, Clone, Copy, PartialEq, Eq, Structural)]
pub struct Mp4a {
    pub data_reference_index: u16,
    pub channel_count: u16,
    pub sample_size: u16,
    pub sample_rate: FixedU16,
    pub esds: Esds,
}

/// The size of a descriptor: up to four bytes of seven bits each, the top
/// bit of each saying whether another follows. Gives the size and where the
/// descriptor's data starts.
pub open spec fn spec_desc_size(d: Seq<u8>, q: int, k: nat, acc: u32) -> Result<(u32, int), Error>
    decreases 4 - k,
{
    if k >= 4 {
        Ok((acc, q))
    } else if !fits(d, q, 1) {
        Err(Error::Io)
    } else {
        let b = d[q];
        let next = (acc << 7u32) | (b & 0x7F) as u32;
        if b & 0x80 == 0 {
            Ok((next, q + 1))
        } else {
            spec_desc_size(d, q + 1, k + 1, next)
        }
    }
}

pub proof fn lemma_desc_size_advances(d: Seq<u8>, q: int, k: nat, acc: u32)
    ensures
        spec_desc_size(d, q, k, acc) matches Ok((_, r)) ==> r >= q,
    decreases 4 - k,
{
    if k < 4 && fits(d, q, 1) && d[q] & 0x80 != 0 {
        lemma_desc_size_advances(d, q + 1, k + 1, (acc << 7u32) | (d[q] & 0x7F) as u32);
    }
}

pub proof fn lemma_desc_advances(d: Seq<u8>, p: int)
    ensures
        spec_desc(d, p) matches Ok((_, _, q)) ==> q > p,
{
    lemma_desc_size_advances(d, p + 1, 0, 0);
}

/// A descriptor's tag and size, and where its data starts.
pub open spec fn spec_desc(d: Seq<u8>, p: int) -> Result<(u8, u32, int), Error> {
    if !fits(d, p, 1) {
        Err(Error::Io)
    } else {
        match spec_desc_size(d, p + 1, 0, 0) {
            Err(e) => Err(e),
            Ok((s, q)) => Ok((d[p], s, q)),
        }
    }
}

fn read_desc(data: &[u8], pos: &mut u64) -> (r: Result<(u8, u32), Error>)
    ensures
        spec_desc(data@, *old(pos) as int) == match r {
            Ok((t, s)) => Ok((t, s, *final(pos) as int)),
            Err(e) => Err(e),
        },
        r is Ok ==> *final(pos) > *old(pos) + 1,
{
    let tag = read_u8(data, pos)?;
    let ghost q0 = *pos as int;
    let mut size: u32 = 0;
    let mut k: u32 = 0;
    while k < 4
        invariant
            q0 == *old(pos) + 1,
            fits(data@, *old(pos) as int, 1),
            tag == data@[*old(pos) as int],
            k <= 4,
            *pos == q0 + k,
            spec_desc_size(data@, q0, 0, 0) == spec_desc_size(data@, *pos as int, k as nat, size),
        decreases 4 - k,
    {
        let b = read_u8(data, pos)?;
        size = (size << 7u32) | (b & 0x7F) as u32;
        if b & 0x80 == 0 {
            return Ok((tag, size));
        }
        k = k + 1;
    }
    Ok((tag, size))
}

/// The audio object type: five bits, or 32 plus six more when those say 31.
pub open spec fn spec_audio_object_type(a: u8, b: u8) -> u8 {
    if a >> 3u8 == 31 {
        (32 + ((a & 7) | (b >> 5u8))) as u8
    } else {
        a >> 3u8
    }
}

/// The channel configuration, and where it ends: after a 24-bit explicit
/// sampling rate when the index is 15, or in a third byte for the extended
/// profiles.
pub open spec fn spec_chan_conf(d: Seq<u8>, q: int, b: u8, freq_index: u8, extended: bool) -> Result<(u8, int), Error> {
    if freq_index == 15 {
        if !fits(d, q, 3) {
            Err(Error::Io)
        } else {
            Ok((((be24(d, q) >> 4u32) & 0x0F) as u8, q + 3))
        }
    } else if extended {
        if !fits(d, q, 1) {
            Err(Error::Io)
        } else {
            Ok(((b & 1) | (d[q] & 0xE0), q + 1))
        }
    } else {
        Ok(((b >> 3u8) & 0x0F, q))
    }
}

pub open spec fn spec_dec_specific(d: Seq<u8>, p: int) -> Result<(DecoderSpecificDescriptor, int), Error> {
    if !fits(d, p, 2) {
        Err(Error::Io)
    } else {
        let a = d[p];
        let b = d[p + 1];
        let profile = spec_audio_object_type(a, b);
        let extended = profile > 31;
        let freq_index = if extended {
            (b >> 1u8) & 0x0F
        } else {
            (((a & 7) << 1u8) + (b >> 7u8)) as u8
        };
        match spec_chan_conf(d, p + 2, b, freq_index, extended) {
            Err(e) => Err(e),
            Ok((chan_conf, r)) => Ok((DecoderSpecificDescriptor { profile, freq_index, chan_conf }, r)),
        }
    }
}

/// An AudioSpecificConfig read by its bits: of the 16-bit word its first
/// two bytes make, the top five bits are the object type; below 31, the
/// four bits after them are the sampling frequency index, and the four
/// after those the channel configuration, where the index names a rate of
/// the table (is not 15). The config then takes those two bytes.
pub proof fn law_audio_config_bits(d: Seq<u8>, p: int)
    requires
        fits(d, p, 2),
        d[p] / 8 < 31,
    ensures
        ({
            let w = d[p] * 256 + d[p + 1];
            let freq = (w / 128) % 16;
            &&& freq != 15 ==> spec_dec_specific(d, p) == Ok::<(DecoderSpecificDescriptor, int), Error>((
                DecoderSpecificDescriptor { profile: (w / 2048) as u8, freq_index: freq as u8, chan_conf: ((w / 8) % 16) as u8 },
                p + 2,
            ))
            &&& spec_dec_specific(d, p) matches Ok((x, _)) ==> x.profile == w / 2048 && x.freq_index == freq
        }),
{
    let a = d[p];
    let b = d[p + 1];
    assert((a >> 3u8) as int == ((a as u32) * 256 + (b as u32)) / 2048) by (bit_vector);
    assert(((b >> 7u8) + ((a & 7) << 1u8)) as u8 as int == (((a as u32) * 256 + (b as u32)) / 128) % 16) by (bit_vector);
    assert(((b >> 3u8) & 0x0F) as int == (((a as u32) * 256 + (b as u32)) / 8) % 16) by (bit_vector);
    assert((a as u32) * 256 + (b as u32) == a * 256 + b);
}

/// An AudioSpecificConfig whose five-bit object type is 31 carries an
/// extended type of 32 or more, and its sampling frequency index is the
/// four bits just above the lowest bit of the second byte; unless that
/// index is 15, the config takes a third byte and no more.
pub proof fn law_extended_audio_config_bits(d: Seq<u8>, p: int)
    requires
        fits(d, p, 2),
        d[p] / 8 == 31,
    ensures
        ({
            let freq = (d[p + 1] / 2) % 16;
            &&& spec_dec_specific(d, p) matches Ok((x, end)) ==> {
                &&& x.profile >= 32
                &&& x.freq_index == freq
                &&& freq != 15 ==> end == p + 3
            }
            &&& freq != 15 && fits(d, p, 3) ==> spec_dec_specific(d, p) is Ok
        }),
{
    let a = d[p];
    let b = d[p + 1];
    assert((a >> 3u8) as int == a / 8) by (bit_vector);
    assert(((b >> 1u8) & 0x0F) as int == (b / 2) % 16) by (bit_vector);
    assert(((a & 7) | (b >> 5u8)) <= 7) by (bit_vector);
}

impl DecoderSpecificDescriptor {
    /// Reads the AudioSpecificConfig at the position.
    pub fn read(data: &[u8], pos: &mut u64, _size: u32) -> (r: Result<Self, Error>)
        ensures
            spec_dec_specific(data@, *old(pos) as int) == match r {
                Ok(x) => Ok((x, *final(pos) as int)),
                Err(e) => Err(e),
            },
    {
        let byte_a = read_u8(data, pos)?;
        let byte_b = read_u8(data, pos)?;
        let profile = Self::get_audio_object_type(byte_a, byte_b);
        let freq_index;
        let chan_conf;
        if profile > 31 {
            freq_index = (byte_b >> 1u8) & 0x0F;
            chan_conf = Self::get_chan_conf(data, pos, byte_b, freq_index, true)?;
        } else {
            assert(((byte_a & 7) << 1u8) <= 14) by (bit_vector);
            assert((byte_b >> 7u8) <= 1) by (bit_vector);
            freq_index = ((byte_a & 7) << 1u8) + (byte_b >> 7u8);
            chan_conf = Self::get_chan_conf(data, pos, byte_b, freq_index, false)?;
        }
        Ok(DecoderSpecificDescriptor { profile, freq_index, chan_conf })
    }

    fn get_audio_object_type(byte_a: u8, byte_b: u8) -> (r: u8)
        ensures
            r == spec_audio_object_type(byte_a, byte_b),
    {
        let mut profile = byte_a >> 3u8;
        if profile == 31 {
            assert(((byte_a & 7) | (byte_b >> 5u8)) <= 7) by (bit_vector);
            profile = 32 + ((byte_a & 7) | (byte_b >> 5u8));
        }
        profile
    }

    fn get_chan_conf(data: &[u8], pos: &mut u64, byte_b: u8, freq_index: u8, extended_profile: bool) -> (r: Result<u8, Error>)
        ensures
            spec_chan_conf(data@, *old(pos) as int, byte_b, freq_index, extended_profile) == match r {
                Ok(c) => Ok((c, *final(pos) as int)),
                Err(e) => Err(e),
            },
    {
        let chan_conf;
        if freq_index == 15 {
            let sample_rate = read_u24(data, pos)?;
            chan_conf = ((sample_rate >> 4u32) & 0x0F) as u8;
        } else if extended_profile {
            let byte_c = read_u8(data, pos)?;
            chan_conf = (byte_b & 1) | (byte_c & 0xE0);
        } else {
            chan_conf = (byte_b >> 3u8) & 0x0F;
        }
        Ok(chan_conf)
    }
}

impl SlConfigDescriptor {
    /// Reads the one predefined byte of the descriptor.
    pub fn read(data: &[u8], pos: &mut u64, _size: u32) -> (r: Result<Self, Error>)
        ensures
            match r {
                Ok(_) => fits(data@, *old(pos) as int, 1) && *final(pos) == *old(pos) + 1,
                Err(e) => !fits(data@, *old(pos) as int, 1) && e == Error::Io,
            },
    {
        read_u8(data, pos)?;
        Ok(SlConfigDescriptor {})
    }
}

/// The descriptors inside a decoder config from `cur` to `end`: the last
/// decoder-specific one (tag 5), and where the walk stops.
pub open spec fn dcd_walk(d: Seq<u8>, cur: int, end: int) -> Result<(Option<DecoderSpecificDescriptor>, int), Error>
    decreases dist(cur, end),
{
    if cur >= end {
        Ok((None, cur))
    } else {
        match spec_desc(d, cur) {
            Err(e) => Err(e),
            Ok((tag, s, q)) => if tag == 5 {
                match spec_dec_specific(d, q) {
                    Err(e) => Err(e),
                    Ok((x, r)) => if r <= cur {
                        Err(spec_stuck())
                    } else {
                        match dcd_walk(d, r, end) {
                            Err(e) => Err(e),
                            Ok((later, fin)) => Ok((if later is Some { later } else { Some(x) }, fin)),
                        }
                    },
                }
            } else if q + s > u64::MAX {
                Err(Error::Io)
            } else {
                proof {
                    lemma_desc_advances(d, cur);
                }
                dcd_walk(d, q + s, end)
            },
        }
    }
}

/// The decoder config descriptor whose data starts at `p`, and where it ends.
pub open spec fn spec_dec_config(d: Seq<u8>, p: int, size: u32) -> Result<(DecoderConfigDescriptor, int), Error> {
    if !fits(d, p, 13) {
        Err(Error::Io)
    } else if p + size > u64::MAX {
        Err(spec_overflow())
    } else {
        match dcd_walk(d, p + 13, p + size) {
            Err(e) => Err(e),
            Ok((None, _)) => Err(Error::InvalidData("decoder specific descriptor not found")),
            Ok((Some(x), fin)) => Ok((
                DecoderConfigDescriptor {
                    object_type_indication: d[p],
                    stream_type: (d[p + 1] & 0xFC) >> 2u8,
                    up_stream: d[p + 1] & 0x02,
                    buffer_size_db: be24(d, p + 2),
                    max_bitrate: be32(d, p + 5),
                    avg_bitrate: be32(d, p + 9),
                    dec_specific: x,
                },
                fin,
            )),
        }
    }
}

/// Relative seek by a descriptor's size.
fn skip_desc(pos: &mut u64, n: u32) -> (r: Result<(), Error>)
    ensures
        match r {
            Ok(_) => *final(pos) == *old(pos) + n,
            Err(e) => *old(pos) + n > u64::MAX && e == Error::Io,
        },
{
    if *pos > u64::MAX - n as u64 {
        return Err(Error::Io);
    }
    *pos = *pos + n as u64;
    Ok(())
}

impl DecoderConfigDescriptor {
    /// Reads the descriptor whose data, `size` bytes, starts at the position.
    pub fn read(data: &[u8], pos: &mut u64, size: u32) -> (r: Result<Self, Error>)
        ensures
            spec_dec_config(data@, *old(pos) as int, size) == match r {
                Ok(x) => Ok((x, *final(pos) as int)),
                Err(e) => Err(e),
            },
    {
        let start = *pos;
        let object_type_indication = read_u8(data, pos)?;
        let byte_a = read_u8(data, pos)?;
        let stream_type = (byte_a & 0xFC) >> 2u8;
        let up_stream = byte_a & 0x02;
        let buffer_size_db = read_u24(data, pos)?;
        let max_bitrate = read_u32(data, pos)?;
        let avg_bitrate = read_u32(data, pos)?;
        if start > u64::MAX - size as u64 {
            return Err(Error::InvalidData("box extends past the largest stream position"));
        }
        let end = start + size as u64;
        let mut dec_specific: Option<DecoderSpecificDescriptor> = None;
        let ghost c0 = *pos as int;
        while *pos < end
            invariant
                start == *old(pos),
                fits(data@, start as int, 13),
                c0 == start + 13,
                object_type_indication == data@[start as int],
                byte_a == data@[start + 1],
                stream_type == (byte_a & 0xFC) >> 2u8,
                up_stream == byte_a & 0x02,
                buffer_size_db == be24(data@, start + 2),
                max_bitrate == be32(data@, start + 5),
                avg_bitrate == be32(data@, start + 9),
                end == start + size,
                dcd_walk(data@, c0, end as int) == match dcd_walk(data@, *pos as int, end as int) {
                    Err(e) => Err(e),
                    Ok((later, fin)) => Ok((if later is Some { later } else { dec_specific }, fin)),
                },
            decreases dist(*pos as int, end as int),
        {
            let current = *pos;
            let (desc_tag, desc_size) = read_desc(data, pos)?;
            if desc_tag == 0x05 {
                dec_specific = Some(DecoderSpecificDescriptor::read(data, pos, desc_size)?);
                if *pos <= current {
                    return Err(Error::InvalidData("box does not reach past its own header"));
                }
            } else {
                skip_desc(pos, desc_size)?;
            }
        }
        match dec_specific {
            None => Err(Error::InvalidData("decoder specific descriptor not found")),
            Some(dec_specific) => Ok(DecoderConfigDescriptor {
                object_type_indication,
                stream_type,
                up_stream,
                buffer_size_db,
                max_bitrate,
                avg_bitrate,
                dec_specific,
            }),
        }
    }
}

/// The descriptors inside an ES descriptor from `cur` to `end`: the last
/// decoder config (tag 4), whether a sync-layer config (tag 6) came, and
/// where the walk stops.
pub open spec fn es_walk(d: Seq<u8>, cur: int, end: int) -> Result<(Option<DecoderConfigDescriptor>, bool, int), Error>
    decreases dist(cur, end),
{
    if cur >= end {
        Ok((None, false, cur))
    } else {
        match spec_desc(d, cur) {
            Err(e) => Err(e),
            Ok((tag, s, q)) => if tag == 4 {
                match spec_dec_config(d, q, s) {
                    Err(e) => Err(e),
                    Ok((x, r)) => if r <= cur {
                        Err(spec_stuck())
                    } else {
                        match es_walk(d, r, end) {
                            Err(e) => Err(e),
                            Ok((later, sl, fin)) => Ok((if later is Some { later } else { Some(x) }, sl, fin)),
                        }
                    },
                }
            } else if tag == 6 {
                if !fits(d, q, 1) {
                    Err(Error::Io)
                } else {
                    proof {
                        lemma_desc_advances(d, cur);
                    }
                    match es_walk(d, q + 1, end) {
                        Err(e) => Err(e),
                        Ok((dc, _, fin)) => Ok((dc, true, fin)),
                    }
                }
            } else if q + s > u64::MAX {
                Err(Error::Io)
            } else {
                proof {
                    lemma_desc_advances(d, cur);
                }
                es_walk(d, q + s, end)
            },
        }
    }
}

/// The ES descriptor whose data, `size` bytes, starts at `p`, and where it
/// ends.
pub open spec fn spec_es_desc(d: Seq<u8>, p: int, size: u32) -> Result<(EsDescriptor, int), Error> {
    if !fits(d, p, 3) {
        Err(Error::Io)
    } else if p + size > u64::MAX {
        Err(spec_overflow())
    } else {
        match es_walk(d, p + 3, p + size) {
            Err(e) => Err(e),
            Ok((None, _, _)) => Err(Error::InvalidData("decoder config descriptor not found")),
            Ok((Some(_), false, _)) => Err(Error::InvalidData("sl config descriptor not found")),
            Ok((Some(x), true, fin)) => Ok((
                EsDescriptor { es_id: be16(d, p), dec_config: x, sl_config: SlConfigDescriptor {} },
                fin,
            )),
        }
    }
}

impl EsDescriptor {
    /// Reads the descriptor whose data, `size` bytes, starts at the position.
    pub fn read(data: &[u8], pos: &mut u64, size: u32) -> (r: Result<Self, Error>)
        ensures
            spec_es_desc(data@, *old(pos) as int, size) == match r {
                Ok(x) => Ok((x, *final(pos) as int)),
                Err(e) => Err(e),
            },
    {
        let start = *pos;
        let es_id = read_u16(data, pos)?;
        read_u8(data, pos)?;  // flags
        if start > u64::MAX - size as u64 {
            return Err(Error::InvalidData("box extends past the largest stream position"));
        }
        let end = start + size as u64;
        let mut dec_config: Option<DecoderConfigDescriptor> = None;
        let mut sl_config: Option<SlConfigDescriptor> = None;
        let ghost c0 = *pos as int;
        while *pos < end
            invariant
                start == *old(pos),
                fits(data@, start as int, 3),
                es_id == be16(data@, start as int),
                c0 == start + 3,
                end == start + size,
                es_walk(data@, c0, end as int) == match es_walk(data@, *pos as int, end as int) {
                    Err(e) => Err(e),
                    Ok((later, sl, fin)) => Ok((if later is Some { later } else { dec_config }, sl || sl_config is Some, fin)),
                },
            decreases dist(*pos as int, end as int),
        {
            let current = *pos;
            let (desc_tag, desc_size) = read_desc(data, pos)?;
            if desc_tag == 0x04 {
                dec_config = Some(DecoderConfigDescriptor::read(data, pos, desc_size)?);
                if *pos <= current {
                    return Err(Error::InvalidData("box does not reach past its own header"));
                }
            } else if desc_tag == 0x06 {
                sl_config = Some(SlConfigDescriptor::read(data, pos, desc_size)?);
            } else {
                skip_desc(pos, desc_size)?;
            }
        }
        match (dec_config, sl_config) {
            (None, _) => Err(Error::InvalidData("decoder config descriptor not found")),
            (Some(_), None) => Err(Error::InvalidData("sl config descriptor not found")),
            (Some(dec_config), Some(sl_config)) => Ok(EsDescriptor { es_id, dec_config, sl_config }),
        }
    }
}

/// The descriptors of an `esds` box from `cur` to `end`: the last ES
/// descriptor (tag 3) before anything else.
pub open spec fn esds_walk(d: Seq<u8>, cur: int, end: int) -> Result<Option<EsDescriptor>, Error>
    decreases dist(cur, end),
{
    if cur >= end {
        Ok(None)
    } else {
        match spec_desc(d, cur) {
            Err(e) => Err(e),
            Ok((tag, s, q)) => if tag == 3 {
                match spec_es_desc(d, q, s) {
                    Err(e) => Err(e),
                    Ok((x, r)) => if r <= cur {
                        Err(spec_stuck())
                    } else {
                        match esds_walk(d, r, end) {
                            Err(e) => Err(e),
                            Ok(later) => Ok(if later is Some { later } else { Some(x) }),
                        }
                    },
                }
            } else {
                Ok(None)
            },
        }
    }
}

pub open spec fn spec_esds(d: Seq<u8>, p: int, size: u64) -> Result<Esds, Error> {
    match spec_full_header(d, p) {
        Err(e) => Err(e),
        Ok(fh) => if p - 8 + size > u64::MAX {
            Err(spec_overflow())
        } else {
            match esds_walk(d, p + 4, p - 8 + size) {
                Err(e) => Err(e),
                Ok(None) => Err(Error::InvalidData("ESDescriptor not found")),
                Ok(Some(x)) => Ok(Esds { version: fh.version, flags: fh.flags, es_desc: x }),
            }
        },
    }
}

/// Walks the descriptors from the position to `end`, keeping the last
/// `ES_Descriptor` and stopping at the first descriptor of another tag.
fn scan_es_descs(data: &[u8], pos: &mut u64, end: u64) -> (r: Result<Option<EsDescriptor>, Error>)
    requires
        *old(pos) >= 8,
    ensures
        r == esds_walk(data@, *old(pos) as int, end as int),
{
    let mut es_desc: Option<EsDescriptor> = None;
    let ghost c0 = *pos as int;
    loop
        invariant
            *pos >= 8,
            c0 == *old(pos),
            esds_walk(data@, c0, end as int) == match esds_walk(data@, *pos as int, end as int) {
                Err(e) => Err(e),
                Ok(later) => Ok(if later is Some { later } else { es_desc }),
            },
        decreases dist(*pos as int, end as int),
    {
        let current = *pos;
        if current >= end {
            return Ok(es_desc);
        }
        let (desc_tag, desc_size) = read_desc(data, pos)?;
        if desc_tag == 0x03 {
            es_desc = Some(EsDescriptor::read(data, pos, desc_size)?);
            if *pos <= current {
                return Err(Error::InvalidData("box does not reach past its own header"));
            }
        } else {
            return Ok(es_desc);
        }
    }
}

impl Esds {
    /// Reads the box whose data starts at the position, and moves to its end.
    pub fn read(data: &[u8], pos: &mut u64, size: u64) -> (r: Result<Self, Error>)
        requires
            *old(pos) >= 8,
        ensures
            r == spec_esds(data@, *old(pos) as int, size),
            r is Ok ==> *final(pos) == *old(pos) - 8 + size,
    {
        let p0 = *pos;
        let full_header = read_full_header(data, pos)?;
        let end = box_end(p0, size)?;
        let es_desc = scan_es_descs(data, pos, end)?;
        match es_desc {
            None => Err(Error::InvalidData("ESDescriptor not found")),
            Some(es_desc) => {
                *pos = end;
                Ok(Esds { version: full_header.version, flags: full_header.flags, es_desc })
            },
        }
    }
}

/// Looks for the `esds` child from `cur` on, looking inside a `wave` child
/// rather than past it, and passing over the others.
pub open spec fn mp4a_search(d: Seq<u8>, cur: int, end: int, size: u64) -> Result<Option<(int, u64)>, Error>
    decreases dist(cur, end),
{
    if cur >= end {
        Ok(None)
    } else {
        match spec_header(d, cur) {
            Err(e) => Err(e),
            Ok((h, q)) => if h.size > size {
                Err(Error::InvalidData("mp4a box contains a box with a larger size than it"))
            } else if h.name.spec_value() == ESDS {
                Ok(Some((q, h.size)))
            } else if h.name.spec_value() == WAVE {
                if q <= cur {
                    Err(spec_stuck())
                } else {
                    mp4a_search(d, q, end, size)
                }
            } else if cur + h.size > u64::MAX {
                Err(spec_overflow())
            } else if h.size == 0 {
                Err(spec_stuck())
            } else {
                mp4a_search(d, cur + h.size, end, size)
            },
        }
    }
}

/// Bytes of the fixed fields: 16 more in a version 1 (QuickTime) entry.
pub open spec fn mp4a_fixed(d: Seq<u8>, p: int) -> int {
    if be16(d, p + 8) == 1 {
        44
    } else {
        28
    }
}

pub open spec fn spec_mp4a(d: Seq<u8>, p: int, size: u64) -> Result<Mp4a, Error> {
    if !fits(d, p, 28) {
        Err(Error::Io)
    } else if !fits(d, p, mp4a_fixed(d, p)) {
        Err(Error::Io)
    } else if p - 8 + size > u64::MAX {
        Err(spec_overflow())
    } else {
        match mp4a_search(d, p + mp4a_fixed(d, p), p - 8 + size, size) {
            Err(e) => Err(e),
            Ok(None) => Err(Error::AtomNotFound(spec_from_u32(ESDS))),
            Ok(Some((q, s))) => match spec_esds(d, q, s) {
                Err(e) => Err(e),
                Ok(esds) => Ok(
                    Mp4a {
                        data_reference_index: be16(d, p + 6),
                        channel_count: be16(d, p + 16),
                        sample_size: be16(d, p + 18),
                        sample_rate: FixedU16(be32(d, p + 24)),
                        esds,
                    },
                ),
            },
        }
    }
}

pub open spec fn mp4a_res(d: Seq<u8>, p: int, size: u64) -> Result<(), Error> {
    match spec_mp4a(d, p, size) {
        Ok(_) => Ok(()),
        Err(e) => Err(e),
    }
}

pub open spec fn mp4a_rel(d: Seq<u8>, p: int, size: u64, x: Mp4a) -> bool {
    spec_mp4a(d, p, size) == Ok::<Mp4a, Error>(x)
}

/// Walks the children from the position to `end` until the `esds` one.
fn find_esds(data: &[u8], pos: &mut u64, end: u64, size: u64) -> (r: Result<Option<(u64, u64)>, Error>)
    ensures
        mp4a_search(data@, *old(pos) as int, end as int, size) == match r {
            Ok(Some((q, s))) => Ok(Some((q as int, s))),
            Ok(None) => Ok(None),
            Err(e) => Err(e),
        },
        r matches Ok(Some((q, _))) ==> q >= 8,
{
    let ghost p = *pos as int;
    loop
        invariant
            p == *old(pos),
            mp4a_search(data@, p, end as int, size) == mp4a_search(data@, *pos as int, end as int, size),
        decreases dist(*pos as int, end as int),
    {
        let current = *pos;
        if current >= end {
            return Ok(None);
        }
        let header = read_header(data, pos)?;
        if header.size > size {
            return Err(Error::InvalidData("mp4a box contains a box with a larger size than it"));
        }
        let name = header.name.value();
        if name == ESDS {
            return Ok(Some((*pos, header.size)));
        } else if name == WAVE {
            // Holds frma, mp4a, esds and a terminator: looked inside, not past.
            if *pos <= current {
                return Err(Error::InvalidData("box does not reach past its own header"));
            }
        } else {
            if current > u64::MAX - header.size {
                return Err(Error::InvalidData("box extends past the largest stream position"));
            }
            if header.size == 0 {
                return Err(Error::InvalidData("box does not reach past its own header"));
            }
            *pos = current + header.size;
        }
    }
}

impl Mp4a {
    /// Reads the box whose data starts at the position, and moves to its end.
    pub fn read(data: &[u8], pos: &mut u64, size: u64) -> (r: Result<Self, Error>)
        requires
            *old(pos) >= 8,
        ensures
            outcome(r, mp4a_res(data@, *old(pos) as int, size), |x: Mp4a| mp4a_rel(data@, *old(pos) as int, size, x)),
            r is Ok ==> *final(pos) == *old(pos) - 8 + size,
    {
        let p0 = *pos;
        read_u32(data, pos)?;  // reserved
        read_u16(data, pos)?;  // reserved
        let data_reference_index = read_u16(data, pos)?;
        let version = read_u16(data, pos)?;
        read_u16(data, pos)?;  // reserved
        read_u32(data, pos)?;  // reserved
        let channel_count = read_u16(data, pos)?;
        let sample_size = read_u16(data, pos)?;
        read_u32(data, pos)?;  // pre-defined, reserved
        let sample_rate = FixedU16::from_raw(read_u32(data, pos)?);
        if version == 1 {
            // QuickTime sound description, version 1
            read_u64(data, pos)?;
            read_u64(data, pos)?;
        }
        let end = box_end(p0, size)?;
        let found = find_esds(data, pos, end, size)?;
        match found {
            None => Err(Error::AtomNotFound(crate::fourcc::FourCC::from_u32(ESDS))),
            Some((q, s)) => {
                *pos = q;
                let esds = Esds::read(data, pos, s)?;
                *pos = end;
                Ok(Mp4a { data_reference_index, channel_count, sample_size, sample_rate, esds })
            },
        }
    }
}

} // verus!
