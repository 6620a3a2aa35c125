//! What the media file source works out for the file it plays: the codec it
//! announces with the decoder setup, the conversions between a track's time
//! and microseconds, and where playback stands between rounds.
use vstd::prelude::*;
use vstd::string::StringSliceAdditionalSpecFns;
use crate::codec::Codec;
use crate::nalu::{Nalu, nalu_views, annexb_join, start_code, lemma_annexb_join_push};

verus! {

/// Appends each unit after a four-byte start code.
fn append_annexb(out: &mut Vec<u8>, units: &Vec<Nalu>)
    ensures
        final(out)@ == old(out)@ + annexb_join(nalu_views(units@)),
{
    let ghost start = out@;
    let mut i: usize = 0;
    while i < units.len()
        invariant
            i <= units@.len(),
            out@ == start + annexb_join(nalu_views(units@.take(i as int))),
        decreases units@.len() - i,
    {
        let ghost before = out@;
        let unit = units[i].as_bytes();
        out.push(0);
        out.push(0);
        out.push(0);
        out.push(1);
        let mut k: usize = 0;
        while k < unit.len()
            invariant
                k <= unit@.len(),
                out@ == before + start_code() + unit@.take(k as int),
            decreases unit@.len() - k,
        {
            out.push(unit[k]);
            proof {
                assert(unit@.take(k + 1) =~= unit@.take(k as int).push(unit@[k as int]));
            }
            k = k + 1;
        }
        proof {
            assert(unit@.take(k as int) =~= unit@);
            let done = nalu_views(units@.take(i as int));
            assert(nalu_views(units@.take(i + 1)) =~= done.push(units@[i as int]@));
            lemma_annexb_join_push(done, units@[i as int]@);
            assert(out@ =~= start + annexb_join(nalu_views(units@.take(i + 1))));
        }
        i = i + 1;
    }
    proof {
        assert(units@.take(units@.len() as int) =~= units@);
    }
}

/// Whether the source plays a file with this extension: an MP4 file, whose
/// extension is `mp4` exactly (the bytes 0x6d, 0x70, 0x34).
pub fn plays_extension(extension: Option<&str>) -> (r: bool)
    ensures
        r == (extension matches Some(e) && e.spec_bytes() == seq![0x6du8, 0x70u8, 0x34u8]),
{
    match extension {
        None => false,
        Some(e) => {
            let b = e.as_bytes();
            let r = b.len() == 3 && b[0] == 0x6d && b[1] == 0x70 && b[2] == 0x34;
            proof {
                if r {
                    assert(b@ =~= seq![0x6du8, 0x70u8, 0x34u8]);
                }
            }
            r
        },
    }
}

/// The codec name the source announces, and the parameter sets that go
/// with it in Annex-B: for H.264 the sequence then the picture parameter
/// sets, for H.265 the video, sequence and picture ones. None for a codec the
/// source does not stream.
pub fn announcement(codec: &Codec) -> (r: Option<(&'static str, Vec<u8>)>)
    ensures
        match codec {
            Codec::H264(p) => r matches Some((name, extras)) && name@ == "h264"@ && extras@ == annexb_join(
                nalu_views(p.sps@),
            ) + annexb_join(nalu_views(p.pps@)),
            Codec::H265(p) => r matches Some((name, extras)) && name@ == "h265"@ && extras@ == annexb_join(
                nalu_views(p.vps@),
            ) + annexb_join(nalu_views(p.sps@)) + annexb_join(nalu_views(p.pps@)),
            _ => r is None,
        },
{
    match codec {
        Codec::H264(params) => {
            let mut extras: Vec<u8> = Vec::new();
            append_annexb(&mut extras, &params.sps);
            append_annexb(&mut extras, &params.pps);
            Some(("h264", extras))
        },
        Codec::H265(params) => {
            let mut extras: Vec<u8> = Vec::new();
            append_annexb(&mut extras, &params.vps);
            append_annexb(&mut extras, &params.sps);
            append_annexb(&mut extras, &params.pps);
            Some(("h265", extras))
        },
        _ => None,
    }
}

/// A time in units of `timescale` per second, in microseconds, rounded
/// down; 0 without a timescale.
pub fn micros(time: u64, timescale: u32) -> (r: u64)
    requires
        timescale > 0 ==> time * 1_000_000 <= u64::MAX,
    ensures
        r == (if timescale > 0 {
            time * 1_000_000 / timescale as int
        } else {
            0
        }),
{
    if timescale > 0 {
        time * 1_000_000 / timescale as u64
    } else {
        0
    }
}

/// A time in microseconds, in units of `timescale` per second, rounded down.
pub fn media_time(micros: u64, timescale: u32) -> (r: u64)
    requires
        micros * timescale <= u64::MAX,
    ensures
        r == micros * timescale / 1_000_000,
{
    micros * timescale as u64 / 1_000_000
}


/// What the source does once its file has no sample left.
#[derive(Debug, Clone, Copy, PartialEq, Eq, Structural)]
pub enum AtEnd {
    /// Looping: back to the first sample, with the clock restarted.
    Rewind,
    /// The end is reached for the first time: say so, once.
    Announce,
    /// The end was already reported; the source keeps spinning quietly.
    Quiet,
}

/// Where playback stands between the source's rounds: what the host polls,
/// and the media time that pacing is measured from.
#[derive(Debug, Clone, Copy, PartialEq, Eq, Structural)]
pub struct Playback {
    /// Samples read since the file was opened.
    pub samples: u64,
    /// Whether the end was already reported.
    pub ended: bool,
    /// Where playback has reached, in microseconds.
    pub position: u64,
    /// How long the file is, in microseconds.
    pub duration: u64,
    /// Whether the end of the file starts it over.
    pub looping: bool,
    /// The media time pacing is measured from; none until the next sample
    /// restarts the clock.
    pub anchor_time: Option<u64>,
}

/// What the end of the file does to playback, and what the source does
/// about it.
pub open spec fn end_of(p: Playback) -> (Playback, AtEnd) {
    if p.looping {
        (Playback { anchor_time: None, position: 0, ..p }, AtEnd::Rewind)
    } else if !p.ended {
        (Playback { ended: true, ..p }, AtEnd::Announce)
    } else {
        (p, AtEnd::Quiet)
    }
}

/// Playback after a seek to `micros`, the clock restarted at `time`.
pub open spec fn seeked_to(p: Playback, micros: u64, time: u64) -> Playback {
    Playback { ended: false, position: micros, anchor_time: Some(time), ..p }
}

impl Playback {
    /// Nothing played yet, in real time, not looping.
    pub fn new() -> (r: Self)
        ensures
            r == (Playback { samples: 0, ended: false, position: 0, duration: 0, looping: false, anchor_time: None }),
    {
        Playback { samples: 0, ended: false, position: 0, duration: 0, looping: false, anchor_time: None }
    }

    /// A file is being opened: nothing read of it yet, and the clock
    /// restarts with its first sample. Its duration is known once it opens.
    pub fn reset(&mut self)
        ensures
            *final(self) == (Playback { samples: 0, ended: false, position: 0, anchor_time: None, ..*old(self) }),
    {
        self.samples = 0;
        self.ended = false;
        self.position = 0;
        self.anchor_time = None;
    }

    /// The file opened, `duration` microseconds long.
    pub fn opened(&mut self, duration: u64)
        ensures
            *final(self) == (Playback { duration, ..*old(self) }),
    {
        self.duration = duration;
    }

    /// A sample was read, starting `position` microseconds in. Returns how
    /// many have been read since the file was opened.
    pub fn sample_read(&mut self, position: u64) -> (r: u64)
        ensures
            r == old(self).samples.wrapping_add(1),
            *final(self) == (Playback { samples: r, position, ..*old(self) }),
    {
        self.samples = self.samples.wrapping_add(1);
        self.position = position;
        self.samples
    }

    /// The end of the file: start over when looping, otherwise say so once
    /// and go quiet.
    pub fn at_end(&mut self) -> (r: AtEnd)
        ensures
            (*final(self), r) == end_of(*old(self)),
    {
        if self.looping {
            self.anchor_time = None;
            self.position = 0;
            return AtEnd::Rewind;
        }
        if !self.ended {
            self.ended = true;
            return AtEnd::Announce;
        }
        AtEnd::Quiet
    }

    /// Playback moved to `micros`, the sample at media time `time`: the end
    /// may come again, and pacing restarts from there.
    pub fn seeked(&mut self, micros: u64, time: u64)
        ensures
            *final(self) == seeked_to(*old(self), micros, time),
    {
        self.ended = false;
        self.position = micros;
        self.anchor_time = Some(time);
    }

    /// Pacing restarts with the next sample, as after a change of speed.
    pub fn unanchor(&mut self)
        ensures
            *final(self) == (Playback { anchor_time: None, ..*old(self) }),
    {
        self.anchor_time = None;
    }

    /// Pacing is measured from media time `time` on.
    pub fn anchor_at(&mut self, time: u64)
        ensures
            *final(self) == (Playback { anchor_time: Some(time), ..*old(self) }),
    {
        self.anchor_time = Some(time);
    }

    pub fn set_looping(&mut self, looping: bool)
        ensures
            *final(self) == (Playback { looping, ..*old(self) }),
    {
        self.looping = looping;
    }
}

/// Without looping, the end of the file is reported once: reaching it
/// again says nothing and changes nothing.
pub proof fn law_end_reported_once(p: Playback)
    requires
        !p.looping,
    ensures
        end_of(end_of(p).0).1 == AtEnd::Quiet,
        end_of(end_of(p).0).0 == end_of(p).0,
        end_of(p).1 == AtEnd::Quiet <==> p.ended,
{
}

/// A seek makes the end reportable again.
pub proof fn law_seek_rearms_the_end(p: Playback, micros: u64, time: u64)
    requires
        !p.looping,
    ensures
        end_of(seeked_to(p, micros, time)).1 == AtEnd::Announce,
{
}

/// A looping source never reports the end: it starts over from the first
/// sample every time.
pub proof fn law_looping_never_ends(p: Playback)
    requires
        p.looping,
    ensures
        end_of(p).1 == AtEnd::Rewind,
        end_of(p).0.looping,
        end_of(p).0.position == 0,
        end_of(p).0.ended == p.ended,
{
}


/// The source's settings, by field: the file to play, the speed, whether
/// to loop, and where to seek to.
#[derive(Debug, Clone, Copy, PartialEq, Eq, Structural)]
pub enum Setting {
    Path,
    Rate,
    Loop,
    Seek,
}

impl Setting {
    /// The setting field `field` sets; none for a field the source ignores.
    pub fn of(field: usize) -> (r: Option<Setting>)
        ensures
            r == (if field == 0 {
                Some(Setting::Path)
            } else if field == 1 {
                Some(Setting::Rate)
            } else if field == 2 {
                Some(Setting::Loop)
            } else if field == 3 {
                Some(Setting::Seek)
            } else {
                None::<Setting>
            }),
    {
        match field {
            0 => Some(Setting::Path),
            1 => Some(Setting::Rate),
            2 => Some(Setting::Loop),
            3 => Some(Setting::Seek),
            _ => None,
        }
    }
}

} // verus!
