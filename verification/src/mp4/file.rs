//! An MP4 file held whole, and where playback of its video track stands:
//! the sample to read next, peeked at before it is read.
use vstd::prelude::*;
use std::collections::HashMap;
use bytes::Bytes;
use vstd::std_specs::iter::IteratorSpec;
use crate::codec::Codec;
use crate::file::{Sample, SampleInfo};
use crate::mp4::{Reader, reader_res, reader_rel};
use crate::mp4::error::Error;
use crate::mp4::track::{Track, TrackType, spec_track_type, codec_matches, sorted};
use crate::shared_bytes::{bytes_view, bytes_len, bytes_as_slice};

verus! {

broadcast use vstd::std_specs::hash::group_hash_axioms;

/// Whether a track carries video.
pub open spec fn is_video(t: Track) -> bool {
    spec_track_type(t.trak.mdia.hdlr.handler_type.spec_value()) == Ok::<TrackType, Error>(TrackType::Video)
}

/// Whether none of the tracks carries video.
pub open spec fn no_video(tracks: Map<u32, Track>) -> bool {
    forall|id: u32| #[trigger] tracks.contains_key(id) ==> !is_video(tracks[id])
}

/// Whether a track's samples are read straight into place: without length
/// prefixes, or with 4-byte ones, where Annex-B takes the same room.
pub open spec fn in_place(t: Track) -> bool {
    match t.spec_nalu_length_size() {
        None => true,
        Some(n) => n == 4,
    }
}

/// A sample id, but never before the first sample.
pub open spec fn at_least_one(id: u32) -> u32 {
    if id == 0 {
        1
    } else {
        id
    }
}

/// What peeking answers, and what it keeps converted, given what reading
/// the sample whole gave.
pub open spec fn peeked(read: Result<Option<Sample>, Error>, r: Result<Option<SampleInfo>, Error>, kept: Option<Seq<u8>>) -> bool {
    match read {
        Err(e) => r == Err::<Option<SampleInfo>, Error>(e) && kept is None,
        Ok(None) => r == Ok::<Option<SampleInfo>, Error>(None) && kept is None,
        Ok(Some(s)) => kept == Some(bytes_view(s.bytes)) && r == Ok::<Option<SampleInfo>, Error>(
            Some(
                SampleInfo {
                    start_time: s.start_time,
                    duration: s.duration,
                    rendering_offset: s.rendering_offset,
                    is_sync: s.is_sync,
                    size: bytes_view(s.bytes).len() as usize,
                },
            ),
        ),
    }
}

/// An MP4 file held whole, its video track, and the sample to read next.
pub struct File {
    data: Vec<u8>,
    reader: Reader,
    video_track_id: u32,
    current_sample_id: u32,
    /// Only for prefixes shorter than 4 bytes, where Annex-B does not fit
    /// where AVCC was.
    converted: Option<Bytes>,
}

impl File {
    #[verifier::type_invariant]
    closed spec fn video_known(self) -> bool {
        self.reader.spec_tracks().contains_key(self.video_track_id)
    }

    pub closed spec fn spec_data(&self) -> Seq<u8> {
        self.data@
    }

    pub closed spec fn spec_reader(&self) -> Reader {
        self.reader
    }

    pub closed spec fn spec_track_id(&self) -> u32 {
        self.video_track_id
    }

    /// The sample to read next, counted from 1.
    pub closed spec fn spec_current(&self) -> u32 {
        self.current_sample_id
    }

    /// The next sample, converted already, where it had to be.
    pub closed spec fn spec_converted(&self) -> Option<Seq<u8>> {
        match self.converted {
            Some(b) => Some(bytes_view(b)),
            None => None,
        }
    }

    /// The video track.
    pub closed spec fn spec_track(&self) -> Track {
        self.reader.spec_tracks()[self.video_track_id]
    }

    /// Everything but the sample to read next and what is converted of it.
    pub open spec fn same_file(&self, other: &File) -> bool {
        &&& self.spec_data() == other.spec_data()
        &&& self.spec_reader() == other.spec_reader()
        &&& self.spec_track_id() == other.spec_track_id()
        &&& self.spec_track() == other.spec_track()
    }
}

/// Whether `track` carries video.
fn is_video_track(track: &Track) -> (r: bool)
    ensures
        r == is_video(*track),
{
    match track.track_type() {
        Ok(TrackType::Video) => true,
        _ => false,
    }
}

/// The ids a map of tracks is keyed by, each once.
fn track_ids(m: &HashMap<u32, Track>) -> (r: Vec<u32>)
    ensures
        r@.to_set() == m@.dom(),
        r@.no_duplicates(),
{
    let ghost ks = vstd::std_specs::hash::spec_keys_iter(m).remaining();
    let mut out: Vec<u32> = Vec::new();
    for k in it: m.keys()
        invariant
            it.seq() == ks,
            out@ == ks.take(it.index()).map_values(|x: &u32| *x),
    {
        out.push(*k);
        proof {
            assert(ks.take(it.index() + 1) =~= ks.take(it.index()).push(ks[it.index()]));
        }
    }
    proof {
        assert(ks.take(ks.len() as int) =~= ks);
        assert(ks.unref() =~= out@);
    }
    out
}

/// A track of `tracks` that carries video, if one does; which one, where
/// there are several, depends on the order the map is walked in.
fn find_video(tracks: &HashMap<u32, Track>) -> (r: Option<u32>)
    ensures
        match r {
            Some(id) => tracks@.contains_key(id) && is_video(tracks@[id]),
            None => no_video(tracks@),
        },
{
    let ids = track_ids(tracks);
    let mut i: usize = 0;
    while i < ids.len()
        invariant
            i <= ids@.len(),
            ids@.to_set() == tracks@.dom(),
            forall|j: int| 0 <= j < i ==> !is_video(#[trigger] tracks@[ids@[j]]),
        decreases ids@.len() - i,
    {
        let id = ids[i];
        proof {
            assert(ids@.to_set().contains(id));
        }
        let video = match tracks.get(&id) {
            Some(track) => is_video_track(track),
            None => false,
        };
        if video {
            return Some(id);
        }
        i = i + 1;
    }
    proof {
        assert forall|id: u32| #[trigger] tracks@.contains_key(id) implies !is_video(tracks@[id]) by {
            assert(ids@.to_set().contains(id));
            let j = choose|j: int| 0 <= j < ids@.len() && ids@[j] == id;
            assert(!is_video(tracks@[ids@[j]]));
        }
    }
    None
}

impl File {
    /// Reads the file `data` holds and picks a video track of it, to be
    /// played from its first sample. Which one, where there are several,
    /// depends on the order the tracks are walked in.
    pub fn from_data(data: Vec<u8>) -> (r: Result<File, Error>)
        ensures
            match r {
                Ok(f) => {
                    &&& reader_res(data@, data@.len() as u64) is Ok
                    &&& reader_rel(data@, data@.len() as u64, f.spec_reader())
                    &&& f.spec_data() == data@
                    &&& f.spec_reader().spec_tracks().contains_key(f.spec_track_id())
                    &&& f.spec_track() == f.spec_reader().spec_tracks()[f.spec_track_id()]
                    &&& is_video(f.spec_track())
                    &&& f.spec_current() == 1
                    &&& f.spec_converted() is None
                },
                Err(e) => reader_res(data@, data@.len() as u64) == Err::<(), Error>(e) || {
                    &&& reader_res(data@, data@.len() as u64) is Ok
                    &&& e == Error::InvalidData("video track not found")
                    &&& exists|x: Reader| #[trigger] reader_rel(data@, data@.len() as u64, x) && no_video(x.spec_tracks())
                },
            },
    {
        let size = data.len() as u64;
        let reader = match Reader::read(data.as_slice(), size) {
            Ok(reader) => reader,
            Err(e) => {
                return Err(e);
            },
        };
        match find_video(reader.tracks()) {
            Some(id) => Ok(File { data, reader, video_track_id: id, current_sample_id: 1, converted: None }),
            None => {
                proof {
                    assert(reader_rel(data@, data@.len() as u64, reader));
                }
                Err(Error::InvalidData("video track not found"))
            },
        }
    }

    /// The video track's codec, with what its decoder needs.
    pub fn codec(&self) -> (r: Result<Codec, Error>)
        ensures
            codec_matches(self.spec_track().stsd(), r),
    {
        proof {
            use_type_invariant(self);
        }
        match self.reader.tracks().get(&self.video_track_id) {
            Some(track) => track.media_format(),
            None => Err(Error::TrakNotFound(self.video_track_id)),
        }
    }

    /// Units per second that the video track's times are counted in.
    pub fn timescale(&self) -> (r: u32)
        ensures
            r == self.spec_track().trak.mdia.mdhd.timescale,
    {
        proof {
            use_type_invariant(self);
        }
        match self.reader.tracks().get(&self.video_track_id) {
            Some(track) => track.timescale(),
            None => 0,
        }
    }

    /// The video track's length, in its timescale's units.
    pub fn duration(&self) -> (r: Option<u64>)
        ensures
            r == Some(self.spec_track().trak.mdia.mdhd.duration),
    {
        proof {
            use_type_invariant(self);
        }
        match self.reader.tracks().get(&self.video_track_id) {
            Some(track) => Some(track.media_duration()),
            None => None,
        }
    }

    /// What the next sample is, before it is read. Where the track's
    /// prefixes are shorter than 4 bytes, the sample grows on its way to
    /// Annex-B, so it is read and converted here, kept for the read that
    /// follows, and its converted size told; otherwise the index alone says.
    pub fn peek_sample(&mut self) -> (r: Result<Option<SampleInfo>, Error>)
        ensures
            final(self).same_file(old(self)),
            final(self).spec_current() == old(self).spec_current(),
            if in_place(old(self).spec_track()) || old(self).spec_converted() is Some {
                &&& old(self).spec_track().info_of(old(self).spec_current(), r)
                &&& final(self).spec_converted() == old(self).spec_converted()
            } else {
                exists|read: Result<Option<Sample>, Error>|
                    old(self).spec_track().sample_read(old(self).spec_data(), old(self).spec_current(), read)
                    && peeked(read, r, final(self).spec_converted())
            },
    {
        proof {
            use_type_invariant(&*self);
        }
        let in_place = self.reader.reads_in_place(self.video_track_id);
        if in_place || self.converted.is_some() {
            return self.reader.sample_info(self.video_track_id, self.current_sample_id);
        }
        let read = match self.reader.tracks().get(&self.video_track_id) {
            Some(track) => track.read_sample(self.data.as_slice(), self.current_sample_id),
            None => Err(Error::TrakNotFound(self.video_track_id)),
        };
        let ghost whole_read = read;
        match read {
            Err(e) => {
                proof {
                    assert(peeked(whole_read, Err(e), self.spec_converted()));
                }
                Err(e)
            },
            Ok(None) => {
                proof {
                    assert(peeked(whole_read, Ok(None), self.spec_converted()));
                }
                Ok(None)
            },
            Ok(Some(sample)) => {
                let size = bytes_len(&sample.bytes);
                let info = SampleInfo {
                    start_time: sample.start_time,
                    duration: sample.duration,
                    rendering_offset: sample.rendering_offset,
                    is_sync: sample.is_sync,
                    size,
                };
                self.converted = Some(sample.bytes);
                proof {
                    assert(peeked(whole_read, Ok(Some(info)), self.spec_converted()));
                }
                Ok(Some(info))
            },
        }
    }

    /// Reads the next sample into `into`, and moves on to the one after.
    /// A sample converted when it was peeked at is copied over, and must be
    /// the size of `into`; otherwise the sample is read from the file.
    pub fn read_sample(&mut self, into: &mut [u8]) -> (r: Result<(), Error>)
        ensures
            final(self).same_file(old(self)),
            match old(self).spec_converted() {
                Some(kept) => if kept.len() == old(into)@.len() {
                    &&& r is Ok
                    &&& final(into)@ == kept
                    &&& final(self).spec_converted() is None
                    &&& final(self).spec_current() == old(self).spec_current().wrapping_add(1)
                } else {
                    &&& r == Err::<(), Error>(Error::InvalidData("converted sample does not fit"))
                    &&& final(into)@ == old(into)@
                    &&& final(self).spec_converted() == old(self).spec_converted()
                    &&& final(self).spec_current() == old(self).spec_current()
                },
                None => {
                    &&& old(self).spec_track().sample_read_into(
                        old(self).spec_data(),
                        old(self).spec_current(),
                        old(into)@,
                        final(into)@,
                        r,
                    )
                    &&& final(self).spec_converted() is None
                    &&& final(self).spec_current() == if r is Ok {
                        old(self).spec_current().wrapping_add(1)
                    } else {
                        old(self).spec_current()
                    }
                },
            },
    {
        proof {
            use_type_invariant(&*self);
        }
        let fits = match &self.converted {
            Some(kept) => Some(bytes_len(kept) == into.len()),
            None => None,
        };
        match fits {
            Some(false) => {
                return Err(Error::InvalidData("converted sample does not fit"));
            },
            Some(true) => {
                let mut taken: Option<Bytes> = None;
                std::mem::swap(&mut taken, &mut self.converted);
                if let Some(kept) = taken {
                    let source = bytes_as_slice(&kept);
                    let n = into.len();
                    let mut i: usize = 0;
                    while i < n
                        invariant
                            n == into@.len(),
                            n == source@.len(),
                            i <= n,
                            forall|j: int| 0 <= j < i ==> into@[j] == source@[j],
                        decreases n - i,
                    {
                        into[i] = source[i];
                        i = i + 1;
                    }
                    proof {
                        assert(into@ =~= source@);
                    }
                }
                self.current_sample_id = self.current_sample_id.wrapping_add(1);
                Ok(())
            },
            None => {
                match self.reader.read_sample_into(self.data.as_slice(), self.video_track_id, self.current_sample_id, into) {
                    Ok(()) => {
                        self.current_sample_id = self.current_sample_id.wrapping_add(1);
                        Ok(())
                    },
                    Err(e) => Err(e),
                }
            },
        }
    }

    /// Back to the first sample.
    pub fn rewind(&mut self)
        ensures
            final(self).same_file(old(self)),
            final(self).spec_current() == 1,
            final(self).spec_converted() is None,
    {
        proof {
            use_type_invariant(&*self);
        }
        self.converted = None;
        self.current_sample_id = 1;
    }

    /// Moves to `time`, in the video track's timescale units, snapped back
    /// to the keyframe at or before the sample covering it, never before the
    /// first sample. False where the time table overflows before it reaches
    /// `time`.
    pub fn seek(&mut self, time: u64) -> (r: bool)
        ensures
            final(self).same_file(old(self)),
            r == old(self).spec_track().spec_sample_at_time(time) is Some,
            !r ==> final(self).spec_current() == old(self).spec_current() && final(self).spec_converted() == old(self).spec_converted(),
            r ==> final(self).spec_converted() == old(self).spec_converted(),
            r ==> {
                let target = old(self).spec_track().spec_sample_at_time(time)->Some_0;
                let snapped = final(self).spec_current();
                match old(self).spec_track().trak.mdia.minf.stbl.stss {
                    None => snapped == at_least_one(target),
                    Some(stss) => sorted(stss.entries@) ==> {
                        let e = stss.entries@;
                        if e.contains(target) {
                            snapped == at_least_one(target)
                        } else if forall|j: int| 0 <= j < e.len() ==> e[j] > target {
                            snapped == 1
                        } else {
                            exists|sync: u32|
                                #![trigger e.contains(sync)]
                                e.contains(sync) && sync < target && snapped == at_least_one(sync) && forall|j: int|
                                    0 <= j < e.len() && e[j] < target ==> e[j] <= sync
                        }
                    },
                }
            },
    {
        proof {
            use_type_invariant(&*self);
        }
        let snapped = match self.reader.tracks().get(&self.video_track_id) {
            Some(track) => match track.try_sample_at_time(time) {
                Some(sample) => {
                    let sync = track.sync_sample_at_or_before(sample);
                    if sync < 1 {
                        1
                    } else {
                        sync
                    }
                },
                None => {
                    return false;
                },
            },
            None => {
                return false;
            },
        };
        self.current_sample_id = snapped;
        true
    }
}

} // verus!
