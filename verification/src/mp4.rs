//! MP4 (ISO base media) files: the box tree, and the tracks and samples it
//! describes. The file is read from its bytes in memory; a position in them
//! plays the part of a stream's.
use vstd::prelude::*;
use std::collections::HashMap;
use std::time::Duration;
use crate::clock::{from_millis, millis_span};
use crate::file::{Sample, SampleInfo};
use crate::fourcc::{FourCC, spec_from_u32};
use crate::mp4::error::Error;
use crate::mp4::atom::{read_header, spec_header, spec_overflow, dist};
use crate::mp4::atom::constant_name::{FTYP, MOOV, TRAK, TKHD, MVHD, META, MVEX, UDTA};
use crate::mp4::atom::ftyp::{Ftyp, ftyp_res, ftyp_rel, brand_list, brands_as_slice};
use crate::mp4::atom::moov::{Moov, moov_res, moov_kids};
use crate::mp4::atom::mvhd::mvhd_rel;
use crate::mp4::atom::meta::meta_rel;
use crate::mp4::atom::mvex::mvex_rel;
use crate::mp4::atom::udta::udta_rel;
use crate::mp4::atom::trak::{Trak, trak_rel, trak_kids};
use crate::mp4::atom::tkhd::spec_track_id;
use crate::mp4::atom::walk::{last_named, all_named, lemma_last_named_push};
use crate::mp4::track::Track;

pub mod atom;
pub mod error;
pub mod file;
pub mod stream;
pub mod track;

verus! {

broadcast use vstd::std_specs::hash::group_hash_axioms;

/// The boxes at the top of a file from `cur` on, up to `size` bytes or the
/// first box of size zero, with where the walk stopped. The file type and
/// movie boxes are read on the way; the others are passed over.
pub open spec fn top_walk(d: Seq<u8>, cur: int, size: u64) -> Result<(Seq<(u32, int, u64)>, int), Error>
    decreases dist(cur, size as int),
{
    if cur >= size {
        Ok((Seq::empty(), cur))
    } else {
        match spec_header(d, cur) {
            Err(e) => Err(e),
            Ok((h, q)) => {
                let n = h.name.spec_value();
                if h.size > size {
                    Err(Error::InvalidData("Reader contains a atom with a larger size than it"))
                } else if h.size == 0 {
                    Ok((Seq::empty(), cur))
                } else if q - 8 + h.size > u64::MAX {
                    Err(spec_overflow())
                } else if n == FTYP && ftyp_res(d, q, h.size) is Err {
                    Err(ftyp_res(d, q, h.size)->Err_0)
                } else if n == MOOV && moov_res(d, q, h.size) is Err {
                    Err(moov_res(d, q, h.size)->Err_0)
                } else {
                    match top_walk(d, q - 8 + h.size, size) {
                        Err(e) => Err(e),
                        Ok((rest, stop)) => Ok((seq![(n, q, h.size)] + rest, stop)),
                    }
                }
            },
        }
    }
}

/// The track id of the `trak` box whose data starts at `q`: its last
/// `tkhd` child's.
pub open spec fn spec_trak_id(d: Seq<u8>, q: int, s: u64) -> u32 {
    spec_track_id(d, last_named(trak_kids(d, q, s)->Ok_0, TKHD)->Some_0.0)
}

/// The last of the tracks at `ps` whose id is `id`.
pub open spec fn last_with_id(d: Seq<u8>, ps: Seq<(int, u64)>, id: u32) -> Option<(int, u64)>
    decreases ps.len(),
{
    if ps.len() == 0 {
        None
    } else if spec_trak_id(d, ps.last().0, ps.last().1) == id {
        Some(ps.last())
    } else {
        last_with_id(d, ps.drop_last(), id)
    }
}

/// The top-level boxes of the file of `size` bytes.
pub open spec fn top_kids(d: Seq<u8>, size: u64) -> Seq<(u32, int, u64)> {
    top_walk(d, 0, size)->Ok_0.0
}

/// Where the movie box's data starts, and its size.
pub open spec fn moov_at(d: Seq<u8>, size: u64) -> (int, u64) {
    last_named(top_kids(d, size), MOOV)->Some_0
}

/// The children of the movie box.
pub open spec fn movie_kids(d: Seq<u8>, size: u64) -> Seq<(u32, int, u64)> {
    moov_kids(d, moov_at(d, size).0, moov_at(d, size).1)->Ok_0
}

/// Where each track of the movie is, in order.
pub open spec fn reader_traks(d: Seq<u8>, size: u64) -> Seq<(int, u64)> {
    all_named(movie_kids(d, size), TRAK)
}

pub open spec fn reader_res(d: Seq<u8>, size: u64) -> Result<(), Error> {
    match top_walk(d, 0, size) {
        Err(e) => Err(e),
        Ok((kids, _)) => if last_named(kids, FTYP) is None {
            Err(Error::AtomNotFound(spec_from_u32(FTYP)))
        } else if last_named(kids, MOOV) is None {
            Err(Error::AtomNotFound(spec_from_u32(MOOV)))
        } else if exists|j: int|
            0 <= j < reader_traks(d, size).len() && #[trigger] spec_trak_id(
                d,
                reader_traks(d, size)[j].0,
                reader_traks(d, size)[j].1,
            ) == 0 {
            Err(Error::InvalidData("illegal track id 0"))
        } else {
            Ok(())
        },
    }
}

/// A whole file, read: its type, its movie, and its tracks by id. The
/// tracks are moved out of the movie box into the map.
pub struct Reader {
    ftyp: Ftyp,
    moov: Moov,
    tracks: HashMap<u32, Track>,
    size: u64,
}

impl Reader {
    pub closed spec fn spec_ftyp(&self) -> Ftyp {
        self.ftyp
    }

    pub closed spec fn spec_moov(&self) -> Moov {
        self.moov
    }

    pub closed spec fn spec_tracks(&self) -> Map<u32, Track> {
        self.tracks@
    }

    pub closed spec fn spec_size(&self) -> u64 {
        self.size
    }
}

/// What a reader of the file of `size` bytes holds: the last file type box
/// and the last movie box, and of each track id the last track with it.
pub open spec fn reader_rel(d: Seq<u8>, size: u64, x: Reader) -> bool {
    let (fq, fs) = last_named(top_kids(d, size), FTYP)->Some_0;
    let mk = movie_kids(d, size);
    let m = x.spec_moov();
    let ps = reader_traks(d, size);
    &&& x.spec_size() == top_walk(d, 0, size)->Ok_0.1
    &&& ftyp_rel(d, fq, fs, x.spec_ftyp())
    &&& last_named(mk, MVHD) matches Some((q, s)) && mvhd_rel(d, q, s, m.mvhd)
    &&& match last_named(mk, META) {
        None => m.meta is None,
        Some((q, s)) => m.meta matches Some(v) && meta_rel(d, q, s, v),
    }
    &&& match last_named(mk, MVEX) {
        None => m.mvex is None,
        Some((q, s)) => m.mvex matches Some(v) && mvex_rel(d, q, s, v),
    }
    &&& match last_named(mk, UDTA) {
        None => m.udta is None,
        Some((q, s)) => m.udta matches Some(v) && udta_rel(d, q, s, v),
    }
    &&& forall|id: u32| #[trigger] x.spec_tracks().contains_key(id) <==> last_with_id(d, ps, id) is Some
    &&& forall|id: u32|
        #[trigger] x.spec_tracks().contains_key(id) ==> trak_rel(
            d,
            last_with_id(d, ps, id)->Some_0.0,
            last_with_id(d, ps, id)->Some_0.1,
            x.spec_tracks()[id].trak,
        )
}

/// What the tracks at `ps` say of a track id.
proof fn lemma_last_with_id_push(d: Seq<u8>, ps: Seq<(int, u64)>, c: (int, u64), id: u32)
    ensures
        last_with_id(d, ps.push(c), id) == if spec_trak_id(d, c.0, c.1) == id {
            Some(c)
        } else {
            last_with_id(d, ps, id)
        },
{
    assert(ps.push(c).drop_last() =~= ps);
}

/// Whether one of the tracks has the id 0.
fn has_zero_id(traks: &Vec<Trak>) -> (r: bool)
    ensures
        r == exists|i: int| 0 <= i < traks@.len() && #[trigger] traks@[i].tkhd.track_id == 0,
{
    let mut j: usize = 0;
    while j < traks.len()
        invariant
            j <= traks@.len(),
            forall|i: int| 0 <= i < j ==> #[trigger] traks@[i].tkhd.track_id != 0,
        decreases traks@.len() - j,
    {
        if traks[j].tkhd.track_id == 0 {
            return true;
        }
        j = j + 1;
    }
    false
}

/// The tracks by id, each id keeping the last track that has it; the
/// tracks are those at `ps` in the file `d`.
fn index_tracks(traks: Vec<Trak>, Ghost(d): Ghost<Seq<u8>>, Ghost(ps): Ghost<Seq<(int, u64)>>) -> (r: HashMap<u32, Track>)
    requires
        traks@.len() == ps.len(),
        forall|i: int| 0 <= i < ps.len() ==> trak_rel(d, ps[i].0, ps[i].1, #[trigger] traks@[i]),
    ensures
        forall|id: u32| #[trigger] r@.contains_key(id) <==> last_with_id(d, ps, id) is Some,
        forall|id: u32|
            #[trigger] r@.contains_key(id) ==> trak_rel(
                d,
                last_with_id(d, ps, id)->Some_0.0,
                last_with_id(d, ps, id)->Some_0.1,
                r@[id].trak,
            ),
{
    let ghost all = traks@;
    let mut traks = traks;
    let mut tracks: HashMap<u32, Track> = HashMap::new();
    let ghost mut k: int = 0;
    while traks.len() > 0
        invariant
            0 <= k <= all.len(),
            traks@ == all.skip(k),
            all.len() == ps.len(),
            forall|i: int| 0 <= i < all.len() ==> trak_rel(d, ps[i].0, ps[i].1, #[trigger] all[i]),
            forall|id: u32| #[trigger] tracks@.contains_key(id) <==> last_with_id(d, ps.take(k), id) is Some,
            forall|id: u32|
                #[trigger] tracks@.contains_key(id) ==> trak_rel(
                    d,
                    last_with_id(d, ps.take(k), id)->Some_0.0,
                    last_with_id(d, ps.take(k), id)->Some_0.1,
                    tracks@[id].trak,
                ),
        decreases traks@.len(),
    {
        let trak = traks.remove(0);
        let id = trak.tkhd.track_id;
        proof {
            assert(all.skip(k)[0] == all[k]);
            assert(trak_rel(d, ps[k].0, ps[k].1, all[k]));
            assert(ps.take(k + 1) =~= ps.take(k).push(ps[k]));
            assert forall|x: u32| #![auto] last_with_id(d, ps.take(k + 1), x) == if spec_trak_id(d, ps[k].0, ps[k].1) == x {
                Some(ps[k])
            } else {
                last_with_id(d, ps.take(k), x)
            } by {
                lemma_last_with_id_push(d, ps.take(k), ps[k], x);
            }
            assert(all.skip(k).subrange(1, all.skip(k).len() as int) =~= all.skip(k + 1));
        }
        tracks.insert(id, Track::from(trak));
        proof {
            k = k + 1;
        }
    }
    proof {
        assert(all.skip(k).len() == 0);
        assert(ps.take(k) =~= ps);
    }
    tracks
}

impl Reader {
    /// Reads the file of `size` bytes held by `data`, from its start: the
    /// boxes at its top up to `size` bytes or a box of size zero. A file type
    /// box and a movie box are needed, and no track may have the id 0.
    #[verifier::rlimit(40)]
    pub fn read(data: &[u8], size: u64) -> (r: Result<Reader, Error>)
        ensures
            match r {
                Ok(x) => reader_res(data@, size) is Ok && reader_rel(data@, size, x),
                Err(e) => reader_res(data@, size) == Err::<(), Error>(e),
            },
    {
        let ghost d = data@;
        let mut ftyp: Option<Ftyp> = None;
        let mut moov: Option<Moov> = None;
        let mut current: u64 = 0;
        let ghost mut kids: Seq<(u32, int, u64)> = Seq::empty();
        proof {
            assert(top_walk(d, 0, size) == match top_walk(d, 0, size) {
                Err(e) => Err(e),
                Ok((rest, stop)) => Ok((Seq::<(u32, int, u64)>::empty() + rest, stop)),
            }) by {
                if let Ok((rest, stop)) = top_walk(d, 0, size) {
                    assert(Seq::<(u32, int, u64)>::empty() + rest =~= rest);
                }
            }
        }
        while current < size
            invariant
                d == data@,
                top_walk(d, 0, size) == match top_walk(d, current as int, size) {
                    Err(e) => Err(e),
                    Ok((rest, stop)) => Ok((kids + rest, stop)),
                },
                match last_named(kids, FTYP) {
                    None => ftyp is None,
                    Some((q, s)) => ftyp matches Some(x) && ftyp_rel(d, q, s, x),
                },
                match last_named(kids, MOOV) {
                    None => moov is None,
                    Some((q, s)) => moov matches Some(x) && crate::mp4::atom::moov::moov_rel(d, q, s, x),
                },
            ensures
                top_walk(d, current as int, size) == Ok::<(Seq<(u32, int, u64)>, int), Error>((Seq::empty(), current as int)),
            decreases dist(current as int, size as int),
        {
            let mut pos = current;
            let header = read_header(data, &mut pos)?;
            if header.size > size {
                return Err(Error::InvalidData("Reader contains a atom with a larger size than it"));
            }
            // A box of size zero runs to the end; reading it would go round forever.
            if header.size == 0 {
                break;
            }
            let q = pos;
            if q - 8 > u64::MAX - header.size {
                return Err(Error::InvalidData("box extends past the largest stream position"));
            }
            let name = header.name.value();
            if name == FTYP {
                ftyp = Some(Ftyp::read(data, &mut pos, header.size)?);
            } else if name == MOOV {
                moov = Some(Moov::read(data, &mut pos, header.size)?);
            } else {
                pos = q - 8 + header.size;
            }
            proof {
                let c = (name, q as int, header.size);
                if let Ok((rest, stop)) = top_walk(d, pos as int, size) {
                    assert(kids + (seq![c] + rest) =~= kids.push(c) + rest);
                }
                lemma_last_named_push(kids, c, FTYP);
                lemma_last_named_push(kids, c, MOOV);
                kids = kids.push(c);
            }
            current = pos;
        }
        proof {
            assert(kids + Seq::<(u32, int, u64)>::empty() =~= kids);
        }
        let ftyp = match ftyp {
            None => {
                return Err(Error::AtomNotFound(FourCC::from_u32(FTYP)));
            },
            Some(f) => f,
        };
        let mut moov = match moov {
            None => {
                return Err(Error::AtomNotFound(FourCC::from_u32(MOOV)));
            },
            Some(m) => m,
        };
        let ghost ps = reader_traks(d, size);
        let mut traks: Vec<Trak> = Vec::new();
        std::mem::swap(&mut traks, &mut moov.traks);
        let ghost all = traks@;
        assert(all.len() == ps.len());
        proof {
            assert forall|i: int| 0 <= i < all.len() implies spec_trak_id(d, #[trigger] ps[i].0, ps[i].1) == all[i].tkhd.track_id by {
                assert(trak_rel(d, ps[i].0, ps[i].1, all[i]));
            }
        }
        if has_zero_id(&traks) {
            proof {
                let i = choose|i: int| 0 <= i < all.len() && all[i].tkhd.track_id == 0;
                assert(spec_trak_id(d, ps[i].0, ps[i].1) == 0);
            }
            return Err(Error::InvalidData("illegal track id 0"));
        }
        proof {
            assert forall|j: int| 0 <= j < ps.len() implies #[trigger] spec_trak_id(d, ps[j].0, ps[j].1) != 0 by {
                assert(all[j].tkhd.track_id != 0);
            }
        }
        let tracks = index_tracks(traks, Ghost(d), Ghost(ps));
        Ok(Reader { ftyp, moov, tracks, size: current })
    }
}

impl Reader {
    /// How far into the file the boxes were read.
    pub fn size(&self) -> (r: u64)
        ensures
            r == self.spec_size(),
    {
        self.size
    }

    pub fn major_brand(&self) -> (r: &FourCC)
        ensures
            *r == self.spec_ftyp().major_brand,
    {
        &self.ftyp.major_brand
    }

    pub fn minor_version(&self) -> (r: u32)
        ensures
            r == self.spec_ftyp().minor_version,
    {
        self.ftyp.minor_version
    }

    pub fn compatible_brands(&self) -> (r: &[FourCC])
        ensures
            r@ == brand_list(self.spec_ftyp().compatible_brands),
    {
        brands_as_slice(&self.ftyp.compatible_brands)
    }

    /// The movie's duration as a span of time, to the millisecond below.
    pub fn duration(&self) -> (r: Duration)
        requires
            self.spec_moov().mvhd.timescale > 0,
            self.spec_moov().mvhd.duration * 1000 <= u64::MAX,
        ensures
            r == millis_span((self.spec_moov().mvhd.duration * 1000 / self.spec_moov().mvhd.timescale as int) as u64),
    {
        from_millis(self.moov.mvhd.duration * 1000 / self.moov.mvhd.timescale as u64)
    }

    /// Units per second the movie's times are counted in.
    pub fn timescale(&self) -> (r: u32)
        ensures
            r == self.spec_moov().mvhd.timescale,
    {
        self.moov.mvhd.timescale
    }

    pub fn tracks(&self) -> (r: &HashMap<u32, Track>)
        ensures
            r@ == self.spec_tracks(),
    {
        &self.tracks
    }

    /// The number of samples of the track `track_id`.
    pub fn sample_count(&self, track_id: u32) -> (r: Result<u32, Error>)
        ensures
            if self.spec_tracks().contains_key(track_id) {
                r == Ok::<u32, Error>(self.spec_tracks()[track_id].trak.mdia.minf.stbl.stsz.sample_count)
            } else {
                r == Err::<u32, Error>(Error::TrakNotFound(track_id))
            },
    {
        if let Some(track) = self.tracks.get(&track_id) {
            Ok(track.sample_count())
        } else {
            Err(Error::TrakNotFound(track_id))
        }
    }

    /// Where sample `sample_id` of the track `track_id` starts in the file.
    pub fn sample_offset(&mut self, track_id: u32, sample_id: u32) -> (r: Result<u64, Error>)
        ensures
            *final(self) == *old(self),
            if old(self).spec_tracks().contains_key(track_id) {
                r == old(self).spec_tracks()[track_id].spec_sample_offset(sample_id)
            } else {
                r == Err::<u64, Error>(Error::TrakNotFound(track_id))
            },
    {
        if let Some(track) = self.tracks.get(&track_id) {
            track.sample_offset(sample_id)
        } else {
            Err(Error::TrakNotFound(track_id))
        }
    }

    /// Reads sample `sample_id` of the track `track_id` from the file `data`.
    pub fn read_sample(&mut self, data: &[u8], track_id: u32, sample_id: u32) -> (r: Result<Option<Sample>, Error>)
        ensures
            *final(self) == *old(self),
            if old(self).spec_tracks().contains_key(track_id) {
                old(self).spec_tracks()[track_id].sample_read(data@, sample_id, r)
            } else {
                r == Err::<Option<Sample>, Error>(Error::TrakNotFound(track_id))
            },
    {
        if let Some(track) = self.tracks.get(&track_id) {
            track.read_sample(data, sample_id)
        } else {
            Err(Error::TrakNotFound(track_id))
        }
    }

    /// What sample `sample_id` of the track `track_id` is, from the index
    /// alone.
    pub fn sample_info(&self, track_id: u32, sample_id: u32) -> (r: Result<Option<SampleInfo>, Error>)
        ensures
            if self.spec_tracks().contains_key(track_id) {
                self.spec_tracks()[track_id].info_of(sample_id, r)
            } else {
                r == Err::<Option<SampleInfo>, Error>(Error::TrakNotFound(track_id))
            },
    {
        match self.tracks.get(&track_id) {
            Some(track) => track.sample_info(sample_id),
            None => Err(Error::TrakNotFound(track_id)),
        }
    }

    /// Reads sample `sample_id` of the track `track_id` from the file `data`
    /// straight into `into`.
    pub fn read_sample_into(&self, data: &[u8], track_id: u32, sample_id: u32, into: &mut [u8]) -> (r: Result<(), Error>)
        ensures
            if self.spec_tracks().contains_key(track_id) {
                self.spec_tracks()[track_id].sample_read_into(data@, sample_id, old(into)@, final(into)@, r)
            } else {
                r == Err::<(), Error>(Error::TrakNotFound(track_id)) && final(into)@ == old(into)@
            },
    {
        match self.tracks.get(&track_id) {
            Some(track) => track.read_sample_into(data, sample_id, into),
            None => Err(Error::TrakNotFound(track_id)),
        }
    }

    /// Annex-B is the same size as AVCC only with 4-byte prefixes; anything
    /// shorter grows, so its sample cannot be read straight into place.
    pub fn reads_in_place(&self, track_id: u32) -> (r: bool)
        ensures
            r == (self.spec_tracks().contains_key(track_id) && match self.spec_tracks()[track_id].spec_nalu_length_size() {
                None => true,
                Some(n) => n == 4,
            }),
    {
        match self.tracks.get(&track_id) {
            Some(track) => match track.nalu_length_size() {
                None => true,
                Some(n) => n == 4,
            },
            None => false,
        }
    }
}

} // verus!
