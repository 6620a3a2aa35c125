use std::time::Duration;

use mstu::codec::Codec;
use mstu::fourcc::FourCC;
use mstu::mp4::error::Error;
use mstu::mp4::file::File;
use mstu::mp4::track::TrackType;
use mstu::mp4::atom::stbl::Stbl;
use mstu::mp4::Reader;

fn boxed(name: &[u8; 4], payload: &[u8]) -> Vec<u8> {
    let mut out = ((payload.len() + 8) as u32).to_be_bytes().to_vec();
    out.extend_from_slice(name);
    out.extend_from_slice(payload);
    out
}

fn full(name: &[u8; 4], version: u8, flags: u32, payload: &[u8]) -> Vec<u8> {
    let mut body = vec![version];
    body.extend_from_slice(&flags.to_be_bytes()[1..]);
    body.extend_from_slice(payload);
    boxed(name, &body)
}

fn be32(v: u32) -> Vec<u8> {
    v.to_be_bytes().to_vec()
}

fn matrix() -> Vec<u8> {
    let mut m = Vec::new();
    for v in [0x0001_0000u32, 0, 0, 0, 0x0001_0000, 0, 0, 0, 0x4000_0000] {
        m.extend_from_slice(&v.to_be_bytes());
    }
    m
}

const SPS: [u8; 4] = [0x67, 0x64, 0x00, 0x1f];
const PPS: [u8; 3] = [0x68, 0xeb, 0xe3];

/// One AVCC sample: a 4-byte length and a 5-byte unit.
fn sample(tag: u8) -> Vec<u8> {
    vec![0, 0, 0, 5, 0x65, tag, 2, 3, 4]
}

fn avc1() -> Vec<u8> {
    avc1_with(0xff)
}

/// An `avc1` entry whose `avcC` has `length_byte` for its fifth byte: its
/// low two bits are the prefix length less one.
fn avc1_with(length_byte: u8) -> Vec<u8> {
    let mut avcc = vec![1, 0x64, 0x00, 0x1f, length_byte, 0xe1];
    avcc.extend_from_slice(&(SPS.len() as u16).to_be_bytes());
    avcc.extend_from_slice(&SPS);
    avcc.push(1);
    avcc.extend_from_slice(&(PPS.len() as u16).to_be_bytes());
    avcc.extend_from_slice(&PPS);
    let mut p = vec![0u8; 6];
    p.extend_from_slice(&1u16.to_be_bytes());
    p.extend_from_slice(&[0u8; 16]);
    p.extend_from_slice(&640u16.to_be_bytes());
    p.extend_from_slice(&480u16.to_be_bytes());
    p.extend_from_slice(&be32(0x0048_0000));
    p.extend_from_slice(&be32(0x0048_0000));
    p.extend_from_slice(&be32(0));
    p.extend_from_slice(&1u16.to_be_bytes());
    p.extend_from_slice(&[0u8; 32]);
    p.extend_from_slice(&0x18u16.to_be_bytes());
    p.extend_from_slice(&0xffffu16.to_be_bytes());
    p.extend_from_slice(&boxed(b"avcC", &avcc));
    boxed(b"avc1", &p)
}

fn trak(track_id: u32, chunk_offsets: [u32; 2]) -> Vec<u8> {
    trak_sized(track_id, chunk_offsets, 9, 0xff)
}

/// A video track of four samples of `size` bytes, two per chunk.
fn trak_sized(track_id: u32, chunk_offsets: [u32; 2], size: u32, length_byte: u8) -> Vec<u8> {
    let mut tkhd = Vec::new();
    for v in [0u32, 0, track_id, 0, 2000] {
        tkhd.extend_from_slice(&be32(v));
    }
    tkhd.extend_from_slice(&[0u8; 8]);
    tkhd.extend_from_slice(&[0u8; 8]);
    tkhd.extend_from_slice(&matrix());
    tkhd.extend_from_slice(&be32(640 << 16));
    tkhd.extend_from_slice(&be32(480 << 16));

    let mut mdhd = Vec::new();
    for v in [0u32, 0, 1000, 2000] {
        mdhd.extend_from_slice(&be32(v));
    }
    mdhd.extend_from_slice(&0x55c4u16.to_be_bytes());
    mdhd.extend_from_slice(&[0u8; 2]);

    let mut hdlr = be32(0);
    hdlr.extend_from_slice(b"vide");
    hdlr.extend_from_slice(&[0u8; 12]);
    hdlr.extend_from_slice(b"Video\0");

    let url = full(b"url ", 0, 1, &[]);
    let mut dref = be32(1);
    dref.extend_from_slice(&url);
    let dinf = boxed(b"dinf", &full(b"dref", 0, 0, &dref));

    let mut stsd = be32(1);
    stsd.extend_from_slice(&avc1_with(length_byte));

    let mut stts = be32(1);
    stts.extend_from_slice(&be32(4));
    stts.extend_from_slice(&be32(500));

    let mut stss = be32(2);
    stss.extend_from_slice(&be32(1));
    stss.extend_from_slice(&be32(3));

    let mut stsc = be32(1);
    for v in [1u32, 2, 1] {
        stsc.extend_from_slice(&be32(v));
    }

    let mut stsz = be32(0);
    stsz.extend_from_slice(&be32(4));
    for _ in 0..4 {
        stsz.extend_from_slice(&be32(size));
    }

    let mut stco = be32(2);
    stco.extend_from_slice(&be32(chunk_offsets[0]));
    stco.extend_from_slice(&be32(chunk_offsets[1]));

    let mut stbl = full(b"stsd", 0, 0, &stsd);
    stbl.extend_from_slice(&full(b"stts", 0, 0, &stts));
    stbl.extend_from_slice(&full(b"stss", 0, 0, &stss));
    stbl.extend_from_slice(&full(b"stsc", 0, 0, &stsc));
    stbl.extend_from_slice(&full(b"stsz", 0, 0, &stsz));
    stbl.extend_from_slice(&full(b"stco", 0, 0, &stco));

    let mut minf = full(b"vmhd", 0, 1, &[0u8; 8]);
    minf.extend_from_slice(&dinf);
    minf.extend_from_slice(&boxed(b"stbl", &stbl));

    let mut mdia = full(b"mdhd", 0, 0, &mdhd);
    mdia.extend_from_slice(&full(b"hdlr", 0, 0, &hdlr));
    mdia.extend_from_slice(&boxed(b"minf", &minf));

    let mut body = full(b"tkhd", 0, 3, &tkhd);
    body.extend_from_slice(&boxed(b"mdia", &mdia));
    boxed(b"trak", &body)
}

fn ftyp() -> Vec<u8> {
    let mut p = b"isom".to_vec();
    p.extend_from_slice(&be32(512));
    for brand in [b"isom", b"iso2", b"avc1", b"mp41"] {
        p.extend_from_slice(brand);
    }
    boxed(b"ftyp", &p)
}

fn moov(track_id: u32, chunk_offsets: [u32; 2]) -> Vec<u8> {
    moov_with(trak(track_id, chunk_offsets))
}

fn moov_with(trak: Vec<u8>) -> Vec<u8> {
    let mut mvhd = Vec::new();
    for v in [0u32, 0, 1000, 2000, 0x0001_0000] {
        mvhd.extend_from_slice(&be32(v));
    }
    mvhd.extend_from_slice(&0x0100u16.to_be_bytes());
    mvhd.extend_from_slice(&[0u8; 10]);
    mvhd.extend_from_slice(&matrix());
    mvhd.extend_from_slice(&[0u8; 24]);
    mvhd.extend_from_slice(&be32(2));
    let mut body = full(b"mvhd", 0, 0, &mvhd);
    body.extend_from_slice(&trak);
    boxed(b"moov", &body)
}

/// A file with one H.264 track of four samples, two per chunk, in an `mdat`
/// after the movie box.
fn movie_with_id(track_id: u32) -> Vec<u8> {
    let head_len = ftyp().len() + moov(track_id, [0, 0]).len() + 8;
    let first = head_len as u32;
    let second = first + 18;
    let mut file = ftyp();
    file.extend_from_slice(&moov(track_id, [first, second]));
    let mut mdat = Vec::new();
    for tag in 1..=4u8 {
        mdat.extend_from_slice(&sample(tag));
    }
    file.extend_from_slice(&boxed(b"mdat", &mdat));
    file
}

fn movie() -> Vec<u8> {
    movie_with_id(1)
}

/// The same movie with 2-byte length prefixes: each sample is a 2-byte
/// length and a 5-byte unit, and grows by two on its way to Annex-B.
fn short_prefix_movie() -> Vec<u8> {
    let head_len = ftyp().len() + moov_with(trak_sized(1, [0, 0], 7, 0xfd)).len() + 8;
    let first = head_len as u32;
    let second = first + 14;
    let mut file = ftyp();
    file.extend_from_slice(&moov_with(trak_sized(1, [first, second], 7, 0xfd)));
    let mut mdat = Vec::new();
    for tag in 1..=4u8 {
        mdat.extend_from_slice(&[0, 5, 0x65, tag, 2, 3, 4]);
    }
    file.extend_from_slice(&boxed(b"mdat", &mdat));
    file
}

/// The movie with its track's handler renamed from video to sound.
fn sound_only_movie() -> Vec<u8> {
    let mut file = movie();
    let at = file.windows(4).position(|w| w == b"vide").expect("a video handler");
    file[at..at + 4].copy_from_slice(b"soun");
    file
}

fn read(file: &[u8]) -> Reader {
    match Reader::read(file, file.len() as u64) {
        Ok(reader) => reader,
        Err(err) => panic!("the file should read: {:?}", err),
    }
}

#[test]
fn reads_the_file_type() {
    let file = movie();
    let reader = read(&file);
    assert_eq!(reader.major_brand().as_str(), "isom");
    assert_eq!(reader.minor_version(), 512);
    let brands: Vec<&str> = reader.compatible_brands().iter().map(|b| b.as_str()).collect();
    assert_eq!(brands, vec!["isom", "iso2", "avc1", "mp41"]);
    assert_eq!(reader.size(), file.len() as u64);
}

#[test]
fn reads_the_movie_header() {
    let file = movie();
    let reader = read(&file);
    assert_eq!(reader.timescale(), 1000);
    assert_eq!(reader.duration(), Duration::from_millis(2000));
}

#[test]
fn finds_the_track_by_its_id() {
    let file = movie();
    let reader = read(&file);
    assert_eq!(reader.tracks().len(), 1);
    let track = &reader.tracks()[&1];
    assert_eq!(track.track_id(), 1);
    assert!(matches!(track.track_type(), Ok(TrackType::Video)));
    assert_eq!(track.width(), 640);
    assert_eq!(track.height(), 480);
    assert_eq!(track.timescale(), 1000);
    assert_eq!(track.media_duration(), 2000);
    assert_eq!(track.duration(), Duration::from_micros(2_000_000));
    assert_eq!(track.language(), "und");
    assert_eq!(track.sample_count(), 4);
    assert_eq!(track.nalu_length_size(), Some(4));
    assert_eq!(track.sample_entry().unwrap().as_str(), "avc1");
    assert_eq!(reader.sample_count(1).unwrap(), 4);
    assert!(matches!(reader.sample_count(2), Err(Error::TrakNotFound(2))));
}

#[test]
fn gives_the_decoder_setup() {
    let file = movie();
    let reader = read(&file);
    let track = &reader.tracks()[&1];
    assert_eq!(track.sequence_parameter_set().unwrap(), &SPS);
    assert_eq!(track.picture_parameter_set().unwrap(), &PPS);
    match track.media_format() {
        Ok(Codec::H264(params)) => {
            assert_eq!(params.sps.len(), 1);
            assert_eq!(params.sps[0].as_bytes(), &SPS);
            assert_eq!(params.pps[0].as_bytes(), &PPS);
        }
        _ => panic!("an H.264 track"),
    }
    assert!(matches!(track.audio_profile(), Err(Error::AtomInStblNotFound(1, _))));
}

#[test]
fn locates_each_sample() {
    let file = movie();
    let mut reader = read(&file);
    let first = reader.sample_offset(1, 1).unwrap();
    assert_eq!(reader.sample_offset(1, 2).unwrap(), first + 9);
    assert_eq!(reader.sample_offset(1, 3).unwrap(), first + 18);
    assert_eq!(reader.sample_offset(1, 4).unwrap(), first + 27);
    assert_eq!(&file[first as usize..first as usize + 9], &sample(1)[..]);
    assert!(matches!(reader.sample_offset(1, 5), Err(Error::EntryInStblNotFound(1, _, 3))));
}

#[test]
fn describes_a_sample_from_the_index() {
    let file = movie();
    let reader = read(&file);
    let info = reader.sample_info(1, 2).unwrap().unwrap();
    assert_eq!(info.start_time, 500);
    assert_eq!(info.duration, 500);
    assert_eq!(info.rendering_offset, 0);
    assert!(!info.is_sync);
    assert_eq!(info.size, 9);
    assert!(reader.sample_info(1, 3).unwrap().unwrap().is_sync);
    assert!(reader.sample_info(1, 5).unwrap().is_none());
}

#[test]
fn reads_a_sample_as_annexb() {
    let file = movie();
    let mut reader = read(&file);
    let sample = reader.read_sample(&file, 1, 3).unwrap().unwrap();
    assert_eq!(sample.start_time, 1000);
    assert_eq!(sample.duration, 500);
    assert!(sample.is_sync);
    assert_eq!(&sample.bytes[..], &[0, 0, 0, 1, 0x65, 3, 2, 3, 4]);
    assert!(reader.read_sample(&file, 1, 9).unwrap().is_none());
}

#[test]
fn reads_a_sample_in_place() {
    let file = movie();
    let reader = read(&file);
    assert!(reader.reads_in_place(1));
    let mut into = [0u8; 9];
    reader.read_sample_into(&file, 1, 2, &mut into).unwrap();
    assert_eq!(into, [0, 0, 0, 1, 0x65, 2, 2, 3, 4]);
}

#[test]
fn fails_to_read_past_the_end_of_the_stream() {
    let file = movie();
    let reader = read(&file);
    let mut into = [0u8; 9];
    let cut = &file[..file.len() - 4];
    assert!(matches!(reader.read_sample_into(cut, 1, 4, &mut into), Err(Error::Io)));
}

#[test]
fn finds_the_sample_covering_a_time() {
    let file = movie();
    let reader = read(&file);
    let track = &reader.tracks()[&1];
    assert_eq!(track.sample_at_time(0), 1);
    assert_eq!(track.sample_at_time(750), 2);
    assert_eq!(track.sample_at_time(1999), 4);
    assert_eq!(track.sample_at_time(2500), 5);
    let sample = track.sample_at_time(1200);
    let info = track.sample_info(sample).unwrap().unwrap();
    assert!(info.start_time <= 1200 && 1200 < info.start_time + info.duration as u64);
}

#[test]
fn seeks_back_to_a_keyframe() {
    let file = movie();
    let reader = read(&file);
    let track = &reader.tracks()[&1];
    assert_eq!(track.sync_sample_at_or_before(1), 1);
    assert_eq!(track.sync_sample_at_or_before(2), 1);
    assert_eq!(track.sync_sample_at_or_before(3), 3);
    assert_eq!(track.sync_sample_at_or_before(4), 3);
}

#[test]
fn consecutive_samples_in_a_chunk_follow_one_another() {
    let file = movie();
    let reader = read(&file);
    let track = &reader.tracks()[&1];
    let size = track.sample_info(3).unwrap().unwrap().size as u64;
    assert_eq!(track.sample_offset(4).unwrap(), track.sample_offset(3).unwrap() + size);
}

#[test]
fn needs_a_movie_box() {
    let mut file = ftyp();
    file.extend_from_slice(&boxed(b"free", &[0u8; 4]));
    match Reader::read(&file, file.len() as u64) {
        Err(Error::AtomNotFound(name)) => assert_eq!(name, FourCC::from(*b"moov")),
        _ => panic!("a file without a movie box"),
    }
}

#[test]
fn needs_a_file_type_box() {
    let file = moov(1, [0, 0]);
    match Reader::read(&file, file.len() as u64) {
        Err(Error::AtomNotFound(name)) => assert_eq!(name, FourCC::from(*b"ftyp")),
        _ => panic!("a file without a file type box"),
    }
}

#[test]
fn refuses_a_track_with_id_zero() {
    let file = movie_with_id(0);
    assert!(matches!(
        Reader::read(&file, file.len() as u64),
        Err(Error::InvalidData("illegal track id 0"))
    ));
}

#[test]
fn refuses_a_box_larger_than_the_file() {
    let mut file = ftyp();
    file.extend_from_slice(&be32(1000));
    file.extend_from_slice(b"free");
    assert!(matches!(
        Reader::read(&file, file.len() as u64),
        Err(Error::InvalidData("Reader contains a atom with a larger size than it"))
    ));
}

#[test]
fn stops_at_a_box_of_size_zero() {
    let mut file = movie();
    let end = file.len() as u64;
    file.extend_from_slice(&be32(0));
    file.extend_from_slice(b"free");
    let reader = Reader::read(&file, file.len() as u64).unwrap();
    assert_eq!(reader.size(), end);
}

#[test]
fn refuses_a_truncated_file() {
    let file = movie();
    let cut = &file[..40];
    assert!(matches!(Reader::read(cut, file.len() as u64), Err(Error::Io)));
}

#[test]
fn plays_the_video_track_sample_by_sample() {
    let mut file = File::from_data(movie()).unwrap();
    assert_eq!(file.timescale(), 1000);
    assert_eq!(file.duration(), Some(2000));
    assert!(matches!(file.codec(), Ok(Codec::H264(_))));

    let info = file.peek_sample().unwrap().unwrap();
    assert_eq!((info.start_time, info.duration, info.size), (0, 500, 9));
    assert!(info.is_sync);
    let mut into = vec![0u8; info.size];
    file.read_sample(&mut into).unwrap();
    assert_eq!(into, [0, 0, 0, 1, 0x65, 1, 2, 3, 4]);

    let info = file.peek_sample().unwrap().unwrap();
    assert_eq!(info.start_time, 500);
    assert!(!info.is_sync);
    file.read_sample(&mut into).unwrap();
    assert_eq!(into, [0, 0, 0, 1, 0x65, 2, 2, 3, 4]);

    file.read_sample(&mut into).unwrap();
    file.read_sample(&mut into).unwrap();
    assert!(file.peek_sample().unwrap().is_none());

    file.rewind();
    assert_eq!(file.peek_sample().unwrap().unwrap().start_time, 0);
}

#[test]
fn seeking_snaps_back_to_a_keyframe() {
    let mut file = File::from_data(movie()).unwrap();
    assert!(file.seek(1700));
    let info = file.peek_sample().unwrap().unwrap();
    assert_eq!(info.start_time, 1000);
    assert!(info.is_sync);
    assert!(file.seek(600));
    assert_eq!(file.peek_sample().unwrap().unwrap().start_time, 0);
}

#[test]
fn converts_short_prefixes_before_the_read() {
    let mut file = File::from_data(short_prefix_movie()).unwrap();
    let info = file.peek_sample().unwrap().unwrap();
    // Two-byte prefixes grow into four-byte start codes.
    assert_eq!(info.size, 9);
    let mut into = vec![0u8; info.size];
    file.read_sample(&mut into).unwrap();
    assert_eq!(into, [0, 0, 0, 1, 0x65, 1, 2, 3, 4]);
    let info = file.peek_sample().unwrap().unwrap();
    assert_eq!(info.start_time, 500);
    let mut wrong = vec![0u8; 3];
    assert!(matches!(file.read_sample(&mut wrong), Err(Error::InvalidData(_))));
    file.read_sample(&mut into).unwrap();
    assert_eq!(into, [0, 0, 0, 1, 0x65, 2, 2, 3, 4]);
}

#[test]
fn needs_a_video_track() {
    assert!(matches!(
        File::from_data(sound_only_movie()),
        Err(Error::InvalidData("video track not found"))
    ));
    assert!(matches!(File::from_data(Vec::new()), Err(Error::AtomNotFound(_))));
}

#[test]
fn an_empty_sample_table_stops_where_it_ends() {
    let data = [
        0, 0, 0, 8, b's', b't', b'b', b'l', 0, 0, 0, 16, b'f', b'r', b'e', b'e', 0, 0, 0, 0, 0, 0, 0, 0,
    ];
    let mut pos = 8u64;
    match Stbl::read(&data, &mut pos, 8) {
        Err(Error::AtomNotFound(name)) => assert_eq!(name, FourCC::from(*b"stsd")),
        other => panic!("unexpected {:?}", other.is_ok()),
    }
    assert_eq!(pos, 8);
}

#[test]
fn a_sample_table_missing_a_child_stops_after_the_last_one() {
    let mut data = boxed(b"stbl", &boxed(b"free", &[0; 4]));
    data.extend_from_slice(&boxed(b"free", &[]));
    let mut pos = 8u64;
    let size = 20u64;
    match Stbl::read(&data, &mut pos, size) {
        Err(Error::AtomNotFound(name)) => assert_eq!(name, FourCC::from(*b"stsd")),
        other => panic!("unexpected {:?}", other.is_ok()),
    }
    assert_eq!(pos, 20);
}

#[test]
fn a_sample_start_and_last_tick_lead_back_to_it() {
    let file = movie();
    let reader = read(&file);
    let track = &reader.tracks()[&1];
    for s in 1..=4u32 {
        let info = track.sample_info(s).unwrap().unwrap();
        assert_eq!(track.sample_at_time(info.start_time), s);
        assert_eq!(track.sample_at_time(info.start_time + info.duration as u64 - 1), s);
    }
}

#[test]
fn a_track_box_of_size_zero_has_no_header() {
    let mut file = ftyp();
    file.extend_from_slice(&moov_with(vec![0, 0, 0, 0, b't', b'r', b'a', b'k']));
    match Reader::read(&file, file.len() as u64) {
        Err(Error::AtomNotFound(name)) => assert_eq!(name, FourCC::from(*b"tkhd")),
        Err(other) => panic!("unexpected error {:?}", other),
        Ok(_) => panic!("a track without a header should not read"),
    }
}

#[test]
fn an_unknown_box_of_size_zero_inside_the_movie_is_refused() {
    let mut file = ftyp();
    file.extend_from_slice(&moov_with(vec![0, 0, 0, 0, b'f', b'r', b'e', b'e']));
    assert!(matches!(
        Reader::read(&file, file.len() as u64),
        Err(Error::InvalidData("box does not reach past its own header"))
    ));
}

#[test]
fn a_bitrate_needs_no_division_only_for_aac_or_no_duration() {
    let file = movie();
    let reader = read(&file);
    assert_eq!(reader.tracks()[&1].stated_bitrate(), None);

    let mut file = movie();
    let at = file.windows(4).position(|w| w == b"mdhd").expect("a media header") + 4 + 4 + 8 + 4;
    file[at..at + 4].copy_from_slice(&be32(0));
    let reader = read(&file);
    assert_eq!(reader.tracks()[&1].stated_bitrate(), Some(0));
}
