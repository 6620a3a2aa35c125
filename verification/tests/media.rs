use mstu::codec::{h264, h265, Codec, MediaType};
use mstu::dumper::{DumpCodec, DumpStats};
use mstu::fourcc::{Error as FourCCError, FourCC};
use mstu::library::library_key;
use mstu::logging::target;
use mstu::nalu::{avcc_to_annexb, avcc_to_annexb_in_place, Nalu};
use mstu::source::{announcement, media_time, micros, plays_extension, AtEnd, Playback, Setting};
use mstu::types::{Fixed2_30, FixedI8, FixedU16, FixedU8};

#[test]
fn a_code_reads_as_text_and_number() {
    let code = FourCC::from(*b"avc1");
    assert_eq!(code.as_str(), "avc1");
    assert_eq!(code.value(), 0x6176_6331);
    assert_eq!(FourCC::from_u32(0x6176_6331), code);
    assert_eq!(FourCC::from_u32(code.value()), code);
    assert_eq!(FourCC::from([0xff, 0xfe, 0, 1]).as_str(), "????");
}

#[test]
fn a_code_needs_four_bytes() {
    assert_eq!(FourCC::try_from_slice(b"moov").unwrap(), FourCC::from(*b"moov"));
    assert!(matches!(FourCC::try_from_slice(b"moo"), Err(FourCCError::InvalidLength)));
    assert!(matches!(FourCC::try_from_slice(b"moovs"), Err(FourCCError::InvalidLength)));
}

#[test]
fn fixed_point_splits_into_whole_and_fraction() {
    let v = FixedU16::from_raw(0x0048_8000);
    assert_eq!(v.integer(), 72);
    assert_eq!(v.fraction(), 0x8000);
    assert_eq!(v.raw(), 0x0048_8000);
    let u = FixedU8::from_raw(0x0180);
    assert_eq!(u.integer(), 1);
    assert_eq!(u.fraction(), 0x80);
    let s = FixedI8::from_raw(-0x0180);
    assert_eq!(s.raw(), -0x0180);
    let m = Fixed2_30::from_raw(0x4000_0000);
    assert_eq!(m.integer(), 1);
    assert_eq!(m.fraction(), 0);
}

#[test]
fn rewrites_four_byte_prefixes_in_place() {
    let mut data = [0, 0, 0, 2, 0x65, 0x88, 0, 0, 0, 1, 0x41];
    assert!(avcc_to_annexb_in_place(&mut data));
    assert_eq!(data, [0, 0, 0, 1, 0x65, 0x88, 0, 0, 0, 1, 0x41]);
}

#[test]
fn a_malformed_sample_is_refused() {
    let mut data = [0, 0, 0, 9, 0x65];
    assert!(!avcc_to_annexb_in_place(&mut data));
    assert_eq!(avcc_to_annexb(vec![0, 3, 1], 2), None);
    assert_eq!(avcc_to_annexb(vec![0, 1, 1], 5), None);
}

#[test]
fn short_prefixes_grow_into_start_codes() {
    let converted = avcc_to_annexb(vec![0, 2, 0x65, 0x88, 0, 1, 0x41], 2).unwrap();
    assert_eq!(converted, vec![0, 0, 0, 1, 0x65, 0x88, 0, 0, 0, 1, 0x41]);
    assert_eq!(avcc_to_annexb(vec![1, 7], 1).unwrap(), vec![0, 0, 0, 1, 7]);
    assert_eq!(avcc_to_annexb(Vec::new(), 4).unwrap(), Vec::<u8>::new());
}

#[test]
fn splits_annexb_into_units() {
    let units = Nalu::from_annexb(&[0, 0, 0, 1, 0x67, 0x64, 0, 0, 1, 0x68, 0xeb]);
    assert_eq!(units.len(), 2);
    assert_eq!(units[0].as_bytes(), &[0x67, 0x64]);
    assert_eq!(units[1].as_bytes(), &[0x68, 0xeb]);
    assert_eq!(units[1].size(), 2);
}

#[test]
fn names_log_lines_by_module() {
    assert_eq!(target("mstu::runtime::arena"), "runtime::arena");
    assert_eq!(target("mstu"), "engine");
    assert_eq!(target("other::place"), "other::place");
    assert_eq!(target("::::x"), "x");
    assert_eq!(target(""), "engine");
}

#[test]
fn announces_h264_with_its_parameter_sets() {
    let codec = Codec::H264(h264::Parameters {
        profile: h264::Profile::from((66, 0x40)),
        sps: vec![Nalu::from_slice(&[0x67, 1])],
        pps: vec![Nalu::from_slice(&[0x68, 2])],
    });
    assert_eq!(codec.media_type(), MediaType::Video);
    let (name, extras) = announcement(&codec).unwrap();
    assert_eq!(name, "h264");
    assert_eq!(extras, vec![0, 0, 0, 1, 0x67, 1, 0, 0, 0, 1, 0x68, 2]);
}

#[test]
fn announces_h265_with_its_parameter_sets() {
    let codec = Codec::H265(h265::Parameters {
        sps: vec![Nalu::from_slice(&[0x42])],
        pps: vec![Nalu::from_slice(&[0x44])],
        vps: vec![Nalu::from_slice(&[0x40])],
    });
    let (name, extras) = announcement(&codec).unwrap();
    assert_eq!(name, "h265");
    assert_eq!(extras, vec![0, 0, 0, 1, 0x40, 0, 0, 0, 1, 0x42, 0, 0, 0, 1, 0x44]);
    let vp9 = Codec::VP9(mstu::codec::vp9::Parameters { width: 1, height: 1 });
    assert!(announcement(&vp9).is_none());
}

#[test]
fn converts_between_media_time_and_microseconds() {
    assert_eq!(micros(1500, 1000), 1_500_000);
    assert_eq!(micros(1, 3), 333_333);
    assert_eq!(micros(1500, 0), 0);
    assert_eq!(media_time(1_500_000, 90_000), 135_000);
    assert_eq!(media_time(1, 1000), 0);
}

#[test]
fn reports_the_end_of_the_file_once() {
    let mut playback = Playback::new();
    playback.opened(2_000_000);
    assert_eq!(playback.sample_read(40_000), 1);
    assert_eq!(playback.sample_read(80_000), 2);
    assert_eq!(playback.position, 80_000);
    assert_eq!(playback.at_end(), AtEnd::Announce);
    assert!(playback.ended);
    assert_eq!(playback.at_end(), AtEnd::Quiet);
    assert_eq!(playback.at_end(), AtEnd::Quiet);

    // A seek makes the end reportable again.
    playback.seeked(1_000_000, 1000);
    assert!(!playback.ended);
    assert_eq!(playback.anchor_time, Some(1000));
    assert_eq!(playback.at_end(), AtEnd::Announce);

    // Opening a file starts the count over and keeps the duration until the
    // new one is known.
    playback.reset();
    assert_eq!(playback.samples, 0);
    assert_eq!(playback.position, 0);
    assert_eq!(playback.duration, 2_000_000);
    assert!(!playback.ended);
}

#[test]
fn a_looping_source_starts_over_at_the_end() {
    let mut playback = Playback::new();
    playback.set_looping(true);
    playback.anchor_at(500);
    playback.sample_read(90_000);
    assert_eq!(playback.at_end(), AtEnd::Rewind);
    assert_eq!(playback.position, 0);
    assert_eq!(playback.anchor_time, None);
    assert!(!playback.ended);
    assert_eq!(playback.at_end(), AtEnd::Rewind);
}

#[test]
fn names_the_settings_by_field() {
    assert_eq!(Setting::of(0), Some(Setting::Path));
    assert_eq!(Setting::of(1), Some(Setting::Rate));
    assert_eq!(Setting::of(2), Some(Setting::Loop));
    assert_eq!(Setting::of(3), Some(Setting::Seek));
    assert_eq!(Setting::of(4), None);
}

#[test]
fn dumps_only_the_h26x_streams() {
    assert_eq!(DumpCodec::of_name(b"h264"), Some(DumpCodec::H264));
    assert_eq!(DumpCodec::of_name(b"h265"), Some(DumpCodec::H265));
    assert_eq!(DumpCodec::of_name(b"h266"), None);
    assert_eq!(DumpCodec::of_name(b"vp9"), None);
    assert_eq!(DumpCodec::of_name(b"h2645"), None);
    assert_eq!(DumpCodec::H264.extension(), "h264");
    assert_eq!(DumpCodec::H265.extension(), "h265");
}

#[test]
fn marks_progress_every_thousand_chunks() {
    let mut stats = DumpStats::new();
    let mut marks = Vec::new();
    for chunk in 1..=2500u64 {
        if stats.wrote(10) {
            marks.push(chunk);
        }
    }
    assert_eq!(marks, vec![1000, 2000]);
    assert_eq!(stats, DumpStats { chunks: 2500, bytes: 25_000 });
}

#[test]
fn splitting_annexb_gives_the_units_back() {
    let avcc = vec![0, 0, 0, 3, 0x65, 1, 2, 0, 0, 0, 2, 0x41, 0];
    let annexb = avcc_to_annexb(avcc, 4).unwrap();
    assert_eq!(annexb, vec![0, 0, 0, 1, 0x65, 1, 2, 0, 0, 0, 1, 0x41, 0]);
    let units = Nalu::from_annexb(&annexb);
    assert_eq!(units.len(), 2);
    assert_eq!(units[0].as_bytes(), &[0x65, 1, 2]);
    assert_eq!(units[1].as_bytes(), &[0x41, 0]);
}

#[test]
fn keys_a_library_by_its_stem() {
    assert_eq!(library_key("libmedia_file_source"), "media-file-source");
    assert_eq!(library_key("media_dumper"), "media-dumper");
    assert_eq!(library_key("lib"), "");
    assert_eq!(library_key("li_b"), "li-b");
}

#[test]
fn plays_only_mp4_files() {
    assert!(plays_extension(Some("mp4")));
    assert!(!plays_extension(Some("MP4")));
    assert!(!plays_extension(Some("mp4v")));
    assert!(!plays_extension(Some("mov")));
    assert!(!plays_extension(Some("")));
    assert!(!plays_extension(None));
}
