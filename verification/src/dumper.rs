//! What the media dumper decides: which streams it writes, and its running
//! count of what went into the current file.
use vstd::prelude::*;

verus! {

/// A stream the dumper writes as it comes: raw Annex-B H.264 or H.265.
#[derive(Debug, Clone, Copy, PartialEq, Eq, Structural)]
pub enum DumpCodec {
    H264,
    H265,
}

/// The stream a codec name announces: `h264` or `h265`, by their bytes.
pub open spec fn dump_codec(name: Seq<u8>) -> Option<DumpCodec> {
    if name == seq![0x68u8, 0x32u8, 0x36u8, 0x34u8] {
        Some(DumpCodec::H264)
    } else if name == seq![0x68u8, 0x32u8, 0x36u8, 0x35u8] {
        Some(DumpCodec::H265)
    } else {
        None
    }
}

impl DumpCodec {
    /// The stream the codec named `name` is written as; none for a codec the
    /// dumper does not write.
    pub fn of_name(name: &[u8]) -> (r: Option<DumpCodec>)
        ensures
            r == dump_codec(name@),
    {
        if name.len() != 4 || name[0] != 0x68 || name[1] != 0x32 || name[2] != 0x36 {
            proof {
                assert(name@ != seq![0x68u8, 0x32u8, 0x36u8, 0x34u8]) by {
                    if name@.len() == 4 {
                        assert(name@[0] != 0x68 || name@[1] != 0x32 || name@[2] != 0x36);
                    }
                }
                assert(name@ != seq![0x68u8, 0x32u8, 0x36u8, 0x35u8]) by {
                    if name@.len() == 4 {
                        assert(name@[0] != 0x68 || name@[1] != 0x32 || name@[2] != 0x36);
                    }
                }
            }
            return None;
        }
        if name[3] == 0x34 {
            proof {
                assert(name@ =~= seq![0x68u8, 0x32u8, 0x36u8, 0x34u8]);
            }
            Some(DumpCodec::H264)
        } else if name[3] == 0x35 {
            proof {
                assert(name@ =~= seq![0x68u8, 0x32u8, 0x36u8, 0x35u8]);
            }
            Some(DumpCodec::H265)
        } else {
            proof {
                assert(name@[3] != seq![0x68u8, 0x32u8, 0x36u8, 0x34u8][3]);
                assert(name@[3] != seq![0x68u8, 0x32u8, 0x36u8, 0x35u8][3]);
            }
            None
        }
    }

    /// The file extension the stream is written under.
    pub fn extension(&self) -> (r: &'static str)
        ensures
            r@ == match self {
                DumpCodec::H264 => "h264"@,
                DumpCodec::H265 => "h265"@,
            },
    {
        match self {
            DumpCodec::H264 => "h264",
            DumpCodec::H265 => "h265",
        }
    }
}

/// Chunks and bytes written to the current file.
#[derive(Debug, Clone, Copy, PartialEq, Eq, Structural)]
pub struct DumpStats {
    pub chunks: u64,
    pub bytes: u64,
}

/// Whether the progress after `chunks` chunks is marked: every thousandth,
/// as a mark per write would be far too loud.
pub open spec fn marks_progress(chunks: u64) -> bool {
    chunks % 1000 == 0
}

impl DumpStats {
    /// Nothing written yet.
    pub fn new() -> (r: Self)
        ensures
            r == (DumpStats { chunks: 0, bytes: 0 }),
    {
        DumpStats { chunks: 0, bytes: 0 }
    }

    /// Counts a chunk of `len` bytes written, and says whether to mark the
    /// progress. The counts wrap, as the counters they stand for do.
    pub fn wrote(&mut self, len: usize) -> (r: bool)
        ensures
            final(self).chunks == old(self).chunks.wrapping_add(1),
            final(self).bytes == old(self).bytes.wrapping_add(len as u64),
            r == marks_progress(final(self).chunks),
    {
        self.chunks = self.chunks.wrapping_add(1);
        self.bytes = self.bytes.wrapping_add(len as u64);
        self.chunks % 1000 == 0
    }
}

} // verus!
