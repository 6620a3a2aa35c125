//! What a media source hands on for each sample.
use vstd::prelude::*;
use bytes::Bytes;
use crate::shared_bytes::{bytes_view, bytes_clone};

verus! {

/// A sample with its bytes, ready to be sent on.
#[derive(Debug)]
pub struct Sample {
    pub start_time: u64,
    pub duration: u32,
    pub rendering_offset: i32,
    pub is_sync: bool,
    pub bytes: Bytes,
}

impl Clone for Sample {
    /// The same sample, sharing its bytes.
    fn clone(&self) -> (r: Self)
        ensures
            r.start_time == self.start_time,
            r.duration == self.duration,
            r.rendering_offset == self.rendering_offset,
            r.is_sync == self.is_sync,
            bytes_view(r.bytes) == bytes_view(self.bytes),
    {
        Sample {
            start_time: self.start_time,
            duration: self.duration,
            rendering_offset: self.rendering_offset,
            is_sync: self.is_sync,
            bytes: bytes_clone(&self.bytes),
        }
    }
}

/// What a sample is, from the index alone: its timing, whether it is a
/// keyframe, and how many bytes it takes.
#[derive(Debug, Clone, Copy, PartialEq, Eq, Structural)]
pub struct SampleInfo {
    pub start_time: u64,
    pub duration: u32,
    pub rendering_offset: i32,
    pub is_sync: bool,
    pub size: usize,
}

} // verus!
