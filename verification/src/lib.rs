//! Media handling for the streaming engine: fixed-point fields, FourCC codes,
//! NAL units, codec descriptions, the MP4 box parser and sample index; the
//! engine's arena allocator, field mapper and pipeline graph; and what the
//! file source and the dumper decide as they play and write.
pub mod types;
pub mod shared_bytes;
pub mod clock;
pub mod file;
pub mod fourcc;
pub mod codec;
pub mod nalu;
pub mod mp4;
pub mod runtime;
pub mod logging;
pub mod source;
pub mod dumper;
pub mod library;
pub mod rpc;
