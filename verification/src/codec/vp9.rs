//! VP9: what a decoder needs to know of the stream.
use vstd::prelude::*;

verus! {

/// Frame size of a VP9 stream.
#[derive(Debug, Clone, Copy, PartialEq, Eq, Structural)]
pub struct Parameters {
    pub width: u16,
    pub height: u16,
}

} // verus!
