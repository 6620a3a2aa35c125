//! Timed text (3GPP TS 26.245) subtitles, which need no decoder setup.
use vstd::prelude::*;

verus! {

/// Timed text carries nothing a decoder has to be told up front.
#[derive(Debug, Clone, Copy, PartialEq, Eq, Structural)]
pub struct Parameters {}

} // verus!
