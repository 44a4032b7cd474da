//! Video decoding choices; the decoders themselves live outside the
//! library.

use vstd::prelude::*;

verus! {

/// Which decoder a video frame extractor uses.
#[derive(Clone, Copy, PartialEq, Eq, Structural, Debug)]
pub enum EVideoDecoderType {
    Software,
    Hardware,
}

} // verus!
