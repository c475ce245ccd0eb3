//! The ways a caption overlay can fail.

use vstd::prelude::*;

verus! {

/// Why no composite was produced.
#[derive(Debug, Clone, Copy, PartialEq, Eq, Structural)]
pub enum EngineError {
    /// The photo bytes could not be decoded into a non-empty image.
    DecodeError,
    /// A caption holds no glyph with a non-empty bounding box.
    GlyphLayoutError,
    /// The captions do not fit in the photo's height.
    GeometryError,
    /// The composite could not be encoded.
    EncodeError,
}

} // verus!
