use vstd::prelude::*;

verus! {

/// The failures of the rendering pipeline. All are deterministic functions of
/// the inputs: none is worth retrying.
#[derive(Clone, Copy, Debug, PartialEq, Eq, Structural)]
pub enum ArtError {
    /// The font catalog does not know the requested name.
    FontNotFound,
    /// The font bytes do not decode as an outline font.
    FontParseError,
    /// Layout produced zero positioned glyphs (empty or fully unsupported text).
    NoGlyphs,
}

} // verus!
