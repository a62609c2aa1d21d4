use vstd::prelude::*;

verus! {

/// The fatal conditions the conversion pipeline can report.
///
/// The pipeline recovers from nothing: any of these ends a run. The first
/// four describe a damaged or unreadable bundle, the middle two describe
/// sizes that do not fit together, and the last two describe a bad key in a
/// layer's tile-reference map.
#[derive(Clone, Copy, Debug, PartialEq, Eq, Structural)]
pub enum ConvertError {
    /// The input bytes are not a readable archive, or an entry listed by the
    /// archive could not be read back from it.
    ArchiveInvalid,
    /// No entry whose name ends in `json` exists in the archive.
    ManifestMissing,
    /// An entry name starting with `tile` does not carry a decimal number
    /// between that prefix and the extension dot.
    TileNameMalformed,
    /// A tile entry's bytes could not be decoded as an image.
    TileUndecodable,
    /// A decoded tile's pixel size differs from the manifest's tile size.
    TileSizeMismatch,
    /// Canvas and tile sizes are inconsistent: a non-positive size, a canvas
    /// side that is not a multiple of the tile size, or an atlas that would
    /// exceed the supported image dimensions.
    Geometry,
    /// A key of a layer's tile-reference map is not a decimal number that
    /// fits a signed 64-bit integer.
    TileRefKeyMalformed,
    /// A tile-reference key parses, but the grid has no columns to place
    /// it on, or its row pixel coordinate does not fit a signed 64-bit
    /// integer.
    TileRefKeyOverflow,
    /// The composed atlas could not be encoded as an image stream.
    AtlasUnencodable,
}

} // verus!
