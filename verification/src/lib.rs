//! Converts a tile-map project authored in Pyxel Edit's bundle format into
//! an LDtk document plus a composed tileset image.
//!
//! The bundle is a ZIP archive holding one JSON manifest and one PNG per
//! tile. The library selects and orders the tile entries, composes the tiles
//! into a single atlas on a fixed grid, and translates the manifest's
//! layer/tile-reference model into LDtk's level/layer/tile-instance model.
//! Reading the bundle from disk, parsing the manifest's JSON text and
//! writing the two output files are left to the calling program.

pub mod atlas;
pub mod bundle;
pub mod convert;
pub mod digits;
pub mod errors;
pub mod laws;
pub mod ldtk;
pub mod manifest;
pub mod raster;
pub mod tileset;

pub use convert::Coord;
pub use errors::ConvertError;
pub use tileset::SharedData;
