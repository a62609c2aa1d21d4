use vstd::prelude::*;

verus! {

/// One entry of a layer's tile-reference map: the cell position, still as
/// the decimal key text it had in the manifest, and the tile index it maps
/// to. The key is parsed, and rejected when malformed, by the translator.
#[derive(Debug)]
pub struct TileRef {
    /// The cell position as decimal text (the map key).
    pub key: Vec<u8>,
    /// The tile id in the tileset (the `index` field of the map value).
    pub index: i64,
}

impl View for TileRef {
    type V = (Seq<u8>, i64);

    open spec fn view(&self) -> (Seq<u8>, i64) {
        (self.key@, self.index)
    }
}

/// One layer of the input project, in the manifest's own terms.
#[derive(Debug)]
pub struct PyxelLayer {
    /// The layer's display name.
    pub name: String,
    /// The layer's declared type. It is carried along but ignored: every
    /// layer is rendered as a tile layer.
    pub layer_type: String,
    /// The layer's tile references, in the manifest's map iteration order.
    pub tile_refs: Vec<TileRef>,
}

/// The subset of the input manifest that the conversion consumes, projected
/// into plain values. The caller builds it from the parsed JSON tree; the
/// library validates the sizes and keys it holds.
#[derive(Debug)]
pub struct Manifest {
    /// The project name.
    pub name: String,
    /// The format version string.
    pub version: String,
    /// Total canvas width in pixels.
    pub canvas_width: i64,
    /// Total canvas height in pixels.
    pub canvas_height: i64,
    /// Tile width in pixels.
    pub tile_width: i64,
    /// Tile height in pixels; treated as equal to the width.
    pub tile_height: i64,
    /// The layer count the manifest declares; informational only.
    pub num_layers: i64,
    /// Number of tile columns the output atlas should have.
    pub tiles_wide: i64,
    /// The layers, in the manifest's map iteration order.
    pub layers: Vec<PyxelLayer>,
}

} // verus!
