use vstd::prelude::*;

verus! {

/// One placed tile inside a layer instance.
///
/// `src` is emitted as `[0, 0]` for every tile, matching the wire format
/// this converter targets, and `f` (the flip bits) is always zero.
#[derive(Clone, Copy, Debug, PartialEq, Eq, Structural)]
pub struct TileInstance {
    /// X pixel coordinate of the tile in the layer.
    pub px_x: i64,
    /// Y pixel coordinate of the tile in the layer.
    pub px_y: i64,
    /// X pixel coordinate of the tile in the tileset.
    pub src_x: i64,
    /// Y pixel coordinate of the tile in the tileset.
    pub src_y: i64,
    /// Flip bits.
    pub f: i64,
    /// Tile id in the corresponding tileset.
    pub t: i64,
    /// Editor-internal datum: the linear cell coordinate
    /// `row * map_width + col` of the tile in the layer grid.
    pub d: i64,
}

/// The single tileset definition of the output document, describing the
/// composed atlas image.
#[derive(Debug, PartialEq)]
pub struct TilesetDefinition {
    /// Unique identifier shown by the editor.
    pub identifier: String,
    /// Unique id of this definition.
    pub uid: i64,
    /// Path to the atlas image, relative to the document.
    pub rel_path: String,
    /// Atlas width in pixels.
    pub px_wid: i64,
    /// Atlas height in pixels.
    pub px_hei: i64,
    /// Edge length in pixels of one tile cell.
    pub tile_grid_size: i64,
    /// Spacing in pixels between tile cells.
    pub spacing: i64,
    /// Padding in pixels around the atlas border.
    pub padding: i64,
}

/// The schema-side description of one layer kind and its tileset binding.
#[derive(Debug, PartialEq)]
pub struct LayerDefinition {
    /// The layer type name; always the tile-layer type here.
    pub layer_definition_type: String,
    /// Unique identifier shown by the editor.
    pub identifier: String,
    /// Unique id of this definition.
    pub uid: i64,
    /// Edge length in pixels of one grid cell.
    pub grid_size: i64,
    /// X offset in pixels applied to all instances.
    pub px_offset_x: i64,
    /// Y offset in pixels applied to all instances.
    pub px_offset_y: i64,
    /// The tileset this layer draws from.
    pub tileset_def_uid: Option<i64>,
    /// Tileset used by auto-layer rules; unused here.
    pub auto_tileset_def_uid: Option<i64>,
    /// Source layer of auto-layer rules; unused here.
    pub auto_source_layer_def_uid: Option<i64>,
}

/// A level-local occurrence of a layer definition, carrying the placed
/// tiles.
#[derive(Debug, PartialEq)]
pub struct LayerInstance {
    /// Grid width of the layer in cells.
    pub c_wid: i64,
    /// Grid height of the layer in cells.
    pub c_hei: i64,
    /// Edge length in pixels of one grid cell.
    pub grid_size: i64,
    /// Identifier shown by the editor.
    pub identifier: String,
    /// Total X pixel offset, definition plus instance.
    pub px_total_offset_x: i64,
    /// Total Y pixel offset, definition plus instance.
    pub px_total_offset_y: i64,
    /// The tileset this instance draws from.
    pub tileset_def_uid: Option<i64>,
    /// Path of that tileset's image, relative to the document.
    pub tileset_rel_path: Option<String>,
    /// The layer type name; always the tile-layer type here.
    pub layer_instance_type: String,
    /// The placed tiles.
    pub grid_tiles: Vec<TileInstance>,
    /// Unique id of the layer definition this instance belongs to.
    pub layer_def_uid: i64,
    /// Unique id of the level this instance belongs to.
    pub level_id: i64,
    /// A tileset overriding the definition's one; unused here.
    pub override_tileset_uid: Option<i64>,
    /// Instance X pixel offset.
    pub px_offset_x: i64,
    /// Instance Y pixel offset.
    pub px_offset_y: i64,
    /// Random seed used by auto-layers.
    pub seed: i64,
    /// Whether the layer is visible.
    pub visible: bool,
}

/// One level of the output document.
#[derive(Debug, PartialEq)]
pub struct Level {
    /// Background color of the level.
    pub bg_color: String,
    /// Optional background color overriding the document default.
    pub level_bg_color: Option<String>,
    /// Optional background image path.
    pub bg_rel_path: Option<String>,
    /// Optional path this level is stored at when levels are external.
    pub external_rel_path: Option<String>,
    /// Unique identifier shown by the editor.
    pub identifier: String,
    /// The level's layer instances, top to bottom.
    pub layer_instances: Option<Vec<LayerInstance>>,
    /// Level width in pixels.
    pub px_wid: i64,
    /// Level height in pixels.
    pub px_hei: i64,
    /// Unique id of this level.
    pub uid: i64,
    /// World X coordinate of the level in pixels.
    pub world_x: i64,
    /// World Y coordinate of the level in pixels.
    pub world_y: i64,
}

/// How levels are laid out in the world.
#[derive(Clone, Copy, Debug, PartialEq, Eq, Structural)]
pub enum WorldLayout {
    /// Levels are placed freely.
    Free,
    /// Levels are placed on a world grid.
    GridVania,
    /// Levels are laid out in one horizontal row.
    LinearHorizontal,
    /// Levels are laid out in one vertical column.
    LinearVertical,
}

/// The reusable definitions of the output document.
#[derive(Debug, PartialEq)]
pub struct Definitions {
    /// The layer definitions, top to bottom.
    pub layers: Vec<LayerDefinition>,
    /// The tileset definitions; exactly one here.
    pub tilesets: Vec<TilesetDefinition>,
}

/// The root of the output document.
#[derive(Debug, PartialEq)]
pub struct Ldtk {
    /// Number of backup files kept per project.
    pub backup_limit: i64,
    /// Whether a backup is made on every save.
    pub backup_on_save: bool,
    /// Default background color of the world.
    pub bg_color: String,
    /// Default grid size for new layers.
    pub default_grid_size: i64,
    /// Default background color of levels.
    pub default_level_bg_color: String,
    /// Default height for new levels.
    pub default_level_height: i64,
    /// Default width for new levels.
    pub default_level_width: i64,
    /// The reusable definitions.
    pub defs: Definitions,
    /// Whether a composite PNG is exported on save.
    pub export_png: bool,
    /// Whether a Tiled export is made on save.
    pub export_tiled: bool,
    /// Whether levels are stored in separate files.
    pub external_levels: bool,
    /// Version of the document schema.
    pub json_version: String,
    /// The levels of the world.
    pub levels: Vec<Level>,
    /// Whether the document is saved without indentation.
    pub minify_json: bool,
    /// Next unique id the editor will hand out.
    pub next_uid: i64,
    /// File naming pattern for exported PNGs.
    pub png_file_pattern: Option<String>,
    /// World grid width in pixels.
    pub world_grid_width: i64,
    /// World grid height in pixels.
    pub world_grid_height: i64,
    /// How levels are laid out in the world.
    pub world_layout: WorldLayout,
}

} // verus!
