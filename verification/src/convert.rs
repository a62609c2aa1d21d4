use vstd::prelude::*;

use crate::digits::{dec_val, is_dec_digits};
use crate::errors::ConvertError;
use crate::ldtk::{
    Definitions, LayerDefinition, LayerInstance, Ldtk, Level, TileInstance, TilesetDefinition,
    WorldLayout,
};
use crate::manifest::{Manifest, PyxelLayer, TileRef};
use crate::tileset::SharedData;
use vstd::string::StringExecFns;

verus! {

/// A pair of pixel coordinates.
pub struct Coord {
    /// Horizontal pixel coordinate.
    pub x: i64,
    /// Vertical pixel coordinate.
    pub y: i64,
}

/// An example of the JSON value shape the manifest stores layers in.
pub fn _json_create_example() {
    let _data: &str = "{ \"description\": desc, \"title\": title }";
}

/// The random seed given to every emitted layer instance.
pub const LAYER_SEED: i64 = 4592355;

/// Holds when a tile-reference key cannot be read as a cell position: it is
/// not a non-empty run of decimal digits, or its value does not fit a
/// signed 64-bit integer.
pub open spec fn key_malformed(key: Seq<u8>) -> bool {
    !(is_dec_digits(key) && dec_val(key) <= i64::MAX)
}

/// Classifies one tile-reference key on a grid of `map_w` columns of
/// tiles `tile_w` pixels wide: a malformed key, a key whose row pixel
/// coordinate cannot be represented (or a grid with no columns to place
/// it on), or no fault. The grid's height plays no part: a key naming a
/// cell below the canvas is translated like any other.
pub open spec fn spec_key_err(key: Seq<u8>, tile_w: int, map_w: int) -> Option<ConvertError> {
    if key_malformed(key) {
        Some(ConvertError::TileRefKeyMalformed)
    } else if map_w < 1 || !((dec_val(key) / map_w) * tile_w <= i64::MAX) {
        Some(ConvertError::TileRefKeyOverflow)
    } else {
        None
    }
}

/// The first fault among a layer's tile references, in map order; `None`
/// when every key is a valid cell of the grid.
pub open spec fn spec_refs_err(refs: Seq<TileRef>, tile_w: int, map_w: int) -> Option<
    ConvertError,
>
    decreases refs.len(),
{
    if refs.len() == 0 {
        None
    } else {
        match spec_key_err(refs.first().key@, tile_w, map_w) {
            Some(e) => Some(e),
            None => spec_refs_err(refs.drop_first(), tile_w, map_w),
        }
    }
}

/// The first fault among all layers' tile references, layers in manifest
/// order; `None` when every key of every layer is a valid cell.
pub open spec fn spec_layers_err(layers: Seq<PyxelLayer>, tile_w: int, map_w: int) -> Option<
    ConvertError,
>
    decreases layers.len(),
{
    if layers.len() == 0 {
        None
    } else {
        match spec_refs_err(layers.first().tile_refs@, tile_w, map_w) {
            Some(e) => Some(e),
            None => spec_layers_err(layers.drop_first(), tile_w, map_w),
        }
    }
}

/// The tile instance emitted for cell position `cell` holding tile `index`,
/// on a grid of `map_w` columns with tiles of edge `tile_w` pixels.
pub open spec fn spec_tile_instance(cell: int, index: i64, tile_w: int, map_w: int) -> TileInstance {
    TileInstance {
        px_x: ((cell % map_w) * tile_w) as i64,
        px_y: ((cell / map_w) * tile_w) as i64,
        src_x: 0,
        src_y: 0,
        f: 0,
        t: index,
        d: cell as i64,
    }
}

/// The tile instances emitted for a layer's tile references, in map order.
pub open spec fn spec_tiles_of(refs: Seq<TileRef>, tile_w: int, map_w: int) -> Seq<TileInstance> {
    refs.map_values(|r: TileRef| spec_tile_instance(dec_val(r.key@), r.index, tile_w, map_w))
}

/// Holds when the manifest's sizes fit together: positive square tiles,
/// canvas sides that are non-negative, hold no more pixels than a 32-bit
/// signed count, and divide exactly into tiles.
pub open spec fn geometry_ok(m: Manifest) -> bool {
    &&& 1 <= m.tile_width
    &&& m.tile_height == m.tile_width
    &&& 0 <= m.canvas_width <= 0x7fff_ffff
    &&& 0 <= m.canvas_height <= 0x7fff_ffff
    &&& m.canvas_width % m.tile_width == 0
    &&& m.canvas_height % m.tile_height == 0
}

/// If every key before position `i` is fault-free, the first fault of the
/// whole reference list is the first fault of the list from `i` on.
proof fn lemma_refs_err_skip(refs: Seq<TileRef>, tile_w: int, map_w: int, i: int)
    requires
        0 <= i <= refs.len(),
        forall|k: int| 0 <= k < i ==> spec_key_err((#[trigger] refs[k]).key@, tile_w, map_w) is None,
    ensures
        spec_refs_err(refs, tile_w, map_w) == spec_refs_err(refs.skip(i), tile_w, map_w),
    decreases i,
{
    if i == 0 {
        assert(refs.skip(0) =~= refs);
    } else {
        let rest = refs.drop_first();
        assert(refs[0] == refs.first());
        lemma_refs_err_skip(rest, tile_w, map_w, i - 1);
        assert(refs.skip(i) =~= rest.skip(i - 1));
    }
}

/// If every layer before position `i` is fault-free, the first fault of
/// the whole layer list is the first fault of the list from `i` on.
proof fn lemma_layers_err_skip(layers: Seq<PyxelLayer>, tile_w: int, map_w: int, i: int)
    requires
        0 <= i <= layers.len(),
        forall|k: int|
            0 <= k < i ==> spec_refs_err((#[trigger] layers[k]).tile_refs@, tile_w, map_w) is None,
    ensures
        spec_layers_err(layers, tile_w, map_w) == spec_layers_err(layers.skip(i), tile_w, map_w),
    decreases i,
{
    if i == 0 {
        assert(layers.skip(0) =~= layers);
    } else {
        let rest = layers.drop_first();
        assert(layers[0] == layers.first());
        lemma_layers_err_skip(rest, tile_w, map_w, i - 1);
        assert(layers.skip(i) =~= rest.skip(i - 1));
    }
}

/// Builds the skeleton of a layer instance: every field that does not
/// depend on the manifest is set to the value the output document carries,
/// and the definition reference is set to `layer_uid`. The caller fills in
/// the grid dimensions, the tileset reference and the tiles.
fn build_ldtk_layer_instance(layer_uid: i64) -> (r: LayerInstance)
    ensures
        r.c_wid == 0,
        r.c_hei == 0,
        r.grid_size == 0,
        r.identifier@ == "Level1"@,
        r.px_total_offset_x == 0,
        r.px_total_offset_y == 0,
        r.tileset_def_uid == Some(layer_uid),
        r.tileset_rel_path matches Some(p) && p@ == ""@,
        r.layer_instance_type@ == "Tiles"@,
        r.grid_tiles@ =~= Seq::<TileInstance>::empty(),
        r.layer_def_uid == layer_uid,
        r.level_id == 0,
        r.override_tileset_uid is None,
        r.px_offset_x == 0,
        r.px_offset_y == 0,
        r.seed == LAYER_SEED,
        r.visible,
{
    LayerInstance {
        c_wid: 0,
        c_hei: 0,
        grid_size: 0,
        identifier: "Level1".to_owned(),
        px_total_offset_x: 0,
        px_total_offset_y: 0,
        tileset_def_uid: Some(layer_uid),
        tileset_rel_path: Some("".to_owned()),
        layer_instance_type: "Tiles".to_owned(),
        grid_tiles: Vec::new(),
        layer_def_uid: layer_uid,
        level_id: 0,
        override_tileset_uid: None,
        px_offset_x: 0,
        px_offset_y: 0,
        seed: LAYER_SEED,
        visible: true,
    }
}

/// Builds a level named `name` with unique id `uid` and no content: empty
/// identifier-level colors, no backgrounds, an empty layer-instance list
/// and zero pixel dimensions. The caller fills in dimensions and layers.
pub fn build_ldtk_level(uid: usize, name: &str) -> (r: Level)
    requires
        uid <= i64::MAX,
    ensures
        r.bg_color@ == ""@,
        r.level_bg_color is None,
        r.bg_rel_path is None,
        r.external_rel_path is None,
        r.identifier@ == name@,
        r.layer_instances matches Some(l) && l@ =~= Seq::<LayerInstance>::empty(),
        r.px_wid == 0,
        r.px_hei == 0,
        r.uid == uid,
        r.world_x == 0,
        r.world_y == 0,
{
    Level {
        bg_color: "".to_owned(),
        level_bg_color: None,
        bg_rel_path: None,
        external_rel_path: None,
        identifier: name.to_owned(),
        layer_instances: Some(Vec::new()),
        px_wid: 0,
        px_hei: 0,
        uid: uid as i64,
        world_x: 0,
        world_y: 0,
    }
}

/// Builds the document root: global defaults, the single tileset
/// definition, and one layer definition per input layer in reverse input
/// order, the definition at position `d` carrying unique id `d` and the
/// name of input layer `len - 1 - d`. The level list starts empty.
fn build_ldtk(tileset: TilesetDefinition, layers: &Vec<PyxelLayer>) -> (r: Ldtk)
    requires
        layers@.len() <= i64::MAX,
    ensures
        r.backup_limit == 3,
        r.backup_on_save,
        r.bg_color@ == "#000000"@,
        r.default_grid_size == tileset.tile_grid_size,
        r.default_level_bg_color@ == "#333333"@,
        r.default_level_height == 256,
        r.default_level_width == 256,
        r.export_png == false,
        r.export_tiled == false,
        r.external_levels == false,
        r.json_version@ == "0.8.1"@,
        r.levels@ =~= Seq::<Level>::empty(),
        r.minify_json == false,
        r.next_uid == 1,
        r.png_file_pattern is None,
        r.world_grid_width == 128,
        r.world_grid_height == 128,
        r.world_layout == WorldLayout::Free,
        r.defs.tilesets@.len() == 1 && r.defs.tilesets@[0] == tileset,
        r.defs.layers@.len() == layers@.len(),
        forall|d: int|
            0 <= d < layers@.len() ==> {
                let def = #[trigger] r.defs.layers@[d];
                &&& def.layer_definition_type@ == "Tiles"@
                &&& def.identifier@ == layers@[layers@.len() - 1 - d].name@
                &&& def.uid == d
                &&& def.grid_size == tileset.tile_grid_size
                &&& def.px_offset_x == 0
                &&& def.px_offset_y == 0
                &&& def.tileset_def_uid == Some(tileset.uid)
                &&& def.auto_tileset_def_uid is None
                &&& def.auto_source_layer_def_uid is None
            },
{
    let tile_grid_size = tileset.tile_grid_size;
    let tileset_uid = tileset.uid;
    let n = layers.len();
    let mut layer_definitions: Vec<LayerDefinition> = Vec::new();

    let mut li: usize = 0;
    while li < n
        invariant
            0 <= li <= n,
            n == layers@.len() <= i64::MAX,
            layer_definitions@.len() == li,
            forall|d: int|
                0 <= d < li ==> {
                    let def = #[trigger] layer_definitions@[d];
                    &&& def.layer_definition_type@ == "Tiles"@
                    &&& def.identifier@ == layers@[n - 1 - d].name@
                    &&& def.uid == d
                    &&& def.grid_size == tile_grid_size
                    &&& def.px_offset_x == 0
                    &&& def.px_offset_y == 0
                    &&& def.tileset_def_uid == Some(tileset_uid)
                    &&& def.auto_tileset_def_uid is None
                    &&& def.auto_source_layer_def_uid is None
                },
        decreases n - li,
    {
        let layer = &layers[n - 1 - li];
        layer_definitions.push(
            LayerDefinition {
                layer_definition_type: "Tiles".to_owned(),
                identifier: layer.name.clone(),
                uid: li as i64,
                grid_size: tile_grid_size,
                px_offset_x: 0,
                px_offset_y: 0,
                tileset_def_uid: Some(tileset_uid),
                auto_tileset_def_uid: None,
                auto_source_layer_def_uid: None,
            },
        );
        li = li + 1;
    }

    let defs = Definitions { layers: layer_definitions, tilesets: vec![tileset] };

    Ldtk {
        backup_limit: 3,
        backup_on_save: true,
        bg_color: "#000000".to_owned(),
        default_grid_size: tile_grid_size,
        default_level_bg_color: "#333333".to_owned(),
        default_level_height: 256,
        default_level_width: 256,
        defs,
        export_png: false,
        export_tiled: false,
        external_levels: false,
        json_version: "0.8.1".to_owned(),
        levels: Vec::new(),
        minify_json: false,
        next_uid: 1,
        png_file_pattern: None,
        world_grid_width: 128,
        world_grid_height: 128,
        world_layout: WorldLayout::Free,
    }
}

/// Translates one layer's tile references into tile instances.
///
/// Each key is read as a decimal cell position; the instance's pixel
/// coordinates and editor datum follow from that position on a grid of
/// `map_w` columns, whatever the grid's height: `map_h` has no effect on
/// the result. The first bad key, in map order, aborts the translation
/// with its fault: a malformed key, or one whose row pixel coordinate
/// cannot be represented.
fn pyxel_tilerefs_to_ldtk(tile_w: i64, tilerefs: &Vec<TileRef>, map_w: i64, map_h: i64) -> (r:
    Result<Vec<TileInstance>, ConvertError>)
    requires
        1 <= tile_w,
        0 <= map_w,
        map_w * tile_w <= i64::MAX,
    ensures
        (r is Ok) <==> spec_refs_err(tilerefs@, tile_w as int, map_w as int) is None,
        r matches Ok(v) ==> v@ == spec_tiles_of(tilerefs@, tile_w as int, map_w as int),
        r matches Err(e) ==> Some(e) == spec_refs_err(tilerefs@, tile_w as int, map_w as int),
{
    let mut grid_tiles: Vec<TileInstance> = Vec::new();
    let n = tilerefs.len();
    let ghost gtw = tile_w as int;
    let ghost gmw = map_w as int;

    let mut i: usize = 0;
    while i < n
        invariant
            0 <= i <= n,
            n == tilerefs@.len(),
            1 <= tile_w,
            0 <= map_w,
            map_w * tile_w <= i64::MAX,
            gtw == tile_w as int,
            gmw == map_w as int,
            forall|k: int| 0 <= k < i ==> spec_key_err((#[trigger] tilerefs@[k]).key@, gtw, gmw) is None,
            grid_tiles@ == spec_tiles_of(tilerefs@.subrange(0, i as int), gtw, gmw),
        decreases n - i,
    {
        let tile_ref = &tilerefs[i];
        let ghost key = tile_ref.key@;
        let parsed = crate::digits::parse_dec_range(&tile_ref.key, 0, tile_ref.key.len());
        proof {
            assert(key =~= key.subrange(0, key.len() as int));
        }
        let cell: i64 = match parsed {
            None => {
                proof {
                    lemma_refs_err_skip(tilerefs@, gtw, gmw, i as int);
                    assert(tilerefs@.skip(i as int).first() == tilerefs@[i as int]);
                }
                return Err(ConvertError::TileRefKeyMalformed);
            },
            Some(v) => {
                if v > i64::MAX as u64 {
                    proof {
                        lemma_refs_err_skip(tilerefs@, gtw, gmw, i as int);
                        assert(tilerefs@.skip(i as int).first() == tilerefs@[i as int]);
                    }
                    return Err(ConvertError::TileRefKeyMalformed);
                }
                v as i64
            },
        };
        if map_w < 1 {
            proof {
                lemma_refs_err_skip(tilerefs@, gtw, gmw, i as int);
                assert(tilerefs@.skip(i as int).first() == tilerefs@[i as int]);
            }
            return Err(ConvertError::TileRefKeyOverflow);
        }
        let pos_x: i64 = cell % map_w;
        let pos_y: i64 = cell / map_w;
        proof {
            vstd::arithmetic::div_mod::lemma_fundamental_div_mod(i64::MAX as int, gtw);
        }
        if pos_y > i64::MAX / tile_w {
            proof {
                assert(pos_y * tile_w > i64::MAX) by (nonlinear_arith)
                    requires
                        pos_y >= i64::MAX as int / gtw + 1,
                        gtw >= 1,
                        i64::MAX as int == gtw * (i64::MAX as int / gtw) + i64::MAX as int % gtw,
                        i64::MAX as int % gtw < gtw,
                        gtw == tile_w as int,
                ;
                lemma_refs_err_skip(tilerefs@, gtw, gmw, i as int);
                assert(tilerefs@.skip(i as int).first() == tilerefs@[i as int]);
            }
            return Err(ConvertError::TileRefKeyOverflow);
        }
        proof {
            assert(0 <= pos_x < map_w);
            assert(0 <= pos_y);
            assert(pos_y * tile_w <= (i64::MAX as int / gtw) * gtw) by (nonlinear_arith)
                requires 0 <= pos_y <= i64::MAX as int / gtw, 1 <= gtw, gtw == tile_w as int;
            assert((i64::MAX as int / gtw) * gtw <= i64::MAX) by (nonlinear_arith)
                requires
                    i64::MAX as int == gtw * (i64::MAX as int / gtw) + i64::MAX as int % gtw,
                    i64::MAX as int % gtw >= 0,
            ;
            assert(pos_x * tile_w < map_w * tile_w) by (nonlinear_arith)
                requires pos_x < map_w, 1 <= tile_w;
            assert(0 <= pos_x * tile_w) by (nonlinear_arith)
                requires 0 <= pos_x, 1 <= tile_w;
            assert(0 <= pos_y * tile_w) by (nonlinear_arith)
                requires 0 <= pos_y, 1 <= tile_w;
        }
        let inst = TileInstance {
            px_x: pos_x * tile_w,
            px_y: pos_y * tile_w,
            src_x: 0,
            src_y: 0,
            f: 0,
            t: tile_ref.index,
            d: cell,
        };
        grid_tiles.push(inst);
        proof {
            assert(inst == spec_tile_instance(dec_val(key), tile_ref.index, gtw, gmw));
            assert(grid_tiles@ =~= spec_tiles_of(tilerefs@.subrange(0, i + 1), gtw, gmw)) by {
                assert(tilerefs@.subrange(0, i + 1).drop_last() =~= tilerefs@.subrange(0, i as int));
                assert forall|j: int| 0 <= j < i + 1 implies
                    #[trigger] spec_tiles_of(tilerefs@.subrange(0, i + 1), gtw, gmw)[j]
                        == grid_tiles@[j] by {
                    assert(tilerefs@.subrange(0, i + 1)[j] == tilerefs@[j]);
                    if j < i {
                        assert(tilerefs@.subrange(0, i as int)[j] == tilerefs@[j]);
                    }
                }
            }
        }
        i = i + 1;
    }
    proof {
        lemma_refs_err_skip(tilerefs@, gtw, gmw, n as int);
        assert(tilerefs@.skip(n as int) =~= Seq::<TileRef>::empty());
        assert(tilerefs@.subrange(0, n as int) =~= tilerefs@);
    }
    Ok(grid_tiles)
}

/// Translates a manifest and the composed atlas's geometry into an LDtk
/// document.
///
/// The manifest's sizes must fit together ([`geometry_ok`]); otherwise the
/// geometry fault is reported. One level is built per input layer in input
/// order, carrying one layer instance whose tiles follow each reference
/// key; the first bad key, scanning layers in order, aborts the run with
/// its fault. Layer definitions are built in reverse input order.
pub fn convert(m: &Manifest, data: &SharedData) -> (r: Result<Ldtk, ConvertError>)
    requires
        m.layers@.len() <= i64::MAX,
    ensures
        (r is Ok) <==> geometry_ok(*m) && spec_layers_err(
            m.layers@,
            m.tile_width as int,
            m.canvas_width / m.tile_width,
        ) is None,
        !geometry_ok(*m) ==> r == Err::<Ldtk, ConvertError>(ConvertError::Geometry),
        geometry_ok(*m) ==> (r matches Err(e) ==> Some(e) == spec_layers_err(
            m.layers@,
            m.tile_width as int,
            m.canvas_width / m.tile_width,
        )),
        r matches Ok(doc) ==> {
            let map_w = m.canvas_width / m.tile_width;
            let map_h = m.canvas_height / m.tile_height;
            &&& doc.backup_limit == 3
            &&& doc.backup_on_save
            &&& doc.bg_color@ == "#000000"@
            &&& doc.default_grid_size == data.tile_w
            &&& doc.default_level_bg_color@ == "#333333"@
            &&& doc.default_level_height == 256
            &&& doc.default_level_width == 256
            &&& doc.export_png == false
            &&& doc.export_tiled == false
            &&& doc.external_levels == false
            &&& doc.minify_json == false
            &&& doc.next_uid == 1
            &&& doc.png_file_pattern is None
            &&& doc.world_grid_width == 128
            &&& doc.world_grid_height == 128
            &&& doc.world_layout == WorldLayout::Free
            &&& doc.defs.tilesets@.len() == 1
            &&& doc.defs.tilesets@[0].identifier@ == data.tileset_filename@
            &&& doc.defs.tilesets@[0].uid == 1
            &&& doc.defs.tilesets@[0].rel_path@ == data.tileset_filename@ + ".png"@
            &&& doc.defs.tilesets@[0].px_wid == data.tileset_w
            &&& doc.defs.tilesets@[0].px_hei == data.tileset_h
            &&& doc.defs.tilesets@[0].tile_grid_size == data.tile_w
            &&& doc.defs.tilesets@[0].spacing == 0
            &&& doc.defs.tilesets@[0].padding == 0
            &&& doc.defs.layers@.len() == m.layers@.len()
            &&& (forall|d: int|
                0 <= d < m.layers@.len() ==> {
                    let def = #[trigger] doc.defs.layers@[d];
                    &&& def.uid == d
                    &&& def.identifier@ == m.layers@[m.layers@.len() - 1 - d].name@
                    &&& def.layer_definition_type@ == "Tiles"@
                    &&& def.grid_size == data.tile_w
                    &&& def.tileset_def_uid == Some(1i64)
                })
            &&& doc.json_version@ == "0.8.1"@
            &&& doc.levels@.len() == m.layers@.len()
            &&& (forall|li: int|
                0 <= li < m.layers@.len() ==> {
                    let level = #[trigger] doc.levels@[li];
                    &&& level.uid == li
                    &&& level.identifier@ == m.layers@[li].name@
                    &&& level.px_wid == m.canvas_width
                    &&& level.px_hei == m.canvas_height
                    &&& level.world_x == 0
                    &&& level.world_y == 0
                    &&& level.layer_instances matches Some(insts) && insts@.len() == 1
                        && {
                        let inst = insts@[0];
                        &&& inst.c_wid == map_w
                        &&& inst.c_hei == map_h
                        &&& inst.grid_size == m.tile_width
                        &&& inst.identifier@ == "Level1"@
                        &&& inst.layer_instance_type@ == "Tiles"@
                        &&& inst.tileset_def_uid == Some(1i64)
                        &&& inst.tileset_rel_path matches Some(p) && p@ == data.tileset_filename@
                            + ".png"@
                        &&& inst.layer_def_uid == m.layers@.len() - 1 - li
                        &&& inst.level_id == 0
                        &&& inst.override_tileset_uid is None
                        &&& inst.px_offset_x == 0
                        &&& inst.px_offset_y == 0
                        &&& inst.seed == LAYER_SEED
                        &&& inst.visible
                        &&& inst.grid_tiles@ == spec_tiles_of(
                            m.layers@[li].tile_refs@,
                            m.tile_width as int,
                            map_w,
                        )
                    }
                })
        },
{
    let tileset_uid: i64 = 1;
    let mut tileset_filename: String = data.tileset_filename.clone();
    tileset_filename.append(".png");

    if !(m.tile_width >= 1 && m.tile_height == m.tile_width && m.canvas_width >= 0
        && m.canvas_width <= 0x7fff_ffff && m.canvas_height >= 0
        && m.canvas_height <= 0x7fff_ffff && m.canvas_width % m.tile_width == 0
        && m.canvas_height % m.tile_height == 0) {
        return Err(ConvertError::Geometry);
    }

    let map_w = m.canvas_width / m.tile_width;
    let map_h = m.canvas_height / m.tile_height;
    proof {
        assert(map_w == m.canvas_width as int / m.tile_width as int);
        assert(map_h == m.canvas_height as int / m.tile_height as int);
        assert(map_w * m.tile_width == m.canvas_width) by {
            vstd::arithmetic::div_mod::lemma_fundamental_div_mod(
                m.canvas_width as int,
                m.tile_width as int,
            );
        }
    }

    let tileset = TilesetDefinition {
        identifier: data.tileset_filename.clone(),
        uid: tileset_uid,
        rel_path: tileset_filename.clone(),
        px_wid: data.tileset_w,
        px_hei: data.tileset_h,
        tile_grid_size: data.tile_w,
        spacing: 0,
        padding: 0,
    };

    let mut ldtk: Ldtk = build_ldtk(tileset, &m.layers);

    let n = m.layers.len();
    let mut li: usize = 0;
    while li < n
        invariant
            0 <= li <= n,
            n == m.layers@.len() <= i64::MAX,
            geometry_ok(*m),
            tileset_uid == 1,
            1 <= m.tile_width,
            0 <= map_w,
            0 <= map_h,
            map_w * m.tile_width <= i64::MAX,
            map_w == m.canvas_width / m.tile_width,
            map_h == m.canvas_height / m.tile_height,
            map_w * m.tile_width == m.canvas_width,
            tileset_filename@ == data.tileset_filename@ + ".png"@,
            forall|k: int|
                0 <= k < li ==> spec_refs_err(
                    (#[trigger] m.layers@[k]).tile_refs@,
                    m.tile_width as int,
                    map_w as int,
                ) is None,
            ldtk.levels@.len() == li,
            forall|k: int|
                0 <= k < li ==> {
                    let level = #[trigger] ldtk.levels@[k];
                    &&& level.uid == k
                    &&& level.identifier@ == m.layers@[k].name@
                    &&& level.px_wid == m.canvas_width
                    &&& level.px_hei == m.canvas_height
                    &&& level.world_x == 0
                    &&& level.world_y == 0
                    &&& level.layer_instances matches Some(insts) && insts@.len() == 1
                        && {
                        let inst = insts@[0];
                        &&& inst.c_wid == map_w
                        &&& inst.c_hei == map_h
                        &&& inst.grid_size == m.tile_width
                        &&& inst.identifier@ == "Level1"@
                        &&& inst.layer_instance_type@ == "Tiles"@
                        &&& inst.tileset_def_uid == Some(1i64)
                        &&& inst.tileset_rel_path matches Some(p) && p@ == data.tileset_filename@
                            + ".png"@
                        &&& inst.layer_def_uid == n - 1 - k
                        &&& inst.level_id == 0
                        &&& inst.override_tileset_uid is None
                        &&& inst.px_offset_x == 0
                        &&& inst.px_offset_y == 0
                        &&& inst.seed == LAYER_SEED
                        &&& inst.visible
                        &&& inst.grid_tiles@ == spec_tiles_of(
                            m.layers@[k].tile_refs@,
                            m.tile_width as int,
                            map_w as int,
                        )
                    }
                },
            ldtk.defs.tilesets@.len() == 1,
            ldtk.defs.tilesets@[0].identifier@ == data.tileset_filename@,
            ldtk.defs.tilesets@[0].uid == 1,
            ldtk.defs.tilesets@[0].rel_path@ == data.tileset_filename@ + ".png"@,
            ldtk.defs.tilesets@[0].px_wid == data.tileset_w,
            ldtk.defs.tilesets@[0].px_hei == data.tileset_h,
            ldtk.defs.tilesets@[0].tile_grid_size == data.tile_w,
            ldtk.defs.tilesets@[0].spacing == 0,
            ldtk.defs.tilesets@[0].padding == 0,
            ldtk.defs.layers@.len() == n,
            forall|d: int|
                0 <= d < n ==> {
                    let def = #[trigger] ldtk.defs.layers@[d];
                    &&& def.uid == d
                    &&& def.identifier@ == m.layers@[n - 1 - d].name@
                    &&& def.layer_definition_type@ == "Tiles"@
                    &&& def.grid_size == data.tile_w
                    &&& def.tileset_def_uid == Some(1i64)
                },
            ldtk.json_version@ == "0.8.1"@,
            ldtk.backup_limit == 3,
            ldtk.backup_on_save,
            ldtk.bg_color@ == "#000000"@,
            ldtk.default_grid_size == data.tile_w,
            ldtk.default_level_bg_color@ == "#333333"@,
            ldtk.default_level_height == 256,
            ldtk.default_level_width == 256,
            ldtk.export_png == false,
            ldtk.export_tiled == false,
            ldtk.external_levels == false,
            ldtk.minify_json == false,
            ldtk.next_uid == 1,
            ldtk.png_file_pattern is None,
            ldtk.world_grid_width == 128,
            ldtk.world_grid_height == 128,
            ldtk.world_layout == WorldLayout::Free,
        decreases n - li,
    {
        let layer = &m.layers[li];

        let grid_tiles = match pyxel_tilerefs_to_ldtk(m.tile_width, &layer.tile_refs, map_w, map_h)
            {
            Ok(v) => v,
            Err(e) => {
                proof {
                    lemma_layers_err_skip(m.layers@, m.tile_width as int, map_w as int, li as int);
                    assert(m.layers@.skip(li as int).first() == m.layers@[li as int]);
                }
                return Err(e);
            },
        };

        let mut layer_instance = build_ldtk_layer_instance((n - 1 - li) as i64);
        layer_instance.c_wid = map_w;
        layer_instance.c_hei = map_h;
        layer_instance.grid_size = m.tile_width;
        layer_instance.grid_tiles = grid_tiles;
        layer_instance.tileset_rel_path = Some(tileset_filename.clone());
        layer_instance.tileset_def_uid = Some(tileset_uid);

        let mut level = build_ldtk_level(li, layer.name.as_str());
        let mut insts: Vec<LayerInstance> = Vec::new();
        insts.push(layer_instance);
        level.layer_instances = Some(insts);
        level.px_wid = m.canvas_width;
        level.px_hei = m.canvas_height;

        ldtk.levels.push(level);
        li = li + 1;
    }
    proof {
        lemma_layers_err_skip(m.layers@, m.tile_width as int, map_w as int, n as int);
        assert(m.layers@.skip(n as int) =~= Seq::<PyxelLayer>::empty());
    }
    Ok(ldtk)
}

} // verus!
