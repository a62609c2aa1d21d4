use pyxel2ldtk::convert::convert;
use pyxel2ldtk::errors::ConvertError;
use pyxel2ldtk::manifest::{Manifest, PyxelLayer, TileRef};
use pyxel2ldtk::tileset::SharedData;

fn layer(name: &str, refs: &[(&str, i64)]) -> PyxelLayer {
    PyxelLayer {
        name: name.to_owned(),
        layer_type: "tile_layer".to_owned(),
        tile_refs: refs
            .iter()
            .map(|(k, ix)| TileRef { key: k.as_bytes().to_vec(), index: *ix })
            .collect(),
    }
}

fn manifest(canvas: (i64, i64), tile: i64, layers: Vec<PyxelLayer>) -> Manifest {
    Manifest {
        name: "proj".to_owned(),
        version: "1.0".to_owned(),
        canvas_width: canvas.0,
        canvas_height: canvas.1,
        tile_width: tile,
        tile_height: tile,
        num_layers: layers.len() as i64,
        tiles_wide: 2,
        layers,
    }
}

fn shared(stem: &str, w: i64, h: i64, tile: i64) -> SharedData {
    SharedData {
        tileset_filename: stem.to_owned(),
        tileset_w: w,
        tileset_h: h,
        tile_w: tile,
        tile_h: tile,
    }
}

#[test]
fn empty_layer() {
    let m = manifest((16, 16), 8, vec![layer("Only", &[])]);
    let doc = convert(&m, &shared("proj", 16, 16, 8)).unwrap();
    assert_eq!(doc.levels.len(), 1);
    let insts = doc.levels[0].layer_instances.as_ref().unwrap();
    assert_eq!(insts.len(), 1);
    assert_eq!(insts[0].grid_tiles.len(), 0);
    assert_eq!(insts[0].c_wid, 2);
    assert_eq!(insts[0].c_hei, 2);
}

#[test]
fn single_tile_at_origin() {
    let m = manifest((16, 16), 8, vec![layer("Only", &[("0", 0)])]);
    let doc = convert(&m, &shared("proj", 8, 16, 8)).unwrap();
    let insts = doc.levels[0].layer_instances.as_ref().unwrap();
    let t = &insts[0].grid_tiles[0];
    assert_eq!((t.px_x, t.px_y), (0, 0));
    assert_eq!((t.src_x, t.src_y), (0, 0));
    assert_eq!(t.f, 0);
    assert_eq!(t.t, 0);
    assert_eq!(t.d, 0);
}

#[test]
fn off_origin_tile() {
    let m = manifest((32, 32), 8, vec![layer("Only", &[("5", 3)])]);
    let doc = convert(&m, &shared("proj", 16, 24, 8)).unwrap();
    let insts = doc.levels[0].layer_instances.as_ref().unwrap();
    assert_eq!(insts[0].grid_tiles.len(), 1);
    let t = &insts[0].grid_tiles[0];
    assert_eq!((t.px_x, t.px_y), (8, 8));
    assert_eq!((t.src_x, t.src_y), (0, 0));
    assert_eq!(t.f, 0);
    assert_eq!(t.t, 3);
    assert_eq!(t.d, 5);
}

#[test]
fn two_layers_preserve_reverse_definition_order() {
    let m = manifest(
        (16, 16),
        8,
        vec![layer("Background", &[]), layer("Foreground", &[])],
    );
    let doc = convert(&m, &shared("proj", 16, 16, 8)).unwrap();

    let defs = &doc.defs.layers;
    assert_eq!(defs.len(), 2);
    assert_eq!(defs[0].uid, 0);
    assert_eq!(defs[0].identifier, "Foreground");
    assert_eq!(defs[1].uid, 1);
    assert_eq!(defs[1].identifier, "Background");

    assert_eq!(doc.levels.len(), 2);
    assert_eq!(doc.levels[0].uid, 0);
    assert_eq!(doc.levels[0].identifier, "Background");
    assert_eq!(doc.levels[1].uid, 1);
    assert_eq!(doc.levels[1].identifier, "Foreground");

    let inst0 = &doc.levels[0].layer_instances.as_ref().unwrap()[0];
    let inst1 = &doc.levels[1].layer_instances.as_ref().unwrap()[0];
    assert_eq!(inst0.layer_def_uid, 1);
    assert_eq!(inst1.layer_def_uid, 0);
}

#[test]
fn non_exact_canvas_division_is_geometry_failure() {
    let m = manifest((30, 16), 8, vec![layer("Only", &[])]);
    assert_eq!(convert(&m, &shared("proj", 16, 16, 8)), Err(ConvertError::Geometry));
}

#[test]
fn malformed_tile_ref_key() {
    let m = manifest((16, 16), 8, vec![layer("Only", &[("zero", 0)])]);
    assert_eq!(
        convert(&m, &shared("proj", 16, 16, 8)),
        Err(ConvertError::TileRefKeyMalformed)
    );
}

#[test]
fn negative_looking_tile_ref_key_is_malformed() {
    let m = manifest((16, 16), 8, vec![layer("Only", &[("-1", 0)])]);
    assert_eq!(
        convert(&m, &shared("proj", 16, 16, 8)),
        Err(ConvertError::TileRefKeyMalformed)
    );
}

#[test]
fn key_below_the_canvas_still_emits() {
    // a 2 by 2 grid has cells 0..3; key 4 names the cell right below it
    let m = manifest((16, 16), 8, vec![layer("Only", &[("4", 0)])]);
    let doc = convert(&m, &shared("proj", 16, 16, 8)).unwrap();
    let t = &doc.levels[0].layer_instances.as_ref().unwrap()[0].grid_tiles[0];
    assert_eq!((t.px_x, t.px_y), (0, 16));
    assert_eq!(t.t, 0);
    assert_eq!(t.d, 4);
}

#[test]
fn translation_ignores_the_grid_height() {
    let key = &[("2", 7)];
    let tall = manifest((16, 32), 8, vec![layer("Only", key)]);
    let short = manifest((16, 8), 8, vec![layer("Only", key)]);
    let tile_of = |m: &Manifest, h: i64| {
        let doc = convert(m, &shared("proj", 16, h, 8)).unwrap();
        doc.levels[0].layer_instances.as_ref().unwrap()[0].grid_tiles[0]
    };
    assert_eq!(tile_of(&tall, 32), tile_of(&short, 8));
}

#[test]
fn overflowing_key_is_rejected() {
    // i64::MAX parses, but its row pixel coordinate cannot be represented
    let m = manifest((16, 16), 8, vec![layer("Only", &[("9223372036854775807", 0)])]);
    assert_eq!(
        convert(&m, &shared("proj", 16, 16, 8)),
        Err(ConvertError::TileRefKeyOverflow)
    );
}

#[test]
fn key_on_a_zero_width_canvas_is_rejected() {
    let m = manifest((0, 0), 8, vec![layer("Only", &[("0", 0)])]);
    assert_eq!(
        convert(&m, &shared("proj", 8, 8, 8)),
        Err(ConvertError::TileRefKeyOverflow)
    );
}

#[test]
fn first_bad_key_wins() {
    let m = manifest(
        (16, 16),
        8,
        vec![layer("A", &[("0", 1), ("99", 2)]), layer("B", &[("x", 3)])],
    );
    assert_eq!(
        convert(&m, &shared("proj", 16, 16, 8)),
        Err(ConvertError::TileRefKeyMalformed)
    );
}

#[test]
fn document_constants() {
    let m = manifest((16, 16), 8, vec![layer("Only", &[])]);
    let doc = convert(&m, &shared("proj", 16, 16, 8)).unwrap();
    assert_eq!(doc.backup_limit, 3);
    assert!(doc.backup_on_save);
    assert_eq!(doc.bg_color, "#000000");
    assert_eq!(doc.default_level_bg_color, "#333333");
    assert_eq!(doc.default_level_width, 256);
    assert_eq!(doc.default_level_height, 256);
    assert_eq!(doc.json_version, "0.8.1");
    assert!(!doc.minify_json);
    assert_eq!(doc.next_uid, 1);
    assert_eq!(doc.default_grid_size, 8);

    assert_eq!(doc.defs.tilesets.len(), 1);
    let ts = &doc.defs.tilesets[0];
    assert_eq!(ts.uid, 1);
    assert_eq!(ts.identifier, "proj");
    assert_eq!(ts.rel_path, "proj.png");
    assert_eq!(ts.px_wid, 16);
    assert_eq!(ts.px_hei, 16);
    assert_eq!(ts.tile_grid_size, 8);

    let level = &doc.levels[0];
    assert_eq!(level.px_wid, 16);
    assert_eq!(level.px_hei, 16);
    let inst = &level.layer_instances.as_ref().unwrap()[0];
    assert_eq!(inst.identifier, "Level1");
    assert_eq!(inst.layer_instance_type, "Tiles");
    assert_eq!(inst.tileset_def_uid, Some(1));
    assert_eq!(inst.tileset_rel_path.as_deref(), Some("proj.png"));
    assert_eq!(inst.seed, 4592355);
    assert!(inst.visible);
    assert_eq!(inst.grid_size, 8);
}

#[test]
fn level_skeleton_carries_uid_and_name() {
    let level = pyxel2ldtk::convert::build_ldtk_level(7, "Cave");
    assert_eq!(level.uid, 7);
    assert_eq!(level.identifier, "Cave");
    assert_eq!(level.px_wid, 0);
    assert_eq!(level.px_hei, 0);
    assert!(level.layer_instances.as_ref().unwrap().is_empty());
}

#[test]
fn three_refs_make_three_instances() {
    let m = manifest((16, 16), 8, vec![layer("Only", &[("0", 1), ("3", 2), ("2", 3)])]);
    let doc = convert(&m, &shared("proj", 16, 16, 8)).unwrap();
    let tiles = &doc.levels[0].layer_instances.as_ref().unwrap()[0].grid_tiles;
    assert_eq!(tiles.len(), 3);
}

#[test]
fn each_reference_is_answered_by_exactly_one_instance() {
    let m = manifest((32, 32), 8, vec![layer("Only", &[("0", 1), ("5", 2), ("3", 3)])]);
    let doc = convert(&m, &shared("proj", 16, 24, 8)).unwrap();
    let tiles = &doc.levels[0].layer_instances.as_ref().unwrap()[0].grid_tiles;
    let with_d5: Vec<_> = tiles.iter().filter(|t| t.d == 5).collect();
    assert_eq!(with_d5.len(), 1);
    assert_eq!(with_d5[0].t, 2);
    let with_d3: Vec<_> = tiles.iter().filter(|t| t.d == 3).collect();
    assert_eq!(with_d3.len(), 1);
    assert_eq!(with_d3[0].t, 3);
}
