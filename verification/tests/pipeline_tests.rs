use pyxel2ldtk::errors::ConvertError;
use pyxel2ldtk::manifest::{Manifest, PyxelLayer};
use pyxel2ldtk::tileset::build_tileset_image;
use std::io::Write;

fn png_bytes(width: u32, height: u32, rgba: Vec<u8>) -> Vec<u8> {
    let img = image::RgbaImage::from_raw(width, height, rgba).unwrap();
    let mut out = std::io::Cursor::new(Vec::new());
    img.write_to(&mut out, image::ImageFormat::Png).unwrap();
    out.into_inner()
}

fn zip_of(entries: &[(&str, Vec<u8>)]) -> Vec<u8> {
    let cursor = std::io::Cursor::new(Vec::new());
    let mut writer = zip::ZipWriter::new(cursor);
    for (name, content) in entries {
        writer
            .start_file(*name, zip::write::FileOptions::default())
            .unwrap();
        writer.write_all(content).unwrap();
    }
    writer.finish().unwrap().into_inner()
}

fn manifest(tile: i64, tiles_wide: i64) -> Manifest {
    Manifest {
        name: "proj".to_owned(),
        version: "1.0".to_owned(),
        canvas_width: 4,
        canvas_height: 4,
        tile_width: tile,
        tile_height: tile,
        num_layers: 0,
        tiles_wide,
        layers: Vec::<PyxelLayer>::new(),
    }
}

/// One solid 2 by 2 RGBA tile.
fn solid_rgba(r: u8, g: u8, b: u8) -> Vec<u8> {
    let mut v = Vec::new();
    for _ in 0..4 {
        v.extend_from_slice(&[r, g, b, 255]);
    }
    v
}

#[test]
fn composes_and_encodes_the_atlas() {
    let bundle = zip_of(&[
        ("doc.json", b"{}".to_vec()),
        ("tile0.png", png_bytes(2, 2, solid_rgba(10, 20, 30))),
        ("tile1.png", png_bytes(2, 2, solid_rgba(40, 50, 60))),
    ]);
    let (png, data) = build_tileset_image(&bundle, &manifest(2, 2), "proj").unwrap();

    assert_eq!(data.tileset_filename, "proj");
    assert_eq!(data.tileset_w, 4);
    assert_eq!(data.tileset_h, 4);
    assert_eq!(data.tile_w, 2);
    assert_eq!(data.tile_h, 2);

    let atlas = image::load_from_memory(&png).unwrap().into_rgba8();
    assert_eq!(atlas.dimensions(), (4, 4));
    assert_eq!(atlas.get_pixel(0, 0).0, [10, 20, 30, 255]);
    assert_eq!(atlas.get_pixel(1, 1).0, [10, 20, 30, 255]);
    assert_eq!(atlas.get_pixel(2, 0).0, [40, 50, 60, 255]);
    assert_eq!(atlas.get_pixel(3, 1).0, [40, 50, 60, 255]);
    assert_eq!(atlas.get_pixel(0, 2).0, [0, 0, 0, 0]);
    assert_eq!(atlas.get_pixel(3, 3).0, [0, 0, 0, 0]);
}

#[test]
fn tile_order_follows_the_numbers_not_the_listing() {
    let bundle = zip_of(&[
        ("tile10.png", png_bytes(2, 2, solid_rgba(3, 3, 3))),
        ("tile2.png", png_bytes(2, 2, solid_rgba(2, 2, 2))),
        ("tile0.png", png_bytes(2, 2, solid_rgba(1, 1, 1))),
        ("doc.json", b"{}".to_vec()),
    ]);
    let (png, data) = build_tileset_image(&bundle, &manifest(2, 2), "proj").unwrap();
    assert_eq!((data.tileset_w, data.tileset_h), (4, 4));
    let atlas = image::load_from_memory(&png).unwrap().into_rgba8();
    // tile0 at cell (0,0), tile2 at cell (1,0), tile10 at cell (0,1)
    assert_eq!(atlas.get_pixel(0, 0).0, [1, 1, 1, 255]);
    assert_eq!(atlas.get_pixel(2, 0).0, [2, 2, 2, 255]);
    assert_eq!(atlas.get_pixel(0, 2).0, [3, 3, 3, 255]);
}

#[test]
fn undecodable_tile_is_reported() {
    let bundle = zip_of(&[("tile0.png", b"garbage".to_vec())]);
    assert_eq!(
        build_tileset_image(&bundle, &manifest(2, 2), "proj"),
        Err(ConvertError::TileUndecodable)
    );
}

#[test]
fn wrong_tile_dimensions_are_reported() {
    let bundle = zip_of(&[("tile0.png", png_bytes(3, 3, vec![0u8; 36]))]);
    assert_eq!(
        build_tileset_image(&bundle, &manifest(2, 2), "proj"),
        Err(ConvertError::TileSizeMismatch)
    );
}

#[test]
fn malformed_tile_entry_name_is_reported() {
    let bundle = zip_of(&[("tileabc.png", png_bytes(2, 2, solid_rgba(1, 1, 1)))]);
    assert_eq!(
        build_tileset_image(&bundle, &manifest(2, 2), "proj"),
        Err(ConvertError::TileNameMalformed)
    );
}

#[test]
fn bad_manifest_geometry_is_reported() {
    let bundle = zip_of(&[("doc.json", b"{}".to_vec())]);
    assert_eq!(
        build_tileset_image(&bundle, &manifest(0, 2), "proj"),
        Err(ConvertError::Geometry)
    );
    assert_eq!(
        build_tileset_image(&bundle, &manifest(2, 0), "proj"),
        Err(ConvertError::Geometry)
    );
}

#[test]
fn unreadable_bundle_is_reported() {
    let bundle = b"not an archive".to_vec();
    assert_eq!(
        build_tileset_image(&bundle, &manifest(2, 2), "proj"),
        Err(ConvertError::ArchiveInvalid)
    );
}
