use pyxel2ldtk::atlas::{compose_atlas, extract_tile};
use pyxel2ldtk::errors::ConvertError;
use pyxel2ldtk::raster::{Pixel, Raster};

fn px(v: u8) -> Pixel {
    Pixel { r: v, g: v.wrapping_add(1), b: v.wrapping_add(2), a: 255 }
}

fn solid(size: u32, v: u8) -> Raster {
    Raster {
        width: size,
        height: size,
        pixels: vec![px(v); (size * size) as usize],
    }
}

#[test]
fn atlas_geometry_over_allocation() {
    let tiles = vec![solid(16, 1), solid(16, 2), solid(16, 3), solid(16, 4)];
    let atlas = compose_atlas(&tiles, 16, 2).unwrap();
    assert_eq!(atlas.width, 32);
    assert_eq!(atlas.height, 48);
}

#[test]
fn single_tile_atlas_is_one_column_two_rows() {
    let tiles = vec![solid(8, 9)];
    let atlas = compose_atlas(&tiles, 8, 1).unwrap();
    assert_eq!(atlas.width, 8);
    assert_eq!(atlas.height, 16);
}

#[test]
fn tiles_land_on_their_cells() {
    let tiles = vec![solid(2, 10), solid(2, 20), solid(2, 30)];
    let atlas = compose_atlas(&tiles, 2, 2).unwrap();
    assert_eq!(atlas.width, 4);
    assert_eq!(atlas.height, 4);
    let at = |x: u32, y: u32| atlas.pixels[(y * atlas.width + x) as usize];
    // tile 0 at cell (0, 0), tile 1 at cell (1, 0), tile 2 at cell (0, 1)
    assert_eq!(at(0, 0), px(10));
    assert_eq!(at(1, 1), px(10));
    assert_eq!(at(2, 0), px(20));
    assert_eq!(at(3, 1), px(20));
    assert_eq!(at(0, 2), px(30));
    assert_eq!(at(1, 3), px(30));
    // the cell right of tile 2 is unused and stays transparent black
    assert_eq!(at(2, 2), Pixel { r: 0, g: 0, b: 0, a: 0 });
    assert_eq!(at(3, 3), Pixel { r: 0, g: 0, b: 0, a: 0 });
}

#[test]
fn compose_then_slice_reproduces_tiles() {
    let mut t0 = solid(2, 100);
    t0.pixels[3] = px(7);
    let t1 = solid(2, 50);
    let mut t2 = solid(2, 200);
    t2.pixels[0] = px(13);
    let tiles = vec![t0, t1, t2];
    let atlas = compose_atlas(&tiles, 2, 2).unwrap();
    for (i, tile) in tiles.iter().enumerate() {
        let back = extract_tile(&atlas, i, 2, 2);
        assert_eq!(back.width, 2);
        assert_eq!(back.height, 2);
        assert_eq!(back.pixels, tile.pixels);
    }
}

#[test]
fn zero_tiles_per_row_is_geometry_failure() {
    let tiles = vec![solid(8, 1)];
    assert_eq!(compose_atlas(&tiles, 8, 0), Err(ConvertError::Geometry));
}

#[test]
fn zero_tile_size_is_geometry_failure() {
    let tiles: Vec<Raster> = vec![];
    assert_eq!(compose_atlas(&tiles, 0, 2), Err(ConvertError::Geometry));
}

#[test]
fn oversized_atlas_is_geometry_failure() {
    let tiles: Vec<Raster> = vec![];
    assert_eq!(compose_atlas(&tiles, 16384, 2), Err(ConvertError::Geometry));
}

#[test]
fn wrong_tile_size_is_mismatch() {
    let tiles = vec![solid(2, 1), solid(3, 2)];
    assert_eq!(compose_atlas(&tiles, 2, 2), Err(ConvertError::TileSizeMismatch));
}

#[test]
fn blank_raster_is_transparent() {
    let r = Raster::blank(3, 2);
    assert_eq!(r.pixels.len(), 6);
    assert!(r.pixels.iter().all(|p| *p == Pixel { r: 0, g: 0, b: 0, a: 0 }));
}

#[test]
fn paste_overwrites_only_its_rectangle() {
    let mut dst = Raster::blank(4, 4);
    let src = solid(2, 40);
    dst.paste(&src, 1, 2);
    for y in 0..4u32 {
        for x in 0..4u32 {
            let got = dst.pixels[(y * 4 + x) as usize];
            if (1..3).contains(&x) && (2..4).contains(&y) {
                assert_eq!(got, px(40));
            } else {
                assert_eq!(got, Pixel { r: 0, g: 0, b: 0, a: 0 });
            }
        }
    }
}
