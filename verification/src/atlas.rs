use vstd::prelude::*;

use crate::errors::ConvertError;
use crate::raster::{blank_pixel, Pixel, Raster, MAX_IMAGE_DIM};
use vstd::arithmetic::div_mod::{
    lemma_div_is_ordered, lemma_div_is_ordered_by_denominator, lemma_div_multiples_vanish_fancy,
    lemma_fundamental_div_mod,
};
use vstd::arithmetic::mul::lemma_mul_inequality;

verus! {

/// The pixel width of an atlas with `tiles_per_row` columns of tiles of
/// edge `tile_size`.
pub open spec fn spec_atlas_width(tiles_per_row: int, tile_size: int) -> int {
    tiles_per_row * tile_size
}

/// The pixel height of an atlas holding `n` tiles: one row per started
/// group of `tiles_per_row` tiles, plus one extra row that is always
/// allocated, even when `n` is an exact multiple.
pub open spec fn spec_atlas_height(n: int, tiles_per_row: int, tile_size: int) -> int {
    (n / tiles_per_row + 1) * tile_size
}

/// The pixel column of tile `i`'s top-left corner in the atlas.
pub open spec fn tile_px_x(i: int, tiles_per_row: int, tile_size: int) -> int {
    (i % tiles_per_row) * tile_size
}

/// The pixel row of tile `i`'s top-left corner in the atlas.
pub open spec fn tile_px_y(i: int, tiles_per_row: int, tile_size: int) -> int {
    (i / tiles_per_row) * tile_size
}

/// The index of the tile cell that atlas pixel `(x, y)` belongs to.
pub open spec fn cell_of(x: int, y: int, tiles_per_row: int, tile_size: int) -> int {
    (y / tile_size) * tiles_per_row + x / tile_size
}

/// Holds when atlas `a` shows `t`'s pixels throughout tile cell `i`.
pub open spec fn holds_tile(a: Raster, t: Raster, i: int, tiles_per_row: int, tile_size: int) -> bool {
    forall|dx: int, dy: int|
        0 <= dx < tile_size && 0 <= dy < tile_size ==> a.pix(
            tile_px_x(i, tiles_per_row, tile_size) + dx,
            tile_px_y(i, tiles_per_row, tile_size) + dy,
        ) == t.pix(dx, dy)
}

/// Holds when an atlas for `n` tiles can be allocated: positive grid
/// parameters and pixel dimensions below the supported bound.
pub open spec fn atlas_geometry_ok(n: int, tiles_per_row: int, tile_size: int) -> bool {
    &&& 1 <= tiles_per_row
    &&& 1 <= tile_size
    &&& spec_atlas_width(tiles_per_row, tile_size) < MAX_IMAGE_DIM
    &&& spec_atlas_height(n, tiles_per_row, tile_size) < MAX_IMAGE_DIM
}

/// Holds when every tile is exactly `tile_size` by `tile_size` pixels.
pub open spec fn tiles_sized(tiles: Seq<Raster>, tile_size: int) -> bool {
    forall|t: int|
        0 <= t < tiles.len() ==> (#[trigger] tiles[t]).width == tile_size && tiles[t].height
            == tile_size
}

/// Tile `i`'s cell starts inside the atlas and its `tile_size` square ends
/// inside it too.
proof fn lemma_cell_in_atlas(j: int, n: int, tiles_per_row: int, tile_size: int)
    requires
        1 <= tiles_per_row,
        1 <= tile_size,
        0 <= j < n,
    ensures
        0 <= tile_px_x(j, tiles_per_row, tile_size),
        tile_px_x(j, tiles_per_row, tile_size) + tile_size <= spec_atlas_width(
            tiles_per_row,
            tile_size,
        ),
        0 <= tile_px_y(j, tiles_per_row, tile_size),
        tile_px_y(j, tiles_per_row, tile_size) + tile_size <= spec_atlas_height(
            n,
            tiles_per_row,
            tile_size,
        ),
{
    let col = j % tiles_per_row;
    let row = j / tiles_per_row;
    assert(0 <= col < tiles_per_row);
    assert(0 <= row);
    assert(col * tile_size >= 0) by (nonlinear_arith)
        requires col >= 0, tile_size >= 1;
    assert((col + 1) * tile_size == col * tile_size + tile_size) by (nonlinear_arith);
    lemma_mul_inequality(col + 1, tiles_per_row, tile_size);
    assert(row * tile_size >= 0) by (nonlinear_arith)
        requires row >= 0, tile_size >= 1;
    lemma_div_is_ordered(j, n - 1, tiles_per_row);
    lemma_div_is_ordered(n - 1, n, tiles_per_row);
    assert((row + 1) * tile_size == row * tile_size + tile_size) by (nonlinear_arith);
    lemma_mul_inequality(row + 1, n / tiles_per_row + 1, tile_size);
}

/// A pixel inside tile cell `i`'s square belongs to cell `i`.
proof fn lemma_cell_of_in_rect(i: int, tiles_per_row: int, tile_size: int, x: int, y: int)
    requires
        1 <= tiles_per_row,
        1 <= tile_size,
        0 <= i,
        tile_px_x(i, tiles_per_row, tile_size) <= x < tile_px_x(i, tiles_per_row, tile_size)
            + tile_size,
        tile_px_y(i, tiles_per_row, tile_size) <= y < tile_px_y(i, tiles_per_row, tile_size)
            + tile_size,
    ensures
        cell_of(x, y, tiles_per_row, tile_size) == i,
{
    let col = i % tiles_per_row;
    let row = i / tiles_per_row;
    assert(x == tile_size * col + (x - col * tile_size)) by (nonlinear_arith);
    lemma_div_multiples_vanish_fancy(col, x - col * tile_size, tile_size);
    assert(x / tile_size == col);
    assert(y == tile_size * row + (y - row * tile_size)) by (nonlinear_arith);
    lemma_div_multiples_vanish_fancy(row, y - row * tile_size, tile_size);
    assert(y / tile_size == row);
    lemma_fundamental_div_mod(i, tiles_per_row);
    assert(row * tiles_per_row == tiles_per_row * row) by (nonlinear_arith);
}

/// Composes the given tiles into one atlas image.
///
/// Tile `i` occupies the `tile_size` square at cell
/// `(i % tiles_per_row, i / tiles_per_row)`; every pixel outside all tile
/// cells stays fully transparent black. The grid must be allocatable
/// ([`atlas_geometry_ok`]) and every tile exactly `tile_size` square;
/// otherwise the geometry fault, or the size mismatch, is reported.
pub fn compose_atlas(tiles: &Vec<Raster>, tile_size: u32, tiles_per_row: u32) -> (r: Result<
    Raster,
    ConvertError,
>)
    requires
        forall|t: int| 0 <= t < tiles@.len() ==> (#[trigger] tiles@[t]).wf(),
    ensures
        (r is Ok) <==> atlas_geometry_ok(tiles@.len() as int, tiles_per_row as int, tile_size as int)
            && tiles_sized(tiles@, tile_size as int),
        !atlas_geometry_ok(tiles@.len() as int, tiles_per_row as int, tile_size as int) ==> r
            == Err::<Raster, ConvertError>(ConvertError::Geometry),
        atlas_geometry_ok(tiles@.len() as int, tiles_per_row as int, tile_size as int)
            && !tiles_sized(tiles@, tile_size as int) ==> r == Err::<Raster, ConvertError>(
            ConvertError::TileSizeMismatch,
        ),
        r matches Ok(a) ==> {
            &&& a.wf()
            &&& a.width == spec_atlas_width(tiles_per_row as int, tile_size as int)
            &&& a.height == spec_atlas_height(
                tiles@.len() as int,
                tiles_per_row as int,
                tile_size as int,
            )
            &&& (forall|i: int|
                0 <= i < tiles@.len() ==> holds_tile(
                    a,
                    #[trigger] tiles@[i],
                    i,
                    tiles_per_row as int,
                    tile_size as int,
                ))
            &&& (forall|x: int, y: int|
                0 <= x < a.width && 0 <= y < a.height && cell_of(
                    x,
                    y,
                    tiles_per_row as int,
                    tile_size as int,
                ) >= tiles@.len() ==> a.pix(x, y) == blank_pixel())
        },
{
    let n = tiles.len();
    let ghost gn = n as int;
    let ghost gtpr = tiles_per_row as int;
    let ghost gs = tile_size as int;

    if tiles_per_row < 1 || tile_size < 1 {
        return Err(ConvertError::Geometry);
    }
    proof {
        assert(gtpr * gs < 0x1_0000_0000_0000_0000) by (nonlinear_arith)
            requires 0 <= gtpr < 0x1_0000_0000, 0 <= gs < 0x1_0000_0000;
    }
    let w64: u64 = (tiles_per_row as u64) * (tile_size as u64);
    if w64 >= MAX_IMAGE_DIM as u64 {
        return Err(ConvertError::Geometry);
    }
    proof {
        assert(gtpr <= w64 && gs <= w64) by (nonlinear_arith)
            requires w64 == gtpr * gs, 1 <= gs, 1 <= gtpr;
    }
    if n as u64 >= 0x4000_0000 {
        proof {
            lemma_div_is_ordered_by_denominator(gn, gtpr, 32767);
            assert(gn / 32767 >= 32768) by {
                lemma_div_is_ordered(0x4000_0000, gn, 32767);
            }
            assert((gn / gtpr + 1) * gs >= gn / gtpr + 1) by (nonlinear_arith)
                requires 1 <= gs, 0 <= gn / gtpr;
        }
        return Err(ConvertError::Geometry);
    }
    let rows64: u64 = (n as u64) / (tiles_per_row as u64) + 1;
    proof {
        assert(rows64 == gn / gtpr + 1);
        assert(rows64 * gs < 0x8000_0000_0000_0000) by (nonlinear_arith)
            requires 0 <= rows64 <= 0x4000_0001, 0 <= gs < 0x1_0000_0000;
    }
    let h64: u64 = rows64 * (tile_size as u64);
    if h64 >= MAX_IMAGE_DIM as u64 {
        return Err(ConvertError::Geometry);
    }
    let width: u32 = w64 as u32;
    let height: u32 = h64 as u32;
    proof {
        assert(atlas_geometry_ok(gn, gtpr, gs));
    }

    let mut t: usize = 0;
    while t < n
        invariant
            0 <= t <= n,
            n == tiles@.len(),
            atlas_geometry_ok(n as int, tiles_per_row as int, tile_size as int),
            forall|k: int|
                0 <= k < t ==> (#[trigger] tiles@[k]).width == tile_size && tiles@[k].height
                    == tile_size,
        decreases n - t,
    {
        if tiles[t].width != tile_size || tiles[t].height != tile_size {
            return Err(ConvertError::TileSizeMismatch);
        }
        t = t + 1;
    }

    let mut atlas = Raster::blank(width, height);
    proof {
        assert forall|x: int, y: int|
            0 <= x < width && 0 <= y < height && cell_of(x, y, gtpr, gs) >= 0 implies atlas.pix(
            x,
            y,
        ) == blank_pixel() by {}
    }
    let mut i: usize = 0;
    while i < n
        invariant
            0 <= i <= n,
            n == tiles@.len(),
            gn == n as int,
            gtpr == tiles_per_row as int,
            gs == tile_size as int,
            1 <= tiles_per_row < MAX_IMAGE_DIM,
            1 <= tile_size < MAX_IMAGE_DIM,
            n < 0x4000_0000,
            width == spec_atlas_width(gtpr, gs),
            height == spec_atlas_height(gn, gtpr, gs),
            width < MAX_IMAGE_DIM,
            height < MAX_IMAGE_DIM,
            atlas.wf(),
            atlas.width == width,
            atlas.height == height,
            forall|k: int| 0 <= k < n ==> (#[trigger] tiles@[k]).wf(),
            tiles_sized(tiles@, gs),
            forall|j: int| 0 <= j < i ==> holds_tile(atlas, #[trigger] tiles@[j], j, gtpr, gs),
            forall|x: int, y: int|
                0 <= x < width && 0 <= y < height && cell_of(x, y, gtpr, gs) >= i
                    ==> atlas.pix(x, y) == blank_pixel(),
        decreases n - i,
    {
        let ghost atlas0 = atlas;
        let col: usize = i % (tiles_per_row as usize);
        let row: usize = i / (tiles_per_row as usize);
        proof {
            lemma_cell_in_atlas(i as int, gn, gtpr, gs);
            assert(col == (i as int) % gtpr);
            assert(row == (i as int) / gtpr);
        }
        let ox: u32 = (col as u32) * tile_size;
        let oy: u32 = (row as u32) * tile_size;
        proof {
            assert(ox == tile_px_x(i as int, gtpr, gs));
            assert(oy == tile_px_y(i as int, gtpr, gs));
        }
        atlas.paste(&tiles[i], ox, oy);
        proof {
            assert forall|j: int|
                0 <= j < i + 1 implies holds_tile(atlas, #[trigger] tiles@[j], j, gtpr, gs) by {
                lemma_cell_in_atlas(j, gn, gtpr, gs);
                let jx = tile_px_x(j, gtpr, gs);
                let jy = tile_px_y(j, gtpr, gs);
                assert forall|dx: int, dy: int|
                    0 <= dx < gs && 0 <= dy < gs implies atlas.pix(jx + dx, jy + dy)
                    == tiles@[j].pix(dx, dy) by {
                    lemma_cell_of_in_rect(j, gtpr, gs, jx + dx, jy + dy);
                    if j == i {
                        assert(atlas.pix(jx + dx, jy + dy) == tiles@[i as int].pix(dx, dy));
                    } else {
                        if ox <= jx + dx < ox + tile_size && oy <= jy + dy < oy + tile_size {
                            lemma_cell_of_in_rect(i as int, gtpr, gs, jx + dx, jy + dy);
                        }
                        assert(atlas.pix(jx + dx, jy + dy) == atlas0.pix(jx + dx, jy + dy));
                    }
                }
            }
            assert forall|x: int, y: int|
                0 <= x < width && 0 <= y < height && cell_of(x, y, gtpr, gs) >= i + 1
                    implies atlas.pix(x, y) == blank_pixel() by {
                if ox <= x < ox + tile_size && oy <= y < oy + tile_size {
                    lemma_cell_of_in_rect(i as int, gtpr, gs, x, y);
                }
                assert(atlas.pix(x, y) == atlas0.pix(x, y));
            }
        }
        i = i + 1;
    }
    Ok(atlas)
}

/// Returns the `tile_size` square of `atlas` at tile cell `i`: the inverse
/// slicing of [`compose_atlas`]'s placement.
pub fn extract_tile(atlas: &Raster, i: usize, tile_size: u32, tiles_per_row: u32) -> (r: Raster)
    requires
        atlas.wf(),
        atlas.width < MAX_IMAGE_DIM,
        atlas.height < MAX_IMAGE_DIM,
        1 <= tiles_per_row,
        1 <= tile_size,
        tile_px_x(i as int, tiles_per_row as int, tile_size as int) + tile_size <= atlas.width,
        tile_px_y(i as int, tiles_per_row as int, tile_size as int) + tile_size <= atlas.height,
    ensures
        r.wf(),
        r.width == tile_size,
        r.height == tile_size,
        forall|dx: int, dy: int|
            0 <= dx < tile_size && 0 <= dy < tile_size ==> r.pix(dx, dy) == atlas.pix(
                tile_px_x(i as int, tiles_per_row as int, tile_size as int) + dx,
                tile_px_y(i as int, tiles_per_row as int, tile_size as int) + dy,
            ),
{
    let col: usize = i % (tiles_per_row as usize);
    let row: usize = i / (tiles_per_row as usize);
    proof {
        assert(col == (i as int) % (tiles_per_row as int));
        assert(row == (i as int) / (tiles_per_row as int));
        assert(col * tile_size + tile_size <= atlas.width);
        assert(row * tile_size + tile_size <= atlas.height);
        assert(col <= col * tile_size && row <= row * tile_size) by (nonlinear_arith)
            requires 1 <= tile_size, 0 <= col, 0 <= row;
    }
    let ox: u32 = (col as u32) * tile_size;
    let oy: u32 = (row as u32) * tile_size;
    atlas.extract(ox, oy, tile_size, tile_size)
}

} // verus!
