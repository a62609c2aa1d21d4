use vstd::prelude::*;

use crate::atlas::{holds_tile, tile_px_x, tile_px_y};
use crate::convert::{spec_tile_instance, spec_tiles_of};
use crate::ldtk::Ldtk;
use crate::manifest::TileRef;
use crate::raster::Raster;
use vstd::arithmetic::div_mod::{
    lemma_fundamental_div_mod, lemma_mod_division_less_than_divisor, lemma_multiply_divide_lt,
};

verus! {

/// Law: the tile instance emitted for cell position `cell` is placed at
/// pixel `(col * tile_w, row * tile_w)` and carries the editor datum
/// `row * map_w + col`, where `(col, row)` is the cell position split
/// over a grid `map_w` cells wide; its tile id is the reference's index
/// and its source rectangle and flip bits are zero.
pub proof fn lemma_tile_instance_placement(cell: int, index: i64, tile_w: int, map_w: int)
    requires
        0 <= cell <= i64::MAX,
        1 <= map_w,
        1 <= tile_w,
        (cell % map_w) * tile_w <= i64::MAX,
        (cell / map_w) * tile_w <= i64::MAX,
    ensures
        ({
            let inst = spec_tile_instance(cell, index, tile_w, map_w);
            let col = cell % map_w;
            let row = cell / map_w;
            &&& inst.px_x == col * tile_w
            &&& inst.px_y == row * tile_w
            &&& inst.d == row * map_w + col
            &&& inst.t == index
            &&& inst.f == 0
            &&& inst.src_x == 0
            &&& inst.src_y == 0
        }),
{
    let col = cell % map_w;
    let row = cell / map_w;
    lemma_fundamental_div_mod(cell, map_w);
    assert(cell == map_w * row + col);
    assert(map_w * row == row * map_w) by (nonlinear_arith);
    assert(col * tile_w >= 0) by (nonlinear_arith)
        requires col >= 0, tile_w >= 1;
    assert(row * tile_w >= 0) by (nonlinear_arith)
        requires row >= 0, tile_w >= 1;
}

/// Law: a layer's tile references translate into exactly one tile
/// instance each.
pub proof fn lemma_tiles_count(refs: Seq<TileRef>, tile_w: int, map_w: int)
    ensures
        spec_tiles_of(refs, tile_w, map_w).len() == refs.len(),
{
}

/// Law: when the parsed cell positions of a layer's tile references are
/// pairwise distinct, the reference at position `k` is answered by
/// exactly one emitted tile instance carrying its index as tile id and
/// its cell position as editor datum: the instance at the same position,
/// and no other.
pub proof fn lemma_tilerefs_round_trip(refs: Seq<TileRef>, tile_w: int, map_w: int, k: int)
    requires
        0 <= k < refs.len(),
        forall|i: int|
            0 <= i < refs.len() ==> 0 <= dec_val_of_ref(#[trigger] refs[i]) <= i64::MAX,
        forall|i: int, j: int|
            0 <= i < j < refs.len() ==> dec_val_of_ref(#[trigger] refs[i]) != dec_val_of_ref(
                #[trigger] refs[j],
            ),
    ensures
        ({
            let tiles = spec_tiles_of(refs, tile_w, map_w);
            let cell = dec_val_of_ref(refs[k]);
            &&& tiles[k].t == refs[k].index
            &&& tiles[k].d == cell
            &&& forall|j: int| 0 <= j < tiles.len() && (#[trigger] tiles[j]).d == cell ==> j == k
        }),
{
    let tiles = spec_tiles_of(refs, tile_w, map_w);
    let cell = dec_val_of_ref(refs[k]);
    assert forall|j: int| 0 <= j < tiles.len() && (#[trigger] tiles[j]).d == cell implies j
        == k by {
        assert(tiles[j].d == dec_val_of_ref(refs[j]) as i64);
        if j < k {
            assert(dec_val_of_ref(refs[j]) != dec_val_of_ref(refs[k]));
        }
        if k < j {
            assert(dec_val_of_ref(refs[k]) != dec_val_of_ref(refs[j]));
        }
    }
}

/// The parsed decimal value of a tile reference's key.
pub open spec fn dec_val_of_ref(r: TileRef) -> int {
    crate::digits::dec_val(r.key@)
}

/// Law: with one layer definition per input layer carrying its position
/// as unique id, the definition ids are the contiguous range `0 .. n`;
/// and the definition reference `n - 1 - li` carried by level `li`'s one
/// layer instance names one of those definitions.
pub proof fn lemma_layer_def_refs_in_range(doc: Ldtk, n: int)
    requires
        0 <= n,
        doc.defs.layers@.len() == n,
        forall|d: int| 0 <= d < n ==> (#[trigger] doc.defs.layers@[d]).uid == d,
        doc.levels@.len() == n,
        forall|li: int|
            0 <= li < n ==> {
                &&& (#[trigger] doc.levels@[li]).layer_instances matches Some(insts)
                &&& insts@.len() == 1
                &&& insts@[0].layer_def_uid == n - 1 - li
            },
    ensures
        forall|li: int|
            0 <= li < n ==> exists|d: int|
                0 <= d < n && (#[trigger] doc.levels@[li]).layer_instances->Some_0@[0].layer_def_uid
                    == doc.defs.layers@[d].uid,
{
    assert forall|li: int| 0 <= li < n implies exists|d: int|
        0 <= d < n && (#[trigger] doc.levels@[li]).layer_instances->Some_0@[0].layer_def_uid
            == doc.defs.layers@[d].uid by {
        let d = n - 1 - li;
        assert(0 <= d < n && doc.levels@[li].layer_instances->Some_0@[0].layer_def_uid
            == doc.defs.layers@[d].uid);
    }
}

/// Law: slicing a composed atlas back on the tile grid reproduces the
/// composed tiles pixel for pixel: a `tile_size` square cut at tile cell
/// `i` of an atlas that holds tile `i` there equals that tile.
pub proof fn lemma_atlas_slicing_round_trip(
    a: Raster,
    tile: Raster,
    sliced: Raster,
    i: int,
    tiles_per_row: int,
    tile_size: int,
)
    requires
        1 <= tiles_per_row,
        1 <= tile_size,
        0 <= i,
        tile.wf(),
        tile.width == tile_size,
        tile.height == tile_size,
        holds_tile(a, tile, i, tiles_per_row, tile_size),
        sliced.wf(),
        sliced.width == tile_size,
        sliced.height == tile_size,
        forall|dx: int, dy: int|
            0 <= dx < tile_size && 0 <= dy < tile_size ==> sliced.pix(dx, dy) == a.pix(
                tile_px_x(i, tiles_per_row, tile_size) + dx,
                tile_px_y(i, tiles_per_row, tile_size) + dy,
            ),
    ensures
        sliced.pixels@ == tile.pixels@,
{
    let s = tile_size;
    assert forall|k: int| 0 <= k < sliced.pixels@.len() implies sliced.pixels@[k]
        == tile.pixels@[k] by {
        let dy = k / s;
        let dx = k % s;
        lemma_fundamental_div_mod(k, s);
        lemma_mod_division_less_than_divisor(k, s);
        assert(s * s == sliced.pixels@.len());
        assert(dy < s) by {
            lemma_multiply_divide_lt(k, s, s);
        }
        assert(0 <= dy);
        assert(k == dy * s + dx) by (nonlinear_arith)
            requires k == s * dy + dx;
        assert(sliced.pixels@[k] == sliced.pix(dx, dy));
        assert(tile.pixels@[k] == tile.pix(dx, dy));
        assert(sliced.pix(dx, dy) == tile.pix(dx, dy));
    }
    assert(sliced.pixels@ =~= tile.pixels@);
}

} // verus!
