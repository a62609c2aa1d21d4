use vstd::prelude::*;

use crate::atlas::{
    atlas_geometry_ok, cell_of, compose_atlas, spec_atlas_height, spec_atlas_width, tile_px_x,
    tile_px_y,
};
use crate::bundle::{
    sorted_tile_entries, starts_with_tile, tile_name_ok, tile_names_of, tile_names_ok, tile_num,
    zip_entry_names, zip_entry_of, zip_names_of, zip_read_entry,
};
use crate::errors::ConvertError;
use crate::manifest::Manifest;
use crate::raster::{blank_pixel, Pixel, Raster, MAX_IMAGE_DIM};
use vstd::multiset::Multiset;

verus! {

/// What the atlas composition stage reports to the schema translation
/// stage: the name stem shared by the two output files, the composed
/// atlas's pixel dimensions, and the tile size the manifest declared.
#[derive(Debug, PartialEq)]
pub struct SharedData {
    /// The output name stem, without extension.
    pub tileset_filename: String,
    /// Atlas width in pixels.
    pub tileset_w: i64,
    /// Atlas height in pixels.
    pub tileset_h: i64,
    /// Tile width in pixels.
    pub tile_w: i64,
    /// Tile height in pixels.
    pub tile_h: i64,
}

/// What decoding bytes as an image yields once converted to RGBA: the
/// pixel dimensions and the pixels, row-major, when the bytes decode at
/// all. Decoding is a function of the bytes alone.
pub uninterp spec fn png_decode_of(bytes: Seq<u8>) -> Option<(u32, u32, Seq<Pixel>)>;

/// What encoding an RGBA raster as a PNG stream yields, when encoding
/// succeeds at all: a function of the dimensions and pixels alone.
pub uninterp spec fn png_encode_of(width: u32, height: u32, pixels: Seq<Pixel>) -> Option<Seq<u8>>;

/// Relies on `image::load_from_memory` and
/// `image::DynamicImage::into_rgba8`: decodes image bytes into an RGBA
/// raster, or nothing when the bytes are no image. The result is
/// `png_decode_of` the bytes, and its buffer holds exactly one pixel per
/// cell.
#[verifier::external_body]
fn decode_image(bytes: &Vec<u8>) -> (r: Option<Raster>)
    ensures
        (r is Some) <==> png_decode_of(bytes@) is Some,
        r matches Some(img) ==> {
            &&& png_decode_of(bytes@) matches Some(d) && img.width == d.0 && img.height == d.1
                && img.pixels@ == d.2
            &&& img.wf()
        },
{
    let img = image::load_from_memory(bytes).ok()?.into_rgba8();
    let (width, height) = img.dimensions();
    let pixels = img.pixels().map(|p| Pixel { r: p.0[0], g: p.0[1], b: p.0[2], a: p.0[3] }).collect();
    Some(Raster { width, height, pixels })
}

/// Relies on `image::RgbaImage::from_raw` and
/// `image::ImageBuffer::write_to` with the PNG format: encodes the raster
/// as a PNG stream. The outcome and the bytes are `png_encode_of` the
/// raster.
#[verifier::external_body]
fn encode_png(img: &Raster) -> (r: Option<Vec<u8>>)
    requires
        img.wf(),
    ensures
        (r is Some) <==> png_encode_of(img.width, img.height, img.pixels@) is Some,
        r matches Some(b) ==> Some(b@) == png_encode_of(img.width, img.height, img.pixels@),
{
    let mut bytes: Vec<u8> = Vec::with_capacity(img.pixels.len() * 4);
    for p in img.pixels.iter() {
        bytes.push(p.r);
        bytes.push(p.g);
        bytes.push(p.b);
        bytes.push(p.a);
    }
    let buf = image::RgbaImage::from_raw(img.width, img.height, bytes)?;
    let mut out = std::io::Cursor::new(Vec::new());
    buf.write_to(&mut out, image::ImageFormat::Png).ok()?;
    Some(out.into_inner())
}

/// Holds when the manifest declares sizes the composer can work with:
/// positive square tiles and a positive atlas column count, both below
/// the supported image dimensions.
pub open spec fn manifest_sizes_ok(m: Manifest) -> bool {
    &&& 1 <= m.tile_width < MAX_IMAGE_DIM
    &&& m.tile_height == m.tile_width
    &&& 1 <= m.tiles_wide < MAX_IMAGE_DIM
}

/// Holds when every `tile`-prefixed entry of the archive reads back and
/// decodes to an RGBA image of exactly `tile_size` by `tile_size` pixels.
pub open spec fn tiles_decodable(bundle: Seq<u8>, ns: Multiset<Seq<u8>>, tile_size: u32) -> bool {
    forall|name: Seq<u8>|
        ns.count(name) > 0 && #[trigger] starts_with_tile(name) ==> (zip_entry_of(bundle, name)
            matches Some(b) && (png_decode_of(b) matches Some(d) && d.0 == tile_size && d.1
            == tile_size))
}

/// The pixels of the tile decoded from archive entry `name`; meaningful
/// when that entry reads and decodes.
pub open spec fn tile_pixels_of(bundle: Seq<u8>, name: Seq<u8>) -> Seq<Pixel> {
    png_decode_of(zip_entry_of(bundle, name)->Some_0)->Some_0.2
}

/// Holds when atlas `a` shows the `tile_size`-square pixel rows `pix`,
/// row-major, throughout tile cell `i`.
pub open spec fn holds_tile_pixels(
    a: Raster,
    pix: Seq<Pixel>,
    i: int,
    tiles_per_row: int,
    tile_size: int,
) -> bool {
    forall|dx: int, dy: int|
        0 <= dx < tile_size && 0 <= dy < tile_size ==> #[trigger] a.pix(
            tile_px_x(i, tiles_per_row, tile_size) + dx,
            tile_px_y(i, tiles_per_row, tile_size) + dy,
        ) == pix[dy * tile_size + dx]
}

/// Builds the tileset image for a bundle: selects the `tile`-prefixed
/// entries, orders them by their numbers, decodes each one, composes the
/// atlas, and encodes it as a PNG stream, reporting the atlas geometry in
/// a [`SharedData`] alongside.
///
/// The run succeeds, or fails only at the final encoding step, exactly
/// when the manifest sizes fit, the archive is readable, every tile entry
/// carries a well-formed number and decodes to the declared tile size,
/// and the atlas is allocatable; each kind of fault is otherwise
/// reported. On success the PNG holds the atlas composed from the decoded
/// tiles in ascending-number order, one extra blank row included.
pub fn build_tileset_image(bundle: &Vec<u8>, m: &Manifest, source_name: &str) -> (r: Result<
    (Vec<u8>, SharedData),
    ConvertError,
>)
    ensures
        !manifest_sizes_ok(*m) ==> r == Err::<(Vec<u8>, SharedData), ConvertError>(
            ConvertError::Geometry,
        ),
        manifest_sizes_ok(*m) && zip_names_of(bundle@) is None ==> r == Err::<
            (Vec<u8>, SharedData),
            ConvertError,
        >(ConvertError::ArchiveInvalid),
        manifest_sizes_ok(*m) ==> (zip_names_of(bundle@) matches Some(ns) ==> {
            &&& (!tile_names_ok(ns) ==> r == Err::<(Vec<u8>, SharedData), ConvertError>(
                ConvertError::TileNameMalformed,
            ))
            &&& ((r is Ok || r == Err::<(Vec<u8>, SharedData), ConvertError>(
                ConvertError::AtlasUnencodable,
            )) <==> tile_names_ok(ns) && tiles_decodable(bundle@, ns, m.tile_width as u32)
                && atlas_geometry_ok(
                tile_names_of(ns).len() as int,
                m.tiles_wide as int,
                m.tile_width as int,
            ))
            &&& (r matches Ok(p) ==> {
                let d = p.1;
                let n_tiles = tile_names_of(ns).len() as int;
                &&& d.tileset_filename@ == source_name@
                &&& d.tile_w == m.tile_width
                &&& d.tile_h == m.tile_height
                &&& d.tileset_w == spec_atlas_width(m.tiles_wide as int, m.tile_width as int)
                &&& d.tileset_h == spec_atlas_height(
                    n_tiles,
                    m.tiles_wide as int,
                    m.tile_width as int,
                )
                &&& exists|a: Raster, order: Seq<Seq<u8>>|
                    {
                        &&& a.wf()
                        &&& a.width == d.tileset_w
                        &&& a.height == d.tileset_h
                        &&& #[trigger] order.to_multiset() == tile_names_of(ns)
                        &&& (forall|i: int, j: int|
                            0 <= i < j < order.len() ==> tile_num(#[trigger] order[i]) <= tile_num(
                                #[trigger] order[j],
                            ))
                        &&& (forall|i: int|
                            0 <= i < order.len() ==> holds_tile_pixels(
                                a,
                                tile_pixels_of(bundle@, #[trigger] order[i]),
                                i,
                                m.tiles_wide as int,
                                m.tile_width as int,
                            ))
                        &&& (forall|x: int, y: int|
                            0 <= x < a.width && 0 <= y < a.height && cell_of(
                                x,
                                y,
                                m.tiles_wide as int,
                                m.tile_width as int,
                            ) >= order.len() ==> a.pix(x, y) == blank_pixel())
                        &&& Some(p.0@) == #[trigger] png_encode_of(a.width, a.height, a.pixels@)
                    }
            })
        }),
{
    broadcast use vstd::seq_lib::group_to_multiset_ensures;

    if !(m.tile_width >= 1 && (m.tile_width as u64) < MAX_IMAGE_DIM as u64 && m.tile_height
        == m.tile_width && m.tiles_wide >= 1 && (m.tiles_wide as u64) < MAX_IMAGE_DIM as u64) {
        return Err(ConvertError::Geometry);
    }
    let tile_size: u32 = m.tile_width as u32;
    let tiles_per_row: u32 = m.tiles_wide as u32;

    let names = match zip_entry_names(bundle) {
        None => {
            return Err(ConvertError::ArchiveInvalid);
        },
        Some(n) => n,
    };
    let ghost ns = zip_names_of(bundle@)->Some_0;
    let entries = match sorted_tile_entries(&names) {
        Err(e) => {
            return Err(e);
        },
        Ok(v) => v,
    };
    let ghost order = entries@.map_values(|e: crate::bundle::TileEntry| e.name@);
    proof {
        assert(order.to_multiset() == tile_names_of(ns));
        assert(order.len() == tile_names_of(ns).len());
        assert(tile_names_ok(ns));
    }

    let mut tiles: Vec<Raster> = Vec::new();
    let count = entries.len();
    let mut e: usize = 0;
    while e < count
        invariant
            0 <= e <= count,
            count == entries@.len(),
            tiles@.len() == e,
            manifest_sizes_ok(*m),
            tile_size == m.tile_width as u32,
            Some(ns) == zip_names_of(bundle@),
            tile_names_ok(ns),
            order == entries@.map_values(|e2: crate::bundle::TileEntry| e2.name@),
            order.to_multiset() == tile_names_of(ns),
            forall|k: int|
                0 <= k < count ==> starts_with_tile((#[trigger] entries@[k]).name@),
            forall|k: int| 0 <= k < e ==> (#[trigger] tiles@[k]).wf(),
            forall|k: int|
                0 <= k < e ==> (#[trigger] tiles@[k]).width == tile_size && tiles@[k].height
                    == tile_size,
            forall|k: int|
                0 <= k < e ==> (zip_entry_of(bundle@, (#[trigger] entries@[k]).name@) matches Some(
                    bb,
                ) && (png_decode_of(bb) matches Some(dd) && dd.0 == tile_size && dd.1 == tile_size
                    && dd.2 == tiles@[k].pixels@)),
        decreases count - e,
    {
        let ghost name = entries@[e as int].name@;
        proof {
            broadcast use vstd::seq_lib::group_to_multiset_ensures;

            assert(order[e as int] == name);
            assert(order.contains(name));
            assert(order.to_multiset().count(name) > 0);
            assert(ns.count(name) > 0);
        }
        let bytes = match zip_read_entry(bundle, &entries[e].name) {
            None => {
                proof {
                    assert(!tiles_decodable(bundle@, ns, tile_size));
                }
                return Err(ConvertError::ArchiveInvalid);
            },
            Some(b) => b,
        };
        let tile = match decode_image(&bytes) {
            None => {
                proof {
                    assert(!tiles_decodable(bundle@, ns, tile_size));
                }
                return Err(ConvertError::TileUndecodable);
            },
            Some(t) => t,
        };
        if tile.width != tile_size || tile.height != tile_size {
            proof {
                assert(!tiles_decodable(bundle@, ns, tile_size));
            }
            return Err(ConvertError::TileSizeMismatch);
        }
        tiles.push(tile);
        e = e + 1;
    }

    let atlas = match compose_atlas(&tiles, tile_size, tiles_per_row) {
        Err(err) => {
            proof {
                assert(!atlas_geometry_ok(
                    tile_names_of(ns).len() as int,
                    m.tiles_wide as int,
                    m.tile_width as int,
                ));
            }
            return Err(err);
        },
        Ok(a) => a,
    };
    proof {
        assert(tiles_decodable(bundle@, ns, tile_size)) by {
            assert forall|name: Seq<u8>|
                ns.count(name) > 0 && #[trigger] starts_with_tile(name) implies (zip_entry_of(
                bundle@,
                name,
            ) matches Some(b) && (png_decode_of(b) matches Some(d) && d.0 == tile_size && d.1
                == tile_size)) by {
                assert(tile_names_of(ns).count(name) > 0);
                assert(order.to_multiset().count(name) > 0);
                assert(order.contains(name));
                let k = choose|k: int| 0 <= k < order.len() && order[k] == name;
                assert(entries@[k].name@ == name);
            }
        }
    }

    let png = match encode_png(&atlas) {
        None => {
            return Err(ConvertError::AtlasUnencodable);
        },
        Some(b) => b,
    };

    let data = SharedData {
        tileset_filename: source_name.to_owned(),
        tileset_w: atlas.width as i64,
        tileset_h: atlas.height as i64,
        tile_w: m.tile_width,
        tile_h: m.tile_height,
    };
    proof {
        let gtpr = m.tiles_wide as int;
        let gs = m.tile_width as int;
        assert forall|i: int| 0 <= i < order.len() implies holds_tile_pixels(
            atlas,
            tile_pixels_of(bundle@, #[trigger] order[i]),
            i,
            gtpr,
            gs,
        ) by {
            assert(crate::atlas::holds_tile(atlas, tiles@[i], i, gtpr, gs));
            assert(entries@[i].name@ == order[i]);
            assert forall|dx: int, dy: int|
                0 <= dx < gs && 0 <= dy < gs implies #[trigger] atlas.pix(
                tile_px_x(i, gtpr, gs) + dx,
                tile_px_y(i, gtpr, gs) + dy,
            ) == tile_pixels_of(bundle@, order[i])[dy * gs + dx] by {
                assert(atlas.pix(tile_px_x(i, gtpr, gs) + dx, tile_px_y(i, gtpr, gs) + dy)
                    == tiles@[i].pix(dx, dy));
                assert(tiles@[i].pix(dx, dy) == tiles@[i].pixels@[dy * gs + dx]);
            }
        }
        assert forall|i: int, j: int|
            0 <= i < j < order.len() implies tile_num(#[trigger] order[i]) <= tile_num(
            #[trigger] order[j],
        ) by {
            assert(entries@[i].number <= entries@[j].number);
            assert(entries@[i].number == tile_num(entries@[i].name@));
            assert(entries@[j].number == tile_num(entries@[j].name@));
        }
    }
    Ok((png, data))
}

} // verus!
