use vstd::prelude::*;

use crate::error::AssetError;
use crate::gid::{ranges_wf, GidRange, GidTable};
use crate::pack::{pack_images, placement_of, sheet_pixels_ok, simple_pack_of, sizes_fit, layout_ok, sizes_of, RgbaImage};
use crate::output::{MapFile, SheetFile};
use crate::sheet::{grid_position, grid_sprites, SpritePosition};

verus! {

/// Where a tileset's pictures come from.
#[derive(Debug, Clone)]
pub enum TilesetImages {
    /// One pre-cut sheet image, `width` by `height` pixels, at `source`.
    Sheet { source: String, width: u32, height: u32 },
    /// Loose tile images, one per tile, in tile id order.
    Loose(Vec<RgbaImage>),
}

/// One tileset of a map.
#[derive(Debug, Clone)]
pub struct TilesetDesc {
    pub first_gid: u32,
    pub tile_width: u32,
    pub tile_height: u32,
    pub images: TilesetImages,
}

/// A sprite sheet definition: its texture size and its sprite rectangles,
/// in sprite index order.
#[derive(Debug, Clone)]
pub struct SpriteSheetPrefab {
    pub texture_width: u32,
    pub texture_height: u32,
    pub sprites: Vec<SpritePosition>,
}

/// The PNG file that image's encoder writes for 8-bit RGBA pixels.
pub uninterp spec fn png_rgba_of(width: u32, height: u32, pixels: Seq<u8>) -> Seq<u8>;

/// Relies on image 0.21's `PNGEncoder::encode` with `ColorType::RGBA(8)`,
/// writing into a byte vector: it fails on pixel data of the wrong length,
/// and on success the bytes depend on the size and the pixels alone. It
/// slices rows of `4 * width` bytes, which panics for width 0.
#[verifier::external_body]
fn encode_png(pixels: &Vec<u8>, width: u32, height: u32) -> (r: Option<Vec<u8>>)
    requires
        width > 0,
    ensures
        r matches Some(b) ==> b@ == png_rgba_of(width, height, pixels@),
{
    let mut buffer: Vec<u8> = Vec::new();
    let encoder = image::png::PNGEncoder::new(&mut buffer);
    match encoder.encode(pixels, width, height, image::ColorType::RGBA(8)) {
        Ok(()) => Some(buffer),
        Err(_) => None,
    }
}

pub open spec fn grid_count(width: u32, height: u32, tile_width: u32, tile_height: u32) -> int {
    (width / tile_width) * (height / tile_height)
}

/// The tileset can become a sheet whatever the encoder does: a pre-cut sheet
/// needs a tile size and at most `u32::MAX` tiles; loose images need a
/// layout and a sheet of some width.
pub open spec fn buildable(t: TilesetDesc) -> bool {
    match t.images {
        TilesetImages::Sheet { width, height, .. } =>
            t.tile_width > 0 && t.tile_height > 0 && grid_count(width, height, t.tile_width, t.tile_height) <= u32::MAX,
        TilesetImages::Loose(imgs) => {
            let (w, h, pos) = simple_pack_of(sizes_of(imgs@));
            &&& imgs@.len() <= u32::MAX
            &&& sizes_fit(sizes_of(imgs@))
            &&& layout_ok(w, h, pos, imgs@)
            &&& w > 0
        },
    }
}

/// The error a tileset fails with.
pub open spec fn tileset_error(t: TilesetDesc) -> AssetError {
    match t.images {
        TilesetImages::Sheet { .. } => AssetError::MapParse,
        TilesetImages::Loose(imgs) => {
            let (w, h, pos) = simple_pack_of(sizes_of(imgs@));
            if imgs@.len() > u32::MAX {
                AssetError::MapParse
            } else if !(sizes_fit(sizes_of(imgs@)) && layout_ok(w, h, pos, imgs@)) {
                AssetError::PackingOverflow
            } else {
                AssetError::ImageDecode
            }
        },
    }
}

pub open spec fn images_wf(t: TilesetDesc) -> bool {
    t.images matches TilesetImages::Loose(imgs) ==> forall|i: int| 0 <= i < imgs@.len() ==> (#[trigger] imgs@[i]).wf()
}

/// The identifier range of a tileset: one identifier per tile.
pub open spec fn tileset_range(t: TilesetDesc) -> GidRange {
    GidRange {
        first_gid: t.first_gid,
        count: match t.images {
            TilesetImages::Sheet { width, height, .. } => grid_count(width, height, t.tile_width, t.tile_height) as u32,
            TilesetImages::Loose(imgs) => imgs@.len() as u32,
        },
    }
}

/// The sheet definition of tileset `t`: a grid over a pre-cut sheet, or
/// the layout of packed loose images.
pub open spec fn sheet_built(t: TilesetDesc, sheet: SpriteSheetPrefab) -> bool {
    match t.images {
        TilesetImages::Sheet { width, height, .. } => {
            let columns = width / t.tile_width;
            let rows = height / t.tile_height;
            &&& t.tile_width > 0
            &&& t.tile_height > 0
            &&& sheet.texture_width == width
            &&& sheet.texture_height == height
            &&& sheet.sprites@.len() == columns * rows
            &&& forall|i: int, c: int| 0 <= i < rows && 0 <= c < columns
                ==> #[trigger] sheet.sprites@[i * columns + c] == grid_position(height, t.tile_width, t.tile_height, i, c)
        },
        TilesetImages::Loose(imgs) => {
            let (w, h, pos) = simple_pack_of(sizes_of(imgs@));
            &&& sheet.texture_width == w
            &&& sheet.texture_height == h
            &&& sheet.sprites@ == Seq::new(imgs@.len(), |i: int| placement_of(pos, imgs@, i))
        },
    }
}

/// The image file of tileset `t`, sheet `index`: a copy of a pre-cut sheet,
/// or the PNG of the packed pixels.
pub open spec fn file_built(index: int, t: TilesetDesc, file: SheetFile) -> bool {
    &&& file.sheet == index
    &&& match t.images {
        TilesetImages::Sheet { source, .. } => file.data matches MapFile::Path(s) && s@ == source@,
        TilesetImages::Loose(imgs) => {
            let (w, h, pos) = simple_pack_of(sizes_of(imgs@));
            let placements = Seq::new(imgs@.len(), |i: int| placement_of(pos, imgs@, i));
            file.data matches MapFile::Data(b) && exists|px: Seq<u8>|
                sheet_pixels_ok(px, w, h, placements, imgs@) && b@ == #[trigger] png_rgba_of(w, h, px)
        },
    }
}

/// What tileset `t`, at index `index`, becomes: the image file of its
/// sheet, the sheet's definition, and its identifier range.
pub open spec fn built_from(index: int, t: TilesetDesc, file: SheetFile, sheet: SpriteSheetPrefab, range: GidRange) -> bool {
    &&& file_built(index, t, file)
    &&& sheet_built(t, sheet)
    &&& range == tileset_range(t)
}

/// Turns one tileset into a sheet: a pre-cut sheet is copied and cut into a
/// grid; loose images are packed and encoded as PNG.
fn build_sheet(index: usize, t: &TilesetDesc) -> (r: Result<(SheetFile, SpriteSheetPrefab, GidRange), AssetError>)
    requires
        images_wf(*t),
    ensures
        r matches Ok((f, s, g)) ==> built_from(index as int, *t, f, s, g),
        r is Err ==> r == Err::<(SheetFile, SpriteSheetPrefab, GidRange), AssetError>(tileset_error(*t)),
        !buildable(*t) ==> r is Err,
        buildable(*t) && t.images is Sheet ==> r is Ok,
{
    match &t.images {
        TilesetImages::Sheet { source, width, height } => {
            if t.tile_width == 0 || t.tile_height == 0 {
                return Err(AssetError::MapParse);
            }
            let columns = *width / t.tile_width;
            let rows = *height / t.tile_height;
            proof {
                assert(columns * rows <= 0xFFFF_FFFF * 0xFFFF_FFFF) by (nonlinear_arith)
                    requires columns <= 0xFFFF_FFFF, rows <= 0xFFFF_FFFF;
            }
            let count = columns as u64 * rows as u64;
            if count > u32::MAX as u64 {
                return Err(AssetError::MapParse);
            }
            let sprites = grid_sprites(*width, *height, t.tile_width, t.tile_height);
            let file = SheetFile { sheet: index, data: MapFile::Path(source.clone()) };
            let sheet = SpriteSheetPrefab { texture_width: *width, texture_height: *height, sprites };
            Ok((file, sheet, GidRange { first_gid: t.first_gid, count: count as u32 }))
        },
        TilesetImages::Loose(imgs) => {
            if imgs.len() > u32::MAX as usize {
                return Err(AssetError::MapParse);
            }
            let packed = match pack_images(imgs) {
                Ok(p) => p,
                Err(e) => {
                    return Err(e);
                },
            };
            if packed.width == 0 {
                return Err(AssetError::ImageDecode);
            }
            let bytes = match encode_png(&packed.pixels, packed.width, packed.height) {
                Some(b) => b,
                None => {
                    return Err(AssetError::ImageDecode);
                },
            };
            let ghost px = packed.pixels@;
            let count = imgs.len() as u32;
            let file = SheetFile { sheet: index, data: MapFile::Data(bytes) };
            let sheet = SpriteSheetPrefab { texture_width: packed.width, texture_height: packed.height, sprites: packed.placements };
            proof {
                let (w, h, pos) = simple_pack_of(sizes_of(imgs@));
                assert(sheet_pixels_ok(px, w, h, sheet.sprites@, imgs@));
            }
            Ok((file, sheet, GidRange { first_gid: t.first_gid, count }))
        },
    }
}

/// The identifiers of the tilesets start above 0, in strictly ascending order.
pub open spec fn first_gids_wf(ts: Seq<TilesetDesc>) -> bool {
    &&& forall|i: int| 0 <= i < ts.len() ==> (#[trigger] ts[i]).first_gid >= 1
    &&& forall|i: int, j: int| 0 <= i < j < ts.len() ==> (#[trigger] ts[i]).first_gid < (#[trigger] ts[j]).first_gid
}

/// Turns every tileset into a sheet (see `build_sheet`) and builds the
/// identifier table over their ranges. Fails with the first failing
/// tileset's error, or with `MapParse` when the tilesets are out of order.
pub fn sprite_sheets_from_tilesets(tilesets: &Vec<TilesetDesc>)
    -> (r: Result<(Vec<SheetFile>, Vec<SpriteSheetPrefab>, GidTable), AssetError>)
    requires
        forall|i: int| 0 <= i < tilesets@.len() ==> images_wf(#[trigger] tilesets@[i]),
    ensures
        r matches Ok((files, sheets, table)) ==> {
            &&& files@.len() == tilesets@.len()
            &&& sheets@.len() == tilesets@.len()
            &&& table.ranges@.len() == tilesets@.len()
            &&& table.wf()
            &&& forall|i: int| 0 <= i < tilesets@.len()
                ==> built_from(i, #[trigger] tilesets@[i], files@[i], sheets@[i], table.ranges@[i])
        },
        r matches Err(e) ==> (e == AssetError::MapParse && !first_gids_wf(tilesets@))
            || exists|i: int| 0 <= i < tilesets@.len() && e == tileset_error(#[trigger] tilesets@[i]),
        (exists|i: int| 0 <= i < tilesets@.len() && !buildable(#[trigger] tilesets@[i])) || !first_gids_wf(tilesets@)
            ==> r is Err,
        (forall|i: int| 0 <= i < tilesets@.len() ==> buildable(#[trigger] tilesets@[i]) && tilesets@[i].images is Sheet)
            && first_gids_wf(tilesets@) ==> r is Ok,
{
    let n = tilesets.len();
    let mut files: Vec<SheetFile> = Vec::new();
    let mut sheets: Vec<SpriteSheetPrefab> = Vec::new();
    let mut ranges: Vec<GidRange> = Vec::new();
    let mut i: usize = 0;
    while i < n
        invariant
            n == tilesets@.len(),
            forall|k: int| 0 <= k < tilesets@.len() ==> images_wf(#[trigger] tilesets@[k]),
            i <= n,
            files@.len() == i,
            sheets@.len() == i,
            ranges@.len() == i,
            forall|k: int| 0 <= k < i ==> buildable(#[trigger] tilesets@[k]),
            forall|k: int| 0 <= k < i ==> built_from(k, #[trigger] tilesets@[k], files@[k], sheets@[k], ranges@[k]),
        decreases n - i,
    {
        match build_sheet(i, &tilesets[i]) {
            Ok((f, s, g)) => {
                files.push(f);
                sheets.push(s);
                ranges.push(g);
            },
            Err(e) => {
                return Err(e);
            },
        }
        i = i + 1;
    }
    proof {
        assert(forall|k: int| 0 <= k < n ==> #[trigger] ranges@[k].first_gid == tilesets@[k].first_gid);
        assert(ranges_wf(ranges@) == first_gids_wf(tilesets@));
    }
    match GidTable::new(ranges) {
        Ok(table) => Ok((files, sheets, table)),
        Err(e) => Err(e),
    }
}

} // verus!
