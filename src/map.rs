use vstd::prelude::*;

use crate::error::AssetError;
use crate::gid::GidRange;
use crate::output::{kept_files, output_files, MapFile, SheetFile};
use crate::scene::{assemble_entities, cells_ok, objects_ok, references, scene_base, with_first_uses, MapObject, PrefabEntity};
use crate::pack::{lemma_sheet_pixels_unique, placement_of, sheet_pixels_ok, simple_pack_of, sizes_of};
use crate::tileset::{
    png_rgba_of, TilesetImages, buildable, file_built, first_gids_wf, images_wf, sheet_built, sprite_sheets_from_tilesets,
    tileset_error, tileset_range, SpriteSheetPrefab, TilesetDesc,
};

verus! {

/// A tile map: tile size in pixels, tilesets in ascending identifier order,
/// tile layers (rows of identifiers, 0 for an empty cell) and object groups.
#[derive(Debug, Clone)]
pub struct MapDesc {
    pub tile_width: u32,
    pub tile_height: u32,
    pub tilesets: Vec<TilesetDesc>,
    pub layers: Vec<Vec<Vec<u32>>>,
    pub object_groups: Vec<Vec<MapObject>>,
}

impl MapDesc {
    pub open spec fn wf(&self) -> bool {
        forall|i: int| 0 <= i < self.tilesets@.len() ==> images_wf(#[trigger] self.tilesets@[i])
    }

    pub open spec fn ranges(&self) -> Seq<GidRange> {
        Seq::new(self.tilesets@.len(), |i: int| tileset_range(self.tilesets@[i]))
    }

    /// The scene's entities, as the map defines them.
    pub open spec fn entities_spec(&self) -> Seq<PrefabEntity> {
        with_first_uses(scene_base(self.ranges(), self.tile_width, self.tile_height, self.layers@, self.object_groups@))
    }
}

/// A compiled map: the scene's entities, the definition of every sheet (by
/// sheet index), and the image files of the sheets that some entity uses.
#[derive(Debug, Clone)]
pub struct MapPrefab {
    pub entities: Vec<PrefabEntity>,
    pub sheets: Vec<SpriteSheetPrefab>,
    pub files: Vec<SheetFile>,
}

pub open spec fn sheets_ascending(files: Seq<SheetFile>) -> bool {
    forall|i: int, j: int| 0 <= i < j < files.len() ==> (#[trigger] files[i]).sheet < (#[trigger] files[j]).sheet
}

proof fn lemma_kept_ascending(files: Seq<SheetFile>, used: Seq<usize>)
    requires
        sheets_ascending(files),
    ensures
        sheets_ascending(kept_files(files, used)),
    decreases files.len(),
{
    reveal(Seq::filter);
    if files.len() > 0 {
        let pred = |f: SheetFile| used.contains(f.sheet);
        let rest = files.drop_last();
        assert(sheets_ascending(rest));
        lemma_kept_ascending(rest, used);
        let kr = kept_files(rest, used);
        if pred(files.last()) {
            assert forall|i: int| 0 <= i < kr.len() implies (#[trigger] kr[i]).sheet < files.last().sheet by {
                assert(kr.contains(kr[i]));
                rest.lemma_filter_contains_rev(pred, kr[i]);
                let k = choose|k: int| 0 <= k < rest.len() && rest[k] == kr[i];
                assert(files[k] == rest[k]);
            }
        }
    }
}

/// `mp` is what compiling `map` yields: the entities the map defines, a
/// definition for every tileset's sheet, and exactly the image files of
/// the sheets that some entity uses, ascending by sheet index.
pub open spec fn compiled_from(map: MapDesc, mp: MapPrefab) -> bool {
    &&& mp.entities@ == map.entities_spec()
    &&& mp.sheets@.len() == map.tilesets@.len()
    &&& forall|i: int| 0 <= i < map.tilesets@.len() ==> sheet_built(#[trigger] map.tilesets@[i], mp.sheets@[i])
    &&& forall|k: int| 0 <= k < mp.files@.len() ==> {
        let f = #[trigger] mp.files@[k];
        &&& 0 <= f.sheet < map.tilesets@.len()
        &&& references(mp.entities@, f.sheet)
        &&& file_built(f.sheet as int, map.tilesets@[f.sheet as int], f)
    }
    &&& forall|sh: usize| references(mp.entities@, sh)
        ==> exists|k: int| 0 <= k < mp.files@.len() && (#[trigger] mp.files@[k]).sheet == sh
    &&& sheets_ascending(mp.files@)
}

/// Two files hold the same sheet with the same content.
pub open spec fn same_file(f: SheetFile, g: SheetFile) -> bool {
    &&& f.sheet == g.sheet
    &&& match (f.data, g.data) {
        (MapFile::Path(a), MapFile::Path(b)) => a@ == b@,
        (MapFile::Data(a), MapFile::Data(b)) => a@ == b@,
        _ => false,
    }
}

/// Two sheet definitions agree.
pub open spec fn same_sheet(a: SpriteSheetPrefab, b: SpriteSheetPrefab) -> bool {
    a.texture_width == b.texture_width && a.texture_height == b.texture_height && a.sprites@ == b.sprites@
}

/// Two strictly ascending file lists that name the same sheets name them in
/// the same order.
proof fn lemma_ascending_same_sheets(x: Seq<SheetFile>, y: Seq<SheetFile>)
    requires
        sheets_ascending(x),
        sheets_ascending(y),
        forall|k: int| 0 <= k < x.len() ==> exists|j: int| 0 <= j < y.len() && (#[trigger] y[j]).sheet == (#[trigger] x[k]).sheet,
        forall|k: int| 0 <= k < y.len() ==> exists|j: int| 0 <= j < x.len() && (#[trigger] x[j]).sheet == (#[trigger] y[k]).sheet,
    ensures
        x.len() == y.len(),
        forall|k: int| 0 <= k < x.len() ==> (#[trigger] x[k]).sheet == y[k].sheet,
{
    assert forall|k: int| 0 <= k < x.len() && k < y.len() implies (#[trigger] x[k]).sheet == y[k].sheet by {
        lemma_ascending_prefix(x, y, k);
    }
    if x.len() > y.len() {
        let m = y.len() as int;
        let j = choose|j: int| 0 <= j < y.len() && (#[trigger] y[j]).sheet == x[m].sheet;
        lemma_ascending_prefix(x, y, j);
    } else if y.len() > x.len() {
        let m = x.len() as int;
        let j = choose|j: int| 0 <= j < x.len() && (#[trigger] x[j]).sheet == y[m].sheet;
        lemma_ascending_prefix(x, y, j);
    }
}

proof fn lemma_ascending_prefix(x: Seq<SheetFile>, y: Seq<SheetFile>, k: int)
    requires
        sheets_ascending(x),
        sheets_ascending(y),
        forall|k: int| 0 <= k < x.len() ==> exists|j: int| 0 <= j < y.len() && (#[trigger] y[j]).sheet == (#[trigger] x[k]).sheet,
        forall|k: int| 0 <= k < y.len() ==> exists|j: int| 0 <= j < x.len() && (#[trigger] x[j]).sheet == (#[trigger] y[k]).sheet,
        0 <= k < x.len(),
        k < y.len(),
    ensures
        x[k].sheet == y[k].sheet,
    decreases k,
{
    if k > 0 {
        lemma_ascending_prefix(x, y, k - 1);
    }
    if x[k].sheet < y[k].sheet {
        let j = choose|j: int| 0 <= j < y.len() && (#[trigger] y[j]).sheet == x[k].sheet;
        if j < k {
            lemma_ascending_prefix(x, y, j);
        }
    } else if y[k].sheet < x[k].sheet {
        let j = choose|j: int| 0 <= j < x.len() && (#[trigger] x[j]).sheet == y[k].sheet;
        if j < k {
            lemma_ascending_prefix(x, y, j);
        }
    }
}

/// Compiling the same map twice gives the same result: the same entities,
/// the same sheet definitions, and the same files with the same bytes.
pub proof fn lemma_compile_deterministic(map: MapDesc, a: MapPrefab, b: MapPrefab)
    requires
        compiled_from(map, a),
        compiled_from(map, b),
    ensures
        a.entities@ == b.entities@,
        a.sheets@.len() == b.sheets@.len(),
        forall|i: int| 0 <= i < a.sheets@.len() ==> same_sheet(#[trigger] a.sheets@[i], b.sheets@[i]),
        a.files@.len() == b.files@.len(),
        forall|k: int| 0 <= k < a.files@.len() ==> same_file(#[trigger] a.files@[k], b.files@[k]),
{
    assert forall|k: int| 0 <= k < a.files@.len() implies exists|j: int| 0 <= j < b.files@.len()
        && (#[trigger] b.files@[j]).sheet == (#[trigger] a.files@[k]).sheet by {
        assert(references(b.entities@, a.files@[k].sheet));
    }
    assert forall|k: int| 0 <= k < b.files@.len() implies exists|j: int| 0 <= j < a.files@.len()
        && (#[trigger] a.files@[j]).sheet == (#[trigger] b.files@[k]).sheet by {
        assert(references(a.entities@, b.files@[k].sheet));
    }
    lemma_ascending_same_sheets(a.files@, b.files@);
    assert forall|i: int| 0 <= i < a.sheets@.len() implies same_sheet(#[trigger] a.sheets@[i], b.sheets@[i]) by {
        lemma_sheet_built_unique(map.tilesets@[i], a.sheets@[i], b.sheets@[i]);
    }
    assert forall|k: int| 0 <= k < a.files@.len() implies same_file(#[trigger] a.files@[k], b.files@[k]) by {
        let f = a.files@[k];
        let g = b.files@[k];
        assert(file_built(f.sheet as int, map.tilesets@[f.sheet as int], f));
        assert(file_built(g.sheet as int, map.tilesets@[g.sheet as int], g));
        lemma_file_built_unique(f.sheet as int, map.tilesets@[f.sheet as int], f, g);
    }
}

proof fn lemma_sheet_built_unique(t: TilesetDesc, a: SpriteSheetPrefab, b: SpriteSheetPrefab)
    requires
        sheet_built(t, a),
        sheet_built(t, b),
    ensures
        same_sheet(a, b),
{
    if let TilesetImages::Sheet { width, height, .. } = t.images {
        let columns = width / t.tile_width;
        let rows = height / t.tile_height;
        assert forall|k: int| 0 <= k < a.sprites@.len() implies a.sprites@[k] == b.sprites@[k] by {
            assert(columns >= 0 && rows >= 0) by (nonlinear_arith)
                requires columns == width / t.tile_width, rows == height / t.tile_height, t.tile_width > 0, t.tile_height > 0,
                    width >= 0, height >= 0;
            assert(columns > 0) by (nonlinear_arith)
                requires 0 <= k < columns * rows, rows >= 0, columns >= 0;
            vstd::arithmetic::div_mod::lemma_fundamental_div_mod(k, columns as int);
            let i = k / (columns as int);
            let c = k % (columns as int);
            assert(k == i * columns + c) by (nonlinear_arith)
                requires k == columns * i + c;
            assert(0 <= i < rows) by (nonlinear_arith)
                requires 0 <= k < columns * rows, k == i * columns + c, 0 <= c < columns, columns > 0;
            assert(a.sprites@[i * columns + c] == b.sprites@[i * columns + c]);
        }
        assert(a.sprites@ =~= b.sprites@);
    }
}

proof fn lemma_file_built_unique(index: int, t: TilesetDesc, f: SheetFile, g: SheetFile)
    requires
        file_built(index, t, f),
        file_built(index, t, g),
    ensures
        same_file(f, g),
{
    if let TilesetImages::Loose(imgs) = t.images {
        let (w, h, pos) = simple_pack_of(sizes_of(imgs@));
        let placements = Seq::new(imgs@.len(), |i: int| placement_of(pos, imgs@, i));
        if let MapFile::Data(x) = f.data {
            if let MapFile::Data(y) = g.data {
                let px1 = choose|px: Seq<u8>| sheet_pixels_ok(px, w, h, placements, imgs@) && x@ == #[trigger] png_rgba_of(w, h, px);
                let px2 = choose|px: Seq<u8>| sheet_pixels_ok(px, w, h, placements, imgs@) && y@ == #[trigger] png_rgba_of(w, h, px);
                lemma_sheet_pixels_unique(px1, px2, w, h, placements, imgs@);
            }
        }
    }
}

impl MapPrefab {
    pub fn new(entities: Vec<PrefabEntity>, sheets: Vec<SpriteSheetPrefab>, files: Vec<SheetFile>) -> (r: MapPrefab)
        ensures
            r.entities@ == entities@,
            r.sheets@ == sheets@,
            r.files@ == files@,
    {
        MapPrefab { entities, sheets, files }
    }

    /// The image files to write, ascending by sheet index.
    pub fn files(&self) -> (r: &[SheetFile])
        ensures
            r@ == self.files@,
    {
        self.files.as_slice()
    }

    /// Compiles a map. Sheets come from the tilesets, entities from the tile
    /// layers and then the object groups, and only the sheets that some
    /// entity uses are written.
    pub fn from_map(map: &MapDesc) -> (r: Result<MapPrefab, AssetError>)
        requires
            map.wf(),
        ensures
            r matches Ok(mp) ==> compiled_from(*map, mp),
            r matches Err(e) ==> {
                ||| e == AssetError::MapParse && !first_gids_wf(map.tilesets@)
                ||| (exists|i: int| 0 <= i < map.tilesets@.len() && e == tileset_error(#[trigger] map.tilesets@[i]))
                ||| e == AssetError::InvalidGid && !(cells_ok(map.ranges(), map.layers@) && objects_ok(map.ranges(), map.object_groups@))
            },
            (exists|i: int| 0 <= i < map.tilesets@.len() && !buildable(#[trigger] map.tilesets@[i]))
                || !first_gids_wf(map.tilesets@) ==> r is Err,
            (forall|i: int| 0 <= i < map.tilesets@.len() ==> buildable(#[trigger] map.tilesets@[i]) && map.tilesets@[i].images is Sheet)
                && first_gids_wf(map.tilesets@) ==> (r is Ok <==> cells_ok(map.ranges(), map.layers@) && objects_ok(map.ranges(), map.object_groups@)),
    {
        let (files, sheets, table) = match sprite_sheets_from_tilesets(&map.tilesets) {
            Ok(x) => x,
            Err(e) => {
                return Err(e);
            },
        };
        assert(table.ranges@ =~= map.ranges());
        let (entities, used) = match assemble_entities(&table, map.tile_width, map.tile_height, &map.layers, &map.object_groups) {
            Ok(x) => x,
            Err(e) => {
                return Err(e);
            },
        };
        let ghost all = files@;
        let kept = output_files(files, &used);
        proof {
            let base = scene_base(table.ranges@, map.tile_width, map.tile_height, map.layers@, map.object_groups@);
            let pred = |f: SheetFile| used@.contains(f.sheet);
            assert forall|sh: usize| references(entities@, sh) <==> references(base, sh) by {
                if references(base, sh) {
                    let j = choose|j: int| 0 <= j < base.len() && crate::scene::sheet_of(#[trigger] base[j]) == Some(sh);
                    assert(entities@[j].render == base[j].render);
                }
                if references(entities@, sh) {
                    let j = choose|j: int| 0 <= j < entities@.len() && crate::scene::sheet_of(#[trigger] entities@[j]) == Some(sh);
                    assert(entities@[j].render == base[j].render);
                }
            }
            assert forall|k: int| 0 <= k < kept@.len() implies {
                let f = #[trigger] kept@[k];
                &&& 0 <= f.sheet < map.tilesets@.len()
                &&& references(entities@, f.sheet)
                &&& file_built(f.sheet as int, map.tilesets@[f.sheet as int], f)
            } by {
                all.lemma_filter_pred(pred, k);
                assert(kept@.contains(kept@[k]));
                all.lemma_filter_contains_rev(pred, kept@[k]);
                let i = choose|i: int| 0 <= i < all.len() && all[i] == kept@[k];
                assert(file_built(i, map.tilesets@[i], all[i]));
                assert(kept@[k].sheet == i);
                assert(used@.contains(kept@[k].sheet));
                assert(references(base, kept@[k].sheet));
            }
            assert forall|sh: usize| references(entities@, sh)
                implies exists|k: int| 0 <= k < kept@.len() && (#[trigger] kept@[k]).sheet == sh by {
                let j = choose|j: int| 0 <= j < base.len() && crate::scene::sheet_of(#[trigger] base[j]) == Some(sh);
                crate::scene::lemma_entity_sheet_in_range(table.ranges@, map.tile_width, map.tile_height, map.layers@, map.object_groups@, j);
                assert(sh < all.len());
                assert(file_built(sh as int, map.tilesets@[sh as int], all[sh as int]));
                assert(references(base, sh));
                assert(used@.contains(sh));
                assert(pred(all[sh as int]));
                all.lemma_filter_contains(pred, sh as int);
                let k = choose|k: int| 0 <= k < kept@.len() && kept@[k] == all[sh as int];
            }
            assert(sheets_ascending(all)) by {
                assert forall|i: int, j: int| 0 <= i < j < all.len() implies (#[trigger] all[i]).sheet < (#[trigger] all[j]).sheet by {
                    assert(file_built(i, map.tilesets@[i], all[i]));
                    assert(file_built(j, map.tilesets@[j], all[j]));
                }
            }
            lemma_kept_ascending(all, used@);
        }
        Ok(MapPrefab { entities, sheets, files: kept })
    }
}

} // verus!
