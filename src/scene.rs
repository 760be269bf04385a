use vstd::prelude::*;
use vstd::string::*;

use crate::coords::{tile_to_world, tile_to_world_spec, WorldPos};
use crate::error::AssetError;
use crate::gid::{resolvable, resolve_spec, GidRange, GidTable};

verus! {

/// Which sprite an entity shows: sheet index and sprite index in that sheet.
#[derive(Debug, Clone, Copy, PartialEq, Eq)]
pub struct SpriteRenderPrefab {
    pub sheet: usize,
    pub sprite: usize,
}

/// Where an entity stands: a tile cell's centre, or the placed object at
/// `index` of object group `group`, whose position the map gives in pixels.
#[derive(Debug, Clone, Copy, PartialEq, Eq)]
pub enum Placement {
    Cell(WorldPos),
    Object { group: usize, index: usize },
}

/// What kind of entity this is.
#[derive(Debug, Clone, Copy, PartialEq, Eq)]
pub enum Detail {
    /// A plain map tile.
    Tile,
    /// A sprite-backed object that does not move.
    StaticSprite,
    /// A sprite-backed object with a rigid body.
    Dynamic,
    /// An invisible collider.
    Collision,
}

/// One entity of the scene. `sheet` holds a sheet index when this entity is
/// the first to use that sheet and so carries its full definition.
#[derive(Debug, Clone, Copy, PartialEq, Eq)]
pub struct PrefabEntity {
    pub sheet: Option<usize>,
    pub render: Option<SpriteRenderPrefab>,
    pub placement: Placement,
    pub detail: Detail,
}

/// The classification of a placed object by its type tag.
#[derive(Debug, Clone, Copy, PartialEq, Eq)]
pub enum ObjectKind {
    Static,
    Dynamic,
    Collision,
    Unrecognized,
}

/// A placed object, as far as the compiler's decisions go: its type tag,
/// the tile it shows (0 for none), and whether its shape is a rectangle.
#[derive(Debug, Clone)]
pub struct MapObject {
    pub obj_type: String,
    pub gid: u32,
    pub is_rect: bool,
}

pub open spec fn kind_of(t: Seq<char>) -> ObjectKind {
    if t == "static"@ {
        ObjectKind::Static
    } else if t == "dynamic"@ {
        ObjectKind::Dynamic
    } else if t == "collision"@ {
        ObjectKind::Collision
    } else {
        ObjectKind::Unrecognized
    }
}

pub open spec fn sheet_of(e: PrefabEntity) -> Option<usize> {
    match e.render {
        Some(r) => Some(r.sheet),
        None => None,
    }
}

/// The entity for a non-empty, resolvable cell; `None` otherwise.
pub open spec fn cell_entity(t: Seq<GidRange>, gid: u32, layer: int, row: int, col: int, tw: u32, th: u32) -> Option<PrefabEntity> {
    match resolve_spec(t, gid) {
        Ok(Some((s, k))) => Some(PrefabEntity {
            sheet: None,
            render: Some(SpriteRenderPrefab { sheet: s, sprite: k }),
            placement: Placement::Cell(tile_to_world_spec(row, col, layer, tw as int, th as int)),
            detail: Detail::Tile,
        }),
        _ => None,
    }
}

pub open spec fn row_entities(t: Seq<GidRange>, row: Seq<u32>, layer: int, r: int, tw: u32, th: u32) -> Seq<PrefabEntity>
    decreases row.len(),
{
    if row.len() == 0 {
        Seq::empty()
    } else {
        let prev = row_entities(t, row.drop_last(), layer, r, tw, th);
        match cell_entity(t, row.last(), layer, r, row.len() - 1, tw, th) {
            Some(e) => prev.push(e),
            None => prev,
        }
    }
}

pub open spec fn layer_entities(t: Seq<GidRange>, rows: Seq<Vec<u32>>, layer: int, tw: u32, th: u32) -> Seq<PrefabEntity>
    decreases rows.len(),
{
    if rows.len() == 0 {
        Seq::empty()
    } else {
        layer_entities(t, rows.drop_last(), layer, tw, th) + row_entities(t, rows.last()@, layer, rows.len() - 1, tw, th)
    }
}

/// The tile entities of all layers: layer by layer, row by row, column by
/// column, one for each non-empty cell.
pub open spec fn tile_entities(t: Seq<GidRange>, layers: Seq<Vec<Vec<u32>>>, tw: u32, th: u32) -> Seq<PrefabEntity>
    decreases layers.len(),
{
    if layers.len() == 0 {
        Seq::empty()
    } else {
        tile_entities(t, layers.drop_last(), tw, th) + layer_entities(t, layers.last()@, layers.len() - 1, tw, th)
    }
}

/// Every non-empty cell resolves.
pub open spec fn cells_ok(t: Seq<GidRange>, layers: Seq<Vec<Vec<u32>>>) -> bool {
    forall|z: int, r: int, c: int|
        0 <= z < layers.len() && 0 <= r < layers[z]@.len() && 0 <= c < layers[z]@[r]@.len()
            ==> #[trigger] layers[z]@[r]@[c] == 0 || resolvable(t, layers[z]@[r]@[c])
}

/// Static and dynamic objects show a sprite: they need a rectangle and a
/// tile, and are dropped without one.
pub open spec fn shows_sprite(o: MapObject) -> bool {
    (kind_of(o.obj_type@) == ObjectKind::Static || kind_of(o.obj_type@) == ObjectKind::Dynamic)
        && o.is_rect && o.gid != 0
}

/// The entity for a placed object; `None` when its type is unrecognized, its
/// shape does not suit its type, or it lacks the tile its type needs.
pub open spec fn object_entity(t: Seq<GidRange>, o: MapObject, group: int, index: int) -> Option<PrefabEntity> {
    let at = Placement::Object { group: group as usize, index: index as usize };
    if shows_sprite(o) {
        match resolve_spec(t, o.gid) {
            Ok(Some((s, k))) => Some(PrefabEntity {
                sheet: None,
                render: Some(SpriteRenderPrefab { sheet: s, sprite: k }),
                placement: at,
                detail: if kind_of(o.obj_type@) == ObjectKind::Static { Detail::StaticSprite } else { Detail::Dynamic },
            }),
            _ => None,
        }
    } else if kind_of(o.obj_type@) == ObjectKind::Collision && o.is_rect {
        Some(PrefabEntity { sheet: None, render: None, placement: at, detail: Detail::Collision })
    } else {
        None
    }
}

/// An object aborts the run only when it shows a sprite whose tile does not
/// resolve.
pub open spec fn object_ok(t: Seq<GidRange>, o: MapObject) -> bool {
    shows_sprite(o) ==> resolvable(t, o.gid)
}

pub open spec fn group_entities(t: Seq<GidRange>, objs: Seq<MapObject>, group: int) -> Seq<PrefabEntity>
    decreases objs.len(),
{
    if objs.len() == 0 {
        Seq::empty()
    } else {
        let prev = group_entities(t, objs.drop_last(), group);
        match object_entity(t, objs.last(), group, objs.len() - 1) {
            Some(e) => prev.push(e),
            None => prev,
        }
    }
}

/// The object entities of all groups, in encounter order.
pub open spec fn object_entities(t: Seq<GidRange>, groups: Seq<Vec<MapObject>>) -> Seq<PrefabEntity>
    decreases groups.len(),
{
    if groups.len() == 0 {
        Seq::empty()
    } else {
        object_entities(t, groups.drop_last()) + group_entities(t, groups.last()@, groups.len() - 1)
    }
}

pub open spec fn objects_ok(t: Seq<GidRange>, groups: Seq<Vec<MapObject>>) -> bool {
    forall|g: int, i: int| 0 <= g < groups.len() && 0 <= i < groups[g]@.len() ==> object_ok(t, #[trigger] groups[g]@[i])
}

/// Entity `i` is the first in `s` that shows a sprite of its sheet.
pub open spec fn first_use(s: Seq<PrefabEntity>, i: int) -> bool {
    &&& sheet_of(s[i]) is Some
    &&& forall|j: int| 0 <= j < i ==> sheet_of(#[trigger] s[j]) != sheet_of(s[i])
}

/// `s` with each sheet's definition attached to the first entity that uses it.
pub open spec fn with_first_uses(s: Seq<PrefabEntity>) -> Seq<PrefabEntity> {
    Seq::new(s.len(), |i: int| PrefabEntity {
        sheet: if first_use(s, i) { sheet_of(s[i]) } else { None },
        ..s[i]
    })
}

/// Compares two strings character by character.
fn same_text(a: &str, b: &str) -> (r: bool)
    ensures
        r == (a@ == b@),
{
    let n = a.unicode_len();
    if n != b.unicode_len() {
        return false;
    }
    let mut i: usize = 0;
    while i < n
        invariant
            n == a@.len(),
            n == b@.len(),
            i <= n,
            forall|j: int| 0 <= j < i ==> a@[j] == b@[j],
        decreases n - i,
    {
        if a.get_char(i) != b.get_char(i) {
            return false;
        }
        i = i + 1;
    }
    assert(a@ =~= b@);
    true
}

/// Classifies an object by its type tag: "static", "dynamic", "collision",
/// or unrecognized.
pub fn object_kind(obj_type: &str) -> (r: ObjectKind)
    ensures
        r == kind_of(obj_type@),
{
    if same_text(obj_type, "static") {
        ObjectKind::Static
    } else if same_text(obj_type, "dynamic") {
        ObjectKind::Dynamic
    } else if same_text(obj_type, "collision") {
        ObjectKind::Collision
    } else {
        ObjectKind::Unrecognized
    }
}


/// Cells of one row whose tile resolves (or is empty).
pub open spec fn row_ok(t: Seq<GidRange>, row: Seq<u32>) -> bool {
    forall|c: int| 0 <= c < row.len() ==> #[trigger] row[c] == 0 || resolvable(t, row[c])
}

pub open spec fn layer_ok(t: Seq<GidRange>, rows: Seq<Vec<u32>>) -> bool {
    forall|r: int, c: int|
        0 <= r < rows.len() && 0 <= c < rows[r]@.len() ==> #[trigger] rows[r]@[c] == 0 || resolvable(t, rows[r]@[c])
}

pub open spec fn group_ok(t: Seq<GidRange>, objs: Seq<MapObject>) -> bool {
    forall|i: int| 0 <= i < objs.len() ==> object_ok(t, #[trigger] objs[i])
}

fn cell_to_entity(table: &GidTable, gid: u32, layer: usize, row: usize, col: usize, tw: u32, th: u32)
    -> (r: Result<Option<PrefabEntity>, AssetError>)
    requires
        table.wf(),
    ensures
        r is Ok <==> (gid == 0 || resolvable(table.ranges@, gid)),
        r matches Ok(x) ==> x == cell_entity(table.ranges@, gid, layer as int, row as int, col as int, tw, th),
        r is Err ==> r == Err::<Option<PrefabEntity>, AssetError>(AssetError::InvalidGid),
{
    match table.resolve(gid) {
        Err(e) => Err(e),
        Ok(None) => Ok(None),
        Ok(Some((s, k))) => Ok(Some(PrefabEntity {
            sheet: None,
            render: Some(SpriteRenderPrefab { sheet: s, sprite: k }),
            placement: Placement::Cell(tile_to_world(row, col, layer, tw, th)),
            detail: Detail::Tile,
        })),
    }
}

fn push_row_entities(table: &GidTable, row: &Vec<u32>, layer: usize, r: usize, tw: u32, th: u32, out: &mut Vec<PrefabEntity>)
    -> (res: Result<(), AssetError>)
    requires
        table.wf(),
    ensures
        res is Ok <==> row_ok(table.ranges@, row@),
        res is Ok ==> final(out)@ == old(out)@ + row_entities(table.ranges@, row@, layer as int, r as int, tw, th),
        res is Err ==> res == Err::<(), AssetError>(AssetError::InvalidGid),
{
    let n = row.len();
    let mut c: usize = 0;
    while c < n
        invariant
            table.wf(),
            n == row@.len(),
            c <= n,
            row_ok(table.ranges@, row@.subrange(0, c as int)),
            out@ == old(out)@ + row_entities(table.ranges@, row@.subrange(0, c as int), layer as int, r as int, tw, th),
        decreases n - c,
    {
        match cell_to_entity(table, row[c], layer, r, c, tw, th) {
            Err(e) => {
                assert(!row_ok(table.ranges@, row@) ) by {
                    assert(!(row@[c as int] == 0 || resolvable(table.ranges@, row@[c as int])));
                }
                return Err(e);
            },
            Ok(x) => {
                if let Some(e) = x {
                    out.push(e);
                }
            },
        }
        proof {
            let next = row@.subrange(0, c + 1);
            assert(next.drop_last() =~= row@.subrange(0, c as int));
            assert(next.last() == row@[c as int]);
            assert(out@ =~= old(out)@ + row_entities(table.ranges@, next, layer as int, r as int, tw, th));
            assert forall|j: int| 0 <= j < c + 1 implies #[trigger] next[j] == 0 || resolvable(table.ranges@, next[j]) by {
                if j < c {
                    assert(row@.subrange(0, c as int)[j] == next[j]);
                }
            }
        }
        c = c + 1;
    }
    assert(row@.subrange(0, n as int) =~= row@);
    Ok(())
}

fn push_layer_entities(table: &GidTable, rows: &Vec<Vec<u32>>, layer: usize, tw: u32, th: u32, out: &mut Vec<PrefabEntity>)
    -> (res: Result<(), AssetError>)
    requires
        table.wf(),
    ensures
        res is Ok <==> layer_ok(table.ranges@, rows@),
        res is Ok ==> final(out)@ == old(out)@ + layer_entities(table.ranges@, rows@, layer as int, tw, th),
        res is Err ==> res == Err::<(), AssetError>(AssetError::InvalidGid),
{
    let n = rows.len();
    let mut r: usize = 0;
    while r < n
        invariant
            table.wf(),
            n == rows@.len(),
            r <= n,
            layer_ok(table.ranges@, rows@.subrange(0, r as int)),
            out@ == old(out)@ + layer_entities(table.ranges@, rows@.subrange(0, r as int), layer as int, tw, th),
        decreases n - r,
    {
        let res = push_row_entities(table, &rows[r], layer, r, tw, th, out);
        if res.is_err() {
            assert(!layer_ok(table.ranges@, rows@)) by {
                let c = choose|c: int| 0 <= c < rows@[r as int]@.len() && !(#[trigger] rows@[r as int]@[c] == 0 || resolvable(table.ranges@, rows@[r as int]@[c]));
                assert(!(rows@[r as int]@[c] == 0 || resolvable(table.ranges@, rows@[r as int]@[c])));
            }
            return res;
        }
        proof {
            let next = rows@.subrange(0, r + 1);
            assert(next.drop_last() =~= rows@.subrange(0, r as int));
            assert(next.last() == rows@[r as int]);
            assert(out@ =~= old(out)@ + layer_entities(table.ranges@, next, layer as int, tw, th));
            assert forall|a: int, c: int| 0 <= a < next.len() && 0 <= c < next[a]@.len()
                implies #[trigger] next[a]@[c] == 0 || resolvable(table.ranges@, next[a]@[c]) by {
                if a < r {
                    assert(rows@.subrange(0, r as int)[a] == next[a]);
                } else {
                    assert(row_ok(table.ranges@, rows@[r as int]@));
                    assert(next[a]@[c] == rows@[r as int]@[c]);
                }
            }
        }
        r = r + 1;
    }
    assert(rows@.subrange(0, n as int) =~= rows@);
    Ok(())
}

fn push_tile_entities(table: &GidTable, layers: &Vec<Vec<Vec<u32>>>, tw: u32, th: u32, out: &mut Vec<PrefabEntity>)
    -> (res: Result<(), AssetError>)
    requires
        table.wf(),
    ensures
        res is Ok <==> cells_ok(table.ranges@, layers@),
        res is Ok ==> final(out)@ == old(out)@ + tile_entities(table.ranges@, layers@, tw, th),
        res is Err ==> res == Err::<(), AssetError>(AssetError::InvalidGid),
{
    let n = layers.len();
    let mut z: usize = 0;
    while z < n
        invariant
            table.wf(),
            n == layers@.len(),
            z <= n,
            cells_ok(table.ranges@, layers@.subrange(0, z as int)),
            out@ == old(out)@ + tile_entities(table.ranges@, layers@.subrange(0, z as int), tw, th),
        decreases n - z,
    {
        let res = push_layer_entities(table, &layers[z], z, tw, th, out);
        if res.is_err() {
            assert(!cells_ok(table.ranges@, layers@)) by {
                let rows = layers@[z as int]@;
                let (r, c) = choose|r: int, c: int| 0 <= r < rows.len() && 0 <= c < rows[r]@.len()
                    && !(#[trigger] rows[r]@[c] == 0 || resolvable(table.ranges@, rows[r]@[c]));
                assert(!(layers@[z as int]@[r]@[c] == 0 || resolvable(table.ranges@, layers@[z as int]@[r]@[c])));
            }
            return res;
        }
        proof {
            let next = layers@.subrange(0, z + 1);
            assert(next.drop_last() =~= layers@.subrange(0, z as int));
            assert(next.last() == layers@[z as int]);
            assert(out@ =~= old(out)@ + tile_entities(table.ranges@, next, tw, th));
            assert forall|a: int, r: int, c: int|
                0 <= a < next.len() && 0 <= r < next[a]@.len() && 0 <= c < next[a]@[r]@.len()
                implies #[trigger] next[a]@[r]@[c] == 0 || resolvable(table.ranges@, next[a]@[r]@[c]) by {
                if a < z {
                    assert(layers@.subrange(0, z as int)[a] == next[a]);
                } else {
                    assert(layer_ok(table.ranges@, layers@[z as int]@));
                    assert(next[a]@[r]@[c] == layers@[z as int]@[r]@[c]);
                }
            }
        }
        z = z + 1;
    }
    assert(layers@.subrange(0, n as int) =~= layers@);
    Ok(())
}

fn object_to_entity(table: &GidTable, o: &MapObject, group: usize, index: usize)
    -> (r: Result<Option<PrefabEntity>, AssetError>)
    requires
        table.wf(),
    ensures
        r is Ok <==> object_ok(table.ranges@, *o),
        r matches Ok(x) ==> x == object_entity(table.ranges@, *o, group as int, index as int),
        r is Err ==> r == Err::<Option<PrefabEntity>, AssetError>(AssetError::InvalidGid),
{
    let kind = object_kind(o.obj_type.as_str());
    let at = Placement::Object { group, index };
    match kind {
        ObjectKind::Static | ObjectKind::Dynamic => {
            if !o.is_rect || o.gid == 0 {
                return Ok(None);
            }
            match table.resolve(o.gid) {
                Err(e) => Err(e),
                Ok(None) => Ok(None),
                Ok(Some((s, k))) => {
                    let detail = match kind {
                        ObjectKind::Static => Detail::StaticSprite,
                        _ => Detail::Dynamic,
                    };
                    Ok(Some(PrefabEntity { sheet: None, render: Some(SpriteRenderPrefab { sheet: s, sprite: k }), placement: at, detail }))
                },
            }
        },
        ObjectKind::Collision => {
            if o.is_rect {
                Ok(Some(PrefabEntity { sheet: None, render: None, placement: at, detail: Detail::Collision }))
            } else {
                Ok(None)
            }
        },
        ObjectKind::Unrecognized => Ok(None),
    }
}

fn push_group_entities(table: &GidTable, objs: &Vec<MapObject>, group: usize, out: &mut Vec<PrefabEntity>)
    -> (res: Result<(), AssetError>)
    requires
        table.wf(),
    ensures
        res is Ok <==> group_ok(table.ranges@, objs@),
        res is Ok ==> final(out)@ == old(out)@ + group_entities(table.ranges@, objs@, group as int),
        res is Err ==> res == Err::<(), AssetError>(AssetError::InvalidGid),
{
    let n = objs.len();
    let mut i: usize = 0;
    while i < n
        invariant
            table.wf(),
            n == objs@.len(),
            i <= n,
            group_ok(table.ranges@, objs@.subrange(0, i as int)),
            out@ == old(out)@ + group_entities(table.ranges@, objs@.subrange(0, i as int), group as int),
        decreases n - i,
    {
        match object_to_entity(table, &objs[i], group, i) {
            Err(e) => {
                assert(!object_ok(table.ranges@, objs@[i as int]));
                return Err(e);
            },
            Ok(x) => {
                if let Some(e) = x {
                    out.push(e);
                }
            },
        }
        proof {
            let next = objs@.subrange(0, i + 1);
            assert(next.drop_last() =~= objs@.subrange(0, i as int));
            assert(next.last() == objs@[i as int]);
            assert(out@ =~= old(out)@ + group_entities(table.ranges@, next, group as int));
            assert forall|j: int| 0 <= j < i + 1 implies object_ok(table.ranges@, #[trigger] next[j]) by {
                if j < i {
                    assert(objs@.subrange(0, i as int)[j] == next[j]);
                }
            }
        }
        i = i + 1;
    }
    assert(objs@.subrange(0, n as int) =~= objs@);
    Ok(())
}

fn push_object_entities(table: &GidTable, groups: &Vec<Vec<MapObject>>, out: &mut Vec<PrefabEntity>)
    -> (res: Result<(), AssetError>)
    requires
        table.wf(),
    ensures
        res is Ok <==> objects_ok(table.ranges@, groups@),
        res is Ok ==> final(out)@ == old(out)@ + object_entities(table.ranges@, groups@),
        res is Err ==> res == Err::<(), AssetError>(AssetError::InvalidGid),
{
    let n = groups.len();
    let mut g: usize = 0;
    while g < n
        invariant
            table.wf(),
            n == groups@.len(),
            g <= n,
            objects_ok(table.ranges@, groups@.subrange(0, g as int)),
            out@ == old(out)@ + object_entities(table.ranges@, groups@.subrange(0, g as int)),
        decreases n - g,
    {
        let res = push_group_entities(table, &groups[g], g, out);
        if res.is_err() {
            assert(!objects_ok(table.ranges@, groups@)) by {
                let i = choose|i: int| 0 <= i < groups@[g as int]@.len() && !object_ok(table.ranges@, #[trigger] groups@[g as int]@[i]);
                assert(!object_ok(table.ranges@, groups@[g as int]@[i]));
            }
            return res;
        }
        proof {
            let next = groups@.subrange(0, g + 1);
            assert(next.drop_last() =~= groups@.subrange(0, g as int));
            assert(next.last() == groups@[g as int]);
            assert(out@ =~= old(out)@ + object_entities(table.ranges@, next));
            assert forall|a: int, i: int| 0 <= a < next.len() && 0 <= i < next[a]@.len()
                implies object_ok(table.ranges@, #[trigger] next[a]@[i]) by {
                if a < g {
                    assert(groups@.subrange(0, g as int)[a] == next[a]);
                } else {
                    assert(group_ok(table.ranges@, groups@[g as int]@));
                    assert(next[a]@[i] == groups@[g as int]@[i]);
                }
            }
        }
        g = g + 1;
    }
    assert(groups@.subrange(0, n as int) =~= groups@);
    Ok(())
}


/// The entities of a map before sheet definitions are attached: tile
/// entities of all layers, then object entities of all groups.
pub open spec fn scene_base(t: Seq<GidRange>, tw: u32, th: u32, layers: Seq<Vec<Vec<u32>>>, groups: Seq<Vec<MapObject>>) -> Seq<PrefabEntity> {
    tile_entities(t, layers, tw, th) + object_entities(t, groups)
}

/// Some entity of `s` shows a sprite of sheet `sh`.
pub open spec fn references(s: Seq<PrefabEntity>, sh: usize) -> bool {
    exists|i: int| 0 <= i < s.len() && sheet_of(#[trigger] s[i]) == Some(sh)
}

pub(crate) fn contains_value(v: &Vec<usize>, x: usize) -> (r: bool)
    ensures
        r == v@.contains(x),
{
    let mut i: usize = 0;
    while i < v.len()
        invariant
            i <= v@.len(),
            forall|j: int| 0 <= j < i ==> v@[j] != x,
        decreases v@.len() - i,
    {
        if v[i] == x {
            return true;
        }
        i = i + 1;
    }
    false
}

/// Attaches each sheet's definition to the first entity that shows one of its
/// sprites, and lists the sheets that some entity uses, in order of first use.
pub fn mark_first_uses(base: Vec<PrefabEntity>) -> (r: (Vec<PrefabEntity>, Vec<usize>))
    ensures
        r.0@ == with_first_uses(base@),
        forall|sh: usize| r.1@.contains(sh) <==> references(base@, sh),
{
    let n = base.len();
    let mut out: Vec<PrefabEntity> = Vec::new();
    let mut seen: Vec<usize> = Vec::new();
    let mut i: usize = 0;
    while i < n
        invariant
            n == base@.len(),
            i <= n,
            out@ == with_first_uses(base@).subrange(0, i as int),
            forall|sh: usize| seen@.contains(sh) <==> references(base@.subrange(0, i as int), sh),
        decreases n - i,
    {
        let e = base[i];
        let ghost prefix = base@.subrange(0, i as int);
        let ghost next = base@.subrange(0, i + 1);
        let ghost seen_before = seen@;
        let sheet = match e.render {
            Some(sr) => {
                if contains_value(&seen, sr.sheet) {
                    proof {
                        assert(references(prefix, sr.sheet));
                        let j = choose|j: int| 0 <= j < prefix.len() && sheet_of(#[trigger] prefix[j]) == Some(sr.sheet);
                        assert(base@[j] == prefix[j]);
                        assert(!first_use(base@, i as int));
                    }
                    None
                } else {
                    proof {
                        assert forall|j: int| 0 <= j < i implies sheet_of(#[trigger] base@[j]) != sheet_of(base@[i as int]) by {
                            assert(base@[j] == prefix[j]);
                        }
                        assert(first_use(base@, i as int));
                    }
                    seen.push(sr.sheet);
                    Some(sr.sheet)
                }
            },
            None => None,
        };
        out.push(PrefabEntity { sheet, ..e });
        proof {
            assert(out@ =~= with_first_uses(base@).subrange(0, i + 1));
            assert(next[i as int] == e);
            assert forall|sh: usize| seen@.contains(sh) <==> references(next, sh) by {
                if references(prefix, sh) {
                    let j = choose|j: int| 0 <= j < prefix.len() && sheet_of(#[trigger] prefix[j]) == Some(sh);
                    assert(next[j] == prefix[j]);
                }
                if references(next, sh) {
                    let j = choose|j: int| 0 <= j < next.len() && sheet_of(#[trigger] next[j]) == Some(sh);
                    if j < i {
                        assert(prefix[j] == next[j]);
                    }
                }
                match sheet {
                    Some(sh0) => {
                        assert(seen@ == seen_before.push(sh0));
                        vstd::seq_lib::lemma_seq_contains_after_push(seen_before, sh0, sh);
                    },
                    None => {
                        assert(seen@ == seen_before);
                    },
                }
            }
        }
        i = i + 1;
    }
    assert(base@.subrange(0, n as int) =~= base@);
    assert(with_first_uses(base@).subrange(0, n as int) =~= with_first_uses(base@));
    (out, seen)
}


/// Builds the scene's entities: tiles of every layer, then objects of every
/// group, with each sheet's definition on the first entity that uses it. Also
/// lists the sheets that some entity uses. Fails with `InvalidGid` exactly
/// when a non-empty cell, or a sprite-backed object, has an identifier that
/// no tileset holds.
pub fn assemble_entities(table: &GidTable, tile_width: u32, tile_height: u32, layers: &Vec<Vec<Vec<u32>>>, groups: &Vec<Vec<MapObject>>)
    -> (r: Result<(Vec<PrefabEntity>, Vec<usize>), AssetError>)
    requires
        table.wf(),
    ensures
        r is Ok <==> cells_ok(table.ranges@, layers@) && objects_ok(table.ranges@, groups@),
        r is Err ==> r == Err::<(Vec<PrefabEntity>, Vec<usize>), AssetError>(AssetError::InvalidGid),
        r matches Ok((es, used)) ==> {
            let base = scene_base(table.ranges@, tile_width, tile_height, layers@, groups@);
            &&& es@ == with_first_uses(base)
            &&& forall|sh: usize| used@.contains(sh) <==> references(base, sh)
        },
{
    let mut base: Vec<PrefabEntity> = Vec::new();
    let res = push_tile_entities(table, layers, tile_width, tile_height, &mut base);
    if let Err(e) = res {
        return Err(e);
    }
    let res = push_object_entities(table, groups, &mut base);
    if let Err(e) = res {
        return Err(e);
    }
    assert(base@ =~= scene_base(table.ranges@, tile_width, tile_height, layers@, groups@));
    Ok(mark_first_uses(base))
}

/// Each sheet's definition is carried by exactly one entity: the first, in
/// emission order, that shows one of its sprites. All later users of the
/// sheet refer to it by name only, and every entity keeps its sprite.
pub proof fn lemma_one_definition_per_sheet(s: Seq<PrefabEntity>, a: usize)
    ensures
        with_first_uses(s).len() == s.len(),
        forall|i: int| 0 <= i < s.len() ==> (#[trigger] with_first_uses(s)[i]).render == s[i].render,
        forall|i: int, j: int|
            0 <= i < s.len() && 0 <= j < s.len() && (#[trigger] with_first_uses(s)[i]).sheet == Some(a)
                && (#[trigger] with_first_uses(s)[j]).sheet == Some(a) ==> i == j,
        forall|i: int| 0 <= i < s.len() && (#[trigger] with_first_uses(s)[i]).sheet == Some(a) ==> {
            &&& sheet_of(s[i]) == Some(a)
            &&& forall|j: int| 0 <= j < i ==> sheet_of(#[trigger] s[j]) != Some(a)
        },
        references(s, a) ==> exists|i: int| 0 <= i < s.len() && (#[trigger] with_first_uses(s)[i]).sheet == Some(a),
{
    let w = with_first_uses(s);
    assert forall|i: int, j: int|
        0 <= i < s.len() && 0 <= j < s.len() && (#[trigger] w[i]).sheet == Some(a) && (#[trigger] w[j]).sheet == Some(a)
            implies i == j by {
        if i < j {
            assert(sheet_of(s[i]) == sheet_of(s[j]));
        } else if j < i {
            assert(sheet_of(s[j]) == sheet_of(s[i]));
        }
    }
    if references(s, a) {
        let k = choose|k: int| 0 <= k < s.len() && sheet_of(#[trigger] s[k]) == Some(a);
        lemma_first_user_exists(s, a, k);
    }
}

proof fn lemma_first_user_exists(s: Seq<PrefabEntity>, a: usize, k: int)
    requires
        0 <= k < s.len(),
        sheet_of(s[k]) == Some(a),
    ensures
        exists|i: int| 0 <= i < s.len() && (#[trigger] with_first_uses(s)[i]).sheet == Some(a),
    decreases k,
{
    if first_use(s, k) {
        assert(with_first_uses(s)[k].sheet == Some(a));
    } else {
        let j = choose|j: int| 0 <= j < k && sheet_of(#[trigger] s[j]) == sheet_of(s[k]);
        lemma_first_user_exists(s, a, j);
    }
}

/// An object whose type tag is not recognized yields no entity and does not
/// abort the run.
pub proof fn lemma_unrecognized_object_dropped(t: Seq<GidRange>, objs: Seq<MapObject>, group: int, i: int)
    requires
        0 <= i < objs.len(),
        kind_of(objs[i].obj_type@) == ObjectKind::Unrecognized,
    ensures
        object_ok(t, objs[i]),
        object_entity(t, objs[i], group, i) is None,
        group_entities(t, objs.subrange(0, i + 1), group) == group_entities(t, objs.subrange(0, i), group),
{
    let next = objs.subrange(0, i + 1);
    assert(next.drop_last() =~= objs.subrange(0, i));
    assert(next.last() == objs[i]);
}

pub open spec fn below(o: Option<usize>, n: int) -> bool {
    match o {
        Some(x) => x < n,
        None => true,
    }
}

/// Every sheet that an entity of `s` shows is below `n`.
pub open spec fn sheets_below(s: Seq<PrefabEntity>, n: int) -> bool {
    forall|j: int| 0 <= j < s.len() ==> below(#[trigger] sheet_of(s[j]), n)
}

proof fn lemma_resolved_in_range(t: Seq<GidRange>, gid: u32)
    requires
        t.len() <= usize::MAX,
    ensures
        resolve_spec(t, gid) matches Ok(Some((s, k))) ==> s < t.len(),
{
}

proof fn lemma_push_below(s: Seq<PrefabEntity>, e: Option<PrefabEntity>, n: int)
    requires
        sheets_below(s, n),
        e matches Some(x) ==> below(sheet_of(x), n),
    ensures
        sheets_below(match e { Some(x) => s.push(x), None => s }, n),
{
    if let Some(x) = e {
        assert forall|j: int| 0 <= j < s.len() + 1 implies below(#[trigger] sheet_of(s.push(x)[j]), n) by {
            if j < s.len() {
                assert(s.push(x)[j] == s[j]);
            }
        }
    }
}

proof fn lemma_concat_below(a: Seq<PrefabEntity>, b: Seq<PrefabEntity>, n: int)
    requires
        sheets_below(a, n),
        sheets_below(b, n),
    ensures
        sheets_below(a + b, n),
{
    assert forall|j: int| 0 <= j < (a + b).len() implies below(#[trigger] sheet_of((a + b)[j]), n) by {
        if j < a.len() {
            assert((a + b)[j] == a[j]);
        } else {
            assert((a + b)[j] == b[j - a.len()]);
        }
    }
}

proof fn lemma_row_below(t: Seq<GidRange>, row: Seq<u32>, layer: int, r: int, tw: u32, th: u32)
    requires
        t.len() <= usize::MAX,
    ensures
        sheets_below(row_entities(t, row, layer, r, tw, th), t.len() as int),
    decreases row.len(),
{
    if row.len() > 0 {
        lemma_row_below(t, row.drop_last(), layer, r, tw, th);
        lemma_resolved_in_range(t, row.last());
        lemma_push_below(row_entities(t, row.drop_last(), layer, r, tw, th),
            cell_entity(t, row.last(), layer, r, row.len() - 1, tw, th), t.len() as int);
    }
}

proof fn lemma_layer_below(t: Seq<GidRange>, rows: Seq<Vec<u32>>, layer: int, tw: u32, th: u32)
    requires
        t.len() <= usize::MAX,
    ensures
        sheets_below(layer_entities(t, rows, layer, tw, th), t.len() as int),
    decreases rows.len(),
{
    if rows.len() > 0 {
        lemma_layer_below(t, rows.drop_last(), layer, tw, th);
        lemma_row_below(t, rows.last()@, layer, rows.len() - 1, tw, th);
        lemma_concat_below(layer_entities(t, rows.drop_last(), layer, tw, th),
            row_entities(t, rows.last()@, layer, rows.len() - 1, tw, th), t.len() as int);
    }
}

proof fn lemma_tiles_below(t: Seq<GidRange>, layers: Seq<Vec<Vec<u32>>>, tw: u32, th: u32)
    requires
        t.len() <= usize::MAX,
    ensures
        sheets_below(tile_entities(t, layers, tw, th), t.len() as int),
    decreases layers.len(),
{
    if layers.len() > 0 {
        lemma_tiles_below(t, layers.drop_last(), tw, th);
        lemma_layer_below(t, layers.last()@, layers.len() - 1, tw, th);
        lemma_concat_below(tile_entities(t, layers.drop_last(), tw, th),
            layer_entities(t, layers.last()@, layers.len() - 1, tw, th), t.len() as int);
    }
}

proof fn lemma_group_below(t: Seq<GidRange>, objs: Seq<MapObject>, group: int)
    requires
        t.len() <= usize::MAX,
    ensures
        sheets_below(group_entities(t, objs, group), t.len() as int),
    decreases objs.len(),
{
    if objs.len() > 0 {
        lemma_group_below(t, objs.drop_last(), group);
        lemma_resolved_in_range(t, objs.last().gid);
        lemma_push_below(group_entities(t, objs.drop_last(), group),
            object_entity(t, objs.last(), group, objs.len() - 1), t.len() as int);
    }
}

proof fn lemma_objects_below(t: Seq<GidRange>, groups: Seq<Vec<MapObject>>)
    requires
        t.len() <= usize::MAX,
    ensures
        sheets_below(object_entities(t, groups), t.len() as int),
    decreases groups.len(),
{
    if groups.len() > 0 {
        lemma_objects_below(t, groups.drop_last());
        lemma_group_below(t, groups.last()@, groups.len() - 1);
        lemma_concat_below(object_entities(t, groups.drop_last()), group_entities(t, groups.last()@, groups.len() - 1), t.len() as int);
    }
}

/// Every entity of a scene shows a sprite of one of the map's sheets.
pub proof fn lemma_entity_sheet_in_range(t: Seq<GidRange>, tw: u32, th: u32, layers: Seq<Vec<Vec<u32>>>, groups: Seq<Vec<MapObject>>, j: int)
    requires
        t.len() <= usize::MAX,
        0 <= j < scene_base(t, tw, th, layers, groups).len(),
    ensures
        below(sheet_of(scene_base(t, tw, th, layers, groups)[j]), t.len() as int),
{
    lemma_tiles_below(t, layers, tw, th);
    lemma_objects_below(t, groups);
    lemma_concat_below(tile_entities(t, layers, tw, th), object_entities(t, groups), t.len() as int);
}


/// What an entity needs to show the sprite of a tile identifier.
#[derive(Debug, Clone, Copy, PartialEq, Eq)]
pub struct SpriteContext {
    /// The sheet whose definition the entity carries, when no entity has
    /// used that sheet yet.
    pub sprite_sheet: Option<usize>,
    pub sprite_sheet_id: usize,
    pub sprite_id: usize,
}

impl SpriteContext {
    /// Resolves `gid` against the table: `None` for an empty cell, and the
    /// sheet and sprite otherwise. The context carries the sheet's
    /// definition only when the sheet is not among `used_sprite_sheets`.
    pub fn from_gid(gid: u32, table: &GidTable, used_sprite_sheets: &Vec<usize>) -> (r: Result<Option<SpriteContext>, AssetError>)
        requires
            table.wf(),
        ensures
            match resolve_spec(table.ranges@, gid) {
                Err(e) => r == Err::<Option<SpriteContext>, AssetError>(e),
                Ok(None) => r == Ok::<Option<SpriteContext>, AssetError>(None),
                Ok(Some((s, k))) => r == Ok::<Option<SpriteContext>, AssetError>(Some(SpriteContext {
                    sprite_sheet: if used_sprite_sheets@.contains(s) { None } else { Some(s) },
                    sprite_sheet_id: s,
                    sprite_id: k,
                })),
            },
    {
        match table.resolve(gid) {
            Err(e) => Err(e),
            Ok(None) => Ok(None),
            Ok(Some((s, k))) => {
                let sprite_sheet = if contains_value(used_sprite_sheets, s) { None } else { Some(s) };
                Ok(Some(SpriteContext { sprite_sheet, sprite_sheet_id: s, sprite_id: k }))
            },
        }
    }
}

} // verus!
