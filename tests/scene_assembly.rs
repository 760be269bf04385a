use tiled_preprocessor::{
    assemble_entities, object_kind, output_files, AssetError, Detail, GidRange, GidTable, MapDesc, MapFile,
    MapObject, MapPrefab, ObjectKind, Placement, PrefabEntity, RgbaImage, SheetFile, SpriteRenderPrefab,
    TilesetDesc, TilesetImages, WorldPos,
};

fn table() -> GidTable {
    GidTable::new(vec![GidRange { first_gid: 1, count: 4 }, GidRange { first_gid: 5, count: 4 }]).unwrap()
}

fn object(kind: &str, gid: u32, is_rect: bool) -> MapObject {
    MapObject { obj_type: kind.to_string(), gid, is_rect }
}

fn sheet_tileset(first_gid: u32, source: &str) -> TilesetDesc {
    TilesetDesc {
        first_gid,
        tile_width: 8,
        tile_height: 8,
        images: TilesetImages::Sheet { source: source.to_string(), width: 16, height: 16 },
    }
}

#[test]
fn object_types_are_classified() {
    assert_eq!(object_kind("static"), ObjectKind::Static);
    assert_eq!(object_kind("dynamic"), ObjectKind::Dynamic);
    assert_eq!(object_kind("collision"), ObjectKind::Collision);
    assert_eq!(object_kind("Static"), ObjectKind::Unrecognized);
    assert_eq!(object_kind("spawn"), ObjectKind::Unrecognized);
    assert_eq!(object_kind(""), ObjectKind::Unrecognized);
}

#[test]
fn tiles_come_layer_by_layer_and_skip_empty_cells() {
    let layers = vec![vec![vec![1, 0], vec![0, 6]], vec![vec![2]]];
    let (es, used) = assemble_entities(&table(), 8, 8, &layers, &vec![]).unwrap();
    assert_eq!(es, vec![
        PrefabEntity {
            sheet: Some(0),
            render: Some(SpriteRenderPrefab { sheet: 0, sprite: 0 }),
            placement: Placement::Cell(WorldPos { x2: 8, y2: -8, depth: 0 }),
            detail: Detail::Tile,
        },
        PrefabEntity {
            sheet: Some(1),
            render: Some(SpriteRenderPrefab { sheet: 1, sprite: 1 }),
            placement: Placement::Cell(WorldPos { x2: 24, y2: -24, depth: 0 }),
            detail: Detail::Tile,
        },
        PrefabEntity {
            sheet: None,
            render: Some(SpriteRenderPrefab { sheet: 0, sprite: 1 }),
            placement: Placement::Cell(WorldPos { x2: 8, y2: -8, depth: 1 }),
            detail: Detail::Tile,
        },
    ]);
    assert_eq!(used, vec![0, 1]);
}

#[test]
fn each_sheet_is_defined_once_by_its_first_user() {
    let layers = vec![vec![vec![2, 3, 4, 1, 2]]];
    let (es, _) = assemble_entities(&table(), 8, 8, &layers, &vec![]).unwrap();
    assert_eq!(es.len(), 5);
    assert_eq!(es.iter().filter(|e| e.sheet == Some(0)).count(), 1);
    assert_eq!(es[0].sheet, Some(0));
    assert!(es[1..].iter().all(|e| e.sheet.is_none()));
    assert!(es.iter().all(|e| e.render.map(|r| r.sheet) == Some(0)));
}

#[test]
fn objects_follow_tiles_and_unrecognized_ones_are_dropped() {
    let layers = vec![vec![vec![5]]];
    let groups = vec![vec![
        object("spawn", 1, true),
        object("static", 2, true),
        object("dynamic", 5, true),
        object("collision", 0, true),
        object("static", 3, false),
        object("static", 0, true),
        object("collision", 0, false),
    ]];
    let (es, used) = assemble_entities(&table(), 8, 8, &layers, &groups).unwrap();
    assert_eq!(es.len(), 4);
    assert_eq!(es[0].detail, Detail::Tile);
    assert_eq!(es[1], PrefabEntity {
        sheet: Some(0),
        render: Some(SpriteRenderPrefab { sheet: 0, sprite: 1 }),
        placement: Placement::Object { group: 0, index: 1 },
        detail: Detail::StaticSprite,
    });
    assert_eq!(es[2], PrefabEntity {
        sheet: None,
        render: Some(SpriteRenderPrefab { sheet: 1, sprite: 0 }),
        placement: Placement::Object { group: 0, index: 2 },
        detail: Detail::Dynamic,
    });
    assert_eq!(es[3], PrefabEntity {
        sheet: None,
        render: None,
        placement: Placement::Object { group: 0, index: 3 },
        detail: Detail::Collision,
    });
    assert_eq!(used, vec![1, 0]);
}

#[test]
fn unrecognized_object_with_bad_gid_does_not_abort() {
    let groups = vec![vec![object("spawn", 999, true), object("collision", 999, true)]];
    let (es, _) = assemble_entities(&table(), 8, 8, &vec![], &groups).unwrap();
    assert_eq!(es.len(), 1);
    assert_eq!(es[0].detail, Detail::Collision);
}

#[test]
fn unresolvable_cell_or_sprite_object_aborts() {
    let r = assemble_entities(&table(), 8, 8, &vec![vec![vec![1, 9]]], &vec![]);
    assert!(matches!(r, Err(AssetError::InvalidGid)));
    let r = assemble_entities(&table(), 8, 8, &vec![], &vec![vec![object("static", 9, true)]]);
    assert!(matches!(r, Err(AssetError::InvalidGid)));
}

#[test]
fn files_of_unused_sheets_are_left_out() {
    let files = vec![
        SheetFile { sheet: 0, data: MapFile::Path("a.png".to_string()) },
        SheetFile { sheet: 1, data: MapFile::Data(vec![1, 2]) },
        SheetFile { sheet: 2, data: MapFile::Path("c.png".to_string()) },
    ];
    let kept = output_files(files, &vec![2, 0]);
    assert_eq!(kept.iter().map(|f| f.sheet).collect::<Vec<_>>(), vec![0, 2]);
    assert!(output_files(kept, &vec![]).is_empty());
}

#[test]
fn map_writes_only_used_sheets() {
    let map = MapDesc {
        tile_width: 8,
        tile_height: 8,
        tilesets: vec![sheet_tileset(1, "one.png"), sheet_tileset(5, "two.png")],
        layers: vec![vec![vec![0, 6, 7]]],
        object_groups: vec![],
    };
    let mp = MapPrefab::from_map(&map).unwrap();
    assert_eq!(mp.sheets.len(), 2);
    assert_eq!(mp.sheets[1].sprites.len(), 4);
    assert_eq!(mp.files().len(), 1);
    assert_eq!(mp.files()[0].sheet, 1);
    assert!(matches!(&mp.files()[0].data, MapFile::Path(p) if p == "two.png"));
    assert_eq!(mp.entities.len(), 2);
    assert_eq!(mp.entities[0].sheet, Some(1));
    assert_eq!(mp.entities[1].sheet, None);
}

#[test]
fn map_with_loose_images_encodes_a_png_sheet() {
    let img = |seed: u8| RgbaImage { width: 2, height: 2, pixels: vec![seed; 16] };
    let map = MapDesc {
        tile_width: 2,
        tile_height: 2,
        tilesets: vec![TilesetDesc {
            first_gid: 1,
            tile_width: 2,
            tile_height: 2,
            images: TilesetImages::Loose(vec![img(10), img(20)]),
        }],
        layers: vec![vec![vec![2]]],
        object_groups: vec![],
    };
    let mp = MapPrefab::from_map(&map).unwrap();
    assert_eq!(mp.sheets[0].sprites.len(), 2);
    match &mp.files()[0].data {
        MapFile::Data(bytes) => assert_eq!(&bytes[0..8], &[137, 80, 78, 71, 13, 10, 26, 10]),
        MapFile::Path(_) => panic!("a packed sheet is encoded, not copied"),
    }
    let again = MapPrefab::from_map(&map).unwrap();
    assert_eq!(format!("{:?}", mp), format!("{:?}", again));
}

#[test]
fn map_errors_are_reported() {
    let mut bad_order = MapDesc {
        tile_width: 8,
        tile_height: 8,
        tilesets: vec![sheet_tileset(5, "a.png"), sheet_tileset(1, "b.png")],
        layers: vec![],
        object_groups: vec![],
    };
    assert!(matches!(MapPrefab::from_map(&bad_order), Err(AssetError::MapParse)));
    bad_order.tilesets[0].tile_width = 0;
    assert!(matches!(MapPrefab::from_map(&bad_order), Err(AssetError::MapParse)));
    let bad_gid = MapDesc {
        tile_width: 8,
        tile_height: 8,
        tilesets: vec![sheet_tileset(1, "a.png")],
        layers: vec![vec![vec![1, 5]]],
        object_groups: vec![],
    };
    assert!(matches!(MapPrefab::from_map(&bad_gid), Err(AssetError::InvalidGid)));
    let empty_loose = MapDesc {
        tile_width: 8,
        tile_height: 8,
        tilesets: vec![TilesetDesc { first_gid: 1, tile_width: 8, tile_height: 8, images: TilesetImages::Loose(vec![]) }],
        layers: vec![],
        object_groups: vec![],
    };
    assert!(matches!(MapPrefab::from_map(&empty_loose), Err(AssetError::ImageDecode)));
}
