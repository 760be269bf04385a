use tiled_preprocessor::{AssetError, GidRange, GidTable, SpriteContext};

fn table(ranges: &[(u32, u32)]) -> GidTable {
    GidTable::new(ranges.iter().map(|&(first_gid, count)| GidRange { first_gid, count }).collect()).unwrap()
}

#[test]
fn gid_zero_is_no_tile() {
    let t = table(&[(1, 4), (5, 4)]);
    assert_eq!(t.resolve(0), Ok(None));
    let empty = table(&[]);
    assert_eq!(empty.resolve(0), Ok(None));
}

#[test]
fn gid_ranges_resolve_to_tileset_and_local_index() {
    let t = table(&[(1, 49), (50, 70), (120, 10)]);
    assert_eq!(t.resolve(1), Ok(Some((0, 0))));
    assert_eq!(t.resolve(49), Ok(Some((0, 48))));
    assert_eq!(t.resolve(50), Ok(Some((1, 0))));
    assert_eq!(t.resolve(119), Ok(Some((1, 69))));
    assert_eq!(t.resolve(120), Ok(Some((2, 0))));
    assert_eq!(t.resolve(129), Ok(Some((2, 9))));
}

#[test]
fn gid_beyond_every_range_is_invalid() {
    let t = table(&[(1, 49), (50, 70), (120, 10)]);
    assert_eq!(t.resolve(130), Err(AssetError::InvalidGid));
    assert_eq!(t.resolve(u32::MAX), Err(AssetError::InvalidGid));
    let gap = table(&[(1, 2), (10, 2)]);
    assert_eq!(gap.resolve(5), Err(AssetError::InvalidGid));
    let late = table(&[(5, 2)]);
    assert_eq!(late.resolve(3), Err(AssetError::InvalidGid));
}

#[test]
fn tilesets_out_of_order_are_a_parse_error() {
    let r = GidTable::new(vec![GidRange { first_gid: 10, count: 5 }, GidRange { first_gid: 10, count: 5 }]);
    assert!(matches!(r, Err(AssetError::MapParse)));
    let r = GidTable::new(vec![GidRange { first_gid: 20, count: 5 }, GidRange { first_gid: 10, count: 5 }]);
    assert!(matches!(r, Err(AssetError::MapParse)));
    let r = GidTable::new(vec![GidRange { first_gid: 0, count: 5 }]);
    assert!(matches!(r, Err(AssetError::MapParse)));
}

#[test]
fn sprite_context_carries_sheet_only_when_unused() {
    let t = table(&[(1, 4), (5, 4)]);
    let fresh = SpriteContext::from_gid(6, &t, &vec![0]).unwrap().unwrap();
    assert_eq!(fresh, SpriteContext { sprite_sheet: Some(1), sprite_sheet_id: 1, sprite_id: 1 });
    let seen = SpriteContext::from_gid(6, &t, &vec![1]).unwrap().unwrap();
    assert_eq!(seen, SpriteContext { sprite_sheet: None, sprite_sheet_id: 1, sprite_id: 1 });
    assert_eq!(SpriteContext::from_gid(0, &t, &vec![]), Ok(None));
    assert_eq!(SpriteContext::from_gid(9, &t, &vec![]), Err(AssetError::InvalidGid));
}
