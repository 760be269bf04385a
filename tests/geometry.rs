use tiled_preprocessor::{grid_sprites, tile_to_world, SpritePosition, WorldPos};

#[test]
fn tile_centre_in_engine_space() {
    let p = tile_to_world(2, 3, 0, 8, 8);
    assert_eq!(p, WorldPos { x2: 56, y2: -40, depth: 0 });
    assert_eq!((p.x2 as f64 / 2.0, p.y2 as f64 / 2.0), (28.0, -20.0));
}

#[test]
fn odd_tile_size_keeps_exact_centre() {
    let p = tile_to_world(0, 0, 3, 5, 7);
    assert_eq!(p, WorldPos { x2: 5, y2: -7, depth: 3 });
    let far = tile_to_world(usize::MAX, usize::MAX, 1, u32::MAX, u32::MAX);
    assert_eq!(far.x2, 2 * (usize::MAX as i128) * (u32::MAX as i128) + u32::MAX as i128);
}

#[test]
fn sheet_grid_lists_rows_then_columns() {
    let s = grid_sprites(32, 16, 8, 8);
    assert_eq!(s.len(), 8);
    assert_eq!(s[0], SpritePosition { x: 0, y: 0, width: 8, height: 8 });
    assert_eq!(s[3], SpritePosition { x: 24, y: 0, width: 8, height: 8 });
    assert_eq!(s[4], SpritePosition { x: 0, y: 8, width: 8, height: 8 });
    assert_eq!(s[7], SpritePosition { x: 24, y: 8, width: 8, height: 8 });
}

#[test]
fn sheet_grid_counts_rows_from_the_bottom_edge() {
    // 20 pixels tall with 8-pixel tiles: two whole rows, 4 spare pixels on top.
    let s = grid_sprites(8, 20, 8, 8);
    assert_eq!(s, vec![
        SpritePosition { x: 0, y: 4, width: 8, height: 8 },
        SpritePosition { x: 0, y: 12, width: 8, height: 8 },
    ]);
    assert!(grid_sprites(7, 7, 8, 8).is_empty());
}
