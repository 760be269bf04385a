use tiled_preprocessor::{crop, pack_images, place_images, AssetError, RgbaImage, SpritePosition, MAX_SHEET_SIDE};

fn image(width: u32, height: u32, seed: u8) -> RgbaImage {
    let pixels = (0..width * height * 4).map(|i| seed.wrapping_mul(31).wrapping_add(i as u8).wrapping_add(1)).collect();
    RgbaImage { width, height, pixels }
}

#[test]
fn packing_then_cropping_gives_back_each_image() {
    let images = vec![image(2, 2, 1), image(3, 1, 2), image(1, 3, 3), image(4, 2, 4)];
    let sheet = pack_images(&images).unwrap();
    assert_eq!(sheet.placements.len(), images.len());
    assert_eq!(sheet.pixels.len(), (sheet.width * sheet.height * 4) as usize);
    for (p, img) in sheet.placements.iter().zip(images.iter()) {
        assert_eq!((p.width, p.height), (img.width, img.height));
        assert_eq!(crop(&sheet.pixels, sheet.width, *p), img.pixels);
    }
}

#[test]
fn packing_is_deterministic() {
    let images = vec![image(5, 3, 7), image(2, 6, 8), image(4, 4, 9)];
    let a = pack_images(&images).unwrap();
    let b = pack_images(&images).unwrap();
    assert_eq!(a.pixels, b.pixels);
    assert_eq!(a.placements, b.placements);
    assert_eq!((a.width, a.height), (b.width, b.height));
}

#[test]
fn packing_nothing_gives_an_empty_sheet() {
    let sheet = pack_images(&vec![]).unwrap();
    assert_eq!((sheet.width, sheet.height), (0, 0));
    assert!(sheet.pixels.is_empty());
}

#[test]
fn packing_too_much_overflows() {
    let wide = RgbaImage { width: MAX_SHEET_SIDE, height: 1, pixels: vec![0; (MAX_SHEET_SIDE * 4) as usize] };
    let r = pack_images(&vec![wide, image(1, 1, 0)]);
    assert!(matches!(r, Err(AssetError::PackingOverflow)));
}

#[test]
fn placing_paints_images_and_leaves_the_rest_clear() {
    let images = vec![image(1, 1, 1), image(1, 2, 2)];
    let sheet = place_images(&images, 3, 2, &vec![(0, 0), (2, 0)]).unwrap();
    assert_eq!(sheet.placements, vec![
        SpritePosition { x: 0, y: 0, width: 1, height: 1 },
        SpritePosition { x: 2, y: 0, width: 1, height: 2 },
    ]);
    let mut expected = vec![0u8; 3 * 2 * 4];
    expected[0..4].copy_from_slice(&images[0].pixels[0..4]);
    expected[8..12].copy_from_slice(&images[1].pixels[0..4]);
    expected[20..24].copy_from_slice(&images[1].pixels[4..8]);
    assert_eq!(sheet.pixels, expected);
}

#[test]
fn placing_overlapping_or_outside_is_refused() {
    let images = vec![image(2, 2, 1), image(2, 2, 2)];
    let overlap = place_images(&images, 4, 4, &vec![(0, 0), (1, 1)]);
    assert!(matches!(overlap, Err(AssetError::PackingOverflow)));
    let outside = place_images(&images, 4, 4, &vec![(0, 0), (3, 0)]);
    assert!(matches!(outside, Err(AssetError::PackingOverflow)));
    let missing = place_images(&images, 4, 4, &vec![(0, 0)]);
    assert!(matches!(missing, Err(AssetError::PackingOverflow)));
    let huge = place_images(&vec![], MAX_SHEET_SIDE + 1, 1, &vec![]);
    assert!(matches!(huge, Err(AssetError::PackingOverflow)));
}
