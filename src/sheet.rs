use vstd::prelude::*;

verus! {

/// A sprite's rectangle inside its sheet, in pixels.
#[derive(Debug, Clone, Copy, PartialEq, Eq, Structural)]
pub struct SpritePosition {
    pub x: u32,
    pub y: u32,
    pub width: u32,
    pub height: u32,
}

/// The sprite at grid row `i` and column `c` of a pre-cut sheet. Rows are
/// listed from the one nearest the image's top edge that holds whole tiles,
/// and row `i` lies `rows - i` tile heights above the bottom edge, where
/// `rows` is the number of whole tile rows.
pub open spec fn grid_position(image_height: u32, tile_width: u32, tile_height: u32, i: int, c: int) -> SpritePosition {
    let rows = image_height / tile_height;
    SpritePosition {
        x: (c * tile_width) as u32,
        y: (image_height - (rows - i) * tile_height) as u32,
        width: tile_width,
        height: tile_height,
    }
}

/// Cuts a sheet image of `image_width` by `image_height` pixels into whole
/// tiles. Sprite `i * columns + c` is the tile of grid row `i`, column `c`,
/// so that sprite order matches the tileset's tile order.
pub fn grid_sprites(image_width: u32, image_height: u32, tile_width: u32, tile_height: u32) -> (r: Vec<SpritePosition>)
    requires
        tile_width > 0,
        tile_height > 0,
    ensures
        r@.len() == (image_width / tile_width) * (image_height / tile_height),
        forall|i: int, c: int|
            0 <= i < image_height / tile_height && 0 <= c < image_width / tile_width
                ==> #[trigger] r@[i * (image_width / tile_width) + c]
                == grid_position(image_height, tile_width, tile_height, i, c),
{
    let columns = image_width / tile_width;
    let rows = image_height / tile_height;
    let mut r: Vec<SpritePosition> = Vec::new();
    let mut i: u32 = 0;
    while i < rows
        invariant
            columns == image_width / tile_width,
            rows == image_height / tile_height,
            tile_width > 0,
            tile_height > 0,
            i <= rows,
            r@.len() == i * columns,
            forall|a: int, c: int|
                0 <= a < i && 0 <= c < columns
                    ==> #[trigger] r@[a * columns + c] == grid_position(image_height, tile_width, tile_height, a, c),
        decreases rows - i,
    {
        let mut c: u32 = 0;
        while c < columns
            invariant
                columns == image_width / tile_width,
                rows == image_height / tile_height,
                tile_width > 0,
                tile_height > 0,
                i < rows,
                c <= columns,
                r@.len() == i * columns + c,
                forall|a: int, b: int|
                    0 <= a < i && 0 <= b < columns
                        ==> #[trigger] r@[a * columns + b] == grid_position(image_height, tile_width, tile_height, a, b),
                forall|b: int|
                    0 <= b < c ==> #[trigger] r@[i * columns + b] == grid_position(image_height, tile_width, tile_height, i as int, b),
            decreases columns - c,
        {
            proof {
                assert(c * tile_width < image_width) by (nonlinear_arith)
                    requires c < columns, columns == image_width / tile_width, tile_width > 0;
                assert((rows - i) * tile_height <= image_height) by (nonlinear_arith)
                    requires i < rows, rows == image_height / tile_height, tile_height > 0;
                assert(i * columns + c < (i + 1) * columns) by (nonlinear_arith)
                    requires c < columns;
            }
            let p = SpritePosition {
                x: c * tile_width,
                y: image_height - (rows - i) * tile_height,
                width: tile_width,
                height: tile_height,
            };
            let ghost before = r@;
            r.push(p);
            proof {
                assert forall|a: int, b: int|
                    0 <= a < i && 0 <= b < columns
                        implies #[trigger] r@[a * columns + b] == grid_position(image_height, tile_width, tile_height, a, b) by {
                    assert(a * columns + b < i * columns) by (nonlinear_arith)
                        requires a < i, b < columns, 0 <= a, 0 <= b;
                    assert(r@[a * columns + b] == before[a * columns + b]);
                }
            }
            c = c + 1;
        }
        proof {
            assert((i + 1) * columns == i * columns + columns) by (nonlinear_arith);
        }
        i = i + 1;
    }
    proof {
        assert(rows * columns == columns * rows) by (nonlinear_arith);
    }
    r
}

} // verus!
