use vstd::prelude::*;

verus! {

/// A position in the engine's space. `x2` and `y2` count half pixels, so
/// that the centre of a tile of odd size stays exact; the engine's `x` is
/// `x2 / 2`. The engine's `y` grows upward, and depth is the layer index.
#[derive(Debug, Clone, Copy, PartialEq, Eq, Structural)]
pub struct WorldPos {
    pub x2: i128,
    pub y2: i128,
    pub depth: usize,
}

/// The centre of the tile at `row`, `col` of layer `layer`: the map counts
/// rows downward from its top-left corner, the engine counts `y` upward.
pub open spec fn tile_to_world_spec(row: int, col: int, layer: int, tile_width: int, tile_height: int) -> WorldPos {
    WorldPos {
        x2: (2 * (col * tile_width) + tile_width) as i128,
        y2: (-(2 * (row * tile_height)) - tile_height) as i128,
        depth: layer as usize,
    }
}

/// Maps a tile cell to the engine's space: `x = col * w + w / 2`,
/// `y = -(row * h) - h / 2`, depth = `layer`.
pub fn tile_to_world(row: usize, col: usize, layer: usize, tile_width: u32, tile_height: u32) -> (r: WorldPos)
    ensures
        r == tile_to_world_spec(row as int, col as int, layer as int, tile_width as int, tile_height as int),
{
    proof {
        assert(0 <= col * tile_width <= 0x1_0000_0000_0000_0000_0000_0000) by (nonlinear_arith)
            requires col <= 0xFFFF_FFFF_FFFF_FFFF, tile_width <= 0xFFFF_FFFF;
        assert(0 <= row * tile_height <= 0x1_0000_0000_0000_0000_0000_0000) by (nonlinear_arith)
            requires row <= 0xFFFF_FFFF_FFFF_FFFF, tile_height <= 0xFFFF_FFFF;
    }
    let w = tile_width as i128;
    let h = tile_height as i128;
    let cw = (col as i128) * w;
    let rh = (row as i128) * h;
    let x2 = 2 * cw + w;
    let y2 = -(2 * rh) - h;
    WorldPos { x2, y2, depth: layer }
}

} // verus!
