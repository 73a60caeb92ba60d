//! A square chunk of the endless world: a grid of corner heights ("base") and
//! the tile sprites chosen from them.
use vstd::prelude::*;
use crate::sprite_ids::{
    GRASS, CLIFF_T, CLIFF_B, CLIFF_L, CLIFF_R, CLIFF_TL, CLIFF_TR, CLIFF_BL, CLIFF_BR, CLIFF_INV_TL, CLIFF_INV_BL, CLIFF_DL, CLIFF_DR, WATER_C, WATER_T, WATER_B, WATER_L, WATER_R, WATER_TL, WATER_TR, WATER_BL, WATER_BR, WATER_INV_TL, WATER_INV_BL, WATER_DL, WATER_DR,
};

verus! {

pub const CHUNK_SIZE: usize = 32;
/// `CHUNK_SIZE * CHUNK_SIZE`.
pub const TILE_COUNT: usize = 1024;
pub const BASE_SIZE: usize = CHUNK_SIZE + 1;
/// `BASE_SIZE * BASE_SIZE`.
pub const BASE_COUNT: usize = 1089;

/// Base value of a corner under water.
pub const WATER: u8 = 1;
/// Base value of a corner on a cliff.
pub const CLIFF: u8 = 2;

pub struct Chunk {
    pub chunk_x: i32,
    pub chunk_y: i32,
    /// Corner values, row-major, `BASE_SIZE` per row.
    pub base_layer: [u8; BASE_COUNT],
    /// Tile sprites, row-major, `CHUNK_SIZE` per row.
    pub tile_layer: [u16; TILE_COUNT],
}

/// Which corners of tile (x, y) hold `kind`: 1 top-left, 2 top-right,
/// 4 bottom-left, 8 bottom-right.
pub open spec fn corner_mask(base: Seq<u8>, x: int, y: int, kind: u8) -> int {
    let v = y * 33 + x;
    (if base[v] == kind { 1int } else { 0int }) + (if base[v + 1] == kind { 2int } else { 0int })
        + (if base[v + 33] == kind { 4int } else { 0int }) + (if base[v + 34] == kind { 8int } else { 0int })
}

/// The water sprite for a corner mask.
pub open spec fn water_tile_id(mask: int) -> u16 {
    if mask == 0 { GRASS }
    else if mask == 1 { WATER_BR }
    else if mask == 2 { WATER_BL }
    else if mask == 3 { WATER_B }
    else if mask == 4 { WATER_TR }
    else if mask == 5 { WATER_R }
    else if mask == 6 { WATER_DR }
    else if mask == 7 { WATER_INV_TL }
    else if mask == 8 { WATER_TL }
    else if mask == 9 { WATER_DL }
    else if mask == 10 { WATER_L }
    else if mask == 11 { WATER_TR }
    else if mask == 12 { WATER_T }
    else if mask == 13 { WATER_INV_BL }
    else if mask == 14 { WATER_BR }
    else { WATER_C }
}

/// The cliff sprite for a corner mask.
pub open spec fn cliff_tile_id(mask: int) -> u16 {
    if mask == 0 { GRASS }
    else if mask == 1 { CLIFF_BR }
    else if mask == 2 { CLIFF_BL }
    else if mask == 3 { CLIFF_B }
    else if mask == 4 { CLIFF_TR }
    else if mask == 5 { CLIFF_R }
    else if mask == 6 { CLIFF_DR }
    else if mask == 7 { CLIFF_INV_TL }
    else if mask == 8 { CLIFF_TL }
    else if mask == 9 { CLIFF_DL }
    else if mask == 10 { CLIFF_L }
    else if mask == 11 { CLIFF_TR }
    else if mask == 12 { CLIFF_T }
    else if mask == 13 { CLIFF_INV_BL }
    else if mask == 14 { CLIFF_BR }
    else { GRASS }
}

/// Row of a sprite on the sheet.
pub open spec fn sheet_row(id: u16) -> int {
    id as int / 10
}

/// Column of a sprite on the sheet.
pub open spec fn sheet_col(id: u16) -> int {
    id as int % 10
}

/// Some top corner (1 or 2) is in the mask.
pub open spec fn top_in(m: int) -> bool {
    m % 4 != 0
}

/// Some bottom corner (4 or 8) is in the mask.
pub open spec fn bottom_in(m: int) -> bool {
    m / 4 != 0
}

/// Some left corner (1 or 4) is in the mask.
pub open spec fn left_in(m: int) -> bool {
    m % 2 == 1 || (m / 4) % 2 == 1
}

/// Some right corner (2 or 8) is in the mask.
pub open spec fn right_in(m: int) -> bool {
    (m / 2) % 2 == 1 || m / 8 == 1
}

/// Masks whose corners are none, a single corner, one whole side, or all four.
pub open spec fn plain_mask(m: int) -> bool {
    m == 0 || m == 1 || m == 2 || m == 3 || m == 4 || m == 5 || m == 8 || m == 10 || m == 12 || m == 15
}

/// Place along one axis of the three-by-three block of edge sprites: the
/// first row (or column) when the corners lie only on the far side, the last
/// when only on the near side, the middle otherwise.
pub open spec fn block_place(near: bool, far: bool) -> int {
    if !near && far {
        0
    } else if near && !far {
        2
    } else {
        1
    }
}

/// For a plain mask, the cliff sprite is the piece of the block of cliff
/// edges at the place the corners give: cliff only in the bottom corners shows
/// the cliff's top edge (top row), only in the top corners its bottom edge,
/// only in the right corners its left edge, only in the left corners its right
/// edge; no corner or all four give the plain middle.
pub proof fn law_cliff_sprite_place(m: int)
    requires
        plain_mask(m),
    ensures
        sheet_row(cliff_tile_id(m)) == block_place(top_in(m), bottom_in(m)),
        sheet_col(cliff_tile_id(m)) == block_place(left_in(m), right_in(m)),
{
}

/// For a plain mask with some water corner, the water sprite is the piece of
/// the block of water edges (three rows below the cliff block) at the place the
/// corners give, in the same way as for cliffs.
pub proof fn law_water_sprite_place(m: int)
    requires
        plain_mask(m),
        m != 0,
    ensures
        sheet_row(water_tile_id(m)) == 3 + block_place(top_in(m), bottom_in(m)),
        sheet_col(water_tile_id(m)) == block_place(left_in(m), right_in(m)),
{
}

impl Chunk {
    fn mask_of(&self, x: usize, y: usize, kind: u8) -> (m: u8)
        requires
            x < CHUNK_SIZE,
            y < CHUNK_SIZE,
        ensures
            m == corner_mask(self.base_layer@, x as int, y as int, kind),
            m < 16,
    {
        let vertex_idx = y * BASE_SIZE + x;
        let tl = self.base_layer[vertex_idx];
        let tr = self.base_layer[vertex_idx + 1];
        let bl = self.base_layer[vertex_idx + BASE_SIZE];
        let br = self.base_layer[vertex_idx + BASE_SIZE + 1];
        let mut mask: u8 = 0;
        if tl == kind {
            mask += 1;
        }
        if tr == kind {
            mask += 2;
        }
        if bl == kind {
            mask += 4;
        }
        if br == kind {
            mask += 8;
        }
        mask
    }

    /// Picks the water sprite of tile (x, y) from which of its corners are under water.
    pub fn tile_water(&mut self, x: usize, y: usize)
        requires
            x < CHUNK_SIZE,
            y < CHUNK_SIZE,
        ensures
            final(self).tile_layer@ == old(self).tile_layer@.update(
                y * 32 + x,
                water_tile_id(corner_mask(old(self).base_layer@, x as int, y as int, WATER)),
            ),
            final(self).base_layer == old(self).base_layer,
            final(self).chunk_x == old(self).chunk_x,
            final(self).chunk_y == old(self).chunk_y,
    {
        let terrain_idx = y * CHUNK_SIZE + x;
        let mask = self.mask_of(x, y, WATER);
        let id = match mask {
            0 => GRASS,
            1 => WATER_BR,
            2 => WATER_BL,
            3 => WATER_B,
            4 => WATER_TR,
            5 => WATER_R,
            6 => WATER_DR,
            7 => WATER_INV_TL,
            8 => WATER_TL,
            9 => WATER_DL,
            10 => WATER_L,
            11 => WATER_TR,
            12 => WATER_T,
            13 => WATER_INV_BL,
            14 => WATER_BR,
            _ => WATER_C,
        };
        self.tile_layer[terrain_idx] = id;
    }

    /// Picks the cliff sprite of tile (x, y) from which of its corners are on a cliff.
    pub fn tile_cliff(&mut self, x: usize, y: usize)
        requires
            x < CHUNK_SIZE,
            y < CHUNK_SIZE,
        ensures
            final(self).tile_layer@ == old(self).tile_layer@.update(
                y * 32 + x,
                cliff_tile_id(corner_mask(old(self).base_layer@, x as int, y as int, CLIFF)),
            ),
            final(self).base_layer == old(self).base_layer,
            final(self).chunk_x == old(self).chunk_x,
            final(self).chunk_y == old(self).chunk_y,
    {
        let terrain_idx = y * CHUNK_SIZE + x;
        let mask = self.mask_of(x, y, CLIFF);
        let id = match mask {
            0 => GRASS,
            1 => CLIFF_BR,
            2 => CLIFF_BL,
            3 => CLIFF_B,
            4 => CLIFF_TR,
            5 => CLIFF_R,
            6 => CLIFF_DR,
            7 => CLIFF_INV_TL,
            8 => CLIFF_TL,
            9 => CLIFF_DL,
            10 => CLIFF_L,
            11 => CLIFF_TR,
            12 => CLIFF_T,
            13 => CLIFF_INV_BL,
            14 => CLIFF_BR,
            _ => GRASS,
        };
        self.tile_layer[terrain_idx] = id;
    }

    /// The tiling pass of chunk generation: every tile is given its water sprite
    /// and then its cliff sprite, so the cliff sprite is the one that stays.
    pub fn autotile(&mut self)
        ensures
            forall|x: int, y: int| 0 <= x < 32 && 0 <= y < 32 ==> #[trigger] final(self).tile_layer@[y * 32 + x]
                == cliff_tile_id(corner_mask(old(self).base_layer@, x, y, CLIFF)),
            final(self).base_layer == old(self).base_layer,
            final(self).chunk_x == old(self).chunk_x,
            final(self).chunk_y == old(self).chunk_y,
    {
        let ghost base = self.base_layer@;
        let mut x: usize = 0;
        while x < CHUNK_SIZE
            invariant
                x <= CHUNK_SIZE,
                self.base_layer@ == base,
                base == old(self).base_layer@,
                self.base_layer == old(self).base_layer,
                self.chunk_x == old(self).chunk_x,
                self.chunk_y == old(self).chunk_y,
                self.tile_layer@.len() == TILE_COUNT,
                forall|a: int, b: int| 0 <= a < x && 0 <= b < 32 ==> #[trigger] self.tile_layer@[b * 32 + a]
                    == cliff_tile_id(corner_mask(base, a, b, CLIFF)),
            decreases CHUNK_SIZE - x,
        {
            let mut y: usize = 0;
            while y < CHUNK_SIZE
                invariant
                    x < CHUNK_SIZE,
                    y <= CHUNK_SIZE,
                    self.base_layer@ == base,
                    base == old(self).base_layer@,
                    self.base_layer == old(self).base_layer,
                    self.chunk_x == old(self).chunk_x,
                    self.chunk_y == old(self).chunk_y,
                    self.tile_layer@.len() == TILE_COUNT,
                    forall|a: int, b: int| 0 <= a < x && 0 <= b < 32 ==> #[trigger] self.tile_layer@[b * 32 + a]
                        == cliff_tile_id(corner_mask(base, a, b, CLIFF)),
                    forall|b: int| 0 <= b < y ==> #[trigger] self.tile_layer@[b * 32 + x]
                        == cliff_tile_id(corner_mask(base, x as int, b, CLIFF)),
                decreases CHUNK_SIZE - y,
            {
                self.tile_water(x, y);
                self.tile_cliff(x, y);
                proof {
                    assert forall|a: int, b: int| 0 <= a < x && 0 <= b < 32 implies #[trigger] self.tile_layer@[b * 32 + a]
                        == cliff_tile_id(corner_mask(base, a, b, CLIFF)) by {
                        assert(b * 32 + a != y * 32 + x);
                    }
                    assert forall|b: int| 0 <= b < y + 1 implies #[trigger] self.tile_layer@[b * 32 + x]
                        == cliff_tile_id(corner_mask(base, x as int, b, CLIFF)) by {
                        if b < y {
                            assert(b * 32 + x != y * 32 + x);
                        }
                    }
                }
                y = y + 1;
            }
            x = x + 1;
        }
    }
}

} // verus!
