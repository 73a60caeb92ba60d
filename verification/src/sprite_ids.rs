//! Sprite numbers of the chunk tiles: a sprite's number is ten times its row on
//! the sprite sheet plus its column.
use vstd::prelude::*;

verus! {

/// Column and row of a sprite on the sheet.
pub fn get_sprite_uv(sprite_id: u16) -> (r: (u16, u16))
    ensures
        r == ((sprite_id % 10) as u16, (sprite_id / 10) as u16),
        r.1 * 10 + r.0 == sprite_id,
{
    let col = sprite_id % 10;
    let row = sprite_id / 10;
    (col, row)
}

pub const GRASS: u16 = 11;

pub const CLIFF_T: u16 = 1;
pub const CLIFF_B: u16 = 21;
pub const CLIFF_L: u16 = 10;
pub const CLIFF_R: u16 = 12;
pub const CLIFF_TL: u16 = 0;
pub const CLIFF_TR: u16 = 2;
pub const CLIFF_BL: u16 = 20;
pub const CLIFF_BR: u16 = 22;
pub const CLIFF_INV_TL: u16 = 3;
pub const CLIFF_INV_TR: u16 = 4;
pub const CLIFF_INV_BL: u16 = 13;
pub const CLIFF_INV_BR: u16 = 14;
pub const CLIFF_DL: u16 = 23;
pub const CLIFF_DR: u16 = 24;

pub const WATER_C: u16 = 41;
pub const WATER_T: u16 = 31;
pub const WATER_B: u16 = 51;
pub const WATER_L: u16 = 40;
pub const WATER_R: u16 = 42;
pub const WATER_TL: u16 = 30;
pub const WATER_TR: u16 = 32;
pub const WATER_BL: u16 = 50;
pub const WATER_BR: u16 = 52;
pub const WATER_INV_TL: u16 = 33;
pub const WATER_INV_TR: u16 = 34;
pub const WATER_INV_BL: u16 = 43;
pub const WATER_INV_BR: u16 = 44;
pub const WATER_DL: u16 = 53;
pub const WATER_DR: u16 = 54;

} // verus!
