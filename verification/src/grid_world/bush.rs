//! Bushes of the fixed-size world.
use vstd::prelude::*;
use crate::grid_world::{Tile, bush_result};
use crate::inventory::Item;

verus! {

/// Takes the berries from a berry bush, which becomes a plain bush; a plain
/// bush is destroyed for a twig.
pub fn interact_with_bush(tile: &mut Tile) -> (r: Option<Item>)
    ensures
        (*final(tile), r) == bush_result(*old(tile)),
{
    match tile {
        Tile::BerryBush => {
            *tile = Tile::Bush;
            Some(Item::Berry)
        },
        Tile::Bush => {
            *tile = Tile::Empty;
            Some(Item::Twig)
        },
        _ => None,
    }
}

} // verus!
