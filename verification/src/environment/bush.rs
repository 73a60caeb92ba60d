//! Bushes: berries can be picked from a berry bush, and any bush can be cut
//! down for a twig.
use vstd::prelude::*;
use crate::environment::{Tile, bush_interact_result, bush_attack_result};
use crate::inventory::Item;

verus! {

/// Picks the berries of a berry bush, which becomes a plain bush.
pub fn interact(tile: &mut Tile) -> (r: Option<Item>)
    ensures
        (*final(tile), r) == bush_interact_result(*old(tile)),
{
    if *tile == Tile::BerryBush {
        *tile = Tile::Bush;
        Some(Item::Berry)
    } else {
        None
    }
}

/// Cuts down a bush or a berry bush, leaving grass and yielding a twig.
pub fn attack(tile: &mut Tile) -> (r: Option<Item>)
    ensures
        (*final(tile), r) == bush_attack_result(*old(tile)),
{
    if *tile == Tile::Bush || *tile == Tile::BerryBush {
        *tile = Tile::Grass;
        Some(Item::Twig)
    } else {
        None
    }
}

} // verus!
