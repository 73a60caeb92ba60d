//! The tiles the world is made of and what the player can do with them.
use vstd::prelude::*;
use crate::inventory::Item;

pub mod bush;
pub mod cliffs;
pub mod water;
pub mod wfc_rules;

use cliffs::CliffVariant;
use water::WaterVariant;

verus! {

/// A compass direction between neighbouring cells of the world grid.
#[derive(Clone, Copy, PartialEq, Eq, Structural, Debug, Hash)]
pub enum Direction {
    North,
    East,
    South,
    West,
}

pub open spec fn opposite_of(d: Direction) -> Direction {
    match d {
        Direction::North => Direction::South,
        Direction::East => Direction::West,
        Direction::South => Direction::North,
        Direction::West => Direction::East,
    }
}

impl Direction {
    pub fn opposite(&self) -> (o: Direction)
        ensures
            o == opposite_of(*self),
    {
        match self {
            Direction::North => Direction::South,
            Direction::East => Direction::West,
            Direction::South => Direction::North,
            Direction::West => Direction::East,
        }
    }
}

/// Turning around twice faces the starting way, and no direction is its own
/// opposite.
pub proof fn law_opposite_involution(d: Direction)
    ensures
        opposite_of(opposite_of(d)) == d,
        opposite_of(d) != d,
{
}

/// One cell of the world.
#[derive(Clone, Copy, PartialEq, Eq, Structural, Debug, Hash)]
pub enum Tile {
    Grass,
    Bush,
    BerryBush,
    Water(WaterVariant),
    Cliff(CliffVariant),
    TreeTrunk,
}

/// What interacting with a tile did besides changing the tile itself.
#[derive(Clone, Copy, PartialEq, Eq, Structural, Debug)]
pub struct Interaction {
    /// The item the player receives, if any.
    pub item: Option<Item>,
    /// The player's thirst is set to its maximum.
    pub thirst_maxed: bool,
}

/// Interacting with a bush or a berry bush.
pub open spec fn bush_interact_result(t: Tile) -> (Tile, Option<Item>) {
    if t == Tile::BerryBush {
        (Tile::Bush, Some(Item::Berry))
    } else {
        (t, None)
    }
}

/// Attacking a bush or a berry bush.
pub open spec fn bush_attack_result(t: Tile) -> (Tile, Option<Item>) {
    if t == Tile::Bush || t == Tile::BerryBush {
        (Tile::Grass, Some(Item::Twig))
    } else {
        (t, None)
    }
}

/// The tile after an interaction, and what the interaction did.
pub open spec fn interact_result(t: Tile) -> (Tile, Interaction) {
    match t {
        Tile::Water(_) => (t, Interaction { item: None, thirst_maxed: true }),
        Tile::Bush | Tile::BerryBush => {
            let r = bush_interact_result(t);
            (r.0, Interaction { item: r.1, thirst_maxed: false })
        },
        _ => (t, Interaction { item: None, thirst_maxed: false }),
    }
}

/// The tile after an attack, and the item it yields.
pub open spec fn attack_result(t: Tile) -> (Tile, Option<Item>) {
    match t {
        Tile::Bush | Tile::BerryBush => bush_attack_result(t),
        _ => (t, None),
    }
}

/// Weight with which the world generator picks a tile.
pub open spec fn tile_weight(t: Tile) -> int {
    match t {
        Tile::Water(w) => water::water_weight(w),
        Tile::Grass => 50,
        _ => 1,
    }
}

/// Column and row of a tile's picture on the sprite sheet, if it has one of its own.
pub open spec fn tile_sheet_coords(t: Tile) -> Option<(u32, u32)> {
    match t {
        Tile::Water(w) => Some(water::water_sheet_coords(w)),
        Tile::BerryBush => Some((9u32, 0u32)),
        Tile::Bush => Some((9u32, 1u32)),
        Tile::Cliff(c) => Some(cliffs::cliff_sheet_coords(c)),
        _ => None,
    }
}

impl Tile {
    pub fn interact(&mut self) -> (r: Interaction)
        ensures
            (*final(self), r) == interact_result(*old(self)),
    {
        match self {
            Tile::Water(w) => w.interact(),
            Tile::Bush | Tile::BerryBush => {
                let item = bush::interact(self);
                Interaction { item, thirst_maxed: false }
            },
            _ => Interaction { item: None, thirst_maxed: false },
        }
    }

    pub fn attack(&mut self) -> (r: Option<Item>)
        ensures
            (*final(self), r) == attack_result(*old(self)),
    {
        match self {
            Tile::Bush | Tile::BerryBush => bush::attack(self),
            _ => None,
        }
    }

    pub fn sheet_coords(&self) -> (r: Option<(u32, u32)>)
        ensures
            r == tile_sheet_coords(*self),
    {
        match self {
            Tile::Water(w) => Some(w.sheet_coords()),
            Tile::BerryBush => Some((9, 0)),
            Tile::Bush => Some((9, 1)),
            Tile::Cliff(c) => Some(c.sheet_coords()),
            _ => None,
        }
    }

    pub fn weight(&self) -> (w: i32)
        ensures
            w == tile_weight(*self),
    {
        match self {
            Tile::Water(w) => w.weight(),
            Tile::Grass => 50,
            _ => 1,
        }
    }
}

/// A rectangle inside one tile, measured in halves of the tile's side from the
/// tile's top-left corner.
#[derive(Clone, Copy, PartialEq, Eq, Structural, Debug)]
pub struct HalfTileRect {
    pub x: u32,
    pub y: u32,
    pub w: u32,
    pub h: u32,
}

pub open spec fn half_rect(x: u32, y: u32, w: u32, h: u32) -> HalfTileRect {
    HalfTileRect { x, y, w, h }
}

/// The rectangle lies within its tile.
pub open spec fn inside_tile(r: HalfTileRect) -> bool {
    r.x + r.w <= 2 && r.y + r.h <= 2
}

} // verus!
