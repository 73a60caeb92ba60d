//! Water tiles: a body of water drawn from a centre piece, edges and corners.
use vstd::prelude::*;
use crate::environment::{HalfTileRect, Interaction, half_rect, inside_tile};
use crate::inventory::Item;

verus! {

#[derive(Clone, Copy, PartialEq, Eq, Structural, Debug, Hash)]
pub enum WaterVariant {
    Center,
    TopLeft,
    Top,
    TopRight,
    Right,
    BottomRight,
    Bottom,
    BottomLeft,
    Left,
    InverseCornerTR,
    InverseCornerTL,
    InverseCornerBL,
    InverseCornerBR,
}

pub open spec fn water_weight(w: WaterVariant) -> int {
    match w {
        WaterVariant::Center => 40,
        _ => 10,
    }
}

pub open spec fn water_sheet_coords(w: WaterVariant) -> (u32, u32) {
    match w {
        WaterVariant::Center => (3, 8),
        WaterVariant::Top => (3, 7),
        WaterVariant::Bottom => (3, 9),
        WaterVariant::Left => (2, 8),
        WaterVariant::Right => (4, 8),
        WaterVariant::TopLeft => (2, 7),
        WaterVariant::TopRight => (4, 7),
        WaterVariant::BottomLeft => (2, 9),
        WaterVariant::BottomRight => (4, 9),
        WaterVariant::InverseCornerTL => (3, 10),
        WaterVariant::InverseCornerTR => (4, 10),
        WaterVariant::InverseCornerBL => (3, 11),
        WaterVariant::InverseCornerBR => (4, 11),
    }
}

/// The parts of a water tile the player cannot walk on, in half-tile units.
pub open spec fn water_hitbox(w: WaterVariant) -> Seq<HalfTileRect> {
    match w {
        WaterVariant::Center => seq![],
        WaterVariant::TopLeft => seq![half_rect(1, 1, 1, 1)],
        WaterVariant::Top => seq![half_rect(0, 1, 2, 1)],
        WaterVariant::TopRight => seq![half_rect(1, 0, 1, 1)],
        WaterVariant::Right => seq![half_rect(0, 0, 1, 2)],
        WaterVariant::BottomRight => seq![half_rect(0, 0, 1, 1)],
        WaterVariant::Bottom => seq![half_rect(0, 0, 2, 1)],
        WaterVariant::BottomLeft => seq![half_rect(1, 0, 1, 1)],
        WaterVariant::Left => seq![half_rect(1, 0, 1, 2)],
        WaterVariant::InverseCornerTL => seq![half_rect(1, 0, 1, 1), half_rect(0, 1, 2, 1)],
        WaterVariant::InverseCornerTR => seq![half_rect(0, 0, 1, 1), half_rect(0, 1, 2, 1)],
        WaterVariant::InverseCornerBL => seq![half_rect(0, 0, 2, 1), half_rect(1, 1, 1, 1)],
        WaterVariant::InverseCornerBR => seq![half_rect(0, 0, 2, 1), half_rect(0, 1, 1, 1)],
    }
}

impl WaterVariant {
    /// Interacting with water sets the player's thirst to its maximum and yields nothing.
    pub fn interact(&mut self) -> (r: Interaction)
        ensures
            r == (Interaction { item: None, thirst_maxed: true }),
            *final(self) == *old(self),
    {
        Interaction { item: None, thirst_maxed: true }
    }

    pub fn attack(&mut self) -> (r: Option<Item>)
        ensures
            r == None::<Item>,
            *final(self) == *old(self),
    {
        None
    }

    pub fn hitbox(&self) -> (r: Vec<HalfTileRect>)
        ensures
            r@ == water_hitbox(*self),
    {
        let r = match self {
            WaterVariant::Center => vec![],
            WaterVariant::TopLeft => vec![HalfTileRect { x: 1, y: 1, w: 1, h: 1 }],
            WaterVariant::Top => vec![HalfTileRect { x: 0, y: 1, w: 2, h: 1 }],
            WaterVariant::TopRight => vec![HalfTileRect { x: 1, y: 0, w: 1, h: 1 }],
            WaterVariant::Right => vec![HalfTileRect { x: 0, y: 0, w: 1, h: 2 }],
            WaterVariant::BottomRight => vec![HalfTileRect { x: 0, y: 0, w: 1, h: 1 }],
            WaterVariant::Bottom => vec![HalfTileRect { x: 0, y: 0, w: 2, h: 1 }],
            WaterVariant::BottomLeft => vec![HalfTileRect { x: 1, y: 0, w: 1, h: 1 }],
            WaterVariant::Left => vec![HalfTileRect { x: 1, y: 0, w: 1, h: 2 }],
            WaterVariant::InverseCornerTL => vec![
                HalfTileRect { x: 1, y: 0, w: 1, h: 1 },
                HalfTileRect { x: 0, y: 1, w: 2, h: 1 },
            ],
            WaterVariant::InverseCornerTR => vec![
                HalfTileRect { x: 0, y: 0, w: 1, h: 1 },
                HalfTileRect { x: 0, y: 1, w: 2, h: 1 },
            ],
            WaterVariant::InverseCornerBL => vec![
                HalfTileRect { x: 0, y: 0, w: 2, h: 1 },
                HalfTileRect { x: 1, y: 1, w: 1, h: 1 },
            ],
            WaterVariant::InverseCornerBR => vec![
                HalfTileRect { x: 0, y: 0, w: 2, h: 1 },
                HalfTileRect { x: 0, y: 1, w: 1, h: 1 },
            ],
        };
        proof {
            assert(r@ =~= water_hitbox(*self));
        }
        r
    }

    pub fn weight(&self) -> (w: i32)
        ensures
            w == water_weight(*self),
    {
        match self {
            WaterVariant::Center => 40,
            WaterVariant::Top | WaterVariant::Bottom | WaterVariant::Left | WaterVariant::Right => 10,
            _ => 10,
        }
    }

    pub fn sheet_coords(&self) -> (c: (u32, u32))
        ensures
            c == water_sheet_coords(*self),
    {
        match self {
            WaterVariant::Center => (3, 8),
            WaterVariant::Top => (3, 7),
            WaterVariant::Bottom => (3, 9),
            WaterVariant::Left => (2, 8),
            WaterVariant::Right => (4, 8),
            WaterVariant::TopLeft => (2, 7),
            WaterVariant::TopRight => (4, 7),
            WaterVariant::BottomLeft => (2, 9),
            WaterVariant::BottomRight => (4, 9),
            WaterVariant::InverseCornerTL => (3, 10),
            WaterVariant::InverseCornerTR => (4, 10),
            WaterVariant::InverseCornerBL => (3, 11),
            WaterVariant::InverseCornerBR => (4, 11),
        }
    }
}

/// Every blocked part of a water tile lies within the tile, and only the open
/// water of the centre piece blocks nothing.
pub proof fn law_water_hitbox_inside_tile(w: WaterVariant)
    ensures
        forall|i: int| 0 <= i < water_hitbox(w).len() ==> inside_tile(#[trigger] water_hitbox(w)[i]),
        (water_hitbox(w).len() == 0) == (w == WaterVariant::Center),
{
}

} // verus!
