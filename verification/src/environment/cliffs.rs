//! Cliff tiles: the edges, corners and openings of raised ground.
use vstd::prelude::*;
use crate::environment::{HalfTileRect, Interaction, half_rect, inside_tile};
use crate::inventory::Item;

verus! {

#[derive(Clone, Copy, PartialEq, Eq, Structural, Debug, Hash)]
pub enum CliffVariant {
    Center,
    TopLeft,
    Top,
    TopRight,
    Right,
    BottomRight,
    Bottom,
    BottomLeft,
    Left,
    InverseCornerTR,
    InverseCornerTL,
    InverseCornerBL,
    InverseCornerBR,
    LeftOpeningUp,
    LeftOpeningDown,
    RightOpeningUp,
    RightOpeningDown,
    BottomOpeningLeft,
    BottomOpeningRight,
    TopOpeningLeft,
    TopOpeningRight,
}

pub open spec fn cliff_sheet_coords(c: CliffVariant) -> (u32, u32) {
    match c {
        CliffVariant::Center => (3, 1),
        CliffVariant::TopLeft => (2, 0),
        CliffVariant::Top => (3, 0),
        CliffVariant::TopRight => (4, 0),
        CliffVariant::Right => (4, 1),
        CliffVariant::BottomRight => (4, 2),
        CliffVariant::Bottom => (3, 2),
        CliffVariant::BottomLeft => (2, 2),
        CliffVariant::Left => (2, 1),
        CliffVariant::InverseCornerTR => (4, 3),
        CliffVariant::InverseCornerTL => (3, 3),
        CliffVariant::InverseCornerBL => (3, 4),
        CliffVariant::InverseCornerBR => (4, 4),
        CliffVariant::LeftOpeningUp => (2, 3),
        CliffVariant::LeftOpeningDown => (2, 4),
        CliffVariant::RightOpeningUp => (2, 5),
        CliffVariant::RightOpeningDown => (2, 6),
        CliffVariant::BottomOpeningLeft => (3, 6),
        CliffVariant::BottomOpeningRight => (4, 6),
        CliffVariant::TopOpeningLeft => (3, 5),
        CliffVariant::TopOpeningRight => (4, 5),
    }
}

/// The part of a cliff tile the player cannot walk on, in half-tile units.
pub open spec fn cliff_hitbox(c: CliffVariant) -> HalfTileRect {
    match c {
        CliffVariant::Center => half_rect(0, 0, 0, 0),
        CliffVariant::TopLeft => half_rect(1, 1, 1, 1),
        CliffVariant::Top => half_rect(0, 1, 2, 1),
        CliffVariant::TopRight => half_rect(1, 0, 1, 1),
        CliffVariant::Right => half_rect(0, 0, 1, 2),
        CliffVariant::BottomRight => half_rect(0, 0, 1, 1),
        CliffVariant::Bottom => half_rect(0, 0, 2, 1),
        CliffVariant::BottomLeft => half_rect(1, 0, 1, 1),
        CliffVariant::Left => half_rect(1, 0, 1, 2),
        CliffVariant::InverseCornerTL => half_rect(0, 0, 2, 2),
        CliffVariant::InverseCornerTR => half_rect(0, 0, 2, 2),
        CliffVariant::InverseCornerBL => half_rect(0, 0, 2, 2),
        CliffVariant::InverseCornerBR => half_rect(0, 0, 2, 2),
        CliffVariant::LeftOpeningUp => half_rect(1, 0, 1, 1),
        CliffVariant::LeftOpeningDown => half_rect(1, 0, 1, 1),
        CliffVariant::RightOpeningUp => half_rect(1, 0, 1, 1),
        CliffVariant::RightOpeningDown => half_rect(1, 0, 1, 1),
        CliffVariant::BottomOpeningLeft => half_rect(1, 0, 1, 1),
        CliffVariant::BottomOpeningRight => half_rect(1, 0, 1, 1),
        CliffVariant::TopOpeningLeft => half_rect(1, 0, 1, 1),
        CliffVariant::TopOpeningRight => half_rect(1, 0, 1, 1),
    }
}

impl CliffVariant {
    /// Interacting with a cliff does nothing.
    pub fn interact(&mut self) -> (r: Interaction)
        ensures
            r == (Interaction { item: None, thirst_maxed: false }),
            *final(self) == *old(self),
    {
        Interaction { item: None, thirst_maxed: false }
    }

    /// Attacking a cliff does nothing.
    pub fn attack(&mut self) -> (r: Option<Item>)
        ensures
            r == None::<Item>,
            *final(self) == *old(self),
    {
        None
    }

    pub fn hitbox(&self) -> (r: Vec<HalfTileRect>)
        ensures
            r@ == seq![cliff_hitbox(*self)],
    {
        let rect = match self {
            CliffVariant::Center => HalfTileRect { x: 0, y: 0, w: 0, h: 0 },
            CliffVariant::TopLeft => HalfTileRect { x: 1, y: 1, w: 1, h: 1 },
            CliffVariant::Top => HalfTileRect { x: 0, y: 1, w: 2, h: 1 },
            CliffVariant::TopRight => HalfTileRect { x: 1, y: 0, w: 1, h: 1 },
            CliffVariant::Right => HalfTileRect { x: 0, y: 0, w: 1, h: 2 },
            CliffVariant::BottomRight => HalfTileRect { x: 0, y: 0, w: 1, h: 1 },
            CliffVariant::Bottom => HalfTileRect { x: 0, y: 0, w: 2, h: 1 },
            CliffVariant::BottomLeft => HalfTileRect { x: 1, y: 0, w: 1, h: 1 },
            CliffVariant::Left => HalfTileRect { x: 1, y: 0, w: 1, h: 2 },
            CliffVariant::InverseCornerTL => HalfTileRect { x: 0, y: 0, w: 2, h: 2 },
            CliffVariant::InverseCornerTR => HalfTileRect { x: 0, y: 0, w: 2, h: 2 },
            CliffVariant::InverseCornerBL => HalfTileRect { x: 0, y: 0, w: 2, h: 2 },
            CliffVariant::InverseCornerBR => HalfTileRect { x: 0, y: 0, w: 2, h: 2 },
            CliffVariant::LeftOpeningUp => HalfTileRect { x: 1, y: 0, w: 1, h: 1 },
            CliffVariant::LeftOpeningDown => HalfTileRect { x: 1, y: 0, w: 1, h: 1 },
            CliffVariant::RightOpeningUp => HalfTileRect { x: 1, y: 0, w: 1, h: 1 },
            CliffVariant::RightOpeningDown => HalfTileRect { x: 1, y: 0, w: 1, h: 1 },
            CliffVariant::BottomOpeningLeft => HalfTileRect { x: 1, y: 0, w: 1, h: 1 },
            CliffVariant::BottomOpeningRight => HalfTileRect { x: 1, y: 0, w: 1, h: 1 },
            CliffVariant::TopOpeningLeft => HalfTileRect { x: 1, y: 0, w: 1, h: 1 },
            CliffVariant::TopOpeningRight => HalfTileRect { x: 1, y: 0, w: 1, h: 1 },
        };
        let r = vec![rect];
        proof {
            assert(r@ =~= seq![cliff_hitbox(*self)]);
        }
        r
    }

    pub fn weight(&self) -> (w: i32)
        ensures
            w == 10,
    {
        10
    }

    pub fn sheet_coords(&self) -> (c: (u32, u32))
        ensures
            c == cliff_sheet_coords(*self),
    {
        match self {
            CliffVariant::Center => (3, 1),
            CliffVariant::TopLeft => (2, 0),
            CliffVariant::Top => (3, 0),
            CliffVariant::TopRight => (4, 0),
            CliffVariant::Right => (4, 1),
            CliffVariant::BottomRight => (4, 2),
            CliffVariant::Bottom => (3, 2),
            CliffVariant::BottomLeft => (2, 2),
            CliffVariant::Left => (2, 1),
            CliffVariant::InverseCornerTR => (4, 3),
            CliffVariant::InverseCornerTL => (3, 3),
            CliffVariant::InverseCornerBL => (3, 4),
            CliffVariant::InverseCornerBR => (4, 4),
            CliffVariant::LeftOpeningUp => (2, 3),
            CliffVariant::LeftOpeningDown => (2, 4),
            CliffVariant::RightOpeningUp => (2, 5),
            CliffVariant::RightOpeningDown => (2, 6),
            CliffVariant::BottomOpeningLeft => (3, 6),
            CliffVariant::BottomOpeningRight => (4, 6),
            CliffVariant::TopOpeningLeft => (3, 5),
            CliffVariant::TopOpeningRight => (4, 5),
        }
    }
}

/// The blocked part of a cliff tile lies within the tile.
pub proof fn law_cliff_hitbox_inside_tile(c: CliffVariant)
    ensures
        inside_tile(cliff_hitbox(c)),
{
}

} // verus!
