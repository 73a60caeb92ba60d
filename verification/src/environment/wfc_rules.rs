//! Which tiles may stand next to which: the adjacency rules the world
//! generator obeys.
use vstd::prelude::*;
use std::collections::HashMap;
use crate::environment::{Direction, Tile, law_opposite_involution, opposite_of};
use crate::environment::water::WaterVariant;
use crate::environment::cliffs::CliffVariant;

verus! {

/// Rules as read from their text form: for each tile name, for each direction
/// name, the names of the tiles allowed next to it in that direction.
pub type RuleEntries = Seq<(Seq<char>, Seq<(Seq<char>, Seq<Seq<char>>)>)>;

/// What serde_json reads from a rules text: `None` where the text is not a JSON
/// object of objects of string arrays, else its entries ordered by name.
pub uninterp spec fn parsed_rules(text: Seq<char>) -> Option<RuleEntries>;

/// Reads a rules text with serde_json into a map of maps of string lists, and
/// lists its entries by name. The contract claims only that the result is the
/// function `parsed_rules` of the text.
#[verifier::external_body]
fn parse_rules_json(text: &str) -> (r: Option<Vec<(String, Vec<(String, Vec<String>)>)>>)
    ensures
        r.deep_view() == parsed_rules(text@),
{
    let parsed: std::collections::BTreeMap<String, std::collections::BTreeMap<String, Vec<String>>> =
        serde_json::from_str(text).ok()?;
    Some(parsed.into_iter().map(|(tile, dirs)| (tile, dirs.into_iter().collect())).collect())
}

/// Number of distinct tiles.
pub const TILE_KINDS: usize = 38;

/// Number of (tile, direction) pairs.
pub const RULE_SLOTS: usize = 152;

pub open spec fn water_index(w: WaterVariant) -> int {
    match w {
        WaterVariant::Center => 0,
        WaterVariant::TopLeft => 1,
        WaterVariant::Top => 2,
        WaterVariant::TopRight => 3,
        WaterVariant::Right => 4,
        WaterVariant::BottomRight => 5,
        WaterVariant::Bottom => 6,
        WaterVariant::BottomLeft => 7,
        WaterVariant::Left => 8,
        WaterVariant::InverseCornerTR => 9,
        WaterVariant::InverseCornerTL => 10,
        WaterVariant::InverseCornerBL => 11,
        WaterVariant::InverseCornerBR => 12,
    }
}

pub open spec fn water_at(i: int) -> WaterVariant {
    if i == 0 {
        WaterVariant::Center
    } else if i == 1 {
        WaterVariant::TopLeft
    } else if i == 2 {
        WaterVariant::Top
    } else if i == 3 {
        WaterVariant::TopRight
    } else if i == 4 {
        WaterVariant::Right
    } else if i == 5 {
        WaterVariant::BottomRight
    } else if i == 6 {
        WaterVariant::Bottom
    } else if i == 7 {
        WaterVariant::BottomLeft
    } else if i == 8 {
        WaterVariant::Left
    } else if i == 9 {
        WaterVariant::InverseCornerTR
    } else if i == 10 {
        WaterVariant::InverseCornerTL
    } else if i == 11 {
        WaterVariant::InverseCornerBL
    } else {
        WaterVariant::InverseCornerBR
    }
}

pub open spec fn cliff_index(c: CliffVariant) -> int {
    match c {
        CliffVariant::Center => 0,
        CliffVariant::TopLeft => 1,
        CliffVariant::Top => 2,
        CliffVariant::TopRight => 3,
        CliffVariant::Right => 4,
        CliffVariant::BottomRight => 5,
        CliffVariant::Bottom => 6,
        CliffVariant::BottomLeft => 7,
        CliffVariant::Left => 8,
        CliffVariant::InverseCornerTR => 9,
        CliffVariant::InverseCornerTL => 10,
        CliffVariant::InverseCornerBL => 11,
        CliffVariant::InverseCornerBR => 12,
        CliffVariant::LeftOpeningUp => 13,
        CliffVariant::LeftOpeningDown => 14,
        CliffVariant::RightOpeningUp => 15,
        CliffVariant::RightOpeningDown => 16,
        CliffVariant::BottomOpeningLeft => 17,
        CliffVariant::BottomOpeningRight => 18,
        CliffVariant::TopOpeningLeft => 19,
        CliffVariant::TopOpeningRight => 20,
    }
}

pub open spec fn cliff_at(i: int) -> CliffVariant {
    if i == 0 {
        CliffVariant::Center
    } else if i == 1 {
        CliffVariant::TopLeft
    } else if i == 2 {
        CliffVariant::Top
    } else if i == 3 {
        CliffVariant::TopRight
    } else if i == 4 {
        CliffVariant::Right
    } else if i == 5 {
        CliffVariant::BottomRight
    } else if i == 6 {
        CliffVariant::Bottom
    } else if i == 7 {
        CliffVariant::BottomLeft
    } else if i == 8 {
        CliffVariant::Left
    } else if i == 9 {
        CliffVariant::InverseCornerTR
    } else if i == 10 {
        CliffVariant::InverseCornerTL
    } else if i == 11 {
        CliffVariant::InverseCornerBL
    } else if i == 12 {
        CliffVariant::InverseCornerBR
    } else if i == 13 {
        CliffVariant::LeftOpeningUp
    } else if i == 14 {
        CliffVariant::LeftOpeningDown
    } else if i == 15 {
        CliffVariant::RightOpeningUp
    } else if i == 16 {
        CliffVariant::RightOpeningDown
    } else if i == 17 {
        CliffVariant::BottomOpeningLeft
    } else if i == 18 {
        CliffVariant::BottomOpeningRight
    } else if i == 19 {
        CliffVariant::TopOpeningLeft
    } else {
        CliffVariant::TopOpeningRight
    }
}

/// Position of a tile in the list of all tiles.
pub open spec fn tile_index(t: Tile) -> int {
    match t {
        Tile::Grass => 0,
        Tile::Bush => 1,
        Tile::BerryBush => 2,
        Tile::TreeTrunk => 3,
        Tile::Water(w) => 4 + water_index(w),
        Tile::Cliff(c) => 17 + cliff_index(c),
    }
}

pub open spec fn tile_at(i: int) -> Tile {
    if i == 0 {
        Tile::Grass
    } else if i == 1 {
        Tile::Bush
    } else if i == 2 {
        Tile::BerryBush
    } else if i == 3 {
        Tile::TreeTrunk
    } else if i < 17 {
        Tile::Water(water_at(i - 4))
    } else {
        Tile::Cliff(cliff_at(i - 17))
    }
}

pub open spec fn dir_index(d: Direction) -> int {
    match d {
        Direction::North => 0,
        Direction::East => 1,
        Direction::South => 2,
        Direction::West => 3,
    }
}

/// Where the rules for a tile in a direction are kept.
pub open spec fn rule_slot(t: Tile, d: Direction) -> int {
    tile_index(t) * 4 + dir_index(d)
}

proof fn lemma_tile_index(t: Tile)
    ensures
        0 <= tile_index(t) < TILE_KINDS,
        tile_at(tile_index(t)) == t,
{
    match t {
        Tile::Water(w) => {
            assert(water_at(water_index(w)) == w);
        },
        Tile::Cliff(c) => {
            assert(cliff_at(cliff_index(c)) == c);
        },
        _ => {},
    }
}

/// Distinct (tile, direction) pairs keep their rules in distinct places.
proof fn lemma_rule_slot(t1: Tile, d1: Direction, t2: Tile, d2: Direction)
    ensures
        0 <= rule_slot(t1, d1) < RULE_SLOTS,
        rule_slot(t1, d1) == rule_slot(t2, d2) ==> t1 == t2 && d1 == d2,
{
    lemma_tile_index(t1);
    lemma_tile_index(t2);
}

fn water_index_of(w: WaterVariant) -> (i: usize)
    ensures
        i == water_index(w),
{
    match w {
        WaterVariant::Center => 0,
        WaterVariant::TopLeft => 1,
        WaterVariant::Top => 2,
        WaterVariant::TopRight => 3,
        WaterVariant::Right => 4,
        WaterVariant::BottomRight => 5,
        WaterVariant::Bottom => 6,
        WaterVariant::BottomLeft => 7,
        WaterVariant::Left => 8,
        WaterVariant::InverseCornerTR => 9,
        WaterVariant::InverseCornerTL => 10,
        WaterVariant::InverseCornerBL => 11,
        WaterVariant::InverseCornerBR => 12,
    }
}

fn cliff_index_of(c: CliffVariant) -> (i: usize)
    ensures
        i == cliff_index(c),
{
    match c {
        CliffVariant::Center => 0,
        CliffVariant::TopLeft => 1,
        CliffVariant::Top => 2,
        CliffVariant::TopRight => 3,
        CliffVariant::Right => 4,
        CliffVariant::BottomRight => 5,
        CliffVariant::Bottom => 6,
        CliffVariant::BottomLeft => 7,
        CliffVariant::Left => 8,
        CliffVariant::InverseCornerTR => 9,
        CliffVariant::InverseCornerTL => 10,
        CliffVariant::InverseCornerBL => 11,
        CliffVariant::InverseCornerBR => 12,
        CliffVariant::LeftOpeningUp => 13,
        CliffVariant::LeftOpeningDown => 14,
        CliffVariant::RightOpeningUp => 15,
        CliffVariant::RightOpeningDown => 16,
        CliffVariant::BottomOpeningLeft => 17,
        CliffVariant::BottomOpeningRight => 18,
        CliffVariant::TopOpeningLeft => 19,
        CliffVariant::TopOpeningRight => 20,
    }
}

fn rule_slot_of(t: Tile, d: Direction) -> (k: usize)
    ensures
        k == rule_slot(t, d),
        k < RULE_SLOTS,
{
    proof {
        lemma_tile_index(t);
    }
    let ti: usize = match t {
        Tile::Grass => 0,
        Tile::Bush => 1,
        Tile::BerryBush => 2,
        Tile::TreeTrunk => 3,
        Tile::Water(w) => 4 + water_index_of(w),
        Tile::Cliff(c) => 17 + cliff_index_of(c),
    };
    let di: usize = match d {
        Direction::North => 0,
        Direction::East => 1,
        Direction::South => 2,
        Direction::West => 3,
    };
    ti * 4 + di
}

/// The tile a name in the rules text stands for.
pub open spec fn tile_named(s: Seq<char>) -> Option<Tile> {
    if s == "Grass"@ || s == "Empty"@ {
        Some(Tile::Grass)
    } else if s == "Bush"@ {
        Some(Tile::Bush)
    } else if s == "BerryBush"@ {
        Some(Tile::BerryBush)
    } else if s == "TreeTrunk"@ {
        Some(Tile::TreeTrunk)
    } else if s == "Center"@ {
        Some(Tile::Water(WaterVariant::Center))
    } else if s == "Top"@ {
        Some(Tile::Water(WaterVariant::Top))
    } else if s == "TopLeft"@ {
        Some(Tile::Water(WaterVariant::TopLeft))
    } else if s == "TopRight"@ {
        Some(Tile::Water(WaterVariant::TopRight))
    } else if s == "Right"@ {
        Some(Tile::Water(WaterVariant::Right))
    } else if s == "BottomRight"@ {
        Some(Tile::Water(WaterVariant::BottomRight))
    } else if s == "Bottom"@ {
        Some(Tile::Water(WaterVariant::Bottom))
    } else if s == "BottomLeft"@ {
        Some(Tile::Water(WaterVariant::BottomLeft))
    } else if s == "Left"@ {
        Some(Tile::Water(WaterVariant::Left))
    } else if s == "InverseCornerTR"@ {
        Some(Tile::Water(WaterVariant::InverseCornerTR))
    } else if s == "InverseCornerTL"@ {
        Some(Tile::Water(WaterVariant::InverseCornerTL))
    } else if s == "InverseCornerBL"@ {
        Some(Tile::Water(WaterVariant::InverseCornerBL))
    } else if s == "InverseCornerBR"@ {
        Some(Tile::Water(WaterVariant::InverseCornerBR))
    } else {
        None
    }
}

/// The direction a name in the rules text stands for.
pub open spec fn direction_named(s: Seq<char>) -> Option<Direction> {
    if s == "North"@ {
        Some(Direction::North)
    } else if s == "East"@ {
        Some(Direction::East)
    } else if s == "South"@ {
        Some(Direction::South)
    } else if s == "West"@ {
        Some(Direction::West)
    } else {
        None
    }
}

/// Each name of the rules text stands for the tile of the same name: the land
/// tiles by their names ("Empty" also for grass), and each piece of water by
/// the name of its variant; the four directions by theirs.
pub proof fn law_names_stand_for_their_tiles()
    ensures
        tile_named("Grass"@) == Some(Tile::Grass),
        tile_named("Empty"@) == Some(Tile::Grass),
        tile_named("Bush"@) == Some(Tile::Bush),
        tile_named("BerryBush"@) == Some(Tile::BerryBush),
        tile_named("TreeTrunk"@) == Some(Tile::TreeTrunk),
        tile_named("Center"@) == Some(Tile::Water(WaterVariant::Center)),
        tile_named("Top"@) == Some(Tile::Water(WaterVariant::Top)),
        tile_named("TopLeft"@) == Some(Tile::Water(WaterVariant::TopLeft)),
        tile_named("TopRight"@) == Some(Tile::Water(WaterVariant::TopRight)),
        tile_named("Right"@) == Some(Tile::Water(WaterVariant::Right)),
        tile_named("BottomRight"@) == Some(Tile::Water(WaterVariant::BottomRight)),
        tile_named("Bottom"@) == Some(Tile::Water(WaterVariant::Bottom)),
        tile_named("BottomLeft"@) == Some(Tile::Water(WaterVariant::BottomLeft)),
        tile_named("Left"@) == Some(Tile::Water(WaterVariant::Left)),
        tile_named("InverseCornerTR"@) == Some(Tile::Water(WaterVariant::InverseCornerTR)),
        tile_named("InverseCornerTL"@) == Some(Tile::Water(WaterVariant::InverseCornerTL)),
        tile_named("InverseCornerBL"@) == Some(Tile::Water(WaterVariant::InverseCornerBL)),
        tile_named("InverseCornerBR"@) == Some(Tile::Water(WaterVariant::InverseCornerBR)),
        direction_named("North"@) == Some(Direction::North),
        direction_named("East"@) == Some(Direction::East),
        direction_named("South"@) == Some(Direction::South),
        direction_named("West"@) == Some(Direction::West),
{
    reveal_strlit("Grass");
    reveal_strlit("Empty");
    reveal_strlit("Bush");
    reveal_strlit("BerryBush");
    reveal_strlit("TreeTrunk");
    reveal_strlit("Center");
    reveal_strlit("Top");
    reveal_strlit("TopLeft");
    reveal_strlit("TopRight");
    reveal_strlit("Right");
    reveal_strlit("BottomRight");
    reveal_strlit("Bottom");
    reveal_strlit("BottomLeft");
    reveal_strlit("Left");
    reveal_strlit("InverseCornerTR");
    reveal_strlit("InverseCornerTL");
    reveal_strlit("InverseCornerBL");
    reveal_strlit("InverseCornerBR");
    reveal_strlit("North");
    reveal_strlit("East");
    reveal_strlit("South");
    reveal_strlit("West");
    assert("Empty"@[0] != "Grass"@[0]);
    assert("Bush"@.len() != "Grass"@.len());
    assert("Bush"@.len() != "Empty"@.len());
    assert("BerryBush"@.len() != "Grass"@.len());
    assert("BerryBush"@.len() != "Empty"@.len());
    assert("BerryBush"@.len() != "Bush"@.len());
    assert("TreeTrunk"@.len() != "Grass"@.len());
    assert("TreeTrunk"@.len() != "Empty"@.len());
    assert("TreeTrunk"@.len() != "Bush"@.len());
    assert("TreeTrunk"@[0] != "BerryBush"@[0]);
    assert("Center"@.len() != "Grass"@.len());
    assert("Center"@.len() != "Empty"@.len());
    assert("Center"@.len() != "Bush"@.len());
    assert("Center"@.len() != "BerryBush"@.len());
    assert("Center"@.len() != "TreeTrunk"@.len());
    assert("Top"@.len() != "Grass"@.len());
    assert("Top"@.len() != "Empty"@.len());
    assert("Top"@.len() != "Bush"@.len());
    assert("Top"@.len() != "BerryBush"@.len());
    assert("Top"@.len() != "TreeTrunk"@.len());
    assert("Top"@.len() != "Center"@.len());
    assert("TopLeft"@.len() != "Grass"@.len());
    assert("TopLeft"@.len() != "Empty"@.len());
    assert("TopLeft"@.len() != "Bush"@.len());
    assert("TopLeft"@.len() != "BerryBush"@.len());
    assert("TopLeft"@.len() != "TreeTrunk"@.len());
    assert("TopLeft"@.len() != "Center"@.len());
    assert("TopLeft"@.len() != "Top"@.len());
    assert("TopRight"@.len() != "Grass"@.len());
    assert("TopRight"@.len() != "Empty"@.len());
    assert("TopRight"@.len() != "Bush"@.len());
    assert("TopRight"@.len() != "BerryBush"@.len());
    assert("TopRight"@.len() != "TreeTrunk"@.len());
    assert("TopRight"@.len() != "Center"@.len());
    assert("TopRight"@.len() != "Top"@.len());
    assert("TopRight"@.len() != "TopLeft"@.len());
    assert("Right"@[0] != "Grass"@[0]);
    assert("Right"@[0] != "Empty"@[0]);
    assert("Right"@.len() != "Bush"@.len());
    assert("Right"@.len() != "BerryBush"@.len());
    assert("Right"@.len() != "TreeTrunk"@.len());
    assert("Right"@.len() != "Center"@.len());
    assert("Right"@.len() != "Top"@.len());
    assert("Right"@.len() != "TopLeft"@.len());
    assert("Right"@.len() != "TopRight"@.len());
    assert("BottomRight"@.len() != "Grass"@.len());
    assert("BottomRight"@.len() != "Empty"@.len());
    assert("BottomRight"@.len() != "Bush"@.len());
    assert("BottomRight"@.len() != "BerryBush"@.len());
    assert("BottomRight"@.len() != "TreeTrunk"@.len());
    assert("BottomRight"@.len() != "Center"@.len());
    assert("BottomRight"@.len() != "Top"@.len());
    assert("BottomRight"@.len() != "TopLeft"@.len());
    assert("BottomRight"@.len() != "TopRight"@.len());
    assert("BottomRight"@.len() != "Right"@.len());
    assert("Bottom"@.len() != "Grass"@.len());
    assert("Bottom"@.len() != "Empty"@.len());
    assert("Bottom"@.len() != "Bush"@.len());
    assert("Bottom"@.len() != "BerryBush"@.len());
    assert("Bottom"@.len() != "TreeTrunk"@.len());
    assert("Bottom"@[0] != "Center"@[0]);
    assert("Bottom"@.len() != "Top"@.len());
    assert("Bottom"@.len() != "TopLeft"@.len());
    assert("Bottom"@.len() != "TopRight"@.len());
    assert("Bottom"@.len() != "Right"@.len());
    assert("Bottom"@.len() != "BottomRight"@.len());
    assert("BottomLeft"@.len() != "Grass"@.len());
    assert("BottomLeft"@.len() != "Empty"@.len());
    assert("BottomLeft"@.len() != "Bush"@.len());
    assert("BottomLeft"@.len() != "BerryBush"@.len());
    assert("BottomLeft"@.len() != "TreeTrunk"@.len());
    assert("BottomLeft"@.len() != "Center"@.len());
    assert("BottomLeft"@.len() != "Top"@.len());
    assert("BottomLeft"@.len() != "TopLeft"@.len());
    assert("BottomLeft"@.len() != "TopRight"@.len());
    assert("BottomLeft"@.len() != "Right"@.len());
    assert("BottomLeft"@.len() != "BottomRight"@.len());
    assert("BottomLeft"@.len() != "Bottom"@.len());
    assert("Left"@.len() != "Grass"@.len());
    assert("Left"@.len() != "Empty"@.len());
    assert("Left"@[0] != "Bush"@[0]);
    assert("Left"@.len() != "BerryBush"@.len());
    assert("Left"@.len() != "TreeTrunk"@.len());
    assert("Left"@.len() != "Center"@.len());
    assert("Left"@.len() != "Top"@.len());
    assert("Left"@.len() != "TopLeft"@.len());
    assert("Left"@.len() != "TopRight"@.len());
    assert("Left"@.len() != "Right"@.len());
    assert("Left"@.len() != "BottomRight"@.len());
    assert("Left"@.len() != "Bottom"@.len());
    assert("Left"@.len() != "BottomLeft"@.len());
    assert("InverseCornerTR"@.len() != "Grass"@.len());
    assert("InverseCornerTR"@.len() != "Empty"@.len());
    assert("InverseCornerTR"@.len() != "Bush"@.len());
    assert("InverseCornerTR"@.len() != "BerryBush"@.len());
    assert("InverseCornerTR"@.len() != "TreeTrunk"@.len());
    assert("InverseCornerTR"@.len() != "Center"@.len());
    assert("InverseCornerTR"@.len() != "Top"@.len());
    assert("InverseCornerTR"@.len() != "TopLeft"@.len());
    assert("InverseCornerTR"@.len() != "TopRight"@.len());
    assert("InverseCornerTR"@.len() != "Right"@.len());
    assert("InverseCornerTR"@.len() != "BottomRight"@.len());
    assert("InverseCornerTR"@.len() != "Bottom"@.len());
    assert("InverseCornerTR"@.len() != "BottomLeft"@.len());
    assert("InverseCornerTR"@.len() != "Left"@.len());
    assert("InverseCornerTL"@.len() != "Grass"@.len());
    assert("InverseCornerTL"@.len() != "Empty"@.len());
    assert("InverseCornerTL"@.len() != "Bush"@.len());
    assert("InverseCornerTL"@.len() != "BerryBush"@.len());
    assert("InverseCornerTL"@.len() != "TreeTrunk"@.len());
    assert("InverseCornerTL"@.len() != "Center"@.len());
    assert("InverseCornerTL"@.len() != "Top"@.len());
    assert("InverseCornerTL"@.len() != "TopLeft"@.len());
    assert("InverseCornerTL"@.len() != "TopRight"@.len());
    assert("InverseCornerTL"@.len() != "Right"@.len());
    assert("InverseCornerTL"@.len() != "BottomRight"@.len());
    assert("InverseCornerTL"@.len() != "Bottom"@.len());
    assert("InverseCornerTL"@.len() != "BottomLeft"@.len());
    assert("InverseCornerTL"@.len() != "Left"@.len());
    assert("InverseCornerTL"@[14] != "InverseCornerTR"@[14]);
    assert("InverseCornerBL"@.len() != "Grass"@.len());
    assert("InverseCornerBL"@.len() != "Empty"@.len());
    assert("InverseCornerBL"@.len() != "Bush"@.len());
    assert("InverseCornerBL"@.len() != "BerryBush"@.len());
    assert("InverseCornerBL"@.len() != "TreeTrunk"@.len());
    assert("InverseCornerBL"@.len() != "Center"@.len());
    assert("InverseCornerBL"@.len() != "Top"@.len());
    assert("InverseCornerBL"@.len() != "TopLeft"@.len());
    assert("InverseCornerBL"@.len() != "TopRight"@.len());
    assert("InverseCornerBL"@.len() != "Right"@.len());
    assert("InverseCornerBL"@.len() != "BottomRight"@.len());
    assert("InverseCornerBL"@.len() != "Bottom"@.len());
    assert("InverseCornerBL"@.len() != "BottomLeft"@.len());
    assert("InverseCornerBL"@.len() != "Left"@.len());
    assert("InverseCornerBL"@[13] != "InverseCornerTR"@[13]);
    assert("InverseCornerBL"@[13] != "InverseCornerTL"@[13]);
    assert("InverseCornerBR"@.len() != "Grass"@.len());
    assert("InverseCornerBR"@.len() != "Empty"@.len());
    assert("InverseCornerBR"@.len() != "Bush"@.len());
    assert("InverseCornerBR"@.len() != "BerryBush"@.len());
    assert("InverseCornerBR"@.len() != "TreeTrunk"@.len());
    assert("InverseCornerBR"@.len() != "Center"@.len());
    assert("InverseCornerBR"@.len() != "Top"@.len());
    assert("InverseCornerBR"@.len() != "TopLeft"@.len());
    assert("InverseCornerBR"@.len() != "TopRight"@.len());
    assert("InverseCornerBR"@.len() != "Right"@.len());
    assert("InverseCornerBR"@.len() != "BottomRight"@.len());
    assert("InverseCornerBR"@.len() != "Bottom"@.len());
    assert("InverseCornerBR"@.len() != "BottomLeft"@.len());
    assert("InverseCornerBR"@.len() != "Left"@.len());
    assert("InverseCornerBR"@[13] != "InverseCornerTR"@[13]);
    assert("InverseCornerBR"@[13] != "InverseCornerTL"@[13]);
    assert("InverseCornerBR"@[14] != "InverseCornerBL"@[14]);
    assert("East"@.len() != "North"@.len());
    assert("South"@[0] != "North"@[0]);
    assert("South"@.len() != "East"@.len());
    assert("West"@.len() != "North"@.len());
    assert("West"@[0] != "East"@[0]);
    assert("West"@.len() != "South"@.len());
}

fn text_is(s: &String, lit: &str) -> (r: bool)
    ensures
        r == (s@ == lit@),
{
    let l = lit.to_owned();
    *s == l
}

/// The tile a rules file names, if it is one of the names `tile_named` lists
/// ("Empty" also names grass).
fn lookup_tile(s: &str) -> (r: Option<Tile>)
    ensures
        r == tile_named(s@),
{
    let s = s.to_owned();
    if text_is(&s, "Grass") || text_is(&s, "Empty") {
        Some(Tile::Grass)
    } else if text_is(&s, "Bush") {
        Some(Tile::Bush)
    } else if text_is(&s, "BerryBush") {
        Some(Tile::BerryBush)
    } else if text_is(&s, "TreeTrunk") {
        Some(Tile::TreeTrunk)
    } else if text_is(&s, "Center") {
        Some(Tile::Water(WaterVariant::Center))
    } else if text_is(&s, "Top") {
        Some(Tile::Water(WaterVariant::Top))
    } else if text_is(&s, "TopLeft") {
        Some(Tile::Water(WaterVariant::TopLeft))
    } else if text_is(&s, "TopRight") {
        Some(Tile::Water(WaterVariant::TopRight))
    } else if text_is(&s, "Right") {
        Some(Tile::Water(WaterVariant::Right))
    } else if text_is(&s, "BottomRight") {
        Some(Tile::Water(WaterVariant::BottomRight))
    } else if text_is(&s, "Bottom") {
        Some(Tile::Water(WaterVariant::Bottom))
    } else if text_is(&s, "BottomLeft") {
        Some(Tile::Water(WaterVariant::BottomLeft))
    } else if text_is(&s, "Left") {
        Some(Tile::Water(WaterVariant::Left))
    } else if text_is(&s, "InverseCornerTR") {
        Some(Tile::Water(WaterVariant::InverseCornerTR))
    } else if text_is(&s, "InverseCornerTL") {
        Some(Tile::Water(WaterVariant::InverseCornerTL))
    } else if text_is(&s, "InverseCornerBL") {
        Some(Tile::Water(WaterVariant::InverseCornerBL))
    } else if text_is(&s, "InverseCornerBR") {
        Some(Tile::Water(WaterVariant::InverseCornerBR))
    } else {
        None
    }
}

/// The direction a rules file names, if it is one of the four.
fn lookup_dir(s: &str) -> (r: Option<Direction>)
    ensures
        r == direction_named(s@),
{
    let s = s.to_owned();
    if text_is(&s, "North") {
        Some(Direction::North)
    } else if text_is(&s, "East") {
        Some(Direction::East)
    } else if text_is(&s, "South") {
        Some(Direction::South)
    } else if text_is(&s, "West") {
        Some(Direction::West)
    } else {
        None
    }
}

/// The tile a known name stands for. Only the names `tile_named` lists are
/// accepted; `RuleRegistry::from_entries` refuses rules with any other name
/// with `RuleError::UnknownTile`.
pub fn str_to_tile(s: &str) -> (r: Tile)
    requires
        tile_named(s@) is Some,
    ensures
        tile_named(s@) == Some(r),
{
    match lookup_tile(s) {
        Some(t) => t,
        None => Tile::Grass,
    }
}

/// The direction a known name stands for. Only the four names
/// `direction_named` lists are accepted; `RuleRegistry::from_entries` refuses
/// rules with any other name with `RuleError::UnknownDirection`.
pub fn str_to_dir(s: &str) -> (r: Direction)
    requires
        direction_named(s@) is Some,
    ensures
        direction_named(s@) == Some(r),
{
    match lookup_dir(s) {
        Some(d) => d,
        None => Direction::North,
    }
}

// ---------------------------------------------------------------------------
// What a rules text allows
// ---------------------------------------------------------------------------

/// Entry `a`, direction `b`, name `c` of the rules text says that `t` may lie
/// in direction `d` of `f`.
pub open spec fn named_rule(e: RuleEntries, a: int, b: int, c: int, f: Tile, d: Direction, t: Tile) -> bool {
    &&& 0 <= a < e.len()
    &&& 0 <= b < e[a].1.len()
    &&& 0 <= c < e[a].1[b].1.len()
    &&& tile_named(e[a].0) == Some(f)
    &&& direction_named(e[a].1[b].0) == Some(d)
    &&& tile_named(e[a].1[b].1[c]) == Some(t)
}

/// The rules text lists `t` as allowed in direction `d` of `f`.
pub open spec fn listed_rule(e: RuleEntries, f: Tile, d: Direction, t: Tile) -> bool {
    exists|a: int, b: int, c: int| #[trigger] named_rule(e, a, b, c, f, d, t)
}

/// Land tiles, which may always touch each other.
pub open spec fn is_land(t: Tile) -> bool {
    t == Tile::Grass || t == Tile::Bush || t == Tile::BerryBush || t == Tile::TreeTrunk
}

/// What a registry built from the rules text allows: each listed rule, the same
/// rule seen from the other tile, and any two land tiles side by side.
pub open spec fn rule_allows(e: RuleEntries, f: Tile, d: Direction, t: Tile) -> bool {
    ||| listed_rule(e, f, d, t)
    ||| listed_rule(e, t, opposite_of(d), f)
    ||| is_land(f) && is_land(t)
}

pub open spec fn dir_rules_known(r: (Seq<char>, Seq<Seq<char>>)) -> bool {
    &&& direction_named(r.0) is Some
    &&& forall|c: int| 0 <= c < r.1.len() ==> tile_named(#[trigger] r.1[c]) is Some
}

pub open spec fn entry_known(x: (Seq<char>, Seq<(Seq<char>, Seq<Seq<char>>)>)) -> bool {
    &&& tile_named(x.0) is Some
    &&& forall|b: int| 0 <= b < x.1.len() ==> dir_rules_known(#[trigger] x.1[b])
}

/// Every name in the rules text stands for a tile or a direction, as its place requires.
pub open spec fn names_known(e: RuleEntries) -> bool {
    forall|a: int| 0 <= a < e.len() ==> entry_known(#[trigger] e[a])
}

/// Every entry before entry `a` has only known names.
pub open spec fn known_before_entry(e: RuleEntries, a: int) -> bool {
    forall|a2: int| 0 <= a2 < a ==> entry_known(#[trigger] e[a2])
}

/// Within entry `a`, the tile name and every direction rule before `b` are known.
pub open spec fn known_before_dir(e: RuleEntries, a: int, b: int) -> bool {
    &&& known_before_entry(e, a)
    &&& tile_named(e[a].0) is Some
    &&& forall|b2: int| 0 <= b2 < b ==> dir_rules_known(#[trigger] e[a].1[b2])
}

/// Within direction rule `b` of entry `a`, the direction name and every tile
/// name before `c` are known.
pub open spec fn known_before_name(e: RuleEntries, a: int, b: int, c: int) -> bool {
    &&& known_before_dir(e, a, b)
    &&& direction_named(e[a].1[b].0) is Some
    &&& forall|c2: int| 0 <= c2 < c ==> tile_named(#[trigger] e[a].1[b].1[c2]) is Some
}

/// `s` is the first unknown name of the rules text, read entry by entry, and
/// it stands where a tile name belongs.
pub open spec fn first_unknown_tile(e: RuleEntries, s: Seq<char>) -> bool {
    &&& tile_named(s) is None
    &&& {
        ||| exists|a: int| #![trigger e[a].0] 0 <= a < e.len() && known_before_entry(e, a) && e[a].0 == s
        ||| exists|a: int, b: int, c: int| #![trigger e[a].1[b].1[c]]
            0 <= a < e.len() && 0 <= b < e[a].1.len() && 0 <= c < e[a].1[b].1.len() && known_before_name(e, a, b, c)
                && e[a].1[b].1[c] == s
    }
}

/// `s` is the first unknown name of the rules text, read entry by entry, and
/// it stands where a direction name belongs.
pub open spec fn first_unknown_direction(e: RuleEntries, s: Seq<char>) -> bool {
    &&& direction_named(s) is None
    &&& exists|a: int, b: int| #![trigger e[a].1[b].0]
        0 <= a < e.len() && 0 <= b < e[a].1.len() && known_before_dir(e, a, b) && e[a].1[b].0 == s
}

/// Why rules could not be built.
#[derive(Debug, Clone, PartialEq, Eq)]
pub enum RuleError {
    /// The text is not a JSON object of objects of string lists.
    Json,
    /// A name in a tile's place stands for no tile.
    UnknownTile(String),
    /// A name in a direction's place stands for no direction.
    UnknownDirection(String),
}

pub open spec fn no_duplicates(s: Seq<Tile>) -> bool {
    forall|i: int, j: int| 0 <= i < j < s.len() ==> s[i] != s[j]
}

/// For each tile and direction, the tiles allowed next to it there.
pub struct RuleRegistry {
    /// The tiles allowed next to a tile in a direction, keyed by the pair's
    /// rule slot (`rule_slot`).
    pub matrix: HashMap<u64, Vec<Tile>>,
}

/// The matrix holds a list only under the rule slot of a (tile, direction)
/// pair, and every list it holds is non-empty: with `allows`, a pair has a
/// list exactly when it allows some tile, and the list holds the tiles allowed.
pub open spec fn stored_lists_exact(reg: RuleRegistry) -> bool {
    forall|k: u64| #[trigger] reg.matrix@.contains_key(k) ==> {
        &&& reg.matrix@[k]@.len() > 0
        &&& exists|f: Tile, d: Direction| k == #[trigger] rule_slot(f, d) as u64
    }
}

/// What building a registry from rules entries gives: a registry exactly when
/// every name is known, and then one that allows what `rule_allows` says; else
/// an error naming the first unknown name.
pub open spec fn built_from(r: Result<RuleRegistry, RuleError>, e: RuleEntries) -> bool {
    &&& (r is Ok) == names_known(e)
    &&& r matches Ok(reg) ==> reg.wf() && stored_lists_exact(reg) && forall|f: Tile, d: Direction, t: Tile|
        #[trigger] reg.allows(f, d, t) == rule_allows(e, f, d, t)
    &&& r matches Err(RuleError::UnknownTile(s)) ==> first_unknown_tile(e, s@)
    &&& r matches Err(RuleError::UnknownDirection(s)) ==> first_unknown_direction(e, s@)
    &&& !(r matches Err(RuleError::Json))
}

pub open spec fn lex_before(a: int, b: int, c: int, i: int, j: int, k: int) -> bool {
    a < i || (a == i && (b < j || (b == j && c < k)))
}

/// The rules text lists the rule at a place before (i, j, k).
pub open spec fn listed_before(e: RuleEntries, i: int, j: int, k: int, f: Tile, d: Direction, t: Tile) -> bool {
    exists|a: int, b: int, c: int| #[trigger] named_rule(e, a, b, c, f, d, t) && lex_before(a, b, c, i, j, k)
}

pub open spec fn pair_before(e: RuleEntries, i: int, j: int, k: int, f: Tile, d: Direction, t: Tile) -> bool {
    listed_before(e, i, j, k, f, d, t) || listed_before(e, i, j, k, t, opposite_of(d), f)
}

proof fn lemma_listed_step(e: RuleEntries, i: int, j: int, k: int, ft: Tile, fd: Direction, tt: Tile, f: Tile, d: Direction, t: Tile)
    requires
        0 <= i < e.len(),
        0 <= j < e[i].1.len(),
        0 <= k < e[i].1[j].1.len(),
        tile_named(e[i].0) == Some(ft),
        direction_named(e[i].1[j].0) == Some(fd),
        tile_named(e[i].1[j].1[k]) == Some(tt),
    ensures
        listed_before(e, i, j, k + 1, f, d, t) == (listed_before(e, i, j, k, f, d, t) || (f == ft && d == fd && t == tt)),
{
    if listed_before(e, i, j, k + 1, f, d, t) {
        let (a, b, c) = choose|a: int, b: int, c: int| #[trigger] named_rule(e, a, b, c, f, d, t) && lex_before(a, b, c, i, j, k + 1);
        if !(a == i && b == j && c == k) {
            assert(named_rule(e, a, b, c, f, d, t) && lex_before(a, b, c, i, j, k));
        }
    }
    if f == ft && d == fd && t == tt {
        assert(named_rule(e, i, j, k, f, d, t) && lex_before(i, j, k, i, j, k + 1));
    }
    if listed_before(e, i, j, k, f, d, t) {
        let (a, b, c) = choose|a: int, b: int, c: int| #[trigger] named_rule(e, a, b, c, f, d, t) && lex_before(a, b, c, i, j, k);
        assert(named_rule(e, a, b, c, f, d, t) && lex_before(a, b, c, i, j, k + 1));
    }
}

proof fn lemma_listed_next_dir(e: RuleEntries, i: int, j: int, f: Tile, d: Direction, t: Tile)
    requires
        0 <= i < e.len(),
        0 <= j < e[i].1.len(),
    ensures
        listed_before(e, i, j, e[i].1[j].1.len() as int, f, d, t) == listed_before(e, i, j + 1, 0, f, d, t),
{
    let n = e[i].1[j].1.len() as int;
    if listed_before(e, i, j, n, f, d, t) {
        let (a, b, c) = choose|a: int, b: int, c: int| #[trigger] named_rule(e, a, b, c, f, d, t) && lex_before(a, b, c, i, j, n);
        assert(named_rule(e, a, b, c, f, d, t) && lex_before(a, b, c, i, j + 1, 0));
    }
    if listed_before(e, i, j + 1, 0, f, d, t) {
        let (a, b, c) = choose|a: int, b: int, c: int| #[trigger] named_rule(e, a, b, c, f, d, t) && lex_before(a, b, c, i, j + 1, 0);
        assert(named_rule(e, a, b, c, f, d, t) && lex_before(a, b, c, i, j, n));
    }
}

proof fn lemma_listed_next_entry(e: RuleEntries, i: int, f: Tile, d: Direction, t: Tile)
    requires
        0 <= i < e.len(),
    ensures
        listed_before(e, i, e[i].1.len() as int, 0, f, d, t) == listed_before(e, i + 1, 0, 0, f, d, t),
{
    let n = e[i].1.len() as int;
    if listed_before(e, i, n, 0, f, d, t) {
        let (a, b, c) = choose|a: int, b: int, c: int| #[trigger] named_rule(e, a, b, c, f, d, t) && lex_before(a, b, c, i, n, 0);
        assert(named_rule(e, a, b, c, f, d, t) && lex_before(a, b, c, i + 1, 0, 0));
    }
    if listed_before(e, i + 1, 0, 0, f, d, t) {
        let (a, b, c) = choose|a: int, b: int, c: int| #[trigger] named_rule(e, a, b, c, f, d, t) && lex_before(a, b, c, i + 1, 0, 0);
        assert(named_rule(e, a, b, c, f, d, t) && lex_before(a, b, c, i, n, 0));
    }
}

proof fn lemma_listed_all(e: RuleEntries, f: Tile, d: Direction, t: Tile)
    ensures
        listed_before(e, e.len() as int, 0, 0, f, d, t) == listed_rule(e, f, d, t),
        !listed_before(e, 0, 0, 0, f, d, t),
{
    if listed_rule(e, f, d, t) {
        let (a, b, c) = choose|a: int, b: int, c: int| #[trigger] named_rule(e, a, b, c, f, d, t);
        assert(named_rule(e, a, b, c, f, d, t) && lex_before(a, b, c, e.len() as int, 0, 0));
    }
}

/// Position of a land tile among [Grass, Bush, BerryBush, TreeTrunk].
pub open spec fn land_pos(t: Tile) -> int {
    match t {
        Tile::Grass => 0,
        Tile::Bush => 1,
        Tile::BerryBush => 2,
        _ => 3,
    }
}

/// Position of a direction among [North, South, East, West].
pub open spec fn land_dir_pos(d: Direction) -> int {
    match d {
        Direction::North => 0,
        Direction::South => 1,
        Direction::East => 2,
        Direction::West => 3,
    }
}

pub open spec fn land_before(p: int, q: int, r: int, f: Tile, d: Direction, t: Tile) -> bool {
    is_land(f) && is_land(t) && lex_before(land_pos(f), land_dir_pos(d), land_pos(t), p, q, r)
}

fn list_contains(v: &Vec<Tile>, t: Tile) -> (r: bool)
    ensures
        r == v@.contains(t),
{
    let mut i: usize = 0;
    while i < v.len()
        invariant
            i <= v.len(),
            forall|j: int| 0 <= j < i ==> v@[j] != t,
        decreases v.len() - i,
    {
        if v[i] == t {
            return true;
        }
        i = i + 1;
    }
    false
}

impl RuleRegistry {
    /// No list holds a tile twice, every list is non-empty, and each is kept
    /// under the rule slot of a (tile, direction) pair.
    pub closed spec fn wf(&self) -> bool {
        &&& forall|k: u64| #[trigger] self.matrix@.contains_key(k) ==> no_duplicates(self.matrix@[k]@)
        &&& stored_lists_exact(*self)
    }

    /// `to` may lie in direction `dir` of `from`: the list under the pair's
    /// rule slot holds it.
    pub open spec fn allows(&self, from: Tile, dir: Direction, to: Tile) -> bool {
        let k = rule_slot(from, dir) as u64;
        self.matrix@.contains_key(k) && self.matrix@[k]@.contains(to)
    }

    fn empty() -> (r: Self)
        ensures
            r.wf(),
            forall|f: Tile, d: Direction, t: Tile| !#[trigger] r.allows(f, d, t),
    {
        RuleRegistry { matrix: HashMap::new() }
    }

    /// Inserts a rule unless it is already there.
    fn insert_rule(&mut self, from: Tile, dir: Direction, to: Tile)
        requires
            old(self).wf(),
        ensures
            final(self).wf(),
            forall|f: Tile, d: Direction, t: Tile| #[trigger] final(self).allows(f, d, t) == (old(self).allows(f, d, t)
                || (f == from && d == dir && t == to)),
    {
        broadcast use vstd::std_specs::hash::group_hash_axioms;
        let k = rule_slot_of(from, dir) as u64;
        let ghost m0 = self.matrix@;
        let mut list = match self.matrix.remove(&k) {
            Some(l) => l,
            None => Vec::new(),
        };
        let ghost l = list@;
        proof {
            if m0.contains_key(k) {
                assert(l == m0[k]@);
            } else {
                assert(l == Seq::<Tile>::empty());
            }
            assert(no_duplicates(l));
        }
        let present = list_contains(&list, to);
        if !present {
            list.push(to);
            proof {
                assert(list@ == l.push(to));
                assert(l.push(to)[l.len() as int] == to);
            }
        }
        self.matrix.insert(k, list);
        proof {
            assert(self.matrix@ == m0.insert(k, self.matrix@[k]));
            assert forall|j: u64| #[trigger] self.matrix@.contains_key(j) implies no_duplicates(self.matrix@[j]@) by {
                if j != k {
                    assert(m0.contains_key(j));
                }
            }
            assert(self.matrix@[k]@.len() > 0) by {
                if present {
                    assert(l.contains(to));
                }
            }
            assert forall|j: u64| #[trigger] self.matrix@.contains_key(j) implies {
                &&& self.matrix@[j]@.len() > 0
                &&& exists|f: Tile, d: Direction| j == #[trigger] rule_slot(f, d) as u64
            } by {
                if j != k {
                    assert(m0.contains_key(j));
                } else {
                    assert(k == rule_slot(from, dir) as u64);
                }
            }
            assert forall|f: Tile, d: Direction, t: Tile| #[trigger] self.allows(f, d, t) == (old(self).allows(f, d, t)
                || (f == from && d == dir && t == to)) by {
                lemma_rule_slot(f, d, from, dir);
                lemma_tile_index(f);
                lemma_tile_index(from);
                if rule_slot(f, d) as u64 != k {
                } else if present {
                } else {
                    assert(self.matrix@[k]@ == l.push(to));
                    assert(l.push(to)[l.len() as int] == to);
                    if l.contains(t) {
                        let m = choose|m: int| 0 <= m < l.len() && l[m] == t;
                        assert(l.push(to)[m] == t);
                    }
                    if l.push(to).contains(t) && t != to {
                        let m = choose|m: int| 0 <= m < l.push(to).len() && l.push(to)[m] == t;
                        assert(l[m] == t);
                    }
                }
            }
        }
    }

    /// The tiles allowed in direction `dir` of `tile`.
    pub fn allowed(&self, tile: Tile, dir: Direction) -> (r: Vec<Tile>)
        requires
            self.wf(),
        ensures
            forall|t: Tile| #[trigger] r@.contains(t) == self.allows(tile, dir, t),
            no_duplicates(r@),
    {
        broadcast use vstd::std_specs::hash::group_hash_axioms;
        let k = rule_slot_of(tile, dir) as u64;
        match self.matrix.get(&k) {
            Some(list) => {
                let mut out: Vec<Tile> = Vec::new();
                let mut i: usize = 0;
                while i < list.len()
                    invariant
                        i <= list@.len(),
                        out@ == list@.take(i as int),
                    decreases list.len() - i,
                {
                    out.push(list[i]);
                    i = i + 1;
                    proof {
                        assert(out@ =~= list@.take(i as int));
                    }
                }
                proof {
                    assert(list@.take(i as int) =~= list@);
                }
                out
            },
            None => Vec::new(),
        }
    }

    /// Adds the rules that let any two land tiles touch in every direction.
    fn add_land_rules(&mut self)
        requires
            old(self).wf(),
        ensures
            final(self).wf(),
            forall|f: Tile, d: Direction, t: Tile| #[trigger] final(self).allows(f, d, t) == (old(self).allows(f, d, t)
                || (is_land(f) && is_land(t))),
    {
        let land_tiles = [Tile::Grass, Tile::Bush, Tile::BerryBush, Tile::TreeTrunk];
        let dirs = [Direction::North, Direction::South, Direction::East, Direction::West];
        let ghost start = *self;
        let mut p: usize = 0;
        while p < 4
            invariant
                p <= 4,
                self.wf(),
                land_tiles@ == seq![Tile::Grass, Tile::Bush, Tile::BerryBush, Tile::TreeTrunk],
                dirs@ == seq![Direction::North, Direction::South, Direction::East, Direction::West],
                forall|f: Tile, d: Direction, t: Tile| #[trigger] self.allows(f, d, t) == (start.allows(f, d, t)
                    || land_before(p as int, 0, 0, f, d, t)),
            decreases 4 - p,
        {
            let mut q: usize = 0;
            while q < 4
                invariant
                    p < 4,
                    q <= 4,
                    self.wf(),
                    land_tiles@ == seq![Tile::Grass, Tile::Bush, Tile::BerryBush, Tile::TreeTrunk],
                    dirs@ == seq![Direction::North, Direction::South, Direction::East, Direction::West],
                    forall|f: Tile, d: Direction, t: Tile| #[trigger] self.allows(f, d, t) == (start.allows(f, d, t)
                        || land_before(p as int, q as int, 0, f, d, t)),
                decreases 4 - q,
            {
                let mut r: usize = 0;
                while r < 4
                    invariant
                        p < 4,
                        q < 4,
                        r <= 4,
                        self.wf(),
                        land_tiles@ == seq![Tile::Grass, Tile::Bush, Tile::BerryBush, Tile::TreeTrunk],
                        dirs@ == seq![Direction::North, Direction::South, Direction::East, Direction::West],
                        forall|f: Tile, d: Direction, t: Tile| #[trigger] self.allows(f, d, t) == (start.allows(f, d, t)
                            || land_before(p as int, q as int, r as int, f, d, t)),
                    decreases 4 - r,
                {
                    let from = land_tiles[p];
                    let dir = dirs[q];
                    let to = land_tiles[r];
                    self.insert_rule(from, dir, to);
                    proof {
                        assert(land_pos(from) == p && land_dir_pos(dir) == q && land_pos(to) == r);
                        assert forall|f: Tile, d: Direction, t: Tile| #[trigger] self.allows(f, d, t) == (start.allows(f, d, t)
                            || land_before(p as int, q as int, r + 1, f, d, t)) by {
                            if is_land(f) && is_land(t) && land_pos(f) == p && land_dir_pos(d) == q && land_pos(t) == r {
                                assert(f == from && d == dir && t == to);
                            }
                        }
                    }
                    r = r + 1;
                }
                q = q + 1;
            }
            p = p + 1;
        }
    }

    /// Builds the registry from rules entries: every listed rule is added together
    /// with the same rule seen from the other tile, then every pair of land tiles
    /// is allowed side by side in every direction.
    pub fn from_entries(entries: &Vec<(String, Vec<(String, Vec<String>)>)>) -> (r: Result<RuleRegistry, RuleError>)
        ensures
            built_from(r, entries.deep_view()),
    {
        let ghost e = entries.deep_view();
        let mut reg = RuleRegistry::empty();
        let mut i: usize = 0;
        proof {
            assert forall|f: Tile, d: Direction, t: Tile| #[trigger] reg.allows(f, d, t) == pair_before(e, 0, 0, 0, f, d, t) by {
                lemma_listed_all(e, f, d, t);
                lemma_listed_all(e, t, opposite_of(d), f);
            }
        }
        while i < entries.len()
            invariant
                e == entries.deep_view(),
                i <= entries.len(),
                reg.wf(),
                forall|a: int| 0 <= a < i ==> entry_known(#[trigger] e[a]),
                forall|f: Tile, d: Direction, t: Tile| #[trigger] reg.allows(f, d, t) == pair_before(e, i as int, 0, 0, f, d, t),
            decreases entries.len() - i,
        {
            let tile_name = &entries[i].0;
            let dirs = &entries[i].1;
            proof {
                assert(e[i as int] == entries@[i as int].deep_view());
                assert(e[i as int].0 == tile_name@);
                assert(e[i as int].1 == dirs.deep_view());
            }
            let tile = match lookup_tile(tile_name.as_str()) {
                Some(t) => t,
                None => {
                    proof {
                        assert(!entry_known(e[i as int]));
                        assert(0 <= i < e.len() && known_before_entry(e, i as int) && e[i as int].0 == tile_name@);
                    }
                    return Err(RuleError::UnknownTile(tile_name.clone()));
                },
            };
            let mut j: usize = 0;
            while j < dirs.len()
                invariant
                    e == entries.deep_view(),
                    i < entries.len(),
                    e[i as int].0 == tile_name@,
                    e[i as int].1 == dirs.deep_view(),
                    tile_named(e[i as int].0) == Some(tile),
                    j <= dirs.len(),
                    reg.wf(),
                    forall|a: int| 0 <= a < i ==> entry_known(#[trigger] e[a]),
                    forall|b: int| 0 <= b < j ==> dir_rules_known(#[trigger] e[i as int].1[b]),
                    forall|f: Tile, d: Direction, t: Tile| #[trigger] reg.allows(f, d, t) == pair_before(e, i as int, j as int, 0, f, d, t),
                decreases dirs.len() - j,
            {
                let dir_name = &dirs[j].0;
                let allowed = &dirs[j].1;
                proof {
                    assert(e[i as int].1[j as int] == dirs@[j as int].deep_view());
                    assert(e[i as int].1[j as int].0 == dir_name@);
                    assert(e[i as int].1[j as int].1 == allowed.deep_view());
                }
                let dir = match lookup_dir(dir_name.as_str()) {
                    Some(d) => d,
                    None => {
                        proof {
                            assert(!dir_rules_known(e[i as int].1[j as int]));
                            assert(!entry_known(e[i as int]));
                            assert(0 <= i < e.len() && 0 <= j < e[i as int].1.len() && known_before_dir(e, i as int, j as int)
                                && e[i as int].1[j as int].0 == dir_name@);
                        }
                        return Err(RuleError::UnknownDirection(dir_name.clone()));
                    },
                };
                let mut k: usize = 0;
                while k < allowed.len()
                    invariant
                        e == entries.deep_view(),
                        i < entries.len(),
                        j < dirs.len(),
                        e[i as int].0 == tile_name@,
                        e[i as int].1 == dirs.deep_view(),
                        e[i as int].1[j as int].0 == dir_name@,
                        e[i as int].1[j as int].1 == allowed.deep_view(),
                        tile_named(e[i as int].0) == Some(tile),
                        direction_named(e[i as int].1[j as int].0) == Some(dir),
                        k <= allowed.len(),
                        reg.wf(),
                        forall|a: int| 0 <= a < i ==> entry_known(#[trigger] e[a]),
                        forall|b: int| 0 <= b < j ==> dir_rules_known(#[trigger] e[i as int].1[b]),
                        forall|c: int| 0 <= c < k ==> tile_named(#[trigger] e[i as int].1[j as int].1[c]) is Some,
                        forall|f: Tile, d: Direction, t: Tile| #[trigger] reg.allows(f, d, t) == pair_before(e, i as int, j as int, k as int, f, d, t),
                    decreases allowed.len() - k,
                {
                    let to_name = &allowed[k];
                    proof {
                        assert(e[i as int].1[j as int].1[k as int] == to_name@);
                    }
                    let to = match lookup_tile(to_name.as_str()) {
                        Some(t) => t,
                        None => {
                            proof {
                                assert(!dir_rules_known(e[i as int].1[j as int]));
                                assert(!entry_known(e[i as int]));
                                assert(0 <= i < e.len() && 0 <= j < e[i as int].1.len() && 0 <= k < e[i as int].1[j as int].1.len()
                                    && known_before_name(e, i as int, j as int, k as int)
                                    && e[i as int].1[j as int].1[k as int] == to_name@);
                            }
                            return Err(RuleError::UnknownTile(to_name.clone()));
                        },
                    };
                    let back = dir.opposite();
                    reg.insert_rule(tile, dir, to);
                    reg.insert_rule(to, back, tile);
                    proof {
                        assert forall|f: Tile, d: Direction, t: Tile| #[trigger] reg.allows(f, d, t) == pair_before(e, i as int, j as int, k + 1, f, d, t) by {
                            lemma_listed_step(e, i as int, j as int, k as int, tile, dir, to, f, d, t);
                            lemma_listed_step(e, i as int, j as int, k as int, tile, dir, to, t, opposite_of(d), f);
                            law_opposite_involution(d);
                            law_opposite_involution(dir);
                        }
                    }
                    k = k + 1;
                }
                proof {
                    assert(dir_rules_known(e[i as int].1[j as int]));
                    assert forall|f: Tile, d: Direction, t: Tile| #[trigger] reg.allows(f, d, t) == pair_before(e, i as int, j + 1, 0, f, d, t) by {
                        lemma_listed_next_dir(e, i as int, j as int, f, d, t);
                        lemma_listed_next_dir(e, i as int, j as int, t, opposite_of(d), f);
                    }
                }
                j = j + 1;
            }
            proof {
                assert(entry_known(e[i as int]));
                assert forall|f: Tile, d: Direction, t: Tile| #[trigger] reg.allows(f, d, t) == pair_before(e, i + 1, 0, 0, f, d, t) by {
                    lemma_listed_next_entry(e, i as int, f, d, t);
                    lemma_listed_next_entry(e, i as int, t, opposite_of(d), f);
                }
            }
            i = i + 1;
        }
        reg.add_land_rules();
        proof {
            assert forall|f: Tile, d: Direction, t: Tile| #[trigger] reg.allows(f, d, t) == rule_allows(e, f, d, t) by {
                lemma_listed_all(e, f, d, t);
                lemma_listed_all(e, t, opposite_of(d), f);
            }
        }
        Ok(reg)
    }

    /// Builds the registry from the text of the rules, a JSON object that maps
    /// tile names to objects that map direction names to lists of tile names.
    pub fn new(rules_json: &str) -> (r: Result<RuleRegistry, RuleError>)
        ensures
            parsed_rules(rules_json@) is None ==> r matches Err(RuleError::Json),
            parsed_rules(rules_json@) matches Some(e) ==> built_from(r, e),
    {
        match parse_rules_json(rules_json) {
            None => Err(RuleError::Json),
            Some(entries) => RuleRegistry::from_entries(&entries),
        }
    }
}

/// A rule holds both ways: `t` may lie in direction `d` of `f` exactly when `f`
/// may lie in the opposite direction of `t`.
pub proof fn law_rules_symmetric(e: RuleEntries, f: Tile, d: Direction, t: Tile)
    ensures
        rule_allows(e, f, d, t) == rule_allows(e, t, opposite_of(d), f),
{
    law_opposite_involution(d);
}

/// Land tiles may always touch each other, whatever the rules text says.
pub proof fn law_land_touches_land(e: RuleEntries, f: Tile, d: Direction, t: Tile)
    requires
        is_land(f),
        is_land(t),
    ensures
        rule_allows(e, f, d, t),
{
}

} // verus!
