//! The decisions the player's frame update makes: where the movement keys
//! steer, what using or attacking the faced tile does, and whether a finished
//! cast catches a fish. Positions, timers and the survival stats are kept by
//! the caller.
use vstd::prelude::*;
use crate::WORLD_SIZE;
use crate::environment::{Tile, attack_result, interact_result};
use crate::inventory::{Inventory, Item, item_weight, slots_after_try_add, total_weight};
use crate::rng::random_range;

verus! {

/// The way the player faces.
#[derive(Clone, Copy, PartialEq, Eq, Structural, Debug)]
pub enum Direction {
    Down,
    Left,
    Up,
    Right,
}

/// The movement keys held this frame (D, A, S and W).
#[derive(Clone, Copy, PartialEq, Eq, Structural, Debug)]
pub struct MoveKeys {
    pub right: bool,
    pub left: bool,
    pub down: bool,
    pub up: bool,
}

/// Where the player heads this frame: the way it faces and the step along each
/// axis, in units of the frame's speed.
#[derive(Clone, Copy, PartialEq, Eq, Structural, Debug)]
pub struct Steering {
    pub dir: Direction,
    pub dx: i32,
    pub dy: i32,
}

pub open spec fn key_step(plus: bool, minus: bool) -> int {
    (if plus { 1int } else { 0int }) - (if minus { 1int } else { 0int })
}

/// The way the player faces after the keys: the last of right, left, down, up
/// that is held wins.
pub open spec fn steered_dir(keys: MoveKeys, dir: Direction) -> Direction {
    if keys.up {
        Direction::Up
    } else if keys.down {
        Direction::Down
    } else if keys.left {
        Direction::Left
    } else if keys.right {
        Direction::Right
    } else {
        dir
    }
}

/// With energy, the player faces the way it steps: a step up or down faces up
/// or down, and with no vertical key held a step left or right faces left or
/// right. The way faced only changes to the way of a key that is held, and
/// with no key held it stays.
pub proof fn law_faces_the_way_it_moves(keys: MoveKeys, dir: Direction)
    ensures
        key_step(keys.down, keys.up) < 0 ==> steered_dir(keys, dir) == Direction::Up,
        key_step(keys.down, keys.up) > 0 ==> steered_dir(keys, dir) == Direction::Down,
        !keys.up && !keys.down && key_step(keys.right, keys.left) < 0 ==> steered_dir(keys, dir) == Direction::Left,
        !keys.up && !keys.down && key_step(keys.right, keys.left) > 0 ==> steered_dir(keys, dir) == Direction::Right,
        steered_dir(keys, dir) == Direction::Up && dir != Direction::Up ==> keys.up,
        steered_dir(keys, dir) == Direction::Down && dir != Direction::Down ==> keys.down,
        steered_dir(keys, dir) == Direction::Left && dir != Direction::Left ==> keys.left,
        steered_dir(keys, dir) == Direction::Right && dir != Direction::Right ==> keys.right,
        !keys.up && !keys.down && !keys.left && !keys.right ==> steered_dir(keys, dir) == dir,
{
}

/// Reads the movement keys; a player out of energy does not move or turn.
pub fn steer(has_energy: bool, keys: MoveKeys, dir: Direction) -> (s: Steering)
    ensures
        !has_energy ==> s == (Steering { dir, dx: 0, dy: 0 }),
        has_energy ==> s.dir == steered_dir(keys, dir) && s.dx == key_step(keys.right, keys.left)
            && s.dy == key_step(keys.down, keys.up),
{
    let mut dx: i32 = 0;
    let mut dy: i32 = 0;
    let mut dir = dir;
    if has_energy {
        if keys.right {
            dx += 1;
            dir = Direction::Right;
        }
        if keys.left {
            dx -= 1;
            dir = Direction::Left;
        }
        if keys.down {
            dy += 1;
            dir = Direction::Down;
        }
        if keys.up {
            dy -= 1;
            dir = Direction::Up;
        }
    }
    Steering { dir, dx, dy }
}

/// The clicks and keys of this frame that act on the faced tile.
#[derive(Clone, Copy, PartialEq, Eq, Structural, Debug)]
pub struct ActionInput {
    /// Right mouse button pressed.
    pub use_pressed: bool,
    /// Space pressed.
    pub space: bool,
    /// Left mouse button pressed.
    pub attack_pressed: bool,
}

/// What acting on the faced tile did to the player.
#[derive(Clone, Copy, PartialEq, Eq, Structural, Debug)]
pub struct FrameActions {
    /// The player drank from the water: thirst goes down.
    pub drank: bool,
    /// Interacting with water set the player's thirst to its maximum.
    pub thirst_maxed: bool,
    /// The player cast the fishing line.
    pub cast_line: bool,
}

/// Using the faced tile (right click or space): drinking when it is water and
/// space is pressed, else interacting with it. Gives the tile afterwards, the
/// item gained, and whether the player drank or had thirst maxed.
pub open spec fn use_step(t: Tile, input: ActionInput) -> (Tile, Option<Item>, bool, bool) {
    if input.use_pressed || input.space {
        if t is Water && input.space {
            (t, None, true, false)
        } else {
            let r = interact_result(t);
            (r.0, r.1.item, false, r.1.thirst_maxed)
        }
    } else {
        (t, None, false, false)
    }
}

/// Attacking the faced tile (left click): casting the line when it is water and
/// the rod is equipped, else attacking it. Gives the tile afterwards, the item
/// gained, and whether the line was cast.
pub open spec fn attack_step(t: Tile, equipped: Option<Item>, input: ActionInput) -> (Tile, Option<Item>, bool) {
    if input.attack_pressed {
        if t is Water && equipped == Some(Item::FishingRod) {
            (t, None, true)
        } else {
            let r = attack_result(t);
            (r.0, r.1, false)
        }
    } else {
        (t, None, false)
    }
}

/// Attacking only casts the fishing line at water with the rod equipped; any
/// other tile attacked is attacked whatever is equipped: a bush or a berry bush
/// is cut to grass for a twig, and other tiles stay as they are and give
/// nothing.
pub proof fn law_attack_casts_only_at_water(t: Tile, equipped: Option<Item>, input: ActionInput)
    ensures
        attack_step(t, equipped, input).2 ==> input.attack_pressed && t is Water && equipped == Some(Item::FishingRod),
        input.attack_pressed && (t == Tile::Bush || t == Tile::BerryBush) ==> attack_step(t, equipped, input)
            == (Tile::Grass, Some(Item::Twig), false),
        input.attack_pressed && !(t is Water) && t != Tile::Bush && t != Tile::BerryBush ==> attack_step(t, equipped, input)
            == (t, None::<Item>, false),
        !input.attack_pressed ==> attack_step(t, equipped, input) == (t, None::<Item>, false),
{
}

/// Using a tile only drinks at water with space pressed; picking a berry bush
/// leaves a bush and gives a berry, and using water otherwise maxes thirst;
/// nothing else is gained by using.
pub proof fn law_use_drinks_only_at_water(t: Tile, input: ActionInput)
    ensures
        use_step(t, input).2 ==> input.space && t is Water,
        use_step(t, input).3 ==> t is Water && !input.space && input.use_pressed,
        (input.use_pressed || input.space) && t == Tile::BerryBush ==> use_step(t, input) == (Tile::Bush, Some(Item::Berry), false, false),
        use_step(t, input).1 is Some ==> t == Tile::BerryBush && use_step(t, input).1 == Some(Item::Berry),
        !(t is Water) && t != Tile::BerryBush ==> use_step(t, input) == (t, None::<Item>, false, false),
{
}

/// The slots after an attempt to store an item that may not be there.
pub open spec fn slots_after_gain(slots: Seq<(Item, u32)>, gained: Option<Item>, cap: u32) -> Seq<(Item, u32)> {
    match gained {
        Some(item) => slots_after_try_add(slots, item, cap),
        None => slots,
    }
}

/// Acts on the tile the player faces, if it lies inside the world: first using
/// it, then attacking what the use left. Items gained go to the inventory when
/// they fit.
pub fn act_on_faced_tile(
    grid: &mut [[Tile; WORLD_SIZE]; WORLD_SIZE],
    face_x: usize,
    face_y: usize,
    inventory: &mut Inventory,
    input: ActionInput,
) -> (r: FrameActions)
    requires
        face_x < WORLD_SIZE && face_y < WORLD_SIZE ==> ({
            let u = use_step(old(grid)[face_x as int][face_y as int], input);
            let a = attack_step(u.0, old(inventory).equipped, input);
            &&& u.1 matches Some(item) ==> old(inventory).total() + item_weight(item) <= u32::MAX
            &&& a.1 matches Some(item) ==> total_weight(slots_after_gain(old(inventory).slots@, u.1, old(inventory).max_capacity))
                + item_weight(item) <= u32::MAX
        }),
    ensures
        !(face_x < WORLD_SIZE && face_y < WORLD_SIZE) ==> *final(grid) == *old(grid) && *final(inventory) == *old(inventory)
            && r == (FrameActions { drank: false, thirst_maxed: false, cast_line: false }),
        face_x < WORLD_SIZE && face_y < WORLD_SIZE ==> ({
            let u = use_step(old(grid)[face_x as int][face_y as int], input);
            let a = attack_step(u.0, old(inventory).equipped, input);
            let s1 = slots_after_gain(old(inventory).slots@, u.1, old(inventory).max_capacity);
            &&& forall|x: int, y: int| 0 <= x < WORLD_SIZE && 0 <= y < WORLD_SIZE ==> #[trigger] final(grid)[x][y] == if x
                == face_x && y == face_y {
                a.0
            } else {
                old(grid)[x][y]
            }
            &&& final(inventory).slots@ == slots_after_gain(s1, a.1, old(inventory).max_capacity)
            &&& r == (FrameActions { drank: u.2, thirst_maxed: u.3, cast_line: a.2 })
        }),
        final(inventory).max_capacity == old(inventory).max_capacity,
        final(inventory).equipped == old(inventory).equipped,
        old(inventory).wf() ==> final(inventory).wf(),
{
    let mut r = FrameActions { drank: false, thirst_maxed: false, cast_line: false };
    if !(face_x < WORLD_SIZE && face_y < WORLD_SIZE) {
        return r;
    }
    let ghost g0 = *grid;
    if input.use_pressed || input.space {
        let faced = grid[face_x][face_y];
        if matches!(faced, Tile::Water(_)) && input.space {
            r.drank = true;
        } else {
            let mut t = faced;
            let out = t.interact();
            grid[face_x][face_y] = t;
            r.thirst_maxed = out.thirst_maxed;
            if let Some(item) = out.item {
                proof {
                    assert(item == Item::Berry);
                }
                inventory.try_add_item(item);
            }
        }
    }
    let ghost g1 = *grid;
    let ghost inv1 = *inventory;
    if input.attack_pressed {
        let faced = grid[face_x][face_y];
        if matches!(faced, Tile::Water(_)) && inventory.equipped == Some(Item::FishingRod) {
            r.cast_line = true;
        } else {
            let mut t = faced;
            let item = t.attack();
            grid[face_x][face_y] = t;
            if let Some(item) = item {
                proof {
                    assert(item == Item::Twig);
                }
                inventory.try_add_item(item);
            }
        }
    }
    proof {
        assert forall|x: int, y: int| 0 <= x < WORLD_SIZE && 0 <= y < WORLD_SIZE implies #[trigger] grid[x][y] == if x
            == face_x && y == face_y {
            attack_step(use_step(g0[face_x as int][face_y as int], input).0, old(inventory).equipped, input).0
        } else {
            g0[x][y]
        } by {
            if !(x == face_x && y == face_y) {
                assert(g1[x][y] == g0[x][y]);
            }
        }
    }
    r
}

/// Whether a cast catches a fish: it does for a roll below 60 out of 100, and
/// the fish goes to the inventory when it fits.
pub fn catch_fish(inventory: &mut Inventory, roll: usize) -> (caught: bool)
    requires
        roll < 60 ==> old(inventory).total() + 3 <= u32::MAX,
    ensures
        caught == (roll < 60),
        caught ==> final(inventory).slots@ == slots_after_try_add(old(inventory).slots@, Item::Fish, old(inventory).max_capacity),
        !caught ==> final(inventory).slots@ == old(inventory).slots@,
        final(inventory).max_capacity == old(inventory).max_capacity,
        final(inventory).equipped == old(inventory).equipped,
        old(inventory).wf() ==> final(inventory).wf(),
{
    if roll < 60 {
        inventory.try_add_item(Item::Fish);
        true
    } else {
        false
    }
}

/// Ends a cast whose time is up: rolls a number below 100 and catches a fish
/// on a roll below 60.
pub fn reel_in(inventory: &mut Inventory) -> (caught: bool)
    requires
        old(inventory).total() + 3 <= u32::MAX,
    ensures
        caught ==> final(inventory).slots@ == slots_after_try_add(old(inventory).slots@, Item::Fish, old(inventory).max_capacity),
        !caught ==> final(inventory).slots@ == old(inventory).slots@,
        final(inventory).max_capacity == old(inventory).max_capacity,
        final(inventory).equipped == old(inventory).equipped,
        old(inventory).wf() ==> final(inventory).wf(),
{
    let roll = random_range(0, 100);
    catch_fish(inventory, roll)
}

} // verus!
