use game::environment::water::WaterVariant;
use game::environment::Tile;
use game::inventory::{Inventory, Item};
use game::player::{act_on_faced_tile, catch_fish, reel_in, steer, ActionInput, Direction, FrameActions, MoveKeys};
use game::WORLD_SIZE;

fn input(use_pressed: bool, space: bool, attack_pressed: bool) -> ActionInput {
    ActionInput { use_pressed, space, attack_pressed }
}

const NOTHING: FrameActions = FrameActions { drank: false, thirst_maxed: false, cast_line: false };

#[test]
fn steering() {
    let none = MoveKeys { right: false, left: false, down: false, up: false };
    let s = steer(true, none, Direction::Left);
    assert_eq!((s.dir, s.dx, s.dy), (Direction::Left, 0, 0));
    let s = steer(true, MoveKeys { right: true, left: false, down: true, up: false }, Direction::Up);
    assert_eq!((s.dir, s.dx, s.dy), (Direction::Down, 1, 1));
    let s = steer(true, MoveKeys { right: true, left: true, down: false, up: true }, Direction::Down);
    assert_eq!((s.dir, s.dx, s.dy), (Direction::Up, 0, -1));
    let s = steer(false, MoveKeys { right: true, left: false, down: false, up: false }, Direction::Down);
    assert_eq!((s.dir, s.dx, s.dy), (Direction::Down, 0, 0));
}

#[test]
fn using_and_attacking_a_berry_bush() {
    let mut grid = [[Tile::Grass; WORLD_SIZE]; WORLD_SIZE];
    grid[3][4] = Tile::BerryBush;
    let mut inv = Inventory::new();
    let r = act_on_faced_tile(&mut grid, 3, 4, &mut inv, input(true, false, false));
    assert_eq!(r, NOTHING);
    assert_eq!(grid[3][4], Tile::Bush);
    assert_eq!(inv.slots, vec![(Item::Berry, 1)]);
    let r = act_on_faced_tile(&mut grid, 3, 4, &mut inv, input(false, false, true));
    assert_eq!(r, NOTHING);
    assert_eq!(grid[3][4], Tile::Grass);
    assert_eq!(inv.slots, vec![(Item::Berry, 1), (Item::Twig, 1)]);
}

#[test]
fn using_then_attacking_in_one_frame() {
    let mut grid = [[Tile::Grass; WORLD_SIZE]; WORLD_SIZE];
    grid[0][0] = Tile::BerryBush;
    let mut inv = Inventory::new();
    act_on_faced_tile(&mut grid, 0, 0, &mut inv, input(false, true, true));
    assert_eq!(grid[0][0], Tile::Grass);
    assert_eq!(inv.slots, vec![(Item::Berry, 1), (Item::Twig, 1)]);
}

#[test]
fn water_actions() {
    let mut grid = [[Tile::Grass; WORLD_SIZE]; WORLD_SIZE];
    grid[5][5] = Tile::Water(WaterVariant::Center);
    let mut inv = Inventory::new();
    let r = act_on_faced_tile(&mut grid, 5, 5, &mut inv, input(false, true, false));
    assert_eq!(r, FrameActions { drank: true, thirst_maxed: false, cast_line: false });
    let r = act_on_faced_tile(&mut grid, 5, 5, &mut inv, input(true, false, false));
    assert_eq!(r, FrameActions { drank: false, thirst_maxed: true, cast_line: false });
    let r = act_on_faced_tile(&mut grid, 5, 5, &mut inv, input(false, false, true));
    assert_eq!(r, NOTHING);
    inv.equipped = Some(Item::FishingRod);
    let r = act_on_faced_tile(&mut grid, 5, 5, &mut inv, input(false, false, true));
    assert_eq!(r, FrameActions { drank: false, thirst_maxed: false, cast_line: true });
    assert_eq!(grid[5][5], Tile::Water(WaterVariant::Center));
    assert!(inv.slots.is_empty());
}

#[test]
fn faced_tile_outside_the_world() {
    let mut grid = [[Tile::Bush; WORLD_SIZE]; WORLD_SIZE];
    let mut inv = Inventory::new();
    let r = act_on_faced_tile(&mut grid, WORLD_SIZE, 0, &mut inv, input(true, true, true));
    assert_eq!(r, NOTHING);
    assert!(inv.slots.is_empty());
}

#[test]
fn full_inventory_keeps_the_item_out() {
    let mut grid = [[Tile::BerryBush; WORLD_SIZE]; WORLD_SIZE];
    let mut inv = Inventory::new();
    inv.slots = vec![(Item::Fish, 10)];
    act_on_faced_tile(&mut grid, 1, 1, &mut inv, input(true, false, false));
    assert_eq!(grid[1][1], Tile::Bush);
    assert_eq!(inv.slots, vec![(Item::Fish, 10)]);
}

#[test]
fn catching_fish() {
    let mut inv = Inventory::new();
    assert!(catch_fish(&mut inv, 59));
    assert_eq!(inv.slots, vec![(Item::Fish, 1)]);
    assert!(!catch_fish(&mut inv, 60));
    assert_eq!(inv.slots, vec![(Item::Fish, 1)]);
    let mut caught = 0;
    for _ in 0..200 {
        let mut inv = Inventory::new();
        if reel_in(&mut inv) {
            assert_eq!(inv.slots, vec![(Item::Fish, 1)]);
            caught += 1;
        } else {
            assert!(inv.slots.is_empty());
        }
    }
    assert!(caught > 0 && caught < 200);
}
