use game::grid_world::bush::interact_with_bush;
use game::grid_world::{
    generate_grid, place_bushes, place_trees, pond_step, use_faced_tile, GridActions, Tile, GRID_SIZE,
};
use game::inventory::{Inventory, Item};

#[test]
fn bush_interaction() {
    let mut t = Tile::BerryBush;
    assert_eq!(interact_with_bush(&mut t), Some(Item::Berry));
    assert_eq!(t, Tile::Bush);
    assert_eq!(interact_with_bush(&mut t), Some(Item::Twig));
    assert_eq!(t, Tile::Empty);
    let mut w = Tile::Water;
    assert_eq!(interact_with_bush(&mut w), None);
    assert_eq!(w, Tile::Water);
}

#[test]
fn tile_interaction() {
    let mut t = Tile::BerryBush;
    assert_eq!(t.interact(), Some(Item::Berry));
    assert_eq!(t, Tile::Bush);
    let mut t = Tile::TreeTrunk;
    assert_eq!(t.interact(), None);
    assert_eq!(t, Tile::TreeTrunk);
}

#[test]
fn generated_grid_has_a_safe_zone() {
    for _ in 0..20 {
        let grid = generate_grid();
        for x in 0..GRID_SIZE {
            for y in 0..GRID_SIZE {
                if (9..12).contains(&x) && (9..12).contains(&y) {
                    assert_eq!(grid[x][y], Tile::Empty);
                }
                assert_ne!(grid[x][y], Tile::Bush);
                if grid[x][y] == Tile::TreeTrunk {
                    assert!((2..18).contains(&x) && (2..18).contains(&y));
                }
            }
        }
        assert!(grid.iter().flatten().any(|t| *t == Tile::Water));
    }
}

#[test]
fn acting_on_the_grid() {
    let mut grid = [[Tile::Empty; GRID_SIZE]; GRID_SIZE];
    grid[2][3] = Tile::BerryBush;
    grid[4][4] = Tile::Water;
    let mut inv = Inventory::new();
    let r = use_faced_tile(&mut grid, 2, 3, &mut inv, true, false, false);
    assert_eq!(r, GridActions { drank: false, cast_line: false });
    assert_eq!(grid[2][3], Tile::Bush);
    assert_eq!(inv.slots, vec![(Item::Berry, 1)]);
    let r = use_faced_tile(&mut grid, 4, 4, &mut inv, false, true, false);
    assert_eq!(r, GridActions { drank: true, cast_line: false });
    let r = use_faced_tile(&mut grid, 4, 4, &mut inv, false, false, true);
    assert_eq!(r, GridActions { drank: false, cast_line: false });
    inv.equipped = Some(Item::FishingRod);
    let r = use_faced_tile(&mut grid, 4, 4, &mut inv, false, false, true);
    assert_eq!(r, GridActions { drank: false, cast_line: true });
    let r = use_faced_tile(&mut grid, 20, 4, &mut inv, true, true, true);
    assert_eq!(r, GridActions { drank: false, cast_line: false });
}

#[test]
fn pond_grows_one_step() {
    let mut grid = [[Tile::Empty; GRID_SIZE]; GRID_SIZE];
    grid[5][5] = Tile::Water;
    let mut water = vec![(5, 5)];
    pond_step(&mut grid, &mut water, 0, 0);
    assert_eq!(grid[5][6], Tile::Water);
    assert_eq!(water, vec![(5, 5), (5, 6)]);
    pond_step(&mut grid, &mut water, 1, 1);
    assert_eq!(water, vec![(5, 5), (5, 6)]);
    pond_step(&mut grid, &mut water, 0, 2);
    assert_eq!(grid[6][5], Tile::Water);
    pond_step(&mut grid, &mut water, 0, 3);
    assert_eq!(grid[4][5], Tile::Water);
    assert_eq!(water, vec![(5, 5), (5, 6), (6, 5), (4, 5)]);
    let mut edge = [[Tile::Empty; GRID_SIZE]; GRID_SIZE];
    edge[0][0] = Tile::Water;
    let mut w = vec![(0, 0)];
    pond_step(&mut edge, &mut w, 0, 1);
    pond_step(&mut edge, &mut w, 0, 3);
    assert_eq!(w, vec![(0, 0)]);
    assert_eq!(edge.iter().flatten().filter(|t| **t == Tile::Water).count(), 1);
}

#[test]
fn trees_only_on_open_ground() {
    let mut grid = [[Tile::Empty; GRID_SIZE]; GRID_SIZE];
    grid[4][4] = Tile::Water;
    place_trees(&mut grid, &vec![(3, 3), (3, 3), (4, 4)]);
    assert_eq!(grid[3][3], Tile::TreeTrunk);
    assert_eq!(grid[4][4], Tile::Water);
    assert_eq!(grid.iter().flatten().filter(|t| **t == Tile::TreeTrunk).count(), 1);
}

#[test]
fn bushes_on_low_rolls() {
    let mut grid = [[Tile::Empty; GRID_SIZE]; GRID_SIZE];
    grid[2][2] = Tile::Water;
    let mut rolls = [[50usize; GRID_SIZE]; GRID_SIZE];
    rolls[1][1] = 19;
    rolls[2][2] = 5;
    rolls[3][3] = 20;
    place_bushes(&mut grid, &rolls);
    assert_eq!(grid[1][1], Tile::BerryBush);
    assert_eq!(grid[2][2], Tile::Water);
    assert_eq!(grid[3][3], Tile::Empty);
    assert_eq!(grid.iter().flatten().filter(|t| **t == Tile::BerryBush).count(), 1);
}
