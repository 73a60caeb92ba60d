use game::environment::water::WaterVariant;
use game::environment::wfc_rules::{RuleError, RuleRegistry};
use game::environment::Tile;
use game::world_gen::{
    collapse_step, collapse_with_weights, generate_wfc_grid, lowest_entropy_cells, pick_weighted,
    run_wave_function_collapse, Cell, WorldGenError,
};

const NAMES: [&str; 14] = [
    "Grass", "Center", "TopLeft", "Top", "TopRight", "Right", "BottomRight", "Bottom", "BottomLeft", "Left",
    "InverseCornerTR", "InverseCornerTL", "InverseCornerBL", "InverseCornerBR",
];

fn open_rules() -> String {
    let list = NAMES.iter().map(|n| format!("\"{}\"", n)).collect::<Vec<_>>().join(",");
    let dirs = ["North", "East", "South", "West"]
        .iter()
        .map(|d| format!("\"{}\": [{}]", d, list))
        .collect::<Vec<_>>()
        .join(",");
    let body = NAMES.iter().map(|n| format!("\"{}\": {{{}}}", n, dirs)).collect::<Vec<_>>().join(",");
    format!("{{{}}}", body)
}

fn is_wfc_tile(t: Tile) -> bool {
    matches!(t, Tile::Grass | Tile::Water(_))
}

#[test]
fn entropy_counts_possibilities() {
    let c = Cell { x: 1, y: 2, possibilities: vec![Tile::Grass, Tile::Water(WaterVariant::Top)] };
    assert_eq!(c.entropy(), 2);
}

#[test]
fn weighted_pick_walks_the_weights() {
    let tiles = vec![Tile::Grass, Tile::Water(WaterVariant::Center), Tile::Water(WaterVariant::Top)];
    assert_eq!(pick_weighted(&tiles, 0), Tile::Grass);
    assert_eq!(pick_weighted(&tiles, 49), Tile::Grass);
    assert_eq!(pick_weighted(&tiles, 50), Tile::Water(WaterVariant::Center));
    assert_eq!(pick_weighted(&tiles, 89), Tile::Water(WaterVariant::Center));
    assert_eq!(pick_weighted(&tiles, 90), Tile::Water(WaterVariant::Top));
    assert_eq!(pick_weighted(&tiles, 99), Tile::Water(WaterVariant::Top));
    assert_eq!(pick_weighted(&tiles, 100), Tile::Grass);
    assert_eq!(pick_weighted(&vec![], 3), Tile::Grass);
}

#[test]
fn collapse_picks_from_the_list() {
    let tiles = vec![Tile::Water(WaterVariant::Top), Tile::Grass];
    let mut saw_grass = false;
    let mut saw_water = false;
    for _ in 0..300 {
        match collapse_with_weights(&tiles) {
            Tile::Grass => saw_grass = true,
            Tile::Water(WaterVariant::Top) => saw_water = true,
            other => panic!("picked {:?}", other),
        }
    }
    assert!(saw_grass && saw_water);
    assert_eq!(collapse_with_weights(&vec![]), Tile::Grass);
}

#[test]
fn world_generation_with_open_rules() {
    let grid = generate_wfc_grid(&open_rules()).unwrap();
    assert_eq!(grid[20][20], Tile::Grass);
    for col in grid.iter() {
        for t in col.iter() {
            assert!(is_wfc_tile(*t));
        }
    }
}

#[test]
fn world_generation_without_water_rules() {
    let reg = RuleRegistry::new("{}").unwrap();
    let mut deadlocks = 0;
    for _ in 0..40 {
        match run_wave_function_collapse(&reg) {
            Ok(grid) => {
                for col in grid.iter() {
                    for t in col.iter() {
                        assert_eq!(*t, Tile::Grass);
                    }
                }
            }
            Err(WorldGenError::Deadlock { x, y }) => {
                assert!(x < 41 && y < 41);
                deadlocks += 1;
            }
            Err(e) => panic!("unexpected {:?}", e),
        }
    }
    assert!(deadlocks > 0);
}

#[test]
fn world_generation_reports_bad_rules() {
    assert_eq!(generate_wfc_grid("nope").err(), Some(WorldGenError::Rules(RuleError::Json)));
    assert_eq!(
        generate_wfc_grid(r#"{"Mud": {}}"#).err(),
        Some(WorldGenError::Rules(RuleError::UnknownTile("Mud".to_string())))
    );
}

fn settled_world() -> Vec<Cell> {
    let mut cells = Vec::new();
    for x in 0..41 {
        for y in 0..41 {
            cells.push(Cell { x, y, possibilities: vec![Tile::Grass] });
        }
    }
    cells
}

#[test]
fn lowest_entropy_cells_in_row_major_order() {
    let mut cells = settled_world();
    assert!(lowest_entropy_cells(&cells).is_empty());
    cells[3 * 41 + 4].possibilities = vec![Tile::Grass, Tile::Water(WaterVariant::Top), Tile::Water(WaterVariant::Left)];
    cells[5 * 41 + 6].possibilities = vec![Tile::Grass, Tile::Water(WaterVariant::Top)];
    cells[1].possibilities = vec![Tile::Water(WaterVariant::Center), Tile::Grass];
    assert_eq!(lowest_entropy_cells(&cells), vec![(0, 1), (5, 6)]);
}

#[test]
fn collapse_step_picks_and_spreads() {
    let reg = RuleRegistry::new("{}").unwrap();
    let mut cells = settled_world();
    cells[1].possibilities = vec![Tile::Grass, Tile::Water(WaterVariant::Center)];
    cells[2].possibilities = vec![Tile::Grass, Tile::Water(WaterVariant::Center)];
    assert_eq!(collapse_step(&mut cells, &reg, 0, 0), Ok(()));
    assert_eq!(cells[1].possibilities, vec![Tile::Grass]);
    assert_eq!(cells[2].possibilities, vec![Tile::Grass]);
    assert!(lowest_entropy_cells(&cells).is_empty());
}

#[test]
fn collapse_step_weighted_roll() {
    let reg = RuleRegistry::new(&open_rules()).unwrap();
    let mut cells = settled_world();
    cells[1].possibilities = vec![Tile::Grass, Tile::Water(WaterVariant::Center)];
    cells[5 * 41 + 6].possibilities = vec![Tile::Water(WaterVariant::Top), Tile::Grass];
    assert_eq!(collapse_step(&mut cells, &reg, 1, 0), Ok(()));
    assert_eq!(cells[5 * 41 + 6].possibilities, vec![Tile::Water(WaterVariant::Top)]);
    assert_eq!(cells[1].possibilities.len(), 2);
    assert_eq!(collapse_step(&mut cells, &reg, 0, 55), Ok(()));
    assert_eq!(cells[1].possibilities, vec![Tile::Water(WaterVariant::Center)]);
}

#[test]
fn collapse_step_reports_deadlock() {
    let reg = RuleRegistry::new("{}").unwrap();
    let mut cells = settled_world();
    cells[1].possibilities = vec![Tile::Grass, Tile::Water(WaterVariant::Center)];
    cells[2].possibilities = vec![Tile::Water(WaterVariant::Center), Tile::Water(WaterVariant::Top)];
    assert_eq!(collapse_step(&mut cells, &reg, 0, 0), Err(WorldGenError::Deadlock { x: 0, y: 2 }));
}
