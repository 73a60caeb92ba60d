use game::environment::water::WaterVariant;
use game::environment::wfc_rules::{str_to_dir, str_to_tile, RuleError, RuleRegistry};
use game::environment::{Direction, Tile};

const SAMPLE: &str = r#"{
    "Grass": {"North": ["Grass", "Top"], "East": ["Grass"]},
    "Center": {"South": ["Center", "Bottom"]}
}"#;

fn allows(reg: &RuleRegistry, from: Tile, dir: Direction, to: Tile) -> bool {
    reg.allowed(from, dir).contains(&to)
}

#[test]
fn names() {
    assert_eq!(str_to_tile("Grass"), Tile::Grass);
    assert_eq!(str_to_tile("Empty"), Tile::Grass);
    assert_eq!(str_to_tile("BerryBush"), Tile::BerryBush);
    assert_eq!(str_to_tile("InverseCornerTR"), Tile::Water(WaterVariant::InverseCornerTR));
    assert_eq!(str_to_tile("InverseCornerBR"), Tile::Water(WaterVariant::InverseCornerBR));
    assert_eq!(str_to_dir("West"), Direction::West);
    assert_eq!(str_to_dir("North"), Direction::North);
    assert_eq!(
        RuleRegistry::new(r#"{"Lava": {}}"#).err(),
        Some(RuleError::UnknownTile("Lava".to_string()))
    );
    assert_eq!(
        RuleRegistry::new(r#"{"Grass": {"Up": ["Grass"]}}"#).err(),
        Some(RuleError::UnknownDirection("Up".to_string()))
    );
}

#[test]
fn listed_rules_are_allowed() {
    let reg = RuleRegistry::new(SAMPLE).unwrap();
    assert!(allows(&reg, Tile::Grass, Direction::North, Tile::Water(WaterVariant::Top)));
    assert!(allows(&reg, Tile::Water(WaterVariant::Center), Direction::South, Tile::Water(WaterVariant::Bottom)));
    assert!(!allows(&reg, Tile::Grass, Direction::South, Tile::Water(WaterVariant::Top)));
    assert!(!allows(&reg, Tile::Water(WaterVariant::Center), Direction::North, Tile::Water(WaterVariant::Bottom)));
}

#[test]
fn rules_hold_both_ways() {
    let reg = RuleRegistry::new(SAMPLE).unwrap();
    assert!(allows(&reg, Tile::Water(WaterVariant::Top), Direction::South, Tile::Grass));
    assert!(allows(&reg, Tile::Water(WaterVariant::Bottom), Direction::North, Tile::Water(WaterVariant::Center)));
    assert!(allows(&reg, Tile::Water(WaterVariant::Center), Direction::North, Tile::Water(WaterVariant::Center)));
}

#[test]
fn land_touches_land() {
    let reg = RuleRegistry::new("{}").unwrap();
    let land = [Tile::Grass, Tile::Bush, Tile::BerryBush, Tile::TreeTrunk];
    for a in land {
        for d in [Direction::North, Direction::East, Direction::South, Direction::West] {
            for b in land {
                assert!(allows(&reg, a, d, b));
            }
            assert!(!allows(&reg, a, d, Tile::Water(WaterVariant::Center)));
        }
    }
}

#[test]
fn no_rule_is_stored_twice() {
    let reg = RuleRegistry::new(SAMPLE).unwrap();
    let list = reg.allowed(Tile::Grass, Direction::North);
    let grass = list.iter().filter(|t| **t == Tile::Grass).count();
    assert_eq!(grass, 1);
    assert_eq!(list.len(), 5);
}

#[test]
fn unknown_tile_is_reported() {
    let r = RuleRegistry::new(r#"{"Lava": {"North": ["Grass"]}}"#);
    assert_eq!(r.err(), Some(RuleError::UnknownTile("Lava".to_string())));
    let r = RuleRegistry::new(r#"{"Grass": {"North": ["Sand"]}}"#);
    assert_eq!(r.err(), Some(RuleError::UnknownTile("Sand".to_string())));
}

#[test]
fn unknown_direction_is_reported() {
    let r = RuleRegistry::new(r#"{"Grass": {"Up": ["Grass"]}}"#);
    assert_eq!(r.err(), Some(RuleError::UnknownDirection("Up".to_string())));
}

#[test]
fn malformed_text_is_reported() {
    assert_eq!(RuleRegistry::new("not json").err(), Some(RuleError::Json));
    assert_eq!(RuleRegistry::new("[1, 2]").err(), Some(RuleError::Json));
    assert_eq!(RuleRegistry::new(r#"{"Grass": {"North": "Grass"}}"#).err(), Some(RuleError::Json));
}

#[test]
fn from_entries_builds_the_same_rules() {
    let entries = vec![(
        "Bush".to_string(),
        vec![("East".to_string(), vec!["Left".to_string()])],
    )];
    let reg = RuleRegistry::from_entries(&entries).unwrap();
    assert!(allows(&reg, Tile::Bush, Direction::East, Tile::Water(WaterVariant::Left)));
    assert!(allows(&reg, Tile::Water(WaterVariant::Left), Direction::West, Tile::Bush));
    assert!(!allows(&reg, Tile::Water(WaterVariant::Left), Direction::East, Tile::Bush));
}

#[test]
fn stored_lists_are_non_empty_and_only_for_land_without_rules() {
    let reg = RuleRegistry::new("{}").unwrap();
    assert_eq!(reg.matrix.len(), 16);
    for list in reg.matrix.values() {
        assert_eq!(list.len(), 4);
    }
    assert!(reg.allowed(Tile::Water(WaterVariant::Center), Direction::North).is_empty());
}
