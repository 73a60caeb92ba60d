use game::environment::Tile;
use game::inventory::{Inventory, Item};
use game::state::{CraftingClick, GameMode, GameState, InventoryClick, ModeKeys, SettingsKeys};
use game::WORLD_SIZE;

fn state_with(slots: Vec<(Item, u32)>, mode: GameMode) -> GameState {
    let mut inventory = Inventory::new();
    inventory.slots = slots;
    GameState {
        mode,
        inventory,
        grid: [[Tile::Grass; WORLD_SIZE]; WORLD_SIZE],
        drain_hunger: true,
        drain_thirst: true,
        drain_sleep: true,
        inv_selection: 0,
        craft_selection: 0,
        settings_selection: 0,
        last_clicked_idx: None,
    }
}

fn keys(escape: bool, e: bool, tab: bool) -> ModeKeys {
    ModeKeys { escape, e, tab }
}

fn slot_click(i: usize, quick: bool) -> InventoryClick {
    InventoryClick { back: false, craft: false, slot: Some(i), quick }
}

#[test]
fn new_game() {
    let rules = r#"{"Grass": {"North": ["Grass"]}}"#;
    match GameState::new(rules) {
        Ok(s) => {
            assert_eq!(s.mode, GameMode::Play);
            assert!(s.inventory.slots.is_empty());
            assert_eq!(s.inventory.max_capacity, 30);
            assert!(s.drain_hunger && s.drain_thirst && s.drain_sleep);
            assert_eq!(s.last_clicked_idx, None);
            assert_eq!(s.grid[20][20], Tile::Grass);
        }
        Err(e) => assert!(matches!(e, game::world_gen::WorldGenError::Deadlock { .. })),
    }
    assert!(GameState::new("{").is_err());
}

#[test]
fn screen_switching() {
    let mut s = state_with(vec![], GameMode::Play);
    assert_eq!(s.update(keys(false, true, false)), GameMode::InventoryMenu);
    assert_eq!(s.update(keys(false, true, false)), GameMode::Play);
    s.settings_selection = 2;
    assert_eq!(s.update(keys(false, false, true)), GameMode::SettingsMenu);
    assert_eq!(s.settings_selection, 0);
    assert_eq!(s.update(keys(false, true, false)), GameMode::SettingsMenu);
    assert_eq!(s.update(keys(false, false, true)), GameMode::Play);
    s.mode = GameMode::CraftingMenu;
    assert_eq!(s.update(keys(false, true, false)), GameMode::InventoryMenu);
    s.mode = GameMode::CraftingMenu;
    assert_eq!(s.update(keys(true, false, false)), GameMode::Play);
    s.mode = GameMode::InventoryMenu;
    assert_eq!(s.update(keys(false, false, true)), GameMode::InventoryMenu);
    assert_eq!(s.update(keys(true, true, true)), GameMode::InventoryMenu);
}

#[test]
fn inventory_menu_buttons() {
    let mut s = state_with(vec![(Item::Berry, 1)], GameMode::InventoryMenu);
    s.craft_selection = 3;
    let r = s.update_inventory_menu(InventoryClick { back: false, craft: true, slot: None, quick: false });
    assert_eq!(r, None);
    assert_eq!(s.mode, GameMode::CraftingMenu);
    assert_eq!(s.craft_selection, 0);
    s.mode = GameMode::InventoryMenu;
    s.update_inventory_menu(InventoryClick { back: true, craft: true, slot: Some(0), quick: true });
    assert_eq!(s.mode, GameMode::Play);
    assert_eq!(s.last_clicked_idx, None);
}

#[test]
fn double_click_eats_food() {
    let mut s = state_with(vec![(Item::Twig, 1), (Item::Berry, 2)], GameMode::InventoryMenu);
    assert_eq!(s.update_inventory_menu(slot_click(1, true)), None);
    assert_eq!(s.last_clicked_idx, Some(1));
    assert_eq!(s.inv_selection, 1);
    assert_eq!(s.update_inventory_menu(slot_click(1, true)), Some(Item::Berry));
    assert_eq!(s.inventory.count_item(Item::Berry), 1);
    assert_eq!(s.update_inventory_menu(slot_click(1, false)), None);
    assert_eq!(s.inventory.count_item(Item::Berry), 1);
}

#[test]
fn double_click_equips_tools() {
    let mut s = state_with(vec![(Item::FishingRod, 1)], GameMode::InventoryMenu);
    s.update_inventory_menu(slot_click(0, true));
    assert_eq!(s.inventory.equipped, None);
    s.update_inventory_menu(slot_click(0, true));
    assert_eq!(s.inventory.equipped, Some(Item::FishingRod));
    assert_eq!(s.inventory.slots, vec![(Item::FishingRod, 1)]);
}

#[test]
fn click_outside_the_slots_does_nothing() {
    let mut s = state_with(vec![(Item::Berry, 1)], GameMode::InventoryMenu);
    assert_eq!(s.update_inventory_menu(slot_click(4, true)), None);
    assert_eq!(s.last_clicked_idx, None);
}

fn recipe(quick: bool) -> CraftingClick {
    CraftingClick { back: false, recipe: true, quick }
}

#[test]
fn crafting_a_rod() {
    let mut s = state_with(vec![(Item::Twig, 3), (Item::Berry, 1)], GameMode::CraftingMenu);
    s.update_crafting_menu(recipe(true));
    assert_eq!(s.inventory.count_item(Item::FishingRod), 0);
    assert_eq!(s.last_clicked_idx, Some(999));
    let weight = s.inventory.current_weight();
    s.update_crafting_menu(recipe(true));
    assert_eq!(s.inventory.count_item(Item::Twig), 1);
    assert_eq!(s.inventory.count_item(Item::FishingRod), 1);
    assert_eq!(s.inventory.current_weight(), weight);
}

#[test]
fn crafting_needs_two_twigs_and_room() {
    let mut s = state_with(vec![(Item::Twig, 1)], GameMode::CraftingMenu);
    s.last_clicked_idx = Some(999);
    s.update_crafting_menu(recipe(true));
    assert_eq!(s.inventory.slots, vec![(Item::Twig, 1)]);
    let mut s = state_with(vec![(Item::Twig, 2), (Item::Fish, 9)], GameMode::CraftingMenu);
    s.last_clicked_idx = Some(999);
    s.update_crafting_menu(recipe(true));
    assert_eq!(s.inventory.slots, vec![(Item::Twig, 2), (Item::Fish, 9)]);
    s.update_crafting_menu(CraftingClick { back: true, recipe: true, quick: true });
    assert_eq!(s.mode, GameMode::InventoryMenu);
}

#[test]
fn settings_cursor_and_toggles() {
    let mut s = state_with(vec![], GameMode::SettingsMenu);
    let down = SettingsKeys { back: false, down: true, up: false, toggle: false };
    for _ in 0..5 {
        s.update_settings_menu(down);
    }
    assert_eq!(s.settings_selection, 2);
    s.update_settings_menu(SettingsKeys { back: false, down: false, up: true, toggle: true });
    assert_eq!(s.settings_selection, 1);
    assert!(!s.drain_thirst);
    assert!(s.drain_hunger && s.drain_sleep);
    s.update_settings_menu(SettingsKeys { back: false, down: false, up: true, toggle: false });
    s.update_settings_menu(SettingsKeys { back: false, down: false, up: true, toggle: true });
    assert_eq!(s.settings_selection, 0);
    assert!(!s.drain_hunger);
    s.update_settings_menu(SettingsKeys { back: true, down: true, up: false, toggle: true });
    assert_eq!(s.mode, GameMode::Play);
    assert_eq!(s.settings_selection, 0);
}
