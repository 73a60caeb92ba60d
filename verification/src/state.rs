//! The game's state outside the player's body: which screen is shown, the
//! inventory, the world grid, the survival settings and the menu cursors, and
//! how keys and clicks move between screens and act in the menus.
use vstd::prelude::*;
use crate::WORLD_SIZE;
use crate::environment::Tile;
use crate::environment::wfc_rules::{RuleError, RuleRegistry, names_known, parsed_rules};
use crate::inventory::{
    Inventory, Item, item_nutrition, law_add_then_count, law_remove_then_count, lemma_add_weight_exact,
    lemma_remove_weight_exact, slot_count, slots_after_consume, slots_after_remove,
    slots_after_try_add, total_weight, unique_items,
};
use crate::world_gen::{CELL_COUNT, WorldGenError, generate_wfc_grid, initial_doms, is_wfc_tile, rules_give, run_gives_grid, wfc_run};

verus! {

#[derive(Clone, Copy, PartialEq, Eq, Structural, Debug)]
pub enum GameMode {
    Play,
    InventoryMenu,
    SettingsMenu,
    CraftingMenu,
}

/// The keys that switch screens, pressed this frame.
#[derive(Clone, Copy, PartialEq, Eq, Structural, Debug)]
pub struct ModeKeys {
    pub escape: bool,
    pub e: bool,
    pub tab: bool,
}

/// A left click in the inventory screen: on the back button, on the craft
/// button, or on a slot; `quick` tells that it follows the previous click
/// closely enough to make a double click.
#[derive(Clone, Copy, PartialEq, Eq, Structural, Debug)]
pub struct InventoryClick {
    pub back: bool,
    pub craft: bool,
    pub slot: Option<usize>,
    pub quick: bool,
}

/// A left click in the crafting screen, on the back button or on the recipe.
#[derive(Clone, Copy, PartialEq, Eq, Structural, Debug)]
pub struct CraftingClick {
    pub back: bool,
    pub recipe: bool,
    pub quick: bool,
}

/// Input of the settings screen this frame.
#[derive(Clone, Copy, PartialEq, Eq, Structural, Debug)]
pub struct SettingsKeys {
    /// Left click on the back button.
    pub back: bool,
    pub down: bool,
    pub up: bool,
    /// Space or enter pressed.
    pub toggle: bool,
}

/// The click index that stands for the fishing-rod recipe.
pub const RECIPE_CLICK: usize = 999;

pub struct GameState {
    pub mode: GameMode,
    pub inventory: Inventory,
    pub grid: [[Tile; WORLD_SIZE]; WORLD_SIZE],
    pub drain_hunger: bool,
    pub drain_thirst: bool,
    pub drain_sleep: bool,
    pub inv_selection: usize,
    pub craft_selection: usize,
    pub settings_selection: usize,
    pub last_clicked_idx: Option<usize>,
}

/// The screen after the screen-switching keys: escape returns to play; E opens
/// the inventory from play, closes it, and leaves crafting for the inventory;
/// tab opens the settings from play and closes them.
pub open spec fn next_mode(mode: GameMode, keys: ModeKeys) -> GameMode {
    let m1 = if keys.escape { GameMode::Play } else { mode };
    let m2 = if keys.e {
        match m1 {
            GameMode::Play => GameMode::InventoryMenu,
            GameMode::InventoryMenu => GameMode::Play,
            GameMode::CraftingMenu => GameMode::InventoryMenu,
            GameMode::SettingsMenu => GameMode::SettingsMenu,
        }
    } else {
        m1
    };
    if keys.tab {
        match m2 {
            GameMode::Play => GameMode::SettingsMenu,
            GameMode::SettingsMenu => GameMode::Play,
            _ => m2,
        }
    } else {
        m2
    }
}

/// Tab opened the settings screen this frame (which resets its cursor).
pub open spec fn settings_opened(mode: GameMode, keys: ModeKeys) -> bool {
    let m1 = if keys.escape { GameMode::Play } else { mode };
    let m2 = if keys.e {
        match m1 {
            GameMode::Play => GameMode::InventoryMenu,
            GameMode::InventoryMenu => GameMode::Play,
            GameMode::CraftingMenu => GameMode::InventoryMenu,
            GameMode::SettingsMenu => GameMode::SettingsMenu,
        }
    } else {
        m1
    };
    keys.tab && m2 == GameMode::Play
}

/// The slots after the fishing rod is crafted, if it can be: two twigs at hand
/// and room for the rod's weight.
pub open spec fn slots_after_craft(slots: Seq<(Item, u32)>, cap: u32) -> Seq<(Item, u32)> {
    if slot_count(slots, Item::Twig) >= 2 && total_weight(slots) + 2 <= cap {
        slots_after_try_add(slots_after_remove(slots, Item::Twig, 2), Item::FishingRod, cap)
    } else {
        slots
    }
}

impl GameState {
    /// A new game: the play screen, an empty inventory, every stat draining, and
    /// a world generated from the text of the adjacency rules.
    pub fn new(rules_json: &str) -> (r: Result<GameState, WorldGenError>)
        ensures
            r matches Ok(s) ==> {
                &&& s.mode == GameMode::Play
                &&& s.inventory.slots@ == Seq::<(Item, u32)>::empty()
                &&& s.inventory.max_capacity == 30
                &&& s.inventory.equipped == None::<Item>
                &&& s.drain_hunger && s.drain_thirst && s.drain_sleep
                &&& s.inv_selection == 0 && s.craft_selection == 0 && s.settings_selection == 0
                &&& s.last_clicked_idx == None::<usize>
                &&& s.grid[20][20] == Tile::Grass
                &&& forall|x: int, y: int| 0 <= x < WORLD_SIZE && 0 <= y < WORLD_SIZE ==> is_wfc_tile(#[trigger] s.grid[x][y])
            },
            parsed_rules(rules_json@) is None ==> r matches Err(WorldGenError::Rules(RuleError::Json)),
            parsed_rules(rules_json@) matches Some(e) && !names_known(e) ==> r matches Err(WorldGenError::Rules(_)),
            r matches Err(WorldGenError::Rules(_)) ==> parsed_rules(rules_json@) is None || (parsed_rules(rules_json@) matches Some(
                e,
            ) && !names_known(e)),
            r matches Ok(s) ==> exists|registry: RuleRegistry, draws: Seq<(usize, i32)>|
                rules_give(rules_json@, registry) && draws.len() <= CELL_COUNT && #[trigger] run_gives_grid(registry, draws, s.grid),
            r matches Err(WorldGenError::Deadlock { x, y }) ==> exists|registry: RuleRegistry, draws: Seq<(usize, i32)>|
                rules_give(rules_json@, registry) && draws.len() <= CELL_COUNT
                    && #[trigger] wfc_run(registry, initial_doms(), draws) == Some(Err::<Seq<Seq<Tile>>, (usize, usize)>((x, y))),
    {
        let grid = match generate_wfc_grid(rules_json) {
            Ok(g) => g,
            Err(e) => {
                return Err(e);
            },
        };
        Ok(GameState {
            mode: GameMode::Play,
            inventory: Inventory::new(),
            grid,
            drain_hunger: true,
            drain_thirst: true,
            drain_sleep: true,
            inv_selection: 0,
            craft_selection: 0,
            settings_selection: 0,
            last_clicked_idx: None,
        })
    }

    /// Switches screens by the keys pressed this frame and gives the screen
    /// whose update runs this frame.
    pub fn update(&mut self, keys: ModeKeys) -> (mode: GameMode)
        ensures
            mode == final(self).mode,
            final(self).mode == next_mode(old(self).mode, keys),
            final(self).settings_selection == if settings_opened(old(self).mode, keys) {
                0
            } else {
                old(self).settings_selection
            },
            final(self).inventory == old(self).inventory,
            final(self).grid == old(self).grid,
            final(self).drain_hunger == old(self).drain_hunger,
            final(self).drain_thirst == old(self).drain_thirst,
            final(self).drain_sleep == old(self).drain_sleep,
            final(self).inv_selection == old(self).inv_selection,
            final(self).craft_selection == old(self).craft_selection,
            final(self).last_clicked_idx == old(self).last_clicked_idx,
    {
        if keys.escape {
            self.mode = GameMode::Play;
        }
        if keys.e {
            match self.mode {
                GameMode::Play => {
                    self.mode = GameMode::InventoryMenu;
                },
                GameMode::InventoryMenu => {
                    self.mode = GameMode::Play;
                },
                GameMode::CraftingMenu => {
                    self.mode = GameMode::InventoryMenu;
                },
                _ => {},
            }
        }
        if keys.tab {
            if self.mode == GameMode::Play {
                self.mode = GameMode::SettingsMenu;
                self.settings_selection = 0;
            } else if self.mode == GameMode::SettingsMenu {
                self.mode = GameMode::Play;
            }
        }
        self.mode
    }

    /// Handles a click in the inventory screen. A double click on a slot eats
    /// one unit of a food, returned so that the caller lowers hunger by its
    /// nutrition, or equips anything else.
    pub fn update_inventory_menu(&mut self, click: InventoryClick) -> (eaten: Option<Item>)
        requires
            click.slot matches Some(i) ==> (!click.back && !click.craft && i < old(self).inventory.slots@.len()
                && old(self).last_clicked_idx == Some(i) && click.quick && item_nutrition(
                old(self).inventory.slots@[i as int].0,
            ) > 0 ==> old(self).inventory.slots@[i as int].1 > 0),
        ensures
            ({
                let inv = old(self).inventory;
                let n = inv.slots@.len();
                if click.back {
                    &&& final(self).mode == GameMode::Play
                    &&& eaten == None::<Item>
                    &&& final(self).inventory == inv
                    &&& final(self).craft_selection == old(self).craft_selection
                    &&& final(self).inv_selection == old(self).inv_selection
                    &&& final(self).last_clicked_idx == old(self).last_clicked_idx
                } else if click.craft {
                    &&& final(self).mode == GameMode::CraftingMenu
                    &&& eaten == None::<Item>
                    &&& final(self).inventory == inv
                    &&& final(self).craft_selection == 0
                    &&& final(self).inv_selection == old(self).inv_selection
                    &&& final(self).last_clicked_idx == old(self).last_clicked_idx
                } else if click.slot is Some && click.slot.unwrap() < n {
                    let i = click.slot.unwrap();
                    let double = old(self).last_clicked_idx == Some(i) && click.quick;
                    let item = inv.slots@[i as int].0;
                    let eats = double && item_nutrition(item) > 0;
                    &&& final(self).mode == old(self).mode
                    &&& final(self).last_clicked_idx == Some(i)
                    &&& final(self).inv_selection == i
                    &&& final(self).craft_selection == old(self).craft_selection
                    &&& eaten == if eats { Some(item) } else { None::<Item> }
                    &&& final(self).inventory.slots@ == if eats {
                        slots_after_consume(inv.slots@, i as int)
                    } else {
                        inv.slots@
                    }
                    &&& final(self).inventory.equipped == if double && !eats {
                        Some(item)
                    } else {
                        inv.equipped
                    }
                    &&& final(self).inventory.max_capacity == inv.max_capacity
                } else {
                    &&& final(self).mode == old(self).mode
                    &&& eaten == None::<Item>
                    &&& final(self).inventory == inv
                    &&& final(self).craft_selection == old(self).craft_selection
                    &&& final(self).inv_selection == old(self).inv_selection
                    &&& final(self).last_clicked_idx == old(self).last_clicked_idx
                }
            }),
            final(self).grid == old(self).grid,
            final(self).settings_selection == old(self).settings_selection,
            final(self).drain_hunger == old(self).drain_hunger,
            final(self).drain_thirst == old(self).drain_thirst,
            final(self).drain_sleep == old(self).drain_sleep,
            old(self).inventory.wf() ==> final(self).inventory.wf(),
    {
        if click.back {
            self.mode = GameMode::Play;
            return None;
        }
        if click.craft {
            self.mode = GameMode::CraftingMenu;
            self.craft_selection = 0;
            return None;
        }
        let mut eaten: Option<Item> = None;
        if let Some(i) = click.slot {
            if i < self.inventory.slots.len() {
                if self.last_clicked_idx == Some(i) && click.quick {
                    let current_item = self.inventory.slots[i].0;
                    if current_item.nutrition() > 0 {
                        eaten = self.inventory.consume_item(i);
                    } else {
                        self.inventory.equipped = Some(current_item);
                    }
                }
                self.last_clicked_idx = Some(i);
                self.inv_selection = i;
            }
        }
        eaten
    }

    /// Handles a click in the crafting screen. A double click on the recipe
    /// crafts a fishing rod from two twigs, when two are at hand and the rod fits.
    pub fn update_crafting_menu(&mut self, click: CraftingClick)
        requires
            !click.back && click.recipe && old(self).last_clicked_idx == Some(RECIPE_CLICK) && click.quick
                && slot_count(old(self).inventory.slots@, Item::Twig) >= 2 ==> old(self).inventory.total() + 2 <= u32::MAX,
        ensures
            ({
                let inv = old(self).inventory;
                if click.back {
                    &&& final(self).mode == GameMode::InventoryMenu
                    &&& final(self).inventory == inv
                    &&& final(self).last_clicked_idx == old(self).last_clicked_idx
                    &&& final(self).craft_selection == old(self).craft_selection
                } else if click.recipe {
                    let double = old(self).last_clicked_idx == Some(RECIPE_CLICK) && click.quick;
                    &&& final(self).mode == old(self).mode
                    &&& final(self).inventory.slots@ == if double {
                        slots_after_craft(inv.slots@, inv.max_capacity)
                    } else {
                        inv.slots@
                    }
                    &&& final(self).inventory.max_capacity == inv.max_capacity
                    &&& final(self).inventory.equipped == inv.equipped
                    &&& final(self).last_clicked_idx == Some(RECIPE_CLICK)
                    &&& final(self).craft_selection == 0
                } else {
                    &&& final(self).mode == old(self).mode
                    &&& final(self).inventory == inv
                    &&& final(self).last_clicked_idx == old(self).last_clicked_idx
                    &&& final(self).craft_selection == old(self).craft_selection
                }
            }),
            final(self).grid == old(self).grid,
            final(self).inv_selection == old(self).inv_selection,
            final(self).settings_selection == old(self).settings_selection,
            final(self).drain_hunger == old(self).drain_hunger,
            final(self).drain_thirst == old(self).drain_thirst,
            final(self).drain_sleep == old(self).drain_sleep,
            old(self).inventory.wf() ==> final(self).inventory.wf(),
    {
        if click.back {
            self.mode = GameMode::InventoryMenu;
            return;
        }
        let has_twigs = self.inventory.count_item(Item::Twig) >= 2;
        if click.recipe {
            if self.last_clicked_idx == Some(RECIPE_CLICK) && click.quick {
                if has_twigs && self.inventory.current_weight() + Item::FishingRod.weight() <= self.inventory.max_capacity {
                    self.inventory.remove_items(Item::Twig, 2);
                    proof {
                        crate::inventory::lemma_remove_weight(old(self).inventory.slots@, Item::Twig, 2);
                    }
                    self.inventory.try_add_item(Item::FishingRod);
                }
            }
            self.last_clicked_idx = Some(RECIPE_CLICK);
            self.craft_selection = 0;
        }
    }

    /// Handles the settings screen: the cursor moves over the three drain
    /// settings and space or enter toggles the one under it.
    pub fn update_settings_menu(&mut self, keys: SettingsKeys)
        requires
            keys.down ==> old(self).settings_selection < usize::MAX,
        ensures
            ({
                let s0 = old(self).settings_selection;
                let s1 = if keys.down { if s0 + 1 < 2 { s0 + 1 } else { 2 } } else { s0 as int };
                let s2 = if keys.up { if s1 > 0 { s1 - 1 } else { 0 } } else { s1 };
                if keys.back {
                    &&& final(self).mode == GameMode::Play
                    &&& final(self).settings_selection == s0
                    &&& final(self).drain_hunger == old(self).drain_hunger
                    &&& final(self).drain_thirst == old(self).drain_thirst
                    &&& final(self).drain_sleep == old(self).drain_sleep
                } else {
                    &&& final(self).mode == old(self).mode
                    &&& final(self).settings_selection == s2
                    &&& final(self).drain_hunger == (old(self).drain_hunger != (keys.toggle && s2 == 0))
                    &&& final(self).drain_thirst == (old(self).drain_thirst != (keys.toggle && s2 == 1))
                    &&& final(self).drain_sleep == (old(self).drain_sleep != (keys.toggle && s2 == 2))
                }
            }),
            old(self).settings_selection <= 2 ==> final(self).settings_selection <= 2,
            final(self).inventory == old(self).inventory,
            final(self).grid == old(self).grid,
            final(self).inv_selection == old(self).inv_selection,
            final(self).craft_selection == old(self).craft_selection,
            final(self).last_clicked_idx == old(self).last_clicked_idx,
    {
        if keys.back {
            self.mode = GameMode::Play;
            return;
        }
        if keys.down {
            let next = self.settings_selection + 1;
            self.settings_selection = if next < 2 { next } else { 2 };
        }
        if keys.up {
            self.settings_selection = if self.settings_selection > 0 { self.settings_selection - 1 } else { 0 };
        }
        if keys.toggle {
            match self.settings_selection {
                0 => {
                    self.drain_hunger = !self.drain_hunger;
                },
                1 => {
                    self.drain_thirst = !self.drain_thirst;
                },
                2 => {
                    self.drain_sleep = !self.drain_sleep;
                },
                _ => {},
            }
        }
    }
}

/// E opens the inventory from play and closes it again; tab does the same with
/// the settings; escape alone always returns to play.
pub proof fn law_screen_toggles(mode: GameMode)
    ensures
        next_mode(next_mode(GameMode::Play, ModeKeys { escape: false, e: true, tab: false }), ModeKeys {
            escape: false,
            e: true,
            tab: false,
        }) == GameMode::Play,
        next_mode(next_mode(GameMode::Play, ModeKeys { escape: false, e: false, tab: true }), ModeKeys {
            escape: false,
            e: false,
            tab: true,
        }) == GameMode::Play,
        next_mode(mode, ModeKeys { escape: true, e: false, tab: false }) == GameMode::Play,
{
}

/// Crafting a fishing rod consumes exactly two twigs, adds exactly one rod, and
/// leaves the inventory's weight as it was, as long as each item has one slot.
pub proof fn law_craft_rod(slots: Seq<(Item, u32)>, cap: u32)
    requires
        unique_items(slots),
        slot_count(slots, Item::Twig) >= 2,
        total_weight(slots) + 2 <= cap,
        slot_count(slots, Item::FishingRod) < u32::MAX,
    ensures
        slot_count(slots_after_craft(slots, cap), Item::Twig) == slot_count(slots, Item::Twig) - 2,
        slot_count(slots_after_craft(slots, cap), Item::FishingRod) == slot_count(slots, Item::FishingRod) + 1,
        total_weight(slots_after_craft(slots, cap)) == total_weight(slots),
{
    let removed = slots_after_remove(slots, Item::Twig, 2);
    law_remove_then_count(slots, Item::Twig, 2, Item::FishingRod);
    lemma_remove_weight_exact(slots, Item::Twig, 2);
    law_add_then_count(removed, Item::FishingRod, Item::Twig);
    lemma_add_weight_exact(removed, Item::FishingRod);
}

} // verus!
