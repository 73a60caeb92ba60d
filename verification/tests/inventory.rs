use game::inventory::{Inventory, Item};

fn inventory_with(slots: Vec<(Item, u32)>) -> Inventory {
    let mut inv = Inventory::new();
    inv.slots = slots;
    inv
}

#[test]
fn new_inventory_is_empty() {
    let inv = Inventory::new();
    assert!(inv.slots.is_empty());
    assert_eq!(inv.max_capacity, 30);
    assert_eq!(inv.equipped, None);
    assert_eq!(inv.current_weight(), 0);
}

#[test]
fn item_properties() {
    assert_eq!(Item::Berry.weight(), 1);
    assert_eq!(Item::Twig.weight(), 1);
    assert_eq!(Item::FishingRod.weight(), 2);
    assert_eq!(Item::Fish.weight(), 3);
    assert_eq!(Item::Berry.name(), "Fresh Berry");
    assert_eq!(Item::Twig.name(), "Twig");
    assert_eq!(Item::FishingRod.name(), "Fishing Rod");
    assert_eq!(Item::Fish.name(), "Raw Fish");
    assert_eq!(Item::Berry.nutrition(), 15);
    assert_eq!(Item::Twig.nutrition(), 0);
    assert_eq!(Item::FishingRod.nutrition(), 0);
    assert_eq!(Item::Fish.nutrition(), 35);
}

#[test]
fn current_weight_sums_slots() {
    let inv = inventory_with(vec![(Item::Fish, 2), (Item::Twig, 3), (Item::FishingRod, 1)]);
    assert_eq!(inv.current_weight(), 2 * 3 + 3 + 2);
}

#[test]
fn add_merges_into_existing_slot() {
    let mut inv = Inventory::new();
    assert!(inv.try_add_item(Item::Berry));
    assert!(inv.try_add_item(Item::Twig));
    assert!(inv.try_add_item(Item::Berry));
    assert_eq!(inv.slots, vec![(Item::Berry, 2), (Item::Twig, 1)]);
    assert_eq!(inv.count_item(Item::Berry), 2);
    assert_eq!(inv.count_item(Item::Twig), 1);
    assert_eq!(inv.count_item(Item::Fish), 0);
}

#[test]
fn add_respects_capacity() {
    let mut inv = Inventory::new();
    for _ in 0..10 {
        assert!(inv.try_add_item(Item::Fish));
    }
    assert_eq!(inv.current_weight(), 30);
    assert!(!inv.try_add_item(Item::Fish));
    assert!(!inv.try_add_item(Item::Berry));
    assert_eq!(inv.slots, vec![(Item::Fish, 10)]);
}

#[test]
fn add_exactly_to_capacity() {
    let mut inv = inventory_with(vec![(Item::Twig, 28)]);
    assert!(inv.try_add_item(Item::FishingRod));
    assert_eq!(inv.current_weight(), 30);
    assert!(!inv.try_add_item(Item::Twig));
}

#[test]
fn add_then_count_law() {
    let mut inv = inventory_with(vec![(Item::Twig, 4), (Item::Fish, 1)]);
    let before_twig = inv.count_item(Item::Twig);
    let before_fish = inv.count_item(Item::Fish);
    assert!(inv.try_add_item(Item::Twig));
    assert_eq!(inv.count_item(Item::Twig), before_twig + 1);
    assert_eq!(inv.count_item(Item::Fish), before_fish);
}

#[test]
fn count_reports_first_slot() {
    let inv = inventory_with(vec![(Item::Twig, 4), (Item::Twig, 7)]);
    assert_eq!(inv.count_item(Item::Twig), 4);
}

#[test]
fn consume_decrements_and_removes() {
    let mut inv = inventory_with(vec![(Item::Berry, 2), (Item::Fish, 1)]);
    assert_eq!(inv.consume_item(0), Some(Item::Berry));
    assert_eq!(inv.slots, vec![(Item::Berry, 1), (Item::Fish, 1)]);
    assert_eq!(inv.consume_item(1), Some(Item::Fish));
    assert_eq!(inv.slots, vec![(Item::Berry, 1)]);
    assert_eq!(inv.consume_item(0), Some(Item::Berry));
    assert!(inv.slots.is_empty());
}

#[test]
fn consume_out_of_range() {
    let mut inv = inventory_with(vec![(Item::Berry, 2)]);
    assert_eq!(inv.consume_item(1), None);
    assert_eq!(inv.slots, vec![(Item::Berry, 2)]);
}

#[test]
fn consume_then_count_law() {
    let mut inv = inventory_with(vec![(Item::Berry, 3), (Item::Twig, 2)]);
    inv.consume_item(0);
    assert_eq!(inv.count_item(Item::Berry), 2);
    assert_eq!(inv.count_item(Item::Twig), 2);
}

#[test]
fn remove_partial() {
    let mut inv = inventory_with(vec![(Item::Twig, 5), (Item::Berry, 1)]);
    inv.remove_items(Item::Twig, 2);
    assert_eq!(inv.slots, vec![(Item::Twig, 3), (Item::Berry, 1)]);
}

#[test]
fn remove_whole_slot() {
    let mut inv = inventory_with(vec![(Item::Berry, 1), (Item::Twig, 2), (Item::Fish, 1)]);
    inv.remove_items(Item::Twig, 2);
    assert_eq!(inv.slots, vec![(Item::Berry, 1), (Item::Fish, 1)]);
}

#[test]
fn remove_more_than_held() {
    let mut inv = inventory_with(vec![(Item::Twig, 2), (Item::Berry, 1)]);
    inv.remove_items(Item::Twig, 9);
    assert_eq!(inv.slots, vec![(Item::Berry, 1)]);
    assert_eq!(inv.count_item(Item::Twig), 0);
}

#[test]
fn remove_walks_from_the_back() {
    let mut inv = inventory_with(vec![(Item::Twig, 2), (Item::Berry, 1), (Item::Twig, 3)]);
    inv.remove_items(Item::Twig, 4);
    assert_eq!(inv.slots, vec![(Item::Twig, 1), (Item::Berry, 1)]);
}

#[test]
fn remove_absent_item_changes_nothing() {
    let mut inv = inventory_with(vec![(Item::Berry, 1)]);
    inv.remove_items(Item::Fish, 3);
    assert_eq!(inv.slots, vec![(Item::Berry, 1)]);
}

#[test]
fn remove_then_count_law() {
    let mut inv = inventory_with(vec![(Item::Fish, 4), (Item::Berry, 6)]);
    inv.remove_items(Item::Berry, 4);
    assert_eq!(inv.count_item(Item::Berry), 2);
    assert_eq!(inv.count_item(Item::Fish), 4);
}
