use grid_combat::inventory::draw_inventory_ui;
use grid_combat::inventory::open_inventory;
use grid_combat::inventory::Inventory;
use grid_combat::inventory::Item;
use grid_combat::inventory::ItemDictionary;
use grid_combat::inventory::ItemInfo;
use grid_combat::inventory::ItemType;
use grid_combat::inventory::Location;
use grid_combat::inventory::INVENTORY_SIZE;

fn sample_item(entity: u64) -> Item {
    Item { location: Location::MousePickup, item_info_index: 1, count: 3, entity }
}

#[test]
fn push_without_index_fills_first_empty_slot() {
    let mut inventory = Inventory::new();
    let returned = inventory.push(None, sample_item(11));
    assert!(returned.is_none());
    assert_eq!(inventory.items[0].entity, 11);
    assert_eq!(inventory.items[0].location, Location::Inventory);

    let returned = inventory.push(None, sample_item(12));
    assert!(returned.is_none());
    assert_eq!(inventory.items[1].entity, 12);
}

#[test]
fn push_into_slot_swaps_previous_item() {
    let mut inventory = Inventory::new();
    assert!(inventory.push(Some(4), sample_item(21)).is_none());
    let popped = inventory.push(Some(4), sample_item(22)).expect("previous item pops out");
    assert_eq!(popped.entity, 21);
    assert_eq!(popped.location, Location::MousePickup);
    assert_eq!(inventory.items[4].entity, 22);
    assert_eq!(inventory.items[4].location, Location::Inventory);
}

#[test]
fn push_out_of_range_returns_item() {
    let mut inventory = Inventory::new();
    let item = sample_item(31);
    let returned = inventory.push(Some(INVENTORY_SIZE), item).expect("nothing stored");
    assert_eq!(returned.entity, 31);
    assert_eq!(returned.location, Location::MousePickup, "untouched item keeps its location");
}

#[test]
fn push_into_full_inventory_returns_item() {
    let mut inventory = Inventory::new();
    for i in 0..INVENTORY_SIZE {
        assert!(inventory.push(None, sample_item(100 + i as u64)).is_none());
    }
    let returned = inventory.push(None, sample_item(999)).expect("inventory is full");
    assert_eq!(returned.entity, 999);
}

#[test]
fn pop_empties_slot_and_marks_pickup() {
    let mut inventory = Inventory::new();
    inventory.push(Some(2), sample_item(41));
    let popped = inventory.pop(2).expect("slot held an item");
    assert_eq!(popped.entity, 41);
    assert_eq!(popped.location, Location::MousePickup);
    assert_eq!(inventory.items[2].entity, 0);
    assert!(inventory.pop(2).is_none(), "slot is empty now");
    assert!(inventory.pop(INVENTORY_SIZE).is_none(), "out of range pops nothing");
}

#[test]
fn item_info_lookup() {
    let mut dictionary = ItemDictionary::new();
    let mut sword = ItemInfo::new();
    sword.name = String::from("sword");
    sword.item_type = ItemType::Weapon;
    dictionary.0.push(sword);

    let mut inventory = Inventory::new();
    inventory.push(Some(0), sample_item(51));
    let info = inventory.get_item_info(0, &dictionary).expect("slot and entry exist");
    assert_eq!(info.name, "sword");
    assert!(inventory.get_item_info(1, &dictionary).is_none(), "empty slot has no info");
    assert!(inventory.get_item_info(INVENTORY_SIZE, &dictionary).is_none());

    // A stale dictionary index yields nothing.
    let mut stale = sample_item(52);
    stale.item_info_index = 9;
    inventory.push(Some(3), stale);
    assert!(inventory.get_item_info(3, &dictionary).is_none());
}

#[test]
fn inventory_ui_opens_on_key() {
    let mut inventory = Inventory::new();
    assert!(!draw_inventory_ui(&inventory));
    open_inventory(&mut inventory, false);
    assert!(!inventory.is_opening);
    open_inventory(&mut inventory, true);
    assert!(inventory.is_opening);
    assert!(draw_inventory_ui(&inventory));
}
