//! The player's inventory: a fixed number of slots holding stackable
//! items, with drag-and-drop style push and pop.  A slot is empty when
//! its item carries the null entity handle.

use vstd::prelude::*;

verus! {

/// Number of slots an inventory holds.
pub const INVENTORY_SIZE: usize = 32;

/// The entity handle that marks an empty slot.
pub const EMPTY_ITEM_ENTITY: u64 = 0;

/// Where an item currently is in the world.
#[derive(Clone, Copy, Debug, PartialEq, Eq, Structural)]
pub enum Location {
    /// Dropped on the field.
    FieldDropped,
    /// Installed on the field, like furniture.
    FieldInstalled,
    Inventory,
    Equipped,
    /// Inside a monster.
    Loot,
    /// Picked up by the mouse.
    MousePickup,
}

/// What kind of thing an item is.
#[derive(Clone, Copy, Debug, PartialEq, Eq, Structural)]
pub enum ItemType {
    Consumable,
    Weapon,
    Armor,
}

impl Default for ItemType {
    fn default() -> (r: ItemType)
        ensures
            r == ItemType::Consumable,
    {
        ItemType::Consumable
    }
}

/// One inventory slot's content: where the item is, which dictionary
/// entry describes it, how many are stacked, and the world entity
/// carrying it (the null handle for an empty slot).
#[derive(Clone, Copy, Debug, PartialEq, Eq, Structural)]
pub struct Item {
    pub location: Location,
    pub item_info_index: usize,
    pub count: u32,
    pub entity: u64,
}

impl Item {
    /// Whether this slot content means "empty".
    pub open spec fn is_empty_slot(self) -> bool {
        self.entity == EMPTY_ITEM_ENTITY
    }
}

impl Default for Item {
    /// The empty slot content.
    fn default() -> (r: Item)
        ensures
            r == (Item {
                location: Location::FieldDropped,
                item_info_index: 0,
                count: 0,
                entity: EMPTY_ITEM_ENTITY,
            }),
    {
        Item {
            location: Location::FieldDropped,
            item_info_index: 0,
            count: 0,
            entity: EMPTY_ITEM_ENTITY,
        }
    }
}

/// Immutable description of one kind of item.
pub struct ItemInfo {
    pub name: String,
    pub description: String,
    pub item_type: ItemType,
}

impl ItemInfo {
    /// The blank description.
    pub fn new() -> (r: ItemInfo)
        ensures
            r.name@ == Seq::<char>::empty(),
            r.description@ == Seq::<char>::empty(),
            r.item_type == ItemType::Consumable,
    {
        ItemInfo { name: String::new(), description: String::new(), item_type: ItemType::Consumable }
    }
}

/// All item descriptions, indexed by `Item::item_info_index`; index 0
/// holds the blank entry empty slots point at.
pub struct ItemDictionary(pub Vec<ItemInfo>);

impl ItemDictionary {
    /// A dictionary holding only the blank entry.
    pub fn new() -> (r: ItemDictionary)
        ensures
            r.0@.len() == 1,
    {
        let mut entries: Vec<ItemInfo> = Vec::new();
        entries.push(ItemInfo::new());
        ItemDictionary(entries)
    }
}

/// The player's inventory: UI open/close state and a fixed array of
/// slots.
pub struct Inventory {
    pub is_opening: bool,
    pub fully_opened: bool,
    pub items: Vec<Item>,
}

impl Inventory {
    /// The slot array always has exactly `INVENTORY_SIZE` entries.
    pub open spec fn wf(self) -> bool {
        self.items@.len() == INVENTORY_SIZE
    }

    /// A closed inventory with every slot empty.
    pub fn new() -> (r: Inventory)
        ensures
            r.wf(),
            r.is_opening == false,
            r.fully_opened == false,
            forall|i: int| 0 <= i < INVENTORY_SIZE ==> (#[trigger] r.items@[i]).is_empty_slot(),
    {
        let mut items: Vec<Item> = Vec::new();
        let mut i: usize = 0;
        while i < INVENTORY_SIZE
            invariant
                i <= INVENTORY_SIZE,
                items@.len() == i,
                forall|j: int| 0 <= j < i ==> (#[trigger] items@[j]).is_empty_slot(),
            decreases INVENTORY_SIZE - i,
        {
            items.push(Item::default());
            i += 1;
        }
        Inventory { is_opening: false, fully_opened: false, items }
    }

    /// Stores `item` in the inventory.  With a slot index given, the
    /// item lands in that slot, marked as stored; whatever non-empty
    /// item was there comes back marked as picked up, while an index
    /// beyond the slots hands the item straight back.  Without an index
    /// the item lands in the first empty slot, or comes back unchanged
    /// when the inventory is full.
    pub fn push(&mut self, index: Option<usize>, item: Item) -> (popped: Option<Item>)
        requires
            old(self).wf(),
        ensures
            final(self).wf(),
            final(self).is_opening == old(self).is_opening,
            final(self).fully_opened == old(self).fully_opened,
            match index {
                Some(idx) => {
                    if idx < INVENTORY_SIZE {
                        let stored = Item { location: Location::Inventory, ..item };
                        &&& final(self).items@ == old(self).items@.update(idx as int, stored)
                        &&& popped == if old(self).items@[idx as int].is_empty_slot() {
                            None::<Item>
                        } else {
                            Some(
                                Item {
                                    location: Location::MousePickup,
                                    ..old(self).items@[idx as int]
                                },
                            )
                        }
                    } else {
                        final(self).items@ == old(self).items@ && popped == Some(item)
                    }
                },
                None => {
                    if exists|j: int|
                        0 <= j < INVENTORY_SIZE && (#[trigger] old(self).items@[j]).is_empty_slot() {
                        let slot = first_empty_slot(old(self).items@);
                        &&& final(self).items@ == old(self).items@.update(
                            slot,
                            Item { location: Location::Inventory, ..item },
                        )
                        &&& popped is None
                    } else {
                        final(self).items@ == old(self).items@ && popped == Some(item)
                    }
                },
            },
    {
        match index {
            Some(idx) => {
                if idx < INVENTORY_SIZE {
                    let prev_item = self.items[idx];
                    let stored = Item { location: Location::Inventory, ..item };
                    self.items[idx] = stored;
                    if prev_item.entity == EMPTY_ITEM_ENTITY {
                        None
                    } else {
                        Some(Item { location: Location::MousePickup, ..prev_item })
                    }
                } else {
                    Some(item)
                }
            },
            None => {
                let mut i: usize = 0;
                while i < INVENTORY_SIZE
                    invariant
                        self == old(self),
                        old(self).wf(),
                        index is None,
                        i <= INVENTORY_SIZE,
                        forall|j: int|
                            0 <= j < i ==> !(#[trigger] old(self).items@[j]).is_empty_slot(),
                    decreases INVENTORY_SIZE - i,
                {
                    if self.items[i].entity == EMPTY_ITEM_ENTITY {
                        proof {
                            assert(old(self).items@[i as int].is_empty_slot());
                            lemma_first_empty_slot(old(self).items@, i as int);
                        }
                        let stored = Item { location: Location::Inventory, ..item };
                        self.items[i] = stored;
                        proof {
                            assert(exists|j: int|
                                0 <= j < INVENTORY_SIZE && (#[trigger] old(
                                    self,
                                ).items@[j]).is_empty_slot());
                            assert(first_empty_slot(old(self).items@) == i as int);
                        }
                        return None;
                    }
                    i += 1;
                }
                Some(item)
            },
        }
    }

    /// Takes the item out of the given slot: a non-empty slot hands its
    /// item back marked as picked up and becomes empty; an empty or
    /// out-of-range slot hands back nothing.
    pub fn pop(&mut self, index: usize) -> (popped: Option<Item>)
        requires
            old(self).wf(),
        ensures
            final(self).wf(),
            final(self).is_opening == old(self).is_opening,
            final(self).fully_opened == old(self).fully_opened,
            if index < INVENTORY_SIZE && !old(self).items@[index as int].is_empty_slot() {
                &&& final(self).items@ == old(self).items@.update(
                    index as int,
                    Item {
                        location: Location::FieldDropped,
                        item_info_index: 0,
                        count: 0,
                        entity: EMPTY_ITEM_ENTITY,
                    },
                )
                &&& popped == Some(
                    Item { location: Location::MousePickup, ..old(self).items@[index as int] },
                )
            } else {
                final(self).items@ == old(self).items@ && popped is None
            },
    {
        if index < INVENTORY_SIZE {
            let item = self.items[index];
            if item.entity == EMPTY_ITEM_ENTITY {
                None
            } else {
                self.items[index] = Item::default();
                Some(Item { location: Location::MousePickup, ..item })
            }
        } else {
            None
        }
    }

    /// Looks up the description of the item in the given slot: `None`
    /// for an empty or out-of-range slot, or when the slot's dictionary
    /// index is stale.
    pub fn get_item_info<'a>(&self, inventory_index: usize, item_dictionary: &'a ItemDictionary)
        -> (r: Option<&'a ItemInfo>)
        requires
            self.wf(),
        ensures
            if inventory_index < INVENTORY_SIZE && !self.items@[inventory_index as int].is_empty_slot()
                && self.items@[inventory_index as int].item_info_index
                < item_dictionary.0@.len() {
                r matches Some(info) && *info == item_dictionary.0@[self.items@[inventory_index as int].item_info_index as int]
            } else {
                r is None
            },
    {
        if inventory_index < INVENTORY_SIZE {
            let item = self.items[inventory_index];
            if item.entity == EMPTY_ITEM_ENTITY {
                None
            } else {
                if item.item_info_index < item_dictionary.0.len() {
                    Some(&item_dictionary.0[item.item_info_index])
                } else {
                    None
                }
            }
        } else {
            None
        }
    }
}

/// The lowest empty slot index in `items`.
pub open spec fn first_empty_slot(items: Seq<Item>) -> int {
    choose|j: int|
        0 <= j < items.len() && (#[trigger] items[j]).is_empty_slot() && forall|k: int|
            0 <= k < j ==> !(#[trigger] items[k]).is_empty_slot()
}

/// A slot that is empty while all before it are not is the first empty
/// slot.
pub proof fn lemma_first_empty_slot(items: Seq<Item>, j: int)
    requires
        0 <= j < items.len(),
        items[j].is_empty_slot(),
        forall|k: int| 0 <= k < j ==> !(#[trigger] items[k]).is_empty_slot(),
    ensures
        first_empty_slot(items) == j,
{
    assert(0 <= j < items.len() && (#[trigger] items[j]).is_empty_slot() && forall|k: int|
        0 <= k < j ==> !(#[trigger] items[k]).is_empty_slot());
    let w = first_empty_slot(items);
    if w != j {
        if w < j {
            assert(!items[w].is_empty_slot());
        } else {
            assert(!items[j].is_empty_slot());
        }
    }
}

/// Requests the inventory UI to open when the inventory key is pressed.
pub fn open_inventory(inventory: &mut Inventory, inventory_key_pressed: bool)
    ensures
        final(inventory).is_opening == (old(inventory).is_opening || inventory_key_pressed),
        final(inventory).fully_opened == old(inventory).fully_opened,
        final(inventory).items@ == old(inventory).items@,
{
    if inventory_key_pressed {
        inventory.is_opening = true;
    }
}

/// Whether the inventory UI should be drawn this frame: it is sliding in
/// or already fully open.
pub fn draw_inventory_ui(inventory: &Inventory) -> (draw: bool)
    ensures
        draw == (inventory.is_opening || inventory.fully_opened),
{
    inventory.is_opening || inventory.fully_opened
}

} // verus!
