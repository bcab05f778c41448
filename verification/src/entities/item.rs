//! Catalog items and what the catalog says of an item id.

use super::Rarity;
use vstd::prelude::*;

verus! {

/// The part of the body that a piece of armor protects.
#[derive(Clone, Copy, PartialEq, Eq, Structural, Hash, Debug)]
pub enum Limb {
    Head,
    Body,
    Hands,
    Feet,
    Shield,
}

/// What an item is, with what that kind alone has.
#[derive(Clone, Copy, PartialEq, Eq, Structural, Debug)]
pub enum ItemKind {
    Weapon { damage: u64 },
    Armor { defense: u64, limb: Limb },
    Potion { hp: u64 },
    Collectible,
}

/// An entry of the catalog. It never changes once made.
#[derive(Clone, Debug)]
pub struct Item {
    id: String,
    kind: ItemKind,
    name: String,
    value: u64,
    rarity: Rarity,
}

/// An item as the contracts see it.
pub struct ItemView {
    pub id: Seq<char>,
    pub kind: ItemKind,
    pub name: Seq<char>,
    pub value: u64,
    pub rarity: Rarity,
}

impl View for Item {
    type V = ItemView;

    closed spec fn view(&self) -> ItemView {
        ItemView {
            id: self.id@,
            kind: self.kind,
            name: self.name@,
            value: self.value,
            rarity: self.rarity,
        }
    }
}

impl Item {
    pub fn new(id: &str, kind: ItemKind, name: &str, value: u64, rarity: Rarity) -> (item: Item)
        ensures
            item@ == (ItemView { id: id@, kind, name: name@, value, rarity }),
    {
        Item { id: String::from_str(id), kind, name: String::from_str(name), value, rarity }
    }

    pub fn id(&self) -> (id: &String)
        ensures
            id@ == self@.id,
    {
        &self.id
    }

    pub fn name(&self) -> (name: &String)
        ensures
            name@ == self@.name,
    {
        &self.name
    }

    pub fn value(&self) -> (value: u64)
        ensures
            value == self@.value,
    {
        self.value
    }

    pub fn rarity(&self) -> (rarity: Rarity)
        ensures
            rarity == self@.rarity,
    {
        self.rarity
    }

    pub fn kind(&self) -> (kind: ItemKind)
        ensures
            kind == self@.kind,
    {
        self.kind
    }
}

/// The ids of a list of items, in order.
pub open spec fn item_ids(items: Seq<ItemView>) -> Seq<Seq<char>> {
    items.map_values(|item: ItemView| item.id)
}

/// Whether the list has an item with this id.
pub open spec fn listed(items: Seq<ItemView>, id: Seq<char>) -> bool {
    item_ids(items).contains(id)
}

/// The item with this id, where the list has one.
pub open spec fn lookup(items: Seq<ItemView>, id: Seq<char>) -> ItemView {
    items[item_ids(items).index_of(id)]
}

/// The defense that the item with this id gives to `limb`: that of the armor
/// where it is armor for this limb, 0 otherwise.
pub open spec fn armor_of(items: Seq<ItemView>, id: Seq<char>, limb: Limb) -> nat {
    if listed(items, id) {
        match lookup(items, id).kind {
            ItemKind::Armor { defense, limb: protected } => if protected == limb {
                defense as nat
            } else {
                0
            },
            _ => 0,
        }
    } else {
        0
    }
}

/// The hit points that the item with this id restores, where it is a potion.
pub open spec fn potion_of(items: Seq<ItemView>, id: Seq<char>) -> Option<nat> {
    if listed(items, id) {
        match lookup(items, id).kind {
            ItemKind::Potion { hp } => Some(hp as nat),
            _ => None,
        }
    } else {
        None
    }
}

/// The monetary value of the item with this id, 0 where the list has none.
pub open spec fn value_of(items: Seq<ItemView>, id: Seq<char>) -> nat {
    if listed(items, id) {
        lookup(items, id).value as nat
    } else {
        0
    }
}

/// In a list without repeated ids, the item at an index is the one that its
/// id looks up.
pub proof fn lemma_lookup_at(items: Seq<ItemView>, index: int)
    requires
        item_ids(items).no_duplicates(),
        0 <= index < items.len(),
    ensures
        listed(items, items[index].id),
        lookup(items, items[index].id) == items[index],
{
    let ids = item_ids(items);
    assert(ids[index] == items[index].id);
    let found = ids.index_of(items[index].id);
    assert(0 <= found < ids.len() && ids[found] == items[index].id);
}

} // verus!
