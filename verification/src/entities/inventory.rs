//! Inventories: how many units of each item id are held.

use super::item::{armor_of, listed, lookup, Item, ItemKind, ItemView, Limb};
use super::world::World;
use super::ItemError;
use vstd::prelude::*;

verus! {

/// One line of an inventory as the contracts see it: an item id and the
/// number of units held.
pub struct Holding {
    pub id: Seq<char>,
    pub count: nat,
}

/// The ids of the lines, in order.
pub open spec fn holding_ids(stock: Seq<Holding>) -> Seq<Seq<char>> {
    stock.map_values(|holding: Holding| holding.id)
}

/// The number of units over all lines.
pub open spec fn units(stock: Seq<Holding>) -> nat
    decreases stock.len(),
{
    if stock.len() == 0 {
        0
    } else {
        units(stock.drop_last()) + stock.last().count
    }
}

/// What holds of every inventory: no id has two lines, no line is empty, and
/// the units can be counted in a `u32`.
pub open spec fn well_formed(stock: Seq<Holding>) -> bool {
    &&& holding_ids(stock).no_duplicates()
    &&& forall|i: int| 0 <= i < stock.len() ==> (#[trigger] stock[i]).count >= 1
    &&& units(stock) <= u32::MAX
}

/// Whether some line has this id.
pub open spec fn held(stock: Seq<Holding>, id: Seq<char>) -> bool {
    holding_ids(stock).contains(id)
}

/// The index of the line with this id, where there is one.
pub open spec fn slot_of(stock: Seq<Holding>, id: Seq<char>) -> int {
    holding_ids(stock).index_of(id)
}

/// The units held of this id, 0 where there is no line.
pub open spec fn count_of(stock: Seq<Holding>, id: Seq<char>) -> nat {
    if held(stock, id) {
        stock[slot_of(stock, id)].count
    } else {
        0
    }
}

/// The inventory with one unit more of `id`: its line grows by one, or a new
/// line of one unit goes to the end.
pub open spec fn with_one_more(stock: Seq<Holding>, id: Seq<char>) -> Seq<Holding> {
    if held(stock, id) {
        let slot = slot_of(stock, id);
        stock.update(slot, Holding { id, count: stock[slot].count + 1 })
    } else {
        stock.push(Holding { id, count: 1 })
    }
}

/// The inventory with one unit less of `id`: its line shrinks by one, or
/// leaves with its last unit. An id that is not held changes nothing.
pub open spec fn with_one_less(stock: Seq<Holding>, id: Seq<char>) -> Seq<Holding> {
    if held(stock, id) {
        let slot = slot_of(stock, id);
        if stock[slot].count > 1 {
            stock.update(slot, Holding { id, count: (stock[slot].count - 1) as nat })
        } else {
            stock.remove(slot)
        }
    } else {
        stock
    }
}

/// Where ids do not repeat, a line is the line of its own id.
pub proof fn lemma_slot_at(stock: Seq<Holding>, index: int)
    requires
        holding_ids(stock).no_duplicates(),
        0 <= index < stock.len(),
    ensures
        held(stock, stock[index].id),
        slot_of(stock, stock[index].id) == index,
{
    let ids = holding_ids(stock);
    assert(ids[index] == stock[index].id);
    let found = ids.index_of(stock[index].id);
    assert(0 <= found < ids.len() && ids[found] == stock[index].id);
}

/// The line of a held id lies in the inventory and carries that id.
pub proof fn lemma_slot_of_held(stock: Seq<Holding>, id: Seq<char>)
    requires
        held(stock, id),
    ensures
        0 <= slot_of(stock, id) < stock.len(),
        stock[slot_of(stock, id)].id == id,
{
    let ids = holding_ids(stock);
    let found = ids.index_of(id);
    assert(0 <= found < ids.len() && ids[found] == id);
}

/// Replacing a line changes the units by the difference of the two counts.
pub proof fn lemma_units_update(stock: Seq<Holding>, index: int, line: Holding)
    requires
        0 <= index < stock.len(),
    ensures
        units(stock.update(index, line)) == units(stock) - stock[index].count + line.count,
    decreases stock.len(),
{
    let changed = stock.update(index, line);
    if index == stock.len() - 1 {
        assert(changed.drop_last() =~= stock.drop_last());
    } else {
        assert(changed.drop_last() =~= stock.drop_last().update(index, line));
        lemma_units_update(stock.drop_last(), index, line);
    }
}

/// Taking a line out takes its units out.
pub proof fn lemma_units_remove(stock: Seq<Holding>, index: int)
    requires
        0 <= index < stock.len(),
    ensures
        units(stock.remove(index)) == units(stock) - stock[index].count,
    decreases stock.len(),
{
    let shorter = stock.remove(index);
    if index == stock.len() - 1 {
        assert(shorter =~= stock.drop_last());
    } else {
        assert(shorter.drop_last() =~= stock.drop_last().remove(index));
        assert(shorter.last() == stock.last());
        lemma_units_remove(stock.drop_last(), index);
    }
}

/// A new line at the end adds its units.
pub proof fn lemma_units_push(stock: Seq<Holding>, line: Holding)
    ensures
        units(stock.push(line)) == units(stock) + line.count,
{
    assert(stock.push(line).drop_last() =~= stock);
}

/// The units of the first lines never exceed the units of all, and grow by
/// the count of each line taken in.
pub proof fn lemma_units_prefix(stock: Seq<Holding>, length: int)
    requires
        0 <= length <= stock.len(),
    ensures
        units(stock.take(length)) <= units(stock),
        length < stock.len() ==> units(stock.take(length + 1)) == units(stock.take(length))
            + stock[length].count,
    decreases stock.len() - length,
{
    if length < stock.len() {
        assert(stock.take(length + 1).drop_last() =~= stock.take(length));
        lemma_units_prefix(stock, length + 1);
    } else {
        assert(stock.take(length) =~= stock);
    }
}

/// No line holds more than the whole inventory.
pub proof fn lemma_count_within_units(stock: Seq<Holding>, index: int)
    requires
        0 <= index < stock.len(),
    ensures
        stock[index].count <= units(stock),
{
    lemma_units_prefix(stock, index);
    lemma_units_prefix(stock, index + 1);
}

/// A line that stands in two inventories without repeated ids is counted
/// alike in both.
proof fn lemma_shared_line(stock: Seq<Holding>, changed: Seq<Holding>, at: int, to: int)
    requires
        holding_ids(stock).no_duplicates(),
        holding_ids(changed).no_duplicates(),
        0 <= at < stock.len(),
        0 <= to < changed.len(),
        stock[at] == changed[to],
    ensures
        held(stock, stock[at].id),
        held(changed, stock[at].id),
        count_of(changed, stock[at].id) == count_of(stock, stock[at].id),
{
    lemma_slot_at(stock, at);
    lemma_slot_at(changed, to);
}

/// Raising the count of a held id keeps every other line.
proof fn lemma_one_more_held(stock: Seq<Holding>, id: Seq<char>)
    requires
        well_formed(stock),
        units(stock) < u32::MAX,
        held(stock, id),
    ensures
        well_formed(with_one_more(stock, id)),
        units(with_one_more(stock, id)) == units(stock) + 1,
        count_of(with_one_more(stock, id), id) == count_of(stock, id) + 1,
        holding_ids(with_one_more(stock, id)) == holding_ids(stock),
        with_one_more(stock, id).len() == stock.len(),
        forall|i: int|
            0 <= i < stock.len() && i != slot_of(stock, id) ==> with_one_more(stock, id)[i]
                == #[trigger] stock[i],
{
    let grown = with_one_more(stock, id);
    lemma_slot_of_held(stock, id);
    let slot = slot_of(stock, id);
    lemma_units_update(stock, slot, Holding { id, count: stock[slot].count + 1 });
    assert(holding_ids(grown) =~= holding_ids(stock));
    lemma_slot_at(grown, slot);
}

/// A new line for an id that is not held keeps every other line.
proof fn lemma_one_more_new(stock: Seq<Holding>, id: Seq<char>)
    requires
        well_formed(stock),
        units(stock) < u32::MAX,
        !held(stock, id),
    ensures
        well_formed(with_one_more(stock, id)),
        units(with_one_more(stock, id)) == units(stock) + 1,
        count_of(with_one_more(stock, id), id) == 1,
        holding_ids(with_one_more(stock, id)) == holding_ids(stock).push(id),
{
    let grown = with_one_more(stock, id);
    let line = Holding { id, count: 1 };
    lemma_units_push(stock, line);
    let last = stock.len() as int;
    let ids = holding_ids(stock);
    let grown_ids = holding_ids(grown);
    assert(grown_ids =~= ids.push(id));
    assert forall|i: int, j: int|
        0 <= i < grown_ids.len() && 0 <= j < grown_ids.len() && i != j implies grown_ids[i]
        != grown_ids[j] by {
        if i == last {
            assert(ids[j] != id);
        } else if j == last {
            assert(ids[i] != id);
        } else {
            assert(ids[i] != ids[j]);
        }
    }
    assert forall|i: int| 0 <= i < grown.len() implies (#[trigger] grown[i]).count >= 1 by {
        if i < last {
            assert(grown[i] == stock[i]);
        }
    }
    lemma_slot_at(grown, last);
}

/// One unit more of an id keeps the inventory well formed, adds one unit,
/// raises the count of that id by one and leaves every other count alone.
pub proof fn lemma_one_more(stock: Seq<Holding>, id: Seq<char>)
    requires
        well_formed(stock),
        units(stock) < u32::MAX,
    ensures
        well_formed(with_one_more(stock, id)),
        units(with_one_more(stock, id)) == units(stock) + 1,
        count_of(with_one_more(stock, id), id) == count_of(stock, id) + 1,
        forall|other: Seq<char>|
            other != id ==> #[trigger] held(with_one_more(stock, id), other) == held(stock, other),
        forall|other: Seq<char>|
            other != id ==> #[trigger] count_of(with_one_more(stock, id), other) == count_of(stock, other),
{
    let grown = with_one_more(stock, id);
    if held(stock, id) {
        lemma_one_more_held(stock, id);
    } else {
        lemma_one_more_new(stock, id);
    }
    assert forall|other: Seq<char>| other != id implies #[trigger] held(grown, other) == held(
        stock,
        other,
    ) by {
        lemma_one_more_other(stock, id, other);
    }
    assert forall|other: Seq<char>| other != id implies #[trigger] count_of(grown, other)
        == count_of(stock, other) by {
        lemma_one_more_other(stock, id, other);
    }
}

/// One unit more of an id leaves the count of another id alone.
proof fn lemma_one_more_other(stock: Seq<Holding>, id: Seq<char>, other: Seq<char>)
    requires
        well_formed(stock),
        units(stock) < u32::MAX,
        other != id,
    ensures
        held(with_one_more(stock, id), other) == held(stock, other),
        count_of(with_one_more(stock, id), other) == count_of(stock, other),
{
    let grown = with_one_more(stock, id);
    if held(stock, id) {
        lemma_one_more_held(stock, id);
        lemma_slot_of_held(stock, id);
    } else {
        lemma_one_more_new(stock, id);
    }
    if held(stock, other) {
        lemma_slot_of_held(stock, other);
        let at = slot_of(stock, other);
        assert(grown[at] == stock[at]);
        lemma_shared_line(stock, grown, at, at);
    } else if held(grown, other) {
        lemma_slot_of_held(grown, other);
        let at = slot_of(grown, other);
        assert(holding_ids(grown)[at] == other);
        assert(holding_ids(stock)[at] == other);
    }
}

/// Lowering the count of an id held more than once keeps every other line.
proof fn lemma_one_less_kept(stock: Seq<Holding>, id: Seq<char>)
    requires
        well_formed(stock),
        held(stock, id),
        stock[slot_of(stock, id)].count > 1,
    ensures
        well_formed(with_one_less(stock, id)),
        units(with_one_less(stock, id)) == units(stock) - 1,
        count_of(with_one_less(stock, id), id) == count_of(stock, id) - 1,
        holding_ids(with_one_less(stock, id)) == holding_ids(stock),
{
    let less = with_one_less(stock, id);
    lemma_slot_of_held(stock, id);
    let slot = slot_of(stock, id);
    lemma_units_update(stock, slot, Holding { id, count: (stock[slot].count - 1) as nat });
    assert(holding_ids(less) =~= holding_ids(stock));
    lemma_slot_at(less, slot);
}

/// Giving up the last unit of an id takes its line out and keeps every
/// other line.
proof fn lemma_one_less_gone(stock: Seq<Holding>, id: Seq<char>)
    requires
        well_formed(stock),
        held(stock, id),
        stock[slot_of(stock, id)].count <= 1,
    ensures
        well_formed(with_one_less(stock, id)),
        units(with_one_less(stock, id)) == units(stock) - 1,
        !held(with_one_less(stock, id), id),
        count_of(stock, id) == 1,
        holding_ids(with_one_less(stock, id)) == holding_ids(stock).remove(slot_of(stock, id)),
{
    let less = with_one_less(stock, id);
    lemma_slot_of_held(stock, id);
    let slot = slot_of(stock, id);
    let ids = holding_ids(stock);
    let less_ids = holding_ids(less);
    assert(stock[slot].count >= 1);
    lemma_units_remove(stock, slot);
    assert(less_ids =~= ids.remove(slot));
    assert forall|i: int, j: int|
        0 <= i < less_ids.len() && 0 <= j < less_ids.len() && i != j implies less_ids[i]
        != less_ids[j] by {
        let before_i = if i < slot {
            i
        } else {
            i + 1
        };
        let before_j = if j < slot {
            j
        } else {
            j + 1
        };
        assert(less_ids[i] == ids[before_i]);
        assert(less_ids[j] == ids[before_j]);
        assert(ids[before_i] != ids[before_j]);
    }
    assert forall|i: int| 0 <= i < less.len() implies (#[trigger] less[i]).count >= 1 by {
        let before = if i < slot {
            i
        } else {
            i + 1
        };
        assert(less[i] == stock[before]);
    }
    if held(less, id) {
        let again = less_ids.index_of(id);
        assert(0 <= again < less_ids.len() && less_ids[again] == id);
        let before = if again < slot {
            again
        } else {
            again + 1
        };
        assert(ids[before] == id);
        assert(ids[slot] == id);
        assert(ids[before] != ids[slot]);
    }
}

/// One unit less of an id leaves the count of another id alone.
proof fn lemma_one_less_other(stock: Seq<Holding>, id: Seq<char>, other: Seq<char>)
    requires
        well_formed(stock),
        held(stock, id),
        other != id,
    ensures
        held(with_one_less(stock, id), other) == held(stock, other),
        count_of(with_one_less(stock, id), other) == count_of(stock, other),
{
    let less = with_one_less(stock, id);
    lemma_slot_of_held(stock, id);
    let slot = slot_of(stock, id);
    let gone = stock[slot].count <= 1;
    if gone {
        lemma_one_less_gone(stock, id);
    } else {
        lemma_one_less_kept(stock, id);
    }
    if held(stock, other) {
        lemma_slot_of_held(stock, other);
        let at = slot_of(stock, other);
        let to = if gone && at > slot {
            at - 1
        } else {
            at
        };
        assert(less[to] == stock[at]);
        lemma_shared_line(stock, less, at, to);
    } else if held(less, other) {
        lemma_slot_of_held(less, other);
        let at = slot_of(less, other);
        let from = if gone && at >= slot {
            at + 1
        } else {
            at
        };
        assert(holding_ids(less)[at] == other);
        assert(holding_ids(stock)[from] == other);
    }
}

/// One unit less of a held id keeps the inventory well formed, takes one
/// unit out, lowers the count of that id by one and leaves every other count
/// alone.
pub proof fn lemma_one_less(stock: Seq<Holding>, id: Seq<char>)
    requires
        well_formed(stock),
        held(stock, id),
    ensures
        well_formed(with_one_less(stock, id)),
        units(with_one_less(stock, id)) == units(stock) - 1,
        count_of(with_one_less(stock, id), id) == count_of(stock, id) - 1,
        forall|other: Seq<char>|
            other != id ==> #[trigger] held(with_one_less(stock, id), other) == held(stock, other),
        forall|other: Seq<char>|
            other != id ==> #[trigger] count_of(with_one_less(stock, id), other) == count_of(stock, other),
{
    let less = with_one_less(stock, id);
    lemma_slot_of_held(stock, id);
    if stock[slot_of(stock, id)].count <= 1 {
        lemma_one_less_gone(stock, id);
    } else {
        lemma_one_less_kept(stock, id);
    }
    assert forall|other: Seq<char>| other != id implies #[trigger] held(less, other) == held(
        stock,
        other,
    ) by {
        lemma_one_less_other(stock, id, other);
    }
    assert forall|other: Seq<char>| other != id implies #[trigger] count_of(less, other)
        == count_of(stock, other) by {
        lemma_one_less_other(stock, id, other);
    }
}

#[derive(Debug)]
struct Slot {
    id: String,
    count: u32,
}

/// An inventory: item ids with the number of units held of each, in the
/// order in which the ids came in.
#[derive(Debug)]
pub struct RawInventory {
    slots: Vec<Slot>,
}

impl View for RawInventory {
    type V = Seq<Holding>;

    closed spec fn view(&self) -> Seq<Holding> {
        Seq::new(
            self.slots@.len(),
            |i: int| Holding { id: self.slots@[i].id@, count: self.slots@[i].count as nat },
        )
    }
}

impl RawInventory {
    /// Whether the inventory is well formed. Every inventory that this
    /// library hands out is.
    pub open spec fn wf(&self) -> bool {
        well_formed(self@)
    }

    /// An inventory that holds nothing.
    pub fn new() -> (inventory: RawInventory)
        ensures
            inventory@ == Seq::<Holding>::empty(),
            inventory.wf(),
    {
        let inventory = RawInventory { slots: Vec::new() };
        assert(inventory@ =~= Seq::<Holding>::empty());
        assert(holding_ids(inventory@) =~= Seq::<Seq<char>>::empty());
        inventory
    }

    /// The number of lines, that is of different ids.
    pub fn len(&self) -> (len: usize)
        ensures
            len == self@.len(),
    {
        self.slots.len()
    }

    /// The id of a line.
    pub fn id_at(&self, index: usize) -> (id: &String)
        requires
            index < self@.len(),
        ensures
            id@ == self@[index as int].id,
    {
        &self.slots[index].id
    }

    /// The units of a line.
    pub fn count_at(&self, index: usize) -> (count: u32)
        requires
            index < self@.len(),
        ensures
            count == self@[index as int].count,
    {
        self.slots[index].count
    }

    /// The index of the line of an id.
    pub fn position(&self, id: &str) -> (slot: Option<usize>)
        requires
            self.wf(),
        ensures
            slot is Some <==> held(self@, id@),
            slot matches Some(index) ==> index == slot_of(self@, id@) && index < self@.len(),
    {
        let key = String::from_str(id);
        let mut index: usize = 0;
        while index < self.slots.len()
            invariant
                index <= self.slots@.len(),
                key@ == id@,
                self.wf(),
                forall|i: int| 0 <= i < index ==> (#[trigger] self@[i]).id != id@,
            decreases self.slots@.len() - index,
        {
            if self.slots[index].id == key {
                proof {
                    assert(self@[index as int].id == id@);
                    lemma_slot_at(self@, index as int);
                }
                return Some(index);
            }
            index += 1;
        }
        proof {
            if held(self@, id@) {
                lemma_slot_of_held(self@, id@);
            }
        }
        None
    }

    /// The units held of an id, `None` where it is not held.
    pub fn get(&self, id: &str) -> (count: Option<u32>)
        requires
            self.wf(),
        ensures
            count is Some <==> held(self@, id@),
            count matches Some(units) ==> units == count_of(self@, id@) && units >= 1,
    {
        match self.position(id) {
            Some(index) => Some(self.slots[index].count),
            None => None,
        }
    }

    /// Takes in one unit of an id.
    pub fn add(&mut self, id: &str)
        requires
            old(self).wf(),
            units(old(self)@) < u32::MAX,
        ensures
            final(self)@ == with_one_more(old(self)@, id@),
            final(self).wf(),
    {
        proof {
            lemma_one_more(self@, id@);
        }
        let ghost before = self@;
        match self.position(id) {
            Some(index) => {
                proof {
                    lemma_count_within_units(self@, index as int);
                }
                self.slots[index].count += 1;
                assert(self@ =~= with_one_more(before, id@));
            },
            None => {
                self.slots.push(Slot { id: String::from_str(id), count: 1 });
                assert(self@ =~= with_one_more(before, id@));
            },
        }
    }

    /// Gives up one unit of an id, or reports that none is held.
    pub fn remove(&mut self, id: &str) -> (outcome: Result<(), ItemError>)
        requires
            old(self).wf(),
        ensures
            outcome is Ok <==> held(old(self)@, id@),
            final(self)@ == with_one_less(old(self)@, id@),
            final(self).wf(),
    {
        let ghost before = self@;
        match self.position(id) {
            Some(index) => {
                proof {
                    lemma_one_less(self@, id@);
                }
                if self.slots[index].count > 1 {
                    self.slots[index].count -= 1;
                    assert(self@ =~= with_one_less(before, id@));
                } else {
                    self.slots.remove(index);
                    assert(self@ =~= with_one_less(before, id@));
                }
                Ok(())
            },
            None => Err(ItemError {  }),
        }
    }

    /// The number of units over all ids.
    pub fn total(&self) -> (total: u32)
        requires
            self.wf(),
        ensures
            total == units(self@),
    {
        let mut total: u32 = 0;
        let mut index: usize = 0;
        proof {
            assert(self@.take(0) =~= Seq::<Holding>::empty());
        }
        while index < self.slots.len()
            invariant
                index <= self.slots@.len(),
                self.slots@.len() == self@.len(),
                self.wf(),
                total == units(self@.take(index as int)),
            decreases self.slots@.len() - index,
        {
            proof {
                lemma_units_prefix(self@, index as int);
                lemma_units_prefix(self@, index as int + 1);
            }
            total += self.slots[index].count;
            index += 1;
        }
        proof {
            assert(self@.take(index as int) =~= self@);
        }
        total
    }

    /// The lines ranked by their units, the most first; lines of as many
    /// units keep their order.
    pub fn by_count(&self) -> (order: Vec<usize>)
        ensures
            ranked(self@, slots_of(order@), self@.len() as int),
    {
        let mut order: Vec<usize> = Vec::new();
        let mut index: usize = 0;
        while index < self.slots.len()
            invariant
                index <= self.slots@.len(),
                self.slots@.len() == self@.len(),
                ranked(self@, slots_of(order@), index as int),
                forall|k: int| 0 <= k < order@.len() ==> (#[trigger] order@[k]) < index,
            decreases self.slots@.len() - index,
        {
            let count = self.slots[index].count;
            let mut place: usize = 0;
            while place < order.len() && self.slots[order[place]].count >= count
                invariant
                    place <= order@.len(),
                    index < self.slots@.len(),
                    self.slots@.len() == self@.len(),
                    count == self@[index as int].count,
                    ranked(self@, slots_of(order@), index as int),
                    forall|k: int| 0 <= k < order@.len() ==> (#[trigger] order@[k]) < index,
                    forall|k: int|
                        0 <= k < place ==> self@[(#[trigger] slots_of(order@)[k])].count >= count,
                decreases order@.len() - place,
            {
                proof {
                    assert(slots_of(order@)[place as int] == order@[place as int]);
                }
                place += 1;
            }
            let ghost before = slots_of(order@);
            let ghost listed_before = order@;
            proof {
                if place < order@.len() {
                    assert(before[place as int] == order@[place as int]);
                }
            }
            order.insert(place, index);
            proof {
                let after = slots_of(order@);
                assert(after =~= before.insert(place as int, index as int));
                assert forall|k: int| 0 <= k < order@.len() implies (#[trigger] order@[k]) < index
                    + 1 by {
                    if k < place {
                        assert(order@[k] == listed_before[k]);
                    } else if k > place {
                        assert(order@[k] == listed_before[k - 1]);
                    }
                }
                assert forall|k: int| 0 <= k < after.len() implies 0 <= #[trigger] after[k] < index
                    + 1 by {
                    if k < place {
                        assert(after[k] == before[k]);
                    } else if k > place {
                        assert(after[k] == before[k - 1]);
                    }
                }
                assert forall|a: int, b: int| 0 <= a < b < after.len() implies outranks(
                    self@,
                    #[trigger] after[a],
                    #[trigger] after[b],
                ) by {
                    if b < place {
                        assert(after[a] == before[a] && after[b] == before[b]);
                    } else if b == place {
                        assert(after[a] == before[a]);
                    } else if a < place {
                        assert(after[a] == before[a] && after[b] == before[b - 1]);
                    } else if a == place {
                        assert(after[b] == before[b - 1]);
                        if b - 1 > place {
                            assert(outranks(self@, before[place as int], before[b - 1]));
                        }
                    } else {
                        assert(after[a] == before[a - 1] && after[b] == before[b - 1]);
                    }
                }
            }
            index += 1;
        }
        order
    }
}

/// Whether the catalog has every id of the inventory.
pub open spec fn all_listed(stock: Seq<Holding>, items: Seq<ItemView>) -> bool {
    forall|i: int| 0 <= i < stock.len() ==> listed(items, (#[trigger] stock[i]).id)
}

/// The items of an inventory, unit by unit: line after line, the catalog's
/// item as many times as the line counts.
pub open spec fn unfolded(stock: Seq<Holding>, items: Seq<ItemView>) -> Seq<ItemView>
    decreases stock.len(),
{
    if stock.len() == 0 {
        Seq::empty()
    } else {
        unfolded(stock.drop_last(), items) + Seq::new(
            stock.last().count,
            |k: int| lookup(items, stock.last().id),
        )
    }
}

/// The best defense that the armor of an inventory gives to a limb, 0 where
/// it has no armor for it.
pub open spec fn limb_defense(stock: Seq<Holding>, items: Seq<ItemView>, limb: Limb) -> nat
    decreases stock.len(),
{
    if stock.len() == 0 {
        0
    } else {
        let before = limb_defense(stock.drop_last(), items, limb);
        let last = armor_of(items, stock.last().id, limb);
        if last > before {
            last
        } else {
            before
        }
    }
}

/// The defense of an inventory: the best armor of each limb, summed over the
/// limbs. Two pieces for one limb do not add up.
pub open spec fn total_defense(stock: Seq<Holding>, items: Seq<ItemView>) -> nat {
    limb_defense(stock, items, Limb::Head) + limb_defense(stock, items, Limb::Body) + limb_defense(
        stock,
        items,
        Limb::Hands,
    ) + limb_defense(stock, items, Limb::Feet) + limb_defense(stock, items, Limb::Shield)
}

/// The items behind a list of references, as the contracts see them.
pub open spec fn ref_views(items: Seq<&Item>) -> Seq<ItemView> {
    items.map_values(|item: &Item| item@)
}

/// The defense of a limb is that of one of its pieces, and no piece for the
/// limb gives more.
pub proof fn lemma_limb_defense_is_best(stock: Seq<Holding>, items: Seq<ItemView>, limb: Limb)
    ensures
        forall|i: int|
            0 <= i < stock.len() ==> armor_of(items, (#[trigger] stock[i]).id, limb) <= limb_defense(
                stock,
                items,
                limb,
            ),
        limb_defense(stock, items, limb) == 0 || exists|i: int|
            0 <= i < stock.len() && armor_of(items, (#[trigger] stock[i]).id, limb) == limb_defense(
                stock,
                items,
                limb,
            ),
    decreases stock.len(),
{
    if stock.len() > 0 {
        let shorter = stock.drop_last();
        lemma_limb_defense_is_best(shorter, items, limb);
        let best = limb_defense(stock, items, limb);
        assert forall|i: int| 0 <= i < stock.len() implies armor_of(
            items,
            (#[trigger] stock[i]).id,
            limb,
        ) <= best by {
            if i < stock.len() - 1 {
                assert(shorter[i] == stock[i]);
            }
        }
        if best != 0 {
            if armor_of(items, stock.last().id, limb) == best {
                assert(stock[stock.len() - 1] == stock.last());
            } else {
                let at = choose|i: int|
                    0 <= i < shorter.len() && armor_of(items, (#[trigger] shorter[i]).id, limb)
                        == limb_defense(shorter, items, limb);
                assert(stock[at] == shorter[at]);
            }
        }
    }
}

/// The defense of an inventory does not depend on the number of units held:
/// the lines of an inventory with one unit more of a held id give the same.
pub proof fn lemma_defense_ignores_counts(
    stock: Seq<Holding>,
    other: Seq<Holding>,
    items: Seq<ItemView>,
    limb: Limb,
)
    requires
        holding_ids(stock) == holding_ids(other),
    ensures
        limb_defense(stock, items, limb) == limb_defense(other, items, limb),
    decreases stock.len(),
{
    assert(stock.len() == holding_ids(stock).len());
    assert(other.len() == holding_ids(other).len());
    if stock.len() > 0 {
        assert(holding_ids(stock.drop_last()) =~= holding_ids(stock).drop_last());
        assert(holding_ids(other.drop_last()) =~= holding_ids(other).drop_last());
        lemma_defense_ignores_counts(stock.drop_last(), other.drop_last(), items, limb);
        assert(holding_ids(stock)[stock.len() - 1] == stock.last().id);
        assert(holding_ids(other)[other.len() - 1] == other.last().id);
    }
}

/// The items of an inventory, unit by unit, in the order of its lines.
pub fn items_of<'a, 'b>(inventory: &RawInventory, world: &'a World) -> (items: Vec<&'b Item>) where
    'a: 'b,

    requires
        inventory.wf(),
        world.wf(),
        all_listed(inventory@, world@.items),
    ensures
        ref_views(items@) == unfolded(inventory@, world@.items),
{
    let mut items: Vec<&'b Item> = Vec::new();
    let mut index: usize = 0;
    proof {
        assert(inventory@.take(0) =~= Seq::<Holding>::empty());
    }
    while index < inventory.len()
        invariant
            index <= inventory@.len(),
            inventory.wf(),
            world.wf(),
            all_listed(inventory@, world@.items),
            ref_views(items@) =~= unfolded(inventory@.take(index as int), world@.items),
        decreases inventory@.len() - index,
    {
        let ghost line = inventory@[index as int];
        let ghost done = unfolded(inventory@.take(index as int), world@.items);
        assert(listed(world@.items, line.id));
        let count = inventory.count_at(index);
        match world.get_item(inventory.id_at(index).as_str()) {
            Some(item) => {
                let mut unit: u32 = 0;
                while unit < count
                    invariant
                        unit <= count,
                        item@ == lookup(world@.items, line.id),
                        ref_views(items@) =~= done + Seq::new(
                            unit as nat,
                            |k: int| lookup(world@.items, line.id),
                        ),
                    decreases count - unit,
                {
                    let ghost before = items@;
                    items.push(item);
                    proof {
                        let entry = lookup(world@.items, line.id);
                        assert(ref_views(items@) =~= ref_views(before).push(entry));
                        assert(Seq::new((unit + 1) as nat, |k: int| entry) =~= Seq::new(
                            unit as nat,
                            |k: int| entry,
                        ).push(entry));
                    }
                    unit += 1;
                }
            },
            None => {},
        }
        proof {
            assert(inventory@.take(index + 1).drop_last() =~= inventory@.take(index as int));
            assert(inventory@.take(index + 1).last() == line);
        }
        index += 1;
    }
    proof {
        assert(inventory@.take(index as int) =~= inventory@);
    }
    items
}

/// The best defense that the armor of an inventory gives to each limb:
/// head, body, hands, feet and shield, in this order.
fn limb_bests(inventory: &RawInventory, world: &World) -> (bests: (u64, u64, u64, u64, u64))
    requires
        inventory.wf(),
        world.wf(),
        all_listed(inventory@, world@.items),
    ensures
        bests.0 == limb_defense(inventory@, world@.items, Limb::Head),
        bests.1 == limb_defense(inventory@, world@.items, Limb::Body),
        bests.2 == limb_defense(inventory@, world@.items, Limb::Hands),
        bests.3 == limb_defense(inventory@, world@.items, Limb::Feet),
        bests.4 == limb_defense(inventory@, world@.items, Limb::Shield),
{
    let mut head: u64 = 0;
    let mut body: u64 = 0;
    let mut hands: u64 = 0;
    let mut feet: u64 = 0;
    let mut shield: u64 = 0;
    let mut index: usize = 0;
    proof {
        assert(inventory@.take(0) =~= Seq::<Holding>::empty());
    }
    while index < inventory.len()
        invariant
            index <= inventory@.len(),
            inventory.wf(),
            world.wf(),
            all_listed(inventory@, world@.items),
            head == limb_defense(inventory@.take(index as int), world@.items, Limb::Head),
            body == limb_defense(inventory@.take(index as int), world@.items, Limb::Body),
            hands == limb_defense(inventory@.take(index as int), world@.items, Limb::Hands),
            feet == limb_defense(inventory@.take(index as int), world@.items, Limb::Feet),
            shield == limb_defense(inventory@.take(index as int), world@.items, Limb::Shield),
        decreases inventory@.len() - index,
    {
        proof {
            assert(inventory@.take(index + 1).drop_last() =~= inventory@.take(index as int));
            assert(inventory@.take(index + 1).last() == inventory@[index as int]);
            assert(listed(world@.items, inventory@[index as int].id));
        }
        match world.get_item(inventory.id_at(index).as_str()) {
            Some(item) => {
                match item.kind() {
                    ItemKind::Armor { defense, limb } => {
                        match limb {
                            Limb::Head => if defense > head {
                                head = defense;
                            },
                            Limb::Body => if defense > body {
                                body = defense;
                            },
                            Limb::Hands => if defense > hands {
                                hands = defense;
                            },
                            Limb::Feet => if defense > feet {
                                feet = defense;
                            },
                            Limb::Shield => if defense > shield {
                                shield = defense;
                            },
                        }
                    },
                    _ => {},
                }
            },
            None => {},
        }
        index += 1;
    }
    proof {
        assert(inventory@.take(index as int) =~= inventory@);
    }
    (head, body, hands, feet, shield)
}

/// The defense that the armor of an inventory gives.
pub fn defense_of(inventory: &RawInventory, world: &World) -> (defense: u64)
    requires
        inventory.wf(),
        world.wf(),
        all_listed(inventory@, world@.items),
        total_defense(inventory@, world@.items) <= u64::MAX,
    ensures
        defense == total_defense(inventory@, world@.items),
{
    let bests = limb_bests(inventory, world);
    bests.0 + bests.1 + bests.2 + bests.3 + bests.4
}

/// The defense that the armor of an inventory gives, `None` where it is
/// more than a `u64` holds.
pub fn checked_defense_of(inventory: &RawInventory, world: &World) -> (defense: Option<u64>)
    requires
        inventory.wf(),
        world.wf(),
        all_listed(inventory@, world@.items),
    ensures
        defense is Some <==> total_defense(inventory@, world@.items) <= u64::MAX,
        defense matches Some(sum) ==> sum == total_defense(inventory@, world@.items),
{
    let bests = limb_bests(inventory, world);
    let sum: u128 = bests.0 as u128 + bests.1 as u128 + bests.2 as u128 + bests.3 as u128
        + bests.4 as u128;
    if sum <= u64::MAX as u128 {
        Some(sum as u64)
    } else {
        None
    }
}

/// The inventory with `count` units more of `id`.
pub open spec fn with_more(stock: Seq<Holding>, id: Seq<char>, count: nat) -> Seq<Holding>
    decreases count,
{
    if count == 0 {
        stock
    } else {
        with_one_more(with_more(stock, id, (count - 1) as nat), id)
    }
}

/// The inventory with all of `loot` taken in, line after line.
pub open spec fn with_all(stock: Seq<Holding>, loot: Seq<Holding>) -> Seq<Holding>
    decreases loot.len(),
{
    if loot.len() == 0 {
        stock
    } else {
        with_more(with_all(stock, loot.drop_last()), loot.last().id, loot.last().count)
    }
}

/// One unit more of an id of the catalog keeps every id in the catalog.
pub proof fn lemma_one_more_listed(stock: Seq<Holding>, id: Seq<char>, items: Seq<ItemView>)
    requires
        all_listed(stock, items),
        listed(items, id),
    ensures
        all_listed(with_one_more(stock, id), items),
{
    let grown = with_one_more(stock, id);
    if held(stock, id) {
        lemma_slot_of_held(stock, id);
    }
    assert forall|i: int| 0 <= i < grown.len() implies listed(items, (#[trigger] grown[i]).id) by {
        if i < stock.len() {
            assert(grown[i].id == stock[i].id);
        }
    }
}

/// Units taken in keep the inventory well formed and its ids in the
/// catalog, and add to its units and to the count of their id.
pub proof fn lemma_with_more(stock: Seq<Holding>, id: Seq<char>, count: nat, items: Seq<ItemView>)
    requires
        well_formed(stock),
        units(stock) + count <= u32::MAX,
        all_listed(stock, items),
        listed(items, id),
    ensures
        well_formed(with_more(stock, id, count)),
        all_listed(with_more(stock, id, count), items),
        units(with_more(stock, id, count)) == units(stock) + count,
        count_of(with_more(stock, id, count), id) == count_of(stock, id) + count,
    decreases count,
{
    if count > 0 {
        let before = with_more(stock, id, (count - 1) as nat);
        lemma_with_more(stock, id, (count - 1) as nat, items);
        lemma_one_more(before, id);
        lemma_one_more_listed(before, id, items);
    }
}

/// Loot taken in keeps the inventory well formed and its ids in the
/// catalog, and adds its units.
pub proof fn lemma_with_all(stock: Seq<Holding>, loot: Seq<Holding>, items: Seq<ItemView>)
    requires
        well_formed(stock),
        units(stock) + units(loot) <= u32::MAX,
        all_listed(stock, items),
        all_listed(loot, items),
    ensures
        well_formed(with_all(stock, loot)),
        all_listed(with_all(stock, loot), items),
        units(with_all(stock, loot)) == units(stock) + units(loot),
    decreases loot.len(),
{
    if loot.len() > 0 {
        let shorter = loot.drop_last();
        assert forall|i: int| 0 <= i < shorter.len() implies listed(
            items,
            (#[trigger] shorter[i]).id,
        ) by {
            assert(shorter[i] == loot[i]);
        }
        lemma_with_all(stock, shorter, items);
        assert(listed(items, loot[loot.len() - 1].id));
        lemma_with_more(with_all(stock, shorter), loot.last().id, loot.last().count, items);
    }
}

/// Whether the line `first` stands before the line `second` when lines are
/// ranked by their units: it holds more, or as much and stands earlier in the
/// inventory.
pub open spec fn outranks(stock: Seq<Holding>, first: int, second: int) -> bool {
    stock[first].count > stock[second].count || (stock[first].count == stock[second].count && first
        < second)
}

/// Whether `order` ranks the first `bound` lines of the inventory by their
/// units, the most first: it names each of them once, and each line named
/// outranks those named after it.
pub open spec fn ranked(stock: Seq<Holding>, order: Seq<int>, bound: int) -> bool {
    &&& order.len() == bound
    &&& forall|k: int| 0 <= k < order.len() ==> 0 <= #[trigger] order[k] < bound
    &&& forall|a: int, b: int|
        0 <= a < b < order.len() ==> outranks(stock, #[trigger] order[a], #[trigger] order[b])
}

/// The slots of a list of indices, as the contracts see them.
pub open spec fn slots_of(order: Seq<usize>) -> Seq<int> {
    order.map_values(|slot: usize| slot as int)
}

/// What holds an inventory: the player, and a cave with its loot.
pub trait Inventory {
    /// The lines of the inventory.
    spec fn stock(&self) -> Seq<Holding>;

    fn inventory(&self) -> (inventory: &RawInventory)
        ensures
            inventory@ == self.stock(),
    ;

    fn mut_inventory(&mut self) -> (inventory: &mut RawInventory)
        ensures
            inventory@ == old(self).stock(),
            final(self).stock() == final(inventory)@,
    ;

    /// The items held, unit by unit, in the order of the lines.
    fn inventory_items<'a, 'b>(&self, world: &'a World) -> (items: Vec<&'b Item>) where 'a: 'b
        requires
            well_formed(self.stock()),
            world.wf(),
            all_listed(self.stock(), world@.items),
        ensures
            ref_views(items@) == unfolded(self.stock(), world@.items),
    {
        items_of(self.inventory(), world)
    }

    /// The number of units held over all ids.
    fn item_count(&self) -> (count: u32)
        requires
            well_formed(self.stock()),
        ensures
            count == units(self.stock()),
    {
        self.inventory().total()
    }

    /// Takes in one unit of an item.
    fn add_item(&mut self, item: &str)
        requires
            well_formed(old(self).stock()),
            units(old(self).stock()) < u32::MAX,
        ensures
            final(self).stock() == with_one_more(old(self).stock(), item@),
            well_formed(final(self).stock()),
    {
        self.mut_inventory().add(item);
    }

    /// The units held of an item, `None` where none is held.
    fn has_item(&self, item: &str) -> (count: Option<u32>)
        requires
            well_formed(self.stock()),
        ensures
            count is Some <==> held(self.stock(), item@),
            count matches Some(units) ==> units == count_of(self.stock(), item@) && units >= 1,
    {
        self.inventory().get(item)
    }

    /// Gives up one unit of an item, or reports that none is held.
    fn remove_item(&mut self, item: &str) -> (outcome: Result<(), ItemError>)
        requires
            well_formed(old(self).stock()),
        ensures
            outcome is Ok <==> held(old(self).stock(), item@),
            final(self).stock() == with_one_less(old(self).stock(), item@),
            well_formed(final(self).stock()),
    {
        self.mut_inventory().remove(item)
    }

    /// The defense that the armor held gives: for each limb the best piece,
    /// summed over the limbs.
    fn defense(&self, world: &World) -> (defense: u64)
        requires
            well_formed(self.stock()),
            world.wf(),
            all_listed(self.stock(), world@.items),
            total_defense(self.stock(), world@.items) <= u64::MAX,
        ensures
            defense == total_defense(self.stock(), world@.items),
    {
        defense_of(self.inventory(), world)
    }
}

} // verus!
