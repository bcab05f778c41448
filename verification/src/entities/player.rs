//! The player: experience, damage, gold and an inventory, with the stats
//! derived from them.

use super::inventory::{
    all_listed, count_of, defense_of, held, holding_ids, lemma_defense_ignores_counts,
    lemma_limb_defense_is_best, lemma_one_less, lemma_slot_at, lemma_slot_of_held,
    lemma_units_remove, lemma_units_update, limb_defense, slot_of, total_defense, units,
    well_formed, with_one_less, with_one_more, Holding, Inventory, RawInventory,
};
use super::item::{armor_of, listed, potion_of, value_of, ItemKind, ItemView, Limb};
use super::world::{texts, World};
use super::{hp_for, level_for, ItemError, Level};
use vstd::prelude::*;

verus! {

/// The player of a game.
#[derive(Debug)]
pub struct Player {
    name: String,
    xp: u64,
    damage: u64,
    gold: u64,
    inventory: RawInventory,
}

/// A player as the contracts see it.
pub struct PlayerView {
    pub name: Seq<char>,
    pub xp: u64,
    pub damage: u64,
    pub gold: u64,
    pub inventory: Seq<Holding>,
}

impl View for Player {
    type V = PlayerView;

    closed spec fn view(&self) -> PlayerView {
        PlayerView {
            name: self.name@,
            xp: self.xp,
            damage: self.damage,
            gold: self.gold,
            inventory: self.inventory@,
        }
    }
}

/// The hit points of a player with this experience.
pub open spec fn hp_at(xp: nat) -> nat {
    hp_for(level_for(xp))
}

/// The share of a blow that a defense takes away, in hundredths of a
/// percent: 12 percent for every 100 points of defense, and never more than
/// the whole blow.
pub open spec fn reduction_of(defense: nat) -> nat {
    if 12 * defense > 10_000 {
        10_000
    } else {
        12 * defense
    }
}

/// The damage that is left of a blow behind a defense, rounded to the
/// nearest whole number, halves upward.
pub open spec fn reduced_damage(amount: nat, defense: nat) -> nat {
    ((amount * (10_000 - reduction_of(defense)) + 5_000) / 10_000) as nat
}

/// The damage that is left after healing: never below zero.
pub open spec fn damage_after_heal(damage: nat, amount: nat) -> nat {
    if amount >= damage {
        0
    } else {
        (damage - amount) as nat
    }
}

/// The value of an inventory: the value of each item, times the units held.
pub open spec fn worth(stock: Seq<Holding>, items: Seq<ItemView>) -> nat
    decreases stock.len(),
{
    if stock.len() == 0 {
        0
    } else {
        worth(stock.drop_last(), items) + stock.last().count * value_of(items, stock.last().id)
    }
}

/// The line of the potion that restores the most hit points, the earliest
/// such line where several restore as much; `None` where no potion is held.
pub open spec fn best_potion(stock: Seq<Holding>, items: Seq<ItemView>) -> Option<int>
    decreases stock.len(),
{
    if stock.len() == 0 {
        None
    } else {
        let before = best_potion(stock.drop_last(), items);
        match potion_of(items, stock.last().id) {
            None => before,
            Some(restored) => match before {
                None => Some(stock.len() - 1),
                Some(at) => if restored > potion_of(items, stock[at].id).unwrap_or(0) {
                    Some(stock.len() - 1)
                } else {
                    before
                },
            },
        }
    }
}

/// What healing by potions comes to.
pub struct Healing {
    /// The damage that is left.
    pub damage: nat,
    /// The inventory that is left.
    pub stock: Seq<Holding>,
    /// The ids of the potions drunk, in order.
    pub used: Seq<Seq<char>>,
}

/// Healing by potions: while the damage exceeds the hit points and a potion
/// is held, the potion that restores most is drunk. It lowers the damage by
/// what it restores, and one unit of it leaves the inventory.
pub open spec fn healed(damage: nat, hp: nat, stock: Seq<Holding>, items: Seq<ItemView>) -> Healing
    decreases units(stock) + stock.len(),
{
    if damage <= hp {
        Healing { damage, stock, used: Seq::empty() }
    } else {
        match best_potion(stock, items) {
            None => Healing { damage, stock, used: Seq::empty() },
            Some(at) => {
                let id = stock[at].id;
                let restored = potion_of(items, id).unwrap_or(0);
                proof {
                    lemma_best_potion(stock, items);
                    lemma_one_less_shrinks(stock, id);
                }
                let rest = healed(
                    damage_after_heal(damage, restored),
                    hp,
                    with_one_less(stock, id),
                    items,
                );
                Healing { damage: rest.damage, stock: rest.stock, used: seq![id] + rest.used }
            },
        }
    }
}

/// The best potion is a potion of the inventory, no potion of the inventory
/// restores more, and no earlier one as much. Where there is none, no line
/// is a potion.
pub proof fn lemma_best_potion(stock: Seq<Holding>, items: Seq<ItemView>)
    ensures
        match best_potion(stock, items) {
            Some(at) => {
                &&& 0 <= at < stock.len()
                &&& held(stock, stock[at].id)
                &&& potion_of(items, stock[at].id) is Some
                &&& forall|i: int|
                    0 <= i < stock.len() ==> potion_of(items, (#[trigger] stock[i]).id).unwrap_or(0)
                        <= potion_of(items, stock[at].id).unwrap()
                &&& forall|i: int|
                    0 <= i < at && potion_of(items, (#[trigger] stock[i]).id) is Some ==> potion_of(
                        items,
                        stock[i].id,
                    ).unwrap() < potion_of(items, stock[at].id).unwrap()
            },
            None => forall|i: int|
                0 <= i < stock.len() ==> potion_of(items, (#[trigger] stock[i]).id) is None,
        },
    decreases stock.len(),
{
    if stock.len() > 0 {
        let shorter = stock.drop_last();
        lemma_best_potion(shorter, items);
        assert forall|i: int| 0 <= i < shorter.len() implies #[trigger] shorter[i] == stock[i] by {}
        match best_potion(stock, items) {
            Some(at) => {
                assert(holding_ids(stock)[at] == stock[at].id);
                assert forall|i: int| 0 <= i < stock.len() implies potion_of(
                    items,
                    (#[trigger] stock[i]).id,
                ).unwrap_or(0) <= potion_of(items, stock[at].id).unwrap() by {
                    if i < stock.len() - 1 {
                        assert(shorter[i] == stock[i]);
                    }
                }
                assert forall|i: int|
                    0 <= i < at && potion_of(items, (#[trigger] stock[i]).id) is Some implies potion_of(
                    items,
                    stock[i].id,
                ).unwrap() < potion_of(items, stock[at].id).unwrap() by {
                    assert(shorter[i] == stock[i]);
                }
            },
            None => {
                assert forall|i: int| 0 <= i < stock.len() implies potion_of(
                    items,
                    (#[trigger] stock[i]).id,
                ) is None by {
                    if i < stock.len() - 1 {
                        assert(shorter[i] == stock[i]);
                    }
                }
            },
        }
    }
}

/// One unit less of a held id makes the inventory smaller.
pub proof fn lemma_one_less_shrinks(stock: Seq<Holding>, id: Seq<char>)
    requires
        held(stock, id),
    ensures
        units(with_one_less(stock, id)) + with_one_less(stock, id).len() < units(stock) + stock.len(),
{
    lemma_slot_of_held(stock, id);
    let slot = slot_of(stock, id);
    if stock[slot].count > 1 {
        lemma_units_update(stock, slot, Holding { id, count: (stock[slot].count - 1) as nat });
    } else {
        lemma_units_remove(stock, slot);
    }
}

/// One unit less of a held id leaves only ids that were held before.
pub proof fn lemma_one_less_listed(stock: Seq<Holding>, id: Seq<char>, items: Seq<ItemView>)
    requires
        well_formed(stock),
        held(stock, id),
        all_listed(stock, items),
    ensures
        all_listed(with_one_less(stock, id), items),
{
    let less = with_one_less(stock, id);
    lemma_one_less(stock, id);
    assert forall|j: int| 0 <= j < less.len() implies listed(items, (#[trigger] less[j]).id) by {
        let other = less[j].id;
        lemma_slot_at(less, j);
        if other != id {
            assert(count_of(less, other) == count_of(stock, other));
            assert(held(stock, other));
        }
        lemma_slot_of_held(stock, other);
        assert(listed(items, stock[slot_of(stock, other)].id));
    }
}

/// One unit less of a held id never raises the defense of a limb.
pub proof fn lemma_one_less_defense(
    stock: Seq<Holding>,
    id: Seq<char>,
    items: Seq<ItemView>,
    limb: Limb,
)
    requires
        held(stock, id),
    ensures
        limb_defense(with_one_less(stock, id), items, limb) <= limb_defense(stock, items, limb),
{
    let less = with_one_less(stock, id);
    lemma_slot_of_held(stock, id);
    let slot = slot_of(stock, id);
    if stock[slot].count > 1 {
        assert(holding_ids(less) =~= holding_ids(stock));
        lemma_defense_ignores_counts(less, stock, items, limb);
    } else {
        lemma_limb_defense_is_best(less, items, limb);
        lemma_limb_defense_is_best(stock, items, limb);
        if limb_defense(less, items, limb) != 0 {
            let at = choose|i: int|
                0 <= i < less.len() && armor_of(items, (#[trigger] less[i]).id, limb) == limb_defense(
                    less,
                    items,
                    limb,
                );
            let from = if at < slot {
                at
            } else {
                at + 1
            };
            assert(less[at] == stock[from]);
        }
    }
}

/// Healing lowers the damage by the amount, down to zero: it never raises
/// it, and lowers it wherever both the damage and the amount are above zero.
pub proof fn lemma_heal_lowers(damage: nat, amount: nat)
    ensures
        damage_after_heal(damage, amount) <= damage,
        damage > 0 && amount > 0 ==> damage_after_heal(damage, amount) < damage,
        damage_after_heal(damage, amount) == 0 <==> amount >= damage,
{
}

/// Healing ends with a player who lives or with no potion left, and never
/// with more damage than before.
pub proof fn lemma_healing_ends(damage: nat, hp: nat, stock: Seq<Holding>, items: Seq<ItemView>)
    ensures
        healed(damage, hp, stock, items).damage <= hp || best_potion(
            healed(damage, hp, stock, items).stock,
            items,
        ) is None,
        healed(damage, hp, stock, items).damage <= damage,
        damage <= hp ==> healed(damage, hp, stock, items) == (Healing {
            damage,
            stock,
            used: Seq::empty(),
        }),
    decreases units(stock) + stock.len(),
{
    if damage > hp {
        if let Some(at) = best_potion(stock, items) {
            let id = stock[at].id;
            let restored = potion_of(items, id).unwrap_or(0);
            lemma_best_potion(stock, items);
            lemma_one_less_shrinks(stock, id);
            lemma_healing_ends(damage_after_heal(damage, restored), hp, with_one_less(stock, id), items);
        }
    }
}

/// Healing drinks potions that are held, the strongest first: no potion
/// drunk restores more than one drunk before it.
pub proof fn lemma_healing_strongest_first(
    damage: nat,
    hp: nat,
    stock: Seq<Holding>,
    items: Seq<ItemView>,
)
    requires
        well_formed(stock),
    ensures
        forall|k: int|
            0 <= k < healed(damage, hp, stock, items).used.len() ==> held(
                stock,
                #[trigger] healed(damage, hp, stock, items).used[k],
            ) && potion_of(items, healed(damage, hp, stock, items).used[k]) is Some,
        forall|i: int, j: int|
            0 <= i < j < healed(damage, hp, stock, items).used.len() ==> potion_of(
                items,
                #[trigger] healed(damage, hp, stock, items).used[i],
            ).unwrap() >= potion_of(
                items,
                #[trigger] healed(damage, hp, stock, items).used[j],
            ).unwrap(),
    decreases units(stock) + stock.len(),
{
    let used = healed(damage, hp, stock, items).used;
    if damage > hp {
        if let Some(at) = best_potion(stock, items) {
            let id = stock[at].id;
            let restored = potion_of(items, id).unwrap_or(0);
            let less = with_one_less(stock, id);
            let rest = healed(damage_after_heal(damage, restored), hp, less, items);
            lemma_best_potion(stock, items);
            lemma_one_less_shrinks(stock, id);
            lemma_one_less(stock, id);
            lemma_healing_strongest_first(damage_after_heal(damage, restored), hp, less, items);
            assert(used =~= seq![id] + rest.used);
            assert forall|k: int| 0 <= k < used.len() implies held(stock, #[trigger] used[k])
                && potion_of(items, used[k]) is Some && potion_of(items, used[k]).unwrap()
                <= restored by {
                if k > 0 {
                    let other = rest.used[k - 1];
                    assert(used[k] == other);
                    assert(held(less, other));
                    if other != id {
                        assert(count_of(less, other) == count_of(stock, other));
                    }
                    lemma_slot_of_held(stock, other);
                    assert(stock[slot_of(stock, other)].id == other);
                }
            }
            assert forall|i: int, j: int| 0 <= i < j < used.len() implies potion_of(
                items,
                #[trigger] used[i],
            ).unwrap() >= potion_of(items, #[trigger] used[j]).unwrap() by {
                if i > 0 {
                    assert(used[i] == rest.used[i - 1]);
                    assert(used[j] == rest.used[j - 1]);
                }
            }
        }
    }
}

/// The worth of the first lines never exceeds the worth of all, and grows
/// by the worth of each line taken in.
pub proof fn lemma_worth_prefix(stock: Seq<Holding>, items: Seq<ItemView>, length: int)
    requires
        0 <= length <= stock.len(),
    ensures
        worth(stock.take(length), items) <= worth(stock, items),
        length < stock.len() ==> worth(stock.take(length + 1), items) == worth(
            stock.take(length),
            items,
        ) + stock[length].count * value_of(items, stock[length].id),
    decreases stock.len() - length,
{
    if length < stock.len() {
        assert(stock.take(length + 1).drop_last() =~= stock.take(length));
        lemma_worth_prefix(stock, items, length + 1);
        assert(stock[length].count * value_of(items, stock[length].id) >= 0) by (nonlinear_arith);
    } else {
        assert(stock.take(length) =~= stock);
    }
}

/// The line of the strongest potion of an inventory, with the hit points
/// that it restores.
fn strongest_potion(inventory: &RawInventory, world: &World) -> (found: Option<(usize, u64)>)
    requires
        inventory.wf(),
        world.wf(),
        all_listed(inventory@, world@.items),
    ensures
        match found {
            Some((index, restored)) => best_potion(inventory@, world@.items) == Some(index as int)
                && index < inventory@.len() && potion_of(
                world@.items,
                inventory@[index as int].id,
            ) == Some(restored as nat),
            None => best_potion(inventory@, world@.items) is None,
        },
{
    let mut found: Option<(usize, u64)> = None;
    let mut index: usize = 0;
    proof {
        assert(inventory@.take(0) =~= Seq::<Holding>::empty());
    }
    while index < inventory.len()
        invariant
            index <= inventory@.len(),
            inventory.wf(),
            world.wf(),
            all_listed(inventory@, world@.items),
            match found {
                Some((at, restored)) => best_potion(inventory@.take(index as int), world@.items)
                    == Some(at as int) && at < index && potion_of(
                    world@.items,
                    inventory@[at as int].id,
                ) == Some(restored as nat),
                None => best_potion(inventory@.take(index as int), world@.items) is None,
            },
        decreases inventory@.len() - index,
    {
        proof {
            assert(inventory@.take(index + 1).drop_last() =~= inventory@.take(index as int));
            assert(inventory@.take(index + 1).last() == inventory@[index as int]);
            assert(listed(world@.items, inventory@[index as int].id));
            if let Some((at, restored)) = found {
                assert(inventory@.take(index + 1)[at as int] == inventory@[at as int]);
            }
        }
        match world.get_item(inventory.id_at(index).as_str()) {
            Some(item) => {
                match item.kind() {
                    ItemKind::Potion { hp } => {
                        match found {
                            Some((_, restored)) => if hp > restored {
                                found = Some((index, hp));
                            },
                            None => {
                                found = Some((index, hp));
                            },
                        }
                    },
                    _ => {},
                }
            },
            None => {},
        }
        index += 1;
    }
    proof {
        assert(inventory@.take(index as int) =~= inventory@);
    }
    found
}

impl Player {
    /// Whether the player is well formed: the inventory is. Every player
    /// that this library hands out is.
    pub open spec fn wf(&self) -> bool {
        well_formed(self@.inventory)
    }

    /// A player of this name, with nothing gained and nothing suffered.
    pub fn new(name: &str) -> (player: Player)
        ensures
            player@ == (PlayerView {
                name: name@,
                xp: 0,
                damage: 0,
                gold: 0,
                inventory: Seq::empty(),
            }),
            player.wf(),
    {
        Player { name: String::from_str(name), xp: 0, damage: 0, gold: 0, inventory: RawInventory::new() }
    }

    pub fn name(&self) -> (name: &String)
        ensures
            name@ == self@.name,
    {
        &self.name
    }

    /// The damage taken so far.
    pub fn damage(&self) -> (damage: u64)
        ensures
            damage == self@.damage,
    {
        self.damage
    }

    pub fn gold(&self) -> (gold: u64)
        ensures
            gold == self@.gold,
    {
        self.gold
    }

    pub fn add_gold(&mut self, amount: u64)
        requires
            old(self)@.gold + amount <= u64::MAX,
        ensures
            final(self)@ == (PlayerView { gold: (old(self)@.gold + amount) as u64, ..old(self)@ }),
    {
        self.gold += amount;
    }

    /// Whether the player is dead: the damage taken exceeds the hit points.
    pub fn dead(&self) -> (dead: bool)
        ensures
            dead == (self@.damage > hp_at(self@.xp as nat)),
    {
        self.damage > self.hp()
    }

    /// The hit points that are left, zero for the dead.
    pub fn hp_remaining(&self) -> (left: u64)
        ensures
            left == if self@.damage >= hp_at(self@.xp as nat) {
                0
            } else {
                hp_at(self@.xp as nat) - self@.damage
            },
    {
        self.hp().saturating_sub(self.damage)
    }

    /// Lowers the damage taken by `amount`, down to zero.
    pub fn heal(&mut self, amount: u64)
        ensures
            final(self)@ == (PlayerView {
                damage: damage_after_heal(old(self)@.damage as nat, amount as nat) as u64,
                ..old(self)@
            }),
            final(self)@.damage <= old(self)@.damage,
    {
        self.damage = self.damage.saturating_sub(amount);
    }

    /// The share of a blow that the player's armor takes away, in hundredths
    /// of a percent.
    pub fn damage_reduction(&self, world: &World) -> (reduction: u64)
        requires
            self.wf(),
            world.wf(),
            all_listed(self@.inventory, world@.items),
            total_defense(self@.inventory, world@.items) <= u64::MAX,
        ensures
            reduction == reduction_of(total_defense(self@.inventory, world@.items)),
            reduction <= 10_000,
    {
        let defense = defense_of(&self.inventory, world);
        if defense > 833 {
            10_000
        } else {
            12 * defense
        }
    }

    /// Takes a blow: the damage that is left of it behind the armor is added
    /// to the damage taken, and returned.
    pub fn add_damage(&mut self, amount: u64, world: &World) -> (reduced: u64)
        requires
            old(self).wf(),
            world.wf(),
            all_listed(old(self)@.inventory, world@.items),
            total_defense(old(self)@.inventory, world@.items) <= u64::MAX,
            old(self)@.damage + reduced_damage(
                amount as nat,
                total_defense(old(self)@.inventory, world@.items),
            ) <= u64::MAX,
        ensures
            reduced == reduced_damage(
                amount as nat,
                total_defense(old(self)@.inventory, world@.items),
            ),
            final(self)@ == (PlayerView {
                damage: (old(self)@.damage + reduced) as u64,
                ..old(self)@
            }),
    {
        let reduction = self.damage_reduction(world);
        let share: u64 = 10_000 - reduction;
        assert(amount * share <= u64::MAX * 10_000) by (nonlinear_arith)
            requires
                amount <= u64::MAX,
                share <= 10_000,
        ;
        let scaled: u128 = (amount as u128) * (share as u128) + 5_000;
        let reduced: u64 = (scaled / 10_000) as u64;
        self.damage += reduced;
        reduced
    }

    /// Heals a dead player by the potions held, the strongest first, until
    /// the player lives or no potion is left. Returns the ids of the potions
    /// drunk, in order, or `None` where none was.
    pub fn auto_heal(&mut self, world: &World) -> (used: Option<Vec<String>>)
        requires
            old(self).wf(),
            world.wf(),
            all_listed(old(self)@.inventory, world@.items),
        ensures
            final(self).wf(),
            all_listed(final(self)@.inventory, world@.items),
            ({
                let outcome = healed(
                    old(self)@.damage as nat,
                    hp_at(old(self)@.xp as nat),
                    old(self)@.inventory,
                    world@.items,
                );
                &&& final(self)@ == (PlayerView {
                    damage: outcome.damage as u64,
                    inventory: outcome.stock,
                    ..old(self)@
                })
                &&& final(self)@.damage == outcome.damage
                &&& match used {
                    Some(ids) => texts(ids@) == outcome.used && ids@.len() > 0,
                    None => outcome.used.len() == 0,
                }
            }),
            forall|limb: Limb|
                limb_defense(final(self)@.inventory, world@.items, limb) <= limb_defense(
                    old(self)@.inventory,
                    world@.items,
                    limb,
                ),
    {
        let mut potions_used: Vec<String> = Vec::new();
        let hp = self.hp();
        let ghost outcome = healed(
            self@.damage as nat,
            hp as nat,
            self@.inventory,
            world@.items,
        );
        let mut searching = true;
        proof {
            assert(texts(potions_used@) =~= Seq::<Seq<char>>::empty());
            assert(texts(potions_used@) + outcome.used =~= outcome.used);
        }
        while searching && self.damage > hp
            invariant
                self.wf(),
                world.wf(),
                all_listed(self@.inventory, world@.items),
                hp == hp_at(old(self)@.xp as nat),
                self@.name == old(self)@.name,
                self@.xp == old(self)@.xp,
                self@.gold == old(self)@.gold,
                !searching ==> best_potion(self@.inventory, world@.items) is None,
                healed(self@.damage as nat, hp as nat, self@.inventory, world@.items).damage
                    == outcome.damage,
                healed(self@.damage as nat, hp as nat, self@.inventory, world@.items).stock
                    == outcome.stock,
                texts(potions_used@) + healed(
                    self@.damage as nat,
                    hp as nat,
                    self@.inventory,
                    world@.items,
                ).used == outcome.used,
                forall|limb: Limb|
                    limb_defense(self@.inventory, world@.items, limb) <= limb_defense(
                        old(self)@.inventory,
                        world@.items,
                        limb,
                    ),
            decreases units(self@.inventory) + self@.inventory.len() + if searching {
                1nat
            } else {
                0nat
            },
        {
            match strongest_potion(&self.inventory, world) {
                Some((index, restored)) => {
                    let ghost stock = self@.inventory;
                    let ghost damage = self@.damage as nat;
                    let id = self.inventory.id_at(index).clone();
                    proof {
                        lemma_best_potion(stock, world@.items);
                        lemma_one_less_shrinks(stock, id@);
                        lemma_one_less_listed(stock, id@, world@.items);
                        assert forall|limb: Limb|
                            limb_defense(with_one_less(stock, id@), world@.items, limb)
                                <= limb_defense(stock, world@.items, limb) by {
                            lemma_one_less_defense(stock, id@, world@.items, limb);
                        }
                    }
                    self.heal(restored);
                    let removal = self.inventory.remove(id.as_str());
                    let ghost before = texts(potions_used@);
                    potions_used.push(id);
                    proof {
                        let rest = healed(
                            damage_after_heal(damage, restored as nat),
                            hp as nat,
                            with_one_less(stock, id@),
                            world@.items,
                        );
                        assert(texts(potions_used@) =~= before.push(id@));
                        assert(before.push(id@) + rest.used =~= before + (seq![id@] + rest.used));
                    }
                },
                None => {
                    searching = false;
                },
            }
        }
        if potions_used.len() == 0 {
            None
        } else {
            Some(potions_used)
        }
    }

    /// What the player owns, `None` where it is more than a `u64` holds.
    pub fn checked_net_worth(&self, world: &World) -> (total: Option<u64>)
        requires
            self.wf(),
            world.wf(),
            all_listed(self@.inventory, world@.items),
        ensures
            total is Some <==> self@.gold + worth(self@.inventory, world@.items) <= u64::MAX,
            total matches Some(sum) ==> sum == self@.gold + worth(self@.inventory, world@.items),
    {
        let mut total: u64 = self.gold;
        let mut index: usize = 0;
        proof {
            assert(self@.inventory.take(0) =~= Seq::<Holding>::empty());
        }
        while index < self.inventory.len()
            invariant
                index <= self@.inventory.len(),
                self.wf(),
                world.wf(),
                all_listed(self@.inventory, world@.items),
                total == self@.gold + worth(self@.inventory.take(index as int), world@.items),
            decreases self@.inventory.len() - index,
        {
            proof {
                lemma_worth_prefix(self@.inventory, world@.items, index as int);
                lemma_worth_prefix(self@.inventory, world@.items, index as int + 1);
                assert(listed(world@.items, self@.inventory[index as int].id));
            }
            match world.get_item(self.inventory.id_at(index).as_str()) {
                Some(item) => {
                    let count: u64 = self.inventory.count_at(index) as u64;
                    let value: u64 = item.value();
                    assert(count * value <= u64::MAX * u64::MAX) by (nonlinear_arith)
                        requires
                            count <= u64::MAX,
                            value <= u64::MAX,
                    ;
                    let sum: u128 = total as u128 + (count as u128) * (value as u128);
                    if sum > u64::MAX as u128 {
                        return None;
                    }
                    total = sum as u64;
                },
                None => {},
            }
            index += 1;
        }
        proof {
            assert(self@.inventory.take(index as int) =~= self@.inventory);
        }
        Some(total)
    }

    /// What the player owns: the gold and the value of everything held.
    pub fn net_worth(&self, world: &World) -> (total: u64)
        requires
            self.wf(),
            world.wf(),
            all_listed(self@.inventory, world@.items),
            self@.gold + worth(self@.inventory, world@.items) <= u64::MAX,
        ensures
            total == self@.gold + worth(self@.inventory, world@.items),
    {
        let mut total: u64 = self.gold;
        let mut index: usize = 0;
        proof {
            assert(self@.inventory.take(0) =~= Seq::<Holding>::empty());
        }
        while index < self.inventory.len()
            invariant
                index <= self@.inventory.len(),
                self.wf(),
                world.wf(),
                all_listed(self@.inventory, world@.items),
                self@.gold + worth(self@.inventory, world@.items) <= u64::MAX,
                total == self@.gold + worth(self@.inventory.take(index as int), world@.items),
            decreases self@.inventory.len() - index,
        {
            proof {
                lemma_worth_prefix(self@.inventory, world@.items, index as int);
                lemma_worth_prefix(self@.inventory, world@.items, index as int + 1);
                assert(listed(world@.items, self@.inventory[index as int].id));
            }
            match world.get_item(self.inventory.id_at(index).as_str()) {
                Some(item) => {
                    let count: u64 = self.inventory.count_at(index) as u64;
                    let value: u64 = item.value();
                    total += count * value;
                },
                None => {},
            }
            index += 1;
        }
        proof {
            assert(self@.inventory.take(index as int) =~= self@.inventory);
        }
        total
    }
}

impl Default for Player {
    fn default() -> (player: Player)
        ensures
            player@ == (PlayerView {
                name: "Unnamed"@,
                xp: 0,
                damage: 0,
                gold: 0,
                inventory: Seq::empty(),
            }),
            player.wf(),
    {
        Player::new("Unnamed")
    }
}

impl Level for Player {
    open spec fn spec_xp(&self) -> nat {
        self@.xp as nat
    }

    fn xp(&self) -> (xp: u64) {
        self.xp
    }

    fn add_xp(&mut self, amount: u64)
        ensures
            final(self)@ == (PlayerView { xp: (old(self)@.xp + amount) as u64, ..old(self)@ }),
    {
        self.xp += amount;
    }
}

impl Inventory for Player {
    open spec fn stock(&self) -> Seq<Holding> {
        self@.inventory
    }

    fn inventory(&self) -> (inventory: &RawInventory) {
        &self.inventory
    }

    fn mut_inventory(&mut self) -> (inventory: &mut RawInventory)
        ensures
            final(self)@ == (PlayerView { inventory: final(inventory)@, ..old(self)@ }),
    {
        &mut self.inventory
    }

    fn add_item(&mut self, item: &str)
        ensures
            final(self)@ == (PlayerView {
                inventory: with_one_more(old(self)@.inventory, item@),
                ..old(self)@
            }),
    {
        self.inventory.add(item);
    }

    fn remove_item(&mut self, item: &str) -> (outcome: Result<(), ItemError>)
        ensures
            final(self)@ == (PlayerView {
                inventory: with_one_less(old(self)@.inventory, item@),
                ..old(self)@
            }),
    {
        self.inventory.remove(item)
    }
}

} // verus!
