//! The world: the content catalog, the running counters and the caves.

use super::inventory::{
    all_listed, holding_ids, lemma_one_more, units, Holding, Inventory, RawInventory,
};
use super::item::{item_ids, listed, lookup, Item, ItemView};
use super::monster::{spawned_from, Monster, PotentialMonster, TemplateView};
use super::player::Player;
use super::{level_for, Level, Rarity};
use crate::dice::{draw_between, draw_chance, draw_distinct};
use crate::math::{integer_sqrt, isqrt, lemma_isqrt_bounds};
use rand::rngs::StdRng;
use vstd::prelude::*;

verus! {

/// Running counters of a game.
#[derive(Clone, Copy, PartialEq, Eq, Structural, Debug)]
pub struct Stats {
    pub caves: u64,
    pub monsters: u64,
}

impl Default for Stats {
    fn default() -> (stats: Stats)
        ensures
            stats == (Stats { caves: 0, monsters: 0 }),
    {
        Stats { caves: 0, monsters: 0 }
    }
}

/// How dangerous a cave is made.
#[derive(Clone, Copy, PartialEq, Eq, Structural, PartialOrd, Ord, Debug)]
pub enum CaveDifficulty {
    Easy,
    Hard,
}

/// A cave: what lies in it and who guards it, in the order of the fights.
#[derive(Debug)]
pub struct Cave {
    pub loot: RawInventory,
    pub gold: u64,
    pub monsters: Vec<Monster>,
}

/// The world: the catalog of items and of monster templates, and the
/// counters of the running game.
pub struct World {
    items: Vec<Item>,
    monsters: Vec<PotentialMonster>,
    pub stats: Stats,
}

/// The catalog as the contracts see it.
pub struct WorldView {
    pub items: Seq<ItemView>,
    pub monsters: Seq<TemplateView>,
    pub stats: Stats,
}

impl View for World {
    type V = WorldView;

    closed spec fn view(&self) -> WorldView {
        WorldView {
            items: self.items@.map_values(|item: Item| item@),
            monsters: self.monsters@.map_values(|monster: PotentialMonster| monster@),
            stats: self.stats,
        }
    }
}

/// The ids of a list of monster templates, in order.
pub open spec fn template_ids(templates: Seq<TemplateView>) -> Seq<Seq<char>> {
    templates.map_values(|template: TemplateView| template.id)
}

/// What a list of strings spells, in order.
pub open spec fn texts(strings: Seq<String>) -> Seq<Seq<char>> {
    strings.map_values(|string: String| string@)
}

/// The items of a list as the contracts see them, in order.
pub open spec fn item_views(items: Seq<Item>) -> Seq<ItemView> {
    items.map_values(|item: Item| item@)
}

/// The templates of a list as the contracts see them, in order.
pub open spec fn template_views(templates: Seq<PotentialMonster>) -> Seq<TemplateView> {
    templates.map_values(|template: PotentialMonster| template@)
}

/// The catalog after a batch of items has been loaded: each item of the
/// batch, in order, goes to the end unless its id is already there.
pub open spec fn merged_items(catalog: Seq<ItemView>, batch: Seq<ItemView>) -> Seq<ItemView>
    decreases batch.len(),
{
    if batch.len() == 0 {
        catalog
    } else {
        let before = merged_items(catalog, batch.drop_last());
        if listed(before, batch.last().id) {
            before
        } else {
            before.push(batch.last())
        }
    }
}

/// The catalog after a batch of monster templates has been loaded: each
/// template of the batch, in order, goes to the end unless its id is already
/// there.
pub open spec fn merged_templates(catalog: Seq<TemplateView>, batch: Seq<TemplateView>) -> Seq<
    TemplateView,
>
    decreases batch.len(),
{
    if batch.len() == 0 {
        catalog
    } else {
        let before = merged_templates(catalog, batch.drop_last());
        if template_ids(before).contains(batch.last().id) {
            before
        } else {
            before.push(batch.last())
        }
    }
}

/// Loading keeps what the catalog had, in place, keeps its ids apart, and
/// leaves every id of the batch in the catalog.
pub proof fn lemma_merged_items(catalog: Seq<ItemView>, batch: Seq<ItemView>)
    requires
        item_ids(catalog).no_duplicates(),
    ensures
        item_ids(merged_items(catalog, batch)).no_duplicates(),
        catalog.len() <= merged_items(catalog, batch).len() <= catalog.len() + batch.len(),
        merged_items(catalog, batch).take(catalog.len() as int) == catalog,
        forall|i: int| 0 <= i < batch.len() ==> listed(merged_items(catalog, batch), #[trigger] batch[i].id),
    decreases batch.len(),
{
    let merged = merged_items(catalog, batch);
    if batch.len() == 0 {
        assert(merged.take(catalog.len() as int) =~= catalog);
    } else {
        let before = merged_items(catalog, batch.drop_last());
        lemma_merged_items(catalog, batch.drop_last());
        let last = batch.last();
        assert(merged.take(catalog.len() as int) =~= before.take(catalog.len() as int));
        if !listed(before, last.id) {
            assert(item_ids(merged) =~= item_ids(before).push(last.id));
            assert(item_ids(merged)[before.len() as int] == last.id);
        }
        assert forall|i: int| 0 <= i < batch.len() implies listed(merged, #[trigger] batch[i].id) by {
            if i < batch.len() - 1 {
                assert(batch.drop_last()[i] == batch[i]);
                let at = item_ids(before).index_of(batch[i].id);
                assert(item_ids(merged)[at] == batch[i].id);
            }
        }
    }
}

/// Loading the same batch again adds nothing.
pub proof fn lemma_load_items_twice(catalog: Seq<ItemView>, batch: Seq<ItemView>)
    requires
        item_ids(catalog).no_duplicates(),
    ensures
        merged_items(merged_items(catalog, batch), batch) == merged_items(catalog, batch),
{
    lemma_merged_items(catalog, batch);
    lemma_listed_batch_adds_nothing(merged_items(catalog, batch), batch);
}

/// A batch whose ids are all in the catalog adds nothing.
pub proof fn lemma_listed_batch_adds_nothing(catalog: Seq<ItemView>, batch: Seq<ItemView>)
    requires
        forall|i: int| 0 <= i < batch.len() ==> listed(catalog, #[trigger] batch[i].id),
    ensures
        merged_items(catalog, batch) == catalog,
    decreases batch.len(),
{
    if batch.len() > 0 {
        assert forall|i: int| 0 <= i < batch.drop_last().len() implies listed(
            catalog,
            #[trigger] batch.drop_last()[i].id,
        ) by {
            assert(batch.drop_last()[i] == batch[i]);
        }
        lemma_listed_batch_adds_nothing(catalog, batch.drop_last());
        assert(listed(catalog, batch[batch.len() - 1].id));
    }
}

/// Loading keeps what the catalog had, in place, keeps its ids apart, and
/// leaves every id of the batch in the catalog.
pub proof fn lemma_merged_templates(catalog: Seq<TemplateView>, batch: Seq<TemplateView>)
    requires
        template_ids(catalog).no_duplicates(),
    ensures
        template_ids(merged_templates(catalog, batch)).no_duplicates(),
        catalog.len() <= merged_templates(catalog, batch).len() <= catalog.len() + batch.len(),
        merged_templates(catalog, batch).take(catalog.len() as int) == catalog,
        forall|i: int|
            0 <= i < batch.len() ==> template_ids(merged_templates(catalog, batch)).contains(
                #[trigger] batch[i].id,
            ),
    decreases batch.len(),
{
    let merged = merged_templates(catalog, batch);
    if batch.len() == 0 {
        assert(merged.take(catalog.len() as int) =~= catalog);
    } else {
        let before = merged_templates(catalog, batch.drop_last());
        lemma_merged_templates(catalog, batch.drop_last());
        let last = batch.last();
        assert(merged.take(catalog.len() as int) =~= before.take(catalog.len() as int));
        if !template_ids(before).contains(last.id) {
            assert(template_ids(merged) =~= template_ids(before).push(last.id));
            assert(template_ids(merged)[before.len() as int] == last.id);
        }
        assert forall|i: int| 0 <= i < batch.len() implies template_ids(merged).contains(
            #[trigger] batch[i].id,
        ) by {
            if i < batch.len() - 1 {
                assert(batch.drop_last()[i] == batch[i]);
                let at = template_ids(before).index_of(batch[i].id);
                assert(template_ids(merged)[at] == batch[i].id);
            }
        }
    }
}

/// A batch of templates whose ids are all in the catalog adds nothing.
pub proof fn lemma_listed_templates_add_nothing(catalog: Seq<TemplateView>, batch: Seq<TemplateView>)
    requires
        forall|i: int|
            0 <= i < batch.len() ==> template_ids(catalog).contains(#[trigger] batch[i].id),
    ensures
        merged_templates(catalog, batch) == catalog,
    decreases batch.len(),
{
    if batch.len() > 0 {
        assert forall|i: int| 0 <= i < batch.drop_last().len() implies template_ids(
            catalog,
        ).contains(#[trigger] batch.drop_last()[i].id) by {
            assert(batch.drop_last()[i] == batch[i]);
        }
        lemma_listed_templates_add_nothing(catalog, batch.drop_last());
        assert(template_ids(catalog).contains(batch[batch.len() - 1].id));
    }
}

/// Loading the same batch of templates again adds nothing.
pub proof fn lemma_load_monsters_twice(catalog: Seq<TemplateView>, batch: Seq<TemplateView>)
    requires
        template_ids(catalog).no_duplicates(),
    ensures
        merged_templates(merged_templates(catalog, batch), batch) == merged_templates(catalog, batch),
{
    lemma_merged_templates(catalog, batch);
    lemma_listed_templates_add_nothing(merged_templates(catalog, batch), batch);
}

impl CaveDifficulty {
    /// The difficulty that a coin gives: easy on heads, hard on tails.
    pub fn from_flip(heads: bool) -> (difficulty: CaveDifficulty)
        ensures
            difficulty == if heads {
                CaveDifficulty::Easy
            } else {
                CaveDifficulty::Hard
            },
    {
        if heads {
            CaveDifficulty::Easy
        } else {
            CaveDifficulty::Hard
        }
    }

    /// Flips a fair coin for the difficulty.
    pub fn random(rng: &mut StdRng) -> (difficulty: CaveDifficulty) {
        CaveDifficulty::from_flip(draw_chance(rng, 1, 2))
    }
}

impl Cave {
    /// Whether the cave is well formed: its loot and its monsters are.
    pub open spec fn wf(&self) -> bool {
        &&& self.loot.wf()
        &&& forall|i: int| 0 <= i < self.monsters@.len() ==> (#[trigger] self.monsters@[i]).wf()
    }
}

impl Inventory for Cave {
    open spec fn stock(&self) -> Seq<Holding> {
        self.loot@
    }

    fn inventory(&self) -> (inventory: &RawInventory) {
        &self.loot
    }

    fn mut_inventory(&mut self) -> (inventory: &mut RawInventory)
        ensures
            final(self).gold == old(self).gold,
            final(self).monsters == old(self).monsters,
    {
        &mut self.loot
    }
}

/// The bound below which the number behind the monster count is drawn.
pub open spec fn monster_draw_limit(difficulty: CaveDifficulty) -> nat {
    match difficulty {
        CaveDifficulty::Easy => 500,
        CaveDifficulty::Hard => 1000,
    }
}

/// The number of monsters that a draw gives: its square root over 10,
/// rounded down.
pub open spec fn monster_count_for(draw: nat) -> nat {
    isqrt(draw) / 10
}

/// The most monsters that a cave of a difficulty holds.
pub open spec fn monster_cap(difficulty: CaveDifficulty) -> nat {
    match difficulty {
        CaveDifficulty::Easy => 2,
        CaveDifficulty::Hard => 3,
    }
}

/// The rarity above which no monster is drawn for a cave: the player's own
/// in an easy cave, `Legendary` in a hard one.
pub open spec fn spawn_ceiling(difficulty: CaveDifficulty, player_rarity: Rarity) -> Rarity {
    match difficulty {
        CaveDifficulty::Easy => player_rarity,
        CaveDifficulty::Hard => Rarity::Legendary,
    }
}

/// Whether a template may spawn in a cave: any may in a hard cave; in an
/// easy one, those whose own rarity, `Petty` where none is set, does not
/// exceed the player's.
pub open spec fn eligible(
    template: TemplateView,
    difficulty: CaveDifficulty,
    player_rarity: Rarity,
) -> bool {
    difficulty == CaveDifficulty::Hard || match template.rarity {
        Some(rarity) => rarity.spec_rank() <= player_rarity.spec_rank(),
        None => true,
    }
}

/// The indices of the templates that may spawn, in order.
pub open spec fn eligible_slots(
    templates: Seq<TemplateView>,
    difficulty: CaveDifficulty,
    player_rarity: Rarity,
) -> Seq<int>
    decreases templates.len(),
{
    if templates.len() == 0 {
        Seq::empty()
    } else {
        let before = eligible_slots(templates.drop_last(), difficulty, player_rarity);
        if eligible(templates.last(), difficulty, player_rarity) {
            before.push(templates.len() - 1)
        } else {
            before
        }
    }
}

/// The rarity that a player's experience stands for.
pub open spec fn rarity_at(xp: nat) -> Rarity {
    Rarity::spec_from_level(level_for(xp))
}

/// The loot that a choice of catalog indices gives: one unit of each item
/// chosen, in the order of the choice.
pub open spec fn loot_of(items: Seq<ItemView>, picks: Seq<usize>) -> Seq<Holding> {
    Seq::new(picks.len(), |i: int| Holding { id: items[picks[i] as int].id, count: 1 })
}

/// What holds of every cave made for a player from a catalog: the loot is
/// one unit each of up to four different items of the catalog, and of at
/// least one where the catalog has any; the gold lies below 200; the
/// monsters are no more than the difficulty allows, and each was spawned from
/// a template that may spawn, under the ceiling of the difficulty.
pub open spec fn cave_fits(
    cave: Cave,
    world: WorldView,
    player_rarity: Rarity,
    difficulty: CaveDifficulty,
) -> bool {
    &&& cave.wf()
    &&& all_listed(cave.loot@, world.items)
    &&& cave.loot@.len() <= 4
    &&& cave.loot@.len() <= world.items.len()
    &&& world.items.len() >= 1 ==> cave.loot@.len() >= 1
    &&& forall|i: int| 0 <= i < cave.loot@.len() ==> (#[trigger] cave.loot@[i]).count == 1
    &&& cave.gold < 200
    &&& cave.monsters@.len() <= monster_cap(difficulty)
    &&& forall|i: int|
        0 <= i < cave.monsters@.len() ==> exists|t: int|
            0 <= t < world.monsters.len() && eligible(
                #[trigger] world.monsters[t],
                difficulty,
                player_rarity,
            ) && spawned_from(
                world.monsters[t],
                spawn_ceiling(difficulty, player_rarity),
                (#[trigger] cave.monsters@[i])@,
            )
}

/// The slots of the templates that may spawn are slots of such templates,
/// in rising order, and every such template has its slot among them.
pub proof fn lemma_eligible_slots(
    templates: Seq<TemplateView>,
    difficulty: CaveDifficulty,
    player_rarity: Rarity,
)
    ensures
        forall|k: int|
            0 <= k < eligible_slots(templates, difficulty, player_rarity).len() ==> {
                let slot = #[trigger] eligible_slots(templates, difficulty, player_rarity)[k];
                0 <= slot < templates.len() && eligible(templates[slot], difficulty, player_rarity)
            },
        forall|t: int|
            0 <= t < templates.len() && eligible(#[trigger] templates[t], difficulty, player_rarity)
                ==> eligible_slots(templates, difficulty, player_rarity).contains(t),
    decreases templates.len(),
{
    if templates.len() > 0 {
        let shorter = templates.drop_last();
        let before = eligible_slots(shorter, difficulty, player_rarity);
        let slots = eligible_slots(templates, difficulty, player_rarity);
        lemma_eligible_slots(shorter, difficulty, player_rarity);
        assert forall|k: int| 0 <= k < slots.len() implies {
            let slot = #[trigger] slots[k];
            0 <= slot < templates.len() && eligible(templates[slot], difficulty, player_rarity)
        } by {
            if k < before.len() {
                assert(slots[k] == before[k]);
                assert(shorter[before[k]] == templates[before[k]]);
            }
        }
        assert forall|t: int|
            0 <= t < templates.len() && eligible(
                #[trigger] templates[t],
                difficulty,
                player_rarity,
            ) implies slots.contains(t) by {
            if t < templates.len() - 1 {
                assert(shorter[t] == templates[t]);
                let k = before.index_of(t);
                assert(slots[k] == t);
            } else {
                assert(slots[slots.len() - 1] == t);
            }
        }
    }
}

/// A draw below the limit of a difficulty gives no more monsters than the
/// difficulty allows.
pub proof fn lemma_monster_count_capped(draw: nat, difficulty: CaveDifficulty)
    requires
        draw < monster_draw_limit(difficulty),
    ensures
        monster_count_for(draw) <= monster_cap(difficulty),
{
    lemma_isqrt_bounds(draw);
    let root = isqrt(draw);
    if difficulty == CaveDifficulty::Easy {
        assert(root < 30) by (nonlinear_arith)
            requires
                root * root <= draw,
                draw < 500,
        ;
    } else {
        assert(root < 40) by (nonlinear_arith)
            requires
                root * root <= draw,
                draw < 1000,
        ;
    }
}

/// The number of monsters that a draw gives.
pub fn monster_count(draw: u64) -> (count: u64)
    ensures
        count == monster_count_for(draw as nat),
{
    integer_sqrt(draw) / 10
}

/// The same elements in the opposite order.
fn reversed<T>(list: Vec<T>) -> (turned: Vec<T>)
    ensures
        turned@.len() == list@.len(),
        forall|k: int| 0 <= k < turned@.len() ==> #[trigger] turned@[k] == list@[list@.len() - 1 - k],
{
    let mut rest = list;
    let mut turned: Vec<T> = Vec::new();
    while rest.len() > 0
        invariant
            rest@.len() + turned@.len() == list@.len(),
            forall|k: int| 0 <= k < rest@.len() ==> #[trigger] rest@[k] == list@[k],
            forall|k: int|
                0 <= k < turned@.len() ==> #[trigger] turned@[k] == list@[list@.len() - 1 - k],
        decreases rest@.len(),
    {
        let last = rest.pop().unwrap();
        turned.push(last);
    }
    turned
}

impl World {
    /// Whether the world is well formed: no id stands twice among the items,
    /// and none twice among the monster templates. Every world that this
    /// library hands out is.
    pub open spec fn wf(&self) -> bool {
        &&& item_ids(self@.items).no_duplicates()
        &&& template_ids(self@.monsters).no_duplicates()
    }

    /// A world with an empty catalog and counters at zero.
    pub fn new() -> (world: World)
        ensures
            world.wf(),
            world@.items.len() == 0,
            world@.monsters.len() == 0,
            world@.stats == (Stats { caves: 0, monsters: 0 }),
    {
        World { items: Vec::new(), monsters: Vec::new(), stats: Stats::default() }
    }

    /// Sets the counters back to zero for a new game; the catalog stays.
    pub fn reset(&mut self)
        ensures
            final(self)@ == (WorldView { stats: Stats { caves: 0, monsters: 0 }, ..old(self)@ }),
    {
        self.stats = Stats::default();
    }

    /// The counters of the running game.
    pub fn stats(&self) -> (stats: Stats)
        ensures
            stats == self@.stats,
    {
        self.stats
    }

    /// Counts one cave entered and the monsters met in it.
    pub fn record_cave(&mut self, monsters: u64)
        requires
            old(self)@.stats.caves < u64::MAX,
            old(self)@.stats.monsters + monsters <= u64::MAX,
        ensures
            final(self)@ == (WorldView {
                stats: Stats {
                    caves: (old(self)@.stats.caves + 1) as u64,
                    monsters: (old(self)@.stats.monsters + monsters) as u64,
                },
                ..old(self)@
            }),
    {
        self.stats.caves += 1;
        self.stats.monsters += monsters;
    }

    /// The items of the catalog, in the order in which they were loaded.
    pub fn items(&self) -> (items: &Vec<Item>)
        ensures
            item_views(items@) == self@.items,
    {
        &self.items
    }

    /// The monster templates of the catalog, in the order in which they were
    /// loaded.
    pub fn monsters(&self) -> (monsters: &Vec<PotentialMonster>)
        ensures
            template_views(monsters@) == self@.monsters,
    {
        &self.monsters
    }

    /// The ids of the items of the catalog, in order.
    pub fn item_ids(&self) -> (ids: Vec<String>)
        ensures
            texts(ids@) == item_ids(self@.items),
    {
        let mut ids: Vec<String> = Vec::new();
        let mut index: usize = 0;
        while index < self.items.len()
            invariant
                index <= self.items@.len(),
                ids@.len() == index,
                forall|i: int| 0 <= i < index ==> (#[trigger] ids@[i])@ == self.items@[i]@.id,
            decreases self.items@.len() - index,
        {
            ids.push(self.items[index].id().clone());
            index += 1;
        }
        assert(texts(ids@) =~= item_ids(self@.items));
        ids
    }

    /// The index of the item with this id in the catalog.
    fn item_position(&self, item: &str) -> (slot: Option<usize>)
        ensures
            slot is Some <==> listed(self@.items, item@),
            slot matches Some(index) ==> index < self.items@.len() && self.items@[index as int]@.id
                == item@,
    {
        let key = String::from_str(item);
        let mut index: usize = 0;
        while index < self.items.len()
            invariant
                index <= self.items@.len(),
                key@ == item@,
                forall|i: int| 0 <= i < index ==> (#[trigger] self.items@[i])@.id != item@,
            decreases self.items@.len() - index,
        {
            if *self.items[index].id() == key {
                proof {
                    assert(item_ids(self@.items)[index as int] == item@);
                }
                return Some(index);
            }
            index += 1;
        }
        proof {
            if listed(self@.items, item@) {
                let at = item_ids(self@.items).index_of(item@);
                assert(self.items@[at]@.id == item@);
            }
        }
        None
    }

    /// The item with this id, `None` where the catalog has none.
    pub fn get_item(&self, item: &str) -> (found: Option<&Item>)
        requires
            self.wf(),
        ensures
            found is Some <==> listed(self@.items, item@),
            found matches Some(entry) ==> entry@ == lookup(self@.items, item@),
    {
        match self.item_position(item) {
            Some(index) => {
                proof {
                    super::item::lemma_lookup_at(self@.items, index as int);
                }
                Some(&self.items[index])
            },
            None => None,
        }
    }

    /// Whether the catalog has every id of an inventory.
    pub fn lists_all(&self, inventory: &RawInventory) -> (complete: bool)
        ensures
            complete == all_listed(inventory@, self@.items),
    {
        let mut index: usize = 0;
        while index < inventory.len()
            invariant
                index <= inventory@.len(),
                forall|i: int| 0 <= i < index ==> listed(self@.items, (#[trigger] inventory@[i]).id),
            decreases inventory@.len() - index,
        {
            if self.item_position(inventory.id_at(index).as_str()).is_none() {
                return false;
            }
            index += 1;
        }
        true
    }

    /// Whether the catalog has a monster template with this id.
    fn has_template(&self, id: &String) -> (found: bool)
        ensures
            found == template_ids(self@.monsters).contains(id@),
    {
        let mut index: usize = 0;
        while index < self.monsters.len()
            invariant
                index <= self.monsters@.len(),
                forall|i: int| 0 <= i < index ==> (#[trigger] self.monsters@[i]).id@ != id@,
            decreases self.monsters@.len() - index,
        {
            if self.monsters[index].id == *id {
                proof {
                    assert(template_ids(self@.monsters)[index as int] == id@);
                }
                return true;
            }
            index += 1;
        }
        proof {
            if template_ids(self@.monsters).contains(id@) {
                let at = template_ids(self@.monsters).index_of(id@);
                assert(self.monsters@[at].id@ == id@);
            }
        }
        false
    }

    /// Loads a batch of items into the catalog and says how many were new.
    /// An item whose id the catalog already has is skipped.
    pub fn load_items(&mut self, items: Vec<Item>) -> (added: u32)
        requires
            old(self).wf(),
            items@.len() <= u32::MAX,
        ensures
            final(self).wf(),
            final(self)@.items == merged_items(old(self)@.items, item_views(items@)),
            final(self)@.monsters == old(self)@.monsters,
            final(self)@.stats == old(self)@.stats,
            added == final(self)@.items.len() - old(self)@.items.len(),
    {
        let ghost batch = item_views(items@);
        let ghost before = self@.items;
        let mut added: u32 = 0;
        let ghost total = items@.len();
        let mut queue = reversed(items);
        proof {
            assert(batch.take(0) =~= Seq::<ItemView>::empty());
        }
        while queue.len() > 0
            invariant
                self.wf(),
                total == batch.len(),
                total <= u32::MAX,
                queue@.len() <= total,
                forall|k: int|
                    0 <= k < queue@.len() ==> (#[trigger] queue@[k])@ == batch[total - 1 - k],
                self@.items == merged_items(before, batch.take(total - queue@.len())),
                self@.monsters == old(self)@.monsters,
                self@.stats == old(self)@.stats,
                added == self@.items.len() - before.len(),
                added <= total - queue@.len(),
                item_ids(before).no_duplicates(),
            decreases queue@.len(),
        {
            let ghost done = total - queue@.len();
            let item = queue.pop().unwrap();
            proof {
                assert(item@ == batch[done]);
                assert(batch.take(done + 1).drop_last() =~= batch.take(done));
                lemma_merged_items(before, batch.take(done + 1));
            }
            if self.item_position(item.id().as_str()).is_none() {
                let ghost listed_before = self@.items;
                self.items.push(item);
                proof {
                    assert(self@.items =~= listed_before.push(batch[done]));
                }
                added += 1;
            }
        }
        proof {
            assert(batch.take(total as int) =~= batch);
        }
        added
    }

    /// Loads a batch of items into the catalog and hands the world on.
    pub fn with_load_items(self, items: Vec<Item>) -> (world: World)
        requires
            self.wf(),
            items@.len() <= u32::MAX,
        ensures
            world.wf(),
            world@.items == merged_items(self@.items, item_views(items@)),
            world@.monsters == self@.monsters,
            world@.stats == self@.stats,
    {
        let mut world = self;
        world.load_items(items);
        world
    }

    /// Loads a batch of monster templates into the catalog and says how many
    /// were new. A template whose id the catalog already has is skipped.
    pub fn load_monsters(&mut self, monsters: Vec<PotentialMonster>) -> (added: u32)
        requires
            old(self).wf(),
            monsters@.len() <= u32::MAX,
        ensures
            final(self).wf(),
            final(self)@.monsters == merged_templates(old(self)@.monsters, template_views(monsters@)),
            final(self)@.items == old(self)@.items,
            final(self)@.stats == old(self)@.stats,
            added == final(self)@.monsters.len() - old(self)@.monsters.len(),
    {
        let ghost batch = template_views(monsters@);
        let ghost before = self@.monsters;
        let mut added: u32 = 0;
        let ghost total = monsters@.len();
        let mut queue = reversed(monsters);
        proof {
            assert(batch.take(0) =~= Seq::<TemplateView>::empty());
        }
        while queue.len() > 0
            invariant
                self.wf(),
                total == batch.len(),
                total <= u32::MAX,
                queue@.len() <= total,
                forall|k: int|
                    0 <= k < queue@.len() ==> (#[trigger] queue@[k])@ == batch[total - 1 - k],
                self@.monsters == merged_templates(before, batch.take(total - queue@.len())),
                self@.items == old(self)@.items,
                self@.stats == old(self)@.stats,
                added == self@.monsters.len() - before.len(),
                added <= total - queue@.len(),
                template_ids(before).no_duplicates(),
            decreases queue@.len(),
        {
            let ghost done = total - queue@.len();
            let monster = queue.pop().unwrap();
            proof {
                assert(monster@ == batch[done]);
                assert(batch.take(done + 1).drop_last() =~= batch.take(done));
                lemma_merged_templates(before, batch.take(done + 1));
            }
            if !self.has_template(&monster.id) {
                let ghost listed_before = self@.monsters;
                self.monsters.push(monster);
                proof {
                    assert(self@.monsters =~= listed_before.push(batch[done]));
                }
                added += 1;
            }
        }
        proof {
            assert(batch.take(total as int) =~= batch);
        }
        added
    }

    /// Loads a batch of monster templates into the catalog and hands the
    /// world on.
    pub fn with_load_monsters(self, monsters: Vec<PotentialMonster>) -> (world: World)
        requires
            self.wf(),
            monsters@.len() <= u32::MAX,
        ensures
            world.wf(),
            world@.monsters == merged_templates(self@.monsters, template_views(monsters@)),
            world@.items == self@.items,
            world@.stats == self@.stats,
    {
        let mut world = self;
        world.load_monsters(monsters);
        world
    }

    /// The slots of the templates that may spawn in a cave of this
    /// difficulty for a player of this rarity.
    pub fn eligible_monsters(&self, difficulty: CaveDifficulty, player_rarity: Rarity) -> (slots: Vec<
        usize,
    >)
        ensures
            slots@.map_values(|slot: usize| slot as int) == eligible_slots(
                self@.monsters,
                difficulty,
                player_rarity,
            ),
            forall|k: int|
                0 <= k < slots@.len() ==> (#[trigger] slots@[k]) < self@.monsters.len() && eligible(
                    self@.monsters[slots@[k] as int],
                    difficulty,
                    player_rarity,
                ),
    {
        let mut slots: Vec<usize> = Vec::new();
        let mut index: usize = 0;
        proof {
            assert(self@.monsters.take(0) =~= Seq::<TemplateView>::empty());
        }
        while index < self.monsters.len()
            invariant
                index <= self.monsters@.len(),
                self@.monsters.len() == self.monsters@.len(),
                slots@.map_values(|slot: usize| slot as int) =~= eligible_slots(
                    self@.monsters.take(index as int),
                    difficulty,
                    player_rarity,
                ),
                forall|k: int|
                    0 <= k < slots@.len() ==> (#[trigger] slots@[k]) < index && eligible(
                        self@.monsters[slots@[k] as int],
                        difficulty,
                        player_rarity,
                    ),
            decreases self.monsters@.len() - index,
        {
            proof {
                assert(self@.monsters.take(index + 1).drop_last() =~= self@.monsters.take(
                    index as int,
                ));
                assert(self@.monsters.take(index + 1).last() == self@.monsters[index as int]);
                assert(self@.monsters[index as int] == self.monsters@[index as int]@);
            }
            let fits = match difficulty {
                CaveDifficulty::Hard => true,
                CaveDifficulty::Easy => match self.monsters[index].rarity {
                    Some(rarity) => rarity.rank() <= player_rarity.rank(),
                    None => true,
                },
            };
            if fits {
                slots.push(index);
            }
            index += 1;
        }
        proof {
            assert(self@.monsters.take(index as int) =~= self@.monsters);
        }
        slots
    }

    /// Whether some template may spawn in a cave of this difficulty for the
    /// player. A cave can only be made where one may.
    pub fn can_spawn(&self, player: &Player, difficulty: CaveDifficulty) -> (possible: bool)
        ensures
            possible == (eligible_slots(self@.monsters, difficulty, rarity_at(player@.xp as nat)).len()
                > 0),
    {
        let player_rarity = Rarity::from_level(player.level());
        self.eligible_monsters(difficulty, player_rarity).len() > 0
    }

    /// The loot that a choice of catalog indices gives: one unit of each
    /// item chosen, in the order of the choice.
    pub fn loot_from(&self, picks: &Vec<usize>) -> (loot: RawInventory)
        requires
            self.wf(),
            picks@.len() <= u32::MAX,
            forall|i: int| 0 <= i < picks@.len() ==> picks@[i] < self@.items.len(),
            forall|i: int, j: int| 0 <= i < j < picks@.len() ==> picks@[i] != picks@[j],
        ensures
            loot@ == loot_of(self@.items, picks@),
            loot.wf(),
            all_listed(loot@, self@.items),
    {
        let mut loot = RawInventory::new();
        let mut index: usize = 0;
        proof {
            assert(loot@ =~= loot_of(self@.items, picks@.take(0)));
        }
        while index < picks.len()
            invariant
                index <= picks@.len(),
                picks@.len() <= u32::MAX,
                self.wf(),
                self@.items.len() == self.items@.len(),
                forall|i: int| 0 <= i < picks@.len() ==> picks@[i] < self@.items.len(),
                forall|i: int, j: int| 0 <= i < j < picks@.len() ==> picks@[i] != picks@[j],
                loot.wf(),
                loot@ == loot_of(self@.items, picks@.take(index as int)),
                units(loot@) == index,
            decreases picks@.len() - index,
        {
            let pick = picks[index];
            let ghost before = loot@;
            let ghost id = self@.items[pick as int].id;
            proof {
                assert(self@.items[pick as int] == self.items@[pick as int]@);
                if holding_ids(before).contains(id) {
                    let at = holding_ids(before).index_of(id);
                    assert(before[at].id == id);
                    let earlier = picks@[at];
                    assert(item_ids(self@.items)[earlier as int] == id);
                    assert(item_ids(self@.items)[pick as int] == id);
                }
                lemma_one_more(before, id);
            }
            loot.add(self.items[pick].id().as_str());
            proof {
                assert(loot@ =~= loot_of(self@.items, picks@.take(index + 1)));
            }
            index += 1;
        }
        proof {
            assert(picks@.take(index as int) =~= picks@);
            assert forall|i: int| 0 <= i < loot@.len() implies listed(
                self@.items,
                (#[trigger] loot@[i]).id,
            ) by {
                assert(item_ids(self@.items)[picks@[i] as int] == loot@[i].id);
            }
        }
        loot
    }

    /// Makes a cave for the player: loot and gold are drawn, then the number
    /// of monsters, then each monster from a template drawn among those that
    /// may spawn.
    pub fn new_cave(&mut self, player: &Player, rng: &mut StdRng, difficulty: CaveDifficulty) -> (cave:
        Cave)
        requires
            old(self).wf(),
            eligible_slots(old(self)@.monsters, difficulty, rarity_at(player@.xp as nat)).len() > 0,
        ensures
            final(self)@ == old(self)@,
            final(self).wf(),
            cave_fits(cave, old(self)@, rarity_at(player@.xp as nat), difficulty),
    {
        let loot_count: usize = draw_between(rng, 1, 5) as usize;
        let available: usize = self.items.len();
        let amount: usize = if loot_count < available {
            loot_count
        } else {
            available
        };
        let picks = draw_distinct(rng, available, amount);
        let loot = self.loot_from(&picks);
        let gold: u64 = draw_between(rng, 0, 200);

        let player_rarity = Rarity::from_level(player.level());
        let (limit, ceiling): (u64, Rarity) = match difficulty {
            CaveDifficulty::Easy => (500, player_rarity),
            CaveDifficulty::Hard => (1000, Rarity::Legendary),
        };
        let draw: u64 = draw_between(rng, 0, limit);
        let count: u64 = monster_count(draw);
        proof {
            lemma_monster_count_capped(draw as nat, difficulty);
        }
        let options = self.eligible_monsters(difficulty, player_rarity);
        let mut monsters: Vec<Monster> = Vec::new();
        let mut made: u64 = 0;
        while made < count
            invariant
                made <= count,
                monsters@.len() == made,
                options@.len() > 0,
                ceiling == spawn_ceiling(difficulty, player_rarity),
                self@.monsters.len() == self.monsters@.len(),
                forall|k: int|
                    0 <= k < options@.len() ==> (#[trigger] options@[k]) < self@.monsters.len()
                        && eligible(self@.monsters[options@[k] as int], difficulty, player_rarity),
                forall|i: int| 0 <= i < monsters@.len() ==> (#[trigger] monsters@[i]).wf(),
                forall|i: int|
                    0 <= i < monsters@.len() ==> exists|t: int|
                        0 <= t < self@.monsters.len() && eligible(
                            #[trigger] self@.monsters[t],
                            difficulty,
                            player_rarity,
                        ) && spawned_from(self@.monsters[t], ceiling, (#[trigger] monsters@[i])@),
            decreases count - made,
        {
            let choice: usize = draw_between(rng, 0, options.len() as u64) as usize;
            let slot: usize = options[choice];
            let monster = self.monsters[slot].spawn(ceiling, rng);
            proof {
                assert(self@.monsters[slot as int] == self.monsters@[slot as int]@);
            }
            let ghost before = monsters@;
            monsters.push(monster);
            proof {
                assert forall|i: int| 0 <= i < monsters@.len() implies exists|t: int|
                    0 <= t < self@.monsters.len() && eligible(
                        #[trigger] self@.monsters[t],
                        difficulty,
                        player_rarity,
                    ) && spawned_from(self@.monsters[t], ceiling, (#[trigger] monsters@[i])@) by {
                    if i < before.len() {
                        assert(monsters@[i] == before[i]);
                    } else {
                        assert(eligible(self@.monsters[slot as int], difficulty, player_rarity));
                    }
                }
            }
            made += 1;
        }
        Cave { loot, gold, monsters }
    }
}

} // verus!
