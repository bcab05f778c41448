//! The run of a game: entering caves, fighting what lives there, and what
//! the player takes home.

use crate::dice::{draw_chance, shuffle};
use crate::entities::inventory::{
    all_listed, lemma_units_prefix, lemma_with_all, lemma_with_more, limb_defense,
    ranked, slots_of, total_defense, units, well_formed, with_all, with_more, Holding, Inventory,
    RawInventory,
};
use crate::entities::item::{listed, lookup, ItemView, Limb};
use crate::entities::monster::{damage_ceiling, damage_floor, outclasses, Monster, MonsterView};
use crate::entities::player::{
    healed, hp_at, reduced_damage, reduction_of, worth, Healing, Player, PlayerView,
};
use crate::entities::world::{
    cave_fits, eligible_slots, lemma_eligible_slots, rarity_at, texts, Cave, CaveDifficulty, Stats,
    World, WorldView,
};
use crate::entities::{level_for, Level, Rarity};
use rand::rngs::StdRng;
use vstd::prelude::*;

verus! {

/// The experience that surviving any cave gives.
pub const CAVE_XP: u64 = 500;

/// The experience that each level of a monster withstood gives.
pub const XP_PER_MONSTER_LEVEL: u64 = 20;

/// How many times the monster's level weighs against the player's in the
/// roll for the initiative.
pub const INITIATIVE_WEIGHT: u64 = 2;

/// What a survived cave gives.
#[derive(Debug)]
pub struct CaveReward {
    pub xp: u64,
    pub gold: u64,
    pub loot: RawInventory,
}

/// How a cave ended for the player.
#[derive(Debug)]
pub enum CaveResult {
    Survived { reward: CaveReward },
    Died,
}

/// What the dice decide when the player meets a monster.
#[derive(Clone, Copy, PartialEq, Eq, Structural, Debug)]
pub enum Turn {
    /// The player is faster: the monster falls without a blow.
    Initiative,
    /// The player gets away from a monster that outclasses them.
    Retreat,
    /// The monster strikes, with this damage before armor.
    Blow { damage: u64 },
}

/// What came of meeting a monster.
#[derive(Debug)]
pub enum Encounter {
    /// The player was faster.
    Initiative,
    /// The player got away.
    Retreat,
    /// The monster struck.
    Blow {
        /// The damage of the blow before armor.
        raw: u64,
        /// The damage that the player took.
        damage: u64,
        /// The ids of the potions drunk to survive the blow, in order.
        potions: Vec<String>,
        /// Whether the player died of the blow.
        fatal: bool,
    },
}

/// What entering a cave came to: how it ended, the monsters that lived in
/// it, and what came of meeting them, one after the other.
#[derive(Debug)]
pub struct CaveReport {
    pub result: CaveResult,
    pub monsters: Vec<Monster>,
    pub encounters: Vec<Encounter>,
}

/// The turn that an encounter records.
pub open spec fn turn_of(encounter: Encounter) -> Turn {
    match encounter {
        Encounter::Initiative => Turn::Initiative,
        Encounter::Retreat => Turn::Retreat,
        Encounter::Blow { raw, .. } => Turn::Blow { damage: raw },
    }
}

/// The turns that a list of encounters records.
pub open spec fn turns_of(encounters: Seq<Encounter>) -> Seq<Turn> {
    encounters.map_values(|encounter: Encounter| turn_of(encounter))
}

/// The monsters of a list as the contracts see them.
pub open spec fn monster_views(monsters: Seq<Monster>) -> Seq<MonsterView> {
    monsters.map_values(|monster: Monster| monster@)
}

/// The chance of the initiative, as a numerator over a denominator: the
/// player's level, at least 1, over the weighted level of the monster, and
/// never more than certain.
pub open spec fn initiative_chance(player_level: nat, monster_level: nat) -> (nat, nat) {
    let weight = INITIATIVE_WEIGHT as nat * monster_level;
    let speed: nat = if player_level < 1 {
        1
    } else {
        player_level
    };
    if weight == 0 {
        (1, 1)
    } else if speed > weight {
        (weight, weight)
    } else {
        (speed, weight)
    }
}

/// Whether the dice can decide this for a monster and a player of these
/// levels: the monster acts only where the initiative is not certain, the
/// player gets away only from a monster that outclasses them, and a blow
/// lies in the range of the monster's damage.
pub open spec fn turn_allowed(player_level: nat, monster_level: nat, turn: Turn) -> bool {
    let chance = initiative_chance(player_level, monster_level);
    match turn {
        Turn::Initiative => true,
        Turn::Retreat => chance.0 < chance.1 && outclasses(monster_level, player_level),
        Turn::Blow { damage } => chance.0 < chance.1 && damage_floor(monster_level) <= damage
            < damage_ceiling(monster_level),
    }
}

/// The player after a blow: the damage that is left of it behind the armor
/// is added, and where that kills, potions heal.
pub open spec fn struck(
    damage: nat,
    hp: nat,
    stock: Seq<Holding>,
    items: Seq<ItemView>,
    raw: nat,
) -> Healing {
    healed(damage + reduced_damage(raw, total_defense(stock, items)), hp, stock, items)
}

/// A cave in progress.
pub struct Run {
    /// The damage that the player has taken.
    pub damage: nat,
    /// The inventory of the player.
    pub stock: Seq<Holding>,
    /// The experience won so far, the experience of the cave itself included.
    pub xp: nat,
    /// Whether the player has died.
    pub dead: bool,
}

/// The cave after a list of turns, one for each of its first monsters. A
/// blow that the player survives wins experience by the monster's level.
/// With the player's death the cave is over: what comes after changes
/// nothing.
pub open spec fn cave_run(
    damage: nat,
    hp: nat,
    stock: Seq<Holding>,
    items: Seq<ItemView>,
    monsters: Seq<MonsterView>,
    turns: Seq<Turn>,
) -> Run
    decreases turns.len(),
{
    if turns.len() == 0 {
        Run { damage, stock, xp: CAVE_XP as nat, dead: false }
    } else {
        let before = cave_run(damage, hp, stock, items, monsters, turns.drop_last());
        if before.dead {
            before
        } else {
            match turns.last() {
                Turn::Blow { damage: raw } => {
                    let after = struck(before.damage, hp, before.stock, items, raw as nat);
                    if after.damage > hp {
                        Run { damage: after.damage, stock: after.stock, xp: before.xp, dead: true }
                    } else {
                        Run {
                            damage: after.damage,
                            stock: after.stock,
                            xp: before.xp + XP_PER_MONSTER_LEVEL as nat * monsters[turns.len()
                                - 1].level as nat,
                            dead: false,
                        }
                    }
                },
                _ => before,
            }
        }
    }
}

/// Once the player has died, no further turn changes the cave: no monster
/// after the deadly one is fought, and none gives experience.
pub proof fn lemma_death_ends_cave(
    damage: nat,
    hp: nat,
    stock: Seq<Holding>,
    items: Seq<ItemView>,
    monsters: Seq<MonsterView>,
    turns: Seq<Turn>,
    fought: int,
)
    requires
        0 <= fought <= turns.len(),
        cave_run(damage, hp, stock, items, monsters, turns.take(fought)).dead,
    ensures
        cave_run(damage, hp, stock, items, monsters, turns) == cave_run(
            damage,
            hp,
            stock,
            items,
            monsters,
            turns.take(fought),
        ),
    decreases turns.len(),
{
    if fought == turns.len() {
        assert(turns.take(fought) =~= turns);
    } else {
        assert(turns.drop_last().take(fought) =~= turns.take(fought));
        lemma_death_ends_cave(damage, hp, stock, items, monsters, turns.drop_last(), fought);
    }
}

/// The experience of a cave is that of the cave itself and of the monsters
/// withstood so far: never less than the first, never more than both.
pub proof fn lemma_run_xp_bounds(
    damage: nat,
    hp: nat,
    stock: Seq<Holding>,
    items: Seq<ItemView>,
    monsters: Seq<MonsterView>,
    turns: Seq<Turn>,
)
    requires
        turns.len() <= monsters.len(),
        forall|i: int| 0 <= i < monsters.len() ==> (#[trigger] monsters[i]).level < 1000,
    ensures
        CAVE_XP <= cave_run(damage, hp, stock, items, monsters, turns).xp <= CAVE_XP + 19_980
            * turns.len(),
    decreases turns.len(),
{
    if turns.len() > 0 {
        lemma_run_xp_bounds(damage, hp, stock, items, monsters, turns.drop_last());
        assert(monsters[turns.len() - 1].level < 1000);
    }
}

/// What is left of a blow behind armor never exceeds the blow.
pub proof fn lemma_reduced_damage_bounded(amount: nat, defense: nat)
    ensures
        reduced_damage(amount, defense) <= amount,
{
    let share = 10_000 - reduction_of(defense);
    assert(amount * share <= amount * 10_000) by (nonlinear_arith)
        requires
            0 <= share <= 10_000,
    ;
    if amount >= 1 {
        assert((amount * share + 5_000) / 10_000 <= amount) by (nonlinear_arith)
            requires
                amount * share <= amount * 10_000,
                amount >= 1,
        ;
    } else {
        assert(amount * share == 0) by (nonlinear_arith)
            requires
                amount == 0,
        ;
    }
}

/// The chance of the initiative for a player against a monster.
pub fn initiative_odds(player_level: u64, monster: &Monster) -> (odds: (u32, u32))
    requires
        monster.wf(),
    ensures
        (odds.0 as nat, odds.1 as nat) == initiative_chance(
            player_level as nat,
            monster@.level as nat,
        ),
        0 < odds.0 <= odds.1,
{
    let weight: u64 = INITIATIVE_WEIGHT * monster.level();
    let speed: u64 = if player_level < 1 {
        1
    } else {
        player_level
    };
    if weight == 0 {
        (1, 1)
    } else if speed > weight {
        (weight as u32, weight as u32)
    } else {
        (speed as u32, weight as u32)
    }
}

/// Rolls the dice for meeting a monster: first for the initiative; where
/// that fails against a monster that outclasses the player, one time in
/// five for a retreat; and else for the damage of the monster's blow.
pub fn roll_turn(player_level: u64, monster: &Monster, rng: &mut StdRng) -> (turn: Turn)
    requires
        monster.wf(),
    ensures
        turn_allowed(player_level as nat, monster@.level as nat, turn),
{
    let odds = initiative_odds(player_level, monster);
    let initiative = draw_chance(rng, odds.0, odds.1);
    let retreat = !initiative && monster.is_difficult(player_level) && draw_chance(rng, 1, 5);
    let damage: u64 = if initiative || retreat {
        0
    } else {
        monster.damage(rng)
    };
    turn_from_rolls(initiative, retreat, damage)
}

/// The turn that the rolls decide: the initiative where its roll succeeded;
/// else a retreat where that roll succeeded; else a blow of the damage
/// rolled. A roll that was not made counts as failed.
pub fn turn_from_rolls(initiative: bool, retreat: bool, damage: u64) -> (turn: Turn)
    ensures
        turn == if initiative {
            Turn::Initiative
        } else if retreat {
            Turn::Retreat
        } else {
            Turn::Blow { damage }
        },
{
    if initiative {
        Turn::Initiative
    } else if retreat {
        Turn::Retreat
    } else {
        Turn::Blow { damage }
    }
}

/// Plays out what the dice decided for one monster. A blow is taken through
/// the armor; where it kills, potions heal, the strongest first.
pub fn resolve_turn(player: &mut Player, world: &World, turn: Turn) -> (encounter: Encounter)
    requires
        old(player).wf(),
        world.wf(),
        all_listed(old(player)@.inventory, world@.items),
        total_defense(old(player)@.inventory, world@.items) <= u64::MAX,
        turn matches Turn::Blow { damage } ==> old(player)@.damage + damage <= u64::MAX,
    ensures
        final(player).wf(),
        all_listed(final(player)@.inventory, world@.items),
        total_defense(final(player)@.inventory, world@.items) <= total_defense(
            old(player)@.inventory,
            world@.items,
        ),
        turn_of(encounter) == turn,
        match turn {
            Turn::Blow { damage: raw } => {
                let dealt = reduced_damage(
                    raw as nat,
                    total_defense(old(player)@.inventory, world@.items),
                );
                let after = struck(
                    old(player)@.damage as nat,
                    hp_at(old(player)@.xp as nat),
                    old(player)@.inventory,
                    world@.items,
                    raw as nat,
                );
                &&& final(player)@ == (PlayerView {
                    damage: after.damage as u64,
                    inventory: after.stock,
                    ..old(player)@
                })
                &&& final(player)@.damage == after.damage
                &&& encounter matches Encounter::Blow { raw: blow, damage, potions, fatal }
                &&& blow == raw
                &&& damage == dealt
                &&& texts(potions@) == after.used
                &&& fatal == (after.damage > hp_at(old(player)@.xp as nat))
            },
            _ => final(player)@ == old(player)@ && !(encounter is Blow),
        },
{
    match turn {
        Turn::Initiative => Encounter::Initiative,
        Turn::Retreat => Encounter::Retreat,
        Turn::Blow { damage: raw } => {
            proof {
                lemma_reduced_damage_bounded(
                    raw as nat,
                    total_defense(player@.inventory, world@.items),
                );
            }
            let ghost stock = player@.inventory;
            let damage = player.add_damage(raw, world);
            let potions = match player.auto_heal(world) {
                Some(used) => used,
                None => {
                    let none: Vec<String> = Vec::new();
                    assert(texts(none@) =~= Seq::<Seq<char>>::empty());
                    none
                },
            };
            proof {
                assert(limb_defense(player@.inventory, world@.items, Limb::Head) <= limb_defense(
                    stock,
                    world@.items,
                    Limb::Head,
                ));
                assert(limb_defense(player@.inventory, world@.items, Limb::Body) <= limb_defense(
                    stock,
                    world@.items,
                    Limb::Body,
                ));
                assert(limb_defense(player@.inventory, world@.items, Limb::Hands) <= limb_defense(
                    stock,
                    world@.items,
                    Limb::Hands,
                ));
                assert(limb_defense(player@.inventory, world@.items, Limb::Feet) <= limb_defense(
                    stock,
                    world@.items,
                    Limb::Feet,
                ));
                assert(limb_defense(player@.inventory, world@.items, Limb::Shield) <= limb_defense(
                    stock,
                    world@.items,
                    Limb::Shield,
                ));
            }
            let fatal = player.dead();
            Encounter::Blow { raw, damage, potions, fatal }
        },
    }
}

/// Enters a cave: the monsters are met in order, the dice rolled for each
/// and the outcome played out, until the last is behind the player or the
/// player is dead. Who survives is owed the experience of the cave and of
/// every monster withstood, with the gold and the loot of the cave. The
/// world counts the cave and its monsters.
pub fn enter_cave(world: &mut World, player: &mut Player, cave: Cave, rng: &mut StdRng) -> (report:
    CaveReport)
    requires
        old(world).wf(),
        old(player).wf(),
        cave.wf(),
        all_listed(old(player)@.inventory, old(world)@.items),
        total_defense(old(player)@.inventory, old(world)@.items) <= u64::MAX,
        old(player)@.damage + 1000 <= u64::MAX,
        CAVE_XP + 19_980 * cave.monsters@.len() <= u64::MAX,
        old(world)@.stats.caves < u64::MAX,
        old(world)@.stats.monsters + cave.monsters@.len() <= u64::MAX,
    ensures
        final(world).wf(),
        final(world)@ == (WorldView {
            stats: Stats {
                caves: (old(world)@.stats.caves + 1) as u64,
                monsters: (old(world)@.stats.monsters + cave.monsters@.len()) as u64,
            },
            ..old(world)@
        }),
        final(player).wf(),
        all_listed(final(player)@.inventory, old(world)@.items),
        report.monsters == cave.monsters,
        report.encounters@.len() <= cave.monsters@.len(),
        forall|i: int|
            0 <= i < report.encounters@.len() ==> turn_allowed(
                level_for(old(player)@.xp as nat),
                cave.monsters@[i]@.level as nat,
                #[trigger] turns_of(report.encounters@)[i],
            ),
        ({
            let run = cave_run(
                old(player)@.damage as nat,
                hp_at(old(player)@.xp as nat),
                old(player)@.inventory,
                old(world)@.items,
                monster_views(cave.monsters@),
                turns_of(report.encounters@),
            );
            &&& final(player)@ == (PlayerView {
                damage: run.damage as u64,
                inventory: run.stock,
                ..old(player)@
            })
            &&& final(player)@.damage == run.damage
            &&& match report.result {
                CaveResult::Survived { reward } => {
                    &&& !run.dead
                    &&& report.encounters@.len() == cave.monsters@.len()
                    &&& reward.xp == run.xp
                    &&& reward.gold == cave.gold
                    &&& reward.loot == cave.loot
                },
                CaveResult::Died => run.dead,
            }
        }),
{
    let Cave { loot, gold, monsters } = cave;
    world.record_cave(monsters.len() as u64);
    let player_level = player.level();
    let ghost hp = hp_at(player@.xp as nat);
    let ghost damage = player@.damage as nat;
    let ghost stock = player@.inventory;
    let ghost items = world@.items;
    let ghost foes = monster_views(monsters@);
    let mut encounters: Vec<Encounter> = Vec::new();
    let mut xp: u64 = CAVE_XP;
    let mut index: usize = 0;
    proof {
        assert(turns_of(encounters@) =~= Seq::<Turn>::empty());
    }
    while index < monsters.len()
        invariant
            index <= monsters@.len(),
            encounters@.len() == index,
            damage == old(player)@.damage as nat,
            stock == old(player)@.inventory,
            monsters == cave.monsters,
            loot == cave.loot,
            gold == cave.gold,
            world.wf(),
            items == old(world)@.items,
            world@ == (WorldView {
                stats: Stats {
                    caves: (old(world)@.stats.caves + 1) as u64,
                    monsters: (old(world)@.stats.monsters + monsters@.len()) as u64,
                },
                ..old(world)@
            }),
            player.wf(),
            all_listed(player@.inventory, items),
            total_defense(player@.inventory, items) <= u64::MAX,
            player@.damage + 1000 <= u64::MAX,
            CAVE_XP + 19_980 * monsters@.len() <= u64::MAX,
            forall|i: int| 0 <= i < monsters@.len() ==> (#[trigger] monsters@[i]).wf(),
            foes == monster_views(monsters@),
            player_level == level_for(old(player)@.xp as nat),
            hp == hp_at(old(player)@.xp as nat),
            player@.name == old(player)@.name,
            player@.xp == old(player)@.xp,
            player@.gold == old(player)@.gold,
            xp <= CAVE_XP + 19_980 * index,
            forall|i: int|
                0 <= i < encounters@.len() ==> turn_allowed(
                    player_level as nat,
                    monsters@[i]@.level as nat,
                    #[trigger] turns_of(encounters@)[i],
                ),
            cave_run(damage, hp, stock, items, foes, turns_of(encounters@)) == (Run {
                damage: player@.damage as nat,
                stock: player@.inventory,
                xp: xp as nat,
                dead: false,
            }),
        decreases monsters@.len() - index,
    {
        let monster = &monsters[index];
        assert(monster.wf());
        let turn = roll_turn(player_level, monster, rng);
        let ghost turns = turns_of(encounters@);
        let ghost before = player@;
        proof {
            assert(damage_ceiling(monster@.level as nat) <= 1000);
        }
        let encounter = resolve_turn(player, world, turn);
        let fatal = match &encounter {
            Encounter::Blow { fatal, .. } => *fatal,
            _ => false,
        };
        let struck_alive = match &encounter {
            Encounter::Blow { fatal, .. } => !*fatal,
            _ => false,
        };
        encounters.push(encounter);
        proof {
            assert(turns_of(encounters@) =~= turns.push(turn));
            assert(turns.push(turn).drop_last() =~= turns);
            assert(foes[index as int] == monsters@[index as int]@);
            assert forall|i: int| 0 <= i < encounters@.len() implies turn_allowed(
                player_level as nat,
                monsters@[i]@.level as nat,
                #[trigger] turns_of(encounters@)[i],
            ) by {
                if i < index {
                    assert(turns_of(encounters@)[i] == turns[i]);
                }
            }
        }
        if fatal {
            return CaveReport { result: CaveResult::Died, monsters, encounters };
        }
        if struck_alive {
            assert(monster@.level < 1000);
            xp += XP_PER_MONSTER_LEVEL * monster.level();
        }
        index += 1;
    }
    CaveReport {
        result: CaveResult::Survived { reward: CaveReward { xp, gold, loot } },
        monsters,
        encounters,
    }
}

/// Plays out a cave by turns that are given, one for each monster: the
/// monsters are met in order until the last is behind the player or the
/// player is dead. The turns after a deadly one are not played.
pub fn resolve_cave(world: &World, player: &mut Player, cave: Cave, turns: &Vec<Turn>) -> (report:
    CaveReport)
    requires
        world.wf(),
        old(player).wf(),
        cave.wf(),
        all_listed(old(player)@.inventory, world@.items),
        total_defense(old(player)@.inventory, world@.items) <= u64::MAX,
        old(player)@.damage + 1000 <= u64::MAX,
        CAVE_XP + 19_980 * cave.monsters@.len() <= u64::MAX,
        turns@.len() == cave.monsters@.len(),
        forall|i: int|
            0 <= i < turns@.len() ==> turn_allowed(
                level_for(old(player)@.xp as nat),
                cave.monsters@[i]@.level as nat,
                #[trigger] turns@[i],
            ),
    ensures
        final(player).wf(),
        all_listed(final(player)@.inventory, world@.items),
        report.monsters == cave.monsters,
        report.encounters@.len() <= turns@.len(),
        turns_of(report.encounters@) == turns@.take(report.encounters@.len() as int),
        ({
            let run = cave_run(
                old(player)@.damage as nat,
                hp_at(old(player)@.xp as nat),
                old(player)@.inventory,
                world@.items,
                monster_views(cave.monsters@),
                turns@,
            );
            &&& final(player)@ == (PlayerView {
                damage: run.damage as u64,
                inventory: run.stock,
                ..old(player)@
            })
            &&& final(player)@.damage == run.damage
            &&& match report.result {
                CaveResult::Survived { reward } => {
                    &&& !run.dead
                    &&& report.encounters@.len() == turns@.len()
                    &&& reward.xp == run.xp
                    &&& reward.gold == cave.gold
                    &&& reward.loot == cave.loot
                },
                CaveResult::Died => run.dead,
            }
        }),
{
    let Cave { loot, gold, monsters } = cave;
    let ghost hp = hp_at(player@.xp as nat);
    let ghost damage = player@.damage as nat;
    let ghost stock = player@.inventory;
    let ghost items = world@.items;
    let ghost foes = monster_views(monsters@);
    let mut encounters: Vec<Encounter> = Vec::new();
    let mut xp: u64 = CAVE_XP;
    let mut index: usize = 0;
    proof {
        assert(turns_of(encounters@) =~= turns@.take(0));
    }
    while index < monsters.len()
        invariant
            index <= monsters@.len(),
            encounters@.len() == index,
            turns@.len() == monsters@.len(),
            damage == old(player)@.damage as nat,
            stock == old(player)@.inventory,
            monsters == cave.monsters,
            loot == cave.loot,
            gold == cave.gold,
            world.wf(),
            items == world@.items,
            player.wf(),
            all_listed(player@.inventory, items),
            total_defense(player@.inventory, items) <= u64::MAX,
            player@.damage + 1000 <= u64::MAX,
            CAVE_XP + 19_980 * monsters@.len() <= u64::MAX,
            forall|i: int| 0 <= i < monsters@.len() ==> (#[trigger] monsters@[i]).wf(),
            forall|i: int|
                0 <= i < turns@.len() ==> turn_allowed(
                    level_for(old(player)@.xp as nat),
                    monsters@[i]@.level as nat,
                    #[trigger] turns@[i],
                ),
            foes == monster_views(monsters@),
            hp == hp_at(old(player)@.xp as nat),
            player@.name == old(player)@.name,
            player@.xp == old(player)@.xp,
            player@.gold == old(player)@.gold,
            xp <= CAVE_XP + 19_980 * index,
            turns_of(encounters@) == turns@.take(index as int),
            cave_run(damage, hp, stock, items, foes, turns@.take(index as int)) == (Run {
                damage: player@.damage as nat,
                stock: player@.inventory,
                xp: xp as nat,
                dead: false,
            }),
        decreases monsters@.len() - index,
    {
        let monster = &monsters[index];
        let turn = turns[index];
        let ghost played = turns@.take(index as int);
        proof {
            assert(monster.wf());
            assert(turn_allowed(
                level_for(old(player)@.xp as nat),
                monsters@[index as int]@.level as nat,
                turns@[index as int],
            ));
            assert(damage_ceiling(monster@.level as nat) <= 1000);
        }
        let encounter = resolve_turn(player, world, turn);
        let fatal = match &encounter {
            Encounter::Blow { fatal, .. } => *fatal,
            _ => false,
        };
        let struck_alive = match &encounter {
            Encounter::Blow { fatal, .. } => !*fatal,
            _ => false,
        };
        encounters.push(encounter);
        proof {
            assert(turns_of(encounters@) =~= played.push(turn));
            assert(turns@.take(index + 1) =~= played.push(turn));
            assert(played.push(turn).drop_last() =~= played);
            assert(foes[index as int] == monsters@[index as int]@);
        }
        if fatal {
            proof {
                lemma_death_ends_cave(damage, hp, stock, items, foes, turns@, index + 1);
            }
            return CaveReport { result: CaveResult::Died, monsters, encounters };
        }
        if struck_alive {
            assert(monster@.level < 1000);
            xp += XP_PER_MONSTER_LEVEL * monster.level();
        }
        index += 1;
    }
    proof {
        assert(turns@.take(index as int) =~= turns@);
    }
    CaveReport {
        result: CaveResult::Survived { reward: CaveReward { xp, gold, loot } },
        monsters,
        encounters,
    }
}

/// Whether two caves are an easy one and one of the difficulty `harder`,
/// in either order.
pub open spec fn caves_fit(
    caves: Seq<Cave>,
    world: WorldView,
    player_rarity: Rarity,
    harder: CaveDifficulty,
) -> bool {
    &&& caves.len() == 2
    &&& {
        ||| cave_fits(caves[0], world, player_rarity, CaveDifficulty::Easy) && cave_fits(
            caves[1],
            world,
            player_rarity,
            harder,
        )
        ||| cave_fits(caves[1], world, player_rarity, CaveDifficulty::Easy) && cave_fits(
            caves[0],
            world,
            player_rarity,
            harder,
        )
    }
}

/// Makes the two caves between which the player chooses: an easy one, and
/// one whose difficulty a fair coin decides. They come in shuffled order, so
/// that the place of a cave says nothing of its difficulty.
pub fn cave_choices(world: &mut World, player: &Player, rng: &mut StdRng) -> (caves: Vec<Cave>)
    requires
        old(world).wf(),
        eligible_slots(
            old(world)@.monsters,
            CaveDifficulty::Easy,
            rarity_at(player@.xp as nat),
        ).len() > 0,
    ensures
        final(world)@ == old(world)@,
        final(world).wf(),
        exists|harder: CaveDifficulty|
            caves_fit(caves@, old(world)@, rarity_at(player@.xp as nat), harder),
{
    let ghost rarity = rarity_at(player@.xp as nat);
    let ghost templates = world@.monsters;
    let harder = CaveDifficulty::random(rng);
    proof {
        lemma_eligible_slots(templates, CaveDifficulty::Easy, rarity);
        lemma_eligible_slots(templates, harder, rarity);
        let easy = eligible_slots(templates, CaveDifficulty::Easy, rarity);
        let slot = easy[0];
        assert(0 <= slot < templates.len());
        assert(eligible_slots(templates, harder, rarity).contains(slot));
    }
    let easy_cave = world.new_cave(player, rng, CaveDifficulty::Easy);
    let harder_cave = world.new_cave(player, rng, harder);
    let mut caves: Vec<Cave> = Vec::new();
    caves.push(easy_cave);
    caves.push(harder_cave);
    let ghost before = caves@;
    shuffle(&mut caves, rng);
    proof {
        let order = choose|order: Seq<int>|
            {
                &&& order.len() == before.len()
                &&& caves@.len() == before.len()
                &&& order.no_duplicates()
                &&& forall|i: int|
                    0 <= i < order.len() ==> 0 <= #[trigger] order[i] < before.len() && caves@[i]
                        == before[order[i]]
            };
        assert(order[0] != order[1]);
        assert(caves@[0] == before[order[0]]);
        assert(caves@[1] == before[order[1]]);
        assert(caves_fit(caves@, old(world)@, rarity, harder));
    }
    caves
}

/// What the player does after a survived cave.
#[derive(Clone, Copy, PartialEq, Eq, Structural, Debug)]
pub enum CaveSurvivedChoice {
    ShowStatusReport,
    Continue,
}

impl CaveSurvivedChoice {
    /// The choice behind an entry of the menu after a cave: the first goes
    /// on, every other shows the status.
    pub fn from_index(index: usize) -> (choice: CaveSurvivedChoice)
        ensures
            choice == if index == 0 {
                CaveSurvivedChoice::Continue
            } else {
                CaveSurvivedChoice::ShowStatusReport
            },
    {
        match index {
            0 => CaveSurvivedChoice::Continue,
            _ => CaveSurvivedChoice::ShowStatusReport,
        }
    }

    pub fn is_show_status_report(&self) -> (answer: bool)
        ensures
            answer == (*self == CaveSurvivedChoice::ShowStatusReport),
    {
        matches!(self, CaveSurvivedChoice::ShowStatusReport)
    }

    pub fn is_continue(&self) -> (answer: bool)
        ensures
            answer == (*self == CaveSurvivedChoice::Continue),
    {
        matches!(self, CaveSurvivedChoice::Continue)
    }
}

/// What the player does after a lost game.
#[derive(Clone, Copy, PartialEq, Eq, Structural, Debug)]
pub enum GameOverChoice {
    Retry,
    Quit,
}

impl GameOverChoice {
    pub fn is_retry(&self) -> (answer: bool)
        ensures
            answer == (*self == GameOverChoice::Retry),
    {
        matches!(self, GameOverChoice::Retry)
    }

    pub fn is_quit(&self) -> (answer: bool)
        ensures
            answer == (*self == GameOverChoice::Quit),
    {
        matches!(self, GameOverChoice::Quit)
    }
}

/// What the death screen offers next.
#[derive(Clone, Copy, PartialEq, Eq, Structural, Debug)]
pub enum GameOverStep {
    /// The game is left, for a new one or for good.
    Leave(GameOverChoice),
    /// The inventory is shown, and the menu comes again.
    ShowInventory,
    /// The leaderboards are asked for.
    Leaderboards,
}

/// The step behind an entry of the menu of the death screen: the first
/// tries again, the second shows the inventory, the third asks for the
/// leaderboards, every other quits.
pub fn game_over_step(index: usize) -> (step: GameOverStep)
    ensures
        step == if index == 0 {
            GameOverStep::Leave(GameOverChoice::Retry)
        } else if index == 1 {
            GameOverStep::ShowInventory
        } else if index == 2 {
            GameOverStep::Leaderboards
        } else {
            GameOverStep::Leave(GameOverChoice::Quit)
        },
{
    match index {
        0 => GameOverStep::Leave(GameOverChoice::Retry),
        1 => GameOverStep::ShowInventory,
        2 => GameOverStep::Leaderboards,
        _ => GameOverStep::Leave(GameOverChoice::Quit),
    }
}

/// The rows of a list as the contracts see them: a name and a number.
pub open spec fn row_views(rows: Seq<(String, u32)>) -> Seq<(Seq<char>, nat)> {
    rows.map_values(|row: (String, u32)| (row.0@, row.1 as nat))
}

/// The rows that show loot: for each line, the name of the item and the
/// units of it.
pub open spec fn loot_rows(loot: Seq<Holding>, items: Seq<ItemView>) -> Seq<(Seq<char>, nat)> {
    Seq::new(loot.len(), |i: int| (lookup(items, loot[i].id).name, loot[i].count))
}

/// The rows that show an inventory in a given order of its lines.
pub open spec fn ordered_rows(stock: Seq<Holding>, items: Seq<ItemView>, order: Seq<int>) -> Seq<
    (Seq<char>, nat),
> {
    Seq::new(
        order.len(),
        |k: int| (lookup(items, stock[order[k]].id).name, stock[order[k]].count),
    )
}

/// Hands the reward of a cave to the player: the experience, the gold and
/// every unit of the loot. Returns the rows that show the loot.
pub fn show_cave_reward(world: &World, player: &mut Player, reward: CaveReward) -> (rows: Vec<
    (String, u32),
>)
    requires
        world.wf(),
        old(player).wf(),
        reward.loot.wf(),
        all_listed(old(player)@.inventory, world@.items),
        all_listed(reward.loot@, world@.items),
        old(player)@.xp + reward.xp <= u64::MAX,
        old(player)@.gold + reward.gold <= u64::MAX,
        units(old(player)@.inventory) + units(reward.loot@) <= u32::MAX,
    ensures
        final(player)@ == (PlayerView {
            xp: (old(player)@.xp + reward.xp) as u64,
            gold: (old(player)@.gold + reward.gold) as u64,
            inventory: with_all(old(player)@.inventory, reward.loot@),
            ..old(player)@
        }),
        final(player).wf(),
        all_listed(final(player)@.inventory, world@.items),
        row_views(rows@) == loot_rows(reward.loot@, world@.items),
{
    player.add_xp(reward.xp);
    player.add_gold(reward.gold);
    let ghost start = player@;
    let ghost items = world@.items;
    let loot = &reward.loot;
    let mut rows: Vec<(String, u32)> = Vec::new();
    let mut index: usize = 0;
    proof {
        assert(loot@.take(0) =~= Seq::<Holding>::empty());
    }
    while index < loot.len()
        invariant
            index <= loot@.len(),
            world.wf(),
            items == world@.items,
            loot.wf(),
            all_listed(loot@, items),
            well_formed(start.inventory),
            all_listed(start.inventory, items),
            units(start.inventory) + units(loot@) <= u32::MAX,
            player@ == (PlayerView {
                inventory: with_all(start.inventory, loot@.take(index as int)),
                ..start
            }),
            rows@.len() == index,
            forall|i: int|
                0 <= i < index ==> (#[trigger] rows@[i]).0@ == lookup(items, loot@[i].id).name
                    && rows@[i].1 == loot@[i].count,
        decreases loot@.len() - index,
    {
        let ghost taken = loot@.take(index as int);
        let ghost base = with_all(start.inventory, taken);
        let ghost line = loot@[index as int];
        let count = loot.count_at(index);
        proof {
            lemma_units_prefix(loot@, index as int);
            lemma_units_prefix(loot@, index as int + 1);
            assert forall|i: int| 0 <= i < taken.len() implies listed(
                items,
                (#[trigger] taken[i]).id,
            ) by {
                assert(taken[i] == loot@[i]);
            }
            lemma_with_all(start.inventory, taken, items);
            assert(listed(items, line.id));
            assert(loot@.take(index + 1).drop_last() =~= taken);
            assert(loot@.take(index + 1).last() == line);
        }
        let mut unit: u32 = 0;
        while unit < count
            invariant
                unit <= count,
                count == line.count,
                line == loot@[index as int],
                index < loot@.len(),
                well_formed(base),
                all_listed(base, items),
                listed(items, line.id),
                units(base) + count <= u32::MAX,
                player@ == (PlayerView { inventory: with_more(base, line.id, unit as nat), ..start }),
            decreases count - unit,
        {
            proof {
                lemma_with_more(base, line.id, unit as nat, items);
            }
            player.add_item(loot.id_at(index).as_str());
            unit += 1;
        }
        match world.get_item(loot.id_at(index).as_str()) {
            Some(item) => {
                rows.push((item.name().clone(), count));
            },
            None => {
                rows.push((String::new(), count));
            },
        }
        index += 1;
    }
    proof {
        assert(loot@.take(index as int) =~= loot@);
        lemma_with_all(start.inventory, loot@, items);
        assert(row_views(rows@) =~= loot_rows(loot@, items));
    }
    rows
}

/// The numbers of the status screen.
#[derive(Clone, Copy, PartialEq, Eq, Structural, Debug)]
pub struct StatusReport {
    pub level: u64,
    pub xp: u64,
    pub hp_remaining: u64,
    pub hp: u64,
    pub gold: u64,
    pub items: u32,
    pub armor: u64,
}

/// Gathers the numbers of the status screen.
pub fn show_status(world: &World, player: &Player) -> (report: StatusReport)
    requires
        world.wf(),
        player.wf(),
        all_listed(player@.inventory, world@.items),
        total_defense(player@.inventory, world@.items) <= u64::MAX,
    ensures
        report.level == level_for(player@.xp as nat),
        report.xp == player@.xp,
        report.hp == hp_at(player@.xp as nat),
        report.hp_remaining == if player@.damage >= report.hp {
            0
        } else {
            report.hp - player@.damage
        },
        report.gold == player@.gold,
        report.items == units(player@.inventory),
        report.armor == total_defense(player@.inventory, world@.items),
{
    StatusReport {
        level: player.level(),
        xp: player.xp(),
        hp_remaining: player.hp_remaining(),
        hp: player.hp(),
        gold: player.gold(),
        items: player.item_count(),
        armor: player.defense(world),
    }
}

/// The rows that show the inventory: for each line the name of the item and
/// the units held, the line of the most units first; lines of as many units
/// keep their order.
pub fn show_inventory(world: &World, player: &Player) -> (rows: Vec<(String, u32)>)
    requires
        world.wf(),
        player.wf(),
        all_listed(player@.inventory, world@.items),
    ensures
        exists|order: Seq<int>|
            ranked(player@.inventory, order, player@.inventory.len() as int) && row_views(rows@)
                == ordered_rows(player@.inventory, world@.items, order),
{
    let inventory = player.inventory();
    let order = inventory.by_count();
    let ghost slots = slots_of(order@);
    let mut rows: Vec<(String, u32)> = Vec::new();
    let mut index: usize = 0;
    while index < order.len()
        invariant
            index <= order@.len(),
            world.wf(),
            inventory@ == player@.inventory,
            all_listed(inventory@, world@.items),
            slots == slots_of(order@),
            ranked(inventory@, slots, inventory@.len() as int),
            rows@.len() == index,
            forall|k: int|
                0 <= k < index ==> (#[trigger] rows@[k]).0@ == lookup(
                    world@.items,
                    inventory@[slots[k]].id,
                ).name && rows@[k].1 == inventory@[slots[k]].count,
        decreases order@.len() - index,
    {
        let slot = order[index];
        proof {
            assert(slots[index as int] == slot);
            assert(0 <= slots[index as int] < inventory@.len());
            assert(listed(world@.items, inventory@[slot as int].id));
        }
        let count = inventory.count_at(slot);
        match world.get_item(inventory.id_at(slot).as_str()) {
            Some(item) => {
                rows.push((item.name().clone(), count));
            },
            None => {
                rows.push((String::new(), count));
            },
        }
        index += 1;
    }
    proof {
        assert(row_views(rows@) =~= ordered_rows(player@.inventory, world@.items, slots));
    }
    rows
}

/// The numbers of the death screen.
#[derive(Clone, Copy, PartialEq, Eq, Structural, Debug)]
pub struct DeathSummary {
    pub caves: u64,
    pub monsters: u64,
    pub gold: u64,
    pub items: u32,
    pub level: u64,
    pub xp: u64,
    pub net_worth: u64,
}

/// Gathers the numbers of the death screen. The caves count by halves of
/// the counter, which the screen has always shown.
pub fn show_death_screen(world: &World, player: &Player) -> (summary: DeathSummary)
    requires
        world.wf(),
        player.wf(),
        all_listed(player@.inventory, world@.items),
        player@.gold + worth(player@.inventory, world@.items) <= u64::MAX,
    ensures
        summary.caves == world@.stats.caves / 2,
        summary.monsters == world@.stats.monsters,
        summary.gold == player@.gold,
        summary.items == units(player@.inventory),
        summary.level == level_for(player@.xp as nat),
        summary.xp == player@.xp,
        summary.net_worth == player@.gold + worth(player@.inventory, world@.items),
{
    let stats = world.stats();
    DeathSummary {
        caves: stats.caves / 2,
        monsters: stats.monsters,
        gold: player.gold(),
        items: player.item_count(),
        level: player.level(),
        xp: player.xp(),
        net_worth: player.net_worth(world),
    }
}

} // verus!
