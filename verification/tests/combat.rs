use delve::entities::inventory::{Inventory, RawInventory};
use delve::entities::item::{Item, ItemKind, Limb};
use delve::entities::monster::{Monster, PotentialMonster};
use delve::entities::player::Player;
use delve::entities::world::{Cave, Stats, World};
use delve::entities::{Level, Rarity};
use delve::game::{
    cave_choices, enter_cave, game_over_step, initiative_odds, resolve_cave, resolve_turn,
    roll_turn, show_cave_reward, show_death_screen, show_inventory, show_status, turn_from_rolls,
    CaveResult,
    CaveReward, CaveSurvivedChoice, DeathSummary, Encounter, GameOverChoice, GameOverStep,
    StatusReport, Turn, CAVE_XP, INITIATIVE_WEIGHT, XP_PER_MONSTER_LEVEL,
};
use rand::rngs::StdRng;
use rand::SeedableRng;

fn world() -> World {
    World::new()
        .with_load_items(vec![
            Item::new("helmet", ItemKind::Armor { defense: 5, limb: Limb::Head }, "Helmet", 10, Rarity::Common),
            Item::new("plate", ItemKind::Armor { defense: 100, limb: Limb::Body }, "Plate", 900, Rarity::Rare),
            Item::new("small", ItemKind::Potion { hp: 10 }, "Small potion", 5, Rarity::Common),
            Item::new("big", ItemKind::Potion { hp: 30 }, "Big potion", 20, Rarity::Uncommon),
            Item::new("gem", ItemKind::Collectible, "Gem", 100, Rarity::Rare),
        ])
        .with_load_monsters(vec![
            PotentialMonster {
                id: "rat".to_string(),
                name: "Rat".to_string(),
                proper_noun: false,
                generic: true,
                rarity: None,
                max_level: None,
            },
            PotentialMonster {
                id: "ogre".to_string(),
                name: "Ogre".to_string(),
                proper_noun: false,
                generic: true,
                rarity: Some(Rarity::Uncommon),
                max_level: None,
            },
        ])
}

fn rat(level: u64) -> Monster {
    Monster::new("Rat", false, true, Rarity::from_level(level), level).unwrap()
}

fn cave(levels: &[u64]) -> Cave {
    let mut loot = RawInventory::new();
    loot.add("gem");
    loot.add("small");
    Cave { loot, gold: 42, monsters: levels.iter().map(|level| rat(*level)).collect() }
}

fn outline(report: &delve::game::CaveReport, player: &Player) -> String {
    let mut text = match &report.result {
        CaveResult::Survived { reward } => format!("survived {} {}", reward.xp, reward.gold),
        CaveResult::Died => "died".to_string(),
    };
    for encounter in &report.encounters {
        text = format!("{} {:?}", text, encounter);
    }
    format!("{} / {} {}", text, player.damage(), player.item_count())
}

#[test]
fn the_rules_of_experience() {
    assert_eq!(CAVE_XP, 500);
    assert_eq!(XP_PER_MONSTER_LEVEL, 20);
    assert_eq!(INITIATIVE_WEIGHT, 2);
}

#[test]
fn initiative_odds_weigh_the_levels() {
    assert_eq!(initiative_odds(0, &rat(5)), (1, 10));
    assert_eq!(initiative_odds(1, &rat(5)), (1, 10));
    assert_eq!(initiative_odds(3, &rat(5)), (3, 10));
    assert_eq!(initiative_odds(10, &rat(5)), (10, 10));
    assert_eq!(initiative_odds(11, &rat(5)), (10, 10));
    assert_eq!(initiative_odds(u64::MAX, &rat(999)), (1998, 1998));
}

#[test]
fn a_much_stronger_player_always_has_the_initiative() {
    let mut rng = StdRng::seed_from_u64(12);
    for _ in 0..200 {
        assert_eq!(roll_turn(18, &rat(9), &mut rng), Turn::Initiative);
    }
}

#[test]
fn turns_follow_the_rolls() {
    assert_eq!(turn_from_rolls(true, false, 0), Turn::Initiative);
    assert_eq!(turn_from_rolls(true, true, 7), Turn::Initiative);
    assert_eq!(turn_from_rolls(false, true, 0), Turn::Retreat);
    assert_eq!(turn_from_rolls(false, true, 7), Turn::Retreat);
    assert_eq!(turn_from_rolls(false, false, 7), Turn::Blow { damage: 7 });
    assert_eq!(turn_from_rolls(false, false, 0), Turn::Blow { damage: 0 });
}

#[test]
fn rolled_turns_are_allowed_turns() {
    let mut rng = StdRng::seed_from_u64(13);
    let ogre = rat(40);
    let (mut initiative, mut retreat, mut blow) = (0, 0, 0);
    for _ in 0..600 {
        match roll_turn(4, &ogre, &mut rng) {
            Turn::Initiative => initiative += 1,
            Turn::Retreat => retreat += 1,
            Turn::Blow { damage } => {
                blow += 1;
                assert!((4..40).contains(&damage));
            },
        }
    }
    assert!(initiative > 0 && retreat > 0 && blow > 0);
    assert!(blow > retreat);
    for _ in 0..300 {
        assert_ne!(roll_turn(4, &rat(9), &mut rng), Turn::Retreat);
    }
}

#[test]
fn a_turn_without_a_blow_changes_nothing() {
    let world = world();
    let mut player = Player::new("Ada");
    player.add_item("small");
    player.add_damage(7, &world);
    assert!(matches!(resolve_turn(&mut player, &world, Turn::Initiative), Encounter::Initiative));
    assert!(matches!(resolve_turn(&mut player, &world, Turn::Retreat), Encounter::Retreat));
    assert_eq!(player.damage(), 7);
    assert_eq!(player.item_count(), 1);
}

#[test]
fn a_blow_goes_through_the_armor() {
    let world = world();
    let mut player = Player::new("Ada");
    player.add_xp(10_000);
    player.add_item("plate");
    match resolve_turn(&mut player, &world, Turn::Blow { damage: 50 }) {
        Encounter::Blow { raw, damage, potions, fatal } => {
            assert_eq!(raw, 50);
            assert_eq!(damage, 44);
            assert!(potions.is_empty());
            assert!(!fatal);
        },
        other => panic!("{:?}", other),
    }
    assert_eq!(player.damage(), 44);
}

#[test]
fn a_deadly_blow_is_healed_by_potions() {
    let world = world();
    let mut player = Player::new("Ada");
    player.add_item("small");
    player.add_item("big");
    player.add_damage(20, &world);
    match resolve_turn(&mut player, &world, Turn::Blow { damage: 15 }) {
        Encounter::Blow { raw, damage, potions, fatal } => {
            assert_eq!(raw, 15);
            assert_eq!(damage, 15);
            assert_eq!(potions, vec!["big".to_string()]);
            assert!(!fatal);
        },
        other => panic!("{:?}", other),
    }
    assert_eq!(player.damage(), 5);
    assert_eq!(player.has_item("small"), Some(1));
    match resolve_turn(&mut player, &world, Turn::Blow { damage: 60 }) {
        Encounter::Blow { damage, potions, fatal, .. } => {
            assert_eq!(damage, 60);
            assert_eq!(potions, vec!["small".to_string()]);
            assert!(fatal);
        },
        other => panic!("{:?}", other),
    }
    assert_eq!(player.damage(), 55);
    assert!(player.dead());
}

#[test]
fn a_survived_cave_gives_experience_gold_and_loot() {
    let world = world();
    let mut player = Player::new("Ada");
    let turns = vec![Turn::Blow { damage: 3 }, Turn::Initiative, Turn::Blow { damage: 2 }, Turn::Initiative];
    let report = resolve_cave(&world, &mut player, cave(&[5, 7, 9, 2]), &turns);
    assert_eq!(report.encounters.len(), 4);
    assert_eq!(report.monsters.len(), 4);
    match report.result {
        CaveResult::Survived { reward } => {
            assert_eq!(reward.xp, 500 + 20 * 5 + 20 * 9);
            assert_eq!(reward.gold, 42);
            assert_eq!(reward.loot.get("gem"), Some(1));
            assert_eq!(reward.loot.get("small"), Some(1));
            assert_eq!(reward.loot.total(), 2);
        },
        CaveResult::Died => panic!("the player should have survived"),
    }
    assert_eq!(player.damage(), 5);
    assert_eq!(player.xp(), 0);
}

#[test]
fn an_empty_cave_gives_the_experience_of_the_cave() {
    let world = world();
    let mut player = Player::new("Ada");
    let report = resolve_cave(&world, &mut player, cave(&[]), &Vec::new());
    assert!(report.encounters.is_empty());
    match report.result {
        CaveResult::Survived { reward } => assert_eq!(reward.xp, 500),
        CaveResult::Died => panic!("the player should have survived"),
    }
}

#[test]
fn death_ends_the_cave_without_a_reward() {
    let world = world();
    let mut player = Player::new("Ada");
    player.add_xp(100);
    player.add_item("gem");
    player.add_damage(22, &world);
    let turns = vec![
        Turn::Blow { damage: 3 },
        Turn::Blow { damage: 4 },
        Turn::Blow { damage: 2 },
        Turn::Initiative,
    ];
    let report = resolve_cave(&world, &mut player, cave(&[5, 7, 9, 2]), &turns);
    assert!(matches!(report.result, CaveResult::Died));
    assert_eq!(report.encounters.len(), 2);
    assert!(matches!(report.encounters[0], Encounter::Blow { fatal: false, damage: 3, .. }));
    assert!(matches!(report.encounters[1], Encounter::Blow { fatal: true, damage: 4, .. }));
    assert_eq!(report.monsters.len(), 4);
    assert_eq!(player.damage(), 29);
    assert!(player.dead());
    assert_eq!(player.xp(), 100);
    assert_eq!(player.gold(), 0);
    assert_eq!(player.item_count(), 1);
}

#[test]
fn entering_a_cave_with_the_initiative_for_sure() {
    let mut world = world();
    let mut player = Player::new("Ada");
    player.add_xp(144);
    assert_eq!(player.level(), 2);
    let mut rng = StdRng::seed_from_u64(14);
    let report = enter_cave(&mut world, &mut player, cave(&[1, 1, 1]), &mut rng);
    assert_eq!(report.encounters.len(), 3);
    for encounter in &report.encounters {
        assert!(matches!(encounter, Encounter::Initiative));
    }
    match report.result {
        CaveResult::Survived { reward } => {
            assert_eq!(reward.xp, 500);
            assert_eq!(reward.gold, 42);
            assert_eq!(reward.loot.total(), 2);
        },
        CaveResult::Died => panic!("the player should have survived"),
    }
    assert_eq!(world.stats(), Stats { caves: 1, monsters: 3 });
    assert_eq!(player.damage(), 0);
    assert_eq!(player.xp(), 144);
}

#[test]
fn entering_caves_until_death() {
    let mut world = world();
    let mut player = Player::new("Ada");
    player.add_item("small");
    let mut rng = StdRng::seed_from_u64(15);
    let mut entered = 0;
    let mut met = 0;
    loop {
        let report = enter_cave(&mut world, &mut player, cave(&[9, 9, 9]), &mut rng);
        entered += 1;
        met += 3;
        assert_eq!(world.stats(), Stats { caves: entered, monsters: met });
        let mut blows_survived = 0;
        for encounter in &report.encounters {
            match encounter {
                Encounter::Blow { raw, damage, fatal, .. } => {
                    assert!((2..9).contains(raw));
                    assert_eq!(raw, damage);
                    if !fatal {
                        blows_survived += 1;
                    }
                },
                Encounter::Retreat => panic!("nothing to retreat from"),
                Encounter::Initiative => {},
            }
        }
        match report.result {
            CaveResult::Survived { reward } => {
                assert_eq!(report.encounters.len(), 3);
                assert_eq!(reward.xp, 500 + 180 * blows_survived);
                assert!(!player.dead());
            },
            CaveResult::Died => {
                assert!(player.dead());
                assert!(matches!(report.encounters.last(), Some(Encounter::Blow { fatal: true, .. })));
                break;
            },
        }
        assert!(entered < 1000);
    }
    assert_eq!(player.xp(), 0);
    assert_eq!(player.has_item("small"), None);
}

#[test]
fn the_same_seed_plays_the_same_game() {
    for seed in 0..30u64 {
        let mut outlines = Vec::new();
        for _ in 0..2 {
            let mut world = world();
            let mut player = Player::new("Ada");
            player.add_item("small");
            player.add_item("big");
            player.add_item("helmet");
            let mut rng = StdRng::seed_from_u64(seed);
            let mut caves = cave_choices(&mut world, &player, &mut rng);
            let cave = caves.remove(1);
            let report = enter_cave(&mut world, &mut player, cave, &mut rng);
            let mut names = String::new();
            for monster in &report.monsters {
                names = format!("{} {}@{}", names, monster.name(), monster.level());
            }
            outlines.push(format!("{}{}", outline(&report, &player), names));
        }
        assert_eq!(outlines[0], outlines[1]);
    }
}

#[test]
fn the_reward_goes_to_the_player() {
    let world = world();
    let mut player = Player::new("Ada");
    player.add_item("gem");
    player.add_gold(8);
    let mut loot = RawInventory::new();
    loot.add("small");
    loot.add("gem");
    loot.add("small");
    let rows = show_cave_reward(&world, &mut player, CaveReward { xp: 680, gold: 42, loot });
    assert_eq!(rows, vec![("Small potion".to_string(), 2), ("Gem".to_string(), 1)]);
    assert_eq!(player.xp(), 680);
    assert_eq!(player.gold(), 50);
    assert_eq!(player.has_item("gem"), Some(2));
    assert_eq!(player.has_item("small"), Some(2));
    assert_eq!(player.item_count(), 4);
    assert_eq!(player.level(), 3);
}

#[test]
fn the_status_screen() {
    let world = world();
    let mut player = Player::new("Ada");
    player.add_xp(680);
    player.add_gold(50);
    player.add_item("helmet");
    player.add_item("gem");
    player.add_item("gem");
    player.add_damage(12, &world);
    assert_eq!(
        show_status(&world, &player),
        StatusReport { level: 3, xp: 680, hp_remaining: 23, hp: 35, gold: 50, items: 3, armor: 5 }
    );
}

#[test]
fn the_inventory_screen_ranks_by_units() {
    let world = world();
    let mut player = Player::new("Ada");
    for id in ["helmet", "gem", "gem", "small", "small", "small", "big", "big"] {
        player.add_item(id);
    }
    assert_eq!(
        show_inventory(&world, &player),
        vec![
            ("Small potion".to_string(), 3),
            ("Gem".to_string(), 2),
            ("Big potion".to_string(), 2),
            ("Helmet".to_string(), 1),
        ]
    );
    assert!(show_inventory(&world, &Player::new("Bob")).is_empty());
}

#[test]
fn the_death_screen() {
    let mut world = world();
    for _ in 0..5 {
        world.record_cave(2);
    }
    let mut player = Player::new("Ada");
    player.add_xp(680);
    player.add_gold(50);
    player.add_item("helmet");
    player.add_item("gem");
    player.add_item("gem");
    assert_eq!(
        show_death_screen(&world, &player),
        DeathSummary { caves: 2, monsters: 10, gold: 50, items: 3, level: 3, xp: 680, net_worth: 260 }
    );
}

#[test]
fn the_menus_after_a_cave_and_after_death() {
    assert_eq!(CaveSurvivedChoice::from_index(0), CaveSurvivedChoice::Continue);
    assert_eq!(CaveSurvivedChoice::from_index(1), CaveSurvivedChoice::ShowStatusReport);
    assert_eq!(CaveSurvivedChoice::from_index(7), CaveSurvivedChoice::ShowStatusReport);
    assert!(CaveSurvivedChoice::Continue.is_continue());
    assert!(!CaveSurvivedChoice::Continue.is_show_status_report());
    assert!(CaveSurvivedChoice::ShowStatusReport.is_show_status_report());
    assert!(!CaveSurvivedChoice::ShowStatusReport.is_continue());
    assert!(GameOverChoice::Retry.is_retry());
    assert!(!GameOverChoice::Retry.is_quit());
    assert!(GameOverChoice::Quit.is_quit());
    assert!(!GameOverChoice::Quit.is_retry());
    assert_eq!(game_over_step(0), GameOverStep::Leave(GameOverChoice::Retry));
    assert_eq!(game_over_step(1), GameOverStep::ShowInventory);
    assert_eq!(game_over_step(2), GameOverStep::Leaderboards);
    assert_eq!(game_over_step(3), GameOverStep::Leave(GameOverChoice::Quit));
    assert_eq!(game_over_step(99), GameOverStep::Leave(GameOverChoice::Quit));
}
