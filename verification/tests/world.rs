use delve::entities::inventory::Inventory;
use delve::entities::item::{Item, ItemKind, Limb};
use delve::entities::monster::PotentialMonster;
use delve::entities::player::Player;
use delve::entities::world::{monster_count, Cave, CaveDifficulty, Stats, World};
use delve::entities::{Level, Rarity};
use delve::game::cave_choices;
use rand::rngs::StdRng;
use rand::SeedableRng;

fn items() -> Vec<Item> {
    vec![
        Item::new("helmet", ItemKind::Armor { defense: 5, limb: Limb::Head }, "Helmet", 10, Rarity::Common),
        Item::new("small", ItemKind::Potion { hp: 10 }, "Small potion", 5, Rarity::Common),
        Item::new("big", ItemKind::Potion { hp: 30 }, "Big potion", 20, Rarity::Uncommon),
        Item::new("gem", ItemKind::Collectible, "Gem", 100, Rarity::Rare),
        Item::new("sword", ItemKind::Weapon { damage: 4 }, "Sword", 30, Rarity::Common),
        Item::new("boots", ItemKind::Armor { defense: 3, limb: Limb::Feet }, "Boots", 7, Rarity::Petty),
    ]
}

fn template(id: &str, name: &str, rarity: Option<Rarity>, max_level: Option<u64>) -> PotentialMonster {
    PotentialMonster {
        id: id.to_string(),
        name: name.to_string(),
        proper_noun: false,
        generic: rarity.is_none(),
        rarity,
        max_level,
    }
}

fn templates() -> Vec<PotentialMonster> {
    vec![
        template("rat", "Rat", None, Some(25)),
        template("bat", "Bat", Some(Rarity::Petty), None),
        template("ogre", "Ogre", Some(Rarity::Uncommon), None),
        template("wyrm", "Wyrm", Some(Rarity::Legendary), None),
        template("slime", "Slime", None, None),
    ]
}

fn world() -> World {
    World::new().with_load_items(items()).with_load_monsters(templates())
}

fn describe(cave: &Cave) -> String {
    let mut text = format!("{}|", cave.gold);
    for index in 0..cave.loot.len() {
        text = format!("{}{}x{},", text, cave.loot.id_at(index), cave.loot.count_at(index));
    }
    for monster in &cave.monsters {
        text = format!("{}|{}@{}", text, monster.name(), monster.level());
    }
    text
}

#[test]
fn new_world_is_empty() {
    let world = World::new();
    assert_eq!(world.items().len(), 0);
    assert_eq!(world.monsters().len(), 0);
    assert_eq!(world.item_ids().len(), 0);
    assert_eq!(world.stats(), Stats { caves: 0, monsters: 0 });
    assert_eq!(world.stats.caves, 0);
    assert!(world.get_item("gem").is_none());
    assert_eq!(Stats::default(), Stats { caves: 0, monsters: 0 });
}

#[test]
fn loading_items_counts_only_new_ids() {
    let mut world = World::new();
    assert_eq!(world.load_items(items()), 6);
    assert_eq!(world.load_items(items()), 0);
    assert_eq!(world.items().len(), 6);
    let more = vec![
        Item::new("gem", ItemKind::Collectible, "Other gem", 1, Rarity::Petty),
        Item::new("ring", ItemKind::Collectible, "Ring", 70, Rarity::Rare),
        Item::new("ring", ItemKind::Collectible, "Second ring", 71, Rarity::Rare),
    ];
    assert_eq!(world.load_items(more), 1);
    assert_eq!(world.items().len(), 7);
    assert_eq!(world.get_item("gem").unwrap().name(), "Gem");
    assert_eq!(world.get_item("gem").unwrap().value(), 100);
    assert_eq!(world.get_item("ring").unwrap().name(), "Ring");
    assert!(world.get_item("crown").is_none());
    assert_eq!(
        world.item_ids(),
        vec!["helmet", "small", "big", "gem", "sword", "boots", "ring"]
    );
    assert_eq!(world.load_items(Vec::new()), 0);
}

#[test]
fn loading_monsters_counts_only_new_ids() {
    let mut world = World::new();
    assert_eq!(world.load_monsters(templates()), 5);
    assert_eq!(world.load_monsters(templates()), 0);
    let more = vec![
        template("rat", "Other rat", None, None),
        template("imp", "Imp", None, None),
    ];
    assert_eq!(world.load_monsters(more), 1);
    assert_eq!(world.monsters().len(), 6);
    assert_eq!(world.monsters()[0].name, "Rat");
    assert_eq!(world.monsters()[5].id, "imp");
    assert_eq!(world.items().len(), 0);
}

#[test]
fn world_lists_inventories() {
    let world = world();
    let mut player = Player::new("Ada");
    assert!(world.lists_all(player.inventory()));
    player.add_item("gem");
    assert!(world.lists_all(player.inventory()));
    player.add_item("crown");
    assert!(!world.lists_all(player.inventory()));
}

#[test]
fn reset_clears_the_counters_and_keeps_the_catalog() {
    let mut world = world();
    world.record_cave(3);
    world.record_cave(0);
    assert_eq!(world.stats(), Stats { caves: 2, monsters: 3 });
    world.reset();
    assert_eq!(world.stats(), Stats { caves: 0, monsters: 0 });
    assert_eq!(world.items().len(), 6);
    assert_eq!(world.monsters().len(), 5);
}

#[test]
fn monster_count_is_the_root_over_ten() {
    assert_eq!(monster_count(0), 0);
    assert_eq!(monster_count(99), 0);
    assert_eq!(monster_count(100), 1);
    assert_eq!(monster_count(399), 1);
    assert_eq!(monster_count(400), 2);
    assert_eq!(monster_count(499), 2);
    assert_eq!(monster_count(899), 2);
    assert_eq!(monster_count(900), 3);
    assert_eq!(monster_count(999), 3);
}

#[test]
fn difficulty_of_a_flip() {
    assert_eq!(CaveDifficulty::from_flip(true), CaveDifficulty::Easy);
    assert_eq!(CaveDifficulty::from_flip(false), CaveDifficulty::Hard);
    assert!(CaveDifficulty::Easy < CaveDifficulty::Hard);
    let mut rng = StdRng::seed_from_u64(21);
    let mut easy = 0;
    for _ in 0..400 {
        if CaveDifficulty::random(&mut rng) == CaveDifficulty::Easy {
            easy += 1;
        }
    }
    assert!(easy > 120 && easy < 280);
}

#[test]
fn eligible_monsters_of_an_easy_cave_do_not_exceed_the_player() {
    let world = world();
    assert_eq!(world.eligible_monsters(CaveDifficulty::Easy, Rarity::Petty), vec![0, 1, 4]);
    assert_eq!(world.eligible_monsters(CaveDifficulty::Easy, Rarity::Uncommon), vec![0, 1, 2, 4]);
    assert_eq!(world.eligible_monsters(CaveDifficulty::Hard, Rarity::Petty), vec![0, 1, 2, 3, 4]);
    let player = Player::new("Ada");
    assert!(world.can_spawn(&player, CaveDifficulty::Easy));
    assert!(!World::new().can_spawn(&player, CaveDifficulty::Hard));
    let only_wyrm = World::new().with_load_monsters(vec![template(
        "wyrm",
        "Wyrm",
        Some(Rarity::Legendary),
        None,
    )]);
    assert!(!only_wyrm.can_spawn(&player, CaveDifficulty::Easy));
    assert!(only_wyrm.can_spawn(&player, CaveDifficulty::Hard));
}

#[test]
fn loot_from_picks_is_one_unit_each() {
    let world = world();
    let loot = world.loot_from(&vec![3, 0, 5]);
    assert_eq!(loot.len(), 3);
    assert_eq!(loot.id_at(0), "gem");
    assert_eq!(loot.id_at(1), "helmet");
    assert_eq!(loot.id_at(2), "boots");
    assert_eq!(loot.total(), 3);
    assert_eq!(world.loot_from(&Vec::new()).len(), 0);
}

#[test]
fn caves_hold_one_to_four_different_items_and_gold_below_200() {
    let mut world = world();
    let player = Player::new("Ada");
    let mut rng = StdRng::seed_from_u64(1);
    let mut counts = [0u32; 5];
    let mut most_gold = 0;
    for round in 0..400 {
        let difficulty = if round % 2 == 0 { CaveDifficulty::Easy } else { CaveDifficulty::Hard };
        let cave = world.new_cave(&player, &mut rng, difficulty);
        let lines = cave.loot.len();
        assert!((1..=4).contains(&lines));
        counts[lines] += 1;
        assert_eq!(cave.item_count() as usize, lines);
        for index in 0..lines {
            assert_eq!(cave.loot.count_at(index), 1);
            assert!(world.get_item(cave.loot.id_at(index)).is_some());
            for other in 0..index {
                assert_ne!(cave.loot.id_at(index), cave.loot.id_at(other));
            }
        }
        assert!(cave.gold < 200);
        most_gold = most_gold.max(cave.gold);
    }
    assert_eq!(counts[0], 0);
    assert!(counts[1] > 0 && counts[2] > 0 && counts[3] > 0 && counts[4] > 0);
    assert!(most_gold > 150);
    assert_eq!(world.stats(), Stats { caves: 0, monsters: 0 });
}

#[test]
fn a_small_catalog_gives_less_loot() {
    let mut world = World::new()
        .with_load_items(vec![Item::new("gem", ItemKind::Collectible, "Gem", 100, Rarity::Rare)])
        .with_load_monsters(templates());
    let player = Player::new("Ada");
    let mut rng = StdRng::seed_from_u64(2);
    for _ in 0..50 {
        let cave = world.new_cave(&player, &mut rng, CaveDifficulty::Easy);
        assert_eq!(cave.loot.len(), 1);
        assert_eq!(cave.has_item("gem"), Some(1));
    }
    let mut bare = World::new().with_load_monsters(templates());
    let cave = bare.new_cave(&player, &mut rng, CaveDifficulty::Hard);
    assert_eq!(cave.loot.len(), 0);
}

#[test]
fn easy_caves_hold_up_to_two_monsters_within_the_player_s_rarity() {
    let mut world = world();
    let player = Player::new("Ada");
    let mut rng = StdRng::seed_from_u64(4);
    let mut counts = [0u32; 3];
    for _ in 0..300 {
        let cave = world.new_cave(&player, &mut rng, CaveDifficulty::Easy);
        assert!(cave.monsters.len() <= 2);
        counts[cave.monsters.len()] += 1;
        for monster in &cave.monsters {
            assert_eq!(monster.rarity(), Rarity::Petty);
            assert!((1..10).contains(&monster.level()));
            let name = monster.name();
            assert!(name == "Petty Rat" || name == "Bat" || name == "Petty Slime");
        }
    }
    assert!(counts[0] > 0 && counts[1] > 0 && counts[2] > 0);
}

#[test]
fn hard_caves_hold_up_to_three_monsters_of_any_rarity() {
    let mut world = world();
    let player = Player::new("Ada");
    let mut rng = StdRng::seed_from_u64(6);
    let mut counts = [0u32; 4];
    let mut seen_wyrm = false;
    let mut seen_high_slime = false;
    for _ in 0..400 {
        let cave = world.new_cave(&player, &mut rng, CaveDifficulty::Hard);
        assert!(cave.monsters.len() <= 3);
        counts[cave.monsters.len()] += 1;
        for monster in &cave.monsters {
            assert!(monster.rarity().level_range().contains(&monster.level()));
            if monster.name() == "Wyrm" {
                seen_wyrm = true;
                assert_eq!(monster.rarity(), Rarity::Legendary);
            }
            if monster.name().ends_with("Rat") {
                assert!(monster.rarity() <= Rarity::Common);
            }
            if monster.name().ends_with("Slime") && monster.rarity() > Rarity::Common {
                seen_high_slime = true;
            }
        }
    }
    assert!(counts[0] > 0 && counts[1] > 0 && counts[2] > 0 && counts[3] > 0);
    assert!(seen_wyrm);
    assert!(seen_high_slime);
}

#[test]
fn the_same_seed_makes_the_same_cave() {
    let mut player = Player::new("Ada");
    player.add_xp(70_000);
    for seed in 0..20u64 {
        let mut first_world = world();
        let mut second_world = world();
        let mut first_rng = StdRng::seed_from_u64(seed);
        let mut second_rng = StdRng::seed_from_u64(seed);
        let first = first_world.new_cave(&player, &mut first_rng, CaveDifficulty::Hard);
        let second = second_world.new_cave(&player, &mut second_rng, CaveDifficulty::Hard);
        assert_eq!(describe(&first), describe(&second));
    }
}

#[test]
fn cave_choices_are_two_caves() {
    let mut world = world();
    let player = Player::new("Ada");
    let mut rng = StdRng::seed_from_u64(8);
    let mut seen_three = false;
    for _ in 0..200 {
        let caves = cave_choices(&mut world, &player, &mut rng);
        assert_eq!(caves.len(), 2);
        for cave in &caves {
            assert!((1..=4).contains(&cave.loot.len()));
            assert!(cave.gold < 200);
            assert!(cave.monsters.len() <= 3);
        }
        assert!(caves[0].monsters.len() <= 2 || caves[1].monsters.len() <= 2);
        if caves[0].monsters.len() == 3 || caves[1].monsters.len() == 3 {
            seen_three = true;
        }
    }
    assert!(seen_three);
    assert_eq!(player.level(), 0);
}

#[test]
fn cave_choices_come_in_both_orders() {
    let mut world = World::new().with_load_items(items()).with_load_monsters(vec![
        template("bat", "Bat", Some(Rarity::Petty), None),
        template("wyrm", "Wyrm", Some(Rarity::Legendary), None),
    ]);
    let player = Player::new("Ada");
    let mut rng = StdRng::seed_from_u64(10);
    let mut hard_first = false;
    let mut hard_second = false;
    for _ in 0..400 {
        let caves = cave_choices(&mut world, &player, &mut rng);
        let wyrm_in = |cave: &Cave| cave.monsters.iter().any(|monster| monster.name() == "Wyrm");
        assert!(!(wyrm_in(&caves[0]) && wyrm_in(&caves[1])));
        if wyrm_in(&caves[0]) {
            hard_first = true;
        }
        if wyrm_in(&caves[1]) {
            hard_second = true;
        }
    }
    assert!(hard_first && hard_second);
}
