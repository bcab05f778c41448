use delve::entities::inventory::{Inventory, RawInventory};
use delve::entities::item::{Item, ItemKind, Limb};
use delve::entities::monster::{Monster, PotentialMonster};
use delve::entities::player::Player;
use delve::entities::world::World;
use delve::entities::{level_of, ItemError, Level, Rarity, BASE_HP};
use delve::math::integer_sqrt;
use rand::rngs::StdRng;
use rand::SeedableRng;

fn catalog() -> World {
    World::new().with_load_items(vec![
        Item::new("helmet", ItemKind::Armor { defense: 5, limb: Limb::Head }, "Helmet", 10, Rarity::Common),
        Item::new("crown", ItemKind::Armor { defense: 8, limb: Limb::Head }, "Crown", 500, Rarity::Rare),
        Item::new("boots", ItemKind::Armor { defense: 3, limb: Limb::Feet }, "Boots", 7, Rarity::Petty),
        Item::new("plate", ItemKind::Armor { defense: 100, limb: Limb::Body }, "Plate", 900, Rarity::Rare),
        Item::new("small", ItemKind::Potion { hp: 10 }, "Small potion", 5, Rarity::Common),
        Item::new("big", ItemKind::Potion { hp: 30 }, "Big potion", 20, Rarity::Uncommon),
        Item::new("gem", ItemKind::Collectible, "Gem", 100, Rarity::Rare),
        Item::new("sword", ItemKind::Weapon { damage: 4 }, "Sword", 30, Rarity::Common),
    ])
}

#[test]
fn integer_sqrt_rounds_down() {
    assert_eq!(integer_sqrt(0), 0);
    assert_eq!(integer_sqrt(1), 1);
    assert_eq!(integer_sqrt(15), 3);
    assert_eq!(integer_sqrt(16), 4);
    assert_eq!(integer_sqrt(499), 22);
    assert_eq!(integer_sqrt(999), 31);
    assert_eq!(integer_sqrt(u64::MAX), 4_294_967_295);
}

#[test]
fn rarity_of_each_level_is_the_one_whose_range_holds_it() {
    let all = [Rarity::Petty, Rarity::Common, Rarity::Uncommon, Rarity::Rare, Rarity::Legendary];
    for level in 1..1000u64 {
        let rarity = Rarity::from_level(level);
        for candidate in all {
            assert_eq!(candidate.level_range().contains(&level), candidate == rarity);
        }
    }
}

#[test]
fn rarity_from_level_at_the_edges() {
    assert_eq!(Rarity::from_level(0), Rarity::Petty);
    assert_eq!(Rarity::from_level(9), Rarity::Petty);
    assert_eq!(Rarity::from_level(10), Rarity::Common);
    assert_eq!(Rarity::from_level(29), Rarity::Common);
    assert_eq!(Rarity::from_level(30), Rarity::Uncommon);
    assert_eq!(Rarity::from_level(99), Rarity::Uncommon);
    assert_eq!(Rarity::from_level(100), Rarity::Rare);
    assert_eq!(Rarity::from_level(499), Rarity::Rare);
    assert_eq!(Rarity::from_level(500), Rarity::Legendary);
    assert_eq!(Rarity::from_level(1000), Rarity::Legendary);
    assert_eq!(Rarity::from_level(u64::MAX), Rarity::Legendary);
}

#[test]
fn rarity_level_ranges() {
    assert_eq!(Rarity::Petty.level_range(), 1..10);
    assert_eq!(Rarity::Common.level_range(), 10..30);
    assert_eq!(Rarity::Uncommon.level_range(), 30..100);
    assert_eq!(Rarity::Rare.level_range(), 100..500);
    assert_eq!(Rarity::Legendary.level_range(), 500..1000);
}

#[test]
fn rarity_order_and_default() {
    assert!(Rarity::Petty < Rarity::Common);
    assert!(Rarity::Rare < Rarity::Legendary);
    assert_eq!(Rarity::default(), Rarity::Common);
    assert_eq!(Rarity::Uncommon.rank(), 2);
    assert_eq!(Rarity::from_rank(3), Rarity::Rare);
    assert_eq!(Rarity::from_rank(17), Rarity::Legendary);
    assert_eq!(Rarity::Rare.capped_at(Rarity::Common), Rarity::Common);
    assert_eq!(Rarity::Petty.capped_at(Rarity::Common), Rarity::Petty);
}

#[test]
fn capped_random_stays_under_the_cap() {
    let mut rng = StdRng::seed_from_u64(11);
    for cap in 1..8u64 {
        let mut seen_top = false;
        for _ in 0..300 {
            let rarity = Rarity::capped_random(&mut rng, cap);
            assert!(rarity.rank() < cap);
            assert!(rarity.rank() < 5);
            if rarity.rank() == cap.min(5) - 1 {
                seen_top = true;
            }
        }
        assert!(seen_top);
    }
}

#[test]
fn random_rarity_reaches_every_rarity() {
    let mut rng = StdRng::seed_from_u64(3);
    let mut seen = [false; 5];
    for _ in 0..500 {
        seen[Rarity::random(&mut rng).rank() as usize] = true;
    }
    assert_eq!(seen, [true; 5]);
}

#[test]
fn level_rounds_the_root_over_eight() {
    assert_eq!(level_of(0), 0);
    assert_eq!(level_of(15), 0);
    assert_eq!(level_of(16), 1);
    assert_eq!(level_of(64), 1);
    assert_eq!(level_of(143), 1);
    assert_eq!(level_of(144), 2);
    assert_eq!(level_of(10_000), 13);
    assert_eq!(level_of(u64::MAX), 536_870_912);
}

#[test]
fn level_and_hp_never_fall_with_experience() {
    let mut player = Player::new("Ada");
    let mut level = player.level();
    let mut hp = player.hp();
    assert_eq!(level, 0);
    assert_eq!(hp, BASE_HP);
    for _ in 0..400 {
        player.add_xp(37);
        assert!(player.level() >= level);
        assert!(player.hp() >= hp);
        level = player.level();
        hp = player.hp();
        assert_eq!(hp, 20 + 5 * level);
    }
    assert_eq!(player.xp(), 14_800);
    assert_eq!(player.level(), 15);
    assert_eq!(player.hp(), 95);
}

#[test]
fn new_player_has_nothing() {
    let player = Player::new("Ada");
    assert_eq!(player.name(), "Ada");
    assert_eq!(player.xp(), 0);
    assert_eq!(player.damage(), 0);
    assert_eq!(player.gold(), 0);
    assert_eq!(player.item_count(), 0);
    assert!(!player.dead());
    assert_eq!(Player::default().name(), "Unnamed");
}

#[test]
fn dead_means_more_damage_than_hit_points() {
    let world = catalog();
    let mut player = Player::new("Ada");
    assert_eq!(player.add_damage(20, &world), 20);
    assert_eq!(player.damage(), 20);
    assert!(!player.dead());
    assert_eq!(player.hp_remaining(), 0);
    assert_eq!(player.add_damage(1, &world), 1);
    assert!(player.dead());
    assert_eq!(player.hp_remaining(), 0);
}

#[test]
fn heal_lowers_damage_down_to_zero() {
    let world = catalog();
    let mut player = Player::new("Ada");
    player.add_damage(12, &world);
    player.heal(5);
    assert_eq!(player.damage(), 7);
    assert_eq!(player.hp_remaining(), 13);
    player.heal(0);
    assert_eq!(player.damage(), 7);
    player.heal(100);
    assert_eq!(player.damage(), 0);
    player.heal(3);
    assert_eq!(player.damage(), 0);
}

#[test]
fn gold_adds_up() {
    let mut player = Player::new("Ada");
    player.add_gold(5);
    player.add_gold(12);
    assert_eq!(player.gold(), 17);
}

#[test]
fn two_head_armors_count_the_better_one() {
    let world = catalog();
    let mut player = Player::new("Ada");
    player.add_item("helmet");
    assert_eq!(player.defense(&world), 5);
    player.add_item("crown");
    assert_eq!(player.defense(&world), 8);
    player.add_item("helmet");
    assert_eq!(player.defense(&world), 8);
    player.add_item("boots");
    assert_eq!(player.defense(&world), 11);
    player.add_item("gem");
    player.add_item("small");
    assert_eq!(player.defense(&world), 11);
}

#[test]
fn damage_is_reduced_by_twelve_percent_per_hundred_defense() {
    let world = catalog();
    let mut bare = Player::new("Ada");
    assert_eq!(bare.damage_reduction(&world), 0);
    assert_eq!(bare.add_damage(100, &world), 100);
    let mut armored = Player::new("Bob");
    armored.add_item("plate");
    assert_eq!(armored.defense(&world), 100);
    assert_eq!(armored.damage_reduction(&world), 1200);
    assert_eq!(armored.add_damage(100, &world), 88);
    assert_eq!(armored.damage(), 88);
    assert_eq!(armored.add_damage(4, &world), 4);
    assert_eq!(armored.add_damage(5, &world), 4);
    assert_eq!(armored.add_damage(0, &world), 0);
}

#[test]
fn defense_beyond_the_whole_blow_leaves_no_damage() {
    let world = World::new().with_load_items(vec![Item::new(
        "wall",
        ItemKind::Armor { defense: 5_000, limb: Limb::Shield },
        "Wall",
        1,
        Rarity::Legendary,
    )]);
    let mut player = Player::new("Ada");
    player.add_item("wall");
    assert_eq!(player.damage_reduction(&world), 10_000);
    assert_eq!(player.add_damage(999, &world), 0);
    assert_eq!(player.damage(), 0);
}

#[test]
fn auto_heal_drinks_the_strongest_potion_only_when_it_suffices() {
    let world = catalog();
    let mut player = Player::new("Ada");
    player.add_item("small");
    player.add_item("big");
    player.add_damage(35, &world);
    assert!(player.dead());
    let used = player.auto_heal(&world);
    assert_eq!(used, Some(vec!["big".to_string()]));
    assert_eq!(player.damage(), 5);
    assert!(!player.dead());
    assert_eq!(player.has_item("big"), None);
    assert_eq!(player.has_item("small"), Some(1));
}

#[test]
fn auto_heal_drinks_both_potions_when_needed() {
    let world = catalog();
    let mut player = Player::new("Ada");
    player.add_item("small");
    player.add_item("big");
    player.add_damage(55, &world);
    let used = player.auto_heal(&world);
    assert_eq!(used, Some(vec!["big".to_string(), "small".to_string()]));
    assert_eq!(player.damage(), 15);
    assert!(!player.dead());
    assert_eq!(player.item_count(), 0);
}

#[test]
fn auto_heal_stops_when_the_potions_run_out() {
    let world = catalog();
    let mut player = Player::new("Ada");
    player.add_item("small");
    player.add_item("small");
    player.add_item("gem");
    player.add_damage(100, &world);
    let used = player.auto_heal(&world);
    assert_eq!(used, Some(vec!["small".to_string(), "small".to_string()]));
    assert_eq!(player.damage(), 80);
    assert!(player.dead());
    assert_eq!(player.has_item("gem"), Some(1));
    assert_eq!(player.auto_heal(&world), None);
}

#[test]
fn auto_heal_leaves_the_living_alone() {
    let world = catalog();
    let mut player = Player::new("Ada");
    player.add_item("big");
    player.add_damage(20, &world);
    assert_eq!(player.auto_heal(&world), None);
    assert_eq!(player.damage(), 20);
    assert_eq!(player.has_item("big"), Some(1));
}

#[test]
fn inventory_counts_units() {
    let mut player = Player::new("Ada");
    assert_eq!(player.has_item("gem"), None);
    player.add_item("gem");
    player.add_item("sword");
    player.add_item("gem");
    assert_eq!(player.has_item("gem"), Some(2));
    assert_eq!(player.has_item("sword"), Some(1));
    assert_eq!(player.item_count(), 3);
    assert_eq!(player.inventory().len(), 2);
    assert_eq!(player.inventory().id_at(0), "gem");
    assert_eq!(player.inventory().count_at(0), 2);
    assert!(player.remove_item("gem").is_ok());
    assert_eq!(player.has_item("gem"), Some(1));
    assert!(player.remove_item("gem").is_ok());
    assert_eq!(player.has_item("gem"), None);
    assert_eq!(player.item_count(), 1);
    assert_eq!(player.inventory().id_at(0), "sword");
}

#[test]
fn removing_what_is_not_held_is_an_error() {
    let mut player = Player::new("Ada");
    player.add_item("gem");
    let outcome: Result<(), ItemError> = player.remove_item("sword");
    assert!(outcome.is_err());
    assert_eq!(outcome.unwrap_err().to_string(), "ItemError");
    assert_eq!(player.item_count(), 1);
}

#[test]
fn raw_inventory_through_a_mutable_borrow() {
    let mut player = Player::new("Ada");
    player.mut_inventory().add("gem");
    player.mut_inventory().add("gem");
    assert_eq!(player.inventory().get("gem"), Some(2));
    assert_eq!(player.inventory().position("gem"), Some(0));
    assert_eq!(player.inventory().position("sword"), None);
    assert_eq!(player.inventory().total(), 2);
    let mut bag = RawInventory::new();
    assert!(bag.remove("gem").is_err());
    bag.add("a");
    bag.add("b");
    bag.add("b");
    bag.add("c");
    bag.add("c");
    bag.add("c");
    assert_eq!(bag.by_count(), vec![2, 1, 0]);
    bag.add("a");
    bag.add("a");
    assert_eq!(bag.by_count(), vec![0, 2, 1]);
}

#[test]
fn inventory_items_come_unit_by_unit() {
    let world = catalog();
    let mut player = Player::new("Ada");
    player.add_item("gem");
    player.add_item("sword");
    player.add_item("gem");
    let items = player.inventory_items(&world);
    let ids: Vec<&str> = items.iter().map(|item| item.id().as_str()).collect();
    assert_eq!(ids, vec!["gem", "gem", "sword"]);
    assert_eq!(items[0].name(), "Gem");
    assert_eq!(items[0].value(), 100);
    assert_eq!(items[0].rarity(), Rarity::Rare);
    assert_eq!(items[2].kind(), ItemKind::Weapon { damage: 4 });
}

#[test]
fn net_worth_is_gold_and_the_value_of_every_unit() {
    let world = catalog();
    let mut player = Player::new("Ada");
    assert_eq!(player.net_worth(&world), 0);
    player.add_gold(50);
    player.add_item("gem");
    player.add_item("gem");
    player.add_item("boots");
    assert_eq!(player.net_worth(&world), 257);
}

#[test]
fn monster_new_checks_the_level_against_the_rarity() {
    assert!(Monster::new("Rat", false, true, Rarity::Petty, 0).is_none());
    assert!(Monster::new("Rat", false, true, Rarity::Petty, 1).is_some());
    assert!(Monster::new("Rat", false, true, Rarity::Petty, 9).is_some());
    assert!(Monster::new("Rat", false, true, Rarity::Petty, 10).is_none());
    assert!(Monster::new("Rat", false, true, Rarity::Legendary, 999).is_some());
    assert!(Monster::new("Rat", false, true, Rarity::Legendary, 1000).is_none());
}

#[test]
fn monster_names() {
    let rat = Monster::new("Rat", false, true, Rarity::Petty, 3).unwrap();
    assert_eq!(rat.name(), "Petty Rat");
    assert_eq!(rat.article_name(), "a Petty Rat");
    assert_eq!(rat.proper_name(), "The Rat");
    assert!(rat.generic());
    assert!(!rat.proper_noun());
    assert_eq!(rat.rarity(), Rarity::Petty);
    assert_eq!(rat.level(), 3);
    let ogre = Monster::new("Ogre", false, true, Rarity::Uncommon, 40).unwrap();
    assert_eq!(ogre.name(), "Uncommon Ogre");
    assert_eq!(ogre.article_name(), "an Uncommon Ogre");
    let wyrm = Monster::new("Wyrm", false, true, Rarity::Legendary, 600).unwrap();
    assert_eq!(wyrm.article_name(), "a Legendary Wyrm");
    let king = Monster::new("Rat King", false, false, Rarity::Rare, 120).unwrap();
    assert_eq!(king.name(), "Rat King");
    assert_eq!(king.article_name(), "The Rat King");
    let bob = Monster::new("Bob", true, false, Rarity::Common, 12).unwrap();
    assert_eq!(bob.name(), "Bob");
    assert_eq!(bob.proper_name(), "Bob");
    assert_eq!(bob.article_name(), "Bob");
}

#[test]
fn difficult_monsters_outclass_the_player() {
    let ogre = Monster::new("Ogre", false, true, Rarity::Uncommon, 40).unwrap();
    assert!(ogre.is_difficult(0));
    assert!(ogre.is_difficult(9));
    assert!(ogre.is_difficult(10));
    assert!(!ogre.is_difficult(11));
    let rat = Monster::new("Rat", false, true, Rarity::Petty, 9).unwrap();
    assert!(!rat.is_difficult(0));
    let bat = Monster::new("Bat", false, true, Rarity::Common, 12).unwrap();
    assert!(bat.is_difficult(1));
    assert!(!bat.is_difficult(2));
}

#[test]
fn monster_damage_lies_in_its_range() {
    let mut rng = StdRng::seed_from_u64(5);
    let rat = Monster::new("Rat", false, true, Rarity::Petty, 1).unwrap();
    let ogre = Monster::new("Ogre", false, true, Rarity::Uncommon, 40).unwrap();
    let mut ogre_high = false;
    for _ in 0..300 {
        assert_eq!(rat.damage(&mut rng), 2);
        let blow = ogre.damage(&mut rng);
        assert!((4..40).contains(&blow));
        if blow > 30 {
            ogre_high = true;
        }
    }
    assert!(ogre_high);
}

#[test]
fn spawn_follows_the_template() {
    let mut rng = StdRng::seed_from_u64(9);
    let fixed = PotentialMonster {
        id: "king".to_string(),
        name: "Rat King".to_string(),
        proper_noun: false,
        generic: false,
        rarity: Some(Rarity::Rare),
        max_level: None,
    };
    let free = PotentialMonster {
        id: "rat".to_string(),
        name: "Rat".to_string(),
        proper_noun: false,
        generic: true,
        rarity: None,
        max_level: Some(25),
    };
    assert_eq!(fixed.rarity_ceiling(Rarity::Legendary), Rarity::Legendary);
    assert_eq!(free.rarity_ceiling(Rarity::Legendary), Rarity::Common);
    assert_eq!(free.rarity_ceiling(Rarity::Petty), Rarity::Petty);
    let mut seen_common = false;
    for _ in 0..200 {
        let king = fixed.spawn(Rarity::Petty, &mut rng);
        assert_eq!(king.rarity(), Rarity::Rare);
        assert!((100..500).contains(&king.level()));
        assert_eq!(king.name(), "Rat King");
        let rat = free.spawn(Rarity::Legendary, &mut rng);
        assert!(rat.rarity() <= Rarity::Common);
        assert!(rat.rarity().level_range().contains(&rat.level()));
        assert!(rat.generic());
        if rat.rarity() == Rarity::Common {
            seen_common = true;
        }
        let low = free.spawn(Rarity::Petty, &mut rng);
        assert_eq!(low.rarity(), Rarity::Petty);
        assert!((1..10).contains(&low.level()));
    }
    assert!(seen_common);
}
