use textcraft::account::{account_record, parse_account_string, Account};
use textcraft::inventory::{
    find_inventory, inventory_record, parse_inventory_string, Food, Inventory, Ore,
};
use textcraft::mining::{mine, mining_event, ore_chances, ore_for_roll, MiningEvent};
use textcraft::player::Player;
use textcraft::text::{is_alphanumeric_string, is_valid_username, parse_decimal, split_fields, trim};

fn player_with_money(money: u32) -> Player {
    let mut account = Account::new_account("steve".to_string());
    account.money = money;
    Player::new(Inventory::create_empty(), account)
}

fn ore_counts(inventory: &Inventory) -> (u32, u32, u32) {
    (
        inventory.count_ore(Ore::IronOre),
        inventory.count_ore(Ore::GoldOre),
        inventory.count_ore(Ore::Diamond),
    )
}

#[test]
fn new_account_defaults() {
    let a = Account::new_account("alex".to_string());
    assert_eq!(a.username, "alex");
    assert_eq!(a.money, 100);
    assert_eq!(a.pickaxe_level, 1);
}

#[test]
fn spend_within_balance() {
    let mut p = player_with_money(100);
    assert!(p.spend(30).is_ok());
    assert_eq!(p.account.money, 70);
    assert!(p.spend(70).is_ok());
    assert_eq!(p.account.money, 0);
}

#[test]
fn spend_beyond_balance_fails_and_keeps_money() {
    let mut p = player_with_money(50);
    assert_eq!(p.spend(51), Err("Error: Not enough money!"));
    assert_eq!(p.account.money, 50);
}

#[test]
fn damage_saturates_at_zero() {
    let mut p = player_with_money(0);
    p.take_damage(30);
    assert_eq!(p.get_health(), 70);
    p.take_damage(255);
    assert_eq!(p.get_health(), 0);
    assert!(!p.is_alive());
}

#[test]
fn heal_caps_at_full() {
    let mut p = player_with_money(0);
    p.take_damage(50);
    p.heal(20);
    assert_eq!(p.get_health(), 70);
    p.heal(255);
    assert_eq!(p.get_health(), 100);
    assert!(p.is_alive());
}

#[test]
fn alive_iff_positive_health() {
    let mut p = player_with_money(0);
    p.take_damage(99);
    assert_eq!(p.get_health(), 1);
    assert!(p.is_alive());
    p.take_damage(1);
    assert!(!p.is_alive());
}

#[test]
fn push_into_full_ore_slots_is_dropped() {
    let mut inv = Inventory::create_empty();
    for _ in 0..20 {
        inv.push_ore(Ore::IronOre);
    }
    let before = inv.ores;
    inv.push_ore(Ore::Diamond);
    assert_eq!(inv.ores, before);
    assert_eq!(ore_counts(&inv), (20, 0, 0));
}

#[test]
fn push_into_full_food_slots_is_dropped() {
    let mut inv = Inventory::create_empty();
    for _ in 0..6 {
        inv.push_food(Food::Apple);
    }
    assert!(!inv.has_free_food_slot());
    let before = inv.foods;
    inv.push_food(Food::Beef);
    assert_eq!(inv.foods, before);
}

#[test]
fn push_fills_first_free_slot() {
    let mut inv = Inventory::create_empty();
    inv.ores[0] = Some(Ore::GoldOre);
    inv.ores[2] = Some(Ore::GoldOre);
    inv.push_ore(Ore::Diamond);
    assert_eq!(inv.ores[1], Some(Ore::Diamond));
    assert_eq!(inv.ores[3], None);
}

#[test]
fn account_record_round_trip() {
    let mut a = Account::new_account("miner42".to_string());
    a.money = 4294967295;
    a.pickaxe_level = 3;
    let line = account_record(&a);
    assert_eq!(line, "miner42,4294967295,3");
    let b = parse_account_string(&line).unwrap();
    assert_eq!(b.username, "miner42");
    assert_eq!(b.money, 4294967295);
    assert_eq!(b.pickaxe_level, 3);
}

#[test]
fn account_parse_rejects_wrong_field_count() {
    assert!(parse_account_string("a,1").is_err());
    assert!(parse_account_string("a,1,2,3").is_err());
    assert!(parse_account_string("").is_err());
    assert_eq!(parse_account_string("a;b").err(), Some("Invalid number of tokens"));
}

#[test]
fn account_parse_defaults_bad_numbers() {
    let a = parse_account_string("bob,lots,high").unwrap();
    assert_eq!(a.money, 0);
    assert_eq!(a.pickaxe_level, 1);
    let b = parse_account_string("bob, 250 ,+2").unwrap();
    assert_eq!(b.money, 250);
    assert_eq!(b.pickaxe_level, 2);
    let c = parse_account_string("bob,4294967296,256").unwrap();
    assert_eq!(c.money, 0);
    assert_eq!(c.pickaxe_level, 1);
}

#[test]
fn inventory_record_round_trip() {
    let mut inv = Inventory::create_empty();
    inv.push_ore(Ore::IronOre);
    inv.push_ore(Ore::Diamond);
    inv.push_ore(Ore::IronOre);
    inv.ores[0] = None;
    let line = inventory_record(&"steve".to_string(), &inv);
    assert_eq!(line, "steve;Diamond;Iron Ore;");
    let back = parse_inventory_string(&line).unwrap();
    assert_eq!(ore_counts(&back), ore_counts(&inv));
    assert_eq!(ore_counts(&back), (1, 0, 1));
    assert!(back.foods.iter().all(|f| f.is_none()));
}

#[test]
fn inventory_parse_reads_food_and_ore_tokens() {
    let inv = parse_inventory_string("alex;Apple;Gold Ore;junk;Beef;Diamond").unwrap();
    assert_eq!(inv.foods[0], Some(Food::Apple));
    assert_eq!(inv.foods[1], Some(Food::Beef));
    assert_eq!(inv.foods[2], None);
    assert_eq!(inv.ores[0], Some(Ore::GoldOre));
    assert_eq!(inv.ores[1], Some(Ore::Diamond));
}

#[test]
fn find_inventory_matches_by_prefix() {
    let lines = vec!["alexander;Diamond;".to_string(), "alex;Iron Ore;".to_string()];
    let inv = find_inventory(&lines, "alex");
    assert_eq!(ore_counts(&inv), (0, 0, 1));
    let none = find_inventory(&lines, "steve");
    assert_eq!(ore_counts(&none), (0, 0, 0));
}

#[test]
fn upgrade_is_capped() {
    let mut p = player_with_money(0);
    p.upgrade_pickaxe();
    assert_eq!(p.account.pickaxe_level, 2);
    p.upgrade_pickaxe();
    assert_eq!(p.account.pickaxe_level, 3);
    assert!(p.is_pickaxe_maxed());
    p.upgrade_pickaxe();
    assert_eq!(p.account.pickaxe_level, 3);
}

#[test]
fn upgrade_costs_by_level() {
    let mut p = player_with_money(0);
    assert_eq!(p.upgrade_pickaxe_cost(), 300);
    p.account.pickaxe_level = 2;
    assert_eq!(p.upgrade_pickaxe_cost(), 500);
    p.account.pickaxe_level = 3;
    assert_eq!(p.upgrade_pickaxe_cost(), 700);
}

#[test]
fn buy_pickaxe_upgrade_pays_and_levels() {
    let mut p = player_with_money(299);
    assert!(p.buy_pickaxe_upgrade().is_err());
    assert_eq!(p.account.pickaxe_level, 1);
    p.account.money = 1000;
    assert!(p.buy_pickaxe_upgrade().is_ok());
    assert_eq!(p.account.money, 700);
    assert_eq!(p.account.pickaxe_level, 2);
    p.account.pickaxe_level = 3;
    assert!(p.buy_pickaxe_upgrade().is_err());
    assert_eq!(p.account.money, 700);
}

#[test]
fn selling_credits_prices_and_clears() {
    let mut p = player_with_money(10);
    p.inventory.push_ore(Ore::IronOre);
    p.inventory.push_ore(Ore::GoldOre);
    p.inventory.push_ore(Ore::IronOre);
    assert_eq!(p.inventory.ore_sale_value(), 90);
    assert_eq!(p.sell_ores(), 90);
    assert_eq!(p.account.money, 100);
    assert!(p.inventory.ores.iter().all(|o| o.is_none()));
}

#[test]
fn selling_diamonds() {
    let mut p = player_with_money(0);
    p.inventory.push_ore(Ore::Diamond);
    p.inventory.push_ore(Ore::Diamond);
    assert_eq!(p.sell_ores(), 240);
    assert_eq!(p.account.money, 240);
}

#[test]
fn ore_thresholds_split_the_hundred() {
    let expected = [(1u8, (57, 28, 15)), (2, (54, 36, 10)), (3, (60, 40, 0))];
    for (level, counts) in expected {
        let (iron, gold) = ore_chances(level);
        let mut tally = (0, 0, 0);
        for roll in 1..=100u8 {
            match ore_for_roll(iron, gold, roll) {
                Ore::IronOre => tally.0 += 1,
                Ore::GoldOre => tally.1 += 1,
                Ore::Diamond => tally.2 += 1,
            }
        }
        assert_eq!(tally, counts);
    }
}

#[test]
fn ore_kind_distribution_at_level_one() {
    let (iron, gold) = ore_chances(1);
    let n = 40000;
    let mut tally = [0u32; 3];
    for _ in 0..n {
        match mine(iron, gold) {
            Ore::IronOre => tally[0] += 1,
            Ore::GoldOre => tally[1] += 1,
            Ore::Diamond => tally[2] += 1,
        }
    }
    let share = |k: u32| k as f64 / n as f64;
    assert!((share(tally[0]) - 0.57).abs() < 0.02);
    assert!((share(tally[1]) - 0.28).abs() < 0.02);
    assert!((share(tally[2]) - 0.15).abs() < 0.02);
}

#[test]
fn mining_events_follow_thresholds() {
    assert_eq!(mining_event(40, 1, 1), MiningEvent::Advance);
    assert_eq!(mining_event(41, 20, 1), MiningEvent::Hunger);
    assert_eq!(mining_event(41, 21, 10), MiningEvent::Hazard);
    assert_eq!(mining_event(41, 21, 11), MiningEvent::Quiet);
    assert_eq!(mining_event(100, 100, 100), MiningEvent::Quiet);
}

#[test]
fn events_change_depth_and_health() {
    let mut p = player_with_money(0);
    p.apply_event(MiningEvent::Advance);
    assert_eq!((p.get_health(), p.get_depth()), (100, 2));
    p.apply_event(MiningEvent::Hunger);
    assert_eq!((p.get_health(), p.get_depth()), (90, 2));
    p.apply_event(MiningEvent::Hazard);
    assert_eq!((p.get_health(), p.get_depth()), (60, 2));
    p.apply_event(MiningEvent::Quiet);
    assert_eq!((p.get_health(), p.get_depth()), (60, 2));
}

#[test]
fn stop_mining_resets_depth_only() {
    let mut p = player_with_money(0);
    p.go_deeper();
    p.go_deeper();
    p.take_damage(25);
    assert_eq!(p.get_depth(), 3);
    p.stop_mining();
    assert_eq!(p.get_depth(), 1);
    assert_eq!(p.get_health(), 75);
}

#[test]
fn dig_keeps_outcomes_in_range() {
    let mut p = player_with_money(0);
    for _ in 0..200 {
        let (h, d) = (p.get_health(), p.get_depth());
        p.dig();
        let outcome = (p.get_health(), p.get_depth());
        let allowed = [(h, d + 1), (h.saturating_sub(10), d), (h.saturating_sub(30), d), (h, d)];
        assert!(allowed.contains(&outcome));
        p.stop_mining();
    }
    let found: u32 = {
        let (i, g, d) = ore_counts(&p.inventory);
        i + g + d
    };
    assert!(found > 0);
}

#[test]
fn mine_ore_at_top_level_never_finds_diamonds() {
    let mut p = player_with_money(0);
    p.account.pickaxe_level = 3;
    for _ in 0..50 {
        p.mine_ore();
        assert_eq!(p.inventory.count_ore(Ore::Diamond), 0);
        p.purge_inventory();
    }
}

#[test]
fn eating_heals_and_frees_slot() {
    let mut p = player_with_money(0);
    p.inventory.push_food(Food::Apple);
    p.inventory.push_food(Food::Beef);
    p.take_damage(60);
    assert!(p.can_eat(2));
    p.eat(2);
    assert_eq!(p.get_health(), 80);
    assert_eq!(p.inventory.foods[1], None);
    assert!(!p.can_eat(2));
    p.eat(1);
    assert_eq!(p.get_health(), 90);
    p.eat(1);
    assert_eq!(p.get_health(), 90);
}

#[test]
fn can_eat_bounds() {
    let mut p = player_with_money(0);
    for _ in 0..6 {
        p.inventory.push_food(Food::Chicken);
    }
    assert!(!p.can_eat(0));
    assert!(!p.can_eat(7));
    assert!(!p.can_eat(-3));
    assert!(p.can_eat(6));
}

#[test]
fn buying_food() {
    let mut p = player_with_money(100);
    assert!(p.buy_food(Food::Chicken).is_ok());
    assert_eq!(p.account.money, 30);
    assert_eq!(p.inventory.foods[0], Some(Food::Chicken));
    assert_eq!(p.buy_food(Food::Beef), Err("Error: Not enough money!"));
    assert_eq!(p.account.money, 30);
    for _ in 0..5 {
        p.inventory.push_food(Food::Apple);
    }
    assert_eq!(p.buy_food(Food::Apple), Err("You have no free space!"));
    assert_eq!(p.account.money, 30);
}

#[test]
fn item_tokens() {
    assert_eq!(Ore::IronOre.to_string(), "Iron Ore");
    assert_eq!(Food::Chicken.to_string(), "Chicken");
    assert_eq!(Ore::from_string("Gold Ore"), Some(Ore::GoldOre));
    assert_eq!(Ore::from_string("gold ore"), None);
    assert_eq!(Food::from_string("Beef"), Some(Food::Beef));
    assert_eq!(Food::from_string("Diamond"), None);
}

#[test]
fn username_rules() {
    assert!(is_alphanumeric_string("Steve99"));
    assert!(is_alphanumeric_string("Zoë"));
    assert!(!is_alphanumeric_string("bad name"));
    assert!(!is_alphanumeric_string("a,b"));
    assert!(is_alphanumeric_string(""));
    assert!(!is_valid_username(""));
    assert!(is_valid_username("alex"));
}

#[test]
fn text_helpers() {
    assert_eq!(trim("  x y \t\n"), "x y");
    assert_eq!(trim("\u{3000}7\u{a0}"), "7");
    assert_eq!(split_fields("a,,b", ','), vec!["a", "", "b"]);
    assert_eq!(parse_decimal("+12", 255), Some(12));
    assert_eq!(parse_decimal("256", 255), None);
    assert_eq!(parse_decimal("-1", 255), None);
    assert_eq!(parse_decimal("", 255), None);
}

#[test]
fn find_ore_follows_coin_and_roll() {
    let mut p = player_with_money(0);
    p.find_ore(false, 1);
    assert_eq!(ore_counts(&p.inventory), (0, 0, 0));
    p.find_ore(true, 57);
    p.find_ore(true, 58);
    p.find_ore(true, 86);
    assert_eq!(p.inventory.ores[0], Some(Ore::IronOre));
    assert_eq!(p.inventory.ores[1], Some(Ore::GoldOre));
    assert_eq!(p.inventory.ores[2], Some(Ore::Diamond));
    p.account.pickaxe_level = 3;
    p.find_ore(true, 100);
    assert_eq!(p.inventory.ores[3], Some(Ore::GoldOre));
    assert_eq!(p.get_health(), 100);
    assert_eq!(p.account.money, 0);
}

#[test]
fn mine_ore_adds_at_most_two() {
    let mut p = player_with_money(0);
    let mut total = 0;
    for _ in 0..200 {
        p.mine_ore();
        let (i, g, d) = ore_counts(&p.inventory);
        assert!(i + g + d <= 2);
        total += i + g + d;
        p.purge_inventory();
    }
    assert!(total > 100 && total < 300);
}
