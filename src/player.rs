//! A player session: an account, its inventory, and the transient health and depth.
use vstd::prelude::*;
use crate::account::Account;
use crate::inventory::{all_empty, has_free, inserted, sale_value, Food, Inventory, Ore, FOOD_SLOTS};
use crate::mining::{
    chances_spec, coin_flip, draw_mining_event, ore_chances, ore_for_roll, ore_spec, roll_percent,
    MiningEvent, HAZARD_DAMAGE, HUNGER_DAMAGE,
};

verus! {

/// Full health.
pub const MAX_HEALTH: u8 = 100;
/// Highest pickaxe level.
pub const MAX_PICKAXE_LEVEL: u8 = 3;
/// Deepest level a step can reach.
pub const MAX_DEPTH: u8 = 255;

pub open spec fn damaged(health: u8, damage: u8) -> u8 {
    if damage >= health {
        0
    } else {
        (health - damage) as u8
    }
}

pub open spec fn healed(health: u8, heal: u8) -> u8 {
    if health + heal >= MAX_HEALTH {
        MAX_HEALTH
    } else {
        (health + heal) as u8
    }
}

pub open spec fn food_heal(f: Food) -> u8 {
    match f {
        Food::Apple => 10,
        Food::Chicken => 30,
        Food::Beef => 40,
    }
}

pub open spec fn food_price(f: Food) -> u32 {
    match f {
        Food::Apple => 30,
        Food::Chicken => 70,
        Food::Beef => 90,
    }
}

/// Cost of raising the pickaxe from `level` to the next one.
pub open spec fn upgrade_cost(level: u8) -> u32 {
    (level * 200 + 100) as u32
}

pub open spec fn upgraded(level: u8) -> u8 {
    if level < MAX_PICKAXE_LEVEL {
        (level + 1) as u8
    } else {
        level
    }
}

/// Collectible slots after a try that finds an ore when `found` holds, of the kind that
/// `roll` selects at pickaxe level `level`.
pub open spec fn after_find(s: Seq<Option<Ore>>, level: u8, found: bool, roll: u8) -> Seq<
    Option<Ore>,
> {
    if found {
        inserted(s, ore_spec(chances_spec(level).0, chances_spec(level).1, roll))
    } else {
        s
    }
}

/// Collectible slots after two tries in turn.
pub open spec fn two_finds(
    s: Seq<Option<Ore>>,
    level: u8,
    first: bool,
    first_roll: u8,
    second: bool,
    second_roll: u8,
) -> Seq<Option<Ore>> {
    after_find(after_find(s, level, first, first_roll), level, second, second_roll)
}

/// Health and depth after `e`.
pub open spec fn after_event(health: u8, depth: u8, e: MiningEvent) -> (u8, u8) {
    match e {
        MiningEvent::Advance => (health, (depth + 1) as u8),
        MiningEvent::Hunger => (damaged(health, HUNGER_DAMAGE), depth),
        MiningEvent::Hazard => (damaged(health, HAZARD_DAMAGE), depth),
        MiningEvent::Quiet => (health, depth),
    }
}

pub struct Player {
    pub account: Account,
    pub inventory: Inventory,
    /// Transient health, `0..=100`.
    pub health: u8,
    /// Transient depth of the current expedition, from 1.
    pub depth: u8,
}

/// Players are the same player when their usernames are.
impl PartialEq for Player {
    fn eq(&self, other: &Player) -> (r: bool) {
        self.account.username == other.account.username
    }
}

impl vstd::std_specs::cmp::PartialEqSpecImpl for Player {
    open spec fn obeys_eq_spec() -> bool {
        true
    }

    open spec fn eq_spec(&self, other: &Player) -> bool {
        self.account.username@ == other.account.username@
    }
}

impl Eq for Player {

}

impl Player {
    /// Health stays within `0..=100` and depth is at least one.
    pub open spec fn wf(&self) -> bool {
        self.health <= MAX_HEALTH && self.depth >= 1
    }

    /// Everything but the account's money is the same in `self` and `other`.
    pub open spec fn same_but_money(&self, other: &Player) -> bool {
        self.account.username == other.account.username && self.account.pickaxe_level
            == other.account.pickaxe_level && self.inventory == other.inventory && self.health
            == other.health && self.depth == other.depth
    }

    /// Only health differs, if anything, between `self` and `other`.
    pub open spec fn same_but_health(&self, other: &Player) -> bool {
        self.account == other.account && self.inventory == other.inventory && self.depth
            == other.depth
    }

    pub fn new(inventory: Inventory, account: Account) -> (r: Player)
        ensures
            r.wf(),
            r.account == account,
            r.inventory == inventory,
            r.health == MAX_HEALTH,
            r.depth == 1,
    {
        Player { account, inventory, health: MAX_HEALTH, depth: 1 }
    }

    /// Takes `amount` from the balance when it covers it.
    pub fn spend(&mut self, amount: u32) -> (r: Result<(), &'static str>)
        ensures
            amount <= old(self).account.money ==> r is Ok && final(self).account.money
                == old(self).account.money - amount && final(self).same_but_money(old(self)),
            amount > old(self).account.money ==> r is Err && *final(self) == *old(self),
    {
        if amount <= self.account.money {
            self.account.money = self.account.money - amount;
            Ok(())
        } else {
            Err("Error: Not enough money!")
        }
    }

    /// Adds `amount` to the balance.
    pub fn credit(&mut self, amount: u32)
        requires
            old(self).account.money + amount <= u32::MAX,
        ensures
            final(self).account.money == old(self).account.money + amount,
            final(self).same_but_money(old(self)),
    {
        self.account.money = self.account.money + amount;
    }

    /// Loses `damage` health, stopping at zero.
    pub fn take_damage(&mut self, damage: u8)
        ensures
            final(self).health == damaged(old(self).health, damage),
            final(self).same_but_health(old(self)),
    {
        if damage >= self.health {
            self.health = 0;
        } else {
            self.health = self.health - damage;
        }
    }

    /// Gains `heal` health, stopping at full health.
    pub fn heal(&mut self, heal: u8)
        requires
            old(self).wf(),
        ensures
            final(self).health == healed(old(self).health, heal),
            final(self).same_but_health(old(self)),
    {
        if heal >= MAX_HEALTH - self.health {
            self.health = MAX_HEALTH;
        } else {
            self.health = self.health + heal;
        }
    }

    pub fn is_alive(&self) -> (r: bool)
        ensures
            r == (self.health > 0),
    {
        self.health > 0
    }

    pub fn get_health(&self) -> (r: u8)
        ensures
            r == self.health,
    {
        self.health
    }

    /// Starts a new expedition at the surface; health is kept.
    pub fn stop_mining(&mut self)
        ensures
            final(self).depth == 1,
            final(self).health == old(self).health,
            final(self).account == old(self).account,
            final(self).inventory == old(self).inventory,
    {
        self.depth = 1;
    }

    pub fn get_depth(&self) -> (r: u8)
        ensures
            r == self.depth,
    {
        self.depth
    }

    /// Goes one level deeper.
    pub fn go_deeper(&mut self)
        requires
            old(self).depth < MAX_DEPTH,
        ensures
            final(self).depth == old(self).depth + 1,
            final(self).health == old(self).health,
            final(self).account == old(self).account,
            final(self).inventory == old(self).inventory,
    {
        self.depth = self.depth + 1;
    }

    /// Applies the depth and health effect of `event`.
    pub fn apply_event(&mut self, event: MiningEvent)
        requires
            event == MiningEvent::Advance ==> old(self).depth < MAX_DEPTH,
        ensures
            (final(self).health, final(self).depth) == after_event(
                old(self).health,
                old(self).depth,
                event,
            ),
            final(self).account == old(self).account,
            final(self).inventory == old(self).inventory,
    {
        match event {
            MiningEvent::Advance => self.go_deeper(),
            MiningEvent::Hunger => self.take_damage(HUNGER_DAMAGE),
            MiningEvent::Hazard => self.take_damage(HAZARD_DAMAGE),
            MiningEvent::Quiet => {},
        }
    }

    /// Adds the ore that `roll` selects at this pickaxe level when `found` holds;
    /// changes nothing otherwise.
    pub fn find_ore(&mut self, found: bool, roll: u8)
        ensures
            final(self).inventory.ores@ == after_find(
                old(self).inventory.ores@,
                old(self).account.pickaxe_level,
                found,
                roll,
            ),
            final(self).inventory.foods == old(self).inventory.foods,
            final(self).account == old(self).account,
            final(self).health == old(self).health,
            final(self).depth == old(self).depth,
    {
        if found {
            let (iron_chance, gold_chance) = ore_chances(self.account.pickaxe_level);
            let ore = ore_for_roll(iron_chance, gold_chance, roll);
            self.inventory.push_ore(ore);
        }
    }

    /// Tries twice to find an ore: each try flips a coin, and on success draws the
    /// ore's kind with a roll in `1..=100`.
    pub fn mine_ore(&mut self)
        ensures
            final(self).account == old(self).account,
            final(self).inventory.foods == old(self).inventory.foods,
            final(self).health == old(self).health,
            final(self).depth == old(self).depth,
            exists|first: bool, first_roll: u8, second: bool, second_roll: u8|
                1 <= first_roll <= 100 && 1 <= second_roll <= 100 && final(self).inventory.ores@
                    == #[trigger] two_finds(
                    old(self).inventory.ores@,
                    old(self).account.pickaxe_level,
                    first,
                    first_roll,
                    second,
                    second_roll,
                ),
    {
        let first = coin_flip();
        let first_roll: u8 = if first {
            roll_percent()
        } else {
            1
        };
        self.find_ore(first, first_roll);
        let second = coin_flip();
        let second_roll: u8 = if second {
            roll_percent()
        } else {
            1
        };
        self.find_ore(second, second_roll);
        assert(self.inventory.ores@ == two_finds(
            old(self).inventory.ores@,
            old(self).account.pickaxe_level,
            first,
            first_roll,
            second,
            second_roll,
        ));
    }

    /// One step of an expedition: a drawn event, then an attempt at finding ore.
    pub fn dig(&mut self)
        requires
            old(self).depth < MAX_DEPTH,
        ensures
            exists|e: MiningEvent|
                (final(self).health, final(self).depth) == #[trigger] after_event(
                    old(self).health,
                    old(self).depth,
                    e,
                ),
            final(self).account == old(self).account,
            final(self).inventory.foods == old(self).inventory.foods,
            exists|first: bool, first_roll: u8, second: bool, second_roll: u8|
                1 <= first_roll <= 100 && 1 <= second_roll <= 100 && final(self).inventory.ores@
                    == #[trigger] two_finds(
                    old(self).inventory.ores@,
                    old(self).account.pickaxe_level,
                    first,
                    first_roll,
                    second,
                    second_roll,
                ),
    {
        let event = draw_mining_event();
        self.apply_event(event);
        self.mine_ore();
        assert((self.health, self.depth) == after_event(old(self).health, old(self).depth, event));
    }

    /// Whether `index`, counted from 1, names an occupied food slot.
    pub fn can_eat(&self, index: i32) -> (r: bool)
        ensures
            r == (1 <= index <= FOOD_SLOTS && self.inventory.foods@[index - 1] is Some),
    {
        if !(index >= 1 && index <= 6) {
            return false;
        }
        let index: usize = index as usize;
        self.inventory.foods[index - 1].is_some()
    }

    /// Eats the food in slot `index`, counted from 1, and frees the slot; does nothing
    /// when that slot is empty or out of range.
    pub fn eat(&mut self, index: i32)
        requires
            old(self).wf(),
        ensures
            !old(self).can_eat_spec(index) ==> *final(self) == *old(self),
            old(self).can_eat_spec(index) ==> ({
                let f = old(self).inventory.foods@[index - 1]->Some_0;
                &&& final(self).health == healed(old(self).health, food_heal(f))
                &&& final(self).inventory.foods@ == old(self).inventory.foods@.update(
                    index - 1,
                    None,
                )
                &&& final(self).inventory.ores == old(self).inventory.ores
                &&& final(self).account == old(self).account
                &&& final(self).depth == old(self).depth
            }),
    {
        if !self.can_eat(index) {
            return;
        }
        let index: usize = (index - 1) as usize;
        match self.inventory.foods[index] {
            Some(Food::Apple) => self.heal(10),
            Some(Food::Chicken) => self.heal(30),
            Some(Food::Beef) => self.heal(40),
            None => {},
        }
        self.inventory.foods[index] = None;
    }

    pub open spec fn can_eat_spec(&self, index: i32) -> bool {
        1 <= index <= FOOD_SLOTS && self.inventory.foods@[index - 1] is Some
    }

    /// Empties every collectible slot.
    pub fn purge_inventory(&mut self)
        ensures
            all_empty(final(self).inventory.ores@),
            final(self).inventory.foods == old(self).inventory.foods,
            final(self).account == old(self).account,
            final(self).health == old(self).health,
            final(self).depth == old(self).depth,
    {
        self.inventory.clear_ores();
    }

    /// Sells every collectible at its kind's price, and returns the earnings.
    pub fn sell_ores(&mut self) -> (r: u32)
        requires
            old(self).account.money + sale_value(old(self).inventory.ores@) <= u32::MAX,
        ensures
            r == sale_value(old(self).inventory.ores@),
            final(self).account.money == old(self).account.money + r,
            all_empty(final(self).inventory.ores@),
            final(self).inventory.foods == old(self).inventory.foods,
            final(self).account.username == old(self).account.username,
            final(self).account.pickaxe_level == old(self).account.pickaxe_level,
            final(self).health == old(self).health,
            final(self).depth == old(self).depth,
    {
        let earned = self.inventory.ore_sale_value();
        self.credit(earned);
        self.purge_inventory();
        earned
    }

    /// The price of a food in the shop.
    pub fn food_price(food: Food) -> (r: u32)
        ensures
            r == food_price(food),
    {
        match food {
            Food::Apple => 30,
            Food::Chicken => 70,
            Food::Beef => 90,
        }
    }

    /// Buys `food` into the first free food slot: fails with nothing changed when no
    /// slot is free or the balance does not cover the price.
    pub fn buy_food(&mut self, food: Food) -> (r: Result<(), &'static str>)
        ensures
            r is Ok <==> (has_free(old(self).inventory.foods@) && food_price(food)
                <= old(self).account.money),
            r is Err ==> *final(self) == *old(self),
            r is Ok ==> ({
                &&& final(self).account.money == old(self).account.money - food_price(food)
                &&& final(self).inventory.foods@ == inserted(old(self).inventory.foods@, food)
                &&& final(self).inventory.ores == old(self).inventory.ores
                &&& final(self).account.username == old(self).account.username
                &&& final(self).account.pickaxe_level == old(self).account.pickaxe_level
                &&& final(self).health == old(self).health
                &&& final(self).depth == old(self).depth
            }),
    {
        if !self.inventory.has_free_food_slot() {
            return Err("You have no free space!");
        }
        let price = Player::food_price(food);
        match self.spend(price) {
            Ok(()) => {
                self.inventory.push_food(food);
                Ok(())
            },
            Err(e) => Err(e),
        }
    }

    pub fn is_pickaxe_maxed(&self) -> (r: bool)
        ensures
            r == (self.account.pickaxe_level >= MAX_PICKAXE_LEVEL),
    {
        self.account.pickaxe_level >= MAX_PICKAXE_LEVEL
    }

    /// `level * 200 + 100`, the cost of the next level.
    pub fn upgrade_pickaxe_cost(&self) -> (r: u32)
        ensures
            r == upgrade_cost(self.account.pickaxe_level),
    {
        let pickaxe_level = self.account.pickaxe_level as u32;
        let base_cost: u32 = 100;
        let cost_per_level: u32 = 200;
        pickaxe_level * cost_per_level + base_cost
    }

    /// Raises the pickaxe level by one, up to the highest.
    pub fn upgrade_pickaxe(&mut self)
        ensures
            final(self).account.pickaxe_level == upgraded(old(self).account.pickaxe_level),
            final(self).account.money == old(self).account.money,
            final(self).account.username == old(self).account.username,
            final(self).inventory == old(self).inventory,
            final(self).health == old(self).health,
            final(self).depth == old(self).depth,
    {
        if self.account.pickaxe_level < MAX_PICKAXE_LEVEL {
            self.account.pickaxe_level = self.account.pickaxe_level + 1;
        }
    }

    /// Pays for and applies the next pickaxe level: fails with nothing changed when the
    /// pickaxe is at its highest level or the balance does not cover the cost.
    pub fn buy_pickaxe_upgrade(&mut self) -> (r: Result<(), &'static str>)
        ensures
            r is Ok <==> (old(self).account.pickaxe_level < MAX_PICKAXE_LEVEL && upgrade_cost(
                old(self).account.pickaxe_level,
            ) <= old(self).account.money),
            r is Err ==> *final(self) == *old(self),
            r is Ok ==> ({
                &&& final(self).account.money == old(self).account.money - upgrade_cost(
                    old(self).account.pickaxe_level,
                )
                &&& final(self).account.pickaxe_level == old(self).account.pickaxe_level + 1
                &&& final(self).account.username == old(self).account.username
                &&& final(self).inventory == old(self).inventory
                &&& final(self).health == old(self).health
                &&& final(self).depth == old(self).depth
            }),
    {
        if self.is_pickaxe_maxed() {
            return Err("Pickaxe is already at its highest level!");
        }
        let cost = self.upgrade_pickaxe_cost();
        match self.spend(cost) {
            Ok(()) => {
                self.upgrade_pickaxe();
                Ok(())
            },
            Err(e) => Err(e),
        }
    }
}

} // verus!

verus! {

/// Player `i` is listed before player `j`: more money, or as much and earlier.
pub open spec fn listed_before(players: Seq<Player>, i: int, j: int) -> bool {
    players[i].account.money > players[j].account.money || (players[i].account.money
        == players[j].account.money && i < j)
}

/// The order in which to list `players`: positions into it, by money with the highest
/// first, players with equal money in the order they are given.
pub fn roster_order(players: &Vec<Player>) -> (r: Vec<usize>)
    ensures
        r@.len() == players@.len(),
        forall|k: int| 0 <= k < players@.len() ==> #[trigger] r@.contains(k as usize),
        forall|a: int, b: int|
            0 <= a < b < r@.len() ==> listed_before(players@, #[trigger] r@[a] as int, #[trigger] r@[b] as int),
{
    let ghost ps = players@;
    let mut r: Vec<usize> = Vec::new();
    let mut i: usize = 0;
    while i < players.len()
        invariant
            ps == players@,
            i <= ps.len(),
            r@.len() == i,
            forall|a: int| 0 <= a < r@.len() ==> #[trigger] r@[a] < i,
            forall|k: int| 0 <= k < i ==> #[trigger] r@.contains(k as usize),
            forall|a: int, b: int|
                0 <= a < b < r@.len() ==> listed_before(ps, #[trigger] r@[a] as int, #[trigger] r@[b] as int),
        decreases ps.len() - i,
    {
        let m = players[i].account.money;
        let mut pos: usize = 0;
        while pos < r.len() && players[r[pos]].account.money >= m
            invariant
                ps == players@,
                i < ps.len(),
                m == ps[i as int].account.money,
                pos <= r@.len() == i,
                forall|a: int| 0 <= a < r@.len() ==> #[trigger] r@[a] < i,
                forall|a: int| 0 <= a < pos ==> ps[#[trigger] r@[a] as int].account.money >= m,
            decreases r@.len() - pos,
        {
            pos = pos + 1;
        }
        let ghost old_r = r@;
        proof {
            assert forall|a: int| pos <= a < old_r.len() implies ps[#[trigger] old_r[a] as int].account.money < m by {
                if a > pos {
                    assert(listed_before(ps, old_r[pos as int] as int, old_r[a] as int));
                }
            }
        }
        r.insert(pos, i);
        proof {
            let nr = r@;
            assert(nr.len() == old_r.len() + 1);
            assert forall|a: int| 0 <= a < nr.len() implies #[trigger] nr[a] == if a < pos {
                old_r[a]
            } else if a == pos {
                i
            } else {
                old_r[a - 1]
            } by {}
            assert forall|a: int| 0 <= a < nr.len() implies #[trigger] nr[a] < i + 1 by {
                if a < pos {} else if a == pos {} else {
                    assert(old_r[a - 1] < i);
                }
            }
            assert forall|k: int| 0 <= k < i + 1 implies #[trigger] nr.contains(k as usize) by {
                if k == i {
                    assert(nr[pos as int] == k as usize);
                } else {
                    assert(old_r.contains(k as usize));
                    let a = choose|a: int| 0 <= a < old_r.len() && old_r[a] == k as usize;
                    if a < pos {
                        assert(nr[a] == k as usize);
                    } else {
                        assert(nr[a + 1] == k as usize);
                    }
                }
            }
            assert forall|a: int, b: int| 0 <= a < b < nr.len() implies listed_before(
                ps,
                #[trigger] nr[a] as int,
                #[trigger] nr[b] as int,
            ) by {
                if b < pos {
                    assert(listed_before(ps, old_r[a] as int, old_r[b] as int));
                } else if b == pos {
                    assert(ps[old_r[a] as int].account.money >= m);
                    assert(old_r[a] < i);
                } else if a < pos {
                    assert(listed_before(ps, old_r[a] as int, old_r[b - 1] as int));
                } else if a == pos {
                    assert(ps[old_r[b - 1] as int].account.money < m);
                } else {
                    assert(listed_before(ps, old_r[a - 1] as int, old_r[b - 1] as int));
                }
            }
        }
        i = i + 1;
    }
    r
}

} // verus!
