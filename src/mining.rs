//! The probability model of a mining step: percent rolls in `1..=100` and coin flips.
use vstd::prelude::*;
use crate::inventory::Ore;
use rand::Rng;

verus! {

/// What happens to depth and health on one mining step.
#[derive(Clone, Copy, Debug, PartialEq, Eq, Structural)]
pub enum MiningEvent {
    /// The expedition goes one level deeper.
    Advance,
    /// The player gets hungry and loses a little health.
    Hunger,
    /// A hazard strikes and the player loses much health.
    Hazard,
    /// Nothing happens.
    Quiet,
}

/// Percent chance that a step goes deeper.
pub const ADVANCE_CHANCE: u8 = 40;
/// Percent chance, when not going deeper, of getting hungry.
pub const HUNGER_CHANCE: u8 = 20;
/// Percent chance, when neither of the above, of a hazard.
pub const HAZARD_CHANCE: u8 = 10;
/// Health lost to hunger.
pub const HUNGER_DAMAGE: u8 = 10;
/// Health lost to a hazard.
pub const HAZARD_DAMAGE: u8 = 30;

pub open spec fn event_spec(first: u8, second: u8, third: u8) -> MiningEvent {
    if first <= ADVANCE_CHANCE {
        MiningEvent::Advance
    } else if second <= HUNGER_CHANCE {
        MiningEvent::Hunger
    } else if third <= HAZARD_CHANCE {
        MiningEvent::Hazard
    } else {
        MiningEvent::Quiet
    }
}

/// The (iron, gold) percent thresholds of a pickaxe level; the rest of the hundred is diamond.
pub open spec fn chances_spec(level: u8) -> (u8, u8) {
    if level == 3 {
        (60, 40)
    } else if level == 2 {
        (54, 36)
    } else {
        (57, 28)
    }
}

pub open spec fn ore_spec(iron_chance: u8, gold_chance: u8, roll: u8) -> Ore {
    if roll <= iron_chance {
        Ore::IronOre
    } else if roll <= iron_chance + gold_chance {
        Ore::GoldOre
    } else {
        Ore::Diamond
    }
}

/// Decides the event of a step from the rolls for each chance, tried in order.
pub fn mining_event(first: u8, second: u8, third: u8) -> (r: MiningEvent)
    ensures
        r == event_spec(first, second, third),
{
    if first <= ADVANCE_CHANCE {
        MiningEvent::Advance
    } else if second <= HUNGER_CHANCE {
        MiningEvent::Hunger
    } else if third <= HAZARD_CHANCE {
        MiningEvent::Hazard
    } else {
        MiningEvent::Quiet
    }
}

/// The (iron, gold) percent thresholds of a pickaxe level.
pub fn ore_chances(level: u8) -> (r: (u8, u8))
    ensures
        r == chances_spec(level),
{
    match level {
        3 => (60, 40),
        2 => (54, 36),
        _ => (57, 28),
    }
}

/// The ore that `roll` selects: iron up to `iron_chance`, then gold for the next
/// `gold_chance`, diamond above.
pub fn ore_for_roll(iron_chance: u8, gold_chance: u8, roll: u8) -> (r: Ore)
    ensures
        r == ore_spec(iron_chance, gold_chance, roll),
{
    if roll <= iron_chance {
        Ore::IronOre
    } else if (roll as u16) <= iron_chance as u16 + gold_chance as u16 {
        Ore::GoldOre
    } else {
        Ore::Diamond
    }
}

/// Relies on `rand::thread_rng().gen_range(1..=100)`: a number drawn uniformly
/// from the inclusive range.
#[verifier::external_body]
pub(crate) fn roll_percent() -> (r: u8)
    ensures
        1 <= r <= 100,
{
    rand::thread_rng().gen_range(1..=100)
}

/// Relies on `rand::random::<bool>()`: a fair coin.
#[verifier::external_body]
pub(crate) fn coin_flip() -> bool {
    rand::random()
}

/// Draws the ore of one find with the given thresholds.
pub fn mine(iron_chance: u8, gold_chance: u8) -> (r: Ore)
    ensures
        exists|roll: u8| 1 <= roll <= 100 && r == ore_spec(iron_chance, gold_chance, roll),
{
    let roll = roll_percent();
    ore_for_roll(iron_chance, gold_chance, roll)
}

/// Draws the event of one mining step.
pub fn draw_mining_event() -> (r: MiningEvent)
    ensures
        exists|a: u8, b: u8, c: u8|
            1 <= a <= 100 && 1 <= b <= 100 && 1 <= c <= 100 && r == event_spec(a, b, c),
{
    let first = roll_percent();
    if first <= ADVANCE_CHANCE {
        return mining_event(first, 100, 100);
    }
    let second = roll_percent();
    if second <= HUNGER_CHANCE {
        return mining_event(first, second, 100);
    }
    let third = roll_percent();
    mining_event(first, second, third)
}

/// At the highest pickaxe level no roll gives a diamond.
pub proof fn lemma_no_diamond_at_top_level(roll: u8)
    requires
        1 <= roll <= 100,
    ensures
        ore_spec(chances_spec(3).0, chances_spec(3).1, roll) != Ore::Diamond,
{
}

} // verus!
