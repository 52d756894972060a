use vstd::prelude::*;
use crate::components::{CombatStats, EntityId, Position, Potion};

verus! {

/// Where an item is: on the ground at a tile, or carried by an entity. An item is
/// always in exactly one of the two.
#[derive(Clone, Copy, Debug, PartialEq, Eq, Structural)]
pub enum ItemLocation {
    OnGround(Position),
    InBackpack(EntityId),
}

/// Where an item is after it is picked up.
pub open spec fn spec_pick_up(item: ItemLocation, collected_by: EntityId) -> ItemLocation {
    ItemLocation::InBackpack(collected_by)
}

/// Where an item is after it is dropped.
pub open spec fn spec_drop(item: ItemLocation, dropper_pos: Position) -> ItemLocation {
    ItemLocation::OnGround(dropper_pos)
}

/// Health after drinking: raised by the heal amount, but not past the maximum.
pub open spec fn spec_healed(stats: CombatStats, heal_amount: int) -> int {
    if stats.hp + heal_amount < stats.max_hp {
        stats.hp + heal_amount
    } else {
        stats.max_hp as int
    }
}

/// Pickup: the item leaves the ground and goes into the collector's backpack.
pub fn pick_up(item: &mut ItemLocation, collected_by: EntityId)
    ensures
        *final(item) == spec_pick_up(*old(item), collected_by),
{
    *item = ItemLocation::InBackpack(collected_by);
}

/// Drop: the item leaves the backpack and lies at the dropping entity's position.
pub fn drop_item(item: &mut ItemLocation, dropper_pos: Position)
    ensures
        *final(item) == spec_drop(*old(item), dropper_pos),
{
    *item = ItemLocation::OnGround(dropper_pos);
}

/// Drinking a potion: health rises by its heal amount, capped at the maximum. The
/// caller removes the potion entity.
pub fn drink_potion(stats: &mut CombatStats, potion: &Potion)
    requires
        i32::MIN <= old(stats).hp + potion.heal_amount,
    ensures
        final(stats).hp == spec_healed(*old(stats), potion.heal_amount as int),
        final(stats).max_hp == old(stats).max_hp,
        final(stats).defense == old(stats).defense,
        final(stats).power == old(stats).power,
{
    let raised: i64 = stats.hp as i64 + potion.heal_amount as i64;
    if raised < stats.max_hp as i64 {
        stats.hp = raised as i32;
    } else {
        stats.hp = stats.max_hp;
    }
}

/// Picking an item up and then dropping it leaves it on the ground at the position
/// the dropping entity had when it dropped it, and in no backpack.
pub proof fn lemma_pickup_then_drop(start: ItemLocation, collector: EntityId, dropper_pos: Position)
    ensures
        spec_pick_up(start, collector) == ItemLocation::InBackpack(collector),
        spec_drop(spec_pick_up(start, collector), dropper_pos) == ItemLocation::OnGround(dropper_pos),
        !(spec_drop(spec_pick_up(start, collector), dropper_pos) is InBackpack),
{
}

/// Drinking raises health by the heal amount when that stays within the maximum,
/// and leaves it at the maximum otherwise.
pub proof fn lemma_drink_clamped(stats: CombatStats, heal_amount: int)
    requires
        stats.hp <= stats.max_hp,
        heal_amount >= 0,
    ensures
        stats.hp <= spec_healed(stats, heal_amount) <= stats.max_hp,
        stats.hp + heal_amount <= stats.max_hp ==> spec_healed(stats, heal_amount) == stats.hp + heal_amount,
        stats.hp + heal_amount > stats.max_hp ==> spec_healed(stats, heal_amount) == stats.max_hp,
{
}

} // verus!
