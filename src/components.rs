use vstd::prelude::*;

verus! {

/// Identity of an entity in the registry: its slot and the generation of that slot,
/// so that a stale reference to a removed entity never matches a newer one.
#[derive(Clone, Copy, Debug, PartialEq, Eq, Structural, Hash)]
pub struct EntityId {
    pub id: u32,
    pub generation: i32,
}

/// An entity's tile.
#[derive(Clone, Copy, Debug, PartialEq, Eq, Structural)]
pub struct Position {
    pub x: i32,
    pub y: i32,
}

/// A tile coordinate as handed out by a field-of-view computation.
#[derive(Clone, Copy, Debug, PartialEq, Eq, Structural)]
pub struct Point {
    pub x: i32,
    pub y: i32,
}

/// Health and fighting strength.
#[derive(Clone, Copy, Debug, PartialEq, Eq, Structural)]
pub struct CombatStats {
    pub max_hp: i32,
    pub hp: i32,
    pub defense: i32,
    pub power: i32,
}

/// A consumable that heals whoever drinks it.
#[derive(Clone, Copy, Debug, PartialEq, Eq, Structural)]
pub struct Potion {
    pub heal_amount: i32,
}

} // verus!
