use vstd::prelude::*;
use crate::components::{CombatStats, Position};
use crate::constants::{MAP_TOTAL_DIMENSION, MAP_WIDTH};
use crate::map::{col, row, lemma_col_row};
use crate::visibility::{Viewshed, sees};

verus! {

/// What a monster does this turn.
#[derive(Clone, Copy, Debug, PartialEq, Eq, Structural)]
pub enum MonsterIntent {
    /// Down, or without sight of the player.
    Idle,
    /// Next to the player: strike it and stay put.
    Attack,
    /// Sees the player from afar: take one step along a path toward it.
    Chase,
}

/// The two tiles are one king's move apart.
pub open spec fn spec_adjacent(a: Position, b: Position) -> bool {
    let dx = if a.x >= b.x { a.x - b.x } else { b.x - a.x };
    let dy = if a.y >= b.y { a.y - b.y } else { b.y - a.y };
    (dx == 1 && dy <= 1) || (dy == 1 && dx <= 1)
}

/// Idle when down or without sight of the player; attack when next to it; else chase.
pub open spec fn spec_monster_intent(pos: Position, stats: CombatStats, view: Seq<crate::components::Point>, player: Position) -> MonsterIntent {
    if stats.hp <= 0 || !sees(view, player) {
        MonsterIntent::Idle
    } else if spec_adjacent(pos, player) {
        MonsterIntent::Attack
    } else {
        MonsterIntent::Chase
    }
}

/// The two tiles are one king's move apart.
pub fn is_adjacent(a: &Position, b: &Position) -> (r: bool)
    ensures
        r == spec_adjacent(*a, *b),
{
    let dx: i64 = if a.x >= b.x { a.x as i64 - b.x as i64 } else { b.x as i64 - a.x as i64 };
    let dy: i64 = if a.y >= b.y { a.y as i64 - b.y as i64 } else { b.y as i64 - a.y as i64 };
    (dx == 1 && dy <= 1) || (dy == 1 && dx <= 1)
}

/// The monster's decision: a monster that is down or cannot see the player idles;
/// one next to the player attacks; any other chases.
pub fn monster_intent(pos: &Position, stats: &CombatStats, viewshed: &Viewshed, player: &Position) -> (r: MonsterIntent)
    ensures
        r == spec_monster_intent(*pos, *stats, viewshed.visible_tiles@, *player),
{
    if stats.hp <= 0 || !viewshed.can_see(player) {
        MonsterIntent::Idle
    } else if is_adjacent(pos, player) {
        MonsterIntent::Attack
    } else {
        MonsterIntent::Chase
    }
}

/// Takes one step along `path`, whose first entry is the monster's own tile: when a
/// next tile exists the monster moves there and its view is marked for
/// recomputation; otherwise nothing changes.
pub fn step_along_path(pos: &mut Position, viewshed: &mut Viewshed, path: &Vec<usize>)
    requires
        path@.len() > 1 ==> path@[1] < MAP_TOTAL_DIMENSION,
    ensures
        path@.len() > 1 ==> *final(pos) == (Position { x: col(path@[1] as int) as i32, y: row(path@[1] as int) as i32 })
            && final(viewshed).dirty,
        path@.len() <= 1 ==> *final(pos) == *old(pos) && final(viewshed).dirty == old(viewshed).dirty,
        final(viewshed).visible_tiles@ == old(viewshed).visible_tiles@,
        final(viewshed).range == old(viewshed).range,
{
    if path.len() > 1 {
        let next = path[1];
        proof {
            lemma_col_row(next as int);
        }
        pos.x = (next % MAP_WIDTH) as i32;
        pos.y = (next / MAP_WIDTH) as i32;
        viewshed.dirty = true;
    }
}

} // verus!
