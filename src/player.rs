use vstd::prelude::*;
use crate::components::{EntityId, Position};
use crate::map::{GameMap, idx};
use crate::visibility::Viewshed;

verus! {

/// The last entity of `content` that is among `fighters`.
pub open spec fn last_fighter(content: Seq<EntityId>, fighters: Seq<EntityId>) -> Option<EntityId>
    decreases content.len(),
{
    if content.len() == 0 {
        None
    } else if fighters.contains(content.last()) {
        Some(content.last())
    } else {
        last_fighter(content.drop_last(), fighters)
    }
}

/// The last item of `items` that lies at `pos`.
pub open spec fn last_item_at(items: Seq<(EntityId, Position)>, pos: Position) -> Option<EntityId>
    decreases items.len(),
{
    if items.len() == 0 {
        None
    } else if items.last().1 == pos {
        Some(items.last().0)
    } else {
        last_item_at(items.drop_last(), pos)
    }
}

/// A move to (x, y) stays on the grid.
pub open spec fn move_in_bounds(x: int, y: int) -> bool {
    0 <= x <= crate::constants::COORDINATE_X && 0 <= y <= crate::constants::COORDINATE_Y
}

fn is_fighter(e: EntityId, fighters: &Vec<EntityId>) -> (r: bool)
    ensures
        r == fighters@.contains(e),
{
    let mut k: usize = 0;
    while k < fighters.len()
        invariant
            k <= fighters@.len(),
            forall|j: int| 0 <= j < k ==> fighters@[j] != e,
        decreases fighters@.len() - k,
    {
        if fighters[k] == e {
            assert(fighters@[k as int] == e);
            return true;
        }
        k = k + 1;
    }
    false
}

/// The player's move by (`delta_x`, `delta_y`). A destination off the grid is refused
/// and nothing happens. Otherwise the last entity with
/// combat stats on the destination becomes the melee target, returned, and when the
/// destination is not blocked the player moves there and its view is marked for
/// recomputation.
pub fn try_move_player(
    delta_x: i32,
    delta_y: i32,
    pos: &mut Position,
    viewshed: &mut Viewshed,
    map: &GameMap,
    fighters: &Vec<EntityId>,
) -> (r: Option<EntityId>)
    requires
        map.wf(),
    ensures
        ({
            let nx = old(pos).x + delta_x;
            let ny = old(pos).y + delta_y;
            if !move_in_bounds(nx, ny) {
                r == None::<EntityId> && *final(pos) == *old(pos) && final(viewshed).dirty == old(viewshed).dirty
            } else {
                &&& r == last_fighter(map.tile_content@[idx(nx, ny)]@, fighters@)
                &&& if map.blocked@[idx(nx, ny)] {
                    *final(pos) == *old(pos) && final(viewshed).dirty == old(viewshed).dirty
                } else {
                    *final(pos) == (Position { x: nx as i32, y: ny as i32 }) && final(viewshed).dirty
                }
            }
        }),
        final(viewshed).visible_tiles@ == old(viewshed).visible_tiles@,
        final(viewshed).range == old(viewshed).range,
{
    let nx: i64 = pos.x as i64 + delta_x as i64;
    let ny: i64 = pos.y as i64 + delta_y as i64;
    if nx < 0 || nx > (map.width - 1) as i64 || ny < 0 || ny > (map.height - 1) as i64 {
        return None;
    }
    let destination_index = map.get_index_xy(nx as i32, ny as i32);
    let content = &map.tile_content[destination_index];
    let mut target: Option<EntityId> = None;
    let mut k: usize = 0;
    while k < content.len()
        invariant
            k <= content@.len(),
            target == last_fighter(content@.take(k as int), fighters@),
        decreases content@.len() - k,
    {
        proof {
            assert(content@.take(k as int + 1).drop_last() =~= content@.take(k as int));
            assert(content@.take(0) =~= Seq::<EntityId>::empty());
        }
        if is_fighter(content[k], fighters) {
            target = Some(content[k]);
        }
        k = k + 1;
    }
    proof {
        assert(content@.take(content@.len() as int) =~= content@);
    }
    if !map.blocked[destination_index] {
        pos.x = nx as i32;
        pos.y = ny as i32;
        viewshed.dirty = true;
    }
    target
}

/// The item to pick up: the last of `items` lying on the player's tile, if any.
pub fn get_item(items: &Vec<(EntityId, Position)>, player_pos: &Position) -> (r: Option<EntityId>)
    ensures
        r == last_item_at(items@, *player_pos),
{
    let mut found: Option<EntityId> = None;
    let mut k: usize = 0;
    while k < items.len()
        invariant
            k <= items@.len(),
            found == last_item_at(items@.take(k as int), *player_pos),
        decreases items@.len() - k,
    {
        proof {
            assert(items@.take(k as int + 1).drop_last() =~= items@.take(k as int));
            assert(items@.take(0) =~= Seq::<(EntityId, Position)>::empty());
        }
        let (item, position) = items[k];
        if position.x == player_pos.x && position.y == player_pos.y {
            found = Some(item);
        }
        k = k + 1;
    }
    proof {
        assert(items@.take(items@.len() as int) =~= items@);
    }
    found
}

} // verus!
