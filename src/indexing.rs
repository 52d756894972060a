use vstd::prelude::*;
use crate::components::EntityId;
use crate::constants::MAP_TOTAL_DIMENSION;
use crate::map::{GameMap, TileType, idx, in_bounds};

verus! {

/// An entity with a position, as the indexing pass sees it.
#[derive(Clone, Copy, Debug, PartialEq, Eq, Structural)]
pub struct Occupant {
    pub entity: EntityId,
    pub x: i32,
    pub y: i32,
    /// The entity carries the tile-blocking marker.
    pub blocks: bool,
}

/// The grid index an occupant stands on, or -1 when it stands off the grid.
pub open spec fn occupant_index(o: Occupant) -> int {
    if in_bounds(o.x as int, o.y as int) {
        idx(o.x as int, o.y as int)
    } else {
        -1
    }
}

/// The entities of `occ` that stand on index `i`, in the order of `occ`.
pub open spec fn entities_at(occ: Seq<Occupant>, i: int) -> Seq<EntityId>
    decreases occ.len(),
{
    if occ.len() == 0 {
        Seq::empty()
    } else {
        let before = entities_at(occ.drop_last(), i);
        if occupant_index(occ.last()) == i {
            before.push(occ.last().entity)
        } else {
            before
        }
    }
}

/// Some blocking entity of `occ` stands on index `i`.
pub open spec fn blocker_at(occ: Seq<Occupant>, i: int) -> bool
    decreases occ.len(),
{
    if occ.len() == 0 {
        false
    } else {
        blocker_at(occ.drop_last(), i) || (occ.last().blocks && occupant_index(occ.last()) == i)
    }
}

impl GameMap {
    /// The blocked flags and occupant lists are those that `occ` gives over the tiles
    /// of `self`; the rest of `self` is that of `before`.
    pub open spec fn indexed_from(&self, before: &GameMap, occ: Seq<Occupant>) -> bool {
        &&& self.wf()
        &&& self.tiles@ == before.tiles@
        &&& self.rooms@ == before.rooms@
        &&& self.revealed_tiles@ == before.revealed_tiles@
        &&& self.visible_tiles@ == before.visible_tiles@
        &&& forall|i: int|
            0 <= i < MAP_TOTAL_DIMENSION ==> #[trigger] self.blocked@[i] == (self.tiles@[i] == TileType::Wall
                || blocker_at(occ, i))
        &&& forall|i: int| 0 <= i < MAP_TOTAL_DIMENSION ==> #[trigger] self.tile_content@[i]@ == entities_at(occ, i)
    }

    /// Sets each tile's blocked flag to whether it is wall.
    pub fn populate_blocked(&mut self)
        requires
            old(self).wf(),
        ensures
            final(self).wf(),
            final(self).tiles@ == old(self).tiles@,
            final(self).rooms@ == old(self).rooms@,
            final(self).revealed_tiles@ == old(self).revealed_tiles@,
            final(self).visible_tiles@ == old(self).visible_tiles@,
            final(self).tile_content@ == old(self).tile_content@,
            forall|i: int|
                0 <= i < MAP_TOTAL_DIMENSION ==> #[trigger] final(self).blocked@[i] == (final(self).tiles@[i]
                    == TileType::Wall),
    {
        let ghost before = *self;
        let mut i: usize = 0;
        while i < self.tiles.len()
            invariant
                self.wf(),
                i <= MAP_TOTAL_DIMENSION,
                self.tiles@ == before.tiles@,
                self.rooms@ == before.rooms@,
                self.revealed_tiles@ == before.revealed_tiles@,
                self.visible_tiles@ == before.visible_tiles@,
                self.tile_content@ == before.tile_content@,
                forall|j: int| 0 <= j < i ==> #[trigger] self.blocked@[j] == (self.tiles@[j] == TileType::Wall),
            decreases MAP_TOTAL_DIMENSION - i,
        {
            let wall = self.tiles[i] == TileType::Wall;
            self.blocked.set(i, wall);
            i = i + 1;
        }
    }

    /// Empties every tile's occupant list.
    pub fn clear_content_index(&mut self)
        requires
            old(self).wf(),
        ensures
            final(self).wf(),
            final(self).tiles@ == old(self).tiles@,
            final(self).rooms@ == old(self).rooms@,
            final(self).revealed_tiles@ == old(self).revealed_tiles@,
            final(self).visible_tiles@ == old(self).visible_tiles@,
            final(self).blocked@ == old(self).blocked@,
            forall|i: int| 0 <= i < MAP_TOTAL_DIMENSION ==> (#[trigger] final(self).tile_content@[i])@.len() == 0,
    {
        let ghost before = *self;
        let mut i: usize = 0;
        while i < self.tile_content.len()
            invariant
                self.wf(),
                i <= MAP_TOTAL_DIMENSION,
                self.tiles@ == before.tiles@,
                self.rooms@ == before.rooms@,
                self.revealed_tiles@ == before.revealed_tiles@,
                self.visible_tiles@ == before.visible_tiles@,
                self.blocked@ == before.blocked@,
                forall|j: int| 0 <= j < i ==> (#[trigger] self.tile_content@[j])@.len() == 0,
            decreases MAP_TOTAL_DIMENSION - i,
        {
            self.tile_content[i].clear();
            i = i + 1;
        }
    }

    /// The indexing pass: rebuilds the blocked flags and the occupant lists from the
    /// current positions. A tile is blocked when it is wall or a blocking entity stands
    /// on it; each tile lists the entities on it in the order given. Entities off the
    /// grid are left out.
    pub fn index_entities(&mut self, occupants: &Vec<Occupant>)
        requires
            old(self).wf(),
        ensures
            final(self).indexed_from(old(self), occupants@),
    {
        let ghost before = *self;
        self.populate_blocked();
        self.clear_content_index();
        let mut k: usize = 0;
        while k < occupants.len()
            invariant
                k <= occupants@.len(),
                self.wf(),
                self.tiles@ == before.tiles@,
                self.rooms@ == before.rooms@,
                self.revealed_tiles@ == before.revealed_tiles@,
                self.visible_tiles@ == before.visible_tiles@,
                forall|i: int|
                    0 <= i < MAP_TOTAL_DIMENSION ==> #[trigger] self.blocked@[i] == (self.tiles@[i] == TileType::Wall
                        || blocker_at(occupants@.take(k as int), i)),
                forall|i: int|
                    0 <= i < MAP_TOTAL_DIMENSION ==> #[trigger] self.tile_content@[i]@ == entities_at(
                        occupants@.take(k as int),
                        i,
                    ),
            decreases occupants@.len() - k,
        {
            let o = occupants[k];
            let ghost prev = *self;
            proof {
                assert(occupants@.take(k as int + 1).drop_last() =~= occupants@.take(k as int));
                assert(occupants@.take(k as int + 1).last() == o);
                assert(occupants@.take(0) =~= Seq::<Occupant>::empty());
            }
            if 0 <= o.x && o.x < self.width && 0 <= o.y && o.y < self.height {
                let index = self.get_index_xy(o.x, o.y);
                if o.blocks {
                    self.blocked.set(index, true);
                }
                self.tile_content[index].push(o.entity);
                assert forall|i: int| 0 <= i < MAP_TOTAL_DIMENSION implies #[trigger] self.tile_content@[i]@
                    == entities_at(occupants@.take(k as int + 1), i) by {
                    if i != index as int {
                        assert(self.tile_content@[i] == prev.tile_content@[i]);
                    }
                }
            }
            k = k + 1;
        }
        proof {
            assert(occupants@.take(occupants@.len() as int) =~= occupants@);
        }
    }
}

/// Indexing twice in a row over the same occupants gives the same blocked flags and
/// occupant lists as indexing once.
pub proof fn lemma_indexing_idempotent(m0: &GameMap, m1: &GameMap, m2: &GameMap, occ: Seq<Occupant>)
    requires
        m1.indexed_from(m0, occ),
        m2.indexed_from(m1, occ),
    ensures
        m2.blocked@ == m1.blocked@,
        m2.content_view() == m1.content_view(),
{
    assert(m2.blocked@ =~= m1.blocked@);
    assert(m2.content_view() =~= m1.content_view());
}

} // verus!
