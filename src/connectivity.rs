use vstd::prelude::*;
use crate::constants::{MAP_HEIGHT, MAP_TOTAL_DIMENSION, MAP_WIDTH};
use crate::map::{GameMap, TileType, idx, in_bounds, interior_index, lemma_idx, on_h_tunnel, on_v_tunnel, room_fits};

verus! {

/// The two tiles share a side.
pub open spec fn adjacent(a: (int, int), b: (int, int)) -> bool {
    (a.0 == b.0 && (a.1 - b.1 == 1 || b.1 - a.1 == 1)) || (a.1 == b.1 && (a.0 - b.0 == 1 || b.0 - a.0 == 1))
}

impl GameMap {
    /// `w` is a walk over floor tiles, each step to a tile that shares a side.
    pub open spec fn is_walk(&self, w: Seq<(int, int)>) -> bool {
        &&& w.len() > 0
        &&& forall|k: int| 0 <= k < w.len() ==> self.floor_at((#[trigger] w[k]).0, w[k].1)
        &&& forall|k: int| 0 <= k < w.len() - 1 ==> adjacent(#[trigger] w[k], w[k + 1])
    }

    /// Some walk over floor leads from `a` to `b`.
    pub open spec fn reachable(&self, a: (int, int), b: (int, int)) -> bool {
        exists|w: Seq<(int, int)>| self.is_walk(w) && w[0] == a && w.last() == b
    }
}

/// The center of a room as a pair of integers.
pub open spec fn center_of(m: &GameMap, k: int) -> (int, int) {
    (m.rooms@[k].spec_center().0 as int, m.rooms@[k].spec_center().1 as int)
}

proof fn lemma_reachable_trans(m: &GameMap, a: (int, int), b: (int, int), c: (int, int))
    requires
        m.reachable(a, b),
        m.reachable(b, c),
    ensures
        m.reachable(a, c),
{
    let w1 = choose|w: Seq<(int, int)>| m.is_walk(w) && w[0] == a && w.last() == b;
    let w2 = choose|w: Seq<(int, int)>| m.is_walk(w) && w[0] == b && w.last() == c;
    let w = w1 + w2.subrange(1, w2.len() as int);
    assert forall|k: int| 0 <= k < w.len() implies m.floor_at((#[trigger] w[k]).0, w[k].1) by {
        if k < w1.len() {
            assert(w[k] == w1[k]);
        } else {
            assert(w[k] == w2[k - w1.len() + 1]);
        }
    }
    assert forall|k: int| 0 <= k < w.len() - 1 implies adjacent(#[trigger] w[k], w[k + 1]) by {
        if k < w1.len() - 1 {
            assert(w[k] == w1[k] && w[k + 1] == w1[k + 1]);
        } else if k == w1.len() - 1 {
            assert(w[k] == w2[0] && w[k + 1] == w2[1]);
        } else {
            assert(w[k] == w2[k - w1.len() + 1] && w[k + 1] == w2[k - w1.len() + 2]);
        }
    }
    assert(w.last() == c);
    assert(m.is_walk(w) && w[0] == a);
}

/// A run along a row whose tiles are all floor is walkable end to end.
proof fn lemma_row_run(m: &GameMap, x1: int, x2: int, y: int)
    requires
        m.wf(),
        in_bounds(x1, y),
        in_bounds(x2, y),
        forall|i: int| 0 <= i < MAP_TOTAL_DIMENSION && on_h_tunnel(x1, x2, y, i) ==> #[trigger] m.tiles@[i] == TileType::Floor,
    ensures
        m.reachable((x1, y), (x2, y)),
{
    let step: int = if x1 <= x2 { 1 } else { -1 };
    let n: int = if x1 <= x2 { x2 - x1 + 1 } else { x1 - x2 + 1 };
    let w = Seq::new(n as nat, |k: int| (x1 + step * k, y));
    assert forall|k: int| 0 <= k < w.len() implies m.floor_at((#[trigger] w[k]).0, w[k].1) by {
        lemma_idx(x1 + step * k, y);
        assert(on_h_tunnel(x1, x2, y, idx(x1 + step * k, y)));
    }
    assert forall|k: int| 0 <= k < w.len() - 1 implies adjacent(#[trigger] w[k], w[k + 1]) by {
    }
    assert(w.last() == (x2, y));
    assert(m.is_walk(w) && w[0] == (x1, y));
}

/// A run along a column whose tiles are all floor is walkable end to end.
proof fn lemma_column_run(m: &GameMap, y1: int, y2: int, x: int)
    requires
        m.wf(),
        in_bounds(x, y1),
        in_bounds(x, y2),
        forall|i: int| 0 <= i < MAP_TOTAL_DIMENSION && on_v_tunnel(y1, y2, x, i) ==> #[trigger] m.tiles@[i] == TileType::Floor,
    ensures
        m.reachable((x, y1), (x, y2)),
{
    let step: int = if y1 <= y2 { 1 } else { -1 };
    let n: int = if y1 <= y2 { y2 - y1 + 1 } else { y1 - y2 + 1 };
    let w = Seq::new(n as nat, |k: int| (x, y1 + step * k));
    assert forall|k: int| 0 <= k < w.len() implies m.floor_at((#[trigger] w[k]).0, w[k].1) by {
        lemma_idx(x, y1 + step * k);
        assert(on_v_tunnel(y1, y2, x, idx(x, y1 + step * k)));
    }
    assert forall|k: int| 0 <= k < w.len() - 1 implies adjacent(#[trigger] w[k], w[k + 1]) by {
    }
    assert(w.last() == (x, y2));
    assert(m.is_walk(w) && w[0] == (x, y1));
}

proof fn lemma_corridor_reachable(m: &GameMap, a: (i32, i32), b: (i32, i32))
    requires
        m.wf(),
        in_bounds(a.0 as int, a.1 as int),
        in_bounds(b.0 as int, b.1 as int),
        m.connected_by_corridor(a, b),
    ensures
        m.reachable((a.0 as int, a.1 as int), (b.0 as int, b.1 as int)),
{
    let (ax, ay, bx, by) = (a.0 as int, a.1 as int, b.0 as int, b.1 as int);
    if m.corridor_carved(a, b, true) {
        lemma_row_run(m, ax, bx, ay);
        lemma_column_run(m, ay, by, bx);
        lemma_reachable_trans(m, (ax, ay), (bx, ay), (bx, by));
    } else {
        lemma_column_run(m, ay, by, ax);
        lemma_row_run(m, ax, bx, by);
        lemma_reachable_trans(m, (ax, ay), (ax, by), (bx, by));
    }
}

proof fn lemma_center_in_bounds(m: &GameMap, k: int)
    requires
        0 <= k < m.rooms@.len(),
        room_fits(m.rooms@[k]),
    ensures
        in_bounds(center_of(m, k).0, center_of(m, k).1),
        m.rooms@[k].spec_contains_floor(center_of(m, k).0, center_of(m, k).1),
{
}

/// On a generated map every room's center can be walked to from the first room's
/// center over floor tiles: each room is joined to the one accepted before it, so
/// the rooms form a chain.
pub proof fn lemma_rooms_connected(m: &GameMap)
    requires
        m.generated(),
    ensures
        forall|k: int| 0 <= k < m.rooms@.len() ==> m.reachable(center_of(m, 0), #[trigger] center_of(m, k)),
{
    assert forall|k: int| 0 <= k < m.rooms@.len() implies m.reachable(center_of(m, 0), #[trigger] center_of(m, k)) by {
        lemma_chain(m, k);
    }
}

proof fn lemma_chain(m: &GameMap, k: int)
    requires
        m.generated(),
        0 <= k < m.rooms@.len(),
    ensures
        m.reachable(center_of(m, 0), center_of(m, k)),
    decreases k,
{
    lemma_center_in_bounds(m, k);
    if k == 0 {
        let c = center_of(m, 0);
        lemma_idx(c.0, c.1);
        assert(m.rooms@[0].spec_contains_floor(crate::map::col(idx(c.0, c.1)), crate::map::row(idx(c.0, c.1))));
        let w = seq![c];
        assert(m.is_walk(w));
        assert(w.last() == c);
    } else {
        lemma_chain(m, k - 1);
        lemma_center_in_bounds(m, k - 1);
        assert(m.connected_by_corridor(m.rooms@[k - 1].spec_center(), m.rooms@[k].spec_center()));
        lemma_corridor_reachable(m, m.rooms@[k - 1].spec_center(), m.rooms@[k].spec_center());
        lemma_reachable_trans(m, center_of(m, 0), center_of(m, k - 1), center_of(m, k));
    }
}

/// No tile on the outermost ring of a generated map is floor.
pub proof fn lemma_border_is_wall(m: &GameMap)
    requires
        m.generated(),
    ensures
        forall|x: int, y: int|
            in_bounds(x, y) && (x == 0 || y == 0 || x == MAP_WIDTH - 1 || y == MAP_HEIGHT - 1) ==> m.tiles@[#[trigger] idx(x, y)]
                == TileType::Wall,
{
    assert forall|x: int, y: int|
        in_bounds(x, y) && (x == 0 || y == 0 || x == MAP_WIDTH - 1 || y == MAP_HEIGHT - 1) implies m.tiles@[#[trigger] idx(x, y)]
        == TileType::Wall by {
        lemma_idx(x, y);
        if m.tiles@[idx(x, y)] == TileType::Floor {
            assert(interior_index(idx(x, y)));
        }
    }
}

} // verus!
