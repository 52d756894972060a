use vstd::prelude::*;
use crate::components::EntityId;
use crate::constants::{MAP_HEIGHT, MAP_TOTAL_DIMENSION, MAP_WIDTH};
use crate::map::{GameMap, TileType, idx, in_bounds};

verus! {

broadcast use vstd::seq_lib::group_to_multiset_ensures;

/// An entity the renderer may draw, with the tile it stands on and its draw order.
#[derive(Clone, Copy, Debug, PartialEq, Eq, Structural)]
pub struct DrawEntry {
    pub entity: EntityId,
    pub x: i32,
    pub y: i32,
    pub render_order: i32,
}

/// The entry stands on a tile the player currently sees.
pub open spec fn entry_visible(m: &GameMap, e: DrawEntry) -> bool {
    in_bounds(e.x as int, e.y as int) && m.visible_tiles@[idx(e.x as int, e.y as int)]
}

/// The entries of `s` on tiles the player currently sees, in order.
pub open spec fn visible_entries(m: &GameMap, s: Seq<DrawEntry>) -> Seq<DrawEntry>
    decreases s.len(),
{
    if s.len() == 0 {
        Seq::empty()
    } else if entry_visible(m, s.last()) {
        visible_entries(m, s.drop_last()).push(s.last())
    } else {
        visible_entries(m, s.drop_last())
    }
}

/// Draw order never rises along `s`.
pub open spec fn by_order_descending(s: Seq<DrawEntry>) -> bool {
    forall|i: int, j: int| 0 <= i < j < s.len() ==> (#[trigger] s[i]).render_order >= (#[trigger] s[j]).render_order
}

/// The entities to draw this frame: those on tiles the player currently sees,
/// highest draw order first, so that the lowest (the player) is drawn last, on top.
/// Entries of equal draw order keep their relative order.
pub fn entities_to_draw(map: &GameMap, entries: &Vec<DrawEntry>) -> (r: Vec<DrawEntry>)
    requires
        map.wf(),
    ensures
        by_order_descending(r@),
        r@.to_multiset() == visible_entries(map, entries@).to_multiset(),
{
    let mut r: Vec<DrawEntry> = Vec::new();
    let mut k: usize = 0;
    while k < entries.len()
        invariant
            map.wf(),
            k <= entries@.len(),
            by_order_descending(r@),
            r@.to_multiset() == visible_entries(map, entries@.take(k as int)).to_multiset(),
        decreases entries@.len() - k,
    {
        let e = entries[k];
        proof {
            assert(entries@.take(k as int + 1).drop_last() =~= entries@.take(k as int));
            assert(entries@.take(0) =~= Seq::<DrawEntry>::empty());
        }
        if 0 <= e.x && e.x < MAP_WIDTH as i32 && 0 <= e.y && e.y < MAP_HEIGHT as i32 {
            let index = map.get_index_xy(e.x, e.y);
            if map.visible_tiles[index] {
                let mut p: usize = 0;
                while p < r.len() && r[p].render_order >= e.render_order
                    invariant
                        p <= r@.len(),
                        forall|j: int| 0 <= j < p ==> (#[trigger] r@[j]).render_order >= e.render_order,
                    decreases r@.len() - p,
                {
                    p = p + 1;
                }
                let ghost before = r@;
                proof {
                    vstd::seq_lib::to_multiset_insert(before, p as int, e);
                }
                r.insert(p, e);
                assert(r@ == before.insert(p as int, e));
                assert forall|i: int, j: int| 0 <= i < j < r@.len() implies (#[trigger] r@[i]).render_order
                    >= (#[trigger] r@[j]).render_order by {
                    if j < p {
                    } else if j == p {
                        assert(r@[i] == before[i]);
                    } else if i < p {
                        assert(r@[j] == before[j - 1]);
                    } else if i == p {
                        assert(r@[j] == before[j - 1]);
                        assert(before[p as int].render_order < e.render_order);
                        if j - 1 > p {
                            assert(before[p as int].render_order >= before[j - 1].render_order);
                        }
                    } else {
                        assert(r@[i] == before[i - 1] && r@[j] == before[j - 1]);
                    }
                }
            }
        }
        k = k + 1;
    }
    proof {
        assert(entries@.take(entries@.len() as int) =~= entries@);
    }
    r
}

impl GameMap {
    /// How tile `index` is drawn: not at all until revealed; then its kind, and
    /// whether it is in view now (else it is drawn greyed).
    pub fn tile_appearance(&self, index: usize) -> (r: Option<(TileType, bool)>)
        requires
            self.wf(),
            index < MAP_TOTAL_DIMENSION,
        ensures
            r == if self.revealed_tiles@[index as int] {
                Some((self.tiles@[index as int], self.visible_tiles@[index as int]))
            } else {
                None::<(TileType, bool)>
            },
    {
        if self.revealed_tiles[index] {
            Some((self.tiles[index], self.visible_tiles[index]))
        } else {
            None
        }
    }
}

} // verus!
