use vstd::prelude::*;
use crate::components::{Point, Position};
use crate::constants::{MAP_HEIGHT, MAP_TOTAL_DIMENSION, MAP_WIDTH};
use crate::map::{GameMap, idx, in_bounds};

verus! {

/// What an entity sees: the tiles in sight, how far it sees, and whether its
/// position changed since the tiles were computed.
pub struct Viewshed {
    pub visible_tiles: Vec<Point>,
    pub range: i32,
    pub dirty: bool,
}

/// `p` lies on the grid within Euclidean distance `range` of `origin`.
pub open spec fn in_sight(p: Point, origin: Position, range: int) -> bool {
    let dx = p.x - origin.x;
    let dy = p.y - origin.y;
    in_bounds(p.x as int, p.y as int) && dx * dx + dy * dy <= range * range
}

/// The points of `s` that lie on the grid within `range` of `origin`, in order.
pub open spec fn in_sight_of(s: Seq<Point>, origin: Position, range: int) -> Seq<Point>
    decreases s.len(),
{
    if s.len() == 0 {
        Seq::empty()
    } else {
        let before = in_sight_of(s.drop_last(), origin, range);
        if in_sight(s.last(), origin, range) {
            before.push(s.last())
        } else {
            before
        }
    }
}

proof fn lemma_in_sight_of(s: Seq<Point>, origin: Position, range: int)
    ensures
        forall|k: int|
            0 <= k < in_sight_of(s, origin, range).len() ==> in_sight(#[trigger] in_sight_of(s, origin, range)[k], origin, range),
    decreases s.len(),
{
    if s.len() > 0 {
        let t = in_sight_of(s.drop_last(), origin, range);
        lemma_in_sight_of(s.drop_last(), origin, range);
        let r = in_sight_of(s, origin, range);
        assert forall|k: int| 0 <= k < r.len() implies in_sight(#[trigger] r[k], origin, range) by {
            if k < t.len() {
                assert(r[k] == t[k]);
            }
        }
    }
}

/// Some point of `s` on the grid has index `i`.
pub open spec fn seen_at(s: Seq<Point>, i: int) -> bool
    decreases s.len(),
{
    if s.len() == 0 {
        false
    } else {
        seen_at(s.drop_last(), i) || (in_bounds(s.last().x as int, s.last().y as int) && idx(
            s.last().x as int,
            s.last().y as int,
        ) == i)
    }
}

/// `pos` is one of the points of `s`.
pub open spec fn sees(s: Seq<Point>, pos: Position) -> bool {
    exists|k: int| 0 <= k < s.len() && s[k].x == pos.x && s[k].y == pos.y
}

proof fn lemma_in_sight_of_keeps(s: Seq<Point>, origin: Position, range: int, p: Point)
    requires
        s.contains(p),
        in_sight(p, origin, range),
    ensures
        in_sight_of(s, origin, range).contains(p),
    decreases s.len(),
{
    let t = in_sight_of(s.drop_last(), origin, range);
    if s.last() == p {
        assert(in_sight_of(s, origin, range).last() == p);
    } else {
        let j = choose|j: int| 0 <= j < s.len() && s[j] == p;
        assert(s.drop_last()[j] == p);
        lemma_in_sight_of_keeps(s.drop_last(), origin, range, p);
        let k = choose|k: int| 0 <= k < t.len() && t[k] == p;
        if in_sight(s.last(), origin, range) {
            assert(in_sight_of(s, origin, range)[k] == p);
        }
    }
}

/// The points of `points` that lie on the grid within `range` of `origin`, in order.
pub fn clip_to_sight(points: &Vec<Point>, origin: &Position, range: i32) -> (r: Vec<Point>)
    ensures
        r@ == in_sight_of(points@, *origin, range as int),
{
    let mut r: Vec<Point> = Vec::new();
    let mut k: usize = 0;
    while k < points.len()
        invariant
            k <= points@.len(),
            r@ == in_sight_of(points@.take(k as int), *origin, range as int),
        decreases points@.len() - k,
    {
        let p = points[k];
        proof {
            assert(points@.take(k as int + 1).drop_last() =~= points@.take(k as int));
            assert(points@.take(0) =~= Seq::<Point>::empty());
        }
        let dx: i128 = p.x as i128 - origin.x as i128;
        let dy: i128 = p.y as i128 - origin.y as i128;
        let reach: i128 = range as i128;
        assert(dx * dx <= 0x1_0000_0000 * 0x1_0000_0000) by (nonlinear_arith)
            requires -0x1_0000_0000 <= dx <= 0x1_0000_0000;
        assert(dy * dy <= 0x1_0000_0000 * 0x1_0000_0000) by (nonlinear_arith)
            requires -0x1_0000_0000 <= dy <= 0x1_0000_0000;
        assert(reach * reach <= 0x1_0000_0000 * 0x1_0000_0000) by (nonlinear_arith)
            requires -0x1_0000_0000 <= reach <= 0x1_0000_0000;
        assert(0 <= dx * dx && 0 <= dy * dy && 0 <= reach * reach) by (nonlinear_arith);
        if 0 <= p.x && p.x < MAP_WIDTH as i32 && 0 <= p.y && p.y < MAP_HEIGHT as i32 && dx * dx + dy * dy
            <= reach * reach {
            r.push(p);
        }
        k = k + 1;
    }
    proof {
        assert(points@.take(points@.len() as int) =~= points@);
    }
    r
}

impl Viewshed {
    /// A viewshed of the given range that sees nothing yet and asks to be computed.
    pub fn new(range: i32) -> (v: Viewshed)
        ensures
            v.visible_tiles@.len() == 0,
            v.range == range,
            v.dirty,
    {
        Viewshed { visible_tiles: Vec::new(), range, dirty: true }
    }

    /// Stores a fresh field of view computed from `origin`, keeping only the tiles on
    /// the grid within the sight range, and clears the dirty flag.
    pub fn refresh(&mut self, origin: &Position, field_of_view: &Vec<Point>)
        ensures
            final(self).visible_tiles@ == in_sight_of(field_of_view@, *origin, old(self).range as int),
            forall|k: int|
                0 <= k < final(self).visible_tiles@.len() ==> in_sight(
                    #[trigger] final(self).visible_tiles@[k],
                    *origin,
                    old(self).range as int,
                ),
            field_of_view@.contains(Point { x: origin.x, y: origin.y }) && in_bounds(origin.x as int, origin.y as int)
                && old(self).range >= 0 ==> final(self).visible_tiles@.contains(Point { x: origin.x, y: origin.y }),
            final(self).range == old(self).range,
            !final(self).dirty,
    {
        self.visible_tiles = clip_to_sight(field_of_view, origin, self.range);
        proof {
            lemma_in_sight_of(field_of_view@, *origin, self.range as int);
            let p = Point { x: origin.x, y: origin.y };
            if field_of_view@.contains(p) && in_bounds(origin.x as int, origin.y as int) && self.range >= 0 {
                assert(self.range * self.range >= 0) by (nonlinear_arith);
                lemma_in_sight_of_keeps(field_of_view@, *origin, self.range as int, p);
            }
        }
        self.dirty = false;
    }

    /// The position is among the tiles in sight.
    pub fn can_see(&self, pos: &Position) -> (r: bool)
        ensures
            r == sees(self.visible_tiles@, *pos),
    {
        let mut k: usize = 0;
        while k < self.visible_tiles.len()
            invariant
                k <= self.visible_tiles@.len(),
                forall|j: int|
                    0 <= j < k ==> !((#[trigger] self.visible_tiles@[j]).x == pos.x && self.visible_tiles@[j].y
                        == pos.y),
            decreases self.visible_tiles@.len() - k,
        {
            if self.visible_tiles[k].x == pos.x && self.visible_tiles[k].y == pos.y {
                return true;
            }
            k = k + 1;
        }
        false
    }
}

impl GameMap {
    /// `self` is `before` with the player's view set to `points`: exactly the tiles
    /// of `points` on the grid are visible, those are revealed too, and what was
    /// revealed stays revealed.
    pub open spec fn shows_view_of(&self, before: &GameMap, points: Seq<Point>) -> bool {
        &&& self.wf()
        &&& self.tiles@ == before.tiles@
        &&& self.rooms@ == before.rooms@
        &&& self.blocked@ == before.blocked@
        &&& self.tile_content@ == before.tile_content@
        &&& forall|i: int| 0 <= i < MAP_TOTAL_DIMENSION ==> #[trigger] self.visible_tiles@[i] == seen_at(points, i)
        &&& forall|i: int|
            0 <= i < MAP_TOTAL_DIMENSION ==> #[trigger] self.revealed_tiles@[i] == (before.revealed_tiles@[i]
                || seen_at(points, i))
        &&& forall|i: int|
            0 <= i < MAP_TOTAL_DIMENSION && #[trigger] self.visible_tiles@[i] ==> self.revealed_tiles@[i]
        &&& forall|i: int|
            0 <= i < MAP_TOTAL_DIMENSION && #[trigger] before.revealed_tiles@[i] ==> self.revealed_tiles@[i]
    }

    /// The player's view: clears every visible flag, then marks each tile of `points`
    /// that lies on the grid both visible and revealed.
    pub fn reveal_visible(&mut self, points: &Vec<Point>)
        requires
            old(self).wf(),
        ensures
            final(self).shows_view_of(old(self), points@),
    {
        let ghost before = *self;
        let mut i: usize = 0;
        while i < self.visible_tiles.len()
            invariant
                self.wf(),
                i <= MAP_TOTAL_DIMENSION,
                self.tiles@ == before.tiles@,
                self.rooms@ == before.rooms@,
                self.blocked@ == before.blocked@,
                self.tile_content@ == before.tile_content@,
                self.revealed_tiles@ == before.revealed_tiles@,
                forall|j: int| 0 <= j < i ==> !#[trigger] self.visible_tiles@[j],
            decreases MAP_TOTAL_DIMENSION - i,
        {
            self.visible_tiles.set(i, false);
            i = i + 1;
        }
        let mut k: usize = 0;
        while k < points.len()
            invariant
                self.wf(),
                k <= points@.len(),
                self.tiles@ == before.tiles@,
                self.rooms@ == before.rooms@,
                self.blocked@ == before.blocked@,
                self.tile_content@ == before.tile_content@,
                forall|j: int|
                    0 <= j < MAP_TOTAL_DIMENSION ==> #[trigger] self.visible_tiles@[j] == seen_at(points@.take(k as int), j),
                forall|j: int|
                    0 <= j < MAP_TOTAL_DIMENSION ==> #[trigger] self.revealed_tiles@[j] == (before.revealed_tiles@[j]
                        || seen_at(points@.take(k as int), j)),
            decreases points@.len() - k,
        {
            let p = points[k];
            proof {
                assert(points@.take(k as int + 1).drop_last() =~= points@.take(k as int));
                assert(points@.take(0) =~= Seq::<Point>::empty());
            }
            if 0 <= p.x && p.x < self.width && 0 <= p.y && p.y < self.height {
                let index = self.get_index_xy(p.x, p.y);
                self.revealed_tiles.set(index, true);
                self.visible_tiles.set(index, true);
            }
            k = k + 1;
        }
        proof {
            assert(points@.take(points@.len() as int) =~= points@);
        }
    }
}

/// One entity's share of the visibility pass. A viewshed that is not dirty is left
/// alone, and `field_of_view` is ignored. A dirty one takes the fresh field of view
/// computed from `origin`; when the entity is the player, the map then shows it.
/// Other entities' views never touch the map.
pub fn update_viewshed(
    viewshed: &mut Viewshed,
    origin: &Position,
    field_of_view: &Vec<Point>,
    is_player: bool,
    map: &mut GameMap,
)
    requires
        old(map).wf(),
    ensures
        !old(viewshed).dirty ==> *final(viewshed) == *old(viewshed) && *final(map) == *old(map),
        old(viewshed).dirty ==> {
            &&& final(viewshed).visible_tiles@ == in_sight_of(field_of_view@, *origin, old(viewshed).range as int)
            &&& final(viewshed).range == old(viewshed).range
            &&& !final(viewshed).dirty
            &&& if is_player {
                final(map).shows_view_of(old(map), final(viewshed).visible_tiles@)
            } else {
                *final(map) == *old(map)
            }
        },
{
    if viewshed.dirty {
        viewshed.refresh(origin, field_of_view);
        if is_player {
            map.reveal_visible(&viewshed.visible_tiles);
        }
    }
}

} // verus!
