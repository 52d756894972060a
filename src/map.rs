use vstd::prelude::*;
use rltk::RandomNumberGenerator;
use crate::components::EntityId;
use crate::constants::{MAP_HEIGHT, MAP_TOTAL_DIMENSION, MAP_WIDTH, MAX_ROOMS, MAX_SIZE_ROOM, MIN_SIZE_ROOM};
use crate::rect::Rect;
use crate::rng::{new_rng, rng_range, rng_roll_dice};

verus! {

#[derive(Clone, Copy, Debug, PartialEq, Eq, Structural)]
pub enum TileType {
    Wall,
    Floor,
}

/// The grid, its generated rooms, and the per-tile grids kept beside it.
pub struct GameMap {
    pub tiles: Vec<TileType>,
    pub rooms: Vec<Rect>,
    pub width: i32,
    pub height: i32,
    pub revealed_tiles: Vec<bool>,
    pub visible_tiles: Vec<bool>,
    pub blocked: Vec<bool>,
    pub tile_content: Vec<Vec<EntityId>>,
}

/// (x, y) lies on the grid.
pub open spec fn in_bounds(x: int, y: int) -> bool {
    0 <= x < MAP_WIDTH as int && 0 <= y < MAP_HEIGHT as int
}

/// The index of tile (x, y) in the row-major grids.
pub open spec fn idx(x: int, y: int) -> int {
    y * MAP_WIDTH as int + x
}

/// Column of index `i`.
pub open spec fn col(i: int) -> int {
    i % MAP_WIDTH as int
}

/// Row of index `i`.
pub open spec fn row(i: int) -> int {
    i / MAP_WIDTH as int
}

/// Index `i` lies off the outermost ring of the grid.
pub open spec fn interior_index(i: int) -> bool {
    1 <= col(i) <= MAP_WIDTH as int - 2 && 1 <= row(i) <= MAP_HEIGHT as int - 2
}

/// Index and coordinates agree for every tile on the grid.
pub proof fn lemma_idx(x: int, y: int)
    requires
        in_bounds(x, y),
    ensures
        0 <= idx(x, y) < MAP_TOTAL_DIMENSION as int,
        col(idx(x, y)) == x,
        row(idx(x, y)) == y,
{
}

/// Every index on the grid is the index of its own column and row.
pub proof fn lemma_col_row(i: int)
    requires
        0 <= i < MAP_TOTAL_DIMENSION as int,
    ensures
        in_bounds(col(i), row(i)),
        idx(col(i), row(i)) == i,
{
}

/// A room whose floor and walls lie on the grid, with floor off the outermost ring.
pub open spec fn room_fits(r: Rect) -> bool {
    0 <= r.x1 && r.x1 + 2 <= r.x2 <= MAP_WIDTH as int - 2 && 0 <= r.y1 && r.y1 + 2 <= r.y2
        <= MAP_HEIGHT as int - 2
}

/// The corridor from `a` to `b` that runs along row `a.1` first, then along column `b.0`.
pub open spec fn on_h_first_corridor(a: (i32, i32), b: (i32, i32), i: int) -> bool {
    on_h_tunnel(a.0 as int, b.0 as int, a.1 as int, i) || on_v_tunnel(a.1 as int, b.1 as int, b.0 as int, i)
}

/// The corridor from `a` to `b` that runs along column `a.0` first, then along row `b.1`.
pub open spec fn on_v_first_corridor(a: (i32, i32), b: (i32, i32), i: int) -> bool {
    on_v_tunnel(a.1 as int, b.1 as int, a.0 as int, i) || on_h_tunnel(a.0 as int, b.0 as int, b.1 as int, i)
}

/// Index `i` lies on the corridor from `a` to `b` that `h_first` picks.
pub open spec fn on_corridor(a: (i32, i32), b: (i32, i32), h_first: bool, i: int) -> bool {
    if h_first {
        on_h_first_corridor(a, b, i)
    } else {
        on_v_first_corridor(a, b, i)
    }
}

/// Both sides of `r` were drawn from `MIN_SIZE_ROOM` up to, not including, `MAX_SIZE_ROOM`.
pub open spec fn room_size_drawn(r: Rect) -> bool {
    MIN_SIZE_ROOM <= r.x2 - r.x1 < MAX_SIZE_ROOM && MIN_SIZE_ROOM <= r.y2 - r.y1 < MAX_SIZE_ROOM
}

/// Index `i` lies on the horizontal run from column `x1` to column `x2` of row `y`.
pub open spec fn on_h_tunnel(x1: int, x2: int, y: int, i: int) -> bool {
    row(i) == y && (if x1 <= x2 { x1 <= col(i) <= x2 } else { x2 <= col(i) <= x1 })
}

/// Index `i` lies on the vertical run from row `y1` to row `y2` of column `x`.
pub open spec fn on_v_tunnel(y1: int, y2: int, x: int, i: int) -> bool {
    col(i) == x && (if y1 <= y2 { y1 <= row(i) <= y2 } else { y2 <= row(i) <= y1 })
}

impl GameMap {
    /// The fixed map size, and every per-tile grid sized to it.
    pub open spec fn wf(&self) -> bool {
        &&& self.width == MAP_WIDTH as i32
        &&& self.height == MAP_HEIGHT as i32
        &&& self.tiles@.len() == MAP_TOTAL_DIMENSION as int
        &&& self.revealed_tiles@.len() == MAP_TOTAL_DIMENSION as int
        &&& self.visible_tiles@.len() == MAP_TOTAL_DIMENSION as int
        &&& self.blocked@.len() == MAP_TOTAL_DIMENSION as int
        &&& self.tile_content@.len() == MAP_TOTAL_DIMENSION as int
    }

    /// Tile (x, y) lies on the grid and is floor.
    pub open spec fn floor_at(&self, x: int, y: int) -> bool {
        in_bounds(x, y) && self.tiles@[idx(x, y)] == TileType::Floor
    }

    /// Everything but the tiles is as in `other`.
    pub open spec fn same_but_tiles(&self, other: &GameMap) -> bool {
        &&& self.rooms@ == other.rooms@
        &&& self.width == other.width
        &&& self.height == other.height
        &&& self.revealed_tiles@ == other.revealed_tiles@
        &&& self.visible_tiles@ == other.visible_tiles@
        &&& self.blocked@ == other.blocked@
        &&& self.tile_content@ == other.tile_content@
    }

    /// Every tile of the corridor picked by `h_first` between `a` and `b` is floor.
    pub open spec fn corridor_carved(&self, a: (i32, i32), b: (i32, i32), h_first: bool) -> bool {
        forall|i: int|
            0 <= i < MAP_TOTAL_DIMENSION && (if h_first {
                on_h_first_corridor(a, b, i)
            } else {
                on_v_first_corridor(a, b, i)
            }) ==> #[trigger] self.tiles@[i] == TileType::Floor
    }

    /// Some L-shaped corridor between `a` and `b` is floor throughout.
    pub open spec fn connected_by_corridor(&self, a: (i32, i32), b: (i32, i32)) -> bool {
        self.corridor_carved(a, b, true) || self.corridor_carved(a, b, false)
    }

    /// Every floor tile of `self` is floor in `other`.
    pub open spec fn floor_kept_in(&self, other: &GameMap) -> bool {
        forall|i: int|
            0 <= i < MAP_TOTAL_DIMENSION && self.tiles@[i] == TileType::Floor ==> #[trigger] other.tiles@[i]
                == TileType::Floor
    }

    /// Floor tile `i` lies on the floor of room `k`, or on a corridor between room `k`
    /// and the room before it.
    pub open spec fn floor_from_room(&self, k: int, i: int) -> bool {
        self.rooms@[k].spec_contains_floor(col(i), row(i)) || (k >= 1 && (on_h_first_corridor(
            self.rooms@[k - 1].spec_center(),
            self.rooms@[k].spec_center(),
            i,
        ) || on_v_first_corridor(self.rooms@[k - 1].spec_center(), self.rooms@[k].spec_center(), i)))
    }

    /// What generation promises of a map: it has at least one room, each room's
    /// sides were drawn within the size bounds, its rooms fit on the grid and do not
    /// touch, each room's floor is carved, each room is joined to the one before it by
    /// a corridor, every floor tile belongs to a room or to such a corridor, no floor
    /// lies on the outermost ring, and nothing is yet revealed, visible, blocked or
    /// occupied.
    pub open spec fn generated(&self) -> bool {
        &&& self.wf()
        &&& 1 <= self.rooms@.len() <= MAX_ROOMS
        &&& forall|k: int| 0 <= k < self.rooms@.len() ==> room_fits(#[trigger] self.rooms@[k])
        &&& forall|k: int| 0 <= k < self.rooms@.len() ==> room_size_drawn(#[trigger] self.rooms@[k])
        &&& forall|i: int|
            0 <= i < MAP_TOTAL_DIMENSION && #[trigger] self.tiles@[i] == TileType::Floor ==> exists|k: int|
                0 <= k < self.rooms@.len() && self.floor_from_room(k, i)
        &&& forall|a: int, b: int|
            0 <= a < self.rooms@.len() && 0 <= b < self.rooms@.len() && a != b ==> !(
            #[trigger] self.rooms@[a]).spec_intersect(#[trigger] self.rooms@[b])
        &&& forall|i: int|
            0 <= i < MAP_TOTAL_DIMENSION && #[trigger] self.tiles@[i] == TileType::Floor ==> interior_index(i)
        &&& forall|k: int, i: int|
            0 <= k < self.rooms@.len() && 0 <= i < MAP_TOTAL_DIMENSION && (#[trigger] self.rooms@[k]).spec_contains_floor(col(i), row(i))
                ==> #[trigger] self.tiles@[i] == TileType::Floor
        &&& forall|k: int|
            1 <= k < self.rooms@.len() ==> self.connected_by_corridor(
                #[trigger] self.rooms@[k - 1].spec_center(),
                self.rooms@[k].spec_center(),
            )
        &&& forall|i: int| 0 <= i < MAP_TOTAL_DIMENSION ==> !#[trigger] self.revealed_tiles@[i]
        &&& forall|i: int| 0 <= i < MAP_TOTAL_DIMENSION ==> !#[trigger] self.visible_tiles@[i]
        &&& forall|i: int| 0 <= i < MAP_TOTAL_DIMENSION ==> !#[trigger] self.blocked@[i]
        &&& forall|i: int| 0 <= i < MAP_TOTAL_DIMENSION ==> (#[trigger] self.tile_content@[i])@.len() == 0
    }

    /// What each tile's occupant list holds.
    pub open spec fn content_view(&self) -> Seq<Seq<EntityId>> {
        Seq::new(self.tile_content@.len(), |i: int| self.tile_content@[i]@)
    }

    /// A map of the fixed size whose every tile is `tile`, with nothing revealed,
    /// visible, blocked or occupied, and no rooms.
    pub fn filled(tile: TileType) -> (m: GameMap)
        ensures
            m.wf(),
            m.rooms@.len() == 0,
            forall|i: int| 0 <= i < MAP_TOTAL_DIMENSION ==> #[trigger] m.tiles@[i] == tile,
            forall|i: int| 0 <= i < MAP_TOTAL_DIMENSION ==> !#[trigger] m.revealed_tiles@[i],
            forall|i: int| 0 <= i < MAP_TOTAL_DIMENSION ==> !#[trigger] m.visible_tiles@[i],
            forall|i: int| 0 <= i < MAP_TOTAL_DIMENSION ==> !#[trigger] m.blocked@[i],
            forall|i: int| 0 <= i < MAP_TOTAL_DIMENSION ==> (#[trigger] m.tile_content@[i])@.len() == 0,
    {
        let mut tiles: Vec<TileType> = Vec::new();
        let mut revealed_tiles: Vec<bool> = Vec::new();
        let mut visible_tiles: Vec<bool> = Vec::new();
        let mut blocked: Vec<bool> = Vec::new();
        let mut tile_content: Vec<Vec<EntityId>> = Vec::new();
        let mut i: usize = 0;
        while i < MAP_TOTAL_DIMENSION
            invariant
                i <= MAP_TOTAL_DIMENSION,
                tiles@.len() == i,
                revealed_tiles@.len() == i,
                visible_tiles@.len() == i,
                blocked@.len() == i,
                tile_content@.len() == i,
                forall|j: int| 0 <= j < i ==> #[trigger] tiles@[j] == tile,
                forall|j: int| 0 <= j < i ==> !#[trigger] revealed_tiles@[j],
                forall|j: int| 0 <= j < i ==> !#[trigger] visible_tiles@[j],
                forall|j: int| 0 <= j < i ==> !#[trigger] blocked@[j],
                forall|j: int| 0 <= j < i ==> (#[trigger] tile_content@[j])@.len() == 0,
            decreases MAP_TOTAL_DIMENSION - i,
        {
            tiles.push(tile);
            revealed_tiles.push(false);
            visible_tiles.push(false);
            blocked.push(false);
            tile_content.push(Vec::new());
            i = i + 1;
        }
        GameMap {
            tiles,
            rooms: Vec::new(),
            width: MAP_WIDTH as i32,
            height: MAP_HEIGHT as i32,
            revealed_tiles,
            visible_tiles,
            blocked,
            tile_content,
        }
    }

    /// The index of tile (x, y).
    pub fn get_index_xy(&self, x: i32, y: i32) -> (r: usize)
        requires
            self.wf(),
            in_bounds(x as int, y as int),
        ensures
            r as int == idx(x as int, y as int),
            r < MAP_TOTAL_DIMENSION,
    {
        proof {
            lemma_idx(x as int, y as int);
        }
        (y as usize * self.width as usize) + x as usize
    }

    /// Carves the floor of `room`.
    fn apply_room_to_map(&mut self, room: &Rect)
        requires
            old(self).wf(),
            room_fits(*room),
        ensures
            final(self).wf(),
            final(self).same_but_tiles(old(self)),
            forall|i: int|
                0 <= i < MAP_TOTAL_DIMENSION ==> #[trigger] final(self).tiles@[i] == if room.spec_contains_floor(col(i), row(i)) {
                    TileType::Floor
                } else {
                    old(self).tiles@[i]
                },
    {
        let ghost before = *self;
        let mut y: i32 = room.y1 + 1;
        while y <= room.y2
            invariant
                room_fits(*room),
                room.y1 + 1 <= y <= room.y2 + 1,
                self.wf(),
                self.same_but_tiles(&before),
                forall|i: int|
                    0 <= i < MAP_TOTAL_DIMENSION ==> #[trigger] self.tiles@[i] == if room.spec_contains_floor(col(i), row(i)) && row(i) < y {
                        TileType::Floor
                    } else {
                        before.tiles@[i]
                    },
            decreases room.y2 + 1 - y,
        {
            let mut x: i32 = room.x1 + 1;
            while x <= room.x2
                invariant
                    room_fits(*room),
                    room.y1 + 1 <= y <= room.y2,
                    room.x1 + 1 <= x <= room.x2 + 1,
                    self.wf(),
                    self.same_but_tiles(&before),
                    forall|i: int|
                        0 <= i < MAP_TOTAL_DIMENSION ==> #[trigger] self.tiles@[i] == if room.spec_contains_floor(col(i), row(i)) && (row(i) < y || (row(i) == y && col(i) < x)) {
                            TileType::Floor
                        } else {
                            before.tiles@[i]
                        },
                decreases room.x2 + 1 - x,
            {
                let index = self.get_index_xy(x, y);
                proof {
                    lemma_idx(x as int, y as int);
                }
                self.tiles.set(index, TileType::Floor);
                x = x + 1;
            }
            y = y + 1;
        }
    }

    /// A new map from a fresh, randomly seeded generator; see [`GameMap::generate`].
    pub fn new_rooms_and_corridors() -> (m: GameMap)
        ensures
            m.generated(),
    {
        let mut rng = new_rng();
        GameMap::generate(&mut rng)
    }

    /// The candidate room of size `w` by `h` whose floor starts at (`rx`, `ry`): its
    /// corner lies one tile up and left of that.
    pub fn candidate_room(w: i32, h: i32, rx: i32, ry: i32) -> (r: Rect)
        requires
            i32::MIN < rx,
            i32::MIN < ry,
            rx - 1 + w <= i32::MAX,
            ry - 1 + h <= i32::MAX,
            i32::MIN <= rx - 1 + w,
            i32::MIN <= ry - 1 + h,
        ensures
            r == (Rect { x1: (rx - 1) as i32, y1: (ry - 1) as i32, x2: (rx - 1 + w) as i32, y2: (ry - 1 + h) as i32 }),
    {
        Rect::new(rx - 1, ry - 1, w, h)
    }

    /// The candidate touches none of the rooms accepted so far.
    pub fn accepts(&self, c: &Rect) -> (r: bool)
        ensures
            r == forall|k: int| 0 <= k < self.rooms@.len() ==> !c.spec_intersect(#[trigger] self.rooms@[k]),
    {
        let mut j: usize = 0;
        while j < self.rooms.len()
            invariant
                j <= self.rooms@.len(),
                forall|k: int| 0 <= k < j ==> !c.spec_intersect(#[trigger] self.rooms@[k]),
            decreases self.rooms@.len() - j,
        {
            if c.intersect(&self.rooms[j]) {
                return false;
            }
            j = j + 1;
        }
        true
    }

    /// Accepts room `c`: carves its floor and, when a room was accepted before it,
    /// the L-shaped corridor between their centers, running first along the row of
    /// the earlier center when `h_first` holds and first along its column otherwise.
    pub fn add_room(&mut self, c: &Rect, h_first: bool)
        requires
            old(self).wf(),
            room_fits(*c),
        ensures
            final(self).wf(),
            final(self).rooms@ == old(self).rooms@.push(*c),
            final(self).revealed_tiles@ == old(self).revealed_tiles@,
            final(self).visible_tiles@ == old(self).visible_tiles@,
            final(self).blocked@ == old(self).blocked@,
            final(self).tile_content@ == old(self).tile_content@,
            forall|i: int|
                0 <= i < MAP_TOTAL_DIMENSION ==> #[trigger] final(self).tiles@[i] == if c.spec_contains_floor(col(i), row(i))
                    || (old(self).rooms@.len() > 0 && on_corridor(
                    old(self).rooms@.last().spec_center(),
                    c.spec_center(),
                    h_first,
                    i,
                )) {
                    TileType::Floor
                } else {
                    old(self).tiles@[i]
                },
    {
        self.apply_room_to_map(c);
        self.join_rooms(c, h_first);
        self.rooms.push(*c);
    }

    /// Starts from solid wall and draws up to `MAX_ROOMS` candidate rooms. A candidate
    /// that touches an accepted room is dropped; an accepted one is carved and joined
    /// to the room accepted before it, a coin flip picking the corridor's shape.
    pub fn generate(rng: &mut RandomNumberGenerator) -> (m: GameMap)
        ensures
            m.generated(),
    {
        let mut map = GameMap::filled(TileType::Wall);
        let mut n: i32 = 0;
        while n < MAX_ROOMS
            invariant
                0 <= n <= MAX_ROOMS,
                map.rooms@.len() <= n,
                n > 0 ==> map.rooms@.len() >= 1,
                map.wf(),
                forall|k: int| 0 <= k < map.rooms@.len() ==> room_fits(#[trigger] map.rooms@[k]),
                forall|k: int| 0 <= k < map.rooms@.len() ==> room_size_drawn(#[trigger] map.rooms@[k]),
                forall|a: int, b: int|
                    0 <= a < map.rooms@.len() && 0 <= b < map.rooms@.len() && a != b ==> !(
                    #[trigger] map.rooms@[a]).spec_intersect(#[trigger] map.rooms@[b]),
                forall|i: int|
                    0 <= i < MAP_TOTAL_DIMENSION && #[trigger] map.tiles@[i] == TileType::Floor
                        ==> interior_index(i),
                forall|i: int|
                    0 <= i < MAP_TOTAL_DIMENSION && #[trigger] map.tiles@[i] == TileType::Floor ==> exists|k: int|
                        0 <= k < map.rooms@.len() && map.floor_from_room(k, i),
                forall|k: int, i: int|
                    0 <= k < map.rooms@.len() && 0 <= i < MAP_TOTAL_DIMENSION && (
                    #[trigger] map.rooms@[k]).spec_contains_floor(col(i), row(i)) ==> #[trigger] map.tiles@[i]
                        == TileType::Floor,
                forall|k: int|
                    1 <= k < map.rooms@.len() ==> map.connected_by_corridor(
                        #[trigger] map.rooms@[k - 1].spec_center(),
                        map.rooms@[k].spec_center(),
                    ),
                forall|i: int| 0 <= i < MAP_TOTAL_DIMENSION ==> !#[trigger] map.revealed_tiles@[i],
                forall|i: int| 0 <= i < MAP_TOTAL_DIMENSION ==> !#[trigger] map.visible_tiles@[i],
                forall|i: int| 0 <= i < MAP_TOTAL_DIMENSION ==> !#[trigger] map.blocked@[i],
                forall|i: int|
                    0 <= i < MAP_TOTAL_DIMENSION ==> (#[trigger] map.tile_content@[i])@.len() == 0,
            decreases MAX_ROOMS - n,
        {
            let w = rng_range(rng, MIN_SIZE_ROOM, MAX_SIZE_ROOM);
            let h = rng_range(rng, MIN_SIZE_ROOM, MAX_SIZE_ROOM);
            let rx = rng_roll_dice(rng, 1, MAP_WIDTH as i32 - w - 1);
            let ry = rng_roll_dice(rng, 1, MAP_HEIGHT as i32 - h - 1);
            let new_room = GameMap::candidate_room(w, h, rx, ry);
            if map.accepts(&new_room) {
                let h_first = if map.rooms.len() > 0 {
                    rng_range(rng, 0, 2) == 1
                } else {
                    false
                };
                let ghost before = map;
                map.add_room(&new_room, h_first);
                proof {
                    let len = map.rooms@.len();
                    assert(map.rooms@[len - 1] == new_room);
                    assert forall|k: int| 0 <= k < len - 1 implies #[trigger] map.rooms@[k] == before.rooms@[k] by {}
                    assert(before.floor_kept_in(&map));
                    assert forall|a: int, b: int|
                        0 <= a < len && 0 <= b < len && a != b implies !(
                        #[trigger] map.rooms@[a]).spec_intersect(#[trigger] map.rooms@[b]) by {
                        if b == len - 1 {
                            assert(!new_room.spec_intersect(before.rooms@[a]));
                        } else if a == len - 1 {
                            assert(!new_room.spec_intersect(before.rooms@[b]));
                        }
                    }
                    assert forall|k: int, i: int|
                        0 <= k < len && 0 <= i < MAP_TOTAL_DIMENSION && (
                        #[trigger] map.rooms@[k]).spec_contains_floor(col(i), row(i)) implies #[trigger] map.tiles@[i]
                        == TileType::Floor by {
                        if k < len - 1 {
                            assert(before.tiles@[i] == TileType::Floor);
                        }
                    }
                    assert forall|k: int|
                        1 <= k < len implies map.connected_by_corridor(
                        #[trigger] map.rooms@[k - 1].spec_center(),
                        map.rooms@[k].spec_center(),
                    ) by {
                        if k < len - 1 {
                            lemma_corridor_kept(&before, &map, map.rooms@[k - 1].spec_center(), map.rooms@[k].spec_center());
                        } else {
                            assert(map.corridor_carved(map.rooms@[k - 1].spec_center(), map.rooms@[k].spec_center(), h_first));
                        }
                    }
                    assert forall|i: int|
                        0 <= i < MAP_TOTAL_DIMENSION && #[trigger] map.tiles@[i] == TileType::Floor implies exists|k: int|
                        0 <= k < len && map.floor_from_room(k, i) by {
                        if before.tiles@[i] == TileType::Floor {
                            let k = choose|k: int| 0 <= k < before.rooms@.len() && before.floor_from_room(k, i);
                            if k >= 1 {
                                assert(map.rooms@[k - 1] == before.rooms@[k - 1]);
                            }
                            assert(map.floor_from_room(k, i));
                        } else {
                            assert(map.floor_from_room(len - 1, i));
                        }
                    }
                }
            }
            n = n + 1;
        }
        map
    }

    /// Carves the L-shaped corridor that `h_first` picks between the last room
    /// accepted so far and `new_room`; with no room before it, nothing changes.
    fn join_rooms(&mut self, new_room: &Rect, h_first: bool)
        requires
            old(self).wf(),
        ensures
            final(self).wf(),
            final(self).same_but_tiles(old(self)),
            forall|i: int|
                0 <= i < MAP_TOTAL_DIMENSION ==> #[trigger] final(self).tiles@[i] == if old(self).rooms@.len() > 0
                    && on_corridor(old(self).rooms@.last().spec_center(), new_room.spec_center(), h_first, i) {
                    TileType::Floor
                } else {
                    old(self).tiles@[i]
                },
    {
        if self.rooms.len() > 0 {
            let (new_x, new_y) = new_room.center();
            let (prev_x, prev_y) = self.rooms[self.rooms.len() - 1].center();
            if h_first {
                self.apply_horizontal_tunnel(prev_x, new_x, prev_y);
                self.apply_vertical_tunnel(prev_y, new_y, new_x);
            } else {
                self.apply_vertical_tunnel(prev_y, new_y, prev_x);
                self.apply_horizontal_tunnel(prev_x, new_x, new_y);
            }
        }
    }

    /// Carves the tiles of row `y` from column `x1` to column `x2`, either way round,
    /// leaving out those off the grid.
    fn apply_horizontal_tunnel(&mut self, x1: i32, x2: i32, y: i32)
        requires
            old(self).wf(),
        ensures
            final(self).wf(),
            final(self).same_but_tiles(old(self)),
            forall|i: int|
                0 <= i < MAP_TOTAL_DIMENSION ==> #[trigger] final(self).tiles@[i] == if on_h_tunnel(x1 as int, x2 as int, y as int, i) {
                    TileType::Floor
                } else {
                    old(self).tiles@[i]
                },
    {
        let ghost before = *self;
        let lo: i32 = if x1 <= x2 { x1 } else { x2 };
        let hi: i32 = if x1 <= x2 { x2 } else { x1 };
        let mut x: i64 = lo as i64;
        while x <= hi as i64
            invariant
                lo as int <= x <= hi as int + 1,
                lo == (if x1 <= x2 { x1 } else { x2 }),
                hi == (if x1 <= x2 { x2 } else { x1 }),
                self.wf(),
                self.same_but_tiles(&before),
                forall|i: int|
                    0 <= i < MAP_TOTAL_DIMENSION ==> #[trigger] self.tiles@[i] == if on_h_tunnel(x1 as int, x2 as int, y as int, i) && col(i) < x {
                        TileType::Floor
                    } else {
                        before.tiles@[i]
                    },
            decreases hi as int + 1 - x,
        {
            if 0 <= x && x < MAP_WIDTH as i64 && 0 <= y && y < MAP_HEIGHT as i32 {
                let index = self.get_index_xy(x as i32, y);
                proof {
                    lemma_idx(x as int, y as int);
                }
                self.tiles.set(index, TileType::Floor);
            }
            x = x + 1;
        }
    }

    /// Carves the tiles of column `x` from row `y1` to row `y2`, either way round,
    /// leaving out those off the grid.
    fn apply_vertical_tunnel(&mut self, y1: i32, y2: i32, x: i32)
        requires
            old(self).wf(),
        ensures
            final(self).wf(),
            final(self).same_but_tiles(old(self)),
            forall|i: int|
                0 <= i < MAP_TOTAL_DIMENSION ==> #[trigger] final(self).tiles@[i] == if on_v_tunnel(y1 as int, y2 as int, x as int, i) {
                    TileType::Floor
                } else {
                    old(self).tiles@[i]
                },
    {
        let ghost before = *self;
        let lo: i32 = if y1 <= y2 { y1 } else { y2 };
        let hi: i32 = if y1 <= y2 { y2 } else { y1 };
        let mut y: i64 = lo as i64;
        while y <= hi as i64
            invariant
                lo as int <= y <= hi as int + 1,
                lo == (if y1 <= y2 { y1 } else { y2 }),
                hi == (if y1 <= y2 { y2 } else { y1 }),
                self.wf(),
                self.same_but_tiles(&before),
                forall|i: int|
                    0 <= i < MAP_TOTAL_DIMENSION ==> #[trigger] self.tiles@[i] == if on_v_tunnel(y1 as int, y2 as int, x as int, i) && row(i) < y {
                        TileType::Floor
                    } else {
                        before.tiles@[i]
                    },
            decreases hi as int + 1 - y,
        {
            if 0 <= y && y < MAP_HEIGHT as i64 && 0 <= x && x < MAP_WIDTH as i32 {
                let index = self.get_index_xy(x, y as i32);
                proof {
                    lemma_idx(x as int, y as int);
                }
                self.tiles.set(index, TileType::Floor);
            }
            y = y + 1;
        }
    }
}


/// Carving more floor never undoes a corridor.
pub proof fn lemma_corridor_kept(m1: &GameMap, m2: &GameMap, a: (i32, i32), b: (i32, i32))
    requires
        m1.floor_kept_in(m2),
        m1.connected_by_corridor(a, b),
    ensures
        m2.connected_by_corridor(a, b),
{
    if m1.corridor_carved(a, b, true) {
        assert forall|i: int|
            0 <= i < MAP_TOTAL_DIMENSION && on_h_first_corridor(a, b, i) implies #[trigger] m2.tiles@[i]
            == TileType::Floor by {
            assert(m1.tiles@[i] == TileType::Floor);
        }
        assert(m2.corridor_carved(a, b, true));
    } else {
        assert forall|i: int|
            0 <= i < MAP_TOTAL_DIMENSION && on_v_first_corridor(a, b, i) implies #[trigger] m2.tiles@[i]
            == TileType::Floor by {
            assert(m1.tiles@[i] == TileType::Floor);
        }
        assert(m2.corridor_carved(a, b, false));
    }
}

} // verus!
