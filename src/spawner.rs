use vstd::prelude::*;
use rltk::RandomNumberGenerator;
use crate::components::{CombatStats, Position, Potion};
use crate::constants::{MAP_HEIGHT, MAP_TOTAL_DIMENSION, MAP_WIDTH};
use crate::map::{col, idx, lemma_col_row, lemma_idx, room_fits, row};
use crate::rect::Rect;
use crate::rng::rng_roll_dice;

verus! {

/// Most monsters a room can hold, plus one.
pub const MAX_MONSTERS: i32 = 4;

/// Most potions a room can hold, plus one.
pub const MAX_ITEMS: i32 = 2;

/// Draw order of the player: drawn last, on top.
pub const PLAYER_ORDER: i32 = 0;

/// Draw order of monsters.
pub const MONSTER_ORDER: i32 = 1;

/// Draw order of items: drawn first, beneath the rest.
pub const ITEM_ORDER: i32 = 2;

/// Health a health potion restores.
pub const HEALTH_POTION_HEAL: i32 = 8;

#[derive(Clone, Copy, Debug, PartialEq, Eq, Structural)]
pub enum MonsterKind {
    Orc,
    Goblin,
}

/// What to create in one room.
pub struct SpawnPlan {
    pub monsters: Vec<(Position, MonsterKind)>,
    pub potions: Vec<Position>,
}

/// Index `i` is a floor tile of `room`.
pub open spec fn in_room(room: Rect, i: int) -> bool {
    0 <= i < MAP_TOTAL_DIMENSION && room.spec_contains_floor(col(i), row(i))
}

/// The player's starting stats.
pub fn player_stats() -> (r: CombatStats)
    ensures
        r == (CombatStats { max_hp: 30, hp: 30, defense: 2, power: 5 }),
{
    CombatStats { max_hp: 30, hp: 30, defense: 2, power: 5 }
}

/// Every monster's starting stats.
pub fn monster_stats() -> (r: CombatStats)
    ensures
        r == (CombatStats { max_hp: 16, hp: 16, defense: 1, power: 4 }),
{
    CombatStats { max_hp: 16, hp: 16, defense: 1, power: 4 }
}

/// A health potion.
pub fn health_potion() -> (r: Potion)
    ensures
        r.heal_amount == HEALTH_POTION_HEAL,
{
    Potion { heal_amount: HEALTH_POTION_HEAL }
}

/// The monster a two-sided die roll calls for: an orc on 1, a goblin otherwise.
pub fn monster_for_roll(roll: i32) -> (r: MonsterKind)
    ensures
        r == (if roll == 1 { MonsterKind::Orc } else { MonsterKind::Goblin }),
{
    if roll == 1 {
        MonsterKind::Orc
    } else {
        MonsterKind::Goblin
    }
}

/// A monster kind, orc or goblin, by the roll of a two-sided die.
pub fn random_monster(rng: &mut RandomNumberGenerator) -> (r: MonsterKind) {
    let roll = rng_roll_dice(rng, 1, 2);
    monster_for_roll(roll)
}

fn contains_index(points: &Vec<usize>, index: usize) -> (r: bool)
    ensures
        r == points@.contains(index),
{
    let mut k: usize = 0;
    while k < points.len()
        invariant
            k <= points@.len(),
            forall|j: int| 0 <= j < k ==> points@[j] != index,
        decreases points@.len() - k,
    {
        if points[k] == index {
            assert(points@[k as int] == index);
            return true;
        }
        k = k + 1;
    }
    false
}

/// The floor of `r` lies on the grid.
pub open spec fn room_on_grid(r: Rect) -> bool {
    -1 <= r.x1 < r.x2 <= MAP_WIDTH - 1 && -1 <= r.y1 < r.y2 <= MAP_HEIGHT - 1
}

/// The number of floor tiles of `r`.
pub open spec fn room_area(r: Rect) -> int {
    (r.x2 - r.x1) * (r.y2 - r.y1)
}

/// The first tile of row `y` of the room, from column `x` on, that `pts` lacks.
pub open spec fn free_in_row(room: Rect, pts: Seq<usize>, x: int, y: int) -> Option<usize>
    decreases room.x2 + 1 - x,
{
    if x > room.x2 {
        None
    } else if !pts.contains(idx(x, y) as usize) {
        Some(idx(x, y) as usize)
    } else {
        free_in_row(room, pts, x + 1, y)
    }
}

/// The first floor tile of the room, row by row from row `y` on, that `pts` lacks.
pub open spec fn free_from_row(room: Rect, pts: Seq<usize>, y: int) -> Option<usize>
    decreases room.y2 + 1 - y,
{
    if y > room.y2 {
        None
    } else {
        match free_in_row(room, pts, room.x1 + 1, y) {
            Some(v) => Some(v),
            None => free_from_row(room, pts, y + 1),
        }
    }
}

/// The first floor tile of the room, row by row, that `pts` lacks.
pub open spec fn first_free(room: Rect, pts: Seq<usize>) -> Option<usize> {
    free_from_row(room, pts, room.y1 + 1)
}

/// The spawn point that the draw (x, y) gives when `pts` are taken: the drawn tile
/// if it is free, else the first free tile of the room.
pub open spec fn pick(room: Rect, pts: Seq<usize>, x: int, y: int) -> usize {
    if !pts.contains(idx(x, y) as usize) {
        idx(x, y) as usize
    } else {
        match first_free(room, pts) {
            Some(v) => v,
            None => idx(x, y) as usize,
        }
    }
}

/// The spawn points that the draws give, one for each draw, in order.
pub open spec fn spawn_fold(room: Rect, draws: Seq<(i32, i32)>) -> Seq<usize>
    decreases draws.len(),
{
    if draws.len() == 0 {
        Seq::empty()
    } else {
        let before = spawn_fold(room, draws.drop_last());
        before.push(pick(room, before, draws.last().0 as int, draws.last().1 as int))
    }
}

/// How many things a room gets for a roll of the die: three less than the roll, or none.
pub open spec fn spawn_count(roll: int) -> int {
    if roll > 3 {
        roll - 3
    } else {
        0
    }
}

/// Every entry of `pts` is a floor tile of the room, and no two are equal.
pub open spec fn spawn_points_ok(room: Rect, pts: Seq<usize>) -> bool {
    &&& pts.no_duplicates()
    &&& forall|k: int| 0 <= k < pts.len() ==> in_room(room, #[trigger] pts[k] as int)
}

/// The floor tiles of the room from row `y` on, row by row.
spec fn cells_from(room: Rect, y: int) -> Seq<usize>
    decreases room.y2 + 1 - y,
{
    if y > room.y2 {
        Seq::empty()
    } else {
        Seq::new((room.x2 - room.x1) as nat, |j: int| idx(room.x1 + 1 + j, y) as usize) + cells_from(room, y + 1)
    }
}

proof fn lemma_cells_from(room: Rect, y: int)
    requires
        room_on_grid(room),
        room.y1 + 1 <= y <= room.y2 + 1,
    ensures
        cells_from(room, y).len() == (room.y2 + 1 - y) * (room.x2 - room.x1),
        cells_from(room, y).no_duplicates(),
        forall|k: int|
            0 <= k < cells_from(room, y).len() ==> {
                let c = #[trigger] cells_from(room, y)[k] as int;
                &&& 0 <= c < MAP_TOTAL_DIMENSION
                &&& y <= row(c) <= room.y2
                &&& room.x1 < col(c) <= room.x2
            },
    decreases room.y2 + 1 - y,
{
    if y <= room.y2 {
        lemma_cells_from(room, y + 1);
        let w = room.x2 - room.x1;
        let r = Seq::new(w as nat, |j: int| idx(room.x1 + 1 + j, y) as usize);
        let rest = cells_from(room, y + 1);
        assert forall|j: int| 0 <= j < w implies {
            let c = #[trigger] r[j] as int;
            &&& 0 <= c < MAP_TOTAL_DIMENSION
            &&& row(c) == y
            &&& col(c) == room.x1 + 1 + j
        } by {
            lemma_idx(room.x1 + 1 + j, y);
        }
        let all = r + rest;
        assert(all == cells_from(room, y));
        assert((room.y2 + 1 - y) * w == w + (room.y2 - y) * w) by (nonlinear_arith);
        assert forall|a: int, b: int| 0 <= a < all.len() && 0 <= b < all.len() && a != b implies all[a] != all[b] by {
            if a < w && b < w {
                assert(col(r[a] as int) != col(r[b] as int));
            } else if a < w {
                assert(row(all[a] as int) != row(all[b] as int));
            } else if b < w {
                assert(row(all[a] as int) != row(all[b] as int));
            } else {
                assert(all[a] == rest[a - w] && all[b] == rest[b - w]);
            }
        }
        assert forall|k: int| 0 <= k < all.len() implies {
            let c = #[trigger] all[k] as int;
            &&& 0 <= c < MAP_TOTAL_DIMENSION
            &&& y <= row(c) <= room.y2
            &&& room.x1 < col(c) <= room.x2
        } by {
            if k >= w {
                assert(all[k] == rest[k - w]);
            }
        }
    }
}

proof fn lemma_row_taken(room: Rect, pts: Seq<usize>, x: int, y: int)
    requires
        free_in_row(room, pts, x, y) is None,
    ensures
        forall|x2: int| x <= x2 <= room.x2 ==> pts.contains(#[trigger] idx(x2, y) as usize),
    decreases room.x2 + 1 - x,
{
    if x <= room.x2 {
        lemma_row_taken(room, pts, x + 1, y);
    }
}

proof fn lemma_rows_taken(room: Rect, pts: Seq<usize>, y: int)
    requires
        room_on_grid(room),
        room.y1 + 1 <= y <= room.y2 + 1,
        free_from_row(room, pts, y) is None,
    ensures
        forall|k: int| 0 <= k < cells_from(room, y).len() ==> pts.contains(#[trigger] cells_from(room, y)[k]),
    decreases room.y2 + 1 - y,
{
    if y <= room.y2 {
        lemma_row_taken(room, pts, room.x1 + 1, y);
        lemma_rows_taken(room, pts, y + 1);
        let w = room.x2 - room.x1;
        let r = Seq::new(w as nat, |j: int| idx(room.x1 + 1 + j, y) as usize);
        let rest = cells_from(room, y + 1);
        assert forall|k: int| 0 <= k < cells_from(room, y).len() implies pts.contains(#[trigger] cells_from(room, y)[k]) by {
            if k < w {
                assert(cells_from(room, y)[k] == idx(room.x1 + 1 + k, y) as usize);
            } else {
                assert(cells_from(room, y)[k] == rest[k - w]);
            }
        }
    }
}

/// A room holds a free floor tile as long as fewer distinct points than its floor
/// tiles are taken.
proof fn lemma_free_tile_exists(room: Rect, pts: Seq<usize>)
    requires
        room_on_grid(room),
        pts.no_duplicates(),
        pts.len() < room_area(room),
    ensures
        first_free(room, pts) is Some,
{
    if first_free(room, pts) is None {
        let cells = cells_from(room, room.y1 + 1);
        lemma_cells_from(room, room.y1 + 1);
        lemma_rows_taken(room, pts, room.y1 + 1);
        assert((room.y2 + 1 - (room.y1 + 1)) * (room.x2 - room.x1) == (room.x2 - room.x1) * (room.y2 - room.y1))
            by (nonlinear_arith);
        assert(cells.len() == room_area(room));
        cells.unique_seq_to_set();
        pts.lemma_cardinality_of_set();
        assert(cells.to_set().subset_of(pts.to_set())) by {
            assert forall|c: usize| cells.to_set().contains(c) implies pts.to_set().contains(c) by {
                let k = choose|k: int| 0 <= k < cells.len() && cells[k] == c;
                assert(pts.contains(cells[k]));
            }
        }
        vstd::set_lib::lemma_len_subset(cells.to_set(), pts.to_set());
    }
}

proof fn lemma_free_in_room(room: Rect, pts: Seq<usize>, x: int, y: int)
    requires
        room_on_grid(room),
        room.y1 + 1 <= y <= room.y2,
        room.x1 + 1 <= x,
    ensures
        free_in_row(room, pts, x, y) matches Some(v) ==> in_room(room, v as int) && !pts.contains(v),
    decreases room.x2 + 1 - x,
{
    if x <= room.x2 {
        lemma_idx(x, y);
        lemma_free_in_room(room, pts, x + 1, y);
    }
}

proof fn lemma_first_free_in_room(room: Rect, pts: Seq<usize>, y: int)
    requires
        room_on_grid(room),
        room.y1 + 1 <= y,
    ensures
        free_from_row(room, pts, y) matches Some(v) ==> in_room(room, v as int) && !pts.contains(v),
    decreases room.y2 + 1 - y,
{
    if y <= room.y2 {
        lemma_free_in_room(room, pts, room.x1 + 1, y);
        lemma_first_free_in_room(room, pts, y + 1);
    }
}

/// The first floor tile of `room`, row by row, that `points` does not hold yet.
fn first_free_tile(room: &Rect, points: &Vec<usize>) -> (r: Option<usize>)
    requires
        room_on_grid(*room),
    ensures
        r == first_free(*room, points@),
{
    let mut y: i32 = room.y1 + 1;
    while y <= room.y2
        invariant
            room_on_grid(*room),
            room.y1 + 1 <= y <= room.y2 + 1,
            first_free(*room, points@) == free_from_row(*room, points@, y as int),
        decreases room.y2 + 1 - y,
    {
        let mut x: i32 = room.x1 + 1;
        while x <= room.x2
            invariant
                room_on_grid(*room),
                room.y1 + 1 <= y <= room.y2,
                room.x1 + 1 <= x <= room.x2 + 1,
                first_free(*room, points@) == free_from_row(*room, points@, y as int),
                free_in_row(*room, points@, room.x1 + 1, y as int) == free_in_row(*room, points@, x as int, y as int),
            decreases room.x2 + 1 - x,
        {
            proof {
                lemma_idx(x as int, y as int);
            }
            let index = y as usize * MAP_WIDTH + x as usize;
            if !contains_index(points, index) {
                assert(free_in_row(*room, points@, x as int, y as int) == Some(index));
                assert(free_from_row(*room, points@, y as int) == Some(index));
                return Some(index);
            }
            x = x + 1;
        }
        assert(free_in_row(*room, points@, x as int, y as int) is None);
        assert(free_from_row(*room, points@, y as int) == free_from_row(*room, points@, y + 1));
        y = y + 1;
    }
    None
}

/// Adds the spawn point that the draw (`x`, `y`) gives: the drawn tile when it is
/// free, else the first free floor tile of the room, row by row. Where the drawn
/// tile is taken, this takes the first free tile instead of drawing again, so that
/// each draw gives a point.
pub fn add_spawn_point(points: &mut Vec<usize>, room: &Rect, x: i32, y: i32)
    requires
        room_on_grid(*room),
        room.spec_contains_floor(x as int, y as int),
        spawn_points_ok(*room, old(points)@),
        old(points)@.len() < room_area(*room),
    ensures
        final(points)@ == old(points)@.push(pick(*room, old(points)@, x as int, y as int)),
        spawn_points_ok(*room, final(points)@),
{
    proof {
        lemma_idx(x as int, y as int);
        lemma_free_tile_exists(*room, points@);
        lemma_first_free_in_room(*room, points@, room.y1 + 1);
    }
    let drawn = y as usize * MAP_WIDTH + x as usize;
    let chosen = if contains_index(points, drawn) {
        match first_free_tile(room, points) {
            Some(v) => v,
            None => drawn,
        }
    } else {
        drawn
    };
    let ghost before = points@;
    points.push(chosen);
    assert forall|a: int, b: int| 0 <= a < points@.len() && 0 <= b < points@.len() && a != b implies points@[a] != points@[b] by {
        if a == points@.len() - 1 {
            assert(!before.contains(chosen));
        } else if b == points@.len() - 1 {
            assert(before[a] == points@[a]);
        }
    }
}

/// The spawn points that a roll and a list of draws give: the roll decides how many
/// (three less than the roll, or none), and each of that many draws, in order, gives
/// one point.
pub fn spawn_points_from_draws(room: &Rect, roll: i32, draws: &Vec<(i32, i32)>) -> (r: Vec<usize>)
    requires
        room_on_grid(*room),
        spawn_count(roll as int) <= draws@.len(),
        spawn_count(roll as int) <= room_area(*room),
        forall|k: int| 0 <= k < draws@.len() ==> room.spec_contains_floor((#[trigger] draws@[k]).0 as int, draws@[k].1 as int),
    ensures
        r@ == spawn_fold(*room, draws@.take(spawn_count(roll as int))),
        r@.len() == spawn_count(roll as int),
        spawn_points_ok(*room, r@),
{
    let count: usize = if roll > 3 { (roll - 3) as usize } else { 0 };
    let mut points: Vec<usize> = Vec::new();
    let mut k: usize = 0;
    while k < count
        invariant
            room_on_grid(*room),
            count == spawn_count(roll as int),
            count <= draws@.len(),
            count <= room_area(*room),
            k <= count,
            forall|j: int| 0 <= j < draws@.len() ==> room.spec_contains_floor((#[trigger] draws@[j]).0 as int, draws@[j].1 as int),
            points@ == spawn_fold(*room, draws@.take(k as int)),
            points@.len() == k,
            spawn_points_ok(*room, points@),
        decreases count - k,
    {
        proof {
            assert(draws@.take(k as int + 1).drop_last() =~= draws@.take(k as int));
            assert(draws@.take(k as int + 1).last() == draws@[k as int]);
            assert(draws@.take(0) =~= Seq::<(i32, i32)>::empty());
        }
        let (x, y) = draws[k];
        assert(room.spec_contains_floor(x as int, y as int));
        add_spawn_point(&mut points, room, x, y);
        k = k + 1;
    }
    points
}

/// Up to `max_amount - 1` distinct floor tiles of `room`, as grid indices: a die of
/// `max_amount + 2` sides is rolled for the count, then each tile is drawn at random
/// (see [`spawn_points_from_draws`]). By design, a draw that lands on a taken tile is
/// not drawn again: the first free tile of the room stands in for it, so every draw
/// yields a point and the count rolled is always met.
pub fn build_spawn_points_by_max_amount(rng: &mut RandomNumberGenerator, room: &Rect, max_amount: i32) -> (r: Vec<usize>)
    requires
        room_on_grid(*room),
        -1 <= max_amount <= i32::MAX - 3,
        max_amount - 1 <= room_area(*room),
    ensures
        r@.len() <= if max_amount >= 1 { max_amount - 1 } else { 0 },
        spawn_points_ok(*room, r@),
{
    let roll = rng_roll_dice(rng, 1, max_amount + 2);
    let count: i32 = if roll > 3 { roll - 3 } else { 0 };
    let mut draws: Vec<(i32, i32)> = Vec::new();
    let mut n: i32 = 0;
    while n < count
        invariant
            room_on_grid(*room),
            0 <= n <= count,
            draws@.len() == n,
            forall|j: int| 0 <= j < draws@.len() ==> room.spec_contains_floor((#[trigger] draws@[j]).0 as int, draws@[j].1 as int),
        decreases count - n,
    {
        let x = room.x1 + rng_roll_dice(rng, 1, room.x2 - room.x1);
        let y = room.y1 + rng_roll_dice(rng, 1, room.y2 - room.y1);
        draws.push((x, y));
        n = n + 1;
    }
    spawn_points_from_draws(room, roll, &draws)
}

/// The position of grid index `i`.
fn position_of(i: usize) -> (p: Position)
    requires
        i < MAP_TOTAL_DIMENSION,
    ensures
        p.x == col(i as int),
        p.y == row(i as int),
{
    proof {
        lemma_col_row(i as int);
    }
    Position { x: (i % MAP_WIDTH) as i32, y: (i / MAP_WIDTH) as i32 }
}

/// Fills a room: a few monsters of random kinds and a few health potions, each on a
/// floor tile of the room, no two monsters and no two potions on one tile. How many
/// of each is drawn at random; [`spawn_points_from_draws`] states the count for a
/// given roll.
pub fn spawn_room(rng: &mut RandomNumberGenerator, room: &Rect) -> (r: SpawnPlan)
    requires
        room_fits(*room),
    ensures
        r.monsters@.len() < MAX_MONSTERS,
        r.potions@.len() < MAX_ITEMS,
        forall|k: int|
            0 <= k < r.monsters@.len() ==> room.spec_contains_floor(
                (#[trigger] r.monsters@[k]).0.x as int,
                r.monsters@[k].0.y as int,
            ),
        forall|k: int|
            0 <= k < r.potions@.len() ==> room.spec_contains_floor((#[trigger] r.potions@[k]).x as int, r.potions@[k].y as int),
        forall|a: int, b: int| 0 <= a < b < r.monsters@.len() ==> (#[trigger] r.monsters@[a]).0 != (#[trigger] r.monsters@[b]).0,
        forall|a: int, b: int| 0 <= a < b < r.potions@.len() ==> #[trigger] r.potions@[a] != #[trigger] r.potions@[b],
{
    assert(room_area(*room) >= 4) by (nonlinear_arith)
        requires
            room.x2 - room.x1 >= 2,
            room.y2 - room.y1 >= 2,
    ;
    let monster_spawn_points = build_spawn_points_by_max_amount(rng, room, MAX_MONSTERS);
    let item_spawn_points = build_spawn_points_by_max_amount(rng, room, MAX_ITEMS);
    let mut monsters: Vec<(Position, MonsterKind)> = Vec::new();
    let mut k: usize = 0;
    while k < monster_spawn_points.len()
        invariant
            k <= monster_spawn_points@.len(),
            monsters@.len() == k,
            forall|j: int| 0 <= j < monster_spawn_points@.len() ==> in_room(*room, #[trigger] monster_spawn_points@[j] as int),
            spawn_points_ok(*room, monster_spawn_points@),
            forall|j: int|
                0 <= j < k ==> room.spec_contains_floor((#[trigger] monsters@[j]).0.x as int, monsters@[j].0.y as int),
            forall|j: int|
                0 <= j < k ==> (#[trigger] monsters@[j]).0.x == col(monster_spawn_points@[j] as int) && monsters@[j].0.y
                    == row(monster_spawn_points@[j] as int),
            forall|a: int, b: int| 0 <= a < b < k ==> (#[trigger] monsters@[a]).0 != (#[trigger] monsters@[b]).0,
        decreases monster_spawn_points@.len() - k,
    {
        assert(in_room(*room, monster_spawn_points@[k as int] as int));
        let p = position_of(monster_spawn_points[k]);
        let kind = random_monster(rng);
        proof {
            assert forall|a: int| 0 <= a < k implies monsters@[a].0 != p by {
                assert(monster_spawn_points@[a] != monster_spawn_points@[k as int]);
                lemma_col_row(monster_spawn_points@[a] as int);
                lemma_col_row(monster_spawn_points@[k as int] as int);
            }
        }
        monsters.push((p, kind));
        k = k + 1;
    }
    let mut potions: Vec<Position> = Vec::new();
    let mut k: usize = 0;
    while k < item_spawn_points.len()
        invariant
            k <= item_spawn_points@.len(),
            potions@.len() == k,
            forall|j: int| 0 <= j < item_spawn_points@.len() ==> in_room(*room, #[trigger] item_spawn_points@[j] as int),
            spawn_points_ok(*room, item_spawn_points@),
            forall|j: int| 0 <= j < k ==> room.spec_contains_floor((#[trigger] potions@[j]).x as int, potions@[j].y as int),
            forall|j: int|
                0 <= j < k ==> (#[trigger] potions@[j]).x == col(item_spawn_points@[j] as int) && potions@[j].y == row(
                    item_spawn_points@[j] as int,
                ),
            forall|a: int, b: int| 0 <= a < b < k ==> #[trigger] potions@[a] != #[trigger] potions@[b],
        decreases item_spawn_points@.len() - k,
    {
        assert(in_room(*room, item_spawn_points@[k as int] as int));
        let p = position_of(item_spawn_points[k]);
        proof {
            assert forall|a: int| 0 <= a < k implies potions@[a] != p by {
                assert(item_spawn_points@[a] != item_spawn_points@[k as int]);
                lemma_col_row(item_spawn_points@[a] as int);
                lemma_col_row(item_spawn_points@[k as int] as int);
            }
        }
        potions.push(p);
        k = k + 1;
    }
    SpawnPlan { monsters, potions }
}

} // verus!
