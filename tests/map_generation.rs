use roguelike::constants::{MAP_HEIGHT, MAP_TOTAL_DIMENSION, MAP_WIDTH, MAX_ROOMS};
use roguelike::map::{GameMap, TileType};
use roguelike::pathing::{CARDINAL_EXIT_COST, DIAGONAL_EXIT_COST};
use roguelike::rect::Rect;
use rltk::RandomNumberGenerator;
use std::collections::VecDeque;

fn tile(map: &GameMap, x: i32, y: i32) -> TileType {
    map.tiles[(y as usize) * MAP_WIDTH + x as usize]
}

fn reachable_from(map: &GameMap, start: (i32, i32)) -> Vec<bool> {
    let mut seen = vec![false; MAP_TOTAL_DIMENSION];
    let mut queue = VecDeque::new();
    seen[start.1 as usize * MAP_WIDTH + start.0 as usize] = true;
    queue.push_back(start);
    while let Some((x, y)) = queue.pop_front() {
        for (dx, dy) in [(-1, 0), (1, 0), (0, -1), (0, 1)] {
            let (nx, ny) = (x + dx, y + dy);
            if nx < 0 || ny < 0 || nx >= MAP_WIDTH as i32 || ny >= MAP_HEIGHT as i32 {
                continue;
            }
            let i = ny as usize * MAP_WIDTH + nx as usize;
            if !seen[i] && map.tiles[i] == TileType::Floor {
                seen[i] = true;
                queue.push_back((nx, ny));
            }
        }
    }
    seen
}

#[test]
fn generated_rooms_fit_and_do_not_overlap() {
    for seed in 0..20u64 {
        let mut rng = RandomNumberGenerator::seeded(seed);
        let map = GameMap::generate(&mut rng);
        assert!(!map.rooms.is_empty());
        assert!(map.rooms.len() <= MAX_ROOMS as usize);
        for (a, ra) in map.rooms.iter().enumerate() {
            assert!(ra.x1 >= 0 && ra.x2 <= MAP_WIDTH as i32 - 2);
            assert!(ra.y1 >= 0 && ra.y2 <= MAP_HEIGHT as i32 - 2);
            for (b, rb) in map.rooms.iter().enumerate() {
                if a != b {
                    assert!(!ra.intersect(rb));
                }
            }
        }
    }
}

#[test]
fn generated_border_is_wall() {
    for seed in 0..20u64 {
        let mut rng = RandomNumberGenerator::seeded(seed);
        let map = GameMap::generate(&mut rng);
        for x in 0..MAP_WIDTH as i32 {
            assert_eq!(tile(&map, x, 0), TileType::Wall);
            assert_eq!(tile(&map, x, MAP_HEIGHT as i32 - 1), TileType::Wall);
        }
        for y in 0..MAP_HEIGHT as i32 {
            assert_eq!(tile(&map, 0, y), TileType::Wall);
            assert_eq!(tile(&map, MAP_WIDTH as i32 - 1, y), TileType::Wall);
        }
    }
}

#[test]
fn generated_room_centers_are_connected() {
    for seed in 0..20u64 {
        let mut rng = RandomNumberGenerator::seeded(seed);
        let map = GameMap::generate(&mut rng);
        let seen = reachable_from(&map, map.rooms[0].center());
        for room in map.rooms.iter() {
            let (x, y) = room.center();
            assert!(seen[y as usize * MAP_WIDTH + x as usize]);
        }
    }
}

#[test]
fn generated_map_starts_unseen_and_unoccupied() {
    let map = GameMap::new_rooms_and_corridors();
    assert_eq!(map.width, 80);
    assert_eq!(map.height, 50);
    assert!(map.revealed_tiles.iter().all(|r| !r));
    assert!(map.visible_tiles.iter().all(|v| !v));
    assert!(map.blocked.iter().all(|b| !b));
    assert!(map.tile_content.iter().all(|c| c.is_empty()));
}

#[test]
fn rect_intersect_and_center() {
    let a = Rect::new(10, 10, 6, 6);
    assert_eq!(a, Rect { x1: 10, y1: 10, x2: 16, y2: 16 });
    assert_eq!(a.center(), (13, 13));
    let touching = Rect::new(16, 10, 6, 6);
    assert!(a.intersect(&touching));
    let apart = Rect::new(17, 10, 6, 6);
    assert!(!a.intersect(&apart));
    assert_eq!(Rect::new(-5, -5, 2, 2).center(), (-4, -4));
}

#[test]
fn index_of_tile() {
    let map = GameMap::filled(TileType::Floor);
    assert_eq!(map.get_index_xy(0, 0), 0);
    assert_eq!(map.get_index_xy(79, 0), 79);
    assert_eq!(map.get_index_xy(3, 2), 163);
    assert_eq!(map.get_index_xy(79, 49), 3999);
}

#[test]
fn exits_on_open_floor() {
    let map = GameMap::filled(TileType::Floor);
    let i = map.get_index_xy(10, 10);
    let exits = map.get_available_exits(i);
    assert_eq!(
        exits,
        vec![
            (i - 1, CARDINAL_EXIT_COST),
            (i + 1, CARDINAL_EXIT_COST),
            (i - 80, CARDINAL_EXIT_COST),
            (i + 80, CARDINAL_EXIT_COST),
            (i - 81, DIAGONAL_EXIT_COST),
            (i - 79, DIAGONAL_EXIT_COST),
            (i + 79, DIAGONAL_EXIT_COST),
            (i + 81, DIAGONAL_EXIT_COST),
        ]
    );
}

#[test]
fn exits_skip_blocked_and_edges() {
    let mut map = GameMap::filled(TileType::Floor);
    let east = map.get_index_xy(1, 0);
    map.blocked[east] = true;
    let i = map.get_index_xy(0, 0);
    let exits = map.get_available_exits(i);
    let targets: Vec<usize> = exits.iter().map(|e| e.0).collect();
    assert_eq!(targets, vec![map.get_index_xy(0, 1), map.get_index_xy(1, 1)]);
    let far = map.get_index_xy(79, 49);
    let corner: Vec<usize> = map.get_available_exits(far).iter().map(|e| e.0).collect();
    assert_eq!(corner, vec![far - 1, far - 80, far - 81]);
}

#[test]
fn opacity_is_wall() {
    let mut map = GameMap::filled(TileType::Floor);
    map.tiles[5] = TileType::Wall;
    assert!(map.is_opaque(5));
    assert!(!map.is_opaque(6));
}

#[test]
fn generated_rooms_vary_in_size_and_place() {
    let mut widths = std::collections::BTreeSet::new();
    let mut lefts = std::collections::BTreeSet::new();
    for seed in 0..10u64 {
        let mut rng = RandomNumberGenerator::seeded(seed);
        let map = GameMap::generate(&mut rng);
        for room in map.rooms.iter() {
            let w = room.x2 - room.x1;
            assert!((6..10).contains(&w));
            assert!((6..10).contains(&(room.y2 - room.y1)));
            widths.insert(w);
            lefts.insert(room.x1);
        }
    }
    assert!(widths.len() > 1);
    assert!(lefts.len() > 1);
}

#[test]
fn candidate_room_corner_is_one_before_its_floor() {
    assert_eq!(GameMap::candidate_room(6, 7, 3, 5), Rect { x1: 2, y1: 4, x2: 8, y2: 11 });
}

#[test]
fn accepts_only_rooms_clear_of_others() {
    let mut map = GameMap::filled(TileType::Wall);
    assert!(map.accepts(&Rect::new(10, 10, 6, 6)));
    map.add_room(&Rect::new(10, 10, 6, 6), false);
    assert!(!map.accepts(&Rect::new(16, 12, 6, 6)));
    assert!(map.accepts(&Rect::new(17, 12, 6, 6)));
}

#[test]
fn add_room_carves_floor_and_corridor() {
    let mut map = GameMap::filled(TileType::Wall);
    let first = Rect::new(2, 2, 6, 6);
    map.add_room(&first, true);
    assert_eq!(map.rooms, vec![first]);
    let floors = map.tiles.iter().filter(|t| **t == TileType::Floor).count();
    assert_eq!(floors, 36);
    let second = Rect::new(20, 20, 6, 6);
    map.add_room(&second, true);
    assert_eq!(map.rooms, vec![first, second]);
    // Horizontal run first: row 5 from column 5 to 23, then column 23 from row 5 to 23.
    for x in 5..=23 {
        assert_eq!(tile(&map, x, 5), TileType::Floor);
    }
    for y in 5..=23 {
        assert_eq!(tile(&map, 23, y), TileType::Floor);
    }
    assert_eq!(tile(&map, 5, 12), TileType::Wall);
    let floors = map.tiles.iter().filter(|t| **t == TileType::Floor).count();
    // Two rooms of 36 tiles, and the corridor tiles outside them.
    assert_eq!(floors, 36 + 36 + (23 - 8) + (20 - 5));

    let mut other = GameMap::filled(TileType::Wall);
    other.add_room(&first, false);
    other.add_room(&second, false);
    // Vertical run first: column 5 from row 5 to 23, then row 23 from column 5 to 23.
    for y in 5..=23 {
        assert_eq!(tile(&other, 5, y), TileType::Floor);
    }
    for x in 5..=23 {
        assert_eq!(tile(&other, x, 23), TileType::Floor);
    }
    assert_eq!(tile(&other, 12, 5), TileType::Wall);
}
