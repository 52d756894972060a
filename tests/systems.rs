use roguelike::combat::{
    queue_damage, settle_damage, apply_damage, dead_entities, is_dead, melee_damage, melee_outcome, resolve_melee, MeleeIntent,
    MeleeOutcome, SufferDamage,
};
use roguelike::components::{CombatStats, EntityId, Point, Position, Potion};
use roguelike::indexing::Occupant;
use roguelike::items::{drink_potion, drop_item, pick_up, ItemLocation};
use roguelike::map::{GameMap, TileType};
use roguelike::spawner::{health_potion, monster_stats, player_stats};
use roguelike::visibility::{clip_to_sight, update_viewshed, Viewshed};
use rltk::{field_of_view, Algorithm2D, BaseMap};

struct FovView<'a>(&'a GameMap);

impl BaseMap for FovView<'_> {
    fn is_opaque(&self, idx: usize) -> bool {
        self.0.is_opaque(idx)
    }
}

impl Algorithm2D for FovView<'_> {
    fn dimensions(&self) -> rltk::Point {
        rltk::Point::new(self.0.width, self.0.height)
    }
}

fn eid(id: u32) -> EntityId {
    EntityId { id, generation: 1 }
}

fn view_from(map: &GameMap, x: i32, y: i32, range: i32) -> Viewshed {
    let fov: Vec<Point> = field_of_view(rltk::Point::new(x, y), range, &FovView(map))
        .into_iter()
        .map(|p| Point { x: p.x, y: p.y })
        .collect();
    let mut viewshed = Viewshed::new(range);
    viewshed.refresh(&Position { x, y }, &fov);
    viewshed
}

#[test]
fn indexing_twice_is_idempotent() {
    let mut map = GameMap::filled(TileType::Floor);
    let wall = map.get_index_xy(4, 4);
    map.tiles[wall] = TileType::Wall;
    let occupants = vec![
        Occupant { entity: eid(1), x: 2, y: 3, blocks: true },
        Occupant { entity: eid(2), x: 2, y: 3, blocks: false },
        Occupant { entity: eid(3), x: 7, y: 7, blocks: false },
        Occupant { entity: eid(4), x: 200, y: 3, blocks: true },
    ];
    map.index_entities(&occupants);
    let blocked = map.blocked.clone();
    let content = map.tile_content.clone();
    map.index_entities(&occupants);
    assert_eq!(map.blocked, blocked);
    assert_eq!(map.tile_content, content);
    let i = map.get_index_xy(2, 3);
    assert!(map.blocked[i]);
    assert_eq!(map.tile_content[i], vec![eid(1), eid(2)]);
    let j = map.get_index_xy(7, 7);
    assert!(!map.blocked[j]);
    assert_eq!(map.tile_content[j], vec![eid(3)]);
    assert!(map.blocked[map.get_index_xy(4, 4)]);
    let occupied = map.tile_content.iter().filter(|c| !c.is_empty()).count();
    assert_eq!(occupied, 2);
}

#[test]
fn indexing_clears_stale_occupants() {
    let mut map = GameMap::filled(TileType::Floor);
    map.index_entities(&vec![Occupant { entity: eid(1), x: 5, y: 5, blocks: true }]);
    map.index_entities(&vec![Occupant { entity: eid(1), x: 6, y: 5, blocks: true }]);
    assert!(!map.blocked[map.get_index_xy(5, 5)]);
    assert!(map.tile_content[map.get_index_xy(5, 5)].is_empty());
    assert!(map.blocked[map.get_index_xy(6, 5)]);
}

#[test]
fn visible_tiles_are_revealed_and_stay_revealed() {
    let mut map = GameMap::filled(TileType::Floor);
    map.reveal_visible(&vec![Point { x: 1, y: 1 }, Point { x: 2, y: 1 }, Point { x: -1, y: 0 }]);
    for i in 0..map.tiles.len() {
        if map.visible_tiles[i] {
            assert!(map.revealed_tiles[i]);
        }
    }
    assert!(map.visible_tiles[map.get_index_xy(2, 1)]);
    map.reveal_visible(&vec![Point { x: 5, y: 5 }]);
    assert!(!map.visible_tiles[map.get_index_xy(1, 1)]);
    assert!(map.revealed_tiles[map.get_index_xy(1, 1)]);
    assert!(map.visible_tiles[map.get_index_xy(5, 5)]);
    assert_eq!(map.visible_tiles.iter().filter(|v| **v).count(), 1);
    assert_eq!(map.revealed_tiles.iter().filter(|v| **v).count(), 3);
}

#[test]
fn viewshed_on_open_floor_sees_itself_within_range() {
    let map = GameMap::filled(TileType::Floor);
    let viewshed = view_from(&map, 10, 10, 8);
    assert!(!viewshed.dirty);
    assert!(viewshed.can_see(&Position { x: 10, y: 10 }));
    assert!(viewshed.can_see(&Position { x: 18, y: 10 }));
    assert!(!viewshed.can_see(&Position { x: 19, y: 10 }));
    assert!(!viewshed.can_see(&Position { x: 16, y: 16 }));
    for p in viewshed.visible_tiles.iter() {
        let (dx, dy) = (p.x - 10, p.y - 10);
        assert!(dx * dx + dy * dy <= 64);
    }
}

#[test]
fn viewshed_does_not_see_behind_a_wall() {
    let mut map = GameMap::filled(TileType::Floor);
    for y in 0..50 {
        let i = map.get_index_xy(13, y);
        map.tiles[i] = TileType::Wall;
    }
    let viewshed = view_from(&map, 10, 10, 8);
    assert!(viewshed.can_see(&Position { x: 13, y: 10 }));
    for p in viewshed.visible_tiles.iter() {
        assert!(p.x <= 13);
    }
}

#[test]
fn clip_keeps_grid_tiles_in_range() {
    let points = vec![
        Point { x: 0, y: 0 },
        Point { x: -1, y: 0 },
        Point { x: 3, y: 4 },
        Point { x: 3, y: 5 },
        Point { x: 80, y: 1 },
    ];
    let kept = clip_to_sight(&points, &Position { x: 0, y: 0 }, 5);
    assert_eq!(kept, vec![Point { x: 0, y: 0 }, Point { x: 3, y: 4 }]);
}

#[test]
fn damage_is_power_minus_defense_or_zero() {
    assert_eq!(melee_damage(5, 1), 4);
    assert_eq!(melee_damage(4, 2), 2);
    assert_eq!(melee_damage(1, 5), 0);
    assert_eq!(melee_damage(3, 3), 0);
}

#[test]
fn melee_outcomes() {
    let player = player_stats();
    let goblin = monster_stats();
    assert_eq!(melee_outcome(&player, &goblin), MeleeOutcome::Hit(4));
    let weak = CombatStats { max_hp: 5, hp: 5, defense: 0, power: 1 };
    assert_eq!(melee_outcome(&weak, &player), MeleeOutcome::CannotHurt);
    let down = CombatStats { hp: 0, ..goblin };
    assert_eq!(melee_outcome(&player, &down), MeleeOutcome::NoAttack);
    assert_eq!(melee_outcome(&down, &player), MeleeOutcome::NoAttack);
}

#[test]
fn damage_queue_sums_amounts() {
    let mut stats = CombatStats { max_hp: 20, hp: 20, defense: 0, power: 0 };
    let mut queue = SufferDamage::new(3);
    queue.new_damage(4);
    queue.new_damage(5);
    assert_eq!(queue.amount, vec![3, 4, 5]);
    assert_eq!(queue.total(), 12);
    apply_damage(&mut stats, &queue);
    assert_eq!(stats.hp, 8);
    let mut big = SufferDamage::new(10);
    big.new_damage(10);
    apply_damage(&mut stats, &big);
    assert_eq!(stats.hp, -12);
    assert!(is_dead(&stats));
}

#[test]
fn sweep_picks_the_dead() {
    let alive = CombatStats { max_hp: 10, hp: 1, defense: 0, power: 0 };
    let zero = CombatStats { hp: 0, ..alive };
    let below = CombatStats { hp: -3, ..alive };
    let all = vec![(eid(1), alive), (eid(2), zero), (eid(3), alive), (eid(4), below)];
    assert_eq!(dead_entities(&all), vec![eid(2), eid(4)]);
    assert!(dead_entities(&vec![]).is_empty());
}

#[test]
fn pickup_then_drop_lands_at_dropper() {
    let mut item = ItemLocation::OnGround(Position { x: 3, y: 3 });
    pick_up(&mut item, eid(7));
    assert_eq!(item, ItemLocation::InBackpack(eid(7)));
    drop_item(&mut item, Position { x: 9, y: 4 });
    assert_eq!(item, ItemLocation::OnGround(Position { x: 9, y: 4 }));
}

#[test]
fn drinking_heals_up_to_max() {
    let mut stats = CombatStats { max_hp: 30, hp: 10, defense: 2, power: 5 };
    drink_potion(&mut stats, &health_potion());
    assert_eq!(stats.hp, 18);
    drink_potion(&mut stats, &Potion { heal_amount: 20 });
    assert_eq!(stats.hp, 30);
    assert_eq!(stats.max_hp, 30);
}

#[test]
fn player_kills_goblin_in_four_turns() {
    let player = eid(1);
    let goblin = eid(2);
    let player_stats = player_stats();
    let mut goblin_stats = monster_stats();
    assert_eq!(player_stats, CombatStats { max_hp: 30, hp: 30, defense: 2, power: 5 });
    assert_eq!(goblin_stats, CombatStats { max_hp: 16, hp: 16, defense: 1, power: 4 });
    for turn in 1..=4 {
        let intents = vec![MeleeIntent {
            attacker: player,
            attacker_stats: player_stats,
            target: goblin,
            target_stats: goblin_stats,
        }];
        let reports = resolve_melee(&intents);
        assert_eq!(reports.len(), 1);
        assert_eq!(reports[0].outcome, MeleeOutcome::Hit(4));
        let queue = SufferDamage::new(4);
        apply_damage(&mut goblin_stats, &queue);
        assert_eq!(goblin_stats.hp, 16 - 4 * turn);
        let dead = dead_entities(&vec![(player, player_stats), (goblin, goblin_stats)]);
        if turn < 4 {
            assert!(dead.is_empty());
        } else {
            assert_eq!(dead, vec![goblin]);
        }
    }
    assert_eq!(goblin_stats.hp, 0);
}

#[test]
fn only_dirty_player_views_touch_the_map() {
    let mut map = GameMap::filled(TileType::Floor);
    let fov = vec![Point { x: 10, y: 10 }, Point { x: 11, y: 10 }, Point { x: 30, y: 30 }];
    let here = Position { x: 10, y: 10 };

    let mut monster_view = Viewshed::new(8);
    update_viewshed(&mut monster_view, &here, &fov, false, &mut map);
    assert!(!monster_view.dirty);
    assert_eq!(monster_view.visible_tiles, vec![Point { x: 10, y: 10 }, Point { x: 11, y: 10 }]);
    assert!(map.visible_tiles.iter().all(|v| !v));

    let mut player_view = Viewshed::new(8);
    update_viewshed(&mut player_view, &here, &fov, true, &mut map);
    assert!(map.visible_tiles[map.get_index_xy(11, 10)]);
    assert!(map.revealed_tiles[map.get_index_xy(10, 10)]);
    assert!(!map.visible_tiles[map.get_index_xy(30, 30)]);

    let before = player_view.visible_tiles.clone();
    update_viewshed(&mut player_view, &here, &vec![Point { x: 5, y: 5 }], true, &mut map);
    assert_eq!(player_view.visible_tiles, before);
    assert!(!map.visible_tiles[map.get_index_xy(5, 5)]);
}

#[test]
fn queued_damage_is_settled_and_cleared() {
    let first = queue_damage(None, 4);
    assert_eq!(first.amount, vec![4]);
    let second = queue_damage(Some(first), 6);
    assert_eq!(second.amount, vec![4, 6]);
    let mut stats = CombatStats { max_hp: 16, hp: 16, defense: 1, power: 4 };
    let mut queue = Some(queue_damage(Some(second), 1));
    settle_damage(&mut stats, &mut queue);
    assert_eq!(stats.hp, 5);
    assert!(queue.is_none());
    settle_damage(&mut stats, &mut queue);
    assert_eq!(stats.hp, 5);
}
