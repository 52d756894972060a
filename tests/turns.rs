use roguelike::ai::{is_adjacent, monster_intent, step_along_path, MonsterIntent};
use roguelike::components::{EntityId, Point, Position};
use roguelike::indexing::Occupant;
use roguelike::map::{GameMap, TileType};
use roguelike::pipeline::{pipeline, PipelineStage};
use roguelike::player::{get_item, try_move_player};
use roguelike::rect::Rect;
use roguelike::spawner::{
    add_spawn_point, build_spawn_points_by_max_amount, spawn_points_from_draws, monster_for_roll, monster_stats, random_monster, spawn_room,
    MonsterKind, MAX_ITEMS, MAX_MONSTERS,
};
use roguelike::turn::{next_state, player_input, Command, MenuResult, RunState, TurnAction};
use roguelike::visibility::Viewshed;
use rltk::RandomNumberGenerator;

fn eid(id: u32) -> EntityId {
    EntityId { id, generation: 1 }
}

fn seeing(points: &[(i32, i32)]) -> Viewshed {
    let mut v = Viewshed::new(8);
    v.visible_tiles = points.iter().map(|&(x, y)| Point { x, y }).collect();
    v.dirty = false;
    v
}

#[test]
fn controller_runs_pipeline_between_turns() {
    let none = MenuResult::NoResponse;
    assert_eq!(next_state(RunState::PreRun, None, none), (RunState::AwaitingInput, TurnAction::RunSystems));
    assert_eq!(next_state(RunState::PlayerTurn, None, none), (RunState::MonsterTurn, TurnAction::RunSystems));
    assert_eq!(next_state(RunState::MonsterTurn, None, none), (RunState::AwaitingInput, TurnAction::RunSystems));
}

#[test]
fn controller_awaiting_input() {
    let none = MenuResult::NoResponse;
    assert_eq!(next_state(RunState::AwaitingInput, None, none), (RunState::AwaitingInput, TurnAction::Wait));
    let step = Command::Move { delta_x: 1, delta_y: -1 };
    assert_eq!(next_state(RunState::AwaitingInput, Some(step), none), (RunState::PlayerTurn, TurnAction::Perform(step)));
    assert_eq!(
        next_state(RunState::AwaitingInput, Some(Command::PickUp), none),
        (RunState::PlayerTurn, TurnAction::Perform(Command::PickUp))
    );
    assert_eq!(
        next_state(RunState::AwaitingInput, Some(Command::OpenInventory), none),
        (RunState::ShowInventory, TurnAction::Wait)
    );
    assert_eq!(
        next_state(RunState::AwaitingInput, Some(Command::OpenDrop), none),
        (RunState::ShowDropItem, TurnAction::Wait)
    );
    assert_eq!(player_input(None), RunState::AwaitingInput);
    assert_eq!(player_input(Some(step)), RunState::PlayerTurn);
    assert_eq!(player_input(Some(Command::OpenDrop)), RunState::ShowDropItem);
}

#[test]
fn controller_menus() {
    let potion = eid(9);
    assert_eq!(next_state(RunState::ShowInventory, None, MenuResult::Cancel), (RunState::AwaitingInput, TurnAction::Wait));
    assert_eq!(next_state(RunState::ShowInventory, None, MenuResult::NoResponse), (RunState::ShowInventory, TurnAction::Wait));
    assert_eq!(
        next_state(RunState::ShowInventory, None, MenuResult::Selected(potion)),
        (RunState::PlayerTurn, TurnAction::Drink(potion))
    );
    assert_eq!(next_state(RunState::ShowDropItem, None, MenuResult::Cancel), (RunState::AwaitingInput, TurnAction::Wait));
    assert_eq!(next_state(RunState::ShowDropItem, None, MenuResult::NoResponse), (RunState::ShowDropItem, TurnAction::Wait));
    assert_eq!(
        next_state(RunState::ShowDropItem, None, MenuResult::Selected(potion)),
        (RunState::PlayerTurn, TurnAction::Drop(potion))
    );
}

#[test]
fn player_moves_onto_free_floor() {
    let map = GameMap::filled(TileType::Floor);
    let mut pos = Position { x: 5, y: 5 };
    let mut view = seeing(&[]);
    let target = try_move_player(1, 1, &mut pos, &mut view, &map, &vec![]);
    assert_eq!(target, None);
    assert_eq!(pos, Position { x: 6, y: 6 });
    assert!(view.dirty);
}

#[test]
fn player_cannot_leave_the_grid() {
    let map = GameMap::filled(TileType::Floor);
    let mut pos = Position { x: 0, y: 1 };
    let mut view = seeing(&[]);
    assert_eq!(try_move_player(-1, 0, &mut pos, &mut view, &map, &vec![]), None);
    assert_eq!(pos, Position { x: 0, y: 1 });
    assert!(!view.dirty);
    let mut corner = Position { x: 79, y: 49 };
    assert_eq!(try_move_player(1, 0, &mut corner, &mut view, &map, &vec![]), None);
    assert_eq!(corner, Position { x: 79, y: 49 });
}

#[test]
fn player_attacks_instead_of_entering_occupied_tile() {
    let mut map = GameMap::filled(TileType::Floor);
    map.index_entities(&vec![
        Occupant { entity: eid(2), x: 6, y: 5, blocks: true },
        Occupant { entity: eid(3), x: 6, y: 5, blocks: false },
    ]);
    let mut pos = Position { x: 5, y: 5 };
    let mut view = seeing(&[]);
    let target = try_move_player(1, 0, &mut pos, &mut view, &map, &vec![eid(2)]);
    assert_eq!(target, Some(eid(2)));
    assert_eq!(pos, Position { x: 5, y: 5 });
    assert!(!view.dirty);
}

#[test]
fn player_blocked_by_wall() {
    let mut map = GameMap::filled(TileType::Floor);
    let i = map.get_index_xy(5, 4);
    map.tiles[i] = TileType::Wall;
    map.populate_blocked();
    let mut pos = Position { x: 5, y: 5 };
    let mut view = seeing(&[]);
    assert_eq!(try_move_player(0, -1, &mut pos, &mut view, &map, &vec![]), None);
    assert_eq!(pos, Position { x: 5, y: 5 });
}

#[test]
fn picks_item_under_player() {
    let items = vec![
        (eid(4), Position { x: 1, y: 1 }),
        (eid(5), Position { x: 2, y: 2 }),
        (eid(6), Position { x: 2, y: 2 }),
    ];
    assert_eq!(get_item(&items, &Position { x: 2, y: 2 }), Some(eid(6)));
    assert_eq!(get_item(&items, &Position { x: 1, y: 1 }), Some(eid(4)));
    assert_eq!(get_item(&items, &Position { x: 3, y: 3 }), None);
}

#[test]
fn monster_decisions() {
    let stats = monster_stats();
    let player = Position { x: 10, y: 10 };
    let sees = seeing(&[(10, 10), (11, 11)]);
    let blind = seeing(&[(11, 11)]);
    assert_eq!(monster_intent(&Position { x: 11, y: 11 }, &stats, &sees, &player), MonsterIntent::Attack);
    assert_eq!(monster_intent(&Position { x: 14, y: 10 }, &stats, &sees, &player), MonsterIntent::Chase);
    assert_eq!(monster_intent(&Position { x: 11, y: 11 }, &stats, &blind, &player), MonsterIntent::Idle);
    let down = roguelike::components::CombatStats { hp: 0, ..stats };
    assert_eq!(monster_intent(&Position { x: 11, y: 11 }, &down, &sees, &player), MonsterIntent::Idle);
    assert!(is_adjacent(&Position { x: 9, y: 11 }, &player));
    assert!(!is_adjacent(&player, &player));
    assert!(!is_adjacent(&Position { x: 12, y: 10 }, &player));
}

#[test]
fn monster_steps_along_path() {
    let mut pos = Position { x: 14, y: 10 };
    let mut view = seeing(&[]);
    step_along_path(&mut pos, &mut view, &vec![10 * 80 + 14, 10 * 80 + 13, 10 * 80 + 12]);
    assert_eq!(pos, Position { x: 13, y: 10 });
    assert!(view.dirty);
    let mut still = Position { x: 3, y: 3 };
    let mut other = seeing(&[]);
    step_along_path(&mut still, &mut other, &vec![3 * 80 + 3]);
    assert_eq!(still, Position { x: 3, y: 3 });
    assert!(!other.dirty);
}

#[test]
fn spawn_points_are_distinct_room_tiles() {
    let room = Rect::new(10, 10, 6, 6);
    for seed in 0..30u64 {
        let mut rng = RandomNumberGenerator::seeded(seed);
        let points = build_spawn_points_by_max_amount(&mut rng, &room, MAX_MONSTERS);
        assert!(points.len() <= (MAX_MONSTERS - 1) as usize);
        for (a, p) in points.iter().enumerate() {
            let (x, y) = ((p % 80) as i32, (p / 80) as i32);
            assert!(x > 10 && x <= 16 && y > 10 && y <= 16);
            for q in points.iter().skip(a + 1) {
                assert_ne!(p, q);
            }
        }
        let plan = spawn_room(&mut rng, &room);
        assert!(plan.monsters.len() < MAX_MONSTERS as usize);
        assert!(plan.potions.len() < MAX_ITEMS as usize);
        for (p, _) in plan.monsters.iter() {
            assert!(p.x > 10 && p.x <= 16 && p.y > 10 && p.y <= 16);
        }
    }
}

#[test]
fn monster_kind_by_roll() {
    assert_eq!(monster_for_roll(1), MonsterKind::Orc);
    assert_eq!(monster_for_roll(2), MonsterKind::Goblin);
    let mut rng = RandomNumberGenerator::seeded(3);
    let kind = random_monster(&mut rng);
    assert!(kind == MonsterKind::Orc || kind == MonsterKind::Goblin);
}

#[test]
fn pipeline_runs_in_fixed_order() {
    assert_eq!(
        pipeline(),
        vec![
            PipelineStage::Visibility,
            PipelineStage::MonsterAI,
            PipelineStage::MapIndexing,
            PipelineStage::MeleeCombat,
            PipelineStage::Damage,
            PipelineStage::ItemPickup,
            PipelineStage::ItemUse,
            PipelineStage::ItemDrop,
        ]
    );
}

#[test]
fn player_may_step_onto_the_first_column() {
    let map = GameMap::filled(TileType::Floor);
    let mut pos = Position { x: 1, y: 0 };
    let mut view = seeing(&[]);
    assert_eq!(try_move_player(-1, 0, &mut pos, &mut view, &map, &vec![]), None);
    assert_eq!(pos, Position { x: 0, y: 0 });
    assert!(view.dirty);
}

#[test]
fn spawn_points_follow_the_roll_and_draws() {
    let room = Rect::new(10, 10, 2, 2);
    // Floor tiles: (11,11), (12,11), (11,12), (12,12).
    let draws = vec![(12, 12), (12, 12), (12, 12), (11, 11)];
    assert_eq!(spawn_points_from_draws(&room, 3, &draws), Vec::<usize>::new());
    assert_eq!(spawn_points_from_draws(&room, 4, &draws), vec![12 * 80 + 12]);
    assert_eq!(
        spawn_points_from_draws(&room, 6, &draws),
        vec![12 * 80 + 12, 11 * 80 + 11, 11 * 80 + 12]
    );
    assert_eq!(
        spawn_points_from_draws(&room, 7, &draws),
        vec![12 * 80 + 12, 11 * 80 + 11, 11 * 80 + 12, 12 * 80 + 11]
    );
    let mut points = vec![11 * 80 + 11];
    add_spawn_point(&mut points, &room, 11, 12);
    assert_eq!(points, vec![11 * 80 + 11, 12 * 80 + 11]);
}
