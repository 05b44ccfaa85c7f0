use colony_sim::factory::{check_spawn_bounds_by_navtiles, place_factory};
use colony_sim::navmesh::components::Navmesh;
use colony_sim::pawn::components::{
    facing, CarriedResources, CharacterFacing, Pawn, Status, WorkOrder,
    PAWN_HEALTH,
};
use colony_sim::pawn::systems::{
    enemy_spawn_axis, enemy_spawn_candidate, initial_pawn_spawn, listen_for_spawn_pawn_event,
    spawn_enemy_at, spawn_enemy_pawns, spawn_enemy_wave, try_enemy_spawn, INITIAL_PAWN_COUNT,
    PAWN_COST,
};
use colony_sim::pawn::{EnemyWave, PawnSystemSet, ENEMY_WAVE_TIMER};
use colony_sim::schedule::{
    phase_order, run_attack_phase, run_move_phase, run_pathfind_phase, run_work_phase, tick,
};
use colony_sim::stone::{spawn_stone_tiles, StoneKind};
use colony_sim::terrain::{ground_at, spawn_world_tiles, TileType};
use colony_sim::timer::TimerMode;
use colony_sim::world::{Command, Factory, World, FACTORY_SIZE};
use colony_sim::{EntityRef, GameResources, GameState, GridCoord};

const SECOND: u64 = 1_000_000_000;

fn at(x: usize, y: usize) -> GridCoord {
    GridCoord::new(x, y)
}

fn open_world(size: usize) -> World {
    let mut world = World::new(size);
    for x in 0..size {
        for y in 0..size {
            world.navmesh.set_walkable(x, y, true);
        }
    }
    world
}

#[test]
fn new_world_is_empty() {
    let world = World::new(5);
    assert_eq!(world.navmesh.size(), 5);
    assert!(world.pawns.is_empty());
    assert!(world.stones.is_empty());
    assert_eq!(world.factory, None);
    assert_eq!(world.game_resources, GameResources { stone: 0, pawns: 0 });
    assert_eq!(world.game_state, GameState::Loading);
    assert_eq!(world.enemy_wave, EnemyWave::default());
    assert!(world.commands.is_empty());
    assert!(world.requests.is_empty());
    assert!(world.answers.is_empty());
    assert_eq!(world.next_entity, 0);
}

#[test]
fn defaults_are_the_initial_states() {
    assert_eq!(GameState::default(), GameState::Loading);
    assert_eq!(GameResources::default(), GameResources { stone: 0, pawns: 0 });
    let wave = EnemyWave::default();
    assert_eq!(wave.wave, 0);
    assert_eq!(wave.enemy_count_multiplier, 1);
    assert_eq!(wave.enemy_spawn_timer.duration, 30 * SECOND);
    assert_eq!(wave.enemy_spawn_timer.mode, TimerMode::Repeating);
    assert_eq!(ENEMY_WAVE_TIMER, 30 * SECOND);
}

#[test]
fn spawned_pawn_is_idle_and_in_full_health() {
    let mut world = open_world(5);
    let pawn = world.spawn_pawn(at(2, 3), false).unwrap();
    assert_eq!(pawn, EntityRef(0));
    assert_eq!(world.next_entity, 1);
    assert_eq!(world.game_resources.pawns, 1);
    let bundle = &world.pawns[0];
    assert_eq!(bundle.entity, pawn);
    assert_eq!(bundle.tile, at(2, 3));
    assert!(!bundle.enemy);
    assert_eq!(bundle.pawn_status, Status::Idle);
    assert_eq!(bundle.work_order, None);
    assert_eq!(bundle.resources, CarriedResources(0));
    assert_eq!(bundle.character_facing, CharacterFacing::Left);
    assert_eq!(PAWN_HEALTH, 100);
    assert_eq!(bundle.pawn.health, 100);
    assert_eq!(bundle.pawn.max_health, 100);
    assert!(!bundle.pawn.moving);
    assert_eq!(bundle.pawn.move_to, None);
    assert!(bundle.pawn.move_path.is_empty());
    assert_eq!(bundle.pawn.animation_timer.duration, SECOND / 8);
    assert_eq!(bundle.pawn.mine_timer.duration, SECOND / 2);
    assert_eq!(bundle.pawn.mine_timer.mode, TimerMode::Repeating);
    assert_eq!(bundle.pawn.search_timer.duration, SECOND / 4);
    assert_eq!(bundle.pawn.retry_pathfinding_timer.duration, SECOND);
    assert_eq!(bundle.pawn.retry_pathfinding_timer.mode, TimerMode::Once);
}

#[test]
fn fresh_pawn_body_matches_a_spawned_one() {
    let mut world = open_world(3);
    world.spawn_pawn(at(0, 0), true).unwrap();
    let fresh = Pawn::new();
    assert_eq!(fresh.health, world.pawns[0].pawn.health);
    assert_eq!(fresh.search_timer, world.pawns[0].pawn.search_timer);
    assert_eq!(fresh.move_path, world.pawns[0].pawn.move_path);
}

#[test]
fn attackers_are_not_counted_as_pawns_of_the_player() {
    let mut world = open_world(5);
    let first = world.spawn_pawn(at(0, 0), true).unwrap();
    let second = world.spawn_pawn(at(0, 1), false).unwrap();
    assert_ne!(first, second);
    assert!(world.pawns[0].enemy);
    assert_eq!(world.game_resources.pawns, 1);
}

#[test]
fn no_pawn_is_spawned_without_an_identity_to_give() {
    let mut world = open_world(5);
    world.next_entity = u64::MAX;
    assert_eq!(world.spawn_pawn(at(0, 0), false), None);
    assert_eq!(world.spawn_stone(at(0, 0), StoneKind::Red), None);
    assert!(!place_factory(&mut world, at(0, 0)));
    assert!(world.pawns.is_empty());
    assert!(world.stones.is_empty());
    assert_eq!(world.game_resources.pawns, 0);
    world.next_entity = u64::MAX - 1;
    assert_eq!(world.spawn_pawn(at(0, 0), false), Some(EntityRef(u64::MAX - 1)));
    assert_eq!(world.next_entity, u64::MAX);
}

#[test]
fn spawned_deposit_blocks_and_occupies_its_tile() {
    let mut world = open_world(5);
    let stone = world.spawn_stone(at(2, 3), StoneKind::Salt).unwrap();
    assert_eq!(world.stones.len(), 1);
    assert_eq!(world.stones[0].entity, stone);
    assert_eq!(world.stones[0].kind, StoneKind::Salt);
    assert_eq!(world.stones[0].tile, at(2, 3));
    assert_eq!(world.stones[0].stone.remaining_resources, 1000);
    assert!(!world.navmesh.is_walkable(2, 3));
    assert!(world.navmesh.has_occupant(2, 3, stone));
    assert!(world.navmesh.is_walkable(3, 2));
    assert_eq!(world.find_stone(stone), Some(0));
    assert_eq!(world.find_stone(EntityRef(9)), None);
}

#[test]
fn no_deposit_is_spawned_outside_the_grid() {
    let mut world = open_world(5);
    assert_eq!(world.spawn_stone(at(5, 0), StoneKind::Red), None);
    assert_eq!(world.spawn_stone(at(0, 5), StoneKind::Red), None);
    assert!(world.stones.is_empty());
    assert_eq!(world.next_entity, 0);
}

#[test]
fn pawns_are_found_by_their_identity() {
    let mut world = open_world(5);
    let a = world.spawn_pawn(at(0, 0), false).unwrap();
    let b = world.spawn_pawn(at(1, 1), true).unwrap();
    assert_eq!(world.find_pawn(a), Some(0));
    assert_eq!(world.find_pawn(b), Some(1));
    assert_eq!(world.find_pawn(EntityRef(17)), None);
    assert!(world.set_pawn_tile(b, at(4, 4)));
    assert_eq!(world.pawns[1].tile, at(4, 4));
    assert_eq!(world.pawns[0].tile, at(0, 0));
    assert!(!world.set_pawn_tile(EntityRef(17), at(2, 2)));
}

#[test]
fn deferred_changes_take_effect_in_order_at_the_end_of_the_phase() {
    let mut world = open_world(5);
    let a = world.spawn_pawn(at(0, 0), false).unwrap();
    let b = world.spawn_pawn(at(1, 1), false).unwrap();
    world.add_status(a, Status::Moving);
    world.add_work_order(a, WorkOrder::AttackFactory);
    world.add_status(a, Status::Mining);
    world.add_work_order(b, WorkOrder::ReturnToFactory);
    world.clear_work_order(b);
    world.add_status(EntityRef(50), Status::Attacking);
    assert_eq!(world.commands.len(), 6);
    assert_eq!(world.pawns[0].pawn_status, Status::Idle);
    assert_eq!(world.pawns[0].work_order, None);
    world.apply_deferred();
    assert!(world.commands.is_empty());
    assert_eq!(world.pawns[0].pawn_status, Status::Mining);
    assert_eq!(world.pawns[0].work_order, Some(WorkOrder::AttackFactory));
    assert_eq!(world.pawns[1].pawn_status, Status::Idle);
    assert_eq!(world.pawns[1].work_order, None);
}

#[test]
fn removal_of_a_pawn_keeps_the_others_in_order() {
    let mut world = open_world(5);
    let a = world.spawn_pawn(at(0, 0), false).unwrap();
    let b = world.spawn_pawn(at(1, 1), false).unwrap();
    let c = world.spawn_pawn(at(2, 2), false).unwrap();
    assert!(!world.commands.contains(&Command::Despawn { entity: b }));
    world.commands.push(Command::Despawn { entity: b });
    assert!(world.commands.contains(&Command::Despawn { entity: b }));
    assert!(!world.commands.contains(&Command::Despawn { entity: a }));
    world.add_status(b, Status::Moving);
    world.add_status(c, Status::Moving);
    world.apply_deferred();
    assert_eq!(world.pawns.len(), 2);
    assert_eq!(world.pawns[0].entity, a);
    assert_eq!(world.pawns[1].entity, c);
    assert_eq!(world.pawns[1].pawn_status, Status::Moving);
    assert_eq!(world.find_pawn(b), None);
}

#[test]
fn removal_of_a_deposit_keeps_the_others_in_place() {
    let mut world = open_world(5);
    let stone = world.spawn_stone(at(2, 2), StoneKind::Tan).unwrap();
    let other = world.spawn_stone(at(3, 3), StoneKind::Tan).unwrap();
    world.navmesh.set_walkable(2, 2, true);
    world.navmesh.remove_occupant(2, 2, stone);
    world.commands.push(Command::Despawn { entity: stone });
    world.apply_deferred();
    assert_eq!(world.stones.len(), 1);
    assert_eq!(world.stones[0].entity, other);
    assert_eq!(world.find_stone(stone), None);
    assert!(world.navmesh.has_occupant(3, 3, other));
    assert!(!world.navmesh.is_walkable(3, 3));
    assert!(world.navmesh.is_walkable(2, 2));
}

#[test]
fn factory_is_placed_on_free_ground_and_blocks_it() {
    let mut world = open_world(8);
    assert_eq!(FACTORY_SIZE, 4);
    assert!(place_factory(&mut world, at(2, 3)));
    let factory = world.factory.unwrap();
    assert_eq!(factory, Factory { entity: EntityRef(0), tile: at(2, 3) });
    assert_eq!(world.game_state, GameState::Main);
    assert_eq!(world.next_entity, 1);
    for x in 0..8 {
        for y in 0..8 {
            let under = (2..6).contains(&x) && (3..7).contains(&y);
            assert_eq!(world.navmesh.is_walkable(x, y), !under);
            assert_eq!(world.navmesh.has_occupant(x, y, factory.entity), under);
        }
    }
}

#[test]
fn factory_is_not_placed_on_blocked_ground() {
    let mut world = open_world(8);
    world.navmesh.set_walkable(5, 6, false);
    assert!(!check_spawn_bounds_by_navtiles(&world.navmesh, 2, 3));
    assert!(check_spawn_bounds_by_navtiles(&world.navmesh, 1, 2));
    assert!(!place_factory(&mut world, at(2, 3)));
    assert_eq!(world.factory, None);
    assert_eq!(world.game_state, GameState::Loading);
    assert!(world.navmesh.is_walkable(2, 3));
    assert!(place_factory(&mut world, at(1, 2)));
}

#[test]
fn factory_is_not_placed_over_the_edge_of_the_grid() {
    let mut world = open_world(8);
    assert!(!place_factory(&mut world, at(5, 0)));
    assert!(!place_factory(&mut world, at(0, 5)));
    assert!(!place_factory(&mut world, at(8, 8)));
    assert!(!place_factory(&mut world, at(usize::MAX, 0)));
    assert!(place_factory(&mut world, at(4, 4)));
    let mut small = open_world(3);
    assert!(!place_factory(&mut small, at(0, 0)));
}

#[test]
fn factory_is_placed_once() {
    let mut world = open_world(12);
    assert!(place_factory(&mut world, at(0, 0)));
    assert!(!place_factory(&mut world, at(6, 6)));
    assert_eq!(world.factory.unwrap().tile, at(0, 0));
    assert!(world.navmesh.is_walkable(6, 6));
}

#[test]
fn footprint_check_reads_all_sixteen_tiles() {
    let mut navmesh = Navmesh::new(4);
    for x in 0..4 {
        for y in 0..4 {
            navmesh.set_walkable(x, y, true);
        }
    }
    assert!(check_spawn_bounds_by_navtiles(&navmesh, 0, 0));
    for x in 0..4 {
        for y in 0..4 {
            navmesh.set_walkable(x, y, false);
            assert!(!check_spawn_bounds_by_navtiles(&navmesh, 0, 0));
            navmesh.set_walkable(x, y, true);
        }
    }
}

fn places(count: usize) -> Vec<GridCoord> {
    (0..count).map(|n| at(6, n)).collect()
}

#[test]
fn pawns_are_bought_while_the_stone_lasts() {
    let mut world = open_world(8);
    world.game_resources.stone = 250;
    assert_eq!(PAWN_COST, 100);
    assert_eq!(listen_for_spawn_pawn_event(&mut world, 3, &places(3)), 0);
    assert_eq!(world.game_resources.stone, 250);
    assert!(world.pawns.is_empty());
    assert!(place_factory(&mut world, at(0, 0)));
    assert_eq!(listen_for_spawn_pawn_event(&mut world, 0, &places(0)), 0);
    assert_eq!(listen_for_spawn_pawn_event(&mut world, 1, &places(1)), 1);
    assert_eq!(world.game_resources.stone, 150);
    assert_eq!(world.game_resources.pawns, 1);
    assert_eq!(world.pawns.len(), 1);
    assert_eq!(listen_for_spawn_pawn_event(&mut world, 3, &places(3)), 1);
    assert_eq!(world.game_resources.stone, 50);
    assert_eq!(world.pawns.len(), 2);
    assert_eq!(listen_for_spawn_pawn_event(&mut world, 1, &places(1)), 0);
    assert_eq!(world.game_resources.stone, 50);
    assert_eq!(world.game_resources.pawns, 2);
    assert_eq!(world.pawns.len(), 2);
}

#[test]
fn three_requests_on_stone_for_two_buy_and_spawn_two() {
    let mut world = open_world(16);
    assert!(place_factory(&mut world, at(0, 0)));
    let first: Vec<GridCoord> = (0..10).map(|n| at(8, n)).collect();
    initial_pawn_spawn(&mut world, &first);
    world.game_resources.stone = 250;
    assert_eq!(world.game_resources.pawns, 10);
    let tiles = vec![at(5, 1), at(5, 2), at(5, 3)];
    assert_eq!(listen_for_spawn_pawn_event(&mut world, 3, &tiles), 2);
    assert_eq!(world.game_resources.stone, 50);
    assert_eq!(world.game_resources.pawns, 12);
    assert_eq!(world.pawns.len(), 12);
    for (n, tile) in tiles[..2].iter().enumerate() {
        let pawn = &world.pawns[10 + n];
        assert_eq!(pawn.tile, *tile);
        assert!(!pawn.enemy);
        assert_eq!(pawn.pawn_status, Status::Idle);
        assert_eq!(pawn.work_order, None);
        assert_eq!(pawn.resources, CarriedResources(0));
        assert_eq!(pawn.pawn.health, 100);
        assert_eq!(pawn.entity, EntityRef(11 + n as u64));
    }
}

#[test]
fn places_beyond_the_requests_go_unused() {
    let mut world = open_world(8);
    assert!(place_factory(&mut world, at(0, 0)));
    world.game_resources.stone = 100;
    assert_eq!(listen_for_spawn_pawn_event(&mut world, 2, &places(5)), 1);
    assert_eq!(world.game_resources.stone, 0);
    assert_eq!(world.pawns.len(), 1);
    assert_eq!(world.pawns[0].tile, at(6, 0));
    assert_eq!(listen_for_spawn_pawn_event(&mut world, 4, &places(4)), 0);
    assert_eq!(world.pawns.len(), 1);
}

#[test]
fn first_pawns_are_spawned_once_the_factory_stands() {
    let mut world = open_world(16);
    let tiles: Vec<GridCoord> = (0..12).map(|n| at(8, n)).collect();
    initial_pawn_spawn(&mut world, &tiles);
    assert!(world.pawns.is_empty());
    assert_eq!(world.game_state, GameState::Loading);
    assert!(place_factory(&mut world, at(0, 0)));
    initial_pawn_spawn(&mut world, &tiles);
    assert_eq!(INITIAL_PAWN_COUNT, 10);
    assert_eq!(world.pawns.len(), 10);
    assert_eq!(world.game_resources.pawns, 10);
    assert_eq!(world.game_state, GameState::Main);
    for (n, pawn) in world.pawns.iter().enumerate() {
        assert_eq!(pawn.tile, at(8, n));
        assert!(!pawn.enemy);
        assert_eq!(pawn.pawn_status, Status::Idle);
    }
    initial_pawn_spawn(&mut world, &tiles[..2].to_vec());
    assert_eq!(world.pawns.len(), 12);
}

#[test]
fn wave_counter_rises_once_per_firing_of_the_timer() {
    let mut world = open_world(8);
    assert!(spawn_enemy_pawns(&mut world, 29 * SECOND, 0).is_empty());
    assert_eq!(world.enemy_wave.wave, 0);
    assert!(spawn_enemy_pawns(&mut world, SECOND, 0).is_empty());
    assert_eq!(world.enemy_wave.wave, 1);
    assert!(spawn_enemy_pawns(&mut world, SECOND, 0).is_empty());
    assert!(spawn_enemy_pawns(&mut world, 29 * SECOND, 0).is_empty());
    assert_eq!(world.enemy_wave.wave, 2);
    world.enemy_wave.enemy_count_multiplier = 3;
    assert!(spawn_enemy_pawns(&mut world, 95 * SECOND, 0).is_empty());
    assert_eq!(world.enemy_wave.wave, 3);
    assert_eq!(world.enemy_wave.enemy_spawn_timer.elapsed, 5 * SECOND);
    assert!(world.pawns.is_empty());
}

#[test]
fn wave_timer_spawns_the_wave_when_it_fires() {
    let mut world = open_world(8);
    let defender = world.spawn_pawn(at(4, 4), false).unwrap();
    world.game_resources.stone = 7;
    world.enemy_wave.enemy_count_multiplier = 3;
    assert!(spawn_enemy_pawns(&mut world, 29 * SECOND, 100_000).is_empty());
    assert_eq!(world.pawns.len(), 1);
    let first = spawn_enemy_pawns(&mut world, SECOND, 100_000);
    assert_eq!(world.enemy_wave.wave, 1);
    assert_eq!(first.len(), 3);
    let second = spawn_enemy_pawns(&mut world, 30 * SECOND, 100_000);
    assert_eq!(world.enemy_wave.wave, 2);
    assert_eq!(second.len(), 6);
    assert_eq!(world.pawns.len(), 10);
    assert_eq!(world.pawns[0].entity, defender);
    assert_eq!(world.pawns[0].tile, at(4, 4));
    assert_eq!(world.game_resources, GameResources { stone: 7, pawns: 1 });
    for (n, entity) in first.iter().chain(second.iter()).enumerate() {
        let pawn = &world.pawns[1 + n];
        assert_eq!(pawn.entity, *entity);
        assert_eq!(*entity, EntityRef(1 + n as u64));
        assert!(pawn.enemy);
        assert_eq!(pawn.pawn_status, Status::Idle);
        assert_eq!(pawn.work_order, None);
        assert_eq!(pawn.resources, CarriedResources(0));
        assert_eq!(pawn.pawn.health, 100);
        assert_eq!(pawn.pawn.max_health, 100);
        assert!(!pawn.pawn.moving);
        assert!(pawn.pawn.move_path.is_empty());
        assert!(world.navmesh.is_walkable(pawn.tile.x, pawn.tile.y));
        assert!(pawn.tile.x == 0 || pawn.tile.y == 0);
        assert!(pawn.tile.x < 7 && pawn.tile.y < 7);
    }
    for x in 0..8 {
        for y in 0..8 {
            assert!(world.navmesh.is_walkable(x, y));
        }
    }
}

#[test]
fn wave_ends_short_when_its_draws_are_spent() {
    let mut world = open_world(8);
    let spawned = spawn_enemy_wave(&mut world, 1_000, 10);
    assert!(spawned.len() <= 10);
    assert_eq!(world.pawns.len(), spawned.len());
    let mut blocked = World::new(8);
    assert!(spawn_enemy_wave(&mut blocked, 5, 500).is_empty());
    assert!(blocked.pawns.is_empty());
    assert_eq!(blocked.next_entity, 0);
    let mut tiny = open_world(1);
    assert!(spawn_enemy_wave(&mut tiny, 5, 500).is_empty());
}

#[test]
fn wave_ends_short_when_no_identity_is_left() {
    let mut world = open_world(8);
    world.next_entity = u64::MAX - 2;
    let spawned = spawn_enemy_wave(&mut world, 5, usize::MAX);
    assert_eq!(spawned, vec![EntityRef(u64::MAX - 2), EntityRef(u64::MAX - 1)]);
    assert_eq!(world.pawns.len(), 2);
    assert_eq!(world.next_entity, u64::MAX);
    assert!(spawn_enemy_wave(&mut world, 5, usize::MAX).is_empty());
}

#[test]
fn wave_of_none_draws_nothing() {
    let mut world = open_world(8);
    assert!(spawn_enemy_wave(&mut world, 0, 1_000).is_empty());
    assert!(spawn_enemy_wave(&mut world, 4, 0).is_empty());
    assert!(world.pawns.is_empty());
}

#[test]
fn wave_puts_its_attackers_on_the_open_edge_tiles() {
    let mut world = World::new(6);
    world.navmesh.set_walkable(0, 3, true);
    world.navmesh.set_walkable(2, 0, true);
    world.navmesh.set_walkable(3, 3, true);
    world.navmesh.set_walkable(5, 2, true);
    world.navmesh.set_walkable(0, 5, true);
    let spawned = spawn_enemy_wave(&mut world, 4, 100_000);
    assert_eq!(spawned.len(), 4);
    for pawn in &world.pawns {
        assert!(pawn.tile == at(0, 3) || pawn.tile == at(2, 0));
    }
}

#[test]
fn size_of_a_wave_is_capped_at_the_largest_number() {
    let mut wave = EnemyWave::default();
    wave.wave = usize::MAX - 1;
    wave.enemy_count_multiplier = 2;
    assert_eq!(wave.tick(30 * SECOND), usize::MAX);
    assert_eq!(wave.wave, usize::MAX);
    assert_eq!(wave.tick(30 * SECOND), usize::MAX);
    assert_eq!(wave.wave, usize::MAX);
    wave.enemy_count_multiplier = 0;
    assert_eq!(wave.tick(30 * SECOND), 0);
    wave.enemy_count_multiplier = 1;
    assert_eq!(wave.tick(30 * SECOND), usize::MAX);
}

#[test]
fn spawn_candidates_lie_on_the_edges() {
    assert_eq!(enemy_spawn_candidate(128, true, false, 17), at(0, 17));
    assert_eq!(enemy_spawn_candidate(128, true, true, 17), at(128, 17));
    assert_eq!(enemy_spawn_candidate(128, false, false, 17), at(17, 0));
    assert_eq!(enemy_spawn_candidate(128, false, true, 17), at(17, 128));
}

#[test]
fn attacker_is_spawned_on_a_walkable_candidate_only() {
    let mut world = open_world(8);
    world.navmesh.set_walkable(0, 3, false);
    assert_eq!(spawn_enemy_at(&mut world, true, false, 3), None);
    assert_eq!(spawn_enemy_at(&mut world, true, true, 2), None);
    assert_eq!(spawn_enemy_at(&mut world, false, true, 2), None);
    assert!(world.pawns.is_empty());
    let enemy = spawn_enemy_at(&mut world, false, false, 3).unwrap();
    assert_eq!(world.pawns.len(), 1);
    assert_eq!(world.pawns[0].entity, enemy);
    assert_eq!(world.pawns[0].tile, at(3, 0));
    assert!(world.pawns[0].enemy);
    assert_eq!(world.pawns[0].pawn_status, Status::Idle);
    assert_eq!(world.game_resources.pawns, 0);
}

#[test]
fn random_spawns_land_on_walkable_tiles_of_the_near_edges() {
    let mut world = open_world(8);
    let mut spawned = 0;
    let mut seen_x_axis = false;
    let mut seen_y_axis = false;
    for _ in 0..400 {
        let along_x = enemy_spawn_axis();
        seen_x_axis |= along_x;
        seen_y_axis |= !along_x;
        let before = world.pawns.len();
        match try_enemy_spawn(&mut world, along_x) {
            Some(entity) => {
                spawned += 1;
                assert_eq!(world.pawns.len(), before + 1);
                let pawn = &world.pawns[before];
                assert_eq!(pawn.entity, entity);
                assert!(pawn.enemy);
                assert!(world.navmesh.is_walkable(pawn.tile.x, pawn.tile.y));
                if along_x {
                    assert_eq!(pawn.tile.x, 0);
                    assert!(pawn.tile.y < 7);
                } else {
                    assert_eq!(pawn.tile.y, 0);
                    assert!(pawn.tile.x < 7);
                }
            }
            None => assert_eq!(world.pawns.len(), before),
        }
    }
    assert!(spawned > 0);
    assert!(spawned < 400);
    assert!(seen_x_axis && seen_y_axis);
}

#[test]
fn random_spawn_is_not_tried_on_a_grid_too_small() {
    let mut world = open_world(1);
    assert_eq!(try_enemy_spawn(&mut world, true), None);
    let mut empty = World::new(0);
    assert_eq!(try_enemy_spawn(&mut empty, false), None);
}

#[test]
fn random_spawn_finds_no_place_on_a_blocked_grid() {
    let mut world = World::new(6);
    for _ in 0..50 {
        assert_eq!(try_enemy_spawn(&mut world, true), None);
        assert_eq!(try_enemy_spawn(&mut world, false), None);
    }
    assert!(world.pawns.is_empty());
}

#[test]
fn facing_of_a_pawn_that_stands_on_its_waypoint_stays() {
    for before in [
        CharacterFacing::Forward,
        CharacterFacing::Right,
        CharacterFacing::Backward,
        CharacterFacing::Left,
    ] {
        assert_eq!(facing(at(3, 3), at(3, 3), before), before);
        assert_eq!(facing(at(3, 3), at(4, 3), before), CharacterFacing::Right);
        assert_eq!(facing(at(3, 3), at(3, 2), before), CharacterFacing::Forward);
    }
}

#[test]
fn terrain_opens_tiles_and_sets_their_weight() {
    let mut world = World::new(3);
    let terrain = vec![
        vec![Some(TileType::Dirt), Some(TileType::Grass), None],
        vec![None, Some(TileType::Dirt)],
    ];
    assert_eq!(ground_at(&terrain, 0, 1), Some(TileType::Grass));
    assert_eq!(ground_at(&terrain, 1, 2), None);
    assert_eq!(ground_at(&terrain, 2, 0), None);
    assert_eq!(TileType::Dirt.weight(), 1);
    assert_eq!(TileType::Grass.weight(), 2);
    spawn_world_tiles(&mut world, &terrain);
    let expect = [
        [(true, 1), (true, 2), (false, 0)],
        [(false, 0), (true, 1), (false, 0)],
        [(false, 0), (false, 0), (false, 0)],
    ];
    for x in 0..3 {
        for y in 0..3 {
            assert_eq!(world.navmesh.is_walkable(x, y), expect[x][y].0);
            assert_eq!(world.navmesh.tiles[x][y].weight, expect[x][y].1);
        }
    }
}

#[test]
fn deposits_are_laid_out_where_there_is_rock_and_cluster_by_kind() {
    let mut world = open_world(4);
    let mut ore = vec![vec![None; 4]; 4];
    ore[0][0] = Some(StoneKind::Red);
    ore[0][1] = Some(StoneKind::Tan);
    ore[1][1] = Some(StoneKind::Salt);
    ore[1][3] = Some(StoneKind::Capped);
    ore[3][0] = Some(StoneKind::Stone);
    ore[2][2] = Some(StoneKind::Tan);
    spawn_stone_tiles(&mut world, &ore);
    assert_eq!(world.game_state, GameState::FactoryPlacement);
    let laid: Vec<(GridCoord, StoneKind)> =
        world.stones.iter().map(|stone| (stone.tile, stone.kind)).collect();
    assert_eq!(
        laid,
        vec![
            (at(0, 0), StoneKind::Red),
            (at(0, 1), StoneKind::Red),
            (at(1, 1), StoneKind::Red),
            (at(1, 3), StoneKind::Capped),
            (at(2, 2), StoneKind::Capped),
            (at(3, 0), StoneKind::Stone)
        ]
    );
    for stone in &world.stones {
        assert!(!world.navmesh.is_walkable(stone.tile.x, stone.tile.y));
        assert!(world.navmesh.has_occupant(stone.tile.x, stone.tile.y, stone.entity));
        assert_eq!(stone.stone.remaining_resources, 1000);
    }
    assert!(world.navmesh.is_walkable(3, 3));
    assert_eq!(world.next_entity, 6);
}

#[test]
fn layout_ignores_rock_outside_the_grid() {
    let mut world = open_world(2);
    let ore = vec![
        vec![None, None, Some(StoneKind::Red)],
        vec![None, Some(StoneKind::Tan)],
        vec![Some(StoneKind::Salt)],
    ];
    spawn_stone_tiles(&mut world, &ore);
    assert_eq!(world.stones.len(), 1);
    assert_eq!(world.stones[0].tile, at(1, 1));
    assert_eq!(world.stones[0].kind, StoneKind::Tan);
}

#[test]
fn phases_run_in_the_order_work_attack_pathfind_move() {
    assert_eq!(
        phase_order(),
        [
            PawnSystemSet::Work,
            PawnSystemSet::Attack,
            PawnSystemSet::Pathfind,
            PawnSystemSet::Move
        ]
    );
}

#[test]
fn pawn_goes_from_idle_to_mining_tick_by_tick() {
    let mut world = open_world(12);
    assert!(place_factory(&mut world, at(0, 0)));
    let stone = world.spawn_stone(at(8, 5), StoneKind::Red).unwrap();
    let pawn = world.spawn_pawn(at(5, 5), false).unwrap();

    let steps = tick(&mut world, SECOND / 100);
    assert_eq!(world.pawns[0].pawn_status, Status::Moving);
    assert_eq!(world.pawns[0].work_order, Some(WorkOrder::MineStone { stone_entity: stone }));
    assert!(world.requests.is_empty());
    assert!(world.answers.is_empty());
    assert!(world.commands.is_empty());
    assert_eq!(steps.len(), 1);
    assert_eq!(steps[0].entity, pawn);
    assert_eq!(steps[0].from, at(5, 5));
    assert_eq!(steps[0].toward, at(5, 5));
    assert!(world.pawns[0].pawn.moving);

    for x in 6..=8 {
        let steps = tick(&mut world, SECOND / 100);
        assert_eq!(steps.len(), 1);
        assert_eq!(steps[0].toward, at(x, 5));
        assert_eq!(world.pawns[0].character_facing, CharacterFacing::Right);
        assert_eq!(world.pawns[0].pawn_status, Status::Moving);
        assert!(world.set_pawn_tile(pawn, at(x, 5)));
        let steps = tick(&mut world, SECOND / 100);
        assert_eq!(steps.len(), 1);
        assert_eq!(steps[0].from, at(x, 5));
        assert_eq!(steps[0].toward, at(x, 5));
    }
    let steps = tick(&mut world, SECOND / 100);
    assert!(steps.is_empty());
    assert!(!world.pawns[0].pawn.moving);
    assert_eq!(world.pawns[0].pawn_status, Status::Moving);
    tick(&mut world, SECOND / 100);
    assert_eq!(world.pawns[0].pawn_status, Status::Mining);
    let ticks_so_far = 9;
    for _ in ticks_so_far..49 {
        tick(&mut world, SECOND / 100);
    }
    assert_eq!(world.stones[0].stone.remaining_resources, 1000);
    tick(&mut world, SECOND / 100);
    assert_eq!(world.stones[0].stone.remaining_resources, 999);
    assert_eq!(world.pawns[0].resources, CarriedResources(1));
}

#[test]
fn unreachable_work_ends_in_a_failed_search_within_the_tick() {
    let mut world = open_world(12);
    assert!(place_factory(&mut world, at(0, 0)));
    let pawn = world.spawn_pawn(at(6, 6), true).unwrap();
    for (x, y) in [(5, 6), (7, 6), (6, 5), (6, 7)] {
        world.navmesh.set_walkable(x, y, false);
    }
    tick(&mut world, SECOND / 100);
    assert_eq!(world.pawns[0].entity, pawn);
    assert_eq!(world.pawns[0].pawn_status, Status::PathfindingError);
    assert_eq!(world.pawns[0].work_order, None);
    for _ in 0..99 {
        tick(&mut world, SECOND / 100);
        assert_eq!(world.pawns[0].pawn_status, Status::PathfindingError);
    }
    tick(&mut world, SECOND / 100);
    assert_eq!(world.pawns[0].pawn_status, Status::Idle);
    assert_eq!(world.pawns[0].work_order, None);
}

#[test]
fn phases_apply_what_their_systems_asked_for() {
    let mut world = open_world(16);
    assert!(place_factory(&mut world, at(0, 0)));
    let a = world.spawn_pawn(at(8, 8), false).unwrap();
    let b = world.spawn_pawn(at(9, 8), true).unwrap();
    world.pawns[0].resources = CarriedResources(15);
    run_work_phase(&mut world);
    assert!(world.commands.is_empty());
    assert_eq!(world.pawns[0].pawn_status, Status::Pathfinding);
    assert_eq!(world.pawns[0].work_order, Some(WorkOrder::ReturnToFactory));
    assert_eq!(world.requests.len(), 1);
    colony_sim::pawn::systems::tick_timers(&mut world, SECOND / 4);
    run_attack_phase(&mut world);
    assert_eq!(world.pawns[0].work_order, Some(WorkOrder::AttackPawn { pawn_entity: b }));
    assert_eq!(world.pawns[1].work_order, Some(WorkOrder::AttackPawn { pawn_entity: a }));
    assert_eq!(world.pawns[0].pawn_status, Status::Pathfinding);
    run_pathfind_phase(&mut world);
    assert_eq!(world.pawns[1].pawn_status, Status::Pathfinding);
    let steps = run_move_phase(&mut world);
    assert!(steps.is_empty());
    assert!(world.commands.is_empty());
}

#[test]
fn status_is_one_of_six() {
    let all = [
        Status::Idle,
        Status::Pathfinding,
        Status::PathfindingError,
        Status::Moving,
        Status::Mining,
        Status::Attacking,
    ];
    for (i, a) in all.iter().enumerate() {
        for (j, b) in all.iter().enumerate() {
            assert_eq!(a == b, i == j);
        }
    }
}
