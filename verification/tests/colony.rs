use colony_sim::factory::place_factory;
use colony_sim::pawn::components::{Status, WorkOrder};
use colony_sim::pawn::systems::{initial_pawn_spawn, spawn_enemy_at};
use colony_sim::schedule::tick;
use colony_sim::stone::StoneKind;
use colony_sim::world::World;
use colony_sim::GridCoord;

const FRAME: u64 = 10_000_000;

fn at(x: usize, y: usize) -> GridCoord {
    GridCoord::new(x, y)
}

fn colony() -> World {
    let mut world = World::new(32);
    for x in 0..32 {
        for y in 0..32 {
            world.navmesh.set_walkable(x, y, true);
        }
    }
    world.spawn_stone(at(20, 12), StoneKind::Red).unwrap();
    world.spawn_stone(at(5, 25), StoneKind::Tan).unwrap();
    assert!(place_factory(&mut world, at(10, 10)));
    let tiles: Vec<GridCoord> = (0..4).map(|n| at(16 + n, 16)).collect();
    initial_pawn_spawn(&mut world, &tiles);
    world
}

fn run(world: &mut World, ticks: usize) {
    for _ in 0..ticks {
        for step in tick(world, FRAME) {
            assert!(world.set_pawn_tile(step.entity, step.toward));
        }
        assert!(world.commands.is_empty());
        assert!(world.requests.is_empty());
        assert!(world.answers.is_empty());
    }
}

fn mined(world: &World) -> usize {
    world.stones.iter().map(|stone| 1000 - stone.stone.remaining_resources).sum()
}

fn carried(world: &World) -> usize {
    world.pawns.iter().map(|pawn| pawn.resources.0).sum()
}

#[test]
fn pawns_mine_and_deliver_what_they_mined() {
    let mut world = colony();
    run(&mut world, 4000);
    assert_eq!(world.pawns.len(), 4);
    assert_eq!(world.stones.len(), 2);
    assert!(world.game_resources.stone >= 15 * 4);
    assert_eq!(world.game_resources.stone % 15, 0);
    assert_eq!(mined(&world), world.game_resources.stone + carried(&world));
    for pawn in &world.pawns {
        assert!(pawn.resources.0 <= 15);
        assert_eq!(pawn.pawn.health, 100);
    }
}

#[test]
fn spent_deposit_leaves_the_world_and_its_tile_opens() {
    let mut world = colony();
    world.stones[0].stone.remaining_resources = 20;
    let first = world.stones[0].entity;
    run(&mut world, 3000);
    assert_eq!(world.stones.len(), 1);
    assert_eq!(world.find_stone(first), None);
    assert!(world.navmesh.is_walkable(20, 12));
    assert!(!world.navmesh.has_occupant(20, 12, first));
    assert_eq!(mined(&world) + 20, world.game_resources.stone + carried(&world));
    for pawn in &world.pawns {
        assert_ne!(pawn.work_order, Some(WorkOrder::MineStone { stone_entity: first }));
    }
}

#[test]
fn attacker_and_defenders_fight_it_out() {
    let mut world = colony();
    let enemy = spawn_enemy_at(&mut world, false, false, 16).unwrap();
    assert_eq!(world.pawns[4].entity, enemy);
    assert_eq!(world.pawns[4].tile, at(16, 0));
    run(&mut world, 6000);
    let enemies = world.pawns.iter().filter(|pawn| pawn.enemy).count();
    let defenders = world.pawns.len() - enemies;
    assert!(enemies == 0 || defenders == 0);
    assert!(world.pawns.len() < 5);
    for pawn in &world.pawns {
        assert!(pawn.pawn.health > 0);
        if let Some(WorkOrder::AttackPawn { pawn_entity }) = pawn.work_order {
            assert!(world.find_pawn(pawn_entity).is_some() || pawn.pawn_status != Status::Attacking);
        }
    }
}
