//! Combat: how pawns pick their targets, follow them, and strike.

use crate::GameResources;
use crate::navmesh::components::EntitySet;
use crate::navmesh::components::PathfindRequest;
use crate::pawn::components::PawnBundleModel;
use crate::pawn::components::PawnModel;
use crate::pawn::components::Status;
use crate::pawn::components::WorkOrder;
use crate::pawn::systems::ENEMY_ATTACK_STRENGTH;
use crate::pawn::systems::ENEMY_TILE_RANGE;
use crate::pawn::systems::PAWN_ATTACK_STRENGTH;
use crate::pawn::systems::STRIKE_RANGE;
use crate::stone::spec_apply_mining;
use crate::world::Command;
use crate::world::World;
use crate::world::WorldModel;
use vstd::prelude::*;

verus! {

impl WorldModel {
    /// The pawn at `t` may be picked as a target by the pawn at `seeker`: it
    /// is of the other side, is not itself on an order to attack a pawn,
    /// and stands within the range in which pawns turn on each other.
    pub open spec fn is_eligible_target(self, seeker: int, t: int) -> bool {
        &&& 0 <= t < self.pawns.len()
        &&& self.pawns[t].enemy != self.pawns[seeker].enemy
        &&& !self.pawns[t].attacks_pawn()
        &&& self.pawns[seeker].tile.spec_distance_squared(self.pawns[t].tile) <= ENEMY_TILE_RANGE
            * ENEMY_TILE_RANGE
    }

    /// The pawn at `t` is the nearest that the pawn at `seeker` may pick,
    /// and the first among those equally near.
    pub open spec fn is_nearest_target(self, seeker: int, t: int) -> bool {
        &&& self.is_eligible_target(seeker, t)
        &&& forall|u: int| #[trigger]
            self.is_eligible_target(seeker, u) ==> {
                let near = self.pawns[seeker].tile.spec_distance_squared(self.pawns[t].tile);
                let other = self.pawns[seeker].tile.spec_distance_squared(self.pawns[u].tile);
                near < other || (near == other && t <= u)
            }
    }

    /// The target that the pawn at `seeker` picks, if there is one.
    pub open spec fn nearest_target(self, seeker: int) -> Option<int> {
        if exists|t: int| self.is_nearest_target(seeker, t) {
            Some(choose|t: int| self.is_nearest_target(seeker, t))
        } else {
            None
        }
    }

    /// What the target search does for the pawn at `i` when the side
    /// `enemy` is searching: a pawn of that side that is not on an order to
    /// attack a pawn, and whose search timer has run out, takes the order to
    /// attack its nearest target and asks for a path to it.
    pub open spec fn search_step(self, enemy: bool, i: int) -> WorldModel {
        let pawn = self.pawns[i];
        if pawn.enemy == enemy && !pawn.attacks_pawn() && pawn.pawn.search_timer.finished {
            match self.nearest_target(i) {
                Some(t) => self.issue(
                    Command::AddStatus { entity: pawn.entity, status: Status::Pathfinding },
                ).issue(
                    Command::AddWorkOrder {
                        entity: pawn.entity,
                        order: WorkOrder::AttackPawn { pawn_entity: self.pawns[t].entity },
                    },
                ).request(
                    PathfindRequest {
                        start: pawn.tile,
                        end: self.pawns[t].tile,
                        entity: pawn.entity,
                    },
                ),
                None => self,
            }
        } else {
            self
        }
    }

    /// The target search of one side after it has seen the first `n` pawns.
    pub open spec fn search_upto(self, enemy: bool, n: nat) -> WorldModel
        decreases n,
    {
        if n == 0 {
            self
        } else {
            self.search_upto(enemy, (n - 1) as nat).search_step(enemy, n - 1)
        }
    }

    /// The world after the target search has run: first the pawns of the
    /// player search, then the attackers.
    pub open spec fn search_for_attack_target_pawn(self) -> WorldModel {
        self.search_upto(false, self.pawns.len()).search_upto(true, self.pawns.len())
    }

    /// What the pursuit system does for the pawn at `i` that is on an order
    /// to attack a pawn and is not yet striking: where the target is gone,
    /// the pawn goes idle without its order; where the target is within
    /// reach, the pawn starts to strike; otherwise, each time its search
    /// timer runs out, it asks for a path to where the target is now.
    pub open spec fn pursue_step(self, i: int) -> WorldModel {
        let pawn = self.pawns[i];
        match pawn.work_order {
            Some(WorkOrder::AttackPawn { pawn_entity }) => if pawn.pawn_status
                == Status::Attacking {
                self
            } else {
                match self.pawn_index(pawn_entity) {
                    None => self.issue(Command::ClearWorkOrder { entity: pawn.entity }).issue(
                        Command::AddStatus { entity: pawn.entity, status: Status::Idle },
                    ),
                    Some(t) => if pawn.tile.spec_distance_squared(self.pawns[t].tile)
                        <= STRIKE_RANGE * STRIKE_RANGE {
                        self.issue(
                            Command::AddStatus { entity: pawn.entity, status: Status::Attacking },
                        )
                    } else if pawn.pawn.search_timer.finished {
                        self.request(
                            PathfindRequest {
                                start: pawn.tile,
                                end: self.pawns[t].tile,
                                entity: pawn.entity,
                            },
                        ).issue(
                            Command::AddStatus { entity: pawn.entity, status: Status::Pathfinding },
                        )
                    } else {
                        self
                    },
                }
            },
            _ => self,
        }
    }

    /// The pursuit system after it has seen the first `n` pawns.
    pub open spec fn pursue_upto(self, n: nat) -> WorldModel
        decreases n,
    {
        if n == 0 {
            self
        } else {
            self.pursue_upto((n - 1) as nat).pursue_step(n - 1)
        }
    }

    /// The world after the pursuit system has run.
    pub open spec fn update_pathfinding_to_pawn(self) -> WorldModel {
        self.pursue_upto(self.pawns.len())
    }

    /// A strike of the pawn at `i` on the pawn at `t` that is within reach:
    /// the target loses `strength` of its health. A target left without
    /// health is to be removed, a kill by a pawn of the player lowers the
    /// count of pawns, and the striker goes idle without its order. A
    /// target that is on no order takes the order to strike back.
    pub open spec fn hit(self, i: int, t: int, strength: usize) -> WorldModel {
        let attacker = self.pawns[i];
        let target = self.pawns[t];
        let health = spec_apply_mining(target.pawn.health, strength);
        let wounded = self.with_pawn(
            t,
            PawnBundleModel { pawn: PawnModel { health, ..target.pawn }, ..target },
        );
        let resolved = if health == 0 {
            let removed = wounded.issue(Command::Despawn { entity: target.entity });
            (WorldModel {
                game_resources: GameResources {
                    pawns: if attacker.enemy {
                        removed.game_resources.pawns
                    } else {
                        spec_apply_mining(removed.game_resources.pawns, 1)
                    },
                    ..removed.game_resources
                },
                ..removed
            }).issue(Command::ClearWorkOrder { entity: attacker.entity }).issue(
                Command::AddStatus { entity: attacker.entity, status: Status::Idle },
            )
        } else {
            wounded
        };
        if target.work_order is Some {
            resolved
        } else {
            resolved.issue(
                Command::AddWorkOrder {
                    entity: target.entity,
                    order: WorkOrder::AttackPawn { pawn_entity: attacker.entity },
                },
            ).issue(Command::AddStatus { entity: target.entity, status: Status::Attacking })
        }
    }

    /// What the attack system does for the pawn at `i` when the side `enemy`
    /// strikes with `strength`: a pawn of that side that is striking, on an
    /// order to attack a pawn, and whose search timer has run out, has its
    /// turn. A pawn whose removal is pending does nothing. Where the target
    /// is gone or its removal is pending, the pawn goes idle without its
    /// order; where the target is out of reach, the pawn asks for a path to
    /// it; else it strikes.
    pub open spec fn attack_step(self, enemy: bool, strength: usize, i: int) -> WorldModel {
        let pawn = self.pawns[i];
        match pawn.work_order {
            Some(WorkOrder::AttackPawn { pawn_entity }) => if pawn.enemy != enemy
                || pawn.pawn_status != Status::Attacking || !pawn.pawn.search_timer.finished
                || self.despawn_pending(pawn.entity) {
                self
            } else if self.despawn_pending(pawn_entity) || self.pawn_index(pawn_entity) is None {
                self.issue(Command::ClearWorkOrder { entity: pawn.entity }).issue(
                    Command::AddStatus { entity: pawn.entity, status: Status::Idle },
                )
            } else {
                let t = self.pawn_index(pawn_entity)->Some_0;
                if pawn.tile.spec_distance_squared(self.pawns[t].tile) > STRIKE_RANGE
                    * STRIKE_RANGE {
                    self.issue(
                        Command::AddStatus { entity: pawn.entity, status: Status::Pathfinding },
                    ).request(
                        PathfindRequest {
                            start: pawn.tile,
                            end: self.pawns[t].tile,
                            entity: pawn.entity,
                        },
                    )
                } else {
                    self.hit(i, t, strength)
                }
            },
            _ => self,
        }
    }

    /// The strikes of one side after the first `n` pawns have had their
    /// turn.
    pub open spec fn attack_upto(self, enemy: bool, strength: usize, n: nat) -> WorldModel
        decreases n,
    {
        if n == 0 {
            self
        } else {
            self.attack_upto(enemy, strength, (n - 1) as nat).attack_step(enemy, strength, n - 1)
        }
    }

    /// What the attack system does last for the pawn at `i`: a pawn that is
    /// striking without an order to attack a pawn goes idle.
    pub open spec fn stand_down_step(self, i: int) -> WorldModel {
        let pawn = self.pawns[i];
        if pawn.pawn_status == Status::Attacking && !pawn.attacks_pawn() {
            self.issue(Command::AddStatus { entity: pawn.entity, status: Status::Idle })
        } else {
            self
        }
    }

    /// The last pass of the attack system after it has seen the first `n`
    /// pawns.
    pub open spec fn stand_down_upto(self, n: nat) -> WorldModel
        decreases n,
    {
        if n == 0 {
            self
        } else {
            self.stand_down_upto((n - 1) as nat).stand_down_step(n - 1)
        }
    }

    /// The world after the attack system has run: the pawns of the player
    /// strike first, then the attackers, and then the pawns that strike
    /// without an order stand down.
    pub open spec fn attack_pawn(self) -> WorldModel {
        self.attack_upto(false, PAWN_ATTACK_STRENGTH, self.pawns.len()).attack_upto(
            true,
            ENEMY_ATTACK_STRENGTH,
            self.pawns.len(),
        ).stand_down_upto(self.pawns.len())
    }
}

/// Whether `order` is an order to attack a pawn.
fn is_attack_order(order: Option<WorkOrder>) -> (attacking: bool)
    ensures
        attacking == (order matches Some(WorkOrder::AttackPawn { .. })),
{
    match order {
        Some(WorkOrder::AttackPawn { .. }) => true,
        _ => false,
    }
}

/// The target that the pawn at `seeker` picks: the nearest pawn of the other
/// side within range that is not itself on an order to attack a pawn.
pub fn find_pawns_to_attack(world: &World, seeker: usize) -> (target: Option<usize>)
    requires
        seeker < world.pawns.len(),
    ensures
        target == match world@.nearest_target(seeker as int) {
            Some(t) => Some(t as usize),
            None => None,
        },
        target matches Some(t) ==> world@.is_nearest_target(seeker as int, t as int),
{
    let from = world.pawns[seeker].tile;
    let side = world.pawns[seeker].enemy;
    let mut best: Option<usize> = None;
    let mut best_distance: usize = 0;
    let mut u: usize = 0;
    while u < world.pawns.len()
        invariant
            u <= world.pawns.len(),
            seeker < world.pawns.len(),
            from == world@.pawns[seeker as int].tile,
            side == world@.pawns[seeker as int].enemy,
            best is None ==> forall|v: int| 0 <= v < u ==> !world@.is_eligible_target(seeker as int, v),
            best matches Some(t) ==> {
                &&& t < u
                &&& world@.is_eligible_target(seeker as int, t as int)
                &&& best_distance == from.spec_distance_squared(world@.pawns[t as int].tile)
                &&& forall|v: int|
                    0 <= v < u && world@.is_eligible_target(seeker as int, v) ==> {
                        let other = from.spec_distance_squared(world@.pawns[v].tile);
                        best_distance < other || (best_distance == other && t <= v)
                    }
            },
        decreases world.pawns.len() - u,
    {
        if world.pawns[u].enemy != side && !is_attack_order(world.pawns[u].work_order) {
            if let Some(distance) = from.distance_squared_within(
                world.pawns[u].tile,
                ENEMY_TILE_RANGE,
            ) {
                if best.is_none() || distance < best_distance {
                    best = Some(u);
                    best_distance = distance;
                }
            }
        }
        u += 1;
    }
    proof {
        match best {
            Some(t) => {
                assert(world@.is_nearest_target(seeker as int, t as int));
                let chosen = choose|c: int| world@.is_nearest_target(seeker as int, c);
                assert(world@.is_eligible_target(seeker as int, chosen));
                assert(world@.is_eligible_target(seeker as int, t as int));
            },
            None => {
                assert forall|c: int| !world@.is_nearest_target(seeker as int, c) by {
                    if world@.is_eligible_target(seeker as int, c) {
                        assert(0 <= c < world.pawns.len());
                    }
                }
            },
        }
    }
    best
}

/// Lets the pawns of one side pick their targets.
fn search_side(world: &mut World, enemy: bool)
    requires
        old(world).wf(),
    ensures
        final(world).wf(),
        final(world)@ == old(world)@.search_upto(enemy, old(world)@.pawns.len()),
        final(world)@.pawns.len() == old(world)@.pawns.len(),
{
    let count = world.pawns.len();
    let mut i: usize = 0;
    while i < count
        invariant
            i <= count,
            world.pawns.len() == count,
            count == old(world)@.pawns.len(),
            world.wf(),
            world@ == old(world)@.search_upto(enemy, i as nat),
        decreases count - i,
    {
        if world.pawns[i].enemy == enemy && !is_attack_order(world.pawns[i].work_order)
            && world.pawns[i].pawn.search_timer.finished() {
            if let Some(t) = find_pawns_to_attack(world, i) {
                let entity = world.pawns[i].entity;
                let tile = world.pawns[i].tile;
                let target = world.pawns[t].entity;
                let target_tile = world.pawns[t].tile;
                world.add_status(entity, Status::Pathfinding);
                world.add_work_order(entity, WorkOrder::AttackPawn { pawn_entity: target });
                world.send_request(PathfindRequest { start: tile, end: target_tile, entity });
            }
        }
        i += 1;
    }
}

/// Lets every pawn whose search timer has run out, and that is not yet on
/// an order to attack a pawn, turn on the nearest pawn of the other side
/// within range: the pawns of the player first, then the attackers.
pub fn search_for_attack_target_pawn(world: &mut World)
    requires
        old(world).wf(),
    ensures
        final(world).wf(),
        final(world)@ == old(world)@.search_for_attack_target_pawn(),
{
    search_side(world, false);
    search_side(world, true);
}

/// Lets every pawn that is after another pawn strike, follow, or give up.
pub fn update_pathfinding_to_pawn(world: &mut World)
    requires
        old(world).wf(),
    ensures
        final(world).wf(),
        final(world)@ == old(world)@.update_pathfinding_to_pawn(),
{
    let count = world.pawns.len();
    let mut i: usize = 0;
    while i < count
        invariant
            i <= count,
            world.pawns.len() == count,
            count == old(world)@.pawns.len(),
            world.wf(),
            world@ == old(world)@.pursue_upto(i as nat),
        decreases count - i,
    {
        if let Some(WorkOrder::AttackPawn { pawn_entity }) = world.pawns[i].work_order {
            if world.pawns[i].pawn_status != Status::Attacking {
                let entity = world.pawns[i].entity;
                let tile = world.pawns[i].tile;
                match world.find_pawn(pawn_entity) {
                    None => {
                        world.clear_work_order(entity);
                        world.add_status(entity, Status::Idle);
                    },
                    Some(t) => {
                        let target_tile = world.pawns[t].tile;
                        if tile.within_range(target_tile, STRIKE_RANGE) {
                            world.add_status(entity, Status::Attacking);
                        } else if world.pawns[i].pawn.search_timer.finished() {
                            world.send_request(
                                PathfindRequest { start: tile, end: target_tile, entity },
                            );
                            world.add_status(entity, Status::Pathfinding);
                        }
                    },
                }
            }
        }
        i += 1;
    }
}

/// A strike of the pawn at `i` on the pawn at `t`; a target that it strikes
/// down is counted among the pawns destroyed.
fn strike(world: &mut World, i: usize, t: usize, strength: usize, destroyed_pawns: &mut EntitySet)
    requires
        old(world).wf(),
        i < old(world).pawns.len(),
        t < old(world).pawns.len(),
        !old(world)@.despawn_pending(old(world).pawns[t as int].entity),
        old(world)@.tracked_by(*old(destroyed_pawns)),
    ensures
        final(world).wf(),
        final(world)@.tracked_by(*final(destroyed_pawns)),
        final(world)@ == old(world)@.hit(i as int, t as int, strength),
        final(world).pawns.len() == old(world).pawns.len(),
{
    let entity = world.pawns[i].entity;
    let by_enemy = world.pawns[i].enemy;
    let target = world.pawns[t].entity;
    let has_order = world.pawns[t].work_order.is_some();
    let health = world.pawns[t].pawn.health;
    let left: usize = if health >= strength { health - strength } else { 0 };
    let ghost before = *world;
    world.pawns[t].pawn.health = left;
    proof {
        world.lemma_pawn_changed(&before, t as int);
        before@.lemma_tracked_alike(world@, *destroyed_pawns);
    }
    if left == 0 {
        proof {
            world@.lemma_pawn_known(t as int);
        }
        world.despawn(target);
        destroyed_pawns.insert(target.0);
        if !by_enemy {
            let ghost removed = *world;
            let pawns = world.game_resources.pawns;
            world.game_resources.pawns = if pawns >= 1 { pawns - 1 } else { 0 };
            proof {
                assert(world@.pawns =~= removed@.pawns);
                assert(world@.answers =~= removed@.answers);
                removed@.lemma_resources_keep_wf(world.game_resources);
                removed@.lemma_tracked_alike(world@, *destroyed_pawns);
            }
        }
        world.clear_work_order(entity);
        world.add_status(entity, Status::Idle);
    }
    if !has_order {
        world.add_work_order(target, WorkOrder::AttackPawn { pawn_entity: entity });
        world.add_status(target, Status::Attacking);
    }
}

/// Lets the striking pawns of one side have their turn.
fn attack_side(world: &mut World, enemy: bool, strength: usize, destroyed_pawns: &mut EntitySet)
    requires
        old(world).wf(),
        old(world)@.tracked_by(*old(destroyed_pawns)),
    ensures
        final(world).wf(),
        final(world)@.tracked_by(*final(destroyed_pawns)),
        final(world)@ == old(world)@.attack_upto(enemy, strength, old(world)@.pawns.len()),
        final(world)@.pawns.len() == old(world)@.pawns.len(),
{
    let count = world.pawns.len();
    let mut i: usize = 0;
    while i < count
        invariant
            i <= count,
            world.pawns.len() == count,
            count == old(world)@.pawns.len(),
            world.wf(),
            world@ == old(world)@.attack_upto(enemy, strength, i as nat),
            world@.tracked_by(*destroyed_pawns),
        decreases count - i,
    {
        if let Some(WorkOrder::AttackPawn { pawn_entity }) = world.pawns[i].work_order {
            let entity = world.pawns[i].entity;
            if world.pawns[i].enemy == enemy && world.pawns[i].pawn_status == Status::Attacking
                && world.pawns[i].pawn.search_timer.finished() && !destroyed_pawns.contains(
                entity.0,
            ) {
                let tile = world.pawns[i].tile;
                let found = if destroyed_pawns.contains(pawn_entity.0) {
                    None
                } else {
                    world.find_pawn(pawn_entity)
                };
                match found {
                    None => {
                        world.clear_work_order(entity);
                        world.add_status(entity, Status::Idle);
                    },
                    Some(t) => {
                        let target_tile = world.pawns[t].tile;
                        if tile.within_range(target_tile, STRIKE_RANGE) {
                            strike(world, i, t, strength, destroyed_pawns);
                        } else {
                            world.add_status(entity, Status::Pathfinding);
                            world.send_request(
                                PathfindRequest { start: tile, end: target_tile, entity },
                            );
                        }
                    },
                }
            }
        }
        i += 1;
    }
}

/// Resolves the strikes of this tick: the pawns of the player strike first,
/// then the attackers; a pawn whose health is spent is removed at the end of
/// the phase, once, however many pawns strike it.
pub fn attack_pawn(world: &mut World)
    requires
        old(world).wf(),
    ensures
        final(world).wf(),
        final(world)@ == old(world)@.attack_pawn(),
{
    let mut destroyed_pawns = world.destroyed();
    attack_side(world, false, PAWN_ATTACK_STRENGTH, &mut destroyed_pawns);
    attack_side(world, true, ENEMY_ATTACK_STRENGTH, &mut destroyed_pawns);
    let ghost struck = world@;
    let count = world.pawns.len();
    let mut i: usize = 0;
    while i < count
        invariant
            i <= count,
            world.pawns.len() == count,
            count == struck.pawns.len(),
            world.wf(),
            world@ == struck.stand_down_upto(i as nat),
        decreases count - i,
    {
        if world.pawns[i].pawn_status == Status::Attacking && !is_attack_order(
            world.pawns[i].work_order,
        ) {
            let entity = world.pawns[i].entity;
            world.add_status(entity, Status::Idle);
        }
        i += 1;
    }
}

} // verus!
