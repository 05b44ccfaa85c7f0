//! Paths: retries after a failed search, the attackers' search for the factory,
//! and what the answers of the pathfinder do to the pawns that asked.

use crate::GridCoord;
use crate::navmesh::components::PathfindRequest;
use crate::pawn::components::PawnBundleModel;
use crate::pawn::components::PawnModel;
use crate::pawn::components::Status;
use crate::pawn::components::WorkOrder;
use crate::world::Command;
use crate::world::Factory;
use crate::world::World;
use crate::world::WorldModel;
use std::collections::VecDeque;
use vstd::prelude::*;

verus! {

impl WorldModel {
    /// What the retry system does for the pawn at `i`: a pawn whose search
    /// for a path failed, and whose retry timer has run out, is sent back
    /// to idle without its order, and its timer starts over.
    pub open spec fn retry_step(self, i: int) -> WorldModel {
        let pawn = self.pawns[i];
        if pawn.pawn_status == Status::PathfindingError
            && pawn.pawn.retry_pathfinding_timer.finished {
            self.issue(Command::ClearWorkOrder { entity: pawn.entity }).issue(
                Command::AddStatus { entity: pawn.entity, status: Status::Idle },
            ).with_pawn(
                i,
                PawnBundleModel {
                    pawn: PawnModel {
                        retry_pathfinding_timer: pawn.pawn.retry_pathfinding_timer.spec_reset(),
                        ..pawn.pawn
                    },
                    ..pawn
                },
            )
        } else {
            self
        }
    }

    /// The retry system after it has seen the first `n` pawns.
    pub open spec fn retry_upto(self, n: nat) -> WorldModel
        decreases n,
    {
        if n == 0 {
            self
        } else {
            self.retry_upto((n - 1) as nat).retry_step(n - 1)
        }
    }

    /// The world after the retry system has run: it sees every pawn in
    /// turn.
    pub open spec fn retry_pathfinding(self) -> WorldModel {
        self.retry_upto(self.pawns.len())
    }

    /// What the factory search does for the pawn at `i`: an idle attacker
    /// asks for a path to the factory and takes the order to attack it.
    pub open spec fn enemy_search_step(self, factory: Factory, i: int) -> WorldModel {
        let pawn = self.pawns[i];
        if pawn.enemy && pawn.pawn_status == Status::Idle {
            self.request(
                PathfindRequest { start: pawn.tile, end: factory.tile, entity: pawn.entity },
            ).issue(Command::AddStatus { entity: pawn.entity, status: Status::Pathfinding }).issue(
                Command::AddWorkOrder { entity: pawn.entity, order: WorkOrder::AttackFactory },
            )
        } else {
            self
        }
    }

    /// The factory search after it has seen the first `n` pawns.
    pub open spec fn enemy_search_upto(self, factory: Factory, n: nat) -> WorldModel
        decreases n,
    {
        if n == 0 {
            self
        } else {
            self.enemy_search_upto(factory, (n - 1) as nat).enemy_search_step(factory, n - 1)
        }
    }

    /// The world after the factory search has run: it sees every pawn in
    /// turn, and does nothing before the factory is placed.
    pub open spec fn enemy_search_for_factory(self) -> WorldModel {
        match self.factory {
            Some(factory) => self.enemy_search_upto(factory, self.pawns.len()),
            None => self,
        }
    }

    /// What the answer to a request does, the answer at `k`: where the pawn
    /// that asked still waits for it, a path becomes the waypoints of the
    /// pawn, which starts to move; without a path the pawn loses its order,
    /// its search counts as failed, and its retry timer starts over.
    pub open spec fn answer_step(self, k: int) -> WorldModel {
        let answer = self.answers[k];
        match self.pawn_index(answer.entity) {
            Some(i) => if self.pawns[i].pawn_status == Status::Pathfinding {
                match answer.path {
                    Some(path) => self.with_pawn(
                        i,
                        PawnBundleModel {
                            pawn: PawnModel { move_path: path, ..self.pawns[i].pawn },
                            ..self.pawns[i]
                        },
                    ).issue(Command::AddStatus { entity: answer.entity, status: Status::Moving }),
                    None => self.with_pawn(
                        i,
                        PawnBundleModel {
                            pawn: PawnModel {
                                retry_pathfinding_timer: self.pawns[i].pawn.retry_pathfinding_timer.spec_reset(),
                                ..self.pawns[i].pawn
                            },
                            ..self.pawns[i]
                        },
                    ).issue(Command::ClearWorkOrder { entity: answer.entity }).issue(
                        Command::AddStatus {
                            entity: answer.entity,
                            status: Status::PathfindingError,
                        },
                    ),
                }
            } else {
                self
            },
            None => self,
        }
    }

    /// The answers system after it has seen the first `n` answers.
    pub open spec fn answer_upto(self, n: nat) -> WorldModel
        decreases n,
    {
        if n == 0 {
            self
        } else {
            self.answer_upto((n - 1) as nat).answer_step(n - 1)
        }
    }

    /// The world after the answers system has run: every answer was seen in
    /// turn, and none is left.
    pub open spec fn listen_for_pathfinding_answers(self) -> WorldModel {
        WorldModel { answers: Seq::empty(), ..self.answer_upto(self.answers.len()) }
    }
}

/// Sends every pawn whose search for a path failed, and whose retry timer
/// has run out, back to idle without its order, to look for work anew.
pub fn retry_pathfinding(world: &mut World)
    requires
        old(world).wf(),
    ensures
        final(world).wf(),
        final(world)@ == old(world)@.retry_pathfinding(),
{
    let count = world.pawns.len();
    let mut i: usize = 0;
    while i < count
        invariant
            i <= count,
            world.pawns.len() == count,
            count == old(world)@.pawns.len(),
            world.wf(),
            world@ == old(world)@.retry_upto(i as nat),
        decreases count - i,
    {
        if world.pawns[i].pawn_status == Status::PathfindingError
            && world.pawns[i].pawn.retry_pathfinding_timer.finished() {
            let entity = world.pawns[i].entity;
            world.clear_work_order(entity);
            world.add_status(entity, Status::Idle);
            let ghost before = *world;
            world.pawns[i].pawn.retry_pathfinding_timer.reset();
            proof {
                world.lemma_pawn_changed(&before, i as int);
            }
        }
        i += 1;
    }
}

/// Sends every idle attacker on its way to the factory. Does nothing
/// before the factory is placed.
pub fn enemy_search_for_factory(world: &mut World)
    requires
        old(world).wf(),
    ensures
        final(world).wf(),
        final(world)@ == old(world)@.enemy_search_for_factory(),
{
    let factory = match world.factory {
        Some(factory) => factory,
        None => {
            return ;
        },
    };
    let count = world.pawns.len();
    let mut i: usize = 0;
    while i < count
        invariant
            i <= count,
            world.pawns.len() == count,
            count == old(world)@.pawns.len(),
            world.wf(),
            world@ == old(world)@.enemy_search_upto(factory, i as nat),
        decreases count - i,
    {
        if world.pawns[i].enemy && world.pawns[i].pawn_status == Status::Idle {
            let entity = world.pawns[i].entity;
            let tile = world.pawns[i].tile;
            world.send_request(PathfindRequest { start: tile, end: factory.tile, entity });
            world.add_status(entity, Status::Pathfinding);
            world.add_work_order(entity, WorkOrder::AttackFactory);
        }
        i += 1;
    }
}

/// The waypoints of `path` as a queue.
fn waypoints(path: &Vec<GridCoord>) -> (queue: VecDeque<GridCoord>)
    ensures
        queue@ == path@,
{
    let mut queue: VecDeque<GridCoord> = VecDeque::new();
    let mut k: usize = 0;
    while k < path.len()
        invariant
            k <= path.len(),
            queue@ == path@.take(k as int),
        decreases path.len() - k,
    {
        queue.push_back(path[k]);
        proof {
            assert(path@.take(k + 1) =~= path@.take(k as int).push(path@[k as int]));
        }
        k += 1;
    }
    proof {
        assert(path@.take(path.len() as int) =~= path@);
    }
    queue
}

/// Hands every answer to the pawn that asked for it and still waits: a path
/// sets the pawn moving, the lack of one fails its search and starts the
/// wait for the retry.
pub fn listen_for_pathfinding_answers(world: &mut World)
    requires
        old(world).wf(),
    ensures
        final(world).wf(),
        final(world)@ == old(world)@.listen_for_pathfinding_answers(),
{
    let count = world.answers.len();
    let mut k: usize = 0;
    while k < count
        invariant
            k <= count,
            world.answers.len() == count,
            count == old(world)@.answers.len(),
            world.wf(),
            world@ == old(world)@.answer_upto(k as nat),
        decreases count - k,
    {
        let entity = world.answers[k].entity;
        if let Some(i) = world.find_pawn(entity) {
            if world.pawns[i].pawn_status == Status::Pathfinding {
                if world.answers[k].path.is_some() {
                    let queue = match &world.answers[k].path {
                        Some(path) => waypoints(path),
                        None => VecDeque::new(),
                    };
                    let ghost before = *world;
                    world.pawns[i].pawn.move_path = queue;
                    proof {
                        world.lemma_pawn_changed(&before, i as int);
                    }
                    world.add_status(entity, Status::Moving);
                } else {
                    let ghost before = *world;
                    world.pawns[i].pawn.retry_pathfinding_timer.reset();
                    proof {
                        world.lemma_pawn_changed(&before, i as int);
                    }
                    world.clear_work_order(entity);
                    world.add_status(entity, Status::PathfindingError);
                }
            }
        }
        k += 1;
    }
    let ghost answered = *world;
    world.answers.clear();
    proof {
        assert(world@.pawns =~= answered@.pawns);
        assert(world@.answers =~= Seq::empty());
        answered@.lemma_answers_keep_wf(Seq::empty());
    }
}

} // verus!
