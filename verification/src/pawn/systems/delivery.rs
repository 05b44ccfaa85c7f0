//! The return to the factory: setting out, and handing over what is carried.

use crate::GameResources;
use crate::navmesh::components::PathfindRequest;
use crate::pawn::components::CarriedResources;
use crate::pawn::components::PawnBundleModel;
use crate::pawn::components::Status;
use crate::pawn::components::WorkOrder;
use crate::pawn::systems::saturating_add;
use crate::pawn::systems::spec_saturating_add;
use crate::world::Command;
use crate::world::Factory;
use crate::world::World;
use crate::world::WorldModel;
use vstd::prelude::*;

verus! {

impl WorldModel {
    /// What the return system does first for the pawn at `i`: an idle pawn
    /// that is to return to the factory asks for a path there.
    pub open spec fn return_seek_step(self, factory: Factory, i: int) -> WorldModel {
        let pawn = self.pawns[i];
        if pawn.work_order == Some(WorkOrder::ReturnToFactory) && pawn.pawn_status == Status::Idle {
            self.issue(Command::AddStatus { entity: pawn.entity, status: Status::Pathfinding }).request(
                PathfindRequest { start: pawn.tile, end: factory.tile, entity: pawn.entity },
            )
        } else {
            self
        }
    }

    /// The first pass of the return system after it has seen the first `n`
    /// pawns.
    pub open spec fn return_seek_upto(self, factory: Factory, n: nat) -> WorldModel
        decreases n,
    {
        if n == 0 {
            self
        } else {
            self.return_seek_upto(factory, (n - 1) as nat).return_seek_step(factory, n - 1)
        }
    }

    /// What the return system does next for the pawn at `i`: a pawn that was
    /// moving to the factory and has come to rest hands over what it carries
    /// and goes idle without its order.
    pub open spec fn return_arrive_step(self, i: int) -> WorldModel {
        let pawn = self.pawns[i];
        if pawn.work_order == Some(WorkOrder::ReturnToFactory) && pawn.pawn_status == Status::Moving
            && !pawn.pawn.moving {
            let delivered = self.issue(Command::ClearWorkOrder { entity: pawn.entity }).issue(
                Command::AddStatus { entity: pawn.entity, status: Status::Idle },
            ).with_pawn(i, PawnBundleModel { resources: CarriedResources(0), ..pawn });
            WorldModel {
                game_resources: GameResources {
                    stone: spec_saturating_add(self.game_resources.stone, pawn.resources.0),
                    ..self.game_resources
                },
                ..delivered
            }
        } else {
            self
        }
    }

    /// The second pass of the return system after it has seen the first `n`
    /// pawns.
    pub open spec fn return_arrive_upto(self, n: nat) -> WorldModel
        decreases n,
    {
        if n == 0 {
            self
        } else {
            self.return_arrive_upto((n - 1) as nat).return_arrive_step(n - 1)
        }
    }

    /// The world after the return system has run: first every pawn that is
    /// to set out is seen in turn, then every pawn that may have arrived.
    /// Nothing happens before the factory is placed.
    pub open spec fn return_to_factory(self) -> WorldModel {
        match self.factory {
            Some(factory) => self.return_seek_upto(factory, self.pawns.len()).return_arrive_upto(
                self.pawns.len(),
            ),
            None => self,
        }
    }
}

/// Whether `order` is the order to return to the factory.
fn is_return_order(order: Option<WorkOrder>) -> (returning: bool)
    ensures
        returning == (order == Some(WorkOrder::ReturnToFactory)),
{
    match order {
        Some(WorkOrder::ReturnToFactory) => true,
        _ => false,
    }
}

/// Sends the pawns that are to return to the factory on their way, and
/// takes in what the pawns that have arrived carry. Does nothing before the
/// factory is placed.
pub fn return_to_factory(world: &mut World)
    requires
        old(world).wf(),
    ensures
        final(world).wf(),
        final(world)@ == old(world)@.return_to_factory(),
{
    let factory = match world.factory {
        Some(factory) => factory,
        None => {
            return ;
        },
    };
    let count = world.pawns.len();
    let mut i: usize = 0;
    while i < count
        invariant
            i <= count,
            world.pawns.len() == count,
            count == old(world)@.pawns.len(),
            world.wf(),
            world@ == old(world)@.return_seek_upto(factory, i as nat),
        decreases count - i,
    {
        if is_return_order(world.pawns[i].work_order) && world.pawns[i].pawn_status
            == Status::Idle {
            let entity = world.pawns[i].entity;
            let tile = world.pawns[i].tile;
            world.add_status(entity, Status::Pathfinding);
            world.send_request(PathfindRequest { start: tile, end: factory.tile, entity });
        }
        i += 1;
    }
    let ghost sought = world@;
    let mut i: usize = 0;
    while i < count
        invariant
            i <= count,
            world.pawns.len() == count,
            world.wf(),
            world@ == sought.return_arrive_upto(i as nat),
        decreases count - i,
    {
        if is_return_order(world.pawns[i].work_order) && world.pawns[i].pawn_status
            == Status::Moving && !world.pawns[i].pawn.moving {
            let entity = world.pawns[i].entity;
            let carried = world.pawns[i].resources.0;
            let ghost seen = world@;
            world.clear_work_order(entity);
            world.add_status(entity, Status::Idle);
            let ghost before = *world;
            world.pawns[i].resources = CarriedResources(0);
            proof {
                world.lemma_pawn_changed(&before, i as int);
            }
            let ghost emptied = *world;
            world.game_resources.stone = saturating_add(world.game_resources.stone, carried);
            proof {
                assert(world@.pawns =~= emptied@.pawns);
                assert(world@.answers =~= emptied@.answers);
                emptied@.lemma_resources_keep_wf(world.game_resources);
            }
        }
        i += 1;
    }
}

} // verus!
