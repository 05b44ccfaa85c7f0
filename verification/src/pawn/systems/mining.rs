//! Mining: how pawns strike their deposit, and what happens when it is spent.

use crate::navmesh::components::EntitySet;
use crate::pawn::components::CarriedResources;
use crate::pawn::components::PawnBundleModel;
use crate::pawn::components::Status;
use crate::pawn::components::WorkOrder;
use crate::pawn::systems::MAX_RESOURCES;
use crate::pawn::systems::RESOURCE_GAIN_RATE;
use crate::pawn::systems::saturating_add;
use crate::pawn::systems::spec_saturating_add;
use crate::stone::Stone;
use crate::stone::spec_apply_mining;
use crate::world::Command;
use crate::world::StoneDeposit;
use crate::world::World;
use crate::world::WorldModel;
use vstd::prelude::*;

verus! {

impl WorldModel {
    /// What the mining system does first for the pawn at `i`: a pawn that
    /// was moving to a deposit and has come to rest starts to mine.
    pub open spec fn mine_arrive_step(self, i: int) -> WorldModel {
        let pawn = self.pawns[i];
        if pawn.pawn_status == Status::Moving && pawn.mines() && !pawn.pawn.moving {
            self.issue(Command::AddStatus { entity: pawn.entity, status: Status::Mining })
        } else {
            self
        }
    }

    /// The first pass of the mining system after it has seen the first `n`
    /// pawns.
    pub open spec fn mine_arrive_upto(self, n: nat) -> WorldModel
        decreases n,
    {
        if n == 0 {
            self
        } else {
            self.mine_arrive_upto((n - 1) as nat).mine_arrive_step(n - 1)
        }
    }

    /// One stroke of the pawn at `i` on the deposit at `k`: where anything
    /// is left, the deposit loses the gain rate and the pawn carries that
    /// much more.
    pub open spec fn strike_stone(self, i: int, k: int) -> WorldModel {
        let stone = self.stones[k];
        let pawn = self.pawns[i];
        if stone.stone.remaining_resources > 0 {
            self.with_stone(
                k,
                StoneDeposit {
                    stone: Stone {
                        remaining_resources: spec_apply_mining(
                            stone.stone.remaining_resources,
                            RESOURCE_GAIN_RATE,
                        ),
                    },
                    ..stone
                },
            ).with_pawn(
                i,
                PawnBundleModel {
                    resources: CarriedResources(
                        spec_saturating_add(pawn.resources.0, RESOURCE_GAIN_RATE),
                    ),
                    ..pawn
                },
            )
        } else {
            self
        }
    }

    /// What follows a stroke of the pawn at `i` on the deposit at `k`: a
    /// deposit with nothing left opens its tile, leaves the occupants of the
    /// tile and is to be removed, and the pawn goes idle without its order.
    pub open spec fn settle_stone(self, i: int, k: int) -> WorldModel {
        let stone = self.stones[k];
        let pawn = self.pawns[i];
        if stone.stone.remaining_resources == 0 {
            self.unblock(k).issue(Command::Despawn { entity: stone.entity }).issue(
                Command::ClearWorkOrder { entity: pawn.entity },
            ).issue(Command::AddStatus { entity: pawn.entity, status: Status::Idle })
        } else {
            self
        }
    }

    /// What the mining system does next for the pawn at `i` that is mining:
    /// a pawn that carries all it can is sent to return to the factory.
    /// Otherwise, when its mine timer has run out: where its deposit is
    /// gone, the pawn goes idle without its order; where the removal of the
    /// deposit is pending, nothing happens; else the pawn strikes.
    pub open spec fn mine_step(self, i: int) -> WorldModel {
        let pawn = self.pawns[i];
        match pawn.work_order {
            Some(WorkOrder::MineStone { stone_entity }) => if pawn.pawn_status != Status::Mining {
                self
            } else if pawn.resources.0 >= MAX_RESOURCES {
                self.issue(Command::AddStatus { entity: pawn.entity, status: Status::Idle }).issue(
                    Command::AddWorkOrder {
                        entity: pawn.entity,
                        order: WorkOrder::ReturnToFactory,
                    },
                )
            } else if !pawn.pawn.mine_timer.finished {
                self
            } else {
                match self.stone_index(stone_entity) {
                    None => self.issue(Command::ClearWorkOrder { entity: pawn.entity }).issue(
                        Command::AddStatus { entity: pawn.entity, status: Status::Idle },
                    ),
                    Some(k) => if self.despawn_pending(stone_entity) {
                        self
                    } else {
                        self.strike_stone(i, k).settle_stone(i, k)
                    },
                }
            },
            _ => self,
        }
    }

    /// The second pass of the mining system after it has seen the first `n`
    /// pawns.
    pub open spec fn mine_upto(self, n: nat) -> WorldModel
        decreases n,
    {
        if n == 0 {
            self
        } else {
            self.mine_upto((n - 1) as nat).mine_step(n - 1)
        }
    }

    /// The world after the mining system has run: first every pawn that may
    /// have arrived at its deposit is seen in turn, then every pawn that
    /// mines.
    pub open spec fn mine_stone(self) -> WorldModel {
        self.mine_arrive_upto(self.pawns.len()).mine_upto(self.pawns.len())
    }
}

/// Whether `order` is an order to mine a deposit.
fn is_mine_order(order: Option<WorkOrder>) -> (mining: bool)
    ensures
        mining == (order matches Some(WorkOrder::MineStone { .. })),
{
    match order {
        Some(WorkOrder::MineStone { .. }) => true,
        _ => false,
    }
}

/// Lets the pawns that have arrived at their deposit start to mine, and
/// lets every mining pawn strike. A deposit that a stroke empties opens its
/// tile and is removed at the end of the phase, once, however many pawns
/// mine it.
pub fn mine_stone(world: &mut World)
    requires
        old(world).wf(),
    ensures
        final(world).wf(),
        final(world)@ == old(world)@.mine_stone(),
{
    let count = world.pawns.len();
    let mut i: usize = 0;
    while i < count
        invariant
            i <= count,
            world.pawns.len() == count,
            count == old(world)@.pawns.len(),
            world.wf(),
            world@ == old(world)@.mine_arrive_upto(i as nat),
        decreases count - i,
    {
        if world.pawns[i].pawn_status == Status::Moving && is_mine_order(world.pawns[i].work_order)
            && !world.pawns[i].pawn.moving {
            let entity = world.pawns[i].entity;
            world.add_status(entity, Status::Mining);
        }
        i += 1;
    }
    let ghost arrived = world@;
    let mut destroyed_stones = world.destroyed();
    let mut i: usize = 0;
    while i < count
        invariant
            i <= count,
            world.pawns.len() == count,
            world.wf(),
            world@ == arrived.mine_upto(i as nat),
            world@.tracked_by(destroyed_stones),
        decreases count - i,
    {
        if let Some(WorkOrder::MineStone { stone_entity }) = world.pawns[i].work_order {
            if world.pawns[i].pawn_status == Status::Mining {
                let entity = world.pawns[i].entity;
                if world.pawns[i].resources.0 >= MAX_RESOURCES {
                    world.add_status(entity, Status::Idle);
                    world.add_work_order(entity, WorkOrder::ReturnToFactory);
                } else if world.pawns[i].pawn.mine_timer.finished() {
                    match world.find_stone(stone_entity) {
                        None => {
                            world.clear_work_order(entity);
                            world.add_status(entity, Status::Idle);
                        },
                        Some(k) => {
                            if !destroyed_stones.contains(stone_entity.0) {
                                mine_stroke(world, i, k, &mut destroyed_stones);
                            }
                        },
                    }
                }
            }
        }
        i += 1;
    }
}

/// One stroke of the pawn at `i` on the deposit at `k`, and the removal of
/// the deposit where nothing is left of it, which is then counted among the
/// deposits destroyed.
fn mine_stroke(world: &mut World, i: usize, k: usize, destroyed_stones: &mut EntitySet)
    requires
        old(world).wf(),
        i < old(world).pawns.len(),
        old(world)@.is_first_stone(k as int, old(world).stones[k as int].entity),
        !old(world)@.despawn_pending(old(world).stones[k as int].entity),
        old(world)@.tracked_by(*old(destroyed_stones)),
    ensures
        final(world).wf(),
        final(world)@.tracked_by(*final(destroyed_stones)),
        final(world)@ == old(world)@.strike_stone(i as int, k as int).settle_stone(
            i as int,
            k as int,
        ),
        final(world).pawns.len() == old(world).pawns.len(),
{
    let entity = world.pawns[i].entity;
    let stone_entity = world.stones[k].entity;
    if world.stones[k].stone.remaining_resources > 0 {
        let carried = world.pawns[i].resources.0;
        let ghost before = *world;
        world.stones[k].stone.apply_mining(RESOURCE_GAIN_RATE);
        proof {
            world.lemma_stone_changed(&before, k as int);
        }
        let ghost struck = *world;
        world.pawns[i].resources = CarriedResources(saturating_add(carried, RESOURCE_GAIN_RATE));
        proof {
            world.lemma_pawn_changed(&struck, i as int);
        }
    }
    if world.stones[k].stone.remaining_resources == 0 {
        world.unblock(k);
        proof {
            world@.lemma_stone_known(k as int);
        }
        world.despawn(stone_entity);
        destroyed_stones.insert(stone_entity.0);
        world.clear_work_order(entity);
        world.add_status(entity, Status::Idle);
    }
}

} // verus!
