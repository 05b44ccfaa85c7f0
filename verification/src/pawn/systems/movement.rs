//! Time and movement: the timers of the pawns, and the steps they take.

use crate::pawn::components::Movement;
use crate::pawn::components::PawnBundleModel;
use crate::pawn::components::Status;
use crate::world::Command;
use crate::world::World;
use crate::world::WorldModel;
use vstd::prelude::*;

verus! {

impl WorldModel {
    /// The world after `delta` nanoseconds: the timers of every pawn
    /// advanced.
    pub open spec fn tick_timers(self, delta: u64) -> WorldModel {
        WorldModel {
            pawns: Seq::new(
                self.pawns.len(),
                |i: int| PawnBundleModel { pawn: self.pawns[i].pawn.tick(delta), ..self.pawns[i] },
            ),
            ..self
        }
    }

    /// The world with every pawn after the movement system has seen it.
    pub open spec fn walked(self) -> WorldModel {
        WorldModel {
            pawns: Seq::new(self.pawns.len(), |i: int| self.pawns[i].walked()),
            ..self
        }
    }

    /// The steps that the first `n` pawns take in this tick.
    pub open spec fn movements_upto(self, n: nat) -> Seq<Movement>
        decreases n,
    {
        if n == 0 {
            Seq::empty()
        } else {
            let before = self.movements_upto((n - 1) as nat);
            match self.pawns[n - 1].movement() {
                Some(step) => before.push(step),
                None => before,
            }
        }
    }

    /// The steps that the pawns take in this tick, in the order of the
    /// pawns.
    pub open spec fn movements(self) -> Seq<Movement> {
        self.movements_upto(self.pawns.len())
    }

    /// What the movement system does last for the pawn at `i`: a moving
    /// pawn without an order that has come to rest at the end of its path
    /// goes idle.
    pub open spec fn settle_step(self, i: int) -> WorldModel {
        let pawn = self.pawns[i];
        if pawn.pawn_status == Status::Moving && pawn.work_order is None
            && pawn.pawn.move_path.len() == 0 && !pawn.pawn.moving {
            self.issue(Command::AddStatus { entity: pawn.entity, status: Status::Idle })
        } else {
            self
        }
    }

    /// The last pass of the movement system after it has seen the first `n`
    /// pawns.
    pub open spec fn settle_upto(self, n: nat) -> WorldModel
        decreases n,
    {
        if n == 0 {
            self
        } else {
            self.settle_upto((n - 1) as nat).settle_step(n - 1)
        }
    }

    /// The world after the movement system has run: every pawn has taken
    /// its step, and then the pawns that have nowhere left to go were sent
    /// to idle.
    pub open spec fn move_pawn(self) -> WorldModel {
        self.walked().settle_upto(self.pawns.len())
    }
}

/// Advances the timers of every pawn by `delta` nanoseconds.
pub fn tick_timers(world: &mut World, delta: u64)
    requires
        old(world).wf(),
    ensures
        final(world).wf(),
        final(world)@ == old(world)@.tick_timers(delta),
{
    let count = world.pawns.len();
    let mut i: usize = 0;
    while i < count
        invariant
            i <= count,
            count == old(world).pawns.len(),
            world.pawns.len() == count,
            *world == (World { pawns: world.pawns, ..*old(world) }),
            forall|j: int|
                0 <= j < i ==> (#[trigger] world.pawns[j])@ == old(world)@.tick_timers(delta).pawns[j],
            forall|j: int| i <= j < count ==> #[trigger] world.pawns[j] == old(world).pawns[j],
        decreases count - i,
    {
        let pawn = &mut world.pawns[i].pawn;
        pawn.search_timer.tick(delta);
        pawn.mine_timer.tick(delta);
        pawn.animation_timer.tick(delta);
        pawn.retry_pathfinding_timer.tick(delta);
        i += 1;
    }
    proof {
        assert(world@.pawns =~= old(world)@.tick_timers(delta).pawns);
        assert(world@.answers =~= old(world)@.answers);
        old(world)@.lemma_pawns_rewritten(world@.pawns);
    }
}

/// Lets every pawn take its step of this tick, and sends the pawns that
/// have nowhere left to go to idle. Returns the steps taken, in the order of
/// the pawns, for whoever moves the pawns.
pub fn move_pawn(world: &mut World) -> (steps: Vec<Movement>)
    requires
        old(world).wf(),
    ensures
        final(world).wf(),
        final(world)@ == old(world)@.move_pawn(),
        steps@ == old(world)@.movements(),
{
    let mut steps: Vec<Movement> = Vec::new();
    let count = world.pawns.len();
    let mut i: usize = 0;
    while i < count
        invariant
            i <= count,
            count == old(world).pawns.len(),
            world.pawns.len() == count,
            *world == (World { pawns: world.pawns, ..*old(world) }),
            forall|j: int| 0 <= j < i ==> (#[trigger] world.pawns[j])@ == old(world)@.pawns[j].walked(),
            forall|j: int| i <= j < count ==> #[trigger] world.pawns[j] == old(world).pawns[j],
            steps@ == old(world)@.movements_upto(i as nat),
        decreases count - i,
    {
        let step = world.pawns[i].walk();
        if let Some(step) = step {
            steps.push(step);
        }
        i += 1;
    }
    proof {
        assert(world@.pawns =~= old(world)@.walked().pawns);
        assert(world@.answers =~= old(world)@.answers);
        old(world)@.lemma_pawns_rewritten(world@.pawns);
    }
    let ghost walked = world@;
    let mut i: usize = 0;
    while i < count
        invariant
            i <= count,
            world.pawns.len() == count,
            count == walked.pawns.len(),
            world.wf(),
            world@ == walked.settle_upto(i as nat),
        decreases count - i,
    {
        if world.pawns[i].pawn_status == Status::Moving && world.pawns[i].work_order.is_none()
            && world.pawns[i].pawn.move_path.len() == 0 && !world.pawns[i].pawn.moving {
            let entity = world.pawns[i].entity;
            world.add_status(entity, Status::Idle);
        }
        i += 1;
    }
    steps
}

} // verus!
