//! The order in which the systems run within one tick.
//!
//! Timers advance first. Then come the phases: work, attack, pathfinding,
//! and movement. Within a phase the systems see the statuses and work orders
//! as the phase before left them; what they ask to change takes effect when
//! the phase ends. Between pathfinding and movement the pathfinder answers
//! the requests of the tick, so that a pawn that gets its path moves in the
//! same tick.

use crate::navmesh::systems::answers_requests;
use crate::navmesh::systems::listen_for_pathfinding_requests;
use crate::pawn::components::Movement;
use crate::pawn::systems::attack_pawn;
use crate::pawn::systems::enemy_search_for_factory;
use crate::pawn::systems::listen_for_pathfinding_answers;
use crate::pawn::systems::mine_stone;
use crate::pawn::systems::move_pawn;
use crate::pawn::systems::retry_pathfinding;
use crate::pawn::systems::return_to_factory;
use crate::pawn::systems::search_for_attack_target_pawn;
use crate::pawn::systems::tick_timers;
use crate::pawn::systems::update_pathfinding_to_pawn;
use crate::pawn::systems::work_idle_pawns;
use crate::pawn::PawnSystemSet;
use crate::world::World;
use crate::world::WorldModel;
use vstd::prelude::*;

pub mod conduct;
pub mod laws;

verus! {

/// The phases of a tick in the order in which they run.
pub open spec fn spec_phase_order() -> Seq<PawnSystemSet> {
    seq![
        PawnSystemSet::Work,
        PawnSystemSet::Attack,
        PawnSystemSet::Pathfind,
        PawnSystemSet::Move,
    ]
}

/// The phases of a tick in the order in which they run.
pub fn phase_order() -> (order: [PawnSystemSet; 4])
    ensures
        order@ == spec_phase_order(),
{
    let order = [
        PawnSystemSet::Work,
        PawnSystemSet::Attack,
        PawnSystemSet::Pathfind,
        PawnSystemSet::Move,
    ];
    assert(order@ =~= spec_phase_order());
    order
}

impl WorldModel {
    /// The world after the work phase: mining, then the search for work,
    /// then the return to the factory.
    pub open spec fn work_phase(self) -> WorldModel {
        self.mine_stone().work_idle_pawns().return_to_factory().flushed()
    }

    /// The world after the attack phase: the search for targets, then
    /// pursuit, then the strikes.
    pub open spec fn attack_phase(self) -> WorldModel {
        self.search_for_attack_target_pawn().update_pathfinding_to_pawn().attack_pawn().flushed()
    }

    /// The world after the pathfinding phase: the retries, then the
    /// attackers' search for the factory.
    pub open spec fn pathfind_phase(self) -> WorldModel {
        self.retry_pathfinding().enemy_search_for_factory().flushed()
    }

    /// The world after the movement phase: the answers of the pathfinder
    /// are handed out, then the pawns move.
    pub open spec fn move_phase(self) -> WorldModel {
        self.listen_for_pathfinding_answers().move_pawn().flushed()
    }

    /// The world after the first part of a tick of `delta` nanoseconds: the
    /// timers, then the work, attack and pathfinding phases.
    pub open spec fn before_paths(self, delta: u64) -> WorldModel {
        self.tick_timers(delta).work_phase().attack_phase().pathfind_phase()
    }

    /// The world one tick of `delta` nanoseconds later: after the first part
    /// of the tick the pathfinder answers the requests, and then the
    /// movement phase runs.
    pub open spec fn tick(self, delta: u64) -> WorldModel {
        self.before_paths(delta).listen_for_pathfinding_requests().move_phase()
    }

    /// The steps that the pawns take in a tick of `delta` nanoseconds.
    pub open spec fn tick_steps(self, delta: u64) -> Seq<Movement> {
        self.before_paths(
            delta,
        ).listen_for_pathfinding_requests().listen_for_pathfinding_answers().movements()
    }

    /// `after` is the world one tick of `delta` nanoseconds after `self`,
    /// in which the pawns took `steps`: after the first part of the tick the
    /// pathfinder answered the requests, and then the movement phase ran.
    pub open spec fn ticks_to(self, delta: u64, after: WorldModel, steps: Seq<Movement>) -> bool {
        exists|answered: WorldModel|
            {
                &&& #[trigger] answers_requests(self.before_paths(delta), answered)
                &&& after == answered.move_phase()
                &&& steps == answered.listen_for_pathfinding_answers().movements()
            }
    }
}

/// Runs the work phase.
pub fn run_work_phase(world: &mut World)
    requires
        old(world).wf(),
    ensures
        final(world).wf(),
        final(world)@ == old(world)@.work_phase(),
{
    mine_stone(world);
    work_idle_pawns(world);
    return_to_factory(world);
    world.apply_deferred();
}

/// Runs the attack phase.
pub fn run_attack_phase(world: &mut World)
    requires
        old(world).wf(),
    ensures
        final(world).wf(),
        final(world)@ == old(world)@.attack_phase(),
{
    search_for_attack_target_pawn(world);
    update_pathfinding_to_pawn(world);
    attack_pawn(world);
    world.apply_deferred();
}

/// Runs the pathfinding phase.
pub fn run_pathfind_phase(world: &mut World)
    requires
        old(world).wf(),
    ensures
        final(world).wf(),
        final(world)@ == old(world)@.pathfind_phase(),
{
    retry_pathfinding(world);
    enemy_search_for_factory(world);
    world.apply_deferred();
}

/// Runs the movement phase and returns the steps that the pawns take.
pub fn run_move_phase(world: &mut World) -> (steps: Vec<Movement>)
    requires
        old(world).wf(),
    ensures
        final(world).wf(),
        final(world)@ == old(world)@.move_phase(),
        steps@ == old(world)@.listen_for_pathfinding_answers().movements(),
{
    listen_for_pathfinding_answers(world);
    let steps = move_pawn(world);
    world.apply_deferred();
    steps
}

/// Runs one tick of `delta` nanoseconds and returns the steps that the
/// pawns take in it.
pub fn tick(world: &mut World, delta: u64) -> (steps: Vec<Movement>)
    requires
        old(world).wf(),
    ensures
        final(world).wf(),
        final(world)@ == old(world)@.tick(delta),
        steps@ == old(world)@.tick_steps(delta),
        old(world)@.ticks_to(delta, final(world)@, steps@),
{
    tick_timers(world, delta);
    run_work_phase(world);
    run_attack_phase(world);
    run_pathfind_phase(world);
    listen_for_pathfinding_requests(world);
    let ghost answered = world@;
    let steps = run_move_phase(world);
    proof {
        assert(answers_requests(old(world)@.before_paths(delta), answered));
    }
    steps
}

} // verus!
