//! What holds of the systems whatever the world they run on: statuses and
//! work orders change at the end of a phase only, and no message outlives
//! the tick.

use crate::navmesh::systems::answers_requests;
use crate::pawn::components::Movement;
use crate::pawn::systems::ENEMY_ATTACK_STRENGTH;
use crate::pawn::systems::PAWN_ATTACK_STRENGTH;
use crate::world::Command;
use crate::world::Factory;
use crate::world::WorldModel;
use vstd::prelude::*;

verus! {

impl WorldModel {
    /// `after` holds the pawns of `self`, each with the identity, the side,
    /// the status and the work order that it has in `self`.
    pub open spec fn same_tags(self, after: WorldModel) -> bool {
        &&& after.pawns.len() == self.pawns.len()
        &&& forall|i: int|
            0 <= i < self.pawns.len() ==> {
                &&& (#[trigger] after.pawns[i]).entity == self.pawns[i].entity
                &&& after.pawns[i].enemy == self.pawns[i].enemy
                &&& after.pawns[i].pawn_status == self.pawns[i].pawn_status
                &&& after.pawns[i].work_order == self.pawns[i].work_order
            }
    }

    /// `after` holds the requests and the answers of `self`.
    pub open spec fn same_messages(self, after: WorldModel) -> bool {
        after.requests == self.requests && after.answers == self.answers
    }

    /// The first pass of the mining system changes no status and no order.
    pub proof fn lemma_mine_arrive_tags(self, n: nat)
        requires
            n <= self.pawns.len(),
        ensures
            self.same_tags(self.mine_arrive_upto(n)),
        decreases n,
    {
        if n > 0 {
            self.lemma_mine_arrive_tags((n - 1) as nat);
        }
    }

    /// The second pass of the mining system changes no status and no order.
    pub proof fn lemma_mine_tags(self, n: nat)
        requires
            n <= self.pawns.len(),
        ensures
            self.same_tags(self.mine_upto(n)),
        decreases n,
    {
        if n > 0 {
            self.lemma_mine_tags((n - 1) as nat);
            let before = self.mine_upto((n - 1) as nat);
            assert(before.same_tags(before.mine_step(n - 1)));
        }
    }

    /// The work system changes no status and no order.
    pub proof fn lemma_work_tags(self, factory: Factory, n: nat)
        requires
            n <= self.pawns.len(),
        ensures
            self.same_tags(self.work_upto(factory, n)),
        decreases n,
    {
        if n > 0 {
            self.lemma_work_tags(factory, (n - 1) as nat);
        }
    }

    /// The first pass of the return system changes no status and no order.
    pub proof fn lemma_return_seek_tags(self, factory: Factory, n: nat)
        requires
            n <= self.pawns.len(),
        ensures
            self.same_tags(self.return_seek_upto(factory, n)),
        decreases n,
    {
        if n > 0 {
            self.lemma_return_seek_tags(factory, (n - 1) as nat);
        }
    }

    /// The second pass of the return system changes no status and no order.
    pub proof fn lemma_return_arrive_tags(self, n: nat)
        requires
            n <= self.pawns.len(),
        ensures
            self.same_tags(self.return_arrive_upto(n)),
        decreases n,
    {
        if n > 0 {
            self.lemma_return_arrive_tags((n - 1) as nat);
            let before = self.return_arrive_upto((n - 1) as nat);
            assert(before.same_tags(before.return_arrive_step(n - 1)));
        }
    }

    /// The target search of one side changes no status and no order.
    pub proof fn lemma_search_tags(self, enemy: bool, n: nat)
        requires
            n <= self.pawns.len(),
        ensures
            self.same_tags(self.search_upto(enemy, n)),
        decreases n,
    {
        if n > 0 {
            self.lemma_search_tags(enemy, (n - 1) as nat);
        }
    }

    /// The pursuit system changes no status and no order.
    pub proof fn lemma_pursue_tags(self, n: nat)
        requires
            n <= self.pawns.len(),
        ensures
            self.same_tags(self.pursue_upto(n)),
        decreases n,
    {
        if n > 0 {
            self.lemma_pursue_tags((n - 1) as nat);
        }
    }

    /// The strikes of one side change no status and no order.
    pub proof fn lemma_attack_tags(self, enemy: bool, strength: usize, n: nat)
        requires
            n <= self.pawns.len(),
        ensures
            self.same_tags(self.attack_upto(enemy, strength, n)),
        decreases n,
    {
        if n > 0 {
            self.lemma_attack_tags(enemy, strength, (n - 1) as nat);
            let before = self.attack_upto(enemy, strength, (n - 1) as nat);
            match before.pawns[n - 1].work_order {
                Some(crate::pawn::components::WorkOrder::AttackPawn { pawn_entity }) => {
                    before.lemma_pawn_index(pawn_entity);
                },
                _ => {},
            }
            assert(before.same_tags(before.attack_step(enemy, strength, n - 1)));
        }
    }

    /// The last pass of the attack system changes no status and no order.
    pub proof fn lemma_stand_down_tags(self, n: nat)
        requires
            n <= self.pawns.len(),
        ensures
            self.same_tags(self.stand_down_upto(n)),
        decreases n,
    {
        if n > 0 {
            self.lemma_stand_down_tags((n - 1) as nat);
        }
    }

    /// The retry system changes no status and no order.
    pub proof fn lemma_retry_tags(self, n: nat)
        requires
            n <= self.pawns.len(),
        ensures
            self.same_tags(self.retry_upto(n)),
        decreases n,
    {
        if n > 0 {
            self.lemma_retry_tags((n - 1) as nat);
            let before = self.retry_upto((n - 1) as nat);
            assert(before.same_tags(before.retry_step(n - 1)));
        }
    }

    /// The factory search changes no status and no order.
    pub proof fn lemma_enemy_search_tags(self, factory: Factory, n: nat)
        requires
            n <= self.pawns.len(),
        ensures
            self.same_tags(self.enemy_search_upto(factory, n)),
        decreases n,
    {
        if n > 0 {
            self.lemma_enemy_search_tags(factory, (n - 1) as nat);
        }
    }

    /// The answers system changes no status, no order and no message as it
    /// goes through the answers.
    pub proof fn lemma_answer_tags(self, n: nat)
        requires
            n <= self.answers.len(),
        ensures
            self.same_tags(self.answer_upto(n)),
            self.same_messages(self.answer_upto(n)),
        decreases n,
    {
        if n > 0 {
            self.lemma_answer_tags((n - 1) as nat);
            let before = self.answer_upto((n - 1) as nat);
            before.lemma_pawn_index(before.answers[n - 1].entity);
            assert(before.same_tags(before.answer_step(n - 1)));
        }
    }

    /// The last pass of the movement system changes no status, no order and
    /// no message.
    pub proof fn lemma_settle_tags(self, n: nat)
        requires
            n <= self.pawns.len(),
        ensures
            self.same_tags(self.settle_upto(n)),
            self.same_messages(self.settle_upto(n)),
        decreases n,
    {
        if n > 0 {
            self.lemma_settle_tags((n - 1) as nat);
        }
    }

    /// Deferred changes leave the messages in flight as they are.
    pub proof fn lemma_apply_all_messages(self, commands: Seq<Command>)
        ensures
            self.same_messages(self.apply_all(commands)),
        decreases commands.len(),
    {
        if commands.len() > 0 {
            self.lemma_apply_all_messages(commands.drop_last());
        }
    }

    /// No system changes the status or the work order of a pawn: whatever
    /// a system asks for waits for the end of the phase, so that every
    /// system of a phase sees the pawns as the phase before left them.
    pub proof fn lemma_systems_defer(self, delta: u64)
        ensures
            self.same_tags(self.tick_timers(delta)),
            self.same_tags(self.mine_stone()),
            self.same_tags(self.work_idle_pawns()),
            self.same_tags(self.return_to_factory()),
            self.same_tags(self.search_for_attack_target_pawn()),
            self.same_tags(self.update_pathfinding_to_pawn()),
            self.same_tags(self.attack_pawn()),
            self.same_tags(self.retry_pathfinding()),
            self.same_tags(self.enemy_search_for_factory()),
            self.same_tags(self.listen_for_pathfinding_answers()),
            self.same_tags(self.move_pawn()),
    {
        let count = self.pawns.len();
        assert(self.same_tags(self.mine_stone())) by {
            self.lemma_mine_arrive_tags(count);
            self.mine_arrive_upto(count).lemma_mine_tags(count);
        }
        assert(self.same_tags(self.work_idle_pawns())) by {
            if let Some(factory) = self.factory {
                self.lemma_work_tags(factory, count);
            }
        }
        assert(self.same_tags(self.return_to_factory())) by {
            if let Some(factory) = self.factory {
                self.lemma_return_seek_tags(factory, count);
                self.return_seek_upto(factory, count).lemma_return_arrive_tags(count);
            }
        }
        assert(self.same_tags(self.search_for_attack_target_pawn())) by {
            self.lemma_search_tags(false, count);
            self.search_upto(false, count).lemma_search_tags(true, count);
        }
        assert(self.same_tags(self.update_pathfinding_to_pawn())) by {
            self.lemma_pursue_tags(count);
        }
        assert(self.same_tags(self.attack_pawn())) by {
            self.lemma_attack_tags(false, PAWN_ATTACK_STRENGTH, count);
            let first = self.attack_upto(false, PAWN_ATTACK_STRENGTH, count);
            first.lemma_attack_tags(true, ENEMY_ATTACK_STRENGTH, count);
            first.attack_upto(true, ENEMY_ATTACK_STRENGTH, count).lemma_stand_down_tags(count);
        }
        assert(self.same_tags(self.retry_pathfinding())) by {
            self.lemma_retry_tags(count);
        }
        assert(self.same_tags(self.enemy_search_for_factory())) by {
            if let Some(factory) = self.factory {
                self.lemma_enemy_search_tags(factory, count);
            }
        }
        assert(self.same_tags(self.listen_for_pathfinding_answers())) by {
            self.lemma_answer_tags(self.answers.len());
        }
        assert(self.same_tags(self.move_pawn())) by {
            self.walked().lemma_settle_tags(count);
        }
    }

    /// When a tick has ended, no deferred change, no request and no answer
    /// is left: what was asked for in the tick was answered and handed out
    /// in it.
    pub proof fn lemma_tick_leaves_no_messages(
        self,
        delta: u64,
        after: WorldModel,
        steps: Seq<Movement>,
    )
        requires
            self.ticks_to(delta, after, steps),
        ensures
            after.commands.len() == 0,
            after.requests.len() == 0,
            after.answers.len() == 0,
    {
        let answered = choose|answered: WorldModel|
            {
                &&& #[trigger] answers_requests(self.before_paths(delta), answered)
                &&& after == answered.move_phase()
                &&& steps == answered.listen_for_pathfinding_answers().movements()
            };
        answered.lemma_answer_tags(answered.answers.len());
        let handed = answered.listen_for_pathfinding_answers();
        handed.walked().lemma_settle_tags(handed.pawns.len());
        let moved = handed.move_pawn();
        moved.lemma_apply_all_messages(moved.commands);
    }
}

} // verus!
