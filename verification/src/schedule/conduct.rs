//! What the systems make of one pawn among the others: the laws of the life
//! cycle, stated for any world.

use crate::navmesh::components::PathfindRequest;
use crate::pawn::components::PawnBundleModel;
use crate::pawn::components::PawnModel;
use crate::pawn::components::Status;
use crate::pawn::components::WorkOrder;
use crate::stone::spec_apply_mining;
use crate::world::lemmas::lemma_push_contains;
use crate::world::outcome::lemma_after_push;
use crate::world::outcome::order_after;
use crate::world::outcome::status_after;
use crate::pawn::systems::ENEMY_ATTACK_STRENGTH;
use crate::pawn::systems::MAX_RESOURCES;
use crate::pawn::systems::PAWN_ATTACK_STRENGTH;
use crate::pawn::systems::RESOURCE_GAIN_RATE;
use crate::world::Command;
use crate::world::Factory;
use crate::world::WorldModel;
use crate::EntityRef;
use crate::GridCoord;
use vstd::prelude::*;

verus! {

impl WorldModel {
    /// The retry system sends the pawn at `i` back to idle: its search has
    /// failed and its retry timer has run out.
    pub open spec fn retries(self, i: int) -> bool {
        self.pawns[i].pawn_status == Status::PathfindingError
            && self.pawns[i].pawn.retry_pathfinding_timer.finished
    }

    /// A world with the same pawns under the same identities keeps the
    /// identities apart.
    pub proof fn lemma_tags_keep_ids(self, after: WorldModel)
        requires
            self.pawn_ids_distinct(),
            self.same_tags(after),
        ensures
            after.pawn_ids_distinct(),
    {
        assert forall|a: int, b: int| 0 <= a < b < after.pawns.len() implies after.pawns[a].entity
            != after.pawns[b].entity by {
            assert(self.pawns[a].entity != self.pawns[b].entity);
        }
    }

    /// What the retry system, having seen the first `n` pawns, has asked
    /// for the pawn at `i` and made of it: for a pawn that it sends back,
    /// the status idle and no order, and a retry timer that starts over;
    /// for any other pawn nothing.
    pub proof fn lemma_retry_outcome(self, n: nat, i: int, status: Status, order: Option<WorkOrder>)
        requires
            self.pawn_ids_distinct(),
            0 <= i < self.pawns.len(),
            n <= self.pawns.len(),
        ensures
            ({
                let after = self.retry_upto(n);
                let pawn = self.pawns[i];
                let due = i < n && self.retries(i);
                &&& self.same_tags(after)
                &&& forall|j: int| n <= j < self.pawns.len() ==> #[trigger] after.pawns[j] == self.pawns[j]
                &&& after.despawn_pending(pawn.entity) == self.despawn_pending(pawn.entity)
                &&& status_after(after.commands, pawn.entity, status) == if due {
                    Status::Idle
                } else {
                    status_after(self.commands, pawn.entity, status)
                }
                &&& order_after(after.commands, pawn.entity, order) == if due {
                    None
                } else {
                    order_after(self.commands, pawn.entity, order)
                }
                &&& i < n ==> after.pawns[i] == if due {
                    PawnBundleModel {
                        pawn: PawnModel {
                            retry_pathfinding_timer: pawn.pawn.retry_pathfinding_timer.spec_reset(),
                            ..pawn.pawn
                        },
                        ..pawn
                    }
                } else {
                    pawn
                }
            }),
        decreases n,
    {
        if n > 0 {
            let j = n - 1;
            self.lemma_retry_outcome(j as nat, i, status, order);
            let before = self.retry_upto(j as nat);
            let entity = self.pawns[i].entity;
            assert(before.pawns[j] == self.pawns[j]);
            if before.retries(j) {
                let subject = self.pawns[j].entity;
                let first = Command::ClearWorkOrder { entity: subject };
                let second = Command::AddStatus { entity: subject, status: Status::Idle };
                let cleared = before.commands.push(first);
                lemma_after_push(before.commands, first, entity, status, order);
                lemma_after_push(cleared, second, entity, status, order);
                lemma_push_contains(before.commands, first, Command::Despawn { entity });
                lemma_push_contains(cleared, second, Command::Despawn { entity });
                if j != i {
                    if j < i {
                        assert(self.pawns[j].entity != self.pawns[i].entity);
                    } else {
                        assert(self.pawns[i].entity != self.pawns[j].entity);
                    }
                }
            }
        }
    }

    /// A pawn whose search for a path has failed, and whose retry timer has
    /// run out, is idle and without an order when the phase of the retry
    /// system has ended, whether or not any path exists; its retry timer
    /// has started over, and nothing else of it has changed.
    pub proof fn lemma_retry_sends_to_idle(self, i: int)
        requires
            self.wf(),
            0 <= i < self.pawns.len(),
            self.retries(i),
            !self.despawn_pending(self.pawns[i].entity),
        ensures
            ({
                let pawn = self.pawns[i];
                let after = self.retry_pathfinding().flushed();
                &&& after.pawn_index(pawn.entity) is Some
                &&& after.pawn_of(pawn.entity) == PawnBundleModel {
                    pawn_status: Status::Idle,
                    work_order: None,
                    pawn: PawnModel {
                        retry_pathfinding_timer: pawn.pawn.retry_pathfinding_timer.spec_reset(),
                        ..pawn.pawn
                    },
                    ..pawn
                }
                &&& !after.pawn_of(pawn.entity).pawn.retry_pathfinding_timer.finished
            }),
    {
        let pawn = self.pawns[i];
        self.lemma_wf_pawn_ids();
        self.lemma_retry_outcome(self.pawns.len(), i, pawn.pawn_status, pawn.work_order);
        let run = self.retry_pathfinding();
        self.lemma_tags_keep_ids(run);
        run.lemma_pawn_index_at(i);
        run.lemma_flush_pawn(pawn.entity);
    }
}

impl WorldModel {
    /// The answer at `k` tells the pawn at `i`, which waits for it, that
    /// there is no path, and no other answer is for that pawn.
    pub open spec fn fails_search_of(self, k: int, i: int) -> bool {
        &&& 0 <= k < self.answers.len()
        &&& 0 <= i < self.pawns.len()
        &&& self.answers[k].entity == self.pawns[i].entity
        &&& self.answers[k].path is None
        &&& self.pawns[i].pawn_status == Status::Pathfinding
        &&& forall|j: int|
            0 <= j < self.answers.len() && j != k ==> (#[trigger] self.answers[j]).entity
                != self.pawns[i].entity
    }

    /// What the answers system, having seen the first `n` answers, has
    /// asked for a pawn whose search fails and made of it: the status of a
    /// failed search and no order, and a retry timer that starts over.
    pub proof fn lemma_answer_outcome(
        self,
        n: nat,
        k: int,
        i: int,
        status: Status,
        order: Option<WorkOrder>,
    )
        requires
            self.pawn_ids_distinct(),
            self.fails_search_of(k, i),
            n <= self.answers.len(),
        ensures
            ({
                let after = self.answer_upto(n);
                let pawn = self.pawns[i];
                &&& self.same_tags(after)
                &&& self.same_messages(after)
                &&& after.despawn_pending(pawn.entity) == self.despawn_pending(pawn.entity)
                &&& status_after(after.commands, pawn.entity, status) == if k < n {
                    Status::PathfindingError
                } else {
                    status_after(self.commands, pawn.entity, status)
                }
                &&& order_after(after.commands, pawn.entity, order) == if k < n {
                    None
                } else {
                    order_after(self.commands, pawn.entity, order)
                }
                &&& after.pawns[i] == if k < n {
                    PawnBundleModel {
                        pawn: PawnModel {
                            retry_pathfinding_timer: pawn.pawn.retry_pathfinding_timer.spec_reset(),
                            ..pawn.pawn
                        },
                        ..pawn
                    }
                } else {
                    pawn
                }
            }),
        decreases n,
    {
        if n > 0 {
            let j = n - 1;
            self.lemma_answer_outcome(j as nat, k, i, status, order);
            let before = self.answer_upto(j as nat);
            let entity = self.pawns[i].entity;
            let answer = self.answers[j];
            assert(before.answers[j] == answer);
            self.lemma_tags_keep_ids(before);
            before.lemma_pawn_index(answer.entity);
            before.lemma_pawn_index_at(i);
            let after = before.answer_step(j);
            assert(before.same_tags(after));
            if let Some(m) = before.pawn_index(answer.entity) {
                if before.pawns[m].pawn_status == Status::Pathfinding {
                    if j == k {
                        assert(m == i);
                    } else {
                        assert(answer.entity != entity);
                        assert(m != i);
                    }
                    match answer.path {
                        Some(path) => {
                            let only = Command::AddStatus {
                                entity: answer.entity,
                                status: Status::Moving,
                            };
                            lemma_after_push(before.commands, only, entity, status, order);
                            lemma_push_contains(before.commands, only, Command::Despawn { entity });
                        },
                        None => {
                            let first = Command::ClearWorkOrder { entity: answer.entity };
                            let second = Command::AddStatus {
                                entity: answer.entity,
                                status: Status::PathfindingError,
                            };
                            let cleared = before.commands.push(first);
                            lemma_after_push(before.commands, first, entity, status, order);
                            lemma_after_push(cleared, second, entity, status, order);
                            lemma_push_contains(
                                before.commands,
                                first,
                                Command::Despawn { entity },
                            );
                            lemma_push_contains(cleared, second, Command::Despawn { entity });
                        },
                    }
                }
            }
        }
    }

    /// A pawn that waits for a path and is told that there is none has the
    /// status of a failed search and no order once the answers have been
    /// handed out and what they asked for has taken effect; its waypoints
    /// are as they were, its retry timer has started over, and nothing else
    /// of it has changed.
    pub proof fn lemma_failed_search(self, k: int, i: int)
        requires
            self.wf(),
            self.fails_search_of(k, i),
            !self.despawn_pending(self.pawns[i].entity),
        ensures
            ({
                let pawn = self.pawns[i];
                let after = self.listen_for_pathfinding_answers().flushed();
                &&& after.pawn_index(pawn.entity) is Some
                &&& after.pawn_of(pawn.entity) == PawnBundleModel {
                    pawn_status: Status::PathfindingError,
                    work_order: None,
                    pawn: PawnModel {
                        retry_pathfinding_timer: pawn.pawn.retry_pathfinding_timer.spec_reset(),
                        ..pawn.pawn
                    },
                    ..pawn
                }
                &&& after.pawn_of(pawn.entity).pawn.move_path == pawn.pawn.move_path
            }),
    {
        let pawn = self.pawns[i];
        let entity = pawn.entity;
        self.lemma_wf_pawn_ids();
        self.lemma_answer_outcome(self.answers.len(), k, i, pawn.pawn_status, pawn.work_order);
        let handed = self.listen_for_pathfinding_answers();
        let seen = self.answer_upto(self.answers.len());
        assert(handed.pawns == seen.pawns && handed.commands == seen.commands);
        assert(self.same_tags(handed));
        self.lemma_tags_keep_ids(handed);
        handed.lemma_pawn_index_at(i);
        handed.lemma_flush_pawn(entity);
    }

    /// What the last pass of the movement system, having seen the first
    /// `n` pawns, has asked for the pawn at `i`: idle for a moving pawn
    /// without an order that has come to rest at the end of its path, and
    /// nothing for any other. The pass changes no pawn.
    pub proof fn lemma_settle_outcome(self, n: nat, i: int, status: Status)
        requires
            self.pawn_ids_distinct(),
            0 <= i < self.pawns.len(),
            n <= self.pawns.len(),
        ensures
            ({
                let after = self.settle_upto(n);
                let pawn = self.pawns[i];
                let due = i < n && pawn.pawn_status == Status::Moving && pawn.work_order is None
                    && pawn.pawn.move_path.len() == 0 && !pawn.pawn.moving;
                &&& after.pawns == self.pawns
                &&& after.despawn_pending(pawn.entity) == self.despawn_pending(pawn.entity)
                &&& status_after(after.commands, pawn.entity, status) == if due {
                    Status::Idle
                } else {
                    status_after(self.commands, pawn.entity, status)
                }
                &&& forall|order: Option<WorkOrder>|
                    order_after(after.commands, pawn.entity, order) == #[trigger] order_after(
                        self.commands,
                        pawn.entity,
                        order,
                    )
            }),
        decreases n,
    {
        if n > 0 {
            let j = n - 1;
            self.lemma_settle_outcome(j as nat, i, status);
            let before = self.settle_upto(j as nat);
            let entity = self.pawns[i].entity;
            let subject = self.pawns[j].entity;
            let only = Command::AddStatus { entity: subject, status: Status::Idle };
            lemma_push_contains(before.commands, only, Command::Despawn { entity });
            assert forall|order: Option<WorkOrder>|
                order_after(before.commands.push(only), entity, order) == #[trigger] order_after(
                    self.commands,
                    entity,
                    order,
                ) by {
                lemma_after_push(before.commands, only, entity, status, order);
                assert(order_after(before.commands, entity, order) == order_after(
                    self.commands,
                    entity,
                    order,
                ));
            }
            lemma_after_push(before.commands, only, entity, status, None);
            if j != i {
                if j < i {
                    assert(self.pawns[j].entity != self.pawns[i].entity);
                } else {
                    assert(self.pawns[i].entity != self.pawns[j].entity);
                }
            }
        }
    }
}

/// The requests for a path that were sent on behalf of `entity`, in the
/// order in which they were sent.
pub open spec fn requests_of(requests: Seq<PathfindRequest>, entity: EntityRef) -> Seq<PathfindRequest>
    decreases requests.len(),
{
    if requests.len() == 0 {
        Seq::empty()
    } else if requests.last().entity == entity {
        requests_of(requests.drop_last(), entity).push(requests.last())
    } else {
        requests_of(requests.drop_last(), entity)
    }
}

/// One more request is one more for the pawn it is sent for, and for no
/// other.
pub proof fn lemma_requests_push(requests: Seq<PathfindRequest>, request: PathfindRequest, entity: EntityRef)
    ensures
        requests_of(requests.push(request), entity) == if request.entity == entity {
            requests_of(requests, entity).push(request)
        } else {
            requests_of(requests, entity)
        },
{
    assert(requests.push(request).drop_last() =~= requests);
    assert(requests.push(request).last() == request);
}

impl WorldModel {
    /// The pawn at `i` is an idle pawn of the player, free to take work,
    /// that carries all it can.
    pub open spec fn is_full_and_free(self, i: int) -> bool {
        let pawn = self.pawns[i];
        &&& pawn.pawn_status == Status::Idle
        &&& !pawn.enemy
        &&& !pawn.mines()
        &&& !pawn.attacks_pawn()
        &&& pawn.work_order != Some(WorkOrder::ReturnToFactory)
        &&& pawn.resources.0 >= MAX_RESOURCES
    }

    /// What the work system, having seen the first `n` pawns, has asked for
    /// a full pawn and sent on its behalf: the status of a pawn that waits
    /// for a path, the order to return to the factory, and one request for
    /// a path from its tile to the factory. The system changes no pawn, no
    /// deposit and no tile.
    pub proof fn lemma_work_outcome(
        self,
        factory: Factory,
        n: nat,
        i: int,
        status: Status,
        order: Option<WorkOrder>,
    )
        requires
            self.pawn_ids_distinct(),
            0 <= i < self.pawns.len(),
            self.is_full_and_free(i),
            n <= self.pawns.len(),
        ensures
            ({
                let after = self.work_upto(factory, n);
                let pawn = self.pawns[i];
                &&& after == WorldModel { commands: after.commands, requests: after.requests, ..self }
                &&& after.despawn_pending(pawn.entity) == self.despawn_pending(pawn.entity)
                &&& status_after(after.commands, pawn.entity, status) == if i < n {
                    Status::Pathfinding
                } else {
                    status_after(self.commands, pawn.entity, status)
                }
                &&& order_after(after.commands, pawn.entity, order) == if i < n {
                    Some(WorkOrder::ReturnToFactory)
                } else {
                    order_after(self.commands, pawn.entity, order)
                }
                &&& requests_of(after.requests, pawn.entity) == if i < n {
                    requests_of(self.requests, pawn.entity).push(
                        PathfindRequest { start: pawn.tile, end: factory.tile, entity: pawn.entity },
                    )
                } else {
                    requests_of(self.requests, pawn.entity)
                }
            }),
        decreases n,
    {
        if n > 0 {
            let j = n - 1;
            self.lemma_work_outcome(factory, j as nat, i, status, order);
            let before = self.work_upto(factory, j as nat);
            let entity = self.pawns[i].entity;
            let subject = self.pawns[j].entity;
            let after = before.work_step(factory, j);
            if j != i {
                if j < i {
                    assert(self.pawns[j].entity != self.pawns[i].entity);
                } else {
                    assert(self.pawns[i].entity != self.pawns[j].entity);
                }
            }
            if after != before {
                let first = Command::AddStatus { entity: subject, status: Status::Pathfinding };
                let second = after.commands.last();
                let sent = after.requests.last();
                let waiting = before.commands.push(first);
                assert(after.commands == waiting.push(second));
                assert(after.requests == before.requests.push(sent));
                assert(second is AddWorkOrder);
                lemma_after_push(before.commands, first, entity, status, order);
                lemma_after_push(waiting, second, entity, status, order);
                lemma_push_contains(before.commands, first, Command::Despawn { entity });
                lemma_push_contains(waiting, second, Command::Despawn { entity });
                lemma_requests_push(before.requests, sent, entity);
            }
        }
    }

    /// An idle pawn of the player that carries all it can is sent back to
    /// the factory by the work system, whatever deposits are near: one
    /// request for a path from its tile to the factory is sent on its
    /// behalf, no pawn, no deposit and no tile changes, and when the phase
    /// has ended the pawn waits for its path on the order to return, which
    /// is no order to mine.
    pub proof fn lemma_full_pawn_returns(self, i: int)
        requires
            self.wf(),
            self.factory is Some,
            0 <= i < self.pawns.len(),
            self.is_full_and_free(i),
            !self.despawn_pending(self.pawns[i].entity),
        ensures
            ({
                let pawn = self.pawns[i];
                let run = self.work_idle_pawns();
                let after = run.flushed();
                &&& run.pawns == self.pawns
                &&& run.stones == self.stones
                &&& run.navmesh == self.navmesh
                &&& requests_of(run.requests, pawn.entity) == requests_of(
                    self.requests,
                    pawn.entity,
                ).push(
                    PathfindRequest {
                        start: pawn.tile,
                        end: self.factory->Some_0.tile,
                        entity: pawn.entity,
                    },
                )
                &&& after.pawn_index(pawn.entity) is Some
                &&& after.pawn_of(pawn.entity) == PawnBundleModel {
                    pawn_status: Status::Pathfinding,
                    work_order: Some(WorkOrder::ReturnToFactory),
                    ..pawn
                }
            }),
    {
        let pawn = self.pawns[i];
        let factory = self.factory->Some_0;
        self.lemma_wf_pawn_ids();
        self.lemma_work_outcome(factory, self.pawns.len(), i, pawn.pawn_status, pawn.work_order);
        let run = self.work_idle_pawns();
        run.lemma_pawn_index_at(i);
        run.lemma_flush_pawn(pawn.entity);
    }
}

impl WorldModel {
    /// A target that a strike leaves alive strikes back if and only if it
    /// was on no order: with no deferred change pending before the strike,
    /// the target afterwards has lost the strength of the strike in health,
    /// and is on the order to attack the striker, and striking, where it
    /// had no order; a target that had an order keeps that order and its
    /// status. No other pawn changes.
    pub proof fn lemma_strike_back(self, i: int, t: int, strength: usize)
        requires
            self.pawn_ids_distinct(),
            0 <= i < self.pawns.len(),
            0 <= t < self.pawns.len(),
            i != t,
            self.pawns[t].pawn.health > strength,
            self.commands.len() == 0,
        ensures
            ({
                let attacker = self.pawns[i];
                let target = self.pawns[t];
                let struck = self.hit(i, t, strength);
                let after = struck.flushed();
                let wounded = PawnModel {
                    health: (target.pawn.health - strength) as usize,
                    ..target.pawn
                };
                &&& forall|j: int|
                    0 <= j < self.pawns.len() && j != t ==> #[trigger] struck.pawns[j] == self.pawns[j]
                &&& after.pawn_index(target.entity) is Some
                &&& after.pawn_of(target.entity) == if target.work_order is None {
                    PawnBundleModel {
                        pawn: wounded,
                        work_order: Some(WorkOrder::AttackPawn { pawn_entity: attacker.entity }),
                        pawn_status: Status::Attacking,
                        ..target
                    }
                } else {
                    PawnBundleModel { pawn: wounded, ..target }
                }
                &&& after.pawn_index(attacker.entity) is Some
                &&& after.pawn_of(attacker.entity) == attacker
            }),
    {
        let attacker = self.pawns[i];
        let target = self.pawns[t];
        let struck = self.hit(i, t, strength);
        let health = (target.pawn.health - strength) as usize;
        let wounded = self.with_pawn(
            t,
            PawnBundleModel { pawn: PawnModel { health, ..target.pawn }, ..target },
        );
        assert(self.same_tags(struck));
        self.lemma_tags_keep_ids(struck);
        if i < t {
            assert(self.pawns[i].entity != self.pawns[t].entity);
        } else {
            assert(self.pawns[t].entity != self.pawns[i].entity);
        }
        let first = Command::AddWorkOrder {
            entity: target.entity,
            order: WorkOrder::AttackPawn { pawn_entity: attacker.entity },
        };
        let second = Command::AddStatus { entity: target.entity, status: Status::Attacking };
        let ordered = self.commands.push(first);
        lemma_after_push(self.commands, first, target.entity, target.pawn_status, target.work_order);
        lemma_after_push(ordered, second, target.entity, target.pawn_status, target.work_order);
        lemma_after_push(
            self.commands,
            first,
            attacker.entity,
            attacker.pawn_status,
            attacker.work_order,
        );
        lemma_after_push(ordered, second, attacker.entity, attacker.pawn_status, attacker.work_order);
        lemma_push_contains(self.commands, first, Command::Despawn { entity: target.entity });
        lemma_push_contains(ordered, second, Command::Despawn { entity: target.entity });
        lemma_push_contains(self.commands, first, Command::Despawn { entity: attacker.entity });
        lemma_push_contains(ordered, second, Command::Despawn { entity: attacker.entity });
        struck.lemma_pawn_index_at(t);
        struck.lemma_pawn_index_at(i);
        struck.lemma_flush_pawn(target.entity);
        struck.lemma_flush_pawn(attacker.entity);
        let after = struck.flushed();
        assert(status_after(self.commands, target.entity, target.pawn_status) == target.pawn_status);
        assert(order_after(self.commands, target.entity, target.work_order) == target.work_order);
        assert(status_after(self.commands, attacker.entity, attacker.pawn_status)
            == attacker.pawn_status);
        assert(order_after(self.commands, attacker.entity, attacker.work_order)
            == attacker.work_order);
        assert(struck.pawn_of(target.entity) == struck.pawns[t]);
        assert(struck.pawn_of(attacker.entity) == attacker);
        if target.work_order is None {
            assert(struck.commands == ordered.push(second));
        } else {
            assert(struck.commands == self.commands);
        }
        assert(after.pawn_of(attacker.entity) == attacker);
    }

    /// A pawn whose search timer has not run out deals no damage: its turn
    /// in the attack system changes nothing.
    pub proof fn lemma_attack_needs_timer(self, enemy: bool, strength: usize, i: int)
        requires
            !self.pawns[i].pawn.search_timer.finished,
        ensures
            self.attack_step(enemy, strength, i) == self,
    {
    }

    /// What the last pass of the attack system, having seen the first `n`
    /// pawns, has asked for the pawn at `i`: idle for a pawn that strikes
    /// without an order to attack a pawn, and nothing for any other. The
    /// pass changes no pawn.
    pub proof fn lemma_stand_down_outcome(self, n: nat, i: int, status: Status)
        requires
            self.pawn_ids_distinct(),
            0 <= i < self.pawns.len(),
            n <= self.pawns.len(),
        ensures
            ({
                let after = self.stand_down_upto(n);
                let pawn = self.pawns[i];
                let due = i < n && pawn.pawn_status == Status::Attacking && !pawn.attacks_pawn();
                &&& after.pawns == self.pawns
                &&& after.despawn_pending(pawn.entity) == self.despawn_pending(pawn.entity)
                &&& status_after(after.commands, pawn.entity, status) == if due {
                    Status::Idle
                } else {
                    status_after(self.commands, pawn.entity, status)
                }
                &&& forall|order: Option<WorkOrder>|
                    order_after(after.commands, pawn.entity, order) == #[trigger] order_after(
                        self.commands,
                        pawn.entity,
                        order,
                    )
            }),
        decreases n,
    {
        if n > 0 {
            let j = n - 1;
            self.lemma_stand_down_outcome(j as nat, i, status);
            let before = self.stand_down_upto(j as nat);
            let entity = self.pawns[i].entity;
            let only = Command::AddStatus { entity: self.pawns[j].entity, status: Status::Idle };
            lemma_push_contains(before.commands, only, Command::Despawn { entity });
            lemma_after_push(before.commands, only, entity, status, None);
            assert forall|order: Option<WorkOrder>|
                order_after(before.commands.push(only), entity, order) == #[trigger] order_after(
                    self.commands,
                    entity,
                    order,
                ) by {
                lemma_after_push(before.commands, only, entity, status, order);
                assert(order_after(before.commands, entity, order) == order_after(
                    self.commands,
                    entity,
                    order,
                ));
            }
            if j != i {
                if j < i {
                    assert(self.pawns[j].entity != self.pawns[i].entity);
                } else {
                    assert(self.pawns[i].entity != self.pawns[j].entity);
                }
            }
        }
    }

    /// A pawn that is striking without an order to attack a pawn is idle
    /// when the attack phase has ended, unless it was struck down in it.
    pub proof fn lemma_striker_without_order_stands_down(self, i: int)
        requires
            self.wf(),
            0 <= i < self.pawns.len(),
            self.pawns[i].pawn_status == Status::Attacking,
            !self.pawns[i].attacks_pawn(),
        ensures
            ({
                let pawn = self.pawns[i];
                let run = self.attack_pawn();
                let after = run.flushed();
                !run.despawn_pending(pawn.entity) ==> after.pawn_index(pawn.entity) is Some
                    && after.pawn_of(pawn.entity).pawn_status == Status::Idle
            }),
    {
        let pawn = self.pawns[i];
        let count = self.pawns.len();
        self.lemma_wf_pawn_ids();
        self.lemma_attack_tags(false, PAWN_ATTACK_STRENGTH, count);
        let first = self.attack_upto(false, PAWN_ATTACK_STRENGTH, count);
        first.lemma_attack_tags(true, ENEMY_ATTACK_STRENGTH, count);
        let struck = first.attack_upto(true, ENEMY_ATTACK_STRENGTH, count);
        assert(self.same_tags(struck));
        self.lemma_tags_keep_ids(struck);
        struck.lemma_stand_down_outcome(count, i, pawn.pawn_status);
        let run = self.attack_pawn();
        assert(run == struck.stand_down_upto(count));
        if !run.despawn_pending(pawn.entity) {
            run.lemma_pawn_index_at(i);
            run.lemma_flush_pawn(pawn.entity);
        }
    }

    /// No removal is pending twice.
    pub open spec fn removals_once(self) -> bool {
        forall|first: int, second: int|
            0 <= first < second < self.commands.len() && (#[trigger] self.commands[first]) is Despawn
                ==> self.commands[first] != #[trigger] self.commands[second]
    }

    /// The pawn at `i` mines the deposit at `k`, and has a stroke due on it:
    /// it does not carry all it can, and its mine timer has run out.
    pub open spec fn strikes_deposit(self, i: int, k: int) -> bool {
        &&& 0 <= i < self.pawns.len()
        &&& self.pawns[i].work_order == Some(
            WorkOrder::MineStone { stone_entity: self.stones[k].entity },
        )
        &&& self.stone_index(self.stones[k].entity) == Some(k)
        &&& self.pawns[i].pawn_status == Status::Mining
        &&& self.pawns[i].resources.0 < MAX_RESOURCES
        &&& self.pawns[i].pawn.mine_timer.finished
    }

    /// The stroke that empties a deposit asks for its removal and opens its
    /// tile: afterwards the removal is pending, the tile is walkable and no
    /// longer counts the deposit among its occupants, and every other tile
    /// and every other deposit is as it was.
    pub proof fn lemma_last_stroke(self, i: int, k: int)
        requires
            self.wf(),
            self.strikes_deposit(i, k),
            !self.despawn_pending(self.stones[k].entity),
            self.stones[k].stone.remaining_resources <= RESOURCE_GAIN_RATE,
        ensures
            ({
                let stone = self.stones[k];
                let after = self.mine_step(i);
                &&& after.despawn_pending(stone.entity)
                &&& after.stones[k].stone.remaining_resources == 0
                &&& after.navmesh.tile(stone.tile).walkable
                &&& !after.navmesh.tile(stone.tile).occupants.contains(stone.entity.0)
                &&& forall|c: GridCoord|
                    self.navmesh.contains(c) && c != stone.tile ==> #[trigger] after.navmesh.tile(c)
                        == self.navmesh.tile(c)
                &&& forall|j: int|
                    0 <= j < self.stones.len() && j != k ==> #[trigger] after.stones[j]
                        == self.stones[j]
            }),
    {
        let stone = self.stones[k];
        let pawn = self.pawns[i];
        self.lemma_stone_index(stone.entity);
        self.lemma_stone_known(k);
        let struck = self.strike_stone(i, k);
        let opened = struck.unblock(k);
        let first = Command::Despawn { entity: stone.entity };
        let second = Command::ClearWorkOrder { entity: pawn.entity };
        let third = Command::AddStatus { entity: pawn.entity, status: Status::Idle };
        lemma_push_contains(opened.commands, first, first);
        lemma_push_contains(opened.commands.push(first), second, first);
        lemma_push_contains(opened.commands.push(first).push(second), third, first);
    }

    /// A deposit whose removal is pending is left alone: the turn of a pawn
    /// that has a stroke due on it changes nothing.
    pub proof fn lemma_spent_deposit_left_alone(self, i: int, k: int)
        requires
            self.strikes_deposit(i, k),
            self.despawn_pending(self.stones[k].entity),
        ensures
            self.mine_step(i) == self,
    {
    }

    /// The mining system, having seen the first `n` pawns, has asked for no
    /// removal twice, however many pawns mine one deposit.
    pub proof fn lemma_mine_removes_once(self, n: nat)
        requires
            self.removals_once(),
        ensures
            self.mine_upto(n).removals_once(),
        decreases n,
    {
        if n > 0 {
            let j = n - 1;
            self.lemma_mine_removes_once(j as nat);
            let before = self.mine_upto(j as nat);
            let after = before.mine_step(j);
            if after.commands != before.commands {
                let count = before.commands.len() as int;
                assert forall|first: int, second: int|
                    0 <= first < second < after.commands.len() && (
                    #[trigger] after.commands[first]) is Despawn implies after.commands[first]
                    != #[trigger] after.commands[second] by {
                    if second < count {
                        assert(before.commands[first] != before.commands[second]);
                    } else if first < count {
                        assert(before.commands.contains(before.commands[first]));
                    }
                }
            }
        }
    }

    /// One more pawn is one fresh pawn: it stands on its tile, idle and
    /// without an order, in full health, at rest, with no waypoints and
    /// nothing carried. A pawn of the player is counted, as far as the count
    /// goes. The pawns that were there, the stone in store, the deposits and
    /// the grid are as they were. (With no identity left to give out no
    /// pawn is spawned: `World::spawn_pawn` then changes nothing.)
    pub proof fn lemma_spawn_pawn(self, tile: GridCoord, enemy: bool)
        ensures
            ({
                let after = self.spawn_pawn(tile, enemy);
                let fresh = after.pawns[self.pawns.len() as int];
                &&& after.pawns.len() == self.pawns.len() + 1
                &&& forall|j: int| 0 <= j < self.pawns.len() ==> #[trigger] after.pawns[j] == self.pawns[j]
                &&& fresh.entity == EntityRef(self.next_entity)
                &&& fresh.tile == tile
                &&& fresh.enemy == enemy
                &&& fresh.pawn_status == Status::Idle
                &&& fresh.work_order is None
                &&& fresh.resources.0 == 0
                &&& fresh.pawn.health == 100 && fresh.pawn.max_health == 100
                &&& !fresh.pawn.moving
                &&& fresh.pawn.move_path.len() == 0
                &&& fresh.pawn.move_to is None
                &&& after.game_resources.stone == self.game_resources.stone
                &&& after.game_resources.pawns == if enemy || self.game_resources.pawns
                    == usize::MAX {
                    self.game_resources.pawns as int
                } else {
                    self.game_resources.pawns + 1
                }
                &&& self.next_entity < u64::MAX ==> after.next_entity == self.next_entity + 1
                &&& after.navmesh == self.navmesh
                &&& after.stones == self.stones
            }),
    {
    }
}

impl WorldModel {
    /// Some pawn that is on the order to attack the pawn `entity` is the
    /// pawn that the order `order` is aimed at.
    pub open spec fn is_order_against_striker(self, entity: EntityRef, order: Option<WorkOrder>) -> bool {
        exists|j: int|
            0 <= j < self.pawns.len() && (#[trigger] self.pawns[j]).work_order == Some(
                WorkOrder::AttackPawn { pawn_entity: entity },
            ) && order == Some(WorkOrder::AttackPawn { pawn_entity: self.pawns[j].entity })
    }

    /// What a strike asks for about the order of any pawn: the striker
    /// loses its order where the target is struck down, and the target takes
    /// the order to strike back where it was on no order; of no other pawn
    /// does the order change.
    pub proof fn lemma_hit_orders(
        self,
        i: int,
        t: int,
        strength: usize,
        entity: EntityRef,
        order: Option<WorkOrder>,
    )
        ensures
            ({
                let attacker = self.pawns[i];
                let target = self.pawns[t];
                let dies = spec_apply_mining(target.pawn.health, strength) == 0;
                let before = order_after(self.commands, entity, order);
                let resolved = if dies && entity == attacker.entity {
                    None
                } else {
                    before
                };
                order_after(self.hit(i, t, strength).commands, entity, order) == if target.work_order
                    is None && entity == target.entity {
                    Some(WorkOrder::AttackPawn { pawn_entity: attacker.entity })
                } else {
                    resolved
                }
            }),
    {
        let attacker = self.pawns[i];
        let target = self.pawns[t];
        let dies = spec_apply_mining(target.pawn.health, strength) == 0;
        let status = Status::Idle;
        let removal = Command::Despawn { entity: target.entity };
        let clearing = Command::ClearWorkOrder { entity: attacker.entity };
        let idling = Command::AddStatus { entity: attacker.entity, status: Status::Idle };
        let ordering = Command::AddWorkOrder {
            entity: target.entity,
            order: WorkOrder::AttackPawn { pawn_entity: attacker.entity },
        };
        let striking = Command::AddStatus { entity: target.entity, status: Status::Attacking };
        let resolved = if dies {
            self.commands.push(removal).push(clearing).push(idling)
        } else {
            self.commands
        };
        if dies {
            lemma_after_push(self.commands, removal, entity, status, order);
            lemma_after_push(self.commands.push(removal), clearing, entity, status, order);
            lemma_after_push(
                self.commands.push(removal).push(clearing),
                idling,
                entity,
                status,
                order,
            );
        }
        if target.work_order is None {
            lemma_after_push(resolved, ordering, entity, status, order);
            lemma_after_push(resolved.push(ordering), striking, entity, status, order);
            assert(self.hit(i, t, strength).commands == resolved.push(ordering).push(striking));
        } else {
            assert(self.hit(i, t, strength).commands == resolved);
        }
    }

    /// What the strikes of one side, after the first `n` pawns have had
    /// their turn, have asked for about the order of the pawn at `t`, which
    /// is not itself on an order to attack a pawn: where it is on an order,
    /// nothing; where it is on none, nothing or the order to attack a pawn
    /// that is on the order to attack it.
    pub proof fn lemma_attack_orders(
        self,
        enemy: bool,
        strength: usize,
        n: nat,
        t: int,
        order: Option<WorkOrder>,
    )
        requires
            self.pawn_ids_distinct(),
            0 <= t < self.pawns.len(),
            n <= self.pawns.len(),
            !self.pawns[t].attacks_pawn(),
        ensures
            ({
                let after = self.attack_upto(enemy, strength, n);
                let entity = self.pawns[t].entity;
                let asked = order_after(after.commands, entity, order);
                &&& self.same_tags(after)
                &&& asked == order_after(self.commands, entity, order) || (self.pawns[t].work_order
                    is None && self.is_order_against_striker(entity, asked))
            }),
        decreases n,
    {
        if n > 0 {
            let j = n - 1;
            self.lemma_attack_orders(enemy, strength, j as nat, t, order);
            let before = self.attack_upto(enemy, strength, j as nat);
            let after = before.attack_step(enemy, strength, j);
            let entity = self.pawns[t].entity;
            let turn = before.pawns[j];
            self.lemma_tags_keep_ids(before);
            assert(before.same_tags(after)) by {
                before.lemma_attack_tags(enemy, strength, 0);
                self.lemma_attack_tags(enemy, strength, n);
                self.lemma_attack_tags(enemy, strength, j as nat);
            }
            if after != before {
                let target_entity = turn.work_order->Some_0->pawn_entity;
                assert(turn.work_order == self.pawns[j].work_order);
                assert(j != t);
                if j < t {
                    assert(self.pawns[j].entity != self.pawns[t].entity);
                } else {
                    assert(self.pawns[t].entity != self.pawns[j].entity);
                }
                let first = Command::ClearWorkOrder { entity: turn.entity };
                let second = Command::AddStatus { entity: turn.entity, status: Status::Idle };
                let third = Command::AddStatus { entity: turn.entity, status: Status::Pathfinding };
                lemma_after_push(before.commands, first, entity, Status::Idle, order);
                lemma_after_push(before.commands.push(first), second, entity, Status::Idle, order);
                lemma_after_push(before.commands, third, entity, Status::Idle, order);
                before.lemma_pawn_index(target_entity);
                if let Some(struck) = before.pawn_index(target_entity) {
                    before.lemma_hit_orders(j, struck, strength, entity, order);
                    before.lemma_pawn_index_at(t);
                    if target_entity == entity {
                        assert(struck == t);
                        assert(self.pawns[j].work_order == Some(
                            WorkOrder::AttackPawn { pawn_entity: entity },
                        ));
                        assert(before.pawns[j].entity == self.pawns[j].entity);
                    }
                }
            }
        }
    }

    /// A pawn that is on an order other than to attack a pawn keeps its
    /// order through the attack phase, however many pawns strike it: the
    /// phase asks for no change to its order, and when the phase has ended
    /// the pawn, unless it was struck down, is on the order that was last
    /// asked for it before.
    pub proof fn lemma_ordered_target_keeps_order(self, t: int)
        requires
            self.wf(),
            0 <= t < self.pawns.len(),
            self.pawns[t].work_order is Some,
            !self.pawns[t].attacks_pawn(),
        ensures
            ({
                let pawn = self.pawns[t];
                let run = self.attack_pawn();
                let after = run.flushed();
                &&& order_after(run.commands, pawn.entity, pawn.work_order) == order_after(
                    self.commands,
                    pawn.entity,
                    pawn.work_order,
                )
                &&& !run.despawn_pending(pawn.entity) ==> after.pawn_index(pawn.entity) is Some
                    && after.pawn_of(pawn.entity).work_order == order_after(
                    self.commands,
                    pawn.entity,
                    pawn.work_order,
                )
            }),
    {
        let pawn = self.pawns[t];
        let count = self.pawns.len();
        self.lemma_wf_pawn_ids();
        self.lemma_attack_orders(false, PAWN_ATTACK_STRENGTH, count, t, pawn.work_order);
        let first = self.attack_upto(false, PAWN_ATTACK_STRENGTH, count);
        self.lemma_tags_keep_ids(first);
        first.lemma_attack_orders(true, ENEMY_ATTACK_STRENGTH, count, t, pawn.work_order);
        let struck = first.attack_upto(true, ENEMY_ATTACK_STRENGTH, count);
        self.lemma_tags_keep_ids(struck);
        struck.lemma_stand_down_outcome(count, t, pawn.pawn_status);
        let run = self.attack_pawn();
        assert(run == struck.stand_down_upto(count));
        if !run.despawn_pending(pawn.entity) {
            run.lemma_pawn_index_at(t);
            run.lemma_flush_pawn(pawn.entity);
        }
    }

    /// A pawn that is on no order is, when the attack phase has ended and
    /// unless it was struck down, on the order that was last asked for it
    /// before, or on the order to attack one of the pawns that were on the
    /// order to attack it: where several strike it, it strikes back at the
    /// last.
    pub proof fn lemma_unordered_target_strikes_back(self, t: int)
        requires
            self.wf(),
            0 <= t < self.pawns.len(),
            self.pawns[t].work_order is None,
        ensures
            ({
                let pawn = self.pawns[t];
                let run = self.attack_pawn();
                let after = run.flushed();
                !run.despawn_pending(pawn.entity) ==> after.pawn_index(pawn.entity) is Some && (
                after.pawn_of(pawn.entity).work_order == order_after(
                    self.commands,
                    pawn.entity,
                    None,
                ) || self.is_order_against_striker(
                    pawn.entity,
                    after.pawn_of(pawn.entity).work_order,
                ))
            }),
    {
        let pawn = self.pawns[t];
        let count = self.pawns.len();
        self.lemma_wf_pawn_ids();
        self.lemma_attack_orders(false, PAWN_ATTACK_STRENGTH, count, t, None);
        let first = self.attack_upto(false, PAWN_ATTACK_STRENGTH, count);
        self.lemma_tags_keep_ids(first);
        first.lemma_attack_orders(true, ENEMY_ATTACK_STRENGTH, count, t, None);
        let struck = first.attack_upto(true, ENEMY_ATTACK_STRENGTH, count);
        self.lemma_tags_keep_ids(struck);
        struck.lemma_stand_down_outcome(count, t, pawn.pawn_status);
        let run = self.attack_pawn();
        assert(run == struck.stand_down_upto(count));
        let asked = order_after(struck.commands, pawn.entity, None);
        if first.is_order_against_striker(pawn.entity, asked) {
            let j = choose|j: int|
                0 <= j < first.pawns.len() && (#[trigger] first.pawns[j]).work_order == Some(
                    WorkOrder::AttackPawn { pawn_entity: pawn.entity },
                ) && asked == Some(WorkOrder::AttackPawn { pawn_entity: first.pawns[j].entity });
            assert(self.pawns[j].work_order == first.pawns[j].work_order);
            assert(self.pawns[j].entity == first.pawns[j].entity);
            assert(self.is_order_against_striker(pawn.entity, asked));
        }
        if !run.despawn_pending(pawn.entity) {
            run.lemma_pawn_index_at(t);
            run.lemma_flush_pawn(pawn.entity);
        }
    }
}

} // verus!
