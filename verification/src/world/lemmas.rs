//! What keeps the invariant of the simulation, and what follows from it.

use crate::EntityRef;
use crate::GameResources;
use crate::GameState;
use crate::GridCoord;
use crate::navmesh::components::entity_ids;
use crate::navmesh::components::AnswerModel;
use crate::navmesh::components::EntitySet;
use crate::navmesh::components::PathfindRequest;
use crate::pawn::EnemyWave;
use crate::pawn::components::PawnBundleModel;
use crate::stone::StoneKind;
use crate::world::Command;
use crate::world::StoneDeposit;
use crate::world::WorldModel;
use vstd::prelude::*;

verus! {

/// A sequence with one more item holds what it held, and that item.
pub proof fn lemma_push_contains(items: Seq<Command>, pushed: Command, sought: Command)
    ensures
        items.push(pushed).contains(sought) <==> items.contains(sought) || sought == pushed,
{
    let more = items.push(pushed);
    if items.contains(sought) {
        let i = choose|i: int| 0 <= i < items.len() && items[i] == sought;
        assert(more[i] == sought);
    }
    if sought == pushed {
        assert(more[items.len() as int] == sought);
    }
    if more.contains(sought) {
        let i = choose|i: int| 0 <= i < more.len() && more[i] == sought;
        if i < items.len() {
            assert(items[i] == sought);
        }
    }
}

impl WorldModel {
    /// A world with the same deferred changes has the same pending
    /// removals.
    pub proof fn lemma_tracked_alike(self, other: WorldModel, set: EntitySet)
        requires
            self.tracked_by(set),
            other.commands == self.commands,
        ensures
            other.tracked_by(set),
    {
        assert forall|id: u64| #[trigger]
            entity_ids(set).contains(id) <==> other.despawn_pending(EntityRef(id)) by {
            assert(entity_ids(set).contains(id) <==> self.despawn_pending(EntityRef(id)));
        }
    }

    /// A deferred change other than a removal leaves the set of pending
    /// removals as it is.
    pub proof fn lemma_issue_keeps_tracked(self, command: Command, set: EntitySet)
        requires
            self.tracked_by(set),
            !(command is Despawn),
        ensures
            self.issue(command).tracked_by(set),
    {
        assert forall|id: u64| #[trigger]
            entity_ids(set).contains(id) <==> self.issue(command).despawn_pending(EntityRef(id)) by {
            lemma_push_contains(self.commands, command, Command::Despawn { entity: EntityRef(id) });
        }
    }

    /// The removal of `entity`, once asked for, is pending besides those
    /// that were.
    pub proof fn lemma_despawn_tracked(self, entity: EntityRef, before: EntitySet, after: EntitySet)
        requires
            self.tracked_by(before),
            entity_ids(after) == entity_ids(before).insert(entity.0),
        ensures
            self.issue(Command::Despawn { entity }).tracked_by(after),
    {
        assert forall|id: u64| #[trigger]
            entity_ids(after).contains(id) <==> self.issue(
                Command::Despawn { entity },
            ).despawn_pending(EntityRef(id)) by {
            lemma_push_contains(
                self.commands,
                Command::Despawn { entity },
                Command::Despawn { entity: EntityRef(id) },
            );
            assert(entity_ids(before).contains(id) <==> self.despawn_pending(EntityRef(id)));
        }
    }

    /// `pawn_index` finds the pawn `entity` where there is one.
    pub proof fn lemma_pawn_index(self, entity: EntityRef)
        ensures
            match self.pawn_index(entity) {
                Some(i) => self.is_first_pawn(i, entity),
                None => forall|i: int|
                    0 <= i < self.pawns.len() ==> (#[trigger] self.pawns[i]).entity != entity,
            },
    {
        if self.pawn_index(entity) is None {
            assert forall|i: int| 0 <= i < self.pawns.len() implies (#[trigger] self.pawns[i]).entity
                != entity by {
                if self.pawns[i].entity == entity {
                    self.lemma_first_pawn_exists(i, entity);
                }
            }
        }
    }

    /// Where some pawn bears `entity`, a first one does.
    proof fn lemma_first_pawn_exists(self, i: int, entity: EntityRef)
        requires
            0 <= i < self.pawns.len(),
            self.pawns[i].entity == entity,
        ensures
            exists|first: int| self.is_first_pawn(first, entity),
        decreases i,
    {
        if exists|j: int| 0 <= j < i && (#[trigger] self.pawns[j]).entity == entity {
            let j = choose|j: int| 0 <= j < i && (#[trigger] self.pawns[j]).entity == entity;
            self.lemma_first_pawn_exists(j, entity);
        } else {
            assert(self.is_first_pawn(i, entity));
        }
    }

    /// `stone_index` finds the deposit `entity` where there is one.
    pub proof fn lemma_stone_index(self, entity: EntityRef)
        ensures
            match self.stone_index(entity) {
                Some(k) => self.is_first_stone(k, entity),
                None => forall|k: int|
                    0 <= k < self.stones.len() ==> (#[trigger] self.stones[k]).entity != entity,
            },
    {
        if self.stone_index(entity) is None {
            assert forall|k: int|
                0 <= k < self.stones.len() implies (#[trigger] self.stones[k]).entity != entity by {
                if self.stones[k].entity == entity {
                    self.lemma_first_stone_exists(k, entity);
                }
            }
        }
    }

    /// Where some deposit bears `entity`, a first one does.
    proof fn lemma_first_stone_exists(self, k: int, entity: EntityRef)
        requires
            0 <= k < self.stones.len(),
            self.stones[k].entity == entity,
        ensures
            exists|first: int| self.is_first_stone(first, entity),
        decreases k,
    {
        if exists|j: int| 0 <= j < k && (#[trigger] self.stones[j]).entity == entity {
            let j = choose|j: int| 0 <= j < k && (#[trigger] self.stones[j]).entity == entity;
            self.lemma_first_stone_exists(j, entity);
        } else {
            assert(self.is_first_stone(k, entity));
        }
    }

    /// A deferred change other than the removal of an entity keeps the
    /// invariant.
    pub proof fn lemma_issue_keeps_wf(self, command: Command)
        requires
            self.wf(),
            !(command is Despawn),
        ensures
            self.issue(command).wf(),
    {
        reveal(WorldModel::wf);
        let after = self.issue(command);
        assert forall|c: GridCoord, id: u64|
            after.navmesh.contains(c) && #[trigger] after.navmesh.tile(c).occupants.contains(
                id,
            ) implies after.is_blocker(c, id) by {
            assert(self.is_blocker(c, id));
        }
        assert forall|j: int, k: int|
            0 <= j < after.commands.len() && 0 <= k < after.stones.len() && #[trigger] after.commands[j]
                == (Command::Despawn {
                entity: (#[trigger] after.stones[k]).entity,
            }) implies !after.navmesh.tile(after.stones[k].tile).occupants.contains(
            after.stones[k].entity.0,
        ) by {
            assert(j < self.commands.len());
            assert(self.commands[j] == after.commands[j]);
        }
        assert forall|j: int| 0 <= j < after.commands.len() implies ((
        #[trigger] after.commands[j]) matches Command::Despawn { entity } ==> entity.0
            < after.next_entity) by {
            if j < self.commands.len() {
                assert(self.commands[j] == after.commands[j]);
            }
        }
        assert forall|first: int, second: int|
            0 <= first < second < after.commands.len() && (
            #[trigger] after.commands[first]) is Despawn implies after.commands[first]
            != #[trigger] after.commands[second] by {
            assert(self.commands[first] == after.commands[first]);
            if second < self.commands.len() {
                assert(self.commands[second] == after.commands[second]);
            }
        }
    }

    /// Opening the tile under a deposit, and taking the deposit off its
    /// occupants, keeps the invariant.
    pub proof fn lemma_unblock_keeps_wf(self, k: int)
        requires
            self.wf(),
            0 <= k < self.stones.len(),
        ensures
            self.unblock(k).wf(),
            !self.unblock(k).navmesh.tile(self.stones[k].tile).occupants.contains(
                self.stones[k].entity.0,
            ),
    {
        reveal(WorldModel::wf);
        let after = self.unblock(k);
        let tile = self.stones[k].tile;
        assert(self.navmesh.contains(tile));
        assert(after.navmesh.square());
        assert(after.stones_placed());
        assert(after.occupancy_sound()) by {
            assert forall|c: GridCoord, id: u64|
                after.navmesh.contains(c) && #[trigger] after.navmesh.tile(c).occupants.contains(
                    id,
                ) implies after.is_blocker(c, id) by {
                assert(self.navmesh.tile(c).occupants.contains(id));
                assert(self.is_blocker(c, id));
            }
        }
        assert(after.despawns_sound()) by {
            assert forall|j: int, n: int|
                0 <= j < after.commands.len() && 0 <= n < after.stones.len()
                    && #[trigger] after.commands[j] == (Command::Despawn {
                    entity: (#[trigger] after.stones[n]).entity,
                }) implies !after.navmesh.tile(after.stones[n].tile).occupants.contains(
                after.stones[n].entity.0,
            ) by {
                assert(!self.navmesh.tile(self.stones[n].tile).occupants.contains(
                    self.stones[n].entity.0,
                ));
            }
        }
    }

    /// Asking for the removal of an entity keeps the invariant, where the
    /// identity has been given out, the removal is not pending yet, and the
    /// entity, if it is a deposit, has left its tile.
    pub proof fn lemma_despawn_keeps_wf(self, entity: EntityRef)
        requires
            self.wf(),
            entity.0 < self.next_entity,
            !self.despawn_pending(entity),
            forall|k: int|
                0 <= k < self.stones.len() && (#[trigger] self.stones[k]).entity == entity
                    ==> !self.navmesh.tile(self.stones[k].tile).occupants.contains(entity.0),
        ensures
            self.issue(Command::Despawn { entity }).wf(),
    {
        reveal(WorldModel::wf);
        let after = self.issue(Command::Despawn { entity });
        let fresh = self.commands.len() as int;
        assert(after.occupancy_sound()) by {
            assert forall|c: GridCoord, id: u64|
                after.navmesh.contains(c) && #[trigger] after.navmesh.tile(c).occupants.contains(
                    id,
                ) implies after.is_blocker(c, id) by {
                assert(self.is_blocker(c, id));
            }
        }
        assert(after.despawns_sound()) by {
            assert forall|j: int, n: int|
                0 <= j < after.commands.len() && 0 <= n < after.stones.len()
                    && #[trigger] after.commands[j] == (Command::Despawn {
                    entity: (#[trigger] after.stones[n]).entity,
                }) implies !after.navmesh.tile(after.stones[n].tile).occupants.contains(
                after.stones[n].entity.0,
            ) by {
                if j < fresh {
                    assert(self.commands[j] == after.commands[j]);
                }
            }
            assert forall|j: int| 0 <= j < after.commands.len() implies ((
            #[trigger] after.commands[j]) matches Command::Despawn { entity } ==> entity.0
                < after.next_entity) by {
                if j < fresh {
                    assert(self.commands[j] == after.commands[j]);
                }
            }
            assert forall|first: int, second: int|
                0 <= first < second < after.commands.len() && (
                #[trigger] after.commands[first]) is Despawn implies after.commands[first]
                != #[trigger] after.commands[second] by {
                assert(self.commands[first] == after.commands[first]);
                if second < fresh {
                    assert(self.commands[second] == after.commands[second]);
                } else {
                    assert(self.commands.contains(self.commands[first]));
                }
            }
        }
    }

    /// The identity of a pawn has been given out, and no deposit bears it.
    pub proof fn lemma_pawn_known(self, i: int)
        requires
            self.wf(),
            0 <= i < self.pawns.len(),
        ensures
            self.pawns[i].entity.0 < self.next_entity,
            forall|k: int|
                0 <= k < self.stones.len() ==> (#[trigger] self.stones[k]).entity
                    != self.pawns[i].entity,
    {
        reveal(WorldModel::wf);
        assert forall|k: int| 0 <= k < self.stones.len() implies (#[trigger] self.stones[k]).entity
            != self.pawns[i].entity by {
            assert(self.pawns[i].entity != self.stones[k].entity);
        }
    }

    /// The identity of a deposit has been given out, no other deposit bears
    /// it, and the deposit stands on a tile of the grid.
    pub proof fn lemma_stone_known(self, k: int)
        requires
            self.wf(),
            0 <= k < self.stones.len(),
        ensures
            self.stones[k].entity.0 < self.next_entity,
            self.navmesh.contains(self.stones[k].tile),
            self.navmesh.square(),
            forall|n: int|
                0 <= n < self.stones.len() && (#[trigger] self.stones[n]).entity
                    == self.stones[k].entity ==> n == k,
    {
        reveal(WorldModel::wf);
    }

    /// The grid is square.
    pub proof fn lemma_navmesh_square(self)
        requires
            self.wf(),
        ensures
            self.navmesh.square(),
    {
        reveal(WorldModel::wf);
    }

    /// One more request for a path keeps the invariant.
    pub proof fn lemma_request_keeps_wf(self, request: PathfindRequest)
        requires
            self.wf(),
        ensures
            self.request(request).wf(),
    {
        reveal(WorldModel::wf);
        let after = self.request(request);
        assert(after.occupancy_sound()) by {
            assert forall|c: GridCoord, id: u64|
                after.navmesh.contains(c) && #[trigger] after.navmesh.tile(c).occupants.contains(
                    id,
                ) implies after.is_blocker(c, id) by {
                assert(self.is_blocker(c, id));
            }
        }
    }

    /// Replacing a pawn by one of the same identity keeps the invariant.
    pub proof fn lemma_with_pawn_keeps_wf(self, i: int, pawn: PawnBundleModel)
        requires
            self.wf(),
            0 <= i < self.pawns.len(),
            pawn.entity == self.pawns[i].entity,
        ensures
            self.with_pawn(i, pawn).wf(),
    {
        reveal(WorldModel::wf);
        let after = self.with_pawn(i, pawn);
        assert(after.ids_distinct());
        assert(after.occupancy_sound()) by {
            assert forall|c: GridCoord, id: u64|
                after.navmesh.contains(c) && #[trigger] after.navmesh.tile(c).occupants.contains(
                    id,
                ) implies after.is_blocker(c, id) by {
                assert(self.is_blocker(c, id));
            }
        }
    }

    /// Replacing the pawns by as many pawns of the same identities keeps the
    /// invariant.
    pub proof fn lemma_pawns_rewritten(self, pawns: Seq<PawnBundleModel>)
        requires
            self.wf(),
            pawns.len() == self.pawns.len(),
            forall|i: int| 0 <= i < pawns.len() ==> (#[trigger] pawns[i]).entity == self.pawns[i].entity,
        ensures
            (WorldModel { pawns, ..self }).wf(),
    {
        reveal(WorldModel::wf);
        let after = WorldModel { pawns, ..self };
        assert(after.ids_distinct()) by {
            assert forall|i: int, j: int| 0 <= i < j < after.pawns.len() implies after.pawns[i].entity
                != after.pawns[j].entity by {
                assert(self.pawns[i].entity != self.pawns[j].entity);
            }
            assert forall|i: int, k: int|
                0 <= i < after.pawns.len() && 0 <= k < after.stones.len() implies after.pawns[i].entity
                != after.stones[k].entity by {
                assert(self.pawns[i].entity != self.stones[k].entity);
            }
            assert forall|i: int| 0 <= i < after.pawns.len() implies (
            #[trigger] after.pawns[i]).entity.0 < after.next_entity by {
                assert(self.pawns[i].entity.0 < self.next_entity);
            }
            if let Some(factory) = after.factory {
                assert forall|i: int| 0 <= i < after.pawns.len() implies (
                #[trigger] after.pawns[i]).entity != factory.entity by {
                    assert(self.pawns[i].entity != factory.entity);
                }
            }
        }
        assert(after.occupancy_sound()) by {
            assert forall|c: GridCoord, id: u64|
                after.navmesh.contains(c) && #[trigger] after.navmesh.tile(c).occupants.contains(
                    id,
                ) implies after.is_blocker(c, id) by {
                assert(self.is_blocker(c, id));
            }
        }
    }

    /// Changing the counters of the player keeps the invariant.
    pub proof fn lemma_resources_keep_wf(self, game_resources: GameResources)
        requires
            self.wf(),
        ensures
            (WorldModel { game_resources, ..self }).wf(),
    {
        reveal(WorldModel::wf);
        let after = WorldModel { game_resources, ..self };
        assert(after.occupancy_sound()) by {
            assert forall|c: GridCoord, id: u64|
                after.navmesh.contains(c) && #[trigger] after.navmesh.tile(c).occupants.contains(
                    id,
                ) implies after.is_blocker(c, id) by {
                assert(self.is_blocker(c, id));
            }
        }
    }

    /// Changing the requests in flight keeps the invariant.
    pub proof fn lemma_requests_keep_wf(self, requests: Seq<PathfindRequest>)
        requires
            self.wf(),
        ensures
            (WorldModel { requests, ..self }).wf(),
    {
        reveal(WorldModel::wf);
        let after = WorldModel { requests, ..self };
        assert(after.occupancy_sound()) by {
            assert forall|c: GridCoord, id: u64|
                after.navmesh.contains(c) && #[trigger] after.navmesh.tile(c).occupants.contains(
                    id,
                ) implies after.is_blocker(c, id) by {
                assert(self.is_blocker(c, id));
            }
        }
    }

    /// Changing the state of the waves keeps the invariant.
    pub proof fn lemma_wave_keeps_wf(self, enemy_wave: EnemyWave)
        requires
            self.wf(),
        ensures
            (WorldModel { enemy_wave, ..self }).wf(),
    {
        reveal(WorldModel::wf);
        let after = WorldModel { enemy_wave, ..self };
        assert(after.occupancy_sound()) by {
            assert forall|c: GridCoord, id: u64|
                after.navmesh.contains(c) && #[trigger] after.navmesh.tile(c).occupants.contains(
                    id,
                ) implies after.is_blocker(c, id) by {
                assert(self.is_blocker(c, id));
            }
        }
    }

    /// Changing the phase of the game keeps the invariant.
    pub proof fn lemma_state_keeps_wf(self, game_state: GameState)
        requires
            self.wf(),
        ensures
            (WorldModel { game_state, ..self }).wf(),
    {
        reveal(WorldModel::wf);
        let after = WorldModel { game_state, ..self };
        assert(after.occupancy_sound()) by {
            assert forall|c: GridCoord, id: u64|
                after.navmesh.contains(c) && #[trigger] after.navmesh.tile(c).occupants.contains(
                    id,
                ) implies after.is_blocker(c, id) by {
                assert(self.is_blocker(c, id));
            }
        }
    }

    /// Changing the answers in flight keeps the invariant.
    pub proof fn lemma_answers_keep_wf(self, answers: Seq<AnswerModel>)
        requires
            self.wf(),
        ensures
            (WorldModel { answers, ..self }).wf(),
    {
        reveal(WorldModel::wf);
        let after = WorldModel { answers, ..self };
        assert(after.occupancy_sound()) by {
            assert forall|c: GridCoord, id: u64|
                after.navmesh.contains(c) && #[trigger] after.navmesh.tile(c).occupants.contains(
                    id,
                ) implies after.is_blocker(c, id) by {
                assert(self.is_blocker(c, id));
            }
        }
    }

    /// Replacing a deposit by one of the same identity on the same tile keeps
    /// the invariant.
    pub proof fn lemma_with_stone_keeps_wf(self, k: int, stone: StoneDeposit)
        requires
            self.wf(),
            0 <= k < self.stones.len(),
            stone.entity == self.stones[k].entity,
            stone.tile == self.stones[k].tile,
        ensures
            self.with_stone(k, stone).wf(),
    {
        reveal(WorldModel::wf);
        let after = self.with_stone(k, stone);
        assert(after.ids_distinct());
        assert(after.stones_placed());
        assert(after.occupancy_sound()) by {
            assert forall|c: GridCoord, id: u64|
                after.navmesh.contains(c) && #[trigger] after.navmesh.tile(c).occupants.contains(
                    id,
                ) implies after.is_blocker(c, id) by {
                assert(self.is_blocker(c, id));
                if exists|n: int|
                    0 <= n < self.stones.len() && (#[trigger] self.stones[n]).entity.0 == id
                        && self.stones[n].tile == c {
                    let n = choose|n: int|
                        0 <= n < self.stones.len() && (#[trigger] self.stones[n]).entity.0 == id
                            && self.stones[n].tile == c;
                    assert(after.stones[n].entity.0 == id && after.stones[n].tile == c);
                }
            }
        }
        assert(after.despawns_sound()) by {
            assert forall|j: int, n: int|
                0 <= j < after.commands.len() && 0 <= n < after.stones.len()
                    && #[trigger] after.commands[j] == (Command::Despawn {
                    entity: (#[trigger] after.stones[n]).entity,
                }) implies !after.navmesh.tile(after.stones[n].tile).occupants.contains(
                after.stones[n].entity.0,
            ) by {
                assert(self.commands[j] == (Command::Despawn { entity: self.stones[n].entity }));
            }
        }
    }

    /// Removing a pawn keeps the invariant.
    pub proof fn lemma_remove_pawn_keeps_wf(self, i: int)
        requires
            self.wf(),
            0 <= i < self.pawns.len(),
        ensures
            (WorldModel { pawns: self.pawns.remove(i), ..self }).wf(),
    {
        reveal(WorldModel::wf);
        let after = WorldModel { pawns: self.pawns.remove(i), ..self };
        assert(after.ids_distinct()) by {
            assert forall|a: int| 0 <= a < after.pawns.len() implies #[trigger] after.pawns[a]
                == self.pawns[if a < i {
                a
            } else {
                a + 1
            }] by {}
        }
        assert(after.occupancy_sound()) by {
            assert forall|c: GridCoord, id: u64|
                after.navmesh.contains(c) && #[trigger] after.navmesh.tile(c).occupants.contains(
                    id,
                ) implies after.is_blocker(c, id) by {
                assert(self.is_blocker(c, id));
            }
        }
    }

    /// Removing a deposit that has left its tile keeps the invariant.
    pub proof fn lemma_remove_stone_keeps_wf(self, gone: int)
        requires
            self.wf(),
            0 <= gone < self.stones.len(),
            !self.navmesh.tile(self.stones[gone].tile).occupants.contains(
                self.stones[gone].entity.0,
            ),
        ensures
            (WorldModel { stones: self.stones.remove(gone), ..self }).wf(),
    {
        reveal(WorldModel::wf);
        let after = WorldModel { stones: self.stones.remove(gone), ..self };
        assert forall|k: int| 0 <= k < after.stones.len() implies #[trigger] after.stones[k]
            == self.stones[if k < gone {
            k
        } else {
            k + 1
        }] by {}
        assert(after.ids_distinct());
        assert(after.stones_placed());
        assert(after.occupancy_sound()) by {
            assert forall|c: GridCoord, id: u64|
                after.navmesh.contains(c) && #[trigger] after.navmesh.tile(c).occupants.contains(
                    id,
                ) implies after.is_blocker(c, id) by {
                assert(self.is_blocker(c, id));
                if exists|n: int|
                    0 <= n < self.stones.len() && (#[trigger] self.stones[n]).entity.0 == id
                        && self.stones[n].tile == c {
                    let n = choose|n: int|
                        0 <= n < self.stones.len() && (#[trigger] self.stones[n]).entity.0 == id
                            && self.stones[n].tile == c;
                    if n < gone {
                        assert(after.stones[n] == self.stones[n]);
                    } else if n > gone {
                        assert(after.stones[n - 1] == self.stones[n]);
                    }
                }
            }
        }
        assert(after.despawns_sound()) by {
            assert forall|j: int, n: int|
                0 <= j < after.commands.len() && 0 <= n < after.stones.len()
                    && #[trigger] after.commands[j] == (Command::Despawn {
                    entity: (#[trigger] after.stones[n]).entity,
                }) implies !after.navmesh.tile(after.stones[n].tile).occupants.contains(
                after.stones[n].entity.0,
            ) by {
                let n0 = if n < gone { n } else { n + 1 };
                assert(self.commands[j] == (Command::Despawn { entity: self.stones[n0].entity }));
            }
        }
    }

    /// One more pawn keeps the invariant.
    pub proof fn lemma_spawn_pawn_keeps_wf(self, tile: GridCoord, enemy: bool)
        requires
            self.wf(),
            self.next_entity < u64::MAX,
        ensures
            self.spawn_pawn(tile, enemy).wf(),
    {
        reveal(WorldModel::wf);
        let after = self.spawn_pawn(tile, enemy);
        assert(after.ids_distinct());
        assert(after.occupancy_sound()) by {
            assert forall|c: GridCoord, id: u64|
                after.navmesh.contains(c) && #[trigger] after.navmesh.tile(c).occupants.contains(
                    id,
                ) implies after.is_blocker(c, id) by {
                assert(self.is_blocker(c, id));
            }
        }
    }

    /// One more deposit on a tile of the grid keeps the invariant.
    pub proof fn lemma_spawn_stone_keeps_wf(self, tile: GridCoord, kind: StoneKind)
        requires
            self.wf(),
            self.next_entity < u64::MAX,
            self.navmesh.contains(tile),
        ensures
            self.spawn_stone(tile, kind).wf(),
    {
        reveal(WorldModel::wf);
        let after = self.spawn_stone(tile, kind);
        let fresh = self.stones.len() as int;
        assert(after.stones[fresh].entity.0 == self.next_entity);
        assert(after.navmesh.square());
        assert(after.ids_distinct());
        assert(after.stones_placed());
        assert(after.occupancy_sound()) by {
            assert forall|c: GridCoord, id: u64|
                after.navmesh.contains(c) && #[trigger] after.navmesh.tile(c).occupants.contains(
                    id,
                ) implies after.is_blocker(c, id) by {
                if c == tile && id == self.next_entity {
                    assert(after.stones[fresh].entity.0 == id && after.stones[fresh].tile == c);
                } else {
                    assert(self.navmesh.tile(c).occupants.contains(id));
                    assert(self.is_blocker(c, id));
                    if exists|n: int|
                        0 <= n < self.stones.len() && (#[trigger] self.stones[n]).entity.0 == id
                            && self.stones[n].tile == c {
                        let n = choose|n: int|
                            0 <= n < self.stones.len() && (#[trigger] self.stones[n]).entity.0
                                == id && self.stones[n].tile == c;
                        assert(after.stones[n].entity.0 == id && after.stones[n].tile == c);
                    }
                }
            }
        }
        assert(after.despawns_sound()) by {
            assert forall|j: int, n: int|
                0 <= j < after.commands.len() && 0 <= n < after.stones.len()
                    && #[trigger] after.commands[j] == (Command::Despawn {
                    entity: (#[trigger] after.stones[n]).entity,
                }) implies !after.navmesh.tile(after.stones[n].tile).occupants.contains(
                after.stones[n].entity.0,
            ) by {
                if n < fresh {
                    assert(self.commands[j] == (Command::Despawn {
                        entity: self.stones[n].entity,
                    }));
                } else {
                    assert(self.commands[j] matches Command::Despawn { entity } && entity.0
                        == self.next_entity);
                }
            }
        }
    }

    /// Dropping the deferred changes keeps the invariant.
    pub proof fn lemma_flush_keeps_wf(self)
        requires
            self.wf(),
        ensures
            (WorldModel { commands: Seq::empty(), ..self }).wf(),
    {
        reveal(WorldModel::wf);
        let after = WorldModel { commands: Seq::empty(), ..self };
        assert(after.occupancy_sound()) by {
            assert forall|c: GridCoord, id: u64|
                after.navmesh.contains(c) && #[trigger] after.navmesh.tile(c).occupants.contains(
                    id,
                ) implies after.is_blocker(c, id) by {
                assert(self.is_blocker(c, id));
            }
        }
    }

    /// A deferred change that is pending keeps the invariant when it takes
    /// effect.
    pub proof fn lemma_apply_keeps_wf(self, j: int)
        requires
            self.wf(),
            0 <= j < self.commands.len(),
        ensures
            self.apply(self.commands[j]).wf(),
            self.apply(self.commands[j]).commands == self.commands,
    {
        let command = self.commands[j];
        match command {
            Command::AddStatus { entity, status } => {
                self.lemma_pawn_index(entity);
                if let Some(i) = self.pawn_index(entity) {
                    self.lemma_with_pawn_keeps_wf(
                        i,
                        PawnBundleModel { pawn_status: status, ..self.pawns[i] },
                    );
                }
            },
            Command::AddWorkOrder { entity, order } => {
                self.lemma_pawn_index(entity);
                if let Some(i) = self.pawn_index(entity) {
                    self.lemma_with_pawn_keeps_wf(
                        i,
                        PawnBundleModel { work_order: Some(order), ..self.pawns[i] },
                    );
                }
            },
            Command::ClearWorkOrder { entity } => {
                self.lemma_pawn_index(entity);
                if let Some(i) = self.pawn_index(entity) {
                    self.lemma_with_pawn_keeps_wf(
                        i,
                        PawnBundleModel { work_order: None, ..self.pawns[i] },
                    );
                }
            },
            Command::Despawn { entity } => {
                self.lemma_pawn_index(entity);
                self.lemma_stone_index(entity);
                match self.pawn_index(entity) {
                    Some(i) => {
                        self.lemma_remove_pawn_keeps_wf(i);
                    },
                    None => {
                        if let Some(k) = self.stone_index(entity) {
                            assert(!self.navmesh.tile(self.stones[k].tile).occupants.contains(
                                self.stones[k].entity.0,
                            )) by {
                                reveal(WorldModel::wf);
                                assert(self.commands[j] == (Command::Despawn {
                                    entity: self.stones[k].entity,
                                }));
                            }
                            self.lemma_remove_stone_keeps_wf(k);
                        }
                    },
                }
            },
        }
    }

    /// No tile holds a reference to an entity that is gone: whatever a tile
    /// of the grid counts among its occupants is a deposit standing on it or
    /// the factory standing over it.
    pub proof fn lemma_occupants_are_live(self, c: GridCoord, id: u64)
        requires
            self.wf(),
            self.navmesh.contains(c),
            self.navmesh.tile(c).occupants.contains(id),
        ensures
            self.is_blocker(c, id),
    {
        reveal(WorldModel::wf);
    }

    /// An entity that is gone, and is not the factory, occupies no tile.
    pub proof fn lemma_gone_occupies_nothing(self, entity: EntityRef, c: GridCoord)
        requires
            self.wf(),
            self.gone(entity),
            self.factory matches Some(factory) ==> factory.entity != entity,
            self.navmesh.contains(c),
        ensures
            !self.navmesh.tile(c).occupants.contains(entity.0),
    {
        if self.navmesh.tile(c).occupants.contains(entity.0) {
            self.lemma_occupants_are_live(c, entity.0);
        }
    }

    /// The removal of an entity is pending at most once.
    pub proof fn lemma_despawn_pending_once(self, first: int, second: int)
        requires
            self.wf(),
            0 <= first < self.commands.len(),
            0 <= second < self.commands.len(),
            self.commands[first] is Despawn,
            self.commands[first] == self.commands[second],
        ensures
            first == second,
    {
        reveal(WorldModel::wf);
        if first < second {
            assert(self.commands[first] != self.commands[second]);
        } else if second < first {
            assert(self.commands[second] != self.commands[first]);
        }
    }

    /// A deferred change leaves gone what is gone.
    pub proof fn lemma_apply_keeps_gone(self, command: Command, entity: EntityRef)
        requires
            self.gone(entity),
        ensures
            self.apply(command).gone(entity),
    {
        let after = self.apply(command);
        match command {
            Command::AddStatus { entity: subject, .. } => {
                self.lemma_pawn_index(subject);
            },
            Command::AddWorkOrder { entity: subject, .. } => {
                self.lemma_pawn_index(subject);
            },
            Command::ClearWorkOrder { entity: subject } => {
                self.lemma_pawn_index(subject);
            },
            Command::Despawn { entity: subject } => {
                self.lemma_pawn_index(subject);
                self.lemma_stone_index(subject);
                match self.pawn_index(subject) {
                    Some(i) => {
                        assert forall|a: int| 0 <= a < after.pawns.len() implies (
                        #[trigger] after.pawns[a]).entity != entity by {
                            assert(after.pawns[a] == self.pawns[if a < i {
                                a
                            } else {
                                a + 1
                            }]);
                        }
                    },
                    None => {
                        if let Some(k) = self.stone_index(subject) {
                            assert forall|a: int| 0 <= a < after.stones.len() implies (
                            #[trigger] after.stones[a]).entity != entity by {
                                assert(after.stones[a] == self.stones[if a < k {
                                    a
                                } else {
                                    a + 1
                                }]);
                            }
                        }
                    },
                }
            },
        }
    }

    /// When its removal takes effect, an entity is gone.
    pub proof fn lemma_despawn_removes(self, entity: EntityRef)
        requires
            self.wf(),
        ensures
            self.apply(Command::Despawn { entity }).gone(entity),
    {
        reveal(WorldModel::wf);
        let after = self.apply(Command::Despawn { entity });
        self.lemma_pawn_index(entity);
        self.lemma_stone_index(entity);
        match self.pawn_index(entity) {
            Some(i) => {
                assert forall|a: int| 0 <= a < after.pawns.len() implies (
                #[trigger] after.pawns[a]).entity != entity by {
                    let before = if a < i {
                        a
                    } else {
                        a + 1
                    };
                    assert(after.pawns[a] == self.pawns[before]);
                    if before < i {
                        assert(self.pawns[before].entity != self.pawns[i].entity);
                    } else {
                        assert(self.pawns[i].entity != self.pawns[before].entity);
                    }
                }
                assert forall|k: int| 0 <= k < after.stones.len() implies (
                #[trigger] after.stones[k]).entity != entity by {
                    assert(self.pawns[i].entity != self.stones[k].entity);
                }
            },
            None => {
                if let Some(k) = self.stone_index(entity) {
                    assert forall|a: int| 0 <= a < after.stones.len() implies (
                    #[trigger] after.stones[a]).entity != entity by {
                        let before = if a < k {
                            a
                        } else {
                            a + 1
                        };
                        assert(after.stones[a] == self.stones[before]);
                        if before < k {
                            assert(self.stones[before].entity != self.stones[k].entity);
                        } else {
                            assert(self.stones[k].entity != self.stones[before].entity);
                        }
                    }
                }
            },
        }
    }

    /// After the first `n` deferred changes have taken effect, the
    /// invariant holds, and every entity whose removal was among them is
    /// gone.
    pub proof fn lemma_apply_prefix(self, n: int, entity: EntityRef)
        requires
            self.wf(),
            0 <= n <= self.commands.len(),
        ensures
            self.apply_all(self.commands.take(n)).wf(),
            self.apply_all(self.commands.take(n)).commands == self.commands,
            self.apply_all(self.commands.take(n)).navmesh == self.navmesh,
            self.apply_all(self.commands.take(n)).factory == self.factory,
            (exists|j: int| 0 <= j < n && self.commands[j] == (Command::Despawn { entity }))
                ==> self.apply_all(self.commands.take(n)).gone(entity),
        decreases n,
    {
        if n > 0 {
            self.lemma_apply_prefix(n - 1, entity);
            let before = self.apply_all(self.commands.take(n - 1));
            let command = self.commands[n - 1];
            assert(self.commands.take(n).drop_last() =~= self.commands.take(n - 1));
            assert(self.commands.take(n).last() == command);
            assert(self.apply_all(self.commands.take(n)) == before.apply(command));
            before.lemma_apply_keeps_wf(n - 1);
            if exists|j: int| 0 <= j < n && self.commands[j] == (Command::Despawn { entity }) {
                if command == (Command::Despawn { entity }) {
                    before.lemma_despawn_removes(entity);
                } else {
                    let j = choose|j: int|
                        0 <= j < n && self.commands[j] == (Command::Despawn { entity });
                    assert(j < n - 1);
                    before.lemma_apply_keeps_gone(command, entity);
                }
            }
        }
    }

    /// An entity whose removal is pending is gone when the phase has ended,
    /// and, unless it is the factory, occupies no tile.
    pub proof fn lemma_flush_removes(self, entity: EntityRef)
        requires
            self.wf(),
            self.despawn_pending(entity),
        ensures
            self.flushed().wf(),
            self.flushed().gone(entity),
            forall|c: GridCoord|
                self.flushed().navmesh.contains(c) && !(self.flushed().factory matches Some(factory)
                    && factory.entity == entity) ==> !(#[trigger] self.flushed().navmesh.tile(
                    c,
                )).occupants.contains(entity.0),
    {
        let n = self.commands.len() as int;
        self.lemma_apply_prefix(n, entity);
        assert(self.commands.take(n) =~= self.commands);
        let applied = self.apply_all(self.commands);
        let j = choose|j: int|
            0 <= j < self.commands.len() && self.commands[j] == (Command::Despawn { entity });
        assert(applied.gone(entity));
        applied.lemma_flush_keeps_wf();
        let flushed = self.flushed();
        assert forall|c: GridCoord|
            flushed.navmesh.contains(c) && !(flushed.factory matches Some(factory) && factory.entity
                == entity) implies !(#[trigger] flushed.navmesh.tile(c)).occupants.contains(
            entity.0,
        ) by {
            flushed.lemma_gone_occupies_nothing(entity, c);
        }
    }
}

} // verus!
