//! The state of the simulation, and the deferred changes that its systems
//! ask for.

use crate::navmesh::components::entity_ids;
use crate::navmesh::components::AnswerModel;
use crate::navmesh::components::EntitySet;
use crate::navmesh::components::Navmesh;
use crate::navmesh::components::NavmeshModel;
use crate::navmesh::components::PathfindAnswer;
use crate::navmesh::components::PathfindRequest;
use crate::navmesh::components::TileModel;
use crate::pawn::components::CarriedResources;
use crate::pawn::components::CharacterFacing;
use crate::pawn::components::Pawn;
use crate::pawn::components::PawnBundle;
use crate::pawn::components::PawnBundleModel;
use crate::pawn::components::Status;
use crate::pawn::components::WorkOrder;
use crate::pawn::EnemyWave;
use crate::stone::Stone;
use crate::stone::StoneKind;
use crate::EntityRef;
use crate::GameResources;
use crate::GameState;
use crate::GridCoord;
use vstd::prelude::*;

pub mod lemmas;
pub mod outcome;

verus! {

/// Side length of the block of tiles that the factory stands on.
pub const FACTORY_SIZE: usize = 4;

/// An ore deposit as the simulation holds it.
#[derive(Clone, Copy, Debug, PartialEq, Eq, Structural)]
pub struct StoneDeposit {
    pub entity: EntityRef,
    pub kind: StoneKind,
    pub stone: Stone,
    /// The tile the deposit blocks.
    pub tile: GridCoord,
}

/// The factory, once it has been placed.
#[derive(Clone, Copy, Debug, PartialEq, Eq, Structural)]
pub struct Factory {
    pub entity: EntityRef,
    /// The lower left tile of the block the factory stands on.
    pub tile: GridCoord,
}

/// A change that a system asks for and that takes effect when the phase
/// ends.
#[derive(Clone, Copy, Debug, PartialEq, Eq, Structural)]
pub enum Command {
    /// Replace the status of a pawn.
    AddStatus { entity: EntityRef, status: Status },
    /// Replace the work order of a pawn.
    AddWorkOrder { entity: EntityRef, order: WorkOrder },
    /// Take the work order of a pawn away.
    ClearWorkOrder { entity: EntityRef },
    /// Remove a pawn or a deposit from the world.
    Despawn { entity: EntityRef },
}

/// The simulation: the grid, the entities on it, the counters, and the
/// messages and deferred changes in flight.
pub struct World {
    pub navmesh: Navmesh,
    pub pawns: Vec<PawnBundle>,
    pub stones: Vec<StoneDeposit>,
    pub factory: Option<Factory>,
    pub game_resources: GameResources,
    pub game_state: GameState,
    pub enemy_wave: EnemyWave,
    pub requests: Vec<PathfindRequest>,
    pub answers: Vec<PathfindAnswer>,
    pub commands: Vec<Command>,
    /// The identity that the next entity gets.
    pub next_entity: u64,
}

/// The simulation as plain values.
pub struct WorldModel {
    pub navmesh: NavmeshModel,
    pub pawns: Seq<PawnBundleModel>,
    pub stones: Seq<StoneDeposit>,
    pub factory: Option<Factory>,
    pub game_resources: GameResources,
    pub game_state: GameState,
    pub enemy_wave: EnemyWave,
    pub requests: Seq<PathfindRequest>,
    pub answers: Seq<AnswerModel>,
    pub commands: Seq<Command>,
    pub next_entity: u64,
}

impl View for World {
    type V = WorldModel;

    open spec fn view(&self) -> WorldModel {
        WorldModel {
            navmesh: self.navmesh@,
            pawns: Seq::new(self.pawns.len() as nat, |i: int| self.pawns[i]@),
            stones: self.stones@,
            factory: self.factory,
            game_resources: self.game_resources,
            game_state: self.game_state,
            enemy_wave: self.enemy_wave,
            requests: self.requests@,
            answers: Seq::new(self.answers.len() as nat, |i: int| self.answers[i]@),
            commands: self.commands@,
            next_entity: self.next_entity,
        }
    }
}

/// Whether `c` lies in the block of tiles of a factory anchored at `anchor`.
pub open spec fn in_footprint(anchor: GridCoord, c: GridCoord) -> bool {
    anchor.x <= c.x < anchor.x + FACTORY_SIZE && anchor.y <= c.y < anchor.y + FACTORY_SIZE
}

impl WorldModel {
    /// The pawn at `i` is the first that bears the identity `entity`.
    pub open spec fn is_first_pawn(self, i: int, entity: EntityRef) -> bool {
        &&& 0 <= i < self.pawns.len()
        &&& self.pawns[i].entity == entity
        &&& forall|j: int| 0 <= j < i ==> (#[trigger] self.pawns[j]).entity != entity
    }

    /// The deposit at `k` is the first that bears the identity `entity`.
    pub open spec fn is_first_stone(self, k: int, entity: EntityRef) -> bool {
        &&& 0 <= k < self.stones.len()
        &&& self.stones[k].entity == entity
        &&& forall|j: int| 0 <= j < k ==> (#[trigger] self.stones[j]).entity != entity
    }

    /// The place of the pawn `entity` among the pawns.
    pub open spec fn pawn_index(self, entity: EntityRef) -> Option<int> {
        if exists|i: int| self.is_first_pawn(i, entity) {
            Some(choose|i: int| self.is_first_pawn(i, entity))
        } else {
            None
        }
    }

    /// The place of the deposit `entity` among the deposits.
    pub open spec fn stone_index(self, entity: EntityRef) -> Option<int> {
        if exists|k: int| self.is_first_stone(k, entity) {
            Some(choose|k: int| self.is_first_stone(k, entity))
        } else {
            None
        }
    }

    /// The world with one more deferred change.
    pub open spec fn issue(self, command: Command) -> WorldModel {
        WorldModel { commands: self.commands.push(command), ..self }
    }

    /// The world with one more request for a path.
    pub open spec fn request(self, request: PathfindRequest) -> WorldModel {
        WorldModel { requests: self.requests.push(request), ..self }
    }

    /// The world with the pawn at `i` replaced.
    pub open spec fn with_pawn(self, i: int, pawn: PawnBundleModel) -> WorldModel {
        WorldModel { pawns: self.pawns.update(i, pawn), ..self }
    }

    /// The world with the deposit at `k` replaced.
    pub open spec fn with_stone(self, k: int, stone: StoneDeposit) -> WorldModel {
        WorldModel { stones: self.stones.update(k, stone), ..self }
    }

    /// No two entities share an identity, and every identity in use lies
    /// below the next one to be given out.
    pub open spec fn ids_distinct(self) -> bool {
        &&& forall|i: int, j: int|
            0 <= i < j < self.pawns.len() ==> self.pawns[i].entity != self.pawns[j].entity
        &&& forall|i: int, j: int|
            0 <= i < j < self.stones.len() ==> self.stones[i].entity != self.stones[j].entity
        &&& forall|i: int, k: int|
            0 <= i < self.pawns.len() && 0 <= k < self.stones.len() ==> self.pawns[i].entity
                != self.stones[k].entity
        &&& forall|i: int| 0 <= i < self.pawns.len() ==> (#[trigger] self.pawns[i]).entity.0 < self.next_entity
        &&& forall|k: int|
            0 <= k < self.stones.len() ==> (#[trigger] self.stones[k]).entity.0 < self.next_entity
        &&& self.factory matches Some(factory) ==> {
            &&& factory.entity.0 < self.next_entity
            &&& forall|i: int|
                0 <= i < self.pawns.len() ==> (#[trigger] self.pawns[i]).entity != factory.entity
            &&& forall|k: int|
                0 <= k < self.stones.len() ==> (#[trigger] self.stones[k]).entity != factory.entity
        }
    }

    /// `id` names an entity that blocks the tile `c`: a deposit on `c`, or
    /// the factory where `c` lies under it.
    pub open spec fn is_blocker(self, c: GridCoord, id: u64) -> bool {
        ||| exists|k: int|
            0 <= k < self.stones.len() && (#[trigger] self.stones[k]).entity.0 == id
                && self.stones[k].tile == c
        ||| self.factory matches Some(factory) && factory.entity.0 == id && in_footprint(
            factory.tile,
            c,
        )
    }

    /// No tile holds a reference to an entity that is gone: every occupant
    /// of a tile is a deposit or the factory standing there.
    pub open spec fn occupancy_sound(self) -> bool {
        forall|c: GridCoord, id: u64|
            self.navmesh.contains(c) && #[trigger] self.navmesh.tile(c).occupants.contains(id)
                ==> self.is_blocker(c, id)
    }

    /// A deposit that is about to be removed has left its tile already, no
    /// removal is pending for an identity that has yet to be given out, and
    /// no removal is pending twice.
    pub open spec fn despawns_sound(self) -> bool {
        &&& forall|j: int, k: int|
            0 <= j < self.commands.len() && 0 <= k < self.stones.len() && #[trigger] self.commands[j]
                == (Command::Despawn { entity: (#[trigger] self.stones[k]).entity })
                ==> !self.navmesh.tile(self.stones[k].tile).occupants.contains(
                self.stones[k].entity.0,
            )
        &&& forall|j: int|
            0 <= j < self.commands.len() ==> ((#[trigger] self.commands[j]) matches Command::Despawn {
                entity,
            } ==> entity.0 < self.next_entity)
        &&& forall|first: int, second: int|
            0 <= first < second < self.commands.len() && (#[trigger] self.commands[first]) is Despawn
                ==> self.commands[first] != #[trigger] self.commands[second]
    }

    /// `set` holds the identities of just those entities whose removal has
    /// been asked for in this phase.
    pub open spec fn tracked_by(self, set: EntitySet) -> bool {
        forall|id: u64| #[trigger] entity_ids(set).contains(id) <==> self.despawn_pending(EntityRef(id))
    }

    /// Whether the removal of `entity` has been asked for in this phase.
    pub open spec fn despawn_pending(self, entity: EntityRef) -> bool {
        self.commands.contains(Command::Despawn { entity })
    }

    /// The world with the tile under the deposit at `k` opened, and the
    /// deposit taken off its occupants.
    pub open spec fn unblock(self, k: int) -> WorldModel {
        let stone = self.stones[k];
        WorldModel {
            navmesh: self.navmesh.with_tile(
                stone.tile,
                TileModel {
                    walkable: true,
                    occupants: self.navmesh.tile(stone.tile).occupants.remove(stone.entity.0),
                    ..self.navmesh.tile(stone.tile)
                },
            ),
            ..self
        }
    }

    /// Every deposit stands on a tile of the grid.
    pub open spec fn stones_placed(self) -> bool {
        forall|k: int| 0 <= k < self.stones.len() ==> self.navmesh.contains((#[trigger] self.stones[k]).tile)
    }

    /// The invariant of the simulation.
    #[verifier::opaque]
    pub open spec fn wf(self) -> bool {
        &&& self.navmesh.square()
        &&& self.ids_distinct()
        &&& self.stones_placed()
        &&& self.occupancy_sound()
        &&& self.despawns_sound()
    }

    /// The world after `command` has taken effect. A command for an entity
    /// that is gone changes nothing.
    pub open spec fn apply(self, command: Command) -> WorldModel {
        match command {
            Command::AddStatus { entity, status } => match self.pawn_index(entity) {
                Some(i) => self.with_pawn(
                    i,
                    PawnBundleModel { pawn_status: status, ..self.pawns[i] },
                ),
                None => self,
            },
            Command::AddWorkOrder { entity, order } => match self.pawn_index(entity) {
                Some(i) => self.with_pawn(
                    i,
                    PawnBundleModel { work_order: Some(order), ..self.pawns[i] },
                ),
                None => self,
            },
            Command::ClearWorkOrder { entity } => match self.pawn_index(entity) {
                Some(i) => self.with_pawn(i, PawnBundleModel { work_order: None, ..self.pawns[i] }),
                None => self,
            },
            Command::Despawn { entity } => match self.pawn_index(entity) {
                Some(i) => WorldModel { pawns: self.pawns.remove(i), ..self },
                None => match self.stone_index(entity) {
                    Some(k) => WorldModel { stones: self.stones.remove(k), ..self },
                    None => self,
                },
            },
        }
    }

    /// The world after `commands` have taken effect, first to last.
    pub open spec fn apply_all(self, commands: Seq<Command>) -> WorldModel
        decreases commands.len(),
    {
        if commands.len() == 0 {
            self
        } else {
            self.apply_all(commands.drop_last()).apply(commands.last())
        }
    }

    /// The world at the end of a phase: the deferred changes have taken
    /// effect, in the order in which they were asked for, and none is left.
    pub open spec fn flushed(self) -> WorldModel {
        WorldModel { commands: Seq::empty(), ..self.apply_all(self.commands) }
    }

    /// The world with one more pawn, standing on `tile`. A pawn of the
    /// player is counted.
    pub open spec fn spawn_pawn(self, tile: GridCoord, enemy: bool) -> WorldModel {
        WorldModel {
            pawns: self.pawns.push(
                PawnBundleModel::fresh(EntityRef(self.next_entity), tile, enemy),
            ),
            game_resources: GameResources {
                pawns: if enemy || self.game_resources.pawns == usize::MAX {
                    self.game_resources.pawns
                } else {
                    (self.game_resources.pawns + 1) as usize
                },
                ..self.game_resources
            },
            next_entity: (self.next_entity + 1) as u64,
            ..self
        }
    }

    /// The world with one more deposit of `kind`, at full capacity, which
    /// blocks and occupies `tile`.
    pub open spec fn spawn_stone(self, tile: GridCoord, kind: StoneKind) -> WorldModel {
        WorldModel {
            stones: self.stones.push(
                StoneDeposit {
                    entity: EntityRef(self.next_entity),
                    kind,
                    stone: Stone { remaining_resources: crate::stone::MAX_STONE_PER_TILE },
                    tile,
                },
            ),
            navmesh: self.navmesh.with_tile(
                tile,
                TileModel {
                    walkable: false,
                    occupants: self.navmesh.tile(tile).occupants.insert(self.next_entity),
                    ..self.navmesh.tile(tile)
                },
            ),
            next_entity: (self.next_entity + 1) as u64,
            ..self
        }
    }

    /// No pawn and no deposit bears the identity `entity`.
    pub open spec fn gone(self, entity: EntityRef) -> bool {
        &&& forall|i: int| 0 <= i < self.pawns.len() ==> (#[trigger] self.pawns[i]).entity != entity
        &&& forall|k: int| 0 <= k < self.stones.len() ==> (#[trigger] self.stones[k]).entity != entity
    }

    /// A world of side `size` with nothing on it.
    pub open spec fn empty(size: nat) -> WorldModel {
        WorldModel {
            navmesh: NavmeshModel::blocked(size),
            pawns: Seq::empty(),
            stones: Seq::empty(),
            factory: None,
            game_resources: GameResources { stone: 0, pawns: 0 },
            game_state: GameState::Loading,
            enemy_wave: EnemyWave::initial(),
            requests: Seq::empty(),
            answers: Seq::empty(),
            commands: Seq::empty(),
            next_entity: 0,
        }
    }
}

impl World {
    /// The invariant of the simulation.
    pub open spec fn wf(&self) -> bool {
        self.navmesh.wf() && self@.wf()
    }

    /// A world of side `size` with nothing on it.
    pub fn new(size: usize) -> (world: World)
        ensures
            world.wf(),
            world@ == WorldModel::empty(size as nat),
    {
        let world = World {
            navmesh: Navmesh::new(size),
            pawns: Vec::new(),
            stones: Vec::new(),
            factory: None,
            game_resources: GameResources::default(),
            game_state: GameState::default(),
            enemy_wave: EnemyWave::default(),
            requests: Vec::new(),
            answers: Vec::new(),
            commands: Vec::new(),
            next_entity: 0,
        };
        proof {
            reveal(WorldModel::wf);
            assert(world@.pawns =~= Seq::empty());
            assert(world@.answers =~= Seq::empty());
        }
        world
    }

    /// Asks for `command` to take effect when the phase ends.
    pub(crate) fn issue(&mut self, command: Command)
        requires
            old(self).wf(),
            old(self)@.issue(command).wf(),
        ensures
            final(self).wf(),
            final(self)@ == old(self)@.issue(command),
            *final(self) == (World { commands: final(self).commands, ..*old(self) }),
            forall|entity: EntityRef| #[trigger]
                final(self)@.despawn_pending(entity) == (old(self)@.despawn_pending(entity)
                    || command == (Command::Despawn { entity })),
    {
        self.commands.push(command);
        proof {
            assert(self@.pawns =~= old(self)@.pawns);
            assert(self@.answers =~= old(self)@.answers);
            assert forall|entity: EntityRef| #[trigger]
                self@.despawn_pending(entity) == (old(self)@.despawn_pending(entity) || command == (
                Command::Despawn { entity })) by {
                crate::world::lemmas::lemma_push_contains(
                    old(self)@.commands,
                    command,
                    Command::Despawn { entity },
                );
            }
        }
    }

    /// Asks for the status of the pawn `entity` to become `status`.
    pub fn add_status(&mut self, entity: EntityRef, status: Status)
        requires
            old(self).wf(),
        ensures
            final(self).wf(),
            final(self)@ == old(self)@.issue(Command::AddStatus { entity, status }),
            *final(self) == (World { commands: final(self).commands, ..*old(self) }),
            forall|other: EntityRef| #[trigger]
                final(self)@.despawn_pending(other) == old(self)@.despawn_pending(other),
    {
        proof {
            old(self)@.lemma_issue_keeps_wf(Command::AddStatus { entity, status });
        }
        self.issue(Command::AddStatus { entity, status });
    }

    /// Asks for the work order of the pawn `entity` to become `order`.
    pub fn add_work_order(&mut self, entity: EntityRef, order: WorkOrder)
        requires
            old(self).wf(),
        ensures
            final(self).wf(),
            final(self)@ == old(self)@.issue(Command::AddWorkOrder { entity, order }),
            *final(self) == (World { commands: final(self).commands, ..*old(self) }),
            forall|other: EntityRef| #[trigger]
                final(self)@.despawn_pending(other) == old(self)@.despawn_pending(other),
    {
        proof {
            old(self)@.lemma_issue_keeps_wf(Command::AddWorkOrder { entity, order });
        }
        self.issue(Command::AddWorkOrder { entity, order });
    }

    /// Asks for the work order of the pawn `entity` to be taken away.
    pub fn clear_work_order(&mut self, entity: EntityRef)
        requires
            old(self).wf(),
        ensures
            final(self).wf(),
            final(self)@ == old(self)@.issue(Command::ClearWorkOrder { entity }),
            *final(self) == (World { commands: final(self).commands, ..*old(self) }),
            forall|other: EntityRef| #[trigger]
                final(self)@.despawn_pending(other) == old(self)@.despawn_pending(other),
    {
        proof {
            old(self)@.lemma_issue_keeps_wf(Command::ClearWorkOrder { entity });
        }
        self.issue(Command::ClearWorkOrder { entity });
    }

    /// The entities whose removal has been asked for in this phase.
    pub fn destroyed(&self) -> (set: EntitySet)
        ensures
            self@.tracked_by(set),
    {
        let mut set = EntitySet::empty();
        let mut j: usize = 0;
        while j < self.commands.len()
            invariant
                j <= self.commands.len(),
                forall|id: u64| #[trigger]
                    entity_ids(set).contains(id) <==> self.commands@.take(j as int).contains(
                        Command::Despawn { entity: EntityRef(id) },
                    ),
            decreases self.commands.len() - j,
        {
            let ghost seen = self.commands@.take(j as int);
            let ghost before = entity_ids(set);
            proof {
                assert(self.commands@.take(j + 1) =~= seen.push(self.commands@[j as int]));
            }
            if let Command::Despawn { entity } = self.commands[j] {
                set.insert(entity.0);
            }
            proof {
                assert forall|id: u64| #[trigger]
                    entity_ids(set).contains(id) <==> seen.push(self.commands@[j as int]).contains(
                        Command::Despawn { entity: EntityRef(id) },
                    ) by {
                    crate::world::lemmas::lemma_push_contains(
                        seen,
                        self.commands@[j as int],
                        Command::Despawn { entity: EntityRef(id) },
                    );
                }
            }
            j += 1;
        }
        proof {
            assert(self.commands@.take(self.commands.len() as int) =~= self.commands@);
        }
        set
    }

    /// Asks for the removal of the pawn or deposit `entity`.
    pub(crate) fn despawn(&mut self, entity: EntityRef)
        requires
            old(self).wf(),
            entity.0 < old(self)@.next_entity,
            !old(self)@.despawn_pending(entity),
            forall|k: int|
                0 <= k < old(self)@.stones.len() && (#[trigger] old(self)@.stones[k]).entity == entity
                    ==> !old(self)@.navmesh.tile(old(self)@.stones[k].tile).occupants.contains(
                    entity.0,
                ),
        ensures
            final(self).wf(),
            final(self)@ == old(self)@.issue(Command::Despawn { entity }),
            *final(self) == (World { commands: final(self).commands, ..*old(self) }),
            forall|other: EntityRef| #[trigger]
                final(self)@.despawn_pending(other) == (old(self)@.despawn_pending(other) || other
                    == entity),
    {
        proof {
            old(self)@.lemma_despawn_keeps_wf(entity);
        }
        self.issue(Command::Despawn { entity });
    }

    /// Opens the tile under the deposit at `k` and takes the deposit off
    /// its occupants.
    pub(crate) fn unblock(&mut self, k: usize)
        requires
            old(self).wf(),
            k < old(self).stones.len(),
        ensures
            final(self).wf(),
            final(self)@ == old(self)@.unblock(k as int),
            *final(self) == (World { navmesh: final(self).navmesh, ..*old(self) }),
            !final(self)@.navmesh.tile(old(self).stones[k as int].tile).occupants.contains(
                old(self).stones[k as int].entity.0,
            ),
    {
        let tile = self.stones[k].tile;
        let entity = self.stones[k].entity;
        proof {
            self@.lemma_stone_known(k as int);
        }
        self.navmesh.set_walkable(tile.x, tile.y, true);
        self.navmesh.remove_occupant(tile.x, tile.y, entity);
        proof {
            assert(self@.pawns =~= old(self)@.pawns);
            assert(self@.answers =~= old(self)@.answers);
            assert(self@.navmesh.tiles =~= old(self)@.unblock(k as int).navmesh.tiles) by {
                assert(self@.navmesh.tiles[tile.x as int] =~= old(self)@.unblock(
                    k as int,
                ).navmesh.tiles[tile.x as int]);
            }
            old(self)@.lemma_unblock_keeps_wf(k as int);
        }
    }

    /// A world that differs from `before` in the deposit at `k` alone, which
    /// kept its identity and its tile, has the view of `before` with that
    /// deposit replaced, and keeps the invariant.
    pub proof fn lemma_stone_changed(&self, before: &World, k: int)
        requires
            before.wf(),
            0 <= k < before.stones.len(),
            *self == (World { stones: self.stones, ..*before }),
            self.stones@ == before.stones@.update(k, self.stones[k]),
            self.stones[k].entity == before.stones[k].entity,
            self.stones[k].tile == before.stones[k].tile,
        ensures
            self@ == before@.with_stone(k, self.stones[k]),
            self.wf(),
    {
        assert(self@.pawns =~= before@.pawns);
        assert(self@.answers =~= before@.answers);
        before@.lemma_with_stone_keeps_wf(k, self.stones[k]);
    }

    /// Sends a request for a path.
    pub fn send_request(&mut self, request: PathfindRequest)
        requires
            old(self).wf(),
        ensures
            final(self).wf(),
            final(self)@ == old(self)@.request(request),
            *final(self) == (World { requests: final(self).requests, ..*old(self) }),
            forall|other: EntityRef| #[trigger]
                final(self)@.despawn_pending(other) == old(self)@.despawn_pending(other),
    {
        self.requests.push(request);
        proof {
            old(self)@.lemma_request_keeps_wf(request);
            assert(self@.pawns =~= old(self)@.pawns);
            assert(self@.answers =~= old(self)@.answers);
        }
    }

    /// A world that differs from `before` in the pawn at `i` alone, which
    /// kept its identity, has the view of `before` with that pawn replaced,
    /// and keeps the invariant.
    pub proof fn lemma_pawn_changed(&self, before: &World, i: int)
        requires
            before.wf(),
            0 <= i < before.pawns.len(),
            *self == (World { pawns: self.pawns, ..*before }),
            self.pawns.len() == before.pawns.len(),
            forall|j: int|
                0 <= j < before.pawns.len() && j != i ==> #[trigger] self.pawns[j] == before.pawns[j],
            self.pawns[i].entity == before.pawns[i].entity,
        ensures
            self@ == before@.with_pawn(i, self.pawns[i]@),
            self.wf(),
    {
        assert(self@.pawns =~= before@.pawns.update(i, self.pawns[i]@));
        assert(self@.answers =~= before@.answers);
        before@.lemma_with_pawn_keeps_wf(i, self.pawns[i]@);
    }

    /// Adds a pawn on `tile`, of the player or of the attackers, and returns
    /// its identity; `None`, and nothing changes, where no identity is left
    /// to give out.
    pub fn spawn_pawn(&mut self, tile: GridCoord, enemy: bool) -> (spawned: Option<EntityRef>)
        requires
            old(self).wf(),
        ensures
            final(self).wf(),
            old(self)@.next_entity == u64::MAX ==> spawned is None && final(self)@ == old(self)@,
            old(self)@.next_entity < u64::MAX ==> spawned == Some(EntityRef(old(self)@.next_entity))
                && final(self)@ == old(self)@.spawn_pawn(tile, enemy),
    {
        if self.next_entity == u64::MAX {
            return None;
        }
        let entity = EntityRef(self.next_entity);
        self.pawns.push(
            PawnBundle {
                entity,
                character_facing: CharacterFacing::Left,
                pawn: Pawn::new(),
                pawn_status: Status::Idle,
                work_order: None,
                resources: CarriedResources(0),
                tile,
                enemy,
            },
        );
        if !enemy && self.game_resources.pawns < usize::MAX {
            self.game_resources.pawns = self.game_resources.pawns + 1;
        }
        self.next_entity = self.next_entity + 1;
        proof {
            assert(self@.pawns =~= old(self)@.spawn_pawn(tile, enemy).pawns);
            assert(self@.answers =~= old(self)@.answers);
            old(self)@.lemma_spawn_pawn_keeps_wf(tile, enemy);
        }
        Some(entity)
    }

    /// Adds a deposit of `kind` on `tile`, at full capacity, blocks the tile
    /// and records the deposit as its occupant. Returns the identity of the
    /// deposit; `None`, and nothing changes, where `tile` lies outside the
    /// grid or no identity is left to give out.
    pub fn spawn_stone(&mut self, tile: GridCoord, kind: StoneKind) -> (spawned: Option<EntityRef>)
        requires
            old(self).wf(),
        ensures
            final(self).wf(),
            old(self)@.next_entity == u64::MAX || !old(self)@.navmesh.contains(tile) ==> spawned is None
                && final(self)@ == old(self)@,
            old(self)@.next_entity < u64::MAX && old(self)@.navmesh.contains(tile) ==> spawned == Some(
                EntityRef(old(self)@.next_entity),
            ) && final(self)@ == old(self)@.spawn_stone(tile, kind),
    {
        if self.next_entity == u64::MAX || !self.navmesh.in_bounds(tile.x, tile.y) {
            return None;
        }
        let entity = EntityRef(self.next_entity);
        self.stones.push(StoneDeposit { entity, kind, stone: Stone::new(), tile });
        self.navmesh.set_walkable(tile.x, tile.y, false);
        self.navmesh.add_occupant(tile.x, tile.y, entity);
        self.next_entity = self.next_entity + 1;
        proof {
            assert(self@.pawns =~= old(self)@.pawns);
            assert(self@.answers =~= old(self)@.answers);
            assert(self@.navmesh.tiles =~= old(self)@.spawn_stone(tile, kind).navmesh.tiles) by {
                assert(self@.navmesh.tiles[tile.x as int] =~= old(self)@.spawn_stone(
                    tile,
                    kind,
                ).navmesh.tiles[tile.x as int]);
            }
            old(self)@.lemma_spawn_stone_keeps_wf(tile, kind);
        }
        Some(entity)
    }

    /// Records that the pawn `entity` now stands on `tile`, and tells
    /// whether there is such a pawn.
    pub fn set_pawn_tile(&mut self, entity: EntityRef, tile: GridCoord) -> (moved: bool)
        requires
            old(self).wf(),
        ensures
            final(self).wf(),
            match old(self)@.pawn_index(entity) {
                Some(i) => moved && final(self)@ == old(self)@.with_pawn(
                    i,
                    PawnBundleModel { tile, ..old(self)@.pawns[i] },
                ),
                None => !moved && final(self)@ == old(self)@,
            },
    {
        match self.find_pawn(entity) {
            Some(i) => {
                self.pawns[i].tile = tile;
                proof {
                    self.lemma_pawn_changed(old(self), i as int);
                }
                true
            },
            None => false,
        }
    }

    /// Ends a phase: lets the deferred changes take effect, in the order in
    /// which they were asked for.
    pub fn apply_deferred(&mut self)
        requires
            old(self).wf(),
        ensures
            final(self).wf(),
            final(self)@ == old(self)@.flushed(),
    {
        let count = self.commands.len();
        let mut done: usize = 0;
        while done < count
            invariant
                done <= count,
                count == old(self)@.commands.len(),
                self.wf(),
                self@.commands == old(self)@.commands,
                self@ == old(self)@.apply_all(old(self)@.commands.take(done as int)),
            decreases count - done,
        {
            let ghost before = *self;
            let command = self.commands[done];
            proof {
                before@.lemma_apply_keeps_wf(done as int);
                assert(old(self)@.commands.take(done + 1).drop_last() =~= old(self)@.commands.take(
                    done as int,
                ));
            }
            match command {
                Command::AddStatus { entity, status } => {
                    if let Some(i) = self.find_pawn(entity) {
                        self.pawns[i].pawn_status = status;
                        proof {
                            self.lemma_pawn_changed(&before, i as int);
                        }
                    }
                },
                Command::AddWorkOrder { entity, order } => {
                    if let Some(i) = self.find_pawn(entity) {
                        self.pawns[i].work_order = Some(order);
                        proof {
                            self.lemma_pawn_changed(&before, i as int);
                        }
                    }
                },
                Command::ClearWorkOrder { entity } => {
                    if let Some(i) = self.find_pawn(entity) {
                        self.pawns[i].work_order = None;
                        proof {
                            self.lemma_pawn_changed(&before, i as int);
                        }
                    }
                },
                Command::Despawn { entity } => {
                    match self.find_pawn(entity) {
                        Some(i) => {
                            self.pawns.remove(i);
                            proof {
                                assert(self@.pawns =~= before@.pawns.remove(i as int));
                                assert(self@.answers =~= before@.answers);
                            }
                        },
                        None => {
                            if let Some(k) = self.find_stone(entity) {
                                self.stones.remove(k);
                                proof {
                                    assert(self@.pawns =~= before@.pawns);
                                    assert(self@.answers =~= before@.answers);
                                }
                            }
                        },
                    }
                },
            }
            assert(self@ == before@.apply(command));
            done += 1;
        }
        proof {
            assert(old(self)@.commands.take(count as int) =~= old(self)@.commands);
        }
        let ghost applied = *self;
        self.commands.clear();
        proof {
            assert(self@.pawns =~= applied@.pawns);
            assert(self@.answers =~= applied@.answers);
            applied@.lemma_flush_keeps_wf();
        }
    }

    /// The place of the pawn `entity` among the pawns.
    pub fn find_pawn(&self, entity: EntityRef) -> (found: Option<usize>)
        ensures
            match found {
                Some(i) => self@.pawn_index(entity) == Some(i as int) && self@.is_first_pawn(
                    i as int,
                    entity,
                ),
                None => self@.pawn_index(entity) is None,
            },
    {
        let mut i: usize = 0;
        while i < self.pawns.len()
            invariant
                i <= self.pawns.len(),
                forall|j: int| 0 <= j < i ==> (#[trigger] self@.pawns[j]).entity != entity,
            decreases self.pawns.len() - i,
        {
            if self.pawns[i].entity == entity {
                proof {
                    assert(self@.is_first_pawn(i as int, entity));
                    self@.lemma_pawn_index(entity);
                }
                return Some(i);
            }
            i += 1;
        }
        proof {
            assert forall|j: int| !self@.is_first_pawn(j, entity) by {}
        }
        None
    }

    /// The place of the deposit `entity` among the deposits.
    pub fn find_stone(&self, entity: EntityRef) -> (found: Option<usize>)
        ensures
            match found {
                Some(k) => self@.stone_index(entity) == Some(k as int) && self@.is_first_stone(
                    k as int,
                    entity,
                ),
                None => self@.stone_index(entity) is None,
            },
    {
        let mut k: usize = 0;
        while k < self.stones.len()
            invariant
                k <= self.stones.len(),
                forall|j: int| 0 <= j < k ==> (#[trigger] self@.stones[j]).entity != entity,
            decreases self.stones.len() - k,
        {
            if self.stones[k].entity == entity {
                proof {
                    assert(self@.is_first_stone(k as int, entity));
                    self@.lemma_stone_index(entity);
                }
                return Some(k);
            }
            k += 1;
        }
        proof {
            assert forall|j: int| !self@.is_first_stone(j, entity) by {}
        }
        None
    }
}

} // verus!
