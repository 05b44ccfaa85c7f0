//! New pawns: the ones the player starts with and buys, and the waves of
//! attackers.

use crate::EntityRef;
use crate::GameResources;
use crate::GameState;
use crate::GridCoord;
use crate::navmesh::components::NavmeshModel;
use crate::pawn::components::PawnBundleModel;
use crate::pawn::systems::INITIAL_PAWN_COUNT;
use crate::pawn::systems::PAWN_COST;
use crate::world::World;
use crate::world::WorldModel;
use vstd::prelude::*;

verus! {

impl WorldModel {
    /// The pawns that the player gets for `events` requests to buy one: as
    /// many as were asked for and the stone in store pays for, and none
    /// before the factory is placed.
    pub open spec fn pawns_bought(self, events: usize) -> usize {
        if self.factory is None {
            0
        } else if events <= self.game_resources.stone / PAWN_COST {
            events
        } else {
            self.game_resources.stone / PAWN_COST
        }
    }

    /// The world after the pawns bought for `events` requests have been paid
    /// for: the stone in store is less their cost.
    pub open spec fn pay_for_pawns(self, events: usize) -> WorldModel {
        WorldModel {
            game_resources: GameResources {
                stone: (self.game_resources.stone - self.pawns_bought(events) * PAWN_COST) as usize,
                ..self.game_resources
            },
            ..self
        }
    }

    /// The world after `events` requests to buy a pawn, with `tiles` holding
    /// a place for the pawn of each request: the pawns bought are paid for,
    /// and each stands on its tile, spawned in the order of the requests.
    pub open spec fn listen_for_spawn_pawn_event(self, events: usize, tiles: Seq<GridCoord>) -> WorldModel {
        self.pay_for_pawns(events).spawn_pawns_upto(tiles, self.pawns_bought(events) as nat)
    }

    /// The world after `delta` nanoseconds have passed for the waves of
    /// attackers: the wave timer has advanced, and the wave is counted where
    /// it fired.
    pub open spec fn tick_enemy_wave(self, delta: u64) -> WorldModel {
        WorldModel { enemy_wave: self.enemy_wave.spec_tick(delta), ..self }
    }

    /// The world with a pawn of the player on each of the first `n` of
    /// `tiles`, as far as identities were left to give out.
    pub open spec fn spawn_pawns_upto(self, tiles: Seq<GridCoord>, n: nat) -> WorldModel
        decreases n,
    {
        if n == 0 {
            self
        } else {
            let before = self.spawn_pawns_upto(tiles, (n - 1) as nat);
            if before.next_entity < u64::MAX {
                before.spawn_pawn(tiles[n - 1], false)
            } else {
                before
            }
        }
    }

    /// While identities and the count of pawns have room, the first `n` of
    /// `tiles` each get a fresh idle pawn of the player, in order and behind
    /// the pawns that were there; the pawns are counted, and nothing else
    /// changes.
    pub proof fn lemma_spawn_pawns_upto(self, tiles: Seq<GridCoord>, n: nat)
        requires
            n <= tiles.len(),
            self.next_entity + n <= u64::MAX,
            self.game_resources.pawns + n <= usize::MAX,
        ensures
            self.spawn_pawns_upto(tiles, n) == (WorldModel {
                pawns: self.pawns + Seq::new(
                    n,
                    |j: int|
                        PawnBundleModel::fresh(
                            EntityRef((self.next_entity + j) as u64),
                            tiles[j],
                            false,
                        ),
                ),
                game_resources: GameResources {
                    pawns: (self.game_resources.pawns + n) as usize,
                    ..self.game_resources
                },
                next_entity: (self.next_entity + n) as u64,
                ..self
            }),
        decreases n,
    {
        let target = WorldModel {
            pawns: self.pawns + Seq::new(
                n,
                |j: int|
                    PawnBundleModel::fresh(EntityRef((self.next_entity + j) as u64), tiles[j], false),
            ),
            game_resources: GameResources {
                pawns: (self.game_resources.pawns + n) as usize,
                ..self.game_resources
            },
            next_entity: (self.next_entity + n) as u64,
            ..self
        };
        if n > 0 {
            self.lemma_spawn_pawns_upto(tiles, (n - 1) as nat);
            assert(self.spawn_pawns_upto(tiles, n).pawns =~= target.pawns);
        } else {
            assert(self.pawns =~= target.pawns);
        }
    }

    /// The purchase rule: of `events` requests, as many are granted as the
    /// stone in store pays for. While identities and the count of pawns have
    /// room, the store is less the cost of each pawn bought, the count of
    /// pawns is up by their number, and each stands idle on the tile of its
    /// request; with less stone than one pawn costs nothing changes.
    pub proof fn lemma_purchase(self, events: usize, tiles: Seq<GridCoord>)
        requires
            self.factory is Some,
            events <= tiles.len(),
            self.next_entity + self.pawns_bought(events) <= u64::MAX,
            self.game_resources.pawns + self.pawns_bought(events) <= usize::MAX,
        ensures
            ({
                let bought = self.pawns_bought(events);
                let after = self.listen_for_spawn_pawn_event(events, tiles);
                &&& bought == if events <= self.game_resources.stone / PAWN_COST {
                    events
                } else {
                    self.game_resources.stone / PAWN_COST
                }
                &&& after.game_resources.stone == self.game_resources.stone - PAWN_COST * bought
                &&& after.game_resources.pawns == self.game_resources.pawns + bought
                &&& after.pawns.len() == self.pawns.len() + bought
                &&& forall|j: int|
                    0 <= j < self.pawns.len() ==> #[trigger] after.pawns[j] == self.pawns[j]
                &&& forall|j: int|
                    0 <= j < bought ==> #[trigger] after.pawns[self.pawns.len() + j]
                        == PawnBundleModel::fresh(
                        EntityRef((self.next_entity + j) as u64),
                        tiles[j],
                        false,
                    )
                &&& self.game_resources.stone < PAWN_COST ==> after == self
            }),
    {
        let bought = self.pawns_bought(events);
        let paid = self.pay_for_pawns(events);
        paid.lemma_spawn_pawns_upto(tiles, bought as nat);
        assert(PAWN_COST * bought == bought * PAWN_COST) by (nonlinear_arith);
        if self.game_resources.stone < PAWN_COST {
            assert(bought == 0);
            assert(bought * PAWN_COST == 0);
            let after = self.listen_for_spawn_pawn_event(events, tiles);
            assert(after.pawns =~= self.pawns);
            assert(after == self);
        }
    }

    /// The world after the first pawns of the player have been spawned: one
    /// on each of `tiles`, up to the number that the player starts with, and
    /// the game is in its main phase. Nothing happens before the factory is
    /// placed.
    pub open spec fn initial_pawn_spawn(self, tiles: Seq<GridCoord>) -> WorldModel {
        if self.factory is None {
            self
        } else {
            WorldModel {
                game_state: GameState::Main,
                ..self.spawn_pawns_upto(
                    tiles,
                    if tiles.len() <= INITIAL_PAWN_COUNT {
                        tiles.len()
                    } else {
                        INITIAL_PAWN_COUNT as nat
                    },
                )
            }
        }
    }
}

/// Takes `events` requests to buy a pawn, with `tiles` holding a place for
/// the pawn of each request. A request is granted while the stone in store
/// pays for a pawn: the cost is taken, and the pawn is spawned on its tile
/// and counted. Returns the number of pawns bought. Nothing is bought before
/// the factory is placed.
pub fn listen_for_spawn_pawn_event(world: &mut World, events: usize, tiles: &Vec<GridCoord>) -> (bought:
    usize)
    requires
        old(world).wf(),
        tiles.len() >= events,
    ensures
        final(world).wf(),
        bought == old(world)@.pawns_bought(events),
        final(world)@ == old(world)@.listen_for_spawn_pawn_event(events, tiles@),
{
    if world.factory.is_none() {
        proof {
            assert(world@ =~= old(world)@.pay_for_pawns(events)) by {
                assert(old(world)@.pawns_bought(events) * PAWN_COST == 0);
            }
        }
        return 0;
    }
    let affordable: usize = world.game_resources.stone / PAWN_COST;
    let bought: usize = if events <= affordable { events } else { affordable };
    assert(bought * PAWN_COST <= world.game_resources.stone) by (nonlinear_arith)
        requires
            bought <= affordable,
            affordable == world.game_resources.stone / PAWN_COST,
            PAWN_COST == 100,
    ;
    world.game_resources.stone = world.game_resources.stone - bought * PAWN_COST;
    proof {
        assert(world@.pawns =~= old(world)@.pawns);
        assert(world@.answers =~= old(world)@.answers);
        old(world)@.lemma_resources_keep_wf(world.game_resources);
    }
    let ghost paid = world@;
    let mut n: usize = 0;
    while n < bought
        invariant
            n <= bought <= tiles.len(),
            world.wf(),
            world@ == paid.spawn_pawns_upto(tiles@, n as nat),
        decreases bought - n,
    {
        world.spawn_pawn(tiles[n], false);
        n += 1;
    }
    bought
}

/// Lets `delta` nanoseconds pass for the waves of attackers and, when the
/// wave timer has run out, spawns the wave: the number of the new wave times
/// the multiplier is due, and each attacker is spawned as `spawn_enemy_wave`
/// does it, within `draws` draws of a tile for the whole wave. Returns the
/// attackers spawned. The wave is counted whatever comes of the draws.
pub fn spawn_enemy_pawns(world: &mut World, delta: u64, draws: usize) -> (spawned: Vec<EntityRef>)
    requires
        old(world).wf(),
    ensures
        final(world).wf(),
        final(world)@.enemy_wave == old(world)@.enemy_wave.spec_tick(delta),
        spawned@.len() <= old(world)@.enemy_wave.spec_due(delta),
        final(world)@.pawns.len() == old(world)@.pawns.len() + spawned@.len(),
        forall|j: int|
            0 <= j < old(world)@.pawns.len() ==> final(world)@.pawns[j] == old(world)@.pawns[j],
        forall|j: int|
            0 <= j < spawned@.len() ==> is_edge_attacker(
                old(world)@.navmesh,
                final(world)@.pawns[old(world)@.pawns.len() + j],
                #[trigger] spawned@[j],
            ),
        forall|j: int|
            0 <= j < spawned@.len() ==> spawned@[j] == EntityRef(
                (old(world)@.next_entity + j) as u64,
            ),
        final(world)@.next_entity == old(world)@.next_entity + spawned@.len(),
        final(world)@ == (WorldModel {
            pawns: final(world)@.pawns,
            next_entity: final(world)@.next_entity,
            ..old(world)@.tick_enemy_wave(delta)
        }),
{
    let due = world.enemy_wave.tick(delta);
    proof {
        assert(world@.pawns =~= old(world)@.pawns);
        assert(world@.answers =~= old(world)@.answers);
        old(world)@.lemma_wave_keeps_wf(world.enemy_wave);
    }
    spawn_enemy_wave(world, due, draws)
}

/// Spawns a wave of attackers: for each of the `due` attackers an axis is
/// drawn, and then tiles on the edge of the grid along that axis, until one
/// is walkable and the attacker is spawned on it. The whole wave may draw
/// `draws` tiles; when they are spent, or no identity is left to give out,
/// the wave ends short. Returns the attackers spawned, in their order: at
/// most `due`, each a fresh idle attacker on a walkable tile of an edge,
/// behind the pawns that were there. Nothing else changes.
pub fn spawn_enemy_wave(world: &mut World, due: usize, draws: usize) -> (spawned: Vec<EntityRef>)
    requires
        old(world).wf(),
    ensures
        final(world).wf(),
        spawned@.len() <= due,
        spawned@.len() <= draws,
        final(world)@.pawns.len() == old(world)@.pawns.len() + spawned@.len(),
        forall|j: int|
            0 <= j < old(world)@.pawns.len() ==> final(world)@.pawns[j] == old(world)@.pawns[j],
        forall|j: int|
            0 <= j < spawned@.len() ==> is_edge_attacker(
                old(world)@.navmesh,
                final(world)@.pawns[old(world)@.pawns.len() + j],
                #[trigger] spawned@[j],
            ),
        forall|j: int|
            0 <= j < spawned@.len() ==> spawned@[j] == EntityRef(
                (old(world)@.next_entity + j) as u64,
            ),
        final(world)@.next_entity == old(world)@.next_entity + spawned@.len(),
        final(world)@ == (WorldModel {
            pawns: final(world)@.pawns,
            next_entity: final(world)@.next_entity,
            ..old(world)@
        }),
{
    let mut spawned: Vec<EntityRef> = Vec::new();
    if due == 0 || draws == 0 {
        return spawned;
    }
    let ghost first = old(world)@.pawns.len();
    let mut left: usize = draws;
    let mut along_x = enemy_spawn_axis();
    while spawned.len() < due && left > 0 && world.next_entity < u64::MAX
        invariant
            world.wf(),
            first == old(world)@.pawns.len(),
            spawned@.len() <= due,
            spawned@.len() + left <= draws,
            world@.pawns.len() == first + spawned@.len(),
            forall|j: int| 0 <= j < first ==> world@.pawns[j] == old(world)@.pawns[j],
            forall|j: int|
                0 <= j < spawned@.len() ==> is_edge_attacker(
                    old(world)@.navmesh,
                    world@.pawns[first + j],
                    #[trigger] spawned@[j],
                ),
            forall|j: int|
                0 <= j < spawned@.len() ==> spawned@[j] == EntityRef(
                    (old(world)@.next_entity + j) as u64,
                ),
            world@.next_entity == old(world)@.next_entity + spawned@.len(),
            world@ == (WorldModel {
                pawns: world@.pawns,
                next_entity: world@.next_entity,
                ..old(world)@
            }),
        decreases left,
    {
        left = left - 1;
        let ghost before = world@;
        let ghost placed = spawned@;
        match try_enemy_spawn(world, along_x) {
            Some(entity) => {
                spawned.push(entity);
                proof {
                    let (far, offset) = choose|far: bool, offset: usize|
                        {
                            let c = #[trigger] spec_spawn_candidate(
                                before.navmesh.size() as usize,
                                along_x,
                                far,
                                offset,
                            );
                            &&& offset + 1 < before.navmesh.size()
                            &&& before.navmesh.walkable(c)
                            &&& entity == EntityRef(before.next_entity)
                            &&& world@ == before.spawn_pawn(c, true)
                        };
                    let tile = spec_spawn_candidate(
                        old(world)@.navmesh.size() as usize,
                        along_x,
                        far,
                        offset,
                    );
                    assert(world@.pawns[(first + placed.len()) as int] == PawnBundleModel::fresh(
                        entity,
                        tile,
                        true,
                    ));
                    assert forall|j: int| 0 <= j < spawned@.len() implies is_edge_attacker(
                        old(world)@.navmesh,
                        world@.pawns[first + j],
                        #[trigger] spawned@[j],
                    ) by {
                        if j < placed.len() {
                            assert(world@.pawns[first + j] == before.pawns[first + j]);
                            assert(spawned@[j] == placed[j]);
                        } else {
                            assert(spawned@[j] == entity);
                        }
                    }
                }
                if spawned.len() < due {
                    along_x = enemy_spawn_axis();
                }
            },
            None => {},
        }
    }
    spawned
}

/// `pawn` is a fresh idle attacker of the identity `entity` that stands on a
/// walkable tile of the grid `nav` which was a candidate for it: a tile on an
/// edge of the grid, short of the last along the edge.
pub open spec fn is_edge_attacker(nav: NavmeshModel, pawn: PawnBundleModel, entity: EntityRef) -> bool {
    exists|along_x: bool, far: bool, offset: usize|
        {
            let c = #[trigger] spec_spawn_candidate(nav.size() as usize, along_x, far, offset);
            &&& offset + 1 < nav.size()
            &&& nav.walkable(c)
            &&& pawn == PawnBundleModel::fresh(entity, c, true)
        }
}

/// The tile that is tried for an attacker: on the edge of the grid along
/// the x axis or the y axis, on the near side or beyond the far side, and
/// `offset` tiles along the edge.
pub open spec fn spec_spawn_candidate(size: usize, along_x: bool, far: bool, offset: usize) -> GridCoord {
    let edge = if far {
        size
    } else {
        0
    };
    if along_x {
        GridCoord { x: edge, y: offset }
    } else {
        GridCoord { x: offset, y: edge }
    }
}

/// The tile that is tried for an attacker.
pub fn enemy_spawn_candidate(size: usize, along_x: bool, far: bool, offset: usize) -> (c: GridCoord)
    ensures
        c == spec_spawn_candidate(size, along_x, far, offset),
{
    let edge: usize = if far { size } else { 0 };
    if along_x {
        GridCoord { x: edge, y: offset }
    } else {
        GridCoord { x: offset, y: edge }
    }
}

/// Spawns an attacker on the tile that is tried for it, where that tile is
/// walkable, and returns its identity. On any other tile, or with no
/// identity left to give out, nothing changes.
pub fn spawn_enemy_at(world: &mut World, along_x: bool, far: bool, offset: usize) -> (spawned: Option<
    EntityRef,
>)
    requires
        old(world).wf(),
    ensures
        final(world).wf(),
        ({
            let c = spec_spawn_candidate(
                old(world)@.navmesh.size() as usize,
                along_x,
                far,
                offset,
            );
            if old(world)@.navmesh.walkable(c) && old(world)@.next_entity < u64::MAX {
                spawned == Some(EntityRef(old(world)@.next_entity)) && final(world)@ == old(
                    world,
                )@.spawn_pawn(c, true)
            } else {
                spawned is None && final(world)@ == old(world)@
            }
        }),
{
    let c = enemy_spawn_candidate(world.navmesh.size(), along_x, far, offset);
    if world.navmesh.is_walkable(c.x, c.y) {
        world.spawn_pawn(c, true)
    } else {
        None
    }
}

/// `Rng::gen_ratio(numerator, denominator)` on `rand::thread_rng()`: a flag
/// drawn at random, up with the chance that the ratio gives. Trusted: the
/// flag is up where the two are equal and down where the numerator is zero;
/// of any other draw nothing is claimed. The ratio must be a chance: not
/// above one, and not over zero.
#[verifier::external_body]
fn random_flag(numerator: u32, denominator: u32) -> (flag: bool)
    requires
        denominator > 0,
        numerator <= denominator,
    ensures
        numerator == denominator ==> flag,
        numerator == 0 ==> !flag,
{
    rand::Rng::gen_ratio(&mut rand::thread_rng(), numerator, denominator)
}

/// `Rng::gen_range(low..high)` on `rand::thread_rng()`: a number drawn at
/// random from the half-open range, so at least `low` and below `high`. The
/// range must not be empty.
#[verifier::external_body]
fn random_between(low: usize, high: usize) -> (value: usize)
    requires
        low < high,
    ensures
        low <= value < high,
{
    rand::Rng::gen_range(&mut rand::thread_rng(), low..high)
}

/// Draws the axis along which the next attacker is to appear.
pub fn enemy_spawn_axis() -> (along_x: bool) {
    random_flag(1, 2)
}

/// Tries once to spawn an attacker on a tile drawn at random from the edge
/// of the grid along the given axis. Returns the identity of the attacker
/// where the tile drawn was walkable; else nothing changes, and whoever
/// asked may try again.
pub fn try_enemy_spawn(world: &mut World, along_x: bool) -> (spawned: Option<EntityRef>)
    requires
        old(world).wf(),
    ensures
        final(world).wf(),
        match spawned {
            Some(entity) => exists|far: bool, offset: usize|
                {
                    let c = #[trigger] spec_spawn_candidate(
                        old(world)@.navmesh.size() as usize,
                        along_x,
                        far,
                        offset,
                    );
                    &&& offset + 1 < old(world)@.navmesh.size()
                    &&& old(world)@.navmesh.walkable(c)
                    &&& entity == EntityRef(old(world)@.next_entity)
                    &&& final(world)@ == old(world)@.spawn_pawn(c, true)
                },
            None => final(world)@ == old(world)@,
        },
{
    let size = world.navmesh.size();
    if size < 2 {
        return None;
    }
    let far = random_flag(1, 2);
    let offset = random_between(0, size - 1);
    let spawned = spawn_enemy_at(world, along_x, far, offset);
    proof {
        if spawned is Some {
            let c = spec_spawn_candidate(size, along_x, far, offset);
            assert(old(world)@.navmesh.walkable(c));
        }
    }
    spawned
}

/// Spawns the pawns that the player starts with, one on each of `tiles` up
/// to the number that the player starts with, and lets the game go on to
/// its main phase. Does nothing before the factory is placed.
pub fn initial_pawn_spawn(world: &mut World, tiles: &Vec<GridCoord>)
    requires
        old(world).wf(),
    ensures
        final(world).wf(),
        final(world)@ == old(world)@.initial_pawn_spawn(tiles@),
{
    if world.factory.is_none() {
        return ;
    }
    let count: usize = if tiles.len() <= INITIAL_PAWN_COUNT {
        tiles.len()
    } else {
        INITIAL_PAWN_COUNT
    };
    let mut n: usize = 0;
    while n < count
        invariant
            n <= count <= tiles.len(),
            world.wf(),
            world@ == old(world)@.spawn_pawns_upto(tiles@, n as nat),
        decreases count - n,
    {
        world.spawn_pawn(tiles[n], false);
        n += 1;
    }
    let ghost spawned = *world;
    world.game_state = GameState::Main;
    proof {
        assert(world@.pawns =~= spawned@.pawns);
        assert(world@.answers =~= spawned@.answers);
        spawned@.lemma_state_keeps_wf(GameState::Main);
    }
}

} // verus!
