//! Work for idle pawns: the search for the nearest deposit within reach, and the
//! way back to the factory for a pawn that carries all it can.

use crate::EntityRef;
use crate::GridCoord;
use crate::navmesh::components::PathfindRequest;
use crate::navmesh::route::reachable;
use crate::navmesh::systems::get_pathing;
use crate::pawn::components::Status;
use crate::pawn::components::WorkOrder;
use crate::pawn::systems::MAX_RESOURCES;
use crate::world::Command;
use crate::world::Factory;
use crate::world::World;
use crate::world::WorldModel;
use vstd::prelude::*;

verus! {

impl WorldModel {
    /// The deposit at `k` is the first that is recorded as an occupant of
    /// the tile `c`.
    pub open spec fn is_stone_on(self, k: int, c: GridCoord) -> bool {
        &&& 0 <= k < self.stones.len()
        &&& self.navmesh.tile(c).occupants.contains(self.stones[k].entity.0)
        &&& forall|j: int|
            0 <= j < k ==> !self.navmesh.tile(c).occupants.contains(
                (#[trigger] self.stones[j]).entity.0,
            )
    }

    /// The place of the deposit that occupies the tile `c`, if one does.
    pub open spec fn stone_on(self, c: GridCoord) -> Option<int> {
        if exists|k: int| self.is_stone_on(k, c) {
            Some(choose|k: int| self.is_stone_on(k, c))
        } else {
            None
        }
    }

    /// A pawn on `from` can mine at `c`: the tile is blocked, a deposit
    /// occupies it, and a path leads from it to the pawn.
    pub open spec fn minable(self, from: GridCoord, c: GridCoord) -> bool {
        &&& self.navmesh.contains(c)
        &&& !self.navmesh.tile(c).walkable
        &&& self.stone_on(c) is Some
        &&& reachable(self.navmesh, c, from)
    }

    /// `c` is the tile where a pawn on `from` goes to mine: the first tile,
    /// in the order of the search, at which it can.
    pub open spec fn is_nearest_minable(self, from: GridCoord, c: GridCoord) -> bool {
        &&& self.minable(from, c)
        &&& forall|d: GridCoord| #[trigger] self.minable(from, d) ==> spec_searched_before(from, c, d)
    }

    /// The tile where a pawn on `from` goes to mine, if there is one.
    pub open spec fn nearest_minable(self, from: GridCoord) -> Option<GridCoord> {
        if exists|c: GridCoord| self.is_nearest_minable(from, c) {
            Some(choose|c: GridCoord| self.is_nearest_minable(from, c))
        } else {
            None
        }
    }

    /// What the work system does for the pawn at `i`: an idle pawn of the
    /// player that is on no order to mine, to return or to attack a pawn
    /// looks for work. Carrying all it can, it takes the order to return to
    /// the factory and asks for a path there. Otherwise it takes the order
    /// to mine the nearest deposit that it can reach, and asks for a path to
    /// it; with no such deposit it stays as it is.
    pub open spec fn work_step(self, factory: Factory, i: int) -> WorldModel {
        let pawn = self.pawns[i];
        if pawn.pawn_status == Status::Idle && !pawn.enemy && !pawn.mines() && !pawn.attacks_pawn()
            && pawn.work_order != Some(WorkOrder::ReturnToFactory) {
            if pawn.resources.0 >= MAX_RESOURCES {
                self.issue(
                    Command::AddStatus { entity: pawn.entity, status: Status::Pathfinding },
                ).issue(
                    Command::AddWorkOrder {
                        entity: pawn.entity,
                        order: WorkOrder::ReturnToFactory,
                    },
                ).request(
                    PathfindRequest { start: pawn.tile, end: factory.tile, entity: pawn.entity },
                )
            } else {
                match self.nearest_minable(pawn.tile) {
                    Some(c) => self.issue(
                        Command::AddStatus { entity: pawn.entity, status: Status::Pathfinding },
                    ).issue(
                        Command::AddWorkOrder {
                            entity: pawn.entity,
                            order: WorkOrder::MineStone {
                                stone_entity: self.stones[self.stone_on(c)->Some_0].entity,
                            },
                        },
                    ).request(PathfindRequest { start: pawn.tile, end: c, entity: pawn.entity }),
                    None => self,
                }
            }
        } else {
            self
        }
    }

    /// The work system after it has seen the first `n` pawns.
    pub open spec fn work_upto(self, factory: Factory, n: nat) -> WorldModel
        decreases n,
    {
        if n == 0 {
            self
        } else {
            self.work_upto(factory, (n - 1) as nat).work_step(factory, n - 1)
        }
    }

    /// The world after the work system has run: it sees every pawn in turn,
    /// and does nothing before the factory is placed.
    pub open spec fn work_idle_pawns(self) -> WorldModel {
        match self.factory {
            Some(factory) => self.work_upto(factory, self.pawns.len()),
            None => self,
        }
    }
}

/// The ring around `from` in which the search for work comes to `c`: their
/// distance along the longer axis, and the first ring for `from` itself.
pub open spec fn spec_ring(from: GridCoord, c: GridCoord) -> nat {
    if from.spec_chebyshev(c) >= 1 {
        from.spec_chebyshev(c)
    } else {
        1
    }
}

/// The search for work from `from` comes to `a` no later than to `b`: rings
/// are searched from the inside out, and each ring column by column from the
/// bottom up.
pub open spec fn spec_searched_before(from: GridCoord, a: GridCoord, b: GridCoord) -> bool {
    spec_ring(from, a) < spec_ring(from, b) || (spec_ring(from, a) == spec_ring(from, b) && (a.x
        < b.x || (a.x == b.x && a.y <= b.y)))
}

/// The ring around `from` in which the search for work comes to `c`.
fn ring(from: GridCoord, c: GridCoord) -> (r: usize)
    ensures
        r == spec_ring(from, c),
{
    let dx: usize = if from.x >= c.x { from.x - c.x } else { c.x - from.x };
    let dy: usize = if from.y >= c.y { from.y - c.y } else { c.y - from.y };
    let far: usize = if dx >= dy { dx } else { dy };
    if far >= 1 {
        far
    } else {
        1
    }
}

/// The place of the deposit that occupies the tile `c`, if one does.
pub fn find_stone_on(world: &World, c: GridCoord) -> (found: Option<usize>)
    requires
        world.wf(),
        world@.navmesh.contains(c),
    ensures
        found == match world@.stone_on(c) {
            Some(k) => Some(k as usize),
            None => None,
        },
        found matches Some(k) ==> world@.is_stone_on(k as int, c),
{
    let mut k: usize = 0;
    while k < world.stones.len()
        invariant
            k <= world.stones.len(),
            world.wf(),
            world@.navmesh.contains(c),
            forall|j: int|
                0 <= j < k ==> !world@.navmesh.tile(c).occupants.contains(
                    (#[trigger] world@.stones[j]).entity.0,
                ),
        decreases world.stones.len() - k,
    {
        if world.navmesh.has_occupant(c.x, c.y, world.stones[k].entity) {
            proof {
                assert(world@.is_stone_on(k as int, c));
                let chosen = choose|n: int| world@.is_stone_on(n, c);
                assert(world@.is_stone_on(chosen, c));
            }
            return Some(k);
        }
        k += 1;
    }
    proof {
        assert forall|n: int| !world@.is_stone_on(n, c) by {}
    }
    None
}

/// Whether a pawn on `from` can mine at `c`, and the place of the deposit
/// it would mine.
fn minable_at(world: &World, from: GridCoord, c: GridCoord, entity: EntityRef) -> (found: Option<
    usize,
>)
    requires
        world.wf(),
        world@.navmesh.contains(c),
    ensures
        found is Some <==> world@.minable(from, c),
        found matches Some(k) ==> world@.stone_on(c) == Some(k as int) && k < world.stones.len(),
{
    if world.navmesh.is_walkable(c.x, c.y) {
        return None;
    }
    match find_stone_on(world, c) {
        None => None,
        Some(k) => {
            let probe = get_pathing(PathfindRequest { start: c, end: from, entity }, &world.navmesh);
            if probe.is_some() {
                Some(k)
            } else {
                None
            }
        },
    }
}

/// Searches one ring around `from` for a tile at which a pawn on `from` can
/// mine.
fn search_ring(world: &World, from: GridCoord, r: usize, entity: EntityRef) -> (found: Option<
    (GridCoord, usize),
>)
    requires
        world.wf(),
        r >= 1,
        world@.navmesh.size() >= 1,
        forall|d: GridCoord| #[trigger] world@.minable(from, d) ==> spec_ring(from, d) >= r,
    ensures
        match found {
            Some((c, k)) => world@.is_nearest_minable(from, c) && world@.stone_on(c) == Some(
                k as int,
            ) && k < world.stones.len(),
            None => forall|d: GridCoord| #[trigger] world@.minable(from, d) ==> spec_ring(from, d) > r,
        },
{
    let size = world.navmesh.size();
    proof {
        world@.lemma_navmesh_square();
    }
    let x_low: usize = if from.x >= r { from.x - r } else { 0 };
    let y_low: usize = if from.y >= r { from.y - r } else { 0 };
    let x_reach: usize = if from.x > usize::MAX - r { usize::MAX } else { from.x + r };
    let y_reach: usize = if from.y > usize::MAX - r { usize::MAX } else { from.y + r };
    let x_end: usize = if x_reach >= size { size } else { x_reach + 1 };
    let y_end: usize = if y_reach >= size { size } else { y_reach + 1 };
    let mut x: usize = x_low;
    while x < x_end
        invariant
            world.wf(),
            world@.navmesh.square(),
            size == world@.navmesh.size(),
            r >= 1,
            x_low <= x,
            x_end <= size,
            x_low == (if from.x >= r { from.x - r } else { 0 }),
            y_low == (if from.y >= r { from.y - r } else { 0 }),
            x_end == (if from.x + r >= size { size as int } else { from.x + r + 1 }),
            y_end == (if from.y + r >= size { size as int } else { from.y + r + 1 }),
            forall|d: GridCoord| #[trigger] world@.minable(from, d) ==> spec_ring(from, d) >= r,
            forall|d: GridCoord|
                #[trigger] world@.minable(from, d) && spec_ring(from, d) == r ==> d.x >= x,
        decreases x_end - x,
    {
        let mut y: usize = y_low;
        while y < y_end
            invariant
                world.wf(),
                world@.navmesh.square(),
                size == world@.navmesh.size(),
                r >= 1,
                x < x_end <= size,
                y_low <= y,
                y_end <= size,
                y_low == (if from.y >= r { from.y - r } else { 0 }),
                y_end == (if from.y + r >= size { size as int } else { from.y + r + 1 }),
                forall|d: GridCoord| #[trigger] world@.minable(from, d) ==> spec_ring(from, d) >= r,
                forall|d: GridCoord|
                    #[trigger] world@.minable(from, d) && spec_ring(from, d) == r ==> d.x >= x,
                forall|d: GridCoord|
                    #[trigger] world@.minable(from, d) && spec_ring(from, d) == r && d.x == x
                        ==> d.y >= y,
            decreases y_end - y,
        {
            let c = GridCoord { x, y };
            if ring(from, c) == r {
                if let Some(k) = minable_at(world, from, c, entity) {
                    return Some((c, k));
                }
            }
            y += 1;
        }
        x += 1;
    }
    None
}

/// The tile where a pawn on `from` goes to mine, and the place of the
/// deposit it will mine there: the first tile, searching ring by ring
/// around the pawn, that is blocked, is occupied by a deposit, and from which
/// a path leads to the pawn.
pub fn find_work(world: &World, from: GridCoord, entity: EntityRef) -> (found: Option<
    (GridCoord, usize),
>)
    requires
        world.wf(),
    ensures
        match found {
            Some((c, k)) => world@.nearest_minable(from) == Some(c) && world@.stone_on(c) == Some(
                k as int,
            ) && k < world.stones.len(),
            None => world@.nearest_minable(from) is None,
        },
{
    let size = world.navmesh.size();
    proof {
        world@.lemma_navmesh_square();
    }
    if size == 0 {
        proof {
            assert forall|c: GridCoord| !world@.is_nearest_minable(from, c) by {}
        }
        return None;
    }
    let gap_x: usize = if from.x >= size { from.x - (size - 1) } else { 0 };
    let gap_y: usize = if from.y >= size { from.y - (size - 1) } else { 0 };
    let gap: usize = if gap_x >= gap_y { gap_x } else { gap_y };
    let first: usize = if gap >= 1 { gap } else { 1 };
    let far_xy: usize = if from.x >= from.y { from.x } else { from.y };
    let far: usize = if far_xy >= size - 1 { far_xy } else { size - 1 };
    let last: usize = if far >= 1 { far } else { 1 };
    let mut r: usize = first;
    let mut rings: usize = last - first + 1;
    while rings > 0
        invariant
            world.wf(),
            world@.navmesh.square(),
            size == world@.navmesh.size(),
            size >= 1,
            r >= 1,
            rings > 0 ==> r + rings == last + 1,
            last >= 1,
            last >= from.x,
            last >= from.y,
            last >= size - 1,
            rings > 0 ==> forall|d: GridCoord| #[trigger]
                world@.minable(from, d) ==> spec_ring(from, d) >= r,
            rings == 0 ==> forall|d: GridCoord| #[trigger]
                world@.minable(from, d) ==> spec_ring(from, d) > last,
        decreases rings,
    {
        match search_ring(world, from, r, entity) {
            Some((c, k)) => {
                proof {
                    let chosen = choose|d: GridCoord| world@.is_nearest_minable(from, d);
                    assert(world@.minable(from, chosen));
                    assert(world@.minable(from, c));
                }
                return Some((c, k));
            },
            None => {},
        }
        rings -= 1;
        if rings > 0 {
            r += 1;
        }
    }
    proof {
        assert forall|c: GridCoord| !world@.is_nearest_minable(from, c) by {
            if world@.minable(from, c) {
                assert(spec_ring(from, c) > last);
            }
        }
    }
    None
}

/// Whether a pawn with `order` is free to look for work.
fn is_free_for_work(order: Option<WorkOrder>) -> (free: bool)
    ensures
        free == (!(order matches Some(WorkOrder::MineStone { .. })) && !(order matches Some(
            WorkOrder::AttackPawn { .. },
        )) && order != Some(WorkOrder::ReturnToFactory)),
{
    match order {
        Some(WorkOrder::MineStone { .. }) => false,
        Some(WorkOrder::AttackPawn { .. }) => false,
        Some(WorkOrder::ReturnToFactory) => false,
        _ => true,
    }
}

/// Gives every idle pawn of the player work: the way back to the factory
/// for a pawn that carries all it can, the nearest deposit within reach for
/// any other. Does nothing before the factory is placed.
pub fn work_idle_pawns(world: &mut World)
    requires
        old(world).wf(),
    ensures
        final(world).wf(),
        final(world)@ == old(world)@.work_idle_pawns(),
{
    let factory = match world.factory {
        Some(factory) => factory,
        None => {
            return ;
        },
    };
    let count = world.pawns.len();
    let mut i: usize = 0;
    while i < count
        invariant
            i <= count,
            world.pawns.len() == count,
            count == old(world)@.pawns.len(),
            world.wf(),
            world@ == old(world)@.work_upto(factory, i as nat),
        decreases count - i,
    {
        if world.pawns[i].pawn_status == Status::Idle && !world.pawns[i].enemy && is_free_for_work(
            world.pawns[i].work_order,
        ) {
            let entity = world.pawns[i].entity;
            let tile = world.pawns[i].tile;
            if world.pawns[i].resources.0 >= MAX_RESOURCES {
                world.add_status(entity, Status::Pathfinding);
                world.add_work_order(entity, WorkOrder::ReturnToFactory);
                world.send_request(PathfindRequest { start: tile, end: factory.tile, entity });
            } else {
                if let Some((c, k)) = find_work(world, tile, entity) {
                    let stone_entity = world.stones[k].entity;
                    world.add_status(entity, Status::Pathfinding);
                    world.add_work_order(entity, WorkOrder::MineStone { stone_entity });
                    world.send_request(PathfindRequest { start: tile, end: c, entity });
                }
            }
        }
        i += 1;
    }
}

} // verus!
