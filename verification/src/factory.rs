//! The factory: where it may stand, and what placing it does to the grid.

use crate::navmesh::components::Navmesh;
use crate::navmesh::components::NavmeshModel;
use crate::navmesh::components::TileModel;
use crate::world::in_footprint;
use crate::world::Command;
use crate::world::Factory;
use crate::world::World;
use crate::world::WorldModel;
use crate::world::FACTORY_SIZE;
use crate::EntityRef;
use crate::GameState;
use crate::GridCoord;
use vstd::prelude::*;

verus! {

impl NavmeshModel {
    /// The block of tiles of a factory anchored at `anchor` lies on the
    /// grid.
    pub open spec fn holds_footprint(self, anchor: GridCoord) -> bool {
        anchor.x + FACTORY_SIZE <= self.size() && anchor.y + FACTORY_SIZE <= self.size()
    }

    /// Every tile under a factory anchored at `anchor` is walkable.
    pub open spec fn footprint_free(self, anchor: GridCoord) -> bool {
        forall|c: GridCoord| #[trigger] in_footprint(anchor, c) ==> self.tile(c).walkable
    }

    /// The grid with the tiles under a factory anchored at `anchor` blocked
    /// and occupied by the factory `id`.
    pub open spec fn with_factory(self, anchor: GridCoord, id: u64) -> NavmeshModel {
        NavmeshModel {
            tiles: Seq::new(
                self.tiles.len(),
                |x: int|
                    Seq::new(
                        self.tiles[x].len(),
                        |y: int|
                            if anchor.x <= x < anchor.x + FACTORY_SIZE && anchor.y <= y < anchor.y
                                + FACTORY_SIZE {
                                TileModel {
                                    walkable: false,
                                    occupants: self.tiles[x][y].occupants.insert(id),
                                    ..self.tiles[x][y]
                                }
                            } else {
                                self.tiles[x][y]
                            },
                    ),
            ),
        }
    }
}

impl WorldModel {
    /// The factory may be placed with its lower left corner on `tile`: it
    /// has not been placed yet, its block of tiles lies on the grid, and
    /// every tile under it is walkable.
    pub open spec fn can_place_factory(self, tile: GridCoord) -> bool {
        &&& self.factory is None
        &&& self.next_entity < u64::MAX
        &&& self.navmesh.holds_footprint(tile)
        &&& self.navmesh.footprint_free(tile)
    }

    /// The world with the factory placed on `tile`: the tiles under it are
    /// blocked and occupied by it, and the game goes on to its main phase.
    pub open spec fn place_factory(self, tile: GridCoord) -> WorldModel {
        WorldModel {
            factory: Some(Factory { entity: EntityRef(self.next_entity), tile }),
            navmesh: self.navmesh.with_factory(tile, self.next_entity),
            next_entity: (self.next_entity + 1) as u64,
            game_state: GameState::Main,
            ..self
        }
    }

    /// Placing the factory keeps the invariant.
    pub proof fn lemma_place_factory_keeps_wf(self, tile: GridCoord)
        requires
            self.wf(),
            self.can_place_factory(tile),
        ensures
            self.place_factory(tile).wf(),
    {
        reveal(WorldModel::wf);
        let after = self.place_factory(tile);
        assert(after.navmesh.square());
        assert(after.ids_distinct());
        assert(after.stones_placed()) by {
            assert forall|k: int| 0 <= k < after.stones.len() implies after.navmesh.contains(
                (#[trigger] after.stones[k]).tile,
            ) by {
                assert(self.navmesh.contains(self.stones[k].tile));
            }
        }
        assert(after.occupancy_sound()) by {
            assert forall|c: GridCoord, id: u64|
                after.navmesh.contains(c) && #[trigger] after.navmesh.tile(c).occupants.contains(
                    id,
                ) implies after.is_blocker(c, id) by {
                assert(self.navmesh.contains(c));
                if !(in_footprint(tile, c) && id == self.next_entity) {
                    assert(self.navmesh.tile(c).occupants.contains(id));
                    assert(self.is_blocker(c, id));
                }
            }
        }
        assert(after.despawns_sound()) by {
            assert forall|j: int, n: int|
                0 <= j < after.commands.len() && 0 <= n < after.stones.len()
                    && #[trigger] after.commands[j] == (Command::Despawn {
                    entity: (#[trigger] after.stones[n]).entity,
                }) implies !after.navmesh.tile(after.stones[n].tile).occupants.contains(
                after.stones[n].entity.0,
            ) by {
                assert(self.navmesh.contains(self.stones[n].tile));
                assert(!self.navmesh.tile(self.stones[n].tile).occupants.contains(
                    self.stones[n].entity.0,
                ));
            }
        }
    }
}

/// Whether every tile under a factory with its lower left corner on
/// `(x, y)` is walkable. The block of tiles has to lie on the grid.
pub fn check_spawn_bounds_by_navtiles(navmesh: &Navmesh, x: usize, y: usize) -> (valid: bool)
    requires
        navmesh.wf(),
        navmesh@.holds_footprint(GridCoord { x, y }),
    ensures
        valid == navmesh@.footprint_free(GridCoord { x, y }),
{
    let anchor = GridCoord { x, y };
    let mut is_valid = true;
    let mut dx: usize = 0;
    while dx < FACTORY_SIZE
        invariant
            dx <= FACTORY_SIZE,
            navmesh.wf(),
            navmesh@.holds_footprint(anchor),
            anchor == (GridCoord { x, y }),
            is_valid == (forall|c: GridCoord|
                #[trigger] in_footprint(anchor, c) && c.x < x + dx ==> navmesh@.tile(c).walkable),
        decreases FACTORY_SIZE - dx,
    {
        let mut dy: usize = 0;
        while dy < FACTORY_SIZE
            invariant
                dx < FACTORY_SIZE,
                dy <= FACTORY_SIZE,
                navmesh.wf(),
                navmesh@.holds_footprint(anchor),
                anchor == (GridCoord { x, y }),
                is_valid == (forall|c: GridCoord|
                    #[trigger] in_footprint(anchor, c) && (c.x < x + dx || (c.x == x + dx && c.y < y
                        + dy)) ==> navmesh@.tile(c).walkable),
            decreases FACTORY_SIZE - dy,
        {
            let free = navmesh.tiles[x + dx][y + dy].walkable;
            proof {
                let here = GridCoord { x: (x + dx) as usize, y: (y + dy) as usize };
                assert(in_footprint(anchor, here));
                assert(navmesh@.tile(here).walkable == free);
            }
            if !free {
                is_valid = false;
            }
            dy += 1;
        }
        dx += 1;
    }
    is_valid
}

/// Places the factory with its lower left corner on `tile`, where it may
/// stand there, and tells whether it did. A factory that may not be placed
/// changes nothing.
pub fn place_factory(world: &mut World, tile: GridCoord) -> (placed: bool)
    requires
        old(world).wf(),
    ensures
        final(world).wf(),
        placed == old(world)@.can_place_factory(tile),
        placed ==> final(world)@ == old(world)@.place_factory(tile),
        !placed ==> final(world)@ == old(world)@,
{
    proof {
        old(world)@.lemma_navmesh_square();
    }
    let size = world.navmesh.size();
    if world.factory.is_some() || world.next_entity == u64::MAX || size < FACTORY_SIZE || tile.x
        > size - FACTORY_SIZE || tile.y > size - FACTORY_SIZE {
        return false;
    }
    if !check_spawn_bounds_by_navtiles(&world.navmesh, tile.x, tile.y) {
        return false;
    }
    let entity = EntityRef(world.next_entity);
    let mut dx: usize = 0;
    while dx < FACTORY_SIZE
        invariant
            dx <= FACTORY_SIZE,
            world.navmesh.wf(),
            old(world)@.navmesh.square(),
            old(world)@.navmesh.holds_footprint(tile),
            entity == EntityRef(old(world).next_entity),
            *world == (World { navmesh: world.navmesh, ..*old(world) }),
            world@.navmesh.size() == old(world)@.navmesh.size(),
            forall|c: GridCoord|
                old(world)@.navmesh.contains(c) ==> #[trigger] world@.navmesh.tile(c) == (if in_footprint(
                    tile,
                    c,
                ) && c.x < tile.x + dx {
                    old(world)@.navmesh.with_factory(tile, entity.0).tile(c)
                } else {
                    old(world)@.navmesh.tile(c)
                }),
        decreases FACTORY_SIZE - dx,
    {
        let mut dy: usize = 0;
        while dy < FACTORY_SIZE
            invariant
                dx < FACTORY_SIZE,
                dy <= FACTORY_SIZE,
                world.navmesh.wf(),
                old(world)@.navmesh.square(),
                old(world)@.navmesh.holds_footprint(tile),
                entity == EntityRef(old(world).next_entity),
                *world == (World { navmesh: world.navmesh, ..*old(world) }),
                world@.navmesh.size() == old(world)@.navmesh.size(),
                forall|c: GridCoord|
                    old(world)@.navmesh.contains(c) ==> #[trigger] world@.navmesh.tile(c) == (if in_footprint(
                        tile,
                        c,
                    ) && (c.x < tile.x + dx || (c.x == tile.x + dx && c.y < tile.y + dy)) {
                        old(world)@.navmesh.with_factory(tile, entity.0).tile(c)
                    } else {
                        old(world)@.navmesh.tile(c)
                    }),
            decreases FACTORY_SIZE - dy,
        {
            let ghost before = world@.navmesh;
            let here = GridCoord { x: tile.x + dx, y: tile.y + dy };
            proof {
                assert(old(world)@.navmesh.contains(here));
                assert(before.tile(here) == old(world)@.navmesh.tile(here));
            }
            world.navmesh.set_walkable(here.x, here.y, false);
            world.navmesh.add_occupant(here.x, here.y, entity);
            proof {
                assert forall|c: GridCoord| old(world)@.navmesh.contains(c) implies #[trigger] world@.navmesh.tile(
                    c,
                ) == (if in_footprint(tile, c) && (c.x < tile.x + dx || (c.x == tile.x + dx && c.y
                    < tile.y + dy + 1)) {
                    old(world)@.navmesh.with_factory(tile, entity.0).tile(c)
                } else {
                    old(world)@.navmesh.tile(c)
                }) by {
                    if c != here {
                        assert(world@.navmesh.tile(c) == before.tile(c));
                    }
                }
            }
            dy += 1;
        }
        dx += 1;
    }
    world.factory = Some(Factory { entity, tile });
    world.next_entity = world.next_entity + 1;
    world.game_state = GameState::Main;
    proof {
        let target = old(world)@.place_factory(tile);
        assert(world@.pawns =~= old(world)@.pawns);
        assert(world@.answers =~= old(world)@.answers);
        assert forall|x: int| 0 <= x < world@.navmesh.tiles.len() implies #[trigger] world@.navmesh.tiles[x]
            =~= target.navmesh.tiles[x] by {
            assert forall|y: int| 0 <= y < world@.navmesh.tiles[x].len() implies #[trigger] world@.navmesh.tiles[x][y]
                == target.navmesh.tiles[x][y] by {
                let c = GridCoord { x: x as usize, y: y as usize };
                assert(old(world)@.navmesh.contains(c));
                assert(world@.navmesh.tile(c) == world@.navmesh.tiles[x][y]);
            }
        }
        assert(world@.navmesh.tiles =~= target.navmesh.tiles);
        old(world)@.lemma_place_factory_keeps_wf(tile);
    }
    true
}

} // verus!
