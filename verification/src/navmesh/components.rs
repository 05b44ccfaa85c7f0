//! Tiles, the grid that holds them, and the pathfinding messages.

use crate::EntityRef;
use crate::GridCoord;
use crate::SIZE;
use vstd::prelude::*;

verus! {

/// A set of entities, such as those that stand on one tile or those whose
/// removal was asked for in a phase: a `bevy::utils::HashSet` of their
/// identities. The verifier does not look inside the set; what it holds is
/// known through `entity_ids` alone, and what its methods do is taken from
/// the documentation of the hash set.
#[verifier::external_body]
pub struct EntitySet {
    ids: bevy::utils::HashSet<u64>,
}

/// The identities that a set of entities holds.
pub uninterp spec fn entity_ids(set: EntitySet) -> Set<u64>;

impl EntitySet {
    /// `HashSet::default` of `bevy::utils`: a set that holds nothing.
    #[verifier::external_body]
    pub(crate) fn empty() -> (set: EntitySet)
        ensures
            entity_ids(set) == Set::<u64>::empty(),
    {
        EntitySet { ids: bevy::utils::HashSet::default() }
    }

    /// `HashSet::insert`: afterwards the set holds `id` besides what it held,
    /// and the result tells whether `id` was absent before.
    #[verifier::external_body]
    pub(crate) fn insert(&mut self, id: u64) -> (added: bool)
        ensures
            entity_ids(*final(self)) == entity_ids(*old(self)).insert(id),
            added == !entity_ids(*old(self)).contains(id),
    {
        self.ids.insert(id)
    }

    /// `HashSet::remove`: afterwards the set holds what it held except `id`,
    /// and the result tells whether `id` was present before.
    #[verifier::external_body]
    pub(crate) fn remove(&mut self, id: u64) -> (removed: bool)
        ensures
            entity_ids(*final(self)) == entity_ids(*old(self)).remove(id),
            removed == entity_ids(*old(self)).contains(id),
    {
        self.ids.remove(&id)
    }

    /// `HashSet::contains`: whether the set holds `id`.
    #[verifier::external_body]
    pub(crate) fn contains(&self, id: u64) -> (present: bool)
        ensures
            present == entity_ids(*self).contains(id),
    {
        self.ids.contains(&id)
    }
}

/// One cell of the navigation grid.
pub struct NavTileOccupant {
    /// Cost of crossing the tile; carried for terrain, not used by the
    /// pathfinder.
    pub weight: u32,
    pub occupied_by: EntitySet,
    pub walkable: bool,
}

/// What a tile holds, as plain values.
pub struct TileModel {
    pub weight: u32,
    pub occupants: Set<u64>,
    pub walkable: bool,
}

impl View for NavTileOccupant {
    type V = TileModel;

    open spec fn view(&self) -> TileModel {
        TileModel {
            weight: self.weight,
            occupants: entity_ids(self.occupied_by),
            walkable: self.walkable,
        }
    }
}

impl Default for NavTileOccupant {
    /// A tile that nothing occupies and nothing may cross.
    fn default() -> (tile: NavTileOccupant)
        ensures
            tile@ == TileModel::blocked(),
    {
        NavTileOccupant { weight: 0, occupied_by: EntitySet::empty(), walkable: false }
    }
}

impl TileModel {
    /// The tile that `NavTileOccupant::default` builds.
    pub open spec fn blocked() -> TileModel {
        TileModel { weight: 0, occupants: Set::<u64>::empty(), walkable: false }
    }
}

/// The navigation grid as a square of tile models, indexed `[x][y]`.
pub struct NavmeshModel {
    pub tiles: Seq<Seq<TileModel>>,
}

impl NavmeshModel {
    /// Side length of the grid.
    pub open spec fn size(self) -> nat {
        self.tiles.len()
    }

    /// Every column has as many tiles as there are columns.
    pub open spec fn square(self) -> bool {
        forall|x: int| 0 <= x < self.tiles.len() ==> (#[trigger] self.tiles[x]).len() == self.tiles.len()
    }

    /// Whether `c` indexes a tile of the grid.
    pub open spec fn contains(self, c: GridCoord) -> bool {
        c.x < self.tiles.len() && c.y < self.tiles[c.x as int].len()
    }

    /// The tile at `c`.
    pub open spec fn tile(self, c: GridCoord) -> TileModel
        recommends
            self.contains(c),
    {
        self.tiles[c.x as int][c.y as int]
    }

    /// Whether `c` is a tile of the grid that may be crossed.
    pub open spec fn walkable(self, c: GridCoord) -> bool {
        self.contains(c) && self.tile(c).walkable
    }

    /// The grid with the tile at `c` replaced by `tile`.
    pub open spec fn with_tile(self, c: GridCoord, tile: TileModel) -> NavmeshModel
        recommends
            self.contains(c),
    {
        NavmeshModel {
            tiles: self.tiles.update(c.x as int, self.tiles[c.x as int].update(c.y as int, tile)),
        }
    }

    /// A grid of side `size` whose tiles are all blocked and empty.
    pub open spec fn blocked(size: nat) -> NavmeshModel {
        NavmeshModel {
            tiles: Seq::new(size, |x: int| Seq::new(size, |y: int| TileModel::blocked())),
        }
    }
}

/// The navigation grid: `tiles[x][y]` is the tile at `(x, y)`.
pub struct Navmesh {
    pub tiles: Vec<Vec<NavTileOccupant>>,
}

impl View for Navmesh {
    type V = NavmeshModel;

    open spec fn view(&self) -> NavmeshModel {
        NavmeshModel {
            tiles: Seq::new(
                self.tiles.len() as nat,
                |x: int| Seq::new(self.tiles[x].len() as nat, |y: int| self.tiles[x][y]@),
            ),
        }
    }
}

impl Default for Navmesh {
    /// The grid of side `SIZE`, all tiles blocked and empty.
    fn default() -> (navmesh: Navmesh)
        ensures
            navmesh.wf(),
            navmesh@ == NavmeshModel::blocked(SIZE as nat),
    {
        Navmesh::new(SIZE)
    }
}

impl Navmesh {
    /// The grid is square.
    pub open spec fn wf(&self) -> bool {
        forall|x: int| 0 <= x < self.tiles.len() ==> (#[trigger] self.tiles[x]).len() == self.tiles.len()
    }

    /// A grid of side `size` whose tiles are all blocked and empty.
    pub fn new(size: usize) -> (navmesh: Navmesh)
        ensures
            navmesh.wf(),
            navmesh@ == NavmeshModel::blocked(size as nat),
    {
        let mut tiles: Vec<Vec<NavTileOccupant>> = Vec::new();
        let mut x: usize = 0;
        while x < size
            invariant
                x <= size,
                tiles.len() == x,
                forall|i: int| 0 <= i < x ==> (#[trigger] tiles[i]).len() == size,
                forall|i: int, j: int|
                    0 <= i < x && 0 <= j < size ==> (#[trigger] tiles[i][j])@ == TileModel::blocked(),
            decreases size - x,
        {
            let mut column: Vec<NavTileOccupant> = Vec::new();
            let mut y: usize = 0;
            while y < size
                invariant
                    y <= size,
                    column.len() == y,
                    forall|j: int| 0 <= j < y ==> (#[trigger] column[j])@ == TileModel::blocked(),
                decreases size - y,
            {
                column.push(NavTileOccupant::default());
                y += 1;
            }
            tiles.push(column);
            x += 1;
        }
        let navmesh = Navmesh { tiles };
        proof {
            assert forall|i: int| 0 <= i < size implies #[trigger] navmesh@.tiles[i]
                == NavmeshModel::blocked(size as nat).tiles[i] by {
                assert(navmesh@.tiles[i] =~= NavmeshModel::blocked(size as nat).tiles[i]);
            }
            assert(navmesh@.tiles =~= NavmeshModel::blocked(size as nat).tiles);
        }
        navmesh
    }

    /// Side length of the grid.
    pub fn size(&self) -> (size: usize)
        ensures
            size == self@.size(),
    {
        self.tiles.len()
    }

    /// Whether `(x, y)` indexes a tile of the grid.
    pub fn in_bounds(&self, x: usize, y: usize) -> (inside: bool)
        requires
            self.wf(),
        ensures
            inside == self@.contains(GridCoord { x, y }),
    {
        x < self.tiles.len() && y < self.tiles.len()
    }

    /// Whether `(x, y)` is a tile of the grid that may be crossed. A
    /// coordinate outside the grid counts as blocked.
    pub fn is_walkable(&self, x: usize, y: usize) -> (free: bool)
        requires
            self.wf(),
        ensures
            free == self@.walkable(GridCoord { x, y }),
    {
        if x < self.tiles.len() && y < self.tiles.len() {
            self.tiles[x][y].walkable
        } else {
            false
        }
    }

    /// Whether `entity` is recorded as standing on `(x, y)`.
    pub fn has_occupant(&self, x: usize, y: usize, entity: EntityRef) -> (present: bool)
        requires
            self.wf(),
            self@.contains(GridCoord { x, y }),
        ensures
            present == self@.tile(GridCoord { x, y }).occupants.contains(entity.0),
    {
        self.tiles[x][y].occupied_by.contains(entity.0)
    }

    /// Marks the tile at `(x, y)` as open or blocked.
    pub fn set_walkable(&mut self, x: usize, y: usize, walkable: bool)
        requires
            old(self).wf(),
            old(self)@.contains(GridCoord { x, y }),
        ensures
            final(self).wf(),
            final(self)@ == old(self)@.with_tile(
                GridCoord { x, y },
                TileModel { walkable, ..old(self)@.tile(GridCoord { x, y }) },
            ),
    {
        self.tiles[x][y].walkable = walkable;
        proof {
            self.lemma_view_after_update(*old(self), GridCoord { x, y });
        }
    }

    /// Sets the traversal weight of the tile at `(x, y)`.
    pub fn set_weight(&mut self, x: usize, y: usize, weight: u32)
        requires
            old(self).wf(),
            old(self)@.contains(GridCoord { x, y }),
        ensures
            final(self).wf(),
            final(self)@ == old(self)@.with_tile(
                GridCoord { x, y },
                TileModel { weight, ..old(self)@.tile(GridCoord { x, y }) },
            ),
    {
        self.tiles[x][y].weight = weight;
        proof {
            self.lemma_view_after_update(*old(self), GridCoord { x, y });
        }
    }

    /// Records `entity` as standing on `(x, y)`.
    pub fn add_occupant(&mut self, x: usize, y: usize, entity: EntityRef)
        requires
            old(self).wf(),
            old(self)@.contains(GridCoord { x, y }),
        ensures
            final(self).wf(),
            final(self)@ == old(self)@.with_tile(
                GridCoord { x, y },
                TileModel {
                    occupants: old(self)@.tile(GridCoord { x, y }).occupants.insert(entity.0),
                    ..old(self)@.tile(GridCoord { x, y })
                },
            ),
    {
        self.tiles[x][y].occupied_by.insert(entity.0);
        proof {
            self.lemma_view_after_update(*old(self), GridCoord { x, y });
        }
    }

    /// Removes `entity` from the occupants of `(x, y)`.
    pub fn remove_occupant(&mut self, x: usize, y: usize, entity: EntityRef)
        requires
            old(self).wf(),
            old(self)@.contains(GridCoord { x, y }),
        ensures
            final(self).wf(),
            final(self)@ == old(self)@.with_tile(
                GridCoord { x, y },
                TileModel {
                    occupants: old(self)@.tile(GridCoord { x, y }).occupants.remove(entity.0),
                    ..old(self)@.tile(GridCoord { x, y })
                },
            ),
    {
        self.tiles[x][y].occupied_by.remove(entity.0);
        proof {
            self.lemma_view_after_update(*old(self), GridCoord { x, y });
        }
    }

    /// A grid that differs from `before` in the tile at `c` alone has the
    /// view of `before` with that tile replaced.
    proof fn lemma_view_after_update(&self, before: Navmesh, c: GridCoord)
        requires
            before.wf(),
            before@.contains(c),
            self.tiles.len() == before.tiles.len(),
            forall|x: int| 0 <= x < self.tiles.len() ==> (#[trigger] self.tiles[x]).len() == before.tiles[x].len(),
            forall|x: int, y: int|
                0 <= x < self.tiles.len() && 0 <= y < self.tiles.len() && !(x == c.x && y == c.y)
                    ==> (#[trigger] self.tiles[x][y])@ == before.tiles[x][y]@,
        ensures
            self.wf(),
            self@ == before@.with_tile(c, self.tiles[c.x as int][c.y as int]@),
    {
        let target = before@.with_tile(c, self.tiles[c.x as int][c.y as int]@);
        assert forall|x: int| 0 <= x < self.tiles.len() implies #[trigger] self@.tiles[x]
            == target.tiles[x] by {
            assert(self@.tiles[x] =~= target.tiles[x]);
        }
        assert(self@.tiles =~= target.tiles);
    }
}

/// A request for a path, sent on behalf of `entity`.
#[derive(Clone, Copy, Debug, PartialEq, Eq, Structural)]
pub struct PathfindRequest {
    pub start: GridCoord,
    pub end: GridCoord,
    pub entity: EntityRef,
}

/// The answer to a request of `entity`: the waypoints from start to end, or
/// `None` where the end cannot be reached.
#[derive(Debug, PartialEq, Eq)]
pub struct PathfindAnswer {
    pub path: Option<Vec<GridCoord>>,
    pub entity: EntityRef,
}

/// An answer as plain values.
pub struct AnswerModel {
    pub path: Option<Seq<GridCoord>>,
    pub entity: EntityRef,
}

impl View for PathfindAnswer {
    type V = AnswerModel;

    open spec fn view(&self) -> AnswerModel {
        AnswerModel {
            path: match self.path {
                Some(path) => Some(path@),
                None => None,
            },
            entity: self.entity,
        }
    }
}

} // verus!
