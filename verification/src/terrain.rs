//! The ground: which tiles are dirt or grass, and what that means for the
//! navigation grid.

use crate::navmesh::components::NavmeshModel;
use crate::navmesh::components::TileModel;
use crate::world::World;
use crate::world::WorldModel;
use crate::GridCoord;
use vstd::prelude::*;

verus! {

/// The ground of a tile.
#[derive(Clone, Copy, Debug, PartialEq, Eq, Structural)]
pub enum TileType {
    Dirt,
    Grass,
}

/// Traversal weight of a tile of dirt.
pub const DIRT_WEIGHT: u32 = 1;

/// Traversal weight of a tile of grass.
pub const GRASS_WEIGHT: u32 = 2;

/// A grid of grounds as plain values, indexed `[x][y]`.
pub open spec fn spec_grounds(terrain: &Vec<Vec<Option<TileType>>>) -> Seq<Seq<Option<TileType>>> {
    Seq::new(terrain.len() as nat, |x: int| terrain[x]@)
}

/// The ground at `(x, y)`; `None` where there is none and outside the grid of
/// grounds.
pub open spec fn spec_ground_at(terrain: Seq<Seq<Option<TileType>>>, x: int, y: int) -> Option<
    TileType,
> {
    if 0 <= x < terrain.len() && 0 <= y < terrain[x].len() {
        terrain[x][y]
    } else {
        None
    }
}

/// The traversal weight of a ground.
pub open spec fn spec_weight(ground: TileType) -> u32 {
    match ground {
        TileType::Dirt => DIRT_WEIGHT,
        TileType::Grass => GRASS_WEIGHT,
    }
}

impl TileType {
    /// The traversal weight of the ground.
    pub fn weight(self) -> (weight: u32)
        ensures
            weight == spec_weight(self),
    {
        match self {
            TileType::Dirt => DIRT_WEIGHT,
            TileType::Grass => GRASS_WEIGHT,
        }
    }
}

impl TileModel {
    /// The tile with `ground` laid on it: it may be walked on, at the weight
    /// of the ground. Without ground the tile stays as it is.
    pub open spec fn with_ground(self, ground: Option<TileType>) -> TileModel {
        match ground {
            Some(ground) => TileModel { walkable: true, weight: spec_weight(ground), ..self },
            None => self,
        }
    }
}

impl NavmeshModel {
    /// The grid with `terrain` laid on it, tile by tile.
    pub open spec fn with_terrain(self, terrain: Seq<Seq<Option<TileType>>>) -> NavmeshModel {
        NavmeshModel {
            tiles: Seq::new(
                self.tiles.len(),
                |x: int|
                    Seq::new(
                        self.tiles[x].len(),
                        |y: int| self.tiles[x][y].with_ground(spec_ground_at(terrain, x, y)),
                    ),
            ),
        }
    }
}

impl WorldModel {
    /// The world with `terrain` laid on its grid.
    pub open spec fn spawn_world_tiles(self, terrain: Seq<Seq<Option<TileType>>>) -> WorldModel {
        WorldModel { navmesh: self.navmesh.with_terrain(terrain), ..self }
    }

    /// Ground laid on the grid keeps the invariant.
    pub proof fn lemma_terrain_keeps_wf(self, terrain: Seq<Seq<Option<TileType>>>)
        requires
            self.wf(),
        ensures
            self.spawn_world_tiles(terrain).wf(),
    {
        reveal(WorldModel::wf);
        let after = self.spawn_world_tiles(terrain);
        assert(after.navmesh.square());
        assert(after.stones_placed()) by {
            assert forall|k: int| 0 <= k < after.stones.len() implies after.navmesh.contains(
                (#[trigger] after.stones[k]).tile,
            ) by {
                assert(self.navmesh.contains(self.stones[k].tile));
            }
        }
        assert(after.occupancy_sound()) by {
            assert forall|c: GridCoord, id: u64|
                after.navmesh.contains(c) && #[trigger] after.navmesh.tile(c).occupants.contains(
                    id,
                ) implies after.is_blocker(c, id) by {
                assert(self.navmesh.contains(c));
                assert(self.navmesh.tile(c).occupants.contains(id));
                assert(self.is_blocker(c, id));
            }
        }
        assert(after.despawns_sound()) by {
            assert forall|j: int, n: int|
                0 <= j < after.commands.len() && 0 <= n < after.stones.len()
                    && #[trigger] after.commands[j] == (crate::world::Command::Despawn {
                    entity: (#[trigger] after.stones[n]).entity,
                }) implies !after.navmesh.tile(after.stones[n].tile).occupants.contains(
                after.stones[n].entity.0,
            ) by {
                assert(self.navmesh.contains(self.stones[n].tile));
                assert(!self.navmesh.tile(self.stones[n].tile).occupants.contains(
                    self.stones[n].entity.0,
                ));
            }
        }
    }
}

/// The ground at `(x, y)`, or `None` outside the grid of grounds.
pub fn ground_at(terrain: &Vec<Vec<Option<TileType>>>, x: usize, y: usize) -> (ground: Option<
    TileType,
>)
    ensures
        ground == spec_ground_at(spec_grounds(terrain), x as int, y as int),
{
    if x < terrain.len() {
        if y < terrain[x].len() {
            return terrain[x][y];
        }
    }
    None
}

/// Lays `terrain` on the grid: a tile of dirt or of grass may be walked on
/// and gets the weight of its ground; a tile without ground stays as it is.
pub fn spawn_world_tiles(world: &mut World, terrain: &Vec<Vec<Option<TileType>>>)
    requires
        old(world).wf(),
    ensures
        final(world).wf(),
        final(world)@ == old(world)@.spawn_world_tiles(spec_grounds(terrain)),
{
    proof {
        old(world)@.lemma_navmesh_square();
    }
    let size = world.navmesh.size();
    let ghost target = old(world)@.navmesh.with_terrain(spec_grounds(terrain));
    let mut x: usize = 0;
    while x < size
        invariant
            x <= size,
            size == old(world)@.navmesh.size(),
            old(world)@.navmesh.square(),
            target == old(world)@.navmesh.with_terrain(spec_grounds(terrain)),
            world.navmesh.wf(),
            world@.navmesh.size() == size,
            *world == (World { navmesh: world.navmesh, ..*old(world) }),
            forall|c: GridCoord|
                old(world)@.navmesh.contains(c) ==> #[trigger] world@.navmesh.tile(c) == (if c.x < x {
                    target.tile(c)
                } else {
                    old(world)@.navmesh.tile(c)
                }),
        decreases size - x,
    {
        let mut y: usize = 0;
        while y < size
            invariant
                x < size,
                y <= size,
                size == old(world)@.navmesh.size(),
                old(world)@.navmesh.square(),
                target == old(world)@.navmesh.with_terrain(spec_grounds(terrain)),
                world.navmesh.wf(),
                world@.navmesh.size() == size,
                *world == (World { navmesh: world.navmesh, ..*old(world) }),
                forall|c: GridCoord|
                    old(world)@.navmesh.contains(c) ==> #[trigger] world@.navmesh.tile(c) == (if c.x
                        < x || (c.x == x && c.y < y) {
                        target.tile(c)
                    } else {
                        old(world)@.navmesh.tile(c)
                    }),
            decreases size - y,
        {
            let here = GridCoord { x, y };
            let ghost before = world@.navmesh;
            proof {
                assert(old(world)@.navmesh.contains(here));
                assert(before.tile(here) == old(world)@.navmesh.tile(here));
            }
            if let Some(ground) = ground_at(terrain, x, y) {
                world.navmesh.set_walkable(x, y, true);
                world.navmesh.set_weight(x, y, ground.weight());
            }
            proof {
                assert forall|c: GridCoord| old(world)@.navmesh.contains(c) implies #[trigger] world@.navmesh.tile(
                    c,
                ) == (if c.x < x || (c.x == x && c.y < y + 1) {
                    target.tile(c)
                } else {
                    old(world)@.navmesh.tile(c)
                }) by {
                    if c != here {
                        assert(world@.navmesh.tile(c) == before.tile(c));
                    }
                }
            }
            y += 1;
        }
        x += 1;
    }
    proof {
        assert(world@.pawns =~= old(world)@.pawns);
        assert(world@.answers =~= old(world)@.answers);
        assert forall|x: int| 0 <= x < world@.navmesh.tiles.len() implies #[trigger] world@.navmesh.tiles[x]
            =~= target.tiles[x] by {
            assert forall|y: int| 0 <= y < world@.navmesh.tiles[x].len() implies #[trigger] world@.navmesh.tiles[x][y]
                == target.tiles[x][y] by {
                let c = GridCoord { x: x as usize, y: y as usize };
                assert(old(world)@.navmesh.contains(c));
                assert(world@.navmesh.tile(c) == world@.navmesh.tiles[x][y]);
            }
        }
        assert(world@.navmesh.tiles =~= target.tiles);
        old(world)@.lemma_terrain_keeps_wf(spec_grounds(terrain));
    }
}

/// The piece of the dirt sheet that a tile of dirt is drawn with, by where
/// grass borders on it.
#[derive(Clone, Copy, Debug, PartialEq, Eq, Hash, Structural)]
pub enum DirtTile {
    TopLeft,
    TopMiddle,
    TopRight,
    MiddleLeft,
    MiddleMiddle,
    MiddleRight,
    BottomLeft,
    BottomMiddle,
    BottomRight,
    OutsideTopLeft,
    OutsideTopRight,
    OutsideBottomLeft,
    OutsideBottomRight,
}

impl Default for DirtTile {
    fn default() -> (tile: DirtTile)
        ensures
            tile == DirtTile::MiddleMiddle,
    {
        DirtTile::MiddleMiddle
    }
}

/// The place of a piece on the dirt sheet, which has five pieces to a row.
pub open spec fn spec_dirt_index(tile: DirtTile) -> usize {
    match tile {
        DirtTile::TopLeft => 0,
        DirtTile::TopMiddle => 1,
        DirtTile::TopRight => 2,
        DirtTile::OutsideTopLeft => 3,
        DirtTile::OutsideTopRight => 4,
        DirtTile::MiddleLeft => 5,
        DirtTile::MiddleMiddle => 6,
        DirtTile::MiddleRight => 7,
        DirtTile::OutsideBottomLeft => 8,
        DirtTile::OutsideBottomRight => 9,
        DirtTile::BottomLeft => 10,
        DirtTile::BottomMiddle => 11,
        DirtTile::BottomRight => 12,
    }
}

impl DirtTile {
    /// The place of the piece on the dirt sheet.
    pub fn index(self) -> (index: usize)
        ensures
            index == spec_dirt_index(self),
    {
        match self {
            DirtTile::TopLeft => 0,
            DirtTile::TopMiddle => 1,
            DirtTile::TopRight => 2,
            DirtTile::OutsideTopLeft => 3,
            DirtTile::OutsideTopRight => 4,
            DirtTile::MiddleLeft => 5,
            DirtTile::MiddleMiddle => 6,
            DirtTile::MiddleRight => 7,
            DirtTile::OutsideBottomLeft => 8,
            DirtTile::OutsideBottomRight => 9,
            DirtTile::BottomLeft => 10,
            DirtTile::BottomMiddle => 11,
            DirtTile::BottomRight => 12,
        }
    }
}

/// Whether `(x, y)` is a tile of grass; nothing is outside the grid of
/// grounds.
pub open spec fn spec_is_grass(terrain: Seq<Seq<Option<TileType>>>, x: int, y: int) -> bool {
    spec_ground_at(terrain, x, y) == Some(TileType::Grass)
}

/// The piece that the tile of dirt at `(x, y)` is drawn with. Grass on two
/// sides that meet makes a corner, the upper before the lower and the right
/// before the left; grass on one side makes an edge, right before left
/// before top before bottom. With no grass on any side, grass across a
/// corner makes an outside corner, the lower before the upper and the right
/// before the left. A tile with no grass around it is drawn plain.
pub open spec fn spec_dirt_texture(terrain: Seq<Seq<Option<TileType>>>, x: int, y: int) -> DirtTile {
    let bottom = spec_is_grass(terrain, x, y - 1);
    let top = spec_is_grass(terrain, x, y + 1);
    let left = spec_is_grass(terrain, x - 1, y);
    let right = spec_is_grass(terrain, x + 1, y);
    if right && top {
        DirtTile::TopRight
    } else if left && top {
        DirtTile::TopLeft
    } else if right && bottom {
        DirtTile::BottomRight
    } else if left && bottom {
        DirtTile::BottomLeft
    } else if right {
        DirtTile::MiddleRight
    } else if left {
        DirtTile::MiddleLeft
    } else if top {
        DirtTile::TopMiddle
    } else if bottom {
        DirtTile::BottomMiddle
    } else if spec_is_grass(terrain, x + 1, y - 1) {
        DirtTile::OutsideBottomRight
    } else if spec_is_grass(terrain, x - 1, y - 1) {
        DirtTile::OutsideBottomLeft
    } else if spec_is_grass(terrain, x + 1, y + 1) {
        DirtTile::OutsideTopRight
    } else if spec_is_grass(terrain, x - 1, y + 1) {
        DirtTile::OutsideTopLeft
    } else {
        DirtTile::MiddleMiddle
    }
}

/// No side of a grid of grounds is longer than `usize::MAX`.
proof fn lemma_grounds_bounded(terrain: &Vec<Vec<Option<TileType>>>)
    ensures
        spec_grounds(terrain).len() <= usize::MAX,
        forall|x: int|
            0 <= x < spec_grounds(terrain).len() ==> (#[trigger] spec_grounds(terrain)[x]).len()
                <= usize::MAX,
{
    assert(terrain.len() == terrain@.len());
    assert forall|x: int| 0 <= x < spec_grounds(terrain).len() implies (#[trigger] spec_grounds(
        terrain,
    )[x]).len() <= usize::MAX by {
        assert(terrain[x].len() == terrain[x]@.len());
    }
}

/// Whether the tile `dx - 1` to the right of and `dy - 1` above `(x, y)` is
/// a tile of grass.
fn is_grass_beside(terrain: &Vec<Vec<Option<TileType>>>, x: usize, y: usize, dx: usize, dy: usize) -> (grass:
    bool)
    requires
        dx <= 2,
        dy <= 2,
    ensures
        grass == spec_is_grass(spec_grounds(terrain), x + dx - 1, y + dy - 1),
{
    proof {
        lemma_grounds_bounded(terrain);
    }
    if (dx == 0 && x == 0) || (dy == 0 && y == 0) || (dx == 2 && x == usize::MAX) || (dy == 2 && y
        == usize::MAX) {
        return false;
    }
    let beside_x: usize = if dx == 0 {
        x - 1
    } else if dx == 1 {
        x
    } else {
        x + 1
    };
    let beside_y: usize = if dy == 0 {
        y - 1
    } else if dy == 1 {
        y
    } else {
        y + 1
    };
    match ground_at(terrain, beside_x, beside_y) {
        Some(TileType::Grass) => true,
        _ => false,
    }
}

/// The piece of the dirt sheet that the tile of dirt at `(x, y)` is drawn
/// with, so that dirt joins the grass around it.
pub fn get_dirt_texture_facing_grass(terrain: &Vec<Vec<Option<TileType>>>, x: usize, y: usize) -> (tile:
    DirtTile)
    ensures
        tile == spec_dirt_texture(spec_grounds(terrain), x as int, y as int),
{
    let mut tile = DirtTile::MiddleMiddle;
    let mut found_grass = false;
    let bottom = is_grass_beside(terrain, x, y, 1, 0);
    let top = is_grass_beside(terrain, x, y, 1, 2);
    let left = is_grass_beside(terrain, x, y, 0, 1);
    let right = is_grass_beside(terrain, x, y, 2, 1);
    if bottom {
        tile = DirtTile::BottomMiddle;
        found_grass = true;
    }
    if top {
        tile = DirtTile::TopMiddle;
        found_grass = true;
    }
    if left {
        tile = DirtTile::MiddleLeft;
        found_grass = true;
    }
    if right {
        tile = DirtTile::MiddleRight;
        found_grass = true;
    }
    if left && bottom {
        tile = DirtTile::BottomLeft;
    }
    if right && bottom {
        tile = DirtTile::BottomRight;
    }
    if left && top {
        tile = DirtTile::TopLeft;
    }
    if right && top {
        tile = DirtTile::TopRight;
    }
    if !found_grass {
        if is_grass_beside(terrain, x, y, 0, 2) {
            tile = DirtTile::OutsideTopLeft;
        }
        if is_grass_beside(terrain, x, y, 2, 2) {
            tile = DirtTile::OutsideTopRight;
        }
        if is_grass_beside(terrain, x, y, 0, 0) {
            tile = DirtTile::OutsideBottomLeft;
        }
        if is_grass_beside(terrain, x, y, 2, 0) {
            tile = DirtTile::OutsideBottomRight;
        }
    }
    tile
}

} // verus!
