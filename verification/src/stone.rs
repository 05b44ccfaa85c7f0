//! Ore deposits: how much they hold, how mining depletes them, and how the
//! kinds of neighbouring deposits are matched when the world is laid out.

use crate::world::World;
use crate::world::WorldModel;
use crate::GameState;
use crate::GridCoord;
use vstd::prelude::*;

verus! {

/// What a deposit holds when it is created.
pub const MAX_STONE_PER_TILE: usize = 1000;

/// The kind of rock a deposit is made of.
#[derive(Clone, Copy, Debug, PartialEq, Eq, Structural)]
pub enum StoneKind {
    Capped,
    Red,
    Salt,
    Stone,
    Tan,
}

/// How large a deposit appears, by what it still holds.
#[derive(Clone, Copy, Debug, PartialEq, Eq, Structural)]
pub enum StoneSize {
    Small,
    MediumSmall,
    Medium,
    MediumLarge,
    Large,
}

/// An ore deposit.
#[derive(Clone, Copy, Debug, PartialEq, Eq, Structural)]
pub struct Stone {
    pub remaining_resources: usize,
}

/// What is left of `remaining` after `rate` has been mined: never less than
/// nothing.
pub open spec fn spec_apply_mining(remaining: usize, rate: usize) -> usize {
    if remaining >= rate {
        (remaining - rate) as usize
    } else {
        0
    }
}

/// What is left of `remaining` after `times` rounds of mining at `rate`.
pub open spec fn spec_mined_repeatedly(remaining: usize, rate: usize, times: nat) -> usize
    decreases times,
{
    if times == 0 {
        remaining
    } else {
        spec_apply_mining(spec_mined_repeatedly(remaining, rate, (times - 1) as nat), rate)
    }
}

/// The size tier of a deposit that holds `remaining`.
pub open spec fn spec_stone_size(remaining: usize) -> StoneSize {
    if remaining < 250 {
        StoneSize::Small
    } else if remaining < 350 {
        StoneSize::MediumSmall
    } else if remaining < 500 {
        StoneSize::Medium
    } else if remaining < 750 {
        StoneSize::MediumLarge
    } else {
        StoneSize::Large
    }
}

impl Stone {
    /// A deposit at full capacity.
    pub fn new() -> (stone: Stone)
        ensures
            stone.remaining_resources == MAX_STONE_PER_TILE,
    {
        Stone { remaining_resources: MAX_STONE_PER_TILE }
    }

    /// Mines `rate` from the deposit and returns what is left.
    pub fn apply_mining(&mut self, rate: usize) -> (remaining: usize)
        ensures
            remaining == spec_apply_mining(old(self).remaining_resources, rate),
            final(self).remaining_resources == remaining,
            remaining <= old(self).remaining_resources,
    {
        let left: usize = if self.remaining_resources >= rate {
            self.remaining_resources - rate
        } else {
            0
        };
        self.remaining_resources = left;
        left
    }

    /// Whether nothing is left to mine.
    pub fn is_depleted(&self) -> (empty: bool)
        ensures
            empty == (self.remaining_resources == 0),
    {
        self.remaining_resources == 0
    }

}

/// The size tier by which a deposit is to be shown, by what it still holds.
pub fn update_stone_sprite(stone: &Stone) -> (size: StoneSize)
    ensures
        size == spec_stone_size(stone.remaining_resources),
{
    if stone.remaining_resources < 250 {
        StoneSize::Small
    } else if stone.remaining_resources < 350 {
        StoneSize::MediumSmall
    } else if stone.remaining_resources < 500 {
        StoneSize::Medium
    } else if stone.remaining_resources < 750 {
        StoneSize::MediumLarge
    } else {
        StoneSize::Large
    }
}

/// However often and at whatever rate a deposit is mined, what is left is
/// the initial amount less all that was asked for, and nothing where more was
/// asked for than it held.
pub proof fn lemma_mining_saturates(remaining: usize, rate: usize, times: nat)
    ensures
        spec_mined_repeatedly(remaining, rate, times) == if remaining >= times * rate {
            remaining - times * rate
        } else {
            0
        },
        0 <= spec_mined_repeatedly(remaining, rate, times) <= remaining,
    decreases times,
{
    if times > 0 {
        lemma_mining_saturates(remaining, rate, (times - 1) as nat);
        assert(times * rate == (times - 1) * rate + rate) by (nonlinear_arith);
        assert((times - 1) * rate >= 0) by (nonlinear_arith)
            requires
                times >= 1,
                rate >= 0,
        ;
    } else {
        assert(times * rate == 0) by (nonlinear_arith)
            requires
                times == 0,
        ;
    }
}

/// A grid of kinds as plain values, indexed `[x][y]`.
pub open spec fn spec_kinds(grid: &Vec<Vec<Option<StoneKind>>>) -> Seq<Seq<Option<StoneKind>>> {
    Seq::new(grid.len() as nat, |x: int| grid[x]@)
}

/// The kind at `(x, y)` of a grid of kinds; `None` where no deposit stands
/// and outside the grid.
pub open spec fn spec_kind_at(grid: Seq<Seq<Option<StoneKind>>>, x: int, y: int) -> Option<StoneKind> {
    if 0 <= x < grid.len() && 0 <= y < grid[x].len() {
        grid[x][y]
    } else {
        None
    }
}

/// `first` where it holds a kind, else `second`.
pub open spec fn spec_or(first: Option<StoneKind>, second: Option<StoneKind>) -> Option<StoneKind> {
    if first is Some {
        first
    } else {
        second
    }
}

/// The kind of the first deposit found around `(x, y)`, looking above,
/// below, left and right, and then at the four diagonal tiles: upper left,
/// upper right, lower left, lower right.
pub open spec fn spec_neighbor_stone_kind(grid: Seq<Seq<Option<StoneKind>>>, x: int, y: int) -> Option<
    StoneKind,
> {
    spec_or(
        spec_kind_at(grid, x, y + 1),
        spec_or(
            spec_kind_at(grid, x, y - 1),
            spec_or(
                spec_kind_at(grid, x - 1, y),
                spec_or(
                    spec_kind_at(grid, x + 1, y),
                    spec_or(
                        spec_kind_at(grid, x - 1, y + 1),
                        spec_or(
                            spec_kind_at(grid, x + 1, y + 1),
                            spec_or(
                                spec_kind_at(grid, x - 1, y - 1),
                                spec_kind_at(grid, x + 1, y - 1),
                            ),
                        ),
                    ),
                ),
            ),
        ),
    )
}

/// No side of a grid of kinds is longer than `usize::MAX`.
proof fn lemma_kinds_bounded(grid: &Vec<Vec<Option<StoneKind>>>)
    ensures
        spec_kinds(grid).len() <= usize::MAX,
        forall|x: int|
            0 <= x < spec_kinds(grid).len() ==> (#[trigger] spec_kinds(grid)[x]).len() <= usize::MAX,
{
    assert(grid.len() == grid@.len());
    assert forall|x: int| 0 <= x < spec_kinds(grid).len() implies (#[trigger] spec_kinds(
        grid,
    )[x]).len() <= usize::MAX by {
        assert(grid[x].len() == grid[x]@.len());
    }
}

/// The kind at `(x, y)`, or `None` outside the grid.
pub fn kind_at(grid: &Vec<Vec<Option<StoneKind>>>, x: usize, y: usize) -> (kind: Option<StoneKind>)
    ensures
        kind == spec_kind_at(spec_kinds(grid), x as int, y as int),
{
    if x < grid.len() {
        if y < grid[x].len() {
            return grid[x][y];
        }
    }
    None
}

/// The kind that a new deposit at `(x, y)` takes over from a deposit next to
/// it, if there is one.
pub fn get_neighbor_stone_kind(grid: &Vec<Vec<Option<StoneKind>>>, x: usize, y: usize) -> (kind:
    Option<StoneKind>)
    ensures
        kind == spec_neighbor_stone_kind(spec_kinds(grid), x as int, y as int),
{
    proof {
        lemma_kinds_bounded(grid);
    }
    let has_left = x > 0;
    let has_right = x < usize::MAX;
    let has_bottom = y > 0;
    let has_top = y < usize::MAX;
    if has_top {
        let top = kind_at(grid, x, y + 1);
        if top.is_some() {
            return top;
        }
    }
    if has_bottom {
        let bottom = kind_at(grid, x, y - 1);
        if bottom.is_some() {
            return bottom;
        }
    }
    if has_left {
        let left = kind_at(grid, x - 1, y);
        if left.is_some() {
            return left;
        }
    }
    if has_right {
        let right = kind_at(grid, x + 1, y);
        if right.is_some() {
            return right;
        }
    }
    if has_left && has_top {
        let top_left = kind_at(grid, x - 1, y + 1);
        if top_left.is_some() {
            return top_left;
        }
    }
    if has_right && has_top {
        let top_right = kind_at(grid, x + 1, y + 1);
        if top_right.is_some() {
            return top_right;
        }
    }
    if has_left && has_bottom {
        let bottom_left = kind_at(grid, x - 1, y - 1);
        if bottom_left.is_some() {
            return bottom_left;
        }
    }
    if has_right && has_bottom {
        let bottom_right = kind_at(grid, x + 1, y - 1);
        if bottom_right.is_some() {
            return bottom_right;
        }
    }
    None
}

/// A layout of deposits in progress: the world, and the kinds of the
/// deposits laid out so far.
pub struct Layout {
    pub world: WorldModel,
    pub kinds: Seq<Seq<Option<StoneKind>>>,
}

impl Layout {
    /// The layout after the tile `(x, y)` has been seen: where `ore` has
    /// rock there, a deposit is laid out, of the kind of a deposit next to
    /// it if there is one, and of the kind of the rock else.
    pub open spec fn lay_cell(self, ore: Seq<Seq<Option<StoneKind>>>, x: int, y: int) -> Layout {
        match spec_kind_at(ore, x, y) {
            None => self,
            Some(rock) => {
                let kind = match spec_neighbor_stone_kind(self.kinds, x, y) {
                    Some(next) => next,
                    None => rock,
                };
                let tile = GridCoord { x: x as usize, y: y as usize };
                Layout {
                    kinds: self.kinds.update(x, self.kinds[x].update(y, Some(kind))),
                    world: if self.world.next_entity < u64::MAX {
                        self.world.spawn_stone(tile, kind)
                    } else {
                        self.world
                    },
                }
            },
        }
    }

    /// The layout after the first `n` tiles of the column `x` have been
    /// seen.
    pub open spec fn lay_column(self, ore: Seq<Seq<Option<StoneKind>>>, x: int, n: nat) -> Layout
        decreases n,
    {
        if n == 0 {
            self
        } else {
            self.lay_column(ore, x, (n - 1) as nat).lay_cell(ore, x, n - 1)
        }
    }

    /// The layout after the first `n` columns of a grid of side `size` have
    /// been seen.
    pub open spec fn lay_columns(self, ore: Seq<Seq<Option<StoneKind>>>, size: nat, n: nat) -> Layout
        decreases n,
    {
        if n == 0 {
            self
        } else {
            self.lay_columns(ore, size, (n - 1) as nat).lay_column(ore, n - 1, size)
        }
    }
}

impl WorldModel {
    /// The world after the deposits have been laid out where `ore` has
    /// rock, column by column from the bottom up: the deposits stand, and
    /// the factory is to be placed next.
    pub open spec fn spawn_stone_tiles(self, ore: Seq<Seq<Option<StoneKind>>>) -> WorldModel {
        let size = self.navmesh.size();
        let start = Layout {
            world: self,
            kinds: Seq::new(size, |x: int| Seq::new(size, |y: int| None)),
        };
        WorldModel {
            game_state: GameState::FactoryPlacement,
            ..start.lay_columns(ore, size, size).world
        }
    }
}

/// A grid of side `size` that holds no kind anywhere.
fn no_kinds(size: usize) -> (grid: Vec<Vec<Option<StoneKind>>>)
    ensures
        spec_kinds(&grid) == Seq::new(
            size as nat,
            |x: int| Seq::new(size as nat, |y: int| None::<StoneKind>),
        ),
        grid.len() == size,
        forall|x: int| 0 <= x < size ==> (#[trigger] grid[x]).len() == size,
{
    let mut grid: Vec<Vec<Option<StoneKind>>> = Vec::new();
    let mut x: usize = 0;
    while x < size
        invariant
            x <= size,
            grid.len() == x,
            forall|i: int|
                0 <= i < x ==> (#[trigger] grid[i])@ == Seq::new(
                    size as nat,
                    |y: int| None::<StoneKind>,
                ),
        decreases size - x,
    {
        let mut column: Vec<Option<StoneKind>> = Vec::new();
        let mut y: usize = 0;
        while y < size
            invariant
                y <= size,
                column.len() == y,
                forall|j: int| 0 <= j < y ==> (#[trigger] column[j]) is None,
            decreases size - y,
        {
            column.push(None);
            y += 1;
        }
        assert(column@ =~= Seq::new(size as nat, |y: int| None::<StoneKind>));
        grid.push(column);
        x += 1;
    }
    assert(spec_kinds(&grid) =~= Seq::new(
        size as nat,
        |x: int| Seq::new(size as nat, |y: int| None::<StoneKind>),
    ));
    grid
}

/// Lays out a deposit on every tile of the grid where `ore` has rock,
/// column by column from the bottom up. A deposit takes the kind of a
/// deposit next to it, if one has been laid out there, so that rocks of one
/// kind cluster. Afterwards the factory is to be placed.
pub fn spawn_stone_tiles(world: &mut World, ore: &Vec<Vec<Option<StoneKind>>>)
    requires
        old(world).wf(),
    ensures
        final(world).wf(),
        final(world)@ == old(world)@.spawn_stone_tiles(spec_kinds(ore)),
{
    proof {
        old(world)@.lemma_navmesh_square();
    }
    let size = world.navmesh.size();
    let mut stone_kinds = no_kinds(size);
    let ghost start = Layout { world: old(world)@, kinds: spec_kinds(&stone_kinds) };
    let mut x: usize = 0;
    while x < size
        invariant
            x <= size,
            size == old(world)@.navmesh.size(),
            world.wf(),
            world@.navmesh.size() == size,
            stone_kinds.len() == size,
            forall|i: int| 0 <= i < size ==> (#[trigger] stone_kinds[i]).len() == size,
            (Layout { world: world@, kinds: spec_kinds(&stone_kinds) }) == start.lay_columns(
                spec_kinds(ore),
                size as nat,
                x as nat,
            ),
        decreases size - x,
    {
        let ghost column_start = Layout { world: world@, kinds: spec_kinds(&stone_kinds) };
        let mut y: usize = 0;
        while y < size
            invariant
                x < size,
                y <= size,
                world.wf(),
                world@.navmesh.size() == size,
                stone_kinds.len() == size,
                forall|i: int| 0 <= i < size ==> (#[trigger] stone_kinds[i]).len() == size,
                (Layout { world: world@, kinds: spec_kinds(&stone_kinds) })
                    == column_start.lay_column(spec_kinds(ore), x as int, y as nat),
            decreases size - y,
        {
            if let Some(rock) = kind_at(ore, x, y) {
                let kind = match get_neighbor_stone_kind(&stone_kinds, x, y) {
                    Some(next) => next,
                    None => rock,
                };
                let ghost before = spec_kinds(&stone_kinds);
                stone_kinds[x][y] = Some(kind);
                proof {
                    assert(spec_kinds(&stone_kinds) =~= before.update(
                        x as int,
                        before[x as int].update(y as int, Some(kind)),
                    ));
                    world@.lemma_navmesh_square();
                }
                world.spawn_stone(GridCoord { x, y }, kind);
            }
            y += 1;
        }
        x += 1;
    }
    let ghost laid = *world;
    world.game_state = GameState::FactoryPlacement;
    proof {
        assert(world@.pawns =~= laid@.pawns);
        assert(world@.answers =~= laid@.answers);
        laid@.lemma_state_keeps_wf(GameState::FactoryPlacement);
    }
}

} // verus!
