//! Simulation core of a tile-based colony game: a navigation grid with a
//! pathfinder, the pawn behaviour state machine, ore deposits that deplete,
//! and the phases that drive them tick by tick.

use vstd::prelude::*;

pub mod factory;
pub mod navmesh;
pub mod pawn;
pub mod schedule;
pub mod stone;
pub mod terrain;
pub mod timer;
pub mod world;

verus! {

/// Side length of the navigation grid that `Navmesh::default` builds.
pub const SIZE: usize = 128;

/// An integer `(x, y)` index into the navigation grid.
#[derive(Clone, Copy, Debug, PartialEq, Eq, Hash, Structural)]
pub struct GridCoord {
    pub x: usize,
    pub y: usize,
}

/// Absolute difference of two indices.
pub open spec fn spec_abs_diff(a: usize, b: usize) -> nat {
    if a >= b {
        (a - b) as nat
    } else {
        (b - a) as nat
    }
}

impl GridCoord {
    /// Number of 4-connected steps between two coordinates on an empty grid.
    pub open spec fn manhattan(self, other: GridCoord) -> nat {
        spec_abs_diff(self.x, other.x) + spec_abs_diff(self.y, other.y)
    }

    /// Square of the straight-line distance between two coordinates.
    pub open spec fn spec_distance_squared(self, other: GridCoord) -> nat {
        spec_abs_diff(self.x, other.x) * spec_abs_diff(self.x, other.x) + spec_abs_diff(
            self.y,
            other.y,
        ) * spec_abs_diff(self.y, other.y)
    }

    /// Largest of the two per-axis distances.
    pub open spec fn spec_chebyshev(self, other: GridCoord) -> nat {
        if spec_abs_diff(self.x, other.x) >= spec_abs_diff(self.y, other.y) {
            spec_abs_diff(self.x, other.x)
        } else {
            spec_abs_diff(self.y, other.y)
        }
    }

    /// Builds the coordinate `(x, y)`.
    pub fn new(x: usize, y: usize) -> (c: GridCoord)
        ensures
            c == (GridCoord { x, y }),
    {
        GridCoord { x, y }
    }

    /// The square of the straight-line distance to `other` where that
    /// distance is at most `range` tiles, and `None` beyond.
    pub fn distance_squared_within(self, other: GridCoord, range: usize) -> (squared: Option<usize>)
        requires
            range <= 0x7fff,
        ensures
            squared == if self.spec_distance_squared(other) <= range * range {
                Some(self.spec_distance_squared(other) as usize)
            } else {
                None
            },
    {
        let dx: usize = if self.x >= other.x { self.x - other.x } else { other.x - self.x };
        let dy: usize = if self.y >= other.y { self.y - other.y } else { other.y - self.y };
        if dx > range || dy > range {
            proof {
                if dx > range {
                    lemma_square_le(range as int + 1, dx as int);
                } else {
                    lemma_square_le(range as int + 1, dy as int);
                }
                lemma_square_le(0, dx as int);
                lemma_square_le(0, dy as int);
                assert((range + 1) * (range + 1) > range * range) by (nonlinear_arith);
            }
            return None;
        }
        proof {
            lemma_square_le(dx as int, range as int);
            lemma_square_le(dy as int, range as int);
            lemma_square_le(range as int, 0x7fff);
        }
        let squared: usize = dx * dx + dy * dy;
        if squared <= range * range {
            Some(squared)
        } else {
            None
        }
    }

    /// Whether the straight-line distance to `other` is at most `range` tiles.
    pub fn within_range(self, other: GridCoord, range: usize) -> (near: bool)
        ensures
            near == (self.spec_distance_squared(other) <= range * range),
    {
        let dx: usize = if self.x >= other.x { self.x - other.x } else { other.x - self.x };
        let dy: usize = if self.y >= other.y { self.y - other.y } else { other.y - self.y };
        if dx > range || dy > range {
            proof {
                if dx > range {
                    lemma_square_le(range as int + 1, dx as int);
                } else {
                    lemma_square_le(range as int + 1, dy as int);
                }
                lemma_square_le(0, dx as int);
                lemma_square_le(0, dy as int);
                assert((range + 1) * (range + 1) > range * range) by (nonlinear_arith);
            }
            false
        } else {
            let wide_dx: u128 = dx as u128;
            let wide_dy: u128 = dy as u128;
            let wide_range: u128 = range as u128;
            proof {
                lemma_square_le(dx as int, range as int);
                lemma_square_le(dy as int, range as int);
                lemma_square_le(range as int, 0xffff_ffff_ffff_ffff);
            }
            wide_dy * wide_dy <= wide_range * wide_range - wide_dx * wide_dx
        }
    }
}

/// Squaring keeps the order of two natural numbers.
pub proof fn lemma_square_le(a: int, b: int)
    requires
        0 <= a <= b,
    ensures
        a * a <= b * b,
{
    assert(a * a <= b * b) by (nonlinear_arith)
        requires
            0 <= a <= b,
    ;
}

/// Identity of a simulated entity (a pawn, an ore deposit or a terrain tile).
#[derive(Clone, Copy, Debug, PartialEq, Eq, Hash, Structural)]
pub struct EntityRef(pub u64);

/// Phase of the game as a whole.
#[derive(Clone, Copy, Debug, PartialEq, Eq, Hash, Structural)]
pub enum GameState {
    Loading,
    WorldSpawn,
    FactoryPlacement,
    Main,
    Paused,
}

impl Default for GameState {
    fn default() -> (state: GameState)
        ensures
            state == GameState::Loading,
    {
        GameState::Loading
    }
}

/// Player-wide counters: stone in store and pawns alive.
#[derive(Clone, Copy, Debug, PartialEq, Eq, Structural)]
pub struct GameResources {
    pub stone: usize,
    pub pawns: usize,
}

impl Default for GameResources {
    fn default() -> (resources: GameResources)
        ensures
            resources == (GameResources { stone: 0, pawns: 0 }),
    {
        GameResources { stone: 0, pawns: 0 }
    }
}

} // verus!
