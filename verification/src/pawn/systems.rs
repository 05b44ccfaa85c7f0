//! The systems that move pawns through their life cycle. Each reads the
//! statuses and work orders as they stood when the phase began, and asks for
//! changes to them that take effect when the phase ends.

use vstd::prelude::*;

pub mod attack;
pub mod delivery;
pub mod mining;
pub mod movement;
pub mod pathfind;
pub mod presentation;
pub mod spawn;
pub mod work;

pub use self::attack::attack_pawn;
pub use self::attack::find_pawns_to_attack;
pub use self::attack::search_for_attack_target_pawn;
pub use self::attack::update_pathfinding_to_pawn;
pub use self::delivery::return_to_factory;
pub use self::mining::mine_stone;
pub use self::movement::move_pawn;
pub use self::movement::tick_timers;
pub use self::pathfind::enemy_search_for_factory;
pub use self::pathfind::listen_for_pathfinding_answers;
pub use self::pathfind::retry_pathfinding;
pub use self::presentation::update_health_ui;
pub use self::presentation::update_pawn_animation;
pub use self::spawn::enemy_spawn_axis;
pub use self::spawn::enemy_spawn_candidate;
pub use self::spawn::initial_pawn_spawn;
pub use self::spawn::listen_for_spawn_pawn_event;
pub use self::spawn::spawn_enemy_at;
pub use self::spawn::spawn_enemy_pawns;
pub use self::spawn::spawn_enemy_wave;
pub use self::spawn::spec_spawn_candidate;
pub use self::spawn::try_enemy_spawn;
pub use self::work::find_stone_on;
pub use self::work::find_work;
pub use self::work::spec_ring;
pub use self::work::spec_searched_before;
pub use self::work::work_idle_pawns;

verus! {

/// Pawns that the player starts with.
pub const INITIAL_PAWN_COUNT: usize = 10;

/// What a pawn can carry.
pub const MAX_RESOURCES: usize = 15;

/// What one stroke of mining takes from a deposit and hands to the pawn.
pub const RESOURCE_GAIN_RATE: usize = 1;

/// Stone that a new pawn costs.
pub const PAWN_COST: usize = 100;

/// Health that a strike by a pawn of the player takes.
pub const PAWN_ATTACK_STRENGTH: usize = 5;

/// Distance in tiles within which pawns of two sides turn on each other.
pub const ENEMY_TILE_RANGE: usize = 10;

/// Health that a strike by an attacker takes.
pub const ENEMY_ATTACK_STRENGTH: usize = 10;

/// Distance in tiles within which a pawn can strike.
pub const STRIKE_RANGE: usize = 2;

/// `a + b`, or `usize::MAX` where the sum would leave `usize`.
pub open spec fn spec_saturating_add(a: usize, b: usize) -> usize {
    if a + b > usize::MAX {
        usize::MAX
    } else {
        (a + b) as usize
    }
}

/// `a + b`, or `usize::MAX` where the sum would leave `usize`.
pub fn saturating_add(a: usize, b: usize) -> (sum: usize)
    ensures
        sum == spec_saturating_add(a, b),
{
    if a > usize::MAX - b {
        usize::MAX
    } else {
        a + b
    }
}

} // verus!
