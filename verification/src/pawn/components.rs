//! What a pawn is made of: its body, its status and its work order.

use crate::timer::Timer;
use crate::timer::TimerMode;
use crate::EntityRef;
use crate::GridCoord;
use std::collections::VecDeque;
use vstd::prelude::*;

verus! {

/// Health of a pawn when it is spawned.
pub const PAWN_HEALTH: usize = 100;

/// Nanoseconds between two searches or strikes of a pawn.
pub const PAWN_SEARCH_TIMER: u64 = 250_000_000;

/// Nanoseconds between two steps of the walking animation.
pub const PAWN_ANIMATION_TIMER: u64 = 125_000_000;

/// Nanoseconds between two strokes of mining.
pub const PAWN_MINE_TIMER: u64 = 500_000_000;

/// Nanoseconds a pawn waits after a failed search for a path.
pub const PAWN_RETRY_TIMER: u64 = 1_000_000_000;

/// The direction a pawn looks in.
#[derive(Clone, Copy, Debug, PartialEq, Eq, Hash, Structural)]
pub enum CharacterFacing {
    Forward,
    Right,
    Backward,
    Left,
}

/// Where a pawn is in its life cycle. A pawn has exactly one status.
#[derive(Clone, Copy, Debug, PartialEq, Eq, Hash, Structural)]
pub enum Status {
    Idle,
    Pathfinding,
    PathfindingError,
    Moving,
    Mining,
    Attacking,
}

/// The task a pawn is on, with the entity it is aimed at.
#[derive(Clone, Copy, Debug, PartialEq, Eq, Hash, Structural)]
pub enum WorkOrder {
    MineStone { stone_entity: EntityRef },
    ReturnToFactory,
    BuildItem { item_entity: EntityRef },
    AttackPawn { pawn_entity: EntityRef },
    AttackFactory,
}

/// What a pawn carries.
#[derive(Clone, Copy, Debug, PartialEq, Eq, Structural)]
pub struct CarriedResources(pub usize);

/// The body of a pawn: its path, its health and its timers.
#[derive(Debug)]
pub struct Pawn {
    pub move_path: VecDeque<GridCoord>,
    pub move_to: Option<GridCoord>,
    pub health: usize,
    pub max_health: usize,
    pub animation_timer: Timer,
    pub mine_timer: Timer,
    pub search_timer: Timer,
    pub retry_pathfinding_timer: Timer,
    pub moving: bool,
}

/// The body of a pawn as plain values.
pub struct PawnModel {
    pub move_path: Seq<GridCoord>,
    pub move_to: Option<GridCoord>,
    pub health: usize,
    pub max_health: usize,
    pub animation_timer: Timer,
    pub mine_timer: Timer,
    pub search_timer: Timer,
    pub retry_pathfinding_timer: Timer,
    pub moving: bool,
}

impl View for Pawn {
    type V = PawnModel;

    open spec fn view(&self) -> PawnModel {
        PawnModel {
            move_path: self.move_path@,
            move_to: self.move_to,
            health: self.health,
            max_health: self.max_health,
            animation_timer: self.animation_timer,
            mine_timer: self.mine_timer,
            search_timer: self.search_timer,
            retry_pathfinding_timer: self.retry_pathfinding_timer,
            moving: self.moving,
        }
    }
}

impl PawnModel {
    /// The body of a pawn that has just been spawned.
    pub open spec fn fresh() -> PawnModel {
        PawnModel {
            move_path: Seq::empty(),
            move_to: None,
            health: PAWN_HEALTH,
            max_health: PAWN_HEALTH,
            animation_timer: Timer {
                duration: PAWN_ANIMATION_TIMER,
                elapsed: 0,
                mode: TimerMode::Repeating,
                finished: false,
                times_finished_this_tick: 0,
            },
            mine_timer: Timer {
                duration: PAWN_MINE_TIMER,
                elapsed: 0,
                mode: TimerMode::Repeating,
                finished: false,
                times_finished_this_tick: 0,
            },
            search_timer: Timer {
                duration: PAWN_SEARCH_TIMER,
                elapsed: 0,
                mode: TimerMode::Repeating,
                finished: false,
                times_finished_this_tick: 0,
            },
            retry_pathfinding_timer: Timer {
                duration: PAWN_RETRY_TIMER,
                elapsed: 0,
                mode: TimerMode::Once,
                finished: false,
                times_finished_this_tick: 0,
            },
            moving: false,
        }
    }

    /// The body after `delta` nanoseconds: each of its timers advanced.
    pub open spec fn tick(self, delta: u64) -> PawnModel {
        PawnModel {
            animation_timer: self.animation_timer.spec_tick(delta),
            mine_timer: self.mine_timer.spec_tick(delta),
            search_timer: self.search_timer.spec_tick(delta),
            retry_pathfinding_timer: self.retry_pathfinding_timer.spec_tick(delta),
            ..self
        }
    }
}

impl Pawn {
    /// The body of a pawn that has just been spawned: in full health, at
    /// rest, with its timers at zero.
    pub fn new() -> (pawn: Pawn)
        ensures
            pawn@ == PawnModel::fresh(),
    {
        Pawn {
            move_path: VecDeque::new(),
            move_to: None,
            health: PAWN_HEALTH,
            max_health: PAWN_HEALTH,
            animation_timer: Timer::new(PAWN_ANIMATION_TIMER, TimerMode::Repeating),
            mine_timer: Timer::new(PAWN_MINE_TIMER, TimerMode::Repeating),
            search_timer: Timer::new(PAWN_SEARCH_TIMER, TimerMode::Repeating),
            retry_pathfinding_timer: Timer::new(PAWN_RETRY_TIMER, TimerMode::Once),
            moving: false,
        }
    }
}

/// A pawn as the simulation holds it.
#[derive(Debug)]
pub struct PawnBundle {
    pub entity: EntityRef,
    pub character_facing: CharacterFacing,
    pub pawn: Pawn,
    pub pawn_status: Status,
    pub work_order: Option<WorkOrder>,
    pub resources: CarriedResources,
    /// The tile the pawn stands on.
    pub tile: GridCoord,
    /// Whether the pawn belongs to the attackers.
    pub enemy: bool,
}

/// A pawn as plain values.
pub struct PawnBundleModel {
    pub entity: EntityRef,
    pub character_facing: CharacterFacing,
    pub pawn: PawnModel,
    pub pawn_status: Status,
    pub work_order: Option<WorkOrder>,
    pub resources: CarriedResources,
    pub tile: GridCoord,
    pub enemy: bool,
}

impl View for PawnBundle {
    type V = PawnBundleModel;

    open spec fn view(&self) -> PawnBundleModel {
        PawnBundleModel {
            entity: self.entity,
            character_facing: self.character_facing,
            pawn: self.pawn@,
            pawn_status: self.pawn_status,
            work_order: self.work_order,
            resources: self.resources,
            tile: self.tile,
            enemy: self.enemy,
        }
    }
}

impl PawnBundleModel {
    /// A pawn that has just been spawned on `tile`: idle, without an order,
    /// carrying nothing, looking left.
    pub open spec fn fresh(entity: EntityRef, tile: GridCoord, enemy: bool) -> PawnBundleModel {
        PawnBundleModel {
            entity,
            character_facing: CharacterFacing::Left,
            pawn: PawnModel::fresh(),
            pawn_status: Status::Idle,
            work_order: None,
            resources: CarriedResources(0),
            tile,
            enemy,
        }
    }

    /// Whether the pawn is on an order to mine a deposit.
    pub open spec fn mines(self) -> bool {
        self.work_order matches Some(WorkOrder::MineStone { .. })
    }

    /// Whether the pawn is on an order to attack another pawn.
    pub open spec fn attacks_pawn(self) -> bool {
        self.work_order matches Some(WorkOrder::AttackPawn { .. })
    }
}

/// A step that a pawn is to take: from the tile it stands on toward the
/// waypoint it is heading for.
#[derive(Clone, Copy, Debug, PartialEq, Eq, Structural)]
pub struct Movement {
    pub entity: EntityRef,
    pub from: GridCoord,
    pub toward: GridCoord,
}

/// The direction a pawn looks in after a step from `from` toward `toward`:
/// along the axis of the longer stretch, along the horizontal where both
/// are equal, and as before where the pawn stands on its waypoint.
pub open spec fn spec_facing(from: GridCoord, toward: GridCoord, before: CharacterFacing) -> CharacterFacing {
    if from == toward {
        before
    } else if crate::spec_abs_diff(from.x, toward.x) >= crate::spec_abs_diff(from.y, toward.y) {
        if toward.x > from.x {
            CharacterFacing::Right
        } else {
            CharacterFacing::Left
        }
    } else if toward.y > from.y {
        CharacterFacing::Backward
    } else {
        CharacterFacing::Forward
    }
}

/// The direction a pawn looks in after a step from `from` toward `toward`.
pub fn facing(from: GridCoord, toward: GridCoord, before: CharacterFacing) -> (after: CharacterFacing)
    ensures
        after == spec_facing(from, toward, before),
{
    if from == toward {
        return before;
    }
    let dx: usize = if from.x >= toward.x { from.x - toward.x } else { toward.x - from.x };
    let dy: usize = if from.y >= toward.y { from.y - toward.y } else { toward.y - from.y };
    if dx >= dy {
        if toward.x > from.x {
            CharacterFacing::Right
        } else {
            CharacterFacing::Left
        }
    } else if toward.y > from.y {
        CharacterFacing::Backward
    } else {
        CharacterFacing::Forward
    }
}

impl PawnModel {
    /// The body with the next waypoint taken off its path as the place to
    /// move to; with no place to move to where the path is at its end.
    pub open spec fn take_waypoint(self) -> PawnModel {
        if self.move_path.len() > 0 {
            PawnModel {
                move_to: Some(self.move_path[0]),
                move_path: self.move_path.drop_first(),
                ..self
            }
        } else {
            PawnModel { move_to: None, ..self }
        }
    }

    /// The body with a place to move to, taken off the path where it had
    /// none.
    pub open spec fn aimed(self) -> PawnModel {
        if self.move_to is None {
            self.take_waypoint()
        } else {
            self
        }
    }
}

impl PawnBundleModel {
    /// The step that the pawn takes in this tick, if it takes one: a pawn
    /// that is not striking heads for its next waypoint.
    pub open spec fn movement(self) -> Option<Movement> {
        if self.pawn_status == Status::Attacking {
            None
        } else {
            match self.pawn.aimed().move_to {
                Some(toward) => Some(Movement { entity: self.entity, from: self.tile, toward }),
                None => None,
            }
        }
    }

    /// The pawn after the movement system has seen it. A striking pawn
    /// stands still and forgets its path. Any other pawn heads for its next
    /// waypoint: with none left it comes to rest; else it moves, turns to
    /// where it is heading, and, standing on the waypoint, goes on to the
    /// one after.
    pub open spec fn walked(self) -> PawnBundleModel {
        if self.pawn_status == Status::Attacking {
            PawnBundleModel {
                pawn: PawnModel { moving: false, move_path: Seq::empty(), ..self.pawn },
                ..self
            }
        } else {
            let aimed = self.pawn.aimed();
            match aimed.move_to {
                None => PawnBundleModel { pawn: PawnModel { moving: false, ..aimed }, ..self },
                Some(toward) => {
                    let body = PawnModel { moving: true, ..aimed };
                    PawnBundleModel {
                        character_facing: spec_facing(self.tile, toward, self.character_facing),
                        pawn: if toward == self.tile {
                            body.take_waypoint()
                        } else {
                            body
                        },
                        ..self
                    }
                },
            }
        }
    }
}

impl Pawn {
    /// Takes the next waypoint off the path as the place to move to.
    pub fn take_waypoint(&mut self)
        ensures
            final(self)@ == old(self)@.take_waypoint(),
    {
        let next = self.move_path.pop_front();
        self.move_to = next;
    }
}

impl PawnBundle {
    /// Lets the pawn take its step of this tick, and returns the step for
    /// whoever moves the pawn.
    pub fn walk(&mut self) -> (step: Option<Movement>)
        ensures
            final(self)@ == old(self)@.walked(),
            step == old(self)@.movement(),
    {
        if self.pawn_status == Status::Attacking {
            self.pawn.moving = false;
            self.pawn.move_path.clear();
            return None;
        }
        if self.pawn.move_to.is_none() {
            self.pawn.take_waypoint();
        }
        match self.pawn.move_to {
            None => {
                self.pawn.moving = false;
                None
            },
            Some(toward) => {
                self.pawn.moving = true;
                self.character_facing = facing(self.tile, toward, self.character_facing);
                if toward == self.tile {
                    self.pawn.take_waypoint();
                }
                Some(Movement { entity: self.entity, from: self.tile, toward })
            },
        }
    }
}

/// How the health of a pawn is shown: not at all while it is whole, and
/// else by how much is left.
#[derive(Clone, Copy, Debug, PartialEq, Eq, Structural)]
pub enum HealthBand {
    Whole,
    Good,
    Fair,
    Poor,
    Critical,
}

/// The band that `health` out of `max_health` falls into.
pub open spec fn spec_health_band(health: usize, max_health: usize) -> HealthBand {
    if health == max_health {
        HealthBand::Whole
    } else if health > 75 {
        HealthBand::Good
    } else if health > 50 {
        HealthBand::Fair
    } else if health > 25 {
        HealthBand::Poor
    } else {
        HealthBand::Critical
    }
}

/// The frame of the walk cycle that follows `frame` for a pawn that looks
/// in `facing`: the sheet has four frames to each direction, a row apart; a
/// pawn at rest shows the first, and a moving pawn steps on a row whenever
/// the animation timer has run out, and back to the first from the last.
pub open spec fn spec_animation_frame(
    frame: usize,
    facing: CharacterFacing,
    moving: bool,
    timer_finished: bool,
) -> usize {
    if !moving {
        spec_facing_index(facing)
    } else if !timer_finished {
        frame
    } else if frame + 4 > 15 - spec_facing_index(facing) {
        spec_facing_index(facing)
    } else {
        (frame + 4) as usize
    }
}

/// The column of the pawn sheet that holds the frames of a direction.
pub open spec fn spec_facing_index(facing: CharacterFacing) -> usize {
    match facing {
        CharacterFacing::Forward => 0,
        CharacterFacing::Right => 1,
        CharacterFacing::Backward => 2,
        CharacterFacing::Left => 3,
    }
}

impl CharacterFacing {
    /// The column of the pawn sheet that holds the frames of the direction.
    pub fn index(self) -> (index: usize)
        ensures
            index == spec_facing_index(self),
    {
        match self {
            CharacterFacing::Forward => 0,
            CharacterFacing::Right => 1,
            CharacterFacing::Backward => 2,
            CharacterFacing::Left => 3,
        }
    }
}

/// A pawn is in exactly one of the six statuses.
pub proof fn lemma_status_exclusive(pawn: PawnBundleModel)
    ensures
        (if pawn.pawn_status is Idle { 1int } else { 0 })
            + (if pawn.pawn_status is Pathfinding { 1int } else { 0 })
            + (if pawn.pawn_status is PathfindingError { 1int } else { 0 })
            + (if pawn.pawn_status is Moving { 1int } else { 0 })
            + (if pawn.pawn_status is Mining { 1int } else { 0 })
            + (if pawn.pawn_status is Attacking { 1int } else { 0 }) == 1,
{
}

} // verus!
