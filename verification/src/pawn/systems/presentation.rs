//! How a pawn is to be shown: the band of its health and the frame of its
//! walk cycle.

use crate::pawn::components::spec_animation_frame;
use crate::pawn::components::spec_health_band;
use crate::pawn::components::CharacterFacing;
use crate::pawn::components::HealthBand;
use crate::pawn::components::Pawn;
use vstd::prelude::*;

verus! {

/// The band in which the health of `pawn` is to be shown.
pub fn update_health_ui(pawn: &Pawn) -> (band: HealthBand)
    ensures
        band == spec_health_band(pawn.health, pawn.max_health),
{
    if pawn.health == pawn.max_health {
        HealthBand::Whole
    } else if pawn.health > 75 {
        HealthBand::Good
    } else if pawn.health > 50 {
        HealthBand::Fair
    } else if pawn.health > 25 {
        HealthBand::Poor
    } else {
        HealthBand::Critical
    }
}

/// The frame of the walk cycle that follows `frame` for `pawn` when it
/// looks in `facing`.
pub fn update_pawn_animation(pawn: &Pawn, frame: usize, facing: CharacterFacing) -> (next: usize)
    ensures
        next == spec_animation_frame(frame, facing, pawn.moving, pawn.animation_timer.finished),
{
    let first = facing.index();
    if !pawn.moving {
        first
    } else if !pawn.animation_timer.finished() {
        frame
    } else if frame > 15 - first - 4 {
        first
    } else {
        frame + 4
    }
}

} // verus!
