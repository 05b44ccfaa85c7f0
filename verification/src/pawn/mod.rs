//! Pawns: their components, and the systems that move them through their
//! life cycle.

use crate::timer::Timer;
use crate::timer::TimerMode;
use vstd::prelude::*;

pub mod components;
pub mod systems;

verus! {

/// Nanoseconds between two waves of attackers.
pub const ENEMY_WAVE_TIMER: u64 = 30_000_000_000;

/// The phases in which the pawn systems run.
#[derive(Clone, Copy, Debug, PartialEq, Eq, Hash, Structural)]
pub enum PawnSystemSet {
    Move,
    Work,
    Pathfind,
    Attack,
}

/// A request to buy one more pawn.
#[derive(Clone, Copy, Debug, PartialEq, Eq, Structural)]
pub struct SpawnPawnRequestEvent;

/// The waves of attackers: how many have come, and when the next is due.
#[derive(Clone, Copy, Debug, PartialEq, Eq, Structural)]
pub struct EnemyWave {
    pub wave: usize,
    pub enemy_count_multiplier: usize,
    pub enemy_spawn_timer: Timer,
}

impl EnemyWave {
    /// The waves after `delta` nanoseconds: the timer has advanced, and one
    /// more wave is counted where the timer has run out.
    pub open spec fn spec_tick(self, delta: u64) -> EnemyWave {
        let timer = self.enemy_spawn_timer.spec_tick(delta);
        EnemyWave {
            wave: if timer.times_finished_this_tick > 0 && self.wave < usize::MAX {
                (self.wave + 1) as usize
            } else {
                self.wave
            },
            enemy_spawn_timer: timer,
            ..self
        }
    }

    /// The attackers that come after `delta` nanoseconds: none while the
    /// timer runs, and the number of the new wave times the multiplier,
    /// capped at `usize::MAX`, when it has run out.
    pub open spec fn spec_due(self, delta: u64) -> usize {
        let after = self.spec_tick(delta);
        if after.enemy_spawn_timer.times_finished_this_tick == 0 {
            0
        } else if after.wave * after.enemy_count_multiplier > usize::MAX {
            usize::MAX
        } else {
            (after.wave * after.enemy_count_multiplier) as usize
        }
    }

    /// Advances the timer by `delta` nanoseconds and returns the number of
    /// attackers that come now.
    pub fn tick(&mut self, delta: u64) -> (due: usize)
        ensures
            *final(self) == old(self).spec_tick(delta),
            due == old(self).spec_due(delta),
    {
        self.enemy_spawn_timer.tick(delta);
        if !self.enemy_spawn_timer.just_finished() {
            return 0;
        }
        if self.wave < usize::MAX {
            self.wave = self.wave + 1;
        }
        let wave = self.wave;
        let multiplier = self.enemy_count_multiplier;
        if multiplier != 0 && wave > usize::MAX / multiplier {
            assert(wave * multiplier > usize::MAX) by (nonlinear_arith)
                requires
                    multiplier > 0,
                    wave > usize::MAX / multiplier,
            ;
            usize::MAX
        } else {
            assert(wave * multiplier <= usize::MAX) by (nonlinear_arith)
                requires
                    multiplier == 0 || wave <= usize::MAX / multiplier,
                    wave >= 0,
                    multiplier >= 0,
            ;
            wave * multiplier
        }
    }

    /// The state before the first wave.
    pub open spec fn initial() -> EnemyWave {
        EnemyWave {
            wave: 0,
            enemy_count_multiplier: 1,
            enemy_spawn_timer: Timer {
                duration: ENEMY_WAVE_TIMER,
                elapsed: 0,
                mode: TimerMode::Repeating,
                finished: false,
                times_finished_this_tick: 0,
            },
        }
    }
}

impl Default for EnemyWave {
    fn default() -> (wave: EnemyWave)
        ensures
            wave == EnemyWave::initial(),
    {
        EnemyWave {
            wave: 0,
            enemy_count_multiplier: 1,
            enemy_spawn_timer: Timer::new(ENEMY_WAVE_TIMER, TimerMode::Repeating),
        }
    }
}

} // verus!
