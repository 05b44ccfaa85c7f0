use colony_sim::timer::{Timer, TimerMode};

#[test]
fn new_timer_has_not_finished() {
    let timer = Timer::new(1_000, TimerMode::Once);
    assert!(!timer.finished());
    assert!(!timer.just_finished());
    assert_eq!(timer.elapsed, 0);
    assert_eq!(timer.duration, 1_000);
}

#[test]
fn one_shot_timer_finishes_at_its_duration_and_stays_finished() {
    let mut timer = Timer::new(1_000, TimerMode::Once);
    timer.tick(999);
    assert!(!timer.finished());
    assert_eq!(timer.elapsed, 999);
    timer.tick(1);
    assert!(timer.finished());
    assert!(timer.just_finished());
    assert_eq!(timer.elapsed, 1_000);
    timer.tick(500);
    assert!(timer.finished());
    assert!(!timer.just_finished());
    assert_eq!(timer.elapsed, 1_000);
}

#[test]
fn one_shot_timer_stops_at_its_duration() {
    let mut timer = Timer::new(1_000, TimerMode::Once);
    timer.tick(1_500);
    assert!(timer.finished());
    assert_eq!(timer.elapsed, 1_000);
    assert_eq!(timer.times_finished_this_tick, 1);
}

#[test]
fn reset_starts_a_one_shot_timer_over() {
    let mut timer = Timer::new(1_000, TimerMode::Once);
    timer.tick(2_000);
    timer.reset();
    assert!(!timer.finished());
    assert!(!timer.just_finished());
    assert_eq!(timer.elapsed, 0);
    assert_eq!(timer.duration, 1_000);
    timer.tick(999);
    assert!(!timer.finished());
    timer.tick(1);
    assert!(timer.finished());
}

#[test]
fn repeating_timer_is_finished_for_one_tick_and_keeps_the_rest() {
    let mut timer = Timer::new(1_000, TimerMode::Repeating);
    timer.tick(600);
    assert!(!timer.finished());
    timer.tick(600);
    assert!(timer.finished());
    assert!(timer.just_finished());
    assert_eq!(timer.elapsed, 200);
    assert_eq!(timer.times_finished_this_tick, 1);
    timer.tick(100);
    assert!(!timer.finished());
    assert!(!timer.just_finished());
    assert_eq!(timer.elapsed, 300);
}

#[test]
fn repeating_timer_counts_the_rounds_of_a_long_tick() {
    let mut timer = Timer::new(1_000, TimerMode::Repeating);
    timer.tick(3_500);
    assert!(timer.finished());
    assert_eq!(timer.times_finished_this_tick, 3);
    assert_eq!(timer.elapsed, 500);
}

#[test]
fn repeating_timer_without_duration_finishes_on_every_tick() {
    let mut timer = Timer::new(0, TimerMode::Repeating);
    timer.tick(5);
    assert!(timer.finished());
    assert_eq!(timer.elapsed, 0);
    assert_eq!(timer.times_finished_this_tick, u32::MAX);
}

#[test]
fn long_ticks_do_not_overflow() {
    let mut once = Timer::new(u64::MAX, TimerMode::Once);
    once.tick(u64::MAX - 1);
    assert!(!once.finished());
    once.tick(u64::MAX);
    assert!(once.finished());
    assert_eq!(once.elapsed, u64::MAX);
    let mut repeating = Timer::new(10, TimerMode::Repeating);
    repeating.tick(9);
    repeating.tick(u64::MAX);
    assert!(repeating.finished());
    assert_eq!(repeating.elapsed, 4);
    assert_eq!(repeating.times_finished_this_tick, 2576980378);
}

#[test]
fn rounds_of_a_repeating_timer_are_counted_in_thirty_two_bits() {
    let mut timer = Timer::new(1, TimerMode::Repeating);
    timer.tick(0x1_0000_0003);
    assert!(timer.finished());
    assert_eq!(timer.times_finished_this_tick, 3);
    assert_eq!(timer.elapsed, 0);
    timer.tick(0x1_0000_0000);
    assert!(timer.finished());
    assert_eq!(timer.times_finished_this_tick, 0);
    assert!(!timer.just_finished());
}

#[test]
fn one_shot_timer_without_duration_finishes_at_once() {
    let mut timer = Timer::new(0, TimerMode::Once);
    timer.tick(0);
    assert!(timer.finished());
    assert_eq!(timer.times_finished_this_tick, 1);
    assert_eq!(timer.elapsed, 0);
}
