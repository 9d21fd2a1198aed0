use fast_mass_spring::fps_counter::FPSCounter;
use fast_mass_spring::stats::{DemoLoopResult, Stats};
use std::time::Instant;

#[test]
fn not_updated_has_no_cost() {
    let result = DemoLoopResult::not_updated();
    assert!(!result.updated);
    assert_eq!(result.step_cost, 0);
    assert_eq!(result, DemoLoopResult { updated: false, step_cost: 0 });
}

#[test]
fn empty_stats_have_an_average_of_zero() {
    assert_eq!(Stats::new().avg_step_cost(), 0);
    assert_eq!(Stats::default().avg_step_cost(), 0);
}

#[test]
fn the_window_holds_the_latest_cost() {
    let mut stats = Stats::new();
    stats.add_step_cost(1_500_000);
    assert_eq!(stats.avg_step_cost(), 1_500_000);
    stats.add_step_cost(500_000);
    assert_eq!(stats.avg_step_cost(), 500_000);
    stats.add_step_cost(0);
    assert_eq!(stats.avg_step_cost(), 0);
    stats.add_step_cost(u128::MAX);
    assert_eq!(stats.avg_step_cost(), u128::MAX);
}

#[test]
fn a_new_counter_reports_zero() {
    assert_eq!(FPSCounter::new().fps(), 0);
    assert_eq!(FPSCounter::default().fps(), 0);
}

#[test]
fn frames_within_a_second_leave_the_rate_alone() {
    let mut counter = FPSCounter::new();
    for _ in 0..10 {
        counter.record_frame(Instant::now(), 999_999_999);
    }
    assert_eq!(counter.fps(), 0);
    counter.record_frame(Instant::now(), 1_000_000_000);
    assert_eq!(counter.fps(), 0);
}

#[test]
fn the_rate_is_frames_over_elapsed_seconds() {
    let mut counter = FPSCounter::new();
    for _ in 0..59 {
        counter.record_frame(Instant::now(), 500_000_000);
    }
    counter.record_frame(Instant::now(), 1_000_000_001);
    // 60 frames in a little more than a second
    assert_eq!(counter.fps(), 59);
    for _ in 0..119 {
        counter.record_frame(Instant::now(), 100);
    }
    counter.record_frame(Instant::now(), 2_000_000_000);
    assert_eq!(counter.fps(), 60);
}

#[test]
fn the_rate_stops_at_the_largest_value() {
    let mut counter = FPSCounter::new();
    for _ in 0..9 {
        counter.record_frame(Instant::now(), 0);
    }
    counter.record_frame(Instant::now(), 1_000_000_001);
    assert_eq!(counter.fps(), 9);
    let mut counter = FPSCounter::new();
    for _ in 0..100_000 {
        counter.record_frame(Instant::now(), 0);
    }
    counter.record_frame(Instant::now(), 1_000_000_001);
    assert_eq!(counter.fps(), 100_000);
}

#[test]
fn update_counts_frames_against_the_clock() {
    let mut counter = FPSCounter::new();
    for _ in 0..5 {
        counter.update();
    }
    // far less than a second has passed
    assert_eq!(counter.fps(), 0);
}
