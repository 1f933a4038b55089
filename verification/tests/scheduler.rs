use plb::scheduler::{
    PLBScheduler, Phase, MIN_BALANCING_INTERVAL, MIN_CONSTRAINT_CHECK_INTERVAL,
    MIN_PLACEMENT_INTERVAL,
};
use plb::timestamp::Timestamp;
use time::{Duration, OffsetDateTime};

fn at(t: OffsetDateTime) -> Timestamp {
    Timestamp::from_unix_nanos(t.unix_timestamp_nanos())
}

#[test]
fn test_scheduling_phase() {
    let initial_timestamp = OffsetDateTime::now_utc();
    let mut scheduler = PLBScheduler::new(at(initial_timestamp));
    // Initially there should be no phase scheduled
    assert!(scheduler.get_current_phases(at(initial_timestamp)).is_empty());

    let time1 = initial_timestamp + Duration::new(1, 0);
    // No phase due
    assert!(scheduler.get_current_phases(at(time1)).is_empty());

    let time2 = initial_timestamp + Duration::nanoseconds(MIN_PLACEMENT_INTERVAL as i64);
    assert_eq!(vec![Phase::Placement], scheduler.get_current_phases(at(time2)));
}

fn t(nanos: i128) -> Timestamp {
    Timestamp::from_unix_nanos(nanos)
}

#[test]
fn the_minimum_intervals_are_three_ten_and_five_seconds() {
    assert_eq!(3_000_000_000, MIN_PLACEMENT_INTERVAL);
    assert_eq!(10_000_000_000, MIN_BALANCING_INTERVAL);
    assert_eq!(5_000_000_000, MIN_CONSTRAINT_CHECK_INTERVAL);
}

#[test]
fn a_phase_is_gated_until_its_interval_has_passed() {
    let t0: i128 = 1_000_000_000_000;
    let mut scheduler = PLBScheduler::new(t(t0 - MIN_PLACEMENT_INTERVAL));
    assert_eq!(vec![Phase::Placement], scheduler.get_current_phases(t(t0)));
    // one nanosecond before the interval is over, placement is not given again
    let phases = scheduler.get_current_phases(t(t0 + MIN_PLACEMENT_INTERVAL - 1));
    assert!(!phases.contains(&Phase::Placement));
    // at the interval it is
    let phases = scheduler.get_current_phases(t(t0 + MIN_PLACEMENT_INTERVAL));
    assert!(phases.contains(&Phase::Placement));
}

#[test]
fn a_selected_phase_has_last_run_at_the_time_of_selection() {
    let mut scheduler = PLBScheduler::new(t(0));
    let now = t(7_000_000_000);
    assert_eq!(
        vec![Phase::Placement, Phase::ConstraintCheck],
        scheduler.get_current_phases(now)
    );
    assert_eq!(now, scheduler.last_phase_time(Phase::Placement));
    assert_eq!(now, scheduler.last_phase_time(Phase::ConstraintCheck));
    // load balancing was not due and keeps its time
    assert_eq!(t(0), scheduler.last_phase_time(Phase::LoadBalancing));
}

#[test]
fn phases_come_in_priority_order() {
    let mut scheduler = PLBScheduler::default();
    assert_eq!(
        vec![Phase::Placement, Phase::LoadBalancing, Phase::ConstraintCheck],
        scheduler.get_current_phases(t(MIN_BALANCING_INTERVAL))
    );
    assert!(scheduler.get_current_phases(t(MIN_BALANCING_INTERVAL)).is_empty());
}

#[test]
fn the_default_scheduler_counts_from_the_epoch() {
    let mut scheduler = PLBScheduler::default();
    assert_eq!(Timestamp::unix_epoch(), scheduler.last_phase_time(Phase::Placement));
    assert!(scheduler.get_current_phases(t(MIN_PLACEMENT_INTERVAL - 1)).is_empty());
    assert_eq!(
        vec![Phase::Placement],
        scheduler.get_current_phases(t(MIN_PLACEMENT_INTERVAL))
    );
}

#[test]
fn reset_counts_every_phase_anew() {
    let mut scheduler = PLBScheduler::new(t(0));
    scheduler.reset(t(100_000_000_000));
    assert!(scheduler.get_current_phases(t(102_999_999_999)).is_empty());
    assert_eq!(
        vec![Phase::Placement],
        scheduler.get_current_phases(t(103_000_000_000))
    );
    assert_eq!(
        vec![Phase::ConstraintCheck],
        scheduler.get_current_phases(t(105_000_000_000))
    );
}

#[test]
fn set_last_phase_time_touches_one_phase() {
    let mut scheduler = PLBScheduler::new(t(0));
    scheduler.set_last_phase_time(t(50), Phase::LoadBalancing);
    assert_eq!(t(0), scheduler.last_phase_time(Phase::Placement));
    assert_eq!(t(50), scheduler.last_phase_time(Phase::LoadBalancing));
    assert_eq!(t(0), scheduler.last_phase_time(Phase::ConstraintCheck));
}

#[test]
fn a_clock_that_runs_back_makes_nothing_due() {
    let mut scheduler = PLBScheduler::new(t(i128::MAX));
    assert!(scheduler.get_current_phases(t(i128::MIN)).is_empty());
    let mut scheduler = PLBScheduler::new(t(i128::MIN));
    assert_eq!(
        vec![Phase::Placement, Phase::LoadBalancing, Phase::ConstraintCheck],
        scheduler.get_current_phases(t(i128::MAX))
    );
}

#[test]
fn timestamps_add_and_compare_over_the_integers() {
    assert_eq!(Some(t(5)), t(2).checked_add_nanos(3));
    assert_eq!(None, t(i128::MAX).checked_add_nanos(1));
    assert!(t(10).has_elapsed_since(t(7), 3));
    assert!(!t(10).has_elapsed_since(t(7), 4));
    assert!(t(i128::MAX).has_elapsed_since(t(-1), i128::MAX));
    assert!(!t(i128::MIN).has_elapsed_since(t(1), i128::MIN));
    assert_eq!(42, t(42).unix_nanos());
}
