use wsta::ping::{run_schedule, PingScheduler};

#[test]
fn ping_scenario_three_intervals_three_pings() {
    // Interval of 1 time unit, over 3 intervals of elapsed time:
    // exactly 3 pings, each at least one interval after the previous.
    let mut sched = PingScheduler::new(Some(1), 0);
    let mut fired_at: Vec<u64> = Vec::new();
    for now in [1u64, 2, 3] {
        if sched.check(now) {
            fired_at.push(now);
        }
    }
    assert_eq!(fired_at, vec![1u64, 2, 3]);
}

#[test]
fn absent_interval_never_fires() {
    let mut sched = PingScheduler::new(None, 0);
    for now in 0u64..100 {
        assert!(!sched.check(now));
    }
}

#[test]
fn ping_fires_on_the_first_tick_at_or_past_the_interval() {
    // Interval 4, tick quantum 1: fires at 4, 8, 12 — drift stays under
    // one quantum and consecutive fires are at least one interval apart.
    let mut sched = PingScheduler::new(Some(4), 0);
    let mut fired_at: Vec<u64> = Vec::new();
    for now in 1u64..=12 {
        if sched.check(now) {
            fired_at.push(now);
        }
    }
    assert_eq!(fired_at, vec![4u64, 8, 12]);
}

#[test]
fn a_whole_run_fires_at_the_expected_times() {
    // Interval 2, ticks at 1..=7: fires at 2, 4, 6, each two apart.
    let mut sched = PingScheduler::new(Some(2), 0);
    let fired = run_schedule(&mut sched, &vec![1u64, 2, 3, 4, 5, 6, 7]);
    assert_eq!(fired, vec![2u64, 4, 6]);

    let mut disabled = PingScheduler::new(None, 0);
    let fired = run_schedule(&mut disabled, &vec![1u64, 2, 3]);
    assert!(fired.is_empty());
}

#[test]
fn last_sent_resets_to_fire_time_not_to_the_boundary() {
    // Interval 3, but a tick lands late at 5: the next ping is measured
    // from 5, so it fires at 8, not at 6.
    let mut sched = PingScheduler::new(Some(3), 0);
    assert!(!sched.check(2));
    assert!(sched.check(5));
    assert!(!sched.check(6));
    assert!(!sched.check(7));
    assert!(sched.check(8));
}
