use basic_movement::timer::IntervalTimer;

#[test]
fn new_timer_has_gathered_nothing() {
    let timer = IntervalTimer::new(2000);
    assert_eq!(timer.interval(), 2000);
    assert_eq!(timer.elapsed(), 0);
}

#[test]
fn timer_stays_quiet_below_the_interval() {
    let mut timer = IntervalTimer::new(2000);
    assert!(!timer.tick(500));
    assert!(!timer.tick(700));
    assert!(!timer.tick(799));
    assert_eq!(timer.elapsed(), 1999);
}

#[test]
fn timer_fires_when_the_interval_is_reached_exactly() {
    let mut timer = IntervalTimer::new(2000);
    assert!(!timer.tick(1000));
    assert!(timer.tick(1000));
    assert_eq!(timer.elapsed(), 0);
}

#[test]
fn timer_drops_the_overshoot_on_firing() {
    let mut timer = IntervalTimer::new(2000);
    assert!(timer.tick(3500));
    assert_eq!(timer.elapsed(), 0);
    // Had the 1500 beyond the interval been carried over, this would fire.
    assert!(!timer.tick(1999));
    assert_eq!(timer.elapsed(), 1999);
    assert!(timer.tick(1));
    assert_eq!(timer.elapsed(), 0);
}

#[test]
fn timer_fires_at_most_once_per_tick() {
    let mut timer = IntervalTimer::new(2000);
    assert!(timer.tick(10_000));
    assert!(!timer.tick(0));
    assert_eq!(timer.elapsed(), 0);
}

#[test]
fn timer_repeats() {
    let mut timer = IntervalTimer::new(3);
    let fired: Vec<bool> = (0..9).map(|_| timer.tick(1)).collect();
    assert_eq!(fired, vec![false, false, true, false, false, true, false, false, true]);
}

#[test]
fn timer_saturates_instead_of_overflowing() {
    let mut timer = IntervalTimer::new(u64::MAX);
    assert!(!timer.tick(u64::MAX - 1));
    assert_eq!(timer.elapsed(), u64::MAX - 1);
    assert!(timer.tick(u64::MAX));
    assert_eq!(timer.elapsed(), 0);
}

#[test]
fn timer_with_zero_interval_fires_on_every_tick() {
    let mut timer = IntervalTimer::new(0);
    assert!(timer.tick(0));
    assert!(timer.tick(5));
    assert_eq!(timer.elapsed(), 0);
}

#[test]
fn zero_elapsed_time_changes_nothing() {
    let mut timer = IntervalTimer::new(2000);
    assert!(!timer.tick(1500));
    assert!(!timer.tick(0));
    assert_eq!(timer.elapsed(), 1500);
}
