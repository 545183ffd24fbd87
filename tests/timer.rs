use clicker_engine::timer::{CooldownTimer, PRODUCER_COOLDOWN};

#[test]
fn timer_counts_to_its_duration_and_stops() {
    let mut t = CooldownTimer::new(100);
    assert!(!t.finished());
    t.tick(40);
    assert_eq!(t.elapsed, 40);
    assert!(!t.finished());
    t.tick(60);
    assert!(t.finished());
    t.tick(u64::MAX);
    assert_eq!(t.elapsed, 100);
    assert!(t.finished());
}

#[test]
fn timer_reset_starts_over() {
    let mut t = CooldownTimer::producer();
    assert_eq!(t.duration, PRODUCER_COOLDOWN);
    t.tick(PRODUCER_COOLDOWN);
    assert!(t.finished());
    t.reset();
    assert_eq!(t.elapsed, 0);
    assert!(!t.finished());
}

#[test]
fn timer_progress_fraction() {
    let mut t = CooldownTimer::new(200);
    assert_eq!(t.progress(), (0, 200));
    t.tick(50);
    assert_eq!(t.progress(), (50, 200));
    t.tick(500);
    assert_eq!(t.progress(), (200, 200));
    let z = CooldownTimer::new(0);
    assert!(z.finished());
    assert_eq!(z.progress(), (1, 1));
}
