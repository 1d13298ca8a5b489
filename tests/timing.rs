use qsi::time::{Duration, TimeState, Timer};

#[test]
fn duration_arithmetic() {
    let a = Duration::from_millis(1500);
    let b = Duration::from_secs(1);
    assert_eq!(a.as_nanos(), 1_500_000_000);
    assert_eq!(a.saturating_sub(b).as_nanos(), 500_000_000);
    assert_eq!(b.saturating_sub(a).as_nanos(), 0);
    assert!(b.saturating_sub(a).is_zero());
    assert_eq!(a.saturating_add(b).as_nanos(), 2_500_000_000);
    assert_eq!(Duration::from_nanos(u64::MAX).saturating_add(b).as_nanos(), u64::MAX);
    assert!(Duration::zero().is_zero());
}

#[test]
fn time_state_records_frames() {
    let mut t = TimeState::new();
    assert_eq!(t.frame_count(), 0);
    assert!(t.is_first_frame());
    t.update_at(Duration::from_millis(16));
    assert_eq!(t.delta().as_nanos(), 16_000_000);
    assert_eq!(t.elapsed().as_nanos(), 16_000_000);
    assert!(t.is_first_frame());
    t.update_at(Duration::from_millis(50));
    assert_eq!(t.delta().as_nanos(), 34_000_000);
    assert_eq!(t.elapsed().as_nanos(), 50_000_000);
    assert_eq!(t.frame_count(), 2);
    assert!(!t.is_first_frame());
    assert_eq!(t.average_frame_time().as_nanos(), 25_000_000);
}

#[test]
fn time_state_delta_is_zero_for_earlier_reading() {
    let mut t = TimeState::new();
    t.update_at(Duration::from_millis(40));
    t.update_at(Duration::from_millis(10));
    assert_eq!(t.delta().as_nanos(), 0);
    assert_eq!(t.elapsed().as_nanos(), 10_000_000);
}

#[test]
fn time_state_history_keeps_latest_sixty() {
    let mut t = TimeState::new();
    for i in 1..=70u64 {
        t.update_at(Duration::from_millis(10 * i));
    }
    let h = t.frame_time_history();
    assert_eq!(h.len(), 60);
    assert!(h.iter().all(|d| d.as_nanos() == 10_000_000));
    assert_eq!(t.average_frame_time().as_nanos(), 10_000_000);
}

#[test]
fn time_state_empty_history_average_is_zero() {
    let t = TimeState::new();
    assert_eq!(t.average_frame_time().as_nanos(), 0);
    assert!(t.frame_time_history().is_empty());
}

#[test]
fn time_state_reset_clears() {
    let mut t = TimeState::new();
    t.update_at(Duration::from_millis(5));
    t.update();
    t.reset();
    assert_eq!(t.frame_count(), 0);
    assert!(t.delta().is_zero());
    assert!(t.elapsed().is_zero());
    assert!(t.frame_time_history().is_empty());
}

#[test]
fn time_state_update_reads_clock() {
    let mut t = TimeState::new();
    t.update();
    t.update();
    assert_eq!(t.frame_count(), 2);
    assert_eq!(t.frame_time_history().len(), 2);
}

#[test]
fn one_shot_timer_fires_once() {
    let mut t = Timer::once(Duration::from_millis(100));
    assert!(!t.tick(Duration::from_millis(60)));
    assert_eq!(t.remaining().as_nanos(), 40_000_000);
    assert!(!t.just_finished());
    assert!(t.tick(Duration::from_millis(60)));
    assert!(t.just_finished());
    assert_eq!(t.remaining().as_nanos(), 0);
    assert!(!t.tick(Duration::from_millis(60)));
    assert!(t.just_finished());
    assert_eq!(t.elapsed().as_nanos(), 120_000_000);
}

#[test]
fn repeating_timer_starts_over() {
    let mut t = Timer::repeating(Duration::from_millis(100));
    assert!(t.tick(Duration::from_millis(100)));
    assert!(!t.just_finished());
    assert!(t.elapsed().is_zero());
    assert!(!t.tick(Duration::from_millis(30)));
    assert_eq!(t.remaining().as_nanos(), 70_000_000);
    assert!(t.tick(Duration::from_millis(80)));
}

#[test]
fn timer_reset_goes_back_to_zero() {
    let mut t = Timer::new(Duration::from_millis(10), false);
    assert!(t.tick(Duration::from_millis(20)));
    t.reset();
    assert!(!t.just_finished());
    assert!(t.elapsed().is_zero());
    assert_eq!(t.duration().as_nanos(), 10_000_000);
    assert!(t.tick(Duration::from_millis(10)));
}

#[test]
fn zero_length_timer_fires_on_first_tick() {
    let mut t = Timer::once(Duration::zero());
    assert!(t.tick(Duration::zero()));
}
