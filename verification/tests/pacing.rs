use spectrum_cast::pacing::{frame_interval, FramePacer, NANOS_PER_SECOND};

#[test]
fn interval_is_a_second_over_the_rate() {
    assert_eq!(NANOS_PER_SECOND, 1_000_000_000);
    assert_eq!(frame_interval(1), 1_000_000_000);
    assert_eq!(frame_interval(1000), 1_000_000);
    assert_eq!(frame_interval(1_000_000_000), 1);
}

#[test]
fn interval_is_rounded_up() {
    // A second over 120 is 8_333_333.33 ns: anything less than 8_333_334 is too soon.
    assert_eq!(frame_interval(120), 8_333_334);
    assert_eq!(frame_interval(60), 16_666_667);
    assert_eq!(frame_interval(3), 333_333_334);
    assert_eq!(frame_interval(1_000_000_001), 1);
    assert_eq!(frame_interval(u32::MAX), 1);
}

#[test]
fn interval_times_rate_covers_a_second() {
    for rate in [1u32, 7, 24, 30, 60, 120, 144, 999, 48_000, u32::MAX] {
        let interval: u64 = frame_interval(rate);
        assert!(u128::from(interval) * u128::from(rate) >= 1_000_000_000);
        assert!(u128::from(interval - 1) * u128::from(rate) < 1_000_000_000);
    }
}

#[test]
fn pacer_waits_for_the_interval() {
    let pacer = FramePacer::new(1000, 5000);
    assert_eq!(pacer.interval(), 1000);
    assert_eq!(pacer.last_frame(), 5000);
    assert!(!pacer.is_due(5000));
    assert!(!pacer.is_due(5999));
    assert!(pacer.is_due(6000));
    assert!(pacer.is_due(u64::MAX));
}

#[test]
fn clock_that_runs_back_is_no_time_passed() {
    let pacer = FramePacer::new(1000, 5000);
    assert!(!pacer.is_due(0));
    assert!(!pacer.is_due(4999));
    let eager = FramePacer::new(0, 5000);
    assert!(eager.is_due(0));
}

#[test]
fn mark_starts_the_interval_anew() {
    let mut pacer = FramePacer::new(1000, 0);
    assert!(pacer.is_due(1500));
    pacer.mark(1500);
    assert_eq!(pacer.last_frame(), 1500);
    assert_eq!(pacer.interval(), 1000);
    assert!(!pacer.is_due(2499));
    assert!(pacer.is_due(2500));
}
