use vj_copilot::capture::{CaptureContinuity, CaptureMonitor, ReadingFreshness, INPUT_IDLE_TIMEOUT_NANOS};

#[test]
fn lost_samples_or_a_paused_callback_reset_the_tempo_history() {
    let mut continuity = CaptureContinuity::default();
    let now = 1_000;
    assert!(!continuity.discontinuous(0, now));
    assert!(!continuity.discontinuous(1, now));
    assert!(continuity.discontinuous(4, now));
    assert!(!continuity.discontinuous(5, now));
    assert!(continuity.discontinuous(6, now + INPUT_IDLE_TIMEOUT_NANOS));
}

#[test]
fn sequence_numbers_wrap_around() {
    let mut continuity = CaptureContinuity::default();
    assert!(!continuity.discontinuous(u64::MAX, 0));
    assert!(!continuity.discontinuous(0, 10));
}

#[test]
fn analysis_restarts_after_a_silent_pause() {
    let mut monitor = CaptureMonitor::new();
    assert!(!monitor.waited(5_000_000_000));
    assert!(!monitor.sample_arrived(0, 0));
    monitor.sample_analyzed(false, 100);
    assert!(!monitor.waited(100 + INPUT_IDLE_TIMEOUT_NANOS - 1));
    assert!(monitor.waited(100 + INPUT_IDLE_TIMEOUT_NANOS));
    assert!(!monitor.waited(100 + 3 * INPUT_IDLE_TIMEOUT_NANOS));
    assert!(monitor.sample_arrived(7, 1));
}

#[test]
fn readings_go_dark_when_none_arrived_for_the_idle_timeout() {
    let mut freshness = ReadingFreshness::new();
    assert_eq!(freshness.last_reading_at(), None);
    assert!(!freshness.expire(5_000_000_000));

    assert!(freshness.record(1_000_000_000, 1_100_000_000));
    assert_eq!(freshness.last_reading_at(), Some(1_000_000_000));
    assert!(!freshness.expire(1_100_000_000));
    assert!(!freshness.expire(1_000_000_000 + INPUT_IDLE_TIMEOUT_NANOS - 1));
    assert_eq!(freshness.last_reading_at(), Some(1_000_000_000));
    assert!(freshness.expire(1_000_000_000 + INPUT_IDLE_TIMEOUT_NANOS));
    assert_eq!(freshness.last_reading_at(), None);
}

#[test]
fn a_reading_that_is_already_too_old_is_dropped() {
    let mut freshness = ReadingFreshness::new();
    assert!(freshness.record(2_000_000_000, 2_000_000_000));
    assert!(!freshness.record(1_000_000_000, 1_000_000_000 + INPUT_IDLE_TIMEOUT_NANOS));
    assert_eq!(freshness.last_reading_at(), Some(2_000_000_000));
    // A reading stamped after the display time counts as just arrived.
    assert!(freshness.record(3_000_000_000, 2_500_000_000));
    assert_eq!(freshness.last_reading_at(), Some(3_000_000_000));
    freshness.clear();
    assert_eq!(freshness.last_reading_at(), None);
}
