use std::time::Duration;

use vj_copilot::refresh::CandidateRefresh;

#[test]
fn refreshes_immediately_then_every_two_seconds_without_waiting() {
    let mut refresh = CandidateRefresh::default();

    assert!(refresh.due_at(Duration::ZERO));
    assert!(!refresh.due_at(Duration::from_millis(1_999)));
    assert!(refresh.due_at(Duration::from_millis(2_000)));
}

#[test]
fn reset_makes_the_next_check_due() {
    let mut refresh = CandidateRefresh::default();
    assert!(refresh.due_at(Duration::from_secs(10)));
    assert!(!refresh.due_at(Duration::from_secs(11)));
    refresh.reset();
    assert!(refresh.due_at(Duration::from_secs(11)));
}

#[test]
fn an_earlier_time_is_never_due() {
    let mut refresh = CandidateRefresh::default();
    assert!(refresh.due_at(Duration::from_secs(10)));
    assert!(!refresh.due_at(Duration::from_secs(1)));
    assert!(refresh.due_at(Duration::from_nanos(12_000_000_000)));
}
