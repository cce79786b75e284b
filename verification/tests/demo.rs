use vj_copilot::demo::{demo_beat_offset, demo_segment, DemoSegment, DEMO_BEAT_SAMPLES};

#[test]
fn demo_signal_changes_every_five_seconds_and_repeats() {
    assert_eq!(demo_segment(0), DemoSegment::LowQuiet);
    assert_eq!(demo_segment(239_999), DemoSegment::LowQuiet);
    assert_eq!(demo_segment(240_000), DemoSegment::HighQuiet);
    assert_eq!(demo_segment(480_000), DemoSegment::LowLoud);
    assert_eq!(demo_segment(720_000), DemoSegment::HighLoud);
    assert_eq!(demo_segment(960_000), DemoSegment::LowQuiet);
}

#[test]
fn demo_signal_pulses_at_one_hundred_twenty_beats_per_minute() {
    assert_eq!(DEMO_BEAT_SAMPLES, 24_000);
    assert_eq!(demo_beat_offset(0), 0);
    assert_eq!(demo_beat_offset(23_999), 23_999);
    assert_eq!(demo_beat_offset(24_000), 0);
    assert_eq!(demo_beat_offset(48_001), 1);
}
