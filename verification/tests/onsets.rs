use vj_copilot::onsets::{tempo_fft_size, OnsetHistory};

#[test]
fn keeps_onsets_at_least_twenty_frames_apart() {
    let mut onsets = OnsetHistory::new();
    assert!(onsets.record(100));
    assert!(!onsets.record(119));
    assert!(onsets.record(120));
    assert!(!onsets.record(50));
    assert_eq!(onsets.len(), 2);
}

#[test]
fn forgets_onsets_older_than_the_history() {
    let mut onsets = OnsetHistory::new();
    onsets.record(100);
    onsets.record(500);
    onsets.record(900);
    onsets.prune(900);
    assert_eq!(onsets.len(), 3);
    onsets.prune(901);
    assert_eq!(onsets.len(), 2);
    onsets.prune(2_000);
    assert_eq!(onsets.len(), 0);
    onsets.record(2_000);
    onsets.clear();
    assert_eq!(onsets.len(), 0);
}

#[test]
fn tempo_fft_size_follows_the_sample_rate() {
    assert_eq!(tempo_fft_size(0), 256);
    assert_eq!(tempo_fft_size(8_000), 512);
    assert_eq!(tempo_fft_size(44_100), 2_048);
    assert_eq!(tempo_fft_size(48_000), 2_048);
    assert_eq!(tempo_fft_size(96_000), 4_096);
    assert_eq!(tempo_fft_size(384_000), 4_096);
    for rate in [1_u32, 6_000, 6_145, 12_289, 44_100, 48_000, 96_000, 192_000] {
        let expected = (rate as usize / 24).next_power_of_two().clamp(256, 4096);
        assert_eq!(tempo_fft_size(rate), expected);
    }
}
