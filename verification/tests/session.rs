use std::time::Duration;

use vj_copilot::clip::ClipId;
use vj_copilot::session::{
    analysis_status, beat_lamp_lit, tempo_status, CandidateSelection, PreviewCursor, ReadingState,
};

fn id(value: &str) -> ClipId {
    ClipId::new(value).unwrap()
}

#[test]
fn ranks_when_features_arrive_and_the_interval_allows() {
    let mut selection = CandidateSelection::new();
    assert!(!selection.ranking_due(Duration::ZERO, true, false));
    assert!(selection.ranking_due(Duration::ZERO, true, true));
    assert!(selection.apply_ranking(&[id("a.mp4")]));
    assert!(!selection.ranking_due(Duration::from_secs(1), true, true));
    assert!(!selection.ranking_due(Duration::from_secs(3), false, true));
    assert!(selection.ranking_due(Duration::from_secs(3), true, true));
}

#[test]
fn holding_stops_ranking_and_releasing_ranks_at_once() {
    let mut selection = CandidateSelection::new();
    assert!(selection.ranking_due(Duration::ZERO, true, true));
    selection.apply_ranking(&[id("a.mp4"), id("b.mp4")]);
    assert!(selection.select_slot(1));
    assert!(!selection.ranking_due(Duration::from_secs(5), true, true));
    selection.toggle_hold();
    assert!(!selection.candidates().is_held());
    assert!(selection.ranking_due(Duration::from_millis(5_001), false, true));
}

#[test]
fn status_line_follows_input_and_analysis() {
    assert_eq!(
        analysis_status(false, false, ReadingState::Audible, true, false),
        "入力を開始すると候補を提案します"
    );
    assert_eq!(
        analysis_status(true, false, ReadingState::Waiting, false, false),
        "音声待機中 — 音源の再生とデバイスを確認してください"
    );
    assert_eq!(
        analysis_status(false, true, ReadingState::Silent, true, true),
        "無音を検出: 候補を保持中"
    );
    assert_eq!(
        analysis_status(false, true, ReadingState::Audible, false, false),
        "有音入力を 1 秒分待機中"
    );
    assert_eq!(
        analysis_status(false, true, ReadingState::Audible, true, true),
        "候補を固定中"
    );
    assert_eq!(
        analysis_status(false, true, ReadingState::Audible, true, false),
        "候補を自動更新中"
    );
}

#[test]
fn tempo_badge_reads_waiting_stable_or_estimating() {
    assert_eq!(tempo_status(false, true), "入力待ち");
    assert_eq!(tempo_status(true, true), "安定");
    assert_eq!(tempo_status(true, false), "推定中");
}

#[test]
fn preview_loops_over_its_frames_and_restarts_on_a_new_clip() {
    let mut cursor = PreviewCursor::new();
    assert!(cursor.set_clip(Some(id("a.mp4"))));
    cursor.advance(45, 44);
    assert_eq!(cursor.frame_index(), 44);
    cursor.advance(45, 3);
    assert_eq!(cursor.frame_index(), 2);
    cursor.advance(45, usize::MAX);
    assert_eq!(cursor.frame_index(), (2 + usize::MAX % 45) % 45);
    cursor.advance(0, 9);
    assert!(!cursor.set_clip(Some(id("a.mp4"))));
    assert!(cursor.set_clip(None));
    assert_eq!(cursor.frame_index(), 0);
    assert!(cursor.clip_id().is_none());
}

#[test]
fn beat_lamp_is_lit_for_one_hundred_milliseconds_after_a_beat() {
    assert!(beat_lamp_lit(true, Some(1_000_000_000), 1_000_000_000));
    assert!(beat_lamp_lit(true, Some(1_000_000_000), 1_099_999_999));
    assert!(!beat_lamp_lit(true, Some(1_000_000_000), 1_100_000_000));
    assert!(beat_lamp_lit(true, Some(1_000_000_000), 900_000_000));
    assert!(!beat_lamp_lit(false, Some(1_000_000_000), 1_000_000_000));
    assert!(!beat_lamp_lit(true, None, 1_000_000_000));
}
