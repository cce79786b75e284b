use vj_copilot::media::{
    ffmpeg_message, is_direct_file_name, is_own_final_component, plan_manifest,
    plan_manifest_with, shortfall_notice, split_frames, summarize_message, ManifestNotice, ManifestRecord,
    PreviewError, FRAME_BYTES, MAX_VIDEO_FRAMES,
};

#[test]
fn accepts_only_a_direct_filename_in_manifest_entries() {
    assert!(is_direct_file_name("clip.mp4"));
    assert!(!is_direct_file_name("nested/clip.mp4"));
    assert!(!is_direct_file_name(""));
}

#[test]
fn compares_a_file_with_its_final_component() {
    assert!(is_own_final_component("clip.mp4", Some("clip.mp4".to_owned())));
    assert!(!is_own_final_component("a/clip.mp4", Some("clip.mp4".to_owned())));
    assert!(!is_own_final_component("..", None));
}

fn record(file: &str, features_ok: bool) -> ManifestRecord {
    ManifestRecord {
        file: file.to_owned(),
        features_ok,
    }
}

fn strings(names: &[&str]) -> Vec<String> {
    names.iter().map(|name| name.to_string()).collect()
}

#[test]
fn plans_clips_sorted_by_name_with_a_notice_per_refused_entry() {
    let entries = vec![
        record("b.mp4", true),
        record("nested/x.mp4", true),
        record("a.mp4", true),
        record("b.mp4", true),
        record("missing.mp4", true),
        record("bad.mp4", false),
        record("  ", true),
    ];
    let direct = vec![true, false, true, true, true, true, true];
    let mp4 = strings(&["  ", "a.mp4", "b.mp4", "bad.mp4", "extra.mp4"]);
    let plan = plan_manifest_with(&entries, &direct, &mp4);
    let accepted: Vec<(usize, &str)> = plan
        .accepted
        .iter()
        .map(|clip| (clip.entry, clip.id.as_str()))
        .collect();
    assert_eq!(accepted, vec![(2, "a.mp4"), (0, "b.mp4")]);
    assert_eq!(
        plan.notices,
        vec![
            ManifestNotice::NotDirectFileName { entry: 1 },
            ManifestNotice::DuplicateFile { entry: 3 },
            ManifestNotice::MissingMp4 { entry: 4 },
            ManifestNotice::InvalidFeatures { entry: 5 },
            ManifestNotice::InvalidClipId { entry: 6 },
            ManifestNotice::UnreferencedMp4 { file: 4 },
        ]
    );
}

#[test]
fn keeps_the_first_eight_clips_by_name() {
    let names = [
        "j.mp4", "i.mp4", "h.mp4", "g.mp4", "f.mp4", "e.mp4", "d.mp4", "c.mp4", "b.mp4", "a.mp4",
    ];
    let entries: Vec<ManifestRecord> = names.iter().map(|name| record(name, true)).collect();
    let mp4 = strings(&names);
    let plan = plan_manifest(&entries, &mp4);
    let accepted: Vec<&str> = plan.accepted.iter().map(|clip| clip.id.as_str()).collect();
    assert_eq!(
        accepted,
        vec!["a.mp4", "b.mp4", "c.mp4", "d.mp4", "e.mp4", "f.mp4", "g.mp4", "h.mp4"]
    );
    assert_eq!(plan.notices, vec![ManifestNotice::TooManyClips { excluded: 2 }]);
}

#[test]
fn reports_when_no_clip_is_valid() {
    let plan = plan_manifest(&[], &strings(&["a.mp4"]));
    assert!(plan.accepted.is_empty());
    assert_eq!(
        plan.notices,
        vec![
            ManifestNotice::UnreferencedMp4 { file: 0 },
            ManifestNotice::NoValidClips,
        ]
    );
}

#[test]
fn splits_raw_video_into_whole_frames() {
    let mut output = vec![0_u8; FRAME_BYTES * 2 + 10];
    output[FRAME_BYTES] = 7;
    let frames = split_frames(&output).unwrap();
    assert_eq!(frames.len(), 2);
    assert_eq!(frames[0].rgba.len(), FRAME_BYTES);
    assert_eq!(frames[1].rgba[0], 7);
}

#[test]
fn keeps_at_most_the_preview_length_of_frames() {
    let output = vec![1_u8; FRAME_BYTES * (MAX_VIDEO_FRAMES + 3)];
    assert_eq!(split_frames(&output).unwrap().len(), MAX_VIDEO_FRAMES);
    assert_eq!(MAX_VIDEO_FRAMES, 45);
}

#[test]
fn refuses_output_without_a_whole_frame() {
    assert_eq!(
        split_frames(&vec![0_u8; FRAME_BYTES - 1]).unwrap_err(),
        PreviewError::NoFrames
    );
}

#[test]
fn summarizes_error_output_into_single_spaced_words() {
    assert_eq!(summarize_message("  error:\n  bad\tinput  "), "error: bad input");
    assert_eq!(summarize_message(" \n "), "詳細はありません");
    let long = "x".repeat(300);
    assert_eq!(summarize_message(&long).chars().count(), 240);
}

#[test]
fn decodes_ffmpeg_output_before_summarizing() {
    assert_eq!(ffmpeg_message(b"No such file\r\n"), "No such file");
    assert_eq!(ffmpeg_message(b"bad \xff byte"), "bad \u{FFFD} byte");
    assert_eq!(ffmpeg_message(b""), "詳細はありません");
}

#[test]
fn reports_fewer_clips_than_preview_slots() {
    assert_eq!(shortfall_notice(0), Some(ManifestNotice::FewClips { count: 0 }));
    assert_eq!(shortfall_notice(3), Some(ManifestNotice::FewClips { count: 3 }));
    assert_eq!(shortfall_notice(4), None);
    assert_eq!(shortfall_notice(8), None);
}

#[test]
fn plain_file_names_are_direct_names() {
    assert!(is_direct_file_name("a.mp4"));
    assert!(is_direct_file_name("loop 01.MP4"));
    assert!(is_direct_file_name(".hidden.mp4"));
    assert!(!is_direct_file_name("."));
    assert!(!is_direct_file_name(""));
    assert!(!is_direct_file_name("clips/a.mp4"));
}

#[test]
fn plan_manifest_accepts_plain_names_and_gives_each_refused_entry_one_notice() {
    let entries = vec![
        record("b.mp4", true),
        record("../a.mp4", true),
        record("b.mp4", true),
        record("c.mp4", false),
        record("a.mp4", true),
    ];
    let plan = plan_manifest(&entries, &strings(&["a.mp4", "b.mp4", "c.mp4", "d.mp4"]));
    let ids: Vec<&str> = plan.accepted.iter().map(|clip| clip.id.as_str()).collect();
    assert_eq!(ids, vec!["a.mp4", "b.mp4"]);
    assert_eq!(
        plan.notices,
        vec![
            ManifestNotice::NotDirectFileName { entry: 1 },
            ManifestNotice::DuplicateFile { entry: 2 },
            ManifestNotice::InvalidFeatures { entry: 3 },
            ManifestNotice::UnreferencedMp4 { file: 3 },
        ]
    );
}
