use vj_copilot::clip::ClipId;
use vj_copilot::ranking::{rank_clips, ClipDistance};

fn candidate(file: &str, distance: u32) -> ClipDistance {
    ClipDistance {
        distance,
        id: ClipId::new(file).unwrap(),
    }
}

fn names(ranked: &[ClipId]) -> Vec<&str> {
    ranked.iter().map(ClipId::as_str).collect()
}

#[test]
fn ranks_by_distance_then_file_name() {
    let candidates = vec![
        candidate("z.mp4", 20),
        candidate("b.mp4", 10),
        candidate("a.mp4", 10),
        candidate("near.mp4", 2),
        candidate("far.mp4", 90),
    ];
    let ranked = rank_clips(&candidates);
    assert_eq!(names(&ranked), vec!["near.mp4", "a.mp4", "b.mp4", "z.mp4"]);
}

#[test]
fn returns_every_clip_when_fewer_than_four_exist() {
    let candidates = vec![candidate("one.mp4", 5), candidate("two.mp4", 0)];
    let ranked = rank_clips(&candidates);
    assert_eq!(names(&ranked), vec!["two.mp4", "one.mp4"]);
}

#[test]
fn ranks_nothing_when_there_are_no_clips() {
    assert!(rank_clips(&[]).is_empty());
}

#[test]
fn float_distances_order_by_their_bits() {
    let distances = [0.0_f32, 0.0001, 0.02, 0.5, 2.0];
    let keys: Vec<u32> = distances.iter().map(|d| d.to_bits()).collect();
    let mut sorted = keys.clone();
    sorted.sort();
    assert_eq!(keys, sorted);
}

/// The squared distance between two feature points, as the application computes it, turned
/// into the order key the library ranks by.
fn distance_key(target: (f32, f32), clip: (f32, f32)) -> u32 {
    let energy_difference = target.0 - clip.0;
    let brightness_difference = target.1 - clip.1;
    (energy_difference * energy_difference + brightness_difference * brightness_difference)
        .to_bits()
}

fn clip(file: &str, energy: f32, brightness: f32) -> (String, f32, f32) {
    (file.to_owned(), energy, brightness)
}

fn rank_features(target: (f32, f32), clips: &[(String, f32, f32)]) -> Vec<ClipId> {
    let candidates: Vec<ClipDistance> = clips
        .iter()
        .map(|(file, energy, brightness)| {
            candidate(file, distance_key(target, (*energy, *brightness)))
        })
        .collect();
    rank_clips(&candidates)
}

#[test]
fn ranks_by_squared_distance_then_filename() {
    let clips = vec![
        clip("z.mp4", 0.4, 0.4),
        clip("b.mp4", 0.6, 0.5),
        clip("a.mp4", 0.5, 0.6),
        clip("near.mp4", 0.51, 0.51),
    ];

    let result = rank_features((0.5, 0.5), &clips);
    let names: Vec<&str> = result.iter().map(ClipId::as_str).collect();

    assert_eq!(names, vec!["near.mp4", "a.mp4", "b.mp4", "z.mp4"]);
}

#[test]
fn returns_only_available_clips_when_fewer_than_four_exist() {
    let clips = vec![clip("one.mp4", 0.1, 0.1), clip("two.mp4", 0.2, 0.2)];

    let result = rank_features((0.2, 0.2), &clips);

    assert_eq!(result.len(), 2);
    assert_eq!(result[0].as_str(), "two.mp4");
}
