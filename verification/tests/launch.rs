use vj_copilot::launch::{parse_arguments, usage};

fn args(values: &[&str]) -> Vec<String> {
    values.iter().map(|value| value.to_string()).collect()
}

#[test]
fn reads_the_media_folder_and_demo_flag() {
    let options = parse_arguments(&args(&["--media-dir", "media", "--demo"]));
    assert_eq!(options.media_dir.as_deref(), Some("media"));
    assert!(options.demo);
    assert!(!options.show_help);
    assert!(options.notices.is_empty());
}

#[test]
fn reports_a_missing_folder_and_unknown_arguments() {
    let options = parse_arguments(&args(&["--loud", "-h", "--media-dir"]));
    assert_eq!(options.media_dir, None);
    assert!(options.show_help);
    assert_eq!(
        options.notices,
        vec![
            "未対応の引数です: --loud".to_owned(),
            "--media-dir の後にフォルダを指定してください".to_owned(),
        ]
    );
}

#[test]
fn the_last_media_folder_wins() {
    let options = parse_arguments(&args(&["--media-dir", "a", "--help", "--media-dir", "b"]));
    assert_eq!(options.media_dir.as_deref(), Some("b"));
    assert!(options.show_help);
}

#[test]
fn usage_names_the_options() {
    assert_eq!(
        usage(),
        "Usage: cargo run --release -- --media-dir <folder> [--demo]"
    );
}

#[test]
fn remembers_which_argument_is_the_media_folder() {
    let options = parse_arguments(&args(&["--demo", "--media-dir", "a", "--media-dir", "b"]));
    assert_eq!(options.media_dir_index, Some(4));
    let options = parse_arguments(&args(&["--demo", "--media-dir"]));
    assert_eq!(options.media_dir_index, None);
}
