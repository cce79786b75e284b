use vj_copilot::clip::{ClipId, ClipIdError};

#[test]
fn rejects_a_blank_clip_id() {
    assert_eq!(ClipId::new("  ").unwrap_err(), ClipIdError::Empty);
}

#[test]
fn rejects_empty_and_unicode_blank_clip_ids() {
    assert_eq!(ClipId::new("").unwrap_err(), ClipIdError::Empty);
    assert_eq!(ClipId::new("\t\n\u{3000}").unwrap_err(), ClipIdError::Empty);
}

#[test]
fn keeps_the_file_name_with_its_spaces() {
    let id = ClipId::new(" a.mp4 ").unwrap();
    assert_eq!(id.as_str(), " a.mp4 ");
}

#[test]
fn orders_clip_ids_by_name() {
    let a = ClipId::new("a.mp4").unwrap();
    let b = ClipId::new("b.mp4").unwrap();
    let ab = ClipId::new("a").unwrap();
    assert!(a.less_than(&b));
    assert!(!b.less_than(&a));
    assert!(ab.less_than(&a));
    assert!(!a.less_than(&a));
    assert!(a.same(&a.clone()));
    assert!(!a.same(&b));
}

#[test]
fn clip_id_error_has_a_message() {
    assert_eq!(ClipIdError::Empty.message(), "clip file name must not be empty");
}
