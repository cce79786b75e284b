use vj_copilot::candidate_state::CandidateState;
use vj_copilot::clip::ClipId;

fn id(value: &str) -> ClipId {
    ClipId::new(value).unwrap()
}

#[test]
fn retains_candidates_in_their_existing_slots() {
    let mut state = CandidateState::default();
    state.update_ranked(&[id("a.mp4"), id("b.mp4"), id("c.mp4"), id("d.mp4")]);

    state.update_ranked(&[id("b.mp4"), id("c.mp4"), id("e.mp4"), id("f.mp4")]);

    assert_eq!(state.slots()[1].as_ref(), Some(&id("b.mp4")));
    assert_eq!(state.slots()[2].as_ref(), Some(&id("c.mp4")));
    assert_eq!(state.slots()[0].as_ref(), Some(&id("e.mp4")));
    assert_eq!(state.slots()[3].as_ref(), Some(&id("f.mp4")));
}

#[test]
fn selection_holds_candidates_until_release() {
    let mut state = CandidateState::default();
    state.update_ranked(&[id("a.mp4"), id("b.mp4")]);

    assert!(state.select(0));
    assert!(state.is_held());
    assert_eq!(state.selected_slot(), Some(0));
    assert!(!state.update_ranked(&[id("c.mp4"), id("d.mp4")]));
    assert_eq!(state.slots()[0].as_ref(), Some(&id("a.mp4")));

    state.release();
    state.update_ranked(&[id("c.mp4"), id("d.mp4")]);

    assert!(!state.is_held());
    assert_eq!(state.selected_slot(), None);
    assert_eq!(state.slots()[0].as_ref(), Some(&id("c.mp4")));
}

#[test]
fn updating_twice_with_the_same_ranking_changes_nothing() {
    let mut state = CandidateState::default();
    let ranked = [id("a.mp4"), id("b.mp4"), id("c.mp4")];
    assert!(state.update_ranked(&ranked));
    assert!(!state.update_ranked(&ranked));
    assert_eq!(state.slots()[3], None);
}

#[test]
fn only_the_first_four_ranked_clips_are_shown_once_each() {
    let mut state = CandidateState::default();
    state.update_ranked(&[
        id("a.mp4"),
        id("a.mp4"),
        id("b.mp4"),
        id("c.mp4"),
        id("d.mp4"),
    ]);
    assert_eq!(state.slots()[0].as_ref(), Some(&id("a.mp4")));
    assert_eq!(state.slots()[1].as_ref(), Some(&id("b.mp4")));
    assert_eq!(state.slots()[2].as_ref(), Some(&id("c.mp4")));
    assert_eq!(state.slots()[3], None);
}

#[test]
fn an_empty_ranking_clears_the_slots_and_reports_the_change() {
    let mut state = CandidateState::default();
    state.update_ranked(&[id("a.mp4")]);
    assert!(state.update_ranked(&[]));
    assert!(state.slots().iter().all(Option::is_none));
}

#[test]
fn selecting_an_empty_or_missing_slot_does_nothing() {
    let mut state = CandidateState::default();
    state.update_ranked(&[id("a.mp4")]);
    assert!(!state.select(1));
    assert!(!state.select(7));
    assert!(!state.is_held());
    assert_eq!(state.selected_slot(), None);
}

#[test]
fn toggling_twice_restores_a_released_state() {
    let mut state = CandidateState::default();
    state.update_ranked(&[id("a.mp4")]);
    state.toggle_hold();
    assert!(state.is_held());
    assert_eq!(state.selected_slot(), None);
    state.toggle_hold();
    assert!(!state.is_held());
    assert_eq!(state.selected_slot(), None);
    assert_eq!(state.slots()[0].as_ref(), Some(&id("a.mp4")));
}

#[test]
fn toggling_a_selection_releases_it() {
    let mut state = CandidateState::default();
    state.update_ranked(&[id("a.mp4"), id("b.mp4")]);
    assert!(state.select(1));
    state.toggle_hold();
    assert!(!state.is_held());
    assert_eq!(state.selected_slot(), None);
}
